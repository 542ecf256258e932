//! The HTTP wire codec: percent-decoded query values to request fields,
//! and bencoded response bodies. Failures are bencoded failure-reason
//! dictionaries served with HTTP 200; only the transport layer itself
//! answers with other status codes.

use vstd::prelude::*;
use crate::errors::TrackerError;
use crate::peer::{InfoHash, IpAddress, Peer, PeerId};
use crate::udp::{be16_seq, be32_seq, be64_seq, info_hash_at, peer_id_at, peer_id_bytes,
    read_info_hash, read_peer_id, read_u16, read_u32, read_u64, u16_bytes, u32_bytes, u64_bytes};

verus! {

// ---- decimal numbers -------------------------------------------------------

pub open spec fn is_digit(b: u8) -> bool {
    48 <= b <= 57
}

/// The value of a digit string, most significant first.
pub open spec fn dec_val(s: Seq<u8>) -> int
    decreases s.len(),
{
    if s.len() == 0 {
        0
    } else {
        dec_val(s.drop_last()) * 10 + (s.last() as int - 48)
    }
}

pub open spec fn all_digits(s: Seq<u8>) -> bool {
    forall|i: int| 0 <= i < s.len() ==> is_digit(s[i])
}

/// What a decimal parameter means: a non-empty digit string whose value
/// fits an unsigned 64-bit number; anything else is rejected.
pub open spec fn dec_parse(s: Seq<u8>) -> Result<u64, TrackerError> {
    if s.len() == 0 || !all_digits(s) || dec_val(s) > u64::MAX {
        Err(TrackerError::InvalidNumber)
    } else {
        Ok(dec_val(s) as u64)
    }
}

pub proof fn lemma_dec_val_nonneg(s: Seq<u8>)
    requires
        all_digits(s),
    ensures
        dec_val(s) >= 0,
    decreases s.len(),
{
    if s.len() > 0 {
        assert(forall|i: int| 0 <= i < s.drop_last().len() ==> is_digit(s.drop_last()[i]));
        lemma_dec_val_nonneg(s.drop_last());
    }
}

/// A digit string is worth at least any of its prefixes.
pub proof fn lemma_dec_val_prefix(s: Seq<u8>, i: int)
    requires
        all_digits(s),
        0 <= i <= s.len(),
    ensures
        dec_val(s.take(i)) <= dec_val(s),
    decreases s.len(),
{
    if i == s.len() {
        assert(s.take(i) =~= s);
    } else {
        assert(forall|j: int| 0 <= j < s.drop_last().len() ==> is_digit(s.drop_last()[j]));
        lemma_dec_val_prefix(s.drop_last(), i);
        assert(s.drop_last().take(i) =~= s.take(i));
        lemma_dec_val_nonneg(s.drop_last());
    }
}

pub fn parse_decimal(v: &Vec<u8>) -> (r: Result<u64, TrackerError>)
    ensures
        r == dec_parse(v@),
{
    if v.len() == 0 {
        return Err(TrackerError::InvalidNumber);
    }
    let mut acc: u64 = 0;
    let mut i: usize = 0;
    while i < v.len()
        invariant
            i <= v@.len(),
            all_digits(v@.take(i as int)),
            acc == dec_val(v@.take(i as int)),
        decreases v@.len() - i,
    {
        let b = v[i];
        proof {
            assert(v@.take(i + 1).drop_last() =~= v@.take(i as int));
            assert(v@.take(i + 1).last() == v@[i as int]);
        }
        if b < 48 || b > 57 {
            return Err(TrackerError::InvalidNumber);
        }
        let d = (b - 48) as u64;
        let step = match acc.checked_mul(10) {
            Some(x) => x.checked_add(d),
            None => None,
        };
        match step {
            Some(x) => {
                acc = x;
            },
            None => {
                proof {
                    assert(dec_val(v@.take(i + 1)) > u64::MAX);
                    if all_digits(v@) {
                        lemma_dec_val_prefix(v@, i + 1);
                    }
                }
                return Err(TrackerError::InvalidNumber);
            },
        }
        i = i + 1;
    }
    proof {
        assert(v@.take(v@.len() as int) =~= v@);
    }
    Ok(acc)
}

/// What the `port` parameter means: a decimal in 1..65535.
pub open spec fn port_parse(s: Seq<u8>) -> Result<u16, TrackerError> {
    match dec_parse(s) {
        Err(_) => Err(TrackerError::InvalidPort),
        Ok(n) => if 1 <= n <= 65535 {
            Ok(n as u16)
        } else {
            Err(TrackerError::InvalidPort)
        },
    }
}

pub fn parse_port(v: &Vec<u8>) -> (r: Result<u16, TrackerError>)
    ensures
        r == port_parse(v@),
{
    match parse_decimal(v) {
        Err(_) => Err(TrackerError::InvalidPort),
        Ok(n) => if 1 <= n && n <= 65535 {
            Ok(n as u16)
        } else {
            Err(TrackerError::InvalidPort)
        },
    }
}

// ---- percent decoding ------------------------------------------------------

/// The value of a hex digit, or -1.
pub open spec fn hex_val(b: u8) -> int {
    if 48 <= b <= 57 {
        b - 48
    } else if 97 <= b <= 102 {
        b - 87
    } else if 65 <= b <= 70 {
        b - 55
    } else {
        -1
    }
}

/// URL percent-decoding: `%xy` becomes one byte, anything else passes
/// through; a dangling or malformed escape fails the whole value.
pub open spec fn pct_decode(s: Seq<u8>) -> Option<Seq<u8>>
    decreases s.len(),
{
    if s.len() == 0 {
        Some(Seq::empty())
    } else if s[0] == 37 {
        if s.len() < 3 {
            None
        } else if hex_val(s[1]) < 0 || hex_val(s[2]) < 0 {
            None
        } else {
            match pct_decode(s.skip(3)) {
                None => None,
                Some(rest) => Some(seq![(hex_val(s[1]) * 16 + hex_val(s[2])) as u8] + rest),
            }
        }
    } else {
        match pct_decode(s.skip(1)) {
            None => None,
            Some(rest) => Some(seq![s[0]] + rest),
        }
    }
}

fn hex_digit(b: u8) -> (r: Option<u8>)
    ensures
        r is Some <==> hex_val(b) >= 0,
        r is Some ==> r->0 == hex_val(b),
{
    if 48 <= b && b <= 57 {
        Some(b - 48)
    } else if 97 <= b && b <= 102 {
        Some(b - 87)
    } else if 65 <= b && b <= 70 {
        Some(b - 55)
    } else {
        None
    }
}

fn pct_decode_from(v: &Vec<u8>, i: usize) -> (r: Option<Vec<u8>>)
    requires
        i <= v.len(),
    ensures
        match r {
            Some(out) => pct_decode(v@.skip(i as int)) == Some(out@),
            None => pct_decode(v@.skip(i as int)) is None,
        },
    decreases v@.len() - i,
{
    let ghost tail = v@.skip(i as int);
    if i == v.len() {
        proof {
            assert(tail =~= Seq::<u8>::empty());
        }
        return Some(Vec::new());
    }
    proof {
        assert(tail[0] == v@[i as int]);
    }
    let b = v[i];
    if b == 37 {
        if v.len() - i < 3 {
            proof {
                assert(tail.len() < 3);
            }
            return None;
        }
        proof {
            assert(tail[1] == v@[i + 1]);
            assert(tail[2] == v@[i + 2]);
            assert(tail.skip(3) =~= v@.skip(i + 3));
        }
        let h = hex_digit(v[i + 1]);
        let l = hex_digit(v[i + 2]);
        match (h, l) {
            (Some(hv), Some(lv)) => {
                match pct_decode_from(v, i + 3) {
                    Some(mut rest) => {
                        let ghost rest0 = rest@;
                        rest.insert(0, hv * 16 + lv);
                        proof {
                            assert(rest@ =~= seq![(hex_val(v@[i + 1]) * 16 + hex_val(
                                v@[i + 2],
                            )) as u8] + rest0);
                        }
                        Some(rest)
                    },
                    None => None,
                }
            },
            _ => None,
        }
    } else {
        proof {
            assert(tail.skip(1) =~= v@.skip(i + 1));
        }
        match pct_decode_from(v, i + 1) {
            Some(mut rest) => {
                let ghost rest0 = rest@;
                rest.insert(0, b);
                proof {
                    assert(rest@ =~= seq![tail[0]] + rest0);
                }
                Some(rest)
            },
            None => None,
        }
    }
}

pub fn percent_decode(v: &Vec<u8>) -> (r: Option<Vec<u8>>)
    ensures
        match r {
            Some(out) => pct_decode(v@) == Some(out@),
            None => pct_decode(v@) is None,
        },
{
    proof {
        assert(v@.skip(0) =~= v@);
    }
    pct_decode_from(v, 0)
}

/// What the `info_hash` parameter means: exactly 20 decoded bytes.
pub open spec fn info_hash_param(s: Seq<u8>) -> Result<InfoHash, TrackerError> {
    match pct_decode(s) {
        Some(b) => if b.len() == 20 {
            Ok(info_hash_at(b, 0))
        } else {
            Err(TrackerError::MalformedInfoHash)
        },
        None => Err(TrackerError::MalformedInfoHash),
    }
}

pub fn decode_info_hash(v: &Vec<u8>) -> (r: Result<InfoHash, TrackerError>)
    ensures
        r == info_hash_param(v@),
{
    match percent_decode(v) {
        Some(b) => if b.len() == 20 {
            Ok(read_info_hash(&b, 0))
        } else {
            Err(TrackerError::MalformedInfoHash)
        },
        None => Err(TrackerError::MalformedInfoHash),
    }
}

/// What the `peer_id` parameter means: exactly 20 decoded bytes.
pub open spec fn peer_id_param(s: Seq<u8>) -> Result<PeerId, TrackerError> {
    match pct_decode(s) {
        Some(b) => if b.len() == 20 {
            Ok(peer_id_at(b, 0))
        } else {
            Err(TrackerError::MalformedPeerId)
        },
        None => Err(TrackerError::MalformedPeerId),
    }
}

pub fn decode_peer_id(v: &Vec<u8>) -> (r: Result<PeerId, TrackerError>)
    ensures
        r == peer_id_param(v@),
{
    match percent_decode(v) {
        Some(b) => if b.len() == 20 {
            Ok(read_peer_id(&b, 0))
        } else {
            Err(TrackerError::MalformedPeerId)
        },
        None => Err(TrackerError::MalformedPeerId),
    }
}

// ---- bencoding -------------------------------------------------------------

/// The decimal digits of a number, most significant first.
pub open spec fn dec_digits(n: nat) -> Seq<u8>
    decreases n,
{
    if n < 10 {
        seq![(48 + n) as u8]
    } else {
        dec_digits(n / 10) + seq![(48 + n % 10) as u8]
    }
}

pub fn u64_to_decimal(n: u64) -> (r: Vec<u8>)
    ensures
        r@ == dec_digits(n as nat),
    decreases n,
{
    if n < 10 {
        let mut out: Vec<u8> = Vec::new();
        out.push(48 + (n as u8));
        proof {
            assert(out@ =~= dec_digits(n as nat));
        }
        out
    } else {
        let mut out = u64_to_decimal(n / 10);
        out.push(48 + ((n % 10) as u8));
        proof {
            assert(out@ =~= dec_digits(n as nat));
        }
        out
    }
}

/// `d14:failure reason<len>:<message>e`.
pub open spec fn bencoded_failure(msg: Seq<u8>) -> Seq<u8> {
    seq![100u8, 49u8, 52u8, 58u8]
        + seq![102u8, 97u8, 105u8, 108u8, 117u8, 114u8, 101u8, 32u8]
        + seq![114u8, 101u8, 97u8, 115u8, 111u8, 110u8]
        + dec_digits(msg.len())
        + seq![58u8] + msg + seq![101u8]
}

/// Append every byte of `piece` to `out`.
pub fn push_bytes(out: &mut Vec<u8>, piece: &Vec<u8>)
    ensures
        final(out)@ == old(out)@ + piece@,
{
    let ghost base = out@;
    let mut i: usize = 0;
    while i < piece.len()
        invariant
            i <= piece@.len(),
            out@ == base + piece@.take(i as int),
        decreases piece@.len() - i,
    {
        out.push(piece[i]);
        proof {
            assert(out@ =~= base + piece@.take(i + 1));
        }
        i = i + 1;
    }
    proof {
        assert(piece@.take(piece@.len() as int) =~= piece@);
    }
}

/// The bencoded failure dictionary every rejected HTTP request is
/// answered with.
pub fn encode_failure(msg: &Vec<u8>) -> (r: Vec<u8>)
    ensures
        r@ == bencoded_failure(msg@),
{
    let mut out: Vec<u8> = Vec::new();
    out.push(100);
    out.push(49);
    out.push(52);
    out.push(58);
    out.push(102);
    out.push(97);
    out.push(105);
    out.push(108);
    out.push(117);
    out.push(114);
    out.push(101);
    out.push(32);
    out.push(114);
    out.push(101);
    out.push(97);
    out.push(115);
    out.push(111);
    out.push(110);
    let digits = u64_to_decimal(msg.len() as u64);
    push_bytes(&mut out, &digits);
    out.push(58);
    push_bytes(&mut out, msg);
    out.push(101);
    proof {
        assert(out@ =~= bencoded_failure(msg@));
    }
    out
}

// ---- compact peer lists ----------------------------------------------------

/// One v4 endpoint's six wire bytes.
pub open spec fn compact_pair_bytes(p: (u32, u16)) -> Seq<u8> {
    u32_bytes(p.0) + u16_bytes(p.1)
}

/// The compact list of v4 endpoints.
pub open spec fn compact_bytes(ps: Seq<(u32, u16)>) -> Seq<u8>
    decreases ps.len(),
{
    if ps.len() == 0 {
        Seq::empty()
    } else {
        compact_bytes(ps.drop_last()) + compact_pair_bytes(ps.last())
    }
}

pub proof fn lemma_compact_bytes_len(ps: Seq<(u32, u16)>)
    ensures
        compact_bytes(ps).len() == 6 * ps.len(),
    decreases ps.len(),
{
    if ps.len() > 0 {
        lemma_compact_bytes_len(ps.drop_last());
    }
}

pub fn encode_compact(ps: &Vec<(u32, u16)>) -> (r: Vec<u8>)
    ensures
        r@ == compact_bytes(ps@),
{
    let mut out: Vec<u8> = Vec::new();
    let mut i: usize = 0;
    while i < ps.len()
        invariant
            i <= ps@.len(),
            out@ == compact_bytes(ps@.take(i as int)),
        decreases ps@.len() - i,
    {
        proof {
            assert(ps@.take(i + 1).drop_last() =~= ps@.take(i as int));
            assert(ps@.take(i + 1).last() == ps@[i as int]);
        }
        let p = ps[i];
        crate::udp::push_u32(&mut out, p.0);
        crate::udp::push_u16(&mut out, p.1);
        proof {
            assert(out@ =~= compact_bytes(ps@.take(i + 1)));
        }
        i = i + 1;
    }
    proof {
        assert(ps@.take(ps@.len() as int) =~= ps@);
    }
    out
}

/// The first `n` endpoints read off a compact list.
pub open spec fn compact_parse(s: Seq<u8>, n: int) -> Seq<(u32, u16)>
    decreases n,
{
    if n <= 0 {
        Seq::empty()
    } else {
        compact_parse(s, n - 1).push(
            (
                be32_seq(s.subrange(6 * (n - 1), 6 * (n - 1) + 4)),
                be16_seq(s.subrange(6 * (n - 1) + 4, 6 * (n - 1) + 6)),
            ),
        )
    }
}

pub fn decode_compact(v: &Vec<u8>) -> (r: Result<Vec<(u32, u16)>, TrackerError>)
    ensures
        v@.len() % 6 != 0 ==> r == Err::<Vec<(u32, u16)>, TrackerError>(TrackerError::InvalidNumber),
        v@.len() % 6 == 0 ==> (r is Ok && r->Ok_0@ == compact_parse(v@, (v@.len() as int) / 6)),
{
    let total = v.len();
    if total % 6 != 0 {
        return Err(TrackerError::InvalidNumber);
    }
    let n = total / 6;
    proof {
        assert(n * 6 == v@.len()) by (nonlinear_arith)
            requires
                n == (v@.len() as int) / 6,
                v@.len() % 6 == 0,
        ;
    }
    let mut out: Vec<(u32, u16)> = Vec::new();
    let mut i: usize = 0;
    while i < n
        invariant
            total == v@.len(),
            n * 6 == v@.len(),
            i <= n,
            out@ == compact_parse(v@, i as int),
        decreases n - i,
    {
        proof {
            assert((i + 1) * 6 <= n * 6) by (nonlinear_arith)
                requires
                    i < n,
            ;
        }
        let a = read_u32(v, 6 * i);
        let p = read_u16(v, 6 * i + 4);
        out.push((a, p));
        i = i + 1;
    }
    Ok(out)
}

/// Reading a prefix is not disturbed by bytes past it.
pub proof fn lemma_compact_parse_prefix(s: Seq<u8>, t: Seq<u8>, n: int)
    requires
        0 <= 6 * n <= s.len(),
    ensures
        compact_parse(s + t, n) == compact_parse(s, n),
    decreases n,
{
    if n > 0 {
        lemma_compact_parse_prefix(s, t, n - 1);
        assert((s + t).subrange(6 * (n - 1), 6 * (n - 1) + 4) =~= s.subrange(
            6 * (n - 1),
            6 * (n - 1) + 4,
        ));
        assert((s + t).subrange(6 * (n - 1) + 4, 6 * (n - 1) + 6) =~= s.subrange(
            6 * (n - 1) + 4,
            6 * (n - 1) + 6,
        ));
    }
}

/// Round trip of the compact peer list: decoding what was encoded gives
/// back exactly the same endpoints.
pub proof fn lemma_compact_roundtrip(ps: Seq<(u32, u16)>)
    ensures
        compact_parse(compact_bytes(ps), ps.len() as int) == ps,
    decreases ps.len(),
{
    if ps.len() > 0 {
        let n = ps.len() as int;
        let dl = ps.drop_last();
        let last = ps.last();
        lemma_compact_roundtrip(dl);
        lemma_compact_bytes_len(dl);
        lemma_compact_parse_prefix(compact_bytes(dl), compact_pair_bytes(last), n - 1);
        let s = compact_bytes(ps);
        assert(s.subrange(6 * (n - 1), 6 * (n - 1) + 4) =~= u32_bytes(last.0));
        assert(s.subrange(6 * (n - 1) + 4, 6 * (n - 1) + 6) =~= u16_bytes(last.1));
        crate::udp::lemma_u32_roundtrip(last.0);
        crate::udp::lemma_u16_roundtrip(last.1);
        assert(compact_parse(s, n) =~= ps);
    }
}

/// The compact endpoints of a peer list: every v4 peer in order.
pub open spec fn v4_endpoints(peers: Seq<Peer>) -> Seq<(u32, u16)>
    decreases peers.len(),
{
    if peers.len() == 0 {
        Seq::empty()
    } else {
        match peers.last().ip {
            IpAddress::V4(a) => v4_endpoints(peers.drop_last()).push((a, peers.last().port)),
            IpAddress::V6(_) => v4_endpoints(peers.drop_last()),
        }
    }
}

/// The endpoints a compact HTTP announce response carries.
pub fn peers_to_endpoints(peers: &Vec<Peer>) -> (r: Vec<(u32, u16)>)
    ensures
        r@ == v4_endpoints(peers@),
{
    let mut out: Vec<(u32, u16)> = Vec::new();
    let mut i: usize = 0;
    while i < peers.len()
        invariant
            i <= peers@.len(),
            out@ == v4_endpoints(peers@.take(i as int)),
        decreases peers@.len() - i,
    {
        proof {
            assert(peers@.take(i + 1).drop_last() =~= peers@.take(i as int));
            assert(peers@.take(i + 1).last() == peers@[i as int]);
        }
        let p = &peers[i];
        match p.ip {
            IpAddress::V4(a) => {
                out.push((a, p.port));
            },
            IpAddress::V6(_) => {},
        }
        i = i + 1;
    }
    proof {
        assert(peers@.take(peers@.len() as int) =~= peers@);
    }
    out
}

// ---- non-compact announce response -----------------------------------------

/// A v4 address rendered as dotted decimal.
pub open spec fn dotted_v4(a: u32) -> Seq<u8> {
    dec_digits(((a >> 24) & 0xff) as nat) + seq![46u8] + dec_digits(((a >> 16) & 0xff) as nat)
        + seq![46u8] + dec_digits(((a >> 8) & 0xff) as nat) + seq![46u8] + dec_digits(
        (a & 0xff) as nat,
    )
}

pub fn render_dotted_v4(a: u32) -> (r: Vec<u8>)
    ensures
        r@ == dotted_v4(a),
{
    let mut out: Vec<u8> = Vec::new();
    let d0 = u64_to_decimal(((a >> 24) & 0xff) as u64);
    push_bytes(&mut out, &d0);
    out.push(46);
    let d1 = u64_to_decimal(((a >> 16) & 0xff) as u64);
    push_bytes(&mut out, &d1);
    out.push(46);
    let d2 = u64_to_decimal(((a >> 8) & 0xff) as u64);
    push_bytes(&mut out, &d2);
    out.push(46);
    let d3 = u64_to_decimal((a & 0xff) as u64);
    push_bytes(&mut out, &d3);
    proof {
        assert(out@ =~= dotted_v4(a));
    }
    out
}

/// `i<n>e`.
pub open spec fn bencoded_int(n: nat) -> Seq<u8> {
    seq![105u8] + dec_digits(n) + seq![101u8]
}

fn push_bencoded_int(out: &mut Vec<u8>, n: u64)
    ensures
        final(out)@ == old(out)@ + bencoded_int(n as nat),
{
    out.push(105);
    let d = u64_to_decimal(n);
    push_bytes(out, &d);
    out.push(101);
    proof {
        assert(final(out)@ =~= old(out)@ + bencoded_int(n as nat));
    }
}

/// A hex digit as its lower-case ASCII byte.
pub open spec fn hex_char(n: u8) -> u8 {
    if n < 10 {
        (48 + n) as u8
    } else {
        (87 + n) as u8
    }
}

/// One 16-bit group of a v6 address as four hex digits.
pub open spec fn group_bytes(g: u16) -> Seq<u8> {
    seq![
        hex_char(((g >> 12) & 0xf) as u8),
        hex_char(((g >> 8) & 0xf) as u8),
        hex_char(((g >> 4) & 0xf) as u8),
        hex_char((g & 0xf) as u8),
    ]
}

/// A v6 address as its full uncompressed textual form: eight four-digit
/// hex groups joined by colons, 39 bytes in all.
pub open spec fn v6_text(x: u128) -> Seq<u8> {
    group_bytes(((x >> 112) & 0xffff) as u16) + seq![58u8] + group_bytes(
        ((x >> 96) & 0xffff) as u16,
    ) + seq![58u8] + group_bytes(((x >> 80) & 0xffff) as u16) + seq![58u8] + group_bytes(
        ((x >> 64) & 0xffff) as u16,
    ) + seq![58u8] + group_bytes(((x >> 48) & 0xffff) as u16) + seq![58u8] + group_bytes(
        ((x >> 32) & 0xffff) as u16,
    ) + seq![58u8] + group_bytes(((x >> 16) & 0xffff) as u16) + seq![58u8] + group_bytes(
        (x & 0xffff) as u16,
    )
}

/// One peer dictionary of the non-compact list; a v4 address is rendered
/// dotted-decimal, a v6 address in its full hex form.
pub open spec fn bencoded_peer(p: Peer) -> Seq<u8> {
    match p.ip {
        IpAddress::V4(a) => seq![100u8]
            + seq![50u8, 58u8, 105u8, 112u8] + dec_digits(dotted_v4(a).len()) + seq![58u8]
            + dotted_v4(a)
            + seq![55u8, 58u8, 112u8, 101u8, 101u8, 114u8, 32u8, 105u8, 100u8]
            + seq![50u8, 48u8, 58u8] + peer_id_bytes(p.peer_id)
            + seq![52u8, 58u8, 112u8, 111u8, 114u8, 116u8] + bencoded_int(p.port as nat)
            + seq![101u8],
        IpAddress::V6(x) => seq![100u8]
            + seq![50u8, 58u8, 105u8, 112u8] + seq![51u8, 57u8, 58u8]
            + v6_text(x)
            + seq![55u8, 58u8, 112u8, 101u8, 101u8, 114u8, 32u8, 105u8, 100u8]
            + seq![50u8, 48u8, 58u8] + peer_id_bytes(p.peer_id)
            + seq![52u8, 58u8, 112u8, 111u8, 114u8, 116u8] + bencoded_int(p.port as nat)
            + seq![101u8],
    }
}

pub open spec fn bencoded_peers(peers: Seq<Peer>) -> Seq<u8>
    decreases peers.len(),
{
    if peers.len() == 0 {
        Seq::empty()
    } else {
        bencoded_peers(peers.drop_last()) + bencoded_peer(peers.last())
    }
}

/// The fixed dictionary keys of the announce body.
pub open spec fn key_complete() -> Seq<u8> {
    seq![56u8, 58u8, 99u8, 111u8, 109u8, 112u8, 108u8, 101u8, 116u8, 101u8]
}

pub open spec fn key_incomplete() -> Seq<u8> {
    seq![49u8, 48u8, 58u8, 105u8, 110u8, 99u8, 111u8, 109u8, 112u8, 108u8, 101u8, 116u8, 101u8]
}

pub open spec fn key_interval() -> Seq<u8> {
    seq![56u8, 58u8, 105u8, 110u8, 116u8, 101u8, 114u8, 118u8, 97u8, 108u8]
}

pub open spec fn key_min_interval() -> Seq<u8> {
    seq![
        49u8,
        50u8,
        58u8,
        109u8,
        105u8,
        110u8,
        32u8,
        105u8,
        110u8,
        116u8,
        101u8,
        114u8,
        118u8,
        97u8,
        108u8,
    ]
}

pub open spec fn key_peers_list() -> Seq<u8> {
    seq![53u8, 58u8, 112u8, 101u8, 101u8, 114u8, 115u8, 108u8]
}

/// The whole non-compact announce body:
/// `d8:completei..e10:incompletei..e8:intervali..e12:min intervali..e5:peersl...ee`.
pub open spec fn bencoded_announce(
    complete: u32,
    incomplete: u32,
    interval: u32,
    min_interval: u32,
    peers: Seq<Peer>,
) -> Seq<u8> {
    seq![100u8] + key_complete() + bencoded_int(complete as nat) + key_incomplete()
        + bencoded_int(incomplete as nat) + key_interval() + bencoded_int(interval as nat)
        + key_min_interval() + bencoded_int(min_interval as nat) + key_peers_list()
        + bencoded_peers(peers) + seq![101u8] + seq![101u8]
}

fn push_one(out: &mut Vec<u8>, b: u8)
    ensures
        final(out)@ == old(out)@ + seq![b],
{
    out.push(b);
    proof {
        assert(final(out)@ =~= old(out)@ + seq![b]);
    }
}

fn push_key_complete(out: &mut Vec<u8>)
    ensures
        final(out)@ == old(out)@ + key_complete(),
{
    out.push(56);
    out.push(58);
    out.push(99);
    out.push(111);
    out.push(109);
    out.push(112);
    out.push(108);
    out.push(101);
    out.push(116);
    out.push(101);
    proof {
        assert(final(out)@ =~= old(out)@ + key_complete());
    }
}

fn push_key_incomplete(out: &mut Vec<u8>)
    ensures
        final(out)@ == old(out)@ + key_incomplete(),
{
    out.push(49);
    out.push(48);
    out.push(58);
    out.push(105);
    out.push(110);
    out.push(99);
    out.push(111);
    out.push(109);
    out.push(112);
    out.push(108);
    out.push(101);
    out.push(116);
    out.push(101);
    proof {
        assert(final(out)@ =~= old(out)@ + key_incomplete());
    }
}

fn push_key_interval(out: &mut Vec<u8>)
    ensures
        final(out)@ == old(out)@ + key_interval(),
{
    out.push(56);
    out.push(58);
    out.push(105);
    out.push(110);
    out.push(116);
    out.push(101);
    out.push(114);
    out.push(118);
    out.push(97);
    out.push(108);
    proof {
        assert(final(out)@ =~= old(out)@ + key_interval());
    }
}

fn push_key_min_interval(out: &mut Vec<u8>)
    ensures
        final(out)@ == old(out)@ + key_min_interval(),
{
    out.push(49);
    out.push(50);
    out.push(58);
    out.push(109);
    out.push(105);
    out.push(110);
    out.push(32);
    out.push(105);
    out.push(110);
    out.push(116);
    out.push(101);
    out.push(114);
    out.push(118);
    out.push(97);
    out.push(108);
    proof {
        assert(final(out)@ =~= old(out)@ + key_min_interval());
    }
}

fn push_key_peers_list(out: &mut Vec<u8>)
    ensures
        final(out)@ == old(out)@ + key_peers_list(),
{
    out.push(53);
    out.push(58);
    out.push(112);
    out.push(101);
    out.push(101);
    out.push(114);
    out.push(115);
    out.push(108);
    proof {
        assert(final(out)@ =~= old(out)@ + key_peers_list());
    }
}

/// Append one peer's dictionary.
#[verifier::rlimit(100)]
fn push_bencoded_peer(out: &mut Vec<u8>, p: &Peer)
    ensures
        final(out)@ == old(out)@ + bencoded_peer(*p),
{
    match p.ip {
        IpAddress::V4(a) => {
            out.push(100);
            out.push(50);
            out.push(58);
            out.push(105);
            out.push(112);
            let dotted = render_dotted_v4(a);
            let digits = u64_to_decimal(dotted.len() as u64);
            push_bytes(out, &digits);
            out.push(58);
            push_bytes(out, &dotted);
            out.push(55);
            out.push(58);
            out.push(112);
            out.push(101);
            out.push(101);
            out.push(114);
            out.push(32);
            out.push(105);
            out.push(100);
            out.push(50);
            out.push(48);
            out.push(58);
            crate::udp::push_peer_id(out, &p.peer_id);
            out.push(52);
            out.push(58);
            out.push(112);
            out.push(111);
            out.push(114);
            out.push(116);
            push_bencoded_int(out, p.port as u64);
            out.push(101);
            proof {
                assert(final(out)@ =~= old(out)@ + bencoded_peer(*p));
            }
        },
        IpAddress::V6(x) => {
            out.push(100);
            out.push(50);
            out.push(58);
            out.push(105);
            out.push(112);
            out.push(51);
            out.push(57);
            out.push(58);
            push_v6_text(out, x);
            out.push(55);
            out.push(58);
            out.push(112);
            out.push(101);
            out.push(101);
            out.push(114);
            out.push(32);
            out.push(105);
            out.push(100);
            out.push(50);
            out.push(48);
            out.push(58);
            crate::udp::push_peer_id(out, &p.peer_id);
            out.push(52);
            out.push(58);
            out.push(112);
            out.push(111);
            out.push(114);
            out.push(116);
            push_bencoded_int(out, p.port as u64);
            out.push(101);
            proof {
                assert(final(out)@ =~= old(out)@ + bencoded_peer(*p));
            }
        },
    }
}

/// Append one four-digit hex group.
fn push_group(out: &mut Vec<u8>, g: u16)
    ensures
        final(out)@ == old(out)@ + group_bytes(g),
{
    proof {
        assert(((g >> 12) & 0xf) < 16 && ((g >> 8) & 0xf) < 16 && ((g >> 4) & 0xf) < 16 && (g
            & 0xf) < 16) by (bit_vector);
    }
    out.push(hex_char_of(((g >> 12) & 0xf) as u8));
    out.push(hex_char_of(((g >> 8) & 0xf) as u8));
    out.push(hex_char_of(((g >> 4) & 0xf) as u8));
    out.push(hex_char_of((g & 0xf) as u8));
    proof {
        assert(final(out)@ =~= old(out)@ + group_bytes(g));
    }
}

fn hex_char_of(n: u8) -> (r: u8)
    requires
        n < 16,
    ensures
        r == hex_char(n),
{
    if n < 10 {
        48 + n
    } else {
        87 + n
    }
}

/// Append the full textual form of a v6 address.
fn push_v6_text(out: &mut Vec<u8>, x: u128)
    ensures
        final(out)@ == old(out)@ + v6_text(x),
{
    push_group(out, ((x >> 112) & 0xffff) as u16);
    out.push(58);
    push_group(out, ((x >> 96) & 0xffff) as u16);
    out.push(58);
    push_group(out, ((x >> 80) & 0xffff) as u16);
    out.push(58);
    push_group(out, ((x >> 64) & 0xffff) as u16);
    out.push(58);
    push_group(out, ((x >> 48) & 0xffff) as u16);
    out.push(58);
    push_group(out, ((x >> 32) & 0xffff) as u16);
    out.push(58);
    push_group(out, ((x >> 16) & 0xffff) as u16);
    out.push(58);
    push_group(out, (x & 0xffff) as u16);
    proof {
        assert(final(out)@ =~= old(out)@ + v6_text(x));
    }
}

pub fn encode_announce_body(
    complete: u32,
    incomplete: u32,
    interval: u32,
    min_interval: u32,
    peers: &Vec<Peer>,
) -> (r: Vec<u8>)
    ensures
        r@ == bencoded_announce(complete, incomplete, interval, min_interval, peers@),
{
    let mut out: Vec<u8> = Vec::new();
    proof {
        assert(out@ + seq![100u8] =~= seq![100u8]);
    }
    push_one(&mut out, 100);
    push_key_complete(&mut out);
    push_bencoded_int(&mut out, complete as u64);
    push_key_incomplete(&mut out);
    push_bencoded_int(&mut out, incomplete as u64);
    push_key_interval(&mut out);
    push_bencoded_int(&mut out, interval as u64);
    push_key_min_interval(&mut out);
    push_bencoded_int(&mut out, min_interval as u64);
    push_key_peers_list(&mut out);
    let ghost before_peers = out@;
    let mut i: usize = 0;
    while i < peers.len()
        invariant
            i <= peers@.len(),
            out@ == before_peers + bencoded_peers(peers@.take(i as int)),
        decreases peers@.len() - i,
    {
        proof {
            assert(peers@.take(i + 1).drop_last() =~= peers@.take(i as int));
            assert(peers@.take(i + 1).last() == peers@[i as int]);
        }
        let p = peers[i];
        push_bencoded_peer(&mut out, &p);
        proof {
            assert(out@ =~= before_peers + bencoded_peers(peers@.take(i + 1)));
        }
        i = i + 1;
    }
    proof {
        assert(peers@.take(peers@.len() as int) =~= peers@);
    }
    push_one(&mut out, 101);
    push_one(&mut out, 101);
    out
}

// ---- compact v6 peer lists -------------------------------------------------

/// One v6 endpoint's eighteen wire bytes.
pub open spec fn compact6_pair_bytes(p: (u128, u16)) -> Seq<u8> {
    u64_bytes((((p.0 >> 64) & 0xffff_ffff_ffff_ffff) as u64)) + u64_bytes(
        ((p.0 & 0xffff_ffff_ffff_ffff) as u64),
    ) + u16_bytes(p.1)
}

/// The compact list of v6 endpoints.
pub open spec fn compact6_bytes(ps: Seq<(u128, u16)>) -> Seq<u8>
    decreases ps.len(),
{
    if ps.len() == 0 {
        Seq::empty()
    } else {
        compact6_bytes(ps.drop_last()) + compact6_pair_bytes(ps.last())
    }
}

pub proof fn lemma_compact6_bytes_len(ps: Seq<(u128, u16)>)
    ensures
        compact6_bytes(ps).len() == 18 * ps.len(),
    decreases ps.len(),
{
    if ps.len() > 0 {
        lemma_compact6_bytes_len(ps.drop_last());
    }
}

pub fn encode_compact6(ps: &Vec<(u128, u16)>) -> (r: Vec<u8>)
    ensures
        r@ == compact6_bytes(ps@),
{
    let mut out: Vec<u8> = Vec::new();
    let mut i: usize = 0;
    while i < ps.len()
        invariant
            i <= ps@.len(),
            out@ == compact6_bytes(ps@.take(i as int)),
        decreases ps@.len() - i,
    {
        proof {
            assert(ps@.take(i + 1).drop_last() =~= ps@.take(i as int));
            assert(ps@.take(i + 1).last() == ps@[i as int]);
        }
        let p = ps[i];
        crate::udp::push_u64(&mut out, ((p.0 >> 64) & 0xffff_ffff_ffff_ffff) as u64);
        crate::udp::push_u64(&mut out, (p.0 & 0xffff_ffff_ffff_ffff) as u64);
        crate::udp::push_u16(&mut out, p.1);
        proof {
            assert(out@ =~= compact6_bytes(ps@.take(i + 1)));
        }
        i = i + 1;
    }
    proof {
        assert(ps@.take(ps@.len() as int) =~= ps@);
    }
    out
}

/// The first `n` endpoints read off a compact v6 list.
pub open spec fn compact6_parse(s: Seq<u8>, n: int) -> Seq<(u128, u16)>
    decreases n,
{
    if n <= 0 {
        Seq::empty()
    } else {
        compact6_parse(s, n - 1).push(
            (
                (((be64_seq(s.subrange(18 * (n - 1), 18 * (n - 1) + 8)) as u128) << 64) | (
                be64_seq(s.subrange(18 * (n - 1) + 8, 18 * (n - 1) + 16)) as u128)),
                be16_seq(s.subrange(18 * (n - 1) + 16, 18 * (n - 1) + 18)),
            ),
        )
    }
}

pub fn decode_compact6(v: &Vec<u8>) -> (r: Result<Vec<(u128, u16)>, TrackerError>)
    ensures
        v@.len() % 18 != 0 ==> r == Err::<Vec<(u128, u16)>, TrackerError>(
            TrackerError::InvalidNumber,
        ),
        v@.len() % 18 == 0 ==> (r is Ok && r->Ok_0@ == compact6_parse(v@, (v@.len() as int) / 18)),
{
    let total = v.len();
    if total % 18 != 0 {
        return Err(TrackerError::InvalidNumber);
    }
    let n = total / 18;
    proof {
        assert(n * 18 == v@.len()) by (nonlinear_arith)
            requires
                n == (v@.len() as int) / 18,
                v@.len() % 18 == 0,
        ;
    }
    let mut out: Vec<(u128, u16)> = Vec::new();
    let mut i: usize = 0;
    while i < n
        invariant
            total == v@.len(),
            n * 18 == v@.len(),
            i <= n,
            out@ == compact6_parse(v@, i as int),
        decreases n - i,
    {
        proof {
            assert((i + 1) * 18 <= n * 18) by (nonlinear_arith)
                requires
                    i < n,
            ;
        }
        let hi = read_u64(v, 18 * i);
        let lo = read_u64(v, 18 * i + 8);
        let port = read_u16(v, 18 * i + 16);
        out.push((((hi as u128) << 64) | (lo as u128), port));
        i = i + 1;
    }
    Ok(out)
}

/// Reading a v6 prefix is not disturbed by bytes past it.
pub proof fn lemma_compact6_parse_prefix(s: Seq<u8>, t: Seq<u8>, n: int)
    requires
        0 <= 18 * n <= s.len(),
    ensures
        compact6_parse(s + t, n) == compact6_parse(s, n),
    decreases n,
{
    if n > 0 {
        lemma_compact6_parse_prefix(s, t, n - 1);
        assert((s + t).subrange(18 * (n - 1), 18 * (n - 1) + 8) =~= s.subrange(
            18 * (n - 1),
            18 * (n - 1) + 8,
        ));
        assert((s + t).subrange(18 * (n - 1) + 8, 18 * (n - 1) + 16) =~= s.subrange(
            18 * (n - 1) + 8,
            18 * (n - 1) + 16,
        ));
        assert((s + t).subrange(18 * (n - 1) + 16, 18 * (n - 1) + 18) =~= s.subrange(
            18 * (n - 1) + 16,
            18 * (n - 1) + 18,
        ));
    }
}

/// Round trip of the compact v6 list.
pub proof fn lemma_compact6_roundtrip(ps: Seq<(u128, u16)>)
    ensures
        compact6_parse(compact6_bytes(ps), ps.len() as int) == ps,
    decreases ps.len(),
{
    if ps.len() > 0 {
        let n = ps.len() as int;
        let dl = ps.drop_last();
        let last = ps.last();
        lemma_compact6_roundtrip(dl);
        lemma_compact6_bytes_len(dl);
        lemma_compact6_parse_prefix(compact6_bytes(dl), compact6_pair_bytes(last), n - 1);
        let s = compact6_bytes(ps);
        let hi = ((last.0 >> 64) & 0xffff_ffff_ffff_ffff) as u64;
        let lo = (last.0 & 0xffff_ffff_ffff_ffff) as u64;
        assert(s.subrange(18 * (n - 1), 18 * (n - 1) + 8) =~= u64_bytes(hi));
        assert(s.subrange(18 * (n - 1) + 8, 18 * (n - 1) + 16) =~= u64_bytes(lo));
        assert(s.subrange(18 * (n - 1) + 16, 18 * (n - 1) + 18) =~= u16_bytes(last.1));
        crate::udp::lemma_u64_roundtrip(hi);
        crate::udp::lemma_u64_roundtrip(lo);
        crate::udp::lemma_u16_roundtrip(last.1);
        let x = last.0;
        assert(((((((x >> 64) & 0xffff_ffff_ffff_ffff) as u64) as u128) << 64) | (((
        x & 0xffff_ffff_ffff_ffff) as u64) as u128)) == x) by (bit_vector);
        assert(compact6_parse(s, n) =~= ps);
    }
}

/// The compact v6 endpoints of a peer list: every v6 peer in order.
pub open spec fn v6_endpoints(peers: Seq<Peer>) -> Seq<(u128, u16)>
    decreases peers.len(),
{
    if peers.len() == 0 {
        Seq::empty()
    } else {
        match peers.last().ip {
            IpAddress::V6(x) => v6_endpoints(peers.drop_last()).push((x, peers.last().port)),
            IpAddress::V4(_) => v6_endpoints(peers.drop_last()),
        }
    }
}

/// The endpoints a compact v6 response carries.
pub fn peers_to_endpoints6(peers: &Vec<Peer>) -> (r: Vec<(u128, u16)>)
    ensures
        r@ == v6_endpoints(peers@),
{
    let mut out: Vec<(u128, u16)> = Vec::new();
    let mut i: usize = 0;
    while i < peers.len()
        invariant
            i <= peers@.len(),
            out@ == v6_endpoints(peers@.take(i as int)),
        decreases peers@.len() - i,
    {
        proof {
            assert(peers@.take(i + 1).drop_last() =~= peers@.take(i as int));
            assert(peers@.take(i + 1).last() == peers@[i as int]);
        }
        let p = &peers[i];
        match p.ip {
            IpAddress::V6(x) => {
                out.push((x, p.port));
            },
            IpAddress::V4(_) => {},
        }
        i = i + 1;
    }
    proof {
        assert(peers@.take(peers@.len() as int) =~= peers@);
    }
    out
}

} // verus!
