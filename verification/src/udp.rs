//! The UDP wire codec: BEP-15 packets as functions between raw bytes and
//! the tracker's request and response values. All integers are big-endian
//! at fixed offsets; packets shorter than a header are dropped silently,
//! which the parse functions report as their own error so the transport
//! can stay quiet.

use vstd::prelude::*;
use vstd::arithmetic::div_mod::{lemma_div_multiples_vanish, lemma_mod_multiples_basic};
use crate::announce::AnnounceRequest;
use crate::http::{compact_bytes, compact_parse, compact6_bytes, compact6_parse,
    lemma_compact_bytes_len, lemma_compact_roundtrip, lemma_compact6_bytes_len,
    lemma_compact6_roundtrip, v4_endpoints, v6_endpoints};
use crate::errors::TrackerError;
use crate::peer::{AnnounceEvent, InfoHash, IpAddress, Peer, PeerId};
use crate::swarm::SwarmStats;

verus! {

pub const PROTOCOL_MAGIC: u64 = 0x41727101980;

pub const ACTION_CONNECT: u32 = 0;

pub const ACTION_ANNOUNCE: u32 = 1;

pub const ACTION_SCRAPE: u32 = 2;

pub const ACTION_ERROR: u32 = 3;

// ---- big-endian pieces ----------------------------------------------------

pub open spec fn u16_bytes(x: u16) -> Seq<u8> {
    seq![((x >> 8) & 0xff) as u8, (x & 0xff) as u8]
}

pub open spec fn u32_bytes(x: u32) -> Seq<u8> {
    seq![
        ((x >> 24) & 0xff) as u8,
        ((x >> 16) & 0xff) as u8,
        ((x >> 8) & 0xff) as u8,
        (x & 0xff) as u8,
    ]
}

pub open spec fn u64_bytes(x: u64) -> Seq<u8> {
    seq![
        ((x >> 56) & 0xff) as u8,
        ((x >> 48) & 0xff) as u8,
        ((x >> 40) & 0xff) as u8,
        ((x >> 32) & 0xff) as u8,
        ((x >> 24) & 0xff) as u8,
        ((x >> 16) & 0xff) as u8,
        ((x >> 8) & 0xff) as u8,
        (x & 0xff) as u8,
    ]
}

/// The value whose big-endian bytes the first two elements are.
pub open spec fn be16_seq(b: Seq<u8>) -> u16 {
    (((b[0] as u16) << 8) | (b[1] as u16)) as u16
}

pub open spec fn be32_seq(b: Seq<u8>) -> u32 {
    (((b[0] as u32) << 24) | ((b[1] as u32) << 16) | ((b[2] as u32) << 8) | (b[3] as u32)) as u32
}

pub open spec fn be64_seq(b: Seq<u8>) -> u64 {
    (((b[0] as u64) << 56) | ((b[1] as u64) << 48) | ((b[2] as u64) << 40) | ((b[3] as u64) << 32)
        | ((b[4] as u64) << 24) | ((b[5] as u64) << 16) | ((b[6] as u64) << 8) | (b[7] as u64)) as u64
}

pub proof fn lemma_u16_roundtrip(x: u16)
    ensures
        be16_seq(u16_bytes(x)) == x,
{
    let b0 = ((x >> 8) & 0xff) as u8;
    let b1 = (x & 0xff) as u8;
    assert(((((b0 as u16) << 8) | (b1 as u16)) as u16) == x) by (bit_vector)
        requires
            b0 == ((x >> 8) & 0xff) as u8,
            b1 == (x & 0xff) as u8,
    ;
}

pub proof fn lemma_u32_roundtrip(x: u32)
    ensures
        be32_seq(u32_bytes(x)) == x,
{
    let b0 = ((x >> 24) & 0xff) as u8;
    let b1 = ((x >> 16) & 0xff) as u8;
    let b2 = ((x >> 8) & 0xff) as u8;
    let b3 = (x & 0xff) as u8;
    assert(((((b0 as u32) << 24) | ((b1 as u32) << 16) | ((b2 as u32) << 8) | (b3 as u32)) as u32)
        == x) by (bit_vector)
        requires
            b0 == ((x >> 24) & 0xff) as u8,
            b1 == ((x >> 16) & 0xff) as u8,
            b2 == ((x >> 8) & 0xff) as u8,
            b3 == (x & 0xff) as u8,
    ;
}

pub proof fn lemma_u64_roundtrip(x: u64)
    ensures
        be64_seq(u64_bytes(x)) == x,
{
    let b0 = ((x >> 56) & 0xff) as u8;
    let b1 = ((x >> 48) & 0xff) as u8;
    let b2 = ((x >> 40) & 0xff) as u8;
    let b3 = ((x >> 32) & 0xff) as u8;
    let b4 = ((x >> 24) & 0xff) as u8;
    let b5 = ((x >> 16) & 0xff) as u8;
    let b6 = ((x >> 8) & 0xff) as u8;
    let b7 = (x & 0xff) as u8;
    assert(((((b0 as u64) << 56) | ((b1 as u64) << 48) | ((b2 as u64) << 40) | ((b3 as u64) << 32)
        | ((b4 as u64) << 24) | ((b5 as u64) << 16) | ((b6 as u64) << 8) | (b7 as u64)) as u64)
        == x) by (bit_vector)
        requires
            b0 == ((x >> 56) & 0xff) as u8,
            b1 == ((x >> 48) & 0xff) as u8,
            b2 == ((x >> 40) & 0xff) as u8,
            b3 == ((x >> 32) & 0xff) as u8,
            b4 == ((x >> 24) & 0xff) as u8,
            b5 == ((x >> 16) & 0xff) as u8,
            b6 == ((x >> 8) & 0xff) as u8,
            b7 == (x & 0xff) as u8,
    ;
}

// ---- executable readers and writers ---------------------------------------

pub fn read_u16(v: &Vec<u8>, i: usize) -> (r: u16)
    requires
        i + 2 <= v.len(),
    ensures
        r == be16_seq(v@.subrange(i as int, i + 2)),
{
    proof {
        assert(v@.subrange(i as int, i + 2)[0] == v@[i as int]);
        assert(v@.subrange(i as int, i + 2)[1] == v@[i + 1]);
    }
    ((v[i] as u16) << 8) | (v[i + 1] as u16)
}

pub fn read_u32(v: &Vec<u8>, i: usize) -> (r: u32)
    requires
        i + 4 <= v.len(),
    ensures
        r == be32_seq(v@.subrange(i as int, i + 4)),
{
    proof {
        assert(v@.subrange(i as int, i + 4)[0] == v@[i as int]);
        assert(v@.subrange(i as int, i + 4)[1] == v@[i + 1]);
        assert(v@.subrange(i as int, i + 4)[2] == v@[i + 2]);
        assert(v@.subrange(i as int, i + 4)[3] == v@[i + 3]);
    }
    ((v[i] as u32) << 24) | ((v[i + 1] as u32) << 16) | ((v[i + 2] as u32) << 8) | (v[i + 3] as u32)
}

pub fn read_u64(v: &Vec<u8>, i: usize) -> (r: u64)
    requires
        i + 8 <= v.len(),
    ensures
        r == be64_seq(v@.subrange(i as int, i + 8)),
{
    proof {
        assert(v@.subrange(i as int, i + 8)[0] == v@[i as int]);
        assert(v@.subrange(i as int, i + 8)[1] == v@[i + 1]);
        assert(v@.subrange(i as int, i + 8)[2] == v@[i + 2]);
        assert(v@.subrange(i as int, i + 8)[3] == v@[i + 3]);
        assert(v@.subrange(i as int, i + 8)[4] == v@[i + 4]);
        assert(v@.subrange(i as int, i + 8)[5] == v@[i + 5]);
        assert(v@.subrange(i as int, i + 8)[6] == v@[i + 6]);
        assert(v@.subrange(i as int, i + 8)[7] == v@[i + 7]);
    }
    ((v[i] as u64) << 56) | ((v[i + 1] as u64) << 48) | ((v[i + 2] as u64) << 40) | ((v[i + 3]
        as u64) << 32) | ((v[i + 4] as u64) << 24) | ((v[i + 5] as u64) << 16) | ((v[i + 6] as u64)
        << 8) | (v[i + 7] as u64)
}

pub fn push_u16(out: &mut Vec<u8>, x: u16)
    ensures
        final(out)@ == old(out)@ + u16_bytes(x),
{
    out.push(((x >> 8) & 0xff) as u8);
    out.push((x & 0xff) as u8);
    proof {
        assert(final(out)@ =~= old(out)@ + u16_bytes(x));
    }
}

pub fn push_u32(out: &mut Vec<u8>, x: u32)
    ensures
        final(out)@ == old(out)@ + u32_bytes(x),
{
    out.push(((x >> 24) & 0xff) as u8);
    out.push(((x >> 16) & 0xff) as u8);
    out.push(((x >> 8) & 0xff) as u8);
    out.push((x & 0xff) as u8);
    proof {
        assert(final(out)@ =~= old(out)@ + u32_bytes(x));
    }
}

pub fn push_u64(out: &mut Vec<u8>, x: u64)
    ensures
        final(out)@ == old(out)@ + u64_bytes(x),
{
    out.push(((x >> 56) & 0xff) as u8);
    out.push(((x >> 48) & 0xff) as u8);
    out.push(((x >> 40) & 0xff) as u8);
    out.push(((x >> 32) & 0xff) as u8);
    out.push(((x >> 24) & 0xff) as u8);
    out.push(((x >> 16) & 0xff) as u8);
    out.push(((x >> 8) & 0xff) as u8);
    out.push((x & 0xff) as u8);
    proof {
        assert(final(out)@ =~= old(out)@ + u64_bytes(x));
    }
}

// ---- 20-byte identifiers ---------------------------------------------------

pub open spec fn info_hash_bytes(h: InfoHash) -> Seq<u8> {
    u64_bytes(h.w0) + u64_bytes(h.w1) + u32_bytes(h.w2)
}

pub open spec fn info_hash_at(s: Seq<u8>, i: int) -> InfoHash {
    InfoHash {
        w0: be64_seq(s.subrange(i, i + 8)),
        w1: be64_seq(s.subrange(i + 8, i + 16)),
        w2: be32_seq(s.subrange(i + 16, i + 20)),
    }
}

pub open spec fn peer_id_bytes(p: PeerId) -> Seq<u8> {
    u64_bytes(p.w0) + u64_bytes(p.w1) + u32_bytes(p.w2)
}

pub open spec fn peer_id_at(s: Seq<u8>, i: int) -> PeerId {
    PeerId {
        w0: be64_seq(s.subrange(i, i + 8)),
        w1: be64_seq(s.subrange(i + 8, i + 16)),
        w2: be32_seq(s.subrange(i + 16, i + 20)),
    }
}

pub fn read_info_hash(v: &Vec<u8>, i: usize) -> (r: InfoHash)
    requires
        i + 20 <= v.len(),
    ensures
        r == info_hash_at(v@, i as int),
{
    InfoHash { w0: read_u64(v, i), w1: read_u64(v, i + 8), w2: read_u32(v, i + 16) }
}

pub fn read_peer_id(v: &Vec<u8>, i: usize) -> (r: PeerId)
    requires
        i + 20 <= v.len(),
    ensures
        r == peer_id_at(v@, i as int),
{
    PeerId { w0: read_u64(v, i), w1: read_u64(v, i + 8), w2: read_u32(v, i + 16) }
}

pub fn push_info_hash(out: &mut Vec<u8>, h: &InfoHash)
    ensures
        final(out)@ == old(out)@ + info_hash_bytes(*h),
{
    push_u64(out, h.w0);
    push_u64(out, h.w1);
    push_u32(out, h.w2);
    proof {
        assert(final(out)@ =~= old(out)@ + info_hash_bytes(*h));
    }
}

pub fn push_peer_id(out: &mut Vec<u8>, p: &PeerId)
    ensures
        final(out)@ == old(out)@ + peer_id_bytes(*p),
{
    push_u64(out, p.w0);
    push_u64(out, p.w1);
    push_u32(out, p.w2);
    proof {
        assert(final(out)@ =~= old(out)@ + peer_id_bytes(*p));
    }
}

// ---- connect ---------------------------------------------------------------

/// What a connect request means: the transaction id to echo.
pub open spec fn connect_request_parse(s: Seq<u8>) -> Result<u32, TrackerError> {
    if s.len() < 16 {
        Err(TrackerError::ShortPacket)
    } else if be64_seq(s.subrange(0, 8)) != PROTOCOL_MAGIC {
        Err(TrackerError::ProtocolMagicInvalid)
    } else if be32_seq(s.subrange(8, 12)) != ACTION_CONNECT {
        Err(TrackerError::ProtocolMagicInvalid)
    } else {
        Ok(be32_seq(s.subrange(12, 16)))
    }
}

pub fn parse_connect_request(v: &Vec<u8>) -> (r: Result<u32, TrackerError>)
    ensures
        r == connect_request_parse(v@),
{
    if v.len() < 16 {
        return Err(TrackerError::ShortPacket);
    }
    if read_u64(v, 0) != PROTOCOL_MAGIC {
        return Err(TrackerError::ProtocolMagicInvalid);
    }
    if read_u32(v, 8) != ACTION_CONNECT {
        return Err(TrackerError::ProtocolMagicInvalid);
    }
    Ok(read_u32(v, 12))
}

pub open spec fn connect_request_bytes(transaction_id: u32) -> Seq<u8> {
    u64_bytes(PROTOCOL_MAGIC) + u32_bytes(ACTION_CONNECT) + u32_bytes(transaction_id)
}

pub fn encode_connect_request(transaction_id: u32) -> (r: Vec<u8>)
    ensures
        r@ == connect_request_bytes(transaction_id),
{
    let mut out: Vec<u8> = Vec::new();
    push_u64(&mut out, PROTOCOL_MAGIC);
    push_u32(&mut out, ACTION_CONNECT);
    push_u32(&mut out, transaction_id);
    proof {
        assert(out@ =~= connect_request_bytes(transaction_id));
    }
    out
}

/// Round trip of the connect request: what `encode_connect_request` writes,
/// `connect_request_parse` reads back as the same transaction id.
pub proof fn lemma_connect_request_roundtrip(transaction_id: u32)
    ensures
        connect_request_parse(connect_request_bytes(transaction_id)) == Ok::<u32, TrackerError>(
            transaction_id,
        ),
{
    let s = connect_request_bytes(transaction_id);
    assert(s.subrange(0, 8) =~= u64_bytes(PROTOCOL_MAGIC));
    assert(s.subrange(8, 12) =~= u32_bytes(ACTION_CONNECT));
    assert(s.subrange(12, 16) =~= u32_bytes(transaction_id));
    lemma_u64_roundtrip(PROTOCOL_MAGIC);
    lemma_u32_roundtrip(ACTION_CONNECT);
    lemma_u32_roundtrip(transaction_id);
}

pub open spec fn connect_response_bytes(transaction_id: u32, connection_id: u64) -> Seq<u8> {
    u32_bytes(ACTION_CONNECT) + u32_bytes(transaction_id) + u64_bytes(connection_id)
}

pub fn encode_connect_response(transaction_id: u32, connection_id: u64) -> (r: Vec<u8>)
    ensures
        r@ == connect_response_bytes(transaction_id, connection_id),
{
    let mut out: Vec<u8> = Vec::new();
    push_u32(&mut out, ACTION_CONNECT);
    push_u32(&mut out, transaction_id);
    push_u64(&mut out, connection_id);
    proof {
        assert(out@ =~= connect_response_bytes(transaction_id, connection_id));
    }
    out
}

/// What a connect response means: the echoed transaction id and the
/// issued connection id.
pub open spec fn connect_response_parse(s: Seq<u8>) -> Result<(u32, u64), TrackerError> {
    if s.len() < 16 {
        Err(TrackerError::ShortPacket)
    } else if be32_seq(s.subrange(0, 4)) != ACTION_CONNECT {
        Err(TrackerError::ProtocolMagicInvalid)
    } else {
        Ok((be32_seq(s.subrange(4, 8)), be64_seq(s.subrange(8, 16))))
    }
}

pub fn parse_connect_response(v: &Vec<u8>) -> (r: Result<(u32, u64), TrackerError>)
    ensures
        r == connect_response_parse(v@),
{
    if v.len() < 16 {
        return Err(TrackerError::ShortPacket);
    }
    if read_u32(v, 0) != ACTION_CONNECT {
        return Err(TrackerError::ProtocolMagicInvalid);
    }
    Ok((read_u32(v, 4), read_u64(v, 8)))
}

/// Round trip of the connect response.
pub proof fn lemma_connect_response_roundtrip(transaction_id: u32, connection_id: u64)
    ensures
        connect_response_parse(connect_response_bytes(transaction_id, connection_id)) == Ok::<
            (u32, u64),
            TrackerError,
        >((transaction_id, connection_id)),
{
    let s = connect_response_bytes(transaction_id, connection_id);
    assert(s.subrange(0, 4) =~= u32_bytes(ACTION_CONNECT));
    assert(s.subrange(4, 8) =~= u32_bytes(transaction_id));
    assert(s.subrange(8, 16) =~= u64_bytes(connection_id));
    lemma_u32_roundtrip(ACTION_CONNECT);
    lemma_u32_roundtrip(transaction_id);
    lemma_u64_roundtrip(connection_id);
}

// ---- announce --------------------------------------------------------------

/// A full UDP announce packet: connection handshake fields, the echo
/// fields the response needs, and the tracker-level request.
#[derive(Clone, Copy, PartialEq, Eq, Structural, Debug)]
pub struct UdpAnnounce {
    pub connection_id: u64,
    pub transaction_id: u32,
    /// The address field of the wire format; policy ignores it.
    pub client_ip_field: u32,
    pub key: u32,
    pub request: AnnounceRequest,
}

pub open spec fn event_code(e: AnnounceEvent) -> u32 {
    match e {
        AnnounceEvent::NoEvent => 0,
        AnnounceEvent::Completed => 1,
        AnnounceEvent::Started => 2,
        AnnounceEvent::Stopped => 3,
    }
}

pub open spec fn event_of_code(c: u32) -> Option<AnnounceEvent> {
    if c == 0 {
        Some(AnnounceEvent::NoEvent)
    } else if c == 1 {
        Some(AnnounceEvent::Completed)
    } else if c == 2 {
        Some(AnnounceEvent::Started)
    } else if c == 3 {
        Some(AnnounceEvent::Stopped)
    } else {
        None
    }
}

/// The wire form of `numwant`: any value with the sign bit set asks for
/// the default.
pub open spec fn numwant_of_raw(raw: u32) -> Option<u32> {
    if raw >= 0x8000_0000 {
        None
    } else {
        Some(raw)
    }
}

pub open spec fn raw_of_numwant(numwant: Option<u32>) -> u32 {
    match numwant {
        None => 0xffff_ffff,
        Some(n) => n,
    }
}

/// A request whose optional fields fit their wire form.
pub open spec fn udp_announce_wf(x: UdpAnnounce) -> bool {
    match x.request.numwant {
        Some(n) => n < 0x8000_0000,
        None => true,
    }
}

/// What an announce packet means.
pub open spec fn announce_request_parse(s: Seq<u8>) -> Result<UdpAnnounce, TrackerError> {
    if s.len() < 98 {
        Err(TrackerError::ShortPacket)
    } else if be32_seq(s.subrange(8, 12)) != ACTION_ANNOUNCE {
        Err(TrackerError::ProtocolMagicInvalid)
    } else {
        match event_of_code(be32_seq(s.subrange(80, 84))) {
            None => Err(TrackerError::InvalidNumber),
            Some(ev) => Ok(
                UdpAnnounce {
                    connection_id: be64_seq(s.subrange(0, 8)),
                    transaction_id: be32_seq(s.subrange(12, 16)),
                    client_ip_field: be32_seq(s.subrange(84, 88)),
                    key: be32_seq(s.subrange(88, 92)),
                    request: AnnounceRequest {
                        info_hash: info_hash_at(s, 16),
                        peer_id: peer_id_at(s, 36),
                        port: be16_seq(s.subrange(96, 98)),
                        uploaded: be64_seq(s.subrange(72, 80)),
                        downloaded: be64_seq(s.subrange(56, 64)),
                        left: be64_seq(s.subrange(64, 72)),
                        event: ev,
                        numwant: numwant_of_raw(be32_seq(s.subrange(92, 96))),
                    },
                },
            ),
        }
    }
}

pub fn parse_announce_request(v: &Vec<u8>) -> (r: Result<UdpAnnounce, TrackerError>)
    ensures
        r == announce_request_parse(v@),
{
    if v.len() < 98 {
        return Err(TrackerError::ShortPacket);
    }
    if read_u32(v, 8) != ACTION_ANNOUNCE {
        return Err(TrackerError::ProtocolMagicInvalid);
    }
    let code = read_u32(v, 80);
    let event: AnnounceEvent;
    if code == 0 {
        event = AnnounceEvent::NoEvent;
    } else if code == 1 {
        event = AnnounceEvent::Completed;
    } else if code == 2 {
        event = AnnounceEvent::Started;
    } else if code == 3 {
        event = AnnounceEvent::Stopped;
    } else {
        return Err(TrackerError::InvalidNumber);
    }
    let raw_numwant = read_u32(v, 92);
    let numwant: Option<u32> = if raw_numwant >= 0x8000_0000 {
        None
    } else {
        Some(raw_numwant)
    };
    Ok(
        UdpAnnounce {
            connection_id: read_u64(v, 0),
            transaction_id: read_u32(v, 12),
            client_ip_field: read_u32(v, 84),
            key: read_u32(v, 88),
            request: AnnounceRequest {
                info_hash: read_info_hash(v, 16),
                peer_id: read_peer_id(v, 36),
                port: read_u16(v, 96),
                uploaded: read_u64(v, 72),
                downloaded: read_u64(v, 56),
                left: read_u64(v, 64),
                event,
                numwant,
            },
        },
    )
}

pub open spec fn announce_request_bytes(x: UdpAnnounce) -> Seq<u8> {
    u64_bytes(x.connection_id) + u32_bytes(ACTION_ANNOUNCE) + u32_bytes(x.transaction_id)
        + info_hash_bytes(x.request.info_hash) + peer_id_bytes(x.request.peer_id) + u64_bytes(
        x.request.downloaded,
    ) + u64_bytes(x.request.left) + u64_bytes(x.request.uploaded) + u32_bytes(
        event_code(x.request.event),
    ) + u32_bytes(x.client_ip_field) + u32_bytes(x.key) + u32_bytes(raw_of_numwant(x.request.numwant))
        + u16_bytes(x.request.port)
}

pub fn encode_announce_request(x: &UdpAnnounce) -> (r: Vec<u8>)
    ensures
        r@ == announce_request_bytes(*x),
{
    let mut out: Vec<u8> = Vec::new();
    push_u64(&mut out, x.connection_id);
    push_u32(&mut out, ACTION_ANNOUNCE);
    push_u32(&mut out, x.transaction_id);
    push_info_hash(&mut out, &x.request.info_hash);
    push_peer_id(&mut out, &x.request.peer_id);
    push_u64(&mut out, x.request.downloaded);
    push_u64(&mut out, x.request.left);
    push_u64(&mut out, x.request.uploaded);
    let code: u32 = match x.request.event {
        AnnounceEvent::NoEvent => 0,
        AnnounceEvent::Completed => 1,
        AnnounceEvent::Started => 2,
        AnnounceEvent::Stopped => 3,
    };
    push_u32(&mut out, code);
    push_u32(&mut out, x.client_ip_field);
    push_u32(&mut out, x.key);
    let raw: u32 = match x.request.numwant {
        None => 0xffff_ffff,
        Some(n) => n,
    };
    push_u32(&mut out, raw);
    push_u16(&mut out, x.request.port);
    proof {
        assert(out@ =~= announce_request_bytes(*x));
    }
    out
}

/// Round trip of the announce request: every well-formed request survives
/// encoding and parsing unchanged.
#[verifier::rlimit(100)]
pub proof fn lemma_announce_request_roundtrip(x: UdpAnnounce)
    requires
        udp_announce_wf(x),
    ensures
        announce_request_parse(announce_request_bytes(x)) == Ok::<UdpAnnounce, TrackerError>(x),
{
    let s = announce_request_bytes(x);
    assert(s.len() == 98);
    assert(s.subrange(0, 8) =~= u64_bytes(x.connection_id));
    assert(s.subrange(8, 12) =~= u32_bytes(ACTION_ANNOUNCE));
    assert(s.subrange(12, 16) =~= u32_bytes(x.transaction_id));
    assert(s.subrange(16, 24) =~= u64_bytes(x.request.info_hash.w0));
    assert(s.subrange(24, 32) =~= u64_bytes(x.request.info_hash.w1));
    assert(s.subrange(32, 36) =~= u32_bytes(x.request.info_hash.w2));
    assert(s.subrange(36, 44) =~= u64_bytes(x.request.peer_id.w0));
    assert(s.subrange(44, 52) =~= u64_bytes(x.request.peer_id.w1));
    assert(s.subrange(52, 56) =~= u32_bytes(x.request.peer_id.w2));
    assert(s.subrange(56, 64) =~= u64_bytes(x.request.downloaded));
    assert(s.subrange(64, 72) =~= u64_bytes(x.request.left));
    assert(s.subrange(72, 80) =~= u64_bytes(x.request.uploaded));
    assert(s.subrange(80, 84) =~= u32_bytes(event_code(x.request.event)));
    assert(s.subrange(84, 88) =~= u32_bytes(x.client_ip_field));
    assert(s.subrange(88, 92) =~= u32_bytes(x.key));
    assert(s.subrange(92, 96) =~= u32_bytes(raw_of_numwant(x.request.numwant)));
    assert(s.subrange(96, 98) =~= u16_bytes(x.request.port));
    lemma_u64_roundtrip(x.connection_id);
    lemma_u32_roundtrip(ACTION_ANNOUNCE);
    lemma_u32_roundtrip(x.transaction_id);
    lemma_u64_roundtrip(x.request.info_hash.w0);
    lemma_u64_roundtrip(x.request.info_hash.w1);
    lemma_u32_roundtrip(x.request.info_hash.w2);
    lemma_u64_roundtrip(x.request.peer_id.w0);
    lemma_u64_roundtrip(x.request.peer_id.w1);
    lemma_u32_roundtrip(x.request.peer_id.w2);
    lemma_u64_roundtrip(x.request.downloaded);
    lemma_u64_roundtrip(x.request.left);
    lemma_u64_roundtrip(x.request.uploaded);
    lemma_u32_roundtrip(event_code(x.request.event));
    lemma_u32_roundtrip(x.client_ip_field);
    lemma_u32_roundtrip(x.key);
    lemma_u32_roundtrip(raw_of_numwant(x.request.numwant));
    lemma_u16_roundtrip(x.request.port);
    assert(info_hash_at(s, 16) == x.request.info_hash);
    assert(peer_id_at(s, 36) == x.request.peer_id);
}

// ---- announce response -----------------------------------------------------

/// A v4 peer's six wire bytes.
pub open spec fn peer_v4_bytes(p: Peer) -> Seq<u8> {
    match p.ip {
        IpAddress::V4(a) => u32_bytes(a) + u16_bytes(p.port),
        IpAddress::V6(_) => Seq::empty(),
    }
}

/// The compact list: the six bytes of each v4 peer in order; v6 peers do
/// not fit the v4 response and are skipped.
pub open spec fn compact_v4(peers: Seq<Peer>) -> Seq<u8>
    decreases peers.len(),
{
    if peers.len() == 0 {
        Seq::empty()
    } else {
        compact_v4(peers.drop_last()) + peer_v4_bytes(peers.last())
    }
}

pub open spec fn announce_response_bytes(
    transaction_id: u32,
    interval: u32,
    leechers: u32,
    seeders: u32,
    peers: Seq<Peer>,
) -> Seq<u8> {
    u32_bytes(ACTION_ANNOUNCE) + u32_bytes(transaction_id) + u32_bytes(interval) + u32_bytes(
        leechers,
    ) + u32_bytes(seeders) + compact_v4(peers)
}

pub fn encode_announce_response(
    transaction_id: u32,
    interval: u32,
    leechers: u32,
    seeders: u32,
    peers: &Vec<Peer>,
) -> (r: Vec<u8>)
    ensures
        r@ == announce_response_bytes(transaction_id, interval, leechers, seeders, peers@),
{
    let mut out: Vec<u8> = Vec::new();
    push_u32(&mut out, ACTION_ANNOUNCE);
    push_u32(&mut out, transaction_id);
    push_u32(&mut out, interval);
    push_u32(&mut out, leechers);
    push_u32(&mut out, seeders);
    let ghost header = out@;
    let mut i: usize = 0;
    while i < peers.len()
        invariant
            i <= peers@.len(),
            out@ == header + compact_v4(peers@.take(i as int)),
        decreases peers@.len() - i,
    {
        proof {
            assert(peers@.take(i + 1).drop_last() =~= peers@.take(i as int));
            assert(peers@.take(i + 1).last() == peers@[i as int]);
        }
        let p = &peers[i];
        match p.ip {
            IpAddress::V4(a) => {
                push_u32(&mut out, a);
                push_u16(&mut out, p.port);
                proof {
                    assert(out@ =~= header + compact_v4(peers@.take(i + 1)));
                }
            },
            IpAddress::V6(_) => {
                proof {
                    assert(out@ =~= header + compact_v4(peers@.take(i + 1)));
                }
            },
        }
        i = i + 1;
    }
    proof {
        assert(peers@.take(peers@.len() as int) =~= peers@);
        assert(out@ =~= announce_response_bytes(
            transaction_id,
            interval,
            leechers,
            seeders,
            peers@,
        ));
    }
    out
}

// ---- scrape ----------------------------------------------------------------

#[derive(PartialEq, Eq, Debug)]
pub struct UdpScrape {
    pub connection_id: u64,
    pub transaction_id: u32,
    pub info_hashes: Vec<InfoHash>,
}

/// The first `n` hashes of a scrape body.
pub open spec fn scrape_hashes(s: Seq<u8>, n: int) -> Seq<InfoHash>
    decreases n,
{
    if n <= 0 {
        Seq::empty()
    } else {
        scrape_hashes(s, n - 1).push(info_hash_at(s, 16 + (n - 1) * 20))
    }
}

/// What a scrape packet means: handshake fields and at least one hash,
/// the body an exact multiple of the 20-byte hash size.
pub open spec fn scrape_request_parse(s: Seq<u8>) -> Result<
    (u64, u32, Seq<InfoHash>),
    TrackerError,
> {
    if s.len() < 16 {
        Err(TrackerError::ShortPacket)
    } else if be32_seq(s.subrange(8, 12)) != ACTION_SCRAPE {
        Err(TrackerError::ProtocolMagicInvalid)
    } else if s.len() == 16 || (s.len() - 16) % 20 != 0 {
        Err(TrackerError::InvalidNumber)
    } else {
        Ok(
            (
                be64_seq(s.subrange(0, 8)),
                be32_seq(s.subrange(12, 16)),
                scrape_hashes(s, ((s.len() - 16) as int) / 20),
            ),
        )
    }
}

pub fn parse_scrape_request(v: &Vec<u8>) -> (r: Result<UdpScrape, TrackerError>)
    ensures
        match r {
            Ok(x) => scrape_request_parse(v@) == Ok::<(u64, u32, Seq<InfoHash>), TrackerError>(
                (x.connection_id, x.transaction_id, x.info_hashes@),
            ),
            Err(e) => scrape_request_parse(v@) == Err::<(u64, u32, Seq<InfoHash>), TrackerError>(e),
        },
{
    if v.len() < 16 {
        return Err(TrackerError::ShortPacket);
    }
    if read_u32(v, 8) != ACTION_SCRAPE {
        return Err(TrackerError::ProtocolMagicInvalid);
    }
    if v.len() == 16 || (v.len() - 16) % 20 != 0 {
        return Err(TrackerError::InvalidNumber);
    }
    let total = v.len();
    let n = (total - 16) / 20;
    proof {
        assert(n * 20 == v@.len() - 16) by (nonlinear_arith)
            requires
                n == ((v@.len() - 16) as int) / 20,
                (v@.len() - 16) % 20 == 0,
                v@.len() >= 16,
        ;
    }
    let mut hashes: Vec<InfoHash> = Vec::new();
    let mut i: usize = 0;
    while i < n
        invariant
            total == v@.len(),
            n * 20 == v@.len() - 16,
            i <= n,
            hashes@ == scrape_hashes(v@, i as int),
        decreases n - i,
    {
        proof {
            assert((i + 1) * 20 <= n * 20) by (nonlinear_arith)
                requires
                    i < n,
            ;
        }
        let h = read_info_hash(v, 16 + i * 20);
        hashes.push(h);
        i = i + 1;
    }
    Ok(UdpScrape { connection_id: read_u64(v, 0), transaction_id: read_u32(v, 12), info_hashes: hashes })
}

/// One scrape entry: seeders, completions, leechers, each saturated onto
/// its 32-bit field.
pub open spec fn scrape_entry_bytes(st: SwarmStats) -> Seq<u8> {
    u32_bytes(crate::announce::sat_u32(st.seeders as int)) + u32_bytes(
        crate::announce::sat_u32(st.completed as int),
    ) + u32_bytes(crate::announce::sat_u32(st.leechers as int))
}

pub open spec fn scrape_entries_bytes(entries: Seq<SwarmStats>) -> Seq<u8>
    decreases entries.len(),
{
    if entries.len() == 0 {
        Seq::empty()
    } else {
        scrape_entries_bytes(entries.drop_last()) + scrape_entry_bytes(entries.last())
    }
}

pub open spec fn scrape_response_bytes(transaction_id: u32, entries: Seq<SwarmStats>) -> Seq<u8> {
    u32_bytes(ACTION_SCRAPE) + u32_bytes(transaction_id) + scrape_entries_bytes(entries)
}

pub fn encode_scrape_response(transaction_id: u32, entries: &Vec<SwarmStats>) -> (r: Vec<u8>)
    ensures
        r@ == scrape_response_bytes(transaction_id, entries@),
{
    let mut out: Vec<u8> = Vec::new();
    push_u32(&mut out, ACTION_SCRAPE);
    push_u32(&mut out, transaction_id);
    let ghost header = out@;
    let mut i: usize = 0;
    while i < entries.len()
        invariant
            i <= entries@.len(),
            out@ == header + scrape_entries_bytes(entries@.take(i as int)),
        decreases entries@.len() - i,
    {
        proof {
            assert(entries@.take(i + 1).drop_last() =~= entries@.take(i as int));
            assert(entries@.take(i + 1).last() == entries@[i as int]);
        }
        let st = entries[i];
        push_u32(&mut out, crate::announce::count_to_u32(st.seeders));
        let completed32: u32 = if st.completed > u32::MAX as u64 {
            u32::MAX
        } else {
            st.completed as u32
        };
        push_u32(&mut out, completed32);
        push_u32(&mut out, crate::announce::count_to_u32(st.leechers));
        proof {
            assert(out@ =~= header + scrape_entries_bytes(entries@.take(i + 1)));
        }
        i = i + 1;
    }
    proof {
        assert(entries@.take(entries@.len() as int) =~= entries@);
        assert(out@ =~= scrape_response_bytes(transaction_id, entries@));
    }
    out
}

// ---- error -----------------------------------------------------------------

pub open spec fn error_response_bytes(transaction_id: u32, message: Seq<u8>) -> Seq<u8> {
    u32_bytes(ACTION_ERROR) + u32_bytes(transaction_id) + message
}

pub fn encode_error_response(transaction_id: u32, message: &Vec<u8>) -> (r: Vec<u8>)
    ensures
        r@ == error_response_bytes(transaction_id, message@),
{
    let mut out: Vec<u8> = Vec::new();
    push_u32(&mut out, ACTION_ERROR);
    push_u32(&mut out, transaction_id);
    let ghost header = out@;
    let mut i: usize = 0;
    while i < message.len()
        invariant
            i <= message@.len(),
            out@ == header + message@.take(i as int),
        decreases message@.len() - i,
    {
        out.push(message[i]);
        proof {
            assert(out@ =~= header + message@.take(i + 1));
        }
        i = i + 1;
    }
    proof {
        assert(message@.take(message@.len() as int) =~= message@);
        assert(out@ =~= error_response_bytes(transaction_id, message@));
    }
    out
}

// ---- packet dispatch -------------------------------------------------------

/// What the UDP front end does with one datagram, per the protocol state
/// machine: anything shorter than a header is dropped without an answer;
/// a parse failure after the header is answered with an error packet
/// echoing the request's transaction id; a well-formed request is routed
/// by its action.
#[derive(PartialEq, Eq, Debug)]
pub enum UdpDispatch {
    Ignore,
    Connect(u32),
    Announce(UdpAnnounce),
    Scrape(UdpScrape),
    ErrorReply(u32, TrackerError),
}

/// Classify one datagram. The routing is decided here and nowhere else:
/// the transport only performs what the returned value says.
pub fn dispatch_packet(v: &Vec<u8>) -> (r: UdpDispatch)
    ensures
        r is Ignore <==> v@.len() < 16,
        (v@.len() >= 16 && be32_seq(v@.subrange(8, 12)) == ACTION_CONNECT) ==> r == (
        match connect_request_parse(v@) {
            Ok(t) => UdpDispatch::Connect(t),
            Err(e) => UdpDispatch::ErrorReply(be32_seq(v@.subrange(12, 16)), e),
        }),
        (v@.len() >= 16 && be32_seq(v@.subrange(8, 12)) == ACTION_ANNOUNCE) ==> r == (
        match announce_request_parse(v@) {
            Ok(x) => UdpDispatch::Announce(x),
            Err(e) => UdpDispatch::ErrorReply(be32_seq(v@.subrange(12, 16)), e),
        }),
        (v@.len() >= 16 && be32_seq(v@.subrange(8, 12)) == ACTION_SCRAPE) ==> (
        match scrape_request_parse(v@) {
            Ok(parsed) => r matches UdpDispatch::Scrape(x) && x.connection_id == parsed.0
                && x.transaction_id == parsed.1 && x.info_hashes@ == parsed.2,
            Err(e) => r == UdpDispatch::ErrorReply(be32_seq(v@.subrange(12, 16)), e),
        }),
        (v@.len() >= 16 && be32_seq(v@.subrange(8, 12)) != ACTION_CONNECT && be32_seq(
            v@.subrange(8, 12),
        ) != ACTION_ANNOUNCE && be32_seq(v@.subrange(8, 12)) != ACTION_SCRAPE) ==> r
            == UdpDispatch::ErrorReply(
            be32_seq(v@.subrange(12, 16)),
            TrackerError::ProtocolMagicInvalid,
        ),
{
    if v.len() < 16 {
        return UdpDispatch::Ignore;
    }
    let action = read_u32(v, 8);
    let tid = read_u32(v, 12);
    if action == ACTION_CONNECT {
        match parse_connect_request(v) {
            Ok(t) => UdpDispatch::Connect(t),
            Err(e) => UdpDispatch::ErrorReply(tid, e),
        }
    } else if action == ACTION_ANNOUNCE {
        match parse_announce_request(v) {
            Ok(x) => UdpDispatch::Announce(x),
            Err(e) => UdpDispatch::ErrorReply(tid, e),
        }
    } else if action == ACTION_SCRAPE {
        match parse_scrape_request(v) {
            Ok(x) => UdpDispatch::Scrape(x),
            Err(e) => UdpDispatch::ErrorReply(tid, e),
        }
    } else {
        UdpDispatch::ErrorReply(tid, TrackerError::ProtocolMagicInvalid)
    }
}

// ---- announce responses read back ------------------------------------------

/// What a v4 announce response means: the echoed transaction id, the
/// interval, the two counts, and the compact endpoint list.
pub open spec fn announce_response_parse(s: Seq<u8>) -> Result<
    (u32, u32, u32, u32, Seq<(u32, u16)>),
    TrackerError,
> {
    if s.len() < 20 {
        Err(TrackerError::ShortPacket)
    } else if be32_seq(s.subrange(0, 4)) != ACTION_ANNOUNCE {
        Err(TrackerError::ProtocolMagicInvalid)
    } else if (s.len() - 20) % 6 != 0 {
        Err(TrackerError::InvalidNumber)
    } else {
        Ok(
            (
                be32_seq(s.subrange(4, 8)),
                be32_seq(s.subrange(8, 12)),
                be32_seq(s.subrange(12, 16)),
                be32_seq(s.subrange(16, 20)),
                compact_parse(s.skip(20), ((s.len() - 20) as int) / 6),
            ),
        )
    }
}

pub fn parse_announce_response(v: &Vec<u8>) -> (r: Result<
    (u32, u32, u32, u32, Vec<(u32, u16)>),
    TrackerError,
>)
    ensures
        match r {
            Ok(x) => announce_response_parse(v@) == Ok::<
                (u32, u32, u32, u32, Seq<(u32, u16)>),
                TrackerError,
            >((x.0, x.1, x.2, x.3, x.4@)),
            Err(e) => announce_response_parse(v@) == Err::<
                (u32, u32, u32, u32, Seq<(u32, u16)>),
                TrackerError,
            >(e),
        },
{
    if v.len() < 20 {
        return Err(TrackerError::ShortPacket);
    }
    if read_u32(v, 0) != ACTION_ANNOUNCE {
        return Err(TrackerError::ProtocolMagicInvalid);
    }
    let total = v.len();
    if (total - 20) % 6 != 0 {
        return Err(TrackerError::InvalidNumber);
    }
    let n = (total - 20) / 6;
    proof {
        assert(n * 6 == v@.len() - 20) by (nonlinear_arith)
            requires
                n == ((v@.len() - 20) as int) / 6,
                (v@.len() - 20) % 6 == 0,
                v@.len() >= 20,
        ;
    }
    let ghost body = v@.skip(20);
    let mut out: Vec<(u32, u16)> = Vec::new();
    let mut i: usize = 0;
    while i < n
        invariant
            total == v@.len(),
            n * 6 == v@.len() - 20,
            body == v@.skip(20),
            i <= n,
            out@ == compact_parse(body, i as int),
        decreases n - i,
    {
        proof {
            assert((i + 1) * 6 <= n * 6) by (nonlinear_arith)
                requires
                    i < n,
            ;
            assert(body.subrange(6 * (i as int), 6 * (i as int) + 4) =~= v@.subrange(
                20 + 6 * (i as int),
                20 + 6 * (i as int) + 4,
            ));
            assert(body.subrange(6 * (i as int) + 4, 6 * (i as int) + 6) =~= v@.subrange(
                20 + 6 * (i as int) + 4,
                20 + 6 * (i as int) + 6,
            ));
        }
        let a = read_u32(v, 20 + 6 * i);
        let p = read_u16(v, 20 + 6 * i + 4);
        out.push((a, p));
        i = i + 1;
    }
    Ok((read_u32(v, 4), read_u32(v, 8), read_u32(v, 12), read_u32(v, 16), out))
}

/// The compact list of a peer sequence is the compact list of its v4
/// endpoints.
pub proof fn lemma_compact_v4_endpoints(peers: Seq<Peer>)
    ensures
        compact_v4(peers) == compact_bytes(v4_endpoints(peers)),
    decreases peers.len(),
{
    if peers.len() > 0 {
        lemma_compact_v4_endpoints(peers.drop_last());
        match peers.last().ip {
            IpAddress::V4(a) => {
                let q = v4_endpoints(peers.drop_last());
                let e = (a, peers.last().port);
                assert(q.push(e).drop_last() =~= q);
            },
            IpAddress::V6(_) => {
                assert(compact_v4(peers) =~= compact_bytes(v4_endpoints(peers)));
            },
        }
    }
}

/// Round trip of the v4 announce response: for an all-v4 peer list the
/// encoded response reads back as its fields and endpoints.
pub proof fn lemma_announce_response_roundtrip(
    transaction_id: u32,
    interval: u32,
    leechers: u32,
    seeders: u32,
    peers: Seq<Peer>,
)
    requires
        forall|i: int| 0 <= i < peers.len() ==> (#[trigger] peers[i]).ip is V4,
    ensures
        announce_response_parse(
            announce_response_bytes(transaction_id, interval, leechers, seeders, peers),
        ) == Ok::<(u32, u32, u32, u32, Seq<(u32, u16)>), TrackerError>(
            (transaction_id, interval, leechers, seeders, v4_endpoints(peers)),
        ),
{
    let s = announce_response_bytes(transaction_id, interval, leechers, seeders, peers);
    let eps = v4_endpoints(peers);
    lemma_compact_v4_endpoints(peers);
    lemma_compact_bytes_len(eps);
    assert(s.len() == 20 + 6 * eps.len());
    lemma_mod_multiples_basic(eps.len() as int, 6);
    assert(eps.len() as int * 6 == 6 * eps.len());
    lemma_div_multiples_vanish(eps.len() as int, 6);
    assert(s.subrange(0, 4) =~= u32_bytes(ACTION_ANNOUNCE));
    assert(s.subrange(4, 8) =~= u32_bytes(transaction_id));
    assert(s.subrange(8, 12) =~= u32_bytes(interval));
    assert(s.subrange(12, 16) =~= u32_bytes(leechers));
    assert(s.subrange(16, 20) =~= u32_bytes(seeders));
    assert(s.skip(20) =~= compact_bytes(eps));
    lemma_u32_roundtrip(ACTION_ANNOUNCE);
    lemma_u32_roundtrip(transaction_id);
    lemma_u32_roundtrip(interval);
    lemma_u32_roundtrip(leechers);
    lemma_u32_roundtrip(seeders);
    lemma_compact_roundtrip(eps);
}

// ---- the v6 announce response ----------------------------------------------

/// The v6 response: the same header, then eighteen bytes per v6 peer.
pub open spec fn announce_response6_bytes(
    transaction_id: u32,
    interval: u32,
    leechers: u32,
    seeders: u32,
    peers: Seq<Peer>,
) -> Seq<u8> {
    u32_bytes(ACTION_ANNOUNCE) + u32_bytes(transaction_id) + u32_bytes(interval) + u32_bytes(
        leechers,
    ) + u32_bytes(seeders) + compact6_bytes(v6_endpoints(peers))
}

pub fn encode_announce_response_v6(
    transaction_id: u32,
    interval: u32,
    leechers: u32,
    seeders: u32,
    peers: &Vec<Peer>,
) -> (r: Vec<u8>)
    ensures
        r@ == announce_response6_bytes(transaction_id, interval, leechers, seeders, peers@),
{
    let mut out: Vec<u8> = Vec::new();
    push_u32(&mut out, ACTION_ANNOUNCE);
    push_u32(&mut out, transaction_id);
    push_u32(&mut out, interval);
    push_u32(&mut out, leechers);
    push_u32(&mut out, seeders);
    let ghost header = out@;
    let mut i: usize = 0;
    while i < peers.len()
        invariant
            i <= peers@.len(),
            out@ == header + compact6_bytes(v6_endpoints(peers@.take(i as int))),
        decreases peers@.len() - i,
    {
        proof {
            assert(peers@.take(i + 1).drop_last() =~= peers@.take(i as int));
            assert(peers@.take(i + 1).last() == peers@[i as int]);
        }
        let p = &peers[i];
        match p.ip {
            IpAddress::V6(x) => {
                proof {
                    let q = v6_endpoints(peers@.take(i as int));
                    let e = (x, p.port);
                    assert(q.push(e).drop_last() =~= q);
                }
                push_u64(&mut out, ((x >> 64) & 0xffff_ffff_ffff_ffff) as u64);
                push_u64(&mut out, (x & 0xffff_ffff_ffff_ffff) as u64);
                push_u16(&mut out, p.port);
                proof {
                    assert(out@ =~= header + compact6_bytes(v6_endpoints(peers@.take(i + 1))));
                }
            },
            IpAddress::V4(_) => {
                proof {
                    assert(out@ =~= header + compact6_bytes(v6_endpoints(peers@.take(i + 1))));
                }
            },
        }
        i = i + 1;
    }
    proof {
        assert(peers@.take(peers@.len() as int) =~= peers@);
        assert(out@ =~= announce_response6_bytes(
            transaction_id,
            interval,
            leechers,
            seeders,
            peers@,
        ));
    }
    out
}

/// What a v6 announce response means.
pub open spec fn announce_response6_parse(s: Seq<u8>) -> Result<
    (u32, u32, u32, u32, Seq<(u128, u16)>),
    TrackerError,
> {
    if s.len() < 20 {
        Err(TrackerError::ShortPacket)
    } else if be32_seq(s.subrange(0, 4)) != ACTION_ANNOUNCE {
        Err(TrackerError::ProtocolMagicInvalid)
    } else if (s.len() - 20) % 18 != 0 {
        Err(TrackerError::InvalidNumber)
    } else {
        Ok(
            (
                be32_seq(s.subrange(4, 8)),
                be32_seq(s.subrange(8, 12)),
                be32_seq(s.subrange(12, 16)),
                be32_seq(s.subrange(16, 20)),
                compact6_parse(s.skip(20), ((s.len() - 20) as int) / 18),
            ),
        )
    }
}

pub fn parse_announce_response_v6(v: &Vec<u8>) -> (r: Result<
    (u32, u32, u32, u32, Vec<(u128, u16)>),
    TrackerError,
>)
    ensures
        match r {
            Ok(x) => announce_response6_parse(v@) == Ok::<
                (u32, u32, u32, u32, Seq<(u128, u16)>),
                TrackerError,
            >((x.0, x.1, x.2, x.3, x.4@)),
            Err(e) => announce_response6_parse(v@) == Err::<
                (u32, u32, u32, u32, Seq<(u128, u16)>),
                TrackerError,
            >(e),
        },
{
    if v.len() < 20 {
        return Err(TrackerError::ShortPacket);
    }
    if read_u32(v, 0) != ACTION_ANNOUNCE {
        return Err(TrackerError::ProtocolMagicInvalid);
    }
    let total = v.len();
    if (total - 20) % 18 != 0 {
        return Err(TrackerError::InvalidNumber);
    }
    let n = (total - 20) / 18;
    proof {
        assert(n * 18 == v@.len() - 20) by (nonlinear_arith)
            requires
                n == ((v@.len() - 20) as int) / 18,
                (v@.len() - 20) % 18 == 0,
                v@.len() >= 20,
        ;
    }
    let ghost body = v@.skip(20);
    let mut out: Vec<(u128, u16)> = Vec::new();
    let mut i: usize = 0;
    while i < n
        invariant
            total == v@.len(),
            n * 18 == v@.len() - 20,
            body == v@.skip(20),
            i <= n,
            out@ == compact6_parse(body, i as int),
        decreases n - i,
    {
        proof {
            assert((i + 1) * 18 <= n * 18) by (nonlinear_arith)
                requires
                    i < n,
            ;
            assert(body.subrange(18 * (i as int), 18 * (i as int) + 8) =~= v@.subrange(
                20 + 18 * (i as int),
                20 + 18 * (i as int) + 8,
            ));
            assert(body.subrange(18 * (i as int) + 8, 18 * (i as int) + 16) =~= v@.subrange(
                20 + 18 * (i as int) + 8,
                20 + 18 * (i as int) + 16,
            ));
            assert(body.subrange(18 * (i as int) + 16, 18 * (i as int) + 18) =~= v@.subrange(
                20 + 18 * (i as int) + 16,
                20 + 18 * (i as int) + 18,
            ));
        }
        let hi = read_u64(v, 20 + 18 * i);
        let lo = read_u64(v, 20 + 18 * i + 8);
        let port = read_u16(v, 20 + 18 * i + 16);
        out.push((((hi as u128) << 64) | (lo as u128), port));
        i = i + 1;
    }
    Ok((read_u32(v, 4), read_u32(v, 8), read_u32(v, 12), read_u32(v, 16), out))
}

/// Round trip of the v6 announce response.
pub proof fn lemma_announce_response6_roundtrip(
    transaction_id: u32,
    interval: u32,
    leechers: u32,
    seeders: u32,
    peers: Seq<Peer>,
)
    ensures
        announce_response6_parse(
            announce_response6_bytes(transaction_id, interval, leechers, seeders, peers),
        ) == Ok::<(u32, u32, u32, u32, Seq<(u128, u16)>), TrackerError>(
            (transaction_id, interval, leechers, seeders, v6_endpoints(peers)),
        ),
{
    let s = announce_response6_bytes(transaction_id, interval, leechers, seeders, peers);
    let eps = v6_endpoints(peers);
    lemma_compact6_bytes_len(eps);
    assert(s.len() == 20 + 18 * eps.len());
    lemma_mod_multiples_basic(eps.len() as int, 18);
    assert(eps.len() as int * 18 == 18 * eps.len());
    lemma_div_multiples_vanish(eps.len() as int, 18);
    assert(s.subrange(0, 4) =~= u32_bytes(ACTION_ANNOUNCE));
    assert(s.subrange(4, 8) =~= u32_bytes(transaction_id));
    assert(s.subrange(8, 12) =~= u32_bytes(interval));
    assert(s.subrange(12, 16) =~= u32_bytes(leechers));
    assert(s.subrange(16, 20) =~= u32_bytes(seeders));
    assert(s.skip(20) =~= compact6_bytes(eps));
    lemma_u32_roundtrip(ACTION_ANNOUNCE);
    lemma_u32_roundtrip(transaction_id);
    lemma_u32_roundtrip(interval);
    lemma_u32_roundtrip(leechers);
    lemma_u32_roundtrip(seeders);
    lemma_compact6_roundtrip(eps);
}

// ---- scrape responses read back --------------------------------------------

/// The wire form of one swarm's counts: seeders, completions, leechers,
/// each saturated onto its field.
pub open spec fn wire_stats(st: SwarmStats) -> (u32, u32, u32) {
    (
        crate::announce::sat_u32(st.seeders as int),
        crate::announce::sat_u32(st.completed as int),
        crate::announce::sat_u32(st.leechers as int),
    )
}

pub open spec fn wire_stats_seq(entries: Seq<SwarmStats>) -> Seq<(u32, u32, u32)>
    decreases entries.len(),
{
    if entries.len() == 0 {
        Seq::empty()
    } else {
        wire_stats_seq(entries.drop_last()).push(wire_stats(entries.last()))
    }
}

/// The first `n` count triples read off a scrape response body.
pub open spec fn scrape_triples(s: Seq<u8>, n: int) -> Seq<(u32, u32, u32)>
    decreases n,
{
    if n <= 0 {
        Seq::empty()
    } else {
        scrape_triples(s, n - 1).push(
            (
                be32_seq(s.subrange(12 * (n - 1), 12 * (n - 1) + 4)),
                be32_seq(s.subrange(12 * (n - 1) + 4, 12 * (n - 1) + 8)),
                be32_seq(s.subrange(12 * (n - 1) + 8, 12 * (n - 1) + 12)),
            ),
        )
    }
}

/// What a scrape response means: the echoed transaction id and one count
/// triple per requested hash.
pub open spec fn scrape_response_parse(s: Seq<u8>) -> Result<
    (u32, Seq<(u32, u32, u32)>),
    TrackerError,
> {
    if s.len() < 8 {
        Err(TrackerError::ShortPacket)
    } else if be32_seq(s.subrange(0, 4)) != ACTION_SCRAPE {
        Err(TrackerError::ProtocolMagicInvalid)
    } else if (s.len() - 8) % 12 != 0 {
        Err(TrackerError::InvalidNumber)
    } else {
        Ok((be32_seq(s.subrange(4, 8)), scrape_triples(s.skip(8), ((s.len() - 8) as int) / 12)))
    }
}

pub fn parse_scrape_response(v: &Vec<u8>) -> (r: Result<(u32, Vec<(u32, u32, u32)>), TrackerError>)
    ensures
        match r {
            Ok(x) => scrape_response_parse(v@) == Ok::<(u32, Seq<(u32, u32, u32)>), TrackerError>(
                (x.0, x.1@),
            ),
            Err(e) => scrape_response_parse(v@) == Err::<
                (u32, Seq<(u32, u32, u32)>),
                TrackerError,
            >(e),
        },
{
    if v.len() < 8 {
        return Err(TrackerError::ShortPacket);
    }
    if read_u32(v, 0) != ACTION_SCRAPE {
        return Err(TrackerError::ProtocolMagicInvalid);
    }
    let total = v.len();
    if (total - 8) % 12 != 0 {
        return Err(TrackerError::InvalidNumber);
    }
    let n = (total - 8) / 12;
    proof {
        assert(n * 12 == v@.len() - 8) by (nonlinear_arith)
            requires
                n == ((v@.len() - 8) as int) / 12,
                (v@.len() - 8) % 12 == 0,
                v@.len() >= 8,
        ;
    }
    let ghost body = v@.skip(8);
    let mut out: Vec<(u32, u32, u32)> = Vec::new();
    let mut i: usize = 0;
    while i < n
        invariant
            total == v@.len(),
            n * 12 == v@.len() - 8,
            body == v@.skip(8),
            i <= n,
            out@ == scrape_triples(body, i as int),
        decreases n - i,
    {
        proof {
            assert((i + 1) * 12 <= n * 12) by (nonlinear_arith)
                requires
                    i < n,
            ;
            assert(body.subrange(12 * (i as int), 12 * (i as int) + 4) =~= v@.subrange(
                8 + 12 * (i as int),
                8 + 12 * (i as int) + 4,
            ));
            assert(body.subrange(12 * (i as int) + 4, 12 * (i as int) + 8) =~= v@.subrange(
                8 + 12 * (i as int) + 4,
                8 + 12 * (i as int) + 8,
            ));
            assert(body.subrange(12 * (i as int) + 8, 12 * (i as int) + 12) =~= v@.subrange(
                8 + 12 * (i as int) + 8,
                8 + 12 * (i as int) + 12,
            ));
        }
        let a = read_u32(v, 8 + 12 * i);
        let b = read_u32(v, 8 + 12 * i + 4);
        let c = read_u32(v, 8 + 12 * i + 8);
        out.push((a, b, c));
        i = i + 1;
    }
    Ok((read_u32(v, 4), out))
}

pub proof fn lemma_scrape_entries_bytes_len(entries: Seq<SwarmStats>)
    ensures
        scrape_entries_bytes(entries).len() == 12 * entries.len(),
    decreases entries.len(),
{
    if entries.len() > 0 {
        lemma_scrape_entries_bytes_len(entries.drop_last());
    }
}

/// Reading a prefix of triples is not disturbed by bytes past it.
pub proof fn lemma_scrape_triples_prefix(s: Seq<u8>, t: Seq<u8>, n: int)
    requires
        0 <= 12 * n <= s.len(),
    ensures
        scrape_triples(s + t, n) == scrape_triples(s, n),
    decreases n,
{
    if n > 0 {
        lemma_scrape_triples_prefix(s, t, n - 1);
        assert((s + t).subrange(12 * (n - 1), 12 * (n - 1) + 4) =~= s.subrange(
            12 * (n - 1),
            12 * (n - 1) + 4,
        ));
        assert((s + t).subrange(12 * (n - 1) + 4, 12 * (n - 1) + 8) =~= s.subrange(
            12 * (n - 1) + 4,
            12 * (n - 1) + 8,
        ));
        assert((s + t).subrange(12 * (n - 1) + 8, 12 * (n - 1) + 12) =~= s.subrange(
            12 * (n - 1) + 8,
            12 * (n - 1) + 12,
        ));
    }
}

/// The triples of an encoded entry list read back as the saturated counts.
pub proof fn lemma_scrape_triples_roundtrip(entries: Seq<SwarmStats>)
    ensures
        scrape_triples(scrape_entries_bytes(entries), entries.len() as int) == wire_stats_seq(
            entries,
        ),
    decreases entries.len(),
{
    if entries.len() > 0 {
        let n = entries.len() as int;
        let dl = entries.drop_last();
        let last = entries.last();
        lemma_scrape_triples_roundtrip(dl);
        lemma_scrape_entries_bytes_len(dl);
        lemma_scrape_triples_prefix(scrape_entries_bytes(dl), scrape_entry_bytes(last), n - 1);
        let s = scrape_entries_bytes(entries);
        assert(s.subrange(12 * (n - 1), 12 * (n - 1) + 4) =~= u32_bytes(
            crate::announce::sat_u32(last.seeders as int),
        ));
        assert(s.subrange(12 * (n - 1) + 4, 12 * (n - 1) + 8) =~= u32_bytes(
            crate::announce::sat_u32(last.completed as int),
        ));
        assert(s.subrange(12 * (n - 1) + 8, 12 * (n - 1) + 12) =~= u32_bytes(
            crate::announce::sat_u32(last.leechers as int),
        ));
        lemma_u32_roundtrip(crate::announce::sat_u32(last.seeders as int));
        lemma_u32_roundtrip(crate::announce::sat_u32(last.completed as int));
        lemma_u32_roundtrip(crate::announce::sat_u32(last.leechers as int));
        assert(scrape_triples(s, n) =~= wire_stats_seq(entries));
    }
}

/// Round trip of the scrape response: the encoded entries read back as
/// the saturated counts of each swarm, in order.
pub proof fn lemma_scrape_response_roundtrip(transaction_id: u32, entries: Seq<SwarmStats>)
    ensures
        scrape_response_parse(scrape_response_bytes(transaction_id, entries)) == Ok::<
            (u32, Seq<(u32, u32, u32)>),
            TrackerError,
        >((transaction_id, wire_stats_seq(entries))),
{
    let s = scrape_response_bytes(transaction_id, entries);
    lemma_scrape_entries_bytes_len(entries);
    assert(s.len() == 8 + 12 * entries.len());
    lemma_mod_multiples_basic(entries.len() as int, 12);
    assert(entries.len() as int * 12 == 12 * entries.len());
    lemma_div_multiples_vanish(entries.len() as int, 12);
    assert(s.subrange(0, 4) =~= u32_bytes(ACTION_SCRAPE));
    assert(s.subrange(4, 8) =~= u32_bytes(transaction_id));
    assert(s.skip(8) =~= scrape_entries_bytes(entries));
    lemma_u32_roundtrip(ACTION_SCRAPE);
    lemma_u32_roundtrip(transaction_id);
    lemma_scrape_triples_roundtrip(entries);
}

} // verus!
