//! The stateless UDP connection-id scheme: an id proves that a client can
//! receive at its claimed address, because it is handed out over that
//! address and must be echoed back. An id is the current two-minute time
//! slot and a 32-bit key of the client's address, packed into one word and
//! run through a keyed permutation of that word (xor with the secret, two
//! odd-multiplier rounds with xor-shift diffusion between them, and a final
//! xor with the swapped secret). Validation recomputes the id for the
//! current and the previous slot; no per-client state is kept.
//!
//! The rejection laws below rest on the permutation being a bijection for
//! each secret, which is proved by exhibiting its inverse. Unlike a plain
//! mask, the permutation's multiply rounds keep an observer of issued ids
//! from reading the secret back out of them.

use vstd::prelude::*;
use vstd::arithmetic::div_mod::{lemma_div_is_ordered, lemma_div_plus_one,
    lemma_hoist_over_denominator, lemma_mul_mod_noop_left, lemma_mul_mod_noop_right,
    lemma_small_mod};
use vstd::arithmetic::mul::lemma_mul_is_associative;
use crate::peer::IpAddress;

verus! {

/// Length of one time slot in seconds; an id lives one to two slots.
pub const SLOT_SECONDS: u64 = 120;

/// Odd multipliers of the two permutation rounds, and their inverses
/// modulo 2^64.
pub const MIX_C1: u64 = 0xbf58476d1ce4e5b9;

pub const MIX_C2: u64 = 0x94d049bb133111eb;

pub const MIX_INV1: u64 = 0x96de1b173f119089;

pub const MIX_INV2: u64 = 0x319642b2d24d8ec3;

/// The time slot an instant falls into.
pub open spec fn slot_of(t: u64) -> u64 {
    t / SLOT_SECONDS
}

/// The secret with its halves swapped, xored in as the last round key.
pub open spec fn key_swap(secret: u64) -> u64 {
    (secret << 32) | (secret >> 32)
}

/// The keyed permutation of one word.
pub open spec fn mix64(secret: u64, x: u64) -> u64 {
    let z1 = x ^ secret;
    let z2 = z1 ^ (z1 >> 33);
    let z3 = z2.wrapping_mul(MIX_C1);
    let z4 = z3 ^ (z3 >> 35);
    let z5 = z4.wrapping_mul(MIX_C2);
    let z6 = z5 ^ (z5 >> 32);
    z6 ^ key_swap(secret)
}

/// The inverse permutation; it exists only to prove the bijection.
pub open spec fn unmix64(secret: u64, y: u64) -> u64 {
    let z6 = y ^ key_swap(secret);
    let z5 = z6 ^ (z6 >> 32);
    let z4 = z5.wrapping_mul(MIX_INV2);
    let z3 = z4 ^ (z4 >> 35);
    let z2 = z3.wrapping_mul(MIX_INV1);
    let z1 = z2 ^ (z2 >> 33);
    z1 ^ secret
}

/// Multiplying by an odd constant and then by its inverse modulo 2^64
/// gives the word back.
proof fn lemma_wrapping_mul_cancel(y: u64, c: u64, cinv: u64)
    requires
        (c as nat * cinv as nat) % 0x1_0000_0000_0000_0000nat == 1,
    ensures
        y.wrapping_mul(c).wrapping_mul(cinv) == y,
{
    let m: int = 0x1_0000_0000_0000_0000;
    let yc: int = y as int * c as int;
    lemma_mul_mod_noop_left(yc, cinv as int, m);
    assert((yc % m) * cinv as int % m == yc * cinv as int % m);
    lemma_mul_is_associative(y as int, c as int, cinv as int);
    lemma_mul_mod_noop_right(y as int, c as int * cinv as int, m);
    assert(y as int * (c as int * cinv as int % m) % m == y as int * (c as int * cinv as int)
        % m);
    lemma_small_mod(y as nat, 0x1_0000_0000_0000_0000nat);
}

/// Xoring a word with its own right shift by at least half the width is
/// an involution.
proof fn lemma_xorshift_involution(z: u64, w: u64, sh: u64)
    requires
        w == z ^ (z >> sh),
        32 <= sh < 64,
    ensures
        w ^ (w >> sh) == z,
{
    assert(w == z ^ (z >> sh) && 32 <= sh < 64 ==> (w ^ (w >> sh)) == z) by (bit_vector);
}

/// The permutation is inverted by `unmix64`.
pub proof fn lemma_mix64_roundtrip(secret: u64, x: u64)
    ensures
        unmix64(secret, mix64(secret, x)) == x,
{
    assert((MIX_C1 as nat * MIX_INV1 as nat) % 0x1_0000_0000_0000_0000nat == 1);
    assert((MIX_C2 as nat * MIX_INV2 as nat) % 0x1_0000_0000_0000_0000nat == 1);
    let z1 = x ^ secret;
    let z2 = z1 ^ (z1 >> 33);
    let z3 = z2.wrapping_mul(MIX_C1);
    let z4 = z3 ^ (z3 >> 35);
    let z5 = z4.wrapping_mul(MIX_C2);
    let z6 = z5 ^ (z5 >> 32);
    let y = z6 ^ key_swap(secret);
    assert(y ^ key_swap(secret) == z6) by (bit_vector)
        requires
            y == z6 ^ key_swap(secret),
    ;
    lemma_xorshift_involution(z5, z6, 32);
    lemma_wrapping_mul_cancel(z4, MIX_C2, MIX_INV2);
    lemma_xorshift_involution(z3, z4, 35);
    lemma_wrapping_mul_cancel(z2, MIX_C1, MIX_INV1);
    lemma_xorshift_involution(z1, z2, 33);
    assert(z1 ^ secret == x) by (bit_vector)
        requires
            z1 == x ^ secret,
    ;
}

/// The permutation is a bijection for each secret.
pub proof fn lemma_mix64_injective(secret: u64, a: u64, b: u64)
    requires
        mix64(secret, a) == mix64(secret, b),
    ensures
        a == b,
{
    lemma_mix64_roundtrip(secret, a);
    lemma_mix64_roundtrip(secret, b);
}

/// The 32-bit key of an address: a v4 address itself; a v6 address run
/// through the keyed permutation, half a word at a time, and folded.
pub open spec fn ip_key(secret: u64, ip: IpAddress) -> u32 {
    match ip {
        IpAddress::V4(a) => a,
        IpAddress::V6(x) => {
            let hi = ((x >> 64) & 0xffff_ffff_ffff_ffff) as u64;
            let lo = (x & 0xffff_ffff_ffff_ffff) as u64;
            let t = mix64(secret, lo ^ mix64(secret, hi));
            ((t ^ (t >> 32)) & 0xffff_ffff) as u32
        },
    }
}

/// The slot index truncated to the 32 bits that enter the id.
pub open spec fn slot_trunc(slot: u64) -> u32 {
    (slot % 0x1_0000_0000) as u32
}

/// Address key and slot packed into one word.
pub open spec fn pack(ipk: u32, slot32: u32) -> u64 {
    ((ipk as u64) << 32) | (slot32 as u64)
}

/// The id issued for an address key in a slot under a secret.
pub open spec fn conn_id(secret: u64, ipk: u32, slot: u64) -> u64 {
    mix64(secret, pack(ipk, slot_trunc(slot)))
}

/// The id a connect request is answered with at `t`.
pub open spec fn issued_id(secret: u64, ip: IpAddress, t: u64) -> u64 {
    conn_id(secret, ip_key(secret, ip), slot_of(t))
}

/// Whether `id` is accepted for `ip` at `t`: it must be the id of the
/// current or of the previous slot.
pub open spec fn id_accepted(secret: u64, ip: IpAddress, t: u64, id: u64) -> bool {
    id == conn_id(secret, ip_key(secret, ip), slot_of(t)) || (slot_of(t) > 0 && id == conn_id(
        secret,
        ip_key(secret, ip),
        (slot_of(t) - 1) as u64,
    ))
}

/// The keyed permutation, computed.
fn mix64_run(secret: u64, x: u64) -> (r: u64)
    ensures
        r == mix64(secret, x),
{
    let z1 = x ^ secret;
    let z2 = z1 ^ (z1 >> 33);
    let z3 = z2.wrapping_mul(MIX_C1);
    let z4 = z3 ^ (z3 >> 35);
    let z5 = z4.wrapping_mul(MIX_C2);
    let z6 = z5 ^ (z5 >> 32);
    z6 ^ ((secret << 32) | (secret >> 32))
}

/// The 32-bit key of an address, computed.
pub fn ip_key_of(secret: u64, ip: &IpAddress) -> (r: u32)
    ensures
        r == ip_key(secret, *ip),
{
    match ip {
        IpAddress::V4(a) => *a,
        IpAddress::V6(x) => {
            let v = *x;
            let hi = ((v >> 64) & 0xffff_ffff_ffff_ffff) as u64;
            let lo = (v & 0xffff_ffff_ffff_ffff) as u64;
            let t = mix64_run(secret, lo ^ mix64_run(secret, hi));
            ((t ^ (t >> 32)) & 0xffff_ffff) as u32
        },
    }
}

fn id_for_slot(secret: u64, ipk: u32, slot: u64) -> (r: u64)
    ensures
        r == conn_id(secret, ipk, slot),
{
    let slot32 = (slot % 0x1_0000_0000) as u32;
    mix64_run(secret, ((ipk as u64) << 32) | (slot32 as u64))
}

/// Issue the connection id for `ip` at `now`.
pub fn issue_connection_id(secret: u64, ip: &IpAddress, now: u64) -> (r: u64)
    ensures
        r == issued_id(secret, *ip, now),
{
    let ipk = ip_key_of(secret, ip);
    id_for_slot(secret, ipk, now / SLOT_SECONDS)
}

/// Accept `id` for `ip` at `now` exactly when it is the id of the current
/// or of the previous slot.
pub fn verify_connection_id(secret: u64, ip: &IpAddress, now: u64, id: u64) -> (r: bool)
    ensures
        r == id_accepted(secret, *ip, now, id),
{
    let ipk = ip_key_of(secret, ip);
    let slot = now / SLOT_SECONDS;
    if id == id_for_slot(secret, ipk, slot) {
        return true;
    }
    if slot > 0 && id == id_for_slot(secret, ipk, slot - 1) {
        return true;
    }
    false
}

/// The id determines address key and truncated slot: equal ids under one
/// secret force equal address keys and equal truncated slots; with both
/// slots below the truncation bound, equal slots.
pub proof fn lemma_conn_id_injective(secret: u64, k1: u32, s1: u64, k2: u32, s2: u64)
    requires
        s1 < 0x1_0000_0000,
        s2 < 0x1_0000_0000,
        conn_id(secret, k1, s1) == conn_id(secret, k2, s2),
    ensures
        k1 == k2,
        s1 == s2,
{
    lemma_mix64_injective(secret, pack(k1, slot_trunc(s1)), pack(k2, slot_trunc(s2)));
    let a = k1;
    let b = slot_trunc(s1);
    let c = k2;
    let d = slot_trunc(s2);
    assert(((((a as u64) << 32) | (b as u64)) == (((c as u64) << 32) | (d as u64))) ==> (a == c
        && b == d)) by (bit_vector);
    assert(s1 % 0x1_0000_0000 == s1);
    assert(s2 % 0x1_0000_0000 == s2);
}

/// Within one slot length of its issue, an id stays in the acceptance
/// window: the slot at `t2` is the issue slot or the one after it.
pub proof fn lemma_slot_window(t: u64, t2: u64)
    requires
        t <= t2 <= t + SLOT_SECONDS,
    ensures
        slot_of(t) <= slot_of(t2) <= slot_of(t) + 1,
{
    lemma_div_is_ordered(t as int, t2 as int, SLOT_SECONDS as int);
    lemma_div_is_ordered(t2 as int, t as int + SLOT_SECONDS as int, SLOT_SECONDS as int);
    lemma_div_plus_one(t as int, SLOT_SECONDS as int);
}

/// Acceptance half of the connection-id law: an id issued for `ip` at `t`
/// is accepted for `ip` at every `t2` up to one slot length later.
pub proof fn lemma_connection_id_fresh_accepted(secret: u64, ip: IpAddress, t: u64, t2: u64)
    requires
        t <= t2 <= t + SLOT_SECONDS,
    ensures
        id_accepted(secret, ip, t2, issued_id(secret, ip, t)),
{
    lemma_slot_window(t, t2);
}

/// Staleness half of the law: from two slot lengths after `t` on, the id
/// issued at `t` is rejected (as long as the slot index has not wrapped
/// its 32-bit truncation, which happens only after tens of thousands of
/// years of tracked time).
pub proof fn lemma_connection_id_stale_rejected(secret: u64, ip: IpAddress, t: u64, t2: u64)
    requires
        t2 >= t + 2 * SLOT_SECONDS,
        slot_of(t2) < 0x1_0000_0000,
    ensures
        !id_accepted(secret, ip, t2, issued_id(secret, ip, t)),
{
    lemma_hoist_over_denominator(t as int, 2, SLOT_SECONDS as nat);
    lemma_div_is_ordered(t as int + 2 * SLOT_SECONDS as int, t2 as int, SLOT_SECONDS as int);
    assert(slot_of(t2) >= slot_of(t) + 2);
    if id_accepted(secret, ip, t2, issued_id(secret, ip, t)) {
        if issued_id(secret, ip, t) == conn_id(secret, ip_key(secret, ip), slot_of(t2)) {
            lemma_conn_id_injective(
                secret,
                ip_key(secret, ip),
                slot_of(t),
                ip_key(secret, ip),
                slot_of(t2),
            );
        } else {
            lemma_conn_id_injective(
                secret,
                ip_key(secret, ip),
                slot_of(t),
                ip_key(secret, ip),
                (slot_of(t2) - 1) as u64,
            );
        }
    }
}

/// Cross-client half of the law: an id issued for one address key is never
/// accepted for an address with a different key (below the same wrap
/// bound). Two distinct v6 addresses may still share a 32-bit key — a
/// pigeonhole fact of any 32-bit address material — but which pairs
/// collide depends on the secret.
pub proof fn lemma_connection_id_wrong_ip_rejected(
    secret: u64,
    ip1: IpAddress,
    ip2: IpAddress,
    t: u64,
    t2: u64,
)
    requires
        ip_key(secret, ip1) != ip_key(secret, ip2),
        slot_of(t) < 0x1_0000_0000,
        slot_of(t2) < 0x1_0000_0000,
    ensures
        !id_accepted(secret, ip2, t2, issued_id(secret, ip1, t)),
{
    if id_accepted(secret, ip2, t2, issued_id(secret, ip1, t)) {
        if issued_id(secret, ip1, t) == conn_id(secret, ip_key(secret, ip2), slot_of(t2)) {
            lemma_conn_id_injective(
                secret,
                ip_key(secret, ip1),
                slot_of(t),
                ip_key(secret, ip2),
                slot_of(t2),
            );
        } else {
            lemma_conn_id_injective(
                secret,
                ip_key(secret, ip1),
                slot_of(t),
                ip_key(secret, ip2),
                (slot_of(t2) - 1) as u64,
            );
        }
    }
}

/// Distinct v4 clients always carry distinct address keys, so the
/// cross-client law covers every pair of distinct v4 addresses.
pub proof fn lemma_v4_keys_distinct(secret: u64, a: u32, b: u32)
    requires
        a != b,
    ensures
        ip_key(secret, IpAddress::V4(a)) != ip_key(secret, IpAddress::V4(b)),
{
}

} // verus!
