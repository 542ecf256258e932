//! Time-bounded authentication keys: issuing, validating and revoking.
//! A key is 32 alphanumeric ASCII bytes; its expiry is fixed at issuance
//! to `now + duration` and never moves afterwards.

use vstd::prelude::*;
use crate::assoc::{keyed_map, unique_keys, lemma_keyed_map_contains, lemma_keyed_map_index,
    lemma_keyed_map_push, lemma_keyed_map_remove, lemma_unique_push, lemma_unique_remove};
use crate::errors::TrackerError;

verus! {

/// Bytes a key may consist of: ASCII digits and letters.
pub open spec fn is_key_byte(b: u8) -> bool {
    (48 <= b <= 57) || (65 <= b <= 90) || (97 <= b <= 122)
}

/// An issued key: its 32 bytes and the last second it is valid.
#[derive(Debug)]
pub struct AuthKey {
    pub key: Vec<u8>,
    pub valid_until: u64,
}

impl AuthKey {
    pub open spec fn wf(self) -> bool {
        self.key@.len() == 32 && forall|i: int| 0 <= i < 32 ==> is_key_byte(self.key@[i])
    }
}

/// Key function of the key association sequence.
pub open spec fn auth_key_fn() -> spec_fn(AuthKey) -> Seq<u8> {
    |a: AuthKey| a.key@
}

/// Compare two byte strings.
pub fn bytes_eq(a: &Vec<u8>, b: &Vec<u8>) -> (r: bool)
    ensures
        r <==> a@ == b@,
{
    if a.len() != b.len() {
        return false;
    }
    let mut i: usize = 0;
    while i < a.len()
        invariant
            a@.len() == b@.len(),
            i <= a@.len(),
            forall|j: int| 0 <= j < i ==> a@[j] == b@[j],
        decreases a@.len() - i,
    {
        if a[i] != b[i] {
            return false;
        }
        i = i + 1;
    }
    proof {
        assert(a@ =~= b@);
    }
    true
}

/// Relies on rand::random_range over the half-open integer range `0..n`:
/// the result is a member of the range; the call panics only on an empty
/// range, which the precondition rules out.
#[verifier::external_body]
fn random_below(n: u32) -> (r: u32)
    requires
        n > 0,
    ensures
        r < n,
{
    rand::random_range(0..n)
}

/// The `i`th byte of the key alphabet: first the ten digits, then the
/// lower-case letters, then the upper-case letters.
fn alphabet_byte(i: u32) -> (r: u8)
    requires
        i < 62,
    ensures
        is_key_byte(r),
{
    if i < 10 {
        48 + (i as u8)
    } else if i < 36 {
        97 + ((i - 10) as u8)
    } else {
        65 + ((i - 36) as u8)
    }
}

/// Draw 32 random alphanumeric bytes.
fn generate_key_bytes() -> (r: Vec<u8>)
    ensures
        r@.len() == 32,
        forall|i: int| 0 <= i < 32 ==> is_key_byte(r@[i]),
{
    let mut out: Vec<u8> = Vec::new();
    let mut i: usize = 0;
    while i < 32
        invariant
            i <= 32,
            out@.len() == i,
            forall|j: int| 0 <= j < i ==> is_key_byte(out@[j]),
        decreases 32 - i,
    {
        let idx = random_below(62);
        out.push(alphabet_byte(idx));
        i = i + 1;
    }
    out
}

/// The in-memory key registry; persistence warms it through `add_record`.
pub struct KeyManager {
    pub keys: Vec<AuthKey>,
}

impl KeyManager {
    /// At most one record per key string, each record well-formed.
    pub open spec fn wf(self) -> bool {
        &&& unique_keys(self.keys@, auth_key_fn())
        &&& forall|i: int| 0 <= i < self.keys@.len() ==> (#[trigger] self.keys@[i]).wf()
    }

    pub open spec fn kmap(self) -> Map<Seq<u8>, AuthKey> {
        keyed_map(self.keys@, auth_key_fn())
    }

    /// Whether a key with these bytes is registered.
    pub open spec fn key_known(self, k: Seq<u8>) -> bool {
        self.kmap().dom().contains(k)
    }

    /// The last second a registered key is valid.
    pub open spec fn expiry_of(self, k: Seq<u8>) -> u64 {
        self.kmap()[k].valid_until
    }

    /// A key validates at `t` when it is registered and not yet expired.
    pub open spec fn key_valid_at(self, k: Seq<u8>, t: u64) -> bool {
        self.key_known(k) && t <= self.expiry_of(k)
    }

    pub fn new() -> (r: KeyManager)
        ensures
            r.wf(),
            forall|k: Seq<u8>| !r.key_known(k),
    {
        let r = KeyManager { keys: Vec::new() };
        proof {
            assert forall|k: Seq<u8>| !r.key_known(k) by {
                lemma_keyed_map_contains(r.keys@, auth_key_fn(), k);
            }
        }
        r
    }

    /// Index of the record carrying exactly these key bytes, if one does.
    fn find_key(&self, key: &Vec<u8>) -> (r: Option<usize>)
        ensures
            match r {
                Some(i) => i < self.keys@.len() && self.keys@[i as int].key@ == key@,
                None => forall|j: int| 0 <= j < self.keys@.len() ==> self.keys@[j].key@ != key@,
            },
    {
        let mut i: usize = 0;
        while i < self.keys.len()
            invariant
                i <= self.keys@.len(),
                forall|j: int| 0 <= j < i ==> self.keys@[j].key@ != key@,
            decreases self.keys@.len() - i,
        {
            if bytes_eq(&self.keys[i].key, key) {
                return Some(i);
            }
            i = i + 1;
        }
        None
    }

    /// Register a record, replacing any record with the same bytes.
    pub fn add_record(&mut self, rec: AuthKey)
        requires
            old(self).wf(),
            rec.wf(),
        ensures
            final(self).wf(),
            final(self).key_known(rec.key@),
            final(self).expiry_of(rec.key@) == rec.valid_until,
            forall|k: Seq<u8>|
                k != rec.key@ ==> final(self).key_known(k) == old(self).key_known(k) && (
                old(self).key_known(k) ==> final(self).expiry_of(k) == old(self).expiry_of(k)),
    {
        let ghost kf = auth_key_fn();
        let ghost s0 = self.keys@;
        match self.find_key(&rec.key) {
            Some(i) => {
                proof {
                    lemma_keyed_map_remove(s0, kf, i as int);
                    lemma_unique_remove(s0, kf, i as int);
                }
                self.keys.remove(i);
                proof {
                    assert forall|j: int|
                        0 <= j < self.keys@.len() implies (#[trigger] self.keys@[j]).wf()
                        && self.keys@[j].key@ != rec.key@ by {
                        let j0: int = if j < i { j } else { j + 1 };
                        assert(self.keys@[j] == s0[j0]);
                    }
                }
            },
            None => {
                proof {
                    lemma_keyed_map_contains(s0, kf, rec.key@);
                    assert(keyed_map(self.keys@, kf).remove(rec.key@) =~= keyed_map(
                        self.keys@,
                        kf,
                    ));
                }
            },
        }
        proof {
            lemma_keyed_map_contains(self.keys@, kf, rec.key@);
            assert(forall|j: int|
                0 <= j < self.keys@.len() ==> (#[trigger] kf(self.keys@[j])) != rec.key@);
            lemma_unique_push(self.keys@, kf, rec);
            lemma_keyed_map_push(self.keys@, kf, rec);
        }
        let ghost spre = self.keys@;
        self.keys.push(rec);
        proof {
            assert forall|j: int|
                0 <= j < self.keys@.len() implies (#[trigger] self.keys@[j]).wf() by {
                if j < self.keys@.len() - 1 {
                    assert(self.keys@[j] == spre[j]);
                }
            }
        }
    }

    /// Issue a fresh random key valid for `duration` seconds from `now`.
    pub fn issue(&mut self, now: u64, duration: u64) -> (r: AuthKey)
        requires
            old(self).wf(),
            duration > 0,
            now + duration <= u64::MAX,
        ensures
            final(self).wf(),
            r.wf(),
            r.valid_until == now + duration,
            final(self).key_known(r.key@),
            final(self).expiry_of(r.key@) == r.valid_until,
            forall|k: Seq<u8>|
                k != r.key@ ==> final(self).key_known(k) == old(self).key_known(k) && (
                old(self).key_known(k) ==> final(self).expiry_of(k) == old(self).expiry_of(k)),
    {
        let bytes = generate_key_bytes();
        let rec = AuthKey { key: bytes, valid_until: now + duration };
        let copy = AuthKey { key: clone_bytes(&rec.key), valid_until: rec.valid_until };
        self.add_record(rec);
        copy
    }

    /// Delete a key by its literal bytes; absence is not an error.
    pub fn revoke(&mut self, key: &Vec<u8>) -> (removed: bool)
        requires
            old(self).wf(),
        ensures
            final(self).wf(),
            !final(self).key_known(key@),
            removed <==> old(self).key_known(key@),
            forall|k: Seq<u8>|
                k != key@ ==> final(self).key_known(k) == old(self).key_known(k) && (
                old(self).key_known(k) ==> final(self).expiry_of(k) == old(self).expiry_of(k)),
    {
        let ghost kf = auth_key_fn();
        let ghost s0 = self.keys@;
        proof {
            lemma_keyed_map_contains(s0, kf, key@);
        }
        match self.find_key(key) {
            Some(i) => {
                proof {
                    lemma_keyed_map_remove(s0, kf, i as int);
                    lemma_unique_remove(s0, kf, i as int);
                }
                self.keys.remove(i);
                proof {
                    assert forall|j: int|
                        0 <= j < self.keys@.len() implies (#[trigger] self.keys@[j]).wf() by {
                        let j0: int = if j < i { j } else { j + 1 };
                        assert(self.keys@[j] == s0[j0]);
                    }
                    lemma_keyed_map_contains(self.keys@, kf, key@);
                    assert forall|j: int|
                        0 <= j < self.keys@.len() implies kf(self.keys@[j]) != key@ by {
                        let j0: int = if j < i { j } else { j + 1 };
                        assert(self.keys@[j] == s0[j0]);
                    }
                }
                true
            },
            None => {
                proof {
                    assert(keyed_map(s0, kf).remove(key@) =~= keyed_map(s0, kf));
                }
                false
            },
        }
    }

    /// Validate a key at `now`: absent keys are unknown, kept keys past
    /// their expiry are expired, anything else passes.
    pub fn verify_key(&self, key: &Vec<u8>, now: u64) -> (r: Result<(), TrackerError>)
        requires
            self.wf(),
        ensures
            r is Ok <==> self.key_valid_at(key@, now),
            r == Err::<(), TrackerError>(TrackerError::UnknownKey) <==> !self.key_known(key@),
            r == Err::<(), TrackerError>(TrackerError::ExpiredKey) <==> (self.key_known(key@)
                && now > self.expiry_of(key@)),
    {
        let ghost kf = auth_key_fn();
        proof {
            lemma_keyed_map_contains(self.keys@, kf, key@);
        }
        match self.find_key(key) {
            Some(i) => {
                proof {
                    lemma_keyed_map_index(self.keys@, kf, i as int);
                }
                if now > self.keys[i].valid_until {
                    Err(TrackerError::ExpiredKey)
                } else {
                    Ok(())
                }
            },
            None => Err(TrackerError::UnknownKey),
        }
    }
}

/// Copy a byte string.
pub fn clone_bytes(v: &Vec<u8>) -> (r: Vec<u8>)
    ensures
        r@ == v@,
{
    let mut out: Vec<u8> = Vec::new();
    let mut i: usize = 0;
    while i < v.len()
        invariant
            i <= v@.len(),
            out@ == v@.take(i as int),
        decreases v@.len() - i,
    {
        out.push(v[i]);
        proof {
            assert(out@ =~= v@.take(i + 1));
        }
        i = i + 1;
    }
    proof {
        assert(v@.take(v@.len() as int) =~= v@);
    }
    out
}

/// The validity law of issued keys: a key whose expiry was fixed at
/// issuance to `issued_at + d` validates at every time up to that moment
/// and at no later one.
pub proof fn lemma_key_validity(km: KeyManager, k: Seq<u8>, issued_at: u64, d: u64, t: u64)
    requires
        km.key_known(k),
        km.expiry_of(k) == issued_at + d,
    ensures
        t <= issued_at + d ==> km.key_valid_at(k, t),
        t > issued_at + d ==> !km.key_valid_at(k, t),
{
}

} // verus!
