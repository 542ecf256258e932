//! The info-hash whitelist: a set of permitted torrents, cached in memory.
//! Persistence lives outside and warms the cache through `add`.

use vstd::prelude::*;
use crate::peer::InfoHash;

verus! {

pub struct Whitelist {
    pub hashes: Vec<InfoHash>,
}

impl Whitelist {
    /// No hash is held twice.
    pub open spec fn wf(self) -> bool {
        forall|i: int, j: int|
            0 <= i < j < self.hashes@.len() ==> self.hashes@[i] != self.hashes@[j]
    }

    /// The model: which hashes are permitted.
    pub open spec fn listed(self, h: InfoHash) -> bool {
        exists|i: int| 0 <= i < self.hashes@.len() && self.hashes@[i] == h
    }

    pub fn new() -> (r: Whitelist)
        ensures
            r.wf(),
            forall|h: InfoHash| !r.listed(h),
    {
        Whitelist { hashes: Vec::new() }
    }

    /// How many hashes are listed.
    pub fn len(&self) -> (r: usize)
        ensures
            r == self.hashes@.len(),
    {
        self.hashes.len()
    }

    fn find(&self, h: InfoHash) -> (r: Option<usize>)
        ensures
            match r {
                Some(i) => i < self.hashes@.len() && self.hashes@[i as int] == h,
                None => forall|j: int| 0 <= j < self.hashes@.len() ==> self.hashes@[j] != h,
            },
    {
        let mut i: usize = 0;
        while i < self.hashes.len()
            invariant
                i <= self.hashes@.len(),
                forall|j: int| 0 <= j < i ==> self.hashes@[j] != h,
            decreases self.hashes@.len() - i,
        {
            if self.hashes[i] == h {
                return Some(i);
            }
            i = i + 1;
        }
        None
    }

    /// Whether `h` is permitted.
    pub fn contains(&self, h: InfoHash) -> (r: bool)
        ensures
            r <==> self.listed(h),
    {
        self.find(h).is_some()
    }

    /// Permit `h`. Re-listing an already permitted hash changes nothing,
    /// and is reported as such rather than failing.
    pub fn add(&mut self, h: InfoHash) -> (added: bool)
        requires
            old(self).wf(),
        ensures
            final(self).wf(),
            final(self).listed(h),
            forall|h2: InfoHash| h2 != h ==> final(self).listed(h2) == old(self).listed(h2),
            added <==> !old(self).listed(h),
            old(self).listed(h) ==> final(self).hashes@ == old(self).hashes@,
    {
        match self.find(h) {
            Some(_) => false,
            None => {
                let ghost s0 = self.hashes@;
                self.hashes.push(h);
                proof {
                    assert(self.hashes@[s0.len() as int] == h);
                    assert forall|h2: InfoHash|
                        h2 != h implies (final(self).listed(h2) == old(self).listed(h2)) by {
                        if old(self).listed(h2) {
                            let i = choose|i: int| 0 <= i < s0.len() && s0[i] == h2;
                            assert(self.hashes@[i] == h2);
                        }
                        if final(self).listed(h2) {
                            let i = choose|i: int|
                                0 <= i < self.hashes@.len() && self.hashes@[i] == h2;
                            assert(i < s0.len());
                            assert(s0[i] == h2);
                        }
                    }
                }
                true
            },
        }
    }

    /// Withdraw `h`; absence is not an error.
    pub fn remove(&mut self, h: InfoHash) -> (removed: bool)
        requires
            old(self).wf(),
        ensures
            final(self).wf(),
            !final(self).listed(h),
            forall|h2: InfoHash| h2 != h ==> final(self).listed(h2) == old(self).listed(h2),
            removed <==> old(self).listed(h),
    {
        let ghost s0 = self.hashes@;
        match self.find(h) {
            Some(i) => {
                self.hashes.remove(i);
                proof {
                    assert forall|a: int, b: int|
                        0 <= a < b < self.hashes@.len() implies self.hashes@[a] != self.hashes@[b]
                        by {
                        let a0: int = if a < i { a } else { a + 1 };
                        let b0: int = if b < i { b } else { b + 1 };
                        assert(self.hashes@[a] == s0[a0]);
                        assert(self.hashes@[b] == s0[b0]);
                    }
                    assert forall|j: int|
                        0 <= j < self.hashes@.len() implies self.hashes@[j] != h by {
                        let j0: int = if j < i { j } else { j + 1 };
                        assert(self.hashes@[j] == s0[j0]);
                    }
                    assert forall|h2: InfoHash|
                        h2 != h implies (final(self).listed(h2) == old(self).listed(h2)) by {
                        if old(self).listed(h2) {
                            let a = choose|a: int| 0 <= a < s0.len() && s0[a] == h2;
                            let a1: int = if a < i {
                                a
                            } else {
                                a - 1
                            };
                            assert(a != i);
                            assert(self.hashes@[a1] == s0[a]);
                        }
                        if final(self).listed(h2) {
                            let a = choose|a: int|
                                0 <= a < self.hashes@.len() && self.hashes@[a] == h2;
                            let a0: int = if a < i { a } else { a + 1 };
                            assert(s0[a0] == h2);
                        }
                    }
                }
                true
            },
            None => false,
        }
    }
}

} // verus!
