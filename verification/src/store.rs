//! The torrent store: the mapping from info hash to swarm. Its model is
//! pointwise — for each info hash, the peer map and the completion counter
//! of that swarm — so that every operation can say exactly which hashes it
//! touches and how.

use vstd::prelude::*;
use crate::assoc::{keyed_map, unique_keys, lemma_keyed_map_contains, lemma_keyed_map_index,
    lemma_keyed_map_push, lemma_keyed_map_remove, lemma_unique_push, lemma_unique_remove};
use crate::peer::{AnnounceEvent, InfoHash, Peer, PeerId};
use crate::swarm::{completes_transition, count_excluding, num_leechers, num_seeders, sat_inc,
    SwarmEntry, SwarmStats};

verus! {

/// Key function of the store's association sequence.
pub open spec fn slot_key() -> spec_fn((InfoHash, SwarmEntry)) -> InfoHash {
    |e: (InfoHash, SwarmEntry)| e.0
}

/// `after` holds exactly the entries of `before` whose last update is not
/// older than `deadline`, unchanged.
pub open spec fn reaped_rel(
    before: Map<PeerId, Peer>,
    after: Map<PeerId, Peer>,
    deadline: u64,
) -> bool {
    &&& forall|id: PeerId|
        after.dom().contains(id) <==> (before.dom().contains(id) && before[id].updated >= deadline)
    &&& forall|id: PeerId| after.dom().contains(id) ==> after[id] == before[id]
}

/// Whether a sweep keeps this swarm: it has peers, or was not yet
/// flagged empty.
pub open spec fn keeps(e: (InfoHash, SwarmEntry)) -> bool {
    e.1.peers@.len() > 0 || !e.1.vacant_since_sweep
}

/// The swarm as a sweep leaves it: unchanged but for the emptiness flag.
pub open spec fn swept(e: (InfoHash, SwarmEntry)) -> (InfoHash, SwarmEntry) {
    (
        e.0,
        SwarmEntry {
            peers: e.1.peers,
            completed: e.1.completed,
            vacant_since_sweep: e.1.peers@.len() == 0,
        },
    )
}

pub struct TorrentStore {
    pub entries: Vec<(InfoHash, SwarmEntry)>,
}

impl TorrentStore {
    /// At most one swarm per info hash, each swarm itself well-formed.
    pub open spec fn wf(self) -> bool {
        &&& unique_keys(self.entries@, slot_key())
        &&& forall|i: int| 0 <= i < self.entries@.len() ==> (#[trigger] self.entries@[i]).1.wf()
    }

    pub open spec fn smap(self) -> Map<InfoHash, (InfoHash, SwarmEntry)> {
        keyed_map(self.entries@, slot_key())
    }

    /// Whether a swarm for `h` exists (it may be empty of peers).
    pub open spec fn has_swarm(self, h: InfoHash) -> bool {
        self.smap().dom().contains(h)
    }

    /// The peers of `h` by id; empty where no swarm exists.
    pub open spec fn peers_of(self, h: InfoHash) -> Map<PeerId, Peer> {
        if self.has_swarm(h) {
            self.smap()[h].1.pmap()
        } else {
            Map::empty()
        }
    }

    /// The completion counter of `h`; zero where no swarm exists.
    pub open spec fn completed_of(self, h: InfoHash) -> u64 {
        if self.has_swarm(h) {
            self.smap()[h].1.completed
        } else {
            0
        }
    }

    /// The stored peer sequence of `h`; empty where no swarm exists.
    pub open spec fn peer_seq_of(self, h: InfoHash) -> Seq<Peer> {
        if self.has_swarm(h) {
            self.smap()[h].1.peers@
        } else {
            Seq::empty()
        }
    }

    /// Whether the last sweep found the swarm of `h` empty.
    pub open spec fn vacant_of(self, h: InfoHash) -> bool {
        self.has_swarm(h) && self.smap()[h].1.vacant_since_sweep
    }

    pub fn new() -> (r: TorrentStore)
        ensures
            r.wf(),
            r.entries@.len() == 0,
            forall|h: InfoHash| !r.has_swarm(h),
    {
        let r = TorrentStore { entries: Vec::new() };
        proof {
            assert forall|h: InfoHash| !r.has_swarm(h) by {
                lemma_keyed_map_contains(r.entries@, slot_key(), h);
            }
        }
        r
    }

    /// How many swarms the store holds.
    pub fn swarm_count(&self) -> (r: usize)
        ensures
            r == self.entries@.len(),
    {
        self.entries.len()
    }

    /// Index of the swarm of `h`, if one exists.
    pub fn find_entry(&self, h: InfoHash) -> (r: Option<usize>)
        ensures
            match r {
                Some(i) => i < self.entries@.len() && self.entries@[i as int].0 == h,
                None => forall|j: int| 0 <= j < self.entries@.len() ==> self.entries@[j].0 != h,
            },
    {
        let mut i: usize = 0;
        while i < self.entries.len()
            invariant
                i <= self.entries@.len(),
                forall|j: int| 0 <= j < i ==> self.entries@[j].0 != h,
            decreases self.entries@.len() - i,
        {
            if self.entries[i].0 == h {
                return Some(i);
            }
            i = i + 1;
        }
        None
    }

    /// Upsert one announce: creates the swarm of `h` if absent, applies the
    /// peer's announce to it, and returns the aggregate counts the store
    /// holds for `h` immediately after the mutation. No other hash moves.
    pub fn upsert_peer(&mut self, h: InfoHash, p: Peer) -> (r: SwarmStats)
        requires
            old(self).wf(),
        ensures
            final(self).wf(),
            final(self).has_swarm(h),
            p.event == AnnounceEvent::Stopped ==> final(self).peers_of(h) == old(self).peers_of(
                h,
            ).remove(p.peer_id),
            p.event != AnnounceEvent::Stopped ==> final(self).peers_of(h) == old(self).peers_of(
                h,
            ).insert(p.peer_id, p),
            final(self).completed_of(h) == if completes_transition(old(self).peers_of(h), p) {
                sat_inc(old(self).completed_of(h))
            } else {
                old(self).completed_of(h)
            },
            final(self).completed_of(h) >= old(self).completed_of(h),
            forall|h2: InfoHash|
                h2 != h ==> final(self).has_swarm(h2) == old(self).has_swarm(h2) && final(self).peers_of(h2) == old(self).peers_of(h2) && final(self).completed_of(h2) == old(self).completed_of(h2) && final(self).peer_seq_of(h2) == old(self).peer_seq_of(h2),
            r.seeders == num_seeders(final(self).peer_seq_of(h)),
            r.leechers == num_leechers(final(self).peer_seq_of(h)),
            r.completed == final(self).completed_of(h),
            r.seeders + r.leechers == final(self).peers_of(h).dom().len(),
    {
        let ghost k = slot_key();
        let ghost s0 = self.entries@;
        let ghost m0 = self.smap();
        let mut entry: SwarmEntry;
        match self.find_entry(h) {
            Some(i) => {
                proof {
                    lemma_keyed_map_index(s0, k, i as int);
                    lemma_keyed_map_remove(s0, k, i as int);
                    lemma_unique_remove(s0, k, i as int);
                }
                let pair = self.entries.remove(i);
                entry = pair.1;
                proof {
                    assert forall|j: int|
                        0 <= j < self.entries@.len() implies (#[trigger] self.entries@[j]).1.wf()
                        && self.entries@[j].0 != h by {
                        let j0: int = if j < i { j } else { j + 1 };
                        assert(self.entries@[j] == s0[j0]);
                    }
                }
            },
            None => {
                proof {
                    lemma_keyed_map_contains(s0, k, h);
                    assert(!m0.dom().contains(h));
                    assert(m0.remove(h) =~= m0);
                }
                entry = SwarmEntry::new();
                proof {
                    assert(entry.pmap() =~= old(self).peers_of(h));
                }
            },
        }
        proof {
            assert(keyed_map(self.entries@, k) == m0.remove(h));
            assert(entry.pmap() == old(self).peers_of(h));
            assert(entry.completed == old(self).completed_of(h));
        }
        entry.upsert_peer(p);
        let stats = entry.aggregate();
        let ghost efinal = entry;
        proof {
            lemma_keyed_map_contains(self.entries@, k, h);
            assert(forall|j: int|
                0 <= j < self.entries@.len() ==> (#[trigger] k(self.entries@[j])) != h);
            lemma_unique_push(self.entries@, k, (h, efinal));
            lemma_keyed_map_push(self.entries@, k, (h, efinal));
        }
        let ghost spre = self.entries@;
        self.entries.push((h, entry));
        proof {
            assert(self.smap() == m0.remove(h).insert(h, (h, efinal)));
            assert(self.smap()[h] == (h, efinal));
            assert forall|j: int|
                0 <= j < self.entries@.len() implies (#[trigger] self.entries@[j]).1.wf() by {
                if j < self.entries@.len() - 1 {
                    assert(self.entries@[j] == spre[j]);
                }
            }
            assert forall|h2: InfoHash| h2 != h implies final(self).has_swarm(h2) == old(self).has_swarm(h2) && final(self).peers_of(h2) == old(self).peers_of(h2) && final(self).completed_of(h2) == old(self).completed_of(h2) && final(self).peer_seq_of(h2) == old(self).peer_seq_of(h2) by {
                assert(self.smap().dom().contains(h2) <==> m0.dom().contains(h2));
                if m0.dom().contains(h2) {
                    assert(self.smap()[h2] == m0[h2]);
                }
            }
            if p.event == AnnounceEvent::Stopped {
                assert(final(self).peers_of(h) =~= old(self).peers_of(h).remove(p.peer_id));
            } else {
                assert(final(self).peers_of(h) =~= old(self).peers_of(h).insert(p.peer_id, p));
            }
        }
        stats
    }

    /// Aggregate counts for `h`: an unknown hash reads as all zeros. The
    /// seeders and leechers partition the swarm's peers.
    pub fn aggregate(&self, h: InfoHash) -> (r: SwarmStats)
        requires
            self.wf(),
        ensures
            r.seeders == num_seeders(self.peer_seq_of(h)),
            r.leechers == num_leechers(self.peer_seq_of(h)),
            r.completed == self.completed_of(h),
            r.seeders + r.leechers == self.peers_of(h).dom().len(),
    {
        match self.find_entry(h) {
            Some(i) => {
                proof {
                    lemma_keyed_map_index(self.entries@, slot_key(), i as int);
                }
                let e = &self.entries[i];
                e.1.aggregate()
            },
            None => {
                proof {
                    lemma_keyed_map_contains(self.entries@, slot_key(), h);
                    assert(!self.has_swarm(h));
                    assert(self.peers_of(h).dom() =~= Set::<PeerId>::empty());
                }
                SwarmStats { seeders: 0, leechers: 0, completed: 0 }
            },
        }
    }

    /// Up to `limit` peers of `h` other than `exclude`; empty for an
    /// unknown hash. The announcer never appears in its own list.
    pub fn peers_for(&self, h: InfoHash, exclude: PeerId, limit: usize) -> (r: Vec<Peer>)
        requires
            self.wf(),
        ensures
            r@.len() <= limit,
            forall|i: int| 0 <= i < r@.len() ==> r@[i].peer_id != exclude,
            forall|i: int|
                0 <= i < r@.len() ==> self.peers_of(h).contains_pair(r@[i].peer_id, r@[i]),
            count_excluding(self.peer_seq_of(h), exclude) >= limit ==> r@.len() == limit,
            count_excluding(self.peer_seq_of(h), exclude) < limit ==> r@.len() == count_excluding(
                self.peer_seq_of(h),
                exclude,
            ),
    {
        match self.find_entry(h) {
            Some(i) => {
                proof {
                    lemma_keyed_map_index(self.entries@, slot_key(), i as int);
                }
                let e = &self.entries[i];
                e.1.sample_peers(exclude, limit)
            },
            None => {
                proof {
                    lemma_keyed_map_contains(self.entries@, slot_key(), h);
                }
                Vec::new()
            },
        }
    }

    /// One reaper sweep: every swarm keeps exactly its peers updated at or
    /// after `deadline`; completion counters and the set of swarms stay.
    pub fn reap(&mut self, deadline: u64)
        requires
            old(self).wf(),
        ensures
            final(self).wf(),
            forall|h: InfoHash| final(self).has_swarm(h) == old(self).has_swarm(h),
            forall|h: InfoHash|
                reaped_rel(old(self).peers_of(h), #[trigger] final(self).peers_of(h), deadline),
            forall|h: InfoHash| final(self).completed_of(h) == old(self).completed_of(h),
    {
        let ghost k = slot_key();
        let ghost s0 = self.entries@;
        let ghost n = s0.len() as int;
        let mut rebuilt: Vec<(InfoHash, SwarmEntry)> = Vec::new();
        while self.entries.len() > 0
            invariant
                unique_keys(s0, k),
                forall|i: int| 0 <= i < s0.len() ==> (#[trigger] s0[i]).1.wf(),
                n == s0.len(),
                self.entries@ == s0.take(n - rebuilt@.len()),
                rebuilt@.len() <= n,
                forall|j: int|
                    0 <= j < rebuilt@.len() ==> (#[trigger] rebuilt@[j]).0 == s0[n - 1 - j].0
                        && rebuilt@[j].1.wf() && reaped_rel(
                        s0[n - 1 - j].1.pmap(),
                        rebuilt@[j].1.pmap(),
                        deadline,
                    ) && rebuilt@[j].1.completed == s0[n - 1 - j].1.completed,
            decreases self.entries@.len(),
        {
            let ghost m = n - 1 - rebuilt@.len();
            proof {
                assert(s0.take(n - rebuilt@.len()).last() == s0[m]);
                assert(s0.take(n - rebuilt@.len()).drop_last() =~= s0.take(
                    n - rebuilt@.len() - 1,
                ));
            }
            let popped = self.entries.pop();
            match popped {
                Some(pair) => {
                    let hh = pair.0;
                    let mut e = pair.1;
                    e.reap_peers(deadline);
                    rebuilt.push((hh, e));
                },
                None => {
                    proof {
                        assert(false);
                    }
                },
            }
        }
        proof {
            assert(s0.take(n - rebuilt@.len()).len() == 0);
            assert(rebuilt@.len() == n);
        }
        self.entries = rebuilt;
        proof {
            assert forall|a: int, b: int|
                0 <= a < b < self.entries@.len() implies k(self.entries@[a]) != k(
                self.entries@[b],
            ) by {
                assert(self.entries@[a].0 == s0[n - 1 - a].0);
                assert(self.entries@[b].0 == s0[n - 1 - b].0);
            }
            assert forall|h: InfoHash| final(self).has_swarm(h) == old(self).has_swarm(h) by {
                lemma_keyed_map_contains(self.entries@, k, h);
                lemma_keyed_map_contains(s0, k, h);
                if exists|i: int| 0 <= i < s0.len() && s0[i].0 == h {
                    let i = choose|i: int| 0 <= i < s0.len() && s0[i].0 == h;
                    assert(self.entries@[n - 1 - i].0 == s0[n - 1 - (n - 1 - i)].0);
                }
                if exists|i: int| 0 <= i < self.entries@.len() && self.entries@[i].0 == h {
                    let i = choose|i: int|
                        0 <= i < self.entries@.len() && self.entries@[i].0 == h;
                    assert(s0[n - 1 - i].0 == h);
                }
            }
            assert forall|h: InfoHash| #[trigger]
                final(self).has_swarm(h) implies reaped_rel(
                old(self).peers_of(h),
                final(self).peers_of(h),
                deadline,
            ) && final(self).completed_of(h) == old(self).completed_of(h) by {
                lemma_keyed_map_contains(self.entries@, k, h);
                let i = choose|i: int| 0 <= i < self.entries@.len() && self.entries@[i].0 == h;
                lemma_keyed_map_index(self.entries@, k, i);
                lemma_keyed_map_index(s0, k, n - 1 - i);
            }
            assert forall|h: InfoHash|
                reaped_rel(
                    old(self).peers_of(h),
                    #[trigger] final(self).peers_of(h),
                    deadline,
                ) && final(self).completed_of(h) == old(self).completed_of(h) by {
                if final(self).has_swarm(h) {
                } else {
                    assert(final(self).peers_of(h) == Map::<PeerId, Peer>::empty());
                    assert(old(self).peers_of(h) == Map::<PeerId, Peer>::empty());
                }
            }
        }
    }
    /// The optional second half of a sweep: a swarm already found empty by
    /// the previous sweep is dropped, any other swarm stays and is flagged
    /// exactly when it is empty now. Run after `reap`, this deletes a swarm
    /// only once it has been empty for at least one whole cleanup cycle.
    pub fn drop_vacant_swarms(&mut self)
        requires
            old(self).wf(),
        ensures
            final(self).wf(),
            forall|h: InfoHash|
                #[trigger] final(self).has_swarm(h) <==> (old(self).has_swarm(h) && (old(self).peer_seq_of(h).len() > 0 || !old(self).vacant_of(h))),
            forall|h: InfoHash|
                #[trigger] final(self).has_swarm(h) ==> final(self).peers_of(h) == old(self).peers_of(h) && final(self).completed_of(h) == old(self).completed_of(h) && final(self).peer_seq_of(h) == old(self).peer_seq_of(h) && (final(self).vacant_of(h) <==> old(self).peer_seq_of(h).len() == 0),
    {
        let ghost k = slot_key();
        let ghost s0 = self.entries@;
        let ghost n = s0.len() as int;
        let mut rebuilt: Vec<(InfoHash, SwarmEntry)> = Vec::new();
        while self.entries.len() > 0
            invariant
                k == slot_key(),
                unique_keys(s0, k),
                forall|i: int| 0 <= i < s0.len() ==> (#[trigger] s0[i]).1.wf(),
                n == s0.len(),
                self.entries@ == s0.take(self.entries@.len() as int),
                self.entries@.len() <= n,
                unique_keys(rebuilt@, k),
                forall|j: int| 0 <= j < rebuilt@.len() ==> (#[trigger] rebuilt@[j]).1.wf(),
                forall|hh: InfoHash|
                    #[trigger] keyed_map(rebuilt@, k).dom().contains(hh) ==> (exists|idx: int|
                        self.entries@.len() <= idx < n && (#[trigger] s0[idx]).0 == hh && keeps(
                            s0[idx],
                        ) && keyed_map(rebuilt@, k)[hh] == swept(s0[idx])),
                forall|idx: int|
                    self.entries@.len() <= idx < n && keeps(#[trigger] s0[idx]) ==> keyed_map(
                        rebuilt@,
                        k,
                    ).contains_pair(s0[idx].0, swept(s0[idx])),
            decreases self.entries@.len(),
        {
            let ghost m = self.entries@.len() as int - 1;
            proof {
                assert(s0.take(m + 1).last() == s0[m]);
                assert(s0.take(m + 1).drop_last() =~= s0.take(m));
            }
            let popped = self.entries.pop();
            match popped {
                Some(pair) => {
                    proof {
                        assert(pair == s0[m]);
                    }
                    let hh = pair.0;
                    let mut e = pair.1;
                    let keep_it = e.peers.len() > 0 || !e.vacant_since_sweep;
                    if keep_it {
                        let was_empty = e.peers.len() == 0;
                        e.vacant_since_sweep = was_empty;
                        let ghost rpre = rebuilt@;
                        let ghost eu = e;
                        proof {
                            assert((hh, eu) == swept(s0[m]));
                            lemma_keyed_map_contains(rpre, k, hh);
                            assert forall|j: int|
                                0 <= j < rpre.len() implies k(rpre[j]) != hh by {
                                if k(rpre[j]) == hh {
                                    lemma_keyed_map_index(rpre, k, j);
                                    assert(keyed_map(rebuilt@, k).dom().contains(hh));
                                    let idx = choose|idx: int|
                                        self.entries@.len() <= idx < n && (#[trigger] s0[idx]).0
                                            == hh && keeps(s0[idx]) && keyed_map(rebuilt@, k)[hh]
                                            == swept(s0[idx]);
                                    assert(k(s0[idx]) == s0[idx].0);
                                    assert(k(s0[m]) == s0[m].0);
                                    assert(k(s0[idx]) != k(s0[m]));
                                }
                            }
                            lemma_unique_push(rpre, k, (hh, eu));
                            lemma_keyed_map_push(rpre, k, (hh, eu));
                        }
                        rebuilt.push((hh, e));
                        proof {
                            assert(keyed_map(rebuilt@, k) == keyed_map(rpre, k).insert(
                                hh,
                                (hh, eu),
                            ));
                            assert forall|hh2: InfoHash|
                                #[trigger] keyed_map(rebuilt@, k).dom().contains(hh2) implies (
                            exists|idx: int|
                                m <= idx < n && (#[trigger] s0[idx]).0 == hh2 && keeps(s0[idx])
                                    && keyed_map(rebuilt@, k)[hh2] == swept(s0[idx])) by {
                                if hh2 == hh {
                                    assert(s0[m].0 == hh2 && keeps(s0[m]) && keyed_map(
                                        rebuilt@,
                                        k,
                                    )[hh2] == swept(s0[m]));
                                } else {
                                    assert(keyed_map(rpre, k).dom().contains(hh2));
                                    let idx = choose|idx: int|
                                        m + 1 <= idx < n && (#[trigger] s0[idx]).0 == hh2 && keeps(
                                            s0[idx],
                                        ) && keyed_map(rpre, k)[hh2] == swept(s0[idx]);
                                    assert(keyed_map(rebuilt@, k)[hh2] == keyed_map(rpre, k)[hh2]);
                                    assert(m <= idx < n && s0[idx].0 == hh2 && keeps(s0[idx])
                                        && keyed_map(rebuilt@, k)[hh2] == swept(s0[idx]));
                                }
                            }
                            assert forall|idx: int|
                                m <= idx < n && keeps(#[trigger] s0[idx]) implies keyed_map(
                                rebuilt@,
                                k,
                            ).contains_pair(s0[idx].0, swept(s0[idx])) by {
                                if idx == m {
                                    assert(keyed_map(rebuilt@, k)[hh] == (hh, eu));
                                } else {
                                    assert(k(s0[idx]) != k(s0[m]));
                                    assert(keyed_map(rpre, k).contains_pair(
                                        s0[idx].0,
                                        swept(s0[idx]),
                                    ));
                                }
                            }
                        }
                    } else {
                        proof {
                            assert(e == s0[m].1);
                            assert(!keeps(s0[m]));
                            lemma_keyed_map_contains(rebuilt@, k, hh);
                        }
                    }
                },
                None => {
                    proof {
                        assert(false);
                    }
                },
            }
        }
        proof {
            assert(s0.take(0) =~= Seq::<(InfoHash, SwarmEntry)>::empty());
        }
        self.entries = rebuilt;
        proof {
            assert forall|h: InfoHash|
                #[trigger] final(self).has_swarm(h) <==> (old(self).has_swarm(h) && (old(self).peer_seq_of(h).len() > 0 || !old(self).vacant_of(h))) by {
                lemma_keyed_map_contains(self.entries@, k, h);
                if old(self).has_swarm(h) {
                    lemma_keyed_map_contains(s0, k, h);
                    let i = choose|i: int| 0 <= i < s0.len() && (#[trigger] s0[i]).0 == h;
                    lemma_keyed_map_index(s0, k, i);
                    if keeps(s0[i]) {
                        assert(keyed_map(self.entries@, k).contains_pair(s0[i].0, swept(s0[i])));
                    }
                } else {
                    if final(self).has_swarm(h) {
                        let idx = choose|idx: int|
                            0 <= idx < n && (#[trigger] s0[idx]).0 == h && keeps(s0[idx])
                                && keyed_map(self.entries@, k)[h] == swept(s0[idx]);
                        lemma_keyed_map_index(s0, k, idx);
                    }
                }
            }
            assert forall|h: InfoHash| #[trigger]
                final(self).has_swarm(h) implies final(self).peers_of(h) == old(self).peers_of(h)
                && final(self).completed_of(h) == old(self).completed_of(h) && final(self).peer_seq_of(h) == old(self).peer_seq_of(h) && (final(self).vacant_of(h) <==> old(self).peer_seq_of(h).len() == 0) by {
                lemma_keyed_map_contains(self.entries@, k, h);
                let idx = choose|idx: int|
                    0 <= idx < n && (#[trigger] s0[idx]).0 == h && keeps(s0[idx]) && keyed_map(
                        self.entries@,
                        k,
                    )[h] == swept(s0[idx]);
                lemma_keyed_map_index(s0, k, idx);
                assert(swept(s0[idx]).1.pmap() =~= s0[idx].1.pmap());
            }
        }
    }
}

} // verus!
