//! One swarm: the live peers of a single info hash, keyed by peer id,
//! plus the count of completions seen. The mathematical model of a swarm
//! is the map from peer ids to peer records together with that counter.

use vstd::prelude::*;
use crate::assoc::{keyed_map, unique_keys, lemma_keyed_map_contains, lemma_keyed_map_index,
    lemma_keyed_map_push, lemma_keyed_map_remove, lemma_keyed_map_len, lemma_unique_push,
    lemma_unique_remove};
use crate::peer::{AnnounceEvent, Peer, PeerId};

verus! {

/// Key function of the peer association sequence.
pub open spec fn peer_key() -> spec_fn(Peer) -> PeerId {
    |p: Peer| p.peer_id
}

/// How many entries of the sequence seed.
pub open spec fn num_seeders(s: Seq<Peer>) -> nat
    decreases s.len(),
{
    if s.len() == 0 {
        0
    } else {
        num_seeders(s.drop_last()) + if s.last().is_seeder() {
            1nat
        } else {
            0nat
        }
    }
}

/// How many entries of the sequence leech.
pub open spec fn num_leechers(s: Seq<Peer>) -> nat
    decreases s.len(),
{
    if s.len() == 0 {
        0
    } else {
        num_leechers(s.drop_last()) + if s.last().is_seeder() {
            0nat
        } else {
            1nat
        }
    }
}

/// How many entries of the sequence carry a peer id other than `id`.
pub open spec fn count_excluding(s: Seq<Peer>, id: PeerId) -> nat
    decreases s.len(),
{
    if s.len() == 0 {
        0
    } else {
        count_excluding(s.drop_last(), id) + if s.last().peer_id == id {
            0nat
        } else {
            1nat
        }
    }
}

/// A counter bumped by one, stopping at the top of its range.
pub open spec fn sat_inc(c: u64) -> u64 {
    if c == u64::MAX {
        c
    } else {
        (c + 1) as u64
    }
}

/// The completion counter moves exactly when a `completed` announce comes
/// from a peer that was absent or was still a leecher.
pub open spec fn completes_transition(m: Map<PeerId, Peer>, p: Peer) -> bool {
    p.event == AnnounceEvent::Completed && (!m.dom().contains(p.peer_id) || m[p.peer_id].left > 0)
}

/// The uniqueness invariant spelled out: in a well-formed swarm, two
/// records carrying the same peer id are the same record.
pub proof fn lemma_at_most_one_record(e: SwarmEntry, i: int, j: int)
    requires
        e.wf(),
        0 <= i < e.peers@.len(),
        0 <= j < e.peers@.len(),
        e.peers@[i].peer_id == e.peers@[j].peer_id,
    ensures
        i == j,
{
    let k = peer_key();
    assert(k(e.peers@[i]) == e.peers@[i].peer_id);
    assert(k(e.peers@[j]) == e.peers@[j].peer_id);
}

/// Re-announcing the same peer with a `none` or `started` event moves
/// nothing: the peer map absorbs the second insert and neither announce
/// is a completing transition, so the counter stays too.
pub proof fn lemma_reannounce_idempotent(m: Map<PeerId, Peer>, p: Peer)
    requires
        p.event == AnnounceEvent::NoEvent || p.event == AnnounceEvent::Started,
    ensures
        m.insert(p.peer_id, p).insert(p.peer_id, p) == m.insert(p.peer_id, p),
        !completes_transition(m, p),
        !completes_transition(m.insert(p.peer_id, p), p),
{
    assert(m.insert(p.peer_id, p).insert(p.peer_id, p) =~= m.insert(p.peer_id, p));
}

/// Aggregate counts of one swarm, as a scrape reports them.
#[derive(Clone, Copy, PartialEq, Eq, Structural, Debug)]
pub struct SwarmStats {
    pub seeders: usize,
    pub leechers: usize,
    pub completed: u64,
}

/// The peers of one info hash and its completion counter. `vacant_since_sweep`
/// is the reaper's bookkeeping: it is set when a sweep finds the swarm empty,
/// so that an optional later sweep may drop the swarm.
pub struct SwarmEntry {
    pub peers: Vec<Peer>,
    pub completed: u64,
    pub vacant_since_sweep: bool,
}

impl SwarmEntry {
    /// At most one peer record per peer id.
    pub open spec fn wf(self) -> bool {
        unique_keys(self.peers@, peer_key())
    }

    /// The model: peers by id.
    pub open spec fn pmap(self) -> Map<PeerId, Peer> {
        keyed_map(self.peers@, peer_key())
    }

    pub fn new() -> (r: SwarmEntry)
        ensures
            r.wf(),
            r.pmap() == Map::<PeerId, Peer>::empty(),
            r.completed == 0,
            r.peers@.len() == 0,
            !r.vacant_since_sweep,
    {
        SwarmEntry { peers: Vec::new(), completed: 0, vacant_since_sweep: false }
    }

    /// Index of the record carrying `id`, if one does.
    pub fn find_peer(&self, id: PeerId) -> (r: Option<usize>)
        ensures
            match r {
                Some(i) => i < self.peers@.len() && self.peers@[i as int].peer_id == id,
                None => forall|j: int| 0 <= j < self.peers@.len() ==> self.peers@[j].peer_id != id,
            },
    {
        let mut i: usize = 0;
        while i < self.peers.len()
            invariant
                i <= self.peers@.len(),
                forall|j: int| 0 <= j < i ==> self.peers@[j].peer_id != id,
            decreases self.peers@.len() - i,
        {
            if self.peers[i].peer_id == id {
                return Some(i);
            }
            i = i + 1;
        }
        None
    }

    /// Whether the model knows `id`, decided on the concrete vector.
    pub fn contains_peer(&self, id: PeerId) -> (r: bool)
        ensures
            r <==> self.pmap().dom().contains(id),
    {
        proof {
            lemma_keyed_map_contains(self.peers@, peer_key(), id);
        }
        self.find_peer(id).is_some()
    }

    /// Upsert one announce into the swarm: a `stopped` announce removes the
    /// peer's record, any other replaces it (or adds one), and the completion
    /// counter moves exactly on a completing transition.
    pub fn upsert_peer(&mut self, p: Peer)
        requires
            old(self).wf(),
        ensures
            final(self).wf(),
            p.event == AnnounceEvent::Stopped ==> final(self).pmap() == old(self).pmap().remove(
                p.peer_id,
            ),
            p.event != AnnounceEvent::Stopped ==> final(self).pmap() == old(self).pmap().insert(
                p.peer_id,
                p,
            ),
            final(self).completed == if completes_transition(old(self).pmap(), p) {
                sat_inc(old(self).completed)
            } else {
                old(self).completed
            },
            final(self).completed >= old(self).completed,
            final(self).vacant_since_sweep == old(self).vacant_since_sweep,
    {
        let ghost k = peer_key();
        let ghost m0 = self.pmap();
        match self.find_peer(p.peer_id) {
            Some(i) => {
                let prior: Peer = self.peers[i];
                proof {
                    lemma_keyed_map_index(self.peers@, k, i as int);
                    lemma_keyed_map_remove(self.peers@, k, i as int);
                    lemma_unique_remove(self.peers@, k, i as int);
                }
                self.peers.remove(i);
                if !matches!(p.event, AnnounceEvent::Stopped) {
                    proof {
                        lemma_keyed_map_contains(self.peers@, k, p.peer_id);
                        assert(forall|j: int|
                            0 <= j < self.peers@.len() ==> k(self.peers@[j]) != p.peer_id);
                        lemma_unique_push(self.peers@, k, p);
                        lemma_keyed_map_push(self.peers@, k, p);
                    }
                    self.peers.push(p);
                    proof {
                        assert(self.pmap() =~= m0.insert(p.peer_id, p));
                    }
                }
                if matches!(p.event, AnnounceEvent::Completed) && prior.left > 0 {
                    self.completed = if self.completed < u64::MAX {
                        self.completed + 1
                    } else {
                        self.completed
                    };
                }
            },
            None => {
                proof {
                    lemma_keyed_map_contains(self.peers@, k, p.peer_id);
                }
                if !matches!(p.event, AnnounceEvent::Stopped) {
                    proof {
                        lemma_unique_push(self.peers@, k, p);
                        lemma_keyed_map_push(self.peers@, k, p);
                    }
                    self.peers.push(p);
                } else {
                    proof {
                        assert(m0.remove(p.peer_id) =~= m0);
                    }
                }
                if matches!(p.event, AnnounceEvent::Completed) {
                    self.completed = if self.completed < u64::MAX {
                        self.completed + 1
                    } else {
                        self.completed
                    };
                }
            },
        }
    }

    /// Aggregate counts. Seeders and leechers partition the live peers,
    /// so their sum is the number of peer records the swarm holds.
    pub fn aggregate(&self) -> (r: SwarmStats)
        requires
            self.wf(),
        ensures
            r.seeders == num_seeders(self.peers@),
            r.leechers == num_leechers(self.peers@),
            r.completed == self.completed,
            r.seeders + r.leechers == self.pmap().dom().len(),
            self.pmap().dom().finite(),
    {
        let mut seeders: usize = 0;
        let mut leechers: usize = 0;
        let mut i: usize = 0;
        while i < self.peers.len()
            invariant
                i <= self.peers@.len(),
                seeders == num_seeders(self.peers@.take(i as int)),
                leechers == num_leechers(self.peers@.take(i as int)),
                seeders + leechers == i,
            decreases self.peers@.len() - i,
        {
            proof {
                assert(self.peers@.take(i + 1).drop_last() =~= self.peers@.take(i as int));
                assert(self.peers@.take(i + 1).last() == self.peers@[i as int]);
            }
            if self.peers[i].left == 0 {
                seeders = seeders + 1;
            } else {
                leechers = leechers + 1;
            }
            i = i + 1;
        }
        proof {
            assert(self.peers@.take(self.peers@.len() as int) =~= self.peers@);
            lemma_keyed_map_len(self.peers@, peer_key());
        }
        SwarmStats { seeders, leechers, completed: self.completed }
    }

    /// Up to `limit` peers other than `exclude`, taken in storage order from
    /// the front (the deterministic starting offset of this implementation).
    /// The announcer is never in the sample it is handed back.
    pub fn sample_peers(&self, exclude: PeerId, limit: usize) -> (r: Vec<Peer>)
        requires
            self.wf(),
        ensures
            r@.len() <= limit,
            forall|i: int| 0 <= i < r@.len() ==> r@[i].peer_id != exclude,
            forall|i: int|
                0 <= i < r@.len() ==> self.pmap().contains_pair(r@[i].peer_id, r@[i]),
            count_excluding(self.peers@, exclude) >= limit ==> r@.len() == limit,
            count_excluding(self.peers@, exclude) < limit ==> r@.len() == count_excluding(
                self.peers@,
                exclude,
            ),
    {
        let mut out: Vec<Peer> = Vec::new();
        let mut i: usize = 0;
        while i < self.peers.len()
            invariant
                self.wf(),
                i <= self.peers@.len(),
                out@.len() <= limit,
                forall|j: int| 0 <= j < out@.len() ==> out@[j].peer_id != exclude,
                forall|j: int|
                    0 <= j < out@.len() ==> self.pmap().contains_pair(out@[j].peer_id, out@[j]),
                out@.len() == if count_excluding(self.peers@.take(i as int), exclude) <= limit {
                    count_excluding(self.peers@.take(i as int), exclude) as int
                } else {
                    limit as int
                },
            decreases self.peers@.len() - i,
        {
            proof {
                assert(self.peers@.take(i + 1).drop_last() =~= self.peers@.take(i as int));
                assert(self.peers@.take(i + 1).last() == self.peers@[i as int]);
            }
            let p = self.peers[i];
            if !(p.peer_id == exclude) && out.len() < limit {
                proof {
                    lemma_keyed_map_index(self.peers@, peer_key(), i as int);
                }
                out.push(p);
            }
            i = i + 1;
        }
        proof {
            assert(self.peers@.take(self.peers@.len() as int) =~= self.peers@);
        }
        out
    }

    /// Drop every peer not seen since `deadline`; the completion counter and
    /// the records of the fresh peers stay exactly as they were.
    pub fn reap_peers(&mut self, deadline: u64)
        requires
            old(self).wf(),
        ensures
            final(self).wf(),
            forall|id: PeerId|
                final(self).pmap().dom().contains(id) <==> (old(self).pmap().dom().contains(id)
                    && old(self).pmap()[id].updated >= deadline),
            forall|id: PeerId|
                final(self).pmap().dom().contains(id) ==> final(self).pmap()[id] == old(self).pmap()[id],
            final(self).completed == old(self).completed,
            final(self).vacant_since_sweep == old(self).vacant_since_sweep,
    {
        let ghost k = peer_key();
        let ghost m0 = self.pmap();
        let mut kept: Vec<Peer> = Vec::new();
        let mut i: usize = 0;
        while i < self.peers.len()
            invariant
                unique_keys(self.peers@, k),
                m0 == keyed_map(self.peers@, k),
                k == peer_key(),
                i <= self.peers@.len(),
                unique_keys(kept@, k),
                forall|id: PeerId|
                    keyed_map(kept@, k).dom().contains(id) ==> (exists|j: int|
                        0 <= j < i && self.peers@[j].peer_id == id && self.peers@[j].updated
                            >= deadline && keyed_map(kept@, k)[id] == self.peers@[j]),
                forall|j: int|
                    0 <= j < i && self.peers@[j].updated >= deadline ==> keyed_map(
                        kept@,
                        k,
                    ).contains_pair(self.peers@[j].peer_id, self.peers@[j]),
            decreases self.peers@.len() - i,
        {
            let p = self.peers[i];
            if p.updated >= deadline {
                proof {
                    lemma_keyed_map_contains(kept@, k, p.peer_id);
                    assert forall|j: int|
                        0 <= j < kept@.len() implies k(kept@[j]) != p.peer_id by {
                        if k(kept@[j]) == p.peer_id {
                            lemma_keyed_map_index(kept@, k, j);
                        }
                    }
                    lemma_unique_push(kept@, k, p);
                    lemma_keyed_map_push(kept@, k, p);
                }
                kept.push(p);
            }
            i = i + 1;
        }
        proof {
            assert forall|id: PeerId|
                keyed_map(kept@, k).dom().contains(id) implies (m0.dom().contains(id)
                && m0[id].updated >= deadline && keyed_map(kept@, k)[id] == m0[id]) by {
                let j = choose|j: int|
                    0 <= j < self.peers@.len() && self.peers@[j].peer_id == id
                        && self.peers@[j].updated >= deadline && keyed_map(kept@, k)[id]
                        == self.peers@[j];
                lemma_keyed_map_index(self.peers@, k, j);
            }
            assert forall|id: PeerId|
                m0.dom().contains(id) && m0[id].updated >= deadline implies keyed_map(
                kept@,
                k,
            ).dom().contains(id) && keyed_map(kept@, k)[id] == m0[id] by {
                lemma_keyed_map_contains(self.peers@, k, id);
                let j = choose|j: int| 0 <= j < self.peers@.len() && self.peers@[j].peer_id == id;
                lemma_keyed_map_index(self.peers@, k, j);
            }
        }
        self.peers = kept;
    }
}

} // verus!
