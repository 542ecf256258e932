//! The tracker facade: one value holding the store, the key registry, the
//! whitelist, the statistics and the configured policy, with the announce
//! and scrape pipelines on top. Transports decode requests, resolve the
//! remote address and call in here; everything behind this point is pure
//! bookkeeping over plain values.

use vstd::prelude::*;
use crate::announce::{announce_event_of, build_peer, clamp_numwant, count_to_u32,
    effective_numwant, peer_from_announce, sat_u32, AnnounceRequest, AnnounceResponse};
use crate::auth::{authorize, gate_decision, key_decision, key_view, Mode};
use crate::connection::{id_accepted, issue_connection_id, issued_id, verify_connection_id};
use crate::errors::TrackerError;
use crate::keys::{AuthKey, bytes_eq, KeyManager};
use crate::peer::{AnnounceEvent, InfoHash, IpAddress, PeerId};
use crate::resolver::{resolve, resolved_ip, RemoteClientIp};
use crate::stats::{bumped, Stats, TrackerEvent};
use crate::store::TorrentStore;
use crate::swarm::{completes_transition, count_excluding, num_leechers, num_seeders, sat_inc,
    SwarmStats};
use crate::whitelist::Whitelist;

verus! {

pub struct Tracker {
    pub mode: Mode,
    pub interval: u32,
    pub min_interval: u32,
    pub on_reverse_proxy: bool,
    pub secret: u64,
    pub admin_tokens: Vec<Vec<u8>>,
    pub store: TorrentStore,
    pub keys: KeyManager,
    pub whitelist: Whitelist,
    pub stats: Stats,
}

/// The policy fields never move after startup.
pub open spec fn config_unchanged(pre: Tracker, post: Tracker) -> bool {
    &&& post.mode == pre.mode
    &&& post.interval == pre.interval
    &&& post.min_interval == pre.min_interval
    &&& post.on_reverse_proxy == pre.on_reverse_proxy
    &&& post.secret == pre.secret
    &&& post.admin_tokens@ == pre.admin_tokens@
}

/// Everything one admitted announce does: the swarm of the request moves as
/// an upsert of the announced peer, no other swarm moves, one statistics
/// event is counted, and the response carries the configured intervals, the
/// post-state counts and a peer list that never contains the announcer.
pub open spec fn announce_effect(
    pre: Tracker,
    post: Tracker,
    req: AnnounceRequest,
    ip: IpAddress,
    now: u64,
    r: AnnounceResponse,
) -> bool {
    let p = peer_from_announce(req, ip, now);
    let h = req.info_hash;
    &&& config_unchanged(pre, post)
    &&& post.keys == pre.keys
    &&& post.whitelist == pre.whitelist
    &&& post.store.has_swarm(h)
    &&& (req.event == AnnounceEvent::Stopped ==> post.store.peers_of(h) == pre.store.peers_of(
        h,
    ).remove(req.peer_id))
    &&& (req.event != AnnounceEvent::Stopped ==> post.store.peers_of(h) == pre.store.peers_of(
        h,
    ).insert(req.peer_id, p))
    &&& post.store.completed_of(h) == (if completes_transition(pre.store.peers_of(h), p) {
        sat_inc(pre.store.completed_of(h))
    } else {
        pre.store.completed_of(h)
    })
    &&& (forall|h2: InfoHash|
        h2 != h ==> post.store.has_swarm(h2) == pre.store.has_swarm(h2) && post.store.peers_of(h2)
            == pre.store.peers_of(h2) && post.store.completed_of(h2) == pre.store.completed_of(h2))
    &&& post.stats == bumped(pre.stats, announce_event_of(ip, req.left))
    &&& r.interval == pre.interval
    &&& r.min_interval == pre.min_interval
    &&& r.seeders == sat_u32(num_seeders(post.store.peer_seq_of(h)) as int)
    &&& r.leechers == sat_u32(num_leechers(post.store.peer_seq_of(h)) as int)
    &&& r.peers@.len() <= effective_numwant(req.numwant)
    &&& (forall|i: int| 0 <= i < r.peers@.len() ==> r.peers@[i].peer_id != req.peer_id)
    &&& (forall|i: int|
        0 <= i < r.peers@.len() ==> post.store.peers_of(h).contains_pair(
            r.peers@[i].peer_id,
            r.peers@[i],
        ))
    &&& (count_excluding(post.store.peer_seq_of(h), req.peer_id) >= effective_numwant(req.numwant)
        ==> r.peers@.len() == effective_numwant(req.numwant))
    &&& (count_excluding(post.store.peer_seq_of(h), req.peer_id) < effective_numwant(req.numwant)
        ==> r.peers@.len() == count_excluding(post.store.peer_seq_of(h), req.peer_id))
}

/// What an announce is admitted to run with: first the authorization
/// decision, then the address resolution.
pub open spec fn announce_admission(
    t: Tracker,
    req: AnnounceRequest,
    key: Option<Seq<u8>>,
    remote: RemoteClientIp,
    now: u64,
) -> Result<IpAddress, TrackerError> {
    match gate_decision(t.mode, t.keys, t.whitelist, key, req.info_hash, now) {
        Err(e) => Err(e),
        Ok(()) => resolved_ip(t.on_reverse_proxy, remote),
    }
}

impl Tracker {
    pub open spec fn wf(self) -> bool {
        &&& self.store.wf()
        &&& self.keys.wf()
        &&& self.whitelist.wf()
    }

    /// A tracker with the given policy and nothing yet tracked. The secret
    /// seals connection ids and must be drawn fresh at startup.
    pub fn new(
        mode: Mode,
        interval: u32,
        min_interval: u32,
        on_reverse_proxy: bool,
        secret: u64,
        admin_tokens: Vec<Vec<u8>>,
    ) -> (r: Tracker)
        ensures
            r.wf(),
            r.mode == mode,
            r.interval == interval,
            r.min_interval == min_interval,
            r.on_reverse_proxy == on_reverse_proxy,
            r.secret == secret,
            r.admin_tokens@ == admin_tokens@,
            forall|h: InfoHash| !r.store.has_swarm(h),
            forall|k: Seq<u8>| !r.keys.key_known(k),
            forall|h: InfoHash| !r.whitelist.listed(h),
            r.stats == (Stats {
                announces4_seeder: 0,
                announces4_leecher: 0,
                announces6_seeder: 0,
                announces6_leecher: 0,
                scrapes4: 0,
                scrapes6: 0,
            }),
    {
        Tracker {
            mode,
            interval,
            min_interval,
            on_reverse_proxy,
            secret,
            admin_tokens,
            store: TorrentStore::new(),
            keys: KeyManager::new(),
            whitelist: Whitelist::new(),
            stats: Stats::new(),
        }
    }

    /// Whether announces must carry a key in this mode.
    pub fn requires_authentication(&self) -> (r: bool)
        ensures
            r == self.mode.requires_key(),
    {
        self.mode.needs_key()
    }

    /// Validate a key at `now`.
    pub fn authenticate(&self, key: &Vec<u8>, now: u64) -> (r: Result<(), TrackerError>)
        requires
            self.wf(),
        ensures
            r is Ok <==> self.keys.key_valid_at(key@, now),
            r == Err::<(), TrackerError>(TrackerError::UnknownKey) <==> !self.keys.key_known(key@),
            r == Err::<(), TrackerError>(TrackerError::ExpiredKey) <==> (self.keys.key_known(key@)
                && now > self.keys.expiry_of(key@)),
    {
        self.keys.verify_key(key, now)
    }

    /// The full admission gate for a request against `h`.
    pub fn authorize(&self, key: Option<&Vec<u8>>, h: InfoHash, now: u64) -> (r: Result<
        (),
        TrackerError,
    >)
        requires
            self.wf(),
        ensures
            r == gate_decision(self.mode, self.keys, self.whitelist, key_view(key), h, now),
    {
        authorize(self.mode, &self.keys, &self.whitelist, key, h, now)
    }

    /// Run one admitted announce: upsert the peer, sample its swarm without
    /// it, count the event, and answer with the post-state counts.
    pub fn announce(&mut self, req: &AnnounceRequest, ip: IpAddress, now: u64) -> (r:
        AnnounceResponse)
        requires
            old(self).wf(),
        ensures
            final(self).wf(),
            announce_effect(*old(self), *final(self), *req, ip, now, r),
    {
        let p = build_peer(req, ip, now);
        let numwant = clamp_numwant(req.numwant);
        let agg = self.store.upsert_peer(req.info_hash, p);
        let sample = self.store.peers_for(req.info_hash, req.peer_id, numwant);
        let ev = crate::announce::event_for_announce(&ip, req.left);
        self.stats.record(ev);
        AnnounceResponse {
            interval: self.interval,
            min_interval: self.min_interval,
            seeders: count_to_u32(agg.seeders),
            leechers: count_to_u32(agg.leechers),
            peers: sample,
        }
    }

    /// The whole announce pipeline: authorize, resolve, announce. A
    /// rejected request reports exactly the authorization or resolver
    /// error and leaves the tracker untouched.
    pub fn handle_announce(
        &mut self,
        req: &AnnounceRequest,
        key: Option<&Vec<u8>>,
        remote: &RemoteClientIp,
        now: u64,
    ) -> (r: Result<AnnounceResponse, TrackerError>)
        requires
            old(self).wf(),
        ensures
            final(self).wf(),
            announce_admission(*old(self), *req, key_view(key), *remote, now) is Err ==> (r is Err
                && r->Err_0 == announce_admission(
                *old(self),
                *req,
                key_view(key),
                *remote,
                now,
            )->Err_0 && *final(self) == *old(self)),
            announce_admission(*old(self), *req, key_view(key), *remote, now) is Ok ==> (r is Ok
                && announce_effect(
                *old(self),
                *final(self),
                *req,
                announce_admission(*old(self), *req, key_view(key), *remote, now)->Ok_0,
                now,
                r->Ok_0,
            )),
    {
        match authorize(self.mode, &self.keys, &self.whitelist, key, req.info_hash, now) {
            Ok(()) => {},
            Err(e) => {
                return Err(e);
            },
        }
        let ip = match resolve(self.on_reverse_proxy, remote) {
            Ok(ip) => ip,
            Err(e) => {
                return Err(e);
            },
        };
        Ok(self.announce(req, ip, now))
    }

    /// Aggregate counts for each requested hash; unknown hashes read as
    /// all zeros.
    pub fn scrape(&self, hashes: &Vec<InfoHash>) -> (r: Vec<SwarmStats>)
        requires
            self.wf(),
        ensures
            r@.len() == hashes@.len(),
            forall|i: int|
                0 <= i < r@.len() ==> (#[trigger] r@[i]).seeders == num_seeders(
                    self.store.peer_seq_of(hashes@[i]),
                ) && r@[i].leechers == num_leechers(self.store.peer_seq_of(hashes@[i]))
                    && r@[i].completed == self.store.completed_of(hashes@[i]),
    {
        let mut out: Vec<SwarmStats> = Vec::new();
        let mut i: usize = 0;
        while i < hashes.len()
            invariant
                self.wf(),
                i <= hashes@.len(),
                out@.len() == i,
                forall|j: int|
                    0 <= j < i ==> (#[trigger] out@[j]).seeders == num_seeders(
                        self.store.peer_seq_of(hashes@[j]),
                    ) && out@[j].leechers == num_leechers(self.store.peer_seq_of(hashes@[j]))
                        && out@[j].completed == self.store.completed_of(hashes@[j]),
            decreases hashes@.len() - i,
        {
            let agg = self.store.aggregate(hashes[i]);
            out.push(agg);
            i = i + 1;
        }
        out
    }

    /// The scrape pipeline: the key half of the admission rule guards the
    /// request as a whole; in listed modes a hash off the whitelist reads
    /// as zeros rather than failing the request. One scrape event is counted.
    pub fn handle_scrape(
        &mut self,
        hashes: &Vec<InfoHash>,
        key: Option<&Vec<u8>>,
        ip: &IpAddress,
        now: u64,
    ) -> (r: Result<Vec<SwarmStats>, TrackerError>)
        requires
            old(self).wf(),
        ensures
            final(self).wf(),
            key_decision(old(self).mode, old(self).keys, key_view(key), now) is Err ==> (r is Err
                && r->Err_0 == key_decision(
                old(self).mode,
                old(self).keys,
                key_view(key),
                now,
            )->Err_0 && *final(self) == *old(self)),
            key_decision(old(self).mode, old(self).keys, key_view(key), now) is Ok ==> (r is Ok
                && r->Ok_0@.len() == hashes@.len() && config_unchanged(*old(self), *final(self))
                && final(self).store == old(self).store && final(self).keys == old(self).keys
                && final(self).whitelist == old(self).whitelist && final(self).stats == bumped(
                old(self).stats,
                if ip.is_v4() {
                    TrackerEvent::Scrape4
                } else {
                    TrackerEvent::Scrape6
                },
            ) && (forall|i: int|
                0 <= i < hashes@.len() ==> (#[trigger] r->Ok_0@[i]) == (
                if old(self).mode.requires_whitelist() && !old(self).whitelist.listed(hashes@[i]) {
                    SwarmStats { seeders: 0, leechers: 0, completed: 0 }
                } else {
                    SwarmStats {
                        seeders: num_seeders(old(self).store.peer_seq_of(hashes@[i])) as usize,
                        leechers: num_leechers(old(self).store.peer_seq_of(hashes@[i])) as usize,
                        completed: old(self).store.completed_of(hashes@[i]),
                    }
                }))),
    {
        if self.mode.needs_key() {
            match key {
                None => {
                    return Err(TrackerError::MissingKey);
                },
                Some(k) => {
                    match self.keys.verify_key(k, now) {
                        Ok(()) => {},
                        Err(e) => {
                            return Err(e);
                        },
                    }
                },
            }
        }
        let filter = self.mode.needs_whitelist();
        let mut out: Vec<SwarmStats> = Vec::new();
        let mut i: usize = 0;
        while i < hashes.len()
            invariant
                self.wf(),
                filter == self.mode.requires_whitelist(),
                i <= hashes@.len(),
                out@.len() == i,
                forall|j: int|
                    0 <= j < i ==> (#[trigger] out@[j]) == (
                    if self.mode.requires_whitelist() && !self.whitelist.listed(hashes@[j]) {
                        SwarmStats { seeders: 0, leechers: 0, completed: 0 }
                    } else {
                        SwarmStats {
                            seeders: num_seeders(self.store.peer_seq_of(hashes@[j])) as usize,
                            leechers: num_leechers(self.store.peer_seq_of(hashes@[j])) as usize,
                            completed: self.store.completed_of(hashes@[j]),
                        }
                    }),
            decreases hashes@.len() - i,
        {
            let h = hashes[i];
            if filter && !self.whitelist.contains(h) {
                out.push(SwarmStats { seeders: 0, leechers: 0, completed: 0 });
            } else {
                let agg = self.store.aggregate(h);
                out.push(agg);
            }
            i = i + 1;
        }
        let ev = if matches!(ip, IpAddress::V4(_)) {
            TrackerEvent::Scrape4
        } else {
            TrackerEvent::Scrape6
        };
        self.stats.record(ev);
        Ok(out)
    }

    /// Answer a UDP connect: the id for this client and moment.
    pub fn connect(&self, ip: &IpAddress, now: u64) -> (r: u64)
        ensures
            r == issued_id(self.secret, *ip, now),
    {
        issue_connection_id(self.secret, ip, now)
    }

    /// Check the connection id echoed in a UDP announce or scrape.
    pub fn check_connection_id(&self, ip: &IpAddress, now: u64, id: u64) -> (r: Result<
        (),
        TrackerError,
    >)
        ensures
            r is Ok <==> id_accepted(self.secret, *ip, now, id),
            r is Err ==> r->Err_0 == TrackerError::ConnectionIdInvalid,
    {
        if verify_connection_id(self.secret, ip, now, id) {
            Ok(())
        } else {
            Err(TrackerError::ConnectionIdInvalid)
        }
    }

    /// Issue a fresh key valid for `seconds_valid` seconds from `now`.
    pub fn generate_auth_key(&mut self, seconds_valid: u64, now: u64) -> (r: AuthKey)
        requires
            old(self).wf(),
            seconds_valid > 0,
            now + seconds_valid <= u64::MAX,
        ensures
            final(self).wf(),
            r.wf(),
            r.valid_until == now + seconds_valid,
            final(self).keys.key_known(r.key@),
            final(self).keys.expiry_of(r.key@) == r.valid_until,
            forall|k: Seq<u8>|
                k != r.key@ ==> final(self).keys.key_known(k) == old(self).keys.key_known(k) && (
                old(self).keys.key_known(k) ==> final(self).keys.expiry_of(k) == old(self).keys.expiry_of(k)),
            final(self).store == old(self).store,
            final(self).whitelist == old(self).whitelist,
            final(self).stats == old(self).stats,
            config_unchanged(*old(self), *final(self)),
    {
        self.keys.issue(now, seconds_valid)
    }

    /// Validate an issued key at `now`.
    pub fn verify_auth_key(&self, key: &Vec<u8>, now: u64) -> (r: Result<(), TrackerError>)
        requires
            self.wf(),
        ensures
            r is Ok <==> self.keys.key_valid_at(key@, now),
    {
        self.keys.verify_key(key, now)
    }

    /// Delete a key by its literal bytes; absence is not an error.
    pub fn remove_auth_key(&mut self, key: &Vec<u8>) -> (removed: bool)
        requires
            old(self).wf(),
        ensures
            final(self).wf(),
            !final(self).keys.key_known(key@),
            removed <==> old(self).keys.key_known(key@),
            forall|k: Seq<u8>|
                k != key@ ==> final(self).keys.key_known(k) == old(self).keys.key_known(k) && (
                old(self).keys.key_known(k) ==> final(self).keys.expiry_of(k) == old(self).keys.expiry_of(k)),
            final(self).store == old(self).store,
            final(self).whitelist == old(self).whitelist,
            final(self).stats == old(self).stats,
            config_unchanged(*old(self), *final(self)),
    {
        self.keys.revoke(key)
    }

    /// Permit an info hash; re-permitting one is a no-op that succeeds.
    pub fn add_torrent_to_whitelist(&mut self, h: InfoHash) -> (added: bool)
        requires
            old(self).wf(),
        ensures
            final(self).wf(),
            final(self).whitelist.listed(h),
            forall|h2: InfoHash|
                h2 != h ==> final(self).whitelist.listed(h2) == old(self).whitelist.listed(h2),
            added <==> !old(self).whitelist.listed(h),
            old(self).whitelist.listed(h) ==> final(self).whitelist.hashes@ == old(self).whitelist.hashes@,
            final(self).store == old(self).store,
            final(self).keys == old(self).keys,
            final(self).stats == old(self).stats,
            config_unchanged(*old(self), *final(self)),
    {
        self.whitelist.add(h)
    }

    /// Withdraw an info hash; absence is not an error.
    pub fn remove_torrent_from_whitelist(&mut self, h: InfoHash) -> (removed: bool)
        requires
            old(self).wf(),
        ensures
            final(self).wf(),
            !final(self).whitelist.listed(h),
            forall|h2: InfoHash|
                h2 != h ==> final(self).whitelist.listed(h2) == old(self).whitelist.listed(h2),
            removed <==> old(self).whitelist.listed(h),
            final(self).store == old(self).store,
            final(self).keys == old(self).keys,
            final(self).stats == old(self).stats,
            config_unchanged(*old(self), *final(self)),
    {
        self.whitelist.remove(h)
    }

    /// Whether an info hash is permitted.
    pub fn is_info_hash_whitelisted(&self, h: InfoHash) -> (r: bool)
        ensures
            r <==> self.whitelist.listed(h),
    {
        self.whitelist.contains(h)
    }

    /// Whether a presented admin token is one of the configured tokens.
    pub fn check_admin_token(&self, token: &Vec<u8>) -> (r: Result<(), TrackerError>)
        ensures
            r is Ok <==> (exists|i: int|
                0 <= i < self.admin_tokens@.len() && self.admin_tokens@[i]@ == token@),
            r is Err ==> r->Err_0 == TrackerError::InvalidToken,
    {
        let mut i: usize = 0;
        while i < self.admin_tokens.len()
            invariant
                i <= self.admin_tokens@.len(),
                forall|j: int| 0 <= j < i ==> self.admin_tokens@[j]@ != token@,
            decreases self.admin_tokens@.len() - i,
        {
            if bytes_eq(&self.admin_tokens[i], token) {
                return Ok(());
            }
            i = i + 1;
        }
        Err(TrackerError::InvalidToken)
    }

    /// The moment before which a peer last seen at `now - peer_timeout`
    /// is stale.
    pub fn reap(&mut self, now: u64, peer_timeout: u64)
        requires
            old(self).wf(),
        ensures
            final(self).wf(),
            forall|h: InfoHash| final(self).store.has_swarm(h) == old(self).store.has_swarm(h),
            forall|h: InfoHash|
                crate::store::reaped_rel(
                    old(self).store.peers_of(h),
                    #[trigger] final(self).store.peers_of(h),
                    if now >= peer_timeout {
                        (now - peer_timeout) as u64
                    } else {
                        0
                    },
                ),
            forall|h: InfoHash|
                final(self).store.completed_of(h) == old(self).store.completed_of(h),
            final(self).keys == old(self).keys,
            final(self).whitelist == old(self).whitelist,
            final(self).stats == old(self).stats,
            config_unchanged(*old(self), *final(self)),
    {
        let deadline: u64 = if now >= peer_timeout {
            now - peer_timeout
        } else {
            0
        };
        self.store.reap(deadline);
    }

    /// The optional second half of a sweep: drop every swarm that has now
    /// been empty for at least one whole cleanup cycle, and flag the
    /// currently empty ones for the next cycle.
    pub fn drop_vacant_swarms(&mut self)
        requires
            old(self).wf(),
        ensures
            final(self).wf(),
            forall|h: InfoHash|
                #[trigger] final(self).store.has_swarm(h) <==> (old(self).store.has_swarm(h) && (
                old(self).store.peer_seq_of(h).len() > 0 || !old(self).store.vacant_of(h))),
            forall|h: InfoHash|
                #[trigger] final(self).store.has_swarm(h) ==> final(self).store.peers_of(h) == old(self).store.peers_of(h) && final(self).store.completed_of(h) == old(self).store.completed_of(h),
    {
        self.store.drop_vacant_swarms()
    }
}


} // verus!
