use torrust_tracker::announce::AnnounceRequest;
use torrust_tracker::auth::Mode;
use torrust_tracker::errors::TrackerError;
use torrust_tracker::peer::{AnnounceEvent, InfoHash, IpAddress, PeerId};
use torrust_tracker::resolver::RemoteClientIp;
use torrust_tracker::tracker::Tracker;

fn hash(n: u32) -> InfoHash {
    InfoHash { w0: 0x9e0217d0fa71c873, w1: 0x32cd8bf9dbeabcb2, w2: n }
}

fn pid(n: u32) -> PeerId {
    PeerId { w0: 0x2d71423030303030, w1: 0x1111111111111111, w2: n }
}

fn ip(a: u8, b: u8, c: u8, d: u8) -> IpAddress {
    IpAddress::V4(u32::from_be_bytes([a, b, c, d]))
}

fn tracker(mode: Mode) -> Tracker {
    Tracker::new(mode, 120, 60, false, 0x5eed_5eed_5eed_5eed, Vec::new())
}

fn remote(address: IpAddress) -> RemoteClientIp {
    RemoteClientIp { right_most_x_forwarded_for: None, connection_ip: Some(address) }
}

fn request(h: InfoHash, p: PeerId, left: u64, event: AnnounceEvent) -> AnnounceRequest {
    AnnounceRequest {
        info_hash: h,
        peer_id: p,
        port: 6881,
        uploaded: 0,
        downloaded: 0,
        left,
        event,
        numwant: None,
    }
}

#[test]
fn basic_announce_from_empty_store() {
    let mut t = tracker(Mode::Public);
    let h = hash(1);
    let r = t
        .handle_announce(
            &request(h, pid(1), 100, AnnounceEvent::Started),
            None,
            &remote(ip(1, 1, 1, 1)),
            0,
        )
        .unwrap();
    assert_eq!(r.seeders, 0);
    assert_eq!(r.leechers, 1);
    assert!(r.peers.is_empty());
    let agg = t.scrape(&vec![h]);
    assert_eq!(agg[0].seeders, 0);
    assert_eq!(agg[0].leechers, 1);
    assert_eq!(agg[0].completed, 0);
}

#[test]
fn complete_transition_counts_once() {
    let mut t = tracker(Mode::Public);
    let h = hash(1);
    t.handle_announce(&request(h, pid(1), 100, AnnounceEvent::Started), None, &remote(ip(1, 1, 1, 1)), 0)
        .unwrap();
    t.handle_announce(&request(h, pid(1), 0, AnnounceEvent::Completed), None, &remote(ip(1, 1, 1, 1)), 5)
        .unwrap();
    let agg = t.scrape(&vec![h]);
    assert_eq!(agg[0].seeders, 1);
    assert_eq!(agg[0].leechers, 0);
    assert_eq!(agg[0].completed, 1);
    // a second completed announce from the same present seeder does not count again
    t.handle_announce(&request(h, pid(1), 0, AnnounceEvent::Completed), None, &remote(ip(1, 1, 1, 1)), 9)
        .unwrap();
    let agg = t.scrape(&vec![h]);
    assert_eq!(agg[0].completed, 1);
}

#[test]
fn announce_excludes_the_announcer() {
    let mut t = tracker(Mode::Public);
    let h = hash(1);
    t.handle_announce(&request(h, pid(1), 100, AnnounceEvent::Started), None, &remote(ip(1, 1, 1, 1)), 0)
        .unwrap();
    t.handle_announce(&request(h, pid(2), 100, AnnounceEvent::Started), None, &remote(ip(2, 2, 2, 2)), 1)
        .unwrap();
    let r1 = t
        .handle_announce(&request(h, pid(1), 100, AnnounceEvent::NoEvent), None, &remote(ip(1, 1, 1, 1)), 2)
        .unwrap();
    assert!(r1.peers.iter().all(|p| p.peer_id != pid(1)));
    assert!(r1.peers.iter().any(|p| p.peer_id == pid(2)));
    let r2 = t
        .handle_announce(&request(h, pid(2), 100, AnnounceEvent::NoEvent), None, &remote(ip(2, 2, 2, 2)), 3)
        .unwrap();
    assert!(r2.peers.iter().all(|p| p.peer_id != pid(2)));
    assert!(r2.peers.iter().any(|p| p.peer_id == pid(1)));
}

#[test]
fn stopped_removes_the_peer() {
    let mut t = tracker(Mode::Public);
    let h = hash(1);
    t.handle_announce(&request(h, pid(1), 100, AnnounceEvent::Started), None, &remote(ip(1, 1, 1, 1)), 0)
        .unwrap();
    t.handle_announce(&request(h, pid(2), 0, AnnounceEvent::Completed), None, &remote(ip(2, 2, 2, 2)), 1)
        .unwrap();
    let before = t.scrape(&vec![h]);
    assert_eq!(before[0].leechers, 1);
    assert_eq!(before[0].seeders, 1);
    let r = t
        .handle_announce(&request(h, pid(1), 100, AnnounceEvent::Stopped), None, &remote(ip(1, 1, 1, 1)), 2)
        .unwrap();
    assert!(r.peers.iter().all(|p| p.peer_id != pid(1)));
    let after = t.scrape(&vec![h]);
    assert_eq!(after[0].leechers, 0);
    assert_eq!(after[0].seeders, 1);
    assert_eq!(after[0].completed, before[0].completed);
}

#[test]
fn connection_id_spoofing_is_rejected() {
    let t = tracker(Mode::Public);
    let honest = ip(1, 1, 1, 1);
    let spoofer = ip(2, 2, 2, 2);
    let c = t.connect(&honest, 0);
    let denied = t.check_connection_id(&spoofer, 10, c);
    assert_eq!(denied, Err(TrackerError::ConnectionIdInvalid));
    assert_eq!(TrackerError::ConnectionIdInvalid.message(), "Connection ID missmatch");
    assert!(t.check_connection_id(&honest, 60, c).is_ok());
    assert!(t.check_connection_id(&honest, 260, c).is_err());
}

#[test]
fn private_mode_key_expiry() {
    let mut t = tracker(Mode::Private);
    let h = hash(1);
    let key = t.generate_auth_key(1, 0);
    let ok = t.handle_announce(
        &request(h, pid(1), 100, AnnounceEvent::Started),
        Some(&key.key),
        &remote(ip(1, 1, 1, 1)),
        0,
    );
    assert!(ok.is_ok());
    let expired = t.handle_announce(
        &request(h, pid(1), 100, AnnounceEvent::NoEvent),
        Some(&key.key),
        &remote(ip(1, 1, 1, 1)),
        2,
    );
    assert_eq!(expired, Err(TrackerError::ExpiredKey));
}

#[test]
fn private_mode_missing_and_unknown_keys() {
    let mut t = tracker(Mode::Private);
    let h = hash(1);
    let missing = t.handle_announce(
        &request(h, pid(1), 100, AnnounceEvent::Started),
        None,
        &remote(ip(1, 1, 1, 1)),
        0,
    );
    assert_eq!(missing, Err(TrackerError::MissingKey));
    let bogus: Vec<u8> = b"AAAAAAAAAAAAAAAAAAAAAAAAAAAAAAAA".to_vec();
    let unknown = t.handle_announce(
        &request(h, pid(1), 100, AnnounceEvent::Started),
        Some(&bogus),
        &remote(ip(1, 1, 1, 1)),
        0,
    );
    assert_eq!(unknown, Err(TrackerError::UnknownKey));
}

#[test]
fn listed_mode_needs_the_whitelist() {
    let mut t = tracker(Mode::Listed);
    let h = hash(1);
    let rejected = t.handle_announce(
        &request(h, pid(1), 100, AnnounceEvent::Started),
        None,
        &remote(ip(1, 1, 1, 1)),
        0,
    );
    assert_eq!(rejected, Err(TrackerError::InfoHashNotWhitelisted));
    assert!(t.add_torrent_to_whitelist(h));
    let admitted = t.handle_announce(
        &request(h, pid(1), 100, AnnounceEvent::Started),
        None,
        &remote(ip(1, 1, 1, 1)),
        0,
    );
    assert!(admitted.is_ok());
}

#[test]
fn generated_keys_are_long_random_and_verifiable() {
    let mut t = tracker(Mode::Private);
    let seconds_valid = 60;
    let key = t.generate_auth_key(seconds_valid, 0);
    assert_eq!(key.key.len(), 32);
    assert!(key.key.iter().all(|b| b.is_ascii_alphanumeric()));
    assert_eq!(key.valid_until, 60);
    assert!(t.verify_auth_key(&key.key, 10).is_ok());
    let other = t.generate_auth_key(seconds_valid, 0);
    assert_ne!(key.key, other.key);
    assert!(t.remove_auth_key(&key.key));
    assert!(t.verify_auth_key(&key.key, 10).is_err());
}

#[test]
fn whitelisting_twice_is_a_no_op_that_succeeds() {
    let mut t = tracker(Mode::Listed);
    let h = hash(7);
    assert!(t.add_torrent_to_whitelist(h));
    assert!(t.is_info_hash_whitelisted(h));
    assert!(!t.add_torrent_to_whitelist(h));
    assert!(t.is_info_hash_whitelisted(h));
    assert!(t.remove_torrent_from_whitelist(h));
    assert!(!t.is_info_hash_whitelisted(h));
}

#[test]
fn reannouncing_does_not_double_count() {
    let mut t = tracker(Mode::Public);
    let h = hash(1);
    for now in 0..3u64 {
        t.handle_announce(
            &request(h, pid(1), 100, AnnounceEvent::Started),
            None,
            &remote(ip(1, 1, 1, 1)),
            now,
        )
        .unwrap();
    }
    let agg = t.scrape(&vec![h]);
    assert_eq!(agg[0].leechers, 1);
    assert_eq!(agg[0].seeders, 0);
    assert_eq!(agg[0].completed, 0);
}

#[test]
fn scrape_of_unknown_hash_is_zero() {
    let t = tracker(Mode::Public);
    let agg = t.scrape(&vec![hash(1), hash(2)]);
    assert_eq!(agg.len(), 2);
    assert_eq!((agg[0].seeders, agg[0].leechers, agg[0].completed), (0, 0, 0));
}

#[test]
fn numwant_is_clamped() {
    let mut t = tracker(Mode::Public);
    let h = hash(1);
    for n in 0..80u32 {
        t.handle_announce(
            &request(h, pid(n), 100, AnnounceEvent::Started),
            None,
            &remote(ip(1, 1, (n >> 8) as u8, n as u8)),
            0,
        )
        .unwrap();
    }
    let mut req = request(h, pid(100), 100, AnnounceEvent::Started);
    req.numwant = Some(500);
    let r = t.handle_announce(&req, None, &remote(ip(9, 9, 9, 9)), 1).unwrap();
    assert_eq!(r.peers.len(), 74);
    let mut req_one = request(h, pid(101), 100, AnnounceEvent::Started);
    req_one.numwant = Some(1);
    let r1 = t.handle_announce(&req_one, None, &remote(ip(9, 9, 9, 8)), 2).unwrap();
    assert_eq!(r1.peers.len(), 1);
}

#[test]
fn reverse_proxy_uses_forwarded_address_only() {
    let mut t = Tracker::new(Mode::Public, 120, 60, true, 1, Vec::new());
    let h = hash(1);
    let no_header = RemoteClientIp {
        right_most_x_forwarded_for: None,
        connection_ip: Some(ip(10, 0, 0, 1)),
    };
    let rejected =
        t.handle_announce(&request(h, pid(1), 100, AnnounceEvent::Started), None, &no_header, 0);
    assert_eq!(rejected, Err(TrackerError::MissingOrInvalidRemoteIp));
    let with_header = RemoteClientIp {
        right_most_x_forwarded_for: Some(ip(8, 8, 8, 8)),
        connection_ip: Some(ip(10, 0, 0, 1)),
    };
    t.handle_announce(&request(h, pid(1), 100, AnnounceEvent::Started), None, &with_header, 0)
        .unwrap();
    let r = t
        .handle_announce(&request(h, pid(2), 100, AnnounceEvent::Started), None, &with_header, 1)
        .unwrap();
    assert_eq!(r.peers[0].ip, ip(8, 8, 8, 8));
}

#[test]
fn reaper_drops_stale_peers_but_not_completions() {
    let mut t = tracker(Mode::Public);
    let h = hash(1);
    t.handle_announce(&request(h, pid(1), 0, AnnounceEvent::Completed), None, &remote(ip(1, 1, 1, 1)), 0)
        .unwrap();
    t.handle_announce(&request(h, pid(2), 100, AnnounceEvent::Started), None, &remote(ip(2, 2, 2, 2)), 950)
        .unwrap();
    t.reap(1000, 100);
    let agg = t.scrape(&vec![h]);
    assert_eq!(agg[0].seeders, 0);
    assert_eq!(agg[0].leechers, 1);
    assert_eq!(agg[0].completed, 1);
}

#[test]
fn statistics_count_announces_by_family_and_progress() {
    let mut t = tracker(Mode::Public);
    let h = hash(1);
    t.handle_announce(&request(h, pid(1), 100, AnnounceEvent::Started), None, &remote(ip(1, 1, 1, 1)), 0)
        .unwrap();
    t.handle_announce(&request(h, pid(2), 0, AnnounceEvent::NoEvent), None, &remote(ip(1, 1, 1, 2)), 1)
        .unwrap();
    let v6 = RemoteClientIp {
        right_most_x_forwarded_for: None,
        connection_ip: Some(IpAddress::V6(0x2001_0db8_0000_0000_0000_0000_0000_0001)),
    };
    t.handle_announce(&request(h, pid(3), 100, AnnounceEvent::Started), None, &v6, 2).unwrap();
    assert_eq!(t.stats.announces4_leecher, 1);
    assert_eq!(t.stats.announces4_seeder, 1);
    assert_eq!(t.stats.announces6_leecher, 1);
    assert_eq!(t.stats.announces6_seeder, 0);
}

#[test]
fn admin_tokens_gate_the_admin_surface() {
    let tokens: Vec<Vec<u8>> = vec![b"MyAccessToken".to_vec()];
    let t = Tracker::new(Mode::Public, 120, 60, false, 1, tokens);
    assert!(t.check_admin_token(&b"MyAccessToken".to_vec()).is_ok());
    assert_eq!(
        t.check_admin_token(&b"wrong".to_vec()),
        Err(TrackerError::InvalidToken)
    );
}

#[test]
fn empty_swarms_survive_one_cycle_then_drop() {
    let mut t = tracker(Mode::Public);
    let h = hash(1);
    t.handle_announce(&request(h, pid(1), 0, AnnounceEvent::Completed), None, &remote(ip(1, 1, 1, 1)), 0)
        .unwrap();
    t.handle_announce(&request(h, pid(1), 0, AnnounceEvent::Stopped), None, &remote(ip(1, 1, 1, 1)), 1)
        .unwrap();
    // the swarm is empty but keeps its completion count through one sweep
    t.drop_vacant_swarms();
    let agg = t.scrape(&vec![h]);
    assert_eq!(agg[0].completed, 1);
    assert_eq!(t.store.swarm_count(), 1);
    // a second sweep finds it still empty and drops it
    t.drop_vacant_swarms();
    assert_eq!(t.store.swarm_count(), 0);
    let agg = t.scrape(&vec![h]);
    assert_eq!(agg[0].completed, 0);
}

#[test]
fn scrape_requires_a_key_in_private_mode() {
    let mut t = tracker(Mode::Private);
    let h = hash(1);
    let denied = t.handle_scrape(&vec![h], None, &ip(1, 1, 1, 1), 0);
    assert_eq!(denied, Err(TrackerError::MissingKey));
    let key = t.generate_auth_key(60, 0);
    let allowed = t.handle_scrape(&vec![h], Some(&key.key), &ip(1, 1, 1, 1), 0);
    assert!(allowed.is_ok());
    assert_eq!(t.stats.scrapes4, 1);
}

#[test]
fn scrape_zeroes_unlisted_hashes_in_listed_mode() {
    let mut t = tracker(Mode::Listed);
    let listed = hash(1);
    let unlisted = hash(2);
    t.add_torrent_to_whitelist(listed);
    t.add_torrent_to_whitelist(unlisted);
    t.handle_announce(&request(listed, pid(1), 0, AnnounceEvent::Completed), None, &remote(ip(1, 1, 1, 1)), 0)
        .unwrap();
    t.handle_announce(&request(unlisted, pid(1), 0, AnnounceEvent::Completed), None, &remote(ip(1, 1, 1, 1)), 0)
        .unwrap();
    t.remove_torrent_from_whitelist(unlisted);
    let entries = t.handle_scrape(&vec![listed, unlisted], None, &ip(1, 1, 1, 1), 1).unwrap();
    assert_eq!((entries[0].seeders, entries[0].completed), (1, 1));
    assert_eq!((entries[1].seeders, entries[1].leechers, entries[1].completed), (0, 0, 0));
}
