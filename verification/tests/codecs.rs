use torrust_tracker::announce::AnnounceRequest;
use torrust_tracker::errors::TrackerError;
use torrust_tracker::http;
use torrust_tracker::peer::{AnnounceEvent, IpAddress, Peer, PeerId};
use torrust_tracker::swarm::SwarmStats;
use torrust_tracker::udp;

fn sample_announce() -> udp::UdpAnnounce {
    udp::UdpAnnounce {
        connection_id: 0x0102030405060708,
        transaction_id: 0xcafe_babe,
        client_ip_field: 0,
        key: 42,
        request: AnnounceRequest {
            info_hash: torrust_tracker::peer::InfoHash {
                w0: 0x9e0217d0fa71c873,
                w1: 0x32cd8bf9dbeabcb2,
                w2: 0xc2cf3c4d,
            },
            peer_id: PeerId { w0: 0x2d71423433303030, w1: 0x3030303030303030, w2: 0x30303030 },
            port: 6881,
            uploaded: 1024,
            downloaded: 2048,
            left: 4096,
            event: AnnounceEvent::Started,
            numwant: Some(50),
        },
    }
}

#[test]
fn udp_connect_request_round_trips() {
    let bytes = udp::encode_connect_request(0x1234_5678);
    assert_eq!(bytes.len(), 16);
    assert_eq!(udp::parse_connect_request(&bytes), Ok(0x1234_5678));
}

#[test]
fn udp_connect_response_round_trips() {
    let bytes = udp::encode_connect_response(7, 0xdead_beef_dead_beef);
    assert_eq!(bytes.len(), 16);
    assert_eq!(udp::parse_connect_response(&bytes), Ok((7, 0xdead_beef_dead_beef)));
}

#[test]
fn udp_short_packets_are_reported_for_silent_drop() {
    let short = vec![0u8; 15];
    assert_eq!(udp::parse_connect_request(&short), Err(TrackerError::ShortPacket));
    assert_eq!(udp::parse_announce_request(&short), Err(TrackerError::ShortPacket));
}

#[test]
fn udp_wrong_magic_is_rejected() {
    let mut bytes = udp::encode_connect_request(1);
    bytes[0] ^= 0xff;
    assert_eq!(udp::parse_connect_request(&bytes), Err(TrackerError::ProtocolMagicInvalid));
}

#[test]
fn udp_announce_round_trips() {
    let x = sample_announce();
    let bytes = udp::encode_announce_request(&x);
    assert_eq!(bytes.len(), 98);
    assert_eq!(udp::parse_announce_request(&bytes), Ok(x));
}

#[test]
fn udp_announce_default_numwant_round_trips() {
    let mut x = sample_announce();
    x.request.numwant = None;
    x.request.event = AnnounceEvent::NoEvent;
    let bytes = udp::encode_announce_request(&x);
    assert_eq!(udp::parse_announce_request(&bytes), Ok(x));
}

#[test]
fn udp_announce_bad_event_code_is_rejected() {
    let x = sample_announce();
    let mut bytes = udp::encode_announce_request(&x);
    bytes[83] = 9;
    assert_eq!(udp::parse_announce_request(&bytes), Err(TrackerError::InvalidNumber));
}

#[test]
fn udp_scrape_request_parses_every_hash() {
    let x = sample_announce();
    let mut bytes = Vec::new();
    udp::push_u64(&mut bytes, 99);
    udp::push_u32(&mut bytes, udp::ACTION_SCRAPE);
    udp::push_u32(&mut bytes, 1234);
    udp::push_info_hash(&mut bytes, &x.request.info_hash);
    let parsed = udp::parse_scrape_request(&bytes).unwrap();
    assert_eq!(parsed.connection_id, 99);
    assert_eq!(parsed.transaction_id, 1234);
    assert_eq!(parsed.info_hashes, vec![x.request.info_hash]);
    let empty = udp::encode_connect_response(0, 0);
    let mut header_only = Vec::new();
    udp::push_u64(&mut header_only, 99);
    udp::push_u32(&mut header_only, udp::ACTION_SCRAPE);
    udp::push_u32(&mut header_only, 1234);
    assert_eq!(udp::parse_scrape_request(&header_only), Err(TrackerError::InvalidNumber));
    assert!(udp::parse_scrape_request(&empty).is_err());
}

#[test]
fn udp_scrape_response_layout() {
    let entries = vec![SwarmStats { seeders: 1, leechers: 2, completed: 3 }];
    let bytes = udp::encode_scrape_response(7, &entries);
    assert_eq!(bytes.len(), 20);
    assert_eq!(&bytes[0..4], &[0, 0, 0, 2]);
    assert_eq!(&bytes[4..8], &[0, 0, 0, 7]);
    assert_eq!(&bytes[8..12], &[0, 0, 0, 1]);
    assert_eq!(&bytes[12..16], &[0, 0, 0, 3]);
    assert_eq!(&bytes[16..20], &[0, 0, 0, 2]);
}

#[test]
fn udp_announce_response_carries_compact_v4_peers() {
    let peers = vec![
        Peer {
            peer_id: PeerId { w0: 0, w1: 0, w2: 1 },
            ip: IpAddress::V4(u32::from_be_bytes([10, 0, 0, 1])),
            port: 6881,
            updated: 0,
            uploaded: 0,
            downloaded: 0,
            left: 0,
            event: AnnounceEvent::NoEvent,
        },
        Peer {
            peer_id: PeerId { w0: 0, w1: 0, w2: 2 },
            ip: IpAddress::V6(1),
            port: 9,
            updated: 0,
            uploaded: 0,
            downloaded: 0,
            left: 0,
            event: AnnounceEvent::NoEvent,
        },
    ];
    let bytes = udp::encode_announce_response(5, 120, 1, 2, &peers);
    assert_eq!(bytes.len(), 20 + 6);
    assert_eq!(&bytes[20..26], &[10, 0, 0, 1, 0x1a, 0xe1]);
}

#[test]
fn udp_error_response_carries_the_message() {
    let msg = b"Connection ID missmatch".to_vec();
    let bytes = udp::encode_error_response(3, &msg);
    assert_eq!(&bytes[0..4], &[0, 0, 0, 3]);
    assert_eq!(&bytes[8..], msg.as_slice());
}

#[test]
fn percent_decoding_handles_escapes_and_rejects_malformed() {
    let decoded = http::percent_decode(&b"a%41%2fb".to_vec()).unwrap();
    assert_eq!(decoded, b"aA/b".to_vec());
    assert!(http::percent_decode(&b"abc%4".to_vec()).is_none());
    assert!(http::percent_decode(&b"%zz".to_vec()).is_none());
}

#[test]
fn info_hash_param_must_decode_to_twenty_bytes() {
    let raw: Vec<u8> = (0u8..20).collect();
    let h = http::decode_info_hash(&raw).unwrap();
    assert_eq!(h.w0, u64::from_be_bytes([0, 1, 2, 3, 4, 5, 6, 7]));
    assert_eq!(
        http::decode_info_hash(&b"tooshort".to_vec()),
        Err(TrackerError::MalformedInfoHash)
    );
    assert_eq!(
        http::decode_peer_id(&b"%GG".to_vec()),
        Err(TrackerError::MalformedPeerId)
    );
}

#[test]
fn decimal_and_port_parsing() {
    assert_eq!(http::parse_decimal(&b"0".to_vec()), Ok(0));
    assert_eq!(http::parse_decimal(&b"18446744073709551615".to_vec()), Ok(u64::MAX));
    assert_eq!(
        http::parse_decimal(&b"18446744073709551616".to_vec()),
        Err(TrackerError::InvalidNumber)
    );
    assert_eq!(http::parse_decimal(&b"12a".to_vec()), Err(TrackerError::InvalidNumber));
    assert_eq!(http::parse_decimal(&b"".to_vec()), Err(TrackerError::InvalidNumber));
    assert_eq!(http::parse_port(&b"6881".to_vec()), Ok(6881));
    assert_eq!(http::parse_port(&b"0".to_vec()), Err(TrackerError::InvalidPort));
    assert_eq!(http::parse_port(&b"65536".to_vec()), Err(TrackerError::InvalidPort));
}

#[test]
fn bencoded_failure_has_the_exact_shape() {
    let body = http::encode_failure(&b"test".to_vec());
    assert_eq!(body, b"d14:failure reason4:teste".to_vec());
}

#[test]
fn compact_peer_list_round_trips() {
    let pairs = vec![
        (u32::from_be_bytes([1, 2, 3, 4]), 6881u16),
        (u32::from_be_bytes([5, 6, 7, 8]), 80u16),
    ];
    let bytes = http::encode_compact(&pairs);
    assert_eq!(bytes.len(), 12);
    assert_eq!(http::decode_compact(&bytes).unwrap(), pairs);
    assert_eq!(
        http::decode_compact(&vec![0u8; 7]),
        Err(TrackerError::InvalidNumber)
    );
}

#[test]
fn non_compact_announce_body_is_bencoded() {
    let peers = vec![Peer {
        peer_id: PeerId {
            w0: u64::from_be_bytes(*b"-qB4300-"),
            w1: u64::from_be_bytes(*b"00000000"),
            w2: u32::from_be_bytes(*b"0000"),
        },
        ip: IpAddress::V4(u32::from_be_bytes([1, 2, 3, 4])),
        port: 6881,
        updated: 0,
        uploaded: 0,
        downloaded: 0,
        left: 0,
        event: AnnounceEvent::NoEvent,
    }];
    let body = http::encode_announce_body(1, 0, 120, 60, &peers);
    let expected = b"d8:completei1e10:incompletei0e8:intervali120e12:min intervali60e5:peersl\
d2:ip7:1.2.3.47:peer id20:-qB4300-0000000000004:porti6881eeee"
        .to_vec();
    assert_eq!(body, expected);
}

#[test]
fn empty_peer_list_body() {
    let body = http::encode_announce_body(0, 0, 120, 60, &Vec::new());
    assert_eq!(
        body,
        b"d8:completei0e10:incompletei0e8:intervali120e12:min intervali60e5:peerslee".to_vec()
    );
}

#[test]
fn dispatch_routes_by_header() {
    let connect = udp::encode_connect_request(7);
    assert_eq!(udp::dispatch_packet(&connect), udp::UdpDispatch::Connect(7));
    let short = vec![0u8; 15];
    assert!(matches!(udp::dispatch_packet(&short), udp::UdpDispatch::Ignore));
    let x = sample_announce();
    let announce = udp::encode_announce_request(&x);
    assert_eq!(udp::dispatch_packet(&announce), udp::UdpDispatch::Announce(x));
    let mut bad_event = udp::encode_announce_request(&x);
    bad_event[83] = 9;
    assert_eq!(
        udp::dispatch_packet(&bad_event),
        udp::UdpDispatch::ErrorReply(x.transaction_id, TrackerError::InvalidNumber)
    );
    let mut unknown_action = udp::encode_connect_request(9);
    unknown_action[11] = 7;
    assert_eq!(
        udp::dispatch_packet(&unknown_action),
        udp::UdpDispatch::ErrorReply(9, TrackerError::ProtocolMagicInvalid)
    );
    let mut scrape = Vec::new();
    udp::push_u64(&mut scrape, 99);
    udp::push_u32(&mut scrape, udp::ACTION_SCRAPE);
    udp::push_u32(&mut scrape, 1234);
    udp::push_info_hash(&mut scrape, &x.request.info_hash);
    match udp::dispatch_packet(&scrape) {
        udp::UdpDispatch::Scrape(parsed) => {
            assert_eq!(parsed.connection_id, 99);
            assert_eq!(parsed.info_hashes, vec![x.request.info_hash]);
        },
        other => panic!("wrong dispatch: {:?}", other),
    }
}

#[test]
fn udp_announce_response_round_trips() {
    let peers = vec![Peer {
        peer_id: PeerId { w0: 0, w1: 0, w2: 1 },
        ip: IpAddress::V4(u32::from_be_bytes([10, 0, 0, 1])),
        port: 6881,
        updated: 0,
        uploaded: 0,
        downloaded: 0,
        left: 0,
        event: AnnounceEvent::NoEvent,
    }];
    let bytes = udp::encode_announce_response(5, 120, 1, 2, &peers);
    let parsed = udp::parse_announce_response(&bytes).unwrap();
    assert_eq!((parsed.0, parsed.1, parsed.2, parsed.3), (5, 120, 1, 2));
    assert_eq!(parsed.4, vec![(u32::from_be_bytes([10, 0, 0, 1]), 6881)]);
}

#[test]
fn udp_v6_announce_response_round_trips() {
    let addr: u128 = 0x2001_0db8_0000_0000_0000_0000_0000_0001;
    let peers = vec![
        Peer {
            peer_id: PeerId { w0: 0, w1: 0, w2: 1 },
            ip: IpAddress::V6(addr),
            port: 6881,
            updated: 0,
            uploaded: 0,
            downloaded: 0,
            left: 0,
            event: AnnounceEvent::NoEvent,
        },
        Peer {
            peer_id: PeerId { w0: 0, w1: 0, w2: 2 },
            ip: IpAddress::V4(1),
            port: 80,
            updated: 0,
            uploaded: 0,
            downloaded: 0,
            left: 0,
            event: AnnounceEvent::NoEvent,
        },
    ];
    let bytes = udp::encode_announce_response_v6(5, 120, 1, 0, &peers);
    assert_eq!(bytes.len(), 20 + 18);
    let parsed = udp::parse_announce_response_v6(&bytes).unwrap();
    assert_eq!(parsed.4, vec![(addr, 6881)]);
}

#[test]
fn udp_scrape_response_round_trips() {
    let entries = vec![
        SwarmStats { seeders: 1, leechers: 2, completed: 3 },
        SwarmStats { seeders: 0, leechers: 0, completed: u64::MAX },
    ];
    let bytes = udp::encode_scrape_response(7, &entries);
    let parsed = udp::parse_scrape_response(&bytes).unwrap();
    assert_eq!(parsed.0, 7);
    assert_eq!(parsed.1, vec![(1, 3, 2), (0, u32::MAX, 0)]);
}

#[test]
fn compact_v6_list_round_trips() {
    let pairs = vec![(0x2001_0db8_0000_0000_0000_0000_0000_0001u128, 6881u16)];
    let bytes = http::encode_compact6(&pairs);
    assert_eq!(bytes.len(), 18);
    assert_eq!(http::decode_compact6(&bytes).unwrap(), pairs);
    assert_eq!(
        http::decode_compact6(&vec![0u8; 17]),
        Err(TrackerError::InvalidNumber)
    );
}

#[test]
fn non_compact_body_renders_v6_peers() {
    let peers = vec![Peer {
        peer_id: PeerId {
            w0: u64::from_be_bytes(*b"-qB4300-"),
            w1: u64::from_be_bytes(*b"00000000"),
            w2: u32::from_be_bytes(*b"0000"),
        },
        ip: IpAddress::V6(0x2001_0db8_0000_0000_0000_0000_0000_0001),
        port: 6881,
        updated: 0,
        uploaded: 0,
        downloaded: 0,
        left: 0,
        event: AnnounceEvent::NoEvent,
    }];
    let body = http::encode_announce_body(0, 1, 120, 60, &peers);
    let expected = b"d8:completei0e10:incompletei1e8:intervali120e12:min intervali60e5:peersl\
d2:ip39:2001:0db8:0000:0000:0000:0000:0000:00017:peer id20:-qB4300-0000000000004:porti6881eeee"
        .to_vec();
    assert_eq!(body, expected);
}
