use bittorrent_starter_rust::error::TorrentError;
use bittorrent_starter_rust::tracker::{
    announce_request, build_tracker_url, encode_udp_announce_request, encode_udp_connect_request,
    normalize_tracker_text, parse_udp_announce_response, parse_udp_connect_response,
    percent_encode, require_trackers, tracker_response_from_raw, tracker_transport,
    udp_connection_id_is_fresh, PeerAddr, Peers, RawTrackerResponse, TrackerFallback,
    TrackerRequest, TrackerResponse, TrackerTransport, UdpRetry,
};
use bittorrent_starter_rust::torrent::TorrentInfo;

fn request() -> TrackerRequest {
    TrackerRequest {
        peer_id: *b"-TR3000-123456789012",
        port: 6881,
        uploaded: 1,
        downloaded: 2,
        left: 3,
        compact: 1,
    }
}

#[test]
fn percent_encodes_raw_tracker_bytes() {
    assert_eq!(percent_encode(&[0, b'A', 255]), "%00A%FF");
}

#[test]
fn builds_tracker_url_with_binary_fields() {
    let request = request();
    let info_hash = [0u8; 20];

    let url = build_tracker_url("http://tracker.test/announce", &info_hash, &request)
        .expect("tracker url should build");

    assert!(url.starts_with("http://tracker.test/announce?"));
    assert!(url.contains("peer_id=-TR3000-123456789012"));
    assert!(url.contains("port=6881"));
    assert!(url.contains("info_hash=%00%00%00%00"));
}

#[test]
fn tracker_urls_with_a_query_get_an_ampersand() {
    let url = build_tracker_url("http://t/a?key=1", &[0x41u8; 20], &request()).unwrap();
    assert_eq!(
        url,
        "http://t/a?key=1&peer_id=-TR3000-123456789012&port=6881&uploaded=1&downloaded=2&left=3&compact=1&info_hash=AAAAAAAAAAAAAAAAAAAA"
    );
}

#[test]
fn tracker_failures_and_missing_peers_are_errors() {
    let failed = RawTrackerResponse {
        interval: None,
        failure_reason: Some("bad tracker".into()),
        peers: None,
    };
    let err = tracker_response_from_raw(failed).expect_err("failure reason should be surfaced");
    assert!(err.to_string().contains("bad tracker"));

    let empty = RawTrackerResponse { interval: Some(5), failure_reason: None, peers: None };
    assert!(matches!(tracker_response_from_raw(empty),
        Err(TorrentError::InvalidResponseFormat(m)) if m == "Tracker response missing peers"));

    let peers = Peers::from_compact_bytes(&[0x7f, 0, 0, 1, 0x1a, 0xe1]).unwrap();
    let ok = RawTrackerResponse { interval: Some(1800), failure_reason: None, peers: Some(peers) };
    let response = tracker_response_from_raw(ok).unwrap();
    assert_eq!(response.interval, Some(1800));
    assert_eq!(response.peers.0[0].to_string(), "127.0.0.1:6881");
}

#[test]
fn compact_peer_lists_round_trip() {
    let bytes = [10, 0, 0, 2, 0x1a, 0xe2, 192, 168, 1, 1, 0, 80];
    let peers = Peers::from_compact_bytes(&bytes).unwrap();
    assert_eq!(peers.0, vec![
        PeerAddr { ip: [10, 0, 0, 2], port: 6882 },
        PeerAddr { ip: [192, 168, 1, 1], port: 80 },
    ]);
    assert_eq!(peers.to_compact_bytes(), bytes.to_vec());
    assert!(matches!(Peers::from_compact_bytes(&bytes[..5]),
        Err(TorrentError::InvalidResponseFormat(m)) if m == "Peers byte string length 5 is not a multiple of 6"));
}

#[test]
fn encodes_udp_connect_request() {
    let packet = encode_udp_connect_request(0x11223344);
    assert_eq!(&packet[0..8], &0x41727101980u64.to_be_bytes());
    assert_eq!(&packet[8..12], &0u32.to_be_bytes());
    assert_eq!(&packet[12..16], &0x11223344u32.to_be_bytes());
}

#[test]
fn parses_udp_connect_response_and_rejects_mismatched_transaction_ids() {
    let mut response = Vec::new();
    response.extend_from_slice(&0u32.to_be_bytes());
    response.extend_from_slice(&0x11223344u32.to_be_bytes());
    response.extend_from_slice(&0x0102030405060708u64.to_be_bytes());

    let connection_id = parse_udp_connect_response(&response, 0x11223344)
        .expect("connect response should parse");
    assert_eq!(connection_id, 0x0102030405060708);
    assert!(parse_udp_connect_response(&response, 0x55667788).is_err());
}

#[test]
fn parses_udp_error_packets() {
    let mut response = Vec::new();
    response.extend_from_slice(&3u32.to_be_bytes());
    response.extend_from_slice(&0x11223344u32.to_be_bytes());
    response.extend_from_slice(b"bad udp tracker");

    let err = parse_udp_connect_response(&response, 0x11223344)
        .expect_err("udp error packet should be surfaced");
    assert!(err.to_string().contains("bad udp tracker"));
}

#[test]
fn short_udp_responses_are_refused() {
    assert!(matches!(parse_udp_connect_response(&[0, 0, 0], 1),
        Err(TorrentError::InvalidResponseFormat(m)) if m == "UDP connect response too short"));
}

#[test]
fn udp_connection_ids_expire_after_ttl() {
    assert!(udp_connection_id_is_fresh(59_000));
    assert!(!udp_connection_id_is_fresh(60_000));
}

#[test]
fn encodes_udp_announce_request() {
    let request = request();
    let packet = encode_udp_announce_request(
        0x0102030405060708,
        0x11223344,
        &[0u8; 20],
        &request,
        0x55667788,
    );

    assert_eq!(&packet[0..8], &0x0102030405060708u64.to_be_bytes());
    assert_eq!(&packet[8..12], &1u32.to_be_bytes());
    assert_eq!(&packet[12..16], &0x11223344u32.to_be_bytes());
    assert_eq!(packet.len(), 98);
    assert_eq!(&packet[92..96], &u32::MAX.to_be_bytes());
    assert_eq!(&packet[96..98], &6881u16.to_be_bytes());
}

#[test]
fn parses_udp_announce_response_and_rejects_bad_peer_tails() {
    let mut response = Vec::new();
    response.extend_from_slice(&1u32.to_be_bytes());
    response.extend_from_slice(&0x11223344u32.to_be_bytes());
    response.extend_from_slice(&1800u32.to_be_bytes());
    response.extend_from_slice(&2u32.to_be_bytes());
    response.extend_from_slice(&4u32.to_be_bytes());
    response.extend_from_slice(&[127, 0, 0, 1, 0x1A, 0xE1]);

    let parsed = parse_udp_announce_response(&response, 0x11223344)
        .expect("announce response should parse");
    assert_eq!(parsed.interval, Some(1800));
    assert_eq!(parsed.peers.0[0].to_string(), "127.0.0.1:6881");

    let mut bad = response.clone();
    bad.push(0);
    assert!(parse_udp_announce_response(&bad, 0x11223344).is_err());
}

#[test]
fn picks_transports_and_normalizes_tracker_urls() {
    assert_eq!(tracker_transport("https").unwrap(), TrackerTransport::Http);
    assert_eq!(tracker_transport("udp").unwrap(), TrackerTransport::Udp);
    assert!(matches!(tracker_transport("wss"),
        Err(TorrentError::Tracker(m)) if m == "Unsupported tracker scheme: wss"));
    assert_eq!(normalize_tracker_text("tracker.test/announce").unwrap(), "http://tracker.test/announce");
    assert_eq!(normalize_tracker_text("udp://t:1").unwrap(), "udp://t:1");
    assert!(matches!(normalize_tracker_text(""),
        Err(TorrentError::Tracker(m)) if m == "Tracker URL is empty"));
}

fn info_with(trackers: Vec<String>, length: i64) -> TorrentInfo {
    TorrentInfo {
        trackers,
        info_hash: String::new(),
        length,
        name: String::new(),
        piece_length: 1,
        pieces: Vec::new(),
        layout: None,
    }
}

#[test]
fn announces_what_is_left() {
    let r = announce_request(&info_with(Vec::new(), 92063), [1u8; 20]);
    assert_eq!(r.left, 92063);
    assert_eq!(r.port, 6881);
    assert_eq!(r.compact, 1);
    assert_eq!(announce_request(&info_with(Vec::new(), -5), [1u8; 20]).left, 0);
    assert!(matches!(require_trackers(&info_with(Vec::new(), 1)),
        Err(TorrentError::Tracker(m)) if m == "No trackers available"));
    assert!(require_trackers(&info_with(vec!["udp://t:1".into()], 1)).is_ok());
}

#[test]
fn fallback_keeps_the_first_answer_with_peers() {
    let mut fallback = TrackerFallback::new();
    assert!(fallback.record(Err(TorrentError::ConnectionTimeout)).is_none());
    let empty = TrackerResponse { interval: Some(1), peers: Peers(Vec::new()) };
    assert!(fallback.record(Ok(empty)).is_none());
    let full = TrackerResponse { interval: Some(2), peers: Peers(vec![PeerAddr { ip: [1, 1, 1, 1], port: 1 }]) };
    let chosen = fallback.record(Ok(full)).expect("peers end the search");
    assert_eq!(chosen.interval, Some(2));
    assert_eq!(fallback.finish().unwrap().interval, Some(1));
    assert!(matches!(TrackerFallback::new().finish(), Err(TorrentError::NoPeersAvailable)));
    let mut errors_only = TrackerFallback::new();
    errors_only.record(Err(TorrentError::ConnectionClosed));
    assert!(matches!(errors_only.finish(), Err(TorrentError::ConnectionClosed)));
}

#[test]
fn udp_retries_double_the_timeout_then_give_up() {
    let mut retry = UdpRetry::new();
    assert!(!retry.needs_reconnect());
    assert!(retry.on_timeout().is_ok());
    assert_eq!(retry.timeout_ms(), 10_000);
    assert!(retry.on_timeout().is_ok());
    assert_eq!(retry.timeout_ms(), 20_000);
    assert_eq!(retry.elapsed_since_connect_ms(), 15_000);
    assert_eq!(retry.attempt(), 2);
    assert!(matches!(retry.on_timeout(), Err(TorrentError::ConnectionTimeout)));
    assert_eq!(retry.attempt(), 2);
    retry.on_reconnect();
    assert_eq!(retry.timeout_ms(), 5_000);
    assert_eq!(retry.elapsed_since_connect_ms(), 0);
}

#[test]
fn parses_compact_peer_lists() {
    let peers = Peers::from_compact_bytes(b"\x7f\x00\x00\x01\x1a\xe1").expect("compact peer list should parse");

    assert_eq!(peers.0.len(), 1);
    assert_eq!(peers.0[0].to_string(), "127.0.0.1:6881");
}

#[test]
fn udp_error_text_is_read_leniently() {
    let mut response = Vec::new();
    response.extend_from_slice(&3u32.to_be_bytes());
    response.extend_from_slice(&7u32.to_be_bytes());
    response.extend_from_slice(&[b'b', b'a', b'd', 0xff]);

    assert!(matches!(parse_udp_announce_response(&response, 7),
        Err(TorrentError::Tracker(m)) if m == "bad\u{fffd}"));
}
