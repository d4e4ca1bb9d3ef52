use bittorrent_starter_rust::bencode::{encode, BencodeValue};
use bittorrent_starter_rust::error::TorrentError;
use bittorrent_starter_rust::peer::{
    build_handshake, check_handshake_reply, extension_handshake_payload, frame_message,
    message_from_body, message_length, metadata_request_payload, parse_bitfield,
    parse_block_payload, parse_extension_handshake, parse_have_message, parse_metadata_message,
    request_payload, ExtensionHandshake, HandshakeAttempts, MetadataAssembly, MetadataMessage, MetadataStep,
    PeerMessage, PeerState,
};

fn dict(entries: Vec<(&[u8], BencodeValue)>) -> BencodeValue {
    BencodeValue::Dict(entries.into_iter().map(|(k, v)| (k.to_vec(), v)).collect())
}

#[test]
fn parses_extension_handshake_metadata_fields() {
    let handshake = dict(vec![
        (b"m", dict(vec![(b"ut_metadata", BencodeValue::Int(3))])),
        (b"metadata_size", BencodeValue::Int(32769)),
    ]);

    let parsed = parse_extension_handshake(&handshake).expect("handshake should parse");
    assert_eq!(
        parsed,
        ExtensionHandshake {
            metadata_extension_id: Some(3),
            metadata_size: Some(32769),
        }
    );
}

#[test]
fn parses_metadata_data_messages_with_payload_suffix() {
    let dict = dict(vec![
        (b"msg_type", BencodeValue::Int(1)),
        (b"piece", BencodeValue::Int(1)),
        (b"total_size", BencodeValue::Int(20000)),
    ]);
    let mut payload = encode(&dict).expect("dict should encode");
    payload.extend_from_slice(b"chunk");

    let parsed = parse_metadata_message(&payload).expect("metadata message should parse");
    assert_eq!(
        parsed,
        MetadataMessage {
            msg_type: 1,
            piece: 1,
            total_size: Some(20000),
            data: b"chunk".to_vec(),
        }
    );
}

#[test]
fn parses_metadata_reject_messages_without_suffix() {
    let dict = dict(vec![(b"msg_type", BencodeValue::Int(2)), (b"piece", BencodeValue::Int(0))]);
    let payload = encode(&dict).expect("dict should encode");

    let parsed = parse_metadata_message(&payload).expect("reject message should parse");
    assert_eq!(parsed.msg_type, 2);
    assert_eq!(parsed.piece, 0);
    assert_eq!(parsed.total_size, None);
    assert!(parsed.data.is_empty());
}

#[test]
fn parses_bitfields_into_piece_availability() {
    let availability = parse_bitfield(&[0b1010_0000], 4);
    assert_eq!(availability, vec![true, false, true, false]);
}

#[test]
fn parses_have_messages() {
    let piece_index = parse_have_message(&3u32.to_be_bytes()).expect("have should parse");
    assert_eq!(piece_index, 3);
}

#[test]
fn bitfields_beyond_the_payload_are_unavailable() {
    assert_eq!(parse_bitfield(&[0xff], 10), vec![true, true, true, true, true, true, true, true, false, false]);
    assert_eq!(parse_bitfield(&[], 2), vec![false, false]);
}

#[test]
fn have_messages_must_be_four_bytes() {
    assert!(matches!(parse_have_message(&[1, 2, 3]), Err(TorrentError::UnexpectedMessage(_))));
}

#[test]
fn handshakes_name_the_protocol_and_echo_the_hash() {
    let info_hash = [7u8; 20];
    let peer_id = *b"-TR3000-123456789012";
    let sent = build_handshake(&info_hash, &peer_id);
    assert_eq!(sent.len(), 68);
    assert_eq!(sent[0], 19);
    assert_eq!(&sent[1..20], b"BitTorrent protocol");
    assert_eq!(sent[25], 0x10);
    assert_eq!(&sent[28..48], &info_hash);
    assert_eq!(&sent[48..68], &peer_id);

    let mut reply = [0u8; 68];
    reply.copy_from_slice(&sent);
    reply[48..68].copy_from_slice(b"-XX0000-abcdefghijkl");
    let parsed = check_handshake_reply(&reply, &sent).expect("reply should be accepted");
    assert_eq!(&parsed.peer_id, b"-XX0000-abcdefghijkl");
    assert!(parsed.supports_extensions);

    reply[30] ^= 1;
    assert!(matches!(check_handshake_reply(&reply, &sent), Err(TorrentError::InvalidPeerResponse)));
}

#[test]
fn frames_messages_with_a_length_prefix() {
    let framed = frame_message(2, &[]);
    assert_eq!(framed, vec![0, 0, 0, 1, 2]);
    let framed = frame_message(6, &request_payload(1, 16384, 100));
    assert_eq!(framed, vec![0, 0, 0, 13, 6, 0, 0, 0, 1, 0, 0, 0x40, 0, 0, 0, 0, 100]);
    assert_eq!(message_length(&[0, 0, 1, 2]), 258);
    let message = message_from_body(3, vec![7, 8, 9]);
    assert_eq!(message.id, 7);
    assert_eq!(message.payload, vec![8, 9]);
    let keep_alive = message_from_body(0, Vec::new());
    assert_eq!(keep_alive.id, 0);
    assert!(keep_alive.payload.is_empty());
}

#[test]
fn block_payloads_must_match_the_request() {
    let payload = vec![0, 0, 0, 2, 0, 0, 0, 0, 0xaa, 0xbb];
    assert_eq!(parse_block_payload(&payload, 2, 0).unwrap(), vec![0xaa, 0xbb]);
    assert!(matches!(parse_block_payload(&payload, 3, 0), Err(TorrentError::UnexpectedBlockData)));
    assert!(matches!(parse_block_payload(&payload[..5], 2, 0), Err(TorrentError::UnexpectedBlockData)));
}

#[test]
fn peer_state_tracks_have_and_bitfield_messages() {
    let mut state = PeerState::new();
    assert_eq!(state.has_piece(0), None);
    let bitfield = PeerMessage { payload: vec![0b0100_0000], id: 5 };
    assert!(state.handle_auxiliary_message(&bitfield, Some(3)).unwrap());
    assert_eq!(state.has_piece(1), Some(true));
    assert_eq!(state.has_piece(2), Some(false));
    let have = PeerMessage { payload: vec![0, 0, 0, 2], id: 4 };
    assert!(state.handle_auxiliary_message(&have, Some(3)).unwrap());
    assert_eq!(state.has_piece(2), Some(true));
    let piece = PeerMessage { payload: Vec::new(), id: 7 };
    assert!(!state.handle_auxiliary_message(&piece, Some(3)).unwrap());
    assert!(matches!(state.metadata_extension_id(), Err(TorrentError::MetadataExtensionNotSupported)));
    assert!(matches!(state.metadata_size(), Err(TorrentError::MetadataSizeNotFound)));
}

#[test]
fn builds_metadata_requests_and_our_extension_handshake() {
    let request = metadata_request_payload(3, 1);
    assert_eq!(request, b"\x03d8:msg_typei0e5:piecei1ee".to_vec());
    assert_eq!(extension_handshake_payload(), b"\x00d1:md11:ut_metadatai1eee".to_vec());
}

#[test]
fn assembles_metadata_piece_by_piece() {
    let mut assembly = MetadataAssembly::new(16390);
    assert!(!assembly.is_complete());
    let first = MetadataMessage { msg_type: 1, piece: 0, total_size: Some(16390), data: vec![1u8; 16384] };
    assert_eq!(assembly.on_message(&first).unwrap(), MetadataStep::Stored);
    let stray = MetadataMessage { msg_type: 1, piece: 0, total_size: Some(16390), data: vec![1u8; 16384] };
    assert_eq!(assembly.on_message(&stray).unwrap(), MetadataStep::Ignored);
    let short = MetadataMessage { msg_type: 1, piece: 1, total_size: Some(16390), data: vec![2u8; 5] };
    assert!(matches!(assembly.on_message(&short), Err(TorrentError::InvalidMetadataResponse)));
    let last = MetadataMessage { msg_type: 1, piece: 1, total_size: Some(16390), data: vec![2u8; 6] };
    assert_eq!(assembly.on_message(&last).unwrap(), MetadataStep::Stored);
    assert!(assembly.is_complete());
    let metadata = assembly.finish().unwrap();
    assert_eq!(metadata.len(), 16390);
    assert_eq!(metadata[16384], 2);
}

#[test]
fn rejected_metadata_fails() {
    let mut assembly = MetadataAssembly::new(10);
    let reject = MetadataMessage { msg_type: 2, piece: 0, total_size: None, data: Vec::new() };
    assert!(matches!(assembly.on_message(&reject), Err(TorrentError::MetadataRejected)));
}

#[test]
fn framed_messages_read_back() {
    let framed = frame_message(5, &[0b1000_0000, 0x01]);
    let mut prefix = [0u8; 4];
    prefix.copy_from_slice(&framed[..4]);
    let length = message_length(&prefix);
    assert_eq!(length, 3);
    let message = message_from_body(length, framed[4..].to_vec());
    assert_eq!(message.id, 5);
    assert_eq!(message.payload, vec![0b1000_0000, 0x01]);
}

#[test]
fn handshakes_are_tried_at_most_five_times() {
    let mut attempts = HandshakeAttempts::new();
    let mut tries = 0;
    while attempts.may_try() {
        tries += 1;
        attempts.on_failure();
    }
    assert_eq!(tries, 5);
    assert!(matches!(attempts.exhausted(),
        TorrentError::ConnectionFailed(m) if m == "Max handshake attempts reached"));
}

#[test]
fn metadata_is_requested_piece_by_piece() {
    let mut assembly = MetadataAssembly::new(16390);
    assert_eq!(assembly.next_request(3).unwrap(), b"\x03d8:msg_typei0e5:piecei0ee".to_vec());
    let first = MetadataMessage { msg_type: 1, piece: 0, total_size: Some(16390), data: vec![1u8; 16384] };
    assembly.on_message(&first).unwrap();
    assert_eq!(assembly.next_request(3).unwrap(), b"\x03d8:msg_typei0e5:piecei1ee".to_vec());
    let last = MetadataMessage { msg_type: 1, piece: 1, total_size: Some(16390), data: vec![2u8; 6] };
    assembly.on_message(&last).unwrap();
    assert!(assembly.next_request(3).is_none());
}
