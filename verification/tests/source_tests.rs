use bittorrent_starter_rust::error::TorrentError;
use bittorrent_starter_rust::hashing::{hex_decode, hex_encode};
use bittorrent_starter_rust::magnet::Magnet;
use bittorrent_starter_rust::peer_id::{charset_byte, generate_peer_id, peer_id_from_indices};
use bittorrent_starter_rust::source::{is_magnet_link, parse_info_hash};

#[test]
fn detects_magnet_links() {
    assert!(is_magnet_link("magnet:?xt=urn:btih:abcdef"));
    assert!(!is_magnet_link("sample.torrent"));
}

#[test]
fn parses_valid_info_hashes() {
    let hash = parse_info_hash("0123456789abcdef0123456789abcdef01234567")
        .expect("valid info hash should parse");

    assert_eq!(hash.len(), 20);
}

#[test]
fn rejects_invalid_info_hashes() {
    assert!(parse_info_hash("not-hex").is_err());
    assert!(parse_info_hash("deadbeef").is_err());
}

#[test]
fn info_hashes_read_back_their_hex_text() {
    let hash = parse_info_hash("0123456789ABCDEF0123456789abcdef01234567").unwrap();
    assert_eq!(hash[0], 0x01);
    assert_eq!(hash[7], 0xef);
    assert_eq!(hex_encode(&hash), "0123456789abcdef0123456789abcdef01234567");
    assert!(matches!(parse_info_hash("0g23456789abcdef0123456789abcdef01234567"), Err(TorrentError::InvalidInfoHash)));
    assert_eq!(hex_decode("0aff"), Some(vec![0x0a, 0xff]));
    assert_eq!(hex_decode("abc"), None);
}

#[test]
fn parses_common_magnet_fields() {
    let magnet = Magnet::parse(
        "magnet:?xt=urn:btih:0123456789abcdef0123456789abcdef01234567&dn=example&tr=http://tracker.test/announce",
    )
    .expect("magnet should parse");

    assert_eq!(magnet.info_hash, "0123456789abcdef0123456789abcdef01234567");
    assert_eq!(magnet.display_name.as_deref(), Some("example"));
    assert_eq!(
        magnet.tracker_url.as_deref(),
        Some("http://tracker.test/announce")
    );
}

#[test]
fn rejects_non_magnet_urls() {
    let err = Magnet::parse("https://example.com").expect_err("non-magnet should fail");
    assert!(matches!(err, TorrentError::InvalidMagnetLink));
}

#[test]
fn magnets_need_an_info_hash_and_decode_their_values() {
    assert!(matches!(Magnet::parse("magnet:?dn=x"), Err(TorrentError::InvalidMagnetLink)));
    assert!(matches!(Magnet::parse("not a url"), Err(TorrentError::InvalidMagnetLink)));
    let magnet = Magnet::parse("magnet:?xt=urn:btih:aa&xt=urn:btih:bb&dn=two%20words").unwrap();
    assert_eq!(magnet.info_hash, "bb");
    assert_eq!(magnet.display_name.as_deref(), Some("two words"));
    assert_eq!(magnet.tracker_url, None);
}

#[test]
fn generated_peer_ids_have_expected_prefix_and_charset() {
    let prefix: &[u8; 8] = b"-TR3000-";
    let charset: &[u8] = b"0123456789ABCDEFGHIJKLMNOPQRSTUVWXYZabcdefghijklmnopqrstuvwxyz";
    let peer_id = generate_peer_id();

    assert_eq!(&peer_id[..prefix.len()], prefix);
    assert_eq!(peer_id.len(), 20);

    for byte in &peer_id[prefix.len()..] {
        assert!(charset.contains(byte));
    }
}

#[test]
fn drawn_indices_pick_charset_characters() {
    assert_eq!(charset_byte(0), b'0');
    assert_eq!(charset_byte(10), b'A');
    assert_eq!(charset_byte(61), b'z');
    let id = peer_id_from_indices(&[0, 1, 9, 10, 35, 36, 61, 2, 3, 4, 5, 6]);
    assert_eq!(&id, b"-TR3000-019AZaz23456");
}
