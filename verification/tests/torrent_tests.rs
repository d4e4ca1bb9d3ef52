use bittorrent_starter_rust::bencode::encode_dict;
use bittorrent_starter_rust::bencode::BencodeValue;
use bittorrent_starter_rust::error::TorrentError;
use bittorrent_starter_rust::hashing::{hex_encode, sha1};
use bittorrent_starter_rust::magnet::Magnet;
use bittorrent_starter_rust::torrent::{
    get_piece_hash, info_fits_limits, validate_path_component, validate_relative_path,
    verify_piece, File, Hashes, Info, Keys, Torrent, TorrentInfo, TorrentLayout,
};

fn single_file_info() -> Info {
    Info {
        name: "file.bin".into(),
        piece_length: 4,
        pieces: Hashes(vec![[0u8; 20]]),
        keys: Keys::SingleFile { length: 4 },
    }
}

#[test]
fn calculates_lengths_for_multi_file_metadata() {
    let info = Info {
        name: "bundle".into(),
        piece_length: 16384,
        pieces: Hashes(vec![[0u8; 20]]),
        keys: Keys::MultiFile {
            files: vec![
                File {
                    length: 10,
                    path: vec!["a".into()],
                },
                File {
                    length: 15,
                    path: vec!["b".into()],
                },
            ],
        },
    };

    assert_eq!(TorrentInfo::calculate_length(&info), 25);
    let layout = TorrentInfo::build_layout(&info).expect("multi-file layout should build");
    match layout {
        TorrentLayout::MultiFile { root_name, files } => {
            assert_eq!(root_name, "bundle");
            assert_eq!(files.len(), 2);
            assert_eq!(files[0].relative_path, vec!["a".to_string()]);
            assert_eq!(files[0].offset, 0);
            assert_eq!(files[1].relative_path, vec!["b".to_string()]);
            assert_eq!(files[1].offset, 10);
        }
        _ => panic!("expected multi-file layout"),
    }
}

#[test]
fn rejects_unsafe_multi_file_paths() {
    assert!(validate_relative_path(&["..".into(), "evil".into()]).is_err());
    assert!(validate_relative_path(&["nested/file".into()]).is_err());
}

#[test]
fn preserves_multiple_trackers_from_torrent_metadata() {
    let torrent = Torrent {
        announce: "http://tracker.one/announce".into(),
        announce_list: vec![
            vec!["http://tracker.two/announce".into()],
            vec!["udp://tracker.three:6969/announce".into()],
            vec!["http://tracker.one/announce".into()],
        ],
        info: single_file_info(),
    };

    assert_eq!(
        torrent.trackers(),
        vec![
            "http://tracker.one/announce",
            "http://tracker.two/announce",
            "udp://tracker.three:6969/announce",
        ]
    );
}

#[test]
fn empty_trackers_are_skipped() {
    let torrent = Torrent {
        announce: String::new(),
        announce_list: vec![vec![String::new(), "udp://t:1".into(), "udp://t:1".into()]],
        info: single_file_info(),
    };
    assert_eq!(torrent.trackers(), vec!["udp://t:1"]);
}

#[test]
fn path_components_must_be_plain_names() {
    assert_eq!(validate_path_component("a.txt").unwrap(), "a.txt");
    for bad in ["", ".", ".."] {
        assert!(matches!(validate_path_component(bad),
            Err(TorrentError::InvalidResponseFormat(m)) if m == "Unsafe torrent path component"));
    }
    assert!(matches!(validate_path_component("a\\b"),
        Err(TorrentError::InvalidResponseFormat(m)) if m == "Torrent path component contains a separator"));
    assert!(matches!(validate_relative_path(&[]),
        Err(TorrentError::InvalidResponseFormat(m)) if m == "Multi-file path is empty"));
    assert_eq!(
        validate_relative_path(&["nested".into(), "b.txt".into()]).unwrap(),
        vec!["nested".to_string(), "b.txt".to_string()]
    );
}

#[test]
fn unsafe_root_names_refuse_the_layout() {
    let info = Info {
        name: "..".into(),
        piece_length: 4,
        pieces: Hashes(vec![[0u8; 20]]),
        keys: Keys::MultiFile { files: vec![File { length: 4, path: vec!["a".into()] }] },
    };
    assert!(matches!(TorrentInfo::build_layout(&info), Err(TorrentError::InvalidResponseFormat(_))));
    let single = TorrentInfo::build_layout(&single_file_info()).unwrap();
    assert_eq!(single, TorrentLayout::SingleFile { suggested_name: "file.bin".into(), length: 4 });
}

#[test]
fn info_hash_is_the_sha1_of_the_bencoded_info() {
    let info = single_file_info();
    let expected = encode_dict(&[
        (b"name".to_vec(), BencodeValue::Bytes(b"file.bin".to_vec())),
        (b"piece length".to_vec(), BencodeValue::Int(4)),
        (b"pieces".to_vec(), BencodeValue::Bytes(vec![0u8; 20])),
        (b"length".to_vec(), BencodeValue::Int(4)),
    ])
    .unwrap();
    assert_eq!(
        expected,
        b"d6:lengthi4e4:name8:file.bin12:piece lengthi4e6:pieces20:\0\0\0\0\0\0\0\0\0\0\0\0\0\0\0\0\0\0\0\0e".to_vec()
    );
    assert_eq!(TorrentInfo::calculate_info_hash(&info), sha1(&expected));
    let torrent = Torrent { announce: "http://t".into(), announce_list: Vec::new(), info: info.clone() };
    assert_eq!(torrent.info_hash(), sha1(&expected));
}

#[test]
fn torrents_and_metadata_give_the_same_description() {
    let info = single_file_info();
    assert!(info_fits_limits(&info));
    let torrent = Torrent { announce: "http://t".into(), announce_list: Vec::new(), info: info.clone() };
    let from_file = TorrentInfo::from_torrent(&torrent).unwrap();
    assert_eq!(from_file.trackers, vec!["http://t".to_string()]);
    assert_eq!(from_file.length, 4);
    assert_eq!(from_file.piece_length, 4);
    assert_eq!(from_file.name, "file.bin");
    let hash_hex = hex_encode(&TorrentInfo::calculate_info_hash(&info));
    assert_eq!(from_file.info_hash, hash_hex);

    let from_metadata = TorrentInfo::validate_info(info.clone(), &hash_hex).unwrap();
    assert!(from_metadata.trackers.is_empty());
    assert_eq!(from_metadata.info_hash, hash_hex);
    assert_eq!(from_metadata.layout, from_file.layout);
    assert!(matches!(TorrentInfo::validate_info(info, "00"), Err(TorrentError::InvalidInfoHash)));
}

#[test]
fn oversized_metadata_is_flagged() {
    let info = Info {
        name: "big".into(),
        piece_length: 4,
        pieces: Hashes(Vec::new()),
        keys: Keys::MultiFile {
            files: vec![
                File { length: usize::MAX / 2, path: vec!["a".into()] },
                File { length: usize::MAX / 2, path: vec!["b".into()] },
            ],
        },
    };
    assert!(!info_fits_limits(&info));
}

#[test]
fn magnets_describe_downloads_without_metadata() {
    let magnet = Magnet {
        info_hash: "abc".into(),
        tracker_url: Some("http://t/announce".into()),
        display_name: None,
    };
    let info = TorrentInfo::from_magnet(&magnet).unwrap();
    assert_eq!(info.trackers, vec!["http://t/announce".to_string()]);
    assert_eq!(info.info_hash, "abc");
    assert_eq!(info.name, "");
    assert_eq!(info.length, 0);
    assert!(info.pieces.is_empty());
    assert!(info.layout.is_none());
}

#[test]
fn pieces_are_checked_against_their_hashes() {
    let info = TorrentInfo {
        trackers: Vec::new(),
        info_hash: String::new(),
        length: 3,
        name: "x".into(),
        piece_length: 3,
        pieces: vec![sha1(b"abc")],
        layout: None,
    };
    assert!(verify_piece(&info, 0, b"abc"));
    assert!(!verify_piece(&info, 0, b"not the correct piece"));
    assert!(!verify_piece(&info, 1, b"abc"));
    assert_eq!(get_piece_hash(&info, 0).unwrap(), sha1(b"abc"));
    assert!(matches!(get_piece_hash(&info, 1),
        Err(TorrentError::InvalidResponseFormat(m)) if m == "Invalid piece index"));
    assert_eq!(
        hex_encode(&sha1(b"abc")),
        "a9993e364706816aba3e25717850c26c9cd0d89d"
    );
}

#[test]
fn piece_hash_strings_split_into_hashes_and_back() {
    let mut bytes = vec![1u8; 20];
    bytes.extend_from_slice(&[2u8; 20]);
    let hashes = Hashes::from_bytes(&bytes).expect("40 bytes hold two hashes");
    assert_eq!(hashes.0, vec![[1u8; 20], [2u8; 20]]);
    assert_eq!(hashes.to_bytes(), bytes);
    assert!(Hashes::from_bytes(&bytes[..39]).is_none());
    assert!(Hashes::from_bytes(&[]).unwrap().0.is_empty());
}

#[test]
fn rejects_invalid_piece_data() {
    let info = TorrentInfo {
        trackers: Vec::new(),
        info_hash: String::new(),
        length: 5,
        name: "x".into(),
        piece_length: 5,
        pieces: vec![sha1(b"right")],
        layout: None,
    };

    assert!(!verify_piece(&info, 0, b"not the correct piece"));
}
