use bittorrent_starter_rust::error::TorrentError;
use bittorrent_starter_rust::hashing::sha1;
use bittorrent_starter_rust::storage::{
    append_suffix, build_finalize_target, check_finalizable, check_piece_write,
    is_safe_relative_path, piece_length_for, piece_offset, self_describes_torrent, working_paths,
    FinalizeTarget, ResumeState,
};
use bittorrent_starter_rust::torrent::{TorrentInfo, TorrentLayout, TorrentLayoutFile};

fn fake_info() -> TorrentInfo {
    TorrentInfo {
        trackers: Vec::new(),
        info_hash: "fake-info-hash".into(),
        length: 8,
        name: "fixture.bin".into(),
        piece_length: 4,
        pieces: vec![sha1(b"abcd"), sha1(b"efgh")],
        layout: Some(TorrentLayout::SingleFile {
            suggested_name: "fixture.bin".into(),
            length: 8,
        }),
    }
}

fn fake_multi_file_info() -> TorrentInfo {
    TorrentInfo {
        trackers: Vec::new(),
        info_hash: "fake-multi".into(),
        length: 8,
        name: "bundle".into(),
        piece_length: 4,
        pieces: vec![sha1(b"abcd"), sha1(b"efgh")],
        layout: Some(TorrentLayout::MultiFile {
            root_name: "bundle".into(),
            files: vec![
                TorrentLayoutFile { relative_path: vec!["a.txt".into()], length: 3, offset: 0 },
                TorrentLayoutFile {
                    relative_path: vec!["nested".into(), "b.txt".into()],
                    length: 5,
                    offset: 3,
                },
            ],
        }),
    }
}

#[test]
fn resume_state_tracks_completed_pieces() {
    let info = fake_info();
    let mut state = ResumeState::new(&info);
    assert!(state.matches(&info));
    assert_eq!(state.total_piece_count(), 2);
    assert_eq!(state.completed_piece_count(), 0);
    assert_eq!(state.missing_piece_indices(), vec![0, 1]);
    assert!(!state.is_complete());

    state.set_completed(1, true);
    assert_eq!(state.missing_piece_indices(), vec![0]);
    assert_eq!(state.completed_piece_count(), 1);
    state.set_completed(0, true);
    assert!(state.is_complete());
    assert!(check_finalizable(&state).is_ok());
}

#[test]
fn stale_resume_records_are_replaced() {
    let info = fake_info();
    let mut saved = ResumeState::new(&info);
    saved.set_completed(0, true);
    let (kept, reset) = ResumeState::resume_or_new(Some(saved.clone()), &info);
    assert!(!reset);
    assert_eq!(kept.completed_pieces, vec![true, false]);

    let other = fake_multi_file_info();
    assert!(!saved.matches(&other));
    let (fresh, reset) = ResumeState::resume_or_new(Some(saved), &other);
    assert!(reset);
    assert_eq!(fresh.info_hash, "fake-multi");
    assert_eq!(fresh.completed_pieces, vec![false, false]);

    let (first, reset) = ResumeState::resume_or_new(None, &info);
    assert!(!reset);
    assert_eq!(first.completed_pieces, vec![false, false]);
}

#[test]
fn incomplete_downloads_cannot_be_finalized() {
    let state = ResumeState::new(&fake_info());
    assert!(matches!(check_finalizable(&state),
        Err(TorrentError::DownloadFailed(m)) if m == "Cannot finalize incomplete download"));
}

#[test]
fn pieces_have_offsets_and_lengths() {
    let info = TorrentInfo { length: 10, pieces: vec![[0u8; 20]; 3], ..fake_info() };
    assert_eq!(piece_offset(&info, 2).unwrap(), 8);
    assert_eq!(piece_length_for(&info, 0).unwrap(), 4);
    assert_eq!(piece_length_for(&info, 2).unwrap(), 2);
    assert!(matches!(piece_offset(&info, 3),
        Err(TorrentError::InvalidResponseFormat(m)) if m == "Invalid piece index"));
    assert!(matches!(piece_length_for(&info, 3),
        Err(TorrentError::InvalidResponseFormat(m)) if m == "Invalid piece index"));
}

#[test]
fn piece_writes_are_verified_first() {
    let info = fake_info();
    assert_eq!(check_piece_write(&info, 1, b"efgh").unwrap(), 4);
    assert!(matches!(check_piece_write(&info, 1, b"abcd"), Err(TorrentError::PieceVerificationFailed)));
    assert!(matches!(check_piece_write(&info, 2, b"abcd"), Err(TorrentError::PieceVerificationFailed)));
}

#[test]
fn storage_needs_a_complete_description() {
    assert!(self_describes_torrent(&fake_info()));
    assert!(!self_describes_torrent(&TorrentInfo { layout: None, ..fake_info() }));
    assert!(!self_describes_torrent(&TorrentInfo { pieces: Vec::new(), ..fake_info() }));
    assert!(!self_describes_torrent(&TorrentInfo { length: 0, ..fake_info() }));
}

#[test]
fn single_files_finalize_at_the_output_path() {
    let info = fake_info();
    let target = build_finalize_target("dir/download.bin", &info).unwrap();
    match &target {
        FinalizeTarget::SingleFile { output_path } => {
            assert_eq!(output_path, &vec!["dir/download.bin".to_string()])
        }
        other => panic!("unexpected target {other:?}"),
    }
    let (part, state) = working_paths(&target, "dir/download.bin", &info).unwrap();
    assert_eq!(part, vec!["dir/download.bin.part".to_string()]);
    assert_eq!(state, vec!["dir/download.bin.resume.json".to_string()]);
}

#[test]
fn multi_file_downloads_finalize_under_the_destination_root() {
    let info = fake_multi_file_info();
    let target = build_finalize_target("downloads", &info).unwrap();
    match &target {
        FinalizeTarget::MultiFile { root_dir, files } => {
            assert_eq!(root_dir, &vec!["downloads".to_string(), "bundle".to_string()]);
            assert_eq!(files.len(), 2);
            assert_eq!(files[1].relative_path, vec!["nested".to_string(), "b.txt".to_string()]);
            assert_eq!(files[1].offset, 3);
        }
        other => panic!("unexpected target {other:?}"),
    }
    let (part, state) = working_paths(&target, "downloads", &info).unwrap();
    assert_eq!(part, vec!["downloads".to_string(), "bundle.part".to_string()]);
    assert_eq!(state, vec!["downloads".to_string(), "bundle.resume.json".to_string()]);
    assert_eq!(
        append_suffix(&vec!["downloads".to_string(), "bundle".to_string()], ".staging"),
        vec!["downloads".to_string(), "bundle.staging".to_string()]
    );
}

#[test]
fn missing_layouts_cannot_be_stored() {
    let info = TorrentInfo { layout: None, ..fake_info() };
    assert!(matches!(build_finalize_target("out", &info),
        Err(TorrentError::DownloadFailed(m)) if m == "Torrent layout is missing"));
}

#[test]
fn refuses_unsafe_relative_paths() {
    assert!(!is_safe_relative_path(&vec!["..".to_string(), "evil.txt".to_string()]));
    assert!(!is_safe_relative_path(&Vec::new()));
    assert!(!is_safe_relative_path(&vec!["a/b".to_string()]));
    assert!(is_safe_relative_path(&vec!["nested".to_string(), "b.txt".to_string()]));
}

#[test]
fn resumed_pieces_are_checked_again() {
    let info = fake_info();
    let mut state = ResumeState::new(&info);
    state.set_completed(0, true);
    state.set_completed(1, true);
    assert!(!state.reconcile_piece(&info, 0, b"abcd"));
    assert!(state.reconcile_piece(&info, 1, b"wxyz"));
    assert_eq!(state.completed_pieces, vec![true, false]);
    assert_eq!(state.missing_piece_indices(), vec![1]);
}
