use bittorrent_starter_rust::download::{
    apply_piece_availability_probe, build_ranked_peer_list, check_all_pieces_stored,
    classify_failure, dequeue_piece_task, exhausted_error, handle_piece_attempt,
    initial_piece_tasks, initialize_peer_health, interrupted_error, peer_key, peer_rank_key,
    piece_known_rank, record_known_pieces, record_peer_failure, record_peer_success,
    require_peers, requeue_after_failure, sort_missing_pieces_by_availability, task_failed_error,
    worker_count, AttemptOutcome, PeerFailureKind, PeerHealth, PieceAttempts, PieceDownload, PieceTask,
    BLOCK_SIZE, PIECE_REQUEUE_LIMIT,
};
use bittorrent_starter_rust::error::TorrentError;
use bittorrent_starter_rust::hashing::sha1;
use bittorrent_starter_rust::storage::ResumeState;
use bittorrent_starter_rust::torrent::{TorrentInfo, TorrentLayout};
use bittorrent_starter_rust::tracker::PeerAddr;
use std::collections::VecDeque;

fn addr(port: u16) -> PeerAddr {
    PeerAddr { ip: [127, 0, 0, 1], port }
}

#[test]
fn prefers_rarest_nonzero_pieces_first_and_unknown_last() {
    let mut missing = vec![0, 1, 2, 3];
    let availability = vec![4, 1, 0, 2];

    sort_missing_pieces_by_availability(&mut missing, &availability);

    assert_eq!(missing, vec![1, 3, 0, 2]);
}

#[test]
fn shorter_availability_vectors_sort_unknown_pieces_last() {
    let mut missing = vec![0, 1, 2, 3];
    let availability = vec![3, 1];

    sort_missing_pieces_by_availability(&mut missing, &availability);

    assert_eq!(missing, vec![1, 0, 2, 3]);
}

#[test]
fn availability_probe_counts_only_advertised_pieces() {
    let mut availability = vec![0; 4];
    apply_piece_availability_probe(&mut availability, &[true, false, true, false]);
    apply_piece_availability_probe(&mut availability, &[false, true, true, false]);

    assert_eq!(availability, vec![1, 1, 2, 0]);
}

#[test]
fn cooldown_and_missing_piece_demote_peer() {
    let peers = vec![addr(6881), addr(6882)];
    let now = 1_000_000u64;
    let mut health = initialize_peer_health(&peers);
    record_peer_failure(&mut health, &peers[0], 3, PeerFailureKind::MissingPiece, now);

    let ranked = build_ranked_peer_list(&peers, &health, 3, peers.len(), now);
    assert_eq!(ranked[0], peers[1]);
}

#[test]
fn no_peers_error_is_classified_as_generic() {
    assert_eq!(
        classify_failure(&TorrentError::NoPeersAvailable),
        PeerFailureKind::Generic
    );
}

#[test]
fn timeout_failures_increase_cooldown() {
    let peers = vec![addr(6881)];
    let mut health = initialize_peer_health(&peers);
    let started_at = 5_000u64;
    record_peer_failure(&mut health, &peers[0], 0, PeerFailureKind::Timeout, started_at);

    let peer_health = health.get(&peer_key(&peers[0])).expect("peer health should exist");
    assert_eq!(peer_health.timeout_streak, 1);
    assert!(peer_health.cooldown_until.is_some());
    assert!(peer_health.cooldown_until.expect("cooldown should exist") > started_at);
}

#[test]
fn structured_missing_piece_errors_are_classified_correctly() {
    assert_eq!(
        classify_failure(&TorrentError::PeerDoesNotAdvertisePiece(7)),
        PeerFailureKind::MissingPiece
    );
}

#[test]
fn dequeue_respects_shutdown_before_starting_new_work() {
    let mut queue = VecDeque::from([PieceTask { piece_index: 3, retries_left: 1 }]);

    let task = dequeue_piece_task(&mut queue, true);
    assert!(task.is_none());
    assert_eq!(queue.len(), 1);
}

#[test]
fn dequeue_takes_the_front_task() {
    let mut queue = initial_piece_tasks(&vec![4, 2]);
    assert_eq!(
        dequeue_piece_task(&mut queue, false),
        Some(PieceTask { piece_index: 4, retries_left: PIECE_REQUEUE_LIMIT })
    );
    assert_eq!(queue.len(), 1);
    assert_eq!(dequeue_piece_task(&mut queue, false).map(|t| t.piece_index), Some(2));
    assert_eq!(dequeue_piece_task(&mut queue, false), None);
}

#[test]
fn failed_pieces_are_requeued_once() {
    let task = PieceTask { piece_index: 9, retries_left: PIECE_REQUEUE_LIMIT };
    let again = requeue_after_failure(task, false).expect("first failure requeues");
    assert_eq!(again, PieceTask { piece_index: 9, retries_left: 0 });
    assert_eq!(requeue_after_failure(again, false), None);
    assert_eq!(requeue_after_failure(task, true), None);
}

#[test]
fn worker_count_is_capped() {
    assert_eq!(worker_count(3), 3);
    assert_eq!(worker_count(10), 10);
    assert_eq!(worker_count(25), 10);
}

#[test]
fn classifies_each_failure_kind() {
    assert_eq!(classify_failure(&TorrentError::ConnectionTimeout), PeerFailureKind::Timeout);
    assert_eq!(
        classify_failure(&TorrentError::PieceVerificationFailed),
        PeerFailureKind::Verification
    );
    assert_eq!(classify_failure(&TorrentError::UnexpectedBlockData), PeerFailureKind::Generic);
}

#[test]
fn failures_set_cooldowns_by_kind() {
    let p = addr(7000);
    let mut health = initialize_peer_health(&vec![p]);
    record_peer_failure(&mut health, &p, 1, PeerFailureKind::Verification, 100);
    let h = health.get(&peer_key(&p)).unwrap();
    assert_eq!(h.cooldown_until, Some(6100));
    assert_eq!(h.failures, 1);
    assert_eq!(h.last_error_kind, Some(PeerFailureKind::Verification));

    record_peer_failure(&mut health, &p, 1, PeerFailureKind::Timeout, 100);
    record_peer_failure(&mut health, &p, 1, PeerFailureKind::Generic, 200);
    let h = health.get(&peer_key(&p)).unwrap();
    assert_eq!(h.cooldown_until, Some(2200));
    assert_eq!(h.timeout_streak, 0);
    assert_eq!(h.failures, 3);

    record_peer_failure(&mut health, &p, 5, PeerFailureKind::MissingPiece, 0);
    let h = health.get(&peer_key(&p)).unwrap();
    assert!(h.unavailable_pieces.contains(&5));
    assert_eq!(piece_known_rank(h, 5), Some(2));
    assert_eq!(piece_known_rank(h, 6), None);
}

#[test]
fn success_clears_cooldown_and_streak() {
    let p = addr(7001);
    let mut health = initialize_peer_health(&vec![p]);
    record_peer_failure(&mut health, &p, 0, PeerFailureKind::Timeout, 0);
    record_peer_success(&mut health, &p);
    let h = health.get(&peer_key(&p)).unwrap();
    assert_eq!(h.successes, 1);
    assert_eq!(h.failures, 1);
    assert_eq!(h.timeout_streak, 0);
    assert_eq!(h.cooldown_until, None);
    assert_eq!(h.last_error_kind, None);
}

#[test]
fn unknown_peers_get_an_entry_when_first_recorded() {
    let p = addr(7002);
    let mut health = initialize_peer_health(&Vec::new());
    assert!(health.is_empty());
    record_peer_success(&mut health, &p);
    assert_eq!(health.len(), 1);
    assert_eq!(health.get(&peer_key(&p)).unwrap().successes, 1);
}

#[test]
fn advertised_pieces_rank_first() {
    let p = addr(7003);
    let mut health = initialize_peer_health(&vec![p]);
    record_known_pieces(&mut health, &p, vec![false, true]);
    let h = health.get(&peer_key(&p)).unwrap();
    assert_eq!(piece_known_rank(h, 1), Some(0));
    assert_eq!(piece_known_rank(h, 0), Some(2));
    assert_eq!(piece_known_rank(h, 9), Some(2));
    assert_eq!(peer_rank_key(&health, &p, 1, 0), (false, 0, 0, 0, 0));
    assert_eq!(peer_rank_key(&health, &addr(1), 1, 0), (false, 1, 0, 0, 0));
}

#[test]
fn ranking_prefers_reliable_peers_and_respects_the_limit() {
    let peers = vec![addr(1), addr(2), addr(3)];
    let mut health = initialize_peer_health(&peers);
    record_peer_failure(&mut health, &peers[0], 0, PeerFailureKind::Generic, 0);
    record_peer_success(&mut health, &peers[2]);
    // Long after every cooldown: peer 3 has a success, peer 2 nothing, peer 1 a failure.
    let ranked = build_ranked_peer_list(&peers, &health, 0, 2, 1_000_000);
    assert_eq!(ranked, vec![peers[2], peers[1]]);
}

#[test]
fn peer_keys_tell_peers_apart() {
    assert_eq!(peer_key(&PeerAddr { ip: [1, 2, 3, 4], port: 5 }), 0x0102_0304_0005);
    assert_ne!(peer_key(&addr(6881)), peer_key(&addr(6882)));
    assert_eq!(PeerHealth::default().successes, 0);
}

fn two_piece_info() -> TorrentInfo {
    TorrentInfo {
        trackers: Vec::new(),
        info_hash: "fake".to_string(),
        length: 20000,
        name: "two.bin".to_string(),
        piece_length: 16384,
        pieces: vec![sha1(&vec![1u8; 16384]), sha1(&vec![2u8; 3616])],
        layout: Some(TorrentLayout::SingleFile { suggested_name: "two.bin".to_string(), length: 20000 }),
    }
}

#[test]
fn attempts_verify_the_piece_and_record_the_peer() {
    let info = two_piece_info();
    let p = addr(8000);
    let mut health = initialize_peer_health(&vec![p]);

    match handle_piece_attempt(&mut health, &p, &info, 1, Ok(vec![2u8; 3616]), 0) {
        AttemptOutcome::Succeeded(data) => assert_eq!(data.len(), 3616),
        other => panic!("expected success, got {other:?}"),
    }
    assert_eq!(health.get(&peer_key(&p)).unwrap().successes, 1);

    assert!(matches!(
        handle_piece_attempt(&mut health, &p, &info, 1, Ok(vec![9u8; 3616]), 0),
        AttemptOutcome::Failed(TorrentError::PieceVerificationFailed)
    ));
    assert!(matches!(
        handle_piece_attempt(&mut health, &p, &info, 1, Err(TorrentError::ConnectionTimeout), 0),
        AttemptOutcome::Failed(TorrentError::ConnectionTimeout)
    ));
    let h = health.get(&peer_key(&p)).unwrap();
    assert_eq!(h.failures, 2);
    assert_eq!(h.timeout_streak, 1);
}

#[test]
fn pieces_are_fetched_block_by_block() {
    let info = two_piece_info();
    let mut first = PieceDownload::new(&info, 0);
    assert_eq!(first.piece_length, 16384);
    assert_eq!(first.num_blocks(), 1);
    assert_eq!(first.next_request(), Some((0, BLOCK_SIZE)));

    let mut last = PieceDownload::new(&info, 1);
    assert_eq!(last.piece_length, 3616);
    assert_eq!(last.next_request(), Some((0, 3616)));
    assert!(matches!(last.on_block(&[0u8; 10]), Err(TorrentError::UnexpectedBlockData)));
    assert!(last.on_block(&vec![2u8; 3616]).is_ok());
    assert_eq!(last.next_request(), None);
    assert_eq!(last.finish().unwrap(), vec![2u8; 3616]);

    assert!(first.on_block_failure(TorrentError::ConnectionTimeout).is_ok());
    assert!(first.on_block_failure(TorrentError::ConnectionTimeout).is_ok());
    assert!(matches!(
        first.on_block_failure(TorrentError::ConnectionTimeout),
        Err(TorrentError::ConnectionTimeout)
    ));
    assert!(matches!(first.finish(), Err(TorrentError::UnexpectedBlockData)));
}

#[test]
fn large_pieces_split_into_full_blocks_and_a_tail() {
    let info = TorrentInfo {
        trackers: Vec::new(),
        info_hash: "big".to_string(),
        length: 40000,
        name: "big.bin".to_string(),
        piece_length: 40000,
        pieces: vec![[0u8; 20]],
        layout: None,
    };
    let mut piece = PieceDownload::new(&info, 0);
    assert_eq!(piece.num_blocks(), 3);
    assert_eq!(piece.next_request(), Some((0, 16384)));
    piece.on_block(&vec![0u8; 16384]).unwrap();
    assert_eq!(piece.next_request(), Some((16384, 16384)));
    piece.on_block(&vec![0u8; 16384]).unwrap();
    assert_eq!(piece.next_request(), Some((32768, 7232)));
    piece.on_block(&vec![0u8; 7232]).unwrap();
    assert_eq!(piece.finish().unwrap().len(), 40000);
}

#[test]
fn peers_that_lack_the_piece_are_refused() {
    let info = two_piece_info();
    let piece = PieceDownload::new(&info, 1);
    assert!(matches!(
        piece.check_advertised(Some(false)),
        Err(TorrentError::PeerDoesNotAdvertisePiece(1))
    ));
    assert!(piece.check_advertised(Some(true)).is_ok());
    assert!(piece.check_advertised(None).is_ok());
}

#[test]
fn download_errors_carry_their_messages() {
    assert!(matches!(require_peers(&Vec::new()), Err(TorrentError::NoPeersAvailable)));
    assert!(require_peers(&vec![addr(1)]).is_ok());
    assert!(matches!(exhausted_error(12),
        TorrentError::DownloadFailed(m) if m == "Failed to download piece 12"));
    assert!(matches!(interrupted_error(None),
        TorrentError::DownloadFailed(m) if m == "Interrupted; partial state preserved for resume"));
    assert!(matches!(interrupted_error(Some(TorrentError::ConnectionClosed)),
        TorrentError::ConnectionClosed));
    assert!(matches!(task_failed_error("panicked"),
        TorrentError::DownloadFailed(m) if m == "A download task failed: panicked"));

    let info = two_piece_info();
    let mut state = ResumeState::new(&info);
    assert!(matches!(check_all_pieces_stored(&state),
        Err(TorrentError::DownloadFailed(m)) if m == "Some pieces failed to download"));
    state.set_completed(0, true);
    state.set_completed(1, true);
    assert!(check_all_pieces_stored(&state).is_ok());
}

#[test]
fn piece_attempts_try_ranked_peers_and_keep_the_last_failure() {
    let info = two_piece_info();
    let peers: Vec<PeerAddr> = (1..=7).map(addr).collect();
    let mut health = initialize_peer_health(&peers);
    assert!(matches!(
        PieceAttempts::new(&Vec::new(), &health, 1, 0),
        Err(TorrentError::NoPeersAvailable)
    ));

    let mut attempts = PieceAttempts::new(&peers, &health, 1, 0).unwrap();
    assert_eq!(attempts.candidates.len(), 5);
    assert!(matches!(&attempts.last_error,
        TorrentError::DownloadFailed(m) if m == "Failed to download piece 1"));

    let first = attempts.next_peer().unwrap();
    assert!(attempts.on_result(&mut health, &first, &info, Err(TorrentError::ConnectionClosed), 0).is_none());
    let second = attempts.next_peer().unwrap();
    assert!(attempts.on_result(&mut health, &second, &info, Ok(vec![7u8; 3616]), 0).is_none());
    assert!(matches!(attempts.last_error, TorrentError::PieceVerificationFailed));
    let third = attempts.next_peer().unwrap();
    assert_eq!(
        attempts.on_result(&mut health, &third, &info, Ok(vec![2u8; 3616]), 0),
        Some(vec![2u8; 3616])
    );
    for _ in 0..2 {
        assert!(attempts.next_peer().is_some());
    }
    assert!(attempts.next_peer().is_none());
    assert!(matches!(attempts.finish(), TorrentError::PieceVerificationFailed));
}
