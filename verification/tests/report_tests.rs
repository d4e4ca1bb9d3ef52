use bittorrent_starter_rust::report::{render_event, ProgressEvent};

#[test]
fn renders_resume_progress() {
    let rendered = render_event(&ProgressEvent::ResumeLoaded {
        completed_pieces: 2,
        total_pieces: 5,
    });

    assert_eq!(
        rendered,
        "[progress] resume state loaded: 2/5 pieces already complete"
    );
}

#[test]
fn renders_warning_messages() {
    let rendered = render_event(&ProgressEvent::PieceDownloadFailed {
        piece_index: 3,
        peer: "127.0.0.1:6881",
        error: "timeout".into(),
    });

    assert_eq!(
        rendered,
        "[warn] failed to download piece 3 from 127.0.0.1:6881: timeout"
    );
}

#[test]
fn renders_tracker_selection() {
    let rendered = render_event(&ProgressEvent::TrackerSelected {
        tracker: "udp://tracker.test:6969/announce",
    });

    assert_eq!(
        rendered,
        "[progress] selected tracker: udp://tracker.test:6969/announce"
    );
}

#[test]
fn renders_tracker_warning() {
    let rendered = render_event(&ProgressEvent::TrackerWarning {
        message: "udp://a failed | http://b timed out",
    });

    assert_eq!(
        rendered,
        "[warn] tracker fallback detail: udp://a failed | http://b timed out"
    );
}

#[test]
fn renders_interruption_message() {
    let rendered = render_event(&ProgressEvent::DownloadInterrupted {
        output: "output.bin",
    });

    assert_eq!(
        rendered,
        "[warn] download interrupted; partial state preserved for resume at output.bin"
    );
}

#[test]
fn renders_the_remaining_events() {
    assert_eq!(
        render_event(&ProgressEvent::BitfieldProbeFailed { peer: "1.2.3.4:5", error: "closed".into() }),
        "[warn] failed to probe peer bitfield from 1.2.3.4:5: closed"
    );
    assert_eq!(
        render_event(&ProgressEvent::PieceStored { piece_index: 10, completed_pieces: 11, total_pieces: 120 }),
        "[progress] stored piece 10 (11/120 complete)"
    );
    assert_eq!(
        render_event(&ProgressEvent::PieceVerificationFailed { piece_index: 0, peer: "p" }),
        "[warn] piece 0 failed verification after download from p"
    );
    assert_eq!(
        render_event(&ProgressEvent::DownloadFinalized { output: "out" }),
        "[progress] finalized download to out"
    );
    assert_eq!(
        render_event(&ProgressEvent::PieceWritten { piece_index: 7, output: "piece.bin" }),
        "[progress] wrote piece 7 to piece.bin"
    );
}

#[test]
fn warnings_and_progress_lines_carry_their_fields() {
    let warning = render_event(&ProgressEvent::PieceVerificationFailed { piece_index: 42, peer: "10.0.0.1:80" });
    assert!(warning.starts_with("[warn] "));
    assert!(warning.contains("42") && warning.contains("10.0.0.1:80"));
    let progress = render_event(&ProgressEvent::PieceStored { piece_index: 3, completed_pieces: 4, total_pieces: 10 });
    assert!(progress.starts_with("[progress] "));
    assert!(progress.contains("3") && progress.contains("4") && progress.contains("10"));
}
