//! Progress and warning lines shown while downloading.

use vstd::prelude::*;
use crate::text::{decimal, occurs_at, push_decimal, push_str, string_of};

verus! {

/// Something worth telling the user about a download.
#[derive(Debug, PartialEq, Eq)]
pub enum ProgressEvent<'a> {
    ResumeLoaded { completed_pieces: usize, total_pieces: usize },
    BitfieldProbeFailed { peer: &'a str, error: String },
    TrackerSelected { tracker: &'a str },
    TrackerWarning { message: &'a str },
    PieceStored { piece_index: usize, completed_pieces: usize, total_pieces: usize },
    PieceDownloadFailed { piece_index: usize, peer: &'a str, error: String },
    PieceVerificationFailed { piece_index: usize, peer: &'a str },
    DownloadFinalized { output: &'a str },
    DownloadInterrupted { output: &'a str },
    PieceWritten { piece_index: usize, output: &'a str },
}

/// The line shown for an event.
pub open spec fn event_text(event: ProgressEvent) -> Seq<char> {
    match event {
        ProgressEvent::ResumeLoaded { completed_pieces, total_pieces } => "[progress] resume state loaded: "@
            + decimal(completed_pieces as nat) + "/"@ + decimal(total_pieces as nat)
            + " pieces already complete"@,
        ProgressEvent::BitfieldProbeFailed { peer, error } => "[warn] failed to probe peer bitfield from "@
            + peer@ + ": "@ + error@,
        ProgressEvent::TrackerSelected { tracker } => "[progress] selected tracker: "@ + tracker@,
        ProgressEvent::TrackerWarning { message } => "[warn] tracker fallback detail: "@ + message@,
        ProgressEvent::PieceStored { piece_index, completed_pieces, total_pieces } => "[progress] stored piece "@
            + decimal(piece_index as nat) + " ("@ + decimal(completed_pieces as nat) + "/"@
            + decimal(total_pieces as nat) + " complete)"@,
        ProgressEvent::PieceDownloadFailed { piece_index, peer, error } => "[warn] failed to download piece "@
            + decimal(piece_index as nat) + " from "@ + peer@ + ": "@ + error@,
        ProgressEvent::PieceVerificationFailed { piece_index, peer } => "[warn] piece "@ + decimal(
            piece_index as nat,
        ) + " failed verification after download from "@ + peer@,
        ProgressEvent::DownloadFinalized { output } => "[progress] finalized download to "@
            + output@,
        ProgressEvent::DownloadInterrupted { output } => "[warn] download interrupted; partial state preserved for resume at "@
            + output@,
        ProgressEvent::PieceWritten { piece_index, output } => "[progress] wrote piece "@ + decimal(
            piece_index as nat,
        ) + " to "@ + output@,
    }
}

/// Renders an event as its progress or warning line.
pub fn render_event(event: &ProgressEvent<'_>) -> (r: String)
    ensures
        r@ == event_text(*event),
{
    match event {
        ProgressEvent::ResumeLoaded { completed_pieces, total_pieces } => {
            let mut s = string_of("[progress] resume state loaded: ");
            push_decimal(&mut s, *completed_pieces as u64);
            push_str(&mut s, "/");
            push_decimal(&mut s, *total_pieces as u64);
            push_str(&mut s, " pieces already complete");
            assert(s@ =~= event_text(*event));
            s
        },
        ProgressEvent::BitfieldProbeFailed { peer, error } => {
            let mut s = string_of("[warn] failed to probe peer bitfield from ");
            push_str(&mut s, peer);
            push_str(&mut s, ": ");
            push_str(&mut s, error.as_str());
            assert(s@ =~= event_text(*event));
            s
        },
        ProgressEvent::TrackerSelected { tracker } => {
            let mut s = string_of("[progress] selected tracker: ");
            push_str(&mut s, tracker);
            s
        },
        ProgressEvent::TrackerWarning { message } => {
            let mut s = string_of("[warn] tracker fallback detail: ");
            push_str(&mut s, message);
            s
        },
        ProgressEvent::PieceStored { piece_index, completed_pieces, total_pieces } => {
            let mut s = string_of("[progress] stored piece ");
            push_decimal(&mut s, *piece_index as u64);
            push_str(&mut s, " (");
            push_decimal(&mut s, *completed_pieces as u64);
            push_str(&mut s, "/");
            push_decimal(&mut s, *total_pieces as u64);
            push_str(&mut s, " complete)");
            assert(s@ =~= event_text(*event));
            s
        },
        ProgressEvent::PieceDownloadFailed { piece_index, peer, error } => {
            let mut s = string_of("[warn] failed to download piece ");
            push_decimal(&mut s, *piece_index as u64);
            push_str(&mut s, " from ");
            push_str(&mut s, peer);
            push_str(&mut s, ": ");
            push_str(&mut s, error.as_str());
            assert(s@ =~= event_text(*event));
            s
        },
        ProgressEvent::PieceVerificationFailed { piece_index, peer } => {
            let mut s = string_of("[warn] piece ");
            push_decimal(&mut s, *piece_index as u64);
            push_str(&mut s, " failed verification after download from ");
            push_str(&mut s, peer);
            assert(s@ =~= event_text(*event));
            s
        },
        ProgressEvent::DownloadFinalized { output } => {
            let mut s = string_of("[progress] finalized download to ");
            push_str(&mut s, output);
            s
        },
        ProgressEvent::DownloadInterrupted { output } => {
            let mut s = string_of(
                "[warn] download interrupted; partial state preserved for resume at ",
            );
            push_str(&mut s, output);
            s
        },
        ProgressEvent::PieceWritten { piece_index, output } => {
            let mut s = string_of("[progress] wrote piece ");
            push_decimal(&mut s, *piece_index as u64);
            push_str(&mut s, " to ");
            push_str(&mut s, output);
            assert(s@ =~= event_text(*event));
            s
        },
    }
}


/// True for the events shown as warnings.
pub open spec fn is_warning(event: ProgressEvent) -> bool {
    event is BitfieldProbeFailed || event is TrackerWarning || event is PieceDownloadFailed
        || event is PieceVerificationFailed || event is DownloadInterrupted
}

/// The texts an event carries: its strings as they are and its numbers in
/// decimal.
pub open spec fn event_fields(event: ProgressEvent) -> Seq<Seq<char>> {
    match event {
        ProgressEvent::ResumeLoaded { completed_pieces, total_pieces } => seq![
            decimal(completed_pieces as nat),
            decimal(total_pieces as nat),
        ],
        ProgressEvent::BitfieldProbeFailed { peer, error } => seq![peer@, error@],
        ProgressEvent::TrackerSelected { tracker } => seq![tracker@],
        ProgressEvent::TrackerWarning { message } => seq![message@],
        ProgressEvent::PieceStored { piece_index, completed_pieces, total_pieces } => seq![
            decimal(piece_index as nat),
            decimal(completed_pieces as nat),
            decimal(total_pieces as nat),
        ],
        ProgressEvent::PieceDownloadFailed { piece_index, peer, error } => seq![
            decimal(piece_index as nat),
            peer@,
            error@,
        ],
        ProgressEvent::PieceVerificationFailed { piece_index, peer } => seq![
            decimal(piece_index as nat),
            peer@,
        ],
        ProgressEvent::DownloadFinalized { output } => seq![output@],
        ProgressEvent::DownloadInterrupted { output } => seq![output@],
        ProgressEvent::PieceWritten { piece_index, output } => seq![
            decimal(piece_index as nat),
            output@,
        ],
    }
}

/// True when `pat` occurs somewhere in `s`.
pub open spec fn occurs_in(s: Seq<char>, pat: Seq<char>) -> bool {
    exists|i: int| occurs_at(s, pat, i)
}

/// `b` occurs in `a + b + c` right after `a`.
proof fn lemma_occurs_between(s: Seq<char>, a: Seq<char>, b: Seq<char>, c: Seq<char>)
    requires
        s =~= a + b + c,
    ensures
        occurs_in(s, b),
{
    assert(s.subrange(a.len() as int, (a.len() + b.len()) as int) =~= b);
    assert(occurs_at(s, b, a.len() as int));
}

/// Every progress line starts with `[warn] ` for a warning and with
/// `[progress] ` otherwise, and carries every field of its event: each text
/// as it is and each number in decimal.
pub proof fn lemma_event_text_shape(event: ProgressEvent)
    ensures
        "[warn] "@.is_prefix_of(event_text(event)) == is_warning(event),
        is_warning(event) || "[progress] "@.is_prefix_of(event_text(event)),
        forall|k: int| 0 <= k < event_fields(event).len() ==> occurs_in(event_text(event), #[trigger] event_fields(event)[k]),
{
    let t = event_text(event);
    reveal_strlit("[warn] ");
    reveal_strlit("[progress] ");
    match event {
        ProgressEvent::ResumeLoaded { completed_pieces, total_pieces } => {
            reveal_strlit("[progress] resume state loaded: ");
            let c = decimal(completed_pieces as nat);
            let n = decimal(total_pieces as nat);
            lemma_occurs_between(t, "[progress] resume state loaded: "@, c, "/"@ + n + " pieces already complete"@);
            lemma_occurs_between(t, "[progress] resume state loaded: "@ + c + "/"@, n, " pieces already complete"@);
            assert(t.subrange(0, 11) =~= "[progress] "@);
            assert(t[1] == 'p');
            if "[warn] "@.is_prefix_of(t) {
                assert(t.subrange(0, 7)[1] == t[1]);
                assert("[warn] "@[1] == 'w');
            }
        },
        ProgressEvent::BitfieldProbeFailed { peer, error } => {
            reveal_strlit("[warn] failed to probe peer bitfield from ");
            lemma_occurs_between(t, "[warn] failed to probe peer bitfield from "@, peer@, ": "@ + error@);
            lemma_occurs_between(t, "[warn] failed to probe peer bitfield from "@ + peer@ + ": "@, error@, Seq::empty());
            assert(t.subrange(0, 7) =~= "[warn] "@);
        },
        ProgressEvent::TrackerSelected { tracker } => {
            reveal_strlit("[progress] selected tracker: ");
            lemma_occurs_between(t, "[progress] selected tracker: "@, tracker@, Seq::empty());
            assert(t.subrange(0, 11) =~= "[progress] "@);
            assert(t[1] == 'p');
            if "[warn] "@.is_prefix_of(t) {
                assert(t.subrange(0, 7)[1] == t[1]);
                assert("[warn] "@[1] == 'w');
            }
        },
        ProgressEvent::TrackerWarning { message } => {
            reveal_strlit("[warn] tracker fallback detail: ");
            lemma_occurs_between(t, "[warn] tracker fallback detail: "@, message@, Seq::empty());
            assert(t.subrange(0, 7) =~= "[warn] "@);
        },
        ProgressEvent::PieceStored { piece_index, completed_pieces, total_pieces } => {
            reveal_strlit("[progress] stored piece ");
            let p = decimal(piece_index as nat);
            let c = decimal(completed_pieces as nat);
            let n = decimal(total_pieces as nat);
            lemma_occurs_between(t, "[progress] stored piece "@, p, " ("@ + c + "/"@ + n + " complete)"@);
            lemma_occurs_between(t, "[progress] stored piece "@ + p + " ("@, c, "/"@ + n + " complete)"@);
            lemma_occurs_between(t, "[progress] stored piece "@ + p + " ("@ + c + "/"@, n, " complete)"@);
            assert(t.subrange(0, 11) =~= "[progress] "@);
            assert(t[1] == 'p');
            if "[warn] "@.is_prefix_of(t) {
                assert(t.subrange(0, 7)[1] == t[1]);
                assert("[warn] "@[1] == 'w');
            }
        },
        ProgressEvent::PieceDownloadFailed { piece_index, peer, error } => {
            reveal_strlit("[warn] failed to download piece ");
            let p = decimal(piece_index as nat);
            lemma_occurs_between(t, "[warn] failed to download piece "@, p, " from "@ + peer@ + ": "@ + error@);
            lemma_occurs_between(t, "[warn] failed to download piece "@ + p + " from "@, peer@, ": "@ + error@);
            lemma_occurs_between(t, "[warn] failed to download piece "@ + p + " from "@ + peer@ + ": "@, error@, Seq::empty());
            assert(t.subrange(0, 7) =~= "[warn] "@);
        },
        ProgressEvent::PieceVerificationFailed { piece_index, peer } => {
            reveal_strlit("[warn] piece ");
            let p = decimal(piece_index as nat);
            lemma_occurs_between(t, "[warn] piece "@, p, " failed verification after download from "@ + peer@);
            lemma_occurs_between(t, "[warn] piece "@ + p + " failed verification after download from "@, peer@, Seq::empty());
            assert(t.subrange(0, 7) =~= "[warn] "@);
        },
        ProgressEvent::DownloadFinalized { output } => {
            reveal_strlit("[progress] finalized download to ");
            lemma_occurs_between(t, "[progress] finalized download to "@, output@, Seq::empty());
            assert(t.subrange(0, 11) =~= "[progress] "@);
            assert(t[1] == 'p');
            if "[warn] "@.is_prefix_of(t) {
                assert(t.subrange(0, 7)[1] == t[1]);
                assert("[warn] "@[1] == 'w');
            }
        },
        ProgressEvent::DownloadInterrupted { output } => {
            reveal_strlit("[warn] download interrupted; partial state preserved for resume at ");
            lemma_occurs_between(t, "[warn] download interrupted; partial state preserved for resume at "@, output@, Seq::empty());
            assert(t.subrange(0, 7) =~= "[warn] "@);
        },
        ProgressEvent::PieceWritten { piece_index, output } => {
            reveal_strlit("[progress] wrote piece ");
            let p = decimal(piece_index as nat);
            lemma_occurs_between(t, "[progress] wrote piece "@, p, " to "@ + output@);
            lemma_occurs_between(t, "[progress] wrote piece "@ + p + " to "@, output@, Seq::empty());
            assert(t.subrange(0, 11) =~= "[progress] "@);
            assert(t[1] == 'p');
            if "[warn] "@.is_prefix_of(t) {
                assert(t.subrange(0, 7)[1] == t[1]);
                assert("[warn] "@[1] == 'w');
            }
        },
    }
}

} // verus!
