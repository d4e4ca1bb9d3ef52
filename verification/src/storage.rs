//! Bookkeeping of a download on disk: which pieces are complete, where each
//! piece lies in the content, and where the content goes when finished.

use vstd::prelude::*;
use crate::error::{Result, TorrentError};
use crate::torrent::{
    clone_layout_files, component_error, is_format_error, layout_files_model, verify_piece,
    TorrentInfo, TorrentLayout, TorrentLayoutFile,
};
use crate::hashing::sha1_digest;
use crate::text::{push_str, string_of, texts};

verus! {

/// The resume record kept next to a partial download.
#[derive(Debug, Clone)]
pub struct ResumeState {
    pub info_hash: String,
    pub piece_length: i64,
    pub total_length: i64,
    pub completed_pieces: Vec<bool>,
}

/// The indices of the pieces not yet complete, in increasing order.
pub open spec fn missing_indices(done: Seq<bool>) -> Seq<usize>
    decreases done.len(),
{
    if done.len() == 0 {
        Seq::empty()
    } else if done.last() {
        missing_indices(done.drop_last())
    } else {
        missing_indices(done.drop_last()).push((done.len() - 1) as usize)
    }
}

/// The number of complete pieces.
pub open spec fn completed_count(done: Seq<bool>) -> nat
    decreases done.len(),
{
    if done.len() == 0 {
        0
    } else {
        completed_count(done.drop_last()) + if done.last() {
            1nat
        } else {
            0nat
        }
    }
}

impl ResumeState {
    /// A record for a download with no piece complete yet.
    pub fn new(info: &TorrentInfo) -> (r: Self)
        ensures
            r.info_hash@ == info.info_hash@,
            r.piece_length == info.piece_length,
            r.total_length == info.length,
            r.completed_pieces@ == Seq::new(info.pieces@.len(), |i: int| false),
            r.matches_spec(*info),
    {
        let mut completed: Vec<bool> = Vec::new();
        let mut i: usize = 0;
        while i < info.pieces.len()
            invariant
                i <= info.pieces@.len(),
                completed@ == Seq::new(i as nat, |j: int| false),
            decreases info.pieces@.len() - i,
        {
            completed.push(false);
            assert(completed@ =~= Seq::new((i + 1) as nat, |j: int| false));
            i = i + 1;
        }
        ResumeState {
            info_hash: info.info_hash.clone(),
            piece_length: info.piece_length,
            total_length: info.length,
            completed_pieces: completed,
        }
    }

    /// True when a saved record belongs to this download.
    pub open spec fn matches_spec(self, info: TorrentInfo) -> bool {
        &&& self.info_hash@ == info.info_hash@
        &&& self.piece_length == info.piece_length
        &&& self.total_length == info.length
        &&& self.completed_pieces@.len() == info.pieces@.len()
    }

    /// True when a saved record belongs to this download: same info hash,
    /// piece length, total length and number of pieces.
    pub fn matches(&self, info: &TorrentInfo) -> (r: bool)
        ensures
            r == self.matches_spec(*info),
    {
        self.info_hash == info.info_hash && self.piece_length == info.piece_length
            && self.total_length == info.length && self.completed_pieces.len()
            == info.pieces.len()
    }

    /// The indices of the pieces still missing, in increasing order.
    pub fn missing_piece_indices(&self) -> (r: Vec<usize>)
        ensures
            r@ == missing_indices(self.completed_pieces@),
    {
        let mut out: Vec<usize> = Vec::new();
        let mut i: usize = 0;
        while i < self.completed_pieces.len()
            invariant
                i <= self.completed_pieces@.len(),
                out@ == missing_indices(self.completed_pieces@.take(i as int)),
            decreases self.completed_pieces@.len() - i,
        {
            assert(self.completed_pieces@.take(i + 1).drop_last() =~= self.completed_pieces@.take(
                i as int,
            ));
            if !self.completed_pieces[i] {
                out.push(i);
            }
            i = i + 1;
        }
        assert(self.completed_pieces@.take(self.completed_pieces@.len() as int)
            =~= self.completed_pieces@);
        out
    }

    /// True when every piece is complete.
    pub fn is_complete(&self) -> (r: bool)
        ensures
            r == forall|i: int|
                0 <= i < self.completed_pieces@.len() ==> self.completed_pieces@[i],
    {
        let mut i: usize = 0;
        while i < self.completed_pieces.len()
            invariant
                i <= self.completed_pieces@.len(),
                forall|j: int| 0 <= j < i ==> self.completed_pieces@[j],
            decreases self.completed_pieces@.len() - i,
        {
            if !self.completed_pieces[i] {
                return false;
            }
            i = i + 1;
        }
        true
    }

    /// The number of complete pieces.
    pub fn completed_piece_count(&self) -> (r: usize)
        ensures
            r == completed_count(self.completed_pieces@),
    {
        let mut count: usize = 0;
        let mut i: usize = 0;
        while i < self.completed_pieces.len()
            invariant
                i <= self.completed_pieces@.len(),
                count == completed_count(self.completed_pieces@.take(i as int)),
                count <= i,
            decreases self.completed_pieces@.len() - i,
        {
            assert(self.completed_pieces@.take(i + 1).drop_last() =~= self.completed_pieces@.take(
                i as int,
            ));
            if self.completed_pieces[i] {
                count = count + 1;
            }
            i = i + 1;
        }
        assert(self.completed_pieces@.take(self.completed_pieces@.len() as int)
            =~= self.completed_pieces@);
        count
    }

    /// The number of pieces.
    pub fn total_piece_count(&self) -> (r: usize)
        ensures
            r == self.completed_pieces@.len(),
    {
        self.completed_pieces.len()
    }

    /// Marks a piece complete or missing.
    pub fn set_completed(&mut self, piece_index: usize, completed: bool)
        requires
            piece_index < old(self).completed_pieces@.len(),
        ensures
            final(self).completed_pieces@ == old(self).completed_pieces@.update(
                piece_index as int,
                completed,
            ),
            final(self).info_hash == old(self).info_hash,
            final(self).piece_length == old(self).piece_length,
            final(self).total_length == old(self).total_length,
    {
        self.completed_pieces.set(piece_index, completed);
    }

    /// Re-checks a piece marked complete against the data on disk: data that
    /// does not hash right un-marks the piece, and `true` tells that its bytes
    /// must be cleared.
    pub fn reconcile_piece(&mut self, info: &TorrentInfo, piece_index: usize, data: &[u8]) -> (r: bool)
        requires
            piece_index < old(self).completed_pieces@.len(),
        ensures
            r == !(piece_index < info.pieces@.len() && sha1_digest(data@)
                == info.pieces@[piece_index as int]@),
            r ==> final(self).completed_pieces@ == old(self).completed_pieces@.update(
                piece_index as int,
                false,
            ),
            !r ==> final(self).completed_pieces@ == old(self).completed_pieces@,
            final(self).info_hash == old(self).info_hash,
            final(self).piece_length == old(self).piece_length,
            final(self).total_length == old(self).total_length,
    {
        if verify_piece(info, piece_index, data) {
            false
        } else {
            self.set_completed(piece_index, false);
            true
        }
    }

    /// The record to continue with: a saved record that belongs to this
    /// download, or else a fresh one (`true` in the second place tells that the
    /// partial file must be reset).
    pub fn resume_or_new(saved: Option<ResumeState>, info: &TorrentInfo) -> (r: (ResumeState, bool))
        ensures
            r.0.matches_spec(*info),
            match saved {
                Some(s) => if s.matches_spec(*info) {
                    r.0 == s && !r.1
                } else {
                    r.1 && forall|i: int| 0 <= i < r.0.completed_pieces@.len() ==> !r.0.completed_pieces@[i]
                },
                None => !r.1 && forall|i: int| 0 <= i < r.0.completed_pieces@.len() ==> !r.0.completed_pieces@[i],
            },
    {
        match saved {
            Some(s) => if s.matches(info) {
                (s, false)
            } else {
                (ResumeState::new(info), true)
            },
            None => (ResumeState::new(info), false),
        }
    }
}

/// Every piece index is either missing or complete, the missing ones are
/// exactly those not marked complete, and their count plus the complete
/// count is the number of pieces.
pub proof fn lemma_missing_and_completed(done: Seq<bool>)
    requires
        done.len() <= usize::MAX,
    ensures
        forall|k: int|
            0 <= k < missing_indices(done).len() ==> {
                &&& (#[trigger] missing_indices(done)[k]) < done.len()
                &&& !done[missing_indices(done)[k] as int]
            },
        forall|i: int| 0 <= i < done.len() && !done[i] ==> missing_indices(done).contains(i as usize),
        missing_indices(done).len() + completed_count(done) == done.len(),
    decreases done.len(),
{
    if done.len() > 0 {
        let rest = done.drop_last();
        lemma_missing_and_completed(rest);
        assert forall|k: int| 0 <= k < missing_indices(done).len() implies {
            &&& (#[trigger] missing_indices(done)[k]) < done.len()
            &&& !done[missing_indices(done)[k] as int]
        } by {
            if k < missing_indices(rest).len() {
                assert(missing_indices(done)[k] == missing_indices(rest)[k]);
                assert(done[missing_indices(rest)[k] as int] == rest[missing_indices(rest)[k] as int]);
            } else {
                assert(!done.last());
                assert(missing_indices(done)[k] == (done.len() - 1) as usize);
            }
        }
        assert forall|i: int| 0 <= i < done.len() && !done[i] implies missing_indices(done).contains(
            i as usize,
        ) by {
            if i < rest.len() {
                assert(rest[i] == done[i]);
                let w = choose|w: int| 0 <= w < missing_indices(rest).len() && missing_indices(rest)[w] == i as usize;
                assert(missing_indices(done)[w] == i as usize);
            } else {
                assert(missing_indices(done).last() == i as usize);
            }
        }
    }
}

/// Once a piece is stored the missing pieces are the ones missing before,
/// less that piece: it is no longer missing, every other piece that was
/// missing still is, and no piece becomes missing.
pub proof fn lemma_stored_piece_not_missing(done: Seq<bool>, i: int)
    requires
        done.len() <= usize::MAX,
        0 <= i < done.len(),
    ensures
        !missing_indices(done.update(i, true)).contains(i as usize),
        forall|j: int|
            0 <= j < done.len() && j != i && !done[j] ==> missing_indices(done.update(i, true)).contains(
                j as usize,
            ),
        forall|m: usize|
            missing_indices(done.update(i, true)).contains(m) ==> m != i as usize && missing_indices(
                done,
            ).contains(m),
{
    let after = done.update(i, true);
    lemma_missing_and_completed(after);
    lemma_missing_and_completed(done);
    assert forall|m: usize| missing_indices(after).contains(m) implies m != i as usize
        && missing_indices(done).contains(m) by {
        let k = choose|k: int| 0 <= k < missing_indices(after).len() && missing_indices(after)[k] == m;
        assert(!after[missing_indices(after)[k] as int]);
        assert(!done[m as int]);
    }
    if missing_indices(after).contains(i as usize) {
        let k = choose|k: int| 0 <= k < missing_indices(after).len() && missing_indices(after)[k] == i as usize;
        assert(!after[missing_indices(after)[k] as int]);
    }
    assert forall|j: int| 0 <= j < done.len() && j != i && !done[j] implies missing_indices(after).contains(
        j as usize,
    ) by {
        assert(!after[j]);
    }
}

// ---------------------------------------------------------------- pieces

/// True when the description is complete enough to store a download: a
/// positive length and piece length, at least one piece, and a layout.
pub open spec fn self_describes(info: TorrentInfo) -> bool {
    info.length > 0 && info.piece_length > 0 && info.pieces@.len() > 0 && info.layout is Some
}

/// Checks that a description is complete enough to store a download.
pub fn self_describes_torrent(info: &TorrentInfo) -> (r: bool)
    ensures
        r == self_describes(*info),
{
    info.length > 0 && info.piece_length > 0 && info.pieces.len() > 0 && info.layout.is_some()
}

/// The piece length as a `usize` (as the storage code converts it).
pub open spec fn piece_len(info: TorrentInfo) -> int {
    (info.piece_length as usize) as int
}

/// The offset of piece `i` in the content.
pub open spec fn offset_of(info: TorrentInfo, i: int) -> int {
    i * piece_len(info)
}

/// The length of piece `i`: the piece length, except for the last piece,
/// which ends the content.
pub open spec fn length_of(info: TorrentInfo, i: int) -> int {
    if i == info.pieces@.len() - 1 {
        (info.length as usize) as int - (info.pieces@.len() - 1) * piece_len(info)
    } else {
        piece_len(info)
    }
}

/// True when the piece geometry of a description is consistent: positive
/// piece length, and the last piece non-empty and no longer than the others,
/// all within `usize`.
pub open spec fn geometry_consistent(info: TorrentInfo) -> bool {
    &&& self_describes(info)
    &&& info.length <= usize::MAX
    &&& info.piece_length <= usize::MAX
    &&& (info.pieces@.len() - 1) * piece_len(info) < info.length
    &&& info.length <= info.pieces@.len() * piece_len(info)
}

/// The offset of a piece in the content.
pub fn piece_offset(info: &TorrentInfo, piece_index: usize) -> (r: Result<usize>)
    requires
        piece_index < info.pieces@.len() ==> offset_of(*info, piece_index as int) <= usize::MAX,
    ensures
        piece_index >= info.pieces@.len() ==> is_format_error(r, "Invalid piece index"@),
        piece_index < info.pieces@.len() ==> r == Ok::<usize, TorrentError>(
            offset_of(*info, piece_index as int) as usize,
        ),
{
    if piece_index >= info.pieces.len() {
        return Err(TorrentError::InvalidResponseFormat(string_of("Invalid piece index")));
    }
    Ok(piece_index * info.piece_length as usize)
}

/// The length of a piece.
pub fn piece_length_for(info: &TorrentInfo, piece_index: usize) -> (r: Result<usize>)
    requires
        piece_index + 1 == info.pieces@.len() ==> 0 <= length_of(*info, piece_index as int),
    ensures
        piece_index >= info.pieces@.len() ==> is_format_error(r, "Invalid piece index"@),
        piece_index < info.pieces@.len() ==> r == Ok::<usize, TorrentError>(
            length_of(*info, piece_index as int) as usize,
        ),
{
    if piece_index >= info.pieces.len() {
        return Err(TorrentError::InvalidResponseFormat(string_of("Invalid piece index")));
    }
    if piece_index == info.pieces.len() - 1 {
        proof {
            assert((info.pieces@.len() - 1) * piece_len(*info) <= (info.length as usize) as int);
        }
        Ok(info.length as usize - (info.pieces.len() - 1) * info.piece_length as usize)
    } else {
        Ok(info.piece_length as usize)
    }
}

/// For a consistent description the pieces tile the content: each piece
/// starts where the previous one ends, each has a positive length, and the
/// last one ends at the total length.
pub proof fn lemma_pieces_tile_content(info: TorrentInfo, i: int)
    requires
        geometry_consistent(info),
        0 <= i < info.pieces@.len(),
    ensures
        length_of(info, i) > 0,
        i + 1 < info.pieces@.len() ==> offset_of(info, i) + length_of(info, i) == offset_of(
            info,
            i + 1,
        ),
        i + 1 == info.pieces@.len() ==> offset_of(info, i) + length_of(info, i) == info.length,
        offset_of(info, i) + length_of(info, i) <= info.length,
{
    let p = piece_len(info);
    let n = info.pieces@.len();
    assert(p == info.piece_length);
    assert((info.length as usize) as int == info.length);
    assert(offset_of(info, i + 1) == offset_of(info, i) + p) by (nonlinear_arith)
        requires
            offset_of(info, i + 1) == (i + 1) * p,
            offset_of(info, i) == i * p,
    ;
    if i + 1 < n {
        assert((i + 1) * p <= (n - 1) * p) by (nonlinear_arith)
            requires
                i + 1 <= n - 1,
                p > 0,
        ;
    }
}

/// True when the offset and (for the last piece) the length of a piece can
/// be computed without leaving the range of `usize`.
pub open spec fn piece_geometry_fits(info: TorrentInfo, piece_index: int) -> bool {
    &&& piece_index < info.pieces@.len() ==> offset_of(info, piece_index) <= usize::MAX
    &&& piece_index + 1 == info.pieces@.len() ==> 0 <= length_of(info, piece_index)
}

/// Checks that the offset and (for the last piece) the length of a piece
/// can be computed within `usize`.
pub fn piece_geometry_ok(info: &TorrentInfo, piece_index: usize) -> (r: bool)
    ensures
        r == piece_geometry_fits(*info, piece_index as int),
{
    let pl: usize = info.piece_length as usize;
    let n: usize = info.pieces.len();
    let a: u128 = piece_index as u128;
    let b: u128 = pl as u128;
    assert(a * b < 0x1_0000_0000_0000_0000_0000_0000_0000_0000) by (nonlinear_arith)
        requires
            a < 0x1_0000_0000_0000_0000,
            b < 0x1_0000_0000_0000_0000,
    ;
    let offset_fits = piece_index >= n || a * b <= usize::MAX as u128;
    if n == 0 || piece_index != n - 1 {
        return offset_fits;
    }
    let c: u128 = (n - 1) as u128;
    assert(c * b < 0x1_0000_0000_0000_0000_0000_0000_0000_0000) by (nonlinear_arith)
        requires
            c < 0x1_0000_0000_0000_0000,
            b < 0x1_0000_0000_0000_0000,
    ;
    offset_fits && c * b <= (info.length as usize) as u128
}

/// Checks a piece before it is written: it must hash to the expected hash,
/// then have the piece's length.  Returns the offset to write it at.
pub fn check_piece_write(info: &TorrentInfo, piece_index: usize, data: &[u8]) -> (r: Result<usize>)
    requires
        piece_index < info.pieces@.len() ==> offset_of(*info, piece_index as int) <= usize::MAX,
        piece_index + 1 == info.pieces@.len() ==> 0 <= length_of(*info, piece_index as int),
    ensures
        !(piece_index < info.pieces@.len() && sha1_digest(data@) == info.pieces@[piece_index as int]@)
            ==> (r matches Err(e) && e is PieceVerificationFailed),
        piece_index < info.pieces@.len() && sha1_digest(data@) == info.pieces@[piece_index as int]@
            ==> if data@.len() != length_of(*info, piece_index as int) {
            r matches Err(e) && e is UnexpectedBlockData
        } else {
            r == Ok::<usize, TorrentError>(offset_of(*info, piece_index as int) as usize)
        },
{
    if !verify_piece(info, piece_index, data) {
        return Err(TorrentError::PieceVerificationFailed);
    }
    let expected_len = piece_length_for(info, piece_index)?;
    if data.len() != expected_len {
        return Err(TorrentError::UnexpectedBlockData);
    }
    piece_offset(info, piece_index)
}

// ---------------------------------------------------------------- paths

/// A path as a list of parts joined one below the other (the first part
/// may itself be a whole path, as given by the user).
pub type PathParts = Vec<String>;

/// Where a finished download goes.
#[derive(Debug, Clone)]
pub enum FinalizeTarget {
    SingleFile { output_path: PathParts },
    MultiFile { root_dir: PathParts, files: Vec<TorrentLayoutFile> },
}

/// The finalize target of a download: the output path itself for a single
/// file, a directory named after the root below the output path for several.
pub fn build_finalize_target(output_path: &str, info: &TorrentInfo) -> (r: Result<FinalizeTarget>)
    ensures
        match info.layout {
            None => r matches Err(TorrentError::DownloadFailed(m)) && m@
                == "Torrent layout is missing"@,
            Some(TorrentLayout::SingleFile { .. }) => r matches Ok(
                FinalizeTarget::SingleFile { output_path: p },
            ) && texts(p@) == seq![output_path@],
            Some(TorrentLayout::MultiFile { root_name, files }) => r matches Ok(
                FinalizeTarget::MultiFile { root_dir, files: f },
            ) && texts(root_dir@) == seq![output_path@, root_name@] && layout_files_model(f@)
                == layout_files_model(files@),
        },
{
    match &info.layout {
        None => Err(TorrentError::DownloadFailed(string_of("Torrent layout is missing"))),
        Some(TorrentLayout::SingleFile { .. }) => {
            let mut p: Vec<String> = Vec::new();
            p.push(string_of(output_path));
            assert(texts(p@) =~= seq![output_path@]);
            Ok(FinalizeTarget::SingleFile { output_path: p })
        },
        Some(TorrentLayout::MultiFile { root_name, files }) => {
            let mut p: Vec<String> = Vec::new();
            p.push(string_of(output_path));
            p.push(root_name.clone());
            assert(texts(p@) =~= seq![output_path@, root_name@]);
            Ok(FinalizeTarget::MultiFile { root_dir: p, files: clone_layout_files(files) })
        },
    }
}

/// Appends a suffix to the last part of a path.
pub fn append_suffix(path: &PathParts, suffix: &str) -> (r: PathParts)
    requires
        path@.len() > 0,
    ensures
        texts(r@) == texts(path@).update(
            path@.len() - 1,
            path@[path@.len() - 1]@ + suffix@,
        ),
{
    let mut out = crate::text::clone_strings(path);
    let ghost before = out@;
    let last = out.len() - 1;
    let mut s = out[last].clone();
    push_str(&mut s, suffix);
    out.set(last, s);
    proof {
        assert(texts(before)[last as int] == texts(path@)[last as int]);
        assert forall|j: int| 0 <= j < out@.len() && j != last implies texts(out@)[j] == texts(
            path@,
        )[j] by {
            assert(texts(before)[j] == texts(path@)[j]);
        }
    }
    assert(texts(out@) =~= texts(path@).update(path@.len() - 1, path@[path@.len() - 1]@ + suffix@));
    out
}

/// The partial-content file and the resume record of a download: next to
/// the output file for a single file, or below the output directory, named
/// after the torrent, for several.
pub fn working_paths(finalize_target: &FinalizeTarget, output_path: &str, info: &TorrentInfo) -> (r: Result<(PathParts, PathParts)>)
    ensures
        match finalize_target {
            FinalizeTarget::SingleFile { output_path: p } => (p@.len() == 0 ==> (r matches Err(
                TorrentError::DownloadFailed(m),
            ) && m@ == "Output path is empty"@)) && (p@.len() > 0 ==> (r matches Ok(
                (part, state),
            ) && texts(part@) == texts(p@).update(p@.len() - 1, p@[p@.len() - 1]@ + ".part"@)
                && texts(state@) == texts(p@).update(
                p@.len() - 1,
                p@[p@.len() - 1]@ + ".resume.json"@,
            ))),
            FinalizeTarget::MultiFile { .. } => r matches Ok((part, state)) && texts(part@)
                == seq![output_path@, info.name@ + ".part"@] && texts(state@) == seq![
                output_path@,
                info.name@ + ".resume.json"@,
            ],
        },
{
    match finalize_target {
        FinalizeTarget::SingleFile { output_path: p } => {
            if p.len() == 0 {
                return Err(TorrentError::DownloadFailed(string_of("Output path is empty")));
            }
            Ok((append_suffix(p, ".part"), append_suffix(p, ".resume.json")))
        },
        FinalizeTarget::MultiFile { .. } => {
            let mut part_name = info.name.clone();
            push_str(&mut part_name, ".part");
            let mut state_name = info.name.clone();
            push_str(&mut state_name, ".resume.json");
            let mut part: Vec<String> = Vec::new();
            part.push(string_of(output_path));
            part.push(part_name);
            let mut state: Vec<String> = Vec::new();
            state.push(string_of(output_path));
            state.push(state_name);
            assert(texts(part@) =~= seq![output_path@, info.name@ + ".part"@]);
            assert(texts(state@) =~= seq![output_path@, info.name@ + ".resume.json"@]);
            Ok((part, state))
        },
    }
}

/// True when a relative path stays inside its root: it has at least one
/// part and every part is a plain name (not empty, `.` or `..`, and without
/// separators).
pub open spec fn safe_relative(parts: Seq<Seq<char>>) -> bool {
    parts.len() > 0 && forall|i: int| 0 <= i < parts.len() ==> component_error(#[trigger] parts[i]) is None
}

/// Checks that a relative path stays inside its root.
pub fn is_safe_relative_path(path: &Vec<String>) -> (r: bool)
    ensures
        r == safe_relative(texts(path@)),
{
    if path.len() == 0 {
        return false;
    }
    let mut i: usize = 0;
    while i < path.len()
        invariant
            i <= path@.len(),
            forall|j: int| 0 <= j < i ==> component_error(#[trigger] texts(path@)[j]) is None,
        decreases path@.len() - i,
    {
        match crate::torrent::validate_path_component(path[i].as_str()) {
            Ok(_) => {},
            Err(_) => {
                assert(component_error(texts(path@)[i as int]) is Some);
                return false;
            },
        }
        i = i + 1;
    }
    true
}

/// Refuses to finalize a download that still misses pieces.
pub fn check_finalizable(state: &ResumeState) -> (r: Result<()>)
    ensures
        (forall|i: int| 0 <= i < state.completed_pieces@.len() ==> state.completed_pieces@[i])
            ==> r is Ok,
        !(forall|i: int| 0 <= i < state.completed_pieces@.len() ==> state.completed_pieces@[i])
            ==> (r matches Err(TorrentError::DownloadFailed(m)) && m@
            == "Cannot finalize incomplete download"@),
{
    if !state.is_complete() {
        return Err(TorrentError::DownloadFailed(string_of("Cannot finalize incomplete download")));
    }
    Ok(())
}

} // verus!
