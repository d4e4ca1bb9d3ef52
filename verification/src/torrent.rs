//! Torrent metadata: the `.torrent` model, tracker lists, file layout,
//! info hashes and piece verification.

use vstd::prelude::*;
use crate::bencode::{
    BencodeModel, BencodeValue, bencode_encoding, dict_model, encode, list_model,
};
use crate::error::{Result, TorrentError};
use crate::hashing::{hex_encode, hex_text, sha1, sha1_digest};
use vstd::utf8::encode_utf8;
use crate::magnet::Magnet;
use crate::text::{clone_strings, contains_char, opt_text, same_text, string_of, texts};

verus! {

/// A decoded `.torrent` file.
#[derive(Debug, Clone)]
pub struct Torrent {
    pub announce: String,
    pub announce_list: Vec<Vec<String>>,
    pub info: Info,
}

/// The `info` dictionary of a torrent.
#[derive(Debug, Clone)]
pub struct Info {
    pub name: String,
    pub piece_length: usize,
    pub pieces: Hashes,
    pub keys: Keys,
}

/// Single-file or multi-file content description.
#[derive(Debug, Clone)]
pub enum Keys {
    SingleFile { length: usize },
    MultiFile { files: Vec<File> },
}

/// One file of a multi-file torrent.
#[derive(Debug, Clone)]
pub struct File {
    pub length: usize,
    pub path: Vec<String>,
}

/// The SHA-1 hashes of the pieces, in order.
#[derive(Debug, Clone)]
pub struct Hashes(pub Vec<[u8; 20]>);

/// The normalized description of a download, whatever its source.
#[derive(Debug, Clone)]
pub struct TorrentInfo {
    pub trackers: Vec<String>,
    pub info_hash: String,
    pub length: i64,
    pub name: String,
    pub piece_length: i64,
    pub pieces: Vec<[u8; 20]>,
    pub layout: Option<TorrentLayout>,
}

/// Where the downloaded bytes go once complete.
#[derive(Debug, Clone, PartialEq, Eq)]
pub enum TorrentLayout {
    SingleFile { suggested_name: String, length: usize },
    MultiFile { root_name: String, files: Vec<TorrentLayoutFile> },
}

/// One file of a multi-file layout: its path below the root (as path
/// segments), its length, and its offset in the concatenated content.
#[derive(Debug, Clone, PartialEq, Eq)]
pub struct TorrentLayoutFile {
    pub relative_path: Vec<String>,
    pub length: usize,
    pub offset: usize,
}

// ---------------------------------------------------------------- trackers

/// One step of tracker collection: an empty or already collected tracker is
/// skipped, any other is appended.
pub open spec fn tracker_step(acc: Seq<Seq<char>>, t: Seq<char>) -> Seq<Seq<char>> {
    if t.len() == 0 || acc.contains(t) {
        acc
    } else {
        acc.push(t)
    }
}

/// The trackers collected from a list of candidates, in order of first
/// occurrence, without empty entries or repeats.
pub open spec fn unique_trackers(candidates: Seq<Seq<char>>) -> Seq<Seq<char>>
    decreases candidates.len(),
{
    if candidates.len() == 0 {
        Seq::empty()
    } else {
        tracker_step(unique_trackers(candidates.drop_last()), candidates.last())
    }
}

/// The tiers of an announce list, one after the other.
pub open spec fn concat_tiers(tiers: Seq<Seq<Seq<char>>>) -> Seq<Seq<char>>
    decreases tiers.len(),
{
    if tiers.len() == 0 {
        Seq::empty()
    } else {
        concat_tiers(tiers.drop_last()) + tiers.last()
    }
}

/// The texts of an announce list.
pub open spec fn tier_texts(tiers: Seq<Vec<String>>) -> Seq<Seq<Seq<char>>> {
    tiers.map_values(|t: Vec<String>| texts(t@))
}

/// All tracker candidates of a torrent: `announce`, then every tier.
pub open spec fn tracker_candidates(t: Torrent) -> Seq<Seq<char>> {
    seq![t.announce@] + concat_tiers(tier_texts(t.announce_list@))
}

// ---------------------------------------------------------------- piece hashes

/// The hashes held in a byte string: consecutive runs of 20 bytes.
pub open spec fn hash_chunks(v: Seq<u8>) -> Seq<Seq<u8>> {
    Seq::new(v.len() / 20, |i: int| v.subrange(20 * i, 20 * i + 20))
}

/// The hashes of a list, as byte sequences.
pub open spec fn hash_views(h: Seq<[u8; 20]>) -> Seq<Seq<u8>> {
    h.map_values(|x: [u8; 20]| x@)
}

/// The byte string of a list of hashes: the hashes one after the other.
pub open spec fn joined_hashes(h: Seq<Seq<u8>>) -> Seq<u8>
    decreases h.len(),
{
    if h.len() == 0 {
        Seq::empty()
    } else {
        joined_hashes(h.drop_last()) + h.last()
    }
}

impl Hashes {
    /// Splits the `pieces` byte string of a torrent into its hashes; a
    /// string whose length is not a multiple of 20 holds no hash list.
    pub fn from_bytes(v: &[u8]) -> (r: Option<Hashes>)
        ensures
            v@.len() % 20 != 0 ==> r is None,
            v@.len() % 20 == 0 ==> (r matches Some(h) && hash_views(h.0@) == hash_chunks(v@)),
    {
        if v.len() % 20 != 0 {
            return None;
        }
        let count = v.len() / 20;
        let mut out: Vec<[u8; 20]> = Vec::new();
        let mut i: usize = 0;
        while i < count
            invariant
                count == v@.len() / 20,
                v@.len() % 20 == 0,
                v.len() == v@.len(),
                i <= count,
                out@.len() == i,
                hash_views(out@) == hash_chunks(v@).take(i as int),
            decreases count - i,
        {
            assert(20 * i + 20 <= v@.len()) by (nonlinear_arith)
                requires
                    i < count,
                    count == v@.len() / 20,
                    v@.len() % 20 == 0,
                    v@.len() == 20 * (v@.len() / 20) + v@.len() % 20,
            ;
            let base = 20 * i;
            let mut h = [0u8; 20];
            let mut j: usize = 0;
            while j < 20
                invariant
                    j <= 20,
                    base + 20 <= v@.len(),
                    v.len() == v@.len(),
                    forall|k: int| 0 <= k < j ==> h@[k] == v@[base + k],
                decreases 20 - j,
            {
                h[j] = v[base + j];
                j = j + 1;
            }
            out.push(h);
            proof {
                assert(h@ =~= v@.subrange(20 * i, 20 * i + 20));
                assert(hash_views(out@) =~= hash_chunks(v@).take(i + 1));
            }
            i = i + 1;
        }
        assert(hash_chunks(v@).take(count as int) =~= hash_chunks(v@));
        Some(Hashes(out))
    }

    /// The `pieces` byte string of these hashes.
    pub fn to_bytes(&self) -> (r: Vec<u8>)
        ensures
            r@ == joined_hashes(hash_views(self.0@)),
            r@.len() == 20 * self.0@.len(),
    {
        let mut out: Vec<u8> = Vec::new();
        let mut i: usize = 0;
        while i < self.0.len()
            invariant
                i <= self.0@.len(),
                out@ == joined_hashes(hash_views(self.0@.take(i as int))),
                out@.len() == 20 * i,
            decreases self.0@.len() - i,
        {
            let ghost before = out@;
            let mut j: usize = 0;
            while j < 20
                invariant
                    j <= 20,
                    i < self.0@.len(),
                    out@ == before + self.0@[i as int]@.take(j as int),
                decreases 20 - j,
            {
                out.push(self.0[i][j]);
                assert(out@ =~= before + self.0@[i as int]@.take(j + 1));
                j = j + 1;
            }
            proof {
                assert(self.0@[i as int]@.take(20) =~= self.0@[i as int]@);
                assert(self.0@.take(i + 1).drop_last() =~= self.0@.take(i as int));
                assert(hash_views(self.0@.take(i + 1)).drop_last() =~= hash_views(self.0@.take(i as int)));
            }
            i = i + 1;
        }
        assert(self.0@.take(self.0@.len() as int) =~= self.0@);
        out
    }
}

/// Joining hashes and splitting the result gives the same hashes back.
pub proof fn lemma_hash_bytes_round_trip(h: Seq<Seq<u8>>)
    requires
        forall|i: int| 0 <= i < h.len() ==> (#[trigger] h[i]).len() == 20,
    ensures
        joined_hashes(h).len() == 20 * h.len(),
        hash_chunks(joined_hashes(h)) == h,
    decreases h.len(),
{
    if h.len() > 0 {
        let rest = h.drop_last();
        lemma_hash_bytes_round_trip(rest);
        let j = joined_hashes(h);
        let jr = joined_hashes(rest);
        assert(j == jr + h.last());
        assert forall|i: int| 0 <= i < h.len() implies #[trigger] hash_chunks(j)[i] == h[i] by {
            if i < rest.len() {
                assert(hash_chunks(jr)[i] == rest[i]);
                assert(j.subrange(20 * i, 20 * i + 20) =~= jr.subrange(20 * i, 20 * i + 20));
            } else {
                assert(j.subrange(20 * i, 20 * i + 20) =~= h.last());
            }
        }
        assert(hash_chunks(j) =~= h);
    } else {
        assert(hash_chunks(joined_hashes(h)) =~= h);
    }
}

/// Adds a tracker unless it is empty or already present.
fn push_tracker(trackers: &mut Vec<String>, tracker: String)
    ensures
        texts(final(trackers)@) == tracker_step(texts(old(trackers)@), tracker@),
{
    if tracker.unicode_len() == 0 {
        return;
    }
    let mut i: usize = 0;
    while i < trackers.len()
        invariant
            i <= trackers.len(),
            trackers@ == old(trackers)@,
            forall|j: int| 0 <= j < i ==> trackers@[j]@ != tracker@,
        decreases trackers.len() - i,
    {
        if trackers[i] == tracker {
            assert(texts(trackers@)[i as int] == tracker@);
            return;
        }
        i = i + 1;
    }
    assert(!texts(trackers@).contains(tracker@)) by {
        if texts(trackers@).contains(tracker@) {
            let k = choose|k: int| 0 <= k < texts(trackers@).len() && texts(trackers@)[k] == tracker@;
            assert(trackers@[k]@ == tracker@);
        }
    }
    trackers.push(tracker);
    assert(texts(trackers@) =~= texts(old(trackers)@).push(tracker@));
}

impl Torrent {
    /// The trackers of this torrent: `announce` followed by every tier of
    /// `announce-list`, skipping empty entries and repeats.
    pub fn trackers(&self) -> (r: Vec<String>)
        ensures
            texts(r@) == unique_trackers(tracker_candidates(*self)),
    {
        let mut trackers: Vec<String> = Vec::new();
        push_tracker(&mut trackers, self.announce.clone());
        let ghost head = seq![self.announce@];
        assert(unique_trackers(head) == tracker_step(unique_trackers(head.drop_last()), head.last()));
        assert(head.drop_last() =~= Seq::<Seq<char>>::empty());
        let ghost tiers = tier_texts(self.announce_list@);
        let mut i: usize = 0;
        while i < self.announce_list.len()
            invariant
                i <= self.announce_list.len(),
                tiers == tier_texts(self.announce_list@),
                head == seq![self.announce@],
                texts(trackers@) == unique_trackers(head + concat_tiers(tiers.take(i as int))),
            decreases self.announce_list.len() - i,
        {
            let tier = &self.announce_list[i];
            let ghost before = head + concat_tiers(tiers.take(i as int));
            let mut j: usize = 0;
            while j < tier.len()
                invariant
                    j <= tier.len(),
                    *tier == self.announce_list@[i as int],
                    texts(trackers@) == unique_trackers(before + texts(tier@).take(j as int)),
                decreases tier.len() - j,
            {
                let ghost prev = before + texts(tier@).take(j as int);
                push_tracker(&mut trackers, tier[j].clone());
                assert(before + texts(tier@).take(j + 1) =~= prev.push(tier@[j as int]@));
                assert((prev.push(tier@[j as int]@)).drop_last() =~= prev);
                j = j + 1;
            }
            assert(texts(tier@).take(tier.len() as int) =~= texts(tier@));
            assert(tiers.take(i + 1).drop_last() =~= tiers.take(i as int));
            assert(tiers.take(i + 1).last() == texts(tier@));
            assert(head + concat_tiers(tiers.take(i + 1)) =~= before + texts(tier@));
            i = i + 1;
        }
        assert(tiers.take(self.announce_list.len() as int) =~= tiers);
        trackers
    }
}

/// Tracker collection keeps exactly the non-empty candidates, each once, in
/// order of first occurrence: no tracker repeats, no tracker is empty, every
/// collected tracker is a candidate, and every non-empty candidate is collected.
pub proof fn lemma_unique_trackers(candidates: Seq<Seq<char>>)
    ensures
        unique_trackers(candidates).no_duplicates(),
        forall|k: int| 0 <= k < unique_trackers(candidates).len() ==> {
            &&& (#[trigger] unique_trackers(candidates)[k]).len() > 0
            &&& candidates.contains(unique_trackers(candidates)[k])
        },
        forall|t: Seq<char>| #[trigger] candidates.contains(t) && t.len() > 0 ==> unique_trackers(
            candidates,
        ).contains(t),
    decreases candidates.len(),
{
    if candidates.len() > 0 {
        let rest = candidates.drop_last();
        lemma_unique_trackers(rest);
        let acc = unique_trackers(rest);
        let t = candidates.last();
        assert forall|k: int| 0 <= k < unique_trackers(candidates).len() implies {
            &&& (#[trigger] unique_trackers(candidates)[k]).len() > 0
            &&& candidates.contains(unique_trackers(candidates)[k])
        } by {
            if k < acc.len() {
                let x = acc[k];
                assert(rest.contains(x));
                let w = choose|w: int| 0 <= w < rest.len() && rest[w] == x;
                assert(candidates[w] == x);
            } else {
                assert(candidates[candidates.len() - 1] == t);
            }
        }
        assert forall|x: Seq<char>| #[trigger] candidates.contains(x) && x.len() > 0 implies unique_trackers(
            candidates,
        ).contains(x) by {
            let w = choose|w: int| 0 <= w < candidates.len() && candidates[w] == x;
            if w < rest.len() {
                assert(rest[w] == x);
                assert(rest.contains(x));
                let v = choose|v: int| 0 <= v < acc.len() && acc[v] == x;
                assert(unique_trackers(candidates)[v] == x);
            } else {
                if !acc.contains(t) {
                    assert(unique_trackers(candidates)[acc.len() as int] == x);
                }
            }
        }
    }
}

// ---------------------------------------------------------------- lengths

/// The total length of a list of files.
pub open spec fn files_total(files: Seq<File>) -> nat
    decreases files.len(),
{
    if files.len() == 0 {
        0
    } else {
        files_total(files.drop_last()) + files.last().length as nat
    }
}

/// The content length an `Info` describes.
pub open spec fn content_length(info: Info) -> nat {
    match info.keys {
        Keys::SingleFile { length } => length as nat,
        Keys::MultiFile { files } => files_total(files@),
    }
}

proof fn lemma_files_total_prefix(files: Seq<File>, i: int)
    requires
        0 <= i <= files.len(),
    ensures
        files_total(files.take(i)) <= files_total(files),
    decreases files.len() - i,
{
    if i < files.len() {
        lemma_files_total_prefix(files, i + 1);
        assert(files.take(i + 1).drop_last() =~= files.take(i));
    } else {
        assert(files.take(i) =~= files);
    }
}

impl TorrentInfo {
    /// The total content length described by `info`.
    pub fn calculate_length(info: &Info) -> (r: i64)
        requires
            info.keys is MultiFile ==> content_length(*info) <= i64::MAX,
        ensures
            info.keys matches Keys::SingleFile { length } ==> r == length as i64,
            info.keys is MultiFile ==> r == content_length(*info),
    {
        match &info.keys {
            Keys::SingleFile { length } => *length as i64,
            Keys::MultiFile { files } => {
                let mut total: i64 = 0;
                let mut i: usize = 0;
                while i < files.len()
                    invariant
                        i <= files.len(),
                        files_total(files@) <= i64::MAX,
                        total == files_total(files@.take(i as int)),
                    decreases files.len() - i,
                {
                    proof {
                        assert(files@.take(i + 1).drop_last() =~= files@.take(i as int));
                        lemma_files_total_prefix(files@, i + 1);
                    }
                    total = total + files[i].length as i64;
                    i = i + 1;
                }
                assert(files@.take(files.len() as int) =~= files@);
                total
            },
        }
    }
}

// ---------------------------------------------------------------- layout

/// Why a path component is unsafe, if it is: empty, `.` and `..` are
/// unsafe, and so is a component holding a `/` or `\\` separator.
pub open spec fn component_error(c: Seq<char>) -> Option<Seq<char>> {
    if c.len() == 0 || c == "."@ || c == ".."@ {
        Some("Unsafe torrent path component"@)
    } else if c.contains('/') || c.contains('\\') {
        Some("Torrent path component contains a separator"@)
    } else {
        None
    }
}

/// The first unsafe component of a path, in order.
pub open spec fn first_component_error(segments: Seq<Seq<char>>) -> Option<Seq<char>>
    decreases segments.len(),
{
    if segments.len() == 0 {
        None
    } else {
        match first_component_error(segments.drop_last()) {
            Some(m) => Some(m),
            None => component_error(segments.last()),
        }
    }
}

/// Why a multi-file path is rejected, if it is.
pub open spec fn path_error(segments: Seq<Seq<char>>) -> Option<Seq<char>> {
    if segments.len() == 0 {
        Some("Multi-file path is empty"@)
    } else {
        first_component_error(segments)
    }
}

/// The first rejected path among the files, in order.
pub open spec fn first_file_error(files: Seq<File>) -> Option<Seq<char>>
    decreases files.len(),
{
    if files.len() == 0 {
        None
    } else {
        match first_file_error(files.drop_last()) {
            Some(m) => Some(m),
            None => path_error(texts(files.last().path@)),
        }
    }
}

/// True when `r` is the `InvalidResponseFormat` error with message `m`.
pub open spec fn is_format_error<T>(r: Result<T>, m: Seq<char>) -> bool {
    r matches Err(TorrentError::InvalidResponseFormat(t)) && t@ == m
}

/// Checks that a path component names an entry inside its directory.
///
/// Once the empty name, `.`, `..` and names holding a separator are refused,
/// what remains is a single normal path component.
pub fn validate_path_component(component: &str) -> (r: Result<String>)
    ensures
        match component_error(component@) {
            Some(m) => is_format_error(r, m),
            None => r matches Ok(s) && s@ == component@,
        },
{
    proof {
        reveal_strlit(".");
        reveal_strlit("..");
    }
    if component.unicode_len() == 0 || same_text(component, ".") || same_text(component, "..") {
        return Err(TorrentError::InvalidResponseFormat(string_of("Unsafe torrent path component")));
    }
    if contains_char(component, '/') || contains_char(component, '\\') {
        return Err(
            TorrentError::InvalidResponseFormat(
                string_of("Torrent path component contains a separator"),
            ),
        );
    }
    Ok(string_of(component))
}

/// Checks every segment of a multi-file path and returns the segments.
pub fn validate_relative_path(segments: &[String]) -> (r: Result<Vec<String>>)
    ensures
        match path_error(texts(segments@)) {
            Some(m) => is_format_error(r, m),
            None => r matches Ok(p) && texts(p@) == texts(segments@),
        },
{
    if segments.len() == 0 {
        return Err(TorrentError::InvalidResponseFormat(string_of("Multi-file path is empty")));
    }
    let mut path: Vec<String> = Vec::new();
    let mut i: usize = 0;
    while i < segments.len()
        invariant
            i <= segments.len(),
            first_component_error(texts(segments@).take(i as int)) is None,
            texts(path@) == texts(segments@).take(i as int),
        decreases segments.len() - i,
    {
        proof {
            assert(texts(segments@).take(i + 1).drop_last() =~= texts(segments@).take(i as int));
        }
        let part = match validate_path_component(segments[i].as_str()) {
            Ok(p) => p,
            Err(e) => {
                proof {
                    lemma_first_error_extends(texts(segments@), i as int + 1);
                }
                return Err(e);
            },
        };
        path.push(part);
        assert(texts(path@) =~= texts(segments@).take(i + 1));
        i = i + 1;
    }
    assert(texts(segments@).take(segments.len() as int) =~= texts(segments@));
    Ok(path)
}

/// An error in a prefix of the segments is the first error of all of them.
proof fn lemma_first_error_extends(segments: Seq<Seq<char>>, i: int)
    requires
        0 <= i <= segments.len(),
        first_component_error(segments.take(i)) is Some,
    ensures
        first_component_error(segments) == first_component_error(segments.take(i)),
    decreases segments.len() - i,
{
    if i < segments.len() {
        assert(segments.take(i + 1).drop_last() =~= segments.take(i));
        lemma_first_error_extends(segments, i + 1);
    } else {
        assert(segments.take(i) =~= segments);
    }
}

/// An error in a prefix of the files is the first error of all of them.
proof fn lemma_first_file_error_extends(files: Seq<File>, i: int)
    requires
        0 <= i <= files.len(),
        first_file_error(files.take(i)) is Some,
    ensures
        first_file_error(files) == first_file_error(files.take(i)),
    decreases files.len() - i,
{
    if i < files.len() {
        assert(files.take(i + 1).drop_last() =~= files.take(i));
        lemma_first_file_error_extends(files, i + 1);
    } else {
        assert(files.take(i) =~= files);
    }
}

/// The layout entries of the first `n` files: each keeps its path and length
/// and starts where the files before it end.
pub open spec fn layout_matches(layout: Seq<TorrentLayoutFile>, files: Seq<File>) -> bool {
    &&& layout.len() == files.len()
    &&& forall|k: int|
        0 <= k < files.len() ==> {
            &&& texts((#[trigger] layout[k]).relative_path@) == texts(files[k].path@)
            &&& layout[k].length == files[k].length
            &&& layout[k].offset == files_total(files.take(k))
        }
}

/// A layout entry as plain values: path parts, length, offset.
pub open spec fn layout_file_model(f: TorrentLayoutFile) -> (Seq<Seq<char>>, usize, usize) {
    (texts(f.relative_path@), f.length, f.offset)
}

/// The layout entries of a list as plain values.
pub open spec fn layout_files_model(fs: Seq<TorrentLayoutFile>) -> Seq<(Seq<Seq<char>>, usize, usize)> {
    fs.map_values(|f: TorrentLayoutFile| layout_file_model(f))
}

/// Copies a list of layout entries.
pub fn clone_layout_files(fs: &Vec<TorrentLayoutFile>) -> (r: Vec<TorrentLayoutFile>)
    ensures
        layout_files_model(r@) == layout_files_model(fs@),
{
    let mut out: Vec<TorrentLayoutFile> = Vec::new();
    let mut i: usize = 0;
    while i < fs.len()
        invariant
            i <= fs@.len(),
            out@.len() == i,
            forall|j: int| 0 <= j < i ==> layout_file_model(#[trigger] out@[j]) == layout_file_model(fs@[j]),
        decreases fs@.len() - i,
    {
        out.push(
            TorrentLayoutFile {
                relative_path: clone_strings(&fs[i].relative_path),
                length: fs[i].length,
                offset: fs[i].offset,
            },
        );
        i = i + 1;
    }
    assert(layout_files_model(out@) =~= layout_files_model(fs@));
    out
}

/// Why the layout of `info` cannot be built, if it cannot: an unsafe root
/// name, or else the first unsafe file path.
pub open spec fn layout_error(info: Info) -> Option<Seq<char>> {
    match info.keys {
        Keys::SingleFile { .. } => None,
        Keys::MultiFile { files } => match component_error(info.name@) {
            Some(m) => Some(m),
            None => first_file_error(files@),
        },
    }
}

/// True when `l` is the layout of `info`.
pub open spec fn layout_fits(info: Info, l: TorrentLayout) -> bool {
    match info.keys {
        Keys::SingleFile { length } => l matches TorrentLayout::SingleFile {
            suggested_name,
            length: x,
        } && suggested_name@ == info.name@ && x == length,
        Keys::MultiFile { files } => l matches TorrentLayout::MultiFile { root_name, files: lf }
            && root_name@ == info.name@ && layout_matches(lf@, files@),
    }
}

impl TorrentInfo {
    /// Builds the output layout of `info`.  A single file keeps the torrent
    /// name; a multi-file torrent puts every file below a root directory named
    /// after the torrent, at the offset where its bytes start in the content.
    /// Unsafe names are refused.
    pub fn build_layout(info: &Info) -> (r: Result<TorrentLayout>)
        requires
            content_length(*info) <= usize::MAX,
        ensures
            match layout_error(*info) {
                Some(m) => is_format_error(r, m),
                None => r matches Ok(l) && layout_fits(*info, l),
            },
    {
        match &info.keys {
            Keys::SingleFile { length } => Ok(
                TorrentLayout::SingleFile { suggested_name: info.name.clone(), length: *length },
            ),
            Keys::MultiFile { files } => {
                let root_name = validate_path_component(info.name.as_str())?;
                let mut offset: usize = 0;
                let mut layout_files: Vec<TorrentLayoutFile> = Vec::new();
                let mut i: usize = 0;
                while i < files.len()
                    invariant
                        i <= files.len(),
                        info.keys == (Keys::MultiFile { files: *files }),
                        component_error(info.name@) is None,
                        files_total(files@) <= usize::MAX,
                        first_file_error(files@.take(i as int)) is None,
                        offset == files_total(files@.take(i as int)),
                        layout_matches(layout_files@, files@.take(i as int)),
                    decreases files.len() - i,
                {
                    proof {
                        assert(files@.take(i + 1).drop_last() =~= files@.take(i as int));
                        lemma_files_total_prefix(files@, i + 1);
                    }
                    let relative_path = match validate_relative_path(files[i].path.as_slice()) {
                        Ok(p) => p,
                        Err(e) => {
                            proof {
                                lemma_first_file_error_extends(files@, i as int + 1);
                            }
                            return Err(e);
                        },
                    };
                    let ghost before = layout_files@;
                    layout_files.push(
                        TorrentLayoutFile { relative_path, length: files[i].length, offset },
                    );
                    offset = offset + files[i].length;
                    proof {
                        let fs = files@.take(i + 1);
                        assert forall|k: int| 0 <= k < fs.len() implies {
                            &&& texts((#[trigger] layout_files@[k]).relative_path@) == texts(
                                fs[k].path@,
                            )
                            &&& layout_files@[k].length == fs[k].length
                            &&& layout_files@[k].offset == files_total(fs.take(k))
                        } by {
                            if k < i {
                                assert(fs.take(k) =~= files@.take(i as int).take(k));
                            } else {
                                assert(fs.take(k) =~= files@.take(i as int));
                            }
                        }
                    }
                    i = i + 1;
                }
                assert(files@.take(files.len() as int) =~= files@);
                Ok(TorrentLayout::MultiFile { root_name, files: layout_files })
            },
        }
    }

    /// The download description a magnet link gives before its metadata is
    /// known: its tracker (if any), info hash and display name (or an empty
    /// name); length, piece length, pieces and layout are unknown.
    pub fn from_magnet(magnet: &Magnet) -> (r: Result<Self>)
        ensures
            r matches Ok(t) && {
                &&& texts(t.trackers@) == match opt_text(magnet.tracker_url) {
                    Some(u) => seq![u],
                    None => Seq::<Seq<char>>::empty(),
                }
                &&& t.info_hash@ == magnet.info_hash@
                &&& t.length == 0
                &&& t.name@ == match opt_text(magnet.display_name) {
                    Some(n) => n,
                    None => Seq::<char>::empty(),
                }
                &&& t.piece_length == 0
                &&& t.pieces@.len() == 0
                &&& t.layout is None
            },
    {
        let mut trackers: Vec<String> = Vec::new();
        if let Some(u) = &magnet.tracker_url {
            trackers.push(u.clone());
        }
        assert(texts(trackers@) =~= match opt_text(magnet.tracker_url) {
            Some(u) => seq![u],
            None => Seq::<Seq<char>>::empty(),
        });
        let name = match &magnet.display_name {
            Some(n) => n.clone(),
            None => String::new(),
        };
        Ok(
            TorrentInfo {
                trackers,
                info_hash: magnet.info_hash.clone(),
                length: 0,
                name,
                piece_length: 0,
                pieces: Vec::new(),
                layout: None,
            },
        )
    }
}

// ---------------------------------------------------------------- pieces

/// The expected hash of a piece, when the index names a piece.
pub fn get_piece_hash(info: &TorrentInfo, piece_index: usize) -> (r: Result<[u8; 20]>)
    ensures
        piece_index < info.pieces@.len() ==> r == Ok::<[u8; 20], TorrentError>(
            info.pieces@[piece_index as int],
        ),
        piece_index >= info.pieces@.len() ==> is_format_error(r, "Invalid piece index"@),
{
    if piece_index < info.pieces.len() {
        Ok(info.pieces[piece_index])
    } else {
        Err(TorrentError::InvalidResponseFormat(string_of("Invalid piece index")))
    }
}

/// True when `piece_data` hashes to the expected hash of that piece.
pub fn verify_piece(info: &TorrentInfo, piece_index: usize, piece_data: &[u8]) -> (r: bool)
    ensures
        r == (piece_index < info.pieces@.len() && sha1_digest(piece_data@)
            == info.pieces@[piece_index as int]@),
{
    if let Ok(expected_hash) = get_piece_hash(info, piece_index) {
        let actual_hash = sha1(piece_data);
        let mut i: usize = 0;
        while i < 20
            invariant
                i <= 20,
                piece_index < info.pieces@.len(),
                expected_hash@ == info.pieces@[piece_index as int]@,
                actual_hash@ == sha1_digest(piece_data@),
                forall|j: int| 0 <= j < i ==> expected_hash@[j] == actual_hash@[j],
            decreases 20 - i,
        {
            if expected_hash[i] != actual_hash[i] {
                assert(expected_hash@[i as int] != actual_hash@[i as int]);
                return false;
            }
            i = i + 1;
        }
        assert(expected_hash@ =~= actual_hash@);
        true
    } else {
        false
    }
}

// ---------------------------------------------------------------- info hash

/// A text as a bencoded byte string of its UTF-8 bytes.
pub open spec fn text_model(t: Seq<char>) -> BencodeModel {
    BencodeModel::Bytes(encode_utf8(t))
}

/// The piece hashes one after the other.
pub open spec fn concat_hashes(h: Seq<[u8; 20]>) -> Seq<u8>
    decreases h.len(),
{
    if h.len() == 0 {
        Seq::empty()
    } else {
        concat_hashes(h.drop_last()) + h.last()@
    }
}

/// The bencoded form of one file entry: `length` and `path`.
pub open spec fn file_model(f: File) -> BencodeModel {
    BencodeModel::Dict(
        Map::empty().insert(encode_utf8("length"@), BencodeModel::Int(f.length as i64)).insert(
            encode_utf8("path"@),
            BencodeModel::List(texts(f.path@).map_values(|t: Seq<char>| text_model(t))),
        ),
    )
}

/// The bencoded form of an `info` dictionary: `name`, `piece length`,
/// `pieces` (the hashes concatenated), and `length` for a single file or
/// `files` for several.
pub open spec fn info_model(info: Info) -> BencodeModel {
    let base = Map::empty().insert(encode_utf8("name"@), text_model(info.name@)).insert(
        encode_utf8("piece length"@),
        BencodeModel::Int(info.piece_length as i64),
    ).insert(encode_utf8("pieces"@), BencodeModel::Bytes(concat_hashes(info.pieces.0@)));
    match info.keys {
        Keys::SingleFile { length } => BencodeModel::Dict(
            base.insert(encode_utf8("length"@), BencodeModel::Int(length as i64)),
        ),
        Keys::MultiFile { files } => BencodeModel::Dict(
            base.insert(
                encode_utf8("files"@),
                BencodeModel::List(files@.map_values(|f: File| file_model(f))),
            ),
        ),
    }
}

/// The entries of a dictionary model (empty for other models).
pub open spec fn dict_entries(m: BencodeModel) -> Map<Seq<u8>, BencodeModel> {
    match m {
        BencodeModel::Dict(d) => d,
        _ => Map::empty(),
    }
}

/// The concatenated hashes take twenty bytes each, hash `k` at bytes
/// `20 * k .. 20 * k + 20`.
proof fn lemma_concat_hashes_layout(h: Seq<[u8; 20]>)
    ensures
        concat_hashes(h).len() == 20 * h.len(),
        forall|k: int|
            0 <= k < h.len() ==> concat_hashes(h).subrange(20 * k, 20 * k + 20) == (#[trigger] h[k])@,
    decreases h.len(),
{
    if h.len() > 0 {
        let init = h.drop_last();
        lemma_concat_hashes_layout(init);
        let c = concat_hashes(h);
        assert(c == concat_hashes(init) + h.last()@);
        assert forall|k: int| 0 <= k < h.len() implies c.subrange(20 * k, 20 * k + 20) == (
        #[trigger] h[k])@ by {
            if k < h.len() - 1 {
                assert(h[k] == init[k]);
                assert(c.subrange(20 * k, 20 * k + 20) =~= concat_hashes(init).subrange(
                    20 * k,
                    20 * k + 20,
                ));
            } else {
                assert(c.subrange(20 * k, 20 * k + 20) =~= h.last()@);
            }
        }
    }
}

/// The UTF-8 bytes of an ASCII text are its characters, one byte each.
proof fn lemma_ascii_bytes(t: Seq<char>)
    requires
        vstd::utf8::is_ascii_chars(t),
    ensures
        encode_utf8(t) == Seq::new(t.len(), |i: int| t[i] as u8),
{
    vstd::utf8::is_ascii_chars_encode_utf8(t);
    assert(encode_utf8(t) =~= Seq::new(t.len(), |i: int| t[i] as u8));
}

/// The keys of the `info` dictionary and of its file entries differ from
/// one another.
proof fn lemma_info_keys_distinct()
    ensures
        encode_utf8("name"@) != encode_utf8("piece length"@),
        encode_utf8("name"@) != encode_utf8("pieces"@),
        encode_utf8("name"@) != encode_utf8("length"@),
        encode_utf8("name"@) != encode_utf8("files"@),
        encode_utf8("piece length"@) != encode_utf8("pieces"@),
        encode_utf8("piece length"@) != encode_utf8("length"@),
        encode_utf8("piece length"@) != encode_utf8("files"@),
        encode_utf8("pieces"@) != encode_utf8("length"@),
        encode_utf8("pieces"@) != encode_utf8("files"@),
        encode_utf8("length"@) != encode_utf8("path"@),
{
    reveal_strlit("name");
    reveal_strlit("piece length");
    reveal_strlit("pieces");
    reveal_strlit("length");
    reveal_strlit("files");
    reveal_strlit("path");
    lemma_ascii_bytes("name"@);
    lemma_ascii_bytes("piece length"@);
    lemma_ascii_bytes("pieces"@);
    lemma_ascii_bytes("length"@);
    lemma_ascii_bytes("files"@);
    lemma_ascii_bytes("path"@);
    assert(encode_utf8("pieces"@)[0] != encode_utf8("length"@)[0]);
    assert(encode_utf8("piece length"@).len() != encode_utf8("pieces"@).len());
    assert(encode_utf8("name"@)[0] != encode_utf8("piece length"@)[0]);
    assert(encode_utf8("name"@)[0] != encode_utf8("files"@)[0]);
}

/// The bencoded `info` dictionary has exactly the keys `name`, `piece
/// length`, `pieces` and either `length` or `files`; each entry of `files`
/// is a dictionary with exactly the keys `length` and `path`, its path the
/// list of the UTF-8 bytes of its segments.  `pieces` holds the piece
/// hashes in order, twenty bytes each.  The info hash is the SHA-1 digest of
/// that dictionary's bencoding.
pub proof fn lemma_info_dictionary_layout(info: Info)
    ensures
        info_hash_of(info) == sha1_digest(bencode_encoding(info_model(info))),
        info_model(info) is Dict,
        dict_entries(info_model(info))[encode_utf8("name"@)] == BencodeModel::Bytes(
            encode_utf8(info.name@),
        ),
        dict_entries(info_model(info))[encode_utf8("piece length"@)] == BencodeModel::Int(
            info.piece_length as i64,
        ),
        dict_entries(info_model(info))[encode_utf8("pieces"@)] matches BencodeModel::Bytes(b)
            && b.len() == 20 * info.pieces.0@.len() && forall|k: int|
            0 <= k < info.pieces.0@.len() ==> b.subrange(20 * k, 20 * k + 20)
                == (#[trigger] info.pieces.0@[k])@,
        info.keys matches Keys::SingleFile { length } ==> {
            &&& dict_entries(info_model(info)).dom() == set![
                encode_utf8("name"@),
                encode_utf8("piece length"@),
                encode_utf8("pieces"@),
                encode_utf8("length"@),
            ]
            &&& dict_entries(info_model(info))[encode_utf8("length"@)] == BencodeModel::Int(
                length as i64,
            )
        },
        info.keys matches Keys::MultiFile { files } ==> {
            &&& dict_entries(info_model(info)).dom() == set![
                encode_utf8("name"@),
                encode_utf8("piece length"@),
                encode_utf8("pieces"@),
                encode_utf8("files"@),
            ]
            &&& dict_entries(info_model(info))[encode_utf8("files"@)] matches BencodeModel::List(
                entries,
            )
            &&& entries.len() == files@.len()
            &&& forall|k: int|
                0 <= k < files@.len() ==> {
                    &&& dict_entries(#[trigger] entries[k]).dom() == set![
                        encode_utf8("length"@),
                        encode_utf8("path"@),
                    ]
                    &&& dict_entries(entries[k])[encode_utf8("length"@)] == BencodeModel::Int(
                        files@[k].length as i64,
                    )
                    &&& dict_entries(entries[k])[encode_utf8("path"@)] matches BencodeModel::List(
                        segments,
                    )
                    &&& segments.len() == files@[k].path@.len()
                    &&& forall|m: int|
                        0 <= m < segments.len() ==> #[trigger] segments[m] == BencodeModel::Bytes(
                            encode_utf8(files@[k].path@[m]@),
                        )
                }
        },
{
    lemma_info_keys_distinct();
    lemma_concat_hashes_layout(info.pieces.0@);
    match info.keys {
        Keys::SingleFile { length } => {
            assert(dict_entries(info_model(info)).dom() =~= set![
                encode_utf8("name"@),
                encode_utf8("piece length"@),
                encode_utf8("pieces"@),
                encode_utf8("length"@),
            ]);
        },
        Keys::MultiFile { files } => {
            assert(dict_entries(info_model(info)).dom() =~= set![
                encode_utf8("name"@),
                encode_utf8("piece length"@),
                encode_utf8("pieces"@),
                encode_utf8("files"@),
            ]);
            assert forall|k: int| 0 <= k < files@.len() implies dict_entries(
                file_model(files@[k]),
            ).dom() == set![encode_utf8("length"@), encode_utf8("path"@)] by {
                assert(dict_entries(file_model(files@[k])).dom() =~= set![
                    encode_utf8("length"@),
                    encode_utf8("path"@),
                ]);
            }
        },
    }
}

/// True when every integer of `info` fits a bencode integer (`i64`).
pub open spec fn info_ints_fit(info: Info) -> bool {
    &&& info.piece_length <= i64::MAX
    &&& match info.keys {
        Keys::SingleFile { length } => length <= i64::MAX,
        Keys::MultiFile { files } => forall|k: int|
            0 <= k < files@.len() ==> (#[trigger] files@[k]).length <= i64::MAX,
    }
}

/// The info hash of `info`: the SHA-1 digest of its bencoding.
pub open spec fn info_hash_of(info: Info) -> Seq<u8> {
    sha1_digest(bencode_encoding(info_model(info)))
}

fn text_value(t: &str) -> (r: BencodeValue)
    ensures
        r.model() == text_model(t@),
{
    BencodeValue::Bytes(vstd::slice::slice_to_vec(t.as_bytes()))
}

fn key_bytes(k: &str) -> (r: Vec<u8>)
    ensures
        r@ == encode_utf8(k@),
{
    vstd::slice::slice_to_vec(k.as_bytes())
}

fn file_value(f: &File) -> (r: BencodeValue)
    requires
        f.length <= i64::MAX,
    ensures
        r.model() == file_model(*f),
{
    let mut parts: Vec<BencodeValue> = Vec::new();
    let mut i: usize = 0;
    while i < f.path.len()
        invariant
            i <= f.path.len(),
            list_model(parts@) == texts(f.path@).take(i as int).map_values(
                |t: Seq<char>| text_model(t),
            ),
        decreases f.path.len() - i,
    {
        let v = text_value(f.path[i].as_str());
        proof {
            assert(parts@.push(v).drop_last() =~= parts@);
        }
        parts.push(v);
        assert(list_model(parts@) =~= texts(f.path@).take(i + 1).map_values(
            |t: Seq<char>| text_model(t),
        ));
        i = i + 1;
    }
    assert(texts(f.path@).take(f.path.len() as int) =~= texts(f.path@));
    let mut entries: Vec<(Vec<u8>, BencodeValue)> = Vec::new();
    entries.push((key_bytes("length"), BencodeValue::Int(f.length as i64)));
    entries.push((key_bytes("path"), BencodeValue::List(parts)));
    proof {
        let e = entries@;
        assert(e.drop_last().drop_last() =~= Seq::<(Vec<u8>, BencodeValue)>::empty());
        reveal_with_fuel(dict_model, 3);
        assert(dict_model(e) =~= dict_entries(file_model(*f)));
    }
    BencodeValue::Dict(entries)
}

/// The bencoded `info` dictionary of a torrent.
pub fn info_value(info: &Info) -> (r: BencodeValue)
    requires
        info_ints_fit(*info),
    ensures
        r.model() == info_model(*info),
{
    let mut pieces: Vec<u8> = Vec::new();
    let mut i: usize = 0;
    while i < info.pieces.0.len()
        invariant
            i <= info.pieces.0.len(),
            pieces@ == concat_hashes(info.pieces.0@.take(i as int)),
        decreases info.pieces.0.len() - i,
    {
        let h = info.pieces.0[i];
        let mut j: usize = 0;
        let ghost before = pieces@;
        while j < 20
            invariant
                j <= 20,
                pieces@ == before + h@.take(j as int),
            decreases 20 - j,
        {
            pieces.push(h[j]);
            assert(pieces@ =~= before + h@.take(j + 1));
            j = j + 1;
        }
        assert(info.pieces.0@.take(i + 1).drop_last() =~= info.pieces.0@.take(i as int));
        assert(h@.take(20) =~= h@);
        i = i + 1;
    }
    assert(info.pieces.0@.take(info.pieces.0.len() as int) =~= info.pieces.0@);
    let mut entries: Vec<(Vec<u8>, BencodeValue)> = Vec::new();
    entries.push((key_bytes("name"), text_value(info.name.as_str())));
    entries.push((key_bytes("piece length"), BencodeValue::Int(info.piece_length as i64)));
    entries.push((key_bytes("pieces"), BencodeValue::Bytes(pieces)));
    match &info.keys {
        Keys::SingleFile { length } => {
            entries.push((key_bytes("length"), BencodeValue::Int(*length as i64)));
        },
        Keys::MultiFile { files } => {
            let mut items: Vec<BencodeValue> = Vec::new();
            let mut k: usize = 0;
            while k < files.len()
                invariant
                    k <= files.len(),
                    forall|m: int| 0 <= m < files@.len() ==> (#[trigger] files@[m]).length <= i64::MAX,
                    list_model(items@) == files@.take(k as int).map_values(|f: File| file_model(f)),
                decreases files.len() - k,
            {
                let v = file_value(&files[k]);
                proof {
                    assert(items@.push(v).drop_last() =~= items@);
                }
                items.push(v);
                assert(list_model(items@) =~= files@.take(k + 1).map_values(
                    |f: File| file_model(f),
                ));
                k = k + 1;
            }
            assert(files@.take(files.len() as int) =~= files@);
            entries.push((key_bytes("files"), BencodeValue::List(items)));
        },
    }
    proof {
        let e = entries@;
        assert(e.drop_last().drop_last().drop_last().drop_last() =~= Seq::<
            (Vec<u8>, BencodeValue),
        >::empty());
        reveal_with_fuel(dict_model, 5);
        assert(dict_model(e) =~= dict_entries(info_model(*info)));
    }
    BencodeValue::Dict(entries)
}

/// The info hash of `info`: SHA-1 over its bencoding.
pub fn calculate_info_hash_of(info: &Info) -> (r: [u8; 20])
    requires
        info_ints_fit(*info),
    ensures
        r@ == info_hash_of(*info),
{
    let value = info_value(info);
    let bytes = match encode(&value) {
        Ok(b) => b,
        Err(_) => Vec::new(),
    };
    sha1(bytes.as_slice())
}

impl Torrent {
    /// The info hash of this torrent.
    pub fn info_hash(&self) -> (r: [u8; 20])
        requires
            info_ints_fit(self.info),
        ensures
            r@ == info_hash_of(self.info),
    {
        calculate_info_hash_of(&self.info)
    }
}

impl TorrentInfo {
    /// The info hash of an `info` dictionary.
    pub fn calculate_info_hash(info: &Info) -> (r: [u8; 20])
        requires
            info_ints_fit(*info),
        ensures
            r@ == info_hash_of(*info),
    {
        calculate_info_hash_of(info)
    }
}

/// True when `t` is the download description of a torrent with these
/// trackers, info hash and `info` dictionary.
pub open spec fn describes_info(t: TorrentInfo, trackers: Seq<Seq<char>>, info: Info, hash: Seq<u8>) -> bool {
    &&& texts(t.trackers@) == trackers
    &&& t.info_hash@ == hex_text(hash)
    &&& t.length == content_length(info)
    &&& t.name@ == info.name@
    &&& t.piece_length == info.piece_length as i64
    &&& t.pieces@ == info.pieces.0@
    &&& t.layout matches Some(l) && layout_fits(info, l)
}

/// The limits within which the metadata of `info` can be processed: its
/// integers fit bencode integers and its total length fits both an `i64`
/// and a `usize`.
pub open spec fn info_within_limits(info: Info) -> bool {
    &&& info_ints_fit(info)
    &&& content_length(info) <= i64::MAX
    &&& content_length(info) <= usize::MAX
}

/// Checks that the metadata of `info` can be processed: its integers fit
/// bencode integers and its total length fits both an `i64` and a `usize`.
pub fn info_fits_limits(info: &Info) -> (r: bool)
    ensures
        r == info_within_limits(*info),
{
    let max: u128 = 0x7fff_ffff_ffff_ffff;
    if info.piece_length as u128 > max {
        return false;
    }
    match &info.keys {
        Keys::SingleFile { length } => (*length as u128) <= max,
        Keys::MultiFile { files } => {
            let mut total: u128 = 0;
            let mut i: usize = 0;
            while i < files.len()
                invariant
                    i <= files@.len(),
                    max == 0x7fff_ffff_ffff_ffff,
                    info.keys == (Keys::MultiFile { files: *files }),
                    info.piece_length <= i64::MAX,
                    total == files_total(files@.take(i as int)),
                    total <= i * 0x1_0000_0000_0000_0000,
                    forall|k: int| 0 <= k < i ==> (#[trigger] files@[k]).length <= i64::MAX,
                decreases files@.len() - i,
            {
                assert(files@.take(i + 1).drop_last() =~= files@.take(i as int));
                if files[i].length as u128 > max {
                    return false;
                }
                total = total + files[i].length as u128;
                i = i + 1;
            }
            assert(files@.take(files@.len() as int) =~= files@);
            total <= max && total <= usize::MAX as u128
        },
    }
}

fn copy_hashes(v: &Vec<[u8; 20]>) -> (r: Vec<[u8; 20]>)
    ensures
        r@ == v@,
{
    let mut out: Vec<[u8; 20]> = Vec::new();
    let mut i: usize = 0;
    while i < v.len()
        invariant
            i <= v.len(),
            out@ == v@.take(i as int),
        decreases v.len() - i,
    {
        out.push(v[i]);
        assert(out@ =~= v@.take(i + 1));
        i = i + 1;
    }
    assert(v@.take(v.len() as int) =~= v@);
    out
}

impl TorrentInfo {
    /// The download description of a decoded torrent file: its trackers, hex
    /// info hash, total length, name, piece length, piece hashes and layout.
    /// Fails only when the layout is refused.
    pub fn from_torrent(torrent: &Torrent) -> (r: Result<TorrentInfo>)
        requires
            info_within_limits(torrent.info),
        ensures
            match layout_error(torrent.info) {
                Some(m) => is_format_error(r, m),
                None => r matches Ok(t) && describes_info(
                    t,
                    unique_trackers(tracker_candidates(*torrent)),
                    torrent.info,
                    info_hash_of(torrent.info),
                ),
            },
    {
        let info_hash = torrent.info_hash();
        let length = TorrentInfo::calculate_length(&torrent.info);
        let layout = TorrentInfo::build_layout(&torrent.info)?;
        Ok(
            TorrentInfo {
                trackers: torrent.trackers(),
                info_hash: hex_encode(&info_hash),
                length,
                name: torrent.info.name.clone(),
                piece_length: torrent.info.piece_length as i64,
                pieces: copy_hashes(&torrent.info.pieces.0),
                layout: Some(layout),
            },
        )
    }

    /// Checks metadata received from a peer against the expected hex info
    /// hash and builds its download description (without trackers).  Fails
    /// with `InvalidInfoHash` when the hashes differ, else when the layout is
    /// refused.
    pub fn validate_info(info: Info, expected_info_hash: &str) -> (r: Result<Self>)
        requires
            info_within_limits(info),
        ensures
            hex_text(info_hash_of(info)) != expected_info_hash@ ==> (r matches Err(e)
                && e is InvalidInfoHash),
            hex_text(info_hash_of(info)) == expected_info_hash@ ==> match layout_error(info) {
                Some(m) => is_format_error(r, m),
                None => r matches Ok(t) && describes_info(
                    t,
                    Seq::empty(),
                    info,
                    info_hash_of(info),
                ),
            },
    {
        let calculated_info_hash = hex_encode(&TorrentInfo::calculate_info_hash(&info));
        if !same_text(calculated_info_hash.as_str(), expected_info_hash) {
            return Err(TorrentError::InvalidInfoHash);
        }
        let layout = TorrentInfo::build_layout(&info)?;
        let length = TorrentInfo::calculate_length(&info);
        let name = info.name.clone();
        let piece_length = info.piece_length as i64;
        let trackers: Vec<String> = Vec::new();
        assert(texts(trackers@) =~= Seq::<Seq<char>>::empty());
        Ok(
            TorrentInfo {
                trackers,
                info_hash: calculated_info_hash,
                length,
                name,
                piece_length,
                pieces: info.pieces.0,
                layout: Some(layout),
            },
        )
    }
}

} // verus!
