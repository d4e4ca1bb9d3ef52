//! Decisions of a download: which pieces to fetch first, which peers to ask
//! and in what order, what to remember of each peer, how a piece is
//! requested block by block, and when a failed piece is tried again.

use vstd::prelude::*;
use rand::seq::SliceRandom;
use std::collections::{HashMap, HashSet, VecDeque};
use crate::bytes::concat_chunks;
use crate::error::{Result, TorrentError};
use crate::hashing::sha1_digest;
use crate::storage::ResumeState;
use crate::text::{decimal, push_decimal, push_str, string_of};
use crate::torrent::{verify_piece, TorrentInfo};
use crate::tracker::PeerAddr;

verus! {

broadcast use vstd::std_specs::hash::group_hash_axioms;

/// How many peers are tried for one piece.
pub const MAX_RETRIES: u32 = 5;

/// How many pieces are downloaded at once.
pub const WORKER_COUNT: usize = 10;

/// The pause between two attempts, in milliseconds.
pub const RETRY_DELAY_MS: u64 = 2000;

/// How many times a piece that failed on every peer goes back in the queue.
pub const PIECE_REQUEUE_LIMIT: u8 = 1;

/// How many retry delays a timed-out peer is left alone.
pub const COOLDOWN_ATTEMPTS: u64 = 2;

/// The size of one block request.
pub const BLOCK_SIZE: usize = 16384;

/// How long one block request may take, in seconds.
pub const REQUEST_TIMEOUT_SECS: u64 = 10;

/// How many times one block is requested before the piece fails.
pub const MAX_BLOCK_RETRIES: usize = 3;

/// A piece waiting to be downloaded, with the number of times it may still
/// go back in the queue.
#[derive(Debug, Clone, Copy, PartialEq, Eq, Structural)]
pub struct PieceTask {
    pub piece_index: usize,
    pub retries_left: u8,
}

/// Why an attempt at a peer failed.
#[derive(Debug, Clone, Copy, PartialEq, Eq, Structural)]
pub enum PeerFailureKind {
    Generic,
    Timeout,
    MissingPiece,
    Verification,
}

/// What is remembered of a peer.  Times are milliseconds on the caller's
/// monotonic clock.
#[derive(Debug)]
pub struct PeerHealth {
    pub successes: usize,
    pub failures: usize,
    pub timeout_streak: usize,
    pub cooldown_until: Option<u64>,
    pub unavailable_pieces: HashSet<usize>,
    pub known_pieces: Option<Vec<bool>>,
    pub last_error_kind: Option<PeerFailureKind>,
}

/// The remembered state of a peer as plain values: successes, failures,
/// timeout streak, end of cooldown, pieces it lacks, pieces it advertised,
/// last failure.
pub type HealthModel = (nat, nat, nat, Option<u64>, Set<usize>, Option<Seq<bool>>, Option<PeerFailureKind>);

/// The state of a peer never seen before.
pub open spec fn fresh_model() -> HealthModel {
    (0, 0, 0, None, Set::empty(), None, None)
}

/// The plain values of a peer's state.
pub open spec fn health_model(h: PeerHealth) -> HealthModel {
    (
        h.successes as nat,
        h.failures as nat,
        h.timeout_streak as nat,
        h.cooldown_until,
        h.unavailable_pieces@,
        match h.known_pieces {
            Some(v) => Some(v@),
            None => None,
        },
        h.last_error_kind,
    )
}

/// The state remembered under `key`, or that of a fresh peer.
pub open spec fn entry_model(m: Map<u64, PeerHealth>, key: u64) -> HealthModel {
    if m.contains_key(key) {
        health_model(m[key])
    } else {
        fresh_model()
    }
}

impl PeerHealth {
    /// The state of a peer never seen before.
    pub fn fresh() -> (r: Self)
        ensures
            health_model(r) == fresh_model(),
    {
        PeerHealth {
            successes: 0,
            failures: 0,
            timeout_streak: 0,
            cooldown_until: None,
            unavailable_pieces: HashSet::new(),
            known_pieces: None,
            last_error_kind: None,
        }
    }
}

impl Default for PeerHealth {
    fn default() -> (r: Self)
        ensures
            health_model(r) == fresh_model(),
    {
        PeerHealth::fresh()
    }
}

/// The key under which a peer is remembered: its address bytes and port
/// read as one big-endian number.
pub open spec fn peer_key_of(p: PeerAddr) -> u64 {
    ((((p.ip@[0] as int * 256 + p.ip@[1] as int) * 256 + p.ip@[2] as int) * 256 + p.ip@[3] as int)
        * 65536 + p.port as int) as u64
}

/// The key under which a peer is remembered.
pub fn peer_key(p: &PeerAddr) -> (r: u64)
    ensures
        r == peer_key_of(*p),
{
    let a: u64 = p.ip[0] as u64;
    let b: u64 = p.ip[1] as u64;
    let c: u64 = p.ip[2] as u64;
    let d: u64 = p.ip[3] as u64;
    let ip: u64 = ((a * 256 + b) * 256 + c) * 256 + d;
    assert(ip < 0x1_0000_0000);
    ip * 65536 + p.port as u64
}

/// Two peers get the same key only when they have the same address and
/// port.
pub proof fn lemma_peer_key_injective(p: PeerAddr, q: PeerAddr)
    requires
        peer_key_of(p) == peer_key_of(q),
    ensures
        p.ip@ == q.ip@,
        p.port == q.port,
{
    let ip_p = ((p.ip@[0] as int * 256 + p.ip@[1] as int) * 256 + p.ip@[2] as int) * 256
        + p.ip@[3] as int;
    let ip_q = ((q.ip@[0] as int * 256 + q.ip@[1] as int) * 256 + q.ip@[2] as int) * 256
        + q.ip@[3] as int;
    assert(0 <= ip_p < 0x1_0000_0000);
    assert(0 <= ip_q < 0x1_0000_0000);
    let kp = ip_p * 65536 + p.port as int;
    let kq = ip_q * 65536 + q.port as int;
    assert(kp == kq);
    vstd::arithmetic::div_mod::lemma_fundamental_div_mod_converse(kp, 65536, ip_p, p.port as int);
    vstd::arithmetic::div_mod::lemma_fundamental_div_mod_converse(kq, 65536, ip_q, q.port as int);
    let hp = (p.ip@[0] as int * 256 + p.ip@[1] as int) * 256 + p.ip@[2] as int;
    let hq = (q.ip@[0] as int * 256 + q.ip@[1] as int) * 256 + q.ip@[2] as int;
    vstd::arithmetic::div_mod::lemma_fundamental_div_mod_converse(ip_p, 256, hp, p.ip@[3] as int);
    vstd::arithmetic::div_mod::lemma_fundamental_div_mod_converse(ip_q, 256, hq, q.ip@[3] as int);
    let gp = p.ip@[0] as int * 256 + p.ip@[1] as int;
    let gq = q.ip@[0] as int * 256 + q.ip@[1] as int;
    vstd::arithmetic::div_mod::lemma_fundamental_div_mod_converse(hp, 256, gp, p.ip@[2] as int);
    vstd::arithmetic::div_mod::lemma_fundamental_div_mod_converse(hq, 256, gq, q.ip@[2] as int);
    vstd::arithmetic::div_mod::lemma_fundamental_div_mod_converse(
        gp,
        256,
        p.ip@[0] as int,
        p.ip@[1] as int,
    );
    vstd::arithmetic::div_mod::lemma_fundamental_div_mod_converse(
        gq,
        256,
        q.ip@[0] as int,
        q.ip@[1] as int,
    );
    assert(p.ip@ =~= q.ip@);
}

/// A table with a fresh entry for every peer of the list.
pub fn initialize_peer_health(peers: &Vec<PeerAddr>) -> (r: HashMap<u64, PeerHealth>)
    ensures
        forall|k: u64| r@.contains_key(k) <==> exists|i: int| 0 <= i < peers@.len() && peer_key_of(#[trigger] peers@[i]) == k,
        forall|k: u64| #[trigger] r@.contains_key(k) ==> health_model(r@[k]) == fresh_model(),
{
    let mut health: HashMap<u64, PeerHealth> = HashMap::new();
    let mut i: usize = 0;
    while i < peers.len()
        invariant
            i <= peers@.len(),
            forall|k: u64| health@.contains_key(k) <==> exists|j: int| 0 <= j < i && peer_key_of(#[trigger] peers@[j]) == k,
            forall|k: u64| #[trigger] health@.contains_key(k) ==> health_model(health@[k]) == fresh_model(),
        decreases peers@.len() - i,
    {
        let key = peer_key(&peers[i]);
        health.insert(key, PeerHealth::fresh());
        proof {
            assert forall|k: u64| health@.contains_key(k) implies exists|j: int| 0 <= j < i + 1 && peer_key_of(#[trigger] peers@[j]) == k by {
                if k == key {
                    assert(peer_key_of(peers@[i as int]) == k);
                }
            }
        }
        i = i + 1;
    }
    health
}

/// Takes the entry of a peer out of the table, or a fresh one.
fn take_entry(health: &mut HashMap<u64, PeerHealth>, key: u64) -> (r: PeerHealth)
    ensures
        final(health)@ == old(health)@.remove(key),
        health_model(r) == entry_model(old(health)@, key),
{
    match health.remove(&key) {
        Some(entry) => entry,
        None => PeerHealth::fresh(),
    }
}

/// The state of a peer after a successful attempt.
pub open spec fn after_success(e: HealthModel) -> HealthModel {
    (e.0 + 1, e.1, 0nat, None, e.4, e.5, None)
}

/// Records a successful attempt: one more success, the timeout streak, the
/// cooldown and the last failure cleared.
pub fn record_peer_success(health: &mut HashMap<u64, PeerHealth>, peer: &PeerAddr)
    requires
        entry_model(old(health)@, peer_key_of(*peer)).0 < usize::MAX,
    ensures
        final(health)@ == old(health)@.insert(peer_key_of(*peer), final(health)@[peer_key_of(*peer)]),
        health_model(final(health)@[peer_key_of(*peer)]) == after_success(
            entry_model(old(health)@, peer_key_of(*peer)),
        ),
{
    let key = peer_key(peer);
    let mut entry = take_entry(health, key);
    entry.successes = entry.successes + 1;
    entry.timeout_streak = 0;
    entry.cooldown_until = None;
    entry.last_error_kind = None;
    health.insert(key, entry);
    assert(health@ =~= old(health)@.insert(key, health@[key]));
}

/// The cooldown a failure of this kind imposes, in retry delays.
pub open spec fn cooldown_delays(kind: PeerFailureKind) -> nat {
    match kind {
        PeerFailureKind::Timeout => COOLDOWN_ATTEMPTS as nat,
        PeerFailureKind::MissingPiece => 1,
        PeerFailureKind::Verification => (COOLDOWN_ATTEMPTS + 1) as nat,
        PeerFailureKind::Generic => 1,
    }
}

/// The state of a peer after a failed attempt at `piece_index` that started
/// at `started_ms`.
pub open spec fn after_failure(e: HealthModel, piece_index: usize, kind: PeerFailureKind, started_ms: u64) -> HealthModel {
    let cooldown = Some((started_ms + RETRY_DELAY_MS * cooldown_delays(kind)) as u64);
    match kind {
        PeerFailureKind::Timeout => (e.0, e.1 + 1, e.2 + 1, cooldown, e.4, e.5, Some(kind)),
        PeerFailureKind::MissingPiece => (e.0, e.1 + 1, e.2, cooldown, e.4.insert(piece_index), e.5, Some(kind)),
        PeerFailureKind::Verification => (e.0, e.1 + 1, e.2, cooldown, e.4, e.5, Some(kind)),
        PeerFailureKind::Generic => (e.0, e.1 + 1, 0nat, cooldown, e.4, e.5, Some(kind)),
    }
}

/// Records a failed attempt: one more failure, the kind remembered, and a
/// cooldown from the start of the attempt (a timeout also lengthens the
/// streak, a generic failure ends it, a missing piece is remembered).
pub fn record_peer_failure(
    health: &mut HashMap<u64, PeerHealth>,
    peer: &PeerAddr,
    piece_index: usize,
    failure_kind: PeerFailureKind,
    attempt_started_ms: u64,
)
    requires
        entry_model(old(health)@, peer_key_of(*peer)).1 < usize::MAX,
        entry_model(old(health)@, peer_key_of(*peer)).2 < usize::MAX,
        attempt_started_ms + RETRY_DELAY_MS * (COOLDOWN_ATTEMPTS + 1) <= u64::MAX,
    ensures
        final(health)@ == old(health)@.insert(peer_key_of(*peer), final(health)@[peer_key_of(*peer)]),
        health_model(final(health)@[peer_key_of(*peer)]) == after_failure(
            entry_model(old(health)@, peer_key_of(*peer)),
            piece_index,
            failure_kind,
            attempt_started_ms,
        ),
{
    let key = peer_key(peer);
    let mut entry = take_entry(health, key);
    entry.failures = entry.failures + 1;
    entry.last_error_kind = Some(failure_kind);
    match failure_kind {
        PeerFailureKind::Timeout => {
            entry.timeout_streak = entry.timeout_streak + 1;
            entry.cooldown_until = Some(attempt_started_ms + RETRY_DELAY_MS * COOLDOWN_ATTEMPTS);
        },
        PeerFailureKind::MissingPiece => {
            entry.unavailable_pieces.insert(piece_index);
            entry.cooldown_until = Some(attempt_started_ms + RETRY_DELAY_MS);
        },
        PeerFailureKind::Verification => {
            entry.cooldown_until = Some(
                attempt_started_ms + RETRY_DELAY_MS * (COOLDOWN_ATTEMPTS + 1),
            );
        },
        PeerFailureKind::Generic => {
            entry.timeout_streak = 0;
            entry.cooldown_until = Some(attempt_started_ms + RETRY_DELAY_MS);
        },
    }
    health.insert(key, entry);
    assert(health@ =~= old(health)@.insert(key, health@[key]));
}

/// Records the pieces a peer advertised.
pub fn record_known_pieces(health: &mut HashMap<u64, PeerHealth>, peer: &PeerAddr, bitfield: Vec<bool>)
    ensures
        final(health)@ == old(health)@.insert(peer_key_of(*peer), final(health)@[peer_key_of(*peer)]),
        ({
            let e = entry_model(old(health)@, peer_key_of(*peer));
            health_model(final(health)@[peer_key_of(*peer)]) == (e.0, e.1, e.2, e.3, e.4, Some(bitfield@), e.6)
        }),
{
    let key = peer_key(peer);
    let mut entry = take_entry(health, key);
    entry.known_pieces = Some(bitfield);
    health.insert(key, entry);
    assert(health@ =~= old(health)@.insert(key, health@[key]));
}

/// The kind of failure an error stands for.
pub open spec fn failure_kind_of(err: TorrentError) -> PeerFailureKind {
    match err {
        TorrentError::ConnectionTimeout => PeerFailureKind::Timeout,
        TorrentError::PieceVerificationFailed => PeerFailureKind::Verification,
        TorrentError::PeerDoesNotAdvertisePiece(_) => PeerFailureKind::MissingPiece,
        _ => PeerFailureKind::Generic,
    }
}

/// The kind of failure an error stands for.
pub fn classify_failure(err: &TorrentError) -> (r: PeerFailureKind)
    ensures
        r == failure_kind_of(*err),
{
    match err {
        TorrentError::ConnectionTimeout => PeerFailureKind::Timeout,
        TorrentError::PieceVerificationFailed => PeerFailureKind::Verification,
        TorrentError::PeerDoesNotAdvertisePiece(_) => PeerFailureKind::MissingPiece,
        _ => PeerFailureKind::Generic,
    }
}

/// Counts one more peer for every piece it advertises.
pub fn apply_piece_availability_probe(availability: &mut Vec<usize>, bitfield: &[bool])
    requires
        forall|i: int|
            0 <= i < old(availability)@.len() && i < bitfield@.len() && bitfield@[i]
                ==> old(availability)@[i] < usize::MAX,
    ensures
        final(availability)@.len() == old(availability)@.len(),
        forall|i: int|
            0 <= i < old(availability)@.len() ==> #[trigger] final(availability)@[i] == old(
                availability,
            )@[i] + if i < bitfield@.len() && bitfield@[i] {
                1int
            } else {
                0int
            },
{
    let mut i: usize = 0;
    while i < bitfield.len()
        invariant
            i <= bitfield@.len(),
            availability@.len() == old(availability)@.len(),
            forall|j: int|
                0 <= j < old(availability)@.len() && j < bitfield@.len() && bitfield@[j]
                    ==> old(availability)@[j] < usize::MAX,
            forall|j: int|
                0 <= j < availability@.len() ==> #[trigger] availability@[j] == old(
                    availability,
                )@[j] + if j < i && bitfield@[j] {
                    1int
                } else {
                    0int
                },
        decreases bitfield@.len() - i,
    {
        if bitfield[i] && i < availability.len() {
            let v = availability[i];
            availability.set(i, v + 1);
        }
        i = i + 1;
    }
}

/// How likely a peer is to have a piece: `Some(0)` when it advertised it,
/// `Some(2)` when it lacks it or did not advertise it, `None` when nothing
/// is known.
pub open spec fn piece_rank_of(h: HealthModel, piece_index: usize) -> Option<u8> {
    if h.4.contains(piece_index) {
        Some(2u8)
    } else {
        match h.5 {
            Some(pieces) => if piece_index < pieces.len() && pieces[piece_index as int] {
                Some(0u8)
            } else {
                Some(2u8)
            },
            None => None,
        }
    }
}

/// How likely a peer is to have a piece.
pub fn piece_known_rank(health: &PeerHealth, piece_index: usize) -> (r: Option<u8>)
    ensures
        r == piece_rank_of(health_model(*health), piece_index),
{
    if health.unavailable_pieces.contains(&piece_index) {
        return Some(2);
    }
    match &health.known_pieces {
        Some(pieces) => if piece_index < pieces.len() && pieces[piece_index] {
            Some(0)
        } else {
            Some(2)
        },
        None => None,
    }
}

// ---------------------------------------------------------------- piece order

/// How many peers advertised a piece; a piece beyond the counts has none.
pub open spec fn availability_of(availability: Seq<usize>, piece: usize) -> usize {
    if piece < availability.len() {
        availability[piece as int]
    } else {
        0
    }
}

/// True when `p` comes strictly before `q`: pieces that some peer has come
/// first, rarer ones before commoner ones, and lower indices first.
pub open spec fn piece_before(availability: Seq<usize>, p: usize, q: usize) -> bool {
    let ap = availability_of(availability, p);
    let aq = availability_of(availability, q);
    if (ap == 0) != (aq == 0) {
        aq == 0
    } else if ap != aq {
        ap < aq
    } else {
        p < q
    }
}

/// True when a list of pieces is in download order.
pub open spec fn pieces_in_order(availability: Seq<usize>, s: Seq<usize>) -> bool {
    forall|i: int, j: int| 0 <= i < j < s.len() ==> !piece_before(availability, #[trigger] s[j], #[trigger] s[i])
}

/// The order of pieces is a strict total order.
proof fn lemma_piece_order(availability: Seq<usize>)
    ensures
        forall|p: usize, q: usize| p != q ==> piece_before(availability, p, q) || piece_before(availability, q, p),
        forall|p: usize, q: usize, r: usize|
            piece_before(availability, p, q) && piece_before(availability, q, r) ==> piece_before(availability, p, r),
        forall|p: usize| !piece_before(availability, p, p),
{
}

/// Whether `p` comes strictly before `q`.
fn piece_comes_before(availability: &[usize], p: usize, q: usize) -> (r: bool)
    ensures
        r == piece_before(availability@, p, q),
{
    let ap: usize = if p < availability.len() { availability[p] } else { 0 };
    let aq: usize = if q < availability.len() { availability[q] } else { 0 };
    if (ap == 0) != (aq == 0) {
        aq == 0
    } else if ap != aq {
        ap < aq
    } else {
        p < q
    }
}

/// Puts the missing pieces in download order: first the pieces some peer
/// has, rarest first, then those no peer advertised; ties by index.
pub fn sort_missing_pieces_by_availability(missing_pieces: &mut Vec<usize>, piece_availability: &[usize])
    ensures
        final(missing_pieces)@.to_multiset() == old(missing_pieces)@.to_multiset(),
        pieces_in_order(piece_availability@, final(missing_pieces)@),
{
    broadcast use vstd::seq_lib::group_to_multiset_ensures;
    proof {
        lemma_piece_order(piece_availability@);
    }
    let ghost av = piece_availability@;
    let mut out: Vec<usize> = Vec::new();
    let mut i: usize = 0;
    while i < missing_pieces.len()
        invariant
            i <= missing_pieces@.len(),
            av == piece_availability@,
            out@.to_multiset() == missing_pieces@.take(i as int).to_multiset(),
            pieces_in_order(av, out@),
            forall|p: usize, q: usize| p != q ==> piece_before(av, p, q) || piece_before(av, q, p),
            forall|p: usize, q: usize, r: usize|
                piece_before(av, p, q) && piece_before(av, q, r) ==> piece_before(av, p, r),
        decreases missing_pieces@.len() - i,
    {
        let x = missing_pieces[i];
        let mut pos: usize = 0;
        while pos < out.len() && !piece_comes_before(piece_availability, x, out[pos])
            invariant
                pos <= out@.len(),
                av == piece_availability@,
                forall|k: int| 0 <= k < pos ==> !piece_before(av, x, #[trigger] out@[k]),
            decreases out@.len() - pos,
        {
            pos = pos + 1;
        }
        let ghost before = out@;
        out.insert(pos, x);
        proof {
            assert(missing_pieces@.take(i + 1) =~= missing_pieces@.take(i as int).push(x));
            vstd::seq_lib::to_multiset_insert(before, pos as int, x);
            vstd::seq_lib::to_multiset_build(missing_pieces@.take(i as int), x);
            assert forall|a: int, b: int| 0 <= a < b < out@.len() implies !piece_before(
                av,
                #[trigger] out@[b],
                #[trigger] out@[a],
            ) by {
                if a < pos && b == pos {
                    assert(!piece_before(av, x, before[a]));
                } else if a == pos && b > pos {
                    if b - 1 > pos {
                        assert(!piece_before(av, before[b - 1], before[pos as int]));
                    }
                    assert(pos < before.len());
                    assert(piece_before(av, x, before[pos as int]));
                } else if a < pos && b > pos {
                    assert(!piece_before(av, before[b - 1], before[a]));
                } else if b < pos {
                    assert(!piece_before(av, before[b], before[a]));
                } else {
                    assert(!piece_before(av, before[b - 1], before[a - 1]));
                }
            }
        }
        i = i + 1;
    }
    assert(missing_pieces@.take(missing_pieces@.len() as int) =~= missing_pieces@);
    *missing_pieces = out;
}

// ---------------------------------------------------------------- peer order

/// What a peer is ranked by: whether it is cooling down, how likely it has
/// the piece, its failures, its timeout streak, and its successes (more is
/// better).
pub type RankKey = (bool, u8, usize, usize, usize);

/// The rank of a peer for a piece at time `now_ms`.
pub open spec fn rank_key_of(health: Map<u64, PeerHealth>, peer: PeerAddr, piece_index: usize, now_ms: u64) -> RankKey {
    let k = peer_key_of(peer);
    if health.contains_key(k) {
        let h = health[k];
        (
            match h.cooldown_until {
                Some(until) => until > now_ms,
                None => false,
            },
            match piece_rank_of(health_model(h), piece_index) {
                Some(rank) => rank,
                None => 1u8,
            },
            h.failures,
            h.timeout_streak,
            h.successes,
        )
    } else {
        (false, 1u8, 0usize, 0usize, 0usize)
    }
}

/// True when a peer of rank `a` is asked strictly before one of rank `b`.
pub open spec fn rank_before(a: RankKey, b: RankKey) -> bool {
    if a.0 != b.0 {
        !a.0
    } else if a.1 != b.1 {
        a.1 < b.1
    } else if a.2 != b.2 {
        a.2 < b.2
    } else if a.3 != b.3 {
        a.3 < b.3
    } else {
        a.4 > b.4
    }
}

/// True when a list of peers is in the order they are asked.
pub open spec fn peers_in_rank_order(health: Map<u64, PeerHealth>, piece_index: usize, now_ms: u64, s: Seq<PeerAddr>) -> bool {
    forall|i: int, j: int|
        0 <= i < j < s.len() ==> !rank_before(
            rank_key_of(health, #[trigger] s[j], piece_index, now_ms),
            rank_key_of(health, #[trigger] s[i], piece_index, now_ms),
        )
}

/// The rank of a peer for a piece at time `now_ms`.
pub fn peer_rank_key(health: &HashMap<u64, PeerHealth>, peer: &PeerAddr, piece_index: usize, now_ms: u64) -> (r: RankKey)
    ensures
        r == rank_key_of(health@, *peer, piece_index, now_ms),
{
    let key = peer_key(peer);
    match health.get(&key) {
        Some(h) => {
            let in_cooldown = match h.cooldown_until {
                Some(until) => until > now_ms,
                None => false,
            };
            let piece_state_rank: u8 = match piece_known_rank(h, piece_index) {
                Some(rank) => rank,
                None => 1,
            };
            (in_cooldown, piece_state_rank, h.failures, h.timeout_streak, h.successes)
        },
        None => (false, 1, 0, 0, 0),
    }
}

/// Whether a peer of rank `a` is asked strictly before one of rank `b`.
fn rank_comes_before(a: &RankKey, b: &RankKey) -> (r: bool)
    ensures
        r == rank_before(*a, *b),
{
    if a.0 != b.0 {
        !a.0
    } else if a.1 != b.1 {
        a.1 < b.1
    } else if a.2 != b.2 {
        a.2 < b.2
    } else if a.3 != b.3 {
        a.3 < b.3
    } else {
        a.4 > b.4
    }
}

/// True when the remembered state of `peer` puts it in a cooldown that has
/// not ended at `now_ms`.
pub open spec fn cooling_down(health: Map<u64, PeerHealth>, peer: PeerAddr, now_ms: u64) -> bool {
    &&& health.contains_key(peer_key_of(peer))
    &&& health[peer_key_of(peer)].cooldown_until matches Some(until)
    &&& until > now_ms
}

/// True when `peer` advertised `piece` in its bitfield and never failed to
/// deliver it.
pub open spec fn advertised_piece(health: Map<u64, PeerHealth>, peer: PeerAddr, piece: usize) -> bool {
    &&& health.contains_key(peer_key_of(peer))
    &&& !health[peer_key_of(peer)].unavailable_pieces@.contains(piece)
    &&& health[peer_key_of(peer)].known_pieces matches Some(v)
    &&& piece < v@.len()
    &&& v@[piece as int]
}

/// True when `peer` is known to lack `piece`: it failed to deliver it, or
/// its bitfield does not mark it.
pub open spec fn known_to_lack(health: Map<u64, PeerHealth>, peer: PeerAddr, piece: usize) -> bool {
    &&& health.contains_key(peer_key_of(peer))
    &&& {
        ||| health[peer_key_of(peer)].unavailable_pieces@.contains(piece)
        ||| (health[peer_key_of(peer)].known_pieces matches Some(v) && !(piece < v@.len()
            && v@[piece as int]))
    }
}

/// In the order in which peers are asked for a piece, peers cooling down
/// come last; among the others, a peer that advertised the piece comes
/// before one whose state is unknown, and that one before a peer known to
/// lack it, whatever their failure, timeout and success counts.
pub proof fn lemma_rank_respects_piece_knowledge(
    health: Map<u64, PeerHealth>,
    piece: usize,
    now_ms: u64,
    s: Seq<PeerAddr>,
    i: int,
    j: int,
)
    requires
        peers_in_rank_order(health, piece, now_ms, s),
        0 <= i < j < s.len(),
    ensures
        cooling_down(health, s[i], now_ms) ==> cooling_down(health, s[j], now_ms),
        !cooling_down(health, s[i], now_ms) && !cooling_down(health, s[j], now_ms) ==> {
            &&& advertised_piece(health, s[j], piece) ==> advertised_piece(health, s[i], piece)
            &&& known_to_lack(health, s[i], piece) ==> known_to_lack(health, s[j], piece)
        },
{
    let a = s[i];
    let b = s[j];
    assert(!rank_before(
        rank_key_of(health, b, piece, now_ms),
        rank_key_of(health, a, piece, now_ms),
    ));
}

/// The failures, timeout streak and successes remembered of `peer` (none for
/// a peer never seen).
pub open spec fn peer_counts(health: Map<u64, PeerHealth>, peer: PeerAddr) -> (usize, usize, usize) {
    if health.contains_key(peer_key_of(peer)) {
        let h = health[peer_key_of(peer)];
        (h.failures, h.timeout_streak, h.successes)
    } else {
        (0, 0, 0)
    }
}

/// Among peers alike in cooldown and in what is known of the piece, the
/// order in which they are asked puts fewer failures first, then shorter
/// timeout streaks, then more successes.
pub proof fn lemma_rank_tie_breaks(
    health: Map<u64, PeerHealth>,
    piece: usize,
    now_ms: u64,
    s: Seq<PeerAddr>,
    i: int,
    j: int,
)
    requires
        peers_in_rank_order(health, piece, now_ms, s),
        0 <= i < j < s.len(),
        cooling_down(health, s[i], now_ms) == cooling_down(health, s[j], now_ms),
        advertised_piece(health, s[i], piece) == advertised_piece(health, s[j], piece),
        known_to_lack(health, s[i], piece) == known_to_lack(health, s[j], piece),
    ensures
        peer_counts(health, s[i]).0 <= peer_counts(health, s[j]).0,
        peer_counts(health, s[i]).0 == peer_counts(health, s[j]).0 ==> peer_counts(health, s[i]).1
            <= peer_counts(health, s[j]).1,
        peer_counts(health, s[i]).0 == peer_counts(health, s[j]).0 && peer_counts(health, s[i]).1
            == peer_counts(health, s[j]).1 ==> peer_counts(health, s[i]).2 >= peer_counts(
            health,
            s[j],
        ).2,
{
    let a = s[i];
    let b = s[j];
    assert(!rank_before(
        rank_key_of(health, b, piece, now_ms),
        rank_key_of(health, a, piece, now_ms),
    ));
}

/// Puts peers in a random order (the pieces of rand shuffle a slice in
/// place).  Every outcome holds the same peers as before.
#[verifier::external_body]
fn shuffle_peers(peers: &mut Vec<PeerAddr>)
    ensures
        final(peers)@.to_multiset() == old(peers)@.to_multiset(),
{
    let mut rng = rand::thread_rng();
    peers.shuffle(&mut rng);
}

/// Copies a list of peers.
fn copy_peers(peers: &Vec<PeerAddr>) -> (r: Vec<PeerAddr>)
    ensures
        r@ == peers@,
{
    let mut out: Vec<PeerAddr> = Vec::new();
    let mut i: usize = 0;
    while i < peers.len()
        invariant
            i <= peers@.len(),
            out@ == peers@.take(i as int),
        decreases peers@.len() - i,
    {
        out.push(peers[i]);
        assert(out@ =~= peers@.take(i + 1));
        i = i + 1;
    }
    assert(peers@.take(peers@.len() as int) =~= peers@);
    out
}

/// Sorts peers by rank, keeping the given order among peers of equal rank.
fn sort_peers_by_rank(peers: &Vec<PeerAddr>, health: &HashMap<u64, PeerHealth>, piece_index: usize, now_ms: u64) -> (r: Vec<PeerAddr>)
    ensures
        r@.to_multiset() == peers@.to_multiset(),
        peers_in_rank_order(health@, piece_index, now_ms, r@),
{
    broadcast use vstd::seq_lib::group_to_multiset_ensures;
    let ghost hv = health@;
    let mut out: Vec<PeerAddr> = Vec::new();
    let mut out_keys: Vec<RankKey> = Vec::new();
    let mut i: usize = 0;
    while i < peers.len()
        invariant
            i <= peers@.len(),
            hv == health@,
            out_keys@.len() == out@.len(),
            forall|k: int| 0 <= k < out@.len() ==> out_keys@[k] == rank_key_of(hv, #[trigger] out@[k], piece_index, now_ms),
            out@.to_multiset() == peers@.take(i as int).to_multiset(),
            peers_in_rank_order(hv, piece_index, now_ms, out@),
        decreases peers@.len() - i,
    {
        let x = peers[i];
        let kx = peer_rank_key(health, &x, piece_index, now_ms);
        let mut pos: usize = 0;
        while pos < out.len() && !rank_comes_before(&kx, &out_keys[pos])
            invariant
                pos <= out@.len(),
                out_keys@.len() == out@.len(),
                forall|k: int| 0 <= k < pos ==> !rank_before(kx, #[trigger] out_keys@[k]),
            decreases out@.len() - pos,
        {
            pos = pos + 1;
        }
        let ghost before = out@;
        let ghost before_keys = out_keys@;
        out.insert(pos, x);
        out_keys.insert(pos, kx);
        proof {
            assert(peers@.take(i + 1) =~= peers@.take(i as int).push(x));
            vstd::seq_lib::to_multiset_insert(before, pos as int, x);
            vstd::seq_lib::to_multiset_build(peers@.take(i as int), x);
            assert forall|k: int| 0 <= k < out@.len() implies out_keys@[k] == rank_key_of(
                hv,
                #[trigger] out@[k],
                piece_index,
                now_ms,
            ) by {
                if k < pos {
                    assert(out@[k] == before[k]);
                } else if k > pos {
                    assert(out@[k] == before[k - 1]);
                }
            }
            assert forall|a: int, b: int| 0 <= a < b < out@.len() implies !rank_before(
                rank_key_of(hv, #[trigger] out@[b], piece_index, now_ms),
                rank_key_of(hv, #[trigger] out@[a], piece_index, now_ms),
            ) by {
                let ka = out_keys@[a];
                let kb = out_keys@[b];
                assert(ka == rank_key_of(hv, out@[a], piece_index, now_ms));
                assert(kb == rank_key_of(hv, out@[b], piece_index, now_ms));
                if a < pos && b == pos {
                    assert(!rank_before(kx, before_keys[a]));
                } else if a == pos && b > pos {
                    assert(pos < before.len());
                    assert(rank_before(kx, before_keys[pos as int]));
                    assert(before_keys[pos as int] == rank_key_of(hv, before[pos as int], piece_index, now_ms));
                    assert(before_keys[b - 1] == rank_key_of(hv, before[b - 1], piece_index, now_ms));
                    if b - 1 > pos {
                        assert(!rank_before(
                            rank_key_of(hv, before[b - 1], piece_index, now_ms),
                            rank_key_of(hv, before[pos as int], piece_index, now_ms),
                        ));
                    }
                } else if a < pos && b > pos {
                    assert(before_keys[b - 1] == rank_key_of(hv, before[b - 1], piece_index, now_ms));
                    assert(before_keys[a] == rank_key_of(hv, before[a], piece_index, now_ms));
                    assert(!rank_before(
                        rank_key_of(hv, before[b - 1], piece_index, now_ms),
                        rank_key_of(hv, before[a], piece_index, now_ms),
                    ));
                } else if b < pos {
                    assert(!rank_before(
                        rank_key_of(hv, before[b], piece_index, now_ms),
                        rank_key_of(hv, before[a], piece_index, now_ms),
                    ));
                } else {
                    assert(!rank_before(
                        rank_key_of(hv, before[b - 1], piece_index, now_ms),
                        rank_key_of(hv, before[a - 1], piece_index, now_ms),
                    ));
                }
            }
        }
        i = i + 1;
    }
    assert(peers@.take(peers@.len() as int) =~= peers@);
    out
}

/// The peers to ask for a piece, at most `limit` of them: the peers are
/// shuffled, then ordered by rank (peers cooling down last, then those known
/// to have the piece first, then fewer failures, shorter timeout streaks and
/// more successes first), and the first `limit` are kept.
pub fn build_ranked_peer_list(
    peers: &Vec<PeerAddr>,
    health: &HashMap<u64, PeerHealth>,
    piece_index: usize,
    limit: usize,
    now_ms: u64,
) -> (r: Vec<PeerAddr>)
    ensures
        exists|s: Seq<PeerAddr>|
            {
                &&& s.to_multiset() == peers@.to_multiset()
                &&& peers_in_rank_order(health@, piece_index, now_ms, s)
                &&& r@ == s.take(if limit < peers@.len() { limit as int } else { peers@.len() as int })
            },
        forall|i: int, j: int|
            0 <= i < j < r@.len() ==> {
                &&& cooling_down(health@, #[trigger] r@[i], now_ms) ==> cooling_down(
                    health@,
                    #[trigger] r@[j],
                    now_ms,
                )
                &&& !cooling_down(health@, r@[i], now_ms) && !cooling_down(health@, r@[j], now_ms)
                    ==> {
                    &&& advertised_piece(health@, r@[j], piece_index) ==> advertised_piece(
                        health@,
                        r@[i],
                        piece_index,
                    )
                    &&& known_to_lack(health@, r@[i], piece_index) ==> known_to_lack(
                        health@,
                        r@[j],
                        piece_index,
                    )
                }
            },
{
    broadcast use vstd::seq_lib::group_to_multiset_ensures;
    let mut shuffled = copy_peers(peers);
    shuffle_peers(&mut shuffled);
    let sorted = sort_peers_by_rank(&shuffled, health, piece_index, now_ms);
    proof {
        vstd::seq_lib::to_multiset_len(sorted@);
        vstd::seq_lib::to_multiset_len(peers@);
    }
    let take_count: usize = if limit < sorted.len() { limit } else { sorted.len() };
    let mut r: Vec<PeerAddr> = Vec::new();
    let mut i: usize = 0;
    while i < take_count
        invariant
            i <= take_count,
            take_count <= sorted@.len(),
            r@ == sorted@.take(i as int),
        decreases take_count - i,
    {
        r.push(sorted[i]);
        assert(r@ =~= sorted@.take(i + 1));
        i = i + 1;
    }
    assert(sorted@.len() == peers@.len());
    assert forall|a: int, b: int| 0 <= a < b < r@.len() implies {
        &&& cooling_down(health@, #[trigger] r@[a], now_ms) ==> cooling_down(
            health@,
            #[trigger] r@[b],
            now_ms,
        )
        &&& !cooling_down(health@, r@[a], now_ms) && !cooling_down(health@, r@[b], now_ms) ==> {
            &&& advertised_piece(health@, r@[b], piece_index) ==> advertised_piece(
                health@,
                r@[a],
                piece_index,
            )
            &&& known_to_lack(health@, r@[a], piece_index) ==> known_to_lack(
                health@,
                r@[b],
                piece_index,
            )
        }
    } by {
        lemma_rank_respects_piece_knowledge(health@, piece_index, now_ms, sorted@, a, b);
    }
    r
}

// ---------------------------------------------------------------- one piece

/// The number of blocks of a piece of `len` bytes.
pub open spec fn num_blocks_of(len: int) -> int {
    len / BLOCK_SIZE as int + if len % BLOCK_SIZE as int != 0 {
        1int
    } else {
        0int
    }
}

/// The number of bytes of a piece of `len` bytes held after `n` blocks.
pub open spec fn received_len(len: int, n: int) -> int {
    if n * BLOCK_SIZE < len {
        n * BLOCK_SIZE
    } else {
        len
    }
}

/// The length of block `k` of a piece of `len` bytes.
pub open spec fn block_length_of(len: int, k: int) -> int {
    if len - k * BLOCK_SIZE < BLOCK_SIZE {
        len - k * BLOCK_SIZE
    } else {
        BLOCK_SIZE as int
    }
}

/// The blocks of a piece tile it: block `k` exists exactly when it starts
/// inside the piece, it is not empty, it ends where block `k + 1` starts
/// (or the piece ends), and all the blocks together make the whole piece.
pub proof fn lemma_blocks_tile_piece(len: int, k: int)
    requires
        0 <= len,
        0 <= k,
    ensures
        (k < num_blocks_of(len)) <==> (k * BLOCK_SIZE < len),
        k < num_blocks_of(len) ==> block_length_of(len, k) > 0 && received_len(len, k) == k
            * BLOCK_SIZE && received_len(len, k) + block_length_of(len, k) == received_len(len, k + 1),
        received_len(len, num_blocks_of(len)) == len,
{
    let q = len / 16384;
    let r = len % 16384;
    assert(len == q * 16384 + r && 0 <= r < 16384) by {
        vstd::arithmetic::div_mod::lemma_fundamental_div_mod(len, 16384);
    }
    assert((k < num_blocks_of(len)) <==> (k * 16384 < len)) by (nonlinear_arith)
        requires
            len == q * 16384 + r,
            0 <= r < 16384,
            0 <= k,
            num_blocks_of(len) == q + if r != 0 { 1int } else { 0int },
    ;
    assert(num_blocks_of(len) * 16384 >= len) by (nonlinear_arith)
        requires
            len == q * 16384 + r,
            0 <= r < 16384,
            num_blocks_of(len) == q + if r != 0 { 1int } else { 0int },
    ;
}

/// A piece being fetched from one peer, block by block; `blocks` holds the
/// blocks taken in so far, in order.
pub struct PieceDownload {
    pub piece_index: usize,
    pub piece_length: usize,
    pub data: Vec<u8>,
    pub next_block: usize,
    pub retry: usize,
    pub blocks: Ghost<Seq<Seq<u8>>>,
}

impl PieceDownload {
    /// The fetch is consistent: the blocks received so far make the start of
    /// the piece, and fewer retries than allowed were spent on the current
    /// block.
    pub open spec fn wf(self) -> bool {
        &&& self.next_block <= num_blocks_of(self.piece_length as int)
        &&& self.data@.len() == received_len(self.piece_length as int, self.next_block as int)
        &&& self.retry < MAX_BLOCK_RETRIES
        &&& self.blocks@.len() == self.next_block
        &&& self.data@ == concat_chunks(self.blocks@)
        &&& forall|k: int|
            0 <= k < self.next_block ==> (#[trigger] self.blocks@[k]).len() == block_length_of(
                self.piece_length as int,
                k,
            )
    }

    /// Starts fetching a piece: its length is the piece length, except for
    /// the last piece, which ends the content.
    pub fn new(info: &TorrentInfo, piece_index: usize) -> (r: Self)
        requires
            info.pieces@.len() >= 1,
            piece_index + 1 == info.pieces@.len() ==> (info.pieces@.len() - 1) * crate::storage::piece_len(
                *info,
            ) <= (info.length as usize) as int,
        ensures
            r.wf(),
            r.piece_index == piece_index,
            r.piece_length == crate::storage::length_of(*info, piece_index as int),
            r.next_block == 0,
            r.data@.len() == 0,
            r.blocks@.len() == 0,
    {
        let piece_length: usize = if piece_index == info.pieces.len() - 1 {
            info.length as usize - (info.pieces.len() - 1) * info.piece_length as usize
        } else {
            info.piece_length as usize
        };
        proof {
            lemma_blocks_tile_piece(piece_length as int, 0);
        }
        PieceDownload {
            piece_index,
            piece_length,
            data: Vec::new(),
            next_block: 0,
            retry: 0,
            blocks: Ghost(Seq::empty()),
        }
    }

    /// The number of blocks of the piece.
    pub fn num_blocks(&self) -> (r: usize)
        ensures
            r == num_blocks_of(self.piece_length as int),
    {
        self.piece_length / BLOCK_SIZE + if self.piece_length % BLOCK_SIZE != 0 {
            1
        } else {
            0
        }
    }

    /// Refuses a peer that advertised its pieces without this one.
    pub fn check_advertised(&self, has_piece: Option<bool>) -> (r: Result<()>)
        ensures
            has_piece == Some(false) ==> r == Err::<(), TorrentError>(
                TorrentError::PeerDoesNotAdvertisePiece(self.piece_index),
            ),
            has_piece != Some(false) ==> r is Ok,
    {
        match has_piece {
            Some(false) => Err(TorrentError::PeerDoesNotAdvertisePiece(self.piece_index)),
            _ => Ok(()),
        }
    }

    /// The next block to request, as its offset in the piece and its length,
    /// or `None` once every block is in.
    pub fn next_request(&self) -> (r: Option<(usize, usize)>)
        requires
            self.wf(),
        ensures
            (self.next_block < num_blocks_of(self.piece_length as int)) == (r is Some),
            r matches Some((begin, length)) ==> begin == self.next_block * BLOCK_SIZE && length
                == block_length_of(self.piece_length as int, self.next_block as int),
    {
        proof {
            lemma_blocks_tile_piece(self.piece_length as int, self.next_block as int);
        }
        if self.next_block < self.num_blocks() {
            let begin = self.next_block * BLOCK_SIZE;
            let rest = self.piece_length - begin;
            let length = if rest < BLOCK_SIZE { rest } else { BLOCK_SIZE };
            Some((begin, length))
        } else {
            None
        }
    }

    /// Takes in the requested block: a block of the wrong length fails the
    /// piece, a right one is appended.
    pub fn on_block(&mut self, block: &[u8]) -> (r: Result<()>)
        requires
            old(self).wf(),
            old(self).next_block < num_blocks_of(old(self).piece_length as int),
        ensures
            final(self).piece_index == old(self).piece_index,
            final(self).piece_length == old(self).piece_length,
            block@.len() != block_length_of(old(self).piece_length as int, old(self).next_block as int)
                ==> r == Err::<(), TorrentError>(TorrentError::UnexpectedBlockData) && *final(self)
                == *old(self),
            block@.len() == block_length_of(old(self).piece_length as int, old(self).next_block as int)
                ==> {
                &&& r is Ok
                &&& final(self).data@ == old(self).data@ + block@
                &&& final(self).blocks@ == old(self).blocks@.push(block@)
                &&& final(self).next_block == old(self).next_block + 1
                &&& final(self).retry == 0
                &&& final(self).wf()
            },
    {
        proof {
            lemma_blocks_tile_piece(self.piece_length as int, self.next_block as int);
        }
        let begin = self.next_block * BLOCK_SIZE;
        let rest = self.piece_length - begin;
        let length = if rest < BLOCK_SIZE { rest } else { BLOCK_SIZE };
        if block.len() != length {
            return Err(TorrentError::UnexpectedBlockData);
        }
        let mut i: usize = 0;
        let ghost start = self.data@;
        while i < block.len()
            invariant
                i <= block@.len(),
                self.data@ == start + block@.take(i as int),
                self.piece_index == old(self).piece_index,
                self.piece_length == old(self).piece_length,
                self.next_block == old(self).next_block,
                self.blocks == old(self).blocks,
                start == old(self).data@,
            decreases block@.len() - i,
        {
            self.data.push(block[i]);
            assert(start + block@.take(i + 1) =~= (start + block@.take(i as int)).push(block@[i as int]));
            i = i + 1;
        }
        assert(block@.take(block@.len() as int) =~= block@);
        self.next_block = self.next_block + 1;
        self.retry = 0;
        let ghost before = self.blocks@;
        self.blocks = Ghost(self.blocks@.push(block@));
        proof {
            assert(self.blocks@.drop_last() =~= before);
            assert forall|k: int|
                0 <= k < self.next_block implies (#[trigger] self.blocks@[k]).len()
                == block_length_of(self.piece_length as int, k) by {
                if k < self.next_block - 1 {
                    assert(self.blocks@[k] == before[k]);
                }
            }
        }
        Ok(())
    }

    /// Takes in a failed request for the current block: the block is asked
    /// again, unless it already failed as often as allowed, in which case the
    /// piece fails with that error.
    pub fn on_block_failure(&mut self, err: TorrentError) -> (r: Result<()>)
        requires
            old(self).wf(),
        ensures
            final(self).piece_index == old(self).piece_index,
            final(self).piece_length == old(self).piece_length,
            final(self).data@ == old(self).data@,
            final(self).blocks == old(self).blocks,
            final(self).next_block == old(self).next_block,
            old(self).retry + 1 == MAX_BLOCK_RETRIES ==> r == Err::<(), TorrentError>(err),
            old(self).retry + 1 < MAX_BLOCK_RETRIES ==> r is Ok && final(self).retry == old(self).retry + 1
                && final(self).wf(),
    {
        if self.retry + 1 == MAX_BLOCK_RETRIES {
            return Err(err);
        }
        self.retry = self.retry + 1;
        Ok(())
    }

    /// The whole piece, once it is all in: the blocks taken in, one after
    /// the other.
    pub fn finish(self) -> (r: Result<Vec<u8>>)
        requires
            self.wf(),
        ensures
            (r is Ok) == (self.next_block == num_blocks_of(self.piece_length as int)),
            r matches Ok(d) ==> d@ == concat_chunks(self.blocks@),
            self.data@.len() != self.piece_length ==> r == Err::<Vec<u8>, TorrentError>(TorrentError::UnexpectedBlockData),
            self.data@.len() == self.piece_length ==> (r matches Ok(d) && d@ == self.data@),
    {
        proof {
            lemma_blocks_tile_piece(self.piece_length as int, self.next_block as int);
            lemma_blocks_tile_piece(self.piece_length as int, 0);
        }
        if self.data.len() != self.piece_length {
            return Err(TorrentError::UnexpectedBlockData);
        }
        Ok(self.data)
    }
}

/// Once every block is in, the piece is whole, and it is the blocks taken
/// in, one after the other: block `k` answers the request at offset
/// `k * BLOCK_SIZE` and has that request's length.
pub proof fn lemma_complete_download_is_whole(d: PieceDownload)
    requires
        d.wf(),
        d.next_block == num_blocks_of(d.piece_length as int),
    ensures
        d.data@.len() == d.piece_length,
        d.data@ == concat_chunks(d.blocks@),
        d.blocks@.len() == num_blocks_of(d.piece_length as int),
        forall|k: int|
            0 <= k < d.blocks@.len() ==> (#[trigger] d.blocks@[k]).len() == block_length_of(
                d.piece_length as int,
                k,
            ) && concat_chunks(d.blocks@.take(k)).len() == k * BLOCK_SIZE,
{
    lemma_blocks_tile_piece(d.piece_length as int, 0);
    assert forall|k: int| 0 <= k < d.blocks@.len() implies concat_chunks(
        d.blocks@.take(k),
    ).len() == k * BLOCK_SIZE by {
        lemma_concat_prefix_len(d.blocks@, d.piece_length as int, k);
    }
}

/// The first `k` blocks of a piece hold `k` full blocks of bytes.
proof fn lemma_concat_prefix_len(blocks: Seq<Seq<u8>>, len: int, k: int)
    requires
        0 <= k < blocks.len(),
        blocks.len() <= num_blocks_of(len),
        0 <= len,
        forall|j: int| 0 <= j < blocks.len() ==> (#[trigger] blocks[j]).len() == block_length_of(len, j),
    ensures
        concat_chunks(blocks.take(k)).len() == k * BLOCK_SIZE,
    decreases k,
{
    if k > 0 {
        lemma_concat_prefix_len(blocks, len, k - 1);
        assert(blocks.take(k).drop_last() =~= blocks.take(k - 1));
        lemma_blocks_tile_piece(len, k - 1);
        assert(block_length_of(len, k - 1) == BLOCK_SIZE) by {
            lemma_blocks_tile_piece(len, k);
        }
    } else {
        assert(blocks.take(0) =~= Seq::<Seq<u8>>::empty());
    }
}

// ---------------------------------------------------------------- attempts

/// What came of asking one peer for a piece.
#[derive(Debug)]
pub enum AttemptOutcome {
    Succeeded(Vec<u8>),
    Failed(TorrentError),
}

/// Refuses to look for a piece without peers.
pub fn require_peers(peers: &Vec<PeerAddr>) -> (r: Result<()>)
    ensures
        peers@.len() == 0 ==> r == Err::<(), TorrentError>(TorrentError::NoPeersAvailable),
        peers@.len() > 0 ==> r is Ok,
{
    if peers.len() == 0 {
        return Err(TorrentError::NoPeersAvailable);
    }
    Ok(())
}

/// The error given when no peer delivered a piece and none failed.
pub fn exhausted_error(piece_index: usize) -> (r: TorrentError)
    ensures
        r matches TorrentError::DownloadFailed(m) && m@ == "Failed to download piece "@ + decimal(
            piece_index as nat,
        ),
{
    let mut m = string_of("Failed to download piece ");
    push_decimal(&mut m, piece_index as u64);
    TorrentError::DownloadFailed(m)
}

/// Takes in what one peer gave for a piece: data that hashes right is the
/// piece and counts as a success of the peer; data that does not, or an
/// error, counts as a failure of the kind it stands for.
pub fn handle_piece_attempt(
    health: &mut HashMap<u64, PeerHealth>,
    peer: &PeerAddr,
    info: &TorrentInfo,
    piece_index: usize,
    result: Result<Vec<u8>>,
    attempt_started_ms: u64,
) -> (r: AttemptOutcome)
    requires
        entry_model(old(health)@, peer_key_of(*peer)).0 < usize::MAX,
        entry_model(old(health)@, peer_key_of(*peer)).1 < usize::MAX,
        entry_model(old(health)@, peer_key_of(*peer)).2 < usize::MAX,
        attempt_started_ms + RETRY_DELAY_MS * (COOLDOWN_ATTEMPTS + 1) <= u64::MAX,
    ensures
        final(health)@ == old(health)@.insert(peer_key_of(*peer), final(health)@[peer_key_of(*peer)]),
        ({
            let e = entry_model(old(health)@, peer_key_of(*peer));
            let after = health_model(final(health)@[peer_key_of(*peer)]);
            match result {
                Ok(data) => if piece_index < info.pieces@.len() && sha1_digest(data@)
                    == info.pieces@[piece_index as int]@ {
                    &&& r matches AttemptOutcome::Succeeded(d) && d@ == data@
                    &&& after == after_success(e)
                } else {
                    &&& r == AttemptOutcome::Failed(TorrentError::PieceVerificationFailed)
                    &&& after == after_failure(e, piece_index, PeerFailureKind::Verification, attempt_started_ms)
                },
                Err(err) => {
                    &&& r == AttemptOutcome::Failed(err)
                    &&& after == after_failure(e, piece_index, failure_kind_of(err), attempt_started_ms)
                },
            }
        }),
{
    match result {
        Ok(data) => {
            if verify_piece(info, piece_index, data.as_slice()) {
                record_peer_success(health, peer);
                AttemptOutcome::Succeeded(data)
            } else {
                record_peer_failure(
                    health,
                    peer,
                    piece_index,
                    PeerFailureKind::Verification,
                    attempt_started_ms,
                );
                AttemptOutcome::Failed(TorrentError::PieceVerificationFailed)
            }
        },
        Err(err) => {
            let kind = classify_failure(&err);
            record_peer_failure(health, peer, piece_index, kind, attempt_started_ms);
            AttemptOutcome::Failed(err)
        },
    }
}

/// The search for one piece among the peers: the peers to ask, in order,
/// how many were asked, and the failure of the last one asked.
pub struct PieceAttempts {
    pub piece_index: usize,
    pub candidates: Vec<PeerAddr>,
    pub next: usize,
    pub last_error: TorrentError,
}

impl PieceAttempts {
    /// The search is consistent: no more peers were asked than there are
    /// candidates, and there are at most `MAX_RETRIES` candidates.
    pub open spec fn wf(self) -> bool {
        &&& self.next <= self.candidates@.len()
        &&& self.candidates@.len() <= MAX_RETRIES
    }

    /// Starts looking for a piece: refused without peers; otherwise the
    /// candidates are the ranked peers, at most `MAX_RETRIES` of them, and the
    /// error if none delivers is `exhausted_error`.
    pub fn new(
        peers: &Vec<PeerAddr>,
        health: &HashMap<u64, PeerHealth>,
        piece_index: usize,
        now_ms: u64,
    ) -> (r: Result<PieceAttempts>)
        ensures
            peers@.len() == 0 ==> r == Err::<PieceAttempts, TorrentError>(TorrentError::NoPeersAvailable),
            peers@.len() > 0 ==> (r matches Ok(a) && {
                &&& a.wf()
                &&& a.piece_index == piece_index
                &&& a.next == 0
                &&& a.candidates@.len() == if peers@.len() < MAX_RETRIES {
                    peers@.len() as int
                } else {
                    MAX_RETRIES as int
                }
                &&& exists|s: Seq<PeerAddr>|
                    {
                        &&& s.to_multiset() == peers@.to_multiset()
                        &&& peers_in_rank_order(health@, piece_index, now_ms, s)
                        &&& a.candidates@ == s.take(a.candidates@.len() as int)
                    }
                &&& a.last_error matches TorrentError::DownloadFailed(m) && m@
                    == "Failed to download piece "@ + decimal(piece_index as nat)
            }),
    {
        broadcast use vstd::seq_lib::group_to_multiset_ensures;
        require_peers(peers)?;
        let candidates = build_ranked_peer_list(peers, health, piece_index, MAX_RETRIES as usize, now_ms);
        proof {
            let s = choose|s: Seq<PeerAddr>|
                {
                    &&& s.to_multiset() == peers@.to_multiset()
                    &&& peers_in_rank_order(health@, piece_index, now_ms, s)
                    &&& candidates@ == s.take(
                        if (MAX_RETRIES as usize) < peers@.len() {
                            MAX_RETRIES as int
                        } else {
                            peers@.len() as int
                        },
                    )
                };
            vstd::seq_lib::to_multiset_len(s);
            vstd::seq_lib::to_multiset_len(peers@);
        }
        Ok(PieceAttempts { piece_index, candidates, next: 0, last_error: exhausted_error(piece_index) })
    }

    /// The next peer to ask, or `None` once every candidate was asked.
    pub fn next_peer(&mut self) -> (r: Option<PeerAddr>)
        requires
            old(self).wf(),
        ensures
            final(self).wf(),
            final(self).candidates == old(self).candidates,
            final(self).piece_index == old(self).piece_index,
            final(self).last_error == old(self).last_error,
            old(self).next < old(self).candidates@.len() ==> r == Some(
                old(self).candidates@[old(self).next as int],
            ) && final(self).next == old(self).next + 1,
            old(self).next == old(self).candidates@.len() ==> r is None && final(self).next
                == old(self).next,
    {
        if self.next < self.candidates.len() {
            let p = self.candidates[self.next];
            self.next = self.next + 1;
            Some(p)
        } else {
            None
        }
    }

    /// Takes in what a peer gave: the piece when its data hashes right (a
    /// success of the peer), else the peer's failure is remembered as the
    /// error of the search.
    pub fn on_result(
        &mut self,
        health: &mut HashMap<u64, PeerHealth>,
        peer: &PeerAddr,
        info: &TorrentInfo,
        result: Result<Vec<u8>>,
        attempt_started_ms: u64,
    ) -> (r: Option<Vec<u8>>)
        requires
            entry_model(old(health)@, peer_key_of(*peer)).0 < usize::MAX,
            entry_model(old(health)@, peer_key_of(*peer)).1 < usize::MAX,
            entry_model(old(health)@, peer_key_of(*peer)).2 < usize::MAX,
            attempt_started_ms + RETRY_DELAY_MS * (COOLDOWN_ATTEMPTS + 1) <= u64::MAX,
        ensures
            final(self).candidates == old(self).candidates,
            final(self).next == old(self).next,
            final(self).piece_index == old(self).piece_index,
            (r is Some) == attempt_delivers(*info, old(self).piece_index, result),
            r matches Some(d) ==> d@ == result->Ok_0@,
            r is None ==> final(self).last_error == attempt_failure(result),
            final(health)@ == old(health)@.insert(peer_key_of(*peer), final(health)@[peer_key_of(*peer)]),
            ({
                let e = entry_model(old(health)@, peer_key_of(*peer));
                let after = health_model(final(health)@[peer_key_of(*peer)]);
                let i = old(self).piece_index;
                match result {
                    Ok(data) => if i < info.pieces@.len() && sha1_digest(data@) == info.pieces@[i as int]@ {
                        &&& r matches Some(d) && d@ == data@
                        &&& after == after_success(e)
                        &&& final(self).last_error == old(self).last_error
                    } else {
                        &&& r is None
                        &&& final(self).last_error == TorrentError::PieceVerificationFailed
                        &&& after == after_failure(e, i, PeerFailureKind::Verification, attempt_started_ms)
                    },
                    Err(err) => {
                        &&& r is None
                        &&& final(self).last_error == err
                        &&& after == after_failure(e, i, failure_kind_of(err), attempt_started_ms)
                    },
                }
            }),
    {
        match handle_piece_attempt(health, peer, info, self.piece_index, result, attempt_started_ms) {
            AttemptOutcome::Succeeded(data) => Some(data),
            AttemptOutcome::Failed(err) => {
                self.last_error = err;
                None
            },
        }
    }

    /// The error once every candidate failed: the failure of the last peer
    /// asked, or `exhausted_error` when none was asked.
    pub fn finish(self) -> (r: TorrentError)
        ensures
            r == self.last_error,
    {
        self.last_error
    }
}

/// True when what a peer gave is the piece: data whose SHA-1 is the
/// piece's hash.
pub open spec fn attempt_delivers(info: TorrentInfo, piece_index: usize, result: Result<Vec<u8>>) -> bool {
    result matches Ok(data) && piece_index < info.pieces@.len() && sha1_digest(data@)
        == info.pieces@[piece_index as int]@
}

/// The failure an attempt that did not deliver leaves: its error, or
/// `PieceVerificationFailed` for data that does not hash right.
pub open spec fn attempt_failure(result: Result<Vec<u8>>) -> TorrentError {
    match result {
        Ok(_) => TorrentError::PieceVerificationFailed,
        Err(e) => e,
    }
}

/// A run of a `PieceAttempts` over what the asked peers gave, in order, as
/// the caller drives it: `on_result` for each peer, stopping at the first
/// peer that delivers, `finish` once none is left.  The result comes with
/// the number of peers asked.
pub open spec fn piece_search(
    info: TorrentInfo,
    piece_index: usize,
    last_error: TorrentError,
    results: Seq<Result<Vec<u8>>>,
) -> (core::result::Result<Seq<u8>, TorrentError>, nat)
    decreases results.len(),
{
    if results.len() == 0 {
        (Err(last_error), 0)
    } else if attempt_delivers(info, piece_index, results[0]) {
        (Ok(results[0]->Ok_0@), 1)
    } else {
        let (r, n) = piece_search(info, piece_index, attempt_failure(results[0]), results.drop_first());
        (r, n + 1)
    }
}

/// A search for a piece asks each candidate at most once and stops at the
/// first peer whose data hashes right, which is the result; when no peer
/// delivers, every candidate is asked and the error is the failure of the
/// last one asked (or the starting error when there is none).  With the
/// candidates of `PieceAttempts::new` that is at most `MAX_RETRIES` peers,
/// and at most as many as there are peers.  The supplying peer's health
/// then counts one more success, with its timeout streak, cooldown and last
/// failure cleared (`after_success`).
pub proof fn lemma_piece_search(
    info: TorrentInfo,
    piece_index: usize,
    last_error: TorrentError,
    results: Seq<Result<Vec<u8>>>,
    e: HealthModel,
)
    ensures
        piece_search(info, piece_index, last_error, results).1 <= results.len(),
        forall|i: int|
            0 <= i < results.len() && attempt_delivers(info, piece_index, #[trigger] results[i])
                && (forall|j: int| 0 <= j < i ==> !attempt_delivers(info, piece_index, results[j]))
                ==> piece_search(info, piece_index, last_error, results) == (
                Ok::<Seq<u8>, TorrentError>(results[i]->Ok_0@),
                (i + 1) as nat,
            ),
        (forall|i: int| 0 <= i < results.len() ==> !attempt_delivers(info, piece_index, #[trigger] results[i]))
            ==> piece_search(info, piece_index, last_error, results) == (
            Err::<Seq<u8>, TorrentError>(
                if results.len() == 0 {
                    last_error
                } else {
                    attempt_failure(results.last())
                },
            ),
            results.len(),
        ),
        piece_search(info, piece_index, last_error, results).0 matches Ok(d) ==> exists|i: int|
            0 <= i < results.len() && attempt_delivers(info, piece_index, #[trigger] results[i])
                && d == results[i]->Ok_0@,
        after_success(e).0 == e.0 + 1 && after_success(e).2 == 0 && after_success(e).3 is None
            && after_success(e).6 is None,
    decreases results.len(),
{
    if results.len() > 0 {
        let rest = results.drop_first();
        let next_error = attempt_failure(results[0]);
        lemma_piece_search(info, piece_index, next_error, rest, e);
        assert forall|i: int|
            0 <= i < results.len() && attempt_delivers(info, piece_index, #[trigger] results[i])
                && (forall|j: int| 0 <= j < i ==> !attempt_delivers(info, piece_index, results[j]))
                implies piece_search(info, piece_index, last_error, results) == (
                Ok::<Seq<u8>, TorrentError>(results[i]->Ok_0@),
                (i + 1) as nat,
            ) by {
            if i > 0 {
                assert(!attempt_delivers(info, piece_index, results[0]));
                assert(rest[i - 1] == results[i]);
                assert forall|j: int| 0 <= j < i - 1 implies !attempt_delivers(info, piece_index, rest[j]) by {
                    assert(rest[j] == results[j + 1]);
                }
            }
        }
        if forall|i: int| 0 <= i < results.len() ==> !attempt_delivers(info, piece_index, #[trigger] results[i]) {
            assert(!attempt_delivers(info, piece_index, results[0]));
            assert forall|i: int| 0 <= i < rest.len() implies !attempt_delivers(info, piece_index, #[trigger] rest[i]) by {
                assert(rest[i] == results[i + 1]);
            }
            if rest.len() > 0 {
                assert(rest.last() == results.last());
            }
        }
        if !attempt_delivers(info, piece_index, results[0]) {
            let r = piece_search(info, piece_index, next_error, rest);
            if r.0 is Ok {
                let i = choose|i: int|
                    0 <= i < rest.len() && attempt_delivers(info, piece_index, #[trigger] rest[i])
                        && r.0->Ok_0 == rest[i]->Ok_0@;
                assert(results[i + 1] == rest[i]);
            }
        }
    }
}

// ---------------------------------------------------------------- the queue

/// The queue of pieces to fetch, in the given order, each allowed to go
/// back in the queue `PIECE_REQUEUE_LIMIT` times.
pub fn initial_piece_tasks(missing_pieces: &Vec<usize>) -> (r: VecDeque<PieceTask>)
    ensures
        r@.len() == missing_pieces@.len(),
        forall|i: int|
            0 <= i < r@.len() ==> #[trigger] r@[i] == (PieceTask {
                piece_index: missing_pieces@[i],
                retries_left: PIECE_REQUEUE_LIMIT,
            }),
{
    let mut queue: VecDeque<PieceTask> = VecDeque::new();
    let mut i: usize = 0;
    while i < missing_pieces.len()
        invariant
            i <= missing_pieces@.len(),
            queue@.len() == i,
            forall|j: int|
                0 <= j < i ==> #[trigger] queue@[j] == (PieceTask {
                    piece_index: missing_pieces@[j],
                    retries_left: PIECE_REQUEUE_LIMIT,
                }),
        decreases missing_pieces@.len() - i,
    {
        queue.push_back(PieceTask { piece_index: missing_pieces[i], retries_left: PIECE_REQUEUE_LIMIT });
        i = i + 1;
    }
    queue
}

/// How many workers fetch pieces at once: one per queued piece, at most
/// `WORKER_COUNT`.
pub fn worker_count(queued: usize) -> (r: usize)
    ensures
        r == if queued < WORKER_COUNT { queued } else { WORKER_COUNT },
{
    if queued < WORKER_COUNT {
        queued
    } else {
        WORKER_COUNT
    }
}

/// The next piece to fetch, unless a shutdown was asked for: then nothing
/// new is started and the queue stays as it is.
pub fn dequeue_piece_task(queue: &mut VecDeque<PieceTask>, shutdown_requested: bool) -> (r: Option<PieceTask>)
    ensures
        shutdown_requested ==> r is None && final(queue)@ == old(queue)@,
        !shutdown_requested && old(queue)@.len() == 0 ==> r is None && final(queue)@ == old(queue)@,
        !shutdown_requested && old(queue)@.len() > 0 ==> r == Some(old(queue)@[0]) && final(queue)@
            == old(queue)@.drop_first(),
{
    if shutdown_requested {
        None
    } else {
        queue.pop_front()
    }
}

/// What becomes of a piece that failed on every peer asked: it goes back in
/// the queue with one retry fewer, unless it has none left or a shutdown
/// was asked for.
pub fn requeue_after_failure(task: PieceTask, shutdown_requested: bool) -> (r: Option<PieceTask>)
    ensures
        task.retries_left > 0 && !shutdown_requested ==> r == Some(
            PieceTask { piece_index: task.piece_index, retries_left: (task.retries_left - 1) as u8 },
        ),
        !shutdown_requested ==> r == requeued_after(task, 1),
        task.retries_left == 0 || shutdown_requested ==> r is None,
{
    proof {
        reveal_with_fuel(requeued_after, 2);
    }
    if task.retries_left > 0 && !shutdown_requested {
        Some(PieceTask { piece_index: task.piece_index, retries_left: task.retries_left - 1 })
    } else {
        None
    }
}

/// The task `k` failures after `task`, each followed by a requeue without a
/// shutdown, if the task is still in the queue by then.
pub open spec fn requeued_after(task: PieceTask, k: nat) -> Option<PieceTask>
    decreases k,
{
    if k == 0 {
        Some(task)
    } else {
        match requeued_after(task, (k - 1) as nat) {
            Some(t) => if t.retries_left > 0 {
                Some(PieceTask { piece_index: t.piece_index, retries_left: (t.retries_left - 1) as u8 })
            } else {
                None
            },
            None => None,
        }
    }
}

/// A piece goes back in the queue at most as often as its task allows: after
/// `k` requeues it is still the same piece with `k` retries fewer, and no
/// more than `retries_left` requeues happen.  A task of `initial_piece_tasks`
/// is therefore dequeued at most `PIECE_REQUEUE_LIMIT + 1` times.
pub proof fn lemma_requeue_bound(task: PieceTask, k: nat)
    ensures
        requeued_after(task, k) is Some <==> k <= task.retries_left,
        requeued_after(task, k) matches Some(t) ==> t.piece_index == task.piece_index
            && t.retries_left == task.retries_left - k,
    decreases k,
{
    if k > 0 {
        lemma_requeue_bound(task, (k - 1) as nat);
    }
}

/// The error a download ends with when it was interrupted: the error the
/// caller kept from its workers after the interruption (the last one seen),
/// or a note that the partial state is kept.
pub fn interrupted_error(interruption_error: Option<TorrentError>) -> (r: TorrentError)
    ensures
        interruption_error matches Some(e) ==> r == e,
        interruption_error is None ==> (r matches TorrentError::DownloadFailed(m) && m@
            == "Interrupted; partial state preserved for resume"@),
{
    match interruption_error {
        Some(e) => e,
        None => TorrentError::DownloadFailed(string_of("Interrupted; partial state preserved for resume")),
    }
}

/// The error for a worker that stopped abnormally.
pub fn task_failed_error(detail: &str) -> (r: TorrentError)
    ensures
        r matches TorrentError::DownloadFailed(m) && m@ == "A download task failed: "@ + detail@,
{
    let mut m = string_of("A download task failed: ");
    push_str(&mut m, detail);
    TorrentError::DownloadFailed(m)
}

/// Refuses to finish a download whose workers left pieces missing.
pub fn check_all_pieces_stored(state: &ResumeState) -> (r: Result<()>)
    ensures
        (forall|i: int| 0 <= i < state.completed_pieces@.len() ==> state.completed_pieces@[i])
            ==> r is Ok,
        !(forall|i: int| 0 <= i < state.completed_pieces@.len() ==> state.completed_pieces@[i])
            ==> (r matches Err(TorrentError::DownloadFailed(m)) && m@ == "Some pieces failed to download"@),
{
    if !state.is_complete() {
        return Err(TorrentError::DownloadFailed(string_of("Some pieces failed to download")));
    }
    Ok(())
}

} // verus!
