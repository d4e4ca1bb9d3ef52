//! Tracker protocol: announce requests over HTTP and UDP (BEP 15), compact
//! peer lists, and the choice among several trackers.

use vstd::prelude::*;
use crate::bytes::{
    be_bytes, be_value, lemma_be_bytes_len, lemma_be_round_trip, lemma_be_value_bound, lemma_pow256_facts, push_be,
    read_be,
};
use crate::error::{Result, TorrentError};
use crate::text::{
    contains_text, decimal, lossy_text, occurs_at, push_decimal, push_str, same_text, string_of,
    utf8_lossy,
};
use crate::torrent::{is_format_error, TorrentInfo};
use vstd::utf8::{decode_utf8, valid_utf8};

verus! {

/// An IPv4 peer address.
#[derive(Debug, Clone, Copy, PartialEq, Eq)]
pub struct PeerAddr {
    pub ip: [u8; 4],
    pub port: u16,
}

/// A list of peers, as a tracker reports them.
#[derive(Debug, Clone)]
pub struct Peers(pub Vec<PeerAddr>);

/// The model of a peer: its four address bytes and its port.
pub open spec fn peer_model(p: PeerAddr) -> (Seq<u8>, u16) {
    (p.ip@, p.port)
}

/// The models of a list of peers.
pub open spec fn peer_models(v: Seq<PeerAddr>) -> Seq<(Seq<u8>, u16)> {
    v.map_values(|p: PeerAddr| peer_model(p))
}

/// The peers of a compact peer string: six bytes each, the IPv4 address
/// then the port, big-endian.
pub open spec fn compact_peers(v: Seq<u8>) -> Seq<(Seq<u8>, u16)> {
    Seq::new(
        v.len() / 6,
        |i: int| (v.subrange(6 * i, 6 * i + 4), (v[6 * i + 4] as int * 256 + v[6 * i + 5] as int) as u16),
    )
}

/// The compact string of a list of peers.
pub open spec fn compact_string(peers: Seq<(Seq<u8>, u16)>) -> Seq<u8>
    decreases peers.len(),
{
    if peers.len() == 0 {
        Seq::empty()
    } else {
        compact_string(peers.drop_last()) + peers.last().0 + be_bytes(peers.last().1 as nat, 2)
    }
}

/// The error text for a compact peer string of the wrong length.
pub open spec fn compact_length_message(n: nat) -> Seq<char> {
    "Peers byte string length "@ + decimal(n) + " is not a multiple of 6"@
}

/// The two bytes of a port, and the port they stand for.
proof fn lemma_port_bytes(port: u16)
    ensures
        be_bytes(port as nat, 2) == seq![(port / 256) as u8, (port % 256) as u8],
        ((port / 256) as u8) as int * 256 + ((port % 256) as u8) as int == port as int,
{
    reveal_with_fuel(be_bytes, 3);
    assert(be_bytes(port as nat, 2) =~= seq![(port / 256) as u8, (port % 256) as u8]);
}

/// The start of the `i`-th six-byte record lies inside the string.
proof fn lemma_record_in_bounds(len: nat, i: int)
    requires
        0 <= i < len / 6,
    ensures
        6 * i + 6 <= len,
{
    assert(6 * i + 6 <= 6 * (len / 6)) by (nonlinear_arith)
        requires
            0 <= i < len / 6,
    ;
}

impl Peers {
    /// Reads a compact peer string.  Its length must be a multiple of six.
    pub fn from_compact_bytes(v: &[u8]) -> (r: Result<Self>)
        ensures
            v@.len() % 6 != 0 ==> (r matches Err(TorrentError::InvalidResponseFormat(m))
                && m@ == compact_length_message(v@.len())),
            v@.len() % 6 == 0 ==> (r matches Ok(p) && peer_models(p.0@) == compact_peers(v@)),
    {
        if v.len() % 6 != 0 {
            let mut m = string_of("Peers byte string length ");
            push_decimal(&mut m, v.len() as u64);
            push_str(&mut m, " is not a multiple of 6");
            return Err(TorrentError::InvalidResponseFormat(m));
        }
        let count = v.len() / 6;
        let mut peers: Vec<PeerAddr> = Vec::new();
        let mut i: usize = 0;
        while i < count
            invariant
                count == v@.len() / 6,
                v.len() == v@.len(),
                i <= count,
                peers@.len() == i,
                peer_models(peers@) == compact_peers(v@).take(i as int),
            decreases count - i,
        {
            proof {
                lemma_record_in_bounds(v@.len(), i as int);
            }
            let base = 6 * i;
            let ip = [v[base], v[base + 1], v[base + 2], v[base + 3]];
            let port: u16 = (v[base + 4] as u16) * 256 + v[base + 5] as u16;
            peers.push(PeerAddr { ip, port });
            proof {
                assert(ip@ =~= v@.subrange(6 * i, 6 * i + 4));
                let cp = compact_peers(v@)[i as int];
                assert(cp.0 == v@.subrange(6 * i, 6 * i + 4));
                assert(cp.1 == (v@[6 * i + 4] as int * 256 + v@[6 * i + 5] as int) as u16);
                assert(port == v@[6 * i + 4] as int * 256 + v@[6 * i + 5] as int);
                assert(peers@[i as int] == PeerAddr { ip, port });
                assert(peer_models(peers@)[i as int] == (ip@, port));
                assert(peer_models(peers@)[i as int] == compact_peers(v@)[i as int]);
                assert(peer_models(peers@) =~= compact_peers(v@).take(i + 1));
            }
            i = i + 1;
        }
        assert(compact_peers(v@).take(count as int) =~= compact_peers(v@));
        Ok(Peers(peers))
    }

    /// The compact peer string of these peers; reading it back gives the
    /// same peers.
    pub fn to_compact_bytes(&self) -> (r: Vec<u8>)
        ensures
            r@ == compact_string(peer_models(self.0@)),
            r@.len() == 6 * self.0@.len(),
            compact_peers(r@) == peer_models(self.0@),
    {
        let mut out: Vec<u8> = Vec::new();
        let mut i: usize = 0;
        while i < self.0.len()
            invariant
                i <= self.0.len(),
                out@ == compact_string(peer_models(self.0@.take(i as int))),
                out@.len() == 6 * i,
                self.0@.len() == self.0.len(),
                compact_peers(out@) == peer_models(self.0@.take(i as int)),
            decreases self.0.len() - i,
        {
            let p = self.0[i];
            let ghost before = out@;
            out.push(p.ip[0]);
            out.push(p.ip[1]);
            out.push(p.ip[2]);
            out.push(p.ip[3]);
            push_be(&mut out, p.port as u64, 2);
            proof {
                lemma_be_bytes_len(p.port as nat, 2);
                assert(peer_models(self.0@.take(i + 1)).drop_last() =~= peer_models(
                    self.0@.take(i as int),
                ));
                assert(out@ =~= before + p.ip@ + be_bytes(p.port as nat, 2));
                lemma_port_bytes(p.port);
                assert(out@.len() == 6 * i + 6);
                assert(out@[6 * i + 4] == (p.port / 256) as u8);
                assert(out@[6 * i + 5] == (p.port % 256) as u8);
                assert(compact_peers(out@) =~= peer_models(self.0@.take(i + 1))) by {
                    assert forall|k: int| 0 <= k < i + 1 implies compact_peers(out@)[k]
                        == peer_models(self.0@.take(i + 1))[k] by {
                        if k < i {
                            assert(6 * k + 6 <= 6 * i);
                            assert(out@.subrange(6 * k, 6 * k + 4) =~= before.subrange(
                                6 * k,
                                6 * k + 4,
                            ));
                            assert(out@[6 * k + 4] == before[6 * k + 4]);
                            assert(out@[6 * k + 5] == before[6 * k + 5]);
                            assert(compact_peers(out@)[k] == compact_peers(before)[k]);
                            assert(peer_models(self.0@.take(i + 1))[k] == peer_models(
                                self.0@.take(i as int),
                            )[k]);
                        } else {
                            assert(out@.subrange(6 * k, 6 * k + 4) =~= p.ip@);
                            assert(self.0@.take(i + 1)[k] == p);
                            assert(compact_peers(out@)[k] == (p.ip@, p.port));
                        }
                    }
                }
            }
            i = i + 1;
        }
        assert(self.0@.take(self.0.len() as int) =~= self.0@);
        out
    }
}

/// The text of a peer address: dotted decimal address, a colon, the port.
pub open spec fn peer_text(p: PeerAddr) -> Seq<char> {
    decimal(p.ip[0] as nat) + "."@ + decimal(p.ip[1] as nat) + "."@ + decimal(p.ip[2] as nat)
        + "."@ + decimal(p.ip[3] as nat) + ":"@ + decimal(p.port as nat)
}

impl PeerAddr {
    /// The address as `a.b.c.d:port`.
    pub fn to_string(&self) -> (r: String)
        ensures
            r@ == peer_text(*self),
    {
        let mut s = String::new();
        push_decimal(&mut s, self.ip[0] as u64);
        push_str(&mut s, ".");
        push_decimal(&mut s, self.ip[1] as u64);
        push_str(&mut s, ".");
        push_decimal(&mut s, self.ip[2] as u64);
        push_str(&mut s, ".");
        push_decimal(&mut s, self.ip[3] as u64);
        push_str(&mut s, ":");
        push_decimal(&mut s, self.port as u64);
        assert(s@ =~= peer_text(*self));
        s
    }
}

// ---------------------------------------------------------------- HTTP

/// The parameters of an announce request.
#[derive(Debug, Clone)]
pub struct TrackerRequest {
    pub peer_id: [u8; 20],
    pub port: u16,
    pub uploaded: usize,
    pub downloaded: usize,
    pub left: usize,
    pub compact: u8,
}

/// A tracker's answer: the re-announce interval (if given) and the peers.
#[derive(Debug, Clone)]
pub struct TrackerResponse {
    pub interval: Option<usize>,
    pub peers: Peers,
}

/// The fields of a bencoded HTTP tracker response that matter here.
#[derive(Debug, Clone)]
pub struct RawTrackerResponse {
    pub interval: Option<usize>,
    pub failure_reason: Option<String>,
    pub peers: Option<Peers>,
}

/// Bytes that form-urlencoding leaves as they are.
pub open spec fn kept_in_urlencoding(b: u8) -> bool {
    b == 42 || b == 45 || b == 46 || (48 <= b <= 57) || (65 <= b <= 90) || b == 95 || (97 <= b
        <= 122)
}

/// An upper-case hexadecimal digit.
pub open spec fn upper_hex_digit(n: int) -> char {
    if n < 10 {
        ((48 + n) as u8) as char
    } else {
        ((55 + n) as u8) as char
    }
}

/// The form-urlencoding of one byte: kept, `+` for a space, or `%XX`.
pub open spec fn urlencoded_byte(b: u8) -> Seq<char> {
    if kept_in_urlencoding(b) {
        seq![b as char]
    } else if b == 32 {
        seq!['+']
    } else {
        seq!['%', upper_hex_digit(b as int / 16), upper_hex_digit(b as int % 16)]
    }
}

/// The form-urlencoding of a byte sequence, byte by byte.
pub open spec fn urlencoded(bytes: Seq<u8>) -> Seq<char>
    decreases bytes.len(),
{
    if bytes.len() == 0 {
        Seq::empty()
    } else {
        urlencoded(bytes.drop_last()) + urlencoded_byte(bytes.last())
    }
}

/// Percent-encodes raw bytes for a query string with
/// `url::form_urlencoded::byte_serialize`: ASCII letters, digits and `*-._`
/// stay, a space becomes `+`, any other byte becomes `%` and two upper-case
/// hexadecimal digits.
#[verifier::external_body]
pub fn percent_encode(bytes: &[u8]) -> (r: String)
    ensures
        r@ == urlencoded(bytes@),
{
    url::form_urlencoded::byte_serialize(bytes).collect()
}

/// The query string of an announce request.
pub open spec fn announce_query(info_hash: Seq<u8>, request: TrackerRequest) -> Seq<char> {
    "peer_id="@ + urlencoded(request.peer_id@) + "&port="@ + decimal(request.port as nat)
        + "&uploaded="@ + decimal(request.uploaded as nat) + "&downloaded="@ + decimal(
        request.downloaded as nat,
    ) + "&left="@ + decimal(request.left as nat) + "&compact="@ + decimal(
        request.compact as nat,
    ) + "&info_hash="@ + urlencoded(info_hash)
}

/// The announce URL: the tracker URL, `?` (or `&` when it already has a
/// query), then the query string.
pub open spec fn announce_url(tracker_url: Seq<char>, info_hash: Seq<u8>, request: TrackerRequest) -> Seq<char> {
    tracker_url + (if tracker_url.contains('?') {
        seq!['&']
    } else {
        seq!['?']
    }) + announce_query(info_hash, request)
}

/// Builds the HTTP announce URL for a request.
pub fn build_tracker_url(tracker_url: &str, info_hash: &[u8; 20], request: &TrackerRequest) -> (r: Result<String>)
    ensures
        r matches Ok(u) && u@ == announce_url(tracker_url@, info_hash@, *request),
{
    proof {
        reveal_strlit("&");
        reveal_strlit("?");
    }
    let mut url = string_of(tracker_url);
    if crate::text::contains_char(tracker_url, '?') {
        push_str(&mut url, "&");
    } else {
        push_str(&mut url, "?");
    }
    push_str(&mut url, "peer_id=");
    let peer_id = percent_encode(&request.peer_id);
    push_str(&mut url, peer_id.as_str());
    push_str(&mut url, "&port=");
    push_decimal(&mut url, request.port as u64);
    push_str(&mut url, "&uploaded=");
    push_decimal(&mut url, request.uploaded as u64);
    push_str(&mut url, "&downloaded=");
    push_decimal(&mut url, request.downloaded as u64);
    push_str(&mut url, "&left=");
    push_decimal(&mut url, request.left as u64);
    push_str(&mut url, "&compact=");
    push_decimal(&mut url, request.compact as u64);
    push_str(&mut url, "&info_hash=");
    let hash = percent_encode(info_hash);
    push_str(&mut url, hash.as_str());
    assert(url@ =~= announce_url(tracker_url@, info_hash@, *request));
    Ok(url)
}

/// Turns a decoded HTTP tracker response into the tracker's answer: a
/// failure reason becomes a `Tracker` error; otherwise the peers are required.
pub fn tracker_response_from_raw(raw: RawTrackerResponse) -> (r: Result<TrackerResponse>)
    ensures
        raw.failure_reason matches Some(f) ==> (r matches Err(TorrentError::Tracker(m)) && m@
            == f@),
        raw.failure_reason is None && raw.peers is None ==> (r matches Err(
            TorrentError::InvalidResponseFormat(m),
        ) && m@ == "Tracker response missing peers"@),
        raw.failure_reason is None && raw.peers is Some ==> (r matches Ok(t) && t.interval
            == raw.interval && t.peers == raw.peers->0),
{
    if let Some(failure_reason) = raw.failure_reason {
        return Err(TorrentError::Tracker(failure_reason));
    }
    match raw.peers {
        Some(peers) => Ok(TrackerResponse { interval: raw.interval, peers }),
        None => Err(
            TorrentError::InvalidResponseFormat(string_of("Tracker response missing peers")),
        ),
    }
}

// ---------------------------------------------------------------- UDP

/// The protocol id that opens a UDP connect request.
pub const UDP_CONNECT_MAGIC: u64 = 0x41727101980;

/// The UDP action numbers.
pub const UDP_CONNECT_ACTION: u32 = 0;
pub const UDP_ANNOUNCE_ACTION: u32 = 1;
pub const UDP_ERROR_ACTION: u32 = 3;

/// How long a UDP connection id stays usable, in milliseconds.
pub const UDP_CONNECTION_ID_TTL_MS: u64 = 60_000;

/// The big-endian number in bytes `a..b` of `s`.
pub open spec fn field(s: Seq<u8>, a: int, b: int) -> nat {
    be_value(s.subrange(a, b))
}

/// A UDP connect request: protocol id, connect action, transaction id.
pub open spec fn connect_packet(transaction_id: u32) -> Seq<u8> {
    be_bytes(UDP_CONNECT_MAGIC as nat, 8) + be_bytes(UDP_CONNECT_ACTION as nat, 4) + be_bytes(
        transaction_id as nat,
        4,
    )
}

fn bytes_to_array16(v: &Vec<u8>) -> (r: [u8; 16])
    requires
        v@.len() == 16,
    ensures
        r@ == v@,
{
    let mut out = [0u8; 16];
    let mut i: usize = 0;
    while i < 16
        invariant
            v@.len() == 16,
            i <= 16,
            forall|j: int| 0 <= j < i ==> out@[j] == v@[j],
        decreases 16 - i,
    {
        out[i] = v[i];
        i = i + 1;
    }
    assert(out@ =~= v@);
    out
}

/// Encodes a UDP connect request.
pub fn encode_udp_connect_request(transaction_id: u32) -> (r: [u8; 16])
    ensures
        r@ == connect_packet(transaction_id),
{
    let mut packet: Vec<u8> = Vec::new();
    push_be(&mut packet, UDP_CONNECT_MAGIC, 8);
    push_be(&mut packet, UDP_CONNECT_ACTION as u64, 4);
    push_be(&mut packet, transaction_id as u64, 4);
    proof {
        lemma_be_bytes_len(UDP_CONNECT_MAGIC as nat, 8);
        lemma_be_bytes_len(UDP_CONNECT_ACTION as nat, 4);
        lemma_be_bytes_len(transaction_id as nat, 4);
        assert(packet@ =~= connect_packet(transaction_id));
    }
    bytes_to_array16(&packet)
}

/// Reads the 32-bit big-endian number at `start`.
fn read_u32(bytes: &[u8], start: usize) -> (r: u32)
    requires
        start + 4 <= bytes@.len(),
    ensures
        r == field(bytes@, start as int, start + 4),
{
    let v = read_be(bytes, start, 4);
    proof {
        lemma_be_value_bound(bytes@.subrange(start as int, start + 4));
        lemma_pow256_facts();
    }
    v as u32
}

/// The bytes after the first eight, as the text of a tracker error.
fn error_text(response: &[u8]) -> (r: String)
    requires
        response@.len() >= 8,
    ensures
        r@ == lossy_text(response@.skip(8)),
        valid_utf8(response@.skip(8)) ==> r@ == decode_utf8(response@.skip(8)),
{
    let tail = vstd::slice::slice_subrange(response, 8, response.len());
    assert(tail@ =~= response@.skip(8));
    utf8_lossy(tail)
}

/// The outcome shared by UDP connect and announce responses before their
/// own fields are read: `None` when the header is acceptable for `action`.
pub open spec fn udp_header_problem(response: Seq<u8>, expected: u32, action: u32, min_len: int) -> bool {
    response.len() < 8 || field(response, 4, 8) != expected || field(response, 0, 4) != action
        || response.len() < min_len
}

/// True when `r` is the error a UDP response header gives, checked in the
/// order: too short, wrong transaction id, tracker error, wrong action or
/// length.
pub open spec fn udp_header_error<T>(
    r: Result<T>,
    response: Seq<u8>,
    expected: u32,
    action: u32,
    min_len: int,
    too_short: Seq<char>,
    invalid: Seq<char>,
) -> bool {
    if response.len() < 8 {
        is_format_error(r, too_short)
    } else if field(response, 4, 8) != expected {
        r matches Err(TorrentError::Tracker(m)) && m@ == "UDP tracker transaction ID mismatch"@
    } else if field(response, 0, 4) == UDP_ERROR_ACTION {
        r matches Err(TorrentError::Tracker(m)) && m@ == lossy_text(response.skip(8)) && (
        valid_utf8(response.skip(8)) ==> m@ == decode_utf8(response.skip(8)))
    } else {
        is_format_error(r, invalid)
    }
}

/// Reads a UDP connect response and returns the connection id.
pub fn parse_udp_connect_response(response: &[u8], expected_transaction_id: u32) -> (r: Result<u64>)
    ensures
        udp_header_problem(response@, expected_transaction_id, UDP_CONNECT_ACTION, 16)
            ==> udp_header_error(
            r,
            response@,
            expected_transaction_id,
            UDP_CONNECT_ACTION,
            16,
            "UDP connect response too short"@,
            "Invalid UDP connect response"@,
        ),
        !udp_header_problem(response@, expected_transaction_id, UDP_CONNECT_ACTION, 16) ==> r
            == Ok::<u64, TorrentError>(field(response@, 8, 16) as u64),
{
    if response.len() < 8 {
        return Err(TorrentError::InvalidResponseFormat(string_of("UDP connect response too short")));
    }
    let action = read_u32(response, 0);
    let transaction_id = read_u32(response, 4);
    if transaction_id != expected_transaction_id {
        return Err(TorrentError::Tracker(string_of("UDP tracker transaction ID mismatch")));
    }
    if action == UDP_ERROR_ACTION {
        return Err(TorrentError::Tracker(error_text(response)));
    }
    if action != UDP_CONNECT_ACTION || response.len() < 16 {
        return Err(TorrentError::InvalidResponseFormat(string_of("Invalid UDP connect response")));
    }
    Ok(read_be(response, 8, 8))
}

/// A UDP announce request: connection id, announce action, transaction id,
/// info hash, peer id, downloaded, left, uploaded, event 0, IP 0, key,
/// wanted peers (-1) and port.
pub open spec fn announce_packet(
    connection_id: u64,
    transaction_id: u32,
    info_hash: Seq<u8>,
    request: TrackerRequest,
    key: u32,
) -> Seq<u8> {
    be_bytes(connection_id as nat, 8) + be_bytes(UDP_ANNOUNCE_ACTION as nat, 4) + be_bytes(
        transaction_id as nat,
        4,
    ) + info_hash + request.peer_id@ + be_bytes(request.downloaded as nat, 8) + be_bytes(
        request.left as nat,
        8,
    ) + be_bytes(request.uploaded as nat, 8) + be_bytes(0, 4) + be_bytes(0, 4) + be_bytes(
        key as nat,
        4,
    ) + be_bytes(u32::MAX as nat, 4) + be_bytes(request.port as nat, 2)
}

/// The UDP announce packet has the BEP 15 layout: the connection id in
/// bytes 0..8, the announce action (1) in 8..12, the transaction id in
/// 12..16, the info hash in 16..36, the peer id in 36..56, downloaded, left
/// and uploaded as 8-byte numbers at 56, 64 and 72, event and IP zero at 80
/// and 84, the key at 88, -1 wanted peers at 92 and the port at 96, every
/// number big-endian; 98 bytes in all.
pub proof fn lemma_announce_packet_layout(
    connection_id: u64,
    transaction_id: u32,
    info_hash: Seq<u8>,
    request: TrackerRequest,
    key: u32,
)
    requires
        info_hash.len() == 20,
    ensures
        ({
            let p = announce_packet(connection_id, transaction_id, info_hash, request, key);
            &&& p.len() == 98
            &&& be_value(p.subrange(0, 8)) == connection_id
            &&& be_value(p.subrange(8, 12)) == 1
            &&& be_value(p.subrange(12, 16)) == transaction_id
            &&& p.subrange(16, 36) == info_hash
            &&& p.subrange(36, 56) == request.peer_id@
            &&& be_value(p.subrange(56, 64)) == request.downloaded
            &&& be_value(p.subrange(64, 72)) == request.left
            &&& be_value(p.subrange(72, 80)) == request.uploaded
            &&& be_value(p.subrange(80, 84)) == 0
            &&& be_value(p.subrange(84, 88)) == 0
            &&& be_value(p.subrange(88, 92)) == key
            &&& be_value(p.subrange(92, 96)) == u32::MAX
            &&& be_value(p.subrange(96, 98)) == request.port
        }),
{
    let p = announce_packet(connection_id, transaction_id, info_hash, request, key);
    lemma_pow256_facts();
    lemma_be_bytes_len(connection_id as nat, 8);
    lemma_be_bytes_len(UDP_ANNOUNCE_ACTION as nat, 4);
    lemma_be_bytes_len(transaction_id as nat, 4);
    lemma_be_bytes_len(request.downloaded as nat, 8);
    lemma_be_bytes_len(request.left as nat, 8);
    lemma_be_bytes_len(request.uploaded as nat, 8);
    lemma_be_bytes_len(0, 4);
    lemma_be_bytes_len(key as nat, 4);
    lemma_be_bytes_len(u32::MAX as nat, 4);
    lemma_be_bytes_len(request.port as nat, 2);
    lemma_be_round_trip(connection_id as nat, 8);
    lemma_be_round_trip(UDP_ANNOUNCE_ACTION as nat, 4);
    lemma_be_round_trip(transaction_id as nat, 4);
    lemma_be_round_trip(request.downloaded as nat, 8);
    lemma_be_round_trip(request.left as nat, 8);
    lemma_be_round_trip(request.uploaded as nat, 8);
    lemma_be_round_trip(0, 4);
    lemma_be_round_trip(key as nat, 4);
    lemma_be_round_trip(u32::MAX as nat, 4);
    lemma_be_round_trip(request.port as nat, 2);
    assert(p.subrange(0, 8) =~= be_bytes(connection_id as nat, 8));
    assert(p.subrange(8, 12) =~= be_bytes(UDP_ANNOUNCE_ACTION as nat, 4));
    assert(p.subrange(12, 16) =~= be_bytes(transaction_id as nat, 4));
    assert(p.subrange(16, 36) =~= info_hash);
    assert(p.subrange(36, 56) =~= request.peer_id@);
    assert(p.subrange(56, 64) =~= be_bytes(request.downloaded as nat, 8));
    assert(p.subrange(64, 72) =~= be_bytes(request.left as nat, 8));
    assert(p.subrange(72, 80) =~= be_bytes(request.uploaded as nat, 8));
    assert(p.subrange(80, 84) =~= be_bytes(0, 4));
    assert(p.subrange(84, 88) =~= be_bytes(0, 4));
    assert(p.subrange(88, 92) =~= be_bytes(key as nat, 4));
    assert(p.subrange(92, 96) =~= be_bytes(u32::MAX as nat, 4));
    assert(p.subrange(96, 98) =~= be_bytes(request.port as nat, 2));
}

/// Encodes a UDP announce request (98 bytes).
pub fn encode_udp_announce_request(
    connection_id: u64,
    transaction_id: u32,
    info_hash: &[u8; 20],
    request: &TrackerRequest,
    key: u32,
) -> (r: Vec<u8>)
    ensures
        r@ == announce_packet(connection_id, transaction_id, info_hash@, *request, key),
        r@.len() == 98,
        be_value(r@.subrange(0, 8)) == connection_id,
        be_value(r@.subrange(8, 12)) == 1,
        be_value(r@.subrange(12, 16)) == transaction_id,
        r@.subrange(16, 36) == info_hash@,
        r@.subrange(36, 56) == request.peer_id@,
        be_value(r@.subrange(56, 64)) == request.downloaded,
        be_value(r@.subrange(64, 72)) == request.left,
        be_value(r@.subrange(72, 80)) == request.uploaded,
        be_value(r@.subrange(88, 92)) == key,
        be_value(r@.subrange(96, 98)) == request.port,
{
    let mut packet: Vec<u8> = Vec::new();
    push_be(&mut packet, connection_id, 8);
    push_be(&mut packet, UDP_ANNOUNCE_ACTION as u64, 4);
    push_be(&mut packet, transaction_id as u64, 4);
    let mut i: usize = 0;
    let ghost head = packet@;
    while i < 20
        invariant
            i <= 20,
            packet@ == head + info_hash@.take(i as int),
        decreases 20 - i,
    {
        packet.push(info_hash[i]);
        assert(packet@ =~= head + info_hash@.take(i + 1));
        i = i + 1;
    }
    let ghost head2 = packet@;
    let mut j: usize = 0;
    while j < 20
        invariant
            j <= 20,
            packet@ == head2 + request.peer_id@.take(j as int),
        decreases 20 - j,
    {
        packet.push(request.peer_id[j]);
        assert(packet@ =~= head2 + request.peer_id@.take(j + 1));
        j = j + 1;
    }
    push_be(&mut packet, request.downloaded as u64, 8);
    push_be(&mut packet, request.left as u64, 8);
    push_be(&mut packet, request.uploaded as u64, 8);
    push_be(&mut packet, 0, 4);
    push_be(&mut packet, 0, 4);
    push_be(&mut packet, key as u64, 4);
    push_be(&mut packet, u32::MAX as u64, 4);
    push_be(&mut packet, request.port as u64, 2);
    proof {
        assert(info_hash@.take(20) =~= info_hash@);
        assert(request.peer_id@.take(20) =~= request.peer_id@);
        lemma_be_bytes_len(connection_id as nat, 8);
        lemma_be_bytes_len(UDP_ANNOUNCE_ACTION as nat, 4);
        lemma_be_bytes_len(transaction_id as nat, 4);
        lemma_be_bytes_len(request.downloaded as nat, 8);
        lemma_be_bytes_len(request.left as nat, 8);
        lemma_be_bytes_len(request.uploaded as nat, 8);
        lemma_be_bytes_len(0, 4);
        lemma_be_bytes_len(key as nat, 4);
        lemma_be_bytes_len(u32::MAX as nat, 4);
        lemma_be_bytes_len(request.port as nat, 2);
        assert(packet@ =~= announce_packet(connection_id, transaction_id, info_hash@, *request, key));
        lemma_announce_packet_layout(connection_id, transaction_id, info_hash@, *request, key);
    }
    packet
}

/// Reads a UDP announce response: the interval, then the compact peers from
/// byte 20 on.
pub fn parse_udp_announce_response(response: &[u8], expected_transaction_id: u32) -> (r: Result<TrackerResponse>)
    ensures
        udp_header_problem(response@, expected_transaction_id, UDP_ANNOUNCE_ACTION, 20)
            ==> udp_header_error(
            r,
            response@,
            expected_transaction_id,
            UDP_ANNOUNCE_ACTION,
            20,
            "UDP announce response too short"@,
            "Invalid UDP announce response"@,
        ),
        !udp_header_problem(response@, expected_transaction_id, UDP_ANNOUNCE_ACTION, 20) ==> {
            let peers = response@.skip(20);
            &&& peers.len() % 6 != 0 ==> (r matches Err(TorrentError::InvalidResponseFormat(m))
                && m@ == compact_length_message(peers.len()))
            &&& peers.len() % 6 == 0 ==> (r matches Ok(t) && t.interval == Some(
                field(response@, 8, 12) as usize,
            ) && peer_models(t.peers.0@) == compact_peers(peers))
        },
{
    if response.len() < 8 {
        return Err(
            TorrentError::InvalidResponseFormat(string_of("UDP announce response too short")),
        );
    }
    let action = read_u32(response, 0);
    let transaction_id = read_u32(response, 4);
    if transaction_id != expected_transaction_id {
        return Err(TorrentError::Tracker(string_of("UDP tracker transaction ID mismatch")));
    }
    if action == UDP_ERROR_ACTION {
        return Err(TorrentError::Tracker(error_text(response)));
    }
    if action != UDP_ANNOUNCE_ACTION || response.len() < 20 {
        return Err(TorrentError::InvalidResponseFormat(string_of("Invalid UDP announce response")));
    }
    let interval = read_u32(response, 8);
    let tail = vstd::slice::slice_subrange(response, 20, response.len());
    assert(tail@ =~= response@.skip(20));
    let peers = Peers::from_compact_bytes(tail)?;
    Ok(TrackerResponse { interval: Some(interval as usize), peers })
}

/// True while a UDP connection id obtained `elapsed_ms` milliseconds ago may
/// still be used (less than a minute).
pub fn udp_connection_id_is_fresh(elapsed_ms: u64) -> (r: bool)
    ensures
        r == (elapsed_ms < UDP_CONNECTION_ID_TTL_MS),
{
    elapsed_ms < UDP_CONNECTION_ID_TTL_MS
}

// ---------------------------------------------------------------- querying

/// The port announced to trackers.
pub const ANNOUNCE_PORT: u16 = 6881;

/// The announce request for a download: nothing up- or downloaded yet, the
/// whole (non-negative) length left, compact peers wanted.
pub fn announce_request(t: &TorrentInfo, peer_id: [u8; 20]) -> (r: TrackerRequest)
    ensures
        r.peer_id == peer_id,
        r.port == ANNOUNCE_PORT,
        r.uploaded == 0,
        r.downloaded == 0,
        r.left == (if t.length < 0 { 0 } else { t.length }) as usize,
        r.compact == 1,
{
    let left: i64 = if t.length < 0 { 0 } else { t.length };
    TrackerRequest {
        peer_id,
        port: ANNOUNCE_PORT,
        uploaded: 0,
        downloaded: 0,
        left: left as usize,
        compact: 1,
    }
}

/// How a tracker is reached.
#[derive(Debug, Clone, Copy, PartialEq, Eq)]
pub enum TrackerTransport {
    Http,
    Udp,
}

/// The transport for a tracker URL scheme: `http` and `https` go over HTTP,
/// `udp` over UDP; any other scheme is refused.
pub fn tracker_transport(scheme: &str) -> (r: Result<TrackerTransport>)
    ensures
        (scheme@ == "http"@ || scheme@ == "https"@) ==> r == Ok::<
            TrackerTransport,
            TorrentError,
        >(TrackerTransport::Http),
        scheme@ == "udp"@ ==> r == Ok::<TrackerTransport, TorrentError>(TrackerTransport::Udp),
        !(scheme@ == "http"@ || scheme@ == "https"@ || scheme@ == "udp"@) ==> (r matches Err(
            TorrentError::Tracker(m),
        ) && m@ == "Unsupported tracker scheme: "@ + scheme@),
{
    proof {
        reveal_strlit("http");
        reveal_strlit("https");
        reveal_strlit("udp");
        assert("udp"@.len() != "http"@.len());
        assert("udp"@.len() != "https"@.len());
    }
    if same_text(scheme, "http") || same_text(scheme, "https") {
        Ok(TrackerTransport::Http)
    } else if same_text(scheme, "udp") {
        Ok(TrackerTransport::Udp)
    } else {
        let mut m = string_of("Unsupported tracker scheme: ");
        push_str(&mut m, scheme);
        Err(TorrentError::Tracker(m))
    }
}

/// The URL text a tracker is contacted at: a URL without a scheme is taken
/// as `http://`; an empty URL is refused.
pub fn normalize_tracker_text(tracker_url: &str) -> (r: Result<String>)
    ensures
        tracker_url@.len() == 0 ==> (r matches Err(TorrentError::Tracker(m)) && m@
            == "Tracker URL is empty"@),
        tracker_url@.len() > 0 && (exists|i: int| occurs_at(tracker_url@, "://"@, i)) ==> (r matches Ok(
            u,
        ) && u@ == tracker_url@),
        tracker_url@.len() > 0 && !(exists|i: int| occurs_at(tracker_url@, "://"@, i)) ==> (r matches Ok(
            u,
        ) && u@ == "http://"@ + tracker_url@),
{
    if tracker_url.unicode_len() == 0 {
        return Err(TorrentError::Tracker(string_of("Tracker URL is empty")));
    }
    if contains_text(tracker_url, "://") {
        Ok(string_of(tracker_url))
    } else {
        let mut u = string_of("http://");
        push_str(&mut u, tracker_url);
        Ok(u)
    }
}

/// What querying the trackers one after the other has seen so far: the last
/// error and the last answer without peers.
pub struct TrackerFallback {
    pub last_error: Option<TorrentError>,
    pub last_empty_response: Option<TrackerResponse>,
}

impl TrackerFallback {
    /// Nothing seen yet.
    pub fn new() -> (r: Self)
        ensures
            r.last_error is None,
            r.last_empty_response is None,
    {
        TrackerFallback { last_error: None, last_empty_response: None }
    }

    /// Takes the outcome of one tracker.  An answer with peers ends the
    /// search and is returned; an answer without peers or an error is kept.
    pub fn record(&mut self, outcome: Result<TrackerResponse>) -> (r: Option<TrackerResponse>)
        ensures
            match outcome {
                Ok(t) => if t.peers.0@.len() > 0 {
                    r == Some(t) && *final(self) == *old(self)
                } else {
                    r is None && final(self).last_empty_response == Some(t)
                        && final(self).last_error == old(self).last_error
                },
                Err(e) => r is None && final(self).last_error == Some(e)
                    && final(self).last_empty_response == old(self).last_empty_response,
            },
            *final(self) == fallback_step(*old(self), outcome),
            r is Some <==> has_peers(outcome),
    {
        match outcome {
            Ok(response) => {
                if response.peers.0.len() > 0 {
                    Some(response)
                } else {
                    self.last_empty_response = Some(response);
                    None
                }
            },
            Err(err) => {
                self.last_error = Some(err);
                None
            },
        }
    }

    /// The result once every tracker has been tried: the last answer
    /// without peers if there was one, else the last error, else
    /// `NoPeersAvailable`.
    pub fn finish(self) -> (r: Result<TrackerResponse>)
        ensures
            match self.last_empty_response {
                Some(t) => r == Ok::<TrackerResponse, TorrentError>(t),
                None => match self.last_error {
                    Some(e) => r == Err::<TrackerResponse, TorrentError>(e),
                    None => r matches Err(e) && e is NoPeersAvailable,
                },
            },
            r == fallback_end(self),
    {
        if let Some(response) = self.last_empty_response {
            return Ok(response);
        }
        match self.last_error {
            Some(e) => Err(e),
            None => Err(TorrentError::NoPeersAvailable),
        }
    }
}

/// True when a tracker's outcome is an answer with peers.
pub open spec fn has_peers(o: Result<TrackerResponse>) -> bool {
    o matches Ok(t) && t.peers.0@.len() > 0
}

/// What `TrackerFallback::record` keeps of one outcome.
pub open spec fn fallback_step(f: TrackerFallback, o: Result<TrackerResponse>) -> TrackerFallback {
    match o {
        Ok(t) => if t.peers.0@.len() > 0 {
            f
        } else {
            TrackerFallback { last_error: f.last_error, last_empty_response: Some(t) }
        },
        Err(e) => TrackerFallback { last_error: Some(e), last_empty_response: f.last_empty_response },
    }
}

/// What `TrackerFallback::finish` gives.
pub open spec fn fallback_end(f: TrackerFallback) -> Result<TrackerResponse> {
    match f.last_empty_response {
        Some(t) => Ok(t),
        None => match f.last_error {
            Some(e) => Err(e),
            None => Err(TorrentError::NoPeersAvailable),
        },
    }
}

/// Asking the trackers in order, as the caller does with a `TrackerFallback`:
/// each outcome is recorded, an answer with peers ends the search, and once
/// every tracker was asked the search is finished.  The result comes with
/// the number of trackers asked.
pub open spec fn tracker_search(f: TrackerFallback, outcomes: Seq<Result<TrackerResponse>>) -> (Result<TrackerResponse>, nat)
    decreases outcomes.len(),
{
    if outcomes.len() == 0 {
        (fallback_end(f), 0)
    } else if has_peers(outcomes[0]) {
        (outcomes[0], 1)
    } else {
        let (r, n) = tracker_search(fallback_step(f, outcomes[0]), outcomes.drop_first());
        (r, n + 1)
    }
}

/// The last answer of a list of outcomes, if any.
pub open spec fn last_answer(outcomes: Seq<Result<TrackerResponse>>) -> Option<TrackerResponse>
    decreases outcomes.len(),
{
    if outcomes.len() == 0 {
        None
    } else {
        match outcomes.last() {
            Ok(t) => Some(t),
            Err(_) => last_answer(outcomes.drop_last()),
        }
    }
}

/// The last error of a list of outcomes, if any.
pub open spec fn last_error_of(outcomes: Seq<Result<TrackerResponse>>) -> Option<TorrentError>
    decreases outcomes.len(),
{
    if outcomes.len() == 0 {
        None
    } else {
        match outcomes.last() {
            Ok(_) => last_error_of(outcomes.drop_last()),
            Err(e) => Some(e),
        }
    }
}

/// The state after recording every outcome.
pub open spec fn fallback_fold(f: TrackerFallback, outcomes: Seq<Result<TrackerResponse>>) -> TrackerFallback
    decreases outcomes.len(),
{
    if outcomes.len() == 0 {
        f
    } else {
        fallback_fold(fallback_step(f, outcomes[0]), outcomes.drop_first())
    }
}

proof fn lemma_fold_push(f: TrackerFallback, s: Seq<Result<TrackerResponse>>, x: Result<TrackerResponse>)
    ensures
        fallback_fold(f, s.push(x)) == fallback_step(fallback_fold(f, s), x),
    decreases s.len(),
{
    let sx = s.push(x);
    if s.len() == 0 {
        assert(sx.drop_first() =~= Seq::<Result<TrackerResponse>>::empty());
        assert(sx[0] == x);
        assert(fallback_fold(fallback_step(f, x), sx.drop_first()) == fallback_step(f, x));
        assert(fallback_fold(f, s) == f);
    } else {
        assert(sx.drop_first() =~= s.drop_first().push(x));
        assert(sx[0] == s[0]);
        lemma_fold_push(fallback_step(f, s[0]), s.drop_first(), x);
        assert(fallback_fold(f, sx) == fallback_fold(fallback_step(f, s[0]), sx.drop_first()));
    }
}

proof fn lemma_fold_keeps_last(s: Seq<Result<TrackerResponse>>)
    requires
        forall|i: int| 0 <= i < s.len() ==> !has_peers(#[trigger] s[i]),
    ensures
        fallback_fold(TrackerFallback { last_error: None, last_empty_response: None }, s)
            == (TrackerFallback { last_error: last_error_of(s), last_empty_response: last_answer(s) }),
    decreases s.len(),
{
    let empty = TrackerFallback { last_error: None, last_empty_response: None };
    if s.len() > 0 {
        let rest = s.drop_last();
        assert forall|i: int| 0 <= i < rest.len() implies !has_peers(#[trigger] rest[i]) by {
            assert(rest[i] == s[i]);
        }
        lemma_fold_keeps_last(rest);
        assert(rest.push(s.last()) =~= s);
        lemma_fold_push(empty, rest, s.last());
        assert(!has_peers(s[s.len() - 1]));
    }
}

proof fn lemma_search_from(f: TrackerFallback, s: Seq<Result<TrackerResponse>>)
    ensures
        forall|i: int|
            0 <= i < s.len() && has_peers(#[trigger] s[i]) && (forall|j: int| 0 <= j < i ==> !has_peers(s[j]))
                ==> tracker_search(f, s) == (s[i], (i + 1) as nat),
        (forall|i: int| 0 <= i < s.len() ==> !has_peers(#[trigger] s[i])) ==> tracker_search(f, s)
            == (fallback_end(fallback_fold(f, s)), s.len()),
    decreases s.len(),
{
    if s.len() > 0 {
        let rest = s.drop_first();
        lemma_search_from(fallback_step(f, s[0]), rest);
        assert forall|i: int|
            0 <= i < s.len() && has_peers(#[trigger] s[i]) && (forall|j: int| 0 <= j < i ==> !has_peers(s[j]))
                implies tracker_search(f, s) == (s[i], (i + 1) as nat) by {
            if i > 0 {
                assert(!has_peers(s[0]));
                assert(rest[i - 1] == s[i]);
                assert forall|j: int| 0 <= j < i - 1 implies !has_peers(rest[j]) by {
                    assert(rest[j] == s[j + 1]);
                }
            }
        }
        if forall|i: int| 0 <= i < s.len() ==> !has_peers(#[trigger] s[i]) {
            assert(!has_peers(s[0]));
            assert forall|i: int| 0 <= i < rest.len() implies !has_peers(#[trigger] rest[i]) by {
                assert(rest[i] == s[i + 1]);
            }
        }
    }
}

/// Tracker fallback: asking the trackers in order, the first answer with
/// peers is the result and no later tracker is asked; when no tracker gives
/// peers, every tracker is asked and the result is the last answer without
/// peers, else the last error, else `NoPeersAvailable`.
pub proof fn lemma_tracker_fallback_order(outcomes: Seq<Result<TrackerResponse>>)
    ensures
        forall|i: int|
            0 <= i < outcomes.len() && has_peers(#[trigger] outcomes[i]) && (forall|j: int|
                0 <= j < i ==> !has_peers(outcomes[j])) ==> tracker_search(
                TrackerFallback { last_error: None, last_empty_response: None },
                outcomes,
            ) == (outcomes[i], (i + 1) as nat),
        (forall|i: int| 0 <= i < outcomes.len() ==> !has_peers(#[trigger] outcomes[i])) ==> tracker_search(
            TrackerFallback { last_error: None, last_empty_response: None },
            outcomes,
        ) == (
            match last_answer(outcomes) {
                Some(t) => Ok(t),
                None => match last_error_of(outcomes) {
                    Some(e) => Err(e),
                    None => Err(TorrentError::NoPeersAvailable),
                },
            },
            outcomes.len(),
        ),
{
    lemma_search_from(TrackerFallback { last_error: None, last_empty_response: None }, outcomes);
    if forall|i: int| 0 <= i < outcomes.len() ==> !has_peers(#[trigger] outcomes[i]) {
        lemma_fold_keeps_last(outcomes);
    }
}

/// Refuses a download description without trackers.
pub fn require_trackers(t: &TorrentInfo) -> (r: Result<()>)
    ensures
        t.trackers@.len() == 0 ==> (r matches Err(TorrentError::Tracker(m)) && m@
            == "No trackers available"@),
        t.trackers@.len() > 0 ==> r is Ok,
{
    if t.trackers.len() == 0 {
        Err(TorrentError::Tracker(string_of("No trackers available")))
    } else {
        Ok(())
    }
}

/// The number of UDP sends before giving up, and the first reply timeout.
pub const UDP_MAX_ATTEMPTS: usize = 3;
pub const UDP_INITIAL_TIMEOUT_MS: u64 = 5_000;

/// The longest reply timeout of an attempt: the first timeout, doubled once
/// per earlier attempt.
pub open spec fn udp_timeout_cap(attempt: int) -> int {
    if attempt == 0 {
        UDP_INITIAL_TIMEOUT_MS as int
    } else if attempt == 1 {
        2 * UDP_INITIAL_TIMEOUT_MS
    } else {
        4 * UDP_INITIAL_TIMEOUT_MS
    }
}

/// Retry bookkeeping of one UDP exchange: the attempt under way, the reply
/// timeout for it, and the time the connection id has been in use.
#[derive(Debug)]
pub struct UdpRetry {
    attempt: usize,
    timeout_ms: u64,
    elapsed_since_connect_ms: u64,
}

impl UdpRetry {
    /// What every retry state keeps: fewer attempts than allowed, and a
    /// timeout and connection age no larger than the doubling from the first
    /// timeout allows.
    #[verifier::type_invariant]
    spec fn within_bounds(self) -> bool {
        &&& self.attempt < UDP_MAX_ATTEMPTS
        &&& self.timeout_ms <= udp_timeout_cap(self.attempt as int)
        &&& self.elapsed_since_connect_ms + UDP_INITIAL_TIMEOUT_MS <= udp_timeout_cap(
            self.attempt as int,
        )
    }

    /// The attempt under way (counted from 0).
    pub closed spec fn attempt_spec(self) -> usize {
        self.attempt
    }

    /// The reply timeout of the attempt under way.
    pub closed spec fn timeout_spec(self) -> u64 {
        self.timeout_ms
    }

    /// How long the connection id has been in use.
    pub closed spec fn elapsed_spec(self) -> u64 {
        self.elapsed_since_connect_ms
    }

    /// The first attempt, right after connecting.
    pub fn new() -> (r: Self)
        ensures
            r.attempt_spec() == 0,
            r.timeout_spec() == UDP_INITIAL_TIMEOUT_MS,
            r.elapsed_spec() == 0,
    {
        UdpRetry { attempt: 0, timeout_ms: UDP_INITIAL_TIMEOUT_MS, elapsed_since_connect_ms: 0 }
    }

    /// The attempt under way (counted from 0).
    pub fn attempt(&self) -> (r: usize)
        ensures
            r == self.attempt_spec(),
    {
        self.attempt
    }

    /// The reply timeout of the attempt under way, in milliseconds.
    pub fn timeout_ms(&self) -> (r: u64)
        ensures
            r == self.timeout_spec(),
    {
        self.timeout_ms
    }

    /// How long the connection id has been in use, in milliseconds.
    pub fn elapsed_since_connect_ms(&self) -> (r: u64)
        ensures
            r == self.elapsed_spec(),
    {
        self.elapsed_since_connect_ms
    }

    /// True when the connection id must be renewed before the next send.
    pub fn needs_reconnect(&self) -> (r: bool)
        ensures
            r == !(self.elapsed_spec() < UDP_CONNECTION_ID_TTL_MS),
    {
        !udp_connection_id_is_fresh(self.elapsed_since_connect_ms)
    }

    /// After a new connection id: its age and the timeout start over.
    pub fn on_reconnect(&mut self)
        ensures
            final(self).attempt_spec() == old(self).attempt_spec(),
            final(self).timeout_spec() == UDP_INITIAL_TIMEOUT_MS,
            final(self).elapsed_spec() == 0,
    {
        proof {
            use_type_invariant(&*self);
        }
        *self = UdpRetry {
            attempt: self.attempt,
            timeout_ms: UDP_INITIAL_TIMEOUT_MS,
            elapsed_since_connect_ms: 0,
        };
    }

    /// After a reply timed out.  On the last attempt the exchange fails with
    /// `ConnectionTimeout`; otherwise the connection id has aged by the timeout,
    /// the timeout doubles, and the next attempt follows.
    pub fn on_timeout(&mut self) -> (r: Result<()>)
        ensures
            old(self).attempt_spec() + 1 == UDP_MAX_ATTEMPTS ==> (r matches Err(e)
                && e is ConnectionTimeout && final(self).attempt_spec() == old(self).attempt_spec()
                && final(self).timeout_spec() == old(self).timeout_spec()
                && final(self).elapsed_spec() == old(self).elapsed_spec()),
            old(self).attempt_spec() + 1 < UDP_MAX_ATTEMPTS ==> {
                &&& r is Ok
                &&& final(self).attempt_spec() == old(self).attempt_spec() + 1
                &&& final(self).timeout_spec() == 2 * old(self).timeout_spec()
                &&& final(self).elapsed_spec() == old(self).elapsed_spec() + old(self).timeout_spec()
            },
    {
        proof {
            use_type_invariant(&*self);
        }
        if self.attempt + 1 == UDP_MAX_ATTEMPTS {
            return Err(TorrentError::ConnectionTimeout);
        }
        *self = UdpRetry {
            attempt: self.attempt + 1,
            timeout_ms: self.timeout_ms * 2,
            elapsed_since_connect_ms: self.elapsed_since_connect_ms + self.timeout_ms,
        };
        Ok(())
    }
}

} // verus!
