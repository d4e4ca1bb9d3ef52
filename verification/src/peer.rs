//! Peer wire protocol: handshakes, message framing, bitfields, blocks, and
//! the metadata exchange of BEP 9/10.

use vstd::prelude::*;
use crate::bytes::{
    concat_chunks,
    be_bytes, be_value, lemma_be_bytes_len, lemma_be_round_trip, lemma_be_value_bound,
    lemma_pow256_facts, push_be, read_be,
};
use crate::bencode::{
    bencode_decoding, bencode_encoding, decode, dict_get, dict_model, encode, BencodeModel,
    BencodeValue,
};
use crate::error::{Result, TorrentError};
use crate::text::string_of;
use vstd::utf8::encode_utf8;

verus! {

/// One message of the peer wire protocol: its id and payload.  A keep-alive
/// is represented with id 0 and an empty payload.
#[derive(Debug, Clone)]
pub struct PeerMessage {
    pub payload: Vec<u8>,
    pub id: u8,
}

/// The size of one metadata piece.
pub const METADATA_BLOCK_SIZE: usize = 16384;

/// How many times a handshake is tried.
pub const MAX_HANDSHAKE_ATTEMPTS: usize = 5;

/// The 19 bytes of the protocol name.
pub open spec fn protocol_bytes() -> Seq<u8> {
    seq![66u8, 105, 116, 84, 111, 114, 114, 101, 110, 116, 32, 112, 114, 111, 116, 111, 99, 111, 108]
}

/// The reserved bytes of our handshake: only the extension-protocol bit
/// (0x10 in byte 5) is set.
pub open spec fn reserved_bytes() -> Seq<u8> {
    seq![0u8, 0, 0, 0, 0, 0x10, 0, 0]
}

/// A handshake: the name length 19, the protocol name, the reserved bytes,
/// the info hash and our peer id (68 bytes).
pub open spec fn handshake_bytes(info_hash: Seq<u8>, peer_id: Seq<u8>) -> Seq<u8> {
    seq![19u8] + protocol_bytes() + reserved_bytes() + info_hash + peer_id
}

/// Builds the handshake message.
pub fn build_handshake(info_hash: &[u8; 20], peer_id: &[u8; 20]) -> (r: Vec<u8>)
    ensures
        r@ == handshake_bytes(info_hash@, peer_id@),
        r@.len() == 68,
{
    let mut h: Vec<u8> = Vec::new();
    h.push(19);
    let name: [u8; 19] = [66, 105, 116, 84, 111, 114, 114, 101, 110, 116, 32, 112, 114, 111, 116, 111, 99, 111, 108];
    let mut i: usize = 0;
    while i < 19
        invariant
            i <= 19,
            name@ == protocol_bytes(),
            h@ == seq![19u8] + protocol_bytes().take(i as int),
        decreases 19 - i,
    {
        h.push(name[i]);
        assert(h@ =~= seq![19u8] + protocol_bytes().take(i + 1));
        i = i + 1;
    }
    let mut k: usize = 0;
    while k < 8
        invariant
            k <= 8,
            h@ == seq![19u8] + protocol_bytes() + reserved_bytes().take(k as int),
        decreases 8 - k,
    {
        if k == 5 {
            h.push(0x10);
        } else {
            h.push(0);
        }
        assert(h@ =~= seq![19u8] + protocol_bytes() + reserved_bytes().take(k + 1));
        k = k + 1;
    }
    let ghost head = h@;
    let mut j: usize = 0;
    while j < 20
        invariant
            j <= 20,
            h@ == head + info_hash@.take(j as int),
        decreases 20 - j,
    {
        h.push(info_hash[j]);
        assert(h@ =~= head + info_hash@.take(j + 1));
        j = j + 1;
    }
    let ghost head2 = h@;
    let mut m: usize = 0;
    while m < 20
        invariant
            m <= 20,
            h@ == head2 + peer_id@.take(m as int),
        decreases 20 - m,
    {
        h.push(peer_id[m]);
        assert(h@ =~= head2 + peer_id@.take(m + 1));
        m = m + 1;
    }
    assert(protocol_bytes().take(19) =~= protocol_bytes());
    assert(reserved_bytes().take(8) =~= reserved_bytes());
    assert(info_hash@.take(20) =~= info_hash@);
    assert(peer_id@.take(20) =~= peer_id@);
    assert(h@ =~= handshake_bytes(info_hash@, peer_id@));
    h
}

/// What a peer's handshake reply tells: its peer id and whether it speaks
/// the extension protocol.
#[derive(Debug, Clone, Copy, PartialEq, Eq)]
pub struct HandshakeReply {
    pub peer_id: [u8; 20],
    pub supports_extensions: bool,
}

/// True when a reply is acceptable for the handshake `sent`: it names the
/// protocol and echoes the info hash (bytes 28..48).
pub open spec fn reply_acceptable(response: Seq<u8>, sent: Seq<u8>) -> bool {
    &&& response[0] == 19
    &&& response.subrange(1, 20) == protocol_bytes()
    &&& response.subrange(28, 48) == sent.subrange(28, 48)
}

/// The handshake attempts made with a peer so far.
pub struct HandshakeAttempts {
    pub made: usize,
}

impl HandshakeAttempts {
    /// No attempt made yet.
    pub fn new() -> (r: Self)
        ensures
            r.made == 0,
    {
        HandshakeAttempts { made: 0 }
    }

    /// True while another attempt may be made: fewer than
    /// `MAX_HANDSHAKE_ATTEMPTS` were made.
    pub fn may_try(&self) -> (r: bool)
        ensures
            r == (self.made < MAX_HANDSHAKE_ATTEMPTS),
    {
        self.made < MAX_HANDSHAKE_ATTEMPTS
    }

    /// Counts a failed attempt (the count stops at the limit).
    pub fn on_failure(&mut self)
        ensures
            old(self).made < MAX_HANDSHAKE_ATTEMPTS ==> final(self).made == old(self).made + 1,
            old(self).made >= MAX_HANDSHAKE_ATTEMPTS ==> final(self).made == old(self).made,
    {
        if self.made < MAX_HANDSHAKE_ATTEMPTS {
            self.made = self.made + 1;
        }
    }

    /// The error once every attempt failed.
    pub fn exhausted(&self) -> (r: TorrentError)
        ensures
            r matches TorrentError::ConnectionFailed(m) && m@ == "Max handshake attempts reached"@,
    {
        TorrentError::ConnectionFailed(string_of("Max handshake attempts reached"))
    }
}

/// A handshake gives up after `MAX_HANDSHAKE_ATTEMPTS` failures: starting
/// from none, each failure counts one more attempt, and after `k` failures
/// another attempt is allowed exactly when `k` is below the limit.
pub proof fn lemma_handshake_attempts_bounded(k: nat)
    ensures
        handshake_attempts_after(k) == if k < MAX_HANDSHAKE_ATTEMPTS {
            k
        } else {
            MAX_HANDSHAKE_ATTEMPTS as nat
        },
        (k < MAX_HANDSHAKE_ATTEMPTS) == (handshake_attempts_after(k) < MAX_HANDSHAKE_ATTEMPTS),
    decreases k,
{
    if k > 0 {
        lemma_handshake_attempts_bounded((k - 1) as nat);
    }
}

/// The count of attempts after `k` failures, starting from none.
pub open spec fn handshake_attempts_after(k: nat) -> nat
    decreases k,
{
    if k == 0 {
        0
    } else {
        let before = handshake_attempts_after((k - 1) as nat);
        if before < MAX_HANDSHAKE_ATTEMPTS {
            before + 1
        } else {
            before
        }
    }
}

/// Checks a 68-byte handshake reply against the handshake that was sent.
pub fn check_handshake_reply(response: &[u8; 68], sent: &[u8]) -> (r: Result<HandshakeReply>)
    requires
        sent@.len() == 68,
    ensures
        !reply_acceptable(response@, sent@) ==> (r matches Err(e) && e is InvalidPeerResponse),
        reply_acceptable(response@, sent@) ==> (r matches Ok(reply) && reply.peer_id@
            == response@.subrange(48, 68) && reply.supports_extensions == (response@[25] & 0x10
            != 0)),
{
    if response[0] != 19 {
        return Err(TorrentError::InvalidPeerResponse);
    }
    let name: [u8; 19] = [66, 105, 116, 84, 111, 114, 114, 101, 110, 116, 32, 112, 114, 111, 116, 111, 99, 111, 108];
    let mut i: usize = 0;
    while i < 19
        invariant
            i <= 19,
            name@ == protocol_bytes(),
            forall|j: int| 0 <= j < i ==> response@[1 + j] == name@[j],
        decreases 19 - i,
    {
        if response[1 + i] != name[i] {
            assert(response@.subrange(1, 20)[i as int] != protocol_bytes()[i as int]);
            return Err(TorrentError::InvalidPeerResponse);
        }
        i = i + 1;
    }
    assert(response@.subrange(1, 20) =~= protocol_bytes());
    let mut k: usize = 28;
    while k < 48
        invariant
            28 <= k <= 48,
            sent@.len() == 68,
            forall|j: int| 28 <= j < k ==> response@[j] == sent@[j],
        decreases 48 - k,
    {
        if response[k] != sent[k] {
            assert(response@.subrange(28, 48)[k - 28] != sent@.subrange(28, 48)[k - 28]);
            return Err(TorrentError::InvalidPeerResponse);
        }
        k = k + 1;
    }
    assert(response@.subrange(28, 48) =~= sent@.subrange(28, 48));
    let mut peer_id = [0u8; 20];
    let mut m: usize = 0;
    while m < 20
        invariant
            m <= 20,
            forall|j: int| 0 <= j < m ==> peer_id@[j] == response@[48 + j],
        decreases 20 - m,
    {
        peer_id[m] = response[48 + m];
        m = m + 1;
    }
    assert(peer_id@ =~= response@.subrange(48, 68));
    Ok(HandshakeReply { peer_id, supports_extensions: (response[25] & 0x10) != 0 })
}

// ---------------------------------------------------------------- framing

/// A framed message: the length of id and payload (four bytes, big-endian),
/// the id, the payload.
pub open spec fn framed(id: u8, payload: Seq<u8>) -> Seq<u8> {
    be_bytes(payload.len() + 1, 4) + seq![id] + payload
}

/// Frames a message for sending.
pub fn frame_message(id: u8, payload: &[u8]) -> (r: Vec<u8>)
    requires
        payload@.len() + 1 <= u32::MAX,
    ensures
        r@ == framed(id, payload@),
{
    let mut message: Vec<u8> = Vec::new();
    push_be(&mut message, (payload.len() + 1) as u64, 4);
    message.push(id);
    let ghost head = message@;
    let mut i: usize = 0;
    while i < payload.len()
        invariant
            i <= payload.len(),
            message@ == head + payload@.take(i as int),
        decreases payload.len() - i,
    {
        message.push(payload[i]);
        assert(message@ =~= head + payload@.take(i + 1));
        i = i + 1;
    }
    assert(payload@.take(payload.len() as int) =~= payload@);
    assert(message@ =~= framed(id, payload@));
    message
}

/// The message that a length prefix and the bytes after it stand for: a
/// zero length is a keep-alive, otherwise the first byte is the id and the
/// rest the payload.
pub open spec fn unframed(length: nat, body: Seq<u8>) -> (u8, Seq<u8>) {
    if length == 0 {
        (0, Seq::empty())
    } else {
        (body[0], body.skip(1))
    }
}

/// Reads the four-byte length prefix of a message.
pub fn message_length(prefix: &[u8; 4]) -> (r: usize)
    ensures
        r == be_value(prefix@),
{
    proof {
        lemma_be_value_bound(prefix@);
        lemma_pow256_facts();
        assert(prefix@.subrange(0, 4) =~= prefix@);
    }
    read_be(prefix, 0, 4) as usize
}

/// The message held by the `length` bytes that followed the length prefix.
pub fn message_from_body(length: usize, body: Vec<u8>) -> (r: PeerMessage)
    requires
        body@.len() == length,
    ensures
        (r.id, r.payload@) == unframed(length as nat, body@),
{
    if length == 0 {
        return PeerMessage { id: 0, payload: Vec::new() };
    }
    let id = body[0];
    let payload = vstd::slice::slice_to_vec(vstd::slice::slice_subrange(body.as_slice(), 1, length));
    assert(payload@ =~= body@.skip(1));
    PeerMessage { id, payload }
}

/// Reading a framed message back gives its id and payload.
pub proof fn lemma_frame_round_trip(id: u8, payload: Seq<u8>)
    requires
        payload.len() + 1 <= u32::MAX,
    ensures
        be_value(framed(id, payload).subrange(0, 4)) == payload.len() + 1,
        unframed(payload.len() + 1, framed(id, payload).skip(4)) == (id, payload),
{
    lemma_pow256_facts();
    lemma_be_bytes_len(payload.len() + 1, 4);
    lemma_be_round_trip(payload.len() + 1, 4);
    let f = framed(id, payload);
    assert(f.subrange(0, 4) =~= be_bytes(payload.len() + 1, 4));
    assert(f.skip(4) =~= seq![id] + payload);
    assert(f.skip(4).skip(1) =~= payload);
}

// ---------------------------------------------------------------- requests

/// The message ids used here.
pub const MSG_CHOKE: u8 = 0;
pub const MSG_UNCHOKE: u8 = 1;
pub const MSG_INTERESTED: u8 = 2;
pub const MSG_HAVE: u8 = 4;
pub const MSG_BITFIELD: u8 = 5;
pub const MSG_REQUEST: u8 = 6;
pub const MSG_PIECE: u8 = 7;
pub const MSG_EXTENDED: u8 = 20;

/// The payload of a block request: piece index, offset and length, each as
/// four big-endian bytes (of the low 32 bits).
pub open spec fn request_payload_bytes(index: usize, begin: usize, length: usize) -> Seq<u8> {
    be_bytes((index as u32) as nat, 4) + be_bytes((begin as u32) as nat, 4) + be_bytes(
        (length as u32) as nat,
        4,
    )
}

/// Builds the payload of a block request.
pub fn request_payload(index: usize, begin: usize, length: usize) -> (r: Vec<u8>)
    ensures
        r@ == request_payload_bytes(index, begin, length),
{
    let mut p: Vec<u8> = Vec::new();
    push_be(&mut p, (index as u32) as u64, 4);
    push_be(&mut p, (begin as u32) as u64, 4);
    push_be(&mut p, (length as u32) as u64, 4);
    assert(p@ =~= request_payload_bytes(index, begin, length));
    p
}

/// Checks the header of a `piece` message against the block that was asked
/// for and returns the block's bytes.
pub fn parse_block_payload(payload: &[u8], expected_index: usize, expected_begin: usize) -> (r: Result<Vec<u8>>)
    ensures
        payload@.len() < 8 ==> (r matches Err(e) && e is UnexpectedBlockData),
        payload@.len() >= 8 ==> {
            let index = be_value(payload@.subrange(0, 4));
            let begin = be_value(payload@.subrange(4, 8));
            &&& (index != expected_index || begin != expected_begin) ==> (r matches Err(e)
                && e is UnexpectedBlockData)
            &&& (index == expected_index && begin == expected_begin) ==> (r matches Ok(b) && b@
                == payload@.skip(8))
        },
{
    if payload.len() < 8 {
        return Err(TorrentError::UnexpectedBlockData);
    }
    proof {
        lemma_pow256_facts();
        lemma_be_value_bound(payload@.subrange(0, 4));
        lemma_be_value_bound(payload@.subrange(4, 8));
    }
    let index = read_be(payload, 0, 4);
    let begin = read_be(payload, 4, 4);
    if index != expected_index as u64 || begin != expected_begin as u64 {
        return Err(TorrentError::UnexpectedBlockData);
    }
    let data = vstd::slice::slice_to_vec(vstd::slice::slice_subrange(payload, 8, payload.len()));
    assert(data@ =~= payload@.skip(8));
    Ok(data)
}

// ---------------------------------------------------------------- bitfields

/// True when bit `k` (0 = most significant) of `b` is set.
pub open spec fn bit_set(b: u8, k: int) -> bool {
    b & (1u8 << ((7 - k) as u8)) != 0
}

/// Whether piece `i` is marked in a bitfield: bit `i % 8` of byte `i / 8`;
/// pieces beyond the bitfield are unmarked.
pub open spec fn bitfield_has(payload: Seq<u8>, i: int) -> bool {
    i / 8 < payload.len() && bit_set(payload[i / 8], i % 8)
}

/// Reads a bitfield message as the availability of `piece_count` pieces.
pub fn parse_bitfield(payload: &[u8], piece_count: usize) -> (r: Vec<bool>)
    ensures
        r@.len() == piece_count,
        forall|i: int| 0 <= i < piece_count ==> r@[i] == bitfield_has(payload@, i),
{
    let mut availability: Vec<bool> = Vec::new();
    let mut i: usize = 0;
    while i < piece_count
        invariant
            i <= piece_count,
            availability@.len() == i,
            forall|j: int| 0 <= j < i ==> availability@[j] == bitfield_has(payload@, j),
        decreases piece_count - i,
    {
        let byte_index = i / 8;
        let bit_index = i % 8;
        if byte_index < payload.len() {
            let byte = payload[byte_index];
            let shift: u8 = 7 - (bit_index as u8);
            let mask: u8 = 1u8 << shift;
            availability.push(byte & mask != 0);
        } else {
            availability.push(false);
        }
        i = i + 1;
    }
    availability
}

/// Reads a `have` message: the four-byte index of the announced piece.
pub fn parse_have_message(payload: &[u8]) -> (r: Result<usize>)
    ensures
        payload@.len() != 4 ==> (r matches Err(TorrentError::UnexpectedMessage(m)) && m@
            == "Expected have payload length of 4"@),
        payload@.len() == 4 ==> r == Ok::<usize, TorrentError>(be_value(payload@) as usize),
{
    if payload.len() != 4 {
        return Err(TorrentError::UnexpectedMessage(string_of("Expected have payload length of 4")));
    }
    proof {
        lemma_pow256_facts();
        lemma_be_value_bound(payload@);
        assert(payload@.subrange(0, 4) =~= payload@);
    }
    Ok(read_be(payload, 0, 4) as usize)
}

// ---------------------------------------------------------------- peer state

/// What is known of a connected peer: which pieces it has, whether it speaks
/// the extension protocol, and its extension handshake.
#[derive(Debug, Clone)]
pub struct PeerState {
    pub piece_availability: Vec<bool>,
    pub supports_extensions: bool,
    pub extension_handshake: Option<ExtensionHandshake>,
}

/// The availability after a `have` for `piece_index`: resized to
/// `piece_count` pieces (new ones unavailable), with that piece marked.
pub open spec fn after_have(old: Seq<bool>, piece_count: nat, piece_index: int) -> Seq<bool> {
    Seq::new(piece_count, |i: int| i == piece_index || (i < old.len() && old[i]))
}

impl PeerState {
    /// A freshly connected peer: nothing known of its pieces, extensions
    /// assumed until its handshake says otherwise.
    pub fn new() -> (r: Self)
        ensures
            r.piece_availability@.len() == 0,
            r.supports_extensions,
            r.extension_handshake is None,
    {
        PeerState { piece_availability: Vec::new(), supports_extensions: true, extension_handshake: None }
    }

    /// Whether the peer has a piece, if that piece is known.
    pub fn has_piece(&self, piece_index: usize) -> (r: Option<bool>)
        ensures
            piece_index < self.piece_availability@.len() ==> r == Some(
                self.piece_availability@[piece_index as int],
            ),
            piece_index >= self.piece_availability@.len() ==> r is None,
    {
        if piece_index < self.piece_availability.len() {
            Some(self.piece_availability[piece_index])
        } else {
            None
        }
    }

    /// Records that the peer announced a piece.
    pub fn record_have(&mut self, piece_count: usize, piece_index: usize)
        ensures
            final(self).piece_availability@ == after_have(
                old(self).piece_availability@,
                piece_count as nat,
                piece_index as int,
            ),
            final(self).piece_availability@.len() == piece_count,
            piece_index < piece_count ==> final(self).piece_availability@[piece_index as int],
            forall|i: int|
                0 <= i < piece_count && i != piece_index ==> (#[trigger] final(self).piece_availability@[i])
                    == (i < old(self).piece_availability@.len() && old(self).piece_availability@[i]),
            final(self).supports_extensions == old(self).supports_extensions,
            final(self).extension_handshake == old(self).extension_handshake,
    {
        if self.piece_availability.len() != piece_count {
            self.piece_availability.resize(piece_count, false);
        }
        if piece_index < self.piece_availability.len() {
            self.piece_availability.set(piece_index, true);
        }
        assert(self.piece_availability@ =~= after_have(
            old(self).piece_availability@,
            piece_count as nat,
            piece_index as int,
        ));
    }

        /// A `have` announced under an unchanged piece count marks the announced
    /// piece and leaves what was known of every other piece as it was.
    pub proof fn lemma_have_keeps_other_pieces(before: Seq<bool>, piece_index: int, i: int)
        requires
            0 <= i < before.len(),
        ensures
            after_have(before, before.len(), piece_index).len() == before.len(),
            i == piece_index ==> after_have(before, before.len(), piece_index)[i],
            i != piece_index ==> after_have(before, before.len(), piece_index)[i] == before[i],
    {
    }

    /// Handles a message that may arrive between the ones being waited for:
    /// keep-alive, `have` and `bitfield` are consumed (the last two update the
    /// availability when the piece count is known) and `true` is returned;
    /// any other message is left to the caller (`false`).
    pub fn handle_auxiliary_message(&mut self, message: &PeerMessage, piece_count: Option<usize>) -> (r: Result<bool>)
        ensures
            final(self).supports_extensions == old(self).supports_extensions,
            final(self).extension_handshake == old(self).extension_handshake,
            r is Err ==> *final(self) == *old(self),
            message.id == 0 ==> r == Ok::<bool, TorrentError>(true) && *final(self) == *old(self),
            message.id == 4 ==> match piece_count {
                None => r == Ok::<bool, TorrentError>(true) && *final(self) == *old(self),
                Some(n) => if message.payload@.len() == 4 {
                    &&& r == Ok::<bool, TorrentError>(true)
                    &&& final(self).piece_availability@ == after_have(
                        old(self).piece_availability@,
                        n as nat,
                        (be_value(message.payload@) as usize) as int,
                    )
                    &&& final(self).piece_availability@.len() == n
                    &&& be_value(message.payload@) < n ==> final(self).piece_availability@[be_value(message.payload@) as int]
                    &&& forall|i: int|
                        0 <= i < n && i != be_value(message.payload@) ==> (#[trigger] final(self).piece_availability@[i])
                            == (i < old(self).piece_availability@.len() && old(self).piece_availability@[i])
                } else {
                    r matches Err(e) && e is UnexpectedMessage
                },
            },
            message.id == 5 ==> r == Ok::<bool, TorrentError>(true) && match piece_count {
                None => *final(self) == *old(self),
                Some(n) => final(self).piece_availability@.len() == n && forall|i: int|
                    0 <= i < n ==> final(self).piece_availability@[i] == bitfield_has(
                        message.payload@,
                        i,
                    ),
            },
            !(message.id == 0 || message.id == 4 || message.id == 5) ==> r == Ok::<
                bool,
                TorrentError,
            >(false) && *final(self) == *old(self),
    {
        if message.id == 0 {
            Ok(true)
        } else if message.id == 4 {
            if let Some(n) = piece_count {
                let piece_index = parse_have_message(message.payload.as_slice())?;
                proof {
                    lemma_be_value_bound(message.payload@);
                    lemma_pow256_facts();
                }
                self.record_have(n, piece_index);
            }
            Ok(true)
        } else if message.id == 5 {
            if let Some(n) = piece_count {
                self.piece_availability = parse_bitfield(message.payload.as_slice(), n);
            }
            Ok(true)
        } else {
            Ok(false)
        }
    }

    /// The peer's id for the metadata extension, from its extension handshake.
    pub fn metadata_extension_id(&self) -> (r: Result<u8>)
        ensures
            match self.extension_handshake {
                Some(h) => match h.metadata_extension_id {
                    Some(id) => r == Ok::<u8, TorrentError>(id),
                    None => r matches Err(e) && e is MetadataExtensionNotSupported,
                },
                None => r matches Err(e) && e is MetadataExtensionNotSupported,
            },
    {
        match self.extension_handshake {
            Some(h) => match h.metadata_extension_id {
                Some(id) => Ok(id),
                None => Err(TorrentError::MetadataExtensionNotSupported),
            },
            None => Err(TorrentError::MetadataExtensionNotSupported),
        }
    }

    /// The metadata size the peer announced in its extension handshake.
    pub fn metadata_size(&self) -> (r: Result<usize>)
        ensures
            match self.extension_handshake {
                Some(h) => match h.metadata_size {
                    Some(n) => r == Ok::<usize, TorrentError>(n),
                    None => r matches Err(e) && e is MetadataSizeNotFound,
                },
                None => r matches Err(e) && e is MetadataSizeNotFound,
            },
    {
        match self.extension_handshake {
            Some(h) => match h.metadata_size {
                Some(n) => Ok(n),
                None => Err(TorrentError::MetadataSizeNotFound),
            },
            None => Err(TorrentError::MetadataSizeNotFound),
        }
    }
}

// ---------------------------------------------------------------- extensions

/// What a peer's extension handshake announces for metadata exchange.
#[derive(Debug, Clone, Copy, PartialEq, Eq)]
pub struct ExtensionHandshake {
    pub metadata_extension_id: Option<u8>,
    pub metadata_size: Option<usize>,
}

/// The entry under `key` of a dictionary model.
pub open spec fn model_get(m: BencodeModel, key: Seq<u8>) -> Option<BencodeModel> {
    match m {
        BencodeModel::Dict(d) => if d.contains_key(key) {
            Some(d[key])
        } else {
            None
        },
        _ => None,
    }
}

/// The `ut_metadata` id inside the `m` dictionary, when it is an integer
/// that fits a byte.
pub open spec fn extension_id_of(m: BencodeModel) -> Option<u8> {
    match model_get(m, encode_utf8("m"@)) {
        Some(inner) => match model_get(inner, encode_utf8("ut_metadata"@)) {
            Some(BencodeModel::Int(id)) => if 0 <= id <= 255 {
                Some(id as u8)
            } else {
                None
            },
            _ => None,
        },
        None => None,
    }
}

/// The `metadata_size` entry, when it is a non-negative integer.
pub open spec fn metadata_size_of(m: BencodeModel) -> Option<usize> {
    match model_get(m, encode_utf8("metadata_size"@)) {
        Some(BencodeModel::Int(size)) => if size >= 0 {
            Some(size as usize)
        } else {
            None
        },
        _ => None,
    }
}

fn lookup<'a>(value: &'a BencodeValue, key: &str) -> (r: Option<&'a BencodeValue>)
    ensures
        match model_get(value.model(), encode_utf8(key@)) {
            Some(m) => r matches Some(v) && v.model() == m,
            None => r is None,
        },
{
    match value {
        BencodeValue::Dict(entries) => dict_get(entries, key.as_bytes()),
        _ => None,
    }
}

/// Reads a peer's extension handshake dictionary.
pub fn parse_extension_handshake(value: &BencodeValue) -> (r: Result<ExtensionHandshake>)
    ensures
        !(value.model() is Dict) ==> (r matches Err(e) && e is InvalidMetadataResponse),
        value.model() is Dict ==> r == Ok::<ExtensionHandshake, TorrentError>(
            ExtensionHandshake {
                metadata_extension_id: extension_id_of(value.model()),
                metadata_size: metadata_size_of(value.model()),
            },
        ),
{
    if !matches!(value, BencodeValue::Dict(_)) {
        return Err(TorrentError::InvalidMetadataResponse);
    }
    let metadata_extension_id = match lookup(value, "m") {
        Some(inner) => match lookup(inner, "ut_metadata") {
            Some(BencodeValue::Int(id)) => if 0 <= *id && *id <= 255 {
                Some(*id as u8)
            } else {
                None
            },
            _ => None,
        },
        None => None,
    };
    let metadata_size = match lookup(value, "metadata_size") {
        Some(BencodeValue::Int(size)) => if *size >= 0 {
            Some(*size as usize)
        } else {
            None
        },
        _ => None,
    };
    Ok(ExtensionHandshake { metadata_extension_id, metadata_size })
}

/// One metadata-exchange message: its type (0 request, 1 data, 2 reject),
/// the piece, the announced total size, and the data after the dictionary.
#[derive(Debug, Clone, PartialEq, Eq)]
pub struct MetadataMessage {
    pub msg_type: i64,
    pub piece: usize,
    pub total_size: Option<usize>,
    pub data: Vec<u8>,
}

/// A non-negative integer entry of a dictionary model, as a `usize`.
pub open spec fn size_entry(m: BencodeModel, key: Seq<char>) -> Option<usize> {
    match model_get(m, encode_utf8(key)) {
        Some(BencodeModel::Int(v)) => if v >= 0 {
            Some(v as usize)
        } else {
            None
        },
        _ => None,
    }
}

/// The message a payload stands for: the leading dictionary gives the type,
/// piece and total size; the bytes after its re-encoding are the data.
/// `None` when the dictionary lacks an integer type or a non-negative piece.
pub open spec fn metadata_message_of(payload: Seq<u8>, m: BencodeModel) -> Option<(i64, usize, Option<usize>, Seq<u8>)> {
    match model_get(m, encode_utf8("msg_type"@)) {
        Some(BencodeModel::Int(t)) => match size_entry(m, "piece"@) {
            Some(piece) => {
                let n = bencode_encoding(m).len();
                Some(
                    (
                        t,
                        piece,
                        size_entry(m, "total_size"@),
                        if payload.len() > n {
                            payload.skip(n as int)
                        } else {
                            Seq::empty()
                        },
                    ),
                )
            },
            None => None,
        },
        _ => None,
    }
}

/// Reads a metadata-exchange message (the payload after the extension id).
pub fn parse_metadata_message(payload: &[u8]) -> (r: Result<MetadataMessage>)
    ensures
        match bencode_decoding(payload@) {
            None => r matches Err(e) && e is Bencode,
            Some(m) => if !(m is Dict) {
                r matches Err(e) && e is InvalidMetadataResponse
            } else {
                match metadata_message_of(payload@, m) {
                    None => r matches Err(e) && e is InvalidMetadataResponse,
                    Some((t, piece, total, data)) => r matches Ok(msg) && msg.msg_type == t
                        && msg.piece == piece && msg.total_size == total && msg.data@ == data,
                }
            },
        },
{
    let value = decode(payload)?;
    if !matches!(value, BencodeValue::Dict(_)) {
        return Err(TorrentError::InvalidMetadataResponse);
    }
    let msg_type = match lookup(&value, "msg_type") {
        Some(BencodeValue::Int(t)) => *t,
        _ => return Err(TorrentError::InvalidMetadataResponse),
    };
    let piece = match lookup(&value, "piece") {
        Some(BencodeValue::Int(p)) => if *p >= 0 {
            *p as usize
        } else {
            return Err(TorrentError::InvalidMetadataResponse);
        },
        _ => return Err(TorrentError::InvalidMetadataResponse),
    };
    let total_size = match lookup(&value, "total_size") {
        Some(BencodeValue::Int(v)) => if *v >= 0 {
            Some(*v as usize)
        } else {
            None
        },
        _ => None,
    };
    let dict_len = match encode(&value) {
        Ok(bytes) => bytes.len(),
        Err(e) => return Err(e),
    };
    let data = if payload.len() > dict_len {
        let d = vstd::slice::slice_to_vec(vstd::slice::slice_subrange(payload, dict_len, payload.len()));
        assert(d@ =~= payload@.skip(dict_len as int));
        d
    } else {
        Vec::new()
    };
    Ok(MetadataMessage { msg_type, piece, total_size, data })
}

/// The model of a two-entry dictionary of integers.
pub open spec fn int_dict2(k1: Seq<char>, v1: i64, k2: Seq<char>, v2: i64) -> BencodeModel {
    BencodeModel::Dict(
        Map::empty().insert(encode_utf8(k1), BencodeModel::Int(v1)).insert(
            encode_utf8(k2),
            BencodeModel::Int(v2),
        ),
    )
}

/// The payload of a metadata request: the peer's extension id, then the
/// bencoded `{msg_type: 0, piece}`.
pub fn metadata_request_payload(extension_id: u8, piece: usize) -> (r: Vec<u8>)
    ensures
        r@ == seq![extension_id] + bencode_encoding(
            int_dict2("msg_type"@, 0, "piece"@, piece as i64),
        ),
{
    let mut entries: Vec<(Vec<u8>, BencodeValue)> = Vec::new();
    entries.push((vstd::slice::slice_to_vec("msg_type".as_bytes()), BencodeValue::Int(0)));
    entries.push((vstd::slice::slice_to_vec("piece".as_bytes()), BencodeValue::Int(piece as i64)));
    proof {
        let e = entries@;
        assert(e.drop_last().drop_last() =~= Seq::<(Vec<u8>, BencodeValue)>::empty());
        reveal_with_fuel(dict_model, 3);
        assert(dict_model(e) =~= Map::empty().insert(encode_utf8("msg_type"@), BencodeModel::Int(0)).insert(
            encode_utf8("piece"@),
            BencodeModel::Int(piece as i64),
        ));
    }
    let dict = BencodeValue::Dict(entries);
    let encoded = match encode(&dict) {
        Ok(b) => b,
        Err(_) => Vec::new(),
    };
    let mut payload: Vec<u8> = Vec::new();
    payload.push(extension_id);
    let mut i: usize = 0;
    while i < encoded.len()
        invariant
            i <= encoded.len(),
            payload@ == seq![extension_id] + encoded@.take(i as int),
        decreases encoded.len() - i,
    {
        payload.push(encoded[i]);
        assert(payload@ =~= seq![extension_id] + encoded@.take(i + 1));
        i = i + 1;
    }
    assert(encoded@.take(encoded.len() as int) =~= encoded@);
    payload
}

/// The model of our extension handshake: `{m: {ut_metadata: 1}}`.
pub open spec fn extension_handshake_model() -> BencodeModel {
    BencodeModel::Dict(
        Map::empty().insert(
            encode_utf8("m"@),
            BencodeModel::Dict(
                Map::empty().insert(encode_utf8("ut_metadata"@), BencodeModel::Int(1)),
            ),
        ),
    )
}

/// The payload of our extension handshake: id 0, then the bencoded
/// dictionary announcing `ut_metadata` as extension 1.
pub fn extension_handshake_payload() -> (r: Vec<u8>)
    ensures
        r@ == seq![0u8] + bencode_encoding(extension_handshake_model()),
{
    let mut inner: Vec<(Vec<u8>, BencodeValue)> = Vec::new();
    inner.push((vstd::slice::slice_to_vec("ut_metadata".as_bytes()), BencodeValue::Int(1)));
    let mut outer: Vec<(Vec<u8>, BencodeValue)> = Vec::new();
    outer.push((vstd::slice::slice_to_vec("m".as_bytes()), BencodeValue::Dict(inner)));
    proof {
        reveal_with_fuel(dict_model, 2);
        assert(inner@.drop_last() =~= Seq::<(Vec<u8>, BencodeValue)>::empty());
        assert(outer@.drop_last() =~= Seq::<(Vec<u8>, BencodeValue)>::empty());
        assert(dict_model(inner@) =~= Map::empty().insert(encode_utf8("ut_metadata"@), BencodeModel::Int(1)));
        assert(dict_model(outer@) =~= dict_entries_of(extension_handshake_model()));
    }
    let value = BencodeValue::Dict(outer);
    let encoded = match encode(&value) {
        Ok(b) => b,
        Err(_) => Vec::new(),
    };
    let mut payload: Vec<u8> = Vec::new();
    payload.push(0);
    let mut i: usize = 0;
    while i < encoded.len()
        invariant
            i <= encoded.len(),
            payload@ == seq![0u8] + encoded@.take(i as int),
        decreases encoded.len() - i,
    {
        payload.push(encoded[i]);
        assert(payload@ =~= seq![0u8] + encoded@.take(i + 1));
        i = i + 1;
    }
    assert(encoded@.take(encoded.len() as int) =~= encoded@);
    payload
}

/// The entries of a dictionary model.
pub open spec fn dict_entries_of(m: BencodeModel) -> Map<Seq<u8>, BencodeModel> {
    match m {
        BencodeModel::Dict(d) => d,
        _ => Map::empty(),
    }
}

// ---------------------------------------------------------------- metadata

/// The number of metadata pieces for a metadata size (rounded up).
pub open spec fn metadata_piece_count(size: nat) -> int {
    (size + METADATA_BLOCK_SIZE - 1) / (METADATA_BLOCK_SIZE as int)
}

/// The metadata being received from a peer, piece after piece.
pub struct MetadataAssembly {
    pub metadata_size: usize,
    pub piece_count: usize,
    pub expected_piece: usize,
    pub metadata: Vec<u8>,
    pub pieces: Ghost<Seq<Seq<u8>>>,
}

/// The length of metadata piece `k` for metadata of `size` bytes: a full
/// block, or the rest for the last piece.
pub open spec fn metadata_piece_len(size: int, k: int) -> int {
    if size - k * METADATA_BLOCK_SIZE < METADATA_BLOCK_SIZE {
        size - k * METADATA_BLOCK_SIZE
    } else {
        METADATA_BLOCK_SIZE as int
    }
}

/// What a metadata message did to the assembly.
#[derive(Debug, Clone, Copy, PartialEq, Eq)]
pub enum MetadataStep {
    /// Not the expected piece, or not a data message: wait for the next one.
    Ignored,
    /// The expected piece was stored.
    Stored,
}

impl MetadataAssembly {
    /// The assembly's invariant: every piece before the expected one is
    /// stored, each a full block except a shorter last one.
    pub open spec fn wf(self) -> bool {
        &&& self.piece_count == metadata_piece_count(self.metadata_size as nat)
        &&& self.expected_piece <= self.piece_count
        &&& self.metadata@.len() == if self.expected_piece == self.piece_count {
            self.metadata_size as int
        } else {
            self.expected_piece * METADATA_BLOCK_SIZE
        }
        &&& self.pieces@.len() == self.expected_piece
        &&& self.metadata@ == concat_chunks(self.pieces@)
        &&& forall|k: int|
            0 <= k < self.expected_piece ==> (#[trigger] self.pieces@[k]).len() == metadata_piece_len(
                self.metadata_size as int,
                k,
            )
    }

    /// An empty assembly for metadata of the announced size.
    pub fn new(metadata_size: usize) -> (r: Self)
        ensures
            r.wf(),
            r.metadata_size == metadata_size,
            r.expected_piece == 0,
            r.metadata@.len() == 0,
            r.pieces@.len() == 0,
    {
        let piece_count = metadata_size / METADATA_BLOCK_SIZE + if metadata_size % METADATA_BLOCK_SIZE
            != 0 {
            1
        } else {
            0
        };
        MetadataAssembly {
            metadata_size,
            piece_count,
            expected_piece: 0,
            metadata: Vec::new(),
            pieces: Ghost(Seq::empty()),
        }
    }

    /// The request for the awaited piece, or `None` once every piece is
    /// stored: pieces are asked for in order, the next one only after the
    /// previous one was stored.
    pub fn next_request(&self, extension_id: u8) -> (r: Option<Vec<u8>>)
        requires
            self.wf(),
        ensures
            (self.expected_piece == self.piece_count) == (r is None),
            r matches Some(p) ==> p@ == seq![extension_id] + bencode_encoding(
                int_dict2("msg_type"@, 0, "piece"@, self.expected_piece as i64),
            ),
    {
        if self.expected_piece == self.piece_count {
            None
        } else {
            Some(metadata_request_payload(extension_id, self.expected_piece))
        }
    }

    /// True when every piece has been stored.
    pub fn is_complete(&self) -> (r: bool)
        requires
            self.wf(),
        ensures
            r == (self.expected_piece == self.piece_count),
    {
        self.expected_piece == self.piece_count
    }

    /// Takes one metadata message while a piece is awaited.  A message for
    /// another piece, or of another type than data or reject, is ignored. A
    /// reject fails with `MetadataRejected`.  Data must announce the agreed
    /// total size and hold exactly the expected number of bytes (a full block,
    /// or the rest for the last piece), else `InvalidMetadataResponse`; then it
    /// is appended and the next piece is awaited.
    pub fn on_message(&mut self, message: &MetadataMessage) -> (r: Result<MetadataStep>)
        requires
            old(self).wf(),
            old(self).expected_piece < old(self).piece_count,
        ensures
            final(self).wf(),
            final(self).metadata_size == old(self).metadata_size,
            r is Err ==> *final(self) == *old(self),
            message.piece != old(self).expected_piece ==> r == Ok::<MetadataStep, TorrentError>(
                MetadataStep::Ignored,
            ) && *final(self) == *old(self),
            message.piece == old(self).expected_piece ==> {
                let expected_len = if old(self).metadata_size - old(self).metadata@.len()
                    < METADATA_BLOCK_SIZE {
                    old(self).metadata_size - old(self).metadata@.len()
                } else {
                    METADATA_BLOCK_SIZE as int
                };
                &&& message.msg_type == 2 ==> (r matches Err(e) && e is MetadataRejected)
                &&& message.msg_type == 1 && (message.total_size != Some(old(self).metadata_size)
                    || message.data@.len() != expected_len) ==> (r matches Err(e)
                    && e is InvalidMetadataResponse)
                &&& message.msg_type == 1 && message.total_size == Some(old(self).metadata_size)
                    && message.data@.len() == expected_len ==> r == Ok::<
                    MetadataStep,
                    TorrentError,
                >(MetadataStep::Stored) && final(self).expected_piece == old(self).expected_piece
                    + 1 && final(self).metadata@ == old(self).metadata@ + message.data@
                    && final(self).pieces@ == old(self).pieces@.push(message.data@)
                &&& message.msg_type != 1 && message.msg_type != 2 ==> r == Ok::<
                    MetadataStep,
                    TorrentError,
                >(MetadataStep::Ignored) && *final(self) == *old(self)
            },
    {
        if message.piece != self.expected_piece {
            return Ok(MetadataStep::Ignored);
        }
        if message.msg_type == 1 {
            if message.total_size != Some(self.metadata_size) {
                return Err(TorrentError::InvalidMetadataResponse);
            }
            let remaining = self.metadata_size - self.metadata.len();
            let expected_len = if remaining < METADATA_BLOCK_SIZE {
                remaining
            } else {
                METADATA_BLOCK_SIZE
            };
            if message.data.len() != expected_len {
                return Err(TorrentError::InvalidMetadataResponse);
            }
            let mut i: usize = 0;
            let ghost before = self.metadata@;
            while i < message.data.len()
                invariant
                    i <= message.data@.len(),
                    self.metadata@ == before + message.data@.take(i as int),
                    self.metadata_size == old(self).metadata_size,
                    self.piece_count == old(self).piece_count,
                    self.expected_piece == old(self).expected_piece,
                    self.pieces == old(self).pieces,
                decreases message.data@.len() - i,
            {
                self.metadata.push(message.data[i]);
                assert(self.metadata@ =~= before + message.data@.take(i + 1));
                i = i + 1;
            }
            assert(message.data@.take(message.data@.len() as int) =~= message.data@);
            self.expected_piece = self.expected_piece + 1;
            let ghost old_pieces = self.pieces@;
            self.pieces = Ghost(self.pieces@.push(message.data@));
            proof {
                assert(self.pieces@.drop_last() =~= old_pieces);
                assert forall|k: int|
                    0 <= k < self.expected_piece implies (#[trigger] self.pieces@[k]).len()
                    == metadata_piece_len(self.metadata_size as int, k) by {
                    if k < self.expected_piece - 1 {
                        assert(self.pieces@[k] == old_pieces[k]);
                    }
                }
                let n = self.metadata_size as int;
                let e = self.expected_piece as int;
                let b = METADATA_BLOCK_SIZE as int;
                assert(self.piece_count == (n + b - 1) / b);
                if e == self.piece_count {
                    assert((e - 1) * b + (n - (e - 1) * b) == n);
                } else {
                    assert(e < (n + b - 1) / b);
                    assert(e * b <= n - 1) by (nonlinear_arith)
                        requires
                            e < (n + b - 1) / b,
                            b == 16384,
                            e >= 1,
                    ;
                }
            }
            Ok(MetadataStep::Stored)
        } else if message.msg_type == 2 {
            Err(TorrentError::MetadataRejected)
        } else {
            Ok(MetadataStep::Ignored)
        }
    }

    /// The assembled metadata; once complete it has exactly the announced
    /// size.
    pub fn finish(self) -> (r: Result<Vec<u8>>)
        requires
            self.wf(),
        ensures
            self.expected_piece == self.piece_count ==> r == Ok::<Vec<u8>, TorrentError>(
                self.metadata,
            ) && self.metadata@.len() == self.metadata_size,
            self.metadata@.len() != self.metadata_size ==> (r matches Err(e)
                && e is IncompleteMetadata),
    {
        if self.metadata.len() != self.metadata_size {
            return Err(TorrentError::IncompleteMetadata);
        }
        Ok(self.metadata)
    }
}

/// Finished metadata is the data of the stored pieces, one after the
/// other: piece `k` is a full block, or the rest for the last piece, and
/// the whole has the announced size.
pub proof fn lemma_metadata_is_its_pieces(a: MetadataAssembly)
    requires
        a.wf(),
        a.expected_piece == a.piece_count,
    ensures
        a.metadata@.len() == a.metadata_size,
        a.metadata@ == concat_chunks(a.pieces@),
        a.pieces@.len() == metadata_piece_count(a.metadata_size as nat),
        forall|k: int|
            0 <= k < a.pieces@.len() ==> (#[trigger] a.pieces@[k]).len() == metadata_piece_len(
                a.metadata_size as int,
                k,
            ),
{
}

} // verus!
