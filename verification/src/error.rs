//! The error type shared by every part of the library.

use vstd::prelude::*;
use crate::text::{push_decimal, push_str, string_of, decimal};

verus! {

/// serde_bencode's error type, carried inside `TorrentError::Bencode`.
#[verifier::external_type_specification]
#[verifier::external_body]
pub struct ExternalBencodeError(serde_bencode::Error);

/// Everything that can go wrong while reading metadata, talking to trackers
/// and peers, or storing pieces.
///
/// Errors of the I/O layer (files, HTTP, JSON, URL parsing) carry the text
/// of the underlying error.
#[derive(Debug)]
pub enum TorrentError {
    Io(String),
    Bencode(serde_bencode::Error),
    MissingKey(&'static str),
    UnexpectedType { expected: &'static str, found: &'static str },
    Reqwest(String),
    InvalidResponseFormat(String),
    UrlParse(String),
    Json(String),
    Tracker(String),
    InvalidInfoHash,
    InvalidPeerResponse,
    PieceVerificationFailed,
    ConnectionFailed(String),
    DecodeError(String),
    NoPeersAvailable,
    UnexpectedMessage(String),
    UnexpectedBlockData,
    DownloadFailed(String),
    InvalidMagnetLink,
    ChannelSendError(String),
    MetadataExtensionNotSupported,
    InvalidMetadataResponse,
    MetadataSizeNotFound,
    MetadataRejected,
    IncompleteMetadata,
    ConnectionClosed,
    ConnectionTimeout,
    PeerDoesNotAdvertisePiece(usize),
}

/// Shorthand for results whose error is a `TorrentError`.
pub type Result<T> = core::result::Result<T, TorrentError>;

/// The text of serde_bencode's error (its `Display` output).
#[verifier::external_body]
fn bencode_error_text(e: &serde_bencode::Error) -> String {
    e.to_string()
}

impl TorrentError {
    /// True when `text` is how this error is shown to a user.  For a bencode
    /// error only the prefix is fixed: the rest is serde_bencode's own text.
    pub open spec fn describes(self, text: Seq<char>) -> bool {
        match self {
            TorrentError::Io(m) => text == "IO Error: "@ + m@,
            TorrentError::Bencode(_) => "Bencode Error: "@.is_prefix_of(text),
            TorrentError::MissingKey(k) => text == "Missing Key: "@ + k@,
            TorrentError::UnexpectedType { expected, found } => text
                == "Unexpected Type: expected "@ + expected@ + ", found "@ + found@,
            TorrentError::Reqwest(m) => text == "HTTP Request Error: "@ + m@,
            TorrentError::InvalidResponseFormat(m) => text == "Invalid Response Format: "@ + m@,
            TorrentError::UrlParse(m) => text == "URL Parse Error: "@ + m@,
            TorrentError::Json(m) => text == "JSON Error: "@ + m@,
            TorrentError::Tracker(m) => text == "Tracker Error: "@ + m@,
            TorrentError::InvalidInfoHash => text == "Invalid Info Hash"@,
            TorrentError::InvalidPeerResponse => text == "Invalid Peer Response"@,
            TorrentError::PieceVerificationFailed => text == "Piece Verification Failed"@,
            TorrentError::ConnectionFailed(m) => text == "Connection Failed: "@ + m@,
            TorrentError::DecodeError(m) => text == "Decode Error: "@ + m@,
            TorrentError::NoPeersAvailable => text == "No Peers Available"@,
            TorrentError::UnexpectedMessage(m) => text == "Unexpected Message: "@ + m@,
            TorrentError::UnexpectedBlockData => text == "Unexpected Block Data"@,
            TorrentError::DownloadFailed(m) => text == "Download Failed: "@ + m@,
            TorrentError::InvalidMagnetLink => text == "Invalid Magnet Link"@,
            TorrentError::ChannelSendError(m) => text == "Channel Send Error: "@ + m@,
            TorrentError::MetadataExtensionNotSupported => text
                == "Metadata Extension Not Supported"@,
            TorrentError::InvalidMetadataResponse => text == "Invalid Metadata Response"@,
            TorrentError::MetadataSizeNotFound => text == "Metadata Size Not Found"@,
            TorrentError::MetadataRejected => text == "Metadata Rejected"@,
            TorrentError::IncompleteMetadata => text == "Incomplete Metadata"@,
            TorrentError::ConnectionClosed => text == "Connection Closed"@,
            TorrentError::ConnectionTimeout => text == "Connection Timeout"@,
            TorrentError::PeerDoesNotAdvertisePiece(i) => text
                == "Peer Does Not Advertise Piece: "@ + decimal(i as nat),
        }
    }

    /// The message shown to a user for this error.
    pub fn to_string(&self) -> (r: String)
        ensures
            self.describes(r@),
    {
        match self {
            TorrentError::Io(m) => prefixed("IO Error: ", m.as_str()),
            TorrentError::Bencode(e) => {
                let detail = bencode_error_text(e);
                prefixed("Bencode Error: ", detail.as_str())
            },
            TorrentError::MissingKey(k) => prefixed("Missing Key: ", k),
            TorrentError::UnexpectedType { expected, found } => {
                let mut s = string_of("Unexpected Type: expected ");
                push_str(&mut s, expected);
                push_str(&mut s, ", found ");
                push_str(&mut s, found);
                s
            },
            TorrentError::Reqwest(m) => prefixed("HTTP Request Error: ", m.as_str()),
            TorrentError::InvalidResponseFormat(m) => prefixed(
                "Invalid Response Format: ",
                m.as_str(),
            ),
            TorrentError::UrlParse(m) => prefixed("URL Parse Error: ", m.as_str()),
            TorrentError::Json(m) => prefixed("JSON Error: ", m.as_str()),
            TorrentError::Tracker(m) => prefixed("Tracker Error: ", m.as_str()),
            TorrentError::InvalidInfoHash => string_of("Invalid Info Hash"),
            TorrentError::InvalidPeerResponse => string_of("Invalid Peer Response"),
            TorrentError::PieceVerificationFailed => string_of("Piece Verification Failed"),
            TorrentError::ConnectionFailed(m) => prefixed("Connection Failed: ", m.as_str()),
            TorrentError::DecodeError(m) => prefixed("Decode Error: ", m.as_str()),
            TorrentError::NoPeersAvailable => string_of("No Peers Available"),
            TorrentError::UnexpectedMessage(m) => prefixed("Unexpected Message: ", m.as_str()),
            TorrentError::UnexpectedBlockData => string_of("Unexpected Block Data"),
            TorrentError::DownloadFailed(m) => prefixed("Download Failed: ", m.as_str()),
            TorrentError::InvalidMagnetLink => string_of("Invalid Magnet Link"),
            TorrentError::ChannelSendError(m) => prefixed("Channel Send Error: ", m.as_str()),
            TorrentError::MetadataExtensionNotSupported => string_of(
                "Metadata Extension Not Supported",
            ),
            TorrentError::InvalidMetadataResponse => string_of("Invalid Metadata Response"),
            TorrentError::MetadataSizeNotFound => string_of("Metadata Size Not Found"),
            TorrentError::MetadataRejected => string_of("Metadata Rejected"),
            TorrentError::IncompleteMetadata => string_of("Incomplete Metadata"),
            TorrentError::ConnectionClosed => string_of("Connection Closed"),
            TorrentError::ConnectionTimeout => string_of("Connection Timeout"),
            TorrentError::PeerDoesNotAdvertisePiece(i) => {
                let mut s = string_of("Peer Does Not Advertise Piece: ");
                push_decimal(&mut s, *i as u64);
                s
            },
        }
    }
}

fn prefixed(head: &str, tail: &str) -> (r: String)
    ensures
        r@ == head@ + tail@,
{
    let mut s = string_of(head);
    push_str(&mut s, tail);
    s
}

} // verus!
