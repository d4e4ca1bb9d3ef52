//! Core logic of a BitTorrent client: bencode values, torrent metadata,
//! magnet links, tracker and peer wire messages, piece bookkeeping and the
//! download scheduler.

pub mod bencode;
pub mod bytes;
pub mod download;
pub mod error;
pub mod hashing;
pub mod json;
pub mod magnet;
pub mod peer;
pub mod peer_id;
pub mod report;
pub mod source;
pub mod storage;
pub mod text;
pub mod torrent;
pub mod tracker;
