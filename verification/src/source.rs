//! Telling magnet links from torrent files, and reading hexadecimal info hashes.

use vstd::prelude::*;
use crate::error::{Result, TorrentError};
use crate::hashing::{hex_bytes, hex_decode, hex_text, lemma_hex_round_trip};
use crate::text::starts_with;

verus! {

/// True when `source` is a magnet link: it starts with `magnet:?`.
pub fn is_magnet_link(source: &str) -> (r: bool)
    ensures
        r == "magnet:?"@.is_prefix_of(source@),
{
    starts_with(source, "magnet:?")
}

/// The 20 bytes that a hexadecimal info hash stands for, if it stands for 20 bytes.
pub open spec fn info_hash_bytes(text: Seq<char>) -> Option<Seq<u8>> {
    match hex_bytes(text) {
        Some(b) => if b.len() == 20 {
            Some(b)
        } else {
            None
        },
        None => None,
    }
}

/// Reads a 40-digit hexadecimal info hash into its 20 bytes.
pub fn parse_info_hash(info_hash: &str) -> (r: Result<[u8; 20]>)
    ensures
        r is Ok <==> info_hash_bytes(info_hash@) is Some,
        r matches Ok(h) ==> info_hash_bytes(info_hash@) == Some(h@),
        r matches Err(e) ==> e is InvalidInfoHash,
{
    let bytes = match hex_decode(info_hash) {
        Some(b) => b,
        None => return Err(TorrentError::InvalidInfoHash),
    };
    if bytes.len() != 20 {
        return Err(TorrentError::InvalidInfoHash);
    }
    let mut out = [0u8; 20];
    let mut i: usize = 0;
    while i < 20
        invariant
            bytes@.len() == 20,
            i <= 20,
            forall|j: int| 0 <= j < i ==> out@[j] == bytes@[j],
        decreases 20 - i,
    {
        out[i] = bytes[i];
        i = i + 1;
    }
    assert(out@ =~= bytes@);
    Ok(out)
}

/// The hexadecimal text of any 20 bytes reads back as those bytes.
pub proof fn lemma_info_hash_round_trip(hash: Seq<u8>)
    requires
        hash.len() == 20,
    ensures
        info_hash_bytes(hex_text(hash)) == Some(hash),
{
    lemma_hex_round_trip(hash);
}

} // verus!
