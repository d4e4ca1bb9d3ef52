//! Our peer id: a fixed client prefix followed by random alphanumerics.

use vstd::prelude::*;
use rand::Rng;

verus! {

/// The client prefix of every peer id.
pub open spec fn peer_id_prefix() -> Seq<u8> {
    seq![45u8, 84, 82, 51, 48, 48, 48, 45]
}

/// The characters the random part of a peer id is drawn from: digits,
/// upper-case and lower-case letters.
pub open spec fn peer_id_charset() -> Seq<u8> {
    Seq::new(62, |i: int| if i < 10 {
        (48 + i) as u8
    } else if i < 36 {
        (55 + i) as u8
    } else {
        (61 + i) as u8
    })
}

/// A uniformly random index below `bound` (`rand::thread_rng().gen_range`).
#[verifier::external_body]
fn random_index(bound: usize) -> (r: usize)
    requires
        bound > 0,
    ensures
        r < bound,
{
    rand::thread_rng().gen_range(0..bound)
}

/// The `i`-th character of the peer id charset.
pub fn charset_byte(i: usize) -> (r: u8)
    requires
        i < 62,
    ensures
        r == peer_id_charset()[i as int],
{
    if i < 10 {
        (48 + i) as u8
    } else if i < 36 {
        (55 + i) as u8
    } else {
        (61 + i) as u8
    }
}

/// The peer id that twelve drawn charset indices stand for: the prefix,
/// then the charset character of each index in turn.
pub open spec fn peer_id_of(indices: Seq<usize>) -> Seq<u8> {
    peer_id_prefix() + Seq::new(12, |k: int| peer_id_charset()[indices[k] as int])
}

/// Builds the peer id for twelve charset indices.
pub fn peer_id_from_indices(indices: &[usize; 12]) -> (r: [u8; 20])
    requires
        forall|k: int| 0 <= k < 12 ==> #[trigger] indices@[k] < 62,
    ensures
        r@ == peer_id_of(indices@),
{
    let prefix: [u8; 8] = [45, 84, 82, 51, 48, 48, 48, 45];
    let mut peer_id = [0u8; 20];
    let mut i: usize = 0;
    while i < 20
        invariant
            i <= 20,
            prefix@ == peer_id_prefix(),
            forall|k: int| 0 <= k < 12 ==> #[trigger] indices@[k] < 62,
            forall|j: int| 0 <= j < i ==> peer_id@[j] == peer_id_of(indices@)[j],
        decreases 20 - i,
    {
        if i < 8 {
            peer_id[i] = prefix[i];
        } else {
            peer_id[i] = charset_byte(indices[i - 8]);
        }
        i = i + 1;
    }
    assert(peer_id@ =~= peer_id_of(indices@));
    peer_id
}

/// A fresh peer id: `-TR3000-` then twelve characters of the charset, each
/// drawn at random.
pub fn generate_peer_id() -> (r: [u8; 20])
    ensures
        exists|indices: Seq<usize>|
            indices.len() == 12 && (forall|k: int| 0 <= k < 12 ==> #[trigger] indices[k] < 62)
                && r@ == peer_id_of(indices),
        r@.subrange(0, 8) == peer_id_prefix(),
        forall|i: int| 8 <= i < 20 ==> peer_id_charset().contains(#[trigger] r@[i]),
{
    let mut indices = [0usize; 12];
    let mut k: usize = 0;
    while k < 12
        invariant
            k <= 12,
            forall|j: int| 0 <= j < 12 ==> #[trigger] indices@[j] < 62,
        decreases 12 - k,
    {
        indices[k] = random_index(62);
        k = k + 1;
    }
    let r = peer_id_from_indices(&indices);
    proof {
        assert(r@.subrange(0, 8) =~= peer_id_prefix());
        assert forall|i: int| 8 <= i < 20 implies peer_id_charset().contains(#[trigger] r@[i]) by {
            assert(r@[i] == peer_id_charset()[indices@[i - 8] as int]);
        }
    }
    r
}

} // verus!
