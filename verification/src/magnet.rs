//! Magnet links: the info hash, tracker and display name they carry.

use vstd::prelude::*;
use crate::error::{Result, TorrentError};
use crate::text::{opt_text, same_text, strip_prefix};

verus! {

/// The parts of a URL that magnet handling reads, as the url crate parses
/// them: the scheme and the decoded query pairs in order (`None` when
/// `Url::parse` rejects the text).
pub uninterp spec fn url_query_parts(link: Seq<char>) -> Option<(Seq<char>, Seq<(Seq<char>, Seq<char>)>)>;

/// The texts of a list of query pairs.
pub open spec fn pair_texts(p: Seq<(String, String)>) -> Seq<(Seq<char>, Seq<char>)> {
    p.map_values(|kv: (String, String)| (kv.0@, kv.1@))
}

/// Parses `link` with `url::Url::parse` and reads its scheme and its
/// decoded query pairs (`Url::query_pairs`).
#[verifier::external_body]
fn parse_url_query(link: &str) -> (r: Option<(String, Vec<(String, String)>)>)
    ensures
        match url_query_parts(link@) {
            None => r is None,
            Some((scheme, pairs)) => r matches Some((s, p)) && s@ == scheme && pair_texts(p@)
                == pairs,
        },
{
    let url = url::Url::parse(link).ok()?;
    let pairs = url.query_pairs().map(|(k, v)| (k.into_owned(), v.into_owned())).collect();
    Some((url.scheme().to_string(), pairs))
}

/// A parsed magnet link.
#[derive(Debug)]
pub struct Magnet {
    pub info_hash: String,
    pub tracker_url: Option<String>,
    pub display_name: Option<String>,
}

/// The magnet fields read from query pairs, in order: an `xt` whose value
/// starts with `urn:btih:` sets the info hash (to the rest of the value), `tr`
/// sets the tracker and `dn` the display name; a later pair overrides an
/// earlier one.
pub open spec fn magnet_fields(pairs: Seq<(Seq<char>, Seq<char>)>) -> (
    Option<Seq<char>>,
    Option<Seq<char>>,
    Option<Seq<char>>,
)
    decreases pairs.len(),
{
    if pairs.len() == 0 {
        (None, None, None)
    } else {
        let (hash, tracker, name) = magnet_fields(pairs.drop_last());
        let (k, v) = pairs.last();
        if k == "xt"@ {
            if "urn:btih:"@.is_prefix_of(v) {
                (Some(v.skip(9)), tracker, name)
            } else {
                (hash, tracker, name)
            }
        } else if k == "tr"@ {
            (hash, Some(v), name)
        } else if k == "dn"@ {
            (hash, tracker, Some(v))
        } else {
            (hash, tracker, name)
        }
    }
}

/// The info hash a magnet link gives is the rest of its last `xt` value that
/// starts with `urn:btih:`; an `xt` value of any other form (such as a
/// `urn:btmh:` multihash) is ignored, and with no such value there is none.
pub proof fn lemma_magnet_hash_is_last_btih(pairs: Seq<(Seq<char>, Seq<char>)>)
    ensures
        magnet_fields(pairs).0 is None <==> forall|i: int|
            0 <= i < pairs.len() ==> !(#[trigger] pairs[i].0 == "xt"@ && "urn:btih:"@.is_prefix_of(
                pairs[i].1,
            )),
        magnet_fields(pairs).0 matches Some(h) ==> exists|i: int|
            {
                &&& 0 <= i < pairs.len()
                &&& #[trigger] pairs[i].0 == "xt"@
                &&& "urn:btih:"@.is_prefix_of(pairs[i].1)
                &&& h == pairs[i].1.skip(9)
                &&& forall|j: int|
                    i < j < pairs.len() ==> !(#[trigger] pairs[j].0 == "xt"@
                        && "urn:btih:"@.is_prefix_of(pairs[j].1))
            },
    decreases pairs.len(),
{
    reveal_strlit("urn:btih:");
    if pairs.len() > 0 {
        let init = pairs.drop_last();
        lemma_magnet_hash_is_last_btih(init);
        let n = pairs.len() - 1;
        assert forall|i: int| 0 <= i < n implies #[trigger] pairs[i] == init[i] by {}
        if pairs[n].0 == "xt"@ && "urn:btih:"@.is_prefix_of(pairs[n].1) {
            assert(magnet_fields(pairs).0 == Some(pairs[n].1.skip(9)));
        } else {
            assert(magnet_fields(pairs).0 == magnet_fields(init).0);
            if let Some(h) = magnet_fields(pairs).0 {
                let i = choose|i: int|
                    {
                        &&& 0 <= i < init.len()
                        &&& #[trigger] init[i].0 == "xt"@
                        &&& "urn:btih:"@.is_prefix_of(init[i].1)
                        &&& h == init[i].1.skip(9)
                        &&& forall|j: int|
                            i < j < init.len() ==> !(#[trigger] init[j].0 == "xt"@
                                && "urn:btih:"@.is_prefix_of(init[j].1))
                    };
                assert(pairs[i] == init[i]);
                assert forall|j: int| i < j < pairs.len() implies !(#[trigger] pairs[j].0 == "xt"@
                    && "urn:btih:"@.is_prefix_of(pairs[j].1)) by {
                    if j < n {
                        assert(pairs[j] == init[j]);
                    }
                }
            }
        }
    }
}

/// The tracker a magnet link gives is the value of its last `tr` pair and its
/// display name that of its last `dn` pair; without such a pair there is none.
pub proof fn lemma_magnet_tracker_and_name_are_last(pairs: Seq<(Seq<char>, Seq<char>)>)
    ensures
        magnet_fields(pairs).1 is None <==> forall|i: int|
            0 <= i < pairs.len() ==> #[trigger] pairs[i].0 != "tr"@,
        magnet_fields(pairs).1 matches Some(t) ==> exists|i: int|
            {
                &&& 0 <= i < pairs.len()
                &&& #[trigger] pairs[i].0 == "tr"@
                &&& t == pairs[i].1
                &&& forall|j: int| i < j < pairs.len() ==> #[trigger] pairs[j].0 != "tr"@
            },
        magnet_fields(pairs).2 is None <==> forall|i: int|
            0 <= i < pairs.len() ==> #[trigger] pairs[i].0 != "dn"@,
        magnet_fields(pairs).2 matches Some(d) ==> exists|i: int|
            {
                &&& 0 <= i < pairs.len()
                &&& #[trigger] pairs[i].0 == "dn"@
                &&& d == pairs[i].1
                &&& forall|j: int| i < j < pairs.len() ==> #[trigger] pairs[j].0 != "dn"@
            },
    decreases pairs.len(),
{
    reveal_strlit("xt");
    reveal_strlit("tr");
    reveal_strlit("dn");
    if pairs.len() > 0 {
        let init = pairs.drop_last();
        lemma_magnet_tracker_and_name_are_last(init);
        let n = pairs.len() - 1;
        assert forall|i: int| 0 <= i < n implies #[trigger] pairs[i] == init[i] by {}
        if pairs[n].0 == "tr"@ {
            assert("tr"@[0] != "xt"@[0]);
            assert(magnet_fields(pairs).1 == Some(pairs[n].1));
            assert(pairs[n].0 == "tr"@);
        } else {
            assert(magnet_fields(pairs).1 == magnet_fields(init).1);
            if let Some(t) = magnet_fields(pairs).1 {
                let i = choose|i: int|
                    {
                        &&& 0 <= i < init.len()
                        &&& #[trigger] init[i].0 == "tr"@
                        &&& t == init[i].1
                        &&& forall|j: int| i < j < init.len() ==> #[trigger] init[j].0 != "tr"@
                    };
                assert(pairs[i] == init[i]);
                assert forall|j: int| i < j < pairs.len() implies #[trigger] pairs[j].0 != "tr"@ by {
                    if j < n {
                        assert(pairs[j] == init[j]);
                    }
                }
            }
        }
        if pairs[n].0 == "dn"@ {
            assert("dn"@[0] != "xt"@[0]);
            assert("dn"@[0] != "tr"@[0]);
            assert(magnet_fields(pairs).2 == Some(pairs[n].1));
            assert(pairs[n].0 == "dn"@);
        } else {
            assert(magnet_fields(pairs).2 == magnet_fields(init).2);
            if let Some(d) = magnet_fields(pairs).2 {
                let i = choose|i: int|
                    {
                        &&& 0 <= i < init.len()
                        &&& #[trigger] init[i].0 == "dn"@
                        &&& d == init[i].1
                        &&& forall|j: int| i < j < init.len() ==> #[trigger] init[j].0 != "dn"@
                    };
                assert(pairs[i] == init[i]);
                assert forall|j: int| i < j < pairs.len() implies #[trigger] pairs[j].0 != "dn"@ by {
                    if j < n {
                        assert(pairs[j] == init[j]);
                    }
                }
            }
        }
    }
}

/// The fields of the magnet link `link` stands for, if it is a magnet link
/// with an info hash.
pub open spec fn magnet_of(link: Seq<char>) -> Option<(Seq<char>, Option<Seq<char>>, Option<Seq<char>>)> {
    match url_query_parts(link) {
        None => None,
        Some((scheme, pairs)) => if scheme != "magnet"@ {
            None
        } else {
            match magnet_fields(pairs) {
                (Some(hash), tracker, name) => Some((hash, tracker, name)),
                _ => None,
            }
        },
    }
}

impl Magnet {
    /// The model of this magnet: info hash, tracker, display name.
    pub open spec fn model(self) -> (Seq<char>, Option<Seq<char>>, Option<Seq<char>>) {
        (self.info_hash@, opt_text(self.tracker_url), opt_text(self.display_name))
    }

    /// Parses a magnet link.  It fails with `InvalidMagnetLink` when the text
    /// is not a URL, its scheme is not `magnet`, or no `xt=urn:btih:` pair gives
    /// an info hash.
    pub fn parse(link: &str) -> (r: Result<Self>)
        ensures
            r is Ok <==> magnet_of(link@) is Some,
            r matches Ok(m) ==> magnet_of(link@) == Some(m.model()),
            r matches Err(e) ==> e is InvalidMagnetLink,
    {
        let (scheme, pairs) = match parse_url_query(link) {
            Some(parts) => parts,
            None => return Err(TorrentError::InvalidMagnetLink),
        };
        if !same_text(scheme.as_str(), "magnet") {
            return Err(TorrentError::InvalidMagnetLink);
        }
        let mut info_hash: Option<String> = None;
        let mut tracker_url: Option<String> = None;
        let mut display_name: Option<String> = None;
        let mut i: usize = 0;
        while i < pairs.len()
            invariant
                i <= pairs.len(),
                magnet_fields(pair_texts(pairs@).take(i as int)) == (
                    opt_text(info_hash),
                    opt_text(tracker_url),
                    opt_text(display_name),
                ),
            decreases pairs.len() - i,
        {
            let key = pairs[i].0.as_str();
            let value = pairs[i].1.as_str();
            proof {
                assert(pair_texts(pairs@).take(i + 1).drop_last() =~= pair_texts(pairs@).take(
                    i as int,
                ));
                reveal_strlit("xt");
                reveal_strlit("tr");
                reveal_strlit("dn");
            }
            if same_text(key, "xt") {
                if let Some(stripped) = strip_prefix(value, "urn:btih:") {
                    proof {
                        reveal_strlit("urn:btih:");
                    }
                    info_hash = Some(stripped);
                }
            } else if same_text(key, "tr") {
                tracker_url = Some(pairs[i].1.clone());
            } else if same_text(key, "dn") {
                display_name = Some(pairs[i].1.clone());
            }
            i = i + 1;
        }
        assert(pair_texts(pairs@).take(pairs.len() as int) =~= pair_texts(pairs@));
        match info_hash {
            Some(h) => Ok(Magnet { info_hash: h, tracker_url, display_name }),
            None => Err(TorrentError::InvalidMagnetLink),
        }
    }
}

} // verus!
