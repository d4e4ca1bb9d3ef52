//! Bencode values and the typed helpers built on serde_bencode.

use vstd::prelude::*;
use crate::error::{Result, TorrentError};
use crate::text::string_from_utf8;
use vstd::utf8::{valid_utf8, decode_utf8, encode_utf8};

verus! {

/// A bencoded value as the library holds it.
///
/// A dictionary keeps its entries as a list of key/value pairs; when a key
/// occurs twice, the later entry is the one that counts.
#[derive(Debug)]
pub enum BencodeValue {
    Bytes(Vec<u8>),
    Int(i64),
    List(Vec<BencodeValue>),
    Dict(Vec<(Vec<u8>, BencodeValue)>),
}

/// The mathematical model of a bencoded value.
pub enum BencodeModel {
    Bytes(Seq<u8>),
    Int(i64),
    List(Seq<BencodeModel>),
    Dict(Map<Seq<u8>, BencodeModel>),
}

impl BencodeValue {
    /// The model of this value.
    pub open spec fn model(self) -> BencodeModel
        decreases self,
    {
        match self {
            BencodeValue::Bytes(b) => BencodeModel::Bytes(b@),
            BencodeValue::Int(i) => BencodeModel::Int(i),
            BencodeValue::List(items) => BencodeModel::List(list_model(items@)),
            BencodeValue::Dict(entries) => BencodeModel::Dict(dict_model(entries@)),
        }
    }
}

/// The models of a list of values, in order.
pub open spec fn list_model(items: Seq<BencodeValue>) -> Seq<BencodeModel>
    decreases items,
{
    if items.len() == 0 {
        Seq::empty()
    } else {
        list_model(items.drop_last()).push(items.last().model())
    }
}

/// The map that a list of dictionary entries describes (later entries win).
pub open spec fn dict_model(entries: Seq<(Vec<u8>, BencodeValue)>) -> Map<Seq<u8>, BencodeModel>
    decreases entries,
{
    if entries.len() == 0 {
        Map::empty()
    } else {
        dict_model(entries.drop_last()).insert(entries.last().0@, entries.last().1.model())
    }
}

/// serde_bencode's own value type, handed to and taken from its encoder and decoder.
#[verifier::external_type_specification]
#[verifier::external_body]
pub struct ExternalValue(serde_bencode::value::Value);

/// What serde_bencode's `from_bytes`, asked for a `Value`, decodes from these
/// bytes (`None` when it reports an error).  Trailing bytes after the first
/// complete value are ignored by that decoder.
pub uninterp spec fn bencode_decoding(data: Seq<u8>) -> Option<BencodeModel>;

/// The bytes that serde_bencode's `to_bytes` writes for a value with this model.
pub uninterp spec fn bencode_encoding(v: BencodeModel) -> Seq<u8>;

/// Moves a serde_bencode value into the library's representation, variant
/// for variant (a dictionary's entries come out in the map's iteration order).
#[verifier::external_body]
fn from_outside(v: serde_bencode::value::Value) -> BencodeValue {
    match v {
        serde_bencode::value::Value::Bytes(b) => BencodeValue::Bytes(b),
        serde_bencode::value::Value::Int(i) => BencodeValue::Int(i),
        serde_bencode::value::Value::List(l) => BencodeValue::List(l.into_iter().map(from_outside).collect()),
        serde_bencode::value::Value::Dict(d) => BencodeValue::Dict(d.into_iter().map(|(k, x)| (k, from_outside(x))).collect()),
    }
}

/// Copies a library value into serde_bencode's representation, variant for
/// variant (a dictionary is collected into a `HashMap`, later entries winning).
#[verifier::external_body]
fn to_outside(v: &BencodeValue) -> serde_bencode::value::Value {
    match v {
        BencodeValue::Bytes(b) => serde_bencode::value::Value::Bytes(b.clone()),
        BencodeValue::Int(i) => serde_bencode::value::Value::Int(*i),
        BencodeValue::List(l) => serde_bencode::value::Value::List(l.iter().map(to_outside).collect()),
        BencodeValue::Dict(d) => serde_bencode::value::Value::Dict(d.iter().map(|(k, x)| (k.clone(), to_outside(x))).collect()),
    }
}

/// Calls `serde_bencode::de::from_bytes::<Value>`.  The contract names its
/// result `bencode_decoding`: success exactly when that is `Some`, and then
/// the decoded value has that model.
#[verifier::external_body]
fn decode_with_serde(data: &[u8]) -> (r: core::result::Result<BencodeValue, serde_bencode::Error>)
    ensures
        r is Ok <==> bencode_decoding(data@) is Some,
        r matches Ok(v) ==> bencode_decoding(data@) == Some(v.model()),
{
    serde_bencode::de::from_bytes::<serde_bencode::value::Value>(data).map(from_outside)
}

/// Calls `serde_bencode::ser::to_bytes` on a `Value`.  For a `Value` that
/// serializer has no failing path, so the result is always `Ok`; its bytes are
/// named `bencode_encoding`, and decoding them gives the value back (the
/// decoder reads every integer, byte string, list and dictionary the encoder
/// writes).
#[verifier::external_body]
fn encode_with_serde(v: &BencodeValue) -> (r: core::result::Result<Vec<u8>, serde_bencode::Error>)
    ensures
        r is Ok,
        r matches Ok(bytes) ==> bytes@ == bencode_encoding(v.model()),
        r matches Ok(bytes) ==> bencode_decoding(bytes@) == Some(v.model()),
{
    serde_bencode::ser::to_bytes(&to_outside(v))
}

/// Decodes one bencoded value from the front of `data`.
pub fn decode(data: &[u8]) -> (r: Result<BencodeValue>)
    ensures
        r is Ok <==> bencode_decoding(data@) is Some,
        r matches Ok(v) ==> bencode_decoding(data@) == Some(v.model()),
        r matches Err(e) ==> e is Bencode,
{
    match decode_with_serde(data) {
        Ok(v) => Ok(v),
        Err(e) => Err(TorrentError::Bencode(e)),
    }
}

/// Encodes a value as bencode.
pub fn encode(value: &BencodeValue) -> (r: Result<Vec<u8>>)
    ensures
        r matches Ok(bytes) && bytes@ == bencode_encoding(value.model())
            && bencode_decoding(bytes@) == Some(value.model()),
{
    match encode_with_serde(value) {
        Ok(bytes) => Ok(bytes),
        Err(e) => Err(TorrentError::Bencode(e)),
    }
}

impl BencodeValue {
    /// A copy of this value with the same model.
    pub fn deep_clone(&self) -> (r: BencodeValue)
        ensures
            r.model() == self.model(),
        decreases self,
    {
        match self {
            BencodeValue::Bytes(b) => BencodeValue::Bytes(b.clone()),
            BencodeValue::Int(i) => BencodeValue::Int(*i),
            BencodeValue::List(items) => {
                let mut out: Vec<BencodeValue> = Vec::new();
                let mut i: usize = 0;
                while i < items.len()
                    invariant
                        i <= items.len(),
                        *self == BencodeValue::List(*items),
                        list_model(out@) == list_model(items@.take(i as int)),
                    decreases items.len() - i,
                {
                    proof {
                        assert(decreases_to!(*self => (*self)->List_0));
                        assert(decreases_to!(*items => items@));
                        assert(decreases_to!(items@ => items@[i as int]));
                        assert(decreases_to!(*self => items@[i as int]));
                    }
                    let c = items[i].deep_clone();
                    proof {
                        assert(items@.take(i + 1).drop_last() =~= items@.take(i as int));
                        assert(out@.push(c).drop_last() =~= out@);
                    }
                    out.push(c);
                    i = i + 1;
                }
                assert(items@.take(items.len() as int) =~= items@);
                BencodeValue::List(out)
            },
            BencodeValue::Dict(entries) => {
                let mut out: Vec<(Vec<u8>, BencodeValue)> = Vec::new();
                let mut i: usize = 0;
                while i < entries.len()
                    invariant
                        i <= entries.len(),
                        *self == BencodeValue::Dict(*entries),
                        dict_model(out@) == dict_model(entries@.take(i as int)),
                    decreases entries.len() - i,
                {
                    let k = entries[i].0.clone();
                    proof {
                        assert(decreases_to!(*self => (*self)->Dict_0));
                        assert(decreases_to!(*entries => entries@));
                        assert(decreases_to!(entries@ => entries@[i as int]));
                        assert(decreases_to!(entries@[i as int] => entries@[i as int].1));
                        assert(decreases_to!(*self => entries@[i as int].1));
                    }
                    let c = entries[i].1.deep_clone();
                    proof {
                        assert(entries@.take(i + 1).drop_last() =~= entries@.take(i as int));
                        assert(out@.push((k, c)).drop_last() =~= out@);
                    }
                    out.push((k, c));
                    i = i + 1;
                }
                assert(entries@.take(entries.len() as int) =~= entries@);
                BencodeValue::Dict(out)
            },
        }
    }
}

/// The text that `decode_string` reads from `data`, when it succeeds.
pub open spec fn decoded_string(data: Seq<u8>) -> Option<Seq<char>> {
    match bencode_decoding(data) {
        Some(BencodeModel::Bytes(b)) => if valid_utf8(b) {
            Some(decode_utf8(b))
        } else {
            None
        },
        _ => None,
    }
}

/// True when `e` is the type-mismatch error with these two labels.
pub open spec fn is_type_mismatch(e: TorrentError, expected: Seq<char>, found: Seq<char>) -> bool {
    e matches TorrentError::UnexpectedType { expected: x, found: y } && x@ == expected && y@
        == found
}

/// Decodes a bencoded byte string.
pub fn decode_bytes(data: &[u8]) -> (r: Result<Vec<u8>>)
    ensures
        match bencode_decoding(data@) {
            None => r matches Err(e) && e is Bencode,
            Some(BencodeModel::Bytes(b)) => r matches Ok(v) && v@ == b,
            Some(_) => r matches Err(e) && is_type_mismatch(e, "bytes"@, "non-bytes"@),
        },
{
    match decode(data)? {
        BencodeValue::Bytes(b) => Ok(b),
        _ => Err(TorrentError::UnexpectedType { expected: "bytes", found: "non-bytes" }),
    }
}

/// Decodes a bencoded byte string holding UTF-8 text.
pub fn decode_string(data: &[u8]) -> (r: Result<String>)
    ensures
        r is Ok <==> decoded_string(data@) is Some,
        r matches Ok(s) ==> decoded_string(data@) == Some(s@),
        match bencode_decoding(data@) {
            None => r matches Err(e) && e is Bencode,
            Some(BencodeModel::Bytes(b)) => !valid_utf8(b) ==> (r matches Err(e)
                && e is InvalidResponseFormat),
            Some(_) => r matches Err(e) && is_type_mismatch(e, "bytes"@, "non-bytes"@),
        },
{
    let bytes = decode_bytes(data)?;
    match string_from_utf8(bytes) {
        Ok(s) => Ok(s),
        Err(msg) => Err(TorrentError::InvalidResponseFormat(msg)),
    }
}

/// Decodes a bencoded integer.
pub fn decode_integer(data: &[u8]) -> (r: Result<i64>)
    ensures
        match bencode_decoding(data@) {
            None => r matches Err(e) && e is Bencode,
            Some(BencodeModel::Int(i)) => r == Ok::<i64, TorrentError>(i),
            Some(_) => r matches Err(e) && is_type_mismatch(e, "integer"@, "non-integer"@),
        },
{
    match decode(data)? {
        BencodeValue::Int(i) => Ok(i),
        _ => Err(TorrentError::UnexpectedType { expected: "integer", found: "non-integer" }),
    }
}

/// Decodes a bencoded list.
pub fn decode_list(data: &[u8]) -> (r: Result<Vec<BencodeValue>>)
    ensures
        match bencode_decoding(data@) {
            None => r matches Err(e) && e is Bencode,
            Some(BencodeModel::List(items)) => r matches Ok(v) && list_model(v@) == items,
            Some(_) => r matches Err(e) && is_type_mismatch(e, "list"@, "non-list"@),
        },
{
    match decode(data)? {
        BencodeValue::List(l) => Ok(l),
        _ => Err(TorrentError::UnexpectedType { expected: "list", found: "non-list" }),
    }
}

/// Decodes a bencoded dictionary, as its list of entries.
pub fn decode_dict(data: &[u8]) -> (r: Result<Vec<(Vec<u8>, BencodeValue)>>)
    ensures
        match bencode_decoding(data@) {
            None => r matches Err(e) && e is Bencode,
            Some(BencodeModel::Dict(m)) => r matches Ok(v) && dict_model(v@) == m,
            Some(_) => r matches Err(e) && is_type_mismatch(e, "dictionary"@, "non-dictionary"@),
        },
{
    match decode(data)? {
        BencodeValue::Dict(d) => Ok(d),
        _ => Err(TorrentError::UnexpectedType { expected: "dictionary", found: "non-dictionary" }),
    }
}

/// Encodes a byte string.
pub fn encode_bytes(bytes: &[u8]) -> (r: Result<Vec<u8>>)
    ensures
        r matches Ok(b) && b@ == bencode_encoding(BencodeModel::Bytes(bytes@))
            && bencode_decoding(b@) == Some(BencodeModel::Bytes(bytes@)),
{
    let v = BencodeValue::Bytes(vstd::slice::slice_to_vec(bytes));
    encode(&v)
}

/// Encodes text as a byte string of its UTF-8 bytes; `decode_string` reads
/// the text back from the result.
pub fn encode_string(s: &str) -> (r: Result<Vec<u8>>)
    ensures
        r matches Ok(b) && b@ == bencode_encoding(BencodeModel::Bytes(encode_utf8(s@)))
            && decoded_string(b@) == Some(s@),
{
    proof {
        vstd::utf8::encode_utf8_valid_utf8(s@);
        vstd::utf8::encode_utf8_decode_utf8(s@);
    }
    encode_bytes(s.as_bytes())
}

/// Encodes an integer; `decode_integer` reads it back from the result.
pub fn encode_integer(i: i64) -> (r: Result<Vec<u8>>)
    ensures
        r matches Ok(b) && b@ == bencode_encoding(BencodeModel::Int(i))
            && bencode_decoding(b@) == Some(BencodeModel::Int(i)),
{
    encode(&BencodeValue::Int(i))
}

/// Encodes a list of values.
pub fn encode_list(list: &[BencodeValue]) -> (r: Result<Vec<u8>>)
    ensures
        r matches Ok(b) && b@ == bencode_encoding(BencodeModel::List(list_model(list@)))
            && bencode_decoding(b@) == Some(BencodeModel::List(list_model(list@))),
{
    let mut out: Vec<BencodeValue> = Vec::new();
    let mut i: usize = 0;
    while i < list.len()
        invariant
            i <= list.len(),
            list_model(out@) == list_model(list@.take(i as int)),
        decreases list.len() - i,
    {
        let c = list[i].deep_clone();
        proof {
            assert(list@.take(i + 1).drop_last() =~= list@.take(i as int));
            assert(out@.push(c).drop_last() =~= out@);
        }
        out.push(c);
        i = i + 1;
    }
    assert(list@.take(list.len() as int) =~= list@);
    encode(&BencodeValue::List(out))
}

/// Encodes a dictionary given as its list of entries (later entries win).
pub fn encode_dict(dict: &[(Vec<u8>, BencodeValue)]) -> (r: Result<Vec<u8>>)
    ensures
        r matches Ok(b) && b@ == bencode_encoding(BencodeModel::Dict(dict_model(dict@)))
            && bencode_decoding(b@) == Some(BencodeModel::Dict(dict_model(dict@))),
{
    let mut out: Vec<(Vec<u8>, BencodeValue)> = Vec::new();
    let mut i: usize = 0;
    while i < dict.len()
        invariant
            i <= dict.len(),
            dict_model(out@) == dict_model(dict@.take(i as int)),
        decreases dict.len() - i,
    {
        let k = dict[i].0.clone();
        let c = dict[i].1.deep_clone();
        proof {
            assert(dict@.take(i + 1).drop_last() =~= dict@.take(i as int));
            assert(out@.push((k, c)).drop_last() =~= out@);
        }
        out.push((k, c));
        i = i + 1;
    }
    assert(dict@.take(dict.len() as int) =~= dict@);
    encode(&BencodeValue::Dict(out))
}

/// The value stored under `key` in a dictionary's entries (the last entry
/// with that key).
pub fn dict_get<'a>(entries: &'a Vec<(Vec<u8>, BencodeValue)>, key: &[u8]) -> (r: Option<&'a BencodeValue>)
    ensures
        r is Some <==> dict_model(entries@).contains_key(key@),
        r matches Some(v) ==> v.model() == dict_model(entries@)[key@],
{
    let mut i: usize = entries.len();
    assert(entries@.take(i as int) =~= entries@);
    while i > 0
        invariant
            i <= entries@.len(),
            dict_model(entries@).contains_key(key@) == dict_model(entries@.take(i as int)).contains_key(key@),
            dict_model(entries@.take(i as int)).contains_key(key@) ==> dict_model(entries@)[key@]
                == dict_model(entries@.take(i as int))[key@],
        decreases i,
    {
        let ghost pre = entries@.take(i as int);
        assert(pre.drop_last() =~= entries@.take(i - 1));
        assert(dict_model(pre) == dict_model(entries@.take(i - 1)).insert(pre.last().0@, pre.last().1.model()));
        if bytes_equal(entries[i - 1].0.as_slice(), key) {
            return Some(&entries[i - 1].1);
        }
        i = i - 1;
    }
    assert(entries@.take(0) =~= Seq::<(Vec<u8>, BencodeValue)>::empty());
    None
}

/// True when two byte strings are equal.
pub fn bytes_equal(a: &[u8], b: &[u8]) -> (r: bool)
    ensures
        r == (a@ == b@),
{
    if a.len() != b.len() {
        return false;
    }
    let mut i: usize = 0;
    while i < a.len()
        invariant
            a@.len() == b@.len(),
            i <= a@.len(),
            forall|j: int| 0 <= j < i ==> a@[j] == b@[j],
        decreases a@.len() - i,
    {
        if a[i] != b[i] {
            return false;
        }
        i = i + 1;
    }
    assert(a@ =~= b@);
    true
}

} // verus!
