//! How a bencoded value is shown as JSON: byte strings as text (or, when
//! they are not UTF-8, as hexadecimal), integers as numbers, lists as arrays
//! and dictionaries as objects.

use vstd::prelude::*;
use crate::bencode::BencodeValue;
use crate::hashing::{hex_encode, hex_text};
use crate::text::{lossy_text, string_from_utf8, utf8_lossy};
use vstd::utf8::{decode_utf8, valid_utf8};

verus! {

/// A JSON value as the library builds it.  An object keeps its members in
/// order; when a key occurs twice, the later member is the one that counts.
#[derive(Debug)]
pub enum JsonValue {
    String(String),
    Number(i64),
    Array(Vec<JsonValue>),
    Object(Vec<(String, JsonValue)>),
}

/// The mathematical model of a JSON value.
pub enum JsonModel {
    Str(Seq<char>),
    Num(i64),
    Arr(Seq<JsonModel>),
    Obj(Seq<(Seq<char>, JsonModel)>),
}

impl JsonValue {
    /// The model of this value.
    pub open spec fn model(self) -> JsonModel
        decreases self,
    {
        match self {
            JsonValue::String(s) => JsonModel::Str(s@),
            JsonValue::Number(n) => JsonModel::Num(n),
            JsonValue::Array(items) => JsonModel::Arr(json_list_model(items@)),
            JsonValue::Object(members) => JsonModel::Obj(json_members_model(members@)),
        }
    }
}

/// The models of a list of JSON values.
pub open spec fn json_list_model(items: Seq<JsonValue>) -> Seq<JsonModel>
    decreases items,
{
    if items.len() == 0 {
        Seq::empty()
    } else {
        json_list_model(items.drop_last()).push(items.last().model())
    }
}

/// The models of the members of a JSON object.
pub open spec fn json_members_model(members: Seq<(String, JsonValue)>) -> Seq<(Seq<char>, JsonModel)>
    decreases members,
{
    if members.len() == 0 {
        Seq::empty()
    } else {
        json_members_model(members.drop_last()).push((members.last().0@, members.last().1.model()))
    }
}

/// The text shown for a byte string: the bytes read as UTF-8, or their
/// hexadecimal text when they are not UTF-8.
pub open spec fn bytes_text(b: Seq<u8>) -> Seq<char> {
    if valid_utf8(b) {
        decode_utf8(b)
    } else {
        hex_text(b)
    }
}

/// The JSON shown for a bencoded value.
pub open spec fn json_of(v: BencodeValue) -> JsonModel
    decreases v,
{
    match v {
        BencodeValue::Bytes(b) => JsonModel::Str(bytes_text(b@)),
        BencodeValue::Int(i) => JsonModel::Num(i),
        BencodeValue::List(items) => JsonModel::Arr(json_of_list(items@)),
        BencodeValue::Dict(entries) => JsonModel::Obj(json_of_entries(entries@)),
    }
}

/// The JSON shown for the items of a list.
pub open spec fn json_of_list(items: Seq<BencodeValue>) -> Seq<JsonModel>
    decreases items,
{
    if items.len() == 0 {
        Seq::empty()
    } else {
        json_of_list(items.drop_last()).push(json_of(items.last()))
    }
}

/// The JSON members shown for the entries of a dictionary: each key read
/// leniently as UTF-8, each value converted.
pub open spec fn json_of_entries(entries: Seq<(Vec<u8>, BencodeValue)>) -> Seq<(Seq<char>, JsonModel)>
    decreases entries,
{
    if entries.len() == 0 {
        Seq::empty()
    } else {
        json_of_entries(entries.drop_last()).push(
            (lossy_text(entries.last().0@), json_of(entries.last().1)),
        )
    }
}

/// The text shown for a byte string.
fn bytes_to_text(b: &Vec<u8>) -> (r: String)
    ensures
        r@ == bytes_text(b@),
{
    match string_from_utf8(b.clone()) {
        Ok(s) => s,
        Err(_) => hex_encode(b.as_slice()),
    }
}

/// The JSON shown for a bencoded value.
pub fn bencode_to_json(value: &BencodeValue) -> (r: JsonValue)
    ensures
        r.model() == json_of(*value),
    decreases value,
{
    match value {
        BencodeValue::Bytes(b) => JsonValue::String(bytes_to_text(b)),
        BencodeValue::Int(i) => JsonValue::Number(*i),
        BencodeValue::List(items) => {
            let mut out: Vec<JsonValue> = Vec::new();
            let mut i: usize = 0;
            while i < items.len()
                invariant
                    i <= items.len(),
                    *value == BencodeValue::List(*items),
                    json_list_model(out@) == json_of_list(items@.take(i as int)),
                decreases items.len() - i,
            {
                proof {
                    assert(decreases_to!(*value => (*value)->List_0));
                    assert(decreases_to!(*items => items@));
                    assert(decreases_to!(items@ => items@[i as int]));
                    assert(decreases_to!(*value => items@[i as int]));
                }
                let j = bencode_to_json(&items[i]);
                proof {
                    assert(items@.take(i + 1).drop_last() =~= items@.take(i as int));
                    assert(out@.push(j).drop_last() =~= out@);
                }
                out.push(j);
                i = i + 1;
            }
            assert(items@.take(items.len() as int) =~= items@);
            JsonValue::Array(out)
        },
        BencodeValue::Dict(entries) => {
            let mut out: Vec<(String, JsonValue)> = Vec::new();
            let mut i: usize = 0;
            while i < entries.len()
                invariant
                    i <= entries.len(),
                    *value == BencodeValue::Dict(*entries),
                    json_members_model(out@) == json_of_entries(entries@.take(i as int)),
                decreases entries.len() - i,
            {
                let key = utf8_lossy(entries[i].0.as_slice());
                proof {
                    assert(decreases_to!(*value => (*value)->Dict_0));
                    assert(decreases_to!(*entries => entries@));
                    assert(decreases_to!(entries@ => entries@[i as int]));
                    assert(decreases_to!(entries@[i as int] => entries@[i as int].1));
                    assert(decreases_to!(*value => entries@[i as int].1));
                }
                let j = bencode_to_json(&entries[i].1);
                proof {
                    assert(entries@.take(i + 1).drop_last() =~= entries@.take(i as int));
                    assert(out@.push((key, j)).drop_last() =~= out@);
                }
                out.push((key, j));
                i = i + 1;
            }
            assert(entries@.take(entries.len() as int) =~= entries@);
            JsonValue::Object(out)
        },
    }
}

} // verus!
