//! The boundary to the bencode codec.
//!
//! Encoding and decoding are the work of the `bencode` crate. This module
//! gives its value type a mathematical reading, [`BenValue`], states what each
//! call into the crate does in terms of that reading, and guards the decoder
//! with a verified check of the document's shape.

use crate::syntax::{complete, is_complete};
use bencode::util::ByteString;
use bencode::Bencode;
use std::collections::BTreeMap;
use vstd::prelude::*;

verus! {

/// `bencode::Bencode`, the codec's value type. Nothing inside it is visible
/// to the verifier; [`ben_view`] says what a value stands for.
#[verifier::external_type_specification]
#[verifier::external_body]
pub struct ExBencode(bencode::Bencode);

/// What a bencoded value holds.
pub enum BenValue {
    /// The value of an empty document.
    Empty,
    /// An integer.
    Number(i64),
    /// A byte string.
    Bytes(Seq<u8>),
    /// A list.
    List(Seq<BenValue>),
    /// A dictionary from byte-string keys to values.
    Dict(Map<Seq<u8>, BenValue>),
}

/// The contents of a codec value: `Number(n)` reads as `Number(n)`,
/// `ByteString(v)` as `Bytes(v@)`, `List(l)` as the list of the readings of
/// its items, `Dict(m)` as the map from each key's bytes to the reading of
/// its value, and `Empty` as `Empty`.
pub uninterp spec fn ben_view(b: Bencode) -> BenValue;

/// The bytes that `Bencode::to_bytes` writes for a value with the contents
/// `v`, or no bytes where it reports an error.
pub uninterp spec fn encoded(v: BenValue) -> Seq<u8>;

/// The contents of the value that `bencode::from_buffer` reads from `buf`,
/// or `None` where it reports an error.
pub uninterp spec fn parsed(buf: Seq<u8>) -> Option<BenValue>;

/// The entry of a dictionary under `key`; `None` for a missing key and for
/// anything that is no dictionary.
pub open spec fn entry(v: BenValue, key: Seq<u8>) -> Option<BenValue> {
    match v {
        BenValue::Dict(m) => if m.contains_key(key) {
            Some(m[key])
        } else {
            None
        },
        _ => None,
    }
}

/// The byte string held by `v`, if it is one.
pub open spec fn bytes_of(v: BenValue) -> Option<Seq<u8>> {
    match v {
        BenValue::Bytes(s) => Some(s),
        _ => None,
    }
}

/// The integer held by `v`, if it is one.
pub open spec fn number_of(v: BenValue) -> Option<i64> {
    match v {
        BenValue::Number(n) => Some(n),
        _ => None,
    }
}

/// Looks `key` up in a dictionary: `BTreeMap::get` on the map inside
/// `Bencode::Dict`. The result is the stored value, or `None` where the key
/// is missing or `b` is no dictionary.
#[verifier::external_body]
pub(crate) fn dict_get<'a>(b: &'a Bencode, key: &[u8]) -> (r: Option<&'a Bencode>)
    ensures
        match r {
            Some(x) => entry(ben_view(*b), key@) == Some(ben_view(*x)),
            None => entry(ben_view(*b), key@) is None,
        },
{
    match b {
        Bencode::Dict(m) => m.get(key),
        _ => None,
    }
}

/// The bytes inside `Bencode::ByteString`, or `None` for another variant.
#[verifier::external_body]
pub(crate) fn as_bytes<'a>(b: &'a Bencode) -> (r: Option<&'a [u8]>)
    ensures
        match r {
            Some(s) => bytes_of(ben_view(*b)) == Some(s@),
            None => bytes_of(ben_view(*b)) is None,
        },
{
    match b {
        Bencode::ByteString(v) => Some(v.as_slice()),
        _ => None,
    }
}

/// The integer inside `Bencode::Number`, or `None` for another variant.
#[verifier::external_body]
pub(crate) fn as_number(b: &Bencode) -> (r: Option<i64>)
    ensures
        r == number_of(ben_view(*b)),
{
    match b {
        Bencode::Number(n) => Some(*n),
        _ => None,
    }
}

/// Whether `b` is `Bencode::Dict`.
#[verifier::external_body]
pub(crate) fn is_dict(b: &Bencode) -> (r: bool)
    ensures
        r == (ben_view(*b) is Dict),
{
    match b {
        Bencode::Dict(_) => true,
        _ => false,
    }
}

/// The keys of a dictionary, each copied out of the `BTreeMap` inside
/// `Bencode::Dict` as `BTreeMap::keys` hands them out; no keys for a value
/// that is no dictionary.
#[verifier::external_body]
pub(crate) fn dict_keys(b: &Bencode) -> (keys: Vec<Vec<u8>>)
    ensures
        forall|i: int| 0 <= i < keys@.len() ==> entry(ben_view(*b), (#[trigger] keys@[i])@) is Some,
        forall|k: Seq<u8>| #[trigger]
            entry(ben_view(*b), k) is Some ==> exists|i: int|
                0 <= i < keys@.len() && (#[trigger] keys@[i])@ == k,
{
    match b {
        Bencode::Dict(m) => m.keys().map(|k| k.as_slice().to_vec()).collect(),
        _ => Vec::new(),
    }
}

/// Builds `Bencode::Number`.
#[verifier::external_body]
pub(crate) fn number(n: i64) -> (b: Bencode)
    ensures
        ben_view(b) == BenValue::Number(n),
{
    Bencode::Number(n)
}

/// Builds `Bencode::ByteString` from a copy of `s`.
#[verifier::external_body]
pub(crate) fn byte_string(s: &[u8]) -> (b: Bencode)
    ensures
        ben_view(b) == BenValue::Bytes(s@),
{
    Bencode::ByteString(s.to_vec())
}

/// Builds `Bencode::Dict` around a new, empty `BTreeMap`.
#[verifier::external_body]
pub(crate) fn empty_dict() -> (b: Bencode)
    ensures
        ben_view(b) == BenValue::Dict(Map::empty()),
{
    Bencode::Dict(BTreeMap::new())
}

/// Puts `value` under `key` with `BTreeMap::insert`, replacing what was
/// there. A value that is no dictionary comes back as it was.
#[verifier::external_body]
pub(crate) fn dict_with(d: Bencode, key: &[u8], value: Bencode) -> (b: Bencode)
    ensures
        ben_view(b) == match ben_view(d) {
            BenValue::Dict(m) => BenValue::Dict(m.insert(key@, ben_view(value))),
            other => other,
        },
{
    match d {
        Bencode::Dict(mut m) => {
            m.insert(ByteString::from_slice(key), value);
            Bencode::Dict(m)
        },
        other => other,
    }
}

/// Reads a document with `bencode::from_buffer`. The decoder does not
/// return on a document that ends inside a list or a dictionary, and it
/// reserves room for a byte string's stated length before it reads it, so
/// only complete documents are handed to it.
#[verifier::external_body]
pub(crate) fn from_buffer(buf: &[u8]) -> (r: Option<Bencode>)
    requires
        complete(buf@),
    ensures
        match r {
            Some(b) => parsed(buf@) == Some(ben_view(b)),
            None => parsed(buf@) is None,
        },
{
    bencode::from_buffer(buf).ok()
}

/// What decoding `buf` gives: the contents that the codec reads from a
/// complete document, and nothing for any other buffer.
pub open spec fn decoded(buf: Seq<u8>) -> Option<BenValue> {
    if complete(buf) {
        parsed(buf)
    } else {
        None
    }
}

/// Decodes one document. A buffer that is no complete document is refused
/// without being handed to the codec.
pub fn decode(buf: &[u8]) -> (r: Option<Bencode>)
    ensures
        match r {
            Some(b) => decoded(buf@) == Some(ben_view(b)),
            None => decoded(buf@) is None,
        },
{
    if is_complete(buf) {
        from_buffer(buf)
    } else {
        None
    }
}

/// Serialises a value with `Bencode::to_bytes`.
#[verifier::external_body]
pub(crate) fn to_bytes(b: &Bencode) -> (out: Vec<u8>)
    ensures
        out@ == encoded(ben_view(*b)),
{
    b.to_bytes().unwrap_or_default()
}

} // verus!
