//! The calls into other crates and into parts of the standard library that are taken on trust.
use std::collections::BTreeMap;
use vstd::prelude::*;

verus! {

/// An error of `serde_json`.
#[verifier::external_type_specification]
#[verifier::external_body]
pub struct ExJsonError(serde_json::Error);

// ---------------------------------------------------------------------------
// sha2
// ---------------------------------------------------------------------------

/// The SHA-256 digest of a message.
pub uninterp spec fn sha256(message: Seq<u8>) -> Seq<u8>;

/// Computes a SHA-256 digest.
///
/// Trusted: `sha2::Sha256::digest` depends on the message alone and gives 32 bytes.
#[verifier::external_body]
pub(crate) fn sha256_of(message: &Vec<u8>) -> (r: Vec<u8>)
    ensures
        r@ == sha256(message@),
        r@.len() == 32,
{
    <sha2::Sha256 as sha2::Digest>::digest(message.as_slice()).to_vec()
}

// ---------------------------------------------------------------------------
// serde_json
// ---------------------------------------------------------------------------

/// What the entries of a list denote; a later entry replaces an earlier one with the same key.
pub open spec fn entry_map(entries: Seq<(String, u64)>) -> Map<Seq<char>, u64>
    decreases entries.len(),
{
    if entries.len() == 0 {
        Map::empty()
    } else {
        entry_map(entries.drop_last()).insert(entries.last().0@, entries.last().1)
    }
}

/// Whether the keys of a list of entries stand in strict text order.
pub open spec fn in_key_order(entries: Seq<(String, u64)>) -> bool {
    forall|i: int, j: int|
        0 <= i < j < entries.len() ==> crate::order::text_before(
            (#[trigger] entries[i]).0@,
            (#[trigger] entries[j]).0@,
        )
}

/// The map from names to numbers that a JSON text holds; `None` where it holds none.
pub uninterp spec fn number_map_in(json: Seq<char>) -> Option<Map<Seq<char>, u64>>;

/// The pretty-printed JSON text of a map from names to numbers.
pub uninterp spec fn number_map_json(map: Map<Seq<char>, u64>) -> Seq<char>;

/// Reads a map from names to numbers.
///
/// Trusted: what `serde_json::from_str` reads as a `BTreeMap<String, u64>`, and whether it reads
/// one, depends on the text alone; a `BTreeMap` hands out its entries in the order of their keys.
/// `{}` with a line feed reads as the empty map.
#[verifier::external_body]
pub(crate) fn read_number_map(json: &str) -> (r: Result<Vec<(String, u64)>, serde_json::Error>)
    ensures
        match r {
            Ok(entries) => number_map_in(json@) == Some(entry_map(entries@)) && in_key_order(
                entries@,
            ),
            Err(_) => number_map_in(json@) is None,
        },
        json@ == "{}\n"@ ==> r is Ok && r->Ok_0@.len() == 0,
{
    serde_json::from_str::<BTreeMap<String, u64>>(json).map(|map| map.into_iter().collect())
}

/// Writes a map from names to numbers.
///
/// Trusted: entries with different keys make up a `BTreeMap<String, u64>` that holds each of them.
/// `serde_json::to_string_pretty` writes every such map, the text depends on the map alone, and
/// `serde_json::from_str` reads the map back from the text with a line feed after it.
#[verifier::external_body]
pub(crate) fn write_number_map(entries: &Vec<(String, u64)>) -> (r: Result<
    String,
    serde_json::Error,
>)
    requires
        in_key_order(entries@),
    ensures
        r is Ok,
        r->Ok_0@ == number_map_json(entry_map(entries@)),
        number_map_in(r->Ok_0@ + seq!['\n']) == Some(entry_map(entries@)),
{
    serde_json::to_string_pretty(&entries.iter().cloned().collect::<BTreeMap<String, u64>>())
}

/// The list of words, or null, that a JSON text holds; `None` where it holds neither.
pub uninterp spec fn word_list_in(json: Seq<char>) -> Option<Option<Seq<Seq<char>>>>;

/// Reads a list of words or null.
///
/// Trusted: what `serde_json::from_str` reads as an `Option<Vec<String>>`, and whether it reads
/// one, depends on the text alone.
#[verifier::external_body]
pub(crate) fn read_word_list(json: &str) -> (r: Result<Option<Vec<String>>, serde_json::Error>)
    ensures
        match r {
            Ok(Some(words)) => word_list_in(json@) == Some(Some(crate::pieces::texts(words@))),
            Ok(None) => word_list_in(json@) == Some(None::<Seq<Seq<char>>>),
            Err(_) => word_list_in(json@) is None,
        },
{
    serde_json::from_str::<Option<Vec<String>>>(json)
}

// ---------------------------------------------------------------------------
// std
// ---------------------------------------------------------------------------

/// Decodes UTF-8.
///
/// Trusted: `String::from_utf8` accepts exactly the valid encodings, and gives the string that
/// they encode.
#[verifier::external_body]
pub(crate) fn decode_utf8(bytes: Vec<u8>) -> (r: Option<String>)
    ensures
        match r {
            Some(s) => vstd::utf8::valid_utf8(bytes@) && vstd::utf8::encode_utf8(s@) == bytes@,
            None => !vstd::utf8::valid_utf8(bytes@),
        },
{
    String::from_utf8(bytes).ok()
}

} // verus!
