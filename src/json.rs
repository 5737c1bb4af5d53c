//! JSON documents as bytes. Each question put to a document goes through
//! `serde_json`, whose answers are named here; what the library builds on
//! them is verified against those names.

use vstd::prelude::*;

verus! {

/// Name for what `serde_json` finds under `key` in the document `doc`, as
/// JSON text: absent when `doc` does not parse, is not an object, or has no
/// such member.
pub uninterp spec fn json_member(doc: Seq<u8>, key: Seq<char>) -> Option<Seq<u8>>;

/// Name for the value of `doc` as a `u64`, when it parses to a non-negative
/// integer that fits.
pub uninterp spec fn json_as_u64(doc: Seq<u8>) -> Option<u64>;

/// Name for the value of `doc` as a string, when it parses to one.
pub uninterp spec fn json_as_str(doc: Seq<u8>) -> Option<Seq<char>>;

/// Name for the items of `doc`, each as JSON text, when it parses to an array.
pub uninterp spec fn json_items(doc: Seq<u8>) -> Option<Seq<Seq<u8>>>;

/// Name for whether `doc` parses to `null`.
pub uninterp spec fn json_is_null(doc: Seq<u8>) -> bool;

/// Name for `String::from_utf8_lossy`: the text of `b`, with each invalid
/// UTF-8 sequence replaced.
pub uninterp spec fn utf8_lossy(b: Seq<u8>) -> Seq<char>;

/// The bytes of an optional byte vector.
pub open spec fn opt_bytes(r: Option<Vec<u8>>) -> Option<Seq<u8>> {
    match r {
        Some(v) => Some(v@),
        None => None,
    }
}

/// The characters of an optional string.
pub open spec fn opt_chars(r: Option<String>) -> Option<Seq<char>> {
    match r {
        Some(v) => Some(v@),
        None => None,
    }
}

/// Relies on `serde_json::from_slice`, `Value::get` and `serde_json::to_vec`:
/// the member under `key`, written back as JSON text.
#[verifier::external_body]
pub(crate) fn json_get(doc: &[u8], key: &str) -> (r: Option<Vec<u8>>)
    ensures
        opt_bytes(r) == json_member(doc@, key@),
{
    let v: serde_json::Value = serde_json::from_slice(doc).ok()?;
    v.get(key).and_then(|m| serde_json::to_vec(m).ok())
}

/// Relies on `serde_json::from_slice` and `Value::as_u64`.
#[verifier::external_body]
pub(crate) fn json_u64(doc: &[u8]) -> (r: Option<u64>)
    ensures
        r == json_as_u64(doc@),
{
    let v: serde_json::Value = serde_json::from_slice(doc).ok()?;
    v.as_u64()
}

/// Relies on `serde_json::from_slice` and `Value::as_str`.
#[verifier::external_body]
pub(crate) fn json_str(doc: &[u8]) -> (r: Option<String>)
    ensures
        opt_chars(r) == json_as_str(doc@),
{
    let v: serde_json::Value = serde_json::from_slice(doc).ok()?;
    v.as_str().map(|s| s.to_string())
}

/// Relies on `serde_json::from_slice`, `Value::as_array` and
/// `serde_json::to_vec`: each item written back as JSON text.
#[verifier::external_body]
pub(crate) fn json_array(doc: &[u8]) -> (r: Option<Vec<Vec<u8>>>)
    ensures
        match r {
            Some(v) => json_items(doc@) == Some(v@.map_values(|x: Vec<u8>| x@)),
            None => json_items(doc@).is_none(),
        },
{
    let v: serde_json::Value = serde_json::from_slice(doc).ok()?;
    v.as_array().map(|a| a.iter().map(|x| serde_json::to_vec(x).unwrap_or_default()).collect())
}

/// Relies on `serde_json::from_slice` and `Value::is_null`.
#[verifier::external_body]
pub(crate) fn json_null(doc: &[u8]) -> (r: bool)
    ensures
        r == json_is_null(doc@),
{
    match serde_json::from_slice::<serde_json::Value>(doc) {
        Ok(v) => v.is_null(),
        Err(_) => false,
    }
}

/// Relies on `String::from_utf8_lossy`.
#[verifier::external_body]
pub(crate) fn lossy_text(b: &[u8]) -> (r: String)
    ensures
        r@ == utf8_lossy(b@),
{
    String::from_utf8_lossy(b).into_owned()
}

} // verus!
