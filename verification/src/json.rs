//! Reading one field of a JSON object (the metadata that a file message keeps
//! as its body, and the envelopes of the wire protocol).

use vstd::prelude::*;
use vstd::utf8::valid_utf8;

verus! {

/// One top-level field of a JSON text, as the four readings that the logic
/// uses (`as_str`, `as_u64`, `as_i64`, `as_bool`); all `None` when the field is
/// absent or the text is not an object.
pub struct JsonField {
    pub as_str: Option<String>,
    pub as_u64: Option<u64>,
    pub as_i64: Option<i64>,
    pub as_bool: Option<bool>,
}

/// The readings of a field, as plain values.
pub type FieldView = (Option<Seq<char>>, Option<u64>, Option<i64>, Option<bool>);

pub open spec fn opt_text(o: Option<String>) -> Option<Seq<char>> {
    match o {
        Some(s) => Some(s@),
        None => None,
    }
}

impl JsonField {
    pub open spec fn view_of(&self) -> FieldView {
        (opt_text(self.as_str), self.as_u64, self.as_i64, self.as_bool)
    }
}

/// `serde_json::from_str::<Value>(text)` and the readings of `value.get(key)`:
/// `None` when the text is not JSON.
pub uninterp spec fn json_field_of(text: Seq<char>, key: Seq<char>) -> Option<FieldView>;

/// Parses `text` as JSON and reads its field `key`; the error is the crate's
/// message for a text that is not JSON.
#[verifier::external_body]
pub(crate) fn json_field(text: &str, key: &str) -> (r: Result<JsonField, String>)
    ensures
        match r {
            Ok(f) => json_field_of(text@, key@) == Some(f.view_of()),
            Err(_) => json_field_of(text@, key@) is None,
        },
{
    let v: serde_json::Value = serde_json::from_str(text).map_err(|e| e.to_string())?;
    let f = v.get(key);
    Ok(JsonField {
        as_str: f.and_then(|x| x.as_str()).map(|s| s.to_string()),
        as_u64: f.and_then(|x| x.as_u64()),
        as_i64: f.and_then(|x| x.as_i64()),
        as_bool: f.and_then(|x| x.as_bool()),
    })
}

/// The message of `serde_json::from_slice::<Value>(bytes)` for bytes that
/// are not UTF-8. serde_json checks every string it reads as UTF-8 and takes
/// no byte above ASCII outside a string, so such bytes never parse.
#[verifier::external_body]
pub(crate) fn json_slice_error(bytes: &[u8]) -> (r: Option<String>)
    requires
        !valid_utf8(bytes@),
    ensures
        r is Some,
{
    serde_json::from_slice::<serde_json::Value>(bytes).err().map(|e| e.to_string())
}

/// The string reading of field `key` of `text`, if the text is JSON and the
/// field is a string.
pub open spec fn json_str(text: Seq<char>, key: Seq<char>) -> Option<Seq<char>> {
    match json_field_of(text, key) {
        Some(f) => f.0,
        None => None,
    }
}

/// The unsigned reading of field `key` of `text`.
pub open spec fn json_u64(text: Seq<char>, key: Seq<char>) -> Option<u64> {
    match json_field_of(text, key) {
        Some(f) => f.1,
        None => None,
    }
}

/// The signed reading of field `key` of `text`.
pub open spec fn json_i64(text: Seq<char>, key: Seq<char>) -> Option<i64> {
    match json_field_of(text, key) {
        Some(f) => f.2,
        None => None,
    }
}

/// The boolean reading of field `key` of `text`.
pub open spec fn json_bool(text: Seq<char>, key: Seq<char>) -> Option<bool> {
    match json_field_of(text, key) {
        Some(f) => f.3,
        None => None,
    }
}

/// Field `key` of `text` as a string, when `text` is JSON and the field a string.
pub fn str_field(text: &str, key: &str) -> (r: Option<String>)
    ensures
        opt_text(r) == json_str(text@, key@),
{
    match json_field(text, key) {
        Ok(f) => f.as_str,
        Err(_) => None,
    }
}

/// Field `key` of `text` as an unsigned integer.
pub fn u64_field(text: &str, key: &str) -> (r: Option<u64>)
    ensures
        r == json_u64(text@, key@),
{
    match json_field(text, key) {
        Ok(f) => f.as_u64,
        Err(_) => None,
    }
}

/// Field `key` of `text` as a boolean.
pub fn bool_field(text: &str, key: &str) -> (r: Option<bool>)
    ensures
        r == json_bool(text@, key@),
{
    match json_field(text, key) {
        Ok(f) => f.as_bool,
        Err(_) => None,
    }
}

} // verus!
