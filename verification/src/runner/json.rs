//! The JSON documents the test runners print, as plain values.
//!
//! `serde_json` does the parsing; the library reads the resulting tree
//! through [`JsonValue`], which holds exactly what the report parsers look
//! at: objects, arrays, strings and numbers. Object members come in the
//! order `serde_json`'s map yields them.

use vstd::prelude::*;

verus! {

broadcast use vstd::string::group_string_axioms;

/// A JSON number: its value when it is a non-negative integer that fits a
/// `u64`, and its shortest decimal text.
#[derive(Debug, Clone)]
pub struct JsonNumber {
    pub as_u64: Option<u64>,
    pub text: String,
}

/// A JSON value. Object members come in the order `serde_json`'s map yields them.
#[derive(Debug)]
pub enum JsonValue {
    Null,
    Bool(bool),
    Number(JsonNumber),
    Str(String),
    Array(Vec<JsonValue>),
    Object(Vec<(String, JsonValue)>),
}

#[verifier::external_type_specification]
#[verifier::external_body]
pub struct ExSerdeJsonValue(serde_json::Value);

/// The document `serde_json` reads from `bytes`, or `None` when they are
/// not one JSON value.
pub uninterp spec fn json_document(bytes: Seq<u8>) -> Option<JsonValue>;

impl JsonValue {
    /// Moves a `serde_json` tree into the library's representation, node for node.
    #[verifier::external_body]
    fn from_serde(v: serde_json::Value) -> JsonValue {
        match v {
            serde_json::Value::Null => JsonValue::Null,
            serde_json::Value::Bool(b) => JsonValue::Bool(b),
            serde_json::Value::Number(n) => JsonValue::Number(JsonNumber { as_u64: n.as_u64(), text: n.to_string() }),
            serde_json::Value::String(s) => JsonValue::Str(s),
            serde_json::Value::Array(a) => JsonValue::Array(a.into_iter().map(JsonValue::from_serde).collect()),
            serde_json::Value::Object(m) => JsonValue::Object(m.into_iter().map(|(k, x)| (k, JsonValue::from_serde(x))).collect()),
        }
    }
}

/// Calls `serde_json::from_slice::<serde_json::Value>`: the document in
/// `bytes`, or `None` when it does not parse. Its result is named by
/// [`json_document`]; nothing more is claimed of it.
#[verifier::external_body]
pub(crate) fn parse_json(bytes: &[u8]) -> (r: Option<JsonValue>)
    ensures
        r == json_document(bytes@),
{
    match serde_json::from_slice::<serde_json::Value>(bytes) {
        Ok(v) => Some(JsonValue::from_serde(v)),
        Err(_) => None,
    }
}

/// The first member of `entries` named `key`.
pub open spec fn member(entries: Seq<(String, JsonValue)>, key: Seq<char>) -> Option<JsonValue>
    decreases entries.len(),
{
    if entries.len() == 0 {
        None
    } else if entries[0].0@ == key {
        Some(entries[0].1)
    } else {
        member(entries.drop_first(), key)
    }
}

/// `serde_json::Value::get` with a string key: the member `key` of an object.
pub open spec fn field(v: Option<JsonValue>, key: Seq<char>) -> Option<JsonValue> {
    match v {
        Some(JsonValue::Object(entries)) => member(entries@, key),
        _ => None,
    }
}

/// `Value::as_u64`.
pub open spec fn u64_of(v: Option<JsonValue>) -> Option<u64> {
    match v {
        Some(JsonValue::Number(n)) => n.as_u64,
        _ => None,
    }
}

/// `Value::as_str`.
pub open spec fn str_of(v: Option<JsonValue>) -> Option<Seq<char>> {
    match v {
        Some(JsonValue::Str(s)) => Some(s@),
        _ => None,
    }
}

/// `Value::as_array`.
pub open spec fn array_of(v: Option<JsonValue>) -> Seq<JsonValue> {
    match v {
        Some(JsonValue::Array(a)) => a@,
        _ => Seq::empty(),
    }
}

/// The text of a string value, or the empty text.
pub open spec fn text_or_empty(v: Option<JsonValue>) -> Seq<char> {
    match str_of(v) {
        Some(s) => s,
        None => Seq::empty(),
    }
}

/// Is `v` the string `s`?
pub open spec fn is_text(v: Option<JsonValue>, s: Seq<char>) -> bool {
    str_of(v) == Some(s)
}

/// The member `key` of `v`, when `v` is an object.
pub fn get<'a>(v: Option<&'a JsonValue>, key: &str) -> (r: Option<&'a JsonValue>)
    ensures
        match r {
            Some(x) => field(opt(v), key@) == Some(*x),
            None => field(opt(v), key@) is None,
        },
{
    let x = match v {
        Some(x) => x,
        None => return None,
    };
    match x {
        JsonValue::Object(entries) => {
            assert(opt(v) == Some(JsonValue::Object(*entries)));
            let k = key.to_owned();
            let mut i: usize = 0;
            assert(entries@.skip(0) =~= entries@);
            while i < entries.len()
                invariant
                    i <= entries@.len(),
                    k@ == key@,
                    opt(v) == Some(JsonValue::Object(*entries)),
                    member(entries@, key@) == member(entries@.skip(i as int), key@),
                decreases entries@.len() - i,
            {
                assert(entries@.skip(i as int).drop_first() =~= entries@.skip(i + 1));
                assert(entries@.skip(i as int)[0] == entries@[i as int]);
                if entries[i].0 == k {
                    return Some(&entries[i].1);
                }
                i = i + 1;
            }
            None
        },
        _ => None,
    }
}

/// An optional reference, read as the value it points at.
pub open spec fn opt(v: Option<&JsonValue>) -> Option<JsonValue> {
    match v {
        Some(x) => Some(*x),
        None => None,
    }
}

/// `Value::as_u64`.
pub fn as_u64(v: Option<&JsonValue>) -> (r: Option<u64>)
    ensures
        r == u64_of(opt(v)),
{
    match v {
        Some(JsonValue::Number(n)) => n.as_u64,
        _ => None,
    }
}

/// `Value::as_str`.
pub fn as_str(v: Option<&JsonValue>) -> (r: Option<&String>)
    ensures
        match r {
            Some(s) => str_of(opt(v)) == Some(s@),
            None => str_of(opt(v)) is None,
        },
{
    match v {
        Some(JsonValue::Str(s)) => Some(s),
        _ => None,
    }
}

/// `Value::as_array`; an absent or non-array value reads as no elements.
pub fn elements(v: Option<&JsonValue>) -> (r: &[JsonValue])
    ensures
        r@ == array_of(opt(v)),
{
    match v {
        Some(JsonValue::Array(a)) => a.as_slice(),
        _ => &[],
    }
}

/// Is `v` the string `s`?
pub fn text_is(v: Option<&JsonValue>, s: &str) -> (r: bool)
    ensures
        r == is_text(opt(v), s@),
{
    match as_str(v) {
        Some(t) => {
            let w = s.to_owned();
            *t == w
        },
        None => false,
    }
}

/// The text of a string value, or the empty text.
pub fn text_or_default(v: Option<&JsonValue>) -> (r: String)
    ensures
        r@ == text_or_empty(opt(v)),
{
    match as_str(v) {
        Some(t) => t.clone(),
        None => String::new(),
    }
}

} // verus!
