//! A JSON document as the scoreboard logic reads it, and the lenient
//! readers of the original feed format: missing members read as `null`,
//! text is stripped of control characters and bounded, numbers are only
//! taken when they are exact.

use vstd::prelude::*;
use crate::chars::{
    from_chars, parse_unsigned, parse_unsigned_exec, remove_control, remove_control_exec,
    take_chars, take_chars_exec, to_chars, chars_eq,
};
use crate::model::{Team, TeamView};

verus! {

/// The longest text kept from a provider field, in characters.
pub const MAX_TEXT_CHARS: usize = 180;

/// A JSON number: its value when it is a non-negative integer that fits a
/// `u64`, and its text as the JSON library writes it.
#[derive(Debug)]
pub struct JsonNumber {
    pub as_u64: Option<u64>,
    pub text: String,
}

/// A JSON value. An object keeps its members in order; a key occurs once.
#[derive(Debug)]
pub enum Json {
    Null,
    Bool(bool),
    Number(JsonNumber),
    Str(String),
    Array(Vec<Json>),
    Object(Vec<(String, Json)>),
}

#[verifier::external_type_specification]
#[verifier::external_body]
pub struct ExValue(serde_json::Value);

/// What `serde_json::from_slice::<serde_json::Value>` makes of a body, as a
/// `Json` (numbers keep `Number::as_u64` and the text that `Value` writes for
/// them; object members keep the map's order), or `None` where the body is
/// not a JSON document. The JSON grammar is `serde_json`'s and is not
/// restated here.
pub uninterp spec fn json_decode(bytes: Seq<u8>) -> Option<Json>;

/// The one-for-one copy of a `serde_json::Value` into a `Json`, used only by
/// `decode_json`.
#[verifier::external_body]
fn value_to_json(v: &serde_json::Value) -> Json {
    match v {
        serde_json::Value::Null => Json::Null,
        serde_json::Value::Bool(b) => Json::Bool(*b),
        serde_json::Value::Number(n) => Json::Number(
            JsonNumber { as_u64: n.as_u64(), text: serde_json::Value::Number(n.clone()).to_string() },
        ),
        serde_json::Value::String(t) => Json::Str(t.clone()),
        serde_json::Value::Array(a) => Json::Array(a.iter().map(value_to_json).collect()),
        serde_json::Value::Object(m) => Json::Object(
            m.iter().map(|(k, x)| (k.clone(), value_to_json(x))).collect(),
        ),
    }
}

/// `serde_json::from_slice::<serde_json::Value>`, copied into a `Json`. The
/// result is only tied to the named decode of the bytes.
#[verifier::external_body]
pub(crate) fn decode_json(bytes: &[u8]) -> (r: Option<Json>)
    ensures
        r == json_decode(bytes@),
{
    serde_json::from_slice::<serde_json::Value>(bytes).ok().map(|v| value_to_json(&v))
}

/// The first member of `entries`, from index `i` on, named `key`.
pub open spec fn member_from(entries: Seq<(String, Json)>, key: Seq<char>, i: int) -> Option<Json>
    decreases entries.len() - i,
{
    if i < 0 || i >= entries.len() {
        None
    } else if entries[i].0@ == key {
        Some(entries[i].1)
    } else {
        member_from(entries, key, i + 1)
    }
}

/// `v[key]`: the member named `key` of an object; `None` (read as `null`)
/// for a missing member or a value that is not an object.
pub open spec fn member(v: Option<Json>, key: Seq<char>) -> Option<Json> {
    match v {
        Some(Json::Object(entries)) => member_from(entries@, key, 0),
        _ => None,
    }
}

/// A reference, dereferenced.
pub open spec fn deref_opt(v: Option<&Json>) -> Option<Json> {
    match v {
        Some(j) => Some(*j),
        None => None,
    }
}

/// `Value::as_str`.
pub open spec fn as_str(v: Option<Json>) -> Option<Seq<char>> {
    match v {
        Some(Json::Str(s)) => Some(s@),
        _ => None,
    }
}

/// `Value::as_array`.
pub open spec fn as_array(v: Option<Json>) -> Option<Seq<Json>> {
    match v {
        Some(Json::Array(a)) => Some(a@),
        _ => None,
    }
}

/// `Value::is_object`.
pub open spec fn is_object(v: Option<Json>) -> bool {
    v matches Some(Json::Object(_))
}

/// The characters that a provider field reads as: a string's own text, a
/// number's text, and nothing for anything else.
pub open spec fn raw_text(v: Option<Json>) -> Seq<char> {
    match v {
        Some(Json::Str(s)) => s@,
        Some(Json::Number(n)) => n.text@,
        _ => seq![],
    }
}

/// A provider field as display text: without control characters and cut to
/// `MAX_TEXT_CHARS` characters.
pub open spec fn spec_text(v: Option<Json>) -> Seq<char> {
    take_chars(remove_control(raw_text(v)), MAX_TEXT_CHARS as nat)
}

/// A provider field as a score: an exact non-negative integer, or a string
/// that `str::parse::<u32>` accepts; `None` (null) otherwise.
pub open spec fn spec_number(v: Option<Json>) -> Option<u64> {
    match v {
        Some(Json::Number(n)) if n.as_u64 is Some => n.as_u64,
        Some(Json::Str(s)) => parse_unsigned(s@, u32::MAX as u64),
        _ => None,
    }
}

/// A team read from its identity, name and score fields.
pub open spec fn spec_team(id: Option<Json>, name: Option<Json>, score: Option<Json>) -> TeamView {
    TeamView { id: spec_text(id), name: spec_text(name), score: spec_number(score) }
}

/// `v[key]` (see `member`).
pub fn get<'a>(v: Option<&'a Json>, key: &str) -> (r: Option<&'a Json>)
    ensures
        deref_opt(r) == member(deref_opt(v), key@),
{
    match v {
        Some(Json::Object(entries)) => {
            let k = to_chars(key);
            assert(member(deref_opt(v), key@) == member_from(entries@, key@, 0));
            for i in 0..entries.len()
                invariant
                    member(deref_opt(v), key@) == member_from(entries@, key@, 0),
                    member_from(entries@, key@, 0) == member_from(entries@, key@, i as int),
                    k@ == key@,
            {
                let name = to_chars(entries[i].0.as_str());
                if chars_eq(&name, &k) {
                    return Some(&entries[i].1);
                }
            }
            None
        },
        _ => None,
    }
}

/// Display text of a provider field (see `spec_text`).
pub fn text(v: &Json) -> (r: String)
    ensures
        r@ == spec_text(Some(*v)),
{
    let raw: Vec<char> = match v {
        Json::Str(s) => to_chars(s.as_str()),
        Json::Number(n) => to_chars(n.text.as_str()),
        _ => Vec::new(),
    };
    from_chars(&take_chars_exec(&remove_control_exec(&raw), MAX_TEXT_CHARS))
}

/// Display text of a field that may be missing (a missing field reads as
/// `null`).
pub fn text_of(v: Option<&Json>) -> (r: String)
    ensures
        r@ == spec_text(deref_opt(v)),
{
    match v {
        Some(j) => text(j),
        None => {
            let r = String::new();
            assert(remove_control(Seq::<char>::empty()) =~= Seq::<char>::empty());
            r
        },
    }
}

/// A provider field as a score (see `spec_number`).
pub fn number(v: &Json) -> (r: Option<u64>)
    ensures
        r == spec_number(Some(*v)),
{
    match v {
        Json::Number(n) => n.as_u64,
        Json::Str(s) => parse_unsigned_exec(&to_chars(s.as_str()), u32::MAX as u64),
        _ => None,
    }
}

/// A score field that may be missing.
pub fn number_of(v: Option<&Json>) -> (r: Option<u64>)
    ensures
        r == spec_number(deref_opt(v)),
{
    match v {
        Some(j) => number(j),
        None => None,
    }
}

/// `Value::as_array`, as the error the feed reports when an array is missing.
pub fn array<'a>(v: Option<&'a Json>) -> (r: Result<&'a Vec<Json>, &'static str>)
    ensures
        match r {
            Ok(a) => as_array(deref_opt(v)) == Some(a@),
            Err(e) => as_array(deref_opt(v)) is None && e == "Unexpected provider response",
        },
{
    match v {
        Some(Json::Array(a)) => Ok(a),
        _ => Err("Unexpected provider response"),
    }
}

/// A team from its identity, name and score fields.
pub fn team(id: Option<&Json>, name: Option<&Json>, score: Option<&Json>) -> (r: Team)
    ensures
        r.deep_view() == spec_team(deref_opt(id), deref_opt(name), deref_opt(score)),
{
    Team { id: text_of(id), name: text_of(name), score: number_of(score) }
}

} // verus!
