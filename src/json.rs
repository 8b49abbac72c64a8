//! JSON values as the message model reads them, and the text form of a value.
//!
//! Parsing and printing JSON text is serde_json's work; this module holds the
//! value type the rest of the library reasons about, and the field-map view of
//! a JSON object.

use vstd::prelude::*;

verus! {

#[verifier::external_type_specification]
#[verifier::external_body]
pub struct ExNumber(serde_json::Number);

#[verifier::external_type_specification]
#[verifier::external_body]
pub struct ExValue(serde_json::Value);

/// A JSON value. Objects keep their members in order; where a key occurs more
/// than once, the last member with that key is the one that counts.
#[derive(Debug)]
pub enum Json {
    Null,
    Bool(bool),
    Number(serde_json::Number),
    Str(String),
    Array(Vec<Json>),
    Object(Vec<(String, Json)>),
}

/// The members of an object, as a map from key to value (the last member
/// with a given key wins).
pub open spec fn entries_map(s: Seq<(String, Json)>) -> Map<Seq<char>, Json>
    decreases s.len(),
{
    if s.len() == 0 {
        Map::empty()
    } else {
        entries_map(s.drop_last()).insert(s.last().0@, s.last().1)
    }
}

/// `j` is a JSON string holding `s`.
pub open spec fn is_str_of(j: Json, s: Seq<char>) -> bool {
    j is Str && j->Str_0@ == s
}

/// `j` is a JSON object whose members map as `m`.
pub open spec fn is_object_of(j: Json, m: Map<Seq<char>, Json>) -> bool {
    j is Object && entries_map(j->Object_0@) == m
}

/// What serde_json parses a text into, where it is valid JSON.
pub uninterp spec fn parsed_json(text: Seq<char>) -> Option<Json>;

/// The compact JSON text that serde_json prints for a value.
pub uninterp spec fn json_text(j: Json) -> Seq<char>;

pub proof fn lemma_entries_map_append(a: Seq<(String, Json)>, b: Seq<(String, Json)>)
    ensures
        entries_map(a + b) == entries_map(a).union_prefer_right(entries_map(b)),
    decreases b.len(),
{
    if b.len() == 0 {
        assert(a + b =~= a);
        assert(entries_map(a).union_prefer_right(entries_map(b)) =~= entries_map(a));
    } else {
        let b2 = b.drop_last();
        lemma_entries_map_append(a, b2);
        assert((a + b).drop_last() =~= a + b2);
        assert(entries_map(a + b) =~= entries_map(a).union_prefer_right(entries_map(b)));
    }
}

/// Converts a serde_json value into the library's value, member by member.
/// Relies on serde_json::Value's variants being exactly JSON's kinds of value.
#[verifier::external_body]
fn json_from_value(v: serde_json::Value) -> Json {
    match v {
        serde_json::Value::Null => Json::Null,
        serde_json::Value::Bool(b) => Json::Bool(b),
        serde_json::Value::Number(n) => Json::Number(n),
        serde_json::Value::String(s) => Json::Str(s),
        serde_json::Value::Array(a) => Json::Array(a.into_iter().map(json_from_value).collect()),
        serde_json::Value::Object(m) => Json::Object(
            m.into_iter().map(|(k, x)| (k, json_from_value(x))).collect(),
        ),
    }
}

/// Converts the library's value into a serde_json value, member by member.
#[verifier::external_body]
fn value_from_json(j: &Json) -> serde_json::Value {
    match j {
        Json::Null => serde_json::Value::Null,
        Json::Bool(b) => serde_json::Value::Bool(*b),
        Json::Number(n) => serde_json::Value::Number(n.clone()),
        Json::Str(s) => serde_json::Value::String(s.clone()),
        Json::Array(a) => serde_json::Value::Array(a.iter().map(value_from_json).collect()),
        Json::Object(m) => serde_json::Value::Object(
            m.iter().map(|(k, x)| (k.clone(), value_from_json(x))).collect(),
        ),
    }
}

/// Relies on serde_json::from_str::<serde_json::Value>: it parses the text as
/// one JSON value, or fails with an error whose message is returned. The
/// outcome depends on the text alone.
#[verifier::external_body]
pub(crate) fn parse_json(text: &str) -> (r: Result<Json, String>)
    ensures
        r is Ok <==> parsed_json(text@) is Some,
        r is Ok ==> r->Ok_0 == parsed_json(text@)->0,
{
    serde_json::from_str::<serde_json::Value>(text).map(json_from_value).map_err(|e| e.to_string())
}

/// Relies on serde_json::Value's Display: it prints the value as compact
/// JSON text, which depends on the value alone.
#[verifier::external_body]
pub(crate) fn print_json(j: &Json) -> (r: String)
    ensures
        r@ == json_text(*j),
{
    value_from_json(j).to_string()
}

} // verus!
