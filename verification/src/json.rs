//! JSON values.
//!
//! `serde_json` reads, holds and writes them. What a value holds is modelled as
//! a [`Json`] tree; the rest of the library speaks of trees only.

use crate::text::opt_view;
use serde_json::Value;
use vstd::prelude::*;

verus! {

/// What a JSON value holds. Numbers are kept as they are written.
pub enum Json {
    Null,
    Bool(bool),
    Number(Seq<char>),
    Text(Seq<char>),
    Array(Seq<Json>),
    Object(Map<Seq<char>, Json>),
}

/// `serde_json::Value`, the outside crate's JSON value.
#[verifier::external_type_specification]
#[verifier::external_body]
pub struct ExValue(serde_json::Value);

/// The contents of a `serde_json::Value`.
pub uninterp spec fn value_tree(v: Value) -> Json;

/// What `serde_json::from_str` makes of a text: the value that it describes, or
/// the text of the error if it is no JSON document.
pub uninterp spec fn json_parse(text: Seq<char>) -> Result<Json, Seq<char>>;

/// The compact JSON text that `serde_json` writes for a value.
pub uninterp spec fn json_text(t: Json) -> Seq<char>;

/// The contents of each value of a list.
pub open spec fn trees(v: Seq<Value>) -> Seq<Json> {
    Seq::new(v.len(), |i: int| value_tree(v[i]))
}

/// The contents of a value that may be absent: an absent one counts as null.
pub open spec fn opt_tree(v: Option<&Value>) -> Json {
    match v {
        Some(x) => value_tree(*x),
        None => Json::Null,
    }
}

/// The member of an object; null if there is none, or `t` is no object.
pub open spec fn member(t: Json, key: Seq<char>) -> Json {
    match t {
        Json::Object(m) => if m.contains_key(key) {
            m[key]
        } else {
            Json::Null
        },
        _ => Json::Null,
    }
}

/// The text of a string value.
pub open spec fn text_of(t: Json) -> Option<Seq<char>> {
    match t {
        Json::Text(s) => Some(s),
        _ => None,
    }
}

/// The string member of an object.
pub open spec fn text_at(t: Json, key: Seq<char>) -> Option<Seq<char>> {
    text_of(member(t, key))
}

/// Whether a value holds no number and nests at most `depth` levels deep.
pub open spec fn shallow(t: Json, depth: nat) -> bool
    decreases depth,
{
    match t {
        Json::Null => true,
        Json::Bool(_) => true,
        Json::Number(_) => false,
        Json::Text(_) => true,
        Json::Array(items) => depth > 0 && forall|i: int|
            0 <= i < items.len() ==> shallow(#[trigger] items[i], (depth - 1) as nat),
        Json::Object(m) => depth > 0 && forall|k: Seq<char>|
            m.contains_key(k) ==> shallow(#[trigger] m[k], (depth - 1) as nat),
    }
}

/// Whether a text is a JSON document that describes the given value.
pub open spec fn reads_as(text: Seq<char>, t: Json) -> bool {
    json_parse(text) == Ok::<Json, Seq<char>>(t)
}

/// `serde_json::from_str::<Value>`: the value that the text describes, or the
/// error as text. Nothing is claimed of which texts are JSON documents.
#[verifier::external_body]
pub(crate) fn parse_value(text: &str) -> (r: Result<Value, String>)
    ensures
        match r {
            Ok(v) => json_parse(text@) matches Ok(t) && t == value_tree(v),
            Err(e) => json_parse(text@) matches Err(t) && t == e@,
        },
{
    serde_json::from_str::<Value>(text).map_err(|e| e.to_string())
}

/// `Value::get` with a string key: the member of an object with that key.
#[verifier::external_body]
pub(crate) fn get_member<'a>(v: &'a Value, key: &str) -> (r: Option<&'a Value>)
    ensures
        match r {
            Some(x) => value_tree(*v) matches Json::Object(m) && m.contains_key(key@) && m[key@]
                == value_tree(*x),
            None => !(value_tree(*v) matches Json::Object(m) && m.contains_key(key@)),
        },
{
    v.get(key)
}

/// `Value::as_str`: the text of a string value.
#[verifier::external_body]
pub(crate) fn get_str(v: &Value) -> (r: Option<&str>)
    ensures
        match r {
            Some(s) => value_tree(*v) == Json::Text(s@),
            None => !(value_tree(*v) is Text),
        },
{
    v.as_str()
}

/// `Value::as_array`: the items of an array value.
#[verifier::external_body]
pub(crate) fn get_items(v: &Value) -> (r: Option<&Vec<Value>>)
    ensures
        match r {
            Some(items) => value_tree(*v) == Json::Array(trees(items@)),
            None => !(value_tree(*v) is Array),
        },
{
    v.as_array()
}

/// `Value::from(bool)`: a boolean value.
#[verifier::external_body]
pub(crate) fn bool_value(b: bool) -> (r: Value)
    ensures
        value_tree(r) == Json::Bool(b),
{
    Value::from(b)
}

/// `Value::from(&str)`: a string value.
#[verifier::external_body]
pub(crate) fn text_value(s: &str) -> (r: Value)
    ensures
        value_tree(r) == Json::Text(s@),
{
    Value::from(s)
}

/// `Value::Array`: an array value with the given items.
#[verifier::external_body]
pub(crate) fn array_value(items: Vec<Value>) -> (r: Value)
    ensures
        value_tree(r) == Json::Array(trees(items@)),
{
    Value::Array(items)
}

/// `Value::Object` of a new `serde_json::Map`: an object without members.
#[verifier::external_body]
pub(crate) fn object_value() -> (r: Value)
    ensures
        value_tree(r) == Json::Object(Map::empty()),
{
    Value::Object(serde_json::Map::new())
}

/// Assignment through `IndexMut` of `Value` with a string key: sets the member
/// of an object, in place of one with the same key.
#[verifier::external_body]
pub(crate) fn set_member(v: &mut Value, key: &str, x: Value)
    requires
        value_tree(*old(v)) is Object,
    ensures
        value_tree(*final(v)) == Json::Object(
            value_tree(*old(v))->Object_0.insert(key@, value_tree(x)),
        ),
{
    v[key] = x;
}

/// `Value::to_string`: the compact JSON text of a value. Reading that text gives
/// the value back, where it holds no number (a floating-point one may be
/// rounded) and is not nested beyond what the reader accepts.
#[verifier::external_body]
pub(crate) fn write_value(v: &Value) -> (r: String)
    ensures
        r@ == json_text(value_tree(*v)),
        shallow(value_tree(*v), 127) ==> reads_as(r@, value_tree(*v)),
{
    v.to_string()
}

/// The member of a value that may be absent.
pub(crate) fn step<'a>(v: Option<&'a Value>, key: &str) -> (r: Option<&'a Value>)
    ensures
        opt_tree(r) == member(opt_tree(v), key@),
{
    match v {
        Some(x) => get_member(x, key),
        None => None,
    }
}

/// The string member of a value that may be absent.
pub(crate) fn str_at(v: Option<&Value>, key: &str) -> (r: Option<String>)
    ensures
        opt_view(r) == text_at(opt_tree(v), key@),
{
    match step(v, key) {
        Some(x) => match get_str(x) {
            Some(s) => Some(s.to_owned()),
            None => None,
        },
        None => None,
    }
}

} // verus!
