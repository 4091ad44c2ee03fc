//! JSON documents, as `serde_json` reads and writes them.

use vstd::prelude::*;

verus! {

/// A JSON document. A null, a boolean or a number goes by its JSON text.
pub enum Json {
    Scalar(Seq<char>),
    Text(Seq<char>),
    Array(Seq<Json>),
    Object(Map<Seq<char>, Json>),
}

impl Json {
    /// The member `key` of an object.
    pub open spec fn member(self, key: Seq<char>) -> Option<Json> {
        match self {
            Json::Object(m) => if m.dom().contains(key) {
                Some(m[key])
            } else {
                None
            },
            _ => None,
        }
    }

    /// The element `i` of an array.
    pub open spec fn element(self, i: int) -> Option<Json> {
        match self {
            Json::Array(xs) => if 0 <= i < xs.len() {
                Some(xs[i])
            } else {
                None
            },
            _ => None,
        }
    }

    /// The characters of a string.
    pub open spec fn text(self) -> Option<Seq<char>> {
        match self {
            Json::Text(s) => Some(s),
            _ => None,
        }
    }

    /// The characters of the member `key`, where that is a string.
    pub open spec fn text_at(self, key: Seq<char>) -> Option<Seq<char>> {
        match self.member(key) {
            Some(m) => m.text(),
            None => None,
        }
    }

    /// The elements of an array.
    pub open spec fn elements(self) -> Option<Seq<Json>> {
        match self {
            Json::Array(xs) => Some(xs),
            _ => None,
        }
    }
}

/// A JSON document in memory, `serde_json::Value`.
#[verifier::external_type_specification]
#[verifier::external_body]
pub struct ExValue(serde_json::Value);

/// The document that a value holds.
pub uninterp spec fn json_of(v: serde_json::Value) -> Json;

/// What `serde_json::from_str` reads from a text: a document, or the message of its error.
pub uninterp spec fn json_read(raw: Seq<char>) -> Result<Json, Seq<char>>;

/// `serde_json::from_str::<Value>` reads the document that the whole text
/// spells, or fails with a message. Both depend on the text alone.
#[verifier::external_body]
pub(crate) fn parse(raw: &str) -> (r: Result<serde_json::Value, String>)
    ensures
        match r {
            Ok(v) => json_read(raw@) == Ok::<Json, Seq<char>>(json_of(v)),
            Err(e) => json_read(raw@) == Err::<Json, Seq<char>>(e@),
        },
{
    serde_json::from_str::<serde_json::Value>(raw).map_err(|e| e.to_string())
}

/// `Value::get` with a string gives the member of that name of an object, and
/// nothing of any other value.
#[verifier::external_body]
pub(crate) fn get<'a>(v: &'a serde_json::Value, key: &str) -> (r: Option<&'a serde_json::Value>)
    ensures
        match r {
            Some(m) => json_of(*v).member(key@) == Some(json_of(*m)),
            None => json_of(*v).member(key@) is None,
        },
{
    v.get(key)
}

/// `Value::as_str` gives the characters of a string, and nothing of any other value.
#[verifier::external_body]
pub(crate) fn as_str<'a>(v: &'a serde_json::Value) -> (r: Option<&'a str>)
    ensures
        match r {
            Some(s) => json_of(*v).text() == Some(s@),
            None => json_of(*v).text() is None,
        },
{
    v.as_str()
}

/// `Value::as_array` gives the elements of an array, and nothing of any other value.
#[verifier::external_body]
pub(crate) fn as_array<'a>(v: &'a serde_json::Value) -> (r: Option<&'a Vec<serde_json::Value>>)
    ensures
        match r {
            Some(xs) => json_of(*v).elements() == Some(documents(xs@)),
            None => json_of(*v).elements() is None,
        },
{
    v.as_array()
}

/// The documents of a list of values.
pub open spec fn documents(values: Seq<serde_json::Value>) -> Seq<Json> {
    values.map_values(|v: serde_json::Value| json_of(v))
}

/// `Value::clone` copies the document.
#[verifier::external_body]
pub(crate) fn copy(v: &serde_json::Value) -> (r: serde_json::Value)
    ensures
        json_of(r) == json_of(*v),
{
    v.clone()
}

/// `Value::String` makes the document that is this string.
#[verifier::external_body]
pub(crate) fn text_value(s: &str) -> (r: serde_json::Value)
    ensures
        json_of(r) == Json::Text(s@),
{
    serde_json::Value::String(s.to_owned())
}

/// `Value::Array` makes the document that is the array of these documents.
#[verifier::external_body]
pub(crate) fn array_value(elements: Vec<serde_json::Value>) -> (r: serde_json::Value)
    ensures
        json_of(r) == Json::Array(documents(elements@)),
{
    serde_json::Value::Array(elements)
}

/// `serde_json::Map::new` makes an object without members.
#[verifier::external_body]
pub(crate) fn object_value() -> (r: serde_json::Value)
    ensures
        json_of(r) == Json::Object(Map::empty()),
{
    serde_json::Value::Object(serde_json::Map::new())
}

/// Assigning to the member `key` of an object, through the `IndexMut` of
/// `Value`, gives the object that member, in place of one it may have had.
#[verifier::external_body]
pub(crate) fn with_member(v: serde_json::Value, key: &str, m: serde_json::Value) -> (r:
    serde_json::Value)
    requires
        json_of(v) is Object,
    ensures
        json_of(r) == Json::Object(json_of(v)->Object_0.insert(key@, json_of(m))),
{
    let mut object = v;
    object[key] = m;
    object
}

/// The characters of the member `key` of `v`, where that is a string.
pub fn text_member(v: &serde_json::Value, key: &str) -> (r: Option<String>)
    ensures
        match r {
            Some(s) => json_of(*v).text_at(key@) == Some(s@),
            None => json_of(*v).text_at(key@) is None,
        },
{
    match get(v, key) {
        Some(m) => match as_str(m) {
            Some(s) => Some(s.to_owned()),
            None => None,
        },
        None => None,
    }
}

} // verus!
