//! JSON values, as `serde_json` holds them.
use vstd::prelude::*;

verus! {

/// `serde_json::Value`: a JSON value.
#[verifier::external_type_specification]
#[verifier::external_body]
pub struct ExValue(serde_json::Value);

/// `serde_json::Map`: the members of a JSON object.
#[verifier::external_type_specification]
#[verifier::external_body]
#[verifier::reject_recursive_types(K)]
#[verifier::reject_recursive_types(V)]
pub struct ExMap<K, V>(serde_json::Map<K, V>);

/// The members of a JSON object.
pub type JsonObject = serde_json::Map<String, serde_json::Value>;

/// A JSON value, as far as the editor tells values apart.
pub enum Json {
    Text(Seq<char>),
    List(Seq<Json>),
    Object(Map<Seq<char>, Json>),
    /// A number, a Boolean value or `null`.
    Other,
}

/// What a JSON value holds.
pub uninterp spec fn json_of(v: serde_json::Value) -> Json;

/// What the members of an object hold.
pub uninterp spec fn members(m: JsonObject) -> Map<Seq<char>, Json>;

/// What the values of a list hold.
pub open spec fn jsons(values: Seq<serde_json::Value>) -> Seq<Json> {
    Seq::new(values.len(), |i: int| json_of(values[i]))
}

/// `serde_json::Map::new`: an object without members.
#[verifier::external_body]
pub(crate) fn new_object() -> (r: JsonObject)
    ensures
        members(r).dom() == Set::<Seq<char>>::empty(),
{
    serde_json::Map::new()
}

/// `serde_json::Map::insert`: the member with this key has the given value afterwards, all others
/// stay; the value that it had before is returned.
#[verifier::external_body]
pub(crate) fn insert(m: &mut JsonObject, key: String, value: serde_json::Value) -> (r: Option<
    serde_json::Value,
>)
    ensures
        members(*final(m)) == members(*old(m)).insert(key@, json_of(value)),
        r is Some == members(*old(m)).contains_key(key@),
        r matches Some(before) ==> json_of(before) == members(*old(m))[key@],
{
    m.insert(key, value)
}

/// `serde_json::Map::get`: the value of the member with this key, if there is one.
#[verifier::external_body]
pub(crate) fn get<'a>(m: &'a JsonObject, key: &str) -> (r: Option<&'a serde_json::Value>)
    ensures
        r is Some == members(*m).contains_key(key@),
        r matches Some(value) ==> json_of(*value) == members(*m)[key@],
{
    m.get(key)
}

/// `serde_json::Value::from`, of a `String`: a JSON text.
#[verifier::external_body]
pub(crate) fn text_value(s: String) -> (r: serde_json::Value)
    ensures
        json_of(r) == Json::Text(s@),
{
    serde_json::Value::from(s)
}

/// `serde_json::Value::from`, of a vector: a JSON list.
#[verifier::external_body]
pub(crate) fn list_value(values: Vec<serde_json::Value>) -> (r: serde_json::Value)
    ensures
        json_of(r) == Json::List(jsons(values@)),
{
    serde_json::Value::from(values)
}

/// `serde_json::Value::from`, of a map: a JSON object.
#[verifier::external_body]
pub(crate) fn object_value(m: JsonObject) -> (r: serde_json::Value)
    ensures
        json_of(r) == Json::Object(members(m)),
{
    serde_json::Value::from(m)
}

/// `serde_json::Value::as_str`: the text, if the value is one.
#[verifier::external_body]
pub(crate) fn as_text(v: &serde_json::Value) -> (r: Option<&str>)
    ensures
        r is Some == json_of(*v) is Text,
        r matches Some(text) ==> json_of(*v) == Json::Text(text@),
{
    v.as_str()
}

/// `serde_json::Value::as_array`: the values of the list, if the value is one.
#[verifier::external_body]
pub(crate) fn as_list(v: &serde_json::Value) -> (r: Option<&Vec<serde_json::Value>>)
    ensures
        r is Some == json_of(*v) is List,
        r matches Some(values) ==> json_of(*v) == Json::List(jsons(values@)),
{
    v.as_array()
}

/// `serde_json::Value::as_object`: the members of the object, if the value is one.
#[verifier::external_body]
pub(crate) fn as_object(v: &serde_json::Value) -> (r: Option<&JsonObject>)
    ensures
        r is Some == json_of(*v) is Object,
        r matches Some(m) ==> json_of(*v) == Json::Object(members(*m)),
{
    v.as_object()
}

} // verus!
