//! JSON payloads, held as `serde_json::Value` and described by a mathematical model.

use serde_json::Value;
use vstd::prelude::*;

verus! {

/// `serde_json::Value`, opaque to the verifier; `json_view` says what it holds.
#[verifier::external_type_specification]
#[verifier::external_body]
pub struct ExValue(Value);

/// The mathematical content of a JSON value, variant by variant as
/// `serde_json::Value` has them.
pub ghost enum Json {
    Null,
    Bool(bool),
    /// A number, by the text that writes it.
    Number(Seq<char>),
    /// A string.
    Text(Seq<char>),
    /// An array, by its elements in their order.
    Array(Seq<Json>),
    /// An object, by its members under their keys.
    Object(Map<Seq<char>, Json>),
}

/// What a `serde_json::Value` holds: its variant and, through arrays and
/// objects, the values inside it.
pub uninterp spec fn json_view(v: Value) -> Json;

/// `Value::is_object` is true exactly of the variant `Object`.
pub assume_specification[ Value::is_object ](v: &Value) -> (b: bool)
    ensures
        b == (json_view(*v) is Object),
;

/// `Value::clone` copies a value with all that it holds.
pub assume_specification[ <Value as Clone>::clone ](v: &Value) -> (copy: Value)
    ensures
        json_view(copy) == json_view(*v),
;

/// `Value::Array` over a new `Vec`: the array without elements.
#[verifier::external_body]
fn empty_array() -> (v: Value)
    ensures
        json_view(v) == Json::Array(Seq::empty()),
{
    Value::Array(Vec::new())
}

/// `Value::Object` over `serde_json::Map::new`: the object without members.
#[verifier::external_body]
fn empty_object() -> (v: Value)
    ensures
        json_view(v) == Json::Object(Map::empty()),
{
    Value::Object(serde_json::Map::new())
}

/// `Map::entry(key).or_insert(item)` on the map that `Value::as_object_mut`
/// gives: a member under `key` stays as it is, a missing one becomes `item`,
/// and no other member changes. A value that is no object is left alone.
#[verifier::external_body]
fn insert_if_absent(v: &mut Value, key: &str, item: Value)
    ensures
        json_view(*final(v)) == with_member(json_view(*old(v)), key@, json_view(item)),
{
    if let Some(members) = v.as_object_mut() {
        members.entry(key).or_insert(item);
    }
}

/// `j` with `item` under `key`, unless `j` has that member already or is no object.
pub open spec fn with_member(j: Json, key: Seq<char>, item: Json) -> Json {
    match j {
        Json::Object(members) => if members.dom().contains(key) {
            j
        } else {
            Json::Object(members.insert(key, item))
        },
        _ => j,
    }
}

/// The six keys that the payload of a dashboard is expected to have.
pub open spec fn is_recognized_key(key: Seq<char>) -> bool {
    ||| key == "nodes"@
    ||| key == "edges"@
    ||| key == "nodeTypes"@
    ||| key == "groups"@
    ||| key == "vms"@
    ||| key == "domains"@
}

/// `members`, and an empty array under each recognized key that `members` lacks.
pub open spec fn with_recognized_keys(members: Map<Seq<char>, Json>) -> Map<Seq<char>, Json> {
    Map::new(
        |key: Seq<char>| members.dom().contains(key) || is_recognized_key(key),
        |key: Seq<char>|
            if members.dom().contains(key) {
                members[key]
            } else {
                Json::Array(Seq::empty())
            },
    )
}

/// The payload of a dashboard that was given none: the six recognized keys,
/// an empty array under each.
pub open spec fn default_payload() -> Json {
    Json::Object(with_recognized_keys(Map::empty()))
}

/// The payload that an import stores for the payload `j` that it was given:
/// an object gains the recognized keys that it lacks and keeps every member it
/// has, whatever its value; anything else gives way to the default payload.
pub open spec fn normalized(j: Json) -> Json {
    match j {
        Json::Object(members) => Json::Object(with_recognized_keys(members)),
        _ => default_payload(),
    }
}

/// The members of `j`; none where `j` is no object.
pub open spec fn members_of(j: Json) -> Map<Seq<char>, Json> {
    match j {
        Json::Object(members) => members,
        _ => Map::empty(),
    }
}

/// A normalized payload is an object. Its keys are those of the payload it
/// was made from and the six recognized keys. It keeps every member of that
/// payload, and has an empty array under each recognized key that was missing.
pub proof fn lemma_normalized_members(j: Json, key: Seq<char>)
    ensures
        normalized(j) is Object,
        members_of(normalized(j)).dom().contains(key) <==> members_of(j).dom().contains(key)
            || is_recognized_key(key),
        members_of(j).dom().contains(key) ==> members_of(normalized(j))[key] == members_of(j)[key],
        !members_of(j).dom().contains(key) && is_recognized_key(key) ==> members_of(
            normalized(j),
        )[key] == Json::Array(Seq::empty()),
{
}

/// Normalizing a normalized payload changes nothing.
pub proof fn lemma_normalized_twice(j: Json)
    ensures
        normalized(normalized(j)) == normalized(j),
{
    let once = normalized(j)->Object_0;
    assert(with_recognized_keys(once) =~= once);
}

/// Puts an empty array under each recognized key that the object `v` lacks.
fn fill_recognized_keys(v: &mut Value)
    requires
        json_view(*old(v)) is Object,
    ensures
        json_view(*final(v)) == normalized(json_view(*old(v))),
{
    insert_if_absent(v, "nodes", empty_array());
    insert_if_absent(v, "edges", empty_array());
    insert_if_absent(v, "nodeTypes", empty_array());
    insert_if_absent(v, "groups", empty_array());
    insert_if_absent(v, "vms", empty_array());
    insert_if_absent(v, "domains", empty_array());
    assert(json_view(*v)->Object_0 =~= with_recognized_keys(json_view(*old(v))->Object_0));
}

/// The default payload.
pub fn default_data() -> (v: Value)
    ensures
        json_view(v) == default_payload(),
{
    let mut v = empty_object();
    fill_recognized_keys(&mut v);
    v
}

/// The payload to store for an imported one.
pub fn normalize_data(data: Value) -> (v: Value)
    ensures
        json_view(v) == normalized(json_view(data)),
{
    if data.is_object() {
        let mut v = data;
        fill_recognized_keys(&mut v);
        v
    } else {
        default_data()
    }
}

} // verus!
