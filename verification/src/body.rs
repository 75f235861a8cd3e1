//! The model id in JSON request bodies.

use vstd::prelude::*;

use crate::table::Table;

verus! {

/// A JSON value of `serde_json`.
#[verifier::external_type_specification]
#[verifier::external_body]
pub struct ExJsonValue(serde_json::Value);

/// An error of `serde_json`.
#[verifier::external_type_specification]
#[verifier::external_body]
pub struct ExJsonError(serde_json::Error);

/// What a JSON value is. Numbers are held as their texts.
pub enum Json {
    Null,
    Bool(bool),
    Number(Seq<char>),
    Text(Seq<char>),
    Array(Seq<Json>),
    Object(Map<Seq<char>, Json>),
}

/// What a value of `serde_json` holds.
pub uninterp spec fn json_tree(value: serde_json::Value) -> Json;

/// The document that `serde_json::from_slice` reads from bytes, or `None` where it fails.
pub uninterp spec fn json_document(bytes: Seq<u8>) -> Option<Json>;

/// The bytes that `serde_json::to_vec` writes for a value. It sorts the members of an object by
/// their names, so that what an object holds decides what is written.
pub uninterp spec fn json_text(value: Json) -> Seq<u8>;

/// `serde_json::from_slice`: the value that it reads from `bytes` is a function of the bytes. It goes
/// down no deeper than 128 levels and fails on what is nested deeper; so it is with the features that
/// this crate asks for, which leave `raw_value` out.
#[verifier::external_body]
fn parse_json(bytes: &[u8]) -> (r: Result<serde_json::Value, serde_json::Error>)
    ensures
        match r {
            Ok(value) => json_document(bytes@) == Some(json_tree(value)),
            Err(_) => json_document(bytes@) is None,
        },
{
    serde_json::from_slice::<serde_json::Value>(bytes)
}

/// `serde_json::Value::get` with a string: the member of an object under `key`, and nothing where
/// there is none or `value` is no object.
#[verifier::external_body]
fn json_get<'a>(value: &'a serde_json::Value, key: &str) -> (r: Option<&'a serde_json::Value>)
    ensures
        match r {
            Some(member) => json_member(json_tree(*value), key@) == Some(json_tree(*member)),
            None => json_member(json_tree(*value), key@) is None,
        },
{
    value.get(key)
}

/// `serde_json::Value::as_str`: the text of a string, and nothing for any other value.
#[verifier::external_body]
fn json_as_str(value: &serde_json::Value) -> (r: Option<&str>)
    ensures
        match r {
            Some(text) => json_tree(*value) == Json::Text(text@),
            None => !(json_tree(*value) is Text),
        },
{
    value.as_str()
}

/// `IndexMut` of `serde_json::Value` with a string, on an object: the string `text` takes the place
/// of the member under `key`, or becomes a new one, and no other member changes. It panics on
/// values that are neither objects nor null.
#[verifier::external_body]
fn json_set_text(value: &mut serde_json::Value, key: &str, text: String)
    requires
        json_tree(*old(value)) is Object,
    ensures
        json_tree(*final(value)) == Json::Object(
            json_tree(*old(value))->Object_0.insert(key@, Json::Text(text@)),
        ),
{
    value[key] = serde_json::Value::String(text);
}

/// `serde_json::to_vec` on a `Value`, whose object keys are strings, so that it does not fail: what
/// it writes is a function of what the value holds. Where the bytes of a value with a model id can
/// be read back, they have the same model id. Nothing is claimed of what else is read back, where a
/// number may differ in its last digit. The writer goes down as deep as the value does; a document
/// that was read, whatever its model id, is no deeper than the reader went.
#[verifier::external_body]
fn write_json(value: &serde_json::Value) -> (r: Result<Vec<u8>, serde_json::Error>)
    requires
        was_read(json_tree(*value)),
    ensures
        r is Ok,
        r->Ok_0@ == json_text(json_tree(*value)),
        same_model_back(json_tree(*value), json_document(r->Ok_0@)),
{
    serde_json::to_vec(value)
}

/// Whether `value` is an object that some bytes hold, but for its model id.
pub open spec fn was_read(value: Json) -> bool {
    exists|bytes: Seq<u8>, model: Seq<char>|
        {
            &&& json_document(bytes) is Some
            &&& json_document(bytes)->0 is Object
            &&& value == #[trigger] with_model(json_document(bytes)->0, model)
        }
}

/// Whether what is read back of a written value, if anything, has its model id.
pub open spec fn same_model_back(value: Json, back: Option<Json>) -> bool {
    model_of(value) is Some && back is Some ==> model_of(back->0) == model_of(value)
}

/// The member of an object under `key`.
pub open spec fn json_member(value: Json, key: Seq<char>) -> Option<Json> {
    match value {
        Json::Object(members) => if members.contains_key(key) {
            Some(members[key])
        } else {
            None
        },
        _ => None,
    }
}

/// The text of the member of an object under `key`, where it is a string.
pub open spec fn text_member(value: Json, key: Seq<char>) -> Option<Seq<char>> {
    match json_member(value, key) {
        Some(Json::Text(text)) => Some(text),
        _ => None,
    }
}

/// The model id of a request.
pub open spec fn model_of(request: Json) -> Option<Seq<char>> {
    text_member(request, "model"@)
}

/// The request with another model id.
pub open spec fn with_model(request: Json, model: Seq<char>) -> Json {
    Json::Object(request->Object_0.insert("model"@, Json::Text(model)))
}

/// The request with the upstream's id of its model, or `None` where it names no model or `map` has
/// no id for it.
pub open spec fn translated(request: Json, map: Map<Seq<char>, Seq<char>>) -> Option<Json> {
    match model_of(request) {
        Some(model) => if map.contains_key(model) {
            Some(with_model(request, map[model]))
        } else {
            None
        },
        None => None,
    }
}

/// The body that is forwarded for `body`: the same bytes, unless they are JSON with a model id that
/// `map` translates.
pub open spec fn rewritten(body: Seq<u8>, map: Map<Seq<char>, Seq<char>>) -> Seq<u8> {
    match json_document(body) {
        Some(request) => match translated(request, map) {
            Some(changed) => json_text(changed),
            None => body,
        },
        None => body,
    }
}

/// Puts the upstream's model id into `request`, and says whether it did.
pub fn replace_model(request: &mut serde_json::Value, map: &Table<String>) -> (r: bool)
    ensures
        r == translated(json_tree(*old(request)), map@) is Some,
        match translated(json_tree(*old(request)), map@) {
            Some(changed) => json_tree(*final(request)) == changed,
            None => *final(request) == *old(request),
        },
{
    let replacement: String = match json_get(request, "model") {
        Some(member) => match json_as_str(member) {
            Some(model) => match map.get(model) {
                Some(id) => id.clone(),
                None => {
                    return false;
                },
            },
            None => {
                return false;
            },
        },
        None => {
            return false;
        },
    };
    json_set_text(request, "model", replacement);
    true
}

/// What holds of the bytes `r` that are forwarded for `request`, if its model was translated: where
/// they can be read back they have the new model id, and with a map that does not hold that id they
/// are not rewritten again.
pub open spec fn settled(request: Json, map: Map<Seq<char>, Seq<char>>, r: Seq<u8>) -> bool {
    match translated(request, map) {
        Some(changed) => {
            let id = map[model_of(request)->0];
            &&& json_document(r) matches Some(back) ==> model_of(back) == Some(id)
            &&& forall|other: Map<Seq<char>, Seq<char>>|
                !other.contains_key(id) ==> #[trigger] rewritten(r, other) == r
        },
        None => true,
    }
}

/// The bytes of a body with the `model` field of its JSON translated. Bytes that are not JSON, or
/// that name no model that `map` has, are returned as they are: other endpoints are not touched.
pub fn rewrite_model(body: &[u8], map: &Table<String>) -> (r: Vec<u8>)
    ensures
        r@ == rewritten(body@, map@),
        json_document(body@) matches Some(request) ==> settled(request, map@, r@),
{
    let mut request = match parse_json(body) {
        Ok(request) => request,
        Err(_) => {
            return vstd::slice::slice_to_vec(body);
        },
    };
    if !replace_model(&mut request, map) {
        return vstd::slice::slice_to_vec(body);
    }
    match write_json(&request) {
        Ok(bytes) => bytes,
        Err(_) => vstd::slice::slice_to_vec(body),
    }
}

/// A translated request differs from the one it was made of in its model id alone.
pub proof fn law_only_the_model_changes(
    request: Json,
    map: Map<Seq<char>, Seq<char>>,
    key: Seq<char>,
)
    requires
        translated(request, map) is Some,
    ensures
        model_of(translated(request, map)->0) == Some(map[model_of(request)->0]),
        key != "model"@ ==> json_member(translated(request, map)->0, key) == json_member(
            request,
            key,
        ),
{
}

/// An empty map leaves every body as it is.
pub proof fn law_empty_map_changes_nothing(body: Seq<u8>)
    ensures
        rewritten(body, Map::empty()) == body,
{
}

/// A request whose member `model` is a string that the map has, whatever its other members, is
/// translated: to the same members, with the map's id as the model.
pub proof fn law_mapped_models_are_translated(
    members: Map<Seq<char>, Json>,
    model: Seq<char>,
    map: Map<Seq<char>, Seq<char>>,
)
    requires
        members.contains_key("model"@),
        members["model"@] == Json::Text(model),
        map.contains_key(model),
    ensures
        model_of(Json::Object(members)) == Some(model),
        translated(Json::Object(members), map) == Some(
            Json::Object(members.insert("model"@, Json::Text(map[model]))),
        ),
        forall|body: Seq<u8>|
            json_document(body) == Some(Json::Object(members)) ==> #[trigger] rewritten(body, map)
                == json_text(Json::Object(members.insert("model"@, Json::Text(map[model])))),
{
}

/// A body is forwarded as it is where it is not JSON, is not an object, has no member `model`, has
/// one that is not a string, or has one that the map does not translate.
pub proof fn law_other_bodies_are_not_touched(body: Seq<u8>, map: Map<Seq<char>, Seq<char>>)
    requires
        match json_document(body) {
            Some(Json::Object(members)) => {
                ||| !members.contains_key("model"@)
                ||| match members["model"@] {
                    Json::Text(model) => !map.contains_key(model),
                    _ => true,
                }
            },
            _ => true,
        },
    ensures
        rewritten(body, map) == body,
{
}

} // verus!
