//! JSON documents as text, read and written by `serde_json`.
use crate::json::{Json, JsonValue};
use vstd::prelude::*;

verus! {

/// A document as `serde_json` holds it.
#[verifier::external_type_specification]
#[verifier::external_body]
pub struct ExSerdeValue(serde_json::Value);

/// What a document held by `serde_json` says.
pub uninterp spec fn value_json(value: serde_json::Value) -> Json;

/// What `serde_json::from_str` makes of a text: a document, or the complaint.
pub uninterp spec fn json_read(text: Seq<char>) -> Result<Json, Seq<char>>;

/// The text that `serde_json` gives to the number that it reads in `text`, if it reads one.
pub uninterp spec fn json_number(text: Seq<char>) -> Option<Seq<char>>;

/// The order in which a `serde_json::Map` walks the members it was collected from.
pub uninterp spec fn json_object(members: Seq<(Seq<char>, Json)>) -> Seq<(Seq<char>, Json)>;

/// The complaint of `serde_json::from_str` about a text in which it does not find an object.
pub uninterp spec fn json_object_complaint(text: Seq<char>) -> Seq<char>;

/// The complaint of `serde_json::from_str` about a text in which it does not find a list of texts.
pub uninterp spec fn json_texts_complaint(text: Seq<char>) -> Seq<char>;

/// The compact text that `serde_json::to_string` gives to a document.
pub uninterp spec fn json_text(json: Json) -> Seq<char>;

/// The text that the `Debug` form of a `serde_json::Value` has.
pub uninterp spec fn json_debug(json: Json) -> Seq<char>;

/// One level of a document held by `serde_json`.
pub enum JsonNode {
    Null,
    Bool(bool),
    Number(String),
    Text(String),
    Array(Vec<serde_json::Value>),
    Object(Vec<(String, serde_json::Value)>),
}

/// What the elements of an array held by `serde_json` say.
pub open spec fn values_json(items: Seq<serde_json::Value>) -> Seq<Json> {
    items.map_values(|v: serde_json::Value| value_json(v))
}

/// What the members of an object held by `serde_json` say.
pub open spec fn entries_json(members: Seq<(String, serde_json::Value)>) -> Seq<(Seq<char>, Json)> {
    members.map_values(|m: (String, serde_json::Value)| (m.0@, value_json(m.1)))
}

/// What one level of a document says.
pub open spec fn node_json(node: JsonNode) -> Json {
    match node {
        JsonNode::Null => Json::Null,
        JsonNode::Bool(b) => Json::Bool(b),
        JsonNode::Number(n) => Json::Number(n@),
        JsonNode::Text(t) => Json::Text(t@),
        JsonNode::Array(items) => Json::Array(values_json(items@)),
        JsonNode::Object(members) => Json::Object(entries_json(members@)),
    }
}

/// `serde_json::from_str` into a `serde_json::Value`. It reads a document or complains, and which
/// of the two, and what, depends on the text alone.
#[verifier::external_body]
fn read_value(text: &str) -> (r: Result<serde_json::Value, String>)
    ensures
        match r {
            Ok(value) => json_read(text@) == Ok::<Json, Seq<char>>(value_json(value)),
            Err(complaint) => json_read(text@) == Err::<Json, Seq<char>>(complaint@),
        },
{
    serde_json::from_str(text).map_err(|e: serde_json::Error| e.to_string())
}

/// `serde_json::from_str` into a `serde_json::Map`. It reads the text of an object as it reads it
/// into a `serde_json::Value`, and complains about any other text.
#[verifier::external_body]
fn read_map(text: &str) -> (r: Result<serde_json::Value, String>)
    ensures
        match r {
            Ok(value) => json_read(text@) == Ok::<Json, Seq<char>>(value_json(value)) && value_json(
                value,
            ) is Object,
            Err(complaint) => !(json_read(text@) matches Ok(json) && json is Object) && complaint@
                == json_object_complaint(text@),
        },
{
    let map: Result<serde_json::Map<String, serde_json::Value>, serde_json::Error> =
        serde_json::from_str(text);
    map.map(serde_json::Value::Object).map_err(|e| e.to_string())
}

/// The texts of a list, as a document.
pub open spec fn text_array(texts: Seq<Seq<char>>) -> Json {
    Json::Array(texts.map_values(|t: Seq<char>| Json::Text(t)))
}

/// `serde_json::from_str` into a `Vec<String>`. It reads the text of an array of texts as it reads
/// it into a `serde_json::Value`, and complains about any other text.
#[verifier::external_body]
fn read_texts(text: &str) -> (r: Result<Vec<String>, String>)
    ensures
        match r {
            Ok(list) => json_read(text@) == Ok::<Json, Seq<char>>(
                text_array(crate::text::list(list@)),
            ),
            Err(complaint) => (forall|list: Seq<Seq<char>>|
                json_read(text@) != Ok::<Json, Seq<char>>(#[trigger] text_array(list)))
                && complaint@ == json_texts_complaint(text@),
        },
{
    serde_json::from_str(text).map_err(|e: serde_json::Error| e.to_string())
}

/// The variants of `serde_json::Value`. A number has a text from which `serde_json` reads it back;
/// an object has each name once and is walked in an order that collecting it again keeps.
#[verifier::external_body]
fn open_value(value: serde_json::Value) -> (node: JsonNode)
    ensures
        node_json(node) == value_json(value),
        node matches JsonNode::Number(n) ==> json_number(n@) == Some(n@),
        node matches JsonNode::Object(members) ==> crate::assoc::distinct(entries_json(members@))
            && json_object(entries_json(members@)) == entries_json(members@),
{
    match value {
        serde_json::Value::Null => JsonNode::Null,
        serde_json::Value::Bool(b) => JsonNode::Bool(b),
        serde_json::Value::Number(n) => JsonNode::Number(n.to_string()),
        serde_json::Value::String(t) => JsonNode::Text(t),
        serde_json::Value::Array(items) => JsonNode::Array(items),
        serde_json::Value::Object(members) => JsonNode::Object(members.into_iter().collect()),
    }
}

/// The variants of `serde_json::Value`, made from plain parts. A text that is no number gives
/// `Null`. An object keeps the value of every name that occurs once, and walks in its own order.
#[verifier::external_body]
fn close_value(node: JsonNode) -> (value: serde_json::Value)
    ensures
        match node {
            JsonNode::Number(n) => value_json(value) == match json_number(n@) {
                Some(written) => Json::Number(written),
                None => Json::Null,
            },
            JsonNode::Object(members) => value_json(value) == Json::Object(
                json_object(entries_json(members@)),
            ) && (crate::assoc::distinct(entries_json(members@)) ==> (forall|key: Seq<char>|
                crate::assoc::lookup(value_json(value)->Object_0, key) == crate::assoc::lookup(
                    entries_json(members@),
                    key,
                )) && crate::assoc::distinct(value_json(value)->Object_0)),
            _ => value_json(value) == node_json(node),
        },
{
    match node {
        JsonNode::Null => serde_json::Value::Null,
        JsonNode::Bool(b) => serde_json::Value::Bool(b),
        JsonNode::Number(n) => serde_json::from_str::<serde_json::Number>(&n).ok().into(),
        JsonNode::Text(t) => serde_json::Value::String(t),
        JsonNode::Array(items) => serde_json::Value::Array(items),
        JsonNode::Object(members) => serde_json::Value::Object(members.into_iter().collect()),
    }
}

/// `serde_json::to_string` of a `serde_json::Value`. Such a value has text keys only, so there
/// is always a text. Where the document nests no deeper than `serde_json` reads, the text reads
/// back as the document.
#[verifier::external_body]
fn write_value(value: &serde_json::Value) -> (r: Result<String, String>)
    ensures
        match r {
            Ok(text) => text@ == json_text(value_json(*value)) && (nests_within(
                value_json(*value),
                127,
            ) ==> json_read(text@) == Ok::<Json, Seq<char>>(value_json(*value))),
            Err(_) => false,
        },
{
    serde_json::to_string(value).map_err(|e| e.to_string())
}

/// The `Debug` form of a `serde_json::Value`, a text that depends on the document alone.
#[verifier::external_body]
fn debug_value(value: &serde_json::Value) -> (r: String)
    ensures
        r@ == json_debug(value_json(*value)),
{
    format!("{:?}", value)
}

/// Whether arrays and objects stand in one another at most `depth` deep.
pub open spec fn nests_within(json: Json, depth: nat) -> bool
    decreases json,
{
    match json {
        Json::Array(items) => depth > 0 && forall|i: int|
            0 <= i < items.len() ==> nests_within(#[trigger] items[i], (depth - 1) as nat),
        Json::Object(members) => depth > 0 && forall|i: int|
            0 <= i < members.len() ==> nests_within(
                (#[trigger] members[i]).1,
                (depth - 1) as nat,
            ),
        _ => true,
    }
}

/// A document as it comes from a text: numbers are written as `serde_json` writes them, and
/// objects have each name once and stand in the order in which `serde_json` walks them.
pub open spec fn settled(json: Json) -> bool
    decreases json,
{
    match json {
        Json::Number(n) => json_number(n) == Some(n),
        Json::Array(items) => forall|i: int| 0 <= i < items.len() ==> settled(#[trigger] items[i]),
        Json::Object(members) => {
            &&& crate::assoc::distinct(members)
            &&& json_object(members) == members
            &&& forall|i: int| 0 <= i < members.len() ==> settled((#[trigger] members[i]).1)
        },
        _ => true,
    }
}

/// The document that `serde_json` holds for a document made of plain parts.
pub open spec fn settle(json: Json) -> Json
    decreases json,
{
    match json {
        Json::Number(n) => match json_number(n) {
            Some(written) => Json::Number(written),
            None => Json::Null,
        },
        Json::Array(items) => Json::Array(settle_items(items)),
        Json::Object(members) => Json::Object(json_object(settle_members(members))),
        _ => json,
    }
}

/// The elements of an array, each as `serde_json` holds it.
pub open spec fn settle_items(items: Seq<Json>) -> Seq<Json>
    decreases items,
{
    Seq::new(
        items.len(),
        |i: int|
            if 0 <= i < items.len() {
                settle(items[i])
            } else {
                Json::Null
            },
    )
}

/// The members of an object, each as `serde_json` holds it.
pub open spec fn settle_members(members: Seq<(Seq<char>, Json)>) -> Seq<(Seq<char>, Json)>
    decreases members,
{
    Seq::new(
        members.len(),
        |i: int|
            if 0 <= i < members.len() {
                (members[i].0, settle(members[i].1))
            } else {
                (Seq::empty(), Json::Null)
            },
    )
}

/// A settled document is held as it is.
pub proof fn settled_is_kept(json: Json)
    requires
        settled(json),
    ensures
        settle(json) == json,
    decreases json,
{
    match json {
        Json::Array(items) => {
            assert forall|i: int| 0 <= i < items.len() implies settle(#[trigger] items[i])
                == items[i] by {
                settled_is_kept(items[i]);
            }
            assert(settle_items(items) =~= items);
        },
        Json::Object(members) => {
            assert forall|i: int| 0 <= i < members.len() implies settle((#[trigger] members[i]).1)
                == members[i].1 by {
                settled_is_kept(members[i].1);
            }
            assert(settle_members(members) =~= members);
        },
        _ => {},
    }
}

proof fn lemma_settle_members_lookup(members: Seq<(Seq<char>, Json)>, key: Seq<char>)
    ensures
        crate::assoc::lookup(settle_members(members), key) == (match crate::assoc::lookup(
            members,
            key,
        ) {
            Some(value) => Some(settle(value)),
            None => None,
        }),
{
    crate::assoc::lemma_place(members, key);
    let i = crate::assoc::place(members, key);
    assert forall|j: int| 0 <= j < i implies (#[trigger] settle_members(members)[j]).0 != key by {
        assert(members[j].0 != key);
    }
    crate::assoc::lemma_place_is(settle_members(members), key, i);
}

/// Whether `serde_json` keeps what stands under each name of an object.
pub open spec fn keeps_members(json: Json) -> bool {
    match json {
        Json::Object(members) => crate::assoc::distinct(members) ==> settle(json) is Object
            && crate::assoc::distinct(settle(json)->Object_0) && (forall|key: Seq<char>|
            #[trigger] crate::assoc::lookup(settle(json)->Object_0, key) == (
            match crate::assoc::lookup(members, key) {
                Some(value) => Some(settle(value)),
                None => None,
            })),
        _ => true,
    }
}

/// The document that `serde_json` holds, as a tree of plain values.
fn from_value(value: serde_json::Value) -> (r: JsonValue)
    ensures
        r@ == value_json(value),
        settled(r@),
    decreases value_json(value),
{
    broadcast use crate::json::lemma_view_containers;

    let ghost json = value_json(value);
    let node = open_value(value);
    match node {
        JsonNode::Null => JsonValue::Null,
        JsonNode::Bool(b) => JsonValue::Bool(b),
        JsonNode::Number(n) => JsonValue::Number(n),
        JsonNode::Text(t) => JsonValue::Text(t),
        JsonNode::Array(mut items) => {
            let ghost all = items@;
            let mut done: Vec<JsonValue> = Vec::new();
            while items.len() > 0
                invariant
                    json == value_json(value),
                    json == Json::Array(values_json(all)),
                    done@.len() + items@.len() == all.len(),
                    items@ == all.skip(done@.len() as int),
                    forall|k: int|
                        0 <= k < done@.len() ==> crate::json::json_view(#[trigger] done@[k]) == value_json(
                            all[k],
                        ) && settled(crate::json::json_view(done@[k])),
                decreases items@.len(),
            {
                let ghost k = done@.len() as int;
                let head = items.remove(0);
                assert(head == all[k]);
                assert(values_json(all)[k] == value_json(head));
                assert(decreases_to!(json => json->Array_0));
                assert(decreases_to!(json->Array_0 => json->Array_0[k]));
                let inner = from_value(head);
                done.push(inner);
            }
            assert(crate::json::items_view(done@) =~= values_json(all));
            JsonValue::Array(done)
        },
        JsonNode::Object(mut members) => {
            let ghost all = members@;
            let mut done: Vec<(String, JsonValue)> = Vec::new();
            while members.len() > 0
                invariant
                    json == value_json(value),
                    json == Json::Object(entries_json(all)),
                    done@.len() + members@.len() == all.len(),
                    members@ == all.skip(done@.len() as int),
                    forall|k: int|
                        0 <= k < done@.len() ==> (#[trigger] done@[k]).0@ == all[k].0@ && crate::json::json_view(
                            done@[k].1,
                        ) == value_json(all[k].1) && settled(crate::json::json_view(done@[k].1)),
                decreases members@.len(),
            {
                let ghost k = done@.len() as int;
                let (name, head) = members.remove(0);
                assert((name, head) == all[k]);
                assert(entries_json(all)[k].1 == value_json(head));
                assert(decreases_to!(json => json->Object_0));
                assert(decreases_to!(json->Object_0 => json->Object_0[k]));
                assert(decreases_to!(json->Object_0[k] => json->Object_0[k].1));
                let inner = from_value(head);
                done.push((name, inner));
            }
            assert(crate::json::members_view(done@) =~= entries_json(all));
            JsonValue::Object(done)
        },
    }
}

/// The document that a tree of plain values stands for, as `serde_json` holds it.
fn to_value(json: &JsonValue) -> (r: serde_json::Value)
    ensures
        value_json(r) == settle(json@),
        keeps_members(json@),
    decreases json,
{
    broadcast use crate::json::lemma_view_containers;

    match json {
        JsonValue::Null => close_value(JsonNode::Null),
        JsonValue::Bool(b) => close_value(JsonNode::Bool(*b)),
        JsonValue::Number(n) => close_value(JsonNode::Number(n.clone())),
        JsonValue::Text(t) => close_value(JsonNode::Text(t.clone())),
        JsonValue::Array(items) => {
            let mut done: Vec<serde_json::Value> = Vec::new();
            let mut i: usize = 0;
            while i < items.len()
                invariant
                    i <= items@.len(),
                    *json == JsonValue::Array(*items),
                    done@.len() == i,
                    forall|k: int|
                        0 <= k < i ==> value_json(#[trigger] done@[k]) == settle(
                            crate::json::json_view(items@[k]),
                        ),
                decreases items@.len() - i,
            {
                assert(decreases_to!(*json => json->Array_0));
                let inner = to_value(&items[i]);
                done.push(inner);
                i += 1;
            }
            assert(values_json(done@) =~= settle_items(crate::json::items_view(items@)));
            close_value(JsonNode::Array(done))
        },
        JsonValue::Object(members) => {
            let mut done: Vec<(String, serde_json::Value)> = Vec::new();
            let mut i: usize = 0;
            while i < members.len()
                invariant
                    i <= members@.len(),
                    *json == JsonValue::Object(*members),
                    done@.len() == i,
                    forall|k: int|
                        0 <= k < i ==> (#[trigger] done@[k]).0@ == members@[k].0@ && value_json(
                            done@[k].1,
                        ) == settle(crate::json::json_view(members@[k].1)),
                decreases members@.len() - i,
            {
                assert(decreases_to!(*json => json->Object_0));
                let inner = to_value(&members[i].1);
                done.push((members[i].0.clone(), inner));
                i += 1;
            }
            let ghost plain = crate::json::members_view(members@);
            assert(entries_json(done@) =~= settle_members(plain));
            proof {
                assert forall|key: Seq<char>|
                    crate::assoc::lookup(settle_members(plain), key) == (
                    match #[trigger] crate::assoc::lookup(plain, key) {
                        Some(value) => Some(settle(value)),
                        None => None,
                    }) by {
                    lemma_settle_members_lookup(plain, key);
                }
            }
            close_value(JsonNode::Object(done))
        },
    }
}

/// Reads a JSON document from its text. The error is the complaint about the text.
pub fn read_json(text: &str) -> (r: Result<JsonValue, String>)
    ensures
        match r {
            Ok(json) => json_read(text@) == Ok::<Json, Seq<char>>(json@) && settled(json@),
            Err(complaint) => json_read(text@) == Err::<Json, Seq<char>>(complaint@),
        },
{
    match read_value(text) {
        Ok(value) => Ok(from_value(value)),
        Err(complaint) => Err(complaint),
    }
}

/// Reads a JSON object from its text: its members. The error is the complaint about the text.
pub fn read_json_object(text: &str) -> (r: Result<Vec<(String, JsonValue)>, String>)
    ensures
        match r {
            Ok(members) => json_read(text@) == Ok::<Json, Seq<char>>(
                Json::Object(crate::json::members_view(members@)),
            ),
            Err(complaint) => !(json_read(text@) matches Ok(json) && json is Object) && complaint@
                == json_object_complaint(text@),
        },
{
    broadcast use crate::json::lemma_view_containers;

    match read_map(text) {
        Ok(value) => match from_value(value) {
            JsonValue::Object(members) => Ok(members),
            _ => Err(String::new()),
        },
        Err(complaint) => Err(complaint),
    }
}

/// Reads a JSON array of texts. The error is the complaint about the text.
pub fn read_json_texts(text: &str) -> (r: Result<Vec<String>, String>)
    ensures
        match r {
            Ok(list) => json_read(text@) == Ok::<Json, Seq<char>>(
                text_array(crate::text::list(list@)),
            ),
            Err(complaint) => (forall|list: Seq<Seq<char>>|
                json_read(text@) != Ok::<Json, Seq<char>>(#[trigger] text_array(list)))
                && complaint@ == json_texts_complaint(text@),
        },
{
    read_texts(text)
}

/// The compact text of a document.
pub fn write_json(json: &JsonValue) -> (r: Result<String, String>)
    ensures
        match r {
            Ok(text) => text@ == json_text(settle(json@)) && (nests_within(settle(json@), 127)
                ==> json_read(text@) == Ok::<Json, Seq<char>>(settle(json@))),
            Err(_) => false,
        },
        keeps_members(json@),
{
    write_value(&to_value(json))
}

/// The text in which a document is shown: its compact text.
pub fn show_json(json: &JsonValue) -> (r: String)
    ensures
        r@ == json_text(settle(json@)),
{
    match write_json(json) {
        Ok(text) => text,
        Err(complaint) => complaint,
    }
}

/// The `Debug` text of a document.
pub fn debug_json(json: &JsonValue) -> (r: String)
    ensures
        r@ == json_debug(settle(json@)),
{
    debug_value(&to_value(json))
}

} // verus!
