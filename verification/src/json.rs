//! A plain model of JSON values, the parsing that serde_json does into it,
//! and the lookups that the brief logic makes (`v["key"]`, `v[0]`,
//! `as_str`, `as_array`).

use vstd::prelude::*;
use crate::text::chars_of;

verus! {

/// serde_json's dynamically typed JSON value, carried opaquely.
#[verifier::external_type_specification]
#[verifier::external_body]
pub struct ExSerdeJsonValue(serde_json::Value);

/// A parsed JSON value. Numbers are kept as the text serde_json prints for
/// them, which reads back as the same number.
#[derive(Debug)]
pub enum JsonValue {
    Null,
    Bool(bool),
    Number(String),
    Str(String),
    Array(Vec<JsonValue>),
    Object(Vec<(String, JsonValue)>),
}

/// The mathematical view of a JSON value.
pub enum Json {
    Null,
    Bool(bool),
    Number(Seq<char>),
    Str(Seq<char>),
    Array(Seq<Json>),
    Object(Seq<(Seq<char>, Json)>),
}

/// The view of a JSON value.
pub open spec fn json_view(v: JsonValue) -> Json
    decreases v,
{
    match v {
        JsonValue::Null => Json::Null,
        JsonValue::Bool(b) => Json::Bool(b),
        JsonValue::Number(n) => Json::Number(n@),
        JsonValue::Str(s) => Json::Str(s@),
        JsonValue::Array(items) => Json::Array(items_view(items@)),
        JsonValue::Object(entries) => Json::Object(entries_view(entries@)),
    }
}

/// The views of the items of a JSON array.
pub open spec fn items_view(items: Seq<JsonValue>) -> Seq<Json>
    decreases items,
{
    if items.len() == 0 {
        Seq::empty()
    } else {
        items_view(items.subrange(0, items.len() - 1)).push(json_view(items[items.len() - 1]))
    }
}

/// The views of the entries of a JSON object.
pub open spec fn entries_view(entries: Seq<(String, JsonValue)>) -> Seq<(Seq<char>, Json)>
    decreases entries,
{
    if entries.len() == 0 {
        Seq::empty()
    } else {
        entries_view(entries.subrange(0, entries.len() - 1)).push(
            (entries[entries.len() - 1].0@, json_view(entries[entries.len() - 1].1)),
        )
    }
}

impl View for JsonValue {
    type V = Json;

    open spec fn view(&self) -> Json {
        json_view(*self)
    }
}

/// What serde_json parses a string into (`None` when it rejects it).
pub uninterp spec fn spec_json_from_str(s: Seq<char>) -> Option<Json>;

/// What serde_json parses a byte string into, or the text of its error.
pub uninterp spec fn spec_json_from_slice(b: Seq<u8>) -> Result<Json, Seq<char>>;

/// Converts a serde_json value into the library's model: each variant to
/// its counterpart, numbers to their printed text, arrays and objects
/// element by element (objects in serde_json's key order).
#[verifier::external_body]
fn json_of_value(v: serde_json::Value) -> JsonValue {
    match v {
        serde_json::Value::Null => JsonValue::Null,
        serde_json::Value::Bool(b) => JsonValue::Bool(b),
        serde_json::Value::Number(n) => JsonValue::Number(n.to_string()),
        serde_json::Value::String(s) => JsonValue::Str(s),
        serde_json::Value::Array(a) => JsonValue::Array(a.into_iter().map(json_of_value).collect()),
        serde_json::Value::Object(m) => JsonValue::Object(
            m.into_iter().map(|(k, x)| (k, json_of_value(x))).collect(),
        ),
    }
}

/// `serde_json::from_str::<serde_json::Value>`: the claim is that its
/// outcome, converted to the model, is a fixed function of the input text,
/// and that a text opening with `{` parses only to an object (serde_json
/// reads a value by its first byte and builds an object from `{`); the
/// parse itself is not spelled out.
#[verifier::external_body]
pub fn json_from_str(s: &str) -> (r: Option<JsonValue>)
    ensures
        r is None <==> spec_json_from_str(s@) is None,
        r matches Some(v) ==> spec_json_from_str(s@) == Some(v@),
        s@.len() > 0 && s@[0] == '{' ==> (r matches Some(v) ==> v is Object),
{
    serde_json::from_str::<serde_json::Value>(s).ok().map(json_of_value)
}

/// The view of a parse outcome: the value's view, or the error's text.
pub open spec fn parse_outcome_view(r: Result<JsonValue, String>) -> Result<Json, Seq<char>> {
    match r {
        Ok(v) => Ok(v@),
        Err(e) => Err(e@),
    }
}

/// `serde_json::from_slice::<serde_json::Value>`: the claim is only that
/// its outcome (the converted value, or the text its error displays) is a
/// fixed function of the input bytes.
#[verifier::external_body]
pub fn json_from_slice(b: &[u8]) -> (r: Result<JsonValue, String>)
    ensures
        parse_outcome_view(r) == spec_json_from_slice(b@),
{
    serde_json::from_slice::<serde_json::Value>(b).map(json_of_value).map_err(|e| e.to_string())
}

/// The value stored under `key` in an object (the first entry with that
/// key); `None` for other values and missing keys, as `v[key]` gives null.
pub open spec fn lookup_entries(entries: Seq<(Seq<char>, Json)>, key: Seq<char>) -> Option<Json>
    decreases entries.len(),
{
    if entries.len() == 0 {
        None
    } else if entries[0].0 == key {
        Some(entries[0].1)
    } else {
        lookup_entries(entries.drop_first(), key)
    }
}

/// `v[key]` of an object; `None` stands for serde_json's null answer.
pub open spec fn field(v: Json, key: Seq<char>) -> Option<Json> {
    match v {
        Json::Object(entries) => lookup_entries(entries, key),
        _ => None,
    }
}

/// `v[i]` of an array; `None` stands for serde_json's null answer.
pub open spec fn item(v: Option<Json>, i: int) -> Option<Json> {
    match v {
        Some(Json::Array(items)) => if 0 <= i < items.len() {
            Some(items[i])
        } else {
            None
        },
        _ => None,
    }
}

/// `v[key]` applied to an optional value.
pub open spec fn field_of(v: Option<Json>, key: Seq<char>) -> Option<Json> {
    match v {
        Some(j) => field(j, key),
        None => None,
    }
}

/// `as_str()` of an optional value.
pub open spec fn as_str(v: Option<Json>) -> Option<Seq<char>> {
    match v {
        Some(Json::Str(s)) => Some(s),
        _ => None,
    }
}

/// Whether two strings hold the same characters.
pub fn str_eq(a: &str, b: &str) -> (r: bool)
    ensures
        r == (a@ == b@),
{
    let x = chars_of(a);
    let y = chars_of(b);
    if x.len() != y.len() {
        return false;
    }
    let mut i: usize = 0;
    while i < x.len()
        invariant
            i <= x@.len(),
            x@ == a@,
            y@ == b@,
            x@.len() == y@.len(),
            forall|j: int| 0 <= j < i ==> x@[j] == y@[j],
        decreases x@.len() - i,
    {
        if x[i] != y[i] {
            proof {
                assert(a@[i as int] != b@[i as int]);
            }
            return false;
        }
        i = i + 1;
    }
    proof {
        assert(x@ =~= y@);
    }
    true
}

pub proof fn lemma_items_view(items: Seq<JsonValue>)
    ensures
        items_view(items).len() == items.len(),
        forall|i: int| 0 <= i < items.len() ==> #[trigger] items_view(items)[i] == json_view(items[i]),
    decreases items.len(),
{
    if items.len() > 0 {
        lemma_items_view(items.subrange(0, items.len() - 1));
    }
}

pub proof fn lemma_entries_view(entries: Seq<(String, JsonValue)>)
    ensures
        entries_view(entries).len() == entries.len(),
        forall|i: int|
            0 <= i < entries.len() ==> #[trigger] entries_view(entries)[i] == (
                entries[i].0@,
                json_view(entries[i].1),
            ),
    decreases entries.len(),
{
    if entries.len() > 0 {
        lemma_entries_view(entries.subrange(0, entries.len() - 1));
    }
}

/// `v[key]`: the value under `key` when `v` is an object that has it.
pub fn get_field<'a>(v: &'a JsonValue, key: &str) -> (r: Option<&'a JsonValue>)
    ensures
        r is None <==> field(v@, key@) is None,
        r matches Some(x) ==> field(v@, key@) == Some(x@),
{
    match v {
        JsonValue::Object(entries) => {
            proof {
                lemma_entries_view(entries@);
            }
            let ghost ev = entries_view(entries@);
            proof {
                assert(ev.skip(0) =~= ev);
                assert(v@ == Json::Object(ev));
            }
            let mut i: usize = 0;
            while i < entries.len()
                invariant
                    i <= entries@.len(),
                    ev == entries_view(entries@),
                    field(v@, key@) == lookup_entries(ev, key@),
                    ev.len() == entries@.len(),
                    forall|j: int|
                        0 <= j < entries@.len() ==> #[trigger] ev[j] == (
                            entries@[j].0@,
                            json_view(entries@[j].1),
                        ),
                    lookup_entries(ev, key@) == lookup_entries(ev.skip(i as int), key@),
                decreases entries@.len() - i,
            {
                proof {
                    assert(ev.skip(i as int).drop_first() =~= ev.skip(i + 1));
                }
                if str_eq(entries[i].0.as_str(), key) {
                    proof {
                        assert(ev.skip(i as int)[0] == ev[i as int]);
                    }
                    return Some(&entries[i].1);
                }
                i = i + 1;
            }
            None
        },
        _ => None,
    }
}

/// `v[i]`: the `i`-th item when `v` is an array that long.
pub fn get_item<'a>(v: Option<&'a JsonValue>, i: usize) -> (r: Option<&'a JsonValue>)
    ensures
        r is None <==> item(
            match v {
                Some(x) => Some(x@),
                None => None,
            },
            i as int,
        ) is None,
        r matches Some(x) ==> item(
            match v {
                Some(x) => Some(x@),
                None => None,
            },
            i as int,
        ) == Some(x@),
{
    match v {
        Some(JsonValue::Array(items)) => {
            proof {
                lemma_items_view(items@);
            }
            if i < items.len() {
                Some(&items[i])
            } else {
                None
            }
        },
        _ => None,
    }
}

} // verus!
