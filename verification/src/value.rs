//! The JSON value that flows through a graph, and its mathematical model.

use vstd::prelude::*;
use crate::table::table_model;

verus! {

/// A JSON number: an integer, or a finite double held by its IEEE-754 bit
/// pattern.
#[derive(Debug)]
pub enum JsonNumber {
    PosInt(u64),
    NegInt(i64),
    Float(u64),
}

/// A JSON value. An object is a list of entries; where a key occurs more than
/// once, the last entry is the one that counts.
#[derive(Debug)]
pub enum JsonValue {
    Null,
    Bool(bool),
    Number(JsonNumber),
    String(String),
    Array(Vec<JsonValue>),
    Object(Vec<(String, JsonValue)>),
}

/// The mathematical model of a number. An integer and a double are never the
/// same number, whatever they hold.
pub enum NumberModel {
    Int(int),
    Float(u64),
}

/// The mathematical model of a JSON value: an object is a finite map.
pub enum Json {
    Null,
    Bool(bool),
    Number(NumberModel),
    String(Seq<char>),
    Array(Seq<Json>),
    Object(Map<Seq<char>, Json>),
}

/// The bit pattern of negative zero.
pub const NEGATIVE_ZERO: u64 = 0x8000_0000_0000_0000u64;

/// The bit pattern that stands for a double: negative zero is zero.
pub open spec fn canonical_bits(bits: u64) -> u64 {
    if bits == NEGATIVE_ZERO {
        0u64
    } else {
        bits
    }
}

pub open spec fn number_model(n: JsonNumber) -> NumberModel {
    match n {
        JsonNumber::PosInt(u) => NumberModel::Int(u as int),
        JsonNumber::NegInt(i) => NumberModel::Int(i as int),
        JsonNumber::Float(b) => NumberModel::Float(canonical_bits(b)),
    }
}

pub open spec fn items_model(items: Seq<JsonValue>) -> Seq<Json>
    decreases items, 0int,
{
    if items.len() == 0 {
        Seq::empty()
    } else {
        items_model(items.drop_last()).push(value_model(items.last()))
    }
}

pub open spec fn entries_model(entries: Seq<(String, JsonValue)>) -> Map<Seq<char>, Json>
    decreases entries, 0int,
{
    if entries.len() == 0 {
        Map::empty()
    } else {
        entries_model(entries.drop_last()).insert(
            entries.last().0@,
            value_model(entries.last().1),
        )
    }
}

pub open spec fn value_model(v: JsonValue) -> Json
    decreases v, 1int,
{
    match v {
        JsonValue::Null => Json::Null,
        JsonValue::Bool(b) => Json::Bool(b),
        JsonValue::Number(n) => Json::Number(number_model(n)),
        JsonValue::String(s) => Json::String(s@),
        JsonValue::Array(items) => Json::Array(items_model(items@)),
        JsonValue::Object(entries) => Json::Object(entries_model(entries@)),
    }
}

impl View for JsonValue {
    type V = Json;

    open spec fn view(&self) -> Json {
        value_model(*self)
    }
}

/// The field `key` of an object; `None` for a value that is no object or has
/// no such field.
pub open spec fn json_get(v: Json, key: Seq<char>) -> Option<Json> {
    match v {
        Json::Object(m) => if m.contains_key(key) {
            Some(m[key])
        } else {
            None
        },
        _ => None,
    }
}

/// The fields of an object; no fields for any other value.
pub open spec fn json_fields(v: Json) -> Map<Seq<char>, Json> {
    match v {
        Json::Object(m) => m,
        _ => Map::empty(),
    }
}

pub proof fn lemma_items_model(items: Seq<JsonValue>)
    ensures
        items_model(items).len() == items.len(),
        forall|i: int| 0 <= i < items.len() ==> #[trigger] items_model(items)[i] == value_model(items[i]),
    decreases items.len(),
{
    if items.len() > 0 {
        lemma_items_model(items.drop_last());
    }
}

/// The model of a list of entries is its table, each value by its model.
pub proof fn lemma_entries_table(entries: Seq<(String, JsonValue)>)
    ensures
        entries_model(entries) == table_model(entries, |v: JsonValue| value_model(v)),
    decreases entries.len(),
{
    if entries.len() > 0 {
        lemma_entries_table(entries.drop_last());
    }
}

/// Items that agree one by one in their models have the same model.
pub proof fn lemma_items_pointwise(a: Seq<JsonValue>, b: Seq<JsonValue>)
    requires
        a.len() == b.len(),
        forall|i: int| 0 <= i < a.len() ==> value_model(#[trigger] a[i]) == value_model(b[i]),
    ensures
        items_model(a) == items_model(b),
{
    lemma_items_model(a);
    lemma_items_model(b);
    assert(items_model(a) =~= items_model(b));
}

} // verus!
