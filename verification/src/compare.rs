//! Copying JSON values and comparing them by structure.

use vstd::prelude::*;
use crate::number::{clone_number, numbers_equal};
use crate::table::{find_key, lemma_table_keys, lemma_table_last, lemma_table_pointwise, same_text};
use crate::value::{
    entries_model, items_model, lemma_entries_table, lemma_items_model, lemma_items_pointwise,
    value_model, Json, JsonValue,
};

verus! {

/// A copy of `value`.
pub fn clone_value(value: &JsonValue) -> (r: JsonValue)
    ensures
        r@ == value@,
    decreases value,
{
    match value {
        JsonValue::Null => JsonValue::Null,
        JsonValue::Bool(b) => JsonValue::Bool(*b),
        JsonValue::Number(n) => JsonValue::Number(clone_number(n)),
        JsonValue::String(s) => JsonValue::String(s.clone()),
        JsonValue::Array(items) => {
            let mut out: Vec<JsonValue> = Vec::new();
            let mut i: usize = 0;
            while i < items.len()
                invariant
                    *value == JsonValue::Array(*items),
                    i <= items.len(),
                    out.len() == i,
                    forall|j: int| 0 <= j < i ==> value_model(#[trigger] out@[j]) == value_model(items@[j]),
                decreases items.len() - i,
            {
                proof {
                    assert(value->Array_0 == *items);
                    assert(decreases_to!(*value => value->Array_0));
                }
                out.push(clone_value(&items[i]));
                i += 1;
            }
            proof {
                lemma_items_pointwise(out@, items@);
            }
            JsonValue::Array(out)
        },
        JsonValue::Object(entries) => {
            let mut out: Vec<(String, JsonValue)> = Vec::new();
            let mut i: usize = 0;
            while i < entries.len()
                invariant
                    *value == JsonValue::Object(*entries),
                    i <= entries.len(),
                    out.len() == i,
                    forall|j: int| 0 <= j < i ==> (#[trigger] out@[j]).0@ == entries@[j].0@,
                    forall|j: int| 0 <= j < i ==> value_model((#[trigger] out@[j]).1) == value_model(entries@[j].1),
                decreases entries.len() - i,
            {
                proof {
                    assert(value->Object_0 == *entries);
                    assert(decreases_to!(*value => value->Object_0));
                }
                out.push((entries[i].0.clone(), clone_value(&entries[i].1)));
                i += 1;
            }
            proof {
                lemma_entries_table(out@);
                lemma_entries_table(entries@);
                lemma_table_pointwise(out@, entries@, |v: JsonValue| value_model(v));
            }
            JsonValue::Object(out)
        },
    }
}

/// Every field of `a` is a field of `b`, with the same value.
pub open spec fn fields_within(a: Map<Seq<char>, Json>, b: Map<Seq<char>, Json>) -> bool {
    forall|k: Seq<char>| #[trigger] a.contains_key(k) ==> b.contains_key(k) && a[k] == b[k]
}

/// Every key of `a` is a key of `b`.
pub open spec fn keys_among(a: Map<Seq<char>, Json>, b: Map<Seq<char>, Json>) -> bool {
    forall|k: Seq<char>| #[trigger] a.contains_key(k) ==> b.contains_key(k)
}

/// Whether every entry of `a` has, in `b`, an entry of its key with the same
/// value; an entry that a later one of its key overrides is held to that
/// later one.
fn entries_within(whole: &JsonValue, a: &Vec<(String, JsonValue)>, b: &Vec<(String, JsonValue)>) -> (r:
    bool)
    requires
        *whole == JsonValue::Object(*a),
    ensures
        r == fields_within(entries_model(a@), entries_model(b@)),
    decreases whole, 0int,
{
    let mut i: usize = 0;
    while i < a.len()
        invariant
            *whole == JsonValue::Object(*a),
            i <= a.len(),
            forall|j: int|
                0 <= j < i ==> {
                    &&& entries_model(b@).contains_key((#[trigger] a@[j]).0@)
                    &&& entries_model(a@).contains_key(a@[j].0@)
                    &&& entries_model(b@)[a@[j].0@] == entries_model(a@)[a@[j].0@]
                },
        decreases a.len() - i,
    {
        let key = a[i].0.as_str();
        proof {
            lemma_entries_table(a@);
            lemma_entries_table(b@);
            lemma_table_keys(a@, |v: JsonValue| value_model(v), key@);
            lemma_table_keys(b@, |v: JsonValue| value_model(v), key@);
        }
        match (find_key(a, key), find_key(b, key)) {
            (Some(ia), Some(ib)) => {
                proof {
                    lemma_table_last(a@, |v: JsonValue| value_model(v), key@, ia as int);
                    lemma_table_last(b@, |v: JsonValue| value_model(v), key@, ib as int);
                    assert(whole->Object_0 == *a);
                    assert(decreases_to!(*whole => whole->Object_0));
                }
                if !values_equal(&a[ia].1, &b[ib].1) {
                    return false;
                }
            },
            _ => {
                return false;
            },
        }
        i += 1;
    }
    proof {
        let ma = entries_model(a@);
        let mb = entries_model(b@);
        assert forall|k: Seq<char>| #[trigger] ma.contains_key(k) implies mb.contains_key(k) && ma[k]
            == mb[k] by {
            lemma_entries_table(a@);
            lemma_table_keys(a@, |v: JsonValue| value_model(v), k);
            let j = choose|j: int| 0 <= j < a@.len() && (#[trigger] a@[j]).0@ == k;
            assert(entries_model(b@).contains_key(a@[j].0@));
        }
    }
    true
}

/// Whether two values are the same by structure: scalars by value, arrays
/// item by item, objects field by field whatever the order of their entries.
pub fn values_equal(a: &JsonValue, b: &JsonValue) -> (r: bool)
    ensures
        r == (a@ == b@),
    decreases a, 1int,
{
    match (a, b) {
        (JsonValue::Null, JsonValue::Null) => true,
        (JsonValue::Bool(x), JsonValue::Bool(y)) => *x == *y,
        (JsonValue::Number(x), JsonValue::Number(y)) => numbers_equal(x, y),
        (JsonValue::String(x), JsonValue::String(y)) => same_text(x.as_str(), y.as_str()),
        (JsonValue::Array(x), JsonValue::Array(y)) => {
            proof {
                lemma_items_model(x@);
                lemma_items_model(y@);
            }
            if x.len() != y.len() {
                return false;
            }
            let mut i: usize = 0;
            while i < x.len()
                invariant
                    *a == JsonValue::Array(*x),
                    *b == JsonValue::Array(*y),
                    x.len() == y.len(),
                    i <= x.len(),
                    forall|j: int| 0 <= j < i ==> value_model(#[trigger] x@[j]) == value_model(y@[j]),
                decreases x.len() - i,
            {
                proof {
                    assert(a->Array_0 == *x);
                    assert(decreases_to!(*a => a->Array_0));
                    lemma_items_model(x@);
                    lemma_items_model(y@);
                }
                if !values_equal(&x[i], &y[i]) {
                    assert(items_model(x@)[i as int] != items_model(y@)[i as int]);
                    return false;
                }
                i += 1;
            }
            proof {
                lemma_items_pointwise(x@, y@);
            }
            true
        },
        (JsonValue::Object(x), JsonValue::Object(y)) => {
            let forth = entries_within(a, x, y);
            let back = keys_within(y, x);
            proof {
                let ma = entries_model(x@);
                let mb = entries_model(y@);
                if forth && back {
                    assert(ma =~= mb);
                }
            }
            forth && back
        },
        _ => false,
    }
}

/// Whether every key of `a` is a key of `b`.
fn keys_within(a: &Vec<(String, JsonValue)>, b: &Vec<(String, JsonValue)>) -> (r: bool)
    ensures
        r == keys_among(entries_model(a@), entries_model(b@)),
{
    let mut i: usize = 0;
    while i < a.len()
        invariant
            i <= a.len(),
            forall|j: int| 0 <= j < i ==> entries_model(b@).contains_key((#[trigger] a@[j]).0@),
        decreases a.len() - i,
    {
        proof {
            lemma_entries_table(a@);
            lemma_entries_table(b@);
            lemma_table_keys(a@, |v: JsonValue| value_model(v), a@[i as int].0@);
            lemma_table_keys(b@, |v: JsonValue| value_model(v), a@[i as int].0@);
        }
        if find_key(b, a[i].0.as_str()).is_none() {
            return false;
        }
        i += 1;
    }
    proof {
        let ma = entries_model(a@);
        let mb = entries_model(b@);
        assert forall|k: Seq<char>| #[trigger] ma.contains_key(k) implies mb.contains_key(k) by {
            lemma_entries_table(a@);
            lemma_table_keys(a@, |v: JsonValue| value_model(v), k);
            let j = choose|j: int| 0 <= j < a@.len() && (#[trigger] a@[j]).0@ == k;
            assert(entries_model(b@).contains_key(a@[j].0@));
        }
    }
    true
}

} // verus!
