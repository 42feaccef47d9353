//! Reading and writing the fields of a JSON object.

use vstd::prelude::*;
use crate::table::{
    find_key, lemma_table_keys, lemma_table_last, lemma_table_push, lemma_table_update,
};
use crate::value::{entries_model, json_fields, json_get, lemma_entries_table, value_model, JsonValue};

verus! {

/// The field `key` of `value`, where `value` is an object that has it.
pub fn get_field<'a>(value: &'a JsonValue, key: &str) -> (r: Option<&'a JsonValue>)
    ensures
        match r {
            Some(field) => json_get(value@, key@) == Some(field@),
            None => json_get(value@, key@) is None,
        },
{
    match value {
        JsonValue::Object(entries) => {
            proof {
                lemma_entries_table(entries@);
                lemma_table_keys(entries@, |v: JsonValue| value_model(v), key@);
            }
            match find_key(entries, key) {
                Some(i) => {
                    proof {
                        lemma_table_last(entries@, |v: JsonValue| value_model(v), key@, i as int);
                    }
                    Some(&entries[i].1)
                },
                None => None,
            }
        },
        _ => None,
    }
}

/// Sets the field `key` to `value`: an entry with that key is replaced, and
/// otherwise a new entry is added at the end.
pub fn set_field(entries: &mut Vec<(String, JsonValue)>, key: String, value: JsonValue)
    ensures
        entries_model(final(entries)@) == entries_model(old(entries)@).insert(key@, value@),
{
    proof {
        lemma_entries_table(entries@);
    }
    match find_key(entries, key.as_str()) {
        Some(i) => {
            proof {
                lemma_table_update(entries@, |v: JsonValue| value_model(v), i as int, (key, value));
            }
            entries.set(i, (key, value));
        },
        None => {
            proof {
                lemma_table_push(entries@, |v: JsonValue| value_model(v), (key, value));
            }
            entries.push((key, value));
        },
    }
    proof {
        lemma_entries_table(entries@);
    }
}

/// The entries of `value` where it is an object, and no entries otherwise.
pub fn into_entries(value: JsonValue) -> (r: Vec<(String, JsonValue)>)
    ensures
        entries_model(r@) == json_fields(value@),
{
    match value {
        JsonValue::Object(entries) => entries,
        _ => Vec::new(),
    }
}

} // verus!
