//! Tables keyed by text: lists of named entries in which the last entry of a
//! name is the one that counts.

use vstd::prelude::*;

verus! {

/// `==` on `str`, which is not proved here: two texts are equal exactly when
/// they hold the same characters.
pub assume_specification[ <str as PartialEq>::eq ](a: &str, b: &str) -> (r: bool)
    ensures
        r == (a@ == b@),
;

/// Whether two texts are the same.
pub fn same_text(a: &str, b: &str) -> (r: bool)
    ensures
        r == (a@ == b@),
{
    <str as PartialEq>::eq(a, b)
}

/// Some entry has the key `key`.
pub open spec fn has_key<T>(entries: Seq<(String, T)>, key: Seq<char>) -> bool {
    exists|i: int| 0 <= i < entries.len() && (#[trigger] entries[i]).0@ == key
}

/// `i` is the last entry of `entries` with the key `key`.
pub open spec fn is_last_key<T>(entries: Seq<(String, T)>, key: Seq<char>, i: int) -> bool {
    &&& 0 <= i < entries.len()
    &&& entries[i].0@ == key
    &&& forall|j: int| i < j < entries.len() ==> (#[trigger] entries[j]).0@ != key
}

/// The map from each key to the model of its last entry.
pub open spec fn table_model<T, M>(entries: Seq<(String, T)>, f: spec_fn(T) -> M) -> Map<Seq<char>, M>
    decreases entries.len(),
{
    if entries.len() == 0 {
        Map::empty()
    } else {
        table_model(entries.drop_last(), f).insert(entries.last().0@, f(entries.last().1))
    }
}

/// A key is in the model exactly when some entry has it.
pub proof fn lemma_table_keys<T, M>(entries: Seq<(String, T)>, f: spec_fn(T) -> M, key: Seq<char>)
    ensures
        table_model(entries, f).contains_key(key) <==> has_key(entries, key),
    decreases entries.len(),
{
    if entries.len() > 0 {
        let rest = entries.drop_last();
        lemma_table_keys(rest, f, key);
        if table_model(entries, f).contains_key(key) {
            if entries.last().0@ == key {
                assert(entries[entries.len() - 1].0@ == key);
            } else {
                let i = choose|i: int| 0 <= i < rest.len() && (#[trigger] rest[i]).0@ == key;
                assert(entries[i].0@ == key);
            }
        }
        if has_key(entries, key) {
            let i = choose|i: int| 0 <= i < entries.len() && (#[trigger] entries[i]).0@ == key;
            if i < rest.len() {
                assert(rest[i].0@ == key);
            }
        }
    }
}

/// The model maps a key to the model of the last entry that has it.
pub proof fn lemma_table_last<T, M>(
    entries: Seq<(String, T)>,
    f: spec_fn(T) -> M,
    key: Seq<char>,
    i: int,
)
    requires
        is_last_key(entries, key, i),
    ensures
        table_model(entries, f).contains_key(key),
        table_model(entries, f)[key] == f(entries[i].1),
    decreases entries.len(),
{
    let rest = entries.drop_last();
    if i != entries.len() - 1 {
        assert(entries[entries.len() - 1].0@ != key);
        assert forall|j: int| i < j < rest.len() implies (#[trigger] rest[j]).0@ != key by {
            assert(entries[j].0@ != key);
        }
        lemma_table_last(rest, f, key, i);
    }
}

/// Entries that agree one by one, in keys and in models, have the same model.
pub proof fn lemma_table_pointwise<T, M>(
    a: Seq<(String, T)>,
    b: Seq<(String, T)>,
    f: spec_fn(T) -> M,
)
    requires
        a.len() == b.len(),
        forall|i: int| 0 <= i < a.len() ==> (#[trigger] a[i]).0@ == b[i].0@,
        forall|i: int| 0 <= i < a.len() ==> f((#[trigger] a[i]).1) == f(b[i].1),
    ensures
        table_model(a, f) == table_model(b, f),
    decreases a.len(),
{
    if a.len() > 0 {
        let ra = a.drop_last();
        let rb = b.drop_last();
        assert forall|i: int| 0 <= i < ra.len() implies (#[trigger] ra[i]).0@ == rb[i].0@ by {
            assert(a[i].0@ == b[i].0@);
        }
        assert forall|i: int| 0 <= i < ra.len() implies f((#[trigger] ra[i]).1) == f(rb[i].1) by {
            assert(f(a[i].1) == f(b[i].1));
        }
        lemma_table_pointwise(ra, rb, f);
        assert(a[a.len() - 1].0@ == b[a.len() - 1].0@);
        assert(f(a[a.len() - 1].1) == f(b[a.len() - 1].1));
    }
}

/// Replacing the last entry of a key changes the model at that key alone.
pub proof fn lemma_table_update<T, M>(
    entries: Seq<(String, T)>,
    f: spec_fn(T) -> M,
    i: int,
    entry: (String, T),
)
    requires
        is_last_key(entries, entry.0@, i),
    ensures
        table_model(entries.update(i, entry), f) == table_model(entries, f).insert(
            entry.0@,
            f(entry.1),
        ),
    decreases entries.len(),
{
    let key = entry.0@;
    let rest = entries.drop_last();
    let updated = entries.update(i, entry);
    if i == entries.len() - 1 {
        assert(updated.drop_last() =~= rest);
        assert(table_model(updated, f) =~= table_model(entries, f).insert(key, f(entry.1)));
    } else {
        assert(entries[entries.len() - 1].0@ != key);
        assert forall|j: int| i < j < rest.len() implies (#[trigger] rest[j]).0@ != key by {
            assert(entries[j].0@ != key);
        }
        lemma_table_update(rest, f, i, entry);
        assert(updated.drop_last() =~= rest.update(i, entry));
        assert(updated.last() == entries.last());
        assert(table_model(updated, f) =~= table_model(entries, f).insert(key, f(entry.1)));
    }
}

/// A key that some entry has is the key of a last entry.
pub proof fn lemma_last_exists<T>(entries: Seq<(String, T)>, key: Seq<char>)
    requires
        has_key(entries, key),
    ensures
        exists|i: int| is_last_key(entries, key, i),
    decreases entries.len(),
{
    let n = entries.len() - 1;
    if entries[n].0@ == key {
        assert(is_last_key(entries, key, n));
    } else {
        let rest = entries.drop_last();
        let w = choose|i: int| 0 <= i < entries.len() && (#[trigger] entries[i]).0@ == key;
        assert(rest[w].0@ == key);
        lemma_last_exists(rest, key);
        let i = choose|i: int| is_last_key(rest, key, i);
        assert forall|j: int| i < j < entries.len() implies (#[trigger] entries[j]).0@ != key by {
            if j < n {
                assert(rest[j].0@ != key);
            }
        }
        assert(is_last_key(entries, key, i));
    }
}

/// Adding an entry at the end sets its key in the model.
pub proof fn lemma_table_push<T, M>(entries: Seq<(String, T)>, f: spec_fn(T) -> M, entry: (String, T))
    ensures
        table_model(entries.push(entry), f) == table_model(entries, f).insert(entry.0@, f(entry.1)),
{
    assert(entries.push(entry).drop_last() =~= entries);
}

/// The index of the last entry with the key `key`.
pub fn find_key<T>(entries: &Vec<(String, T)>, key: &str) -> (r: Option<usize>)
    ensures
        match r {
            Some(i) => is_last_key(entries@, key@, i as int),
            None => !has_key(entries@, key@),
        },
{
    let mut i: usize = entries.len();
    while i > 0
        invariant
            i <= entries.len(),
            forall|j: int| i <= j < entries.len() ==> (#[trigger] entries@[j]).0@ != key@,
        decreases i,
    {
        i -= 1;
        if same_text(entries[i].0.as_str(), key) {
            return Some(i);
        }
    }
    None
}

/// `after` is `before` with the key `key` set to `value`: the last entry of
/// the key replaced, or a new entry added at the end.
pub open spec fn is_set<T>(before: Seq<(String, T)>, after: Seq<(String, T)>, key: String, value: T) -> bool {
    ||| exists|i: int| #[trigger] is_last_key(before, key@, i) && after == before.update(i, (key, value))
    ||| !has_key(before, key@) && after == before.push((key, value))
}

/// Setting a key sets it in the model, and changes nothing else.
pub proof fn lemma_table_set<T, M>(
    before: Seq<(String, T)>,
    after: Seq<(String, T)>,
    f: spec_fn(T) -> M,
    key: String,
    value: T,
)
    requires
        is_set(before, after, key, value),
    ensures
        table_model(after, f) == table_model(before, f).insert(key@, f(value)),
{
    if !has_key(before, key@) && after == before.push((key, value)) {
        lemma_table_push(before, f, (key, value));
    } else {
        let i = choose|i: int| #[trigger] is_last_key(before, key@, i) && after == before.update(i, (key, value));
        lemma_table_update(before, f, i, (key, value));
    }
}

/// Sets the key `key` to `value`.
pub fn table_set<T>(entries: &mut Vec<(String, T)>, key: String, value: T)
    ensures
        is_set(old(entries)@, final(entries)@, key, value),
{
    match find_key(entries, key.as_str()) {
        Some(i) => {
            assert(is_last_key(entries@, key@, i as int));
            entries.set(i, (key, value));
        },
        None => {
            entries.push((key, value));
        },
    }
}

} // verus!
