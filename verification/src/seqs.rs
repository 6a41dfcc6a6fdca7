//! Searching sequences: the first element that satisfies a predicate.

use vstd::prelude::*;

use crate::text::str_equal;

verus! {

/// Index of the first element of `items` that satisfies `wanted`, if any.
pub open spec fn first_match<T>(items: Seq<T>, wanted: spec_fn(T) -> bool) -> Option<int>
    decreases items.len(),
{
    if items.len() == 0 {
        None
    } else if wanted(items[0]) {
        Some(0)
    } else {
        match first_match(items.drop_first(), wanted) {
            Some(index) => Some(index + 1),
            None => None,
        }
    }
}

/// `first_match` is `index` exactly when `items[index]` satisfies the predicate
/// and no earlier element does.
pub proof fn lemma_first_match_is<T>(items: Seq<T>, wanted: spec_fn(T) -> bool, index: int)
    requires
        0 <= index < items.len(),
        wanted(items[index]),
        forall|j: int| 0 <= j < index ==> !wanted(#[trigger] items[j]),
    ensures
        first_match(items, wanted) == Some(index),
    decreases items.len(),
{
    if index > 0 {
        let rest = items.drop_first();
        assert forall|j: int| 0 <= j < index - 1 implies !wanted(#[trigger] rest[j]) by {
            assert(rest[j] == items[j + 1]);
        }
        lemma_first_match_is(rest, wanted, index - 1);
    }
}

/// `first_match` is `None` exactly when no element satisfies the predicate.
pub proof fn lemma_first_match_none<T>(items: Seq<T>, wanted: spec_fn(T) -> bool)
    requires
        forall|j: int| 0 <= j < items.len() ==> !wanted(#[trigger] items[j]),
    ensures
        first_match(items, wanted) == None::<int>,
    decreases items.len(),
{
    if items.len() > 0 {
        let rest = items.drop_first();
        assert forall|j: int| 0 <= j < rest.len() implies !wanted(#[trigger] rest[j]) by {
            assert(rest[j] == items[j + 1]);
        }
        lemma_first_match_none(rest, wanted);
    }
}

/// What `first_match` returns: an in-bounds index whose element satisfies the
/// predicate and has no satisfying element before it.
pub proof fn lemma_first_match_facts<T>(items: Seq<T>, wanted: spec_fn(T) -> bool)
    ensures
        match first_match(items, wanted) {
            Some(index) => 0 <= index < items.len() && wanted(items[index]) && forall|j: int|
                0 <= j < index ==> !wanted(#[trigger] items[j]),
            None => forall|j: int| 0 <= j < items.len() ==> !wanted(#[trigger] items[j]),
        },
    decreases items.len(),
{
    if items.len() > 0 {
        let rest = items.drop_first();
        lemma_first_match_facts(rest, wanted);
        if !wanted(items[0]) {
            match first_match(rest, wanted) {
                Some(index) => {
                    assert forall|j: int| 0 <= j < index + 1 implies !wanted(#[trigger] items[j]) by {
                        if j > 0 {
                            assert(items[j] == rest[j - 1]);
                        }
                    }
                },
                None => {
                    assert forall|j: int| 0 <= j < items.len() implies !wanted(#[trigger] items[j]) by {
                        if j > 0 {
                            assert(items[j] == rest[j - 1]);
                        }
                    }
                },
            }
        }
    }
}

/// One more element of a prefix either extends its filtered sequence by that
/// element or leaves it as it was.
pub proof fn lemma_filter_take_step<T>(items: Seq<T>, wanted: spec_fn(T) -> bool, index: int)
    requires
        0 <= index < items.len(),
    ensures
        items.take(index + 1).filter(wanted) == (if wanted(items[index]) {
            items.take(index).filter(wanted).push(items[index])
        } else {
            items.take(index).filter(wanted)
        }),
{
    let longer = items.take(index + 1);
    assert(longer.drop_last() =~= items.take(index));
    assert(longer.last() == items[index]);
    reveal_with_fuel(Seq::filter, 1);
}

/// The whole of a sequence is its longest prefix.
pub proof fn lemma_take_all<T>(items: Seq<T>)
    ensures
        items.take(items.len() as int) == items,
{
    assert(items.take(items.len() as int) =~= items);
}

/// The characters of an optional stored string.
pub open spec fn text_of(stored: Option<String>) -> Option<Seq<char>> {
    match stored {
        Some(text) => Some(text@),
        None => None,
    }
}

/// The characters of an optional borrowed string.
pub open spec fn text_of_str(wanted: Option<&str>) -> Option<Seq<char>> {
    match wanted {
        Some(text) => Some(text@),
        None => None,
    }
}

/// Whether an optional stored string equals an optional borrowed one.
pub fn optional_text_equal(stored: &Option<String>, wanted: Option<&str>) -> (equal: bool)
    ensures
        equal == (text_of(*stored) == text_of_str(wanted)),
{
    match (stored, wanted) {
        (None, None) => true,
        (Some(text), Some(other)) => str_equal(text.as_str(), other),
        _ => false,
    }
}

} // verus!

verus! {

/// The predicate "the entry's key has the characters `key`".
pub open spec fn key_is<V>(key: Seq<char>) -> spec_fn((String, V)) -> bool {
    |entry: (String, V)| entry.0@ == key
}

/// Index of the first entry whose key has the characters `key`.
pub open spec fn key_position<V>(entries: Seq<(String, V)>, key: Seq<char>) -> Option<int> {
    first_match(entries, key_is(key))
}

/// The value stored under `key` in an association list (its first entry).
pub open spec fn value_at<V>(entries: Seq<(String, V)>, key: Seq<char>) -> Option<V> {
    match key_position(entries, key) {
        Some(index) => Some(entries[index].1),
        None => None,
    }
}

/// `entries` with `value` stored under `key`: the first entry with that key
/// keeps its key and takes the value; without one, the pair is appended.
pub open spec fn put_value<V>(entries: Seq<(String, V)>, key: String, value: V) -> Seq<(String, V)> {
    match key_position(entries, key@) {
        Some(index) => entries.update(index, (entries[index].0, value)),
        None => entries.push((key, value)),
    }
}

/// The value stored under `key`.
pub fn lookup_value<'a, V>(entries: &'a Vec<(String, V)>, key: &str) -> (found: Option<&'a V>)
    ensures
        match key_position(entries@, key@) {
            Some(index) => found matches Some(value) && *value == entries@[index].1,
            None => found is None,
        },
{
    let ghost wanted = key_is::<V>(key@);
    let mut index: usize = 0;
    while index < entries.len()
        invariant
            0 <= index <= entries.len(),
            wanted == key_is::<V>(key@),
            forall|j: int| 0 <= j < index ==> !wanted(#[trigger] entries@[j]),
        decreases entries.len() - index,
    {
        if str_equal(entries[index].0.as_str(), key) {
            proof {
                lemma_first_match_is(entries@, wanted, index as int);
            }
            return Some(&entries[index].1);
        }
        index = index + 1;
    }
    proof {
        lemma_first_match_none(entries@, wanted);
    }
    None
}

/// No two entries have keys with the same characters.
pub open spec fn distinct_entry_keys<V>(entries: Seq<(String, V)>) -> bool {
    forall|i: int, j: int| 0 <= i < j < entries.len() ==> entries[i].0@ != entries[j].0@
}

/// Storing a value by key keeps the keys distinct.
pub proof fn lemma_put_value_distinct<V>(entries: Seq<(String, V)>, key: String, value: V)
    requires
        distinct_entry_keys(entries),
    ensures
        distinct_entry_keys(put_value(entries, key, value)),
{
    lemma_first_match_facts(entries, key_is::<V>(key@));
    match key_position(entries, key@) {
        Some(index) => {
            let stored = put_value(entries, key, value);
            assert forall|i: int, j: int| 0 <= i < j < stored.len() implies stored[i].0@ != stored[j].0@ by {
                assert(stored[i].0 == entries[i].0 && stored[j].0 == entries[j].0);
            }
        },
        None => {
            let stored = put_value(entries, key, value);
            assert forall|i: int, j: int| 0 <= i < j < stored.len() implies stored[i].0@ != stored[j].0@ by {
                if j == entries.len() {
                    assert(!key_is::<V>(key@)(entries[i]));
                }
            }
        },
    }
}

/// Store `value` under `key`, replacing the value of an existing entry.
pub fn store_value<V>(entries: &mut Vec<(String, V)>, key: String, value: V)
    ensures
        final(entries)@ == put_value(old(entries)@, key, value),
{
    let ghost wanted = key_is::<V>(key@);
    let mut index: usize = 0;
    while index < entries.len()
        invariant
            0 <= index <= entries.len(),
            entries@ == old(entries)@,
            wanted == key_is::<V>(key@),
            forall|j: int| 0 <= j < index ==> !wanted(#[trigger] entries@[j]),
        decreases entries.len() - index,
    {
        if str_equal(entries[index].0.as_str(), key.as_str()) {
            proof {
                lemma_first_match_is(entries@, wanted, index as int);
            }
            let mut slot = (String::new(), value);
            std::mem::swap(&mut slot.0, &mut entries[index].0);
            entries.set(index, slot);
            return;
        }
        index = index + 1;
    }
    proof {
        lemma_first_match_none(entries@, wanted);
    }
    entries.push((key, value));
}

} // verus!

verus! {

/// One more element of a prefix either extends its mapped sequence or not.
pub proof fn lemma_filter_map_take_step<A, B>(items: Seq<A>, f: spec_fn(A) -> Option<B>, index: int)
    requires
        0 <= index < items.len(),
    ensures
        items.take(index + 1).filter_map(f) == (match f(items[index]) {
            Some(value) => items.take(index).filter_map(f) + seq![value],
            None => items.take(index).filter_map(f),
        }),
{
    let longer = items.take(index + 1);
    assert(longer.drop_last() =~= items.take(index));
    assert(longer.last() == items[index]);
}

/// Each entry with its value mapped by `f`, keys kept.
pub open spec fn map_entries<V, W>(entries: Seq<(String, V)>, f: spec_fn(V) -> W) -> Seq<(String, W)> {
    entries.map_values(|entry: (String, V)| (entry.0, f(entry.1)))
}

/// Mapping the values does not move any key.
pub proof fn lemma_key_position_map<V, W>(entries: Seq<(String, V)>, f: spec_fn(V) -> W, key: Seq<char>)
    ensures
        key_position(map_entries(entries, f), key) == key_position(entries, key),
{
    let mapped = map_entries(entries, f);
    let wanted_v = key_is::<V>(key);
    let wanted_w = key_is::<W>(key);
    lemma_first_match_facts(entries, wanted_v);
    assert forall|j: int| 0 <= j < entries.len() implies wanted_w(#[trigger] mapped[j]) == wanted_v(entries[j]) by {
        assert(mapped[j].0 == entries[j].0);
    }
    match first_match(entries, wanted_v) {
        Some(index) => {
            lemma_first_match_is(mapped, wanted_w, index);
        },
        None => {
            lemma_first_match_none(mapped, wanted_w);
        },
    }
}

/// Storing and then mapping is mapping and then storing the mapped value.
pub proof fn lemma_put_value_map<V, W>(entries: Seq<(String, V)>, f: spec_fn(V) -> W, key: String, value: V)
    ensures
        map_entries(put_value(entries, key, value), f) == put_value(map_entries(entries, f), key, f(value)),
{
    lemma_key_position_map(entries, f, key@);
    lemma_first_match_facts(entries, key_is::<V>(key@));
    assert(map_entries(put_value(entries, key, value), f) =~= put_value(map_entries(entries, f), key, f(value)));
}

/// A fresh list holding the same strings.
pub fn copy_strings(items: &Vec<String>) -> (copy: Vec<String>)
    ensures
        copy@ == items@,
{
    let mut copy: Vec<String> = Vec::new();
    let mut index: usize = 0;
    while index < items.len()
        invariant
            0 <= index <= items.len(),
            copy@ == items@.take(index as int),
        decreases items.len() - index,
    {
        copy.push(items[index].clone());
        index = index + 1;
        proof {
            assert(copy@ =~= items@.take(index as int));
        }
    }
    proof {
        lemma_take_all(items@);
    }
    copy
}

} // verus!

verus! {

/// The keys of an association list, as characters.
pub open spec fn key_texts<V>(entries: Seq<(String, V)>) -> Seq<Seq<char>> {
    entries.map_values(|entry: (String, V)| entry.0@)
}

/// Mapping the values leaves the keys as they were.
pub proof fn lemma_key_texts_map<V, W>(entries: Seq<(String, V)>, f: spec_fn(V) -> W)
    ensures
        key_texts(map_entries(entries, f)) == key_texts(entries),
{
    assert(key_texts(map_entries(entries, f)) =~= key_texts(entries));
}

/// The sequences of `parts` one after another.
pub open spec fn concat_all<T>(parts: Seq<Seq<T>>) -> Seq<T>
    decreases parts.len(),
{
    if parts.len() == 0 {
        Seq::empty()
    } else {
        concat_all(parts.drop_last()) + parts.last()
    }
}

/// One step of `concat_all` over a growing prefix.
pub proof fn lemma_concat_all_step<T>(parts: Seq<Seq<T>>, index: int)
    requires
        0 <= index < parts.len(),
    ensures
        concat_all(parts.take(index + 1)) == concat_all(parts.take(index)) + parts[index],
{
    assert(parts.take(index + 1).drop_last() =~= parts.take(index));
}

/// The values behind a list of references.
pub open spec fn deref_all<T>(items: Seq<&T>) -> Seq<T> {
    items.map_values(|item: &T| *item)
}

} // verus!
