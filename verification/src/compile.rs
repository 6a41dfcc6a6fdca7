//! Compiling definition files into a catalog: each file's YAML is parsed,
//! the files are merged in a fixed dependency order, the merged document is
//! checked against the grammar's JSON Schema, and the typed document is
//! expanded, checked and lowered into the catalog.

use vstd::prelude::*;

use crate::dtos::document::{RawCodexCatalog, RawCodexDocument};
use crate::error::{CodexError, DriverError, LaxError, LaxErrorView};
use crate::seqs::{first_match, key_is, key_position, lemma_first_match_facts, lemma_first_match_is, lemma_first_match_none};
use crate::text::{
    joined,
    joined3,
    joined5,
    owned,
    sorted_distinct,
    sorted_texts,
    lemma_sorted_texts,
    str_equal,
};

verus! {

/// The definition file every aggregate's types and extensions come from.
pub const SHARED_DEFINITION: &'static str = "shared";

/// The definition file of an aggregate's base table and view.
pub const ROOT_DEFINITION: &'static str = "root";

/// The definition file of views across an aggregate's entities.
pub const HISTORY_DEFINITION: &'static str = "history";

/// Merge-order bucket of a definition file: shared types first, then
/// aggregate roots, then everything else, then cross-entity history views.
#[derive(Debug, Clone, Copy, PartialEq, Eq, Structural)]
pub enum DefinitionRank {
    Shared,
    Root,
    Other,
    History,
}

/// The part of a name after its last `/` (the whole name when it has none).
pub open spec fn last_segment(name: Seq<char>) -> Seq<char>
    decreases name.len(),
{
    if name.len() == 0 || name.last() == '/' {
        Seq::empty()
    } else {
        last_segment(name.drop_last()).push(name.last())
    }
}

/// The rank of a definition file, by the last segment of its name.
pub open spec fn rank_of(name: Seq<char>) -> DefinitionRank {
    let stem = last_segment(name);
    if stem == SHARED_DEFINITION@ {
        DefinitionRank::Shared
    } else if stem == ROOT_DEFINITION@ {
        DefinitionRank::Root
    } else if stem == HISTORY_DEFINITION@ {
        DefinitionRank::History
    } else {
        DefinitionRank::Other
    }
}

/// Where the last segment of a name starts.
proof fn lemma_last_segment(name: Seq<char>, start: int)
    requires
        0 <= start <= name.len(),
        start == 0 || name[start - 1] == '/',
        forall|i: int| start <= i < name.len() ==> name[i] != '/',
    ensures
        last_segment(name) == name.subrange(start, name.len() as int),
    decreases name.len(),
{
    if name.len() > start {
        lemma_last_segment(name.drop_last(), start);
        assert(name.drop_last().subrange(start, name.len() - 1).push(name.last()) =~= name.subrange(
            start,
            name.len() as int,
        ));
    } else if name.len() > 0 {
        assert(name.last() == '/');
    }
}

/// The merge-order bucket of a definition file.
pub fn definition_rank(name: &str) -> (rank: DefinitionRank)
    ensures
        rank == rank_of(name@),
{
    let length = name.unicode_len();
    let mut start = length;
    while start > 0 && name.get_char(start - 1) != '/'
        invariant
            0 <= start <= length,
            length == name@.len(),
            forall|i: int| start <= i < length ==> name@[i] != '/',
        decreases start,
    {
        start = start - 1;
    }
    proof {
        lemma_last_segment(name@, start as int);
    }
    let stem = name.substring_char(start, length);
    if str_equal(stem, SHARED_DEFINITION) {
        DefinitionRank::Shared
    } else if str_equal(stem, ROOT_DEFINITION) {
        DefinitionRank::Root
    } else if str_equal(stem, HISTORY_DEFINITION) {
        DefinitionRank::History
    } else {
        DefinitionRank::Other
    }
}

/// The names of one rank.
pub open spec fn names_with_rank(names: Set<Seq<char>>, rank: DefinitionRank) -> Set<Seq<char>> {
    names.filter(has_rank(rank))
}

/// "The name has rank `rank`."
pub open spec fn has_rank(rank: DefinitionRank) -> spec_fn(Seq<char>) -> bool {
    |name: Seq<char>| rank_of(name) == rank
}

/// The order definition files are merged in: shared, then roots, then the
/// others, then histories, each bucket in the order of its names. It depends
/// on the set of names alone, never on the order the files came in.
pub open spec fn merge_order(names: Set<Seq<char>>) -> Seq<Seq<char>> {
    sorted_texts(names_with_rank(names, DefinitionRank::Shared)) + sorted_texts(
        names_with_rank(names, DefinitionRank::Root),
    ) + sorted_texts(names_with_rank(names, DefinitionRank::Other)) + sorted_texts(
        names_with_rank(names, DefinitionRank::History),
    )
}

// ── reading a definition file ──────────────────────────────────────────────

/// The top-level keys whose arrays are concatenated across files.
pub open spec fn array_keys() -> Seq<Seq<char>> {
    seq!["tables"@, "views"@, "types"@, "extensions"@, "sequences"@, "indexes"@]
}

/// How many array keys there are.
pub const ARRAY_KEY_COUNT: usize = 6;

/// The top-level key of the shared partial column sets.
pub const PARTIALS_KEY: &'static str = "x_partials";

/// The array key at `index`.
pub fn array_key(index: usize) -> (key: &'static str)
    requires
        index < ARRAY_KEY_COUNT,
    ensures
        key@ == array_keys()[index as int],
{
    match index {
        0 => "tables",
        1 => "views",
        2 => "types",
        3 => "extensions",
        4 => "sequences",
        _ => "indexes",
    }
}

/// The array keys differ from one another and from the partials key.
proof fn lemma_top_keys_distinct()
    ensures
        forall|a: int, b: int|
            0 <= a < ARRAY_KEY_COUNT && 0 <= b < ARRAY_KEY_COUNT && a != b ==> #[trigger] array_keys()[a]
                != #[trigger] array_keys()[b],
        forall|a: int| 0 <= a < ARRAY_KEY_COUNT ==> #[trigger] array_keys()[a] != PARTIALS_KEY@,
{
    reveal_strlit("tables");
    reveal_strlit("views");
    reveal_strlit("types");
    reveal_strlit("extensions");
    reveal_strlit("sequences");
    reveal_strlit("indexes");
    reveal_strlit("x_partials");
    let keys = array_keys();
    assert(keys[0].len() == 6 && keys[1].len() == 5 && keys[2].len() == 5);
    assert(keys[3].len() == 10 && keys[4].len() == 9 && keys[5].len() == 7);
    assert(PARTIALS_KEY@.len() == 10);
    assert(keys[1][0] != keys[2][0]);
    assert(keys[3][0] != PARTIALS_KEY@[0]);
    assert forall|a: int, b: int|
        0 <= a < ARRAY_KEY_COUNT && 0 <= b < ARRAY_KEY_COUNT && a != b implies #[trigger] keys[a]
            != #[trigger] keys[b] by {
        if keys[a] == keys[b] {
            assert(keys[a].len() == keys[b].len());
            if (a == 1 && b == 2) || (a == 2 && b == 1) {
                assert(keys[a][0] == keys[b][0]);
            }
        }
    }
    assert forall|a: int| 0 <= a < ARRAY_KEY_COUNT implies #[trigger] keys[a] != PARTIALS_KEY@ by {
        if keys[a] == PARTIALS_KEY@ {
            assert(keys[a].len() == 10);
            assert(keys[a][0] == PARTIALS_KEY@[0]);
        }
    }
}

/// The entries of a JSON object, each key with its value, in the order its
/// map walks them; `None` for a value that is not an object. A function of the
/// value alone.
pub uninterp spec fn json_object_entries(value: serde_json::Value) -> Option<
    Seq<(Seq<char>, serde_json::Value)>,
>;

/// The items of a JSON array, in order; `None` for a value that is not an
/// array. A function of the value alone.
pub uninterp spec fn json_array_items(value: serde_json::Value) -> Option<Seq<serde_json::Value>>;

/// Wraps `serde_json::Value::as_object`: the entries of a JSON object, each
/// key with a copy of its value, in the map's order; `None` for any other
/// value. The copies are the same values (the derived clone copies the tree).
#[verifier::external_body]
fn object_entries(value: &serde_json::Value) -> (entries: Option<Vec<(String, serde_json::Value)>>)
    ensures
        match json_object_entries(*value) {
            None => entries is None,
            Some(found) => entries matches Some(list) && entries_view(list@) == found && distinct_keys(found),
        },
{
    value.as_object().map(|object| object.iter().map(|(key, item)| (key.clone(), item.clone())).collect())
}

/// Wraps `serde_json::Value::as_array`: copies of the items of a JSON array;
/// `None` for any other value.
#[verifier::external_body]
fn array_items(value: &serde_json::Value) -> (items: Option<Vec<serde_json::Value>>)
    ensures
        match json_array_items(*value) {
            None => items is None,
            Some(found) => items matches Some(list) && list@ == found,
        },
{
    value.as_array().cloned()
}

/// The JSON array of these items; a function of the items alone.
pub uninterp spec fn json_array_value(items: Seq<serde_json::Value>) -> serde_json::Value;

/// The JSON object collected from these entries; a function of the entries
/// alone.
pub uninterp spec fn json_object_value(entries: Seq<(Seq<char>, serde_json::Value)>) -> serde_json::Value;

/// Wraps `serde_json::Value::Array`: the array of these items.
#[verifier::external_body]
fn json_array(items: Vec<serde_json::Value>) -> (value: serde_json::Value)
    ensures
        value == json_array_value(items@),
        json_array_items(value) == Some(items@),
        json_object_entries(value) is None,
{
    serde_json::Value::Array(items)
}

/// `object` is the object collected from `entries`, which name no key twice:
/// each key of the entries once, with the value of its entry, and no other key.
pub open spec fn object_of(
    object: Seq<(Seq<char>, serde_json::Value)>,
    entries: Seq<(Seq<char>, serde_json::Value)>,
) -> bool {
    &&& distinct_keys(object)
    &&& forall|key: Seq<char>| has_key(object, key) == has_key(entries, key)
    &&& forall|i: int| 0 <= i < object.len() ==> Some((#[trigger] object[i]).1) == member(entries, object[i].0)
}

/// Wraps `serde_json::Value::Object` over a map collected from entries that
/// name no key twice: the map holds each key with the value of its entry. The
/// order the map walks its keys is not stated.
#[verifier::external_body]
fn json_object(entries: Vec<(String, serde_json::Value)>) -> (value: serde_json::Value)
    requires
        distinct_keys(entries_view(entries@)),
    ensures
        value == json_object_value(entries_view(entries@)),
        json_array_items(value) is None,
        match json_object_entries(value) {
            Some(object) => object_of(object, entries_view(entries@)),
            None => false,
        },
{
    serde_json::Value::Object(entries.into_iter().collect())
}

/// What the merge reads of one parsed definition file.
#[derive(Debug)]
pub struct DefinitionFile {
    pub name: String,
    /// Whether the file's top level is a map.
    pub is_map: bool,
    /// The items under each array key, in `array_keys` order (none when the
    /// key is absent or not an array).
    pub arrays: Vec<Vec<serde_json::Value>>,
    /// The entries of `x_partials` (none when it is absent or not a map).
    pub partials: Vec<(String, serde_json::Value)>,
}

/// The items under each array key.
pub open spec fn arrays_view(arrays: Seq<Vec<serde_json::Value>>) -> Seq<Seq<serde_json::Value>> {
    arrays.map_values(|items: Vec<serde_json::Value>| items@)
}

/// Entries with their keys read as characters.
pub open spec fn entries_view(entries: Seq<(String, serde_json::Value)>) -> Seq<(Seq<char>, serde_json::Value)> {
    entries.map_values(|entry: (String, serde_json::Value)| (entry.0@, entry.1))
}

/// A definition file holds one item list per array key.
pub open spec fn file_ok(file: DefinitionFile) -> bool {
    file.arrays@.len() == ARRAY_KEY_COUNT
}

/// "The entry's key is `key`."
pub open spec fn entry_key_is(key: Seq<char>) -> spec_fn((Seq<char>, serde_json::Value)) -> bool {
    |entry: (Seq<char>, serde_json::Value)| entry.0 == key
}

/// The value of the first entry with key `key`, if any.
pub open spec fn member(entries: Seq<(Seq<char>, serde_json::Value)>, key: Seq<char>) -> Option<serde_json::Value> {
    match first_match(entries, entry_key_is(key)) {
        Some(index) => Some(entries[index].1),
        None => None,
    }
}

/// The items under `key` of a top-level map: none when the key is absent or
/// its value is not an array.
pub open spec fn document_array(entries: Seq<(Seq<char>, serde_json::Value)>, key: Seq<char>) -> Seq<
    serde_json::Value,
> {
    match member(entries, key) {
        Some(value) => match json_array_items(value) {
            Some(items) => items,
            None => Seq::empty(),
        },
        None => Seq::empty(),
    }
}

/// The items under each array key of a document (none for a document that is
/// not a map).
pub open spec fn document_arrays(document: serde_json::Value) -> Seq<Seq<serde_json::Value>> {
    Seq::new(
        ARRAY_KEY_COUNT as nat,
        |index: int|
            match json_object_entries(document) {
                Some(entries) => document_array(entries, array_keys()[index]),
                None => Seq::empty(),
            },
    )
}

/// The entries of a document's `x_partials` map: none when the document is
/// not a map, the key is absent or its value is not a map.
pub open spec fn document_partials(document: serde_json::Value) -> Seq<(Seq<char>, serde_json::Value)> {
    match json_object_entries(document) {
        Some(entries) => match member(entries, PARTIALS_KEY@) {
            Some(value) => match json_object_entries(value) {
                Some(partials) => partials,
                None => Seq::empty(),
            },
            None => Seq::empty(),
        },
        None => Seq::empty(),
    }
}

/// `file` is what the merge reads of the document `document` named `name`.
pub open spec fn reads_document(file: DefinitionFile, name: Seq<char>, document: serde_json::Value) -> bool {
    &&& file.name@ == name
    &&& file_ok(file)
    &&& file.is_map == json_object_entries(document) is Some
    &&& arrays_view(file.arrays@) == document_arrays(document)
    &&& entries_view(file.partials@) == document_partials(document)
}

/// Looking a key up in a list of entries finds what looking it up in the
/// entries with their keys read as characters finds.
proof fn lemma_member_view(list: Seq<(String, serde_json::Value)>, key: Seq<char>)
    ensures
        match key_position(list, key) {
            Some(index) => member(entries_view(list), key) == Some(list[index].1),
            None => member(entries_view(list), key) is None,
        },
{
    let view = entries_view(list);
    lemma_first_match_facts(list, key_is::<serde_json::Value>(key));
    match key_position(list, key) {
        Some(index) => {
            assert(view[index].0 == list[index].0@);
            assert forall|j: int| 0 <= j < index implies !entry_key_is(key)(#[trigger] view[j]) by {
                assert(view[j].0 == list[j].0@);
                assert(!key_is::<serde_json::Value>(key)(list[j]));
            }
            lemma_first_match_is(view, entry_key_is(key), index);
        },
        None => {
            assert forall|j: int| 0 <= j < view.len() implies !entry_key_is(key)(#[trigger] view[j]) by {
                assert(view[j].0 == list[j].0@);
                assert(!key_is::<serde_json::Value>(key)(list[j]));
            }
            lemma_first_match_none(view, entry_key_is(key));
        },
    }
}

/// The value stored under `key`, if any.
fn entry_value<'a>(entries: &'a Vec<(String, serde_json::Value)>, key: &str) -> (found: Option<
    &'a serde_json::Value,
>)
    ensures
        match key_position(entries@, key@) {
            Some(index) => found matches Some(value) && *value == entries@[index].1,
            None => found is None,
        },
{
    let ghost wanted = key_is::<serde_json::Value>(key@);
    let mut index: usize = 0;
    while index < entries.len()
        invariant
            0 <= index <= entries.len(),
            wanted == key_is::<serde_json::Value>(key@),
            forall|j: int| 0 <= j < index ==> !wanted(#[trigger] entries@[j]),
        decreases entries.len() - index,
    {
        if str_equal(entries[index].0.as_str(), key) {
            proof {
                lemma_first_match_is(entries@, wanted, index as int);
            }
            return Some(&entries[index].1);
        }
        index = index + 1;
    }
    proof {
        lemma_first_match_none(entries@, wanted);
    }
    None
}

/// Reads what the merge needs of one parsed file: whether it is a map, its
/// arrays under the array keys and its `x_partials` entries.
pub fn read_definition(name: String, document: &serde_json::Value) -> (file: DefinitionFile)
    ensures
        reads_document(file, name@, *document),
{
    let ghost name_view = name@;
    let entries = object_entries(document);
    let mut arrays: Vec<Vec<serde_json::Value>> = Vec::new();
    let mut partials: Vec<(String, serde_json::Value)> = Vec::new();
    let is_map = entries.is_some();
    if let Some(entries) = &entries {
        let ghost view = entries_view(entries@);
        let mut index: usize = 0;
        while index < ARRAY_KEY_COUNT
            invariant
                0 <= index <= ARRAY_KEY_COUNT,
                arrays@.len() == index,
                json_object_entries(*document) == Some(view),
                view == entries_view(entries@),
                forall|k: int| 0 <= k < index ==> #[trigger] arrays@[k]@ == document_arrays(*document)[k],
            decreases ARRAY_KEY_COUNT - index,
        {
            let key = array_key(index);
            proof {
                lemma_member_view(entries@, key@);
            }
            let items = match entry_value(entries, key) {
                Some(value) => match array_items(value) {
                    Some(items) => items,
                    None => Vec::new(),
                },
                None => Vec::new(),
            };
            proof {
                assert(items@ == document_array(view, array_keys()[index as int]));
            }
            arrays.push(items);
            index = index + 1;
        }
        proof {
            lemma_member_view(entries@, PARTIALS_KEY@);
        }
        if let Some(value) = entry_value(entries, PARTIALS_KEY) {
            if let Some(found) = object_entries(value) {
                partials = found;
            }
        }
    } else {
        let mut index: usize = 0;
        while index < ARRAY_KEY_COUNT
            invariant
                0 <= index <= ARRAY_KEY_COUNT,
                arrays@.len() == index,
                json_object_entries(*document) is None,
                forall|k: int| 0 <= k < index ==> #[trigger] arrays@[k]@ == document_arrays(*document)[k],
            decreases ARRAY_KEY_COUNT - index,
        {
            arrays.push(Vec::new());
            proof {
                assert(arrays@[index as int]@ =~= document_arrays(*document)[index as int]);
            }
            index = index + 1;
        }
    }
    let file = DefinitionFile { name, is_map, arrays, partials };
    proof {
        assert(arrays_view(file.arrays@) =~= document_arrays(*document));
        assert(entries_view(file.partials@) =~= document_partials(*document));
    }
    file
}

// ── merging ────────────────────────────────────────────────────────────────

/// The merged document: the concatenated items under each array key and the
/// partial column sets of every file.
pub struct MergedView {
    pub arrays: Seq<Seq<serde_json::Value>>,
    pub partials: Seq<(Seq<char>, serde_json::Value)>,
}

/// Nothing merged yet.
pub open spec fn empty_merge() -> MergedView {
    MergedView { arrays: Seq::new(ARRAY_KEY_COUNT as nat, |i: int| Seq::<serde_json::Value>::empty()), partials: Seq::empty() }
}

/// Whether an entry has the key `key`.
pub open spec fn has_key(entries: Seq<(Seq<char>, serde_json::Value)>, key: Seq<char>) -> bool {
    exists|i: int| 0 <= i < entries.len() && #[trigger] entries[i].0 == key
}

/// The error of a partial declared in two files.
pub open spec fn duplicate_message(key: Seq<char>, file: Seq<char>) -> Seq<char> {
    "duplicate x_partials entry `"@ + key + "` across yaml files (found in `"@ + file + "`)"@
}

/// The error of a file whose top level is not a map.
pub open spec fn not_map_message(file: Seq<char>) -> Seq<char> {
    "yaml `"@ + file + "` is not a top-level map"@
}

/// `existing` with the file's partial entries added one by one; the first
/// key already present is an error.
pub open spec fn add_partials(
    existing: Seq<(Seq<char>, serde_json::Value)>,
    entries: Seq<(Seq<char>, serde_json::Value)>,
    file: Seq<char>,
) -> Result<Seq<(Seq<char>, serde_json::Value)>, Seq<char>>
    decreases entries.len(),
{
    if entries.len() == 0 {
        Ok(existing)
    } else {
        match add_partials(existing, entries.drop_last(), file) {
            Err(message) => Err(message),
            Ok(so_far) => if has_key(so_far, entries.last().0) {
                Err(duplicate_message(entries.last().0, file))
            } else {
                Ok(so_far.push(entries.last()))
            },
        }
    }
}

/// Once adding partials fails, adding more still fails the same way.
proof fn lemma_add_partials_err(
    existing: Seq<(Seq<char>, serde_json::Value)>,
    entries: Seq<(Seq<char>, serde_json::Value)>,
    file: Seq<char>,
    count: int,
)
    requires
        0 <= count <= entries.len(),
        add_partials(existing, entries.take(count), file) is Err,
    ensures
        add_partials(existing, entries, file) == add_partials(existing, entries.take(count), file),
    decreases entries.len() - count,
{
    if count < entries.len() {
        assert(entries.take(count + 1).drop_last() =~= entries.take(count));
        lemma_add_partials_err(existing, entries, file, count + 1);
    } else {
        assert(entries.take(count) =~= entries);
    }
}

/// The merge with one more file added.
pub open spec fn add_file(merged: MergedView, file: DefinitionFile) -> Result<MergedView, Seq<char>> {
    if !file.is_map {
        Err(not_map_message(file.name@))
    } else {
        match add_partials(merged.partials, entries_view(file.partials@), file.name@) {
            Err(message) => Err(message),
            Ok(partials) => Ok(
                MergedView {
                    arrays: Seq::new(
                        ARRAY_KEY_COUNT as nat,
                        |i: int| merged.arrays[i] + arrays_view(file.arrays@)[i],
                    ),
                    partials,
                },
            ),
        }
    }
}

/// "The file is named `name`."
pub open spec fn file_is(name: Seq<char>) -> spec_fn(DefinitionFile) -> bool {
    |file: DefinitionFile| file.name@ == name
}

/// The file named `name`.
pub open spec fn file_named(files: Seq<DefinitionFile>, name: Seq<char>) -> DefinitionFile {
    files[first_match(files, file_is(name))->0]
}

/// The files named in `order`, merged one after another.
pub open spec fn merge_fold(files: Seq<DefinitionFile>, order: Seq<Seq<char>>) -> Result<MergedView, Seq<char>>
    decreases order.len(),
{
    if order.len() == 0 {
        Ok(empty_merge())
    } else {
        match merge_fold(files, order.drop_last()) {
            Err(message) => Err(message),
            Ok(merged) => add_file(merged, file_named(files, order.last())),
        }
    }
}

/// Once the fold fails, folding more files still fails the same way.
proof fn lemma_fold_err(files: Seq<DefinitionFile>, order: Seq<Seq<char>>, count: int)
    requires
        0 <= count <= order.len(),
        merge_fold(files, order.take(count)) is Err,
    ensures
        merge_fold(files, order) == merge_fold(files, order.take(count)),
    decreases order.len() - count,
{
    if count < order.len() {
        assert(order.take(count + 1).drop_last() =~= order.take(count));
        lemma_fold_err(files, order, count + 1);
    } else {
        assert(order.take(count) =~= order);
    }
}

/// The names of the files.
pub open spec fn file_names(files: Seq<DefinitionFile>) -> Set<Seq<char>> {
    name_list(files).to_set()
}

/// The names of the files, in order.
pub open spec fn name_list(files: Seq<DefinitionFile>) -> Seq<Seq<char>> {
    files.map_values(|file: DefinitionFile| file.name@)
}

/// No two files share a name.
pub open spec fn distinct_names(files: Seq<DefinitionFile>) -> bool {
    forall|i: int, j: int| 0 <= i < j < files.len() ==> files[i].name@ != files[j].name@
}

/// The merge of the files in merge order.
pub open spec fn merge_outcome(files: Seq<DefinitionFile>) -> Result<MergedView, Seq<char>> {
    merge_fold(files, merge_order(file_names(files)))
}

// ── merging does not depend on the order of the files ──────────────────────

/// The names of one rank in a list, as a set.
proof fn lemma_rank_bucket(names: Seq<Seq<char>>, rank: DefinitionRank)
    ensures
        names_with_rank(names.to_set(), rank) == names.filter(has_rank(rank)).to_set(),
{
    assert forall|name: Seq<char>|
        names_with_rank(names.to_set(), rank).contains(name) == names.filter(has_rank(rank)).to_set().contains(
            name,
        ) by {
        if names.to_set().contains(name) && has_rank(rank)(name) {
            let k = choose|k: int| 0 <= k < names.len() && names[k] == name;
            names.lemma_filter_contains(has_rank(rank), k);
            assert(names.filter(has_rank(rank)).contains(name));
        }
        if names.filter(has_rank(rank)).to_set().contains(name) {
            assert(names.filter(has_rank(rank)).contains(name));
            names.lemma_filter_contains_rev(has_rank(rank), name);
            let k = choose|k: int| 0 <= k < names.filter(has_rank(rank)).len() && names.filter(
                has_rank(rank),
            )[k] == name;
            names.lemma_filter_pred(has_rank(rank), k);
            assert(names.contains(name));
        }
    }
    assert(names_with_rank(names.to_set(), rank) =~= names.filter(has_rank(rank)).to_set());
}

/// Each bucket of the merge order holds exactly the names of its rank.
proof fn lemma_bucket_sorted(names: Seq<Seq<char>>, rank: DefinitionRank)
    ensures
        sorted_texts(names_with_rank(names.to_set(), rank)).to_set() == names_with_rank(names.to_set(), rank),
        crate::text::strictly_sorted(sorted_texts(names_with_rank(names.to_set(), rank))),
{
    lemma_rank_bucket(names, rank);
    crate::text::lemma_sorted_texts_of(names.filter(has_rank(rank)));
}

/// Every name in the merge order is one of the names.
pub proof fn lemma_merge_order_within(names: Seq<Seq<char>>)
    ensures
        forall|k: int|
            0 <= k < merge_order(names.to_set()).len() ==> names.to_set().contains(
                #[trigger] merge_order(names.to_set())[k],
            ),
{
    let set = names.to_set();
    let a = sorted_texts(names_with_rank(set, DefinitionRank::Shared));
    let b = sorted_texts(names_with_rank(set, DefinitionRank::Root));
    let c = sorted_texts(names_with_rank(set, DefinitionRank::Other));
    let d = sorted_texts(names_with_rank(set, DefinitionRank::History));
    lemma_bucket_sorted(names, DefinitionRank::Shared);
    lemma_bucket_sorted(names, DefinitionRank::Root);
    lemma_bucket_sorted(names, DefinitionRank::Other);
    lemma_bucket_sorted(names, DefinitionRank::History);
    let order = merge_order(set);
    assert(order == a + b + c + d);
    assert forall|k: int| 0 <= k < order.len() implies set.contains(#[trigger] order[k]) by {
        if k < a.len() {
            assert(a.to_set().contains(a[k]));
        } else if k < a.len() + b.len() {
            assert(b.to_set().contains(b[k - a.len()]));
        } else if k < a.len() + b.len() + c.len() {
            assert(c.to_set().contains(c[k - a.len() - b.len()]));
        } else {
            assert(d.to_set().contains(d[k - a.len() - b.len() - c.len()]));
        }
    }
}

/// With distinct names, the file a name picks is the same in two lists that
/// hold the same files.
proof fn lemma_file_named_same(left: Seq<DefinitionFile>, right: Seq<DefinitionFile>, name: Seq<char>)
    requires
        left.to_set() == right.to_set(),
        distinct_names(right),
        file_names(left).contains(name),
    ensures
        file_named(left, name) == file_named(right, name),
{
    crate::seqs::lemma_first_match_facts(left, file_is(name));
    crate::seqs::lemma_first_match_facts(right, file_is(name));
    let k = choose|k: int| 0 <= k < name_list(left).len() && name_list(left)[k] == name;
    assert(file_is(name)(left[k]));
    let i = first_match(left, file_is(name))->0;
    assert(left.to_set().contains(left[i]));
    assert(right.to_set().contains(left[i]));
    let j = choose|j: int| 0 <= j < right.len() && right[j] == left[i];
    assert(file_is(name)(right[j]));
    let m = first_match(right, file_is(name))->0;
    if m != j {
        if m < j {
            assert(right[m].name@ != right[j].name@);
        } else {
            assert(right[j].name@ != right[m].name@);
        }
    }
}

/// Two lists that give the same file for every name of `order` fold alike.
proof fn lemma_fold_same(left: Seq<DefinitionFile>, right: Seq<DefinitionFile>, order: Seq<Seq<char>>)
    requires
        forall|k: int| 0 <= k < order.len() ==> file_named(left, #[trigger] order[k]) == file_named(right, order[k]),
    ensures
        merge_fold(left, order) == merge_fold(right, order),
    decreases order.len(),
{
    if order.len() > 0 {
        assert forall|k: int| 0 <= k < order.drop_last().len() implies file_named(
            left,
            #[trigger] order.drop_last()[k],
        ) == file_named(right, order.drop_last()[k]) by {
            assert(order.drop_last()[k] == order[k]);
        }
        lemma_fold_same(left, right, order.drop_last());
        assert(file_named(left, order[order.len() - 1]) == file_named(right, order[order.len() - 1]));
    }
}

/// Merging does not depend on the order the files come in: the same files,
/// in any order, merge to the same document or fail with the same error.
pub proof fn lemma_merge_order_independent(left: Seq<DefinitionFile>, right: Seq<DefinitionFile>)
    requires
        left.to_set() == right.to_set(),
        distinct_names(left),
        distinct_names(right),
    ensures
        merge_outcome(left) == merge_outcome(right),
{
    assert forall|name: Seq<char>| file_names(left).contains(name) == file_names(right).contains(name) by {
        if file_names(left).contains(name) {
            let k = choose|k: int| 0 <= k < name_list(left).len() && name_list(left)[k] == name;
            assert(left.to_set().contains(left[k]));
            let j = choose|j: int| 0 <= j < right.len() && right[j] == left[k];
            assert(name_list(right)[j] == name);
        }
        if file_names(right).contains(name) {
            let k = choose|k: int| 0 <= k < name_list(right).len() && name_list(right)[k] == name;
            assert(right.to_set().contains(right[k]));
            let j = choose|j: int| 0 <= j < left.len() && left[j] == right[k];
            assert(name_list(left)[j] == name);
        }
    }
    assert(file_names(left) =~= file_names(right));
    let order = merge_order(file_names(left));
    lemma_merge_order_within(name_list(left));
    assert forall|k: int| 0 <= k < order.len() implies file_named(left, #[trigger] order[k]) == file_named(
        right,
        order[k],
    ) by {
        lemma_file_named_same(left, right, order[k]);
    }
    lemma_fold_same(left, right, order);
}

// ── the merge, executed ────────────────────────────────────────────────────

/// The merged document under construction.
#[derive(Debug)]
pub struct MergedDefinitions {
    /// The items under each array key, in `array_keys` order.
    pub arrays: Vec<Vec<serde_json::Value>>,
    pub partials: Vec<(String, serde_json::Value)>,
}

impl View for MergedDefinitions {
    type V = MergedView;

    open spec fn view(&self) -> MergedView {
        MergedView { arrays: arrays_view(self.arrays@), partials: entries_view(self.partials@) }
    }
}

/// The names of one rank, as a list.
fn rank_bucket(files: &Vec<DefinitionFile>, rank: DefinitionRank) -> (names: Vec<String>)
    ensures
        crate::error::texts(names@).to_set() == names_with_rank(file_names(files@), rank),
{
    let ghost wanted = has_rank(rank);
    let mut names: Vec<String> = Vec::new();
    let mut index: usize = 0;
    while index < files.len()
        invariant
            0 <= index <= files.len(),
            wanted == has_rank(rank),
            crate::error::texts(names@) == name_list(files@.take(index as int)).filter(wanted),
        decreases files.len() - index,
    {
        let ghost before = names@;
        proof {
            assert(name_list(files@.take(index as int + 1)) =~= name_list(files@.take(index as int)).push(
                files@[index as int].name@,
            ));
            name_list(files@.take(index as int)).lemma_filter_push(files@[index as int].name@, wanted);
        }
        if definition_rank(files[index].name.as_str()) == rank {
            names.push(files[index].name.clone());
            proof {
                assert(crate::error::texts(names@) =~= crate::error::texts(before).push(files@[index as int].name@));
            }
        }
        index = index + 1;
    }
    proof {
        assert(files@.take(files.len() as int) =~= files@);
        lemma_rank_bucket(name_list(files@), rank);
    }
    names
}

/// The names of the files in merge order.
fn merge_order_list(files: &Vec<DefinitionFile>) -> (order: Vec<String>)
    ensures
        crate::error::texts(order@) == merge_order(file_names(files@)),
{
    let ranks = [DefinitionRank::Shared, DefinitionRank::Root, DefinitionRank::Other, DefinitionRank::History];
    let mut order: Vec<String> = Vec::new();
    let mut position: usize = 0;
    let ghost names = file_names(files@);
    let ghost parts = seq![
        sorted_texts(names_with_rank(names, DefinitionRank::Shared)),
        sorted_texts(names_with_rank(names, DefinitionRank::Root)),
        sorted_texts(names_with_rank(names, DefinitionRank::Other)),
        sorted_texts(names_with_rank(names, DefinitionRank::History)),
    ];
    proof {
        assert(crate::error::texts(order@) =~= crate::seqs::concat_all(parts.take(0)));
    }
    while position < 4
        invariant
            0 <= position <= 4,
            ranks@ == seq![DefinitionRank::Shared, DefinitionRank::Root, DefinitionRank::Other, DefinitionRank::History],
            names == file_names(files@),
            parts == seq![
                sorted_texts(names_with_rank(names, DefinitionRank::Shared)),
                sorted_texts(names_with_rank(names, DefinitionRank::Root)),
                sorted_texts(names_with_rank(names, DefinitionRank::Other)),
                sorted_texts(names_with_rank(names, DefinitionRank::History)),
            ],
            crate::error::texts(order@) == crate::seqs::concat_all(parts.take(position as int)),
        decreases 4 - position,
    {
        let rank = ranks[position];
        let bucket = rank_bucket(files, rank);
        let sorted = sorted_distinct(&bucket);
        proof {
            lemma_sorted_texts(crate::error::texts(sorted@), names_with_rank(names, rank));
            crate::seqs::lemma_concat_all_step(parts, position as int);
            assert(parts[position as int] == sorted_texts(names_with_rank(names, rank)));
        }
        let ghost before = crate::error::texts(order@);
        let mut index: usize = 0;
        while index < sorted.len()
            invariant
                0 <= index <= sorted.len(),
                crate::error::texts(order@) == before + crate::error::texts(sorted@).take(index as int),
            decreases sorted.len() - index,
        {
            let ghost order_before = order@;
            order.push(sorted[index].clone());
            proof {
                assert(crate::error::texts(order@) =~= crate::error::texts(order_before).push(sorted@[index as int]@));
                assert(crate::error::texts(sorted@).take(index as int + 1) =~= crate::error::texts(sorted@).take(
                    index as int,
                ).push(sorted@[index as int]@));
            }
            index = index + 1;
            proof {
                assert(crate::error::texts(order@) =~= before + crate::error::texts(sorted@).take(index as int));
            }
        }
        proof {
            assert(crate::error::texts(sorted@).take(sorted.len() as int) =~= crate::error::texts(sorted@));
        }
        position = position + 1;
    }
    proof {
        assert(parts.take(4) =~= parts);
        assert(crate::seqs::concat_all(parts) =~= merge_order(names)) by {
            reveal_with_fuel(crate::seqs::concat_all, 5);
            assert(parts.drop_last().drop_last().drop_last().drop_last() =~= Seq::<Seq<Seq<char>>>::empty());
        }
    }
    order
}

/// The index of the file named `name`.
fn find_file(files: &Vec<DefinitionFile>, name: &str) -> (index: usize)
    requires
        file_names(files@).contains(name@),
    ensures
        first_match(files@, file_is(name@)) == Some(index as int),
        index < files@.len(),
{
    let ghost wanted = file_is(name@);
    proof {
        let k = choose|k: int| 0 <= k < name_list(files@).len() && name_list(files@)[k] == name@;
        assert(wanted(files@[k]));
    }
    let mut index: usize = 0;
    while index < files.len()
        invariant
            0 <= index <= files.len(),
            wanted == file_is(name@),
            exists|k: int| index <= k < files@.len() && wanted(#[trigger] files@[k]),
            forall|j: int| 0 <= j < index ==> !wanted(#[trigger] files@[j]),
        decreases files.len() - index,
    {
        if str_equal(files[index].name.as_str(), name) {
            proof {
                lemma_first_match_is(files@, wanted, index as int);
            }
            return index;
        }
        index = index + 1;
    }
    index
}

/// A fresh copy of a list of JSON values.
fn copy_values(values: &Vec<serde_json::Value>) -> (copy: Vec<serde_json::Value>)
    ensures
        copy@ == values@,
{
    let mut copy: Vec<serde_json::Value> = Vec::new();
    let mut index: usize = 0;
    while index < values.len()
        invariant
            0 <= index <= values.len(),
            copy@ == values@.take(index as int),
        decreases values.len() - index,
    {
        copy.push(crate::mason::value::json_clone(&values[index]));
        index = index + 1;
        proof {
            assert(copy@ =~= values@.take(index as int));
        }
    }
    proof {
        assert(values@.take(values.len() as int) =~= values@);
    }
    copy
}

/// Whether an entry has the key `key`.
fn contains_key(entries: &Vec<(String, serde_json::Value)>, key: &str) -> (found: bool)
    ensures
        found == has_key(entries_view(entries@), key@),
{
    let mut index: usize = 0;
    while index < entries.len()
        invariant
            0 <= index <= entries.len(),
            forall|j: int| 0 <= j < index ==> #[trigger] entries@[j].0@ != key@,
        decreases entries.len() - index,
    {
        if str_equal(entries[index].0.as_str(), key) {
            proof {
                assert(entries_view(entries@)[index as int].0 == key@);
            }
            return true;
        }
        index = index + 1;
    }
    proof {
        assert forall|j: int| 0 <= j < entries_view(entries@).len() implies #[trigger] entries_view(entries@)[j].0
            != key@ by {
            assert(entries_view(entries@)[j].0 == entries@[j].0@);
        }
    }
    false
}

/// Adds one file to the merge.
fn merge_file(merged: &mut MergedDefinitions, file: &DefinitionFile) -> (outcome: Result<(), LaxError>)
    requires
        file_ok(*file),
        old(merged).arrays@.len() == ARRAY_KEY_COUNT,
    ensures
        final(merged).arrays@.len() == ARRAY_KEY_COUNT,
        match add_file(old(merged)@, *file) {
            Ok(next) => outcome is Ok && final(merged)@ == next,
            Err(message) => outcome matches Err(error) && error@ == LaxErrorView::Merge(message),
        },
{
    if !file.is_map {
        let message = joined3("yaml `", file.name.as_str(), "` is not a top-level map");
        proof {
            assert(message@ == not_map_message(file.name@));
        }
        return Err(CodexError::merge(message));
    }
    let ghost start = merged@;
    let ghost entries = entries_view(file.partials@);
    let mut index: usize = 0;
    while index < file.partials.len()
        invariant
            0 <= index <= file.partials.len(),
            merged.arrays@ == old(merged).arrays@,
            old(merged).arrays@.len() == ARRAY_KEY_COUNT,
            start == old(merged)@,
            file.is_map,
            entries == entries_view(file.partials@),
            add_partials(start.partials, entries.take(index as int), file.name@) == Ok::<
                Seq<(Seq<char>, serde_json::Value)>,
                Seq<char>,
            >(entries_view(merged.partials@)),
        decreases file.partials.len() - index,
    {
        proof {
            assert(entries.take(index as int + 1).drop_last() =~= entries.take(index as int));
            assert(entries.take(index as int + 1).last() == entries[index as int]);
            assert(entries[index as int] == (file.partials@[index as int].0@, file.partials@[index as int].1));
        }
        let key = file.partials[index].0.as_str();
        if contains_key(&merged.partials, key) {
            let message = joined5(
                "duplicate x_partials entry `",
                key,
                "` across yaml files (found in `",
                file.name.as_str(),
                "`)",
            );
            proof {
                assert(has_key(entries_view(merged.partials@), key@));
                assert(add_partials(start.partials, entries.take(index as int + 1), file.name@) == Err::<
                    Seq<(Seq<char>, serde_json::Value)>,
                    Seq<char>,
                >(duplicate_message(key@, file.name@)));
                lemma_add_partials_err(start.partials, entries, file.name@, index as int + 1);
                assert(message@ == duplicate_message(key@, file.name@));
            }
            return Err(CodexError::merge(message));
        }
        let ghost before = merged.partials@;
        merged.partials.push((file.partials[index].0.clone(), crate::mason::value::json_clone(&file.partials[index].1)));
        proof {
            assert(entries_view(merged.partials@) =~= entries_view(before).push(entries[index as int]));
        }
        index = index + 1;
    }
    proof {
        assert(entries.take(file.partials.len() as int) =~= entries);
    }
    let ghost partials_done = merged.partials@;
    let mut key: usize = 0;
    while key < ARRAY_KEY_COUNT
        invariant
            0 <= key <= ARRAY_KEY_COUNT,
            merged.arrays@.len() == ARRAY_KEY_COUNT,
            file.arrays@.len() == ARRAY_KEY_COUNT,
            merged.partials@ == partials_done,
            start == old(merged)@,
            file.is_map,
            add_partials(start.partials, entries_view(file.partials@), file.name@) == Ok::<
                Seq<(Seq<char>, serde_json::Value)>,
                Seq<char>,
            >(entries_view(partials_done)),
            forall|i: int|
                0 <= i < key ==> #[trigger] arrays_view(merged.arrays@)[i] == start.arrays[i] + arrays_view(
                    file.arrays@,
                )[i],
            forall|i: int| key <= i < ARRAY_KEY_COUNT ==> #[trigger] arrays_view(merged.arrays@)[i] == start.arrays[i],
        decreases ARRAY_KEY_COUNT - key,
    {
        proof {
            assert(arrays_view(merged.arrays@)[key as int] == start.arrays[key as int]);
            assert(arrays_view(merged.arrays@)[key as int] == merged.arrays@[key as int]@);
            assert(arrays_view(file.arrays@)[key as int] == file.arrays@[key as int]@);
        }
        let mut items = copy_values(&merged.arrays[key]);
        let added = copy_values(&file.arrays[key]);
        let mut position: usize = 0;
        let ghost first = items@;
        while position < added.len()
            invariant
                0 <= position <= added.len(),
                items@ == first + added@.take(position as int),
            decreases added.len() - position,
        {
            items.push(crate::mason::value::json_clone(&added[position]));
            position = position + 1;
            proof {
                assert(items@ =~= first + added@.take(position as int));
            }
        }
        proof {
            assert(added@.take(added.len() as int) =~= added@);
        }
        let ghost arrays_before = merged.arrays@;
        merged.arrays.set(key, items);
        proof {
            assert forall|i: int| 0 <= i < ARRAY_KEY_COUNT && i != key implies #[trigger] arrays_view(
                merged.arrays@,
            )[i] == arrays_view(arrays_before)[i] by {
                assert(merged.arrays@[i] == arrays_before[i]);
            }
            assert(arrays_view(merged.arrays@)[key as int] == merged.arrays@[key as int]@);
        }
        key = key + 1;
    }
    proof {
        match add_file(start, *file) {
            Ok(next) => {
                assert(arrays_view(merged.arrays@) =~= next.arrays);
            },
            Err(_) => {},
        }
    }
    Ok(())
}

/// Merges parsed definition files in merge order: the items under each array
/// key are concatenated, the partial column sets collected; a file that is not
/// a map, or a partial declared twice, is an error.
pub fn merge_definitions(files: &Vec<DefinitionFile>) -> (outcome: Result<MergedDefinitions, LaxError>)
    requires
        forall|i: int| 0 <= i < files@.len() ==> file_ok(#[trigger] files@[i]),
    ensures
        match merge_outcome(files@) {
            Ok(merged) => outcome matches Ok(result) && result@ == merged,
            Err(message) => outcome matches Err(error) && error@ == LaxErrorView::Merge(message),
        },
        outcome matches Ok(result) ==> result.arrays@.len() == ARRAY_KEY_COUNT,
{
    let order = merge_order_list(files);
    let ghost order_view = crate::error::texts(order@);
    proof {
        lemma_merge_order_within(name_list(files@));
    }
    let mut arrays: Vec<Vec<serde_json::Value>> = Vec::new();
    let mut key: usize = 0;
    while key < ARRAY_KEY_COUNT
        invariant
            0 <= key <= ARRAY_KEY_COUNT,
            arrays@.len() == key,
            forall|i: int| 0 <= i < key ==> (#[trigger] arrays@[i])@.len() == 0,
        decreases ARRAY_KEY_COUNT - key,
    {
        arrays.push(Vec::new());
        key = key + 1;
    }
    let mut merged = MergedDefinitions { arrays, partials: Vec::new() };
    proof {
        assert forall|i: int| 0 <= i < ARRAY_KEY_COUNT implies #[trigger] merged@.arrays[i] == empty_merge().arrays[i] by {
            assert(merged@.arrays[i] == merged.arrays@[i]@);
            assert(merged.arrays@[i]@ =~= Seq::<serde_json::Value>::empty());
        }
        assert(merged@.arrays =~= empty_merge().arrays);
        assert(entries_view(merged.partials@) =~= Seq::<(Seq<char>, serde_json::Value)>::empty());
        assert(merged@ =~= empty_merge());
    }
    let mut index: usize = 0;
    while index < order.len()
        invariant
            0 <= index <= order.len(),
            order_view == crate::error::texts(order@),
            order_view == merge_order(file_names(files@)),
            forall|k: int| 0 <= k < order_view.len() ==> file_names(files@).contains(#[trigger] order_view[k]),
            forall|i: int| 0 <= i < files@.len() ==> file_ok(#[trigger] files@[i]),
            merged.arrays@.len() == ARRAY_KEY_COUNT,
            merge_fold(files@, order_view.take(index as int)) == Ok::<MergedView, Seq<char>>(merged@),
        decreases order.len() - index,
    {
        proof {
            assert(order_view.take(index as int + 1).drop_last() =~= order_view.take(index as int));
            assert(order_view.take(index as int + 1).last() == order_view[index as int]);
            assert(order_view[index as int] == order@[index as int]@);
        }
        let found = find_file(files, order[index].as_str());
        let step = merge_file(&mut merged, &files[found]);
        if step.is_err() {
            proof {
                lemma_fold_err(files@, order_view, index as int + 1);
            }
            return Err(step.unwrap_err());
        }
        index = index + 1;
    }
    proof {
        assert(order_view.take(order.len() as int) =~= order_view);
    }
    Ok(merged)
}

/// The top-level keys of the merged document: each array key whose merged
/// array has items, from `from` on, in key order.
pub open spec fn array_keys_from(merged: MergedView, from: int) -> Seq<Seq<char>>
    decreases ARRAY_KEY_COUNT - from,
{
    if from >= ARRAY_KEY_COUNT || from < 0 {
        Seq::empty()
    } else {
        (if merged.arrays[from].len() > 0 {
            seq![array_keys()[from]]
        } else {
            Seq::empty()
        }) + array_keys_from(merged, from + 1)
    }
}

/// The top-level keys of the merged document: the array keys whose arrays
/// have items, then `x_partials` when there are partials.
pub open spec fn merged_keys(merged: MergedView) -> Seq<Seq<char>> {
    array_keys_from(merged, 0) + (if merged.partials.len() > 0 {
        seq![PARTIALS_KEY@]
    } else {
        Seq::empty()
    })
}

/// A top-level entry of the merged document holds what the merge gathered
/// under its key: the merged items under an array key, the merged partial
/// entries (as an object) under `x_partials`.
pub open spec fn holds_merged(entry: (Seq<char>, serde_json::Value), merged: MergedView) -> bool {
    &&& forall|index: int|
        0 <= index < ARRAY_KEY_COUNT && entry.0 == #[trigger] array_keys()[index] ==> json_array_items(entry.1)
            == Some(merged.arrays[index])
    &&& entry.0 == PARTIALS_KEY@ ==> (json_object_entries(entry.1) matches Some(object) && object_of(
        object,
        merged.partials,
    ))
}

/// `document` is the merged document as JSON: an object with the keys of
/// `merged_keys`, each once, each holding what the merge gathered under it.
pub open spec fn merged_document(document: serde_json::Value, merged: MergedView) -> bool {
    json_object_entries(document) matches Some(top) && {
        &&& distinct_keys(top)
        &&& forall|key: Seq<char>| has_key(top, key) == merged_keys(merged).contains(key)
        &&& forall|i: int| 0 <= i < top.len() ==> holds_merged(#[trigger] top[i], merged)
    }
}

/// The top-level entry of one array key: the key with the JSON array of the
/// merged items, when there are any.
pub open spec fn array_entry(merged: MergedView, index: int) -> Seq<(Seq<char>, serde_json::Value)> {
    if merged.arrays[index].len() > 0 {
        seq![(array_keys()[index], json_array_value(merged.arrays[index]))]
    } else {
        Seq::empty()
    }
}

/// The top-level entries of the array keys, from the last key down to `from`.
pub open spec fn array_entries_down(merged: MergedView, from: int) -> Seq<(Seq<char>, serde_json::Value)>
    decreases ARRAY_KEY_COUNT - from,
{
    if from >= ARRAY_KEY_COUNT || from < 0 {
        Seq::empty()
    } else {
        array_entries_down(merged, from + 1) + array_entry(merged, from)
    }
}

/// The entries the merged document is collected from: the array keys from the
/// last down to the first, then `x_partials` when there are partials.
pub open spec fn merged_entries(merged: MergedView) -> Seq<(Seq<char>, serde_json::Value)> {
    array_entries_down(merged, 0) + if merged.partials.len() > 0 {
        seq![(PARTIALS_KEY@, json_object_value(merged.partials))]
    } else {
        Seq::empty()
    }
}

/// The merged document as JSON: the object collected from `merged_entries`.
/// It depends on the merge alone.
pub open spec fn merged_json(merged: MergedView) -> serde_json::Value {
    json_object_value(merged_entries(merged))
}

/// With no key twice, an entry's key finds that entry.
proof fn lemma_member_distinct(entries: Seq<(Seq<char>, serde_json::Value)>, index: int)
    requires
        distinct_keys(entries),
        0 <= index < entries.len(),
    ensures
        member(entries, entries[index].0) == Some(entries[index].1),
{
    assert forall|j: int| 0 <= j < index implies !entry_key_is(entries[index].0)(#[trigger] entries[j]) by {
        assert(entries[j].0 != entries[index].0);
    }
    lemma_first_match_is(entries, entry_key_is(entries[index].0), index);
}

/// The keys from `from` on are array keys at `from` or later.
proof fn lemma_array_keys_from(merged: MergedView, from: int, key: Seq<char>)
    requires
        0 <= from,
        array_keys_from(merged, from).contains(key),
    ensures
        exists|index: int| from <= index < ARRAY_KEY_COUNT && key == array_keys()[index] && merged.arrays[index].len() > 0,
    decreases ARRAY_KEY_COUNT - from,
{
    if from < ARRAY_KEY_COUNT {
        let head: Seq<Seq<char>> = if merged.arrays[from].len() > 0 {
            seq![array_keys()[from]]
        } else {
            Seq::empty()
        };
        let rest = array_keys_from(merged, from + 1);
        assert(array_keys_from(merged, from) == head + rest);
        let k = choose|k: int| 0 <= k < (head + rest).len() && (head + rest)[k] == key;
        if k < head.len() {
            assert(key == array_keys()[from]);
        } else {
            assert(rest[k - head.len()] == key);
            lemma_array_keys_from(merged, from + 1, key);
        }
    }
}

/// The merged document as JSON: every non-empty array under its key and the
/// partials under `x_partials` when there are any.
pub fn merged_value(merged: MergedDefinitions) -> (document: serde_json::Value)
    requires
        merged.arrays@.len() == ARRAY_KEY_COUNT,
        distinct_keys(merged@.partials),
    ensures
        document == merged_json(merged@),
        merged_document(document, merged@),
{
    let ghost whole = merged@;
    proof {
        lemma_top_keys_distinct();
    }
    let MergedDefinitions { arrays, partials } = merged;
    let mut entries: Vec<(String, serde_json::Value)> = Vec::new();
    let mut remaining = arrays;
    let mut key: usize = ARRAY_KEY_COUNT;
    while key > 0
        invariant
            0 <= key <= ARRAY_KEY_COUNT,
            remaining@.len() == key,
            whole.arrays.len() == ARRAY_KEY_COUNT,
            entries_view(entries@) == array_entries_down(whole, key as int),
            forall|k: int| 0 <= k < key ==> (#[trigger] remaining@[k])@ == whole.arrays[k],
            distinct_keys(entries_view(entries@)),
            forall|name: Seq<char>|
                has_key(entries_view(entries@), name) == array_keys_from(whole, key as int).contains(name),
            forall|j: int, k: int|
                0 <= j < entries@.len() && 0 <= k < key ==> (#[trigger] entries_view(entries@)[j]).0
                    != #[trigger] array_keys()[k],
            forall|j: int, k: int|
                0 <= j < entries@.len() && 0 <= k < ARRAY_KEY_COUNT && (#[trigger] entries_view(entries@)[j]).0
                    == #[trigger] array_keys()[k] ==> json_array_items(entries_view(entries@)[j].1)
                    == Some(whole.arrays[k]),
            forall|j: int| 0 <= j < entries@.len() ==> (#[trigger] entries_view(entries@)[j]).0 != PARTIALS_KEY@,
            forall|a: int, b: int|
                0 <= a < ARRAY_KEY_COUNT && 0 <= b < ARRAY_KEY_COUNT && a != b ==> #[trigger] array_keys()[a]
                    != #[trigger] array_keys()[b],
            forall|a: int| 0 <= a < ARRAY_KEY_COUNT ==> #[trigger] array_keys()[a] != PARTIALS_KEY@,
        decreases key,
    {
        key = key - 1;
        let ghost before = entries_view(entries@);
        let items = remaining.pop().unwrap();
        let ghost head: Seq<Seq<char>> = if whole.arrays[key as int].len() > 0 {
            seq![array_keys()[key as int]]
        } else {
            Seq::empty()
        };
        proof {
            assert(array_keys_from(whole, key as int) == head + array_keys_from(whole, key as int + 1));
        }
        if items.len() > 0 {
            let name = owned(array_key(key));
            let value = json_array(items);
            entries.push((name, value));
            proof {
                let view = entries_view(entries@);
                assert(view =~= array_entries_down(whole, key as int));
                assert(view =~= before.push((array_keys()[key as int], value)));
                assert forall|j: int| 0 <= j < before.len() implies before[j].0 != array_keys()[key as int] by {
                    assert(view[j] == before[j]);
                }
                let rest = array_keys_from(whole, key as int + 1);
                let both = head + rest;
                assert forall|name: Seq<char>| has_key(view, name) == array_keys_from(whole, key as int).contains(
                    name,
                ) by {
                    if has_key(view, name) {
                        let j = choose|j: int| 0 <= j < view.len() && #[trigger] view[j].0 == name;
                        if j < before.len() {
                            assert(before[j].0 == name);
                            assert(has_key(before, name));
                            let k = choose|k: int| 0 <= k < rest.len() && #[trigger] rest[k] == name;
                            assert(both[head.len() + k] == name);
                        } else {
                            assert(both[0] == name);
                        }
                    }
                    if array_keys_from(whole, key as int).contains(name) {
                        let k = choose|k: int| 0 <= k < both.len() && #[trigger] both[k] == name;
                        if k == 0 {
                            assert(view[before.len() as int].0 == name);
                        } else {
                            assert(rest[k - 1] == name);
                            assert(has_key(before, name));
                            let j = choose|j: int| 0 <= j < before.len() && #[trigger] before[j].0 == name;
                            assert(view[j].0 == name);
                        }
                    }
                }
            }
        } else {
            proof {
                assert(entries_view(entries@) =~= array_entries_down(whole, key as int));
                assert(head =~= Seq::<Seq<char>>::empty());
                assert(head + array_keys_from(whole, key as int + 1) =~= array_keys_from(whole, key as int + 1));
            }
        }
    }
    let ghost arrays_done = entries_view(entries@);
    if partials.len() > 0 {
        let ghost partials_view = entries_view(partials@);
        let value = json_object(partials);
        entries.push((owned(PARTIALS_KEY), value));
        proof {
            let view = entries_view(entries@);
            assert(view =~= arrays_done.push((PARTIALS_KEY@, value)));
            assert(partials_view == whole.partials);
        }
    }
    let ghost view = entries_view(entries@);
    proof {
        assert(view =~= merged_entries(whole));
        assert(distinct_keys(view)) by {
            assert forall|i: int, j: int| 0 <= i < j < view.len() implies view[i].0 != view[j].0 by {
                if j >= arrays_done.len() {
                    assert(arrays_done[i] == view[i]);
                }
            }
        }
    }
    let document = json_object(entries);
    proof {
        let top = json_object_entries(document)->0;
        assert(array_keys_from(whole, 0) + Seq::<Seq<char>>::empty() =~= array_keys_from(whole, 0));
        assert forall|key: Seq<char>| has_key(view, key) == merged_keys(whole).contains(key) by {
            if has_key(view, key) {
                let j = choose|j: int| 0 <= j < view.len() && #[trigger] view[j].0 == key;
                if j < arrays_done.len() {
                    assert(arrays_done[j].0 == key);
                    assert(has_key(arrays_done, key));
                    let k = array_keys_from(whole, 0).index_of(key);
                    assert(merged_keys(whole)[k] == key);
                } else {
                    assert(merged_keys(whole)[array_keys_from(whole, 0).len() as int] == key);
                }
            }
            if merged_keys(whole).contains(key) {
                let k = choose|k: int| 0 <= k < merged_keys(whole).len() && merged_keys(whole)[k] == key;
                if k < array_keys_from(whole, 0).len() {
                    assert(array_keys_from(whole, 0)[k] == key);
                    assert(has_key(arrays_done, key));
                    let j = choose|j: int| 0 <= j < arrays_done.len() && #[trigger] arrays_done[j].0 == key;
                    assert(view[j].0 == key);
                } else {
                    assert(view[arrays_done.len() as int].0 == key);
                }
            }
        }
        assert forall|i: int| 0 <= i < top.len() implies holds_merged(#[trigger] top[i], whole) by {
            assert(has_key(top, top[i].0));
            let j = choose|j: int| 0 <= j < view.len() && #[trigger] view[j].0 == top[i].0;
            lemma_member_distinct(view, j);
            if j < arrays_done.len() {
                assert(view[j] == arrays_done[j]);
            }
        }
    }
    document
}

/// Named documents with their names read as characters.
pub open spec fn documents_view(documents: Seq<(String, serde_json::Value)>) -> Seq<(Seq<char>, serde_json::Value)> {
    documents.map_values(|document: (String, serde_json::Value)| (document.0@, document.1))
}

/// `files` are what the merge reads of the named `documents`, one for one,
/// in order.
pub open spec fn reads_documents(files: Seq<DefinitionFile>, documents: Seq<(Seq<char>, serde_json::Value)>) -> bool {
    &&& files.len() == documents.len()
    &&& forall|i: int| 0 <= i < files.len() ==> reads_document(#[trigger] files[i], documents[i].0, documents[i].1)
}

/// The merge reads the two files alike.
pub open spec fn same_reading(left: DefinitionFile, right: DefinitionFile) -> bool {
    &&& left.name@ == right.name@
    &&& left.is_map == right.is_map
    &&& arrays_view(left.arrays@) == arrays_view(right.arrays@)
    &&& entries_view(left.partials@) == entries_view(right.partials@)
}

/// Files with the same names pick the same file by name.
proof fn lemma_first_named_alike(left: Seq<DefinitionFile>, right: Seq<DefinitionFile>, name: Seq<char>)
    requires
        left.len() == right.len(),
        forall|i: int| 0 <= i < left.len() ==> same_reading(#[trigger] left[i], right[i]),
    ensures
        first_match(left, file_is(name)) == first_match(right, file_is(name)),
{
    lemma_first_match_facts(left, file_is(name));
    assert forall|j: int| 0 <= j < left.len() implies file_is(name)(#[trigger] left[j]) == file_is(name)(
        right[j],
    ) by {
        assert(same_reading(left[j], right[j]));
    }
    match first_match(left, file_is(name)) {
        Some(index) => {
            assert forall|j: int| 0 <= j < index implies !file_is(name)(#[trigger] right[j]) by {
                assert(!file_is(name)(left[j]));
            }
            assert(file_is(name)(left[index]));
            lemma_first_match_is(right, file_is(name), index);
        },
        None => {
            assert forall|j: int| 0 <= j < right.len() implies !file_is(name)(#[trigger] right[j]) by {
                assert(!file_is(name)(left[j]));
            }
            lemma_first_match_none(right, file_is(name));
        },
    }
}

/// Folding files the merge reads alike gives the same merge.
proof fn lemma_fold_alike(left: Seq<DefinitionFile>, right: Seq<DefinitionFile>, order: Seq<Seq<char>>)
    requires
        forall|k: int| 0 <= k < order.len() ==> same_reading(file_named(left, #[trigger] order[k]), file_named(right, order[k])),
    ensures
        merge_fold(left, order) == merge_fold(right, order),
    decreases order.len(),
{
    if order.len() > 0 {
        assert forall|k: int| 0 <= k < order.drop_last().len() implies same_reading(
            file_named(left, #[trigger] order.drop_last()[k]),
            file_named(right, order.drop_last()[k]),
        ) by {
            assert(order.drop_last()[k] == order[k]);
        }
        lemma_fold_alike(left, right, order.drop_last());
        let last = order[order.len() - 1];
        assert(same_reading(file_named(left, last), file_named(right, last)));
        match merge_fold(left, order.drop_last()) {
            Ok(merged) => {
                let l = file_named(left, last);
                let r = file_named(right, last);
                if l.is_map {
                    match add_partials(merged.partials, entries_view(l.partials@), l.name@) {
                        Ok(partials) => {
                            assert(add_file(merged, l) == add_file(merged, r)) by {
                                assert(Seq::new(ARRAY_KEY_COUNT as nat, |i: int| merged.arrays[i] + arrays_view(l.arrays@)[i])
                                    =~= Seq::new(ARRAY_KEY_COUNT as nat, |i: int| merged.arrays[i] + arrays_view(r.arrays@)[i]));
                            }
                        },
                        Err(_) => {},
                    }
                }
            },
            Err(_) => {},
        }
    }
}

/// The merge of files depends only on what it reads of them.
proof fn lemma_merge_alike(left: Seq<DefinitionFile>, right: Seq<DefinitionFile>)
    requires
        left.len() == right.len(),
        forall|i: int| 0 <= i < left.len() ==> same_reading(#[trigger] left[i], right[i]),
    ensures
        merge_outcome(left) == merge_outcome(right),
{
    assert(name_list(left) =~= name_list(right)) by {
        assert forall|i: int| 0 <= i < left.len() implies name_list(left)[i] == name_list(right)[i] by {
            assert(same_reading(left[i], right[i]));
        }
    }
    let order = merge_order(file_names(left));
    lemma_merge_order_within(name_list(left));
    assert forall|k: int| 0 <= k < order.len() implies same_reading(
        file_named(left, #[trigger] order[k]),
        file_named(right, order[k]),
    ) by {
        let name = order[k];
        assert(file_names(left).contains(name));
        let n = choose|n: int| 0 <= n < name_list(left).len() && name_list(left)[n] == name;
        assert(file_is(name)(left[n]));
        lemma_first_match_facts(left, file_is(name));
        lemma_first_named_alike(left, right, name);
        let index = first_match(left, file_is(name))->0;
        assert(same_reading(left[index], right[index]));
    }
    lemma_fold_alike(left, right, order);
}

/// What merging the files gives: the merged document as JSON, or the error.
pub open spec fn merge_document(files: Seq<DefinitionFile>) -> Result<serde_json::Value, Seq<char>> {
    match merge_outcome(files) {
        Ok(merged) => Ok(merged_json(merged)),
        Err(message) => Err(message),
    }
}

/// No two named documents share a name.
pub open spec fn distinct_document_names(documents: Seq<(Seq<char>, serde_json::Value)>) -> bool {
    forall|i: int, j: int| 0 <= i < j < documents.len() ==> documents[i].0 != documents[j].0
}

/// The merge does not depend on the order the named documents come in: the
/// same documents, each name once, in any order, give the same JSON document
/// or the same error.
pub proof fn lemma_merge_documents_order_independent(
    left_documents: Seq<(Seq<char>, serde_json::Value)>,
    right_documents: Seq<(Seq<char>, serde_json::Value)>,
    left_files: Seq<DefinitionFile>,
    right_files: Seq<DefinitionFile>,
)
    requires
        left_documents.to_set() == right_documents.to_set(),
        distinct_document_names(left_documents),
        distinct_document_names(right_documents),
        reads_documents(left_files, left_documents),
        reads_documents(right_files, right_documents),
    ensures
        merge_outcome(left_files) == merge_outcome(right_files),
        merge_document(left_files) == merge_document(right_files),
{
    assert forall|name: Seq<char>| file_names(left_files).contains(name) == file_names(right_files).contains(name) by {
        if file_names(left_files).contains(name) {
            let i = choose|i: int| 0 <= i < name_list(left_files).len() && name_list(left_files)[i] == name;
            assert(reads_document(left_files[i], left_documents[i].0, left_documents[i].1));
            assert(left_documents.to_set().contains(left_documents[i]));
            let k = choose|k: int| 0 <= k < right_documents.len() && right_documents[k] == left_documents[i];
            assert(reads_document(right_files[k], right_documents[k].0, right_documents[k].1));
            assert(name_list(right_files)[k] == name);
        }
        if file_names(right_files).contains(name) {
            let i = choose|i: int| 0 <= i < name_list(right_files).len() && name_list(right_files)[i] == name;
            assert(reads_document(right_files[i], right_documents[i].0, right_documents[i].1));
            assert(right_documents.to_set().contains(right_documents[i]));
            let k = choose|k: int| 0 <= k < left_documents.len() && left_documents[k] == right_documents[i];
            assert(reads_document(left_files[k], left_documents[k].0, left_documents[k].1));
            assert(name_list(left_files)[k] == name);
        }
    }
    assert(file_names(left_files) =~= file_names(right_files));
    let order = merge_order(file_names(left_files));
    lemma_merge_order_within(name_list(left_files));
    assert forall|o: int| 0 <= o < order.len() implies same_reading(
        file_named(left_files, #[trigger] order[o]),
        file_named(right_files, order[o]),
    ) by {
        let name = order[o];
        assert(file_names(left_files).contains(name));
        let n = choose|n: int| 0 <= n < name_list(left_files).len() && name_list(left_files)[n] == name;
        assert(file_is(name)(left_files[n]));
        lemma_first_match_facts(left_files, file_is(name));
        let i = first_match(left_files, file_is(name))->0;
        assert(reads_document(left_files[i], left_documents[i].0, left_documents[i].1));
        assert(left_documents.to_set().contains(left_documents[i]));
        let k = choose|k: int| 0 <= k < right_documents.len() && right_documents[k] == left_documents[i];
        assert(reads_document(right_files[k], right_documents[k].0, right_documents[k].1));
        assert(file_is(name)(right_files[k]));
        lemma_first_match_facts(right_files, file_is(name));
        let j = first_match(right_files, file_is(name))->0;
        assert(reads_document(right_files[j], right_documents[j].0, right_documents[j].1));
        assert(j == k) by {
            if j != k {
                assert(right_documents[j].0 == right_documents[k].0);
                if j < k {
                    assert(right_documents[j].0 != right_documents[k].0);
                } else {
                    assert(right_documents[k].0 != right_documents[j].0);
                }
            }
        }
    }
    lemma_fold_alike(left_files, right_files, order);
}

/// Merges parsed definition files, named, into one JSON document: each file is
/// read as `read_definition` reads it, and the files merge as
/// `merge_definitions` merges them.
pub fn merge(documents: &Vec<(String, serde_json::Value)>) -> (outcome: Result<serde_json::Value, LaxError>)
    ensures
        exists|files: Seq<DefinitionFile>| #[trigger] reads_documents(files, documents_view(documents@)),
        forall|files: Seq<DefinitionFile>| #[trigger]
            reads_documents(files, documents_view(documents@)) ==> match merge_outcome(files) {
                Ok(merged) => (outcome matches Ok(document) && document == merged_json(merged) && merged_document(
                    document,
                    merged,
                )),
                Err(message) => (outcome matches Err(error) && error@ == LaxErrorView::Merge(message)),
            },
{
    let mut files: Vec<DefinitionFile> = Vec::new();
    let mut index: usize = 0;
    while index < documents.len()
        invariant
            0 <= index <= documents.len(),
            files@.len() == index,
            forall|i: int| 0 <= i < index ==> reads_document(#[trigger] files@[i], documents@[i].0@, documents@[i].1),
        decreases documents.len() - index,
    {
        files.push(read_definition(documents[index].0.clone(), &documents[index].1));
        index = index + 1;
    }
    let ghost read = files@;
    let ghost named = documents_view(documents@);
    assert(reads_documents(read, named)) by {
        assert forall|i: int| 0 <= i < read.len() implies reads_document(#[trigger] read[i], named[i].0, named[i].1) by {
            assert(reads_document(read[i], documents@[i].0@, documents@[i].1));
        }
    }
    proof {
        assert forall|other: Seq<DefinitionFile>| #[trigger] reads_documents(other, named) implies merge_outcome(
            other,
        ) == merge_outcome(read) by {
            assert forall|i: int| 0 <= i < other.len() implies same_reading(#[trigger] other[i], read[i]) by {
                assert(reads_document(other[i], named[i].0, named[i].1));
                assert(reads_document(read[i], named[i].0, named[i].1));
            }
            lemma_merge_alike(other, read);
        }
    }
    let merged = merge_definitions(&files)?;
    proof {
        lemma_merged_partials_distinct(read);
    }
    Ok(merged_value(merged))
}

// ── grammar check ──────────────────────────────────────────────────────────

/// What checking a document against a JSON Schema gives.
pub enum SchemaCheck {
    /// The document meets the schema.
    Valid,
    /// The schema does not compile, with the compiler's message.
    Invalid(String),
    /// The document breaks the schema, with the first violation's message.
    Violation(String),
}

/// The message `serde_json` gives for text it cannot read as a JSON value,
/// or `None` when it reads it; a function of the text alone.
pub uninterp spec fn json_error_of(text: Seq<char>) -> Option<Seq<char>>;

/// The JSON value `serde_json` reads from text that parses; a function of
/// the text alone.
pub uninterp spec fn json_value_of(text: Seq<char>) -> serde_json::Value;

/// Wraps `serde_json::from_str::<serde_json::Value>`: the value the text
/// holds, or the parser's message.
#[verifier::external_body]
fn json_from_str(text: &str) -> (parsed: Result<serde_json::Value, String>)
    ensures
        match json_error_of(text@) {
            None => parsed matches Ok(value) && value == json_value_of(text@),
            Some(message) => parsed matches Err(error) && error@ == message,
        },
{
    serde_json::from_str::<serde_json::Value>(text).map_err(|error| error.to_string())
}

/// Whether `jsonschema` compiles the JSON value as a Draft 2020-12 schema; a
/// function of the schema alone (no remote reference is resolved in this
/// build).
pub uninterp spec fn schema_compiles(schema: serde_json::Value) -> bool;

/// Whether a document meets a compiled Draft 2020-12 schema; a function of
/// the two values alone.
pub uninterp spec fn schema_accepts(schema: serde_json::Value, document: serde_json::Value) -> bool;

/// The message `jsonschema` gives for a schema it does not compile; a
/// function of the schema alone.
pub uninterp spec fn schema_error_of(schema: serde_json::Value) -> Seq<char>;

/// The message of the violation `validate` reports for a document that breaks
/// a compiled schema; a function of the two values alone.
pub uninterp spec fn schema_violation_of(schema: serde_json::Value, document: serde_json::Value) -> Seq<char>;

/// Wraps `jsonschema::draft202012::new` and the `validate` of the validator
/// it returns (the validator stays inside: its type cannot be declared to the
/// proofs): `Invalid` with the compiler's message exactly when the schema does
/// not compile, `Valid` exactly when it compiles and the document meets it,
/// `Violation` with the reported violation's message otherwise.
#[verifier::external_body]
fn check_against_schema(schema: &serde_json::Value, document: &serde_json::Value) -> (check: SchemaCheck)
    ensures
        (check is Invalid) == !schema_compiles(*schema),
        (check is Valid) == (schema_compiles(*schema) && schema_accepts(*schema, *document)),
        check matches SchemaCheck::Invalid(message) ==> message@ == schema_error_of(*schema),
        check matches SchemaCheck::Violation(message) ==> message@ == schema_violation_of(*schema, *document),
{
    match jsonschema::draft202012::new(schema) {
        Err(error) => SchemaCheck::Invalid(error.to_string()),
        Ok(validator) => match validator.validate(document) {
            Ok(()) => SchemaCheck::Valid,
            Err(error) => SchemaCheck::Violation(error.to_string()),
        },
    }
}

/// What checking a document against the schema text comes to.
pub enum SchemaVerdict {
    /// The schema text parses, compiles, and the document meets it.
    Accepted,
    /// The schema text is not JSON, with the parser's message.
    Unreadable(Seq<char>),
    /// The schema does not compile, with the compiler's message.
    Invalid(Seq<char>),
    /// The document breaks the schema, with the violation's message.
    Violated(Seq<char>),
}

/// The verdict on `document` of the schema written in `schema_text`.
pub open spec fn schema_verdict(document: serde_json::Value, schema_text: Seq<char>) -> SchemaVerdict {
    match json_error_of(schema_text) {
        Some(message) => SchemaVerdict::Unreadable(message),
        None => {
            let schema = json_value_of(schema_text);
            if !schema_compiles(schema) {
                SchemaVerdict::Invalid(schema_error_of(schema))
            } else if schema_accepts(schema, document) {
                SchemaVerdict::Accepted
            } else {
                SchemaVerdict::Violated(schema_violation_of(schema, document))
            }
        },
    }
}

/// The error a verdict gives, if any: `Json` with the parser's message,
/// `SchemaInvalid` with `aggregate-schema.json: ` and the compiler's message,
/// `SchemaViolation` with the violation's message.
pub open spec fn verdict_error(verdict: SchemaVerdict, error: LaxErrorView) -> bool {
    match verdict {
        SchemaVerdict::Accepted => false,
        SchemaVerdict::Unreadable(message) => error == LaxErrorView::Json(message),
        SchemaVerdict::Invalid(message) => error == LaxErrorView::SchemaInvalid("aggregate-schema.json: "@ + message),
        SchemaVerdict::Violated(message) => error == LaxErrorView::SchemaViolation(message),
    }
}

/// Checks the merged document against the grammar's JSON Schema (given as
/// text): schema text that is not JSON is a driver error, a schema that does
/// not compile is `SchemaInvalid`, a document that breaks it `SchemaViolation`.
pub fn validate_schema(document: &serde_json::Value, schema_text: &str) -> (outcome: Result<(), LaxError>)
    ensures
        match schema_verdict(*document, schema_text@) {
            SchemaVerdict::Accepted => outcome is Ok,
            verdict => outcome matches Err(error) && verdict_error(verdict, error@),
        },
{
    let schema = match json_from_str(schema_text) {
        Ok(schema) => schema,
        Err(message) => return Err(LaxError::Driver(DriverError::Json(message))),
    };
    match check_against_schema(&schema, document) {
        SchemaCheck::Valid => Ok(()),
        SchemaCheck::Invalid(message) => Err(
            CodexError::schema_invalid(joined("aggregate-schema.json: ", message.as_str())),
        ),
        SchemaCheck::Violation(message) => Err(CodexError::schema_violation(message)),
    }
}

/// Parses the named YAML definition files, merges them and checks the merged
/// document against the grammar's schema: the first text that does not parse
/// gives the error; otherwise the merge's error, if any; otherwise the merged
/// document when the schema accepts it, and the schema's error when not.
pub fn compile_merged(
    yaml_driver: &crate::yaml::YamlDriver,
    contents: &Vec<(String, String)>,
    schema_text: &str,
) -> (outcome: Result<serde_json::Value, LaxError>)
    ensures
        match crate::yaml::first_yaml_error(contents@) {
            Some(index) => outcome matches Err(error) && error@ == LaxErrorView::Yaml(
                crate::yaml::yaml_error_of(contents@[index].1@)->0,
            ),
            None => forall|files: Seq<DefinitionFile>| #[trigger]
                reads_documents(files, crate::yaml::yaml_documents(contents@)) ==> match merge_outcome(files) {
                    Err(message) => (outcome matches Err(error) && error@ == LaxErrorView::Merge(message)),
                    Ok(merged) => match schema_verdict(merged_json(merged), schema_text@) {
                        SchemaVerdict::Accepted => (outcome matches Ok(document) && document == merged_json(merged)),
                        verdict => (outcome matches Err(error) && verdict_error(verdict, error@)),
                    },
                },
        },
{
    let parsed = yaml_driver.parse_many(contents)?;
    let merged = merge(&parsed)?;
    validate_schema(&merged, schema_text)?;
    Ok(merged)
}

// ── the typed document to the catalog ──────────────────────────────────────

/// What partial expansion makes of a document (see `expand_partials`).
pub open spec fn expansion_of(expanded: RawCodexDocument, document: RawCodexDocument) -> bool {
    &&& expanded.x_partials@.len() == 0
    &&& expanded.types == document.types
    &&& expanded.tables@.len() == document.tables@.len()
    &&& expanded.views@.len() == document.views@.len()
    &&& forall|i: int|
        0 <= i < document.tables@.len() ==> crate::dtos::document::table_expanded(
            #[trigger] expanded.tables@[i],
            document.tables@[i],
            document.x_partials@,
        )
    &&& forall|i: int|
        0 <= i < document.views@.len() ==> crate::dtos::document::view_expanded(
            #[trigger] expanded.views@[i],
            document.views@[i],
            document.x_partials@,
        )
}

/// What the catalog holds of a document it was built from (see `into_catalog`).
pub open spec fn catalog_of(catalog: RawCodexCatalog, document: RawCodexDocument) -> bool {
    &&& crate::catalog::relation::relation_views(catalog.relations@) == crate::dtos::document::catalog_relations(
        document.tables@,
        document.views@,
        crate::error::texts(crate::dtos::document::enum_names_of(document.types@)),
    )
    &&& crate::dtos::document::aggregate_views(catalog.aggregates@) == crate::dtos::document::catalog_aggregates(
        document.tables@,
        document.views@,
    )
    &&& crate::seqs::map_entries(catalog.enum_types@, crate::dtos::document::strings_view())
        == crate::dtos::document::enum_entries(document.types@)
}

/// Expands the partials of the typed document, runs the semantic pass and
/// lowers it into the catalog.
pub fn compile_document(document: RawCodexDocument) -> (outcome: Result<RawCodexCatalog, LaxError>)
    ensures
        match crate::dtos::document::partials_failure(document.tables@, document.views@, document.x_partials@) {
            Some(message) => outcome matches Err(error) && error@ == LaxErrorView::Partials(message),
            None => exists|expanded: RawCodexDocument|
                #[trigger] expansion_of(expanded, document) && match crate::dtos::semantic::semantic_failure(
                    expanded,
                ) {
                    Some(failure) => outcome matches Err(error) && error@ == failure,
                    None => outcome matches Ok(catalog) && catalog_of(catalog, expanded),
                },
        },
{
    let ghost original = document;
    let mut document = document;
    document.expand_partials()?;
    proof {
        assert(expansion_of(document, original));
    }
    crate::dtos::semantic::check(&document)?;
    Ok(document.into_catalog())
}

// ── every partial is declared once ─────────────────────────────────────────

/// No two entries share a key.
pub open spec fn distinct_keys(entries: Seq<(Seq<char>, serde_json::Value)>) -> bool {
    forall|i: int, j: int| 0 <= i < j < entries.len() ==> entries[i].0 != entries[j].0
}

/// Adding partials keeps the keys distinct.
proof fn lemma_add_partials_distinct(
    existing: Seq<(Seq<char>, serde_json::Value)>,
    entries: Seq<(Seq<char>, serde_json::Value)>,
    file: Seq<char>,
)
    requires
        distinct_keys(existing),
    ensures
        add_partials(existing, entries, file) matches Ok(added) ==> distinct_keys(added),
    decreases entries.len(),
{
    if entries.len() > 0 {
        lemma_add_partials_distinct(existing, entries.drop_last(), file);
        match add_partials(existing, entries.drop_last(), file) {
            Ok(so_far) => {
                if !has_key(so_far, entries.last().0) {
                    let added = so_far.push(entries.last());
                    assert forall|i: int, j: int| 0 <= i < j < added.len() implies added[i].0 != added[j].0 by {
                        if j == added.len() - 1 {
                            assert(so_far[i].0 != entries.last().0);
                        }
                    }
                }
            },
            Err(_) => {},
        }
    }
}

/// Folding files keeps the partial keys distinct.
proof fn lemma_fold_distinct(files: Seq<DefinitionFile>, order: Seq<Seq<char>>)
    ensures
        merge_fold(files, order) matches Ok(merged) ==> distinct_keys(merged.partials),
    decreases order.len(),
{
    if order.len() > 0 {
        lemma_fold_distinct(files, order.drop_last());
        match merge_fold(files, order.drop_last()) {
            Ok(merged) => {
                let file = file_named(files, order.last());
                lemma_add_partials_distinct(merged.partials, entries_view(file.partials@), file.name@);
            },
            Err(_) => {},
        }
    }
}

/// A partial column set is declared once across all files: a merge that
/// succeeds never holds two partials of the same name.
pub proof fn lemma_merged_partials_distinct(files: Seq<DefinitionFile>)
    ensures
        merge_outcome(files) matches Ok(merged) ==> distinct_keys(merged.partials),
{
    lemma_fold_distinct(files, merge_order(file_names(files)));
}

// ── definition files on disk ───────────────────────────────────────────────

/// The definition files of the schema: each name with its path under the
/// schema directory, shared types first.
pub open spec fn schema_file_list() -> Seq<(Seq<char>, Seq<char>)> {
    seq![
        ("shared"@, "definitions/shared.yml"@),
        ("execution"@, "definitions/execution.yml"@),
        ("node_execution"@, "definitions/node_execution.yml"@),
        ("flow/root"@, "definitions/flow/root.yml"@),
        ("flow/connection"@, "definitions/flow/connection.yml"@),
        ("flow/destination"@, "definitions/flow/destination.yml"@),
        ("flow/node"@, "definitions/flow/node.yml"@),
        ("flow/history"@, "definitions/flow/history.yml"@),
    ]
}

/// The definition files of the schema, by name and path.
pub fn schema_files() -> (files: Vec<(String, String)>)
    ensures
        files@.map_values(|entry: (String, String)| (entry.0@, entry.1@)) == schema_file_list(),
{
    let mut files: Vec<(String, String)> = Vec::new();
    files.push((owned("shared"), owned("definitions/shared.yml")));
    files.push((owned("execution"), owned("definitions/execution.yml")));
    files.push((owned("node_execution"), owned("definitions/node_execution.yml")));
    files.push((owned("flow/root"), owned("definitions/flow/root.yml")));
    files.push((owned("flow/connection"), owned("definitions/flow/connection.yml")));
    files.push((owned("flow/destination"), owned("definitions/flow/destination.yml")));
    files.push((owned("flow/node"), owned("definitions/flow/node.yml")));
    files.push((owned("flow/history"), owned("definitions/flow/history.yml")));
    proof {
        assert(files@.map_values(|entry: (String, String)| (entry.0@, entry.1@)) =~= schema_file_list());
    }
    files
}

/// Each definition file's name beside its text, in the order of
/// `schema_file_list`.
pub open spec fn named_contents(contents: Seq<String>) -> Seq<(Seq<char>, Seq<char>)> {
    Seq::new(schema_file_list().len(), |index: int| (schema_file_list()[index].0, contents[index]@))
}

/// The schema's definition texts by name: `contents` holds the text of each
/// file of `schema_file_list`, in its order.
pub fn schemas(contents: Vec<String>) -> (named: Vec<(String, String)>)
    requires
        contents.len() == schema_file_list().len(),
    ensures
        named@.map_values(|entry: (String, String)| (entry.0@, entry.1@)) == named_contents(contents@),
{
    let files = schema_files();
    let total = files.len();
    let mut named: Vec<(String, String)> = Vec::new();
    let mut index: usize = 0;
    while index < total
        invariant
            total == files.len(),
            files@.map_values(|entry: (String, String)| (entry.0@, entry.1@)) == schema_file_list(),
            contents.len() == total,
            index <= total,
            named.len() == index,
            forall|k: int|
                0 <= k < index ==> (#[trigger] named@[k]).0@ == schema_file_list()[k].0
                    && named@[k].1@ == contents@[k]@,
        decreases total - index,
    {
        proof {
            assert(files@.map_values(|entry: (String, String)| (entry.0@, entry.1@))[index as int]
                == (files@[index as int].0@, files@[index as int].1@));
        }
        let name = files[index].0.clone();
        let text = contents[index].clone();
        named.push((name, text));
        index = index + 1;
    }
    proof {
        assert(named@.map_values(|entry: (String, String)| (entry.0@, entry.1@)) =~= named_contents(contents@));
    }
    named
}

} // verus!
