//! The semantic pass: the rules a schema must keep beyond its grammar.
//! Every rule names the first declaration that breaks it.

use vstd::prelude::*;

use crate::catalog::column::{CodexRole, is_built_in_type_name};
use crate::catalog::aggregate::shape_parts;
use crate::catalog::read_shape::{DEFAULT_LIST, ReadShape};
use crate::dtos::column::RawCodexColumnDefinition;
use crate::dtos::document::{RawCodexDocument, enum_names_of, id_column_or_empty};
use crate::dtos::select::{RawCodexSelectItem, item_display_name, overrides_of};
use crate::dtos::view::{RawCodexView, id_items, shape_of};
use crate::dtos::table::{
    RawCodexTable, is_cqrs_table, parent_aggregate_of, single_id_column, with_role,
};
use crate::error::{CodexError, LaxError, LaxErrorView, texts};
use crate::seqs::{
    first_match, lemma_first_match_is, lemma_first_match_none, lemma_put_value_map, lemma_take_all,
    key_texts, lemma_key_texts_map, lookup_value, map_entries, optional_text_equal, put_value, store_value, text_of, text_of_str,
    value_at,
};
use crate::text::{
    decimal, decimal_text, lemma_sorted_texts, owned, sorted_distinct, sorted_texts, str_equal,
};

verus! {

/// Column name excluded from the primary-key comparison.
pub const COL_VERSION: &'static str = "version";

/// Reads a string as its characters.
pub open spec fn string_view() -> spec_fn(String) -> Seq<char> {
    |text: String| text@
}

/// The error of the first item that fails, if any.
pub open spec fn first_failure<T>(
    items: Seq<T>,
    fails: spec_fn(T) -> bool,
    message: spec_fn(T) -> LaxErrorView,
) -> Option<LaxErrorView> {
    match first_match(items, fails) {
        Some(index) => Some(message(items[index])),
        None => None,
    }
}

// ── aggregate roots ────────────────────────────────────────────────────────

/// Aggregate name to the id column of its root table, a later root table of
/// the same aggregate replacing an earlier one.
pub open spec fn semantic_roots(tables: Seq<RawCodexTable>) -> Seq<(String, Seq<char>)>
    decreases tables.len(),
{
    if tables.len() == 0 {
        Seq::empty()
    } else {
        let earlier = semantic_roots(tables.drop_last());
        let table = tables.last();
        match table.x_aggregate {
            Some(declared) => put_value(earlier, declared.name, id_column_or_empty(table)),
            None => earlier,
        }
    }
}

/// "The table is an aggregate root without exactly one Id column."
pub open spec fn root_without_id() -> spec_fn(RawCodexTable) -> bool {
    |table: RawCodexTable| table.x_aggregate is Some && single_id_column(table.columns@) is None
}

pub open spec fn root_without_id_message() -> spec_fn(RawCodexTable) -> LaxErrorView {
    |table: RawCodexTable|
        LaxErrorView::Semantic(
            "aggregate root `"@ + table.name@ + "` must declare exactly one column with `x_role: Id`"@,
        )
}

/// The error of the first aggregate root without exactly one Id column.
pub open spec fn roots_failure(tables: Seq<RawCodexTable>) -> Option<LaxErrorView> {
    first_failure(tables, root_without_id(), root_without_id_message())
}

/// Aggregate name to root id column, or the error of the first root without one.
pub fn collect_aggregate_roots(tables: &Vec<RawCodexTable>) -> (roots: Result<Vec<(String, String)>, LaxError>)
    ensures
        match roots_failure(tables@) {
            Some(failure) => roots matches Err(error) && error@ == failure,
            None => roots matches Ok(entries) && map_entries(entries@, string_view()) == semantic_roots(
                tables@,
            ),
        },
{
    let mut roots: Vec<(String, String)> = Vec::new();
    let mut index: usize = 0;
    while index < tables.len()
        invariant
            0 <= index <= tables.len(),
            map_entries(roots@, string_view()) == semantic_roots(tables@.take(index as int)),
            forall|j: int| 0 <= j < index ==> !root_without_id()(#[trigger] tables@[j]),
        decreases tables.len() - index,
    {
        proof {
            let longer = tables@.take(index + 1);
            assert(longer.drop_last() =~= tables@.take(index as int));
            assert(longer.last() == tables@[index as int]);
        }
        let table = &tables[index];
        if let Some(x_aggregate) = &table.x_aggregate {
            match table.id_column() {
                Some(id_column) => {
                    let name = x_aggregate.name.clone();
                    proof {
                        lemma_put_value_map(roots@, string_view(), name, id_column);
                    }
                    store_value(&mut roots, name, id_column);
                },
                None => {
                    proof {
                        lemma_first_match_is(tables@, root_without_id(), index as int);
                    }
                    let mut message = owned("aggregate root `");
                    message.append(table.name.as_str());
                    message.append("` must declare exactly one column with `x_role: Id`");
                    return Err(CodexError::semantic(message));
                },
            }
        }
        index = index + 1;
    }
    proof {
        lemma_take_all(tables@);
        lemma_first_match_none(tables@, root_without_id());
    }
    Ok(roots)
}

// ── roles on CQRS tables ───────────────────────────────────────────────────

/// The error a CQRS table's Id column raises against the roots, if any: it
/// must have exactly one, and an entity or sink table must carry the root's.
pub open spec fn role_error(table: RawCodexTable, roots: Seq<(String, Seq<char>)>) -> Option<LaxErrorView> {
    let id_count = with_role(table.columns@, CodexRole::Id).len();
    if !is_cqrs_table(table) {
        None
    } else if id_count != 1 {
        Some(
            LaxErrorView::Semantic(
                "table `"@ + table.name@ + "` must have exactly one `x_role: Id` column (found "@
                    + decimal_text(id_count) + ")"@,
            ),
        )
    } else {
        match parent_aggregate_of(table) {
            None => None,
            Some(parent) => match value_at(roots, parent) {
                None => None,
                Some(root_id) => {
                    let id_name = id_column_or_empty(table);
                    if id_name == root_id {
                        None
                    } else {
                        Some(
                            LaxErrorView::Semantic(
                                "table `"@ + table.name@ + "`: `x_role: Id` column is `"@ + id_name
                                    + "` but aggregate `"@ + parent + "` uses `"@ + root_id
                                    + "` — entity and sink tables must carry the root's Id column"@,
                            ),
                        )
                    }
                },
            },
        }
    }
}

pub open spec fn role_fails(roots: Seq<(String, Seq<char>)>) -> spec_fn(RawCodexTable) -> bool {
    |table: RawCodexTable| role_error(table, roots) is Some
}

pub open spec fn role_message(roots: Seq<(String, Seq<char>)>) -> spec_fn(RawCodexTable) -> LaxErrorView {
    |table: RawCodexTable| role_error(table, roots).unwrap()
}

/// Every CQRS table has exactly one Id column, and entity and sink tables
/// carry their root's Id column.
pub fn check_roles_on_tables(tables: &Vec<RawCodexTable>, roots: &Vec<(String, String)>) -> (outcome: Result<
    (),
    LaxError,
>)
    ensures
        match first_failure(
            tables@,
            role_fails(map_entries(roots@, string_view())),
            role_message(map_entries(roots@, string_view())),
        ) {
            Some(failure) => outcome matches Err(error) && error@ == failure,
            None => outcome is Ok,
        },
{
    let ghost root_views = map_entries(roots@, string_view());
    let mut index: usize = 0;
    while index < tables.len()
        invariant
            0 <= index <= tables.len(),
            root_views == map_entries(roots@, string_view()),
            forall|j: int| 0 <= j < index ==> !role_fails(root_views)(#[trigger] tables@[j]),
        decreases tables.len() - index,
    {
        let table = &tables[index];
        if table.is_cqrs() {
            let id_count = table.count_role(CodexRole::Id);
            if id_count != 1 {
                proof {
                    lemma_first_match_is(tables@, role_fails(root_views), index as int);
                }
                let mut message = owned("table `");
                message.append(table.name.as_str());
                message.append("` must have exactly one `x_role: Id` column (found ");
                message.append(decimal(id_count).as_str());
                message.append(")");
                return Err(CodexError::semantic(message));
            }
            if let Some(parent_aggregate) = table.parent_aggregate() {
                proof {
                    crate::seqs::lemma_key_position_map(roots@, string_view(), parent_aggregate@);
                    crate::seqs::lemma_first_match_facts(roots@, crate::seqs::key_is::<String>(parent_aggregate@));
                }
                if let Some(root_id) = lookup_value(roots, parent_aggregate) {
                    proof {
                        let position = crate::seqs::key_position(roots@, parent_aggregate@);
                        assert(root_views[position.unwrap()] == (roots@[position.unwrap()].0, roots@[position.unwrap()].1@));
                    }
                    let id_name = match table.id_column() {
                        Some(name) => name,
                        None => String::new(),
                    };
                    if !str_equal(id_name.as_str(), root_id.as_str()) {
                        proof {
                            lemma_first_match_is(tables@, role_fails(root_views), index as int);
                        }
                        let mut message = owned("table `");
                        message.append(table.name.as_str());
                        message.append("`: `x_role: Id` column is `");
                        message.append(id_name.as_str());
                        message.append("` but aggregate `");
                        message.append(parent_aggregate);
                        message.append("` uses `");
                        message.append(root_id.as_str());
                        message.append("` — entity and sink tables must carry the root's Id column");
                        return Err(CodexError::semantic(message));
                    }
                }
            }
        }
        index = index + 1;
    }
    proof {
        lemma_first_match_none(tables@, role_fails(root_views));
    }
    Ok(())
}


// ── references that must resolve ───────────────────────────────────────────

/// "The table's `x_entity.aggregate` names no aggregate root."
pub open spec fn entity_unresolved(roots: Seq<(String, Seq<char>)>) -> spec_fn(RawCodexTable) -> bool {
    |table: RawCodexTable|
        table.x_entity matches Some(entity) && value_at(roots, entity.aggregate@) is None
}

pub open spec fn entity_unresolved_message() -> spec_fn(RawCodexTable) -> LaxErrorView {
    |table: RawCodexTable|
        LaxErrorView::Semantic(
            "x_entity.aggregate `"@ + table.x_entity.unwrap().aggregate@
                + "` does not match any x_aggregate.name"@,
        )
}

pub fn check_entity_aggregates_resolve(tables: &Vec<RawCodexTable>, roots: &Vec<(String, String)>) -> (outcome:
    Result<(), LaxError>)
    ensures
        match first_failure(
            tables@,
            entity_unresolved(map_entries(roots@, string_view())),
            entity_unresolved_message(),
        ) {
            Some(failure) => outcome matches Err(error) && error@ == failure,
            None => outcome is Ok,
        },
{
    let ghost root_views = map_entries(roots@, string_view());
    let mut index: usize = 0;
    while index < tables.len()
        invariant
            0 <= index <= tables.len(),
            root_views == map_entries(roots@, string_view()),
            forall|j: int| 0 <= j < index ==> !entity_unresolved(root_views)(#[trigger] tables@[j]),
        decreases tables.len() - index,
    {
        if let Some(x_entity) = &tables[index].x_entity {
            proof {
                crate::seqs::lemma_key_position_map(roots@, string_view(), x_entity.aggregate@);
            }
            if lookup_value(roots, x_entity.aggregate.as_str()).is_none() {
                proof {
                    lemma_first_match_is(tables@, entity_unresolved(root_views), index as int);
                }
                let mut message = owned("x_entity.aggregate `");
                message.append(x_entity.aggregate.as_str());
                message.append("` does not match any x_aggregate.name");
                return Err(CodexError::semantic(message));
            }
        }
        index = index + 1;
    }
    proof {
        lemma_first_match_none(tables@, entity_unresolved(root_views));
    }
    Ok(())
}

/// "The table's `x_sink.aggregate` names no aggregate root."
pub open spec fn sink_unresolved(roots: Seq<(String, Seq<char>)>) -> spec_fn(RawCodexTable) -> bool {
    |table: RawCodexTable| table.x_sink matches Some(sink) && value_at(roots, sink.aggregate@) is None
}

pub open spec fn sink_unresolved_message() -> spec_fn(RawCodexTable) -> LaxErrorView {
    |table: RawCodexTable|
        LaxErrorView::Semantic(
            "x_sink.aggregate `"@ + table.x_sink.unwrap().aggregate@ + "` does not match any x_aggregate.name"@,
        )
}

pub fn check_sinks_resolve(tables: &Vec<RawCodexTable>, roots: &Vec<(String, String)>) -> (outcome: Result<
    (),
    LaxError,
>)
    ensures
        match first_failure(tables@, sink_unresolved(map_entries(roots@, string_view())), sink_unresolved_message()) {
            Some(failure) => outcome matches Err(error) && error@ == failure,
            None => outcome is Ok,
        },
{
    let ghost root_views = map_entries(roots@, string_view());
    let mut index: usize = 0;
    while index < tables.len()
        invariant
            0 <= index <= tables.len(),
            root_views == map_entries(roots@, string_view()),
            forall|j: int| 0 <= j < index ==> !sink_unresolved(root_views)(#[trigger] tables@[j]),
        decreases tables.len() - index,
    {
        if let Some(x_sink) = &tables[index].x_sink {
            proof {
                crate::seqs::lemma_key_position_map(roots@, string_view(), x_sink.aggregate@);
            }
            if lookup_value(roots, x_sink.aggregate.as_str()).is_none() {
                proof {
                    lemma_first_match_is(tables@, sink_unresolved(root_views), index as int);
                }
                let mut message = owned("x_sink.aggregate `");
                message.append(x_sink.aggregate.as_str());
                message.append("` does not match any x_aggregate.name");
                return Err(CodexError::semantic(message));
            }
        }
        index = index + 1;
    }
    proof {
        lemma_first_match_none(tables@, sink_unresolved(root_views));
    }
    Ok(())
}

/// "The column's type is neither built in nor a declared enum."
pub open spec fn type_unresolved(enums: Seq<Seq<char>>) -> spec_fn((String, RawCodexColumnDefinition)) -> bool {
    |entry: (String, RawCodexColumnDefinition)|
        !is_built_in_type_name(entry.1.schema_type@) && !enums.contains(entry.1.schema_type@)
}

/// "Some column of the table has an unresolved type."
pub open spec fn table_type_unresolved(enums: Seq<Seq<char>>) -> spec_fn(RawCodexTable) -> bool {
    |table: RawCodexTable| first_match(table.columns@, type_unresolved(enums)) is Some
}

/// The error of the first column of the table with an unresolved type.
pub open spec fn type_unresolved_message(enums: Seq<Seq<char>>) -> spec_fn(RawCodexTable) -> LaxErrorView {
    |table: RawCodexTable|
        {
            let entry = table.columns@[first_match(table.columns@, type_unresolved(enums)).unwrap()];
            LaxErrorView::Semantic(
                "column `"@ + table.name@ + "."@ + entry.0@ + "`: type `"@ + entry.1.schema_type@
                    + "` is not a built-in or declared enum"@,
            )
        }
}

/// Whether `name` is one of `names`.
fn contains_text(names: &Vec<String>, name: &str) -> (found: bool)
    ensures
        found == texts(names@).contains(name@),
{
    let mut index: usize = 0;
    while index < names.len()
        invariant
            0 <= index <= names.len(),
            forall|j: int| 0 <= j < index ==> names@[j]@ != name@,
        decreases names.len() - index,
    {
        if str_equal(names[index].as_str(), name) {
            proof {
                assert(texts(names@)[index as int] == name@);
            }
            return true;
        }
        index = index + 1;
    }
    proof {
        if texts(names@).contains(name@) {
            let j = choose|j: int| 0 <= j < texts(names@).len() && texts(names@)[j] == name@;
            assert(names@[j]@ == name@);
        }
    }
    false
}

/// Whether `name` is one of the built-in schema type names.
fn is_built_in_type(name: &str) -> (built_in: bool)
    ensures
        built_in == is_built_in_type_name(name@),
{
    str_equal(name, "text") || str_equal(name, "uuid") || str_equal(name, "boolean") || str_equal(
        name,
        "timestamptz",
    ) || str_equal(name, "jsonb") || str_equal(name, "bigint") || str_equal(name, "integer")
        || str_equal(name, "smallint") || str_equal(name, "text[]")
}

/// Every column's type is built in or a declared enum.
pub fn check_column_types_resolve(tables: &Vec<RawCodexTable>, enum_names: &Vec<String>) -> (outcome: Result<
    (),
    LaxError,
>)
    ensures
        match first_failure(
            tables@,
            table_type_unresolved(texts(enum_names@)),
            type_unresolved_message(texts(enum_names@)),
        ) {
            Some(failure) => outcome matches Err(error) && error@ == failure,
            None => outcome is Ok,
        },
{
    let ghost enums = texts(enum_names@);
    let mut index: usize = 0;
    while index < tables.len()
        invariant
            0 <= index <= tables.len(),
            enums == texts(enum_names@),
            forall|j: int| 0 <= j < index ==> !table_type_unresolved(enums)(#[trigger] tables@[j]),
        decreases tables.len() - index,
    {
        let table = &tables[index];
        let mut position: usize = 0;
        while position < table.columns.len()
            invariant
                0 <= position <= table.columns.len(),
                0 <= index < tables.len(),
                *table == tables@[index as int],
                enums == texts(enum_names@),
                forall|j: int| 0 <= j < index ==> !table_type_unresolved(enums)(#[trigger] tables@[j]),
                forall|j: int| 0 <= j < position ==> !type_unresolved(enums)(#[trigger] table.columns@[j]),
            decreases table.columns.len() - position,
        {
            let entry = &table.columns[position];
            let schema_type = entry.1.schema_type.as_str();
            if !is_built_in_type(schema_type) && !contains_text(enum_names, schema_type) {
                proof {
                    lemma_first_match_is(table.columns@, type_unresolved(enums), position as int);
                    lemma_first_match_is(tables@, table_type_unresolved(enums), index as int);
                }
                let mut message = owned("column `");
                message.append(table.name.as_str());
                message.append(".");
                message.append(entry.0.as_str());
                message.append("`: type `");
                message.append(schema_type);
                message.append("` is not a built-in or declared enum");
                return Err(CodexError::semantic(message));
            }
            position = position + 1;
        }
        proof {
            lemma_first_match_none(table.columns@, type_unresolved(enums));
        }
        index = index + 1;
    }
    proof {
        lemma_first_match_none(tables@, table_type_unresolved(enums));
    }
    Ok(())
}


// ── primary keys ───────────────────────────────────────────────────────────

/// The primary-key columns other than `version`.
pub open spec fn key_columns_set(columns: Seq<String>) -> Set<Seq<char>> {
    texts(columns).to_set().remove(COL_VERSION@)
}

/// "The column is an Id or a Reference."
pub open spec fn is_identity_entry() -> spec_fn((String, RawCodexColumnDefinition)) -> bool {
    |entry: (String, RawCodexColumnDefinition)|
        entry.1.x_role == Some(CodexRole::Id) || entry.1.x_role == Some(CodexRole::Reference)
}

/// The names of the Id and Reference columns.
pub open spec fn identity_columns_set(columns: Seq<(String, RawCodexColumnDefinition)>) -> Set<Seq<char>> {
    columns.filter(is_identity_entry()).map_values(|entry: (String, RawCodexColumnDefinition)| entry.0@).to_set()
}

/// The error a CQRS table's primary key raises, if any: it must exist, and
/// without `version` it must name exactly the Id and Reference columns.
pub open spec fn primary_key_error(table: RawCodexTable) -> Option<LaxErrorView> {
    if !is_cqrs_table(table) {
        None
    } else {
        match table.primary_key {
            None => Some(LaxErrorView::Semantic("CQRS table `"@ + table.name@ + "` must declare a primary_key"@)),
            Some(key) => {
                let actual = key_columns_set(key.columns@);
                let expected = identity_columns_set(table.columns@);
                if actual == expected {
                    None
                } else {
                    Some(
                        LaxErrorView::MismatchedPrimaryKey {
                            table: table.name@,
                            expected: sorted_texts(expected),
                            actual: sorted_texts(actual),
                        },
                    )
                }
            },
        }
    }
}

pub open spec fn primary_key_fails() -> spec_fn(RawCodexTable) -> bool {
    |table: RawCodexTable| primary_key_error(table) is Some
}

pub open spec fn primary_key_message() -> spec_fn(RawCodexTable) -> LaxErrorView {
    |table: RawCodexTable| primary_key_error(table).unwrap()
}

/// Whether two lists hold the same strings, in order.
fn same_strings(left: &Vec<String>, right: &Vec<String>) -> (same: bool)
    ensures
        same == (texts(left@) == texts(right@)),
{
    if left.len() != right.len() {
        proof {
            assert(texts(left@).len() != texts(right@).len());
        }
        return false;
    }
    let mut index: usize = 0;
    while index < left.len()
        invariant
            0 <= index <= left.len(),
            left.len() == right.len(),
            forall|j: int| 0 <= j < index ==> left@[j]@ == right@[j]@,
        decreases left.len() - index,
    {
        if !str_equal(left[index].as_str(), right[index].as_str()) {
            proof {
                assert(texts(left@)[index as int] != texts(right@)[index as int]);
            }
            return false;
        }
        index = index + 1;
    }
    proof {
        assert(texts(left@) =~= texts(right@));
    }
    true
}

/// For every CQRS table, `primary_key.columns \ {"version"}` must equal the
/// set of columns with `x_role: Id` or `x_role: Reference`. Catches schema
/// drift where a Reference column is added but not added to the PK, or an
/// extra non-role column is smuggled into the PK.
pub fn check_primary_key_matches_roles(tables: &Vec<RawCodexTable>) -> (outcome: Result<(), LaxError>)
    ensures
        match first_failure(tables@, primary_key_fails(), primary_key_message()) {
            Some(failure) => outcome matches Err(error) && error@ == failure,
            None => outcome is Ok,
        },
{
    let mut index: usize = 0;
    while index < tables.len()
        invariant
            0 <= index <= tables.len(),
            forall|j: int| 0 <= j < index ==> !primary_key_fails()(#[trigger] tables@[j]),
        decreases tables.len() - index,
    {
        let table = &tables[index];
        if table.is_cqrs() {
            match &table.primary_key {
                None => {
                    proof {
                        lemma_first_match_is(tables@, primary_key_fails(), index as int);
                    }
                    let mut message = owned("CQRS table `");
                    message.append(table.name.as_str());
                    message.append("` must declare a primary_key");
                    return Err(CodexError::semantic(message));
                },
                Some(key) => {
                    let key_columns = without_version(&key.columns);
                    let identity = identity_names(&table.columns);
                    let actual = sorted_distinct(&key_columns);
                    let expected = sorted_distinct(&identity);
                    proof {
                        lemma_sorted_texts(texts(actual@), key_columns_set(key.columns@));
                        lemma_sorted_texts(texts(expected@), identity_columns_set(table.columns@));
                    }
                    if !same_strings(&actual, &expected) {
                        proof {
                            lemma_first_match_is(tables@, primary_key_fails(), index as int);
                        }
                        return Err(CodexError::mismatched_primary_key(table.name.clone(), expected, actual));
                    }
                },
            }
        }
        index = index + 1;
    }
    proof {
        lemma_first_match_none(tables@, primary_key_fails());
    }
    Ok(())
}

/// The columns other than `version`.
fn without_version(columns: &Vec<String>) -> (kept: Vec<String>)
    ensures
        texts(kept@).to_set() == key_columns_set(columns@),
{
    let mut kept: Vec<String> = Vec::new();
    let mut index: usize = 0;
    while index < columns.len()
        invariant
            0 <= index <= columns.len(),
            texts(kept@).to_set() == texts(columns@.take(index as int)).to_set().remove(COL_VERSION@),
        decreases columns.len() - index,
    {
        proof {
            assert(texts(columns@.take(index + 1)) =~= texts(columns@.take(index as int)).push(columns@[index as int]@));
            texts(columns@.take(index as int)).lemma_push_to_set_commute(columns@[index as int]@);
        }
        if !str_equal(columns[index].as_str(), COL_VERSION) {
            let ghost before = texts(kept@);
            kept.push(columns[index].clone());
            proof {
                assert(texts(kept@) =~= before.push(columns@[index as int]@));
                before.lemma_push_to_set_commute(columns@[index as int]@);
                assert(texts(kept@).to_set() =~= texts(columns@.take(index + 1)).to_set().remove(COL_VERSION@));
            }
        } else {
            proof {
                assert(texts(kept@).to_set() =~= texts(columns@.take(index + 1)).to_set().remove(COL_VERSION@));
            }
        }
        index = index + 1;
    }
    proof {
        lemma_take_all(columns@);
    }
    kept
}

/// The names of the Id and Reference columns, in order.
fn identity_names(columns: &Vec<(String, RawCodexColumnDefinition)>) -> (names: Vec<String>)
    ensures
        texts(names@).to_set() == identity_columns_set(columns@),
{
    let ghost name_of = |entry: (String, RawCodexColumnDefinition)| entry.0@;
    let mut names: Vec<String> = Vec::new();
    let mut index: usize = 0;
    while index < columns.len()
        invariant
            0 <= index <= columns.len(),
            name_of == (|entry: (String, RawCodexColumnDefinition)| entry.0@),
            texts(names@) == columns@.take(index as int).filter(is_identity_entry()).map_values(name_of),
        decreases columns.len() - index,
    {
        proof {
            crate::seqs::lemma_filter_take_step(columns@, is_identity_entry(), index as int);
        }
        let entry = &columns[index];
        if entry.1.x_role == Some(CodexRole::Id) || entry.1.x_role == Some(CodexRole::Reference) {
            let ghost before = texts(names@);
            names.push(entry.0.clone());
            proof {
                assert(texts(names@) =~= before.push(entry.0@));
                assert(columns@.take(index + 1).filter(is_identity_entry()).map_values(name_of) =~= before.push(
                    entry.0@,
                ));
            }
        }
        index = index + 1;
    }
    proof {
        lemma_take_all(columns@);
    }
    names
}


// ── views ──────────────────────────────────────────────────────────────────

/// "The view does not have exactly one `x_role: Id` select item."
pub open spec fn view_id_count_fails() -> spec_fn(RawCodexView) -> bool {
    |view: RawCodexView| id_items(view.select@).len() != 1
}

pub open spec fn view_id_count_message() -> spec_fn(RawCodexView) -> LaxErrorView {
    |view: RawCodexView|
        LaxErrorView::Semantic(
            "view `"@ + view.name@ + "` must have exactly one x_role: Id column (found "@ + decimal_text(
                id_items(view.select@).len(),
            ) + ")"@,
        )
}

pub fn check_views_have_single_id(views: &Vec<RawCodexView>) -> (outcome: Result<(), LaxError>)
    ensures
        match first_failure(views@, view_id_count_fails(), view_id_count_message()) {
            Some(failure) => outcome matches Err(error) && error@ == failure,
            None => outcome is Ok,
        },
{
    let mut index: usize = 0;
    while index < views.len()
        invariant
            0 <= index <= views.len(),
            forall|j: int| 0 <= j < index ==> !view_id_count_fails()(#[trigger] views@[j]),
        decreases views.len() - index,
    {
        let view = &views[index];
        let id_count = view.count_id_roles();
        if id_count != 1 {
            proof {
                lemma_first_match_is(views@, view_id_count_fails(), index as int);
            }
            let mut message = owned("view `");
            message.append(view.name.as_str());
            message.append("` must have exactly one x_role: Id column (found ");
            message.append(decimal(id_count).as_str());
            message.append(")");
            return Err(CodexError::semantic(message));
        }
        index = index + 1;
    }
    proof {
        lemma_first_match_none(views@, view_id_count_fails());
    }
    Ok(())
}

/// "The select item is an Id or Reference column declared `x_selectable: true`."
pub open spec fn selectable_identity() -> spec_fn(RawCodexSelectItem) -> bool {
    |item: RawCodexSelectItem|
        (overrides_of(item).x_role == Some(CodexRole::Id) || overrides_of(item).x_role == Some(
            CodexRole::Reference,
        )) && overrides_of(item).x_selectable == Some(true)
}

/// "Some select item of the view is a selectable identity column."
pub open spec fn view_selectable_identity() -> spec_fn(RawCodexView) -> bool {
    |view: RawCodexView| first_match(view.select@, selectable_identity()) is Some
}

/// How an identity role is named in messages.
pub open spec fn identity_role_text(role: Option<CodexRole>) -> Seq<char> {
    if role == Some(CodexRole::Id) {
        "Id"@
    } else {
        "Reference"@
    }
}

pub open spec fn selectable_identity_message() -> spec_fn(RawCodexView) -> LaxErrorView {
    |view: RawCodexView|
        {
            let item = view.select@[first_match(view.select@, selectable_identity()).unwrap()];
            let alias = match item_display_name(item) {
                Some(name) => name,
                None => "<unnamed>"@,
            };
            LaxErrorView::Semantic(
                "view `"@ + view.name@ + "` select item `"@ + alias + "`: `x_selectable: true` is not allowed on "@
                    + identity_role_text(overrides_of(item).x_role) + " columns"@,
            )
        }
}

/// Id and Reference columns are always selected, so a view may not declare
/// them `x_selectable: true`.
pub fn check_identity_columns_not_selectable(views: &Vec<RawCodexView>) -> (outcome: Result<(), LaxError>)
    ensures
        match first_failure(views@, view_selectable_identity(), selectable_identity_message()) {
            Some(failure) => outcome matches Err(error) && error@ == failure,
            None => outcome is Ok,
        },
{
    let mut index: usize = 0;
    while index < views.len()
        invariant
            0 <= index <= views.len(),
            forall|j: int| 0 <= j < index ==> !view_selectable_identity()(#[trigger] views@[j]),
        decreases views.len() - index,
    {
        let view = &views[index];
        let mut position: usize = 0;
        while position < view.select.len()
            invariant
                0 <= position <= view.select.len(),
                0 <= index < views.len(),
                *view == views@[index as int],
                forall|j: int| 0 <= j < index ==> !view_selectable_identity()(#[trigger] views@[j]),
                forall|j: int| 0 <= j < position ==> !selectable_identity()(#[trigger] view.select@[j]),
            decreases view.select.len() - position,
        {
            let item = &view.select[position];
            let role = item.role();
            let selectable = item.x_selectable();
            if (role == Some(CodexRole::Id) || role == Some(CodexRole::Reference)) && selectable == Some(true) {
                proof {
                    lemma_first_match_is(view.select@, selectable_identity(), position as int);
                    lemma_first_match_is(views@, view_selectable_identity(), index as int);
                }
                let alias = match item.display_name() {
                    Some(name) => name,
                    None => "<unnamed>",
                };
                let role_text = if role == Some(CodexRole::Id) {
                    "Id"
                } else {
                    "Reference"
                };
                let mut message = owned("view `");
                message.append(view.name.as_str());
                message.append("` select item `");
                message.append(alias);
                message.append("`: `x_selectable: true` is not allowed on ");
                message.append(role_text);
                message.append(" columns");
                return Err(CodexError::semantic(message));
            }
            position = position + 1;
        }
        proof {
            lemma_first_match_none(view.select@, selectable_identity());
        }
        index = index + 1;
    }
    proof {
        lemma_first_match_none(views@, view_selectable_identity());
    }
    Ok(())
}

/// The error of a view's surface declarations, if one does not resolve:
/// its root surface first, then its entity surface.
pub open spec fn shape_error(view: RawCodexView) -> Option<LaxErrorView> {
    let root = match view.x_aggregate {
        Some(declared) => match shape_of(view.name@, declared.list, declared.detail) {
            Err(message) => Some(LaxErrorView::Semantic(message)),
            Ok(_) => None,
        },
        None => None,
    };
    match root {
        Some(error) => Some(error),
        None => match view.x_entity {
            Some(declared) => match shape_of(view.name@, declared.list, declared.detail) {
                Err(message) => Some(LaxErrorView::Semantic(message)),
                Ok(_) => None,
            },
            None => None,
        },
    }
}

pub open spec fn shape_fails() -> spec_fn(RawCodexView) -> bool {
    |view: RawCodexView| shape_error(view) is Some
}

pub open spec fn shape_message() -> spec_fn(RawCodexView) -> LaxErrorView {
    |view: RawCodexView| shape_error(view).unwrap()
}

/// Every surface declaration names exactly one of `list:` and `detail:`.
pub fn check_view_shapes_well_formed(views: &Vec<RawCodexView>) -> (outcome: Result<(), LaxError>)
    ensures
        match first_failure(views@, shape_fails(), shape_message()) {
            Some(failure) => outcome matches Err(error) && error@ == failure,
            None => outcome is Ok,
        },
{
    let mut index: usize = 0;
    while index < views.len()
        invariant
            0 <= index <= views.len(),
            forall|j: int| 0 <= j < index ==> !shape_fails()(#[trigger] views@[j]),
        decreases views.len() - index,
    {
        let view = &views[index];
        if let Some(x_aggregate) = &view.x_aggregate {
            if let Err(error) = x_aggregate.shape(view.name.as_str()) {
                proof {
                    lemma_first_match_is(views@, shape_fails(), index as int);
                }
                return Err(error);
            }
        }
        if let Some(x_entity) = &view.x_entity {
            if let Err(error) = x_entity.shape(view.name.as_str()) {
                proof {
                    lemma_first_match_is(views@, shape_fails(), index as int);
                }
                return Err(error);
            }
        }
        index = index + 1;
    }
    proof {
        lemma_first_match_none(views@, shape_fails());
    }
    Ok(())
}


// ── one default list per root and per entity ───────────────────────────────

/// The declaration is the `list: default` surface.
pub open spec fn is_default_list(list: Option<String>, detail: Option<String>) -> bool {
    list matches Some(name) && name@ == DEFAULT_LIST@ && detail is None
}

/// "The view is the default list of the root of `aggregate`."
pub open spec fn root_default_of(aggregate: Seq<char>) -> spec_fn(RawCodexView) -> bool {
    |view: RawCodexView|
        view.x_aggregate matches Some(declared) && declared.name@ == aggregate && is_default_list(
            declared.list,
            declared.detail,
        )
}

/// "The view is the default list of the entity `entity` of `aggregate`."
pub open spec fn entity_default_of(aggregate: Seq<char>, entity: Seq<char>) -> spec_fn(RawCodexView) -> bool {
    |view: RawCodexView|
        view.x_entity matches Some(declared) && declared.aggregate@ == aggregate && declared.name@ == entity
            && is_default_list(declared.list, declared.detail)
}

/// The `(aggregate, entity)` pairs the views declare, in order of first declaration.
pub open spec fn entity_pairs(views: Seq<RawCodexView>) -> Seq<(Seq<char>, Seq<char>)>
    decreases views.len(),
{
    if views.len() == 0 {
        Seq::empty()
    } else {
        let earlier = entity_pairs(views.drop_last());
        match views.last().x_entity {
            Some(declared) => if earlier.contains((declared.aggregate@, declared.name@)) {
                earlier
            } else {
                earlier.push((declared.aggregate@, declared.name@))
            },
            None => earlier,
        }
    }
}

/// The error when an aggregate root, and then an entity, does not have
/// exactly one `list: default` view; roots in the order of `roots`.
pub open spec fn default_list_failure(views: Seq<RawCodexView>, roots: Seq<Seq<char>>) -> Option<
    LaxErrorView,
> {
    let root_fails = |aggregate: Seq<char>| views.filter(root_default_of(aggregate)).len() != 1;
    let pairs = entity_pairs(views);
    let pair_fails = |pair: (Seq<char>, Seq<char>)| views.filter(entity_default_of(pair.0, pair.1)).len() != 1;
    match first_match(roots, root_fails) {
        Some(index) => Some(
            LaxErrorView::Semantic(
                "aggregate `"@ + roots[index] + "` root must declare exactly one `list: default` view (found "@
                    + decimal_text(views.filter(root_default_of(roots[index])).len()) + ")"@,
            ),
        ),
        None => match first_match(pairs, pair_fails) {
            Some(index) => Some(
                LaxErrorView::Semantic(
                    "entity `"@ + pairs[index].0 + "."@ + pairs[index].1
                        + "` must declare exactly one `list: default` view (found "@ + decimal_text(
                        views.filter(entity_default_of(pairs[index].0, pairs[index].1)).len(),
                    ) + ")"@,
                ),
            ),
            None => None,
        },
    }
}

/// Whether a declaration is the `list: default` surface.
fn declares_default_list(list: &Option<String>, detail: &Option<String>) -> (default: bool)
    ensures
        default == is_default_list(*list, *detail),
{
    match (list, detail) {
        (Some(name), None) => str_equal(name.as_str(), DEFAULT_LIST),
        _ => false,
    }
}

/// How many views are the default list of the root of `aggregate`.
fn count_root_defaults(views: &Vec<RawCodexView>, aggregate: &str) -> (count: usize)
    ensures
        count == views@.filter(root_default_of(aggregate@)).len(),
{
    let mut count: usize = 0;
    let mut index: usize = 0;
    while index < views.len()
        invariant
            0 <= index <= views.len(),
            count == views@.take(index as int).filter(root_default_of(aggregate@)).len(),
            count <= index,
        decreases views.len() - index,
    {
        proof {
            crate::seqs::lemma_filter_take_step(views@, root_default_of(aggregate@), index as int);
        }
        let view = &views[index];
        if let Some(declared) = &view.x_aggregate {
            if str_equal(declared.name.as_str(), aggregate) && declares_default_list(&declared.list, &declared.detail) {
                count = count + 1;
            }
        }
        index = index + 1;
    }
    proof {
        lemma_take_all(views@);
    }
    count
}

/// How many views are the default list of the entity `entity` of `aggregate`.
fn count_entity_defaults(views: &Vec<RawCodexView>, aggregate: &str, entity: &str) -> (count: usize)
    ensures
        count == views@.filter(entity_default_of(aggregate@, entity@)).len(),
{
    let mut count: usize = 0;
    let mut index: usize = 0;
    while index < views.len()
        invariant
            0 <= index <= views.len(),
            count == views@.take(index as int).filter(entity_default_of(aggregate@, entity@)).len(),
            count <= index,
        decreases views.len() - index,
    {
        proof {
            crate::seqs::lemma_filter_take_step(views@, entity_default_of(aggregate@, entity@), index as int);
        }
        let view = &views[index];
        if let Some(declared) = &view.x_entity {
            if str_equal(declared.aggregate.as_str(), aggregate) && str_equal(declared.name.as_str(), entity)
                && declares_default_list(&declared.list, &declared.detail) {
                count = count + 1;
            }
        }
        index = index + 1;
    }
    proof {
        lemma_take_all(views@);
    }
    count
}

/// The `(aggregate, entity)` pairs the views declare, in order of first declaration.
fn collect_entity_pairs(views: &Vec<RawCodexView>) -> (pairs: Vec<(String, String)>)
    ensures
        pairs@.map_values(|pair: (String, String)| (pair.0@, pair.1@)) == entity_pairs(views@),
{
    let mut pairs: Vec<(String, String)> = Vec::new();
    let mut index: usize = 0;
    while index < views.len()
        invariant
            0 <= index <= views.len(),
            pairs@.map_values(|pair: (String, String)| (pair.0@, pair.1@)) == entity_pairs(views@.take(index as int)),
        decreases views.len() - index,
    {
        proof {
            let longer = views@.take(index + 1);
            assert(longer.drop_last() =~= views@.take(index as int));
            assert(longer.last() == views@[index as int]);
        }
        let ghost seen = pairs@.map_values(|pair: (String, String)| (pair.0@, pair.1@));
        if let Some(declared) = &views[index].x_entity {
            let mut position: usize = 0;
            let mut found = false;
            while position < pairs.len()
                invariant
                    0 <= position <= pairs.len(),
                    seen == pairs@.map_values(|pair: (String, String)| (pair.0@, pair.1@)),
                    found ==> seen.contains((declared.aggregate@, declared.name@)),
                    !found ==> forall|j: int| 0 <= j < position ==> #[trigger] seen[j] != (declared.aggregate@, declared.name@),
                decreases pairs.len() - position,
            {
                if str_equal(pairs[position].0.as_str(), declared.aggregate.as_str()) && str_equal(
                    pairs[position].1.as_str(),
                    declared.name.as_str(),
                ) {
                    proof {
                        assert(seen[position as int] == (declared.aggregate@, declared.name@));
                    }
                    found = true;
                } else {
                    proof {
                        assert(seen[position as int] == (pairs@[position as int].0@, pairs@[position as int].1@));
                    }
                }
                position = position + 1;
            }
            if !found {
                pairs.push((declared.aggregate.clone(), declared.name.clone()));
                proof {
                    assert(pairs@.map_values(|pair: (String, String)| (pair.0@, pair.1@)) =~= seen.push(
                        (declared.aggregate@, declared.name@),
                    ));
                }
            }
        }
        index = index + 1;
    }
    proof {
        lemma_take_all(views@);
    }
    pairs
}

/// Every aggregate root and every entity declares exactly one `list: default` view.
pub fn check_canonical_default_list_per_surface(views: &Vec<RawCodexView>, roots: &Vec<(String, String)>) -> (outcome:
    Result<(), LaxError>)
    ensures
        match default_list_failure(views@, key_texts(roots@)) {
            Some(failure) => outcome matches Err(error) && error@ == failure,
            None => outcome is Ok,
        },
{
    let ghost keys = key_texts(roots@);
    let ghost root_fails = |aggregate: Seq<char>| views@.filter(root_default_of(aggregate)).len() != 1;
    let mut index: usize = 0;
    while index < roots.len()
        invariant
            0 <= index <= roots.len(),
            keys == roots@.map_values(|entry: (String, String)| entry.0@),
            root_fails == (|aggregate: Seq<char>| views@.filter(root_default_of(aggregate)).len() != 1),
            forall|j: int| 0 <= j < index ==> !root_fails(#[trigger] keys[j]),
        decreases roots.len() - index,
    {
        let aggregate = roots[index].0.as_str();
        let count = count_root_defaults(views, aggregate);
        proof {
            assert(keys[index as int] == aggregate@);
        }
        if count != 1 {
            proof {
                lemma_first_match_is(keys, root_fails, index as int);
            }
            let mut message = owned("aggregate `");
            message.append(aggregate);
            message.append("` root must declare exactly one `list: default` view (found ");
            message.append(decimal(count).as_str());
            message.append(")");
            return Err(CodexError::semantic(message));
        }
        index = index + 1;
    }
    proof {
        lemma_first_match_none(keys, root_fails);
    }
    let pairs = collect_entity_pairs(views);
    let ghost pair_views = pairs@.map_values(|pair: (String, String)| (pair.0@, pair.1@));
    let ghost pair_fails = |pair: (Seq<char>, Seq<char>)|
        views@.filter(entity_default_of(pair.0, pair.1)).len() != 1;
    let mut index: usize = 0;
    while index < pairs.len()
        invariant
            0 <= index <= pairs.len(),
            pair_views == pairs@.map_values(|pair: (String, String)| (pair.0@, pair.1@)),
            pair_views == entity_pairs(views@),
            pair_fails == (|pair: (Seq<char>, Seq<char>)|
                views@.filter(entity_default_of(pair.0, pair.1)).len() != 1),
            first_match(keys, root_fails) is None,
            keys == roots@.map_values(|entry: (String, String)| entry.0@),
            root_fails == (|aggregate: Seq<char>| views@.filter(root_default_of(aggregate)).len() != 1),
            forall|j: int| 0 <= j < index ==> !pair_fails(#[trigger] pair_views[j]),
        decreases pairs.len() - index,
    {
        let aggregate = pairs[index].0.as_str();
        let entity = pairs[index].1.as_str();
        let count = count_entity_defaults(views, aggregate, entity);
        proof {
            assert(pair_views[index as int] == (aggregate@, entity@));
        }
        if count != 1 {
            proof {
                lemma_first_match_is(pair_views, pair_fails, index as int);
            }
            let mut message = owned("entity `");
            message.append(aggregate);
            message.append(".");
            message.append(entity);
            message.append("` must declare exactly one `list: default` view (found ");
            message.append(decimal(count).as_str());
            message.append(")");
            return Err(CodexError::semantic(message));
        }
        index = index + 1;
    }
    proof {
        lemma_first_match_none(pair_views, pair_fails);
    }
    Ok(())
}


// ── no surface declared twice ──────────────────────────────────────────────

/// One surface declaration: the aggregate, the entity (`None`: the root)
/// and its resolved shape or the message of why it does not resolve.
pub struct SurfaceDeclaration {
    pub aggregate: Seq<char>,
    pub entity: Option<Seq<char>>,
    pub shape: Result<(bool, Seq<char>), Seq<char>>,
}

/// A view's surface declarations: its root surface, then its entity surface.
pub open spec fn view_declarations(view: RawCodexView) -> Seq<SurfaceDeclaration> {
    let root = match view.x_aggregate {
        Some(declared) => seq![
            SurfaceDeclaration {
                aggregate: declared.name@,
                entity: None,
                shape: shape_of(view.name@, declared.list, declared.detail),
            },
        ],
        None => Seq::empty(),
    };
    let entity = match view.x_entity {
        Some(declared) => seq![
            SurfaceDeclaration {
                aggregate: declared.aggregate@,
                entity: Some(declared.name@),
                shape: shape_of(view.name@, declared.list, declared.detail),
            },
        ],
        None => Seq::empty(),
    };
    root + entity
}

/// Every surface declaration of the views, in order.
pub open spec fn declarations(views: Seq<RawCodexView>) -> Seq<SurfaceDeclaration>
    decreases views.len(),
{
    if views.len() == 0 {
        Seq::empty()
    } else {
        declarations(views.drop_last()) + view_declarations(views.last())
    }
}

/// The text of a resolved shape: `list:<name>` or `detail:<name>`.
pub open spec fn shape_parts_text(shape: (bool, Seq<char>)) -> Seq<char> {
    if shape.0 {
        "list:"@ + shape.1
    } else {
        "detail:"@ + shape.1
    }
}

/// The error of a declaration after the `earlier` ones: its shape does not
/// resolve, or the same surface was declared before.
pub open spec fn declaration_error(earlier: Seq<SurfaceDeclaration>, declaration: SurfaceDeclaration) -> Option<
    LaxErrorView,
> {
    match declaration.shape {
        Err(message) => Some(LaxErrorView::Semantic(message)),
        Ok(shape) => if earlier.contains(declaration) {
            match declaration.entity {
                None => Some(
                    LaxErrorView::Semantic(
                        "aggregate `"@ + declaration.aggregate + "`: duplicate root surface `"@
                            + shape_parts_text(shape) + "`"@,
                    ),
                ),
                Some(entity) => Some(
                    LaxErrorView::Semantic(
                        "entity `"@ + declaration.aggregate + "."@ + entity + "`: duplicate surface `"@
                            + shape_parts_text(shape) + "`"@,
                    ),
                ),
            }
        } else {
            None
        },
    }
}

/// The error of the first declaration that fails.
pub open spec fn duplicate_failure(declared: Seq<SurfaceDeclaration>) -> Option<LaxErrorView>
    decreases declared.len(),
{
    if declared.len() == 0 {
        None
    } else {
        match duplicate_failure(declared.drop_last()) {
            Some(error) => Some(error),
            None => declaration_error(declared.drop_last(), declared.last()),
        }
    }
}

/// A failure in a prefix is the failure of the whole.
proof fn lemma_duplicate_failure_prefix(first: Seq<SurfaceDeclaration>, rest: Seq<SurfaceDeclaration>)
    requires
        duplicate_failure(first) is Some,
    ensures
        duplicate_failure(first + rest) == duplicate_failure(first),
    decreases rest.len(),
{
    if rest.len() > 0 {
        lemma_duplicate_failure_prefix(first, rest.drop_last());
        assert((first + rest).drop_last() =~= first + rest.drop_last());
    } else {
        assert(first + rest =~= first);
    }
}

/// The declaration a stored surface stands for.
pub open spec fn stored_declaration(stored: (String, Option<String>, ReadShape)) -> SurfaceDeclaration {
    SurfaceDeclaration { aggregate: stored.0@, entity: text_of(stored.1), shape: Ok(shape_parts(stored.2)) }
}

/// Record the declaration `(aggregate, entity, shape)` after the `seen` ones,
/// or return its error when it was declared before.
fn record_surface(
    seen: &mut Vec<(String, Option<String>, ReadShape)>,
    aggregate: &String,
    entity: Option<&String>,
    shape: ReadShape,
) -> (outcome: Result<(), LaxError>)
    ensures
        ({
            let declaration = SurfaceDeclaration {
                aggregate: aggregate@,
                entity: match entity {
                    Some(name) => Some(name@),
                    None => None,
                },
                shape: Ok(shape_parts(shape)),
            };
            let earlier = old(seen)@.map_values(|stored: (String, Option<String>, ReadShape)| stored_declaration(stored));
            match declaration_error(earlier, declaration) {
                Some(failure) => outcome matches Err(error) && error@ == failure,
                None => outcome is Ok && final(seen)@.map_values(
                    |stored: (String, Option<String>, ReadShape)| stored_declaration(stored),
                ) == earlier.push(declaration),
            }
        }),
{
    let ghost declaration = SurfaceDeclaration {
        aggregate: aggregate@,
        entity: match entity {
            Some(name) => Some(name@),
            None => None,
        },
        shape: Ok(shape_parts(shape)),
    };
    let ghost earlier = seen@.map_values(|stored: (String, Option<String>, ReadShape)| stored_declaration(stored));
    let wanted = match entity {
        Some(name) => Some(name.as_str()),
        None => None,
    };
    let mut index: usize = 0;
    while index < seen.len()
        invariant
            0 <= index <= seen.len(),
            seen@ == old(seen)@,
            earlier == seen@.map_values(|stored: (String, Option<String>, ReadShape)| stored_declaration(stored)),
            text_of_str(wanted) == declaration.entity,
            declaration.entity == (match entity {
                Some(name) => Some(name@),
                None => None::<Seq<char>>,
            }),
            declaration.aggregate == aggregate@,
            declaration.shape == Ok::<(bool, Seq<char>), Seq<char>>(shape_parts(shape)),
            forall|j: int| 0 <= j < index ==> #[trigger] earlier[j] != declaration,
        decreases seen.len() - index,
    {
        let stored = &seen[index];
        proof {
            assert(earlier[index as int] == stored_declaration(*stored));
        }
        if str_equal(stored.0.as_str(), aggregate.as_str()) && optional_text_equal(&stored.1, wanted) && stored.2
            == shape {
            proof {
                assert(shape_parts(stored.2) == shape_parts(shape));
                assert(earlier[index as int] == declaration);
                assert(earlier.contains(declaration));
            }
            let shape_text = shape.to_display_string();
            let message = match entity {
                None => {
                    let mut message = owned("aggregate `");
                    message.append(aggregate.as_str());
                    message.append("`: duplicate root surface `");
                    message.append(shape_text.as_str());
                    message.append("`");
                    message
                },
                Some(name) => {
                    let mut message = owned("entity `");
                    message.append(aggregate.as_str());
                    message.append(".");
                    message.append(name.as_str());
                    message.append("`: duplicate surface `");
                    message.append(shape_text.as_str());
                    message.append("`");
                    message
                },
            };
            proof {
                assert(shape_text@ == shape_parts_text(shape_parts(shape)));
                assert(declaration.shape == Ok::<(bool, Seq<char>), Seq<char>>(shape_parts(shape)));
                match entity {
                    Some(name) => {
                        assert(declaration.entity == Some(name@));
                        assert(message@ == "entity `"@ + declaration.aggregate + "."@ + name@ + "`: duplicate surface `"@
                            + shape_parts_text(shape_parts(shape)) + "`"@);
                    },
                    None => {
                        assert(declaration.entity is None);
                        assert(message@ == "aggregate `"@ + declaration.aggregate + "`: duplicate root surface `"@
                            + shape_parts_text(shape_parts(shape)) + "`"@);
                    },
                }
                assert(declaration_error(earlier, declaration) == Some(LaxErrorView::Semantic(message@)));
            }
            return Err(CodexError::semantic(message));
        }
        proof {
            if earlier[index as int] == declaration {
                assert(shape_parts(stored.2) == shape_parts(shape));
                assert(crate::catalog::read_shape::same_shape(stored.2, shape));
            }
        }
        index = index + 1;
    }
    let stored_entity = match entity {
        Some(name) => Some(name.clone()),
        None => None,
    };
    seen.push((aggregate.clone(), stored_entity, shape));
    proof {
        assert(!earlier.contains(declaration));
        assert(seen@.map_values(|stored: (String, Option<String>, ReadShape)| stored_declaration(stored))
            =~= earlier.push(declaration));
    }
    Ok(())
}

/// The declarations of the views split at any point.
proof fn lemma_declarations_split(views: Seq<RawCodexView>, at: int)
    requires
        0 <= at <= views.len(),
    ensures
        declarations(views) == declarations(views.take(at)) + declarations(views.skip(at)),
    decreases views.len(),
{
    if at == views.len() {
        assert(views.take(at) =~= views);
        assert(views.skip(at) =~= Seq::<RawCodexView>::empty());
        assert(declarations(views) + Seq::<SurfaceDeclaration>::empty() =~= declarations(views));
    } else {
        let shorter = views.drop_last();
        lemma_declarations_split(shorter, at);
        assert(shorter.take(at) =~= views.take(at));
        let tail = views.skip(at);
        assert(tail.drop_last() =~= shorter.skip(at));
        assert(tail.last() == views.last());
        assert(declarations(views) =~= declarations(views.take(at)) + declarations(views.skip(at)));
    }
}

/// A failure among the first declarations of view `index` is the failure of all views.
proof fn lemma_failure_at(views: Seq<RawCodexView>, index: int, count: int)
    requires
        0 <= index < views.len(),
        0 <= count <= view_declarations(views[index]).len(),
        duplicate_failure(
            declarations(views.take(index)) + view_declarations(views[index]).take(count),
        ) is Some,
    ensures
        duplicate_failure(declarations(views)) == duplicate_failure(
            declarations(views.take(index)) + view_declarations(views[index]).take(count),
        ),
{
    let before = declarations(views.take(index));
    let own = view_declarations(views[index]);
    lemma_declarations_split(views, index);
    let rest = views.skip(index);
    assert(rest.take(1).drop_last() =~= Seq::<RawCodexView>::empty());
    assert(rest.take(1).last() == views[index]);
    lemma_declarations_split(rest, 1);
    assert(declarations(rest.take(1).drop_last()) == Seq::<SurfaceDeclaration>::empty());
    assert(declarations(rest.take(1)) =~= own);
    let after = declarations(rest.skip(1));
    assert(declarations(views) =~= (before + own.take(count)) + (own.skip(count) + after));
    lemma_duplicate_failure_prefix(before + own.take(count), own.skip(count) + after);
}

/// No aggregate root or entity declares the same surface twice.
pub fn check_no_duplicate_surface_names(views: &Vec<RawCodexView>) -> (outcome: Result<(), LaxError>)
    ensures
        match duplicate_failure(declarations(views@)) {
            Some(failure) => outcome matches Err(error) && error@ == failure,
            None => outcome is Ok,
        },
{
    let mut seen: Vec<(String, Option<String>, ReadShape)> = Vec::new();
    let mut index: usize = 0;
    while index < views.len()
        invariant
            0 <= index <= views.len(),
            seen@.map_values(|stored: (String, Option<String>, ReadShape)| stored_declaration(stored))
                == declarations(views@.take(index as int)),
            duplicate_failure(declarations(views@.take(index as int))) is None,
        decreases views.len() - index,
    {
        let view = &views[index];
        let ghost before = declarations(views@.take(index as int));
        let ghost own = view_declarations(*view);
        proof {
            let longer = views@.take(index + 1);
            assert(longer.drop_last() =~= views@.take(index as int));
            assert(longer.last() == *view);
            assert(own.take(0) =~= Seq::<SurfaceDeclaration>::empty());
            assert(before + own.take(0) =~= before);
        }
        let mut count: usize = 0;
        if let Some(x_aggregate) = &view.x_aggregate {
            proof {
                assert((before + own.take(1)).drop_last() =~= before);
                assert((before + own.take(1)).last() == own[0]);
            }
            match x_aggregate.shape(view.name.as_str()) {
                Err(error) => {
                    proof {
                        lemma_failure_at(views@, index as int, 1);
                    }
                    return Err(error);
                },
                Ok(shape) => {
                    match record_surface(&mut seen, &x_aggregate.name, None, shape) {
                        Err(error) => {
                            proof {
                                lemma_failure_at(views@, index as int, 1);
                            }
                            return Err(error);
                        },
                        Ok(()) => {},
                    }
                },
            }
            count = 1;
            proof {
                assert(before.push(own[0]) =~= before + own.take(1));
            }
        }
        if let Some(x_entity) = &view.x_entity {
            proof {
                assert(own.len() == count + 1);
                assert((before + own.take(count + 1)).drop_last() =~= before + own.take(count as int));
                assert((before + own.take(count + 1)).last() == own[count as int]);
            }
            match x_entity.shape(view.name.as_str()) {
                Err(error) => {
                    proof {
                        lemma_failure_at(views@, index as int, count + 1);
                    }
                    return Err(error);
                },
                Ok(shape) => {
                    match record_surface(&mut seen, &x_entity.aggregate, Some(&x_entity.name), shape) {
                        Err(error) => {
                            proof {
                                lemma_failure_at(views@, index as int, count + 1);
                            }
                            return Err(error);
                        },
                        Ok(()) => {},
                    }
                },
            }
            count = count + 1;
            proof {
                assert((before + own.take(count as int - 1)).push(own[count as int - 1]) =~= before + own.take(
                    count as int,
                ));
            }
        }
        proof {
            assert(own.take(count as int) =~= own);
        }
        index = index + 1;
    }
    proof {
        lemma_take_all(views@);
    }
    Ok(())
}

// ── the whole pass ─────────────────────────────────────────────────────────

/// `first` unless it is `None`, then `second`.
pub open spec fn or_else(first: Option<LaxErrorView>, second: Option<LaxErrorView>) -> Option<LaxErrorView> {
    match first {
        Some(_) => first,
        None => second,
    }
}

/// The error of the first rule the document breaks, the rules taken in order.
pub open spec fn semantic_failure(document: RawCodexDocument) -> Option<LaxErrorView> {
    let tables = document.tables@;
    let views = document.views@;
    let roots = semantic_roots(tables);
    let enums = texts(enum_names_of(document.types@));
    or_else(
        roots_failure(tables),
        or_else(
            first_failure(tables, role_fails(roots), role_message(roots)),
            or_else(
                first_failure(tables, entity_unresolved(roots), entity_unresolved_message()),
                or_else(
                    first_failure(tables, sink_unresolved(roots), sink_unresolved_message()),
                    or_else(
                        first_failure(tables, table_type_unresolved(enums), type_unresolved_message(enums)),
                        or_else(
                            first_failure(tables, primary_key_fails(), primary_key_message()),
                            or_else(
                                first_failure(views, view_id_count_fails(), view_id_count_message()),
                                or_else(
                                    first_failure(views, view_selectable_identity(), selectable_identity_message()),
                                    or_else(
                                        first_failure(views, shape_fails(), shape_message()),
                                        or_else(
                                            default_list_failure(views, key_texts(roots)),
                                            duplicate_failure(declarations(views)),
                                        ),
                                    ),
                                ),
                            ),
                        ),
                    ),
                ),
            ),
        ),
    )
}

/// Runs every semantic rule over the document, stopping at the first broken one.
pub fn check(document: &RawCodexDocument) -> (outcome: Result<(), LaxError>)
    ensures
        match semantic_failure(*document) {
            Some(failure) => outcome matches Err(error) && error@ == failure,
            None => outcome is Ok,
        },
{
    let roots = collect_aggregate_roots(&document.tables)?;
    let enum_names = document.enum_names();
    proof {
        lemma_key_texts_map(roots@, string_view());
    }
    check_roles_on_tables(&document.tables, &roots)?;
    check_entity_aggregates_resolve(&document.tables, &roots)?;
    check_sinks_resolve(&document.tables, &roots)?;
    check_column_types_resolve(&document.tables, &enum_names)?;
    check_primary_key_matches_roles(&document.tables)?;
    check_views_have_single_id(&document.views)?;
    check_identity_columns_not_selectable(&document.views)?;
    check_view_shapes_well_formed(&document.views)?;
    check_canonical_default_list_per_surface(&document.views, &roots)?;
    check_no_duplicate_surface_names(&document.views)?;
    Ok(())
}

} // verus!
