//! The sink writer: keeps one current-state row per root and entity, upserted
//! in place and soft-deleted, next to the versioned snapshots.

use vstd::prelude::*;

use crate::catalog::aggregate::{CodexAggregate, sink_of};
use crate::catalog::column::{CodexColumn, CodexRole};
use crate::definition::{Codex, aggregate_of};
use crate::error::{LaxError, texts};
use crate::mason::project::{is_reference_column, relation_columns};
use crate::mason::rows::{COL_IS_DELETED, emit_key_conditions, key_conditions, names_of};
use crate::mason::sql::{
    ArgView,
    PieceView,
    SqlArg,
    SqlStatement,
    bind,
    bind_with_enum_cast,
    bound_value,
    ident_list,
    joined_pieces,
    lemma_joined_step,
    push_ident_list,
    quote_ident,
    quoted,
    statements_view,
    text,
};
use crate::mason::validate::{sink_entity_keys, sink_keys_failure};
use crate::mason::value::{MasonEffect, MasonEffectTarget, MasonRow, MasonValue, ValueView};
use crate::seqs::{concat_all, lemma_concat_all_step, lemma_filter_take_step};
use crate::text::str_equal;

verus! {

/// The names of a row's columns.
pub open spec fn row_names(row: Seq<(Seq<char>, ValueView)>) -> Seq<Seq<char>> {
    row.map_values(|entry: (Seq<char>, ValueView)| entry.0)
}

/// The `"name" = EXCLUDED."name"` assignment of each column.
pub open spec fn update_parts(columns: Seq<Seq<char>>) -> Seq<Seq<PieceView>> {
    columns.map_values(
        |name: Seq<char>| seq![text(quoted(name)), text(" = EXCLUDED."@), text(quoted(name))],
    )
}

/// `ON CONFLICT (conflict) DO UPDATE SET "c" = EXCLUDED."c", ...`.
pub open spec fn on_conflict_update(conflict: Seq<Seq<char>>, update: Seq<Seq<char>>) -> Seq<PieceView> {
    seq![text("ON CONFLICT ("@)] + ident_list(conflict) + seq![text(") DO UPDATE SET "@)] + joined_pieces(
        ", "@,
        update_parts(update),
    )
}

/// Pushes `ON CONFLICT (conflict) DO UPDATE SET` over the update columns.
fn push_on_conflict_update(builder: &mut SqlStatement, conflict_columns: &Vec<String>, update_columns: &Vec<String>)
    ensures
        final(builder)@ == old(builder)@ + on_conflict_update(texts(conflict_columns@), texts(update_columns@)),
{
    let ghost start = builder@;
    builder.push("ON CONFLICT (");
    push_ident_list(builder, conflict_columns);
    builder.push(") DO UPDATE SET ");
    let ghost middle = builder@;
    let ghost parts = update_parts(texts(update_columns@));
    let mut index: usize = 0;
    while index < update_columns.len()
        invariant
            0 <= index <= update_columns.len(),
            parts == update_parts(texts(update_columns@)),
            parts.len() == update_columns.len(),
            builder@ == middle + joined_pieces(", "@, parts.take(index as int)),
        decreases update_columns.len() - index,
    {
        proof {
            lemma_joined_step(", "@, parts, index as int);
        }
        if index > 0 {
            builder.push(", ");
        }
        let name = update_columns[index].as_str();
        builder.push_text(quote_ident(name));
        builder.push(" = EXCLUDED.");
        builder.push_text(quote_ident(name));
        index = index + 1;
        proof {
            assert(builder@ =~= middle + joined_pieces(", "@, parts.take(index as int)));
        }
    }
    proof {
        assert(parts.take(update_columns.len() as int) =~= parts);
        assert(builder@ =~= start + on_conflict_update(texts(conflict_columns@), texts(update_columns@)));
    }
}

/// The bound value of each field, each after a comma.
pub open spec fn trailing_value_parts(row: Seq<(Seq<char>, ValueView)>) -> Seq<Seq<PieceView>> {
    row.map_values(|entry: (Seq<char>, ValueView)| seq![text(", "@)] + bound_value(entry.1, None))
}

/// Upserts the root's sink row: the aggregate id, then the fields; a conflict
/// on the id updates the fields.
pub open spec fn upsert_root_sql(
    table: Seq<char>,
    id_column: Seq<char>,
    aggregate_id: u128,
    fields: Seq<(Seq<char>, ValueView)>,
) -> Seq<PieceView> {
    seq![text("INSERT INTO "@), text(quoted(table)), text(" ("@)] + ident_list(seq![id_column] + row_names(fields))
        + seq![text(") VALUES ("@), bind(ArgView::Uuid(aggregate_id))] + concat_all(trailing_value_parts(fields))
        + seq![text(") "@)] + on_conflict_update(seq![id_column], row_names(fields))
}

/// The names of a row's columns, in order.
fn row_name_list(row: &MasonRow) -> (names: Vec<String>)
    ensures
        texts(names@) == row_names(row@),
{
    let mut names: Vec<String> = Vec::new();
    let mut index: usize = 0;
    while index < row.columns.len()
        invariant
            0 <= index <= row.columns.len(),
            row@.len() == row.columns@.len(),
            texts(names@) == row_names(row@.take(index as int)),
        decreases row.columns.len() - index,
    {
        let ghost before = names@;
        names.push(row.columns[index].0.clone());
        proof {
            assert(row@[index as int].0 == row.columns@[index as int].0@);
            assert(texts(names@) =~= texts(before).push(row@[index as int].0));
            assert(row@.take(index as int + 1) =~= row@.take(index as int).push(row@[index as int]));
            assert(texts(names@) =~= row_names(row@.take(index as int + 1)));
        }
        index = index + 1;
    }
    proof {
        assert(row@.take(row.columns.len() as int) =~= row@);
    }
    names
}

/// Builds the root's sink upsert.
fn build_upsert_root(table: &str, id_column: &str, aggregate_id: u128, fields: &MasonRow) -> (statement:
    SqlStatement)
    ensures
        statement@ == upsert_root_sql(table@, id_column@, aggregate_id, fields@),
{
    let mut builder = SqlStatement::new("INSERT INTO ");
    builder.push_text(quote_ident(table));
    builder.push(" (");
    let field_names = row_name_list(fields);
    let mut column_names: Vec<String> = Vec::new();
    column_names.push(crate::text::owned(id_column));
    let mut index: usize = 0;
    while index < field_names.len()
        invariant
            0 <= index <= field_names.len(),
            texts(column_names@) == seq![id_column@] + texts(field_names@).take(index as int),
        decreases field_names.len() - index,
    {
        let ghost before = column_names@;
        column_names.push(field_names[index].clone());
        proof {
            assert(texts(column_names@) =~= texts(before).push(field_names@[index as int]@));
            assert(texts(field_names@)[index as int] == field_names@[index as int]@);
            assert(texts(field_names@).take(index as int + 1) =~= texts(field_names@).take(index as int).push(
                field_names@[index as int]@,
            ));
        }
        index = index + 1;
    }
    proof {
        assert(texts(field_names@).take(field_names.len() as int) =~= texts(field_names@));
    }
    push_ident_list(&mut builder, &column_names);
    builder.push(") VALUES (");
    builder.push_bind(SqlArg::Uuid(aggregate_id));
    let ghost before_values = builder@;
    let ghost parts = trailing_value_parts(fields@);
    let mut position: usize = 0;
    while position < fields.columns.len()
        invariant
            0 <= position <= fields.columns.len(),
            fields@.len() == fields.columns@.len(),
            parts == trailing_value_parts(fields@),
            builder@ == before_values + concat_all(parts.take(position as int)),
        decreases fields.columns.len() - position,
    {
        proof {
            lemma_concat_all_step(parts, position as int);
            assert(fields@[position as int].1 == fields.columns@[position as int].1@);
        }
        builder.push(", ");
        bind_with_enum_cast(&mut builder, &fields.columns[position].1, None);
        position = position + 1;
        proof {
            assert(builder@ =~= before_values + concat_all(parts.take(position as int)));
        }
    }
    proof {
        assert(parts.take(fields.columns.len() as int) =~= parts);
    }
    builder.push(") ");
    let mut conflict: Vec<String> = Vec::new();
    conflict.push(crate::text::owned(id_column));
    push_on_conflict_update(&mut builder, &conflict, &field_names);
    proof {
        assert(texts(conflict@) =~= seq![id_column@]);
        assert(builder@ =~= upsert_root_sql(table@, id_column@, aggregate_id, fields@));
    }
    builder
}

/// "The key column is not the aggregate id column."
pub open spec fn not_id_column(id_column: Seq<char>) -> spec_fn((Seq<char>, ValueView)) -> bool {
    |entry: (Seq<char>, ValueView)| entry.0 != id_column
}

/// A row entry as a sink column with a value.
pub open spec fn with_value() -> spec_fn((Seq<char>, ValueView)) -> (Seq<char>, Option<ValueView>) {
    |entry: (Seq<char>, ValueView)| (entry.0, Some(entry.1))
}

/// An entity sink column and its value (`None`: the aggregate id).
pub open spec fn keyed_entries(
    id_column: Seq<char>,
    keys: Seq<(Seq<char>, ValueView)>,
    fields: Seq<(Seq<char>, ValueView)>,
) -> Seq<(Seq<char>, Option<ValueView>)> {
    seq![(id_column, None)] + keys.filter(not_id_column(id_column)).map_values(with_value())
        + fields.map_values(with_value())
}

/// The name of a sink column.
pub open spec fn keyed_name() -> spec_fn((Seq<char>, Option<ValueView>)) -> Seq<char> {
    |entry: (Seq<char>, Option<ValueView>)| entry.0
}

/// A sink column and its value, read as characters and views.
pub open spec fn keyed_view() -> spec_fn((String, Option<MasonValue>)) -> (Seq<char>, Option<ValueView>) {
    |entry: (String, Option<MasonValue>)|
        (
            entry.0@,
            match entry.1 {
                Some(value) => Some(value@),
                None => None,
            },
        )
}

/// The value pieces of each entity sink column.
pub open spec fn keyed_value_parts(entries: Seq<(Seq<char>, Option<ValueView>)>, aggregate_id: u128) -> Seq<
    Seq<PieceView>,
> {
    entries.map_values(
        |entry: (Seq<char>, Option<ValueView>)|
            match entry.1 {
                Some(value) => bound_value(value, None),
                None => seq![bind(ArgView::Uuid(aggregate_id))],
            },
    )
}

/// Upserts an entity's sink row: the aggregate id, the keys (but the id) and
/// the fields; a conflict on the id and the Reference columns updates the fields.
pub open spec fn upsert_entity_sql(
    table: Seq<char>,
    id_column: Seq<char>,
    references: Seq<Seq<char>>,
    aggregate_id: u128,
    keys: Seq<(Seq<char>, ValueView)>,
    fields: Seq<(Seq<char>, ValueView)>,
) -> Seq<PieceView> {
    let entries = keyed_entries(id_column, keys, fields);
    seq![text("INSERT INTO "@), text(quoted(table)), text(" ("@)] + ident_list(entries.map_values(keyed_name()))
        + seq![text(") VALUES ("@)] + joined_pieces(", "@, keyed_value_parts(entries, aggregate_id)) + seq![
        text(") "@),
    ] + on_conflict_update(seq![id_column] + references, row_names(fields))
}

/// The entity sink columns with their values.
fn keyed_columns(id_column: &str, keys: &MasonRow, fields: &MasonRow) -> (columns: Vec<(String, Option<MasonValue>)>)
    ensures
        columns@.map_values(keyed_view()) == keyed_entries(id_column@, keys@, fields@),
{
    let ghost view_of = keyed_view();
    let ghost not_id = not_id_column(id_column@);
    let ghost as_key = with_value();
    let mut columns: Vec<(String, Option<MasonValue>)> = Vec::new();
    columns.push((crate::text::owned(id_column), None));
    let mut index: usize = 0;
    while index < keys.columns.len()
        invariant
            0 <= index <= keys.columns.len(),
            keys@.len() == keys.columns@.len(),
            view_of == keyed_view(),
            not_id == not_id_column(id_column@),
            as_key == with_value(),
            columns@.map_values(view_of) == seq![(id_column@, None::<ValueView>)] + keys@.take(
                index as int,
            ).filter(not_id).map_values(as_key),
        decreases keys.columns.len() - index,
    {
        let ghost before = columns@;
        proof {
            lemma_filter_take_step(keys@, not_id, index as int);
            assert(keys@[index as int] == (keys.columns@[index as int].0@, keys.columns@[index as int].1@));
        }
        if !str_equal(keys.columns[index].0.as_str(), id_column) {
            let name = keys.columns[index].0.clone();
            let value = keys.columns[index].1.clone();
            columns.push((name, Some(value)));
            proof {
                assert(columns@.map_values(view_of) =~= before.map_values(view_of).push(
                    as_key(keys@[index as int]),
                ));
            }
        }
        index = index + 1;
        proof {
            assert(columns@.map_values(view_of) =~= seq![(id_column@, None::<ValueView>)] + keys@.take(
                index as int,
            ).filter(not_id).map_values(as_key));
        }
    }
    proof {
        assert(keys@.take(keys.columns.len() as int) =~= keys@);
    }
    let ghost with_keys = columns@.map_values(view_of);
    let mut position: usize = 0;
    while position < fields.columns.len()
        invariant
            0 <= position <= fields.columns.len(),
            fields@.len() == fields.columns@.len(),
            view_of == keyed_view(),
            as_key == with_value(),
            columns@.map_values(view_of) == with_keys + fields@.take(position as int).map_values(as_key),
        decreases fields.columns.len() - position,
    {
        let ghost before = columns@;
        let name = fields.columns[position].0.clone();
        let value = fields.columns[position].1.clone();
        columns.push((name, Some(value)));
        proof {
            assert(fields@[position as int] == (
                fields.columns@[position as int].0@,
                fields.columns@[position as int].1@,
            ));
            assert(columns@.map_values(view_of) =~= before.map_values(view_of).push(
                as_key(fields@[position as int]),
            ));
        }
        position = position + 1;
        proof {
            assert(columns@.map_values(view_of) =~= with_keys + fields@.take(position as int).map_values(as_key));
        }
    }
    proof {
        assert(fields@.take(fields.columns.len() as int) =~= fields@);
        assert(columns@.map_values(view_of) =~= keyed_entries(id_column@, keys@, fields@));
    }
    columns
}

/// The names of the sink columns.
fn keyed_names(columns: &Vec<(String, Option<MasonValue>)>) -> (names: Vec<String>)
    ensures
        texts(names@) == columns@.map_values(keyed_view()).map_values(keyed_name()),
{
    let mut names: Vec<String> = Vec::new();
    let mut index: usize = 0;
    while index < columns.len()
        invariant
            0 <= index <= columns.len(),
            texts(names@) == columns@.take(index as int).map_values(keyed_view()).map_values(keyed_name()),
        decreases columns.len() - index,
    {
        let ghost before = names@;
        names.push(columns[index].0.clone());
        proof {
            assert(texts(names@) =~= texts(before).push(columns@[index as int].0@));
            assert(columns@.take(index as int + 1) =~= columns@.take(index as int).push(columns@[index as int]));
            assert(columns@.take(index as int + 1).map_values(keyed_view()).map_values(keyed_name())
                =~= columns@.take(index as int).map_values(keyed_view()).map_values(keyed_name()).push(
                columns@[index as int].0@,
            ));
        }
        index = index + 1;
    }
    proof {
        assert(columns@.take(columns.len() as int) =~= columns@);
    }
    names
}

/// Builds an entity's sink upsert.
fn build_upsert_entity(
    table: &str,
    id_column: &str,
    reference_columns: &Vec<String>,
    aggregate_id: u128,
    keys: &MasonRow,
    fields: &MasonRow,
) -> (statement: SqlStatement)
    ensures
        statement@ == upsert_entity_sql(
            table@,
            id_column@,
            texts(reference_columns@),
            aggregate_id,
            keys@,
            fields@,
        ),
{
    let columns = keyed_columns(id_column, keys, fields);
    let ghost entries = keyed_entries(id_column@, keys@, fields@);
    let names = keyed_names(&columns);
    let mut builder = SqlStatement::new("INSERT INTO ");
    builder.push_text(quote_ident(table));
    builder.push(" (");
    push_ident_list(&mut builder, &names);
    builder.push(") VALUES (");
    let ghost before_values = builder@;
    let ghost parts = keyed_value_parts(entries, aggregate_id);
    let mut index: usize = 0;
    while index < columns.len()
        invariant
            0 <= index <= columns.len(),
            entries == keyed_entries(id_column@, keys@, fields@),
            columns@.map_values(keyed_view()) == entries,
            parts == keyed_value_parts(entries, aggregate_id),
            builder@ == before_values + joined_pieces(", "@, parts.take(index as int)),
        decreases columns.len() - index,
    {
        proof {
            lemma_joined_step(", "@, parts, index as int);
            assert(entries[index as int] == keyed_view()(columns@[index as int]));
        }
        if index > 0 {
            builder.push(", ");
        }
        match &columns[index].1 {
            Some(value) => {
                bind_with_enum_cast(&mut builder, value, None);
            },
            None => {
                builder.push_bind(SqlArg::Uuid(aggregate_id));
            },
        }
        index = index + 1;
        proof {
            assert(builder@ =~= before_values + joined_pieces(", "@, parts.take(index as int)));
        }
    }
    proof {
        assert(parts.take(columns.len() as int) =~= parts);
    }
    builder.push(") ");
    let mut conflict: Vec<String> = Vec::new();
    conflict.push(crate::text::owned(id_column));
    let mut position: usize = 0;
    while position < reference_columns.len()
        invariant
            0 <= position <= reference_columns.len(),
            texts(conflict@) == seq![id_column@] + texts(reference_columns@).take(position as int),
        decreases reference_columns.len() - position,
    {
        let ghost before = conflict@;
        conflict.push(reference_columns[position].clone());
        proof {
            assert(texts(conflict@) =~= texts(before).push(reference_columns@[position as int]@));
            assert(texts(reference_columns@).take(position as int + 1) =~= texts(reference_columns@).take(
                position as int,
            ).push(reference_columns@[position as int]@));
        }
        position = position + 1;
    }
    proof {
        assert(texts(reference_columns@).take(reference_columns.len() as int) =~= texts(reference_columns@));
    }
    let update = row_name_list(fields);
    push_on_conflict_update(&mut builder, &conflict, &update);
    proof {
        assert(columns@.map_values(keyed_view()).map_values(keyed_name()) =~= entries.map_values(keyed_name()));
        assert(builder@ =~= upsert_entity_sql(
            table@,
            id_column@,
            texts(reference_columns@),
            aggregate_id,
            keys@,
            fields@,
        ));
    }
    builder
}

/// Marks the root's sink row deleted.
pub open spec fn soft_delete_root_sql(table: Seq<char>, id_column: Seq<char>, aggregate_id: u128) -> Seq<PieceView> {
    seq![
        text("UPDATE "@),
        text(quoted(table)),
        text(" SET "@),
        text(quoted(COL_IS_DELETED@)),
        text(" = TRUE WHERE "@),
        text(quoted(id_column)),
        text(" = "@),
        bind(ArgView::Uuid(aggregate_id)),
    ]
}

/// Marks the entity sink row with these keys deleted.
pub open spec fn soft_delete_entity_sql(
    table: Seq<char>,
    id_column: Seq<char>,
    aggregate_id: u128,
    keys: Seq<(Seq<char>, ValueView)>,
) -> Seq<PieceView> {
    soft_delete_root_sql(table, id_column, aggregate_id) + key_conditions(keys, id_column, " = "@)
}

/// Builds the root's soft delete.
fn build_soft_delete_root(table: &str, id_column: &str, aggregate_id: u128) -> (statement: SqlStatement)
    ensures
        statement@ == soft_delete_root_sql(table@, id_column@, aggregate_id),
{
    let mut builder = SqlStatement::new("UPDATE ");
    builder.push_text(quote_ident(table));
    builder.push(" SET ");
    builder.push_text(quote_ident(COL_IS_DELETED));
    builder.push(" = TRUE WHERE ");
    builder.push_text(quote_ident(id_column));
    builder.push(" = ");
    builder.push_bind(SqlArg::Uuid(aggregate_id));
    proof {
        assert(builder@ =~= soft_delete_root_sql(table@, id_column@, aggregate_id));
    }
    builder
}

/// Builds an entity's soft delete.
fn build_soft_delete_entity(table: &str, id_column: &str, aggregate_id: u128, keys: &MasonRow) -> (statement:
    SqlStatement)
    ensures
        statement@ == soft_delete_entity_sql(table@, id_column@, aggregate_id, keys@),
{
    let mut builder = build_soft_delete_root(table, id_column, aggregate_id);
    emit_key_conditions(&mut builder, keys, id_column, " = ");
    builder
}

/// The names of the Reference columns of the relation `relation_name`.
fn collect_references(codex: &Codex, relation_name: &str) -> (names: Vec<String>)
    ensures
        texts(names@) == names_of(relation_columns(*codex, relation_name@).filter(is_reference_column())),
{
    let mut names: Vec<String> = Vec::new();
    let ghost wanted = is_reference_column();
    match codex.relation(relation_name) {
        None => {
            proof {
                assert(texts(names@) =~= names_of(Seq::<CodexColumn>::empty().filter(wanted)));
            }
        },
        Some(relation) => {
            let mut index: usize = 0;
            while index < relation.columns.len()
                invariant
                    0 <= index <= relation.columns.len(),
                    wanted == is_reference_column(),
                    texts(names@) == names_of(relation.columns@.take(index as int).filter(wanted)),
                decreases relation.columns.len() - index,
            {
                let ghost before = names@;
                proof {
                    lemma_filter_take_step(relation.columns@, wanted, index as int);
                }
                if relation.columns[index].role == CodexRole::Reference {
                    names.push(relation.columns[index].name.clone());
                    proof {
                        assert(texts(names@) =~= texts(before).push(relation.columns@[index as int].name@));
                    }
                }
                index = index + 1;
                proof {
                    assert(texts(names@) =~= names_of(relation.columns@.take(index as int).filter(wanted)));
                }
            }
            proof {
                assert(relation.columns@.take(relation.columns.len() as int) =~= relation.columns@);
            }
        },
    }
    names
}

// ── effects ────────────────────────────────────────────────────────────────

/// The sink statements of one effect: an upsert or revise upserts the
/// target's sink row, a delete soft-deletes it; nothing when the target has no sink.
pub open spec fn sink_effect_statements(
    codex: Codex,
    aggregate: CodexAggregate,
    aggregate_id: u128,
    effect: MasonEffect,
) -> Seq<Seq<PieceView>> {
    let id_column = aggregate.root.id_column@;
    match effect {
        MasonEffect::Upsert { target, fields } => upsert_statements(codex, aggregate, aggregate_id, target, fields@),
        MasonEffect::Revise { target, fields } => upsert_statements(codex, aggregate, aggregate_id, target, fields@),
        MasonEffect::Delete { target } => match target {
            MasonEffectTarget::Root => match sink_of(aggregate, None) {
                Some(sink) => seq![soft_delete_root_sql(sink.relation@, id_column, aggregate_id)],
                None => Seq::empty(),
            },
            MasonEffectTarget::Entity { name, keys } => match sink_of(aggregate, Some(name@)) {
                Some(sink) => seq![soft_delete_entity_sql(sink.relation@, id_column, aggregate_id, keys@)],
                None => Seq::empty(),
            },
        },
    }
}

/// The upsert of the target's sink row, if it has a sink.
pub open spec fn upsert_statements(
    codex: Codex,
    aggregate: CodexAggregate,
    aggregate_id: u128,
    target: MasonEffectTarget,
    fields: Seq<(Seq<char>, ValueView)>,
) -> Seq<Seq<PieceView>> {
    let id_column = aggregate.root.id_column@;
    match target {
        MasonEffectTarget::Root => match sink_of(aggregate, None) {
            Some(sink) => seq![upsert_root_sql(sink.relation@, id_column, aggregate_id, fields)],
            None => Seq::empty(),
        },
        MasonEffectTarget::Entity { name, keys } => match sink_of(aggregate, Some(name@)) {
            Some(sink) => seq![
                upsert_entity_sql(
                    sink.relation@,
                    id_column,
                    names_of(relation_columns(codex, sink.relation@).filter(is_reference_column())),
                    aggregate_id,
                    keys@,
                    fields,
                ),
            ],
            None => Seq::empty(),
        },
    }
}

/// The sink statements of each effect.
pub open spec fn sink_parts(codex: Codex, aggregate: CodexAggregate, aggregate_id: u128, effects: Seq<MasonEffect>) -> Seq<
    Seq<Seq<PieceView>>,
> {
    effects.map_values(|effect: MasonEffect| sink_effect_statements(codex, aggregate, aggregate_id, effect))
}

/// The upsert of the target's sink row, if it has a sink.
fn push_upsert(
    statements: &mut Vec<SqlStatement>,
    codex: &Codex,
    aggregate: &CodexAggregate,
    aggregate_id: u128,
    target: &MasonEffectTarget,
    fields: &MasonRow,
)
    ensures
        statements_view(final(statements)@) == statements_view(old(statements)@) + upsert_statements(
            *codex,
            *aggregate,
            aggregate_id,
            *target,
            fields@,
        ),
{
    let ghost start = statements_view(statements@);
    let id_column = aggregate.root.id_column.as_str();
    match target {
        MasonEffectTarget::Root => {
            if let Some(sink) = aggregate.sink(None) {
                statements.push(build_upsert_root(sink.relation.as_str(), id_column, aggregate_id, fields));
            }
        },
        MasonEffectTarget::Entity { name, keys } => {
            if let Some(sink) = aggregate.sink(Some(name.as_str())) {
                let references = collect_references(codex, sink.relation.as_str());
                statements.push(
                    build_upsert_entity(sink.relation.as_str(), id_column, &references, aggregate_id, keys, fields),
                );
            }
        },
    }
    proof {
        assert(statements_view(statements@) =~= start + upsert_statements(
            *codex,
            *aggregate,
            aggregate_id,
            *target,
            fields@,
        ));
    }
}

/// The soft delete of the target's sink row, if it has a sink.
fn push_delete(
    statements: &mut Vec<SqlStatement>,
    aggregate: &CodexAggregate,
    aggregate_id: u128,
    target: &MasonEffectTarget,
)
    ensures
        statements_view(final(statements)@) == statements_view(old(statements)@) + match *target {
            MasonEffectTarget::Root => match sink_of(*aggregate, None) {
                Some(sink) => seq![soft_delete_root_sql(sink.relation@, aggregate.root.id_column@, aggregate_id)],
                None => Seq::<Seq<PieceView>>::empty(),
            },
            MasonEffectTarget::Entity { name, keys } => match sink_of(*aggregate, Some(name@)) {
                Some(sink) => seq![
                    soft_delete_entity_sql(sink.relation@, aggregate.root.id_column@, aggregate_id, keys@),
                ],
                None => Seq::<Seq<PieceView>>::empty(),
            },
        },
{
    let ghost start = statements_view(statements@);
    let id_column = aggregate.root.id_column.as_str();
    match target {
        MasonEffectTarget::Root => {
            if let Some(sink) = aggregate.sink(None) {
                statements.push(build_soft_delete_root(sink.relation.as_str(), id_column, aggregate_id));
            }
        },
        MasonEffectTarget::Entity { name, keys } => {
            if let Some(sink) = aggregate.sink(Some(name.as_str())) {
                statements.push(build_soft_delete_entity(sink.relation.as_str(), id_column, aggregate_id, keys));
            }
        },
    }
    proof {
        assert(statements_view(statements@) =~= start + match *target {
            MasonEffectTarget::Root => match sink_of(*aggregate, None) {
                Some(sink) => seq![soft_delete_root_sql(sink.relation@, aggregate.root.id_column@, aggregate_id)],
                None => Seq::<Seq<PieceView>>::empty(),
            },
            MasonEffectTarget::Entity { name, keys } => match sink_of(*aggregate, Some(name@)) {
                Some(sink) => seq![
                    soft_delete_entity_sql(sink.relation@, aggregate.root.id_column@, aggregate_id, keys@),
                ],
                None => Seq::<Seq<PieceView>>::empty(),
            },
        });
    }
}

/// Plans the sink writes of one aggregate's effects: nothing when the
/// aggregate is not in the catalog, there are no effects or it has no sinks;
/// the key error when an entity key breaks the rules; otherwise each effect's
/// statements in order (the caller runs them in one transaction when there
/// are any).
pub fn sink_effects(codex: &Codex, aggregate_type: &str, aggregate_id: u128, effects: &Vec<MasonEffect>) -> (plan:
    Result<Vec<SqlStatement>, LaxError>)
    ensures
        match aggregate_of(*codex, aggregate_type@) {
            None => plan matches Ok(statements) && statements@.len() == 0,
            Some(aggregate) => if effects@.len() == 0 || aggregate.sinks@.len() == 0 {
                plan matches Ok(statements) && statements@.len() == 0
            } else {
                match sink_keys_failure(*codex, aggregate, effects@) {
                    Some(failure) => plan matches Err(error) && error@ == failure,
                    None => plan matches Ok(statements) && statements_view(statements@) == concat_all(
                        sink_parts(*codex, aggregate, aggregate_id, effects@),
                    ),
                }
            },
        },
{
    let aggregate = match codex.aggregate(aggregate_type) {
        None => return Ok(Vec::new()),
        Some(aggregate) => aggregate,
    };
    if effects.len() == 0 || aggregate.sinks.len() == 0 {
        return Ok(Vec::new());
    }
    sink_entity_keys(codex, aggregate, effects)?;
    let ghost parts = sink_parts(*codex, *aggregate, aggregate_id, effects@);
    let mut statements: Vec<SqlStatement> = Vec::new();
    let mut index: usize = 0;
    proof {
        assert(statements_view(statements@) =~= concat_all(parts.take(0)));
    }
    while index < effects.len()
        invariant
            0 <= index <= effects.len(),
            parts == sink_parts(*codex, *aggregate, aggregate_id, effects@),
            statements_view(statements@) == concat_all(parts.take(index as int)),
        decreases effects.len() - index,
    {
        proof {
            lemma_concat_all_step(parts, index as int);
        }
        match &effects[index] {
            MasonEffect::Upsert { target, fields } => {
                push_upsert(&mut statements, codex, aggregate, aggregate_id, target, fields);
            },
            MasonEffect::Revise { target, fields } => {
                push_upsert(&mut statements, codex, aggregate, aggregate_id, target, fields);
            },
            MasonEffect::Delete { target } => {
                push_delete(&mut statements, aggregate, aggregate_id, target);
            },
        }
        index = index + 1;
    }
    proof {
        assert(parts.take(effects.len() as int) =~= parts);
    }
    Ok(statements)
}

} // verus!
