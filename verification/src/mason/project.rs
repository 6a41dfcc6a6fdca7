//! The projection writer: turns one aggregate's effects into the statements
//! that write its snapshot rows at the event's version. A create writes the
//! rows outright; any later change copies every row of the previous version
//! forward, applying the effects on the way.

use vstd::prelude::*;

use crate::catalog::aggregate::{CodexAggregate, CodexEntity, entity_of};
use crate::catalog::column::{CodexColumn, CodexRole};
use crate::definition::{Codex, aggregate_of, relation_of};
use crate::error::{LaxError, LaxErrorView, MasonError, texts};
use crate::mason::rows::{
    COL_VERSION,
    RowContext,
    RowSpec,
    column_name_list,
    copy_forward_insert,
    copy_value,
    emit_insert_from_select,
    emit_insert_from_select_excluding,
    emit_plain_insert,
    enum_cast,
    names_of,
    plain_insert,
    row_value,
    rows_view,
    source_value,
};
use crate::mason::sql::{ArgView, PieceView, SqlArg, SqlStatement, bind, bound_value, statements_view, text};
use crate::mason::validate::{entity_target, projection_entity_keys, projection_keys_failure};
use crate::mason::value::{
    Actor, MasonEffect, MasonEffectTarget, MasonRow, MasonValue, Provenance, ValueView, uuid_text,
    uuid_text_of,
};
use crate::seqs::{
    concat_all,
    deref_all,
    lemma_concat_all_step,
    lemma_filter_take_step,
    lemma_filter_map_take_step,
};
use crate::text::{owned, str_equal};

verus! {

// ── catalog lookups ────────────────────────────────────────────────────────

/// The columns of the relation `table`, or none when it is not in the catalog.
pub open spec fn relation_columns(codex: Codex, table: Seq<char>) -> Seq<CodexColumn> {
    match relation_of(codex, table) {
        Some(relation) => relation.columns@,
        None => Seq::empty(),
    }
}

/// "The column is a Reference column."
pub open spec fn is_reference_column() -> spec_fn(CodexColumn) -> bool {
    |column: CodexColumn| column.role == CodexRole::Reference
}

/// The root's primary key: the aggregate id and the version.
pub open spec fn root_primary_key(aggregate: CodexAggregate) -> Seq<Seq<char>> {
    seq![aggregate.root.id_column@, COL_VERSION@]
}

/// An entity's primary key: the root's, then the entity relation's Reference columns.
pub open spec fn entity_primary_key(codex: Codex, aggregate: CodexAggregate, entity: CodexEntity) -> Seq<Seq<char>> {
    root_primary_key(aggregate) + names_of(relation_columns(codex, entity.relation@).filter(is_reference_column()))
}

/// The columns of `table` (an empty list when it is not in the catalog).
fn columns_of<'a>(codex: &'a Codex, table: &str, none: &'a Vec<CodexColumn>) -> (columns: &'a Vec<CodexColumn>)
    requires
        none@.len() == 0,
    ensures
        columns@ == relation_columns(*codex, table@),
{
    match codex.relation(table) {
        Some(relation) => &relation.columns,
        None => none,
    }
}

/// The root's primary key columns.
pub fn root_primary_key_list(aggregate: &CodexAggregate) -> (primary_key: Vec<String>)
    ensures
        texts(primary_key@) == root_primary_key(*aggregate),
{
    let mut primary_key: Vec<String> = Vec::new();
    primary_key.push(aggregate.root.id_column.clone());
    primary_key.push(owned(COL_VERSION));
    proof {
        assert(texts(primary_key@) =~= root_primary_key(*aggregate));
    }
    primary_key
}

/// The entity's primary key columns.
pub fn entity_primary_key_list(codex: &Codex, aggregate: &CodexAggregate, entity: &CodexEntity) -> (primary_key:
    Vec<String>)
    ensures
        texts(primary_key@) == entity_primary_key(*codex, *aggregate, *entity),
{
    let mut primary_key = root_primary_key_list(aggregate);
    let none: Vec<CodexColumn> = Vec::new();
    let columns = columns_of(codex, entity.relation.as_str(), &none);
    let ghost start = texts(primary_key@);
    let ghost wanted = is_reference_column();
    let mut index: usize = 0;
    while index < columns.len()
        invariant
            0 <= index <= columns.len(),
            wanted == is_reference_column(),
            texts(primary_key@) == start + names_of(columns@.take(index as int).filter(wanted)),
        decreases columns.len() - index,
    {
        let ghost before = primary_key@;
        proof {
            lemma_filter_take_step(columns@, wanted, index as int);
        }
        if columns[index].role == CodexRole::Reference {
            primary_key.push(columns[index].name.clone());
            proof {
                assert(texts(primary_key@) =~= texts(before).push(columns@[index as int].name@));
            }
        }
        index = index + 1;
        proof {
            assert(texts(primary_key@) =~= start + names_of(columns@.take(index as int).filter(wanted)));
        }
    }
    proof {
        assert(columns@.take(columns.len() as int) =~= columns@);
    }
    primary_key
}

// ── the statement of each snapshot row ─────────────────────────────────────

/// Where a snapshot row of `aggregate` gets its values.
pub open spec fn snapshot_row(
    aggregate: CodexAggregate,
    aggregate_id: u128,
    version: i64,
    is_deleted: Option<bool>,
    sources: Seq<Seq<(Seq<char>, ValueView)>>,
    columns: Seq<CodexColumn>,
) -> RowSpec {
    RowSpec { aggregate_key: aggregate.root.id_column@, aggregate_id, version, is_deleted, sources, columns }
}

/// The root row of a new aggregate: its fields, then the audit columns.
pub open spec fn root_create_sql(
    codex: Codex,
    aggregate: CodexAggregate,
    aggregate_id: u128,
    version: i64,
    fields: Seq<(Seq<char>, ValueView)>,
    audit: Seq<(Seq<char>, ValueView)>,
) -> Seq<PieceView> {
    let table = aggregate.root.relation@;
    let columns = relation_columns(codex, table);
    plain_insert(
        table,
        names_of(columns),
        snapshot_row(aggregate, aggregate_id, version, Some(false), seq![fields, audit], columns),
        root_primary_key(aggregate),
    )
}

/// The root row copied forward with the audit columns and the overrides.
pub open spec fn root_copy_forward_sql(
    codex: Codex,
    aggregate: CodexAggregate,
    aggregate_id: u128,
    version: i64,
    overrides: Seq<(Seq<char>, ValueView)>,
    is_deleted: bool,
    audit: Seq<(Seq<char>, ValueView)>,
) -> Seq<PieceView> {
    let table = aggregate.root.relation@;
    let columns = relation_columns(codex, table);
    copy_forward_insert(
        table,
        names_of(columns),
        snapshot_row(aggregate, aggregate_id, version, Some(is_deleted), seq![audit, overrides], columns),
        table,
        Seq::empty(),
        false,
        false,
        root_primary_key(aggregate),
    )
}

/// A new entity row: its keys, fields and the audit columns.
pub open spec fn entity_insert_sql(
    codex: Codex,
    aggregate: CodexAggregate,
    entity: CodexEntity,
    aggregate_id: u128,
    version: i64,
    keys: Seq<(Seq<char>, ValueView)>,
    fields: Seq<(Seq<char>, ValueView)>,
    audit: Seq<(Seq<char>, ValueView)>,
) -> Seq<PieceView> {
    let table = entity.relation@;
    let columns = relation_columns(codex, table);
    plain_insert(
        table,
        names_of(columns),
        snapshot_row(aggregate, aggregate_id, version, Some(false), seq![keys, fields, audit], columns),
        entity_primary_key(codex, aggregate, entity),
    )
}

/// The entity row with these keys copied forward with its new fields.
pub open spec fn entity_revise_sql(
    codex: Codex,
    aggregate: CodexAggregate,
    entity: CodexEntity,
    aggregate_id: u128,
    version: i64,
    keys: Seq<(Seq<char>, ValueView)>,
    fields: Seq<(Seq<char>, ValueView)>,
    audit: Seq<(Seq<char>, ValueView)>,
) -> Seq<PieceView> {
    let table = entity.relation@;
    let columns = relation_columns(codex, table);
    copy_forward_insert(
        table,
        names_of(columns),
        snapshot_row(aggregate, aggregate_id, version, None, seq![fields, audit], columns),
        table,
        seq![keys],
        false,
        false,
        entity_primary_key(codex, aggregate, entity),
    )
}

/// An entity revise copies the entity's row forward with every column its
/// fields name bound to that field's value (the first field of the name),
/// the aggregate key and the version aside: a revised value is never
/// passed through from the previous row.
pub proof fn lemma_revise_binds_fields(
    codex: Codex,
    aggregate: CodexAggregate,
    entity: CodexEntity,
    aggregate_id: u128,
    version: i64,
    keys: Seq<(Seq<char>, ValueView)>,
    fields: Seq<(Seq<char>, ValueView)>,
    audit: Seq<(Seq<char>, ValueView)>,
)
    ensures
        exists|row: RowSpec|
            #[trigger] copy_forward_insert(
                entity.relation@,
                names_of(relation_columns(codex, entity.relation@)),
                row,
                entity.relation@,
                seq![keys],
                false,
                false,
                entity_primary_key(codex, aggregate, entity),
            ) == entity_revise_sql(codex, aggregate, entity, aggregate_id, version, keys, fields, audit)
                && forall|column: Seq<char>|
                #![trigger copy_value(row, column)]
                row_value(fields, column) is Some && column != aggregate.root.id_column@ && column != COL_VERSION@
                    ==> copy_value(row, column) == bound_value(
                    row_value(fields, column)->0,
                    enum_cast(relation_columns(codex, entity.relation@), column),
                ),
{
    let columns = relation_columns(codex, entity.relation@);
    let row = snapshot_row(aggregate, aggregate_id, version, None, seq![fields, audit], columns);
    assert forall|column: Seq<char>|
        row_value(fields, column) is Some && column != aggregate.root.id_column@ && column != COL_VERSION@ implies
        #[trigger] copy_value(row, column) == bound_value(row_value(fields, column)->0, enum_cast(columns, column)) by {
        assert(source_value(row.sources, column) == row_value(fields, column));
    }
    assert(copy_forward_insert(
        entity.relation@,
        names_of(columns),
        row,
        entity.relation@,
        seq![keys],
        false,
        false,
        entity_primary_key(codex, aggregate, entity),
    ) == entity_revise_sql(codex, aggregate, entity, aggregate_id, version, keys, fields, audit));
}

/// The entity row with these keys copied forward marked deleted.
pub open spec fn entity_remove_sql(
    codex: Codex,
    aggregate: CodexAggregate,
    entity: CodexEntity,
    aggregate_id: u128,
    version: i64,
    keys: Seq<(Seq<char>, ValueView)>,
    audit: Seq<(Seq<char>, ValueView)>,
) -> Seq<PieceView> {
    let table = entity.relation@;
    let columns = relation_columns(codex, table);
    copy_forward_insert(
        table,
        names_of(columns),
        snapshot_row(aggregate, aggregate_id, version, Some(true), seq![audit], columns),
        table,
        seq![keys],
        false,
        false,
        entity_primary_key(codex, aggregate, entity),
    )
}

/// Every live entity row copied forward unchanged, except the rows with the
/// excluded keys.
pub open spec fn entity_copy_forward_sql(
    codex: Codex,
    aggregate: CodexAggregate,
    entity: CodexEntity,
    aggregate_id: u128,
    version: i64,
    excluded: Seq<Seq<(Seq<char>, ValueView)>>,
) -> Seq<PieceView> {
    let table = entity.relation@;
    let columns = relation_columns(codex, table);
    copy_forward_insert(
        table,
        names_of(columns),
        snapshot_row(aggregate, aggregate_id, version, None, Seq::empty(), columns),
        table,
        excluded,
        true,
        true,
        entity_primary_key(codex, aggregate, entity),
    )
}

/// Builds the root row of a new aggregate.
fn build_root_create(
    codex: &Codex,
    aggregate: &CodexAggregate,
    aggregate_id: u128,
    version: i64,
    fields: &MasonRow,
    audit: &MasonRow,
) -> (statement: SqlStatement)
    ensures
        statement@ == root_create_sql(*codex, *aggregate, aggregate_id, version, fields@, audit@),
{
    let table = aggregate.root.relation.as_str();
    let none: Vec<CodexColumn> = Vec::new();
    let columns = columns_of(codex, table, &none);
    let names = column_name_list(columns);
    let mut sources: Vec<&MasonRow> = Vec::new();
    sources.push(fields);
    sources.push(audit);
    let context = RowContext {
        aggregate_key: aggregate.root.id_column.as_str(),
        aggregate_id,
        version,
        is_deleted: Some(false),
        field_sources: sources,
        columns,
    };
    proof {
        assert(rows_view(context.field_sources@) =~= seq![fields@, audit@]);
    }
    emit_plain_insert(table, &names, &context, &root_primary_key_list(aggregate))
}

/// Builds the root row copied forward.
fn build_root_copy_forward(
    codex: &Codex,
    aggregate: &CodexAggregate,
    aggregate_id: u128,
    version: i64,
    overrides: &MasonRow,
    is_deleted: bool,
    audit: &MasonRow,
) -> (statement: SqlStatement)
    requires
        version >= 0,
    ensures
        statement@ == root_copy_forward_sql(
            *codex,
            *aggregate,
            aggregate_id,
            version,
            overrides@,
            is_deleted,
            audit@,
        ),
{
    let table = aggregate.root.relation.as_str();
    let none: Vec<CodexColumn> = Vec::new();
    let columns = columns_of(codex, table, &none);
    let names = column_name_list(columns);
    let mut sources: Vec<&MasonRow> = Vec::new();
    sources.push(audit);
    sources.push(overrides);
    let context = RowContext {
        aggregate_key: aggregate.root.id_column.as_str(),
        aggregate_id,
        version,
        is_deleted: Some(is_deleted),
        field_sources: sources,
        columns,
    };
    let filters: Vec<&MasonRow> = Vec::new();
    proof {
        assert(rows_view(context.field_sources@) =~= seq![audit@, overrides@]);
        assert(rows_view(filters@) =~= Seq::<Seq<(Seq<char>, ValueView)>>::empty());
    }
    emit_insert_from_select(table, &names, &context, table, &filters, &root_primary_key_list(aggregate))
}

/// Builds a new entity row at the event's version.
fn build_entity_insert_at_version(
    codex: &Codex,
    aggregate: &CodexAggregate,
    entity: &CodexEntity,
    aggregate_id: u128,
    version: i64,
    keys: &MasonRow,
    fields: &MasonRow,
    audit: &MasonRow,
) -> (statement: SqlStatement)
    ensures
        statement@ == entity_insert_sql(*codex, *aggregate, *entity, aggregate_id, version, keys@, fields@, audit@),
{
    let table = entity.relation.as_str();
    let none: Vec<CodexColumn> = Vec::new();
    let columns = columns_of(codex, table, &none);
    let names = column_name_list(columns);
    let mut sources: Vec<&MasonRow> = Vec::new();
    sources.push(keys);
    sources.push(fields);
    sources.push(audit);
    let context = RowContext {
        aggregate_key: aggregate.root.id_column.as_str(),
        aggregate_id,
        version,
        is_deleted: Some(false),
        field_sources: sources,
        columns,
    };
    proof {
        assert(rows_view(context.field_sources@) =~= seq![keys@, fields@, audit@]);
    }
    emit_plain_insert(table, &names, &context, &entity_primary_key_list(codex, aggregate, entity))
}

/// Builds a new entity row added by a later change.
fn build_entity_add(
    codex: &Codex,
    aggregate: &CodexAggregate,
    entity: &CodexEntity,
    aggregate_id: u128,
    version: i64,
    keys: &MasonRow,
    fields: &MasonRow,
    audit: &MasonRow,
) -> (statement: SqlStatement)
    ensures
        statement@ == entity_insert_sql(*codex, *aggregate, *entity, aggregate_id, version, keys@, fields@, audit@),
{
    build_entity_insert_at_version(codex, aggregate, entity, aggregate_id, version, keys, fields, audit)
}

/// Builds the revised entity row.
fn build_entity_revise(
    codex: &Codex,
    aggregate: &CodexAggregate,
    entity: &CodexEntity,
    aggregate_id: u128,
    version: i64,
    keys: &MasonRow,
    fields: &MasonRow,
    audit: &MasonRow,
) -> (statement: SqlStatement)
    requires
        version >= 0,
    ensures
        statement@ == entity_revise_sql(*codex, *aggregate, *entity, aggregate_id, version, keys@, fields@, audit@),
{
    let table = entity.relation.as_str();
    let none: Vec<CodexColumn> = Vec::new();
    let columns = columns_of(codex, table, &none);
    let names = column_name_list(columns);
    let mut sources: Vec<&MasonRow> = Vec::new();
    sources.push(fields);
    sources.push(audit);
    let context = RowContext {
        aggregate_key: aggregate.root.id_column.as_str(),
        aggregate_id,
        version,
        is_deleted: None,
        field_sources: sources,
        columns,
    };
    let mut filters: Vec<&MasonRow> = Vec::new();
    filters.push(keys);
    proof {
        assert(rows_view(context.field_sources@) =~= seq![fields@, audit@]);
        assert(rows_view(filters@) =~= seq![keys@]);
    }
    emit_insert_from_select(
        table,
        &names,
        &context,
        table,
        &filters,
        &entity_primary_key_list(codex, aggregate, entity),
    )
}

/// Builds the removed entity row.
fn build_entity_remove(
    codex: &Codex,
    aggregate: &CodexAggregate,
    entity: &CodexEntity,
    aggregate_id: u128,
    version: i64,
    keys: &MasonRow,
    audit: &MasonRow,
) -> (statement: SqlStatement)
    requires
        version >= 0,
    ensures
        statement@ == entity_remove_sql(*codex, *aggregate, *entity, aggregate_id, version, keys@, audit@),
{
    let table = entity.relation.as_str();
    let none: Vec<CodexColumn> = Vec::new();
    let columns = columns_of(codex, table, &none);
    let names = column_name_list(columns);
    let mut sources: Vec<&MasonRow> = Vec::new();
    sources.push(audit);
    let context = RowContext {
        aggregate_key: aggregate.root.id_column.as_str(),
        aggregate_id,
        version,
        is_deleted: Some(true),
        field_sources: sources,
        columns,
    };
    let mut filters: Vec<&MasonRow> = Vec::new();
    filters.push(keys);
    proof {
        assert(rows_view(context.field_sources@) =~= seq![audit@]);
        assert(rows_view(filters@) =~= seq![keys@]);
    }
    emit_insert_from_select(
        table,
        &names,
        &context,
        table,
        &filters,
        &entity_primary_key_list(codex, aggregate, entity),
    )
}

/// Builds the copy-forward of every untouched live entity row.
fn build_entity_copy_forward(
    codex: &Codex,
    aggregate: &CodexAggregate,
    entity: &CodexEntity,
    aggregate_id: u128,
    version: i64,
    excluded_keys: &Vec<&MasonRow>,
) -> (statement: SqlStatement)
    requires
        version >= 0,
    ensures
        statement@ == entity_copy_forward_sql(
            *codex,
            *aggregate,
            *entity,
            aggregate_id,
            version,
            rows_view(excluded_keys@),
        ),
{
    let table = entity.relation.as_str();
    let none: Vec<CodexColumn> = Vec::new();
    let columns = columns_of(codex, table, &none);
    let names = column_name_list(columns);
    let sources: Vec<&MasonRow> = Vec::new();
    let context = RowContext {
        aggregate_key: aggregate.root.id_column.as_str(),
        aggregate_id,
        version,
        is_deleted: None,
        field_sources: sources,
        columns,
    };
    proof {
        assert(rows_view(context.field_sources@) =~= Seq::<Seq<(Seq<char>, ValueView)>>::empty());
    }
    emit_insert_from_select_excluding(
        table,
        &names,
        &context,
        table,
        excluded_keys,
        true,
        &entity_primary_key_list(codex, aggregate, entity),
    )
}

// ── dispatch: create vs copy-forward ───────────────────────────────────────

/// The statements a create writes for one effect: the root row for a root
/// upsert, an entity row for an upsert of a known entity, nothing otherwise.
pub open spec fn create_effect_statements(
    codex: Codex,
    aggregate: CodexAggregate,
    aggregate_id: u128,
    version: i64,
    audit: Seq<(Seq<char>, ValueView)>,
    effect: MasonEffect,
) -> Seq<Seq<PieceView>> {
    match effect {
        MasonEffect::Upsert { target: MasonEffectTarget::Root, fields } => seq![
            root_create_sql(codex, aggregate, aggregate_id, version, fields@, audit),
        ],
        MasonEffect::Upsert { target: MasonEffectTarget::Entity { name, keys }, fields } => match entity_of(
            aggregate,
            name@,
        ) {
            Some(entity) => seq![
                entity_insert_sql(codex, aggregate, entity, aggregate_id, version, keys@, fields@, audit),
            ],
            None => Seq::empty(),
        },
        _ => Seq::empty(),
    }
}

/// The create statements of each effect.
pub open spec fn create_parts(
    codex: Codex,
    aggregate: CodexAggregate,
    aggregate_id: u128,
    version: i64,
    audit: Seq<(Seq<char>, ValueView)>,
    effects: Seq<MasonEffect>,
) -> Seq<Seq<Seq<PieceView>>> {
    effects.map_values(
        |effect: MasonEffect| create_effect_statements(codex, aggregate, aggregate_id, version, audit, effect),
    )
}

/// Everything a create writes, effect by effect.
pub open spec fn create_statements(
    codex: Codex,
    aggregate: CodexAggregate,
    aggregate_id: u128,
    version: i64,
    audit: Seq<(Seq<char>, ValueView)>,
    effects: Seq<MasonEffect>,
) -> Seq<Seq<PieceView>> {
    concat_all(create_parts(codex, aggregate, aggregate_id, version, audit, effects))
}

/// Builds the statements of a create.
fn build_create(
    codex: &Codex,
    aggregate: &CodexAggregate,
    aggregate_id: u128,
    version: i64,
    effects: &Vec<MasonEffect>,
    audit: &MasonRow,
) -> (statements: Vec<SqlStatement>)
    ensures
        statements_view(statements@) == create_statements(
            *codex,
            *aggregate,
            aggregate_id,
            version,
            audit@,
            effects@,
        ),
{
    let ghost parts = create_parts(*codex, *aggregate, aggregate_id, version, audit@, effects@);
    let mut statements: Vec<SqlStatement> = Vec::new();
    let mut index: usize = 0;
    while index < effects.len()
        invariant
            0 <= index <= effects.len(),
            parts == create_parts(*codex, *aggregate, aggregate_id, version, audit@, effects@),
            statements_view(statements@) == concat_all(parts.take(index as int)),
        decreases effects.len() - index,
    {
        let ghost before = statements_view(statements@);
        proof {
            lemma_concat_all_step(parts, index as int);
        }
        match &effects[index] {
            MasonEffect::Upsert { target: MasonEffectTarget::Root, fields } => {
                let statement = build_root_create(codex, aggregate, aggregate_id, version, fields, audit);
                statements.push(statement);
            },
            MasonEffect::Upsert { target: MasonEffectTarget::Entity { name, keys }, fields } => {
                if let Some(entity) = aggregate.entity(name.as_str()) {
                    let statement = build_entity_insert_at_version(
                        codex,
                        aggregate,
                        entity,
                        aggregate_id,
                        version,
                        keys,
                        fields,
                        audit,
                    );
                    statements.push(statement);
                }
            },
            _ => {},
        }
        proof {
            assert(statements_view(statements@) =~= before + parts[index as int]);
        }
        index = index + 1;
    }
    proof {
        assert(parts.take(effects.len() as int) =~= parts);
    }
    statements
}

/// The fields a root revise adds to the root's overrides.
pub open spec fn override_part(effect: MasonEffect) -> Seq<(Seq<char>, ValueView)> {
    match effect {
        MasonEffect::Revise { target: MasonEffectTarget::Root, fields } => fields@,
        _ => Seq::empty(),
    }
}

/// The override fields of each effect.
pub open spec fn override_parts(effects: Seq<MasonEffect>) -> Seq<Seq<(Seq<char>, ValueView)>> {
    effects.map_values(|effect: MasonEffect| override_part(effect))
}

/// The fields of every root revise, in order.
pub open spec fn root_overrides(effects: Seq<MasonEffect>) -> Seq<(Seq<char>, ValueView)> {
    concat_all(override_parts(effects))
}

/// "The effect deletes the root."
pub open spec fn deletes_root(effect: MasonEffect) -> bool {
    effect matches MasonEffect::Delete { target: MasonEffectTarget::Root }
}

/// Whether some effect deletes the root.
pub open spec fn root_deleted(effects: Seq<MasonEffect>) -> bool {
    exists|i: int| 0 <= i < effects.len() && deletes_root(#[trigger] effects[i])
}

/// The root overrides and whether the root is deleted.
fn root_changes(effects: &Vec<MasonEffect>) -> (changes: (MasonRow, bool))
    ensures
        changes.0@ == root_overrides(effects@),
        changes.1 == root_deleted(effects@),
{
    let ghost parts = override_parts(effects@);
    let mut overrides = MasonRow { columns: Vec::new() };
    let mut deleted = false;
    let mut index: usize = 0;
    proof {
        assert(overrides@ =~= concat_all(parts.take(0)));
    }
    while index < effects.len()
        invariant
            0 <= index <= effects.len(),
            parts == override_parts(effects@),
            overrides@ == concat_all(parts.take(index as int)),
            deleted == exists|i: int| 0 <= i < index && deletes_root(#[trigger] effects@[i]),
        decreases effects.len() - index,
    {
        proof {
            lemma_concat_all_step(parts, index as int);
        }
        match &effects[index] {
            MasonEffect::Revise { target: MasonEffectTarget::Root, fields } => {
                overrides.extend(fields);
            },
            MasonEffect::Delete { target: MasonEffectTarget::Root } => {
                deleted = true;
            },
            _ => {},
        }
        proof {
            assert(parts[index as int] == override_part(effects@[index as int]));
            if deletes_root(effects@[index as int]) {
                assert(deleted);
            }
        }
        index = index + 1;
    }
    proof {
        assert(parts.take(effects.len() as int) =~= parts);
    }
    (overrides, deleted)
}

/// "The effect targets the entity named `name`."
pub open spec fn targets_entity(name: Seq<char>) -> spec_fn(MasonEffect) -> bool {
    |effect: MasonEffect|
        match entity_target(effect) {
            Some(target) => target.0 == name,
            None => false,
        }
}

/// The effects on the entity named `name`, in order.
pub open spec fn effects_for(effects: Seq<MasonEffect>, name: Seq<char>) -> Seq<MasonEffect> {
    effects.filter(targets_entity(name))
}

/// The keys of a revise or delete of an entity.
pub open spec fn excluded_key(effect: MasonEffect) -> Option<Seq<(Seq<char>, ValueView)>> {
    match effect {
        MasonEffect::Revise { target: MasonEffectTarget::Entity { keys, .. }, .. } => Some(keys@),
        MasonEffect::Delete { target: MasonEffectTarget::Entity { keys, .. } } => Some(keys@),
        _ => None,
    }
}

/// `excluded_key` as a function value.
pub open spec fn excluded_key_of() -> spec_fn(MasonEffect) -> Option<Seq<(Seq<char>, ValueView)>> {
    |effect: MasonEffect| excluded_key(effect)
}

/// The keys of the rows the entity effects rewrite, which the plain
/// copy-forward must leave out.
pub open spec fn excluded_keys(effects: Seq<MasonEffect>) -> Seq<Seq<(Seq<char>, ValueView)>> {
    effects.filter_map(excluded_key_of())
}

/// The effects on the entity named `name`.
fn entity_effects<'a>(effects: &'a Vec<MasonEffect>, name: &str) -> (found: Vec<&'a MasonEffect>)
    ensures
        deref_all(found@) == effects_for(effects@, name@),
{
    let ghost wanted = targets_entity(name@);
    let mut found: Vec<&'a MasonEffect> = Vec::new();
    let mut index: usize = 0;
    while index < effects.len()
        invariant
            0 <= index <= effects.len(),
            wanted == targets_entity(name@),
            deref_all(found@) == effects@.take(index as int).filter(wanted),
        decreases effects.len() - index,
    {
        let ghost before = found@;
        proof {
            lemma_filter_take_step(effects@, wanted, index as int);
        }
        let matches_name = match &effects[index] {
            MasonEffect::Upsert { target: MasonEffectTarget::Entity { name: target, .. }, .. } => str_equal(
                target.as_str(),
                name,
            ),
            MasonEffect::Revise { target: MasonEffectTarget::Entity { name: target, .. }, .. } => str_equal(
                target.as_str(),
                name,
            ),
            MasonEffect::Delete { target: MasonEffectTarget::Entity { name: target, .. } } => str_equal(
                target.as_str(),
                name,
            ),
            _ => false,
        };
        if matches_name {
            found.push(&effects[index]);
            proof {
                assert(deref_all(found@) =~= deref_all(before).push(effects@[index as int]));
            }
        }
        index = index + 1;
    }
    proof {
        assert(effects@.take(effects.len() as int) =~= effects@);
    }
    found
}

/// The keys of the revises and deletes among `effects`.
fn excluded_key_rows<'a>(effects: &Vec<&'a MasonEffect>) -> (keys: Vec<&'a MasonRow>)
    ensures
        rows_view(keys@) == excluded_keys(deref_all(effects@)),
{
    let ghost all = deref_all(effects@);
    let ghost f = excluded_key_of();
    let mut keys: Vec<&'a MasonRow> = Vec::new();
    let mut index: usize = 0;
    while index < effects.len()
        invariant
            0 <= index <= effects.len(),
            all == deref_all(effects@),
            f == excluded_key_of(),
            rows_view(keys@) == all.take(index as int).filter_map(f),
        decreases effects.len() - index,
    {
        let ghost before = keys@;
        proof {
            lemma_filter_map_take_step(all, f, index as int);
            assert(all[index as int] == *effects@[index as int]);
        }
        match effects[index] {
            MasonEffect::Revise { target: MasonEffectTarget::Entity { keys: row, .. }, .. } => {
                keys.push(row);
                proof {
                    assert(rows_view(keys@) =~= rows_view(before) + seq![row@]);
                }
            },
            MasonEffect::Delete { target: MasonEffectTarget::Entity { keys: row, .. } } => {
                keys.push(row);
                proof {
                    assert(rows_view(keys@) =~= rows_view(before) + seq![row@]);
                }
            },
            _ => {},
        }
        index = index + 1;
    }
    proof {
        assert(all.take(effects.len() as int) =~= all);
    }
    keys
}

/// The statement one entity effect adds after the entity's copy-forward.
pub open spec fn entity_effect_statements(
    codex: Codex,
    aggregate: CodexAggregate,
    entity: CodexEntity,
    aggregate_id: u128,
    version: i64,
    audit: Seq<(Seq<char>, ValueView)>,
    effect: MasonEffect,
) -> Seq<Seq<PieceView>> {
    match effect {
        MasonEffect::Upsert { target: MasonEffectTarget::Entity { keys, .. }, fields } => seq![
            entity_insert_sql(codex, aggregate, entity, aggregate_id, version, keys@, fields@, audit),
        ],
        MasonEffect::Revise { target: MasonEffectTarget::Entity { keys, .. }, fields } => seq![
            entity_revise_sql(codex, aggregate, entity, aggregate_id, version, keys@, fields@, audit),
        ],
        MasonEffect::Delete { target: MasonEffectTarget::Entity { keys, .. } } => seq![
            entity_remove_sql(codex, aggregate, entity, aggregate_id, version, keys@, audit),
        ],
        _ => Seq::empty(),
    }
}

/// The statements of each effect on one entity.
pub open spec fn entity_effect_parts(
    codex: Codex,
    aggregate: CodexAggregate,
    entity: CodexEntity,
    aggregate_id: u128,
    version: i64,
    audit: Seq<(Seq<char>, ValueView)>,
    effects: Seq<MasonEffect>,
) -> Seq<Seq<Seq<PieceView>>> {
    effects.map_values(
        |effect: MasonEffect|
            entity_effect_statements(codex, aggregate, entity, aggregate_id, version, audit, effect),
    )
}

/// One entity's statements in a copy-forward: its untouched rows copied
/// forward, then each of its effects in order.
pub open spec fn entity_statements(
    codex: Codex,
    aggregate: CodexAggregate,
    aggregate_id: u128,
    version: i64,
    audit: Seq<(Seq<char>, ValueView)>,
    effects: Seq<MasonEffect>,
    entity: CodexEntity,
) -> Seq<Seq<PieceView>> {
    let own = effects_for(effects, entity.name@);
    seq![entity_copy_forward_sql(codex, aggregate, entity, aggregate_id, version, excluded_keys(own))]
        + concat_all(entity_effect_parts(codex, aggregate, entity, aggregate_id, version, audit, own))
}

/// The statements of each entity in a copy-forward.
pub open spec fn entity_parts(
    codex: Codex,
    aggregate: CodexAggregate,
    aggregate_id: u128,
    version: i64,
    audit: Seq<(Seq<char>, ValueView)>,
    effects: Seq<MasonEffect>,
) -> Seq<Seq<Seq<PieceView>>> {
    aggregate.entities@.map_values(
        |entity: CodexEntity| entity_statements(codex, aggregate, aggregate_id, version, audit, effects, entity),
    )
}

/// Everything a copy-forward writes: each entity in declaration order (they
/// read the root's previous version, so they come first), then the root.
pub open spec fn copy_forward_statements(
    codex: Codex,
    aggregate: CodexAggregate,
    aggregate_id: u128,
    version: i64,
    audit: Seq<(Seq<char>, ValueView)>,
    effects: Seq<MasonEffect>,
) -> Seq<Seq<PieceView>> {
    concat_all(entity_parts(codex, aggregate, aggregate_id, version, audit, effects)) + seq![
        root_copy_forward_sql(
            codex,
            aggregate,
            aggregate_id,
            version,
            root_overrides(effects),
            root_deleted(effects),
            audit,
        ),
    ]
}

/// The statement one entity effect adds, if it is one of the entity's.
fn entity_effect_statement(
    codex: &Codex,
    aggregate: &CodexAggregate,
    entity: &CodexEntity,
    aggregate_id: u128,
    version: i64,
    effect: &MasonEffect,
    audit: &MasonRow,
) -> (statement: Option<SqlStatement>)
    requires
        version >= 0,
    ensures
        match statement {
            Some(s) => entity_effect_statements(*codex, *aggregate, *entity, aggregate_id, version, audit@, *effect)
                == seq![s@],
            None => entity_effect_statements(*codex, *aggregate, *entity, aggregate_id, version, audit@, *effect)
                == Seq::<Seq<PieceView>>::empty(),
        },
{
    match effect {
        MasonEffect::Upsert { target: MasonEffectTarget::Entity { keys, .. }, fields } => Some(
            build_entity_add(codex, aggregate, entity, aggregate_id, version, keys, fields, audit),
        ),
        MasonEffect::Revise { target: MasonEffectTarget::Entity { keys, .. }, fields } => Some(
            build_entity_revise(codex, aggregate, entity, aggregate_id, version, keys, fields, audit),
        ),
        MasonEffect::Delete { target: MasonEffectTarget::Entity { keys, .. } } => Some(
            build_entity_remove(codex, aggregate, entity, aggregate_id, version, keys, audit),
        ),
        _ => None,
    }
}

/// One entity's statements in a copy-forward.
fn build_entity_statements(
    codex: &Codex,
    aggregate: &CodexAggregate,
    entity: &CodexEntity,
    aggregate_id: u128,
    version: i64,
    effects: &Vec<MasonEffect>,
    audit: &MasonRow,
) -> (statements: Vec<SqlStatement>)
    requires
        version >= 0,
    ensures
        statements_view(statements@) == entity_statements(
            *codex,
            *aggregate,
            aggregate_id,
            version,
            audit@,
            effects@,
            *entity,
        ),
{
    let own = entity_effects(effects, entity.name.as_str());
    let excluded = excluded_key_rows(&own);
    let mut statements: Vec<SqlStatement> = Vec::new();
    statements.push(build_entity_copy_forward(codex, aggregate, entity, aggregate_id, version, &excluded));
    let ghost first = statements_view(statements@);
    let ghost parts = entity_effect_parts(
        *codex,
        *aggregate,
        *entity,
        aggregate_id,
        version,
        audit@,
        deref_all(own@),
    );
    let mut index: usize = 0;
    proof {
        assert(statements_view(statements@) =~= first + concat_all(parts.take(0)));
    }
    while index < own.len()
        invariant
            0 <= index <= own.len(),
            version >= 0,
            parts == entity_effect_parts(
                *codex,
                *aggregate,
                *entity,
                aggregate_id,
                version,
                audit@,
                deref_all(own@),
            ),
            statements_view(statements@) == first + concat_all(parts.take(index as int)),
        decreases own.len() - index,
    {
        let ghost before = statements_view(statements@);
        proof {
            lemma_concat_all_step(parts, index as int);
            assert(parts[index as int] == entity_effect_statements(
                *codex,
                *aggregate,
                *entity,
                aggregate_id,
                version,
                audit@,
                *own@[index as int],
            ));
        }
        if let Some(statement) = entity_effect_statement(
            codex,
            aggregate,
            entity,
            aggregate_id,
            version,
            own[index],
            audit,
        ) {
            statements.push(statement);
        }
        proof {
            assert(statements_view(statements@) =~= before + parts[index as int]);
        }
        index = index + 1;
    }
    proof {
        assert(parts.take(own.len() as int) =~= parts);
        assert(statements_view(statements@) =~= entity_statements(
            *codex,
            *aggregate,
            aggregate_id,
            version,
            audit@,
            effects@,
            *entity,
        ));
    }
    statements
}

/// Builds the statements of a copy-forward.
fn build_copy_forward(
    codex: &Codex,
    aggregate: &CodexAggregate,
    aggregate_id: u128,
    version: i64,
    effects: &Vec<MasonEffect>,
    audit: &MasonRow,
) -> (statements: Vec<SqlStatement>)
    requires
        version >= 0,
    ensures
        statements_view(statements@) == copy_forward_statements(
            *codex,
            *aggregate,
            aggregate_id,
            version,
            audit@,
            effects@,
        ),
{
    let (overrides, deleted) = root_changes(effects);
    let ghost parts = entity_parts(*codex, *aggregate, aggregate_id, version, audit@, effects@);
    let mut statements: Vec<SqlStatement> = Vec::new();
    let mut index: usize = 0;
    proof {
        assert(statements_view(statements@) =~= concat_all(parts.take(0)));
    }
    while index < aggregate.entities.len()
        invariant
            0 <= index <= aggregate.entities.len(),
            version >= 0,
            parts == entity_parts(*codex, *aggregate, aggregate_id, version, audit@, effects@),
            statements_view(statements@) == concat_all(parts.take(index as int)),
        decreases aggregate.entities.len() - index,
    {
        proof {
            lemma_concat_all_step(parts, index as int);
        }
        let mut built = build_entity_statements(
            codex,
            aggregate,
            &aggregate.entities[index],
            aggregate_id,
            version,
            effects,
            audit,
        );
        let ghost before = statements_view(statements@);
        let ghost added = statements_view(built@);
        statements.append(&mut built);
        proof {
            assert(statements_view(statements@) =~= before + added);
        }
        index = index + 1;
    }
    proof {
        assert(parts.take(aggregate.entities.len() as int) =~= parts);
    }
    let ghost entities_part = statements_view(statements@);
    statements.push(
        build_root_copy_forward(codex, aggregate, aggregate_id, version, &overrides, deleted, audit),
    );
    proof {
        assert(statements_view(statements@) =~= copy_forward_statements(
            *codex,
            *aggregate,
            aggregate_id,
            version,
            audit@,
            effects@,
        ));
    }
    statements
}

// ── audit row, lock and the whole projection ───────────────────────────────

/// The actor's kind, as written into the audit columns.
pub open spec fn actor_type(actor: Actor) -> Seq<char> {
    match actor {
        Actor::Identity(_) => "Identity"@,
        Actor::System(_) => "System"@,
        Actor::Anonymous => "Anonymous"@,
    }
}

/// The actor's id, as written into the audit columns.
pub open spec fn actor_id(actor: Actor) -> Seq<char> {
    match actor {
        Actor::Identity(user) => uuid_text_of(user),
        Actor::System(name) => name@,
        Actor::Anonymous => Seq::empty(),
    }
}

/// The audit columns stamped on every projected row.
pub open spec fn audit_row(provenance: Provenance, occurred_at: i64) -> Seq<(Seq<char>, ValueView)> {
    seq![
        ("actor_type"@, ValueView::Text(actor_type(provenance.actor))),
        ("actor_id"@, ValueView::Text(actor_id(provenance.actor))),
        ("correlation_id"@, ValueView::Uuid(provenance.correlation_id)),
        ("occurred_at"@, ValueView::Timestamp(occurred_at)),
    ]
}

/// Builds the audit row from the provenance of the change.
pub fn build_audit_row(provenance: &Provenance, occurred_at: i64) -> (row: MasonRow)
    ensures
        row@ == audit_row(*provenance, occurred_at),
{
    let (kind, id) = match &provenance.actor {
        Actor::Identity(user) => (owned("Identity"), uuid_text(*user)),
        Actor::System(name) => (owned("System"), name.clone()),
        Actor::Anonymous => (owned("Anonymous"), String::new()),
    };
    let mut columns: Vec<(String, MasonValue)> = Vec::new();
    columns.push((owned("actor_type"), MasonValue::Text(kind)));
    columns.push((owned("actor_id"), MasonValue::Text(id)));
    columns.push((owned("correlation_id"), MasonValue::Uuid(provenance.correlation_id)));
    columns.push((owned("occurred_at"), MasonValue::Timestamp(occurred_at)));
    let row = MasonRow::from_static(columns);
    proof {
        assert(row@ =~= audit_row(*provenance, occurred_at));
    }
    row
}

/// The transaction-scoped advisory lock on the aggregate, taken first so two
/// writers of one aggregate run one after the other.
pub open spec fn lock_sql(aggregate_type: Seq<char>, aggregate_id: u128) -> Seq<PieceView> {
    seq![
        text("SELECT pg_advisory_xact_lock(hashtext("@),
        bind(ArgView::Text(aggregate_type + ":"@ + uuid_text_of(aggregate_id))),
        text("))"@),
    ]
}

/// "The effect upserts the root": the write creates the aggregate.
pub open spec fn creates_root(effect: MasonEffect) -> bool {
    effect matches MasonEffect::Upsert { target: MasonEffectTarget::Root, .. }
}

/// Whether the effects create the aggregate.
pub open spec fn is_create(effects: Seq<MasonEffect>) -> bool {
    exists|i: int| 0 <= i < effects.len() && creates_root(#[trigger] effects[i])
}

/// The statements that write the effects at `version`.
pub open spec fn projection_statements(
    codex: Codex,
    aggregate: CodexAggregate,
    aggregate_id: u128,
    version: i64,
    audit: Seq<(Seq<char>, ValueView)>,
    effects: Seq<MasonEffect>,
) -> Seq<Seq<PieceView>> {
    if is_create(effects) {
        create_statements(codex, aggregate, aggregate_id, version, audit, effects)
    } else {
        copy_forward_statements(codex, aggregate, aggregate_id, version, audit, effects)
    }
}

/// Whether a projection gets as far as building statements: there are
/// effects, the aggregate is in the catalog and every entity key is valid.
pub open spec fn projection_builds(codex: Codex, aggregate_type: Seq<char>, effects: Seq<MasonEffect>) -> bool {
    &&& effects.len() > 0
    &&& aggregate_of(codex, aggregate_type) is Some
    &&& projection_keys_failure(codex, aggregate_of(codex, aggregate_type)->0, effects) is None
}

/// The statements of one projection write and whether it creates the aggregate.
#[derive(Debug)]
pub struct ProjectionPlan {
    pub statements: Vec<SqlStatement>,
    pub is_create: bool,
}

/// Whether the effects create the aggregate.
fn has_root_upsert(effects: &Vec<MasonEffect>) -> (found: bool)
    ensures
        found == is_create(effects@),
{
    let mut index: usize = 0;
    while index < effects.len()
        invariant
            0 <= index <= effects.len(),
            forall|j: int| 0 <= j < index ==> !creates_root(#[trigger] effects@[j]),
        decreases effects.len() - index,
    {
        if let MasonEffect::Upsert { target: MasonEffectTarget::Root, .. } = &effects[index] {
            proof {
                assert(creates_root(effects@[index as int]));
            }
            return true;
        }
        index = index + 1;
    }
    false
}

/// Plans the projection of one aggregate's effects at `aggregate_version`:
/// nothing when there are no effects or the aggregate is not in the catalog,
/// the key error when an entity key breaks the rules, otherwise the advisory
/// lock followed by the create or copy-forward statements (nothing when there
/// are none).
pub fn project_effects(
    codex: &Codex,
    aggregate_type: &str,
    aggregate_id: u128,
    aggregate_version: u64,
    effects: &Vec<MasonEffect>,
    provenance: &Provenance,
    occurred_at: i64,
) -> (plan: Result<Option<ProjectionPlan>, LaxError>)
    requires
        projection_builds(*codex, aggregate_type@, effects@) ==> aggregate_version <= i64::MAX,
    ensures
        effects@.len() == 0 || aggregate_of(*codex, aggregate_type@) is None ==> (plan matches Ok(None)),
        effects@.len() > 0 && aggregate_of(*codex, aggregate_type@) is Some ==> match projection_keys_failure(
            *codex,
            aggregate_of(*codex, aggregate_type@)->0,
            effects@,
        ) {
            Some(failure) => plan matches Err(error) && error@ == failure,
            None => {
                let statements = projection_statements(
                    *codex,
                    aggregate_of(*codex, aggregate_type@)->0,
                    aggregate_id,
                    aggregate_version as i64,
                    audit_row(*provenance, occurred_at),
                    effects@,
                );
                if statements.len() == 0 {
                    plan matches Ok(None)
                } else {
                    plan matches Ok(Some(planned)) && planned.is_create == is_create(effects@)
                        && statements_view(planned.statements@) == seq![lock_sql(aggregate_type@, aggregate_id)]
                        + statements
                }
            },
        },
{
    if effects.len() == 0 {
        return Ok(None);
    }
    let aggregate = match codex.aggregate(aggregate_type) {
        None => return Ok(None),
        Some(aggregate) => aggregate,
    };
    projection_entity_keys(codex, aggregate, effects)?;
    let version = aggregate_version as i64;
    let audit = build_audit_row(provenance, occurred_at);
    let is_create = has_root_upsert(effects);
    let mut projection = if is_create {
        build_create(codex, aggregate, aggregate_id, version, effects, &audit)
    } else {
        build_copy_forward(codex, aggregate, aggregate_id, version, effects, &audit)
    };
    if projection.len() == 0 {
        return Ok(None);
    }
    let mut lock = SqlStatement::new("SELECT pg_advisory_xact_lock(hashtext(");
    let id_text = uuid_text(aggregate_id);
    let key = crate::text::joined3(aggregate_type, ":", id_text.as_str());
    lock.push_bind(SqlArg::Text(key));
    lock.push("))");
    proof {
        assert(lock@ =~= lock_sql(aggregate_type@, aggregate_id));
    }
    let ghost lock_view = lock@;
    let mut statements: Vec<SqlStatement> = Vec::new();
    statements.push(lock);
    proof {
        assert(statements_view(statements@) =~= seq![lock_view]);
    }
    let ghost rest = statements_view(projection@);
    let ghost head = statements_view(statements@);
    statements.append(&mut projection);
    proof {
        assert(statements_view(statements@) =~= head + rest);
        assert(head =~= seq![lock_sql(aggregate_type@, aggregate_id)]);
    }
    Ok(Some(ProjectionPlan { statements, is_create }))
}

/// What a projection returns once its statements ran: the rows they affected,
/// or, for a copy-forward that affected none, the error that keeps the event
/// for a retry (the previous version's row was missing).
pub fn finish_projection(
    is_create: bool,
    rows_affected: u64,
    aggregate_type: &str,
    aggregate_id: u128,
    aggregate_version: u64,
) -> (outcome: Result<u64, LaxError>)
    ensures
        !is_create && rows_affected == 0 ==> (outcome matches Err(error) && error@ == (
        LaxErrorView::ProjectionNoOp { aggregate: aggregate_type@, aggregate_id, aggregate_version })),
        is_create || rows_affected > 0 ==> outcome == Ok::<u64, LaxError>(rows_affected),
{
    if !is_create && rows_affected == 0 {
        return Err(MasonError::projection_no_op(owned(aggregate_type), aggregate_id, aggregate_version));
    }
    Ok(rows_affected)
}

/// In a copy-forward every entity's untouched rows are copied before its own
/// effects, and the root row is written last, after every entity (the entity
/// statements read the root's previous version).
pub proof fn lemma_copy_forward_order(
    codex: Codex,
    aggregate: CodexAggregate,
    aggregate_id: u128,
    version: i64,
    audit: Seq<(Seq<char>, ValueView)>,
    effects: Seq<MasonEffect>,
    entity: CodexEntity,
)
    ensures
        copy_forward_statements(codex, aggregate, aggregate_id, version, audit, effects).last()
            == root_copy_forward_sql(
            codex,
            aggregate,
            aggregate_id,
            version,
            root_overrides(effects),
            root_deleted(effects),
            audit,
        ),
        entity_statements(codex, aggregate, aggregate_id, version, audit, effects, entity)[0]
            == entity_copy_forward_sql(
            codex,
            aggregate,
            entity,
            aggregate_id,
            version,
            excluded_keys(effects_for(effects, entity.name@)),
        ),
{
}

} // verus!
