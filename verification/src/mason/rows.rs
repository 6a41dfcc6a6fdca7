//! Row emission shared by the projection writer: which value each column of
//! a snapshot row gets, and the `INSERT ... VALUES` / `INSERT ... SELECT`
//! statements built from it.

use vstd::prelude::*;

use crate::catalog::column::{CodexColumn, CodexType};
use crate::error::texts;
use crate::mason::sql::{
    ArgView,
    PieceView,
    SqlArg,
    SqlStatement,
    bind,
    bind_with_enum_cast,
    bound_value,
    ident_list,
    joined_pieces,
    lemma_joined_step,
    push_ident_list,
    quote_ident,
    quoted,
    text,
};
use crate::mason::value::{MasonRow, MasonValue, ValueView};
use crate::seqs::{
    first_match,
    lemma_filter_take_step,
    lemma_first_match_is,
    lemma_first_match_none,
};
use crate::text::str_equal;

verus! {

/// Column that carries the aggregate version of a snapshot row.
pub const COL_VERSION: &'static str = "version";

/// Column that marks a snapshot row as deleted.
pub const COL_IS_DELETED: &'static str = "is_deleted";

// ── lookups ────────────────────────────────────────────────────────────────

/// "The row entry is the column `column`."
pub open spec fn entry_named(column: Seq<char>) -> spec_fn((Seq<char>, ValueView)) -> bool {
    |entry: (Seq<char>, ValueView)| entry.0 == column
}

/// The value of the first entry of `row` named `column`.
pub open spec fn row_value(row: Seq<(Seq<char>, ValueView)>, column: Seq<char>) -> Option<ValueView> {
    match first_match(row, entry_named(column)) {
        Some(index) => Some(row[index].1),
        None => None,
    }
}

/// The value of `column` in the first row of `sources` that has it.
pub open spec fn source_value(sources: Seq<Seq<(Seq<char>, ValueView)>>, column: Seq<char>) -> Option<ValueView>
    decreases sources.len(),
{
    if sources.len() == 0 {
        None
    } else {
        match row_value(sources[0], column) {
            Some(value) => Some(value),
            None => source_value(sources.drop_first(), column),
        }
    }
}

/// The first value of `row` named `column`.
pub fn find_value<'a>(row: &'a MasonRow, column: &str) -> (found: Option<&'a MasonValue>)
    ensures
        match row_value(row@, column@) {
            Some(value) => found matches Some(v) && v@ == value,
            None => found is None,
        },
{
    let ghost wanted = entry_named(column@);
    let mut index: usize = 0;
    while index < row.columns.len()
        invariant
            0 <= index <= row.columns.len(),
            row@.len() == row.columns@.len(),
            wanted == entry_named(column@),
            forall|j: int| 0 <= j < index ==> !wanted(#[trigger] row@[j]),
        decreases row.columns.len() - index,
    {
        proof {
            assert(row@[index as int] == (row.columns@[index as int].0@, row.columns@[index as int].1@));
        }
        if str_equal(row.columns[index].0.as_str(), column) {
            proof {
                lemma_first_match_is(row@, wanted, index as int);
            }
            return Some(&row.columns[index].1);
        }
        index = index + 1;
    }
    proof {
        lemma_first_match_none(row@, wanted);
    }
    None
}

/// The views of a list of rows.
pub open spec fn rows_view(rows: Seq<&MasonRow>) -> Seq<Seq<(Seq<char>, ValueView)>> {
    rows.map_values(|row: &MasonRow| row@)
}

/// The value of `column` in the first of `sources` that has it.
fn first_source_value<'a>(sources: &Vec<&'a MasonRow>, column: &str) -> (found: Option<&'a MasonValue>)
    ensures
        match source_value(rows_view(sources@), column@) {
            Some(value) => found matches Some(v) && v@ == value,
            None => found is None,
        },
{
    let ghost all = rows_view(sources@);
    let mut index: usize = 0;
    proof {
        assert(all.skip(0) =~= all);
    }
    while index < sources.len()
        invariant
            0 <= index <= sources.len(),
            all == rows_view(sources@),
            source_value(all, column@) == source_value(all.skip(index as int), column@),
        decreases sources.len() - index,
    {
        let ghost rest = all.skip(index as int);
        proof {
            assert(rest[0] == sources@[index as int]@);
            assert(rest.drop_first() =~= all.skip(index as int + 1));
        }
        if let Some(value) = find_value(sources[index], column) {
            return Some(value);
        }
        index = index + 1;
    }
    None
}

/// The enum type of the last column named `column` that has one (later
/// columns of the same name replace earlier ones).
pub open spec fn enum_cast(columns: Seq<CodexColumn>, column: Seq<char>) -> Option<Seq<char>>
    decreases columns.len(),
{
    if columns.len() == 0 {
        None
    } else {
        let last = columns.last();
        match last.data_type {
            CodexType::Enum(name) => if last.name@ == column {
                Some(name@)
            } else {
                enum_cast(columns.drop_last(), column)
            },
            _ => enum_cast(columns.drop_last(), column),
        }
    }
}

/// The enum type `column` must be cast to, if it is an enum column.
pub fn enum_cast_for<'a>(columns: &'a Vec<CodexColumn>, column: &str) -> (found: Option<&'a String>)
    ensures
        match enum_cast(columns@, column@) {
            Some(name) => found matches Some(n) && n@ == name,
            None => found is None,
        },
{
    let mut found: Option<&'a String> = None;
    let mut index: usize = 0;
    while index < columns.len()
        invariant
            0 <= index <= columns.len(),
            match enum_cast(columns@.take(index as int), column@) {
                Some(name) => found matches Some(n) && n@ == name,
                None => found is None,
            },
        decreases columns.len() - index,
    {
        proof {
            assert(columns@.take(index as int + 1).drop_last() =~= columns@.take(index as int));
        }
        if let CodexType::Enum(name) = &columns[index].data_type {
            if str_equal(columns[index].name.as_str(), column) {
                found = Some(name);
            }
        }
        index = index + 1;
    }
    proof {
        assert(columns@.take(columns.len() as int) =~= columns@);
    }
    found
}

/// The names of a list of columns.
pub open spec fn names_of(columns: Seq<CodexColumn>) -> Seq<Seq<char>> {
    columns.map_values(|column: CodexColumn| column.name@)
}

/// The names of `columns`, in order.
pub fn column_name_list(columns: &Vec<CodexColumn>) -> (names: Vec<String>)
    ensures
        texts(names@) == names_of(columns@),
{
    let mut names: Vec<String> = Vec::new();
    let mut index: usize = 0;
    while index < columns.len()
        invariant
            0 <= index <= columns.len(),
            texts(names@) == names_of(columns@.take(index as int)),
        decreases columns.len() - index,
    {
        let ghost before = names@;
        names.push(columns[index].name.clone());
        proof {
            assert(texts(names@) =~= texts(before).push(columns@[index as int].name@));
            assert(columns@.take(index as int + 1) =~= columns@.take(index as int).push(columns@[index as int]));
            assert(names_of(columns@.take(index as int + 1)) =~= names_of(columns@.take(index as int)).push(
                columns@[index as int].name@,
            ));
        }
        index = index + 1;
    }
    proof {
        assert(columns@.take(columns.len() as int) =~= columns@);
    }
    names
}

// ── row context ────────────────────────────────────────────────────────────

/// Where the values of a snapshot row come from.
pub struct RowContext<'a> {
    /// Column holding the aggregate id.
    pub aggregate_key: &'a str,
    pub aggregate_id: u128,
    /// Bound into the row's `version` column.
    pub version: i64,
    /// `Some`: the `is_deleted` column gets this literal.
    pub is_deleted: Option<bool>,
    /// Rows whose values fill the other columns; earlier rows win.
    pub field_sources: Vec<&'a MasonRow>,
    /// The relation's columns, for enum casts.
    pub columns: &'a Vec<CodexColumn>,
}

/// `RowContext` read as characters and row views.
pub struct RowSpec {
    pub aggregate_key: Seq<char>,
    pub aggregate_id: u128,
    pub version: i64,
    pub is_deleted: Option<bool>,
    pub sources: Seq<Seq<(Seq<char>, ValueView)>>,
    pub columns: Seq<CodexColumn>,
}

impl<'a> View for RowContext<'a> {
    type V = RowSpec;

    open spec fn view(&self) -> RowSpec {
        RowSpec {
            aggregate_key: self.aggregate_key@,
            aggregate_id: self.aggregate_id,
            version: self.version,
            is_deleted: self.is_deleted,
            sources: rows_view(self.field_sources@),
            columns: self.columns@,
        }
    }
}

/// The pieces that come before the field sources are consulted, if any.
pub open spec fn fixed_value(context: RowSpec, column: Seq<char>) -> Option<Seq<PieceView>> {
    if column == context.aggregate_key {
        Some(seq![bind(ArgView::Uuid(context.aggregate_id))])
    } else if column == COL_VERSION@ {
        Some(seq![bind(ArgView::BigInt(context.version))])
    } else if column == COL_IS_DELETED@ && context.is_deleted is Some {
        Some(seq![text(if context.is_deleted->0 { "TRUE"@ } else { "FALSE"@ })])
    } else {
        None
    }
}

/// The pieces that give `column` its value; `fallback` when nothing does.
pub open spec fn column_value(context: RowSpec, column: Seq<char>, fallback: Seq<PieceView>) -> Seq<PieceView> {
    match fixed_value(context, column) {
        Some(pieces) => pieces,
        None => match source_value(context.sources, column) {
            Some(value) => bound_value(value, enum_cast(context.columns, column)),
            None => fallback,
        },
    }
}

/// A plain insert writes `NULL` where nothing gives a value.
pub open spec fn create_value(context: RowSpec, column: Seq<char>) -> Seq<PieceView> {
    column_value(context, column, seq![text("NULL"@)])
}

/// A copy-forward keeps the source row's value where nothing gives one.
pub open spec fn copy_value(context: RowSpec, column: Seq<char>) -> Seq<PieceView> {
    column_value(context, column, seq![text(quoted(column))])
}

/// Whether anything gives `column` a value in a plain insert.
pub open spec fn can_resolve(context: RowSpec, column: Seq<char>) -> bool {
    fixed_value(context, column) is Some || source_value(context.sources, column) is Some
}

/// `can_resolve` as a predicate.
pub open spec fn resolvable(context: RowSpec) -> spec_fn(Seq<char>) -> bool {
    |column: Seq<char>| can_resolve(context, column)
}

/// The value pieces of each column of a plain insert.
pub open spec fn create_parts(context: RowSpec, columns: Seq<Seq<char>>) -> Seq<Seq<PieceView>> {
    columns.map_values(|column: Seq<char>| create_value(context, column))
}

/// The value pieces of each column of a copy-forward.
pub open spec fn copy_parts(context: RowSpec, columns: Seq<Seq<char>>) -> Seq<Seq<PieceView>> {
    columns.map_values(|column: Seq<char>| copy_value(context, column))
}

/// Pushes the value `column` gets, or `fallback` when nothing gives one.
fn emit_column_value(builder: &mut SqlStatement, context: &RowContext, column: &str, copy_forward: bool)
    ensures
        final(builder)@ == old(builder)@ + if copy_forward {
            copy_value(context@, column@)
        } else {
            create_value(context@, column@)
        },
{
    if str_equal(column, context.aggregate_key) {
        builder.push_bind(SqlArg::Uuid(context.aggregate_id));
        return;
    }
    if str_equal(column, COL_VERSION) {
        builder.push_bind(SqlArg::BigInt(context.version));
        return;
    }
    if str_equal(column, COL_IS_DELETED) {
        if let Some(flag) = context.is_deleted {
            if flag {
                builder.push("TRUE");
            } else {
                builder.push("FALSE");
            }
            return;
        }
    }
    match first_source_value(&context.field_sources, column) {
        Some(value) => {
            bind_with_enum_cast(builder, value, enum_cast_for(context.columns, column));
        },
        None => {
            if copy_forward {
                builder.push_text(quote_ident(column));
            } else {
                builder.push("NULL");
            }
        },
    }
}

/// Whether anything gives `column` a value in a plain insert.
fn can_resolve_create(context: &RowContext, column: &str) -> (resolved: bool)
    ensures
        resolved == can_resolve(context@, column@),
{
    str_equal(column, context.aggregate_key) || str_equal(column, COL_VERSION) || (str_equal(
        column,
        COL_IS_DELETED,
    ) && context.is_deleted.is_some()) || first_source_value(&context.field_sources, column).is_some()
}

// ── statements ─────────────────────────────────────────────────────────────

/// `ON CONFLICT (pk) DO NOTHING`.
pub open spec fn on_conflict_nothing(primary_key: Seq<Seq<char>>) -> Seq<PieceView> {
    seq![text("ON CONFLICT ("@)] + ident_list(primary_key) + seq![text(") DO NOTHING"@)]
}

/// Pushes `ON CONFLICT (pk) DO NOTHING`.
pub fn push_on_conflict_do_nothing(builder: &mut SqlStatement, primary_key: &Vec<String>)
    ensures
        final(builder)@ == old(builder)@ + on_conflict_nothing(texts(primary_key@)),
{
    let ghost start = builder@;
    builder.push("ON CONFLICT (");
    push_ident_list(builder, primary_key);
    builder.push(") DO NOTHING");
    proof {
        assert(builder@ =~= start + on_conflict_nothing(texts(primary_key@)));
    }
}

/// `INSERT INTO table (columns) `, with the opening of what follows.
pub open spec fn insert_head(table: Seq<char>, columns: Seq<Seq<char>>, opening: Seq<char>) -> Seq<PieceView> {
    seq![text("INSERT INTO "@), text(quoted(table)), text(" ("@)] + ident_list(columns) + seq![text(opening)]
}

/// `INSERT INTO table (included) VALUES (values) ON CONFLICT (pk) DO NOTHING`,
/// where `included` are the columns something gives a value.
pub open spec fn plain_insert(
    table: Seq<char>,
    columns: Seq<Seq<char>>,
    context: RowSpec,
    primary_key: Seq<Seq<char>>,
) -> Seq<PieceView> {
    let included = columns.filter(resolvable(context));
    insert_head(table, included, ") VALUES ("@) + joined_pieces(", "@, create_parts(context, included)) + seq![
        text(") "@),
    ] + on_conflict_nothing(primary_key)
}

/// Pushes the values of `columns`, separated by commas.
fn push_values(builder: &mut SqlStatement, context: &RowContext, columns: &Vec<String>, copy_forward: bool)
    ensures
        final(builder)@ == old(builder)@ + joined_pieces(
            ", "@,
            if copy_forward {
                copy_parts(context@, texts(columns@))
            } else {
                create_parts(context@, texts(columns@))
            },
        ),
{
    let ghost start = builder@;
    let ghost parts = if copy_forward {
        copy_parts(context@, texts(columns@))
    } else {
        create_parts(context@, texts(columns@))
    };
    let mut index: usize = 0;
    while index < columns.len()
        invariant
            0 <= index <= columns.len(),
            parts == (if copy_forward {
                copy_parts(context@, texts(columns@))
            } else {
                create_parts(context@, texts(columns@))
            }),
            parts.len() == columns.len(),
            builder@ == start + joined_pieces(", "@, parts.take(index as int)),
        decreases columns.len() - index,
    {
        proof {
            lemma_joined_step(", "@, parts, index as int);
        }
        if index > 0 {
            builder.push(", ");
        }
        emit_column_value(builder, context, columns[index].as_str(), copy_forward);
        index = index + 1;
        proof {
            assert(builder@ =~= start + joined_pieces(", "@, parts.take(index as int)));
        }
    }
    proof {
        assert(parts.take(columns.len() as int) =~= parts);
    }
}

/// Builds the plain insert of a snapshot row at the event's version.
pub fn emit_plain_insert(
    table: &str,
    columns: &Vec<String>,
    context: &RowContext,
    primary_key: &Vec<String>,
) -> (statement: SqlStatement)
    ensures
        statement@ == plain_insert(table@, texts(columns@), context@, texts(primary_key@)),
{
    let ghost wanted = resolvable(context@);
    let mut included: Vec<String> = Vec::new();
    let mut index: usize = 0;
    while index < columns.len()
        invariant
            0 <= index <= columns.len(),
            wanted == resolvable(context@),
            texts(included@) == texts(columns@).take(index as int).filter(wanted),
        decreases columns.len() - index,
    {
        let ghost before = included@;
        proof {
            lemma_filter_take_step(texts(columns@), wanted, index as int);
            assert(texts(columns@)[index as int] == columns@[index as int]@);
        }
        if can_resolve_create(context, columns[index].as_str()) {
            included.push(columns[index].clone());
            proof {
                assert(texts(included@) =~= texts(before).push(columns@[index as int]@));
            }
        }
        index = index + 1;
    }
    proof {
        assert(texts(columns@).take(columns.len() as int) =~= texts(columns@));
    }
    let mut builder = SqlStatement::new("INSERT INTO ");
    builder.push_text(quote_ident(table));
    builder.push(" (");
    push_ident_list(&mut builder, &included);
    builder.push(") VALUES (");
    push_values(&mut builder, context, &included, false);
    builder.push(") ");
    push_on_conflict_do_nothing(&mut builder, primary_key);
    proof {
        assert(builder@ =~= plain_insert(table@, texts(columns@), context@, texts(primary_key@)));
    }
    builder
}

/// `parts` one after another.
pub open spec fn concat_pieces(parts: Seq<Seq<PieceView>>) -> Seq<PieceView>
    decreases parts.len(),
{
    if parts.len() == 0 {
        Seq::empty()
    } else {
        concat_pieces(parts.drop_last()) + parts.last()
    }
}

/// One step of `concat_pieces` over a growing prefix.
pub proof fn lemma_concat_step(parts: Seq<Seq<PieceView>>, index: int)
    requires
        0 <= index < parts.len(),
    ensures
        concat_pieces(parts.take(index + 1)) == concat_pieces(parts.take(index)) + parts[index],
{
    assert(parts.take(index + 1).drop_last() =~= parts.take(index));
}

/// The condition each key column adds: ` AND "name" <operator> value`; the
/// aggregate id column is skipped.
pub open spec fn key_condition_parts(
    row: Seq<(Seq<char>, ValueView)>,
    aggregate_key: Seq<char>,
    operator: Seq<char>,
) -> Seq<Seq<PieceView>> {
    row.map_values(
        |entry: (Seq<char>, ValueView)|
            if entry.0 == aggregate_key {
                Seq::<PieceView>::empty()
            } else {
                seq![text(" AND "@), text(quoted(entry.0)), text(operator)] + bound_value(entry.1, None)
            },
    )
}

/// The conditions of one key row.
pub open spec fn key_conditions(row: Seq<(Seq<char>, ValueView)>, aggregate_key: Seq<char>, operator: Seq<char>) -> Seq<
    PieceView,
> {
    concat_pieces(key_condition_parts(row, aggregate_key, operator))
}

/// The conditions of each key row.
pub open spec fn filter_condition_parts(
    filters: Seq<Seq<(Seq<char>, ValueView)>>,
    aggregate_key: Seq<char>,
    operator: Seq<char>,
) -> Seq<Seq<PieceView>> {
    filters.map_values(|row: Seq<(Seq<char>, ValueView)>| key_conditions(row, aggregate_key, operator))
}

/// Pushes ` AND "name" <operator> value` for every key column but the aggregate id.
pub fn emit_key_conditions(builder: &mut SqlStatement, keys: &MasonRow, aggregate_key: &str, operator: &str)
    ensures
        final(builder)@ == old(builder)@ + key_conditions(keys@, aggregate_key@, operator@),
{
    let ghost start = builder@;
    let ghost parts = key_condition_parts(keys@, aggregate_key@, operator@);
    let mut index: usize = 0;
    while index < keys.columns.len()
        invariant
            0 <= index <= keys.columns.len(),
            keys@.len() == keys.columns@.len(),
            parts == key_condition_parts(keys@, aggregate_key@, operator@),
            builder@ == start + concat_pieces(parts.take(index as int)),
        decreases keys.columns.len() - index,
    {
        proof {
            lemma_concat_step(parts, index as int);
            assert(keys@[index as int] == (keys.columns@[index as int].0@, keys.columns@[index as int].1@));
        }
        let name = keys.columns[index].0.as_str();
        if !str_equal(name, aggregate_key) {
            builder.push(" AND ");
            builder.push_text(quote_ident(name));
            builder.push(operator);
            bind_with_enum_cast(builder, &keys.columns[index].1, None);
        }
        index = index + 1;
        proof {
            assert(builder@ =~= start + concat_pieces(parts.take(index as int)));
        }
    }
    proof {
        assert(parts.take(keys.columns.len() as int) =~= parts);
    }
}

/// `INSERT INTO table (columns) SELECT values FROM source WHERE key = id AND
/// version = previous`: the previous snapshot row copied forward.
pub open spec fn copy_head(
    table: Seq<char>,
    columns: Seq<Seq<char>>,
    context: RowSpec,
    source_table: Seq<char>,
) -> Seq<PieceView> {
    insert_head(table, columns, ") SELECT "@) + joined_pieces(", "@, copy_parts(context, columns)) + seq![
        text(" FROM "@),
        text(quoted(source_table)),
        text(" WHERE "@),
        text(quoted(context.aggregate_key)),
        text(" = "@),
        bind(ArgView::Uuid(context.aggregate_id)),
        text(" AND "@),
        text(quoted(COL_VERSION@)),
        text(" = "@),
        bind(ArgView::BigInt((context.version - 1) as i64)),
    ]
}

/// The whole copy-forward statement. With `excluding`, each key column of
/// each key row adds `column <> value`, so a row is left out when it shares
/// any one key value with any key row (not only the exact key combination),
/// and deleted rows are skipped when `skip_deleted`; without it, each key
/// column adds `column = value`, so only rows matching every key value are
/// copied.
pub open spec fn copy_forward_insert(
    table: Seq<char>,
    columns: Seq<Seq<char>>,
    context: RowSpec,
    source_table: Seq<char>,
    key_filters: Seq<Seq<(Seq<char>, ValueView)>>,
    excluding: bool,
    skip_deleted: bool,
    primary_key: Seq<Seq<char>>,
) -> Seq<PieceView> {
    let operator = if excluding {
        " <> "@
    } else {
        " = "@
    };
    let skip = if excluding && skip_deleted {
        seq![text(" AND "@), text(quoted(COL_IS_DELETED@)), text(" = FALSE"@)]
    } else {
        Seq::empty()
    };
    copy_head(table, columns, context, source_table) + skip + concat_pieces(
        filter_condition_parts(key_filters, context.aggregate_key, operator),
    ) + seq![text(" "@)] + on_conflict_nothing(primary_key)
}

/// Starts the copy-forward statement: everything up to the previous-version condition.
fn emit_copy_head(table: &str, columns: &Vec<String>, context: &RowContext, source_table: &str) -> (statement:
    SqlStatement)
    requires
        context.version > i64::MIN,
    ensures
        statement@ == copy_head(table@, texts(columns@), context@, source_table@),
{
    let mut builder = SqlStatement::new("INSERT INTO ");
    builder.push_text(quote_ident(table));
    builder.push(" (");
    push_ident_list(&mut builder, columns);
    builder.push(") SELECT ");
    push_values(&mut builder, context, columns, true);
    let ghost values = builder@;
    builder.push(" FROM ");
    builder.push_text(quote_ident(source_table));
    builder.push(" WHERE ");
    builder.push_text(quote_ident(context.aggregate_key));
    builder.push(" = ");
    builder.push_bind(SqlArg::Uuid(context.aggregate_id));
    builder.push(" AND ");
    builder.push_text(quote_ident(COL_VERSION));
    builder.push(" = ");
    builder.push_bind(SqlArg::BigInt(context.version - 1));
    proof {
        assert(builder@ =~= copy_head(table@, texts(columns@), context@, source_table@));
    }
    builder
}

/// Pushes the conditions of every key row.
fn emit_filter_conditions(
    builder: &mut SqlStatement,
    key_filters: &Vec<&MasonRow>,
    aggregate_key: &str,
    operator: &str,
)
    ensures
        final(builder)@ == old(builder)@ + concat_pieces(
            filter_condition_parts(rows_view(key_filters@), aggregate_key@, operator@),
        ),
{
    let ghost start = builder@;
    let ghost parts = filter_condition_parts(rows_view(key_filters@), aggregate_key@, operator@);
    let mut index: usize = 0;
    while index < key_filters.len()
        invariant
            0 <= index <= key_filters.len(),
            parts == filter_condition_parts(rows_view(key_filters@), aggregate_key@, operator@),
            builder@ == start + concat_pieces(parts.take(index as int)),
        decreases key_filters.len() - index,
    {
        proof {
            lemma_concat_step(parts, index as int);
        }
        emit_key_conditions(builder, key_filters[index], aggregate_key, operator);
        index = index + 1;
        proof {
            assert(builder@ =~= start + concat_pieces(parts.take(index as int)));
        }
    }
    proof {
        assert(parts.take(key_filters.len() as int) =~= parts);
    }
}

/// Builds `INSERT ... SELECT` copying the previous snapshot row forward; each
/// key row picks the rows to copy (`=`).
pub fn emit_insert_from_select(
    table: &str,
    columns: &Vec<String>,
    context: &RowContext,
    source_table: &str,
    key_filters: &Vec<&MasonRow>,
    primary_key: &Vec<String>,
) -> (statement: SqlStatement)
    requires
        context.version > i64::MIN,
    ensures
        statement@ == copy_forward_insert(
            table@,
            texts(columns@),
            context@,
            source_table@,
            rows_view(key_filters@),
            false,
            false,
            texts(primary_key@),
        ),
{
    let mut builder = emit_copy_head(table, columns, context, source_table);
    emit_filter_conditions(&mut builder, key_filters, context.aggregate_key, " = ");
    builder.push(" ");
    push_on_conflict_do_nothing(&mut builder, primary_key);
    proof {
        assert(builder@ =~= copy_forward_insert(
            table@,
            texts(columns@),
            context@,
            source_table@,
            rows_view(key_filters@),
            false,
            false,
            texts(primary_key@),
        ));
    }
    builder
}

/// Builds `INSERT ... SELECT` copying the previous snapshot rows forward,
/// leaving out every row that shares any one key value (other than the
/// aggregate key) with any key row (`column <> value` per key column), and,
/// with `skip_deleted`, every deleted row.
pub fn emit_insert_from_select_excluding(
    table: &str,
    columns: &Vec<String>,
    context: &RowContext,
    source_table: &str,
    key_filters: &Vec<&MasonRow>,
    skip_deleted: bool,
    primary_key: &Vec<String>,
) -> (statement: SqlStatement)
    requires
        context.version > i64::MIN,
    ensures
        statement@ == copy_forward_insert(
            table@,
            texts(columns@),
            context@,
            source_table@,
            rows_view(key_filters@),
            true,
            skip_deleted,
            texts(primary_key@),
        ),
{
    let mut builder = emit_copy_head(table, columns, context, source_table);
    if skip_deleted {
        builder.push(" AND ");
        builder.push_text(quote_ident(COL_IS_DELETED));
        builder.push(" = FALSE");
    }
    emit_filter_conditions(&mut builder, key_filters, context.aggregate_key, " <> ");
    builder.push(" ");
    push_on_conflict_do_nothing(&mut builder, primary_key);
    proof {
        assert(builder@ =~= copy_forward_insert(
            table@,
            texts(columns@),
            context@,
            source_table@,
            rows_view(key_filters@),
            true,
            skip_deleted,
            texts(primary_key@),
        ));
    }
    builder
}

} // verus!
