//! The read path: a `MasonQuery` against one relation lowered to a `SELECT`
//! with the projection, the project scope, the filter tree, free-text search,
//! the order and the page.

use vstd::prelude::*;

use crate::catalog::column::{CodexColumn, CodexType};
use crate::catalog::relation::{CodexRelation, column_of, is_searchable, is_selectable};
use crate::error::texts;
use crate::mason::query::{
    FilterView,
    MasonFilter,
    MasonQuery,
    filter_view,
    filters_view,
    values_view,
};
use crate::mason::sql::{
    ArgView,
    PieceView,
    SqlArg,
    SqlStatement,
    again,
    bind,
    bind_count,
    lemma_bind_count_concat,
    bind_with_enum_cast,
    bound_value,
    ident_list,
    joined_pieces,
    lemma_joined_step,
    push_ident_list,
    quote_ident,
    quoted,
    text,
};
use crate::mason::value::{MasonDirection, MasonRow, MasonSort, MasonValue, ValueView, coerced};
use crate::mason::rows::names_of;
use crate::seqs::lemma_filter_take_step;
use crate::text::{joined3, str_equal, trim, trimmed};

verus! {

/// Column that scopes every read to the caller's projects.
pub const PROJECT_ID_COLUMN: &'static str = "identity_project_id";

/// Alias of the window count `build_list` adds to every row.
pub const TOTAL_COUNT_ALIAS: &'static str = "_total";

// ── filter ─────────────────────────────────────────────────────────────────

/// The enum type a column must be cast to, if any.
pub open spec fn enum_name_of(data_type: CodexType) -> Option<Seq<char>> {
    match data_type {
        CodexType::Enum(name) => Some(name@),
        _ => None,
    }
}

/// A filter value bound for `column`: coerced to the column's type and cast
/// to its enum type, or bound as given when the column is unknown.
pub open spec fn resolved_bind(value: ValueView, column: Seq<char>, relation: CodexRelation) -> Seq<PieceView> {
    match column_of(relation, column) {
        Some(definition) => bound_value(coerced(value, definition.data_type), enum_name_of(definition.data_type)),
        None => bound_value(value, None),
    }
}

/// `"column" <operator> value`.
pub open spec fn leaf_sql(column: Seq<char>, operator: Seq<char>, value: ValueView, relation: CodexRelation) -> Seq<
    PieceView,
> {
    seq![text(quoted(column)), text(operator)] + resolved_bind(value, column, relation)
}

/// Each comparison filter compiles to the quoted column, its own SQL
/// operator and the bound value: `=`, `<>`, the strict `>` and `<`, the
/// inclusive `>=` and `<=`; a strict comparison never compiles like the
/// inclusive one on the same column and value.
pub proof fn lemma_comparison_sql(column: Seq<char>, value: ValueView, relation: CodexRelation)
    ensures
        filter_sql(FilterView::Eq(column, value), relation) == seq![text(quoted(column)), text(" = "@)]
            + resolved_bind(value, column, relation),
        filter_sql(FilterView::NotEq(column, value), relation) == seq![text(quoted(column)), text(" <> "@)]
            + resolved_bind(value, column, relation),
        filter_sql(FilterView::Gt(column, value), relation) == seq![text(quoted(column)), text(" > "@)]
            + resolved_bind(value, column, relation),
        filter_sql(FilterView::Gte(column, value), relation) == seq![text(quoted(column)), text(" >= "@)]
            + resolved_bind(value, column, relation),
        filter_sql(FilterView::Lt(column, value), relation) == seq![text(quoted(column)), text(" < "@)]
            + resolved_bind(value, column, relation),
        filter_sql(FilterView::Lte(column, value), relation) == seq![text(quoted(column)), text(" <= "@)]
            + resolved_bind(value, column, relation),
        filter_sql(FilterView::Gt(column, value), relation) != filter_sql(FilterView::Gte(column, value), relation),
        filter_sql(FilterView::Lt(column, value), relation) != filter_sql(FilterView::Lte(column, value), relation),
        filter_sql(FilterView::Gt(column, value), relation) != filter_sql(FilterView::Lt(column, value), relation),
{
    reveal_strlit(" > ");
    reveal_strlit(" >= ");
    reveal_strlit(" < ");
    reveal_strlit(" <= ");
    let gt = filter_sql(FilterView::Gt(column, value), relation);
    let gte = filter_sql(FilterView::Gte(column, value), relation);
    let lt = filter_sql(FilterView::Lt(column, value), relation);
    let lte = filter_sql(FilterView::Lte(column, value), relation);
    assert(gt[1] == text(" > "@) && gte[1] == text(" >= "@));
    assert(" > "@.len() != " >= "@.len());
    assert(gt[1] != gte[1]);
    assert(lt[1] == text(" < "@) && lte[1] == text(" <= "@));
    assert(" < "@.len() != " <= "@.len());
    assert(lt[1] != lte[1]);
    assert(" > "@[1] != " < "@[1]);
    assert(gt[1] != lt[1]);
}

/// `"column" ILIKE pattern`.
pub open spec fn pattern_sql(column: Seq<char>, pattern: Seq<char>) -> Seq<PieceView> {
    seq![text(quoted(column)), text(" ILIKE "@), bind(ArgView::Text(pattern))]
}

/// The bound values of a set membership.
pub open spec fn set_value_parts(values: Seq<ValueView>, column: Seq<char>, relation: CodexRelation) -> Seq<
    Seq<PieceView>,
> {
    values.map_values(|value: ValueView| resolved_bind(value, column, relation))
}

/// `"column" IN (v, ...)`; an empty set is the literal that makes it false
/// (or true for `NOT IN`).
pub open spec fn set_sql(
    column: Seq<char>,
    opening: Seq<char>,
    values: Seq<ValueView>,
    empty_literal: Seq<char>,
    relation: CodexRelation,
) -> Seq<PieceView> {
    if values.len() == 0 {
        seq![text(empty_literal)]
    } else {
        seq![text(quoted(column)), text(opening)] + joined_pieces(", "@, set_value_parts(values, column, relation))
            + seq![text(")"@)]
    }
}

/// The SQL of a filter tree. An empty `And` or `Or` is `TRUE`.
pub open spec fn filter_sql(filter: FilterView, relation: CodexRelation) -> Seq<PieceView>
    decreases filter,
{
    match filter {
        FilterView::And(children) => if children.len() == 0 {
            seq![text("TRUE"@)]
        } else {
            seq![text("("@)] + children_sql(" AND "@, children, relation) + seq![text(")"@)]
        },
        FilterView::Or(children) => if children.len() == 0 {
            seq![text("TRUE"@)]
        } else {
            seq![text("("@)] + children_sql(" OR "@, children, relation) + seq![text(")"@)]
        },
        FilterView::Eq(column, value) => leaf_sql(column, " = "@, value, relation),
        FilterView::NotEq(column, value) => leaf_sql(column, " <> "@, value, relation),
        FilterView::Gt(column, value) => leaf_sql(column, " > "@, value, relation),
        FilterView::Gte(column, value) => leaf_sql(column, " >= "@, value, relation),
        FilterView::Lt(column, value) => leaf_sql(column, " < "@, value, relation),
        FilterView::Lte(column, value) => leaf_sql(column, " <= "@, value, relation),
        FilterView::Like(column, pattern) => pattern_sql(column, "%"@ + pattern + "%"@),
        FilterView::StartsWith(column, prefix) => pattern_sql(column, prefix + "%"@),
        FilterView::EndsWith(column, suffix) => pattern_sql(column, "%"@ + suffix),
        FilterView::In(column, values) => set_sql(column, " IN ("@, values, "FALSE"@, relation),
        FilterView::NotIn(column, values) => set_sql(column, " NOT IN ("@, values, "TRUE"@, relation),
        FilterView::IsNull(column, is_null) => seq![
            text(quoted(column)),
            text(if is_null { " IS NULL"@ } else { " IS NOT NULL"@ }),
        ],
    }
}

/// The children of a junction, `separator` between each two.
pub open spec fn children_sql(separator: Seq<char>, children: Seq<FilterView>, relation: CodexRelation) -> Seq<
    PieceView,
>
    decreases children,
{
    if children.len() == 0 {
        Seq::empty()
    } else if children.len() == 1 {
        filter_sql(children[0], relation)
    } else {
        children_sql(separator, children.drop_last(), relation).push(text(separator)) + filter_sql(
            children.last(),
            relation,
        )
    }
}

/// The view of a list of filters has one entry per filter.
pub proof fn lemma_filters_view_len(filters: Seq<MasonFilter>)
    ensures
        filters_view(filters).len() == filters.len(),
    decreases filters.len(),
{
    if filters.len() > 0 {
        lemma_filters_view_len(filters.drop_last());
    }
}

/// The view of a growing prefix of a list of filters.
pub proof fn lemma_filters_view_step(filters: Seq<MasonFilter>, index: int)
    requires
        0 <= index < filters.len(),
    ensures
        filters_view(filters.take(index + 1)) == filters_view(filters.take(index)).push(filter_view(filters[index])),
{
    assert(filters.take(index + 1).drop_last() =~= filters.take(index));
}

/// Binds a filter value for `column`.
fn resolve_bind(builder: &mut SqlStatement, value: &MasonValue, column: &str, relation: &CodexRelation)
    ensures
        final(builder)@ == old(builder)@ + resolved_bind(value@, column@, *relation),
{
    match relation.column(column) {
        Some(definition) => {
            let coerced_value = value.coerce_to(&definition.data_type);
            let enum_name = match &definition.data_type {
                CodexType::Enum(name) => Some(name),
                _ => None,
            };
            bind_with_enum_cast(builder, &coerced_value, enum_name);
        },
        None => {
            bind_with_enum_cast(builder, value, None);
        },
    }
}

/// Pushes `"column" <operator> value`.
fn emit_leaf(builder: &mut SqlStatement, column: &str, operator: &str, value: &MasonValue, relation: &CodexRelation)
    ensures
        final(builder)@ == old(builder)@ + leaf_sql(column@, operator@, value@, *relation),
{
    let ghost start = builder@;
    builder.push_text(quote_ident(column));
    builder.push(operator);
    resolve_bind(builder, value, column, relation);
    proof {
        assert(builder@ =~= start + leaf_sql(column@, operator@, value@, *relation));
    }
}

/// Pushes `"column" ILIKE pattern`.
fn emit_pattern(builder: &mut SqlStatement, column: &str, pattern: String)
    ensures
        final(builder)@ == old(builder)@ + pattern_sql(column@, pattern@),
{
    let ghost start = builder@;
    let ghost pattern_view = pattern@;
    builder.push_text(quote_ident(column));
    builder.push(" ILIKE ");
    builder.push_bind(SqlArg::Text(pattern));
    proof {
        assert(builder@ =~= start + pattern_sql(column@, pattern_view));
    }
}

/// Pushes a set membership test.
fn emit_set(
    builder: &mut SqlStatement,
    column: &str,
    opening: &str,
    values: &Vec<MasonValue>,
    empty_literal: &str,
    relation: &CodexRelation,
)
    ensures
        final(builder)@ == old(builder)@ + set_sql(column@, opening@, values_view(values@), empty_literal@, *relation),
{
    let ghost start = builder@;
    if values.len() == 0 {
        builder.push(empty_literal);
        return;
    }
    builder.push_text(quote_ident(column));
    builder.push(opening);
    let ghost middle = builder@;
    let ghost parts = set_value_parts(values_view(values@), column@, *relation);
    let mut index: usize = 0;
    while index < values.len()
        invariant
            0 <= index <= values.len(),
            parts == set_value_parts(values_view(values@), column@, *relation),
            parts.len() == values.len(),
            builder@ == middle + joined_pieces(", "@, parts.take(index as int)),
        decreases values.len() - index,
    {
        proof {
            lemma_joined_step(", "@, parts, index as int);
        }
        if index > 0 {
            builder.push(", ");
        }
        resolve_bind(builder, &values[index], column, relation);
        index = index + 1;
        proof {
            assert(builder@ =~= middle + joined_pieces(", "@, parts.take(index as int)));
        }
    }
    builder.push(")");
    proof {
        assert(parts.take(values.len() as int) =~= parts);
        assert(builder@ =~= start + set_sql(column@, opening@, values_view(values@), empty_literal@, *relation));
    }
}

/// Pushes the children of a junction in parentheses (`TRUE` when there are none).
fn emit_junction(builder: &mut SqlStatement, separator: &str, children: &Vec<MasonFilter>, relation: &CodexRelation)
    ensures
        final(builder)@ == old(builder)@ + if children@.len() == 0 {
            seq![text("TRUE"@)]
        } else {
            seq![text("("@)] + children_sql(separator@, filters_view(children@), *relation) + seq![text(")"@)]
        },
    decreases children@, 0nat,
{
    let ghost start = builder@;
    if children.len() == 0 {
        builder.push("TRUE");
        return;
    }
    builder.push("(");
    let ghost middle = builder@;
    let mut index: usize = 0;
    proof {
        assert(children@.take(0) =~= Seq::<MasonFilter>::empty());
    }
    while index < children.len()
        invariant
            0 <= index <= children.len(),
            builder@ == middle + children_sql(separator@, filters_view(children@.take(index as int)), *relation),
        decreases children.len() - index,
    {
        proof {
            lemma_filters_view_step(children@, index as int);
            lemma_filters_view_len(children@.take(index as int));
            assert(children@.take(index as int + 1).len() == index + 1);
        }
        let ghost prefix = filters_view(children@.take(index as int));
        let ghost longer = filters_view(children@.take(index as int + 1));
        proof {
            assert(longer.drop_last() =~= prefix);
            assert(longer.last() == filter_view(children@[index as int]));
            if index == 0 {
                assert(longer.len() == 1);
            }
        }
        if index > 0 {
            builder.push(separator);
        }
        emit(builder, &children[index], relation);
        index = index + 1;
        proof {
            assert(builder@ =~= middle + children_sql(
                separator@,
                filters_view(children@.take(index as int)),
                *relation,
            ));
        }
    }
    builder.push(")");
    proof {
        assert(children@.take(children.len() as int) =~= children@);
    }
}

/// Pushes the SQL of a filter tree.
pub fn emit(builder: &mut SqlStatement, filter: &MasonFilter, relation: &CodexRelation)
    ensures
        final(builder)@ == old(builder)@ + filter_sql(filter@, *relation),
    decreases *filter, 1nat,
{
    match filter {
        MasonFilter::And(children) => emit_junction(builder, " AND ", children, relation),
        MasonFilter::Or(children) => emit_junction(builder, " OR ", children, relation),
        MasonFilter::Eq(column, value) => emit_leaf(builder, column.as_str(), " = ", value, relation),
        MasonFilter::NotEq(column, value) => emit_leaf(builder, column.as_str(), " <> ", value, relation),
        MasonFilter::Gt(column, value) => emit_leaf(builder, column.as_str(), " > ", value, relation),
        MasonFilter::Gte(column, value) => emit_leaf(builder, column.as_str(), " >= ", value, relation),
        MasonFilter::Lt(column, value) => emit_leaf(builder, column.as_str(), " < ", value, relation),
        MasonFilter::Lte(column, value) => emit_leaf(builder, column.as_str(), " <= ", value, relation),
        MasonFilter::Like(column, pattern) => emit_pattern(
            builder,
            column.as_str(),
            joined3("%", pattern.as_str(), "%"),
        ),
        MasonFilter::StartsWith(column, prefix) => emit_pattern(
            builder,
            column.as_str(),
            crate::text::joined(prefix.as_str(), "%"),
        ),
        MasonFilter::EndsWith(column, suffix) => emit_pattern(
            builder,
            column.as_str(),
            crate::text::joined("%", suffix.as_str()),
        ),
        MasonFilter::In(column, values) => emit_set(builder, column.as_str(), " IN (", values, "FALSE", relation),
        MasonFilter::NotIn(column, values) => emit_set(
            builder,
            column.as_str(),
            " NOT IN (",
            values,
            "TRUE",
            relation,
        ),
        MasonFilter::IsNull(column, is_null) => {
            builder.push_text(quote_ident(column.as_str()));
            if *is_null {
                builder.push(" IS NULL");
            } else {
                builder.push(" IS NOT NULL");
            }
        },
    }
}

// ── search ─────────────────────────────────────────────────────────────────

/// The search term: the trimmed text, when it is not empty.
pub open spec fn search_term(search: Option<Seq<char>>) -> Option<Seq<char>> {
    match search {
        Some(raw) => if trimmed(raw).len() > 0 {
            Some(trimmed(raw))
        } else {
            None
        },
        None => None,
    }
}

/// The names of the searchable columns.
pub open spec fn searchable_names(relation: CodexRelation) -> Seq<Seq<char>> {
    names_of(relation.columns@.filter(is_searchable()))
}

/// Whether a search clause is emitted: a non-blank term and a searchable column.
pub open spec fn search_emits(search: Option<Seq<char>>, relation: CodexRelation) -> bool {
    search_term(search) is Some && searchable_names(relation).len() > 0
}

/// `"column" ILIKE $k` for each searchable column: the first binds the
/// pattern as the statement's parameter at `ordinal`, the others refer to
/// that same parameter.
pub open spec fn search_parts(names: Seq<Seq<char>>, pattern: Seq<char>, ordinal: nat) -> Seq<Seq<PieceView>> {
    Seq::new(
        names.len(),
        |index: int|
            seq![
                text(quoted(names[index])),
                text(" ILIKE "@),
                if index == 0 {
                    bind(ArgView::Text(pattern))
                } else {
                    again(ordinal)
                },
            ],
    )
}

/// `(c1 ILIKE $k OR c2 ILIKE $k ...)`: one parameter, `%term%`, bound at
/// `ordinal` and shared by every column.
pub open spec fn search_sql(names: Seq<Seq<char>>, term: Seq<char>, ordinal: nat) -> Seq<PieceView> {
    seq![text("("@)] + joined_pieces(" OR "@, search_parts(names, "%"@ + term + "%"@, ordinal)) + seq![
        text(")"@),
    ]
}

/// The names of the columns that pass `wanted`, in order.
fn names_where(columns: &Vec<CodexColumn>, searchable: bool) -> (names: Vec<String>)
    ensures
        texts(names@) == names_of(columns@.filter(if searchable { is_searchable() } else { not_selectable() })),
{
    let ghost wanted = if searchable {
        is_searchable()
    } else {
        not_selectable()
    };
    let mut names: Vec<String> = Vec::new();
    let mut index: usize = 0;
    while index < columns.len()
        invariant
            0 <= index <= columns.len(),
            wanted == (if searchable { is_searchable() } else { not_selectable() }),
            texts(names@) == names_of(columns@.take(index as int).filter(wanted)),
        decreases columns.len() - index,
    {
        let ghost before = names@;
        proof {
            lemma_filter_take_step(columns@, wanted, index as int);
        }
        let keep = if searchable {
            columns[index].searchable
        } else {
            !columns[index].selectable
        };
        if keep {
            names.push(columns[index].name.clone());
            proof {
                assert(texts(names@) =~= texts(before).push(columns@[index as int].name@));
            }
        }
        index = index + 1;
        proof {
            assert(texts(names@) =~= names_of(columns@.take(index as int).filter(wanted)));
        }
    }
    proof {
        assert(columns@.take(columns.len() as int) =~= columns@);
    }
    names
}

/// Pushes the free-text search clause across the searchable columns, when
/// the term is not blank and there is such a column; says whether it did.
pub fn emit_search(builder: &mut SqlStatement, relation: &CodexRelation, search: Option<&str>) -> (emitted: bool)
    ensures
        emitted == search_emits(crate::seqs::text_of_str(search), *relation),
        emitted ==> final(builder)@ == old(builder)@ + search_sql(
            searchable_names(*relation),
            search_term(crate::seqs::text_of_str(search))->0,
            bind_count(old(builder)@),
        ),
        !emitted ==> final(builder)@ == old(builder)@,
{
    let term = match search {
        Some(raw) => trim(raw),
        None => return false,
    };
    if term.unicode_len() == 0 {
        return false;
    }
    let names = names_where(&relation.columns, true);
    if names.len() == 0 {
        return false;
    }
    let ghost start = builder@;
    let ordinal = builder.bind_total();
    let pattern = joined3("%", term, "%");
    builder.push("(");
    let ghost middle = builder@;
    let ghost parts = search_parts(texts(names@), pattern@, ordinal as nat);
    let mut index: usize = 0;
    while index < names.len()
        invariant
            0 <= index <= names.len(),
            parts == search_parts(texts(names@), pattern@, ordinal as nat),
            parts.len() == names.len(),
            builder@ == middle + joined_pieces(" OR "@, parts.take(index as int)),
        decreases names.len() - index,
    {
        proof {
            lemma_joined_step(" OR "@, parts, index as int);
        }
        if index > 0 {
            builder.push(" OR ");
        }
        builder.push_text(quote_ident(names[index].as_str()));
        builder.push(" ILIKE ");
        if index == 0 {
            builder.push_bind(SqlArg::Text(pattern.clone()));
        } else {
            builder.push_again(ordinal);
        }
        index = index + 1;
        proof {
            assert(builder@ =~= middle + joined_pieces(" OR "@, parts.take(index as int)));
        }
    }
    builder.push(")");
    proof {
        assert(parts.take(names.len() as int) =~= parts);
        assert(builder@ =~= start + search_sql(
            searchable_names(*relation),
            search_term(crate::seqs::text_of_str(search))->0,
            ordinal as nat,
        ));
    }
    true
}

/// Whether `emit_search` would emit a clause.
fn search_would_emit(query: &MasonQuery, relation: &CodexRelation) -> (emits: bool)
    ensures
        emits == search_emits(crate::seqs::text_of(query.search), *relation),
{
    let term = match &query.search {
        Some(raw) => trim(raw.as_str()),
        None => return false,
    };
    if term.unicode_len() == 0 {
        return false;
    }
    names_where(&relation.columns, true).len() > 0
}

// ── projection and order ───────────────────────────────────────────────────

/// "The column is always returned."
pub open spec fn not_selectable() -> spec_fn(CodexColumn) -> bool {
    |column: CodexColumn| !column.selectable
}

/// `acc` followed by each item of `items` it does not hold yet.
pub open spec fn merged_names(acc: Seq<Seq<char>>, items: Seq<Seq<char>>) -> Seq<Seq<char>>
    decreases items.len(),
{
    if items.len() == 0 {
        acc
    } else {
        let earlier = merged_names(acc, items.drop_last());
        if earlier.contains(items.last()) {
            earlier
        } else {
            earlier.push(items.last())
        }
    }
}

/// The returned columns: the always-returned ones, then the selected ones
/// (every selectable column when none is selected), each once.
pub open spec fn select_names(selected: Seq<Seq<char>>, relation: CodexRelation) -> Seq<Seq<char>> {
    let optional = if selected.len() == 0 {
        names_of(relation.columns@.filter(is_selectable()))
    } else {
        selected
    };
    merged_names(names_of(relation.columns@.filter(not_selectable())), optional)
}

/// The select list; `*` when the relation declares nothing to return.
pub open spec fn select_sql(names: Seq<Seq<char>>) -> Seq<PieceView> {
    if names.len() == 0 {
        seq![text("*"@)]
    } else {
        ident_list(names)
    }
}

/// Pushes the select list.
pub fn emit_select(builder: &mut SqlStatement, selected: &Vec<String>, relation: &CodexRelation)
    ensures
        final(builder)@ == old(builder)@ + select_sql(select_names(texts(selected@), *relation)),
{
    let mut all = names_where(&relation.columns, false);
    let optional = if selected.len() == 0 {
        let chosen = relation.selectable();
        crate::mason::rows::column_name_list(&chosen)
    } else {
        crate::seqs::copy_strings(selected)
    };
    let ghost start = texts(all@);
    let mut index: usize = 0;
    while index < optional.len()
        invariant
            0 <= index <= optional.len(),
            texts(all@) == merged_names(start, texts(optional@).take(index as int)),
        decreases optional.len() - index,
    {
        let ghost before = texts(all@);
        proof {
            assert(texts(optional@).take(index as int + 1).drop_last() =~= texts(optional@).take(index as int));
            assert(texts(optional@).take(index as int + 1).last() == optional@[index as int]@);
        }
        let name = optional[index].as_str();
        let mut present = false;
        let mut k: usize = 0;
        while k < all.len()
            invariant
                0 <= k <= all.len(),
                present == exists|j: int| 0 <= j < k && #[trigger] all@[j]@ == name@,
            decreases all.len() - k,
        {
            if str_equal(all[k].as_str(), name) {
                present = true;
            }
            k = k + 1;
        }
        proof {
            if present {
                let j = choose|j: int| 0 <= j < all@.len() && #[trigger] all@[j]@ == name@;
                assert(before[j] == name@);
            } else {
                assert forall|j: int| 0 <= j < before.len() implies before[j] != name@ by {
                    assert(before[j] == all@[j]@);
                }
            }
        }
        if !present {
            all.push(optional[index].clone());
            proof {
                assert(texts(all@) =~= before.push(name@));
            }
        }
        index = index + 1;
    }
    proof {
        assert(texts(optional@).take(optional.len() as int) =~= texts(optional@));
        assert(texts(optional@) == (if selected@.len() == 0 {
            names_of(relation.columns@.filter(is_selectable()))
        } else {
            texts(selected@)
        }));
    }
    if all.len() == 0 {
        builder.push("*");
    } else {
        push_ident_list(builder, &all);
    }
}

/// The keyword of a sort direction.
pub open spec fn direction_text(direction: MasonDirection) -> Seq<char> {
    match direction {
        MasonDirection::Asc => " ASC"@,
        MasonDirection::Desc => " DESC"@,
    }
}

/// `"column" ASC|DESC` for each clause.
pub open spec fn sort_parts(clauses: Seq<MasonSort>) -> Seq<Seq<PieceView>> {
    clauses.map_values(
        |clause: MasonSort| seq![text(quoted(clause.column@)), text(direction_text(clause.direction))],
    )
}

/// ` ORDER BY c1 ASC, c2 DESC, ...`; nothing without clauses.
pub open spec fn sort_sql(clauses: Seq<MasonSort>) -> Seq<PieceView> {
    if clauses.len() == 0 {
        Seq::empty()
    } else {
        seq![text(" ORDER BY "@)] + joined_pieces(", "@, sort_parts(clauses))
    }
}

/// Pushes the order clause.
pub fn emit_sort(builder: &mut SqlStatement, clauses: &Vec<MasonSort>)
    ensures
        final(builder)@ == old(builder)@ + sort_sql(clauses@),
{
    if clauses.len() == 0 {
        proof {
            assert(old(builder)@ + sort_sql(clauses@) =~= old(builder)@);
        }
        return;
    }
    let ghost start = builder@;
    builder.push(" ORDER BY ");
    let ghost middle = builder@;
    let ghost parts = sort_parts(clauses@);
    let mut index: usize = 0;
    while index < clauses.len()
        invariant
            0 <= index <= clauses.len(),
            parts == sort_parts(clauses@),
            parts.len() == clauses.len(),
            builder@ == middle + joined_pieces(", "@, parts.take(index as int)),
        decreases clauses.len() - index,
    {
        proof {
            lemma_joined_step(", "@, parts, index as int);
        }
        if index > 0 {
            builder.push(", ");
        }
        builder.push_text(quote_ident(clauses[index].column.as_str()));
        match clauses[index].direction {
            MasonDirection::Asc => builder.push(" ASC"),
            MasonDirection::Desc => builder.push(" DESC"),
        }
        index = index + 1;
        proof {
            assert(builder@ =~= middle + joined_pieces(", "@, parts.take(index as int)));
        }
    }
    proof {
        assert(parts.take(clauses.len() as int) =~= parts);
        assert(builder@ =~= start + sort_sql(clauses@));
    }
}

// ── where, list and one ────────────────────────────────────────────────────

/// A bound project id.
pub open spec fn project_parts(ids: Seq<u128>) -> Seq<Seq<PieceView>> {
    ids.map_values(|id: u128| seq![bind(ArgView::Uuid(id))])
}

/// `"identity_project_id" IN (id, ...)`.
pub open spec fn project_sql(ids: Seq<u128>) -> Seq<PieceView> {
    seq![text(quoted(PROJECT_ID_COLUMN@)), text(" IN ("@)] + joined_pieces(", "@, project_parts(ids)) + seq![
        text(")"@),
    ]
}

/// The WHERE clause: the project scope, the filter tree and the search, each
/// present part joined by `AND`; nothing when all three are absent.
pub open spec fn where_sql(query: MasonQuery, relation: CodexRelation, before: nat) -> Seq<PieceView> {
    let search = crate::seqs::text_of(query.search);
    if !(query.project_ids@.len() > 0) && !(query.filter is Some) && !search_emits(search, relation) {
        Seq::empty()
    } else {
        let lead = where_lead(query, relation);
        lead + if search_emits(search, relation) {
            search_sql(searchable_names(relation), search_term(search)->0, before + bind_count(lead))
        } else {
            Seq::empty()
        }
    }
}

/// The WHERE clause up to the search: the project scope, then the filter,
/// each joined by `AND`, and the `AND` before the search when one follows.
pub open spec fn where_lead(query: MasonQuery, relation: CodexRelation) -> Seq<PieceView> {
    let has_project = query.project_ids@.len() > 0;
    let has_filter = query.filter is Some;
    let has_search = search_emits(crate::seqs::text_of(query.search), relation);
    let project = if has_project {
        project_sql(query.project_ids@)
    } else {
        Seq::empty()
    };
    let filter = if has_filter {
        (if has_project {
            seq![text(" AND "@)]
        } else {
            Seq::empty()
        }) + filter_sql(query.filter->0@, relation)
    } else {
        Seq::empty()
    };
    seq![text(" WHERE "@)] + project + filter + (if has_search && (has_project || has_filter) {
        seq![text(" AND "@)]
    } else {
        Seq::empty()
    })
}

/// Pushes the project scope.
fn emit_projects(builder: &mut SqlStatement, ids: &Vec<u128>)
    ensures
        final(builder)@ == old(builder)@ + project_sql(ids@),
{
    let ghost start = builder@;
    builder.push_text(quote_ident(PROJECT_ID_COLUMN));
    builder.push(" IN (");
    let ghost middle = builder@;
    let ghost parts = project_parts(ids@);
    let mut index: usize = 0;
    while index < ids.len()
        invariant
            0 <= index <= ids.len(),
            parts == project_parts(ids@),
            parts.len() == ids.len(),
            builder@ == middle + joined_pieces(", "@, parts.take(index as int)),
        decreases ids.len() - index,
    {
        proof {
            lemma_joined_step(", "@, parts, index as int);
        }
        if index > 0 {
            builder.push(", ");
        }
        builder.push_bind(SqlArg::Uuid(ids[index]));
        index = index + 1;
        proof {
            assert(builder@ =~= middle + joined_pieces(", "@, parts.take(index as int)));
        }
    }
    builder.push(")");
    proof {
        assert(parts.take(ids.len() as int) =~= parts);
        assert(builder@ =~= start + project_sql(ids@));
    }
}

/// Pushes the full WHERE clause.
pub fn emit_where(builder: &mut SqlStatement, query: &MasonQuery, relation: &CodexRelation)
    ensures
        final(builder)@ == old(builder)@ + where_sql(*query, *relation, bind_count(old(builder)@)),
{
    let ghost start = builder@;
    let has_project_filter = query.project_ids.len() > 0;
    let has_user_filter = query.filter.is_some();
    let has_search = search_would_emit(query, relation);
    if !has_project_filter && !has_user_filter && !has_search {
        proof {
            assert(start + where_sql(*query, *relation, bind_count(start)) =~= start);
        }
        return;
    }
    builder.push(" WHERE ");
    let ghost after_where = builder@;
    if has_project_filter {
        emit_projects(builder, &query.project_ids);
    }
    let ghost after_project = builder@;
    if let Some(filter) = &query.filter {
        if has_project_filter {
            builder.push(" AND ");
        }
        emit(builder, filter, relation);
    }
    let ghost after_filter = builder@;
    if has_search {
        if has_project_filter || has_user_filter {
            builder.push(" AND ");
        }
        let search = match &query.search {
            Some(raw) => Some(raw.as_str()),
            None => None,
        };
        proof {
            assert(crate::seqs::text_of_str(search) == crate::seqs::text_of(query.search));
            assert(builder@ =~= start + where_lead(*query, *relation));
            lemma_bind_count_concat(start, where_lead(*query, *relation));
        }
        emit_search(builder, relation, search);
    }
    proof {
        assert(builder@ =~= start + where_sql(*query, *relation, bind_count(start)));
    }
}

/// The first row of a page.
pub open spec fn page_offset(page: u64, page_size: u64) -> int {
    (if page > 0 {
        page - 1
    } else {
        0
    }) * page_size
}

/// `SELECT cols, COUNT(*) OVER() AS "_total" FROM "view"`.
pub open spec fn list_head(view: Seq<char>, relation: CodexRelation, query: MasonQuery) -> Seq<PieceView> {
    seq![text("SELECT "@)] + select_sql(select_names(texts(query.select@), relation)) + seq![
        text(", COUNT(*) OVER() AS "@),
        text(quoted(TOTAL_COUNT_ALIAS@)),
        text(" FROM "@),
        text(quoted(view)),
    ]
}

/// `SELECT cols FROM "view"`.
pub open spec fn one_head(view: Seq<char>, relation: CodexRelation, query: MasonQuery) -> Seq<PieceView> {
    seq![text("SELECT "@)] + select_sql(select_names(texts(query.select@), relation)) + seq![
        text(" FROM "@),
        text(quoted(view)),
    ]
}

/// `SELECT cols, COUNT(*) OVER() AS "_total" FROM "view" WHERE ... ORDER BY ...
/// LIMIT n OFFSET m`: one round trip returns the page and the total count.
pub open spec fn list_sql(view: Seq<char>, relation: CodexRelation, query: MasonQuery) -> Seq<PieceView> {
    let paging = if query.page_size > 0 {
        seq![
            text(" LIMIT "@),
            bind(ArgView::BigInt(query.page_size as i64)),
            text(" OFFSET "@),
            bind(ArgView::BigInt(page_offset(query.page, query.page_size) as i64)),
        ]
    } else {
        Seq::empty()
    };
    list_head(view, relation, query) + where_sql(query, relation, bind_count(list_head(view, relation, query)))
        + sort_sql(query.sort@) + paging
}

/// `SELECT cols FROM "view" WHERE ... ORDER BY ... LIMIT 1`.
pub open spec fn one_sql(view: Seq<char>, relation: CodexRelation, query: MasonQuery) -> Seq<PieceView> {
    one_head(view, relation, query) + where_sql(query, relation, bind_count(one_head(view, relation, query)))
        + sort_sql(query.sort@) + seq![text(" LIMIT 1"@)]
}

/// Builds the page query with its total count.
pub fn build_list(view: &str, relation: &CodexRelation, query: &MasonQuery) -> (statement: SqlStatement)
    requires
        query.page_size > 0 ==> page_offset(query.page, query.page_size) <= u64::MAX,
    ensures
        statement@ == list_sql(view@, *relation, *query),
{
    let mut builder = SqlStatement::new("SELECT ");
    emit_select(&mut builder, &query.select, relation);
    builder.push(", COUNT(*) OVER() AS ");
    builder.push_text(quote_ident(TOTAL_COUNT_ALIAS));
    builder.push(" FROM ");
    builder.push_text(quote_ident(view));
    proof {
        assert(builder@ =~= list_head(view@, *relation, *query));
    }
    emit_where(&mut builder, query, relation);
    emit_sort(&mut builder, &query.sort);
    let ghost before_paging = builder@;
    if query.page_size > 0 {
        let previous = query.page.saturating_sub(1);
        proof {
            assert(previous * query.page_size == page_offset(query.page, query.page_size));
        }
        let offset = previous * query.page_size;
        builder.push(" LIMIT ");
        builder.push_bind(SqlArg::BigInt(query.page_size as i64));
        builder.push(" OFFSET ");
        builder.push_bind(SqlArg::BigInt(offset as i64));
    }
    proof {
        assert(builder@ =~= list_sql(view@, *relation, *query));
    }
    builder
}

/// Builds the single-row query.
pub fn build_one(view: &str, relation: &CodexRelation, query: &MasonQuery) -> (statement: SqlStatement)
    ensures
        statement@ == one_sql(view@, *relation, *query),
{
    let mut builder = SqlStatement::new("SELECT ");
    emit_select(&mut builder, &query.select, relation);
    builder.push(" FROM ");
    builder.push_text(quote_ident(view));
    proof {
        assert(builder@ =~= one_head(view@, *relation, *query));
    }
    emit_where(&mut builder, query, relation);
    emit_sort(&mut builder, &query.sort);
    builder.push(" LIMIT 1");
    proof {
        assert(builder@ =~= one_sql(view@, *relation, *query));
    }
    builder
}

// ── rows read back ─────────────────────────────────────────────────────────

/// The total count a row carries: its `_total` number, as unsigned; 0 when it has none.
pub open spec fn row_total(row: Seq<(Seq<char>, ValueView)>) -> u64 {
    match crate::mason::rows::row_value(row, TOTAL_COUNT_ALIAS@) {
        Some(ValueView::Number(count)) => count as u64,
        _ => 0,
    }
}

/// The total of a page: the first non-zero `_total` among its rows, or 0.
pub open spec fn page_total_of(rows: Seq<MasonRow>) -> u64
    decreases rows.len(),
{
    if rows.len() == 0 {
        0
    } else if row_total(rows[0]@) != 0 {
        row_total(rows[0]@)
    } else {
        page_total_of(rows.drop_first())
    }
}

/// The total count of a page of rows read by `build_list`.
pub fn page_total(rows: &Vec<MasonRow>) -> (total: u64)
    ensures
        total == page_total_of(rows@),
{
    let mut index: usize = 0;
    proof {
        assert(rows@.skip(0) =~= rows@);
    }
    while index < rows.len()
        invariant
            0 <= index <= rows.len(),
            page_total_of(rows@) == page_total_of(rows@.skip(index as int)),
        decreases rows.len() - index,
    {
        proof {
            assert(rows@.skip(index as int)[0] == rows@[index as int]);
            assert(rows@.skip(index as int).drop_first() =~= rows@.skip(index as int + 1));
        }
        let count: u64 = match crate::mason::rows::find_value(&rows[index], TOTAL_COUNT_ALIAS) {
            Some(MasonValue::Number(count)) => *count as u64,
            _ => 0,
        };
        if count != 0 {
            return count;
        }
        index = index + 1;
    }
    0
}

/// "The entry is not the `_total` column."
pub open spec fn not_total() -> spec_fn((Seq<char>, ValueView)) -> bool {
    |entry: (Seq<char>, ValueView)| entry.0 != TOTAL_COUNT_ALIAS@
}

/// A row read back without the `_total` column `build_list` adds.
pub fn visible_columns(row: &MasonRow) -> (visible: MasonRow)
    ensures
        visible@ == row@.filter(not_total()),
{
    let ghost wanted = not_total();
    let mut columns: Vec<(String, MasonValue)> = Vec::new();
    let mut index: usize = 0;
    while index < row.columns.len()
        invariant
            0 <= index <= row.columns.len(),
            row@.len() == row.columns@.len(),
            wanted == not_total(),
            crate::mason::value::row_view(columns@) == row@.take(index as int).filter(wanted),
        decreases row.columns.len() - index,
    {
        let ghost before = columns@;
        proof {
            lemma_filter_take_step(row@, wanted, index as int);
            assert(row@[index as int] == (row.columns@[index as int].0@, row.columns@[index as int].1@));
        }
        if !str_equal(row.columns[index].0.as_str(), TOTAL_COUNT_ALIAS) {
            let name = row.columns[index].0.clone();
            let value = row.columns[index].1.clone();
            columns.push((name, value));
            proof {
                assert(crate::mason::value::row_view(columns@) =~= crate::mason::value::row_view(before).push(
                    row@[index as int],
                ));
            }
        }
        index = index + 1;
    }
    proof {
        assert(row@.take(row.columns.len() as int) =~= row@);
    }
    MasonRow { columns }
}

} // verus!
