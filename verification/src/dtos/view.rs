//! A `views:` entry: its read-surface declarations, its sources and its select list.

use vstd::prelude::*;

use crate::catalog::column::{CodexColumn, CodexRole};
use crate::catalog::aggregate::shape_parts;
use crate::catalog::read_shape::ReadShape;
use crate::catalog::relation::{CodexKind, CodexRelation, RelationView, relation_views};
use crate::dtos::partial::{
    RawCodexPartial,
    RawCodexPartialReference,
    RawCodexSelectPartialItem,
    chosen_from,
    expanded_entry,
    reference_from,
    reference_name,
};
use crate::dtos::select::{RawCodexSelectItem, item_column, overrides_of};
use crate::error::{CodexError, LaxError, LaxErrorView};
use crate::seqs::{
    lemma_filter_map_take_step,
    lemma_filter_take_step,
    lemma_take_all,
    lookup_value,
    put_value,
    store_value,
    text_of,
    value_at,
};
use crate::text::{joined3, joined5};

verus! {

/// YAML shape for a `views:` entry.
#[derive(Debug)]
pub struct RawCodexView {
    pub name: String,
    pub x_aggregate: Option<RawCodexViewAggregate>,
    pub x_entity: Option<RawCodexViewEntity>,
    pub x_partials: Vec<RawCodexPartialReference>,
    pub select: Vec<RawCodexSelectItem>,
    /// Top-level `from:` binding — an alias pointing at a table or subquery.
    pub from: Option<RawCodexViewSource>,
    /// Subsequent `join:` bindings — same alias-to-source shape.
    pub join: Vec<RawCodexViewSource>,
}

#[derive(Debug)]
pub struct RawCodexViewAggregate {
    pub name: String,
    pub list: Option<String>,
    pub detail: Option<String>,
}

#[derive(Debug)]
pub struct RawCodexViewEntity {
    pub aggregate: String,
    pub name: String,
    pub list: Option<String>,
    pub detail: Option<String>,
}

/// YAML shape for a view's `from:` or each `join:` entry; `alias` is the YAML `as:`.
#[derive(Debug)]
pub struct RawCodexViewSource {
    pub table: Option<String>,
    pub subquery: Option<RawCodexViewSubquery>,
    pub alias: String,
}

/// Subquery source — only its `from:` is needed, to know which table it reads.
#[derive(Debug)]
pub struct RawCodexViewSubquery {
    pub from: String,
}

/// The read shape a surface declaration resolves to: exactly one of `list:`
/// and `detail:` must be given; the error is the semantic message.
pub open spec fn shape_of(view_name: Seq<char>, list: Option<String>, detail: Option<String>) -> Result<
    (bool, Seq<char>),
    Seq<char>,
> {
    match (list, detail) {
        (Some(surface_name), None) => Ok((true, surface_name@)),
        (None, Some(surface_name)) => Ok((false, surface_name@)),
        (Some(_), Some(_)) => Err(
            "view `"@ + view_name + "`: cannot declare both `list:` and `detail:`"@,
        ),
        (None, None) => Err(
            "view `"@ + view_name + "`: must declare either `list: <name>` or `detail: <name>`"@,
        ),
    }
}

/// The outcome of resolving a surface declaration, with its parts read as views.
pub open spec fn shape_outcome(outcome: Result<ReadShape, LaxError>) -> Result<(bool, Seq<char>), Seq<char>> {
    match outcome {
        Ok(shape) => Ok(shape_parts(shape)),
        Err(error) => match error@ {
            LaxErrorView::Semantic(message) => Err(message),
            _ => Err(Seq::empty().push('?')),
        },
    }
}

/// The outcome holds exactly what `shape_of` says, and any error is semantic.
pub open spec fn shape_resolved(
    outcome: Result<ReadShape, LaxError>,
    view_name: Seq<char>,
    list: Option<String>,
    detail: Option<String>,
) -> bool {
    &&& shape_outcome(outcome) == shape_of(view_name, list, detail)
    &&& (outcome matches Err(error) ==> error@ is Semantic)
}

fn resolve_shape(view_name: &str, list: &Option<String>, detail: &Option<String>) -> (shape: Result<
    ReadShape,
    LaxError,
>)
    ensures
        shape_resolved(shape, view_name@, *list, *detail),
{
    match (list, detail) {
        (Some(surface_name), None) => Ok(ReadShape::List(surface_name.clone())),
        (None, Some(surface_name)) => Ok(ReadShape::Detail(surface_name.clone())),
        (Some(_), Some(_)) => Err(
            CodexError::semantic(
                joined3("view `", view_name, "`: cannot declare both `list:` and `detail:`"),
            ),
        ),
        (None, None) => Err(
            CodexError::semantic(
                joined3("view `", view_name, "`: must declare either `list: <name>` or `detail: <name>`"),
            ),
        ),
    }
}

impl RawCodexViewAggregate {
    pub fn shape(&self, view_name: &str) -> (shape: Result<ReadShape, LaxError>)
        ensures
            shape_resolved(shape, view_name@, self.list, self.detail),
    {
        resolve_shape(view_name, &self.list, &self.detail)
    }
}

impl RawCodexViewEntity {
    pub fn shape(&self, view_name: &str) -> (shape: Result<ReadShape, LaxError>)
        ensures
            shape_resolved(shape, view_name@, self.list, self.detail),
    {
        resolve_shape(view_name, &self.list, &self.detail)
    }
}

/// The relation a source reads: its table, else its subquery's `from:`.
pub open spec fn source_relation(source: RawCodexViewSource) -> Option<Seq<char>> {
    match source.table {
        Some(table) => Some(table@),
        None => match source.subquery {
            Some(subquery) => Some(subquery.from@),
            None => None,
        },
    }
}

impl RawCodexViewSource {
    /// Resolve the backing relation name — either a direct table or the
    /// subquery's underlying `from:`.
    pub fn relation_name(&self) -> (name: Option<&str>)
        ensures
            match name {
                Some(relation) => source_relation(*self) == Some(relation@),
                None => source_relation(*self) is None,
            },
    {
        match &self.table {
            Some(table) => Some(table.as_str()),
            None => match &self.subquery {
                Some(subquery) => Some(subquery.from.as_str()),
                None => None,
            },
        }
    }
}

/// Message when a view names a partial that does not exist.
pub open spec fn unknown_view_partial_message(view: Seq<char>, partial: Seq<char>) -> Seq<char> {
    "view `"@ + view + "`: unknown partial `"@ + partial + "`"@
}

/// Message when a view names a columns partial.
pub open spec fn not_select_partial_message(view: Seq<char>, partial: Seq<char>) -> Seq<char> {
    "view `"@ + view + "`: partial `"@ + partial
        + "` is not a select partial (views can only reference x_partial_select)"@
}

/// The select items appended for a select partial expanded with `from`.
pub open spec fn appended_items(
    items: Seq<RawCodexSelectItem>,
    entries: Seq<(String, RawCodexSelectPartialItem)>,
    from: Option<Seq<char>>,
) -> bool {
    &&& items.len() == entries.len()
    &&& forall|i: int|
        0 <= i < items.len() ==> (#[trigger] items[i] matches RawCodexSelectItem::Column(column)
            && expanded_entry(entries[i], from, column))
}

/// The `from:` a referenced select partial expands with.
pub open spec fn expansion_from(reference: RawCodexPartialReference, partial_from: Option<String>) -> Option<
    Seq<char>,
> {
    match reference_from(reference) {
        Some(alias) => Some(alias),
        None => text_of(partial_from),
    }
}

/// The message of a reference that does not name a select partial, if it does not.
pub open spec fn reference_failure(
    view: Seq<char>,
    reference: RawCodexPartialReference,
    partials: Seq<(String, RawCodexPartial)>,
) -> Option<Seq<char>> {
    let name = reference_name(reference);
    match value_at(partials, name) {
        None => Some(unknown_view_partial_message(view, name)),
        Some(RawCodexPartial::Columns(_)) => Some(not_select_partial_message(view, name)),
        Some(RawCodexPartial::Select(_)) => None,
    }
}

/// The message of the first reference that does not name a select partial.
pub open spec fn select_failure(
    view: Seq<char>,
    references: Seq<RawCodexPartialReference>,
    partials: Seq<(String, RawCodexPartial)>,
) -> Option<Seq<char>>
    decreases references.len(),
{
    if references.len() == 0 {
        None
    } else {
        match select_failure(view, references.drop_last(), partials) {
            Some(message) => Some(message),
            None => reference_failure(view, references.last(), partials),
        }
    }
}

/// `items` is `select` followed, for each reference in order, by the columns
/// of the select partial it names, expanded with the reference's `from:`
/// override or else the partial's own `from:`.
pub open spec fn select_expansion(
    items: Seq<RawCodexSelectItem>,
    select: Seq<RawCodexSelectItem>,
    references: Seq<RawCodexPartialReference>,
    partials: Seq<(String, RawCodexPartial)>,
) -> bool
    decreases references.len(),
{
    if references.len() == 0 {
        items == select
    } else {
        let reference = references.last();
        match value_at(partials, reference_name(reference)) {
            Some(RawCodexPartial::Select(partial)) => {
                let count = partial.select@.len();
                &&& items.len() >= count
                &&& select_expansion(items.take(items.len() - count), select, references.drop_last(), partials)
                &&& appended_items(
                    items.skip(items.len() - count),
                    partial.select@,
                    expansion_from(reference, partial.from),
                )
            },
            _ => false,
        }
    }
}

/// The relation a source reads, as the string the source stores.
pub open spec fn source_relation_text(source: RawCodexViewSource) -> Option<String> {
    match source.table {
        Some(table) => Some(table),
        None => match source.subquery {
            Some(subquery) => Some(subquery.from),
            None => None,
        },
    }
}

/// The alias map after adding `sources` in order: each source with a
/// relation stores it under its alias, a later alias replacing an earlier one.
pub open spec fn put_sources(entries: Seq<(String, String)>, sources: Seq<RawCodexViewSource>) -> Seq<
    (String, String),
>
    decreases sources.len(),
{
    if sources.len() == 0 {
        entries
    } else {
        let earlier = put_sources(entries, sources.drop_last());
        let source = sources.last();
        match source_relation_text(source) {
            Some(relation) => put_value(earlier, source.alias, relation),
            None => earlier,
        }
    }
}

/// The view's sources: its `from:` (if any) and then its `join:` entries.
pub open spec fn view_sources(view: RawCodexView) -> Seq<RawCodexViewSource> {
    match view.from {
        Some(source) => seq![source] + view.join@,
        None => view.join@,
    }
}

/// The view's alias map: every `from:`/`join:` alias to the relation it reads.
pub open spec fn view_aliases(view: RawCodexView) -> Seq<(String, String)> {
    put_sources(Seq::empty(), view_sources(view))
}

/// The select items that declare `x_role: Id`.
pub open spec fn id_items(select: Seq<RawCodexSelectItem>) -> Seq<RawCodexSelectItem> {
    select.filter(|item: RawCodexSelectItem| overrides_of(item).x_role == Some(CodexRole::Id))
}

/// The columns of a view compiled against `relations`: one per select item
/// that yields a column, in order.
pub open spec fn view_columns(view: RawCodexView, relations: Seq<RelationView>) -> Seq<CodexColumn> {
    view.select@.filter_map(|item: RawCodexSelectItem| item_column(item, view_aliases(view), relations))
}

impl RawCodexView {
    /// Resolve `x_partials` by pushing each referenced select-partial's expanded
    /// columns onto `self.select`. `x_partials` is consumed either way.
    pub fn expand_partials(&mut self, partials: &Vec<(String, RawCodexPartial)>) -> (outcome: Result<
        (),
        LaxError,
    >)
        ensures
            final(self).name == old(self).name,
            final(self).x_aggregate == old(self).x_aggregate,
            final(self).x_entity == old(self).x_entity,
            final(self).from == old(self).from,
            final(self).join == old(self).join,
            final(self).x_partials@.len() == 0,
            match select_failure(old(self).name@, old(self).x_partials@, partials@) {
                Some(message) => outcome matches Err(error) && error@ == LaxErrorView::Partials(message),
                None => outcome is Ok && select_expansion(
                    final(self).select@,
                    old(self).select@,
                    old(self).x_partials@,
                    partials@,
                ),
            },
    {
        let mut references: Vec<RawCodexPartialReference> = Vec::new();
        std::mem::swap(&mut references, &mut self.x_partials);
        let ghost original = self.select@;
        let mut index: usize = 0;
        while index < references.len()
            invariant
                0 <= index <= references.len(),
                self.name == old(self).name,
                self.x_aggregate == old(self).x_aggregate,
                self.x_entity == old(self).x_entity,
                self.from == old(self).from,
                self.join == old(self).join,
                self.x_partials@.len() == 0,
                references@ == old(self).x_partials@,
                original == old(self).select@,
                select_failure(self.name@, references@.take(index as int), partials@) is None,
                select_expansion(self.select@, original, references@.take(index as int), partials@),
            decreases references.len() - index,
        {
            proof {
                assert(references@.take(index + 1).drop_last() =~= references@.take(index as int));
                assert(references@.take(index + 1).last() == references@[index as int]);
            }
            let reference = &references[index];
            let partial_name = reference.partial_name();
            match lookup_value(partials, partial_name) {
                None => {
                    proof {
                        lemma_select_prefix_failure(self.name@, references@, partials@, index as int);
                    }
                    return Err(
                        CodexError::partials(
                            joined5("view `", self.name.as_str(), "`: unknown partial `", partial_name, "`"),
                        ),
                    );
                },
                Some(RawCodexPartial::Columns(_)) => {
                    proof {
                        lemma_select_prefix_failure(self.name@, references@, partials@, index as int);
                    }
                    return Err(
                        CodexError::partials(
                            joined5(
                                "view `",
                                self.name.as_str(),
                                "`: partial `",
                                partial_name,
                                "` is not a select partial (views can only reference x_partial_select)",
                            ),
                        ),
                    );
                },
                Some(RawCodexPartial::Select(select_partial)) => {
                    let ghost before = self.select@;
                    let from_override = reference.from_override();
                    let mut pending = select_partial.expand(from_override);
                    let ghost from = chosen_from(select_partial.from, from_override);
                    let ghost all = pending@;
                    let total = pending.len();
                    let mut moved: usize = 0;
                    while pending.len() > 0
                        invariant
                            0 <= moved <= all.len(),
                            moved + pending@.len() == all.len(),
                            all.len() == total,
                            pending@ == all.skip(moved as int),
                            all.len() == select_partial.select@.len(),
                            forall|i: int|
                                0 <= i < all.len() ==> expanded_entry(
                                    #[trigger] select_partial.select@[i],
                                    from,
                                    all[i],
                                ),
                            self.select@.len() == before.len() + moved,
                            self.select@.take(before.len() as int) == before,
                            appended_items(
                                self.select@.skip(before.len() as int),
                                select_partial.select@.take(moved as int),
                                from,
                            ),
                            self.name == old(self).name,
                            self.x_aggregate == old(self).x_aggregate,
                            self.x_entity == old(self).x_entity,
                            self.from == old(self).from,
                            self.join == old(self).join,
                            self.x_partials@.len() == 0,
                        decreases pending.len(),
                    {
                        let column = pending.remove(0);
                        proof {
                            assert(column == all[moved as int]);
                        }
                        let ghost old_tail = self.select@.skip(before.len() as int);
                        let ghost old_entries = select_partial.select@.take(moved as int);
                        self.select.push(RawCodexSelectItem::Column(column));
                        moved = moved + 1;
                        proof {
                            assert(pending@ =~= all.skip(moved as int));
                            assert(self.select@.take(before.len() as int) =~= before);
                            let tail = self.select@.skip(before.len() as int);
                            let entries = select_partial.select@.take(moved as int);
                            assert(tail =~= old_tail.push(RawCodexSelectItem::Column(column)));
                            assert forall|i: int| 0 <= i < tail.len() implies (#[trigger] tail[i] matches RawCodexSelectItem::Column(c)
                                && expanded_entry(entries[i], from, c)) by {
                                assert(entries[i] == select_partial.select@[i]);
                                if i < old_tail.len() {
                                    assert(tail[i] == old_tail[i]);
                                    assert(old_entries[i] == entries[i]);
                                } else {
                                    assert(tail[i] == RawCodexSelectItem::Column(column));
                                    assert(expanded_entry(select_partial.select@[i], from, all[i]));
                                }
                            }
                        }
                    }
                    proof {
                        assert(select_partial.select@.take(moved as int) =~= select_partial.select@);
                        let items = self.select@;
                        let count = select_partial.select@.len();
                        assert(items.take(items.len() - count) =~= before);
                        assert(from == expansion_from(*reference, select_partial.from));
                    }
                },
            }
            index = index + 1;
        }
        proof {
            lemma_take_all(references@);
        }
        Ok(())
    }

    /// Count select items declaring `x_role: Id`. Used by semantic checks.
    pub fn count_id_roles(&self) -> (count: usize)
        ensures
            count == id_items(self.select@).len(),
    {
        let ghost wanted = |item: RawCodexSelectItem| overrides_of(item).x_role == Some(CodexRole::Id);
        let mut count: usize = 0;
        let mut index: usize = 0;
        while index < self.select.len()
            invariant
                0 <= index <= self.select.len(),
                wanted == (|item: RawCodexSelectItem| overrides_of(item).x_role == Some(CodexRole::Id)),
                count == self.select@.take(index as int).filter(wanted).len(),
                count <= index,
            decreases self.select.len() - index,
        {
            proof {
                lemma_filter_take_step(self.select@, wanted, index as int);
            }
            if self.select[index].role() == Some(CodexRole::Id) {
                count = count + 1;
            }
            index = index + 1;
        }
        proof {
            lemma_take_all(self.select@);
        }
        count
    }

    /// Map every declared alias in `from:` and `join:` to the relation name
    /// it ultimately reads from. Subqueries are unwrapped to their underlying
    /// `from: <table>`.
    fn alias_to_relation(&self) -> (aliases: Vec<(String, String)>)
        ensures
            aliases@ == view_aliases(*self),
    {
        let mut aliases: Vec<(String, String)> = Vec::new();
        let ghost sources = view_sources(*self);
        let mut done: usize = 0;
        proof {
            assert(sources.take(0) =~= Seq::<RawCodexViewSource>::empty());
        }
        if let Some(source) = &self.from {
            if let Some(relation) = source_relation_string(source) {
                store_value(&mut aliases, source.alias.clone(), relation);
            }
            done = 1;
            proof {
                let first = sources.take(1);
                assert(first.drop_last() =~= Seq::<RawCodexViewSource>::empty());
                assert(first.last() == *source);
                assert(put_sources(Seq::empty(), first.drop_last()) == Seq::<(String, String)>::empty());
                assert(aliases@ == put_sources(Seq::empty(), first));
            }
        }
        let offset = done;
        let mut index: usize = 0;
        while index < self.join.len()
            invariant
                0 <= index <= self.join.len(),
                sources == view_sources(*self),
                offset == (if self.from is Some { 1usize } else { 0usize }),
                sources.len() == self.join@.len() + offset,
                forall|i: int| 0 <= i < self.join@.len() ==> sources[i + offset] == self.join@[i],
                aliases@ == put_sources(Seq::empty(), sources.take(index + offset)),
            decreases self.join.len() - index,
        {
            proof {
                let longer = sources.take(index + offset + 1);
                assert(longer.drop_last() =~= sources.take(index + offset));
                assert(longer.last() == self.join@[index as int]);
            }
            let source = &self.join[index];
            if let Some(relation) = source_relation_string(source) {
                store_value(&mut aliases, source.alias.clone(), relation);
            }
            index = index + 1;
        }
        proof {
            assert(sources.take(self.join@.len() + offset) =~= sources);
        }
        aliases
    }

    /// Produce the runtime `CodexRelation` (View kind). Column types are
    /// inherited from the underlying relation's column via the alias map;
    /// expressions without aliases are dropped.
    pub fn into_relation(&self, relations: &Vec<CodexRelation>) -> (relation: CodexRelation)
        ensures
            relation.name@ == self.name@,
            relation.kind == CodexKind::View,
            relation.columns@ == view_columns(*self, relation_views(relations@)),
    {
        let aliases = self.alias_to_relation();
        let ghost build = |item: RawCodexSelectItem| item_column(item, view_aliases(*self), relation_views(relations@));
        let mut columns: Vec<CodexColumn> = Vec::new();
        let mut index: usize = 0;
        while index < self.select.len()
            invariant
                0 <= index <= self.select.len(),
                aliases@ == view_aliases(*self),
                build == (|item: RawCodexSelectItem| item_column(item, view_aliases(*self), relation_views(relations@))),
                columns@ == self.select@.take(index as int).filter_map(build),
            decreases self.select.len() - index,
        {
            proof {
                lemma_filter_map_take_step(self.select@, build, index as int);
            }
            if let Some(column) = self.select[index].into_column(&aliases, relations) {
                columns.push(column);
                proof {
                    assert(columns@ =~= self.select@.take(index as int).filter_map(build) + seq![column]);
                }
            }
            index = index + 1;
        }
        proof {
            lemma_take_all(self.select@);
        }
        CodexRelation { name: self.name.clone(), kind: CodexKind::View, columns }
    }
}

/// The relation a source reads, as a fresh copy of the string it stores.
fn source_relation_string(source: &RawCodexViewSource) -> (relation: Option<String>)
    ensures
        relation == source_relation_text(*source),
{
    match &source.table {
        Some(table) => Some(table.clone()),
        None => match &source.subquery {
            Some(subquery) => Some(subquery.from.clone()),
            None => None,
        },
    }
}

/// When the reference at `index` fails and none before it does, that is the first failure.
proof fn lemma_select_prefix_failure(
    view: Seq<char>,
    references: Seq<RawCodexPartialReference>,
    partials: Seq<(String, RawCodexPartial)>,
    index: int,
)
    requires
        0 <= index < references.len(),
        select_failure(view, references.take(index + 1), partials) is Some,
    ensures
        select_failure(view, references, partials) == select_failure(view, references.take(index + 1), partials),
    decreases references.len() - index,
{
    if index + 1 < references.len() {
        let longer = references.take(index + 2);
        assert(longer.drop_last() =~= references.take(index + 1));
        lemma_select_prefix_failure(view, references, partials, index + 1);
    } else {
        assert(references.take(index + 1) =~= references);
    }
}

} // verus!
