//! The merged schema document and the catalog built from it.

use vstd::prelude::*;

use crate::catalog::aggregate::{
    AggregateView,
    CodexAggregate,
    CodexEntity,
    CodexRoot,
    CodexSink,
    CodexSurface,
    EntityView,
    RootView,
    SinkView,
    SurfaceView,
};
use crate::catalog::relation::{
    CodexKind,
    CodexRelation,
    RelationView,
    lemma_relation_position,
    relation_position,
    relation_views,
};
use crate::dtos::enum_type::RawCodexTypeDefinition;
use crate::dtos::partial::RawCodexPartial;
use crate::dtos::table::{RawCodexTable, expanded_columns, single_id_column, table_columns};
use crate::dtos::view::{RawCodexView, select_expansion, select_failure, shape_of, view_columns};
use crate::error::{LaxError, LaxErrorView, texts};
use crate::seqs::{
    copy_strings,
    distinct_entry_keys,
    lemma_put_value_distinct,
    first_match,
    lemma_filter_map_take_step,
    lemma_first_match_is,
    lemma_first_match_none,
    lemma_put_value_map,
    lemma_take_all,
    map_entries,
    put_value,
    store_value,
    text_of,
};
use crate::text::str_equal;

verus! {

/// Top-level YAML shape for a merged Codex document. `x_partials` keeps the
/// YAML map's entries, one per partial name.
#[derive(Debug)]
pub struct RawCodexDocument {
    pub x_partials: Vec<(String, RawCodexPartial)>,
    pub types: Vec<RawCodexTypeDefinition>,
    pub tables: Vec<RawCodexTable>,
    pub views: Vec<RawCodexView>,
}

/// Normalized schema knowledge — what the runtime Codex stores. The
/// relations and the enum types hold one entry per name (`well_formed`).
#[derive(Debug)]
pub struct RawCodexCatalog {
    pub relations: Vec<CodexRelation>,
    pub aggregates: Vec<CodexAggregate>,
    pub enum_types: Vec<(String, Vec<String>)>,
}

/// One relation per name and one enum type per name.
pub open spec fn catalog_well_formed(relations: Seq<CodexRelation>, enum_types: Seq<(String, Vec<String>)>) -> bool {
    &&& distinct_relation_names(relation_views(relations))
    &&& distinct_entry_keys(enum_types)
}

impl RawCodexCatalog {
    /// One relation per name and one enum type per name.
    pub open spec fn well_formed(&self) -> bool {
        catalog_well_formed(self.relations@, self.enum_types@)
    }

    /// Whether the catalog holds one relation per name and one enum type per name.
    pub fn has_distinct_names(&self) -> (distinct: bool)
        ensures
            distinct == self.well_formed(),
    {
        let ghost views = relation_views(self.relations@);
        let mut i: usize = 0;
        while i < self.relations.len()
            invariant
                0 <= i <= self.relations.len(),
                views == relation_views(self.relations@),
                forall|a: int, b: int| 0 <= a < i && a < b < views.len() ==> views[a].name != views[b].name,
            decreases self.relations.len() - i,
        {
            let mut j: usize = i + 1;
            while j < self.relations.len()
                invariant
                    i < self.relations.len(),
                    i + 1 <= j <= self.relations.len(),
                    views == relation_views(self.relations@),
                    forall|a: int, b: int| 0 <= a < i && a < b < views.len() ==> views[a].name != views[b].name,
                    forall|b: int| i < b < j ==> views[i as int].name != views[b].name,
                decreases self.relations.len() - j,
            {
                proof {
                    assert(views[i as int].name == self.relations@[i as int].name@);
                    assert(views[j as int].name == self.relations@[j as int].name@);
                }
                if str_equal(self.relations[i].name.as_str(), self.relations[j].name.as_str()) {
                    return false;
                }
                j = j + 1;
            }
            i = i + 1;
        }
        let mut i: usize = 0;
        while i < self.enum_types.len()
            invariant
                0 <= i <= self.enum_types.len(),
                distinct_relation_names(relation_views(self.relations@)),
                forall|a: int, b: int|
                    0 <= a < i && a < b < self.enum_types@.len() ==> self.enum_types@[a].0@ != self.enum_types@[b].0@,
            decreases self.enum_types.len() - i,
        {
            let mut j: usize = i + 1;
            while j < self.enum_types.len()
                invariant
                    i < self.enum_types.len(),
                    i + 1 <= j <= self.enum_types.len(),
                    forall|a: int, b: int|
                        0 <= a < i && a < b < self.enum_types@.len() ==> self.enum_types@[a].0@
                            != self.enum_types@[b].0@,
                    forall|b: int| i < b < j ==> self.enum_types@[i as int].0@ != self.enum_types@[b].0@,
                decreases self.enum_types.len() - j,
            {
                if str_equal(self.enum_types[i].0.as_str(), self.enum_types[j].0.as_str()) {
                    return false;
                }
                j = j + 1;
            }
            i = i + 1;
        }
        true
    }
}

/// The enum types of a document hold one entry per name.
proof fn lemma_enum_entries_distinct(types: Seq<RawCodexTypeDefinition>)
    ensures
        distinct_entry_keys(enum_entries(types)),
    decreases types.len(),
{
    if types.len() > 0 {
        lemma_enum_entries_distinct(types.drop_last());
        match types.last() {
            RawCodexTypeDefinition::Enum(declared) => {
                lemma_put_value_distinct(enum_entries(types.drop_last()), declared.name, declared.values@);
            },
            RawCodexTypeDefinition::Unknown(_) => {},
        }
    }
}

// ── enum types ─────────────────────────────────────────────────────────────

/// The enum declarations of `types:`, name to values, a later declaration of
/// a name replacing the values of an earlier one.
pub open spec fn enum_entries(types: Seq<RawCodexTypeDefinition>) -> Seq<(String, Seq<String>)>
    decreases types.len(),
{
    if types.len() == 0 {
        Seq::empty()
    } else {
        let earlier = enum_entries(types.drop_last());
        match types.last() {
            RawCodexTypeDefinition::Enum(declared) => put_value(earlier, declared.name, declared.values@),
            RawCodexTypeDefinition::Unknown(_) => earlier,
        }
    }
}

/// The name of an enum declaration; nothing for another type.
pub open spec fn declared_enum_name(definition: RawCodexTypeDefinition) -> Option<String> {
    match definition {
        RawCodexTypeDefinition::Enum(declared) => Some(declared.name),
        RawCodexTypeDefinition::Unknown(_) => None,
    }
}

/// The names of the enum declarations, in order.
pub open spec fn enum_names_of(types: Seq<RawCodexTypeDefinition>) -> Seq<String> {
    types.filter_map(enum_name_builder())
}

/// `declared_enum_name` as a function value.
pub open spec fn enum_name_builder() -> spec_fn(RawCodexTypeDefinition) -> Option<String> {
    |definition: RawCodexTypeDefinition| declared_enum_name(definition)
}

/// Reads a list of strings as its sequence.
pub open spec fn strings_view() -> spec_fn(Vec<String>) -> Seq<String> {
    |values: Vec<String>| values@
}

// ── relations ──────────────────────────────────────────────────────────────

/// `relations` with `relation` stored by name: it replaces the first relation
/// of the same name, or is appended.
pub open spec fn with_relation(relations: Seq<RelationView>, relation: RelationView) -> Seq<RelationView> {
    match relation_position(relations, relation.name) {
        Some(index) => relations.update(index, relation),
        None => relations.push(relation),
    }
}

/// The relation a table compiles to.
pub open spec fn table_relation(table: RawCodexTable, enums: Seq<Seq<char>>) -> RelationView {
    RelationView { name: table.name@, kind: CodexKind::Table, columns: table_columns(table.columns@, enums) }
}

/// The relations of the tables, stored in order.
pub open spec fn table_relations(tables: Seq<RawCodexTable>, enums: Seq<Seq<char>>) -> Seq<RelationView>
    decreases tables.len(),
{
    if tables.len() == 0 {
        Seq::empty()
    } else {
        with_relation(table_relations(tables.drop_last(), enums), table_relation(tables.last(), enums))
    }
}

/// The relations after storing the views in order, each compiled against
/// the relations stored before it.
pub open spec fn view_relations(base: Seq<RelationView>, views: Seq<RawCodexView>) -> Seq<RelationView>
    decreases views.len(),
{
    if views.len() == 0 {
        base
    } else {
        let earlier = view_relations(base, views.drop_last());
        let view = views.last();
        with_relation(
            earlier,
            RelationView { name: view.name@, kind: CodexKind::View, columns: view_columns(view, earlier) },
        )
    }
}

/// Some relation is named `name`.
pub open spec fn has_relation(relations: Seq<RelationView>, name: Seq<char>) -> bool {
    exists|i: int| 0 <= i < relations.len() && #[trigger] relations[i].name == name
}

/// No two relations share a name.
pub open spec fn distinct_relation_names(relations: Seq<RelationView>) -> bool {
    forall|i: int, j: int| 0 <= i < j < relations.len() ==> relations[i].name != relations[j].name
}

/// Some table is named `name`.
pub open spec fn declares_table(tables: Seq<RawCodexTable>, name: Seq<char>) -> bool {
    exists|i: int| 0 <= i < tables.len() && #[trigger] tables[i].name@ == name
}

/// Some view is named `name`.
pub open spec fn declares_view(views: Seq<RawCodexView>, name: Seq<char>) -> bool {
    exists|i: int| 0 <= i < views.len() && #[trigger] views[i].name@ == name
}

/// Storing a relation by name keeps the names distinct, adds its name, puts
/// it under its name and leaves every other relation where it was.
proof fn lemma_with_relation(relations: Seq<RelationView>, relation: RelationView)
    requires
        distinct_relation_names(relations),
    ensures
        distinct_relation_names(with_relation(relations, relation)),
        forall|name: Seq<char>|
            #[trigger] has_relation(with_relation(relations, relation), name) == (has_relation(relations, name)
                || name == relation.name),
        forall|i: int|
            0 <= i < with_relation(relations, relation).len() ==> (#[trigger] with_relation(relations, relation)[i]
                == relation || (i < relations.len() && with_relation(relations, relation)[i] == relations[i])),
        forall|i: int|
            0 <= i < with_relation(relations, relation).len() && #[trigger] with_relation(relations, relation)[i].name
                == relation.name ==> with_relation(relations, relation)[i] == relation,
{
    lemma_relation_position(relations, relation.name);
    let stored = with_relation(relations, relation);
    match relation_position(relations, relation.name) {
        Some(p) => {
            assert forall|name: Seq<char>| #[trigger] has_relation(stored, name) == (has_relation(relations, name)
                || name == relation.name) by {
                if has_relation(relations, name) {
                    let i = choose|i: int| 0 <= i < relations.len() && #[trigger] relations[i].name == name;
                    if i != p {
                        assert(stored[i].name == name);
                    } else {
                        assert(stored[p].name == name);
                    }
                }
                if name == relation.name {
                    assert(stored[p].name == name);
                }
                if has_relation(stored, name) {
                    let i = choose|i: int| 0 <= i < stored.len() && #[trigger] stored[i].name == name;
                    if i != p {
                        assert(relations[i].name == name);
                    }
                }
            }
        },
        None => {
            assert forall|name: Seq<char>| #[trigger] has_relation(stored, name) == (has_relation(relations, name)
                || name == relation.name) by {
                if has_relation(relations, name) {
                    let i = choose|i: int| 0 <= i < relations.len() && #[trigger] relations[i].name == name;
                    assert(stored[i].name == name);
                }
                if name == relation.name {
                    assert(stored[relations.len() as int].name == name);
                }
                if has_relation(stored, name) {
                    let i = choose|i: int| 0 <= i < stored.len() && #[trigger] stored[i].name == name;
                    if i < relations.len() {
                        assert(relations[i].name == name);
                    }
                }
            }
        },
    }
}

/// The relations of the tables: one per table name, each a table.
proof fn lemma_table_relations(tables: Seq<RawCodexTable>, enums: Seq<Seq<char>>)
    ensures
        distinct_relation_names(table_relations(tables, enums)),
        forall|name: Seq<char>|
            #[trigger] has_relation(table_relations(tables, enums), name) == declares_table(tables, name),
        forall|i: int|
            0 <= i < table_relations(tables, enums).len() ==> (#[trigger] table_relations(tables, enums)[i]).kind
                == CodexKind::Table,
    decreases tables.len(),
{
    if tables.len() > 0 {
        let front = tables.drop_last();
        lemma_table_relations(front, enums);
        lemma_with_relation(table_relations(front, enums), table_relation(tables.last(), enums));
        assert forall|name: Seq<char>| declares_table(tables, name) == (declares_table(front, name)
            || name == tables.last().name@) by {
            if declares_table(front, name) {
                let i = choose|i: int| 0 <= i < front.len() && #[trigger] front[i].name@ == name;
                assert(tables[i].name@ == name);
            }
            if name == tables.last().name@ {
                assert(tables[tables.len() - 1].name@ == name);
            }
            if declares_table(tables, name) {
                let i = choose|i: int| 0 <= i < tables.len() && #[trigger] tables[i].name@ == name;
                if i < front.len() {
                    assert(front[i].name@ == name);
                }
            }
        }
        assert forall|name: Seq<char>| #[trigger] has_relation(table_relations(tables, enums), name)
            == declares_table(tables, name) by {
            assert(has_relation(table_relations(tables, enums), name) == (has_relation(
                table_relations(front, enums),
                name,
            ) || name == table_relation(tables.last(), enums).name));
        }
    }
}

/// Storing the views after `base`: one relation per name, the names of the
/// base and of the views; every relation named by a view is a view, and
/// every other relation is the base's.
proof fn lemma_view_relations(base: Seq<RelationView>, views: Seq<RawCodexView>)
    requires
        distinct_relation_names(base),
    ensures
        distinct_relation_names(view_relations(base, views)),
        forall|name: Seq<char>|
            #[trigger] has_relation(view_relations(base, views), name) == (has_relation(base, name)
                || declares_view(views, name)),
        forall|i: int|
            0 <= i < view_relations(base, views).len() && declares_view(views, view_relations(base, views)[i].name)
                ==> (#[trigger] view_relations(base, views)[i]).kind == CodexKind::View,
        forall|i: int|
            0 <= i < view_relations(base, views).len() && !declares_view(views, view_relations(base, views)[i].name)
                ==> i < base.len() && #[trigger] view_relations(base, views)[i] == base[i],
    decreases views.len(),
{
    if views.len() > 0 {
        let front = views.drop_last();
        let view = views.last();
        let earlier = view_relations(base, front);
        let relation = RelationView { name: view.name@, kind: CodexKind::View, columns: view_columns(view, earlier) };
        lemma_view_relations(base, front);
        lemma_with_relation(earlier, relation);
        let stored = view_relations(base, views);
        assert(stored == with_relation(earlier, relation));
        assert forall|name: Seq<char>| declares_view(views, name) == (declares_view(front, name) || name
            == view.name@) by {
            if declares_view(front, name) {
                let i = choose|i: int| 0 <= i < front.len() && #[trigger] front[i].name@ == name;
                assert(views[i].name@ == name);
            }
            if name == view.name@ {
                assert(views[views.len() - 1].name@ == name);
            }
            if declares_view(views, name) {
                let i = choose|i: int| 0 <= i < views.len() && #[trigger] views[i].name@ == name;
                if i < front.len() {
                    assert(front[i].name@ == name);
                }
            }
        }
        assert forall|name: Seq<char>| #[trigger] has_relation(stored, name) == (has_relation(base, name)
            || declares_view(views, name)) by {
            assert(has_relation(stored, name) == (has_relation(earlier, name) || name == relation.name));
        }
        assert forall|i: int|
            0 <= i < stored.len() && declares_view(views, stored[i].name) implies (#[trigger] stored[i]).kind
            == CodexKind::View by {
            if stored[i] != relation {
                assert(i < earlier.len() && stored[i] == earlier[i]);
            }
        }
        assert forall|i: int| 0 <= i < stored.len() && !declares_view(views, stored[i].name) implies i < base.len()
            && #[trigger] stored[i] == base[i] by {
            if stored[i] == relation {
                assert(declares_view(views, relation.name));
            }
            assert(i < earlier.len() && stored[i] == earlier[i]);
        }
    }
}

/// The relations of a catalog are named exactly by its tables and views, each
/// name once; a name a view declares is a view, and a name only tables declare
/// is the table relation stored for it.
pub proof fn lemma_catalog_relation_names(tables: Seq<RawCodexTable>, views: Seq<RawCodexView>, enums: Seq<Seq<char>>)
    ensures
        distinct_relation_names(catalog_relations(tables, views, enums)),
        forall|name: Seq<char>|
            #[trigger] has_relation(catalog_relations(tables, views, enums), name) == (declares_table(tables, name)
                || declares_view(views, name)),
        forall|i: int|
            0 <= i < catalog_relations(tables, views, enums).len() && declares_view(
                views,
                catalog_relations(tables, views, enums)[i].name,
            ) ==> (#[trigger] catalog_relations(tables, views, enums)[i]).kind == CodexKind::View,
        forall|i: int|
            0 <= i < catalog_relations(tables, views, enums).len() && !declares_view(
                views,
                catalog_relations(tables, views, enums)[i].name,
            ) ==> (#[trigger] catalog_relations(tables, views, enums)[i]).kind == CodexKind::Table
                && catalog_relations(tables, views, enums)[i] == table_relations(tables, enums)[i],
{
    lemma_table_relations(tables, enums);
    lemma_view_relations(table_relations(tables, enums), views);
    assert forall|name: Seq<char>| #[trigger] has_relation(catalog_relations(tables, views, enums), name) == (
    declares_table(tables, name) || declares_view(views, name)) by {
        assert(has_relation(table_relations(tables, enums), name) == declares_table(tables, name));
    }
}

/// Every relation of the catalog: the tables, then the views in declaration order.
pub open spec fn catalog_relations(
    tables: Seq<RawCodexTable>,
    views: Seq<RawCodexView>,
    enums: Seq<Seq<char>>,
) -> Seq<RelationView> {
    view_relations(table_relations(tables, enums), views)
}

// ── aggregates ─────────────────────────────────────────────────────────────

/// The id column a table contributes: its single `x_role: Id` column, else empty.
pub open spec fn id_column_or_empty(table: RawCodexTable) -> Seq<char> {
    match single_id_column(table.columns@) {
        Some(name) => name,
        None => Seq::empty(),
    }
}

/// The root an aggregate table declares.
pub open spec fn root_of(table: RawCodexTable) -> RootView {
    RootView { relation: table.name@, id_column: id_column_or_empty(table) }
}

/// Aggregate name to root, for the tables with `x_aggregate:` in order, a
/// later table of the same aggregate replacing the root of an earlier one.
pub open spec fn aggregate_roots(tables: Seq<RawCodexTable>) -> Seq<(String, RootView)>
    decreases tables.len(),
{
    if tables.len() == 0 {
        Seq::empty()
    } else {
        let earlier = aggregate_roots(tables.drop_last());
        let table = tables.last();
        match table.x_aggregate {
            Some(declared) => put_value(earlier, declared.name, root_of(table)),
            None => earlier,
        }
    }
}

/// The entity a table declares for the aggregate `aggregate`, if any.
pub open spec fn entity_of(table: RawCodexTable, aggregate: Seq<char>) -> Option<EntityView> {
    match table.x_entity {
        Some(declared) => if declared.aggregate@ == aggregate {
            Some(
                EntityView {
                    name: declared.name@,
                    display_name: match declared.display_name {
                        Some(display) => display@,
                        None => declared.name@,
                    },
                    relation: table.name@,
                    reference_column: id_column_or_empty(table),
                },
            )
        } else {
            None
        },
        None => None,
    }
}

/// The sink a table declares for the aggregate `aggregate`, if any.
pub open spec fn sink_of(table: RawCodexTable, aggregate: Seq<char>) -> Option<SinkView> {
    match table.x_sink {
        Some(declared) => if declared.aggregate@ == aggregate {
            Some(SinkView { relation: table.name@, entity: text_of(declared.entity) })
        } else {
            None
        },
        None => None,
    }
}

/// The root surface a view declares for `aggregate`, if its shape resolves.
pub open spec fn root_surface_of(view: RawCodexView, aggregate: Seq<char>) -> Seq<SurfaceView> {
    match view.x_aggregate {
        Some(declared) => if declared.name@ == aggregate {
            match shape_of(view.name@, declared.list, declared.detail) {
                Ok(shape) => seq![SurfaceView { view: view.name@, entity: None, shape }],
                Err(_) => Seq::empty(),
            }
        } else {
            Seq::empty()
        },
        None => Seq::empty(),
    }
}

/// The entity surface a view declares for `aggregate`, if its shape resolves.
pub open spec fn entity_surface_of(view: RawCodexView, aggregate: Seq<char>) -> Seq<SurfaceView> {
    match view.x_entity {
        Some(declared) => if declared.aggregate@ == aggregate {
            match shape_of(view.name@, declared.list, declared.detail) {
                Ok(shape) => seq![SurfaceView { view: view.name@, entity: Some(declared.name@), shape }],
                Err(_) => Seq::empty(),
            }
        } else {
            Seq::empty()
        },
        None => Seq::empty(),
    }
}

/// The surfaces of `aggregate` over the views in order: per view, its root
/// surface and then its entity surface.
pub open spec fn surfaces_of(views: Seq<RawCodexView>, aggregate: Seq<char>) -> Seq<SurfaceView>
    decreases views.len(),
{
    if views.len() == 0 {
        Seq::empty()
    } else {
        surfaces_of(views.drop_last(), aggregate) + root_surface_of(views.last(), aggregate)
            + entity_surface_of(views.last(), aggregate)
    }
}

/// `entity_of` for the aggregate `aggregate`, as a function value.
pub open spec fn entity_builder(aggregate: Seq<char>) -> spec_fn(RawCodexTable) -> Option<EntityView> {
    |table: RawCodexTable| entity_of(table, aggregate)
}

/// `sink_of` for the aggregate `aggregate`, as a function value.
pub open spec fn sink_builder(aggregate: Seq<char>) -> spec_fn(RawCodexTable) -> Option<SinkView> {
    |table: RawCodexTable| sink_of(table, aggregate)
}

/// Everything the catalog records for the aggregate `name` with `root`.
pub open spec fn aggregate_for(
    name: Seq<char>,
    root: RootView,
    tables: Seq<RawCodexTable>,
    views: Seq<RawCodexView>,
) -> AggregateView {
    AggregateView {
        name,
        root,
        entities: tables.filter_map(entity_builder(name)),
        sinks: tables.filter_map(sink_builder(name)),
        surfaces: surfaces_of(views, name),
    }
}

/// The catalog's aggregates: one per aggregate name, in order of first declaration.
pub open spec fn catalog_aggregates(tables: Seq<RawCodexTable>, views: Seq<RawCodexView>) -> Seq<
    AggregateView,
> {
    aggregate_roots(tables).map_values(aggregate_builder(tables, views))
}

/// `aggregate_for` over a root entry, as a function value.
pub open spec fn aggregate_builder(tables: Seq<RawCodexTable>, views: Seq<RawCodexView>) -> spec_fn(
    (String, RootView),
) -> AggregateView {
    |entry: (String, RootView)| aggregate_for(entry.0@, entry.1, tables, views)
}

/// The views of a list of aggregates.
pub open spec fn aggregate_views(aggregates: Seq<CodexAggregate>) -> Seq<AggregateView> {
    aggregates.map_values(|aggregate: CodexAggregate| aggregate@)
}

// ── partial expansion ──────────────────────────────────────────────────────

/// The message of a table whose partials do not expand, if they do not.
pub open spec fn table_partials_failure(
    table: RawCodexTable,
    partials: Seq<(String, RawCodexPartial)>,
) -> Option<Seq<char>> {
    match expanded_columns(table.name@, table.columns@, table.x_partials@, partials) {
        Ok(_) => None,
        Err(message) => Some(message),
    }
}

/// "The table's partials do not expand", as a function value.
pub open spec fn table_fails(partials: Seq<(String, RawCodexPartial)>) -> spec_fn(RawCodexTable) -> bool {
    |table: RawCodexTable| table_partials_failure(table, partials) is Some
}

/// "The view's partials do not expand", as a function value.
pub open spec fn view_fails(partials: Seq<(String, RawCodexPartial)>) -> spec_fn(RawCodexView) -> bool {
    |view: RawCodexView| select_failure(view.name@, view.x_partials@, partials) is Some
}

/// The message of the first table, and then of the first view, whose
/// partials do not expand.
pub open spec fn partials_failure(
    tables: Seq<RawCodexTable>,
    views: Seq<RawCodexView>,
    partials: Seq<(String, RawCodexPartial)>,
) -> Option<Seq<char>> {
    match first_match(tables, table_fails(partials)) {
        Some(index) => table_partials_failure(tables[index], partials),
        None => match first_match(views, view_fails(partials)) {
            Some(index) => select_failure(views[index].name@, views[index].x_partials@, partials),
            None => None,
        },
    }
}

/// A table after its partials are expanded: the same table with the merged
/// columns and no references left.
pub open spec fn table_expanded(
    after: RawCodexTable,
    before: RawCodexTable,
    partials: Seq<(String, RawCodexPartial)>,
) -> bool {
    &&& after.name == before.name
    &&& after.primary_key == before.primary_key
    &&& after.x_aggregate == before.x_aggregate
    &&& after.x_entity == before.x_entity
    &&& after.x_sink == before.x_sink
    &&& after.x_partials@.len() == 0
    &&& expanded_columns(before.name@, before.columns@, before.x_partials@, partials) == Ok::<
        Seq<(String, crate::dtos::column::RawCodexColumnDefinition)>,
        Seq<char>,
    >(after.columns@)
}

/// A view after its partials are expanded.
pub open spec fn view_expanded(
    after: RawCodexView,
    before: RawCodexView,
    partials: Seq<(String, RawCodexPartial)>,
) -> bool {
    &&& after.name == before.name
    &&& after.x_aggregate == before.x_aggregate
    &&& after.x_entity == before.x_entity
    &&& after.from == before.from
    &&& after.join == before.join
    &&& after.x_partials@.len() == 0
    &&& select_expansion(after.select@, before.select@, before.x_partials@, partials)
}

// ── the passes ─────────────────────────────────────────────────────────────

impl RawCodexDocument {
    /// Resolve every `x_partials:` reference on tables and views.
    /// Consumes `self.x_partials` and leaves each table/view fully expanded.
    pub fn expand_partials(&mut self) -> (outcome: Result<(), LaxError>)
        ensures
            final(self).x_partials@.len() == 0,
            final(self).types == old(self).types,
            final(self).tables@.len() == old(self).tables@.len(),
            final(self).views@.len() == old(self).views@.len(),
            match partials_failure(old(self).tables@, old(self).views@, old(self).x_partials@) {
                Some(message) => outcome matches Err(error) && error@ == LaxErrorView::Partials(message),
                None => {
                    &&& outcome is Ok
                    &&& forall|i: int|
                        0 <= i < old(self).tables@.len() ==> table_expanded(
                            #[trigger] final(self).tables@[i],
                            old(self).tables@[i],
                            old(self).x_partials@,
                        )
                    &&& forall|i: int|
                        0 <= i < old(self).views@.len() ==> view_expanded(
                            #[trigger] final(self).views@[i],
                            old(self).views@[i],
                            old(self).x_partials@,
                        )
                },
            },
    {
        let mut partials: Vec<(String, RawCodexPartial)> = Vec::new();
        std::mem::swap(&mut partials, &mut self.x_partials);
        let ghost tables_before = self.tables@;
        let ghost views_before = self.views@;
        let ghost table_wanted = table_fails(partials@);
        let ghost view_wanted = view_fails(partials@);
        let mut index: usize = 0;
        while index < self.tables.len()
            invariant
                0 <= index <= self.tables.len(),
                partials@ == old(self).x_partials@,
                tables_before == old(self).tables@,
                views_before == old(self).views@,
                self.views@ == views_before,
                self.types == old(self).types,
                self.x_partials@.len() == 0,
                self.tables@.len() == tables_before.len(),
                table_wanted == table_fails(partials@),
                forall|i: int| 0 <= i < index ==> !table_wanted(#[trigger] tables_before[i]),
                forall|i: int|
                    0 <= i < index ==> table_expanded(#[trigger] self.tables@[i], tables_before[i], partials@),
                forall|i: int| index <= i < self.tables@.len() ==> #[trigger] self.tables@[i] == tables_before[i],
            decreases self.tables.len() - index,
        {
            let outcome = self.tables[index].expand_partials(&partials);
            match outcome {
                Ok(()) => {},
                Err(error) => {
                    proof {
                        lemma_first_match_is(tables_before, table_wanted, index as int);
                    }
                    return Err(error);
                },
            }
            index = index + 1;
        }
        proof {
            lemma_first_match_none(tables_before, table_wanted);
        }
        let mut index: usize = 0;
        while index < self.views.len()
            invariant
                0 <= index <= self.views.len(),
                partials@ == old(self).x_partials@,
                tables_before == old(self).tables@,
                views_before == old(self).views@,
                self.types == old(self).types,
                self.x_partials@.len() == 0,
                self.tables@.len() == tables_before.len(),
                self.views@.len() == views_before.len(),
                first_match(tables_before, table_fails(partials@)) is None,
                view_wanted == view_fails(partials@),
                forall|i: int|
                    0 <= i < self.tables@.len() ==> table_expanded(
                        #[trigger] self.tables@[i],
                        tables_before[i],
                        partials@,
                    ),
                forall|i: int| 0 <= i < index ==> !view_wanted(#[trigger] views_before[i]),
                forall|i: int|
                    0 <= i < index ==> view_expanded(#[trigger] self.views@[i], views_before[i], partials@),
                forall|i: int| index <= i < self.views@.len() ==> #[trigger] self.views@[i] == views_before[i],
            decreases self.views.len() - index,
        {
            let outcome = self.views[index].expand_partials(&partials);
            match outcome {
                Ok(()) => {},
                Err(error) => {
                    proof {
                        lemma_first_match_is(views_before, view_wanted, index as int);
                    }
                    return Err(error);
                },
            }
            index = index + 1;
        }
        proof {
            lemma_first_match_none(views_before, view_wanted);
        }
        Ok(())
    }

    /// Extract declared enum types as a `name -> values` map.
    pub fn enum_types(&self) -> (entries: Vec<(String, Vec<String>)>)
        ensures
            map_entries(entries@, strings_view()) == enum_entries(self.types@),
    {
        let mut entries: Vec<(String, Vec<String>)> = Vec::new();
        let mut index: usize = 0;
        while index < self.types.len()
            invariant
                0 <= index <= self.types.len(),
                map_entries(entries@, strings_view()) == enum_entries(self.types@.take(index as int)),
            decreases self.types.len() - index,
        {
            proof {
                let longer = self.types@.take(index + 1);
                assert(longer.drop_last() =~= self.types@.take(index as int));
                assert(longer.last() == self.types@[index as int]);
            }
            if let Some(definition) = self.types[index].as_enum() {
                let values = copy_strings(&definition.values);
                let name = definition.name.clone();
                proof {
                    lemma_put_value_map(entries@, strings_view(), name, values);
                }
                store_value(&mut entries, name, values);
            }
            index = index + 1;
        }
        proof {
            lemma_take_all(self.types@);
        }
        entries
    }

    /// The declared enum names, in order — used by columns to resolve `type: <enum>`.
    pub fn enum_names(&self) -> (names: Vec<String>)
        ensures
            names@ == enum_names_of(self.types@),
    {
        let mut names: Vec<String> = Vec::new();
        let mut index: usize = 0;
        while index < self.types.len()
            invariant
                0 <= index <= self.types.len(),
                names@ == self.types@.take(index as int).filter_map(enum_name_builder()),
            decreases self.types.len() - index,
        {
            proof {
                lemma_filter_map_take_step(self.types@, enum_name_builder(), index as int);
            }
            if let Some(definition) = self.types[index].as_enum() {
                names.push(definition.name.clone());
                proof {
                    assert(names@ =~= self.types@.take(index as int).filter_map(enum_name_builder()) + seq![
                        definition.name,
                    ]);
                }
            }
            index = index + 1;
        }
        proof {
            lemma_take_all(self.types@);
        }
        names
    }

    /// Produce the normalized catalog — relations + aggregates + enum types.
    /// Assumes `expand_partials()` has already run.
    pub fn into_catalog(self) -> (catalog: RawCodexCatalog)
        ensures
            relation_views(catalog.relations@) == catalog_relations(
                self.tables@,
                self.views@,
                texts(enum_names_of(self.types@)),
            ),
            aggregate_views(catalog.aggregates@) == catalog_aggregates(self.tables@, self.views@),
            map_entries(catalog.enum_types@, strings_view()) == enum_entries(self.types@),
            catalog.well_formed(),
            forall|name: Seq<char>|
                #[trigger] has_relation(relation_views(catalog.relations@), name) == (declares_table(
                    self.tables@,
                    name,
                ) || declares_view(self.views@, name)),
            forall|i: int|
                0 <= i < catalog.relations@.len() && declares_view(self.views@, catalog.relations@[i].name@)
                    ==> (#[trigger] catalog.relations@[i]).kind == CodexKind::View,
            forall|i: int|
                0 <= i < catalog.relations@.len() && !declares_view(self.views@, catalog.relations@[i].name@)
                    ==> (#[trigger] catalog.relations@[i]).kind == CodexKind::Table && catalog.relations@[i]@
                    == table_relations(self.tables@, texts(enum_names_of(self.types@)))[i],
    {
        let enum_types = self.enum_types();
        let enum_names = self.enum_names();
        let ghost enums = texts(enum_names@);
        let mut relations: Vec<CodexRelation> = Vec::new();
        let mut index: usize = 0;
        while index < self.tables.len()
            invariant
                0 <= index <= self.tables.len(),
                enums == texts(enum_names@),
                relation_views(relations@) == table_relations(self.tables@.take(index as int), enums),
            decreases self.tables.len() - index,
        {
            proof {
                let longer = self.tables@.take(index + 1);
                assert(longer.drop_last() =~= self.tables@.take(index as int));
                assert(longer.last() == self.tables@[index as int]);
            }
            let relation = self.tables[index].into_relation(&enum_names);
            store_relation(&mut relations, relation);
            index = index + 1;
        }
        proof {
            lemma_take_all(self.tables@);
        }
        let ghost base = relation_views(relations@);
        // Views are compiled in declaration order: each inherits column types
        // from the relations already stored through its `from:`/`join:` aliases.
        let mut index: usize = 0;
        while index < self.views.len()
            invariant
                0 <= index <= self.views.len(),
                relation_views(relations@) == view_relations(base, self.views@.take(index as int)),
            decreases self.views.len() - index,
        {
            proof {
                let longer = self.views@.take(index + 1);
                assert(longer.drop_last() =~= self.views@.take(index as int));
                assert(longer.last() == self.views@[index as int]);
            }
            let relation = self.views[index].into_relation(&relations);
            store_relation(&mut relations, relation);
            index = index + 1;
        }
        proof {
            lemma_take_all(self.views@);
        }
        let aggregates = self.build_aggregates();
        proof {
            lemma_catalog_relation_names(self.tables@, self.views@, enums);
            lemma_enum_entries_distinct(self.types@);
            let views = relation_views(relations@);
            assert forall|i: int| 0 <= i < relations@.len() implies views[i] == (#[trigger] relations@[i])@ by {}
            let mapped = map_entries(enum_types@, strings_view());
            assert forall|a: int, b: int| 0 <= a < b < enum_types@.len() implies enum_types@[a].0@
                != enum_types@[b].0@ by {
                assert(mapped[a].0 == enum_types@[a].0 && mapped[b].0 == enum_types@[b].0);
            }
        }
        RawCodexCatalog { relations, aggregates, enum_types }
    }

    fn build_aggregates(&self) -> (aggregates: Vec<CodexAggregate>)
        ensures
            aggregate_views(aggregates@) == catalog_aggregates(self.tables@, self.views@),
    {
        let mut roots: Vec<(String, CodexRoot)> = Vec::new();
        let mut index: usize = 0;
        while index < self.tables.len()
            invariant
                0 <= index <= self.tables.len(),
                map_entries(roots@, root_view()) == aggregate_roots(self.tables@.take(index as int)),
            decreases self.tables.len() - index,
        {
            proof {
                let longer = self.tables@.take(index + 1);
                assert(longer.drop_last() =~= self.tables@.take(index as int));
                assert(longer.last() == self.tables@[index as int]);
            }
            let table = &self.tables[index];
            if let Some(x_aggregate) = &table.x_aggregate {
                let root = CodexRoot { relation: table.name.clone(), id_column: id_column_or_default(table) };
                let name = x_aggregate.name.clone();
                proof {
                    lemma_put_value_map(roots@, root_view(), name, root);
                }
                store_value(&mut roots, name, root);
            }
            index = index + 1;
        }
        proof {
            lemma_take_all(self.tables@);
        }
        let ghost root_entries = aggregate_roots(self.tables@);
        let ghost build = aggregate_builder(self.tables@, self.views@);
        let total = roots.len();
        let mut aggregates: Vec<CodexAggregate> = Vec::new();
        let mut pending = roots;
        let ghost all = pending@;
        while pending.len() > 0
            invariant
                map_entries(all, root_view()) == root_entries,
                root_entries == aggregate_roots(self.tables@),
                build == aggregate_builder(self.tables@, self.views@),
                all.len() == total,
                aggregates@.len() + pending@.len() == total,
                pending@ == all.skip(aggregates@.len() as int),
                aggregate_views(aggregates@) == root_entries.take(aggregates@.len() as int).map_values(build),
            decreases pending.len(),
        {
            let (name, root) = pending.remove(0);
            let ghost done = aggregates@.len();
            proof {
                assert(all[done as int] == (name, root));
                assert(root_entries[done as int] == (name, root@));
            }
            let entities = entities_for(&self.tables, name.as_str());
            let sinks = sinks_for(&self.tables, name.as_str());
            let surfaces = surfaces_for(&self.views, name.as_str());
            let aggregate = CodexAggregate { name, root, entities, sinks, surfaces };
            proof {
                assert(aggregate@ == build(root_entries[done as int]));
            }
            let ghost before = aggregate_views(aggregates@);
            aggregates.push(aggregate);
            proof {
                assert(aggregate_views(aggregates@) =~= before.push(aggregate@));
                assert(root_entries.take(aggregates@.len() as int) =~= root_entries.take(done as int).push(
                    root_entries[done as int],
                ));
                assert(pending@ =~= all.skip(aggregates@.len() as int));
                assert(aggregate_views(aggregates@) =~= root_entries.take(aggregates@.len() as int).map_values(
                    build,
                ));
            }
        }
        proof {
            assert(root_entries.take(total as int) =~= root_entries);
        }
        aggregates
    }
}

/// Reads a root as its view.
pub open spec fn root_view() -> spec_fn(CodexRoot) -> RootView {
    |root: CodexRoot| root@
}

/// The table's single `x_role: Id` column, or an empty name.
fn id_column_or_default(table: &RawCodexTable) -> (name: String)
    ensures
        name@ == id_column_or_empty(*table),
{
    match table.id_column() {
        Some(name) => name,
        None => String::new(),
    }
}

/// Store `relation` by name: it replaces the first relation of that name, or is appended.
fn store_relation(relations: &mut Vec<CodexRelation>, relation: CodexRelation)
    ensures
        relation_views(final(relations)@) == with_relation(relation_views(old(relations)@), relation@),
{
    let ghost views = relation_views(relations@);
    let mut index: usize = 0;
    while index < relations.len()
        invariant
            0 <= index <= relations.len(),
            relations@ == old(relations)@,
            views == relation_views(relations@),
            forall|j: int| 0 <= j < index ==> #[trigger] views[j].name != relation.name@,
        decreases relations.len() - index,
    {
        if str_equal(relations[index].name.as_str(), relation.name.as_str()) {
            proof {
                lemma_relation_position(views, relation.name@);
                let found = relation_position(views, relation.name@);
                if found != Some(index as int) {
                    assert(views[index as int].name == relation.name@);
                }
            }
            relations.set(index, relation);
            proof {
                assert(relation_views(relations@) =~= views.update(index as int, relation@));
            }
            return;
        }
        index = index + 1;
    }
    proof {
        lemma_relation_position(views, relation.name@);
    }
    relations.push(relation);
    proof {
        assert(relation_views(relations@) =~= views.push(relation@));
    }
}

/// The entities the tables declare for the aggregate `aggregate`, in order.
fn entities_for(tables: &Vec<RawCodexTable>, aggregate: &str) -> (entities: Vec<CodexEntity>)
    ensures
        entities@.map_values(|entity: CodexEntity| entity@) == tables@.filter_map(entity_builder(aggregate@)),
{
    let ghost build = entity_builder(aggregate@);
    let mut entities: Vec<CodexEntity> = Vec::new();
    let mut index: usize = 0;
    while index < tables.len()
        invariant
            0 <= index <= tables.len(),
            build == entity_builder(aggregate@),
            entities@.map_values(|entity: CodexEntity| entity@) == tables@.take(index as int).filter_map(build),
        decreases tables.len() - index,
    {
        proof {
            lemma_filter_map_take_step(tables@, build, index as int);
        }
        let table = &tables[index];
        if let Some(x_entity) = &table.x_entity {
            if str_equal(x_entity.aggregate.as_str(), aggregate) {
                let display_name = match &x_entity.display_name {
                    Some(display) => display.clone(),
                    None => x_entity.name.clone(),
                };
                let entity = CodexEntity {
                    name: x_entity.name.clone(),
                    display_name,
                    relation: table.name.clone(),
                    reference_column: id_column_or_default(table),
                };
                let ghost before = entities@;
                entities.push(entity);
                proof {
                    assert(entities@.map_values(|entity: CodexEntity| entity@) =~= before.map_values(
                        |entity: CodexEntity| entity@,
                    ) + seq![entity@]);
                }
            }
        }
        index = index + 1;
    }
    proof {
        lemma_take_all(tables@);
    }
    entities
}

/// The sinks the tables declare for the aggregate `aggregate`, in order.
fn sinks_for(tables: &Vec<RawCodexTable>, aggregate: &str) -> (sinks: Vec<CodexSink>)
    ensures
        sinks@.map_values(|sink: CodexSink| sink@) == tables@.filter_map(sink_builder(aggregate@)),
{
    let ghost build = sink_builder(aggregate@);
    let mut sinks: Vec<CodexSink> = Vec::new();
    let mut index: usize = 0;
    while index < tables.len()
        invariant
            0 <= index <= tables.len(),
            build == sink_builder(aggregate@),
            sinks@.map_values(|sink: CodexSink| sink@) == tables@.take(index as int).filter_map(build),
        decreases tables.len() - index,
    {
        proof {
            lemma_filter_map_take_step(tables@, build, index as int);
        }
        let table = &tables[index];
        if let Some(x_sink) = &table.x_sink {
            if str_equal(x_sink.aggregate.as_str(), aggregate) {
                let entity = match &x_sink.entity {
                    Some(entity) => Some(entity.clone()),
                    None => None,
                };
                let sink = CodexSink { relation: table.name.clone(), entity };
                let ghost before = sinks@;
                sinks.push(sink);
                proof {
                    assert(sinks@.map_values(|sink: CodexSink| sink@) =~= before.map_values(
                        |sink: CodexSink| sink@,
                    ) + seq![sink@]);
                }
            }
        }
        index = index + 1;
    }
    proof {
        lemma_take_all(tables@);
    }
    sinks
}

/// The surfaces the views declare for the aggregate `aggregate`, in order.
fn surfaces_for(views: &Vec<RawCodexView>, aggregate: &str) -> (surfaces: Vec<CodexSurface>)
    ensures
        surfaces@.map_values(|surface: CodexSurface| surface@) == surfaces_of(views@, aggregate@),
{
    let mut surfaces: Vec<CodexSurface> = Vec::new();
    let mut index: usize = 0;
    while index < views.len()
        invariant
            0 <= index <= views.len(),
            surfaces@.map_values(|surface: CodexSurface| surface@) == surfaces_of(
                views@.take(index as int),
                aggregate@,
            ),
        decreases views.len() - index,
    {
        proof {
            let longer = views@.take(index + 1);
            assert(longer.drop_last() =~= views@.take(index as int));
            assert(longer.last() == views@[index as int]);
        }
        let view = &views[index];
        let ghost before = surfaces@.map_values(|surface: CodexSurface| surface@);
        if let Some(x_aggregate) = &view.x_aggregate {
            if str_equal(x_aggregate.name.as_str(), aggregate) {
                if let Ok(shape) = x_aggregate.shape(view.name.as_str()) {
                    let surface = CodexSurface { view: view.name.clone(), entity: None, shape };
                    surfaces.push(surface);
                }
            }
        }
        proof {
            assert(surfaces@.map_values(|surface: CodexSurface| surface@) =~= before + root_surface_of(
                *view,
                aggregate@,
            ));
        }
        let ghost middle = surfaces@.map_values(|surface: CodexSurface| surface@);
        if let Some(x_entity) = &view.x_entity {
            if str_equal(x_entity.aggregate.as_str(), aggregate) {
                if let Ok(shape) = x_entity.shape(view.name.as_str()) {
                    let surface = CodexSurface {
                        view: view.name.clone(),
                        entity: Some(x_entity.name.clone()),
                        shape,
                    };
                    surfaces.push(surface);
                }
            }
        }
        proof {
            assert(surfaces@.map_values(|surface: CodexSurface| surface@) =~= middle + entity_surface_of(
                *view,
                aggregate@,
            ));
        }
        index = index + 1;
    }
    proof {
        lemma_take_all(views@);
    }
    surfaces
}

} // verus!
