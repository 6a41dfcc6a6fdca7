//! A `tables:` entry and the facts the catalog reads from it.

use vstd::prelude::*;

use crate::catalog::column::{CodexColumn, CodexRole};
use crate::catalog::relation::{CodexKind, CodexRelation, RelationView};
use crate::dtos::column::{RawCodexColumnDefinition, definition_column};
use crate::dtos::partial::RawCodexPartial;
use crate::error::{CodexError, LaxError, LaxErrorView, texts};
use crate::seqs::{
    lemma_filter_take_step,
    lemma_take_all,
    lookup_value,
    put_value,
    store_value,
    value_at,
};
use crate::text::joined5;

verus! {

/// YAML shape for a `tables:` entry. `columns` keeps the YAML map's entries,
/// one per column name.
#[derive(Debug)]
pub struct RawCodexTable {
    pub name: String,
    pub columns: Vec<(String, RawCodexColumnDefinition)>,
    pub primary_key: Option<RawCodexPrimaryKey>,
    pub x_aggregate: Option<RawCodexTableAggregate>,
    pub x_entity: Option<RawCodexTableEntity>,
    pub x_sink: Option<RawCodexTableSink>,
    pub x_partials: Vec<String>,
}

/// `primary_key:` block — table's SQL primary key declaration.
#[derive(Debug)]
pub struct RawCodexPrimaryKey {
    pub name: Option<String>,
    pub columns: Vec<String>,
}

/// `x_aggregate:` block — marks a table as an aggregate root.
#[derive(Debug)]
pub struct RawCodexTableAggregate {
    pub name: String,
}

/// `x_entity:` block — marks a table as a child entity of an aggregate.
/// `display_name` (YAML `as:`) is the name used in composition response payloads;
/// it falls back to `name` when omitted.
#[derive(Debug)]
pub struct RawCodexTableEntity {
    pub aggregate: String,
    pub name: String,
    pub display_name: Option<String>,
}

/// `x_sink:` block — marks a table as a downstream sink for an aggregate or entity.
#[derive(Debug)]
pub struct RawCodexTableSink {
    pub aggregate: String,
    pub entity: Option<String>,
}

/// The column definitions of a table, in order, that declare `role`.
pub open spec fn with_role(
    columns: Seq<(String, RawCodexColumnDefinition)>,
    role: CodexRole,
) -> Seq<(String, RawCodexColumnDefinition)> {
    columns.filter(|entry: (String, RawCodexColumnDefinition)| entry.1.x_role == Some(role))
}

/// The name of the single column that declares `x_role: Id`; `None` for 0 or more than 1.
pub open spec fn single_id_column(columns: Seq<(String, RawCodexColumnDefinition)>) -> Option<Seq<char>> {
    if with_role(columns, CodexRole::Id).len() == 1 {
        Some(with_role(columns, CodexRole::Id)[0].0@)
    } else {
        None
    }
}

/// The table takes part in the CQRS model (root, entity or sink).
pub open spec fn is_cqrs_table(table: RawCodexTable) -> bool {
    table.x_aggregate is Some || table.x_entity is Some || table.x_sink is Some
}

/// The aggregate a table belongs to as an entity, else as a sink.
pub open spec fn parent_aggregate_of(table: RawCodexTable) -> Option<Seq<char>> {
    match table.x_entity {
        Some(entity) => Some(entity.aggregate@),
        None => match table.x_sink {
            Some(sink) => Some(sink.aggregate@),
            None => None,
        },
    }
}

/// The catalog columns of a table, one per entry, in order.
pub open spec fn table_columns(
    columns: Seq<(String, RawCodexColumnDefinition)>,
    enums: Seq<Seq<char>>,
) -> Seq<CodexColumn> {
    columns.map_values(|entry: (String, RawCodexColumnDefinition)| definition_column(entry.0, entry.1, enums))
}

/// `entries` with every pair of `added`, in order, stored by `put_value`.
pub open spec fn put_all<V>(entries: Seq<(String, V)>, added: Seq<(String, V)>) -> Seq<(String, V)>
    decreases added.len(),
{
    if added.len() == 0 {
        entries
    } else {
        put_value(put_all(entries, added.drop_last()), added.last().0, added.last().1)
    }
}

/// Message when a table names a partial that does not exist.
pub open spec fn unknown_table_partial_message(table: Seq<char>, partial: Seq<char>) -> Seq<char> {
    "table `"@ + table + "`: unknown partial `"@ + partial + "`"@
}

/// Message when a table names a select partial.
pub open spec fn not_columns_partial_message(table: Seq<char>, partial: Seq<char>) -> Seq<char> {
    "table `"@ + table + "`: partial `"@ + partial
        + "` is not a columns partial (tables can only reference x_partial_columns)"@
}

/// The columns after merging the column partials `references` names, in
/// order, into `columns` (a partial's column replaces a table column of the
/// same name), or the message of the first reference that fails.
pub open spec fn expanded_columns(
    table: Seq<char>,
    columns: Seq<(String, RawCodexColumnDefinition)>,
    references: Seq<String>,
    partials: Seq<(String, RawCodexPartial)>,
) -> Result<Seq<(String, RawCodexColumnDefinition)>, Seq<char>>
    decreases references.len(),
{
    if references.len() == 0 {
        Ok(columns)
    } else {
        match expanded_columns(table, columns, references.drop_last(), partials) {
            Err(message) => Err(message),
            Ok(merged) => {
                let name = references.last()@;
                match value_at(partials, name) {
                    None => Err(unknown_table_partial_message(table, name)),
                    Some(RawCodexPartial::Columns(columns_partial)) => Ok(
                        put_all(merged, columns_partial.columns@),
                    ),
                    Some(RawCodexPartial::Select(_)) => Err(not_columns_partial_message(table, name)),
                }
            },
        }
    }
}

impl RawCodexTable {
    /// Resolve `x_partials` by merging each referenced column-partial's columns.
    /// `x_partials` is consumed either way.
    pub fn expand_partials(&mut self, partials: &Vec<(String, RawCodexPartial)>) -> (outcome: Result<
        (),
        LaxError,
    >)
        ensures
            final(self).name == old(self).name,
            final(self).primary_key == old(self).primary_key,
            final(self).x_aggregate == old(self).x_aggregate,
            final(self).x_entity == old(self).x_entity,
            final(self).x_sink == old(self).x_sink,
            final(self).x_partials@.len() == 0,
            match expanded_columns(old(self).name@, old(self).columns@, old(self).x_partials@, partials@) {
                Ok(merged) => outcome is Ok && final(self).columns@ == merged,
                Err(message) => outcome matches Err(error) && error@ == LaxErrorView::Partials(message),
            },
    {
        let mut references: Vec<String> = Vec::new();
        std::mem::swap(&mut references, &mut self.x_partials);
        let ghost original = self.columns@;
        let mut index: usize = 0;
        while index < references.len()
            invariant
                0 <= index <= references.len(),
                self.name == old(self).name,
                self.primary_key == old(self).primary_key,
                self.x_aggregate == old(self).x_aggregate,
                self.x_entity == old(self).x_entity,
                self.x_sink == old(self).x_sink,
                self.x_partials@.len() == 0,
                references@ == old(self).x_partials@,
                original == old(self).columns@,
                expanded_columns(self.name@, original, references@.take(index as int), partials@) == Ok::<
                    Seq<(String, RawCodexColumnDefinition)>,
                    Seq<char>,
                >(self.columns@),
            decreases references.len() - index,
        {
            proof {
                assert(references@.take(index + 1).drop_last() =~= references@.take(index as int));
                assert(references@.take(index + 1).last() == references@[index as int]);
            }
            let name = &references[index];
            match lookup_value(partials, name.as_str()) {
                None => {
                    proof {
                        lemma_prefix_failure(self.name@, original, references@, partials@, index as int);
                    }
                    return Err(
                        CodexError::partials(
                            joined5("table `", self.name.as_str(), "`: unknown partial `", name.as_str(), "`"),
                        ),
                    );
                },
                Some(RawCodexPartial::Select(_)) => {
                    proof {
                        lemma_prefix_failure(self.name@, original, references@, partials@, index as int);
                    }
                    return Err(
                        CodexError::partials(
                            joined5(
                                "table `",
                                self.name.as_str(),
                                "`: partial `",
                                name.as_str(),
                                "` is not a columns partial (tables can only reference x_partial_columns)",
                            ),
                        ),
                    );
                },
                Some(RawCodexPartial::Columns(columns_partial)) => {
                    let ghost start = self.columns@;
                    let mut position: usize = 0;
                    while position < columns_partial.columns.len()
                        invariant
                            0 <= position <= columns_partial.columns.len(),
                            self.columns@ == put_all(start, columns_partial.columns@.take(position as int)),
                            self.name == old(self).name,
                            self.primary_key == old(self).primary_key,
                            self.x_aggregate == old(self).x_aggregate,
                            self.x_entity == old(self).x_entity,
                            self.x_sink == old(self).x_sink,
                            self.x_partials@.len() == 0,
                        decreases columns_partial.columns.len() - position,
                    {
                        proof {
                            let longer = columns_partial.columns@.take(position + 1);
                            assert(longer.drop_last() =~= columns_partial.columns@.take(position as int));
                            assert(longer.last() == columns_partial.columns@[position as int]);
                        }
                        let entry = &columns_partial.columns[position];
                        store_value(&mut self.columns, entry.0.clone(), entry.1.clone());
                        position = position + 1;
                    }
                    proof {
                        lemma_take_all(columns_partial.columns@);
                    }
                },
            }
            index = index + 1;
        }
        proof {
            lemma_take_all(references@);
        }
        Ok(())
    }

    /// The single column with `x_role: Id`, if exactly one exists. `None` means 0 or >1.
    pub fn id_column(&self) -> (name: Option<String>)
        ensures
            match name {
                Some(found) => single_id_column(self.columns@) == Some(found@),
                None => single_id_column(self.columns@) is None,
            },
    {
        let ghost wanted = |entry: (String, RawCodexColumnDefinition)| entry.1.x_role == Some(CodexRole::Id);
        let mut first: Option<usize> = None;
        let mut count: usize = 0;
        let mut index: usize = 0;
        while index < self.columns.len()
            invariant
                0 <= index <= self.columns.len(),
                wanted == (|entry: (String, RawCodexColumnDefinition)| entry.1.x_role == Some(CodexRole::Id)),
                count == self.columns@.take(index as int).filter(wanted).len(),
                count <= index,
                match first {
                    Some(at) => count >= 1 && at < index && self.columns@.take(index as int).filter(wanted)[0]
                        == self.columns@[at as int],
                    None => count == 0,
                },
            decreases self.columns.len() - index,
        {
            proof {
                lemma_filter_take_step(self.columns@, wanted, index as int);
            }
            if self.columns[index].1.x_role == Some(CodexRole::Id) {
                if first.is_none() {
                    first = Some(index);
                }
                count = count + 1;
            }
            index = index + 1;
        }
        proof {
            lemma_take_all(self.columns@);
        }
        if count == 1 {
            match first {
                Some(at) => Some(self.columns[at].0.clone()),
                None => None,
            }
        } else {
            None
        }
    }

    /// Count columns declaring the given role.
    pub fn count_role(&self, role: CodexRole) -> (count: usize)
        ensures
            count == with_role(self.columns@, role).len(),
    {
        let ghost wanted = |entry: (String, RawCodexColumnDefinition)| entry.1.x_role == Some(role);
        let mut count: usize = 0;
        let mut index: usize = 0;
        while index < self.columns.len()
            invariant
                0 <= index <= self.columns.len(),
                wanted == (|entry: (String, RawCodexColumnDefinition)| entry.1.x_role == Some(role)),
                count == self.columns@.take(index as int).filter(wanted).len(),
                count <= index,
            decreases self.columns.len() - index,
        {
            proof {
                lemma_filter_take_step(self.columns@, wanted, index as int);
            }
            if self.columns[index].1.x_role == Some(role) {
                count = count + 1;
            }
            index = index + 1;
        }
        proof {
            lemma_take_all(self.columns@);
        }
        count
    }

    /// Whether this table is part of the CQRS model (root / entity / sink).
    pub fn is_cqrs(&self) -> (cqrs: bool)
        ensures
            cqrs == is_cqrs_table(*self),
    {
        self.x_aggregate.is_some() || self.x_entity.is_some() || self.x_sink.is_some()
    }

    /// Aggregate name this table belongs to as an entity or sink (if any).
    pub fn parent_aggregate(&self) -> (aggregate: Option<&str>)
        ensures
            match aggregate {
                Some(name) => parent_aggregate_of(*self) == Some(name@),
                None => parent_aggregate_of(*self) is None,
            },
    {
        match &self.x_entity {
            Some(entity) => Some(entity.aggregate.as_str()),
            None => match &self.x_sink {
                Some(sink) => Some(sink.aggregate.as_str()),
                None => None,
            },
        }
    }

    /// Produce the runtime `CodexRelation` (Table kind): one column per entry, in order.
    pub fn into_relation(&self, enums: &Vec<String>) -> (relation: CodexRelation)
        ensures
            relation@ == (RelationView {
                name: self.name@,
                kind: CodexKind::Table,
                columns: table_columns(self.columns@, texts(enums@)),
            }),
    {
        let mut columns: Vec<CodexColumn> = Vec::new();
        let mut index: usize = 0;
        while index < self.columns.len()
            invariant
                0 <= index <= self.columns.len(),
                columns@ == table_columns(self.columns@.take(index as int), texts(enums@)),
            decreases self.columns.len() - index,
        {
            let entry = &self.columns[index];
            let column = entry.1.build_column(entry.0.clone(), enums);
            columns.push(column);
            index = index + 1;
            proof {
                assert(columns@ =~= table_columns(self.columns@.take(index as int), texts(enums@)));
            }
        }
        proof {
            lemma_take_all(self.columns@);
        }
        CodexRelation { name: self.name.clone(), kind: CodexKind::Table, columns }
    }
}

/// When the reference at `index` fails, so does the whole list of references.
proof fn lemma_prefix_failure(
    table: Seq<char>,
    columns: Seq<(String, RawCodexColumnDefinition)>,
    references: Seq<String>,
    partials: Seq<(String, RawCodexPartial)>,
    index: int,
)
    requires
        0 <= index < references.len(),
        expanded_columns(table, columns, references.take(index + 1), partials) is Err,
    ensures
        expanded_columns(table, columns, references, partials) == expanded_columns(
            table,
            columns,
            references.take(index + 1),
            partials,
        ),
    decreases references.len() - index,
{
    if index + 1 < references.len() {
        let longer = references.take(index + 2);
        assert(longer.drop_last() =~= references.take(index + 1));
        lemma_prefix_failure(table, columns, references, partials, index + 1);
    } else {
        assert(references.take(index + 1) =~= references);
    }
}

} // verus!
