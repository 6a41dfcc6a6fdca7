//! Named relations (tables and views) and their columns.

use vstd::prelude::*;

use crate::catalog::column::CodexColumn;
use crate::seqs::{
    first_match, lemma_filter_take_step, lemma_first_match_facts, lemma_first_match_is, lemma_first_match_none, lemma_take_all,
};
use crate::text::str_equal;

verus! {

/// Whether this relation is a physical table or a view.
#[derive(Debug, Clone, Copy, PartialEq, Eq, Structural)]
pub enum CodexKind {
    Table,
    View,
}

/// A named relation (table or view) with its columns.
#[derive(Debug)]
pub struct CodexRelation {
    pub name: String,
    pub kind: CodexKind,
    pub columns: Vec<CodexColumn>,
}

/// A relation with its name read as characters.
pub struct RelationView {
    pub name: Seq<char>,
    pub kind: CodexKind,
    pub columns: Seq<CodexColumn>,
}

impl View for CodexRelation {
    type V = RelationView;

    open spec fn view(&self) -> RelationView {
        RelationView { name: self.name@, kind: self.kind, columns: self.columns@ }
    }
}

/// The views of a list of relations.
pub open spec fn relation_views(relations: Seq<CodexRelation>) -> Seq<RelationView> {
    relations.map_values(|relation: CodexRelation| relation@)
}

/// Index of the first relation named `name`.
pub open spec fn relation_position(relations: Seq<RelationView>, name: Seq<char>) -> Option<int> {
    first_match(relations, |relation: RelationView| relation.name == name)
}

/// What `relation_position` returns: the first in-bounds index with that name.
pub proof fn lemma_relation_position(relations: Seq<RelationView>, name: Seq<char>)
    ensures
        match relation_position(relations, name) {
            Some(index) => 0 <= index < relations.len() && relations[index].name == name && forall|j: int|
                0 <= j < index ==> #[trigger] relations[j].name != name,
            None => forall|j: int| 0 <= j < relations.len() ==> #[trigger] relations[j].name != name,
        },
{
    lemma_first_match_facts(relations, |relation: RelationView| relation.name == name);
}

/// The first relation named `name`.
pub fn find_relation<'a>(relations: &'a Vec<CodexRelation>, name: &str) -> (found: Option<
    &'a CodexRelation,
>)
    ensures
        match relation_position(relation_views(relations@), name@) {
            Some(index) => found matches Some(relation) && *relation == relations@[index],
            None => found is None,
        },
{
    let ghost views = relation_views(relations@);
    let ghost wanted = |relation: RelationView| relation.name == name@;
    let mut index: usize = 0;
    while index < relations.len()
        invariant
            0 <= index <= relations.len(),
            views == relation_views(relations@),
            wanted == (|relation: RelationView| relation.name == name@),
            forall|j: int| 0 <= j < index ==> !wanted(#[trigger] views[j]),
        decreases relations.len() - index,
    {
        if str_equal(relations[index].name.as_str(), name) {
            proof {
                lemma_first_match_is(views, wanted, index as int);
            }
            return Some(&relations[index]);
        }
        index = index + 1;
    }
    proof {
        lemma_first_match_none(views, wanted);
    }
    None
}

/// Index of the first column named `name`.
pub open spec fn column_position(columns: Seq<CodexColumn>, name: Seq<char>) -> Option<int> {
    first_match(columns, column_named(name))
}

/// "The column is named `name`."
pub open spec fn column_named(name: Seq<char>) -> spec_fn(CodexColumn) -> bool {
    |column: CodexColumn| column.name@ == name
}

/// The first column of `relation` named `name`.
pub open spec fn column_of(relation: CodexRelation, name: Seq<char>) -> Option<CodexColumn> {
    match column_position(relation.columns@, name) {
        Some(index) => Some(relation.columns@[index]),
        None => None,
    }
}

/// "The column may be filtered on."
pub open spec fn is_filterable() -> spec_fn(CodexColumn) -> bool {
    |column: CodexColumn| column.filterable
}

/// "The column takes part in free-text search."
pub open spec fn is_searchable() -> spec_fn(CodexColumn) -> bool {
    |column: CodexColumn| column.searchable
}

/// "The column is returned only when selected."
pub open spec fn is_selectable() -> spec_fn(CodexColumn) -> bool {
    |column: CodexColumn| column.selectable
}

impl CodexRelation {
    /// The first column named `name`.
    pub fn column(&self, name: &str) -> (found: Option<&CodexColumn>)
        ensures
            match column_position(self.columns@, name@) {
                Some(index) => found matches Some(column) && *column == self.columns@[index],
                None => found is None,
            },
    {
        let ghost wanted = column_named(name@);
        let mut index: usize = 0;
        while index < self.columns.len()
            invariant
                0 <= index <= self.columns.len(),
                wanted == column_named(name@),
                forall|j: int| 0 <= j < index ==> !wanted(#[trigger] self.columns@[j]),
            decreases self.columns.len() - index,
        {
            if str_equal(self.columns[index].name.as_str(), name) {
                proof {
                    lemma_first_match_is(self.columns@, wanted, index as int);
                }
                return Some(&self.columns[index]);
            }
            index = index + 1;
        }
        proof {
            lemma_first_match_none(self.columns@, wanted);
        }
        None
    }

    /// Columns with `filterable` set, in declaration order.
    pub fn filterable(&self) -> (columns: Vec<CodexColumn>)
        ensures
            columns@ == self.columns@.filter(is_filterable()),
    {
        let ghost wanted = is_filterable();
        let mut result: Vec<CodexColumn> = Vec::new();
        let mut index: usize = 0;
        while index < self.columns.len()
            invariant
                0 <= index <= self.columns.len(),
                wanted == is_filterable(),
                result@ == self.columns@.take(index as int).filter(wanted),
            decreases self.columns.len() - index,
        {
            proof {
                lemma_filter_take_step(self.columns@, wanted, index as int);
            }
            if self.columns[index].filterable {
                result.push(self.columns[index].clone());
            }
            index = index + 1;
        }
        proof {
            lemma_take_all(self.columns@);
        }
        result
    }

    /// Columns with `searchable` set, in declaration order.
    pub fn searchable(&self) -> (columns: Vec<CodexColumn>)
        ensures
            columns@ == self.columns@.filter(is_searchable()),
    {
        let ghost wanted = is_searchable();
        let mut result: Vec<CodexColumn> = Vec::new();
        let mut index: usize = 0;
        while index < self.columns.len()
            invariant
                0 <= index <= self.columns.len(),
                wanted == is_searchable(),
                result@ == self.columns@.take(index as int).filter(wanted),
            decreases self.columns.len() - index,
        {
            proof {
                lemma_filter_take_step(self.columns@, wanted, index as int);
            }
            if self.columns[index].searchable {
                result.push(self.columns[index].clone());
            }
            index = index + 1;
        }
        proof {
            lemma_take_all(self.columns@);
        }
        result
    }

    /// Columns with `selectable` set, in declaration order.
    pub fn selectable(&self) -> (columns: Vec<CodexColumn>)
        ensures
            columns@ == self.columns@.filter(is_selectable()),
    {
        let ghost wanted = is_selectable();
        let mut result: Vec<CodexColumn> = Vec::new();
        let mut index: usize = 0;
        while index < self.columns.len()
            invariant
                0 <= index <= self.columns.len(),
                wanted == is_selectable(),
                result@ == self.columns@.take(index as int).filter(wanted),
            decreases self.columns.len() - index,
        {
            proof {
                lemma_filter_take_step(self.columns@, wanted, index as int);
            }
            if self.columns[index].selectable {
                result.push(self.columns[index].clone());
            }
            index = index + 1;
        }
        proof {
            lemma_take_all(self.columns@);
        }
        result
    }
}

} // verus!
