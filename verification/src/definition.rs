//! The compiled catalog as the rest of the system reads it: relations by
//! name, aggregates in declaration order and enum types by name.

use vstd::prelude::*;

use crate::catalog::aggregate::{CodexAggregate, at_position, deref_option};
use crate::catalog::relation::{CodexRelation, find_relation, relation_position, relation_views};
use crate::dtos::document::{RawCodexCatalog, catalog_well_formed};
use crate::seqs::{
    first_match,
    lemma_first_match_is,
    lemma_first_match_none,
    key_position,
    lookup_value,
};
use crate::text::str_equal;

verus! {

/// The loaded catalog: one relation per name and one enum type per name
/// (`well_formed`).
#[derive(Debug)]
pub struct Codex {
    /// Relations, looked up by name.
    pub relations: Vec<CodexRelation>,
    /// Aggregates, in the order the catalog declared them.
    pub aggregates: Vec<CodexAggregate>,
    /// Enum type name to its values, looked up by name.
    pub enum_types: Vec<(String, Vec<String>)>,
}

/// "The aggregate is named `name`."
pub open spec fn aggregate_named(name: Seq<char>) -> spec_fn(CodexAggregate) -> bool {
    |aggregate: CodexAggregate| aggregate.name@ == name
}

/// The relation `name` resolves to.
pub open spec fn relation_of(codex: Codex, name: Seq<char>) -> Option<CodexRelation> {
    at_position(codex.relations@, relation_position(relation_views(codex.relations@), name))
}

/// The aggregate `name` resolves to.
pub open spec fn aggregate_of(codex: Codex, name: Seq<char>) -> Option<CodexAggregate> {
    at_position(codex.aggregates@, first_match(codex.aggregates@, aggregate_named(name)))
}

impl Codex {
    /// One relation per name and one enum type per name.
    pub open spec fn well_formed(&self) -> bool {
        catalog_well_formed(self.relations@, self.enum_types@)
    }

    /// Takes over the relations, aggregates and enum types of a compiled catalog.
    pub fn from_catalog(catalog: RawCodexCatalog) -> (codex: Codex)
        requires
            catalog.well_formed(),
        ensures
            codex.well_formed(),
            codex.relations@ == catalog.relations@,
            codex.aggregates@ == catalog.aggregates@,
            codex.enum_types@ == catalog.enum_types@,
    {
        Codex { relations: catalog.relations, aggregates: catalog.aggregates, enum_types: catalog.enum_types }
    }

    /// The relation named `name`.
    pub fn relation(&self, name: &str) -> (found: Option<&CodexRelation>)
        ensures
            deref_option(found) == relation_of(*self, name@),
    {
        find_relation(&self.relations, name)
    }

    /// The first aggregate named `name`.
    pub fn aggregate(&self, name: &str) -> (found: Option<&CodexAggregate>)
        ensures
            deref_option(found) == aggregate_of(*self, name@),
    {
        let ghost wanted = aggregate_named(name@);
        let mut index: usize = 0;
        while index < self.aggregates.len()
            invariant
                0 <= index <= self.aggregates.len(),
                wanted == aggregate_named(name@),
                forall|j: int| 0 <= j < index ==> !wanted(#[trigger] self.aggregates@[j]),
            decreases self.aggregates.len() - index,
        {
            if str_equal(self.aggregates[index].name.as_str(), name) {
                proof {
                    lemma_first_match_is(self.aggregates@, wanted, index as int);
                }
                return Some(&self.aggregates[index]);
            }
            index = index + 1;
        }
        proof {
            lemma_first_match_none(self.aggregates@, wanted);
        }
        None
    }

    /// Every aggregate, in declaration order.
    pub fn aggregates(&self) -> (all: &Vec<CodexAggregate>)
        ensures
            all@ == self.aggregates@,
    {
        &self.aggregates
    }

    /// The values of the enum type named `name`.
    pub fn enum_type(&self, name: &str) -> (values: Option<&Vec<String>>)
        ensures
            match key_position(self.enum_types@, name@) {
                Some(index) => values matches Some(found) && found@ == self.enum_types@[index].1@,
                None => values is None,
            },
    {
        lookup_value(&self.enum_types, name)
    }
}

} // verus!
