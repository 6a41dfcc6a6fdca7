//! Reusable `x_partials:` entries: column sets for tables, select fragments for views.

use vstd::prelude::*;

use crate::dtos::column::RawCodexColumnDefinition;
use crate::dtos::select::{RawCodexSelectColumn, RawCodexSelectOverrides};
use crate::seqs::text_of;
use crate::text::{owned, str_equal};

verus! {

/// YAML shape for an `x_partials:` entry. Either a reusable column set (for tables)
/// or a reusable select fragment (for views).
#[derive(Debug)]
pub enum RawCodexPartial {
    Columns(RawCodexColumnsPartial),
    Select(RawCodexSelectPartial),
}

#[derive(Debug)]
pub struct RawCodexColumnsPartial {
    pub columns: Vec<(String, RawCodexColumnDefinition)>,
}

#[derive(Debug)]
pub struct RawCodexSelectPartial {
    pub from: Option<String>,
    pub select: Vec<(String, RawCodexSelectPartialItem)>,
}

/// A select-partial entry — leaner than `RawCodexSelectColumn` because the alias is
/// the map key and `from:` is inherited from the partial (optionally overridden
/// at the reference site).
#[derive(Debug)]
pub struct RawCodexSelectPartialItem {
    pub column: Option<String>,
    pub overrides: RawCodexSelectOverrides,
}

/// How a view refers to a partial in its `x_partials:` list.
/// Tables use bare strings (`Vec<String>`); views allow qualified references.
#[derive(Debug)]
pub enum RawCodexPartialReference {
    ByName(String),
    Qualified { partial: String, from: Option<String> },
}

/// The partial a reference names.
pub open spec fn reference_name(reference: RawCodexPartialReference) -> Seq<char> {
    match reference {
        RawCodexPartialReference::ByName(name) => name@,
        RawCodexPartialReference::Qualified { partial, .. } => partial@,
    }
}

/// The `from:` alias a reference imposes on the partial, if any.
pub open spec fn reference_from(reference: RawCodexPartialReference) -> Option<Seq<char>> {
    match reference {
        RawCodexPartialReference::ByName(_) => None,
        RawCodexPartialReference::Qualified { from, .. } => text_of(from),
    }
}

impl RawCodexPartialReference {
    pub fn partial_name(&self) -> (name: &str)
        ensures
            name@ == reference_name(*self),
    {
        match self {
            Self::ByName(name) => name.as_str(),
            Self::Qualified { partial, .. } => partial.as_str(),
        }
    }

    pub fn from_override(&self) -> (from: Option<&str>)
        ensures
            match from {
                Some(alias) => reference_from(*self) == Some(alias@),
                None => reference_from(*self) is None,
            },
    {
        match self {
            Self::ByName(_) => None,
            Self::Qualified { from, .. } => match from {
                Some(alias) => Some(alias.as_str()),
                None => None,
            },
        }
    }
}

/// The select column that the partial entry `(alias, item)` expands to, reading
/// from `from`: the source column is `item.column`, else the alias itself, and
/// the alias is kept only when it differs from the source column.
pub open spec fn expanded_entry(
    entry: (String, RawCodexSelectPartialItem),
    from: Option<Seq<char>>,
    column: RawCodexSelectColumn,
) -> bool {
    let source = match entry.1.column {
        Some(declared) => declared@,
        None => entry.0@,
    };
    &&& column.column@ == source
    &&& text_of(column.from) == from
    &&& text_of(column.alias) == (if source == entry.0@ {
        None
    } else {
        Some(entry.0@)
    })
    &&& column.overrides == entry.1.overrides
}

/// The `from:` a select partial expands with: the reference's override, else its own.
pub open spec fn chosen_from(partial_from: Option<String>, from_override: Option<&str>) -> Option<Seq<char>> {
    match from_override {
        Some(alias) => Some(alias@),
        None => text_of(partial_from),
    }
}

impl RawCodexSelectPartial {
    /// Expand this partial into ready-to-use `RawCodexSelectColumn` entries, one per entry.
    /// `from_override` comes from the qualified reference (if any).
    pub fn expand(&self, from_override: Option<&str>) -> (columns: Vec<RawCodexSelectColumn>)
        ensures
            columns@.len() == self.select@.len(),
            forall|i: int|
                0 <= i < columns@.len() ==> expanded_entry(
                    #[trigger] self.select@[i],
                    chosen_from(self.from, from_override),
                    columns@[i],
                ),
    {
        let ghost from = chosen_from(self.from, from_override);
        let mut columns: Vec<RawCodexSelectColumn> = Vec::new();
        let mut index: usize = 0;
        while index < self.select.len()
            invariant
                0 <= index <= self.select.len(),
                from == chosen_from(self.from, from_override),
                columns@.len() == index,
                forall|i: int|
                    0 <= i < index ==> expanded_entry(#[trigger] self.select@[i], from, columns@[i]),
            decreases self.select.len() - index,
        {
            let alias = &self.select[index].0;
            let item = &self.select[index].1;
            let source_column = match &item.column {
                Some(declared) => declared.clone(),
                None => alias.clone(),
            };
            let alias_output = if str_equal(source_column.as_str(), alias.as_str()) {
                None
            } else {
                Some(alias.clone())
            };
            let from_alias = match from_override {
                Some(alias) => Some(owned(alias)),
                None => match &self.from {
                    Some(declared) => Some(declared.clone()),
                    None => None,
                },
            };
            columns.push(
                RawCodexSelectColumn {
                    column: source_column,
                    from: from_alias,
                    alias: alias_output,
                    overrides: item.overrides,
                },
            );
            index = index + 1;
        }
        columns
    }
}

} // verus!
