//! A view's select items and how each becomes a catalog column.

use vstd::prelude::*;

use crate::catalog::column::{CodexColumn, CodexRole, CodexType};
use crate::catalog::relation::{
    CodexRelation, RelationView, column_position, find_relation, lemma_relation_position,
    relation_position, relation_views,
};
use crate::dtos::column::role_or_data;
use crate::seqs::{key_position, lookup_value};

verus! {

/// YAML shape for a view's select item — one of four shapes.
#[derive(Debug)]
pub enum RawCodexSelectItem {
    JsonAgg(RawCodexSelectJsonAggregate),
    JsonObject(RawCodexSelectJsonObject),
    Column(RawCodexSelectColumn),
    Expression(RawCodexSelectExpression),
}

/// Shared per-item overrides for role and permission flags.
#[derive(Debug, Clone, Copy)]
pub struct RawCodexSelectOverrides {
    pub x_role: Option<CodexRole>,
    pub x_filterable: Option<bool>,
    pub x_searchable: Option<bool>,
    pub x_selectable: Option<bool>,
}

#[derive(Debug)]
pub struct RawCodexSelectColumn {
    pub column: String,
    pub from: Option<String>,
    pub alias: Option<String>,
    pub overrides: RawCodexSelectOverrides,
}

#[derive(Debug)]
pub struct RawCodexSelectExpression {
    pub sql: String,
    pub alias: Option<String>,
    pub overrides: RawCodexSelectOverrides,
}

#[derive(Debug)]
pub struct RawCodexSelectJsonObject {
    pub alias: String,
    pub json_object: serde_json::Value,
    pub overrides: RawCodexSelectOverrides,
}

#[derive(Debug)]
pub struct RawCodexSelectJsonAggregate {
    pub alias: String,
    pub from: String,
    pub json_agg: serde_json::Value,
    pub overrides: RawCodexSelectOverrides,
}

/// A flag's declared value, `default` when none is declared.
pub open spec fn flag_or(flag: Option<bool>, default: bool) -> bool {
    match flag {
        Some(declared) => declared,
        None => default,
    }
}

/// The column `apply` builds: the overrides' role (`Data` by default), and
/// flags as declared, `selectable` defaulting to whether the role is `Data`.
pub open spec fn applied(overrides: RawCodexSelectOverrides, name: String, data_type: CodexType) -> CodexColumn {
    let role = role_or_data(overrides.x_role);
    CodexColumn {
        name,
        data_type,
        role,
        filterable: flag_or(overrides.x_filterable, false),
        searchable: flag_or(overrides.x_searchable, false),
        selectable: flag_or(overrides.x_selectable, role == CodexRole::Data),
    }
}

impl RawCodexSelectOverrides {
    pub fn apply(&self, name: String, data_type: CodexType) -> (column: CodexColumn)
        ensures
            column == applied(*self, name, data_type),
    {
        let role = match self.x_role {
            Some(declared) => declared,
            None => CodexRole::Data,
        };
        let filterable = match self.x_filterable {
            Some(declared) => declared,
            None => false,
        };
        let searchable = match self.x_searchable {
            Some(declared) => declared,
            None => false,
        };
        let selectable = match self.x_selectable {
            Some(declared) => declared,
            None => role.default_selectable(),
        };
        CodexColumn { name, data_type, role, filterable, searchable, selectable }
    }
}

/// The type of `column` in the relation that the view alias `from` reads:
/// `None` when the alias, the relation or the column is not found.
pub open spec fn resolved_type(
    aliases: Seq<(String, String)>,
    relations: Seq<RelationView>,
    from: Seq<char>,
    column: Seq<char>,
) -> Option<CodexType> {
    match key_position(aliases, from) {
        Some(alias_index) => match relation_position(relations, aliases[alias_index].1@) {
            Some(relation_index) => match column_position(relations[relation_index].columns, column) {
                Some(column_index) => Some(relations[relation_index].columns[column_index].data_type),
                None => None,
            },
            None => None,
        },
        None => None,
    }
}

/// The type of `column` read through the view alias `from`.
pub fn resolve_type(
    aliases: &Vec<(String, String)>,
    relations: &Vec<CodexRelation>,
    from: &str,
    column: &str,
) -> (data_type: Option<CodexType>)
    ensures
        data_type == resolved_type(aliases@, relation_views(relations@), from@, column@),
{
    match lookup_value(aliases, from) {
        Some(relation_name) => match find_relation(relations, relation_name.as_str()) {
            Some(relation) => match relation.column(column) {
                Some(found) => {
                    proof {
                        let views = relation_views(relations@);
                        let index = relation_position(views, relation_name@);
                        lemma_relation_position(views, relation_name@);
                        assert(views[index.unwrap()] == relations@[index.unwrap()]@);
                    }
                    Some(found.data_type.clone())
                },
                None => {
                    proof {
                        let views = relation_views(relations@);
                        let index = relation_position(views, relation_name@);
                        lemma_relation_position(views, relation_name@);
                        assert(views[index.unwrap()] == relations@[index.unwrap()]@);
                    }
                    None
                },
            },
            None => None,
        },
        None => None,
    }
}

/// The catalog column a select item becomes, given the view's alias map and
/// the relations compiled so far; `None` for an expression without an alias.
pub open spec fn item_column(
    item: RawCodexSelectItem,
    aliases: Seq<(String, String)>,
    relations: Seq<RelationView>,
) -> Option<CodexColumn> {
    match item {
        RawCodexSelectItem::Column(selected) => {
            let name = match selected.alias {
                Some(alias) => alias,
                None => selected.column,
            };
            let data_type = match selected.from {
                Some(from) => match resolved_type(aliases, relations, from@, selected.column@) {
                    Some(found) => found,
                    None => CodexType::Text,
                },
                None => CodexType::Text,
            };
            Some(applied(selected.overrides, name, data_type))
        },
        RawCodexSelectItem::Expression(expression) => match expression.alias {
            Some(alias) => Some(applied(expression.overrides, alias, CodexType::Text)),
            None => None,
        },
        RawCodexSelectItem::JsonObject(object) => Some(applied(object.overrides, object.alias, CodexType::Json)),
        RawCodexSelectItem::JsonAgg(aggregate) => Some(
            applied(aggregate.overrides, aggregate.alias, CodexType::Json),
        ),
    }
}

/// The overrides that every select item carries.
pub open spec fn overrides_of(item: RawCodexSelectItem) -> RawCodexSelectOverrides {
    match item {
        RawCodexSelectItem::Column(selected) => selected.overrides,
        RawCodexSelectItem::Expression(expression) => expression.overrides,
        RawCodexSelectItem::JsonObject(object) => object.overrides,
        RawCodexSelectItem::JsonAgg(aggregate) => aggregate.overrides,
    }
}

/// The name an error message gives a select item, if it has one.
pub open spec fn item_display_name(item: RawCodexSelectItem) -> Option<Seq<char>> {
    match item {
        RawCodexSelectItem::Column(selected) => match selected.alias {
            Some(alias) => Some(alias@),
            None => Some(selected.column@),
        },
        RawCodexSelectItem::Expression(expression) => match expression.alias {
            Some(alias) => Some(alias@),
            None => None,
        },
        RawCodexSelectItem::JsonObject(object) => Some(object.alias@),
        RawCodexSelectItem::JsonAgg(aggregate) => Some(aggregate.alias@),
    }
}

/// A select item compiles to a catalog column named as readers name it: a
/// `Column` item by its alias when it declares one, and by its source column
/// only when it does not; an expression by its alias (and to no column
/// without one); a JSON shape by its alias.
pub proof fn lemma_select_column_name(
    item: RawCodexSelectItem,
    aliases: Seq<(String, String)>,
    relations: Seq<RelationView>,
)
    ensures
        (item_column(item, aliases, relations) is Some) == (item_display_name(item) is Some),
        item_column(item, aliases, relations) matches Some(column) ==> Some(column.name@) == item_display_name(item),
        item matches RawCodexSelectItem::Column(selected) ==> (item_column(item, aliases, relations) matches Some(
            column,
        ) && column.name@ == match selected.alias {
            Some(alias) => alias@,
            None => selected.column@,
        }),
{
}

impl RawCodexSelectItem {
    /// The runtime column. A `Column` item's type is the source column's type
    /// read through its `from:` alias, `Text` when that does not resolve;
    /// expressions are `Text`, JSON shapes are `Json`.
    pub fn into_column(&self, aliases: &Vec<(String, String)>, relations: &Vec<CodexRelation>) -> (column:
        Option<CodexColumn>)
        ensures
            column == item_column(*self, aliases@, relation_views(relations@)),
    {
        match self {
            Self::Column(item) => {
                let name = match &item.alias {
                    Some(alias) => alias.clone(),
                    None => item.column.clone(),
                };
                let data_type = match &item.from {
                    Some(from) => match resolve_type(aliases, relations, from.as_str(), item.column.as_str()) {
                        Some(found) => found,
                        None => CodexType::Text,
                    },
                    None => CodexType::Text,
                };
                Some(item.overrides.apply(name, data_type))
            },
            Self::Expression(item) => match &item.alias {
                Some(alias) => Some(item.overrides.apply(alias.clone(), CodexType::Text)),
                None => None,
            },
            Self::JsonObject(item) => Some(item.overrides.apply(item.alias.clone(), CodexType::Json)),
            Self::JsonAgg(item) => Some(item.overrides.apply(item.alias.clone(), CodexType::Json)),
        }
    }

    /// The declared `x_role` (if any). Used by semantic checks.
    pub fn role(&self) -> (role: Option<CodexRole>)
        ensures
            role == overrides_of(*self).x_role,
    {
        self.overrides_ref().x_role
    }

    /// The declared `x_selectable` (if any). Used by semantic checks.
    pub fn x_selectable(&self) -> (selectable: Option<bool>)
        ensures
            selectable == overrides_of(*self).x_selectable,
    {
        self.overrides_ref().x_selectable
    }

    /// Best-effort human name for error messages.
    pub fn display_name(&self) -> (name: Option<&str>)
        ensures
            match name {
                Some(text) => item_display_name(*self) == Some(text@),
                None => item_display_name(*self) is None,
            },
    {
        match self {
            Self::Column(item) => match &item.alias {
                Some(alias) => Some(alias.as_str()),
                None => Some(item.column.as_str()),
            },
            Self::Expression(item) => match &item.alias {
                Some(alias) => Some(alias.as_str()),
                None => None,
            },
            Self::JsonObject(item) => Some(item.alias.as_str()),
            Self::JsonAgg(item) => Some(item.alias.as_str()),
        }
    }

    fn overrides_ref(&self) -> (overrides: &RawCodexSelectOverrides)
        ensures
            *overrides == overrides_of(*self),
    {
        match self {
            Self::Column(item) => &item.overrides,
            Self::Expression(item) => &item.overrides,
            Self::JsonObject(item) => &item.overrides,
            Self::JsonAgg(item) => &item.overrides,
        }
    }
}

} // verus!
