//! Column roles, column data types and resolved catalog columns.

use vstd::prelude::*;

use crate::text::str_equal;

verus! {

/// Relational role of a column — drives copy-forward, identity composition, and URL scoping.
#[derive(Debug, Clone, Copy, PartialEq, Eq, Structural)]
pub enum CodexRole {
    Id,
    Reference,
    Data,
}

impl CodexRole {
    /// Only `Data` columns are selectable unless the schema says otherwise.
    pub fn default_selectable(self) -> (selectable: bool)
        ensures
            selectable == (self == CodexRole::Data),
    {
        matches!(self, Self::Data)
    }
}

/// Postgres column data type — determines which RSQL operators are valid.
#[derive(Debug)]
pub enum CodexType {
    Text,
    Number,
    Timestamp,
    Uuid,
    Bool,
    Json,
    TextArray,
    Enum(String),
}

/// The schema type names that need no `types:` declaration.
pub open spec fn is_built_in_type_name(name: Seq<char>) -> bool {
    ||| name == "text"@
    ||| name == "uuid"@
    ||| name == "boolean"@
    ||| name == "timestamptz"@
    ||| name == "jsonb"@
    ||| name == "bigint"@
    ||| name == "integer"@
    ||| name == "smallint"@
    ||| name == "text[]"@
}

/// `data_type` is the catalog type that the schema type name `name` stands
/// for, given the declared enum names `enums`; an unknown name stands for `Text`.
pub open spec fn resolves_schema_name(data_type: CodexType, name: Seq<char>, enums: Seq<Seq<char>>) -> bool {
    if name == "text"@ {
        data_type == CodexType::Text
    } else if name == "uuid"@ {
        data_type == CodexType::Uuid
    } else if name == "boolean"@ {
        data_type == CodexType::Bool
    } else if name == "timestamptz"@ {
        data_type == CodexType::Timestamp
    } else if name == "jsonb"@ {
        data_type == CodexType::Json
    } else if name == "bigint"@ || name == "integer"@ || name == "smallint"@ {
        data_type == CodexType::Number
    } else if name == "text[]"@ {
        data_type == CodexType::TextArray
    } else if enums.contains(name) {
        data_type matches CodexType::Enum(enum_name) && enum_name@ == name
    } else {
        data_type == CodexType::Text
    }
}

impl Clone for CodexType {
    fn clone(&self) -> (copy: Self)
        ensures
            copy == *self,
    {
        match self {
            CodexType::Text => CodexType::Text,
            CodexType::Number => CodexType::Number,
            CodexType::Timestamp => CodexType::Timestamp,
            CodexType::Uuid => CodexType::Uuid,
            CodexType::Bool => CodexType::Bool,
            CodexType::Json => CodexType::Json,
            CodexType::TextArray => CodexType::TextArray,
            CodexType::Enum(name) => CodexType::Enum(name.clone()),
        }
    }
}

impl CodexType {
    pub fn supports_equality(&self) -> (supported: bool)
        ensures
            supported == !(*self matches CodexType::Json),
    {
        !matches!(self, Self::Json)
    }

    pub fn supports_ordering(&self) -> (supported: bool)
        ensures
            supported == (*self matches CodexType::Number || *self matches CodexType::Timestamp),
    {
        matches!(self, Self::Number | Self::Timestamp)
    }

    pub fn supports_text_pattern(&self) -> (supported: bool)
        ensures
            supported == (*self matches CodexType::Text),
    {
        matches!(self, Self::Text)
    }

    pub fn supports_set(&self) -> (supported: bool)
        ensures
            supported == (*self matches CodexType::Text || *self matches CodexType::Number
                || *self matches CodexType::Uuid || *self matches CodexType::Enum(_)),
    {
        matches!(self, Self::Text | Self::Number | Self::Uuid | Self::Enum(_))
    }

    pub fn supports_null_check(&self) -> (supported: bool)
        ensures
            supported,
    {
        true
    }

    /// Map a schema type name to its catalog type. A name that is neither
    /// built in nor one of `enums` maps to `Text`.
    pub fn from_schema_name(name: &str, enums: &Vec<String>) -> (data_type: Self)
        ensures
            resolves_schema_name(data_type, name@, enums@.map_values(|e: String| e@)),
    {
        let ghost enum_names = enums@.map_values(|e: String| e@);
        if str_equal(name, "text") {
            CodexType::Text
        } else if str_equal(name, "uuid") {
            CodexType::Uuid
        } else if str_equal(name, "boolean") {
            CodexType::Bool
        } else if str_equal(name, "timestamptz") {
            CodexType::Timestamp
        } else if str_equal(name, "jsonb") {
            CodexType::Json
        } else if str_equal(name, "bigint") || str_equal(name, "integer") || str_equal(name, "smallint") {
            CodexType::Number
        } else if str_equal(name, "text[]") {
            CodexType::TextArray
        } else {
            let mut index: usize = 0;
            while index < enums.len()
                invariant
                    0 <= index <= enums.len(),
                    enum_names == enums@.map_values(|e: String| e@),
                    !is_built_in_type_name(name@),
                    forall|j: int| 0 <= j < index ==> enum_names[j] != name@,
                decreases enums.len() - index,
            {
                if str_equal(enums[index].as_str(), name) {
                    proof {
                        assert(enum_names[index as int] == name@);
                        assert(enum_names.contains(name@));
                    }
                    return CodexType::Enum(String::from_str(name));
                }
                index = index + 1;
            }
            CodexType::Text
        }
    }
}

/// Column metadata: name, type, relational role, and permission flags.
#[derive(Debug)]
pub struct CodexColumn {
    pub name: String,
    pub data_type: CodexType,
    pub role: CodexRole,
    pub filterable: bool,
    pub searchable: bool,
    pub selectable: bool,
}

impl Clone for CodexColumn {
    fn clone(&self) -> (copy: Self)
        ensures
            copy == *self,
    {
        CodexColumn {
            name: self.name.clone(),
            data_type: self.data_type.clone(),
            role: self.role,
            filterable: self.filterable,
            searchable: self.searchable,
            selectable: self.selectable,
        }
    }
}

} // verus!
