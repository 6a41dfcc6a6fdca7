//! A column declared in a table's `columns:` map.

use vstd::prelude::*;

use crate::catalog::column::{CodexColumn, CodexRole, CodexType, resolves_schema_name};
use crate::error::texts;

verus! {

/// YAML shape for a column inside `tables.*.columns.{name}:`; `schema_type`
/// is the YAML `type:` key.
#[derive(Debug)]
pub struct RawCodexColumnDefinition {
    pub schema_type: String,
    pub x_role: Option<CodexRole>,
}

/// The declared role, `Data` when none is declared.
pub open spec fn role_or_data(role: Option<CodexRole>) -> CodexRole {
    match role {
        Some(declared) => declared,
        None => CodexRole::Data,
    }
}

/// The catalog type of a schema type name given the declared enum names: an
/// enum type carries the schema type string itself.
pub open spec fn schema_type_of(schema_type: String, enums: Seq<Seq<char>>) -> CodexType {
    let name = schema_type@;
    if name == "text"@ {
        CodexType::Text
    } else if name == "uuid"@ {
        CodexType::Uuid
    } else if name == "boolean"@ {
        CodexType::Bool
    } else if name == "timestamptz"@ {
        CodexType::Timestamp
    } else if name == "jsonb"@ {
        CodexType::Json
    } else if name == "bigint"@ || name == "integer"@ || name == "smallint"@ {
        CodexType::Number
    } else if name == "text[]"@ {
        CodexType::TextArray
    } else if enums.contains(name) {
        CodexType::Enum(schema_type)
    } else {
        CodexType::Text
    }
}

/// The catalog column that the entry `(name, definition)` of a table stands for.
pub open spec fn definition_column(
    name: String,
    definition: RawCodexColumnDefinition,
    enums: Seq<Seq<char>>,
) -> CodexColumn {
    let role = role_or_data(definition.x_role);
    CodexColumn {
        name,
        data_type: schema_type_of(definition.schema_type, enums),
        role,
        filterable: false,
        searchable: false,
        selectable: role == CodexRole::Data,
    }
}

impl Clone for RawCodexColumnDefinition {
    fn clone(&self) -> (copy: Self)
        ensures
            copy == *self,
    {
        RawCodexColumnDefinition { schema_type: self.schema_type.clone(), x_role: self.x_role }
    }
}

impl RawCodexColumnDefinition {
    /// The catalog column for the entry `(name, self)`.
    pub fn build_column(&self, name: String, enums: &Vec<String>) -> (column: CodexColumn)
        ensures
            column == definition_column(name, *self, texts(enums@)),
    {
        let role = match self.x_role {
            Some(declared) => declared,
            None => CodexRole::Data,
        };
        let resolved = CodexType::from_schema_name(self.schema_type.as_str(), enums);
        proof {
            assert(texts(enums@) =~= enums@.map_values(|e: String| e@));
        }
        let data_type = match resolved {
            CodexType::Enum(_) => CodexType::Enum(self.schema_type.clone()),
            other => other,
        };
        CodexColumn {
            name,
            data_type,
            role,
            filterable: false,
            searchable: false,
            selectable: role.default_selectable(),
        }
    }

    /// The catalog column `name` with this definition: its type resolved
    /// against `enums`, no permission flags but `selectable` for data columns.
    pub fn into_column(&self, name: &str, enums: &Vec<String>) -> (column: CodexColumn)
        ensures
            column.name@ == name@,
            resolves_schema_name(column.data_type, self.schema_type@, texts(enums@)),
            column.role == role_or_data(self.x_role),
            !column.filterable,
            !column.searchable,
            column.selectable == (role_or_data(self.x_role) == CodexRole::Data),
    {
        let role = match self.x_role {
            Some(declared) => declared,
            None => CodexRole::Data,
        };
        let data_type = CodexType::from_schema_name(self.schema_type.as_str(), enums);
        proof {
            assert(texts(enums@) =~= enums@.map_values(|e: String| e@));
        }
        CodexColumn {
            name: String::from_str(name),
            data_type,
            role,
            filterable: false,
            searchable: false,
            selectable: role.default_selectable(),
        }
    }
}

} // verus!
