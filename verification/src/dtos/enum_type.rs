//! A `types:` entry: an enum declaration or a type the catalog does not read.

use vstd::prelude::*;

verus! {

/// YAML shape for a `types:` entry.
#[derive(Debug)]
pub enum RawCodexTypeDefinition {
    Enum(RawCodexEnumType),
    Unknown(serde_json::Value),
}

#[derive(Debug)]
pub struct RawCodexEnumType {
    pub name: String,
    pub values: Vec<String>,
}

impl RawCodexTypeDefinition {
    pub fn as_enum(&self) -> (definition: Option<&RawCodexEnumType>)
        ensures
            match self {
                RawCodexTypeDefinition::Enum(declared) => definition matches Some(d) && *d == *declared,
                RawCodexTypeDefinition::Unknown(_) => definition is None,
            },
    {
        match self {
            Self::Enum(definition) => Some(definition),
            Self::Unknown(_) => None,
        }
    }
}

} // verus!
