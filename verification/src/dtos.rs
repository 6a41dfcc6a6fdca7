//! The schema document's shapes and the passes over them: partial expansion,
//! semantic checks, catalog building and the merge of definition files.

pub mod column;
pub mod document;
pub mod enum_type;
pub mod partial;
pub mod select;
pub mod semantic;
pub mod table;
pub mod view;
