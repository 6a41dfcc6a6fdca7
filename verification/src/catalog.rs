//! The catalog's data types: columns, relations, read shapes and aggregates.

pub mod aggregate;
pub mod column;
pub mod read_shape;
pub mod relation;
