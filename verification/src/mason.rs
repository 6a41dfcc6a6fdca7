//! Catalog-aware SQL: the read path that lowers a query to a `SELECT`, and the
//! write path that projects aggregate effects into snapshot and sink tables.

pub mod archive;
pub mod project;
pub mod query;
pub mod read;
pub mod rows;
pub mod sink;
pub mod sql;
pub mod validate;
pub mod value;
