//! Declarative schema catalog compiler, RSQL filter parser and catalog-aware SQL emitter.

pub mod catalog;
pub mod compile;
pub mod definition;
pub mod dtos;
pub mod error;
pub mod json;
pub mod mason;
pub mod rsql;
pub mod seqs;
pub mod text;
pub mod yaml;
