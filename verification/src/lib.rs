//! Turn a dynamically typed document tree into a statically typed schema and
//! a materialized constant: infer a named record type for every mapping, a
//! fixed-length homogeneous list type for every sequence, and emit both the
//! type declarations and a literal initializer for the document's values.

pub mod code_generation;
pub mod laws;
pub mod parse;
pub mod semantic_analysis;
pub mod types;
pub mod utils;
pub mod values;
