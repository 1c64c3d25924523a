//! Declarative field validation: rule predicates, error collection with
//! dot-notation field paths, and a schema-driven validator that applies
//! per-field rule lists to struct, tuple-struct and enum instances.
pub mod attr;
pub mod compile;
pub mod deserialize;
pub mod error;
pub mod expand;
pub mod laws;
pub mod plan;
pub mod rules;
pub mod schema;
pub mod text;
pub mod validate;
pub mod value;
