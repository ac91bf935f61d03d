//! Parser for chain schema documents: record types, their fields and a field-type grammar.
pub mod marker;
pub mod number;
pub mod schema;
pub mod text;
pub mod types;

pub use schema::{Schema, SchemeError};
pub use types::{Field, Object, Reason, Sort, SparsedObject, Type, TypeError};
pub mod laws;
