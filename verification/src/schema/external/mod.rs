//! Schemas for the collections of other crates.
pub mod ordered;
pub mod ordered_rules;
pub mod ordered_schema;
