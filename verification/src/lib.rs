//! Query-plan compilation for a document store, with the schema and migration
//! helpers that surround it.
//!
//! - [`query_arguments`]: the plan of a query, built step by step and rendered
//!   as one find operation or as the stages of a pipeline.
//! - [`join`]: relations to follow, rendered as correlated lookup stages.
//! - [`document`]: what the BSON documents of the driver hold, and the
//!   operations on them that the planner relies on.
//! - [`text`]: joining text, decimal numbers, the order of strings.
//! - [`primary_key`]: the walker over the primary key of a model.
//! - [`lower`]: key and index fields as expressions of the schema language.
//! - [`migrations_directory`]: the names and texts of the migrations directory.

pub mod document;
pub mod join;
pub mod lower;
pub mod migrations_directory;
pub mod primary_key;
pub mod query_arguments;
pub mod text;
