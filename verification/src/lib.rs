//! Field resolution core of a GraphQL executor: values, selection
//! collection, response merging and result shaping.
pub mod search;
pub mod value;
pub mod merge;
pub mod error;
pub mod query;
pub mod container;
pub mod list;
pub mod object;
pub mod subscription;
pub mod types;
pub mod scalars;
pub mod executor;
pub mod codegen;
