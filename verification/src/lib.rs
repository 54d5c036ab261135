//! A local file search service's core: the query grammar, the filter
//! compiler, the processing registry and the indexing decisions, each with
//! its contract.

pub mod ai;
pub mod api;
pub mod cache;
pub mod config;
pub mod decimal;
pub mod double;
pub mod engine;
pub mod extract;
pub mod paths;
pub mod query;
pub mod registry;
pub mod schema;
pub mod text;
