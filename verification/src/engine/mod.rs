//! The engine's decisions: how an engine is set up, what indexing and
//! deleting write, which hits make a page, and who may process a file.
//!
//! The index, the cache store and the file system are reached from outside
//! the library. The functions here say what to do with them.

pub mod builder;
pub mod error;
pub mod index;
pub mod search;
pub mod sync;

pub use builder::{resolve_fields, EngineSettings, FieldHandles, SearchEngineBuilder};
pub use error::{EngineError, EngineResult};
pub use index::{
    delete_ops, forget_ops, index_response, orphan_paths, plan_index, sweep_ops, upsert_ops,
    CacheOp, IndexPlan, TagSource, WriteOp,
};
pub use search::{
    applied_filters, assemble_response, compose_query_text, doc_to_result, extract_highlights,
    fetch_count, select_page, EngineStats, Hit, StoredDocument,
};
pub use sync::{
    is_hidden_name, is_stale, is_supported_extension, normalize, on_scan_file, on_watch_event,
    within_depth, FileAction, WatchKind, DEBOUNCE_MILLIS,
};
