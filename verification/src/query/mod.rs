//! Query parsing and filter construction.

pub mod filter;
pub mod parser;
pub mod render;
pub mod types;

pub use filter::{FilterBuilder, FilterExpr, FilterTree, PathMatcher, RangeBound};
pub use parser::{Flag, FlagView, NoExtractor, QueryParser};
pub use render::render_filters;
pub use types::{
    ParsedQuery, PathFilter, PathFilterView, QueryFilters, QueryFiltersView, QueryOptions,
    SizeFilter, SortBy, TimeField, TimeFilter, TimeRange,
};
