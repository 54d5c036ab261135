//! The typed requests and responses of the search service.

pub mod request;
pub mod response;

pub use request::{
    default_limit, default_snippet_length, default_true, BatchIndexRequest, DeleteRequest,
    IndexRequest, PathFilterRequest, QueryFiltersRequest, SearchRequest, SizeFilterRequest,
    TimeFilterRequest,
};
pub use response::{
    format_file_size, format_timestamp, Aggregations, BatchIndexResponse, ErrorResponse,
    FileMetadataResponse, Highlight, HighlightPosition, IndexFailure, IndexResponse, Pagination,
    QueryInfo, SearchResponse, SearchResult,
};
