//! Requests.

use vstd::prelude::*;
use crate::query::types::{QueryOptions, SortBy};

verus! {

/// A search: the query string, paging and presentation.
#[derive(Debug, Clone)]
pub struct SearchRequest {
    /// The query, with its `--key=value` arguments.
    pub query: String,
    /// How many results to return at most.
    pub limit: usize,
    /// How many accepted results to skip.
    pub offset: usize,
    /// Whether to return highlight fragments.
    pub highlight: bool,
    /// The longest a highlight fragment may be, in characters.
    pub snippet_length: usize,
    /// Whether to expand the query with extracted keywords.
    pub use_ai: bool,
    /// Further conditions, beside those of the query string.
    pub filters: Option<QueryFiltersRequest>,
}

/// The limit of a request that names none.
pub fn default_limit() -> (n: usize)
    ensures
        n == 20,
{
    20
}

/// The setting of a switch that a request does not name.
pub fn default_true() -> (b: bool)
    ensures
        b,
{
    true
}

/// The fragment length of a request that names none.
pub fn default_snippet_length() -> (n: usize)
    ensures
        n == 200,
{
    200
}

impl Default for SearchRequest {
    fn default() -> (r: Self)
        ensures
            r.is_default_for(Seq::empty()),
    {
        SearchRequest {
            query: String::new(),
            limit: default_limit(),
            offset: 0,
            highlight: true,
            snippet_length: default_snippet_length(),
            use_ai: true,
            filters: None,
        }
    }
}

impl SearchRequest {
    /// Whether the request asks for `query` and leaves everything else at
    /// its default: 20 results from the first on, with highlights of up to
    /// 200 characters and with keyword expansion.
    pub open spec fn is_default_for(&self, query: Seq<char>) -> bool {
        &&& self.query@ == query
        &&& self.limit == 20
        &&& self.offset == 0
        &&& self.highlight
        &&& self.snippet_length == 200
        &&& self.use_ai
        &&& self.filters is None
    }

    /// A request for `query` with the defaults.
    pub fn new(query: &str) -> (r: Self)
        ensures
            r.is_default_for(query@),
    {
        SearchRequest {
            query: query.to_owned(),
            limit: default_limit(),
            offset: 0,
            highlight: true,
            snippet_length: default_snippet_length(),
            use_ai: true,
            filters: None,
        }
    }

    pub fn with_limit(self, limit: usize) -> (r: Self)
        ensures
            r == (SearchRequest { limit, ..self }),
    {
        SearchRequest { limit, ..self }
    }

    pub fn with_offset(self, offset: usize) -> (r: Self)
        ensures
            r == (SearchRequest { offset, ..self }),
    {
        SearchRequest { offset, ..self }
    }

    pub fn with_filters(self, filters: QueryFiltersRequest) -> (r: Self)
        ensures
            r == (SearchRequest { filters: Some(filters), ..self }),
    {
        SearchRequest { filters: Some(filters), ..self }
    }

    /// The paging and presentation that the request asks for. The order is
    /// the one that the request's filters name, else by relevance.
    pub fn to_query_options(&self) -> (o: QueryOptions)
        ensures
            o.limit == self.limit,
            o.offset == self.offset,
            o.highlight == self.highlight,
            o.preview_length == self.snippet_length,
            o.sort_by == (match self.filters {
                Some(f) => match f.sort_by {
                    Some(s) => s,
                    None => SortBy::Relevance,
                },
                None => SortBy::Relevance,
            }),
    {
        let sort_by = match &self.filters {
            Some(f) => match f.sort_by {
                Some(s) => s,
                None => SortBy::Relevance,
            },
            None => SortBy::Relevance,
        };
        QueryOptions {
            sort_by,
            limit: self.limit,
            offset: self.offset,
            highlight: self.highlight,
            preview_length: self.snippet_length,
        }
    }
}

/// Filter conditions as a request carries them.
#[derive(Debug, Clone)]
pub struct QueryFiltersRequest {
    pub paths: Vec<PathFilterRequest>,
    pub file_types: Vec<String>,
    pub time: Option<TimeFilterRequest>,
    pub size: Option<SizeFilterRequest>,
    pub tags: Vec<String>,
    pub sort_by: Option<SortBy>,
}

impl Default for QueryFiltersRequest {
    fn default() -> (r: Self)
        ensures
            r.paths@.len() == 0,
            r.file_types@.len() == 0,
            r.time is None,
            r.size is None,
            r.tags@.len() == 0,
            r.sort_by is None,
    {
        QueryFiltersRequest {
            paths: Vec::new(),
            file_types: Vec::new(),
            time: None,
            size: None,
            tags: Vec::new(),
            sort_by: None,
        }
    }
}

/// A path pattern of a request.
#[derive(Debug, Clone)]
pub struct PathFilterRequest {
    pub pattern: String,
    pub exclude: bool,
}

/// A time window of a request.
#[derive(Debug, Clone, Copy, PartialEq, Eq, Structural)]
pub enum TimeFilterRequest {
    LastHours { hours: u32 },
    LastDays { days: u32 },
    LastWeeks { weeks: u32 },
    /// From `after` up to `before`, each in Unix seconds and each optional.
    Range { after: Option<u64>, before: Option<u64> },
    Today,
    ThisWeek,
    ThisMonth,
}

/// A size condition of a request, in bytes.
#[derive(Debug, Clone, Copy, PartialEq, Eq, Structural)]
pub enum SizeFilterRequest {
    GreaterThan { bytes: u64 },
    LessThan { bytes: u64 },
    Between { min: u64, max: u64 },
}

/// A request to index one file.
#[derive(Debug, Clone)]
pub struct IndexRequest {
    pub path: String,
    /// Whether to index the file even if it seems unchanged.
    pub force: bool,
}

/// A request to remove one file from the index.
#[derive(Debug, Clone)]
pub struct DeleteRequest {
    pub path: String,
}

/// A request to index several files.
#[derive(Debug, Clone)]
pub struct BatchIndexRequest {
    pub paths: Vec<String>,
    /// Whether to index the files even if they seem unchanged.
    pub force: bool,
}

} // verus!
