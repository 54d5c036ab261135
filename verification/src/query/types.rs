//! The parsed form of a query and of its filter conditions.

use vstd::prelude::*;

verus! {

/// A query after parsing: its text and its filter conditions.
#[derive(Debug, Clone)]
pub struct ParsedQuery {
    /// The text to search for: `raw_text`, or what a keyword extractor made
    /// of it.
    pub text: String,
    /// The query without its `--key=value` arguments.
    pub raw_text: String,
    /// The filter conditions that the arguments gave.
    pub filters: QueryFilters,
}

/// The filter conditions of a query.
#[derive(Debug, Clone)]
pub struct QueryFilters {
    /// Path patterns, includes before excludes.
    pub paths: Vec<PathFilter>,
    /// At most one time window.
    pub time: Option<TimeFilter>,
    /// File extensions, lower-cased. Any of them may match.
    pub file_types: Vec<String>,
    /// At most one size condition.
    pub size: Option<SizeFilter>,
    /// Tags. Any of them may match.
    pub tags: Vec<String>,
}

/// A glob pattern that a path must match, or must not match.
#[derive(Debug, Clone)]
pub struct PathFilter {
    /// The glob pattern.
    pub pattern: String,
    /// Whether a matching path is rejected.
    pub exclude: bool,
}

/// A time window on one of a document's three times.
#[derive(Debug, Clone, Copy, PartialEq, Eq, Structural)]
pub struct TimeFilter {
    pub field: TimeField,
    pub range: TimeRange,
}

/// Which of a document's times a window applies to.
#[derive(Debug, Clone, Copy, PartialEq, Eq, Structural)]
pub enum TimeField {
    Created,
    Modified,
    Indexed,
}

/// A time window, relative to now or given in Unix seconds.
#[derive(Debug, Clone, Copy, PartialEq, Eq, Structural)]
pub enum TimeRange {
    LastDays(u32),
    LastHours(u32),
    LastWeeks(u32),
    LastMonths(u32),
    /// From the first time up to, not including, the second.
    Between(u64, u64),
    After(u64),
    Before(u64),
    Today,
    ThisWeek,
    ThisMonth,
}

/// A condition on the file size in bytes.
#[derive(Debug, Clone, Copy, PartialEq, Eq, Structural)]
pub enum SizeFilter {
    GreaterThan(u64),
    LessThan(u64),
    /// From the first size up to, not including, the second.
    Between(u64, u64),
}

/// The order of the results.
#[derive(Debug, Clone, Copy, PartialEq, Eq, Structural)]
pub enum SortBy {
    Relevance,
    ModifiedDesc,
    ModifiedAsc,
    CreatedDesc,
    SizeDesc,
    Name,
}

/// Paging and presentation of the results.
#[derive(Debug, Clone)]
pub struct QueryOptions {
    pub sort_by: SortBy,
    pub limit: usize,
    pub offset: usize,
    pub highlight: bool,
    pub preview_length: usize,
}

/// A path filter as plain values.
pub struct PathFilterView {
    pub pattern: Seq<char>,
    pub exclude: bool,
}

/// Filter conditions as plain values.
pub struct QueryFiltersView {
    pub paths: Seq<PathFilterView>,
    pub time: Option<TimeFilter>,
    pub file_types: Seq<Seq<char>>,
    pub size: Option<SizeFilter>,
    pub tags: Seq<Seq<char>>,
}

impl View for PathFilter {
    type V = PathFilterView;

    open spec fn view(&self) -> PathFilterView {
        PathFilterView { pattern: self.pattern@, exclude: self.exclude }
    }
}

impl View for QueryFilters {
    type V = QueryFiltersView;

    open spec fn view(&self) -> QueryFiltersView {
        QueryFiltersView {
            paths: self.paths@.map_values(|p: PathFilter| p@),
            time: self.time,
            file_types: self.file_types@.map_values(|s: String| s@),
            size: self.size,
            tags: self.tags@.map_values(|s: String| s@),
        }
    }
}

impl QueryFiltersView {
    /// No condition at all.
    pub open spec fn none() -> QueryFiltersView {
        QueryFiltersView {
            paths: Seq::empty(),
            time: None,
            file_types: Seq::empty(),
            size: None,
            tags: Seq::empty(),
        }
    }
}

impl PathFilter {
    /// A pattern that a path must match.
    pub fn inclusion(pattern: &str) -> (f: PathFilter)
        ensures
            f@ == (PathFilterView { pattern: pattern@, exclude: false }),
    {
        PathFilter { pattern: pattern.to_owned(), exclude: false }
    }

    /// A pattern that a path must not match.
    pub fn exclude(pattern: &str) -> (f: PathFilter)
        ensures
            f@ == (PathFilterView { pattern: pattern@, exclude: true }),
    {
        PathFilter { pattern: pattern.to_owned(), exclude: true }
    }
}

impl Default for QueryFilters {
    fn default() -> (f: QueryFilters)
        ensures
            f@ == QueryFiltersView::none(),
    {
        let f = QueryFilters {
            paths: Vec::new(),
            time: None,
            file_types: Vec::new(),
            size: None,
            tags: Vec::new(),
        };
        assert(f@.paths =~= Seq::empty());
        assert(f@.file_types =~= Seq::empty());
        assert(f@.tags =~= Seq::empty());
        f
    }
}

impl Default for TimeField {
    fn default() -> (f: TimeField)
        ensures
            f == TimeField::Modified,
    {
        TimeField::Modified
    }
}

impl Default for SortBy {
    fn default() -> (s: SortBy)
        ensures
            s == SortBy::Relevance,
    {
        SortBy::Relevance
    }
}

impl Default for QueryOptions {
    fn default() -> (o: QueryOptions)
        ensures
            o.sort_by == SortBy::Relevance,
            o.limit == 10,
            o.offset == 0,
            o.highlight,
            o.preview_length == 200,
    {
        QueryOptions {
            sort_by: SortBy::Relevance,
            limit: 10,
            offset: 0,
            highlight: true,
            preview_length: 200,
        }
    }
}

} // verus!
