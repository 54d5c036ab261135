//! Responses.

use vstd::prelude::*;
use std::collections::HashMap;
use crate::double::{nearest_double, round_half_even, rounded_quotient, step_of};
use crate::paths::{file_name, file_name_of, or_empty, parent, parent_of, string_or_empty};
use crate::text::{append_word, decimal_text, digit_char, digit_to_char, string_of, write_decimal};

verus! {

/// What a search returns.
#[derive(Debug, Clone)]
pub struct SearchResponse {
    /// The query as it was understood.
    pub query: QueryInfo,
    /// The results of this page.
    pub results: Vec<SearchResult>,
    /// How many documents matched, before the path patterns were applied
    /// and whatever the page.
    pub total: usize,
    pub pagination: Pagination,
    pub aggregations: Option<Aggregations>,
    /// How long the search took, in milliseconds.
    pub took_ms: u64,
}

impl SearchResponse {
    /// A response with all its results on one page.
    pub fn new(query: QueryInfo, results: Vec<SearchResult>, total: usize) -> (r: Self)
        ensures
            r.query == query,
            r.results == results,
            r.total == total,
            r.pagination.offset == 0,
            r.pagination.limit == results@.len(),
            r.pagination.has_more == (total > results@.len()),
            r.aggregations is None,
            r.took_ms == 0,
    {
        let pagination = Pagination {
            offset: 0,
            limit: results.len(),
            has_more: total > results.len(),
        };
        SearchResponse { query, results, total, pagination, aggregations: None, took_ms: 0 }
    }

    /// The same response as the page of `limit` results from `offset` on.
    /// There is more where the total reaches beyond the page.
    pub fn with_pagination(self, offset: usize, limit: usize) -> (r: Self)
        ensures
            r == (SearchResponse {
                pagination: Pagination { offset, limit, has_more: self.total > offset + limit },
                ..self
            }),
    {
        let has_more = self.total > offset && self.total - offset > limit;
        SearchResponse { pagination: Pagination { offset, limit, has_more }, ..self }
    }

    pub fn with_took(self, took_ms: u64) -> (r: Self)
        ensures
            r == (SearchResponse { took_ms, ..self }),
    {
        SearchResponse { took_ms, ..self }
    }

    pub fn with_aggregations(self, aggregations: Aggregations) -> (r: Self)
        ensures
            r == (SearchResponse { aggregations: Some(aggregations), ..self }),
    {
        SearchResponse { aggregations: Some(aggregations), ..self }
    }
}

/// How a query was understood.
#[derive(Debug, Clone)]
pub struct QueryInfo {
    /// The query as it came.
    pub raw_query: String,
    /// The text that was searched for.
    pub search_text: String,
    /// The keywords that the query was expanded with.
    pub keywords: Vec<String>,
    /// One line for each filter condition that was applied.
    pub applied_filters: Vec<String>,
}

impl QueryInfo {
    pub fn new(raw_query: &str, search_text: &str) -> (q: Self)
        ensures
            q.raw_query@ == raw_query@,
            q.search_text@ == search_text@,
            q.keywords@.len() == 0,
            q.applied_filters@.len() == 0,
    {
        QueryInfo {
            raw_query: raw_query.to_owned(),
            search_text: search_text.to_owned(),
            keywords: Vec::new(),
            applied_filters: Vec::new(),
        }
    }

    pub fn with_keywords(self, keywords: Vec<String>) -> (q: Self)
        ensures
            q == (QueryInfo { keywords, ..self }),
    {
        QueryInfo { keywords, ..self }
    }

    /// The same with one more line at the end of the applied filters.
    pub fn add_filter(self, filter: String) -> (q: Self)
        ensures
            q.raw_query == self.raw_query,
            q.search_text == self.search_text,
            q.keywords == self.keywords,
            q.applied_filters@ == self.applied_filters@.push(filter),
    {
        let mut applied_filters = self.applied_filters;
        applied_filters.push(filter);
        QueryInfo {
            raw_query: self.raw_query,
            search_text: self.search_text,
            keywords: self.keywords,
            applied_filters,
        }
    }
}

/// One result of a search.
#[derive(Debug, Clone)]
pub struct SearchResult {
    /// The canonical path of the file.
    pub path: String,
    /// The last component of the path.
    pub filename: String,
    /// The path without its last component.
    pub parent_path: String,
    /// The relevance score, a 32-bit float given by its bits.
    pub score_bits: u32,
    pub title: Option<String>,
    pub highlights: Vec<Highlight>,
    pub metadata: FileMetadataResponse,
    pub tags: Vec<String>,
}

impl SearchResult {
    /// A result for `path` with the score whose bits are `score_bits`,
    /// and nothing else yet. The file name and the parent are taken from
    /// the path, and are empty where the path has none.
    pub fn new(path: &str, score_bits: u32) -> (r: Self)
        ensures
            r.path@ == path@,
            r.filename@ == or_empty(file_name_of(path@)),
            r.parent_path@ == or_empty(parent_of(path@)),
            r.score_bits == score_bits,
            r.title is None,
            r.highlights@.len() == 0,
            r.metadata.is_blank(),
            r.tags@.len() == 0,
    {
        SearchResult {
            filename: string_or_empty(file_name(path)),
            parent_path: string_or_empty(parent(path)),
            path: path.to_owned(),
            score_bits,
            title: None,
            highlights: Vec::new(),
            metadata: FileMetadataResponse::default(),
            tags: Vec::new(),
        }
    }

    pub fn with_title(self, title: &str) -> (r: Self)
        ensures
            r.title matches Some(t) && t@ == title@,
            r.path == self.path,
            r.filename == self.filename,
            r.parent_path == self.parent_path,
            r.score_bits == self.score_bits,
            r.highlights == self.highlights,
            r.metadata == self.metadata,
            r.tags == self.tags,
    {
        SearchResult { title: Some(title.to_owned()), ..self }
    }

    pub fn with_highlights(self, highlights: Vec<Highlight>) -> (r: Self)
        ensures
            r == (SearchResult { highlights, ..self }),
    {
        SearchResult { highlights, ..self }
    }

    pub fn with_metadata(self, metadata: FileMetadataResponse) -> (r: Self)
        ensures
            r == (SearchResult { metadata, ..self }),
    {
        SearchResult { metadata, ..self }
    }

    pub fn with_tags(self, tags: Vec<String>) -> (r: Self)
        ensures
            r == (SearchResult { tags, ..self }),
    {
        SearchResult { tags, ..self }
    }
}

/// A fragment of a field's text, shown with a result.
#[derive(Debug, Clone)]
pub struct Highlight {
    /// The field that the fragment comes from.
    pub field: String,
    pub text: String,
    /// Where the match lies, if that is known.
    pub position: Option<HighlightPosition>,
}

#[derive(Debug, Clone, Copy, PartialEq, Eq, Structural)]
pub struct HighlightPosition {
    pub start: usize,
    pub end: usize,
}

/// A file's metadata as a result shows it.
#[derive(Debug, Clone)]
pub struct FileMetadataResponse {
    pub file_type: String,
    /// The size in bytes.
    pub file_size: u64,
    /// The size for a reader, such as `1.50 KB`.
    pub file_size_display: String,
    pub created_time: Option<u64>,
    pub modified_time: Option<u64>,
    pub indexed_time: Option<u64>,
    /// How long ago the file was created, for a reader.
    pub created_time_display: Option<String>,
    /// How long ago the file was modified, for a reader.
    pub modified_time_display: Option<String>,
}

impl Default for FileMetadataResponse {
    fn default() -> (m: Self)
        ensures
            m.is_blank(),
    {
        FileMetadataResponse {
            file_type: String::new(),
            file_size: 0,
            file_size_display: String::new(),
            created_time: None,
            modified_time: None,
            indexed_time: None,
            created_time_display: None,
            modified_time_display: None,
        }
    }
}

/// The text of a time shown for a reader, if there is a time.
pub open spec fn shown_time(ts: Option<u64>, now: u64) -> Option<Seq<char>> {
    match ts {
        Some(t) => Some(timestamp_text(t, now)),
        None => None,
    }
}

/// The text of an optional string.
pub open spec fn shown(s: Option<String>) -> Option<Seq<char>> {
    match s {
        Some(t) => Some(t@),
        None => None,
    }
}

impl FileMetadataResponse {
    /// Whether nothing is filled in.
    pub open spec fn is_blank(&self) -> bool {
        &&& self.file_type@.len() == 0
        &&& self.file_size == 0
        &&& self.file_size_display@.len() == 0
        &&& self.created_time is None
        &&& self.modified_time is None
        &&& self.indexed_time is None
        &&& self.created_time_display is None
        &&& self.modified_time_display is None
    }

    /// The metadata of a file of the given type and size, without times.
    pub fn new(file_type: &str, file_size: u64) -> (m: Self)
        ensures
            m.file_type@ == file_type@,
            m.file_size == file_size,
            m.file_size_display@ == file_size_text(file_size),
            m.created_time is None,
            m.modified_time is None,
            m.indexed_time is None,
            m.created_time_display is None,
            m.modified_time_display is None,
    {
        FileMetadataResponse {
            file_type: file_type.to_owned(),
            file_size,
            file_size_display: format_file_size(file_size),
            created_time: None,
            modified_time: None,
            indexed_time: None,
            created_time_display: None,
            modified_time_display: None,
        }
    }

    /// The same with the three times, and with the creation and the
    /// modification time also as a reader sees them at the time `now`.
    pub fn with_times(
        self,
        created: Option<u64>,
        modified: Option<u64>,
        indexed: Option<u64>,
        now: u64,
    ) -> (m: Self)
        ensures
            m.file_type == self.file_type,
            m.file_size == self.file_size,
            m.file_size_display == self.file_size_display,
            m.created_time == created,
            m.modified_time == modified,
            m.indexed_time == indexed,
            shown(m.created_time_display) == shown_time(created, now),
            shown(m.modified_time_display) == shown_time(modified, now),
    {
        let created_time_display = match created {
            Some(t) => Some(format_timestamp(t, now)),
            None => None,
        };
        let modified_time_display = match modified {
            Some(t) => Some(format_timestamp(t, now)),
            None => None,
        };
        FileMetadataResponse {
            file_type: self.file_type,
            file_size: self.file_size,
            file_size_display: self.file_size_display,
            created_time: created,
            modified_time: modified,
            indexed_time: indexed,
            created_time_display,
            modified_time_display,
        }
    }
}

/// Which page of the results a response holds.
#[derive(Debug, Clone, Copy, PartialEq, Eq, Structural)]
pub struct Pagination {
    pub offset: usize,
    pub limit: usize,
    /// Whether the total reaches beyond this page.
    pub has_more: bool,
}

/// Counts of the matching documents by type, directory and time.
#[derive(Debug, Clone)]
pub struct Aggregations {
    pub by_type: HashMap<String, usize>,
    pub by_directory: HashMap<String, usize>,
    pub by_time: HashMap<String, usize>,
}

/// The outcome of indexing one file.
#[derive(Debug, Clone)]
pub struct IndexResponse {
    pub success: bool,
    pub message: String,
    /// The canonical path of the file.
    pub path: String,
    pub took_ms: u64,
}

/// The outcome of indexing several files.
#[derive(Debug, Clone)]
pub struct BatchIndexResponse {
    pub success_count: usize,
    pub failed_count: usize,
    pub failures: Vec<IndexFailure>,
    pub took_ms: u64,
}

/// A file that could not be indexed, and why.
#[derive(Debug, Clone)]
pub struct IndexFailure {
    pub path: String,
    pub error: String,
}

/// An error as a caller receives it.
#[derive(Debug, Clone)]
pub struct ErrorResponse {
    pub code: String,
    pub message: String,
    pub details: Option<String>,
}

impl ErrorResponse {
    pub fn new(code: &str, message: &str) -> (e: Self)
        ensures
            e.code@ == code@,
            e.message@ == message@,
            e.details is None,
    {
        ErrorResponse { code: code.to_owned(), message: message.to_owned(), details: None }
    }

    pub fn with_details(self, details: &str) -> (e: Self)
        ensures
            e.code == self.code,
            e.message == self.message,
            e.details matches Some(d) && d@ == details@,
    {
        ErrorResponse { code: self.code, message: self.message, details: Some(details.to_owned()) }
    }
}

/// `bytes / unit` in hundredths, where `bytes` is first taken to the
/// nearest double-precision number and the quotient is then rounded.
pub open spec fn hundredths(bytes: nat, unit: nat) -> nat {
    round_half_even(nearest_double(bytes) * 100, unit)
}

/// A number below a hundred with two digits.
pub open spec fn two_digits(n: nat) -> Seq<char> {
    seq![digit_char(n / 10 % 10), digit_char(n % 10)]
}

/// A size in a unit with two decimals, such as `1.50 KB`.
pub open spec fn scaled_size_text(bytes: nat, unit: nat, suffix: Seq<char>) -> Seq<char> {
    decimal_text(hundredths(bytes, unit) / 100) + seq!['.'] + two_digits(
        hundredths(bytes, unit) % 100,
    ) + suffix
}

/// A size for a reader: in the largest of GB, MB and KB that it reaches,
/// with two decimals, or in whole bytes below 1 KB. The units are binary.
pub open spec fn file_size_text(bytes: u64) -> Seq<char> {
    if bytes >= 0x4000_0000 {
        scaled_size_text(bytes as nat, 0x4000_0000, " GB"@)
    } else if bytes >= 0x10_0000 {
        scaled_size_text(bytes as nat, 0x10_0000, " MB"@)
    } else if bytes >= 0x400 {
        scaled_size_text(bytes as nat, 0x400, " KB"@)
    } else {
        decimal_text(bytes as nat) + " B"@
    }
}

/// The size in `unit`, with two decimals, followed by `suffix`.
fn scaled_size(bytes: u64, unit: u64, suffix: &str) -> (out: Vec<char>)
    requires
        0x400 <= unit <= 0x4000_0000,
    ensures
        out@ == scaled_size_text(bytes as nat, unit as nat, suffix@),
{
    let p = step_of(bytes as u128);
    assert(p <= 0x1000) by (nonlinear_arith)
        requires
            p * 0x10_0000_0000_0000 <= bytes || p == 1,
            bytes <= 0xffff_ffff_ffff_ffff,
    ;
    let q = rounded_quotient(bytes as u128, p);
    proof {
        vstd::arithmetic::div_mod::lemma_fundamental_div_mod(bytes as int, p as int);
        assert(q * p <= bytes + p) by (nonlinear_arith)
            requires
                q <= bytes as int / p as int + 1,
                bytes == p * (bytes as int / p as int) + bytes as int % p as int,
                0 <= bytes as int % p as int,
                p >= 1,
                q >= 0,
        ;
    }
    let near: u128 = q * p;
    let h = rounded_quotient(near * 100, unit as u128);
    proof {
        vstd::arithmetic::div_mod::lemma_div_is_ordered_by_denominator(
            (near * 100) as int,
            0x400,
            unit as int,
        );
    }
    let whole = h / 100;
    let cents = h % 100;
    let mut out = write_decimal(whole as u64);
    out.push('.');
    out.push(digit_to_char((cents / 10) as u8));
    out.push(digit_to_char((cents % 10) as u8));
    assert(out@ =~= decimal_text(whole as nat) + seq!['.'] + two_digits(cents as nat));
    append_word(&mut out, suffix);
    out
}

/// A size for a reader, such as `500 B`, `1.50 KB` or `1.00 GB`.
pub fn format_file_size(bytes: u64) -> (s: String)
    ensures
        s@ == file_size_text(bytes),
{
    let out = if bytes >= 0x4000_0000 {
        scaled_size(bytes, 0x4000_0000, " GB")
    } else if bytes >= 0x10_0000 {
        scaled_size(bytes, 0x10_0000, " MB")
    } else if bytes >= 0x400 {
        scaled_size(bytes, 0x400, " KB")
    } else {
        let mut out = write_decimal(bytes);
        append_word(&mut out, " B");
        out
    };
    string_of(&out)
}

/// How long before `now` the time `ts` lies, for a reader: in whole
/// minutes, hours or days, whichever is the largest that fits.
pub open spec fn timestamp_text(ts: u64, now: u64) -> Seq<char> {
    let secs = (now - ts) as nat;
    if ts > now {
        "未来"@
    } else if secs < 60 {
        "刚刚"@
    } else if secs < 3600 {
        decimal_text(secs / 60) + " 分钟前"@
    } else if secs < 86400 {
        decimal_text(secs / 3600) + " 小时前"@
    } else if secs < 604800 {
        decimal_text(secs / 86400) + " 天前"@
    } else {
        decimal_text(secs / 86400) + "天前"@
    }
}

/// How long before `now` the time `ts` lies, for a reader. Both are in
/// Unix seconds.
pub fn format_timestamp(ts: u64, now: u64) -> (s: String)
    ensures
        s@ == timestamp_text(ts, now),
{
    if ts > now {
        return "未来".to_owned();
    }
    let secs = now - ts;
    if secs < 60 {
        return "刚刚".to_owned();
    }
    let (count, unit) = if secs < 3600 {
        (secs / 60, " 分钟前")
    } else if secs < 86400 {
        (secs / 3600, " 小时前")
    } else if secs < 604800 {
        (secs / 86400, " 天前")
    } else {
        (secs / 86400, "天前")
    };
    let mut out = write_decimal(count);
    append_word(&mut out, unit);
    string_of(&out)
}

} // verus!
