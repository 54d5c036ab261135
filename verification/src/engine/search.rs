//! From a request to the index query, and from the hits to the response.

use vstd::prelude::*;
use crate::api::request::SearchRequest;
use crate::api::response::{
    file_size_text, shown, shown_time, FileMetadataResponse, Highlight, HighlightPosition,
    QueryInfo, SearchResponse, SearchResult,
};
use crate::paths::{file_name_of, or_empty, parent_of, text_of};
use crate::query::filter::{accepts, PathMatcher};
use crate::query::types::{ParsedQuery, PathFilterView, QueryFilters, QueryOptions, TimeRange};
use crate::schema::FIELD_BODY;
use crate::text::{
    append_chars, append_word, chars_of, chars_of_each, copy_strings, decimal_text, join_spaced,
    join_with_space, range_of, string_of, string_views, write_decimal,
};

verus! {

/// How much an index holds.
#[derive(Debug, Clone, Copy, PartialEq, Eq, Structural)]
pub struct EngineStats {
    pub total_documents: usize,
    pub index_size_bytes: u64,
}

/// The stored fields of a document as a hit gives them back. A field
/// that the document lacks is `None`.
#[derive(Debug, Clone)]
pub struct StoredDocument {
    pub path: Option<String>,
    pub title: Option<String>,
    pub body: Option<String>,
    pub file_type: Option<String>,
    pub file_size: Option<u64>,
    pub modified_time: Option<u64>,
    pub created_time: Option<u64>,
    pub indexed_time: Option<u64>,
    pub tags: Vec<String>,
}

/// A document that matched, with its score as the bits of a 32-bit float.
#[derive(Debug, Clone)]
pub struct Hit {
    pub score_bits: u32,
    pub document: StoredDocument,
}

/// The text that is handed to the index's query parser: the query's text
/// and the keywords, with single spaces between them.
pub open spec fn composed_text(text: Seq<char>, keywords: Seq<Seq<char>>) -> Seq<char> {
    if keywords.len() == 0 {
        text
    } else if text.len() == 0 {
        join_spaced(keywords)
    } else {
        text + seq![' '] + join_spaced(keywords)
    }
}

/// The text for the index's query parser, or `None` where the text and
/// the keywords are all empty: the query then matches every document.
pub fn compose_query_text(text: &str, keywords: &[String]) -> (q: Option<String>)
    ensures
        text_of(q) == (if composed_text(text@, string_views(keywords@)).len() == 0 {
            None
        } else {
            Some(composed_text(text@, string_views(keywords@)))
        }),
{
    let mut out = chars_of(text);
    if keywords.len() > 0 {
        let joined = join_with_space(&chars_of_each(keywords));
        if out.len() > 0 {
            out.push(' ');
        }
        append_chars(&mut out, &joined);
    }
    if out.len() == 0 {
        None
    } else {
        Some(string_of(&out))
    }
}

/// How many hits to ask the index for: enough for the page and for what
/// is skipped before it.
pub fn fetch_count(limit: usize, offset: usize) -> (n: usize)
    requires
        limit + offset <= usize::MAX,
    ensures
        n == limit + offset,
{
    limit + offset
}

/// A highlight as plain values.
pub struct HighlightView {
    pub field: Seq<char>,
    pub text: Seq<char>,
    pub position: Option<HighlightPosition>,
}

/// The views of a sequence of highlights.
pub open spec fn highlight_views(items: Seq<Highlight>) -> Seq<HighlightView> {
    Seq::new(
        items.len(),
        |i: int| HighlightView { field: items[i].field@, text: items[i].text@, position: items[i].position },
    )
}

/// The first `max_len` characters of a text, or all of it where it is
/// shorter.
pub open spec fn preview(body: Seq<char>, max_len: nat) -> Seq<char> {
    if max_len < body.len() {
        body.take(max_len as int)
    } else {
        body
    }
}

/// The highlights of a document: one fragment, the start of its body,
/// if it has a body.
pub open spec fn highlights_of(doc: StoredDocument, max_len: nat) -> Seq<HighlightView> {
    match doc.body {
        Some(body) => seq![
            HighlightView { field: FIELD_BODY@, text: preview(body@, max_len), position: None },
        ],
        None => Seq::empty(),
    }
}

/// Finds `highlights_of`.
pub fn extract_highlights(doc: &StoredDocument, max_len: usize) -> (highlights: Vec<Highlight>)
    ensures
        highlight_views(highlights@) == highlights_of(*doc, max_len as nat),
{
    let mut highlights: Vec<Highlight> = Vec::new();
    match &doc.body {
        Some(body) => {
            let chars = chars_of(body.as_str());
            let text = if max_len < chars.len() {
                string_of(&range_of(&chars, 0, max_len))
            } else {
                string_of(&chars)
            };
            highlights.push(Highlight { field: FIELD_BODY.to_owned(), text, position: None });
            assert(highlight_views(highlights@) =~= highlights_of(*doc, max_len as nat));
        },
        None => {
            assert(highlight_views(highlights@) =~= highlights_of(*doc, max_len as nat));
        },
    }
    highlights
}

/// The number, or zero where there is none.
pub open spec fn or_zero(n: Option<u64>) -> u64 {
    match n {
        Some(v) => v,
        None => 0,
    }
}

/// Whether `r` is the result for a hit: every part of it is taken from
/// the stored fields, with empty text and zero for what the document
/// lacks; the file name and the parent are those of the path; the size and
/// the times are also given as a reader sees them at the time `now`; and
/// the highlights are there if they were asked for.
pub open spec fn is_result_of(
    r: SearchResult,
    doc: StoredDocument,
    score_bits: u32,
    options: QueryOptions,
    now: u64,
) -> bool {
    &&& r.path@ == or_empty(text_of(doc.path))
    &&& r.filename@ == or_empty(file_name_of(or_empty(text_of(doc.path))))
    &&& r.parent_path@ == or_empty(parent_of(or_empty(text_of(doc.path))))
    &&& r.score_bits == score_bits
    &&& shown(r.title) == text_of(doc.title)
    &&& string_views(r.tags@) == string_views(doc.tags@)
    &&& highlight_views(r.highlights@) == (if options.highlight {
        highlights_of(doc, options.preview_length as nat)
    } else {
        Seq::empty()
    })
    &&& r.metadata.file_type@ == or_empty(text_of(doc.file_type))
    &&& r.metadata.file_size == or_zero(doc.file_size)
    &&& r.metadata.file_size_display@ == file_size_text(or_zero(doc.file_size))
    &&& r.metadata.created_time == doc.created_time
    &&& r.metadata.modified_time == doc.modified_time
    &&& r.metadata.indexed_time == doc.indexed_time
    &&& shown(r.metadata.created_time_display) == shown_time(doc.created_time, now)
    &&& shown(r.metadata.modified_time_display) == shown_time(doc.modified_time, now)
}

/// The result for a hit.
pub fn doc_to_result(doc: &StoredDocument, score_bits: u32, options: &QueryOptions, now: u64) -> (r:
    SearchResult)
    ensures
        is_result_of(r, *doc, score_bits, *options, now),
{
    let path: String = match &doc.path {
        Some(p) => p.clone(),
        None => String::new(),
    };
    let file_type: String = match &doc.file_type {
        Some(t) => t.clone(),
        None => String::new(),
    };
    let file_size: u64 = match doc.file_size {
        Some(n) => n,
        None => 0,
    };
    let highlights = if options.highlight {
        extract_highlights(doc, options.preview_length)
    } else {
        let none: Vec<Highlight> = Vec::new();
        assert(highlight_views(none@) =~= Seq::<HighlightView>::empty());
        none
    };
    let metadata = FileMetadataResponse::new(file_type.as_str(), file_size).with_times(
        doc.created_time,
        doc.modified_time,
        doc.indexed_time,
        now,
    );
    let result = SearchResult::new(path.as_str(), score_bits).with_metadata(metadata).with_tags(
        copy_strings(doc.tags.as_slice()),
    ).with_highlights(highlights);
    match &doc.title {
        Some(t) => result.with_title(t.as_str()),
        None => result,
    }
}

/// The path of a hit, empty where the document has none.
pub open spec fn hit_path(hit: Hit) -> Seq<char> {
    or_empty(text_of(hit.document.path))
}

/// The hits whose path passes the rules, in order.
pub open spec fn accepted_hits(hits: Seq<Hit>, rules: Seq<PathFilterView>) -> Seq<Hit>
    decreases hits.len(),
{
    if hits.len() == 0 {
        Seq::empty()
    } else if accepts(rules, hit_path(hits.last())) {
        accepted_hits(hits.drop_last(), rules).push(hits.last())
    } else {
        accepted_hits(hits.drop_last(), rules)
    }
}

/// The page: of the hits whose path passes the rules, the first `offset`
/// are skipped and up to `limit` are taken.
pub open spec fn page_of(hits: Seq<Hit>, rules: Seq<PathFilterView>, offset: nat, limit: nat) -> Seq<
    Hit,
> {
    let passed = accepted_hits(hits, rules);
    if offset >= passed.len() {
        Seq::empty()
    } else if offset + limit >= passed.len() {
        passed.subrange(offset as int, passed.len() as int)
    } else {
        passed.subrange(offset as int, (offset + limit) as int)
    }
}

/// What passes among the first hits is the start of what passes among
/// all.
pub proof fn lemma_accepted_prefix(hits: Seq<Hit>, rules: Seq<PathFilterView>, i: int)
    requires
        0 <= i <= hits.len(),
    ensures
        accepted_hits(hits.take(i), rules).len() <= accepted_hits(hits, rules).len(),
        accepted_hits(hits.take(i), rules) == accepted_hits(hits, rules).take(
            accepted_hits(hits.take(i), rules).len() as int,
        ),
    decreases hits.len() - i,
{
    if i < hits.len() {
        lemma_accepted_prefix(hits, rules, i + 1);
        let next = accepted_hits(hits.take(i + 1), rules);
        let here = accepted_hits(hits.take(i), rules);
        assert(hits.take(i + 1).drop_last() =~= hits.take(i));
        let all = accepted_hits(hits, rules);
        assert(here =~= all.take(here.len() as int)) by {
            assert(next == all.take(next.len() as int));
            if accepts(rules, hit_path(hits.take(i + 1).last())) {
                assert(next.drop_last() =~= here);
            }
        }
    } else {
        assert(hits.take(i) =~= hits);
        assert(accepted_hits(hits, rules).take(accepted_hits(hits, rules).len() as int)
            =~= accepted_hits(hits, rules));
    }
}

/// The results of the page of the hits.
pub fn select_page(hits: &Vec<Hit>, matcher: &PathMatcher, options: &QueryOptions, now: u64) -> (results:
    Vec<SearchResult>)
    ensures
        results@.len() == page_of(
            hits@,
            matcher@,
            options.offset as nat,
            options.limit as nat,
        ).len(),
        forall|k: int|
            0 <= k < results@.len() ==> is_result_of(
                #[trigger] results@[k],
                page_of(hits@, matcher@, options.offset as nat, options.limit as nat)[k].document,
                page_of(hits@, matcher@, options.offset as nat, options.limit as nat)[k].score_bits,
                *options,
                now,
            ),
{
    let ghost rules = matcher@;
    let ghost all = accepted_hits(hits@, rules);
    let offset = options.offset;
    let limit = options.limit;
    let mut results: Vec<SearchResult> = Vec::new();
    let mut passed: usize = 0;
    let mut i: usize = 0;
    let ghost mut so_far: Seq<Hit> = Seq::empty();
    assert(hits@.take(0) =~= Seq::<Hit>::empty());
    while i < hits.len() && results.len() < limit
        invariant
            i <= hits.len(),
            rules == matcher@,
            all == accepted_hits(hits@, rules),
            offset == options.offset,
            limit == options.limit,
            so_far == accepted_hits(hits@.take(i as int), rules),
            passed == so_far.len(),
            passed <= i,
            results@.len() <= limit,
            results@.len() == (if passed > offset {
                passed - offset
            } else {
                0
            }),
            forall|k: int|
                0 <= k < results@.len() ==> is_result_of(
                    #[trigger] results@[k],
                    so_far[offset + k].document,
                    so_far[offset + k].score_bits,
                    *options,
                    now,
                ),
        decreases hits.len() - i,
    {
        let hit = &hits[i];
        let path: String = match &hit.document.path {
            Some(p) => p.clone(),
            None => String::new(),
        };
        proof {
            assert(hits@.take(i + 1).drop_last() =~= hits@.take(i as int));
            assert(hits@.take(i + 1).last() == hits@[i as int]);
        }
        if matcher.matches(path.as_str()) {
            let ghost before = so_far;
            proof {
                so_far = so_far.push(hits@[i as int]);
            }
            if passed >= offset {
                let result = doc_to_result(&hit.document, hit.score_bits, options, now);
                results.push(result);
                assert forall|k: int| 0 <= k < results@.len() implies is_result_of(
                    #[trigger] results@[k],
                    so_far[offset + k].document,
                    so_far[offset + k].score_bits,
                    *options,
                    now,
                ) by {
                    if k < results@.len() - 1 {
                        assert(so_far[offset + k] == before[offset + k]);
                    }
                }
            } else {
                assert forall|k: int| 0 <= k < results@.len() implies is_result_of(
                    #[trigger] results@[k],
                    so_far[offset + k].document,
                    so_far[offset + k].score_bits,
                    *options,
                    now,
                ) by {}
            }
            passed += 1;
        }
        i += 1;
    }
    proof {
        lemma_accepted_prefix(hits@, rules, i as int);
        let page = page_of(hits@, rules, offset as nat, limit as nat);
        if i == hits.len() {
            assert(hits@.take(i as int) =~= hits@);
        }
        assert(so_far == all.take(so_far.len() as int));
        assert(page.len() == results@.len());
        assert forall|k: int| 0 <= k < results@.len() implies is_result_of(
            #[trigger] results@[k],
            page[k].document,
            page[k].score_bits,
            *options,
            now,
        ) by {
            assert(page[k] == all[offset + k]);
            assert(so_far[offset + k] == all[offset + k]);
        }
    }
    results
}

/// A time window as it is written in the list of applied filters: the
/// name of its kind, with its numbers in brackets.
pub open spec fn time_range_text(range: TimeRange) -> Seq<char> {
    match range {
        TimeRange::LastDays(n) => "LastDays("@ + decimal_text(n as nat) + ")"@,
        TimeRange::LastHours(n) => "LastHours("@ + decimal_text(n as nat) + ")"@,
        TimeRange::LastWeeks(n) => "LastWeeks("@ + decimal_text(n as nat) + ")"@,
        TimeRange::LastMonths(n) => "LastMonths("@ + decimal_text(n as nat) + ")"@,
        TimeRange::Between(a, b) => "Between("@ + decimal_text(a as nat) + ", "@ + decimal_text(
            b as nat,
        ) + ")"@,
        TimeRange::After(t) => "After("@ + decimal_text(t as nat) + ")"@,
        TimeRange::Before(t) => "Before("@ + decimal_text(t as nat) + ")"@,
        TimeRange::Today => "Today"@,
        TimeRange::ThisWeek => "ThisWeek"@,
        TimeRange::ThisMonth => "ThisMonth"@,
    }
}

/// `name`, `(`, the number and `)`.
fn numbered(name: &str, n: u64) -> (out: Vec<char>)
    ensures
        out@ == name@ + decimal_text(n as nat) + ")"@,
{
    let mut out = chars_of(name);
    append_chars(&mut out, &write_decimal(n));
    append_word(&mut out, ")");
    out
}

/// Finds `time_range_text`.
pub fn write_time_range(range: &TimeRange) -> (out: Vec<char>)
    ensures
        out@ == time_range_text(*range),
{
    match range {
        TimeRange::LastDays(n) => numbered("LastDays(", *n as u64),
        TimeRange::LastHours(n) => numbered("LastHours(", *n as u64),
        TimeRange::LastWeeks(n) => numbered("LastWeeks(", *n as u64),
        TimeRange::LastMonths(n) => numbered("LastMonths(", *n as u64),
        TimeRange::Between(a, b) => {
            let mut out = chars_of("Between(");
            append_chars(&mut out, &write_decimal(*a));
            append_word(&mut out, ", ");
            append_chars(&mut out, &write_decimal(*b));
            append_word(&mut out, ")");
            out
        },
        TimeRange::After(t) => numbered("After(", *t),
        TimeRange::Before(t) => numbered("Before(", *t),
        TimeRange::Today => chars_of("Today"),
        TimeRange::ThisWeek => chars_of("ThisWeek"),
        TimeRange::ThisMonth => chars_of("ThisMonth"),
    }
}

/// A text between double quotes, with its special characters escaped, as
/// `{:?}` formats a string.
pub uninterp spec fn quoted_text_of(text: Seq<char>) -> Seq<char>;

/// Formats the string with `{:?}`: the standard library's `Debug` for
/// `str`, whose result depends on the text alone.
#[verifier::external_body]
fn quoted(text: &str) -> (out: String)
    ensures
        out@ == quoted_text_of(text@),
{
    format!("{:?}", text)
}

/// The items with `, ` between neighbours.
pub open spec fn listed(items: Seq<Seq<char>>) -> Seq<char>
    decreases items.len(),
{
    if items.len() == 0 {
        Seq::empty()
    } else if items.len() == 1 {
        items[0]
    } else {
        listed(items.drop_last()) + ", "@ + items.last()
    }
}

/// The items as a list in square brackets.
pub fn bracketed(items: &Vec<String>) -> (out: Vec<char>)
    ensures
        out@ == "["@ + listed(string_views(items@)) + "]"@,
{
    let ghost all = string_views(items@);
    let mut out = chars_of("[");
    let mut j: usize = 0;
    assert(all.take(0) =~= Seq::<Seq<char>>::empty());
    assert(out@ =~= "["@ + listed(all.take(0)));
    while j < items.len()
        invariant
            j <= items.len(),
            all == string_views(items@),
            out@ == "["@ + listed(all.take(j as int)),
        decreases items.len() - j,
    {
        proof {
            assert(all.take(j + 1).drop_last() =~= all.take(j as int));
            assert(all.take(j + 1).last() == items@[j as int]@);
        }
        if j > 0 {
            append_word(&mut out, ", ");
        }
        append_word(&mut out, items[j].as_str());
        proof {
            assert(out@ =~= "["@ + listed(all.take(j + 1)));
        }
        j += 1;
    }
    assert(all.take(items.len() as int) =~= all);
    append_word(&mut out, "]");
    out
}

/// Each text quoted.
pub open spec fn quoted_each(items: Seq<Seq<char>>) -> Seq<Seq<char>> {
    Seq::new(items.len(), |i: int| quoted_text_of(items[i]))
}

/// The line of the list of applied filters that names a path pattern.
pub open spec fn path_line(filter: PathFilterView) -> Seq<char> {
    (if filter.exclude {
        "排除: "@
    } else {
        "路径: "@
    }) + filter.pattern
}

/// The lines of the list of applied filters: one for each path pattern,
/// then one for the time window, then one for the file types.
pub open spec fn filter_lines(filters: crate::query::types::QueryFiltersView) -> Seq<Seq<char>> {
    filters.paths.map_values(|p: PathFilterView| path_line(p)) + (match filters.time {
        Some(t) => seq!["时间: "@ + time_range_text(t.range)],
        None => Seq::empty(),
    }) + (if filters.file_types.len() > 0 {
        seq!["类型: "@ + ("["@ + listed(quoted_each(filters.file_types)) + "]"@)]
    } else {
        Seq::empty()
    })
}

/// Finds `filter_lines`.
pub fn applied_filters(filters: &QueryFilters) -> (lines: Vec<String>)
    ensures
        string_views(lines@) == filter_lines(filters@),
{
    let mut lines: Vec<String> = Vec::new();
    let ghost path_lines = filters@.paths.map_values(|p: PathFilterView| path_line(p));
    let mut i: usize = 0;
    assert(string_views(lines@) =~= path_lines.take(0));
    while i < filters.paths.len()
        invariant
            i <= filters.paths.len(),
            path_lines == filters@.paths.map_values(|p: PathFilterView| path_line(p)),
            string_views(lines@) == path_lines.take(i as int),
        decreases filters.paths.len() - i,
    {
        let filter = &filters.paths[i];
        let mut line = if filter.exclude {
            chars_of("排除: ")
        } else {
            chars_of("路径: ")
        };
        append_word(&mut line, filter.pattern.as_str());
        let line = string_of(&line);
        proof {
            assert(filters@.paths[i as int] == filters.paths@[i as int]@);
            assert(line@ == path_lines[i as int]);
            crate::text::lemma_string_views_push(lines@, line);
            assert(path_lines.take(i + 1) =~= path_lines.take(i as int).push(path_lines[i as int]));
        }
        lines.push(line);
        i += 1;
    }
    assert(path_lines.take(filters.paths.len() as int) =~= path_lines);
    let ghost time_lines: Seq<Seq<char>> = match filters.time {
        Some(t) => seq!["时间: "@ + time_range_text(t.range)],
        None => Seq::empty(),
    };
    match &filters.time {
        Some(t) => {
            let mut line = chars_of("时间: ");
            append_chars(&mut line, &write_time_range(&t.range));
            let line = string_of(&line);
            proof {
                crate::text::lemma_string_views_push(lines@, line);
            }
            lines.push(line);
            assert(string_views(lines@) =~= path_lines + time_lines);
        },
        None => {
            assert(string_views(lines@) =~= path_lines + time_lines);
        },
    }
    if filters.file_types.len() > 0 {
        let ghost types = string_views(filters.file_types@);
        let mut items: Vec<String> = Vec::new();
        let mut j: usize = 0;
        assert(string_views(items@) =~= quoted_each(types).take(0));
        while j < filters.file_types.len()
            invariant
                j <= filters.file_types.len(),
                types == string_views(filters.file_types@),
                string_views(items@) == quoted_each(types).take(j as int),
            decreases filters.file_types.len() - j,
        {
            let item = quoted(filters.file_types[j].as_str());
            proof {
                crate::text::lemma_string_views_push(items@, item);
                let all = quoted_each(types);
                assert(all.take(j + 1) =~= all.take(j as int).push(all[j as int]));
            }
            items.push(item);
            j += 1;
        }
        assert(quoted_each(types).take(filters.file_types.len() as int) =~= quoted_each(types));
        let mut line = chars_of("类型: ");
        append_chars(&mut line, &bracketed(&items));
        let line = string_of(&line);
        proof {
            crate::text::lemma_string_views_push(lines@, line);
            assert(filters@.file_types == types);
        }
        lines.push(line);
        assert(string_views(lines@) =~= filter_lines(filters@));
    } else {
        assert(string_views(lines@) =~= filter_lines(filters@));
    }
    lines
}

/// The response to a search: the request's query and the parsed text with
/// the keywords and the applied filters, the page of results, the number
/// of hits before paging, and the time taken.
pub fn assemble_response(
    request: &SearchRequest,
    parsed: &ParsedQuery,
    keywords: Vec<String>,
    results: Vec<SearchResult>,
    total: usize,
    took_ms: u64,
) -> (r: SearchResponse)
    ensures
        r.query.raw_query@ == request.query@,
        r.query.search_text@ == parsed.text@,
        r.query.keywords == keywords,
        string_views(r.query.applied_filters@) == filter_lines(parsed.filters@),
        r.results == results,
        r.total == total,
        r.pagination.offset == request.offset,
        r.pagination.limit == request.limit,
        r.pagination.has_more == (total > request.offset + request.limit),
        r.aggregations is None,
        r.took_ms == took_ms,
{
    let info = QueryInfo::new(request.query.as_str(), parsed.text.as_str()).with_keywords(keywords);
    let info = QueryInfo { applied_filters: applied_filters(&parsed.filters), ..info };
    SearchResponse::new(info, results, total).with_pagination(
        request.offset,
        request.limit,
    ).with_took(took_ms)
}

} // verus!
