//! From filter conditions to what the index and the path matcher check.
//!
//! Time, type, size and tag conditions become a tree of predicates for the
//! index. Path patterns become a `PathMatcher`, which is applied to the hits
//! afterwards.

use vstd::prelude::*;
use glob::Pattern;
use crate::query::types::{
    PathFilter, PathFilterView, QueryFilters, QueryFiltersView, SizeFilter, TimeField, TimeFilter,
    TimeRange,
};
use crate::schema::{
    has_field, SchemaDescriptor, FIELD_CREATED_TIME, FIELD_FILE_SIZE, FIELD_FILE_TYPE,
    FIELD_INDEXED_TIME, FIELD_MODIFIED_TIME, FIELD_TAGS,
};
use crate::text::string_views;

verus! {

/// One end of a range of numbers.
#[derive(Debug, Clone, Copy, PartialEq, Eq, Structural)]
pub enum RangeBound {
    Included(u64),
    Excluded(u64),
    Unbounded,
}

/// A predicate on an indexed document.
#[derive(Debug)]
pub enum FilterExpr {
    /// The number in `field` lies between the bounds.
    Range { field: String, lower: RangeBound, upper: RangeBound },
    /// `field` holds the term `text`.
    Term { field: String, text: String },
    /// At least one of the predicates holds.
    AnyOf(Vec<FilterExpr>),
    /// Every one of the predicates holds.
    AllOf(Vec<FilterExpr>),
}

/// A predicate on an indexed document, as plain values.
pub enum FilterTree {
    Range { field: Seq<char>, lower: RangeBound, upper: RangeBound },
    Term { field: Seq<char>, text: Seq<char> },
    AnyOf(Seq<FilterTree>),
    AllOf(Seq<FilterTree>),
}

/// The tree of a predicate.
pub open spec fn expr_tree(expr: FilterExpr) -> FilterTree
    decreases expr,
{
    match expr {
        FilterExpr::Range { field, lower, upper } => FilterTree::Range {
            field: field@,
            lower,
            upper,
        },
        FilterExpr::Term { field, text } => FilterTree::Term { field: field@, text: text@ },
        FilterExpr::AnyOf(parts) => FilterTree::AnyOf(expr_trees(parts@)),
        FilterExpr::AllOf(parts) => FilterTree::AllOf(expr_trees(parts@)),
    }
}

/// The trees of a sequence of predicates.
pub open spec fn expr_trees(parts: Seq<FilterExpr>) -> Seq<FilterTree>
    decreases parts,
{
    if parts.len() == 0 {
        Seq::empty()
    } else {
        expr_trees(parts.drop_last()).push(expr_tree(parts.last()))
    }
}

impl View for FilterExpr {
    type V = FilterTree;

    open spec fn view(&self) -> FilterTree {
        expr_tree(*self)
    }
}

/// What the index holds of one document: the number in each numeric field,
/// and the terms in each text field.
pub struct IndexedFields {
    pub numbers: Map<Seq<char>, u64>,
    pub terms: Map<Seq<char>, Set<Seq<char>>>,
}

/// Whether `n` lies between the bounds.
pub open spec fn within(n: u64, lower: RangeBound, upper: RangeBound) -> bool {
    &&& match lower {
        RangeBound::Included(lo) => lo <= n,
        RangeBound::Excluded(lo) => lo < n,
        RangeBound::Unbounded => true,
    }
    &&& match upper {
        RangeBound::Included(hi) => n <= hi,
        RangeBound::Excluded(hi) => n < hi,
        RangeBound::Unbounded => true,
    }
}

/// Whether a document passes a predicate tree.
pub open spec fn tree_holds(tree: FilterTree, doc: IndexedFields) -> bool
    decreases tree,
{
    match tree {
        FilterTree::Range { field, lower, upper } => doc.numbers.dom().contains(field) && within(
            doc.numbers[field],
            lower,
            upper,
        ),
        FilterTree::Term { field, text } => doc.terms.dom().contains(field)
            && doc.terms[field].contains(text),
        FilterTree::AnyOf(parts) => any_holds(parts, doc),
        FilterTree::AllOf(parts) => all_hold(parts, doc),
    }
}

/// Whether a document passes at least one of the trees.
pub open spec fn any_holds(parts: Seq<FilterTree>, doc: IndexedFields) -> bool
    decreases parts,
{
    parts.len() > 0 && (tree_holds(parts.last(), doc) || any_holds(parts.drop_last(), doc))
}

/// Whether a document passes every one of the trees.
pub open spec fn all_hold(parts: Seq<FilterTree>, doc: IndexedFields) -> bool
    decreases parts,
{
    parts.len() > 0 ==> (tree_holds(parts.last(), doc) && all_hold(parts.drop_last(), doc))
}

/// A document passes one of the trees exactly if there is a tree among
/// them that it passes.
pub proof fn lemma_any_holds(parts: Seq<FilterTree>, doc: IndexedFields)
    ensures
        any_holds(parts, doc) <==> exists|i: int|
            0 <= i < parts.len() && tree_holds(#[trigger] parts[i], doc),
    decreases parts.len(),
{
    if parts.len() > 0 {
        let head = parts.drop_last();
        lemma_any_holds(head, doc);
        if any_holds(parts, doc) {
            if tree_holds(parts.last(), doc) {
                assert(tree_holds(parts[parts.len() - 1], doc));
            } else {
                let i = choose|i: int| 0 <= i < head.len() && tree_holds(#[trigger] head[i], doc);
                assert(tree_holds(parts[i], doc));
            }
        }
        if exists|i: int| 0 <= i < parts.len() && tree_holds(#[trigger] parts[i], doc) {
            let i = choose|i: int| 0 <= i < parts.len() && tree_holds(#[trigger] parts[i], doc);
            if i < parts.len() - 1 {
                assert(tree_holds(head[i], doc));
            }
        }
    }
}

/// A document passes all of the trees exactly if it passes each.
pub proof fn lemma_all_hold(parts: Seq<FilterTree>, doc: IndexedFields)
    ensures
        all_hold(parts, doc) <==> forall|i: int|
            0 <= i < parts.len() ==> tree_holds(#[trigger] parts[i], doc),
    decreases parts.len(),
{
    if parts.len() > 0 {
        let head = parts.drop_last();
        lemma_all_hold(head, doc);
        if all_hold(parts, doc) {
            assert forall|i: int| 0 <= i < parts.len() implies tree_holds(
                #[trigger] parts[i],
                doc,
            ) by {
                if i < parts.len() - 1 {
                    assert(tree_holds(head[i], doc));
                }
            }
        }
        if forall|i: int| 0 <= i < parts.len() ==> tree_holds(#[trigger] parts[i], doc) {
            assert(tree_holds(parts[parts.len() - 1], doc));
            assert forall|i: int| 0 <= i < head.len() implies tree_holds(#[trigger] head[i], doc) by {
                assert(tree_holds(parts[i], doc));
            }
        }
    }
}

/// The views of a sequence of predicates.
pub open spec fn trees(parts: Seq<FilterExpr>) -> Seq<FilterTree> {
    Seq::new(parts.len(), |i: int| parts[i]@)
}

/// Appending one predicate appends its view.
pub proof fn lemma_trees_push(parts: Seq<FilterExpr>, last: FilterExpr)
    ensures
        trees(parts.push(last)) == trees(parts).push(last@),
{
    assert(trees(parts.push(last)) =~= trees(parts).push(last@));
}

/// The trees of a sequence are the views of its members.
pub proof fn lemma_expr_trees(parts: Seq<FilterExpr>)
    ensures
        expr_trees(parts) == trees(parts),
    decreases parts.len(),
{
    if parts.len() > 0 {
        lemma_expr_trees(parts.drop_last());
        lemma_trees_push(parts.drop_last(), parts.last());
        assert(parts.drop_last().push(parts.last()) =~= parts);
    } else {
        assert(trees(parts) =~= Seq::<FilterTree>::empty());
    }
}

/// The tree of a predicate, if there is one.
pub open spec fn tree_of(expr: Option<FilterExpr>) -> Option<FilterTree> {
    match expr {
        Some(e) => Some(e@),
        None => None,
    }
}

/// `now` moved back by `seconds`, but not before the epoch.
pub open spec fn moved_back(now: u64, seconds: int) -> u64 {
    if now >= seconds {
        (now - seconds) as u64
    } else {
        0
    }
}

/// The window `[start, end)` in Unix seconds that `range` means at `now`.
/// A day has 86400 seconds and starts at a multiple of that; "this week"
/// and "this month" are the last 7 and the last 30 days.
pub open spec fn time_window(range: TimeRange, now: u64) -> (u64, u64) {
    match range {
        TimeRange::LastHours(n) => (moved_back(now, n * 3600), now),
        TimeRange::LastDays(n) => (moved_back(now, n * 86400), now),
        TimeRange::LastWeeks(n) => (moved_back(now, n * 7 * 86400), now),
        TimeRange::LastMonths(n) => (moved_back(now, n * 30 * 86400), now),
        TimeRange::Between(start, end) => (start, end),
        TimeRange::After(start) => (start, u64::MAX),
        TimeRange::Before(end) => (0, end),
        TimeRange::Today => ((now / 86400 * 86400) as u64, now),
        TimeRange::ThisWeek => (moved_back(now, 604800), now),
        TimeRange::ThisMonth => (moved_back(now, 2592000), now),
    }
}

/// The numeric field that holds the time `field`.
pub open spec fn time_field_name(field: TimeField) -> Seq<char> {
    match field {
        TimeField::Created => FIELD_CREATED_TIME@,
        TimeField::Modified => FIELD_MODIFIED_TIME@,
        TimeField::Indexed => FIELD_INDEXED_TIME@,
    }
}

/// The predicate for a time window: the field lies in `[start, end)`.
pub open spec fn time_tree(schema: Seq<crate::schema::FieldView>, filter: TimeFilter, now: u64)
    -> Option<FilterTree> {
    if has_field(schema, time_field_name(filter.field)) {
        let w = time_window(filter.range, now);
        Some(
            FilterTree::Range {
                field: time_field_name(filter.field),
                lower: RangeBound::Included(w.0),
                upper: RangeBound::Excluded(w.1),
            },
        )
    } else {
        None
    }
}

/// One term predicate on `field` for each value.
pub open spec fn term_trees(field: Seq<char>, values: Seq<Seq<char>>) -> Seq<FilterTree> {
    Seq::new(values.len(), |i: int| FilterTree::Term { field, text: values[i] })
}

/// The predicate "`field` holds one of the values".
pub open spec fn terms_tree(
    schema: Seq<crate::schema::FieldView>,
    field: Seq<char>,
    values: Seq<Seq<char>>,
) -> Option<FilterTree> {
    if has_field(schema, field) && values.len() > 0 {
        Some(FilterTree::AnyOf(term_trees(field, values)))
    } else {
        None
    }
}

/// The bounds that a size condition puts on the size.
pub open spec fn size_bounds(filter: SizeFilter) -> (RangeBound, RangeBound) {
    match filter {
        SizeFilter::GreaterThan(n) => (RangeBound::Excluded(n), RangeBound::Unbounded),
        SizeFilter::LessThan(n) => (RangeBound::Unbounded, RangeBound::Excluded(n)),
        SizeFilter::Between(min, max) => (RangeBound::Included(min), RangeBound::Excluded(max)),
    }
}

/// The predicate for a size condition.
pub open spec fn size_tree(schema: Seq<crate::schema::FieldView>, filter: SizeFilter) -> Option<
    FilterTree,
> {
    if has_field(schema, FIELD_FILE_SIZE@) {
        Some(
            FilterTree::Range {
                field: FIELD_FILE_SIZE@,
                lower: size_bounds(filter).0,
                upper: size_bounds(filter).1,
            },
        )
    } else {
        None
    }
}

/// A predicate as a list of none or one.
pub open spec fn clause(tree: Option<FilterTree>) -> Seq<FilterTree> {
    match tree {
        Some(t) => seq![t],
        None => Seq::empty(),
    }
}

/// The predicates that the conditions other than the path patterns
/// compile to, in the order time, type, size, tags.
pub open spec fn filter_clauses(
    schema: Seq<crate::schema::FieldView>,
    filters: QueryFiltersView,
    now: u64,
) -> Seq<FilterTree> {
    clause(
        match filters.time {
            Some(t) => time_tree(schema, t, now),
            None => None,
        },
    ) + clause(terms_tree(schema, FIELD_FILE_TYPE@, filters.file_types)) + clause(
        match filters.size {
            Some(s) => size_tree(schema, s),
            None => None,
        },
    ) + clause(terms_tree(schema, FIELD_TAGS@, filters.tags))
}

/// The predicate tree of the conditions: all of `filter_clauses`, or no
/// tree where there is none of them.
pub open spec fn filter_tree(
    schema: Seq<crate::schema::FieldView>,
    filters: QueryFiltersView,
    now: u64,
) -> Option<FilterTree> {
    if filter_clauses(schema, filters, now).len() == 0 {
        None
    } else {
        Some(FilterTree::AllOf(filter_clauses(schema, filters, now)))
    }
}

/// Compiles filter conditions for an index with a given schema.
pub struct FilterBuilder<'a> {
    schema: &'a SchemaDescriptor,
}

impl<'a> FilterBuilder<'a> {
    /// The schema that the builder looks fields up in.
    pub closed spec fn schema(&self) -> Seq<crate::schema::FieldView> {
        self.schema@
    }

    pub fn new(schema: &'a SchemaDescriptor) -> (builder: Self)
        ensures
            builder.schema() == schema@,
    {
        FilterBuilder { schema }
    }

    /// The window `[start, end)` that `range` means at the time `now`.
    pub fn calculate_time_range(&self, range: &TimeRange, now: u64) -> (w: (u64, u64))
        ensures
            w == time_window(*range, now),
    {
        match range {
            TimeRange::LastHours(n) => (back_from(now, *n as u64 * 3600), now),
            TimeRange::LastDays(n) => (back_from(now, *n as u64 * 86400), now),
            TimeRange::LastWeeks(n) => (back_from(now, *n as u64 * 7 * 86400), now),
            TimeRange::LastMonths(n) => (back_from(now, *n as u64 * 30 * 86400), now),
            TimeRange::Between(start, end) => (*start, *end),
            TimeRange::After(start) => (*start, u64::MAX),
            TimeRange::Before(end) => (0, *end),
            TimeRange::Today => ((now / 86400) * 86400, now),
            TimeRange::ThisWeek => (back_from(now, 7 * 86400), now),
            TimeRange::ThisMonth => (back_from(now, 30 * 86400), now),
        }
    }

    /// The predicate for a time window, if the schema has the field.
    pub fn build_time_query(&self, filter: &TimeFilter, now: u64) -> (r: Option<FilterExpr>)
        ensures
            tree_of(r) == time_tree(self.schema(), *filter, now),
    {
        let name = match filter.field {
            TimeField::Created => FIELD_CREATED_TIME,
            TimeField::Modified => FIELD_MODIFIED_TIME,
            TimeField::Indexed => FIELD_INDEXED_TIME,
        };
        if self.schema.get_field(name).is_none() {
            return None;
        }
        let (start, end) = self.calculate_time_range(&filter.range, now);
        Some(
            FilterExpr::Range {
                field: name.to_owned(),
                lower: RangeBound::Included(start),
                upper: RangeBound::Excluded(end),
            },
        )
    }

    /// The predicate "the file type is one of `types`", if the schema has
    /// the field and there is a type.
    pub fn build_type_query(&self, types: &[String]) -> (r: Option<FilterExpr>)
        ensures
            tree_of(r) == terms_tree(self.schema(), FIELD_FILE_TYPE@, string_views(types@)),
    {
        self.any_term(FIELD_FILE_TYPE, types)
    }

    /// The predicate for a size condition, if the schema has the field.
    pub fn build_size_query(&self, filter: &SizeFilter) -> (r: Option<FilterExpr>)
        ensures
            tree_of(r) == size_tree(self.schema(), *filter),
    {
        if self.schema.get_field(FIELD_FILE_SIZE).is_none() {
            return None;
        }
        let (lower, upper) = match filter {
            SizeFilter::GreaterThan(n) => (RangeBound::Excluded(*n), RangeBound::Unbounded),
            SizeFilter::LessThan(n) => (RangeBound::Unbounded, RangeBound::Excluded(*n)),
            SizeFilter::Between(min, max) => (
                RangeBound::Included(*min),
                RangeBound::Excluded(*max),
            ),
        };
        Some(FilterExpr::Range { field: FIELD_FILE_SIZE.to_owned(), lower, upper })
    }

    /// The predicate "one of `tags` is among the tags", if the schema has
    /// the field and there is a tag.
    pub fn build_tags_query(&self, tags: &[String]) -> (r: Option<FilterExpr>)
        ensures
            tree_of(r) == terms_tree(self.schema(), FIELD_TAGS@, string_views(tags@)),
    {
        self.any_term(FIELD_TAGS, tags)
    }

    fn any_term(&self, field: &str, values: &[String]) -> (r: Option<FilterExpr>)
        ensures
            tree_of(r) == terms_tree(self.schema(), field@, string_views(values@)),
    {
        if self.schema.get_field(field).is_none() || values.len() == 0 {
            return None;
        }
        let ghost all = term_trees(field@, string_views(values@));
        let mut parts: Vec<FilterExpr> = Vec::new();
        let mut i: usize = 0;
        assert(trees(parts@) =~= all.take(0));
        while i < values.len()
            invariant
                i <= values.len(),
                all == term_trees(field@, string_views(values@)),
                trees(parts@) == all.take(i as int),
            decreases values.len() - i,
        {
            let part = FilterExpr::Term { field: field.to_owned(), text: values[i].clone() };
            assert(part@ == all[i as int]);
            proof {
                lemma_trees_push(parts@, part);
                assert(all.take(i + 1) =~= all.take(i as int).push(all[i as int]));
            }
            parts.push(part);
            i += 1;
        }
        assert(all.take(values.len() as int) =~= all);
        proof {
            lemma_expr_trees(parts@);
        }
        let expr = FilterExpr::AnyOf(parts);
        Some(expr)
    }

    /// The predicate tree of the conditions, as of the time `now`. The path
    /// patterns are not part of it.
    pub fn build_filter_query(&self, filters: &QueryFilters, now: u64) -> (r: Option<FilterExpr>)
        ensures
            tree_of(r) == filter_tree(self.schema(), filters@, now),
    {
        let mut clauses: Vec<FilterExpr> = Vec::new();
        let ghost schema = self.schema();
        let ghost time_part = clause(
            match filters.time {
                Some(t) => time_tree(schema, t, now),
                None => None,
            },
        );
        let ghost type_part = clause(terms_tree(schema, FIELD_FILE_TYPE@, filters@.file_types));
        let ghost size_part = clause(
            match filters.size {
                Some(s) => size_tree(schema, s),
                None => None,
            },
        );
        let ghost tags_part = clause(terms_tree(schema, FIELD_TAGS@, filters@.tags));
        if let Some(time) = &filters.time {
            if let Some(expr) = self.build_time_query(time, now) {
                clauses.push(expr);
            }
        }
        assert(trees(clauses@) =~= time_part);
        if filters.file_types.len() > 0 {
            if let Some(expr) = self.build_type_query(filters.file_types.as_slice()) {
                clauses.push(expr);
            }
        }
        assert(trees(clauses@) =~= time_part + type_part);
        if let Some(size) = &filters.size {
            if let Some(expr) = self.build_size_query(size) {
                clauses.push(expr);
            }
        }
        assert(trees(clauses@) =~= time_part + type_part + size_part);
        if filters.tags.len() > 0 {
            if let Some(expr) = self.build_tags_query(filters.tags.as_slice()) {
                clauses.push(expr);
            }
        }
        assert(trees(clauses@) =~= time_part + type_part + size_part + tags_part);
        if clauses.len() == 0 {
            None
        } else {
            proof {
                lemma_expr_trees(clauses@);
            }
            Some(FilterExpr::AllOf(clauses))
        }
    }
}

/// `now` minus `seconds`, or zero where that is before the epoch.
fn back_from(now: u64, seconds: u64) -> (start: u64)
    ensures
        start == moved_back(now, seconds as int),
{
    if now >= seconds {
        now - seconds
    } else {
        0
    }
}

/// Whether a document's number in `field` lies between the bounds.
pub open spec fn number_within(
    doc: IndexedFields,
    field: Seq<char>,
    lower: RangeBound,
    upper: RangeBound,
) -> bool {
    doc.numbers.dom().contains(field) && within(doc.numbers[field], lower, upper)
}

/// Whether `field` of a document holds one of the values.
pub open spec fn holds_any(doc: IndexedFields, field: Seq<char>, values: Seq<Seq<char>>) -> bool {
    exists|i: int|
        0 <= i < values.len() && doc.terms.dom().contains(field) && doc.terms[field].contains(
            #[trigger] values[i],
        )
}

/// Whether a document meets the conditions other than the path patterns,
/// each read off the document directly: the time lies in the window, the
/// type is one of the types, the size meets the size condition, and one
/// of the tags is among the document's.
pub open spec fn filters_hold(filters: QueryFiltersView, now: u64, doc: IndexedFields) -> bool {
    &&& filters.time matches Some(t) ==> number_within(
        doc,
        time_field_name(t.field),
        RangeBound::Included(time_window(t.range, now).0),
        RangeBound::Excluded(time_window(t.range, now).1),
    )
    &&& filters.file_types.len() > 0 ==> holds_any(doc, FIELD_FILE_TYPE@, filters.file_types)
    &&& filters.size matches Some(s) ==> number_within(
        doc,
        FIELD_FILE_SIZE@,
        size_bounds(s).0,
        size_bounds(s).1,
    )
    &&& filters.tags.len() > 0 ==> holds_any(doc, FIELD_TAGS@, filters.tags)
}

/// Whether the schema has every field that filter conditions refer to.
pub open spec fn has_filter_fields(schema: Seq<crate::schema::FieldView>) -> bool {
    &&& has_field(schema, FIELD_CREATED_TIME@)
    &&& has_field(schema, FIELD_MODIFIED_TIME@)
    &&& has_field(schema, FIELD_INDEXED_TIME@)
    &&& has_field(schema, FIELD_FILE_TYPE@)
    &&& has_field(schema, FIELD_FILE_SIZE@)
    &&& has_field(schema, FIELD_TAGS@)
}

/// A document passes "one of the terms" exactly if its field holds one of
/// the values.
pub proof fn lemma_any_term_holds(field: Seq<char>, values: Seq<Seq<char>>, doc: IndexedFields)
    ensures
        tree_holds(FilterTree::AnyOf(term_trees(field, values)), doc) <==> holds_any(
            doc,
            field,
            values,
        ),
{
    let parts = term_trees(field, values);
    lemma_any_holds(parts, doc);
    if any_holds(parts, doc) {
        let i = choose|i: int| 0 <= i < parts.len() && tree_holds(#[trigger] parts[i], doc);
        assert(doc.terms[field].contains(values[i]));
    }
    if holds_any(doc, field, values) {
        let i = choose|i: int|
            0 <= i < values.len() && doc.terms.dom().contains(field) && doc.terms[field].contains(
                #[trigger] values[i],
            );
        assert(tree_holds(parts[i], doc));
    }
}

/// The compiled tree says what the conditions say: on an index that has
/// the fields, a document passes the tree exactly if it meets the
/// conditions read off the document directly; and where there is no tree,
/// every document meets them.
pub proof fn lemma_tree_agrees_with_filters(
    schema: Seq<crate::schema::FieldView>,
    filters: QueryFiltersView,
    now: u64,
    doc: IndexedFields,
)
    requires
        has_filter_fields(schema),
    ensures
        match filter_tree(schema, filters, now) {
            Some(tree) => tree_holds(tree, doc) <==> filters_hold(filters, now, doc),
            None => filters_hold(filters, now, doc),
        },
{
    let time_part = clause(
        match filters.time {
            Some(t) => time_tree(schema, t, now),
            None => None,
        },
    );
    let type_part = clause(terms_tree(schema, FIELD_FILE_TYPE@, filters.file_types));
    let size_part = clause(
        match filters.size {
            Some(s) => size_tree(schema, s),
            None => None,
        },
    );
    let tags_part = clause(terms_tree(schema, FIELD_TAGS@, filters.tags));
    let all = filter_clauses(schema, filters, now);
    assert(all == time_part + type_part + size_part + tags_part);
    lemma_any_term_holds(FIELD_FILE_TYPE@, filters.file_types, doc);
    lemma_any_term_holds(FIELD_TAGS@, filters.tags, doc);
    let a = time_part.len() as int;
    let b = a + type_part.len();
    let c = b + size_part.len();
    lemma_all_hold(all, doc);
    if all.len() > 0 {
        let tree = FilterTree::AllOf(all);
        if tree_holds(tree, doc) {
            if a > 0 {
                assert(tree_holds(all[0], doc));
            }
            if b > a {
                assert(tree_holds(all[a], doc));
            }
            if c > b {
                assert(tree_holds(all[b], doc));
            }
            if all.len() > c {
                assert(tree_holds(all[c], doc));
            }
        }
        if filters_hold(filters, now, doc) {
            assert forall|i: int| 0 <= i < all.len() implies tree_holds(#[trigger] all[i], doc) by {
                if i < a {
                    assert(all[i] == time_part[0]);
                } else if i < b {
                    assert(all[i] == type_part[0]);
                } else if i < c {
                    assert(all[i] == size_part[0]);
                } else {
                    assert(all[i] == tags_part[0]);
                }
            }
        }
    }
}

/// A compiled glob pattern of the `glob` crate.
#[verifier::external_type_specification]
#[verifier::external_body]
pub struct ExPattern(Pattern);

/// The text that a compiled pattern was compiled from, as
/// `glob::Pattern::as_str` returns it.
pub uninterp spec fn glob_source(pattern: Pattern) -> Seq<char>;

/// Whether `glob::Pattern::new` accepts the text as a pattern.
pub uninterp spec fn glob_compiles(text: Seq<char>) -> bool;

/// Whether the pattern compiled from `pattern` matches `path`, as
/// `glob::Pattern::matches` decides it with its default options.
pub uninterp spec fn glob_matches(pattern: Seq<char>, path: Seq<char>) -> bool;

/// Calls `glob::Pattern::new`. There is a pattern exactly for the texts
/// that the crate accepts, and the pattern keeps the text it came from.
#[verifier::external_body]
fn compile_glob(text: &str) -> (r: Option<Pattern>)
    ensures
        r.is_some() == glob_compiles(text@),
        r matches Some(p) ==> glob_source(p) == text@,
{
    Pattern::new(text).ok()
}

/// Calls `glob::Pattern::matches`, whose result depends on the pattern's
/// text and on the path alone.
#[verifier::external_body]
fn glob_hit(pattern: &Pattern, path: &str) -> (hit: bool)
    ensures
        hit == glob_matches(glob_source(*pattern), path@),
{
    pattern.matches(path)
}

/// The filters whose pattern the `glob` crate accepts, in order.
pub open spec fn compiled(filters: Seq<PathFilterView>) -> Seq<PathFilterView>
    decreases filters.len(),
{
    if filters.len() == 0 {
        Seq::empty()
    } else if glob_compiles(filters.last().pattern) {
        compiled(filters.drop_last()).push(filters.last())
    } else {
        compiled(filters.drop_last())
    }
}

/// Whether a path passes the rules: no excluding rule matches it, and if
/// there is an including rule, one of those matches it.
pub open spec fn accepts(rules: Seq<PathFilterView>, path: Seq<char>) -> bool {
    &&& forall|i: int|
        0 <= i < rules.len() && (#[trigger] rules[i]).exclude ==> !glob_matches(
            rules[i].pattern,
            path,
        )
    &&& (exists|i: int| 0 <= i < rules.len() && !(#[trigger] rules[i]).exclude) ==> exists|i: int|
        0 <= i < rules.len() && !(#[trigger] rules[i]).exclude && glob_matches(
            rules[i].pattern,
            path,
        )
}

/// What one rule of a matcher says of a path: whether the rule excludes,
/// and whether its pattern matches the path.
#[derive(Debug, Clone, Copy, PartialEq, Eq, Structural)]
pub struct PatternOutcome {
    pub exclude: bool,
    pub hit: bool,
}

/// Whether a path passes, given what each rule says of it: no excluding
/// rule matches, and if there is an including rule, one of those matches.
pub open spec fn verdict_of(outcomes: Seq<PatternOutcome>) -> bool {
    &&& forall|i: int|
        0 <= i < outcomes.len() && (#[trigger] outcomes[i]).exclude ==> !outcomes[i].hit
    &&& (exists|i: int| 0 <= i < outcomes.len() && !(#[trigger] outcomes[i]).exclude)
        ==> exists|i: int|
        0 <= i < outcomes.len() && !(#[trigger] outcomes[i]).exclude && outcomes[i].hit
}

/// Finds `verdict_of`.
pub fn verdict(outcomes: &[PatternOutcome]) -> (ok: bool)
    ensures
        ok == verdict_of(outcomes@),
{
    let mut included = false;
    let mut has_inclusions = false;
    let mut i: usize = 0;
    while i < outcomes.len()
        invariant
            i <= outcomes.len(),
            forall|k: int| 0 <= k < i && (#[trigger] outcomes@[k]).exclude ==> !outcomes@[k].hit,
            has_inclusions == exists|k: int| 0 <= k < i && !(#[trigger] outcomes@[k]).exclude,
            included == exists|k: int|
                0 <= k < i && !(#[trigger] outcomes@[k]).exclude && outcomes@[k].hit,
        decreases outcomes.len() - i,
    {
        if outcomes[i].exclude {
            if outcomes[i].hit {
                return false;
            }
        } else {
            has_inclusions = true;
            if outcomes[i].hit {
                included = true;
            }
        }
        i += 1;
    }
    !has_inclusions || included
}

/// Decides which paths pass a list of path patterns.
pub struct PathMatcher {
    patterns: Vec<(Pattern, bool)>,
}

impl View for PathMatcher {
    type V = Seq<PathFilterView>;

    /// The rules of the matcher: each pattern's text, and whether it
    /// excludes.
    closed spec fn view(&self) -> Seq<PathFilterView> {
        Seq::new(
            self.patterns@.len(),
            |i: int|
                PathFilterView {
                    pattern: glob_source(self.patterns@[i].0),
                    exclude: self.patterns@[i].1,
                },
        )
    }
}

impl PathMatcher {
    /// A matcher for the filters whose pattern is a glob pattern; the
    /// others are left out.
    pub fn new(filters: &[PathFilter]) -> (matcher: Self)
        ensures
            matcher@ == compiled(Seq::new(filters@.len(), |i: int| filters@[i]@)),
    {
        let ghost all = Seq::new(filters@.len(), |i: int| filters@[i]@);
        let mut patterns: Vec<(Pattern, bool)> = Vec::new();
        let mut i: usize = 0;
        let ghost mut rules: Seq<PathFilterView> = Seq::empty();
        assert(all.take(0) =~= Seq::<PathFilterView>::empty());
        while i < filters.len()
            invariant
                i <= filters.len(),
                all == Seq::new(filters@.len(), |i: int| filters@[i]@),
                rules == compiled(all.take(i as int)),
                rules.len() == patterns@.len(),
                forall|k: int|
                    0 <= k < rules.len() ==> (#[trigger] rules[k]) == (PathFilterView {
                        pattern: glob_source(patterns@[k].0),
                        exclude: patterns@[k].1,
                    }),
            decreases filters.len() - i,
        {
            proof {
                assert(all.take(i + 1).drop_last() =~= all.take(i as int));
                assert(all.take(i + 1).last() == filters@[i as int]@);
            }
            match compile_glob(filters[i].pattern.as_str()) {
                Some(p) => {
                    proof {
                        rules = rules.push(filters@[i as int]@);
                    }
                    patterns.push((p, filters[i].exclude));
                },
                None => {},
            }
            i += 1;
        }
        assert(all.take(filters.len() as int) =~= all);
        let matcher = PathMatcher { patterns };
        assert(matcher@ =~= rules);
        matcher
    }

    /// Whether `path` passes: no excluding pattern matches it, and where
    /// there are including patterns, one of them does.
    pub fn matches(&self, path: &str) -> (ok: bool)
        ensures
            ok == accepts(self@, path@),
    {
        let ghost rules = self@;
        let mut outcomes: Vec<PatternOutcome> = Vec::new();
        let mut i: usize = 0;
        while i < self.patterns.len()
            invariant
                i <= self.patterns.len(),
                rules == self@,
                rules.len() == self.patterns.len(),
                outcomes@.len() == i,
                forall|k: int|
                    0 <= k < i ==> (#[trigger] outcomes@[k]) == (PatternOutcome {
                        exclude: rules[k].exclude,
                        hit: glob_matches(rules[k].pattern, path@),
                    }),
            decreases self.patterns.len() - i,
        {
            let hit = glob_hit(&self.patterns[i].0, path);
            assert(rules[i as int].pattern == glob_source(self.patterns@[i as int].0));
            assert(rules[i as int].exclude == self.patterns@[i as int].1);
            outcomes.push(PatternOutcome { exclude: self.patterns[i].1, hit });
            i += 1;
        }
        proof {
            lemma_verdict_accepts(rules, path@, outcomes@);
        }
        verdict(outcomes.as_slice())
    }
}

/// The verdict on the outcomes of a matcher's rules is whether the path
/// passes the rules.
pub proof fn lemma_verdict_accepts(
    rules: Seq<PathFilterView>,
    path: Seq<char>,
    outcomes: Seq<PatternOutcome>,
)
    requires
        outcomes.len() == rules.len(),
        forall|k: int|
            0 <= k < rules.len() ==> (#[trigger] outcomes[k]) == (PatternOutcome {
                exclude: rules[k].exclude,
                hit: glob_matches(rules[k].pattern, path),
            }),
    ensures
        verdict_of(outcomes) == accepts(rules, path),
{
    if verdict_of(outcomes) {
        assert forall|i: int| 0 <= i < rules.len() && (#[trigger] rules[i]).exclude implies !glob_matches(
            rules[i].pattern,
            path,
        ) by {
            assert(outcomes[i].exclude);
        }
        if exists|i: int| 0 <= i < rules.len() && !(#[trigger] rules[i]).exclude {
            let i = choose|i: int| 0 <= i < rules.len() && !(#[trigger] rules[i]).exclude;
            assert(!outcomes[i].exclude);
            let k = choose|k: int|
                0 <= k < outcomes.len() && !(#[trigger] outcomes[k]).exclude && outcomes[k].hit;
            assert(!rules[k].exclude && glob_matches(rules[k].pattern, path));
        }
    }
    if accepts(rules, path) {
        assert forall|i: int| 0 <= i < outcomes.len() && (#[trigger] outcomes[i]).exclude implies !outcomes[i].hit by {
            assert(rules[i].exclude);
        }
        if exists|i: int| 0 <= i < outcomes.len() && !(#[trigger] outcomes[i]).exclude {
            let i = choose|i: int| 0 <= i < outcomes.len() && !(#[trigger] outcomes[i]).exclude;
            assert(!rules[i].exclude);
            let k = choose|k: int|
                0 <= k < rules.len() && !(#[trigger] rules[k]).exclude && glob_matches(
                    rules[k].pattern,
                    path,
                );
            assert(!outcomes[k].exclude && outcomes[k].hit);
        }
    }
}

/// One more excluding rule, anywhere among the rules, never lets a path
/// pass that did not pass without it.
pub proof fn lemma_exclusion_only_rejects(
    rules: Seq<PathFilterView>,
    at: int,
    pattern: Seq<char>,
    path: Seq<char>,
)
    requires
        0 <= at <= rules.len(),
        accepts(rules.insert(at, PathFilterView { pattern, exclude: true }), path),
    ensures
        accepts(rules, path),
{
    let more = rules.insert(at, PathFilterView { pattern, exclude: true });
    assert forall|i: int| 0 <= i < rules.len() && (#[trigger] rules[i]).exclude implies !glob_matches(
        rules[i].pattern,
        path,
    ) by {
        let j = if i < at {
            i
        } else {
            i + 1
        };
        assert(more[j] == rules[i]);
    }
    if exists|i: int| 0 <= i < rules.len() && !(#[trigger] rules[i]).exclude {
        let i = choose|i: int| 0 <= i < rules.len() && !(#[trigger] rules[i]).exclude;
        let j = if i < at {
            i
        } else {
            i + 1
        };
        assert(more[j] == rules[i]);
        let k = choose|k: int|
            0 <= k < more.len() && !(#[trigger] more[k]).exclude && glob_matches(
                more[k].pattern,
                path,
            );
        let back = if k < at {
            k
        } else {
            k - 1
        };
        assert(rules[back] == more[k]);
    }
}

/// The same for the filters that a matcher is made from: with one more
/// excluding filter at the end, the matcher lets no further path pass.
pub proof fn lemma_exclusion_filter_only_rejects(
    filters: Seq<PathFilterView>,
    pattern: Seq<char>,
    path: Seq<char>,
)
    requires
        accepts(compiled(filters.push(PathFilterView { pattern, exclude: true })), path),
    ensures
        accepts(compiled(filters), path),
{
    let added = PathFilterView { pattern, exclude: true };
    assert(filters.push(added).drop_last() =~= filters);
    if glob_compiles(pattern) {
        let rules = compiled(filters);
        assert(rules.push(added) =~= rules.insert(rules.len() as int, added));
        lemma_exclusion_only_rejects(rules, rules.len() as int, pattern, path);
    }
}

/// Where no rule includes, every path that no rule matches passes.
pub proof fn lemma_exclusions_alone_accept(rules: Seq<PathFilterView>, path: Seq<char>)
    requires
        forall|i: int| 0 <= i < rules.len() ==> (#[trigger] rules[i]).exclude,
        forall|i: int| 0 <= i < rules.len() ==> !glob_matches((#[trigger] rules[i]).pattern, path),
    ensures
        accepts(rules, path),
{
}

} // verus!
