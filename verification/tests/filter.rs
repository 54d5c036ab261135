use ai_search_demo::query::filter::{
    verdict, FilterBuilder, FilterExpr, PathMatcher, PatternOutcome, RangeBound,
};
use ai_search_demo::query::{
    PathFilter, QueryFilters, QueryParser, SizeFilter, TimeField, TimeFilter, TimeRange,
};
use ai_search_demo::schema::{build_schema, FieldDescriptor, FieldKind, SchemaDescriptor};

#[test]
fn test_path_matcher() {
    let filters = vec![PathFilter::inclusion("/usr/src/*"), PathFilter::exclude("/usr/src/test/*")];

    let matcher = PathMatcher::new(&filters);

    assert!(matcher.matches("/usr/src/kernel.c"));
    assert!(!matcher.matches("/usr/src/test/foo.c"));
    assert!(!matcher.matches("/home/user/doc.txt"));
}

#[test]
fn path_matcher_without_patterns_accepts_all() {
    let matcher = PathMatcher::new(&[]);
    assert!(matcher.matches("/anything"));
    assert!(matcher.matches(""));
}

#[test]
fn path_matcher_with_excludes_alone_accepts_the_rest() {
    let matcher = PathMatcher::new(&[PathFilter::exclude("/tmp/*"), PathFilter::exclude("*.log")]);
    assert!(matcher.matches("/home/a.txt"));
    assert!(!matcher.matches("/tmp/a.txt"));
    assert!(!matcher.matches("/home/a.log"));
}

#[test]
fn path_matcher_leaves_out_bad_patterns() {
    let matcher = PathMatcher::new(&[PathFilter::inclusion("a**b"), PathFilter::exclude("[")]);
    assert!(matcher.matches("/anything"));
    let matcher = PathMatcher::new(&[PathFilter::inclusion("a**b"), PathFilter::inclusion("/x/*")]);
    assert!(matcher.matches("/x/y"));
    assert!(!matcher.matches("/z/y"));
}

#[test]
fn path_matcher_uses_glob_syntax() {
    let matcher = PathMatcher::new(&[PathFilter::inclusion("/d/?[0-9].t*")]);
    assert!(matcher.matches("/d/a1.txt"));
    assert!(!matcher.matches("/d/a1"));
    assert!(!matcher.matches("/d/ab.txt"));
    assert!(matcher.matches("/d/a1.txt/x"));
    let literal = PathMatcher::new(&[PathFilter::inclusion("/d/a1.txt")]);
    assert!(literal.matches("/d/a1.txt"));
    assert!(!literal.matches("/d/a1.txt2"));
}

#[test]
fn adding_an_exclude_never_admits_a_path() {
    let paths = ["/docs/a.txt", "/docs/tmp/b.txt", "/other/c.md", "/docs/tmp/d.log"];
    let base = vec![PathFilter::inclusion("/docs/*")];
    let more = vec![PathFilter::inclusion("/docs/*"), PathFilter::exclude("/docs/tmp/*")];
    let before = PathMatcher::new(&base);
    let after = PathMatcher::new(&more);
    for p in paths.iter() {
        assert!(!after.matches(p) || before.matches(p));
    }
    assert!(before.matches("/docs/tmp/b.txt"));
    assert!(!after.matches("/docs/tmp/b.txt"));
}

#[test]
fn docs_pattern_with_tmp_excluded() {
    let q = QueryParser::new().parse("--path=/tmp/root/docs/* --exclude-path=/tmp/root/tmp/*");
    let matcher = PathMatcher::new(&q.filters.paths);
    assert!(matcher.matches("/tmp/root/docs/x.txt"));
    assert!(!matcher.matches("/tmp/root/tmp/y.txt"));
}

fn no_filters() -> QueryFilters {
    QueryFilters::default()
}

#[test]
fn no_filters_no_tree() {
    let schema = build_schema();
    let builder = FilterBuilder::new(&schema);
    assert!(builder.build_filter_query(&no_filters(), 1_000_000).is_none());
}

fn range_of(expr: &FilterExpr) -> (String, RangeBound, RangeBound) {
    match expr {
        FilterExpr::Range { field, lower, upper } => (field.clone(), *lower, *upper),
        _ => panic!("not a range"),
    }
}

fn terms_of(expr: &FilterExpr) -> Vec<(String, String)> {
    match expr {
        FilterExpr::AnyOf(parts) => parts
            .iter()
            .map(|p| match p {
                FilterExpr::Term { field, text } => (field.clone(), text.clone()),
                _ => panic!("not a term"),
            })
            .collect(),
        _ => panic!("not a choice"),
    }
}

#[test]
fn size_filter_tree() {
    let schema = build_schema();
    let builder = FilterBuilder::new(&schema);
    let q = QueryParser::new().parse("--size=>1mb");
    let tree = builder.build_filter_query(&q.filters, 0).unwrap();
    match tree {
        FilterExpr::AllOf(parts) => {
            assert_eq!(parts.len(), 1);
            assert_eq!(
                range_of(&parts[0]),
                ("file_size".to_string(), RangeBound::Excluded(1_048_576), RangeBound::Unbounded)
            );
        }
        _ => panic!("not a conjunction"),
    }
    let less = builder.build_size_query(&SizeFilter::LessThan(10)).unwrap();
    assert_eq!(
        range_of(&less),
        ("file_size".to_string(), RangeBound::Unbounded, RangeBound::Excluded(10))
    );
    let between = builder.build_size_query(&SizeFilter::Between(5, 10)).unwrap();
    assert_eq!(
        range_of(&between),
        ("file_size".to_string(), RangeBound::Included(5), RangeBound::Excluded(10))
    );
}

#[test]
fn type_and_tag_trees() {
    let schema = build_schema();
    let builder = FilterBuilder::new(&schema);
    let q = QueryParser::new().parse("--type=pdf,md --tag=rust");
    let tree = builder.build_filter_query(&q.filters, 0).unwrap();
    match tree {
        FilterExpr::AllOf(parts) => {
            assert_eq!(parts.len(), 2);
            assert_eq!(
                terms_of(&parts[0]),
                vec![
                    ("file_type".to_string(), "pdf".to_string()),
                    ("file_type".to_string(), "md".to_string())
                ]
            );
            assert_eq!(terms_of(&parts[1]), vec![("tags".to_string(), "rust".to_string())]);
        }
        _ => panic!("not a conjunction"),
    }
    assert!(builder.build_type_query(&[]).is_none());
    assert!(builder.build_tags_query(&[]).is_none());
}

#[test]
fn all_four_clauses_in_order() {
    let schema = build_schema();
    let builder = FilterBuilder::new(&schema);
    let q = QueryParser::new().parse("--tag=a --size=<9 --type=txt --time=1h --time-field=indexed");
    let tree = builder.build_filter_query(&q.filters, 10_000).unwrap();
    match tree {
        FilterExpr::AllOf(parts) => {
            assert_eq!(parts.len(), 4);
            assert_eq!(
                range_of(&parts[0]),
                ("indexed_time".to_string(), RangeBound::Included(6_400), RangeBound::Excluded(10_000))
            );
            assert_eq!(terms_of(&parts[1]), vec![("file_type".to_string(), "txt".to_string())]);
            assert_eq!(
                range_of(&parts[2]),
                ("file_size".to_string(), RangeBound::Unbounded, RangeBound::Excluded(9))
            );
            assert_eq!(terms_of(&parts[3]), vec![("tags".to_string(), "a".to_string())]);
        }
        _ => panic!("not a conjunction"),
    }
}

#[test]
fn time_windows() {
    let schema = build_schema();
    let b = FilterBuilder::new(&schema);
    let now = 1_700_000_000u64;
    assert_eq!(b.calculate_time_range(&TimeRange::LastHours(2), now), (now - 7_200, now));
    assert_eq!(b.calculate_time_range(&TimeRange::LastDays(7), now), (now - 604_800, now));
    assert_eq!(b.calculate_time_range(&TimeRange::LastWeeks(2), now), (now - 1_209_600, now));
    assert_eq!(b.calculate_time_range(&TimeRange::LastMonths(1), now), (now - 2_592_000, now));
    assert_eq!(b.calculate_time_range(&TimeRange::Between(5, 9), now), (5, 9));
    assert_eq!(b.calculate_time_range(&TimeRange::After(5), now), (5, u64::MAX));
    assert_eq!(b.calculate_time_range(&TimeRange::Before(9), now), (0, 9));
    assert_eq!(b.calculate_time_range(&TimeRange::Today, now), (1_699_920_000, now));
    assert_eq!(b.calculate_time_range(&TimeRange::ThisWeek, now), (now - 604_800, now));
    assert_eq!(b.calculate_time_range(&TimeRange::ThisMonth, now), (now - 2_592_000, now));
    assert_eq!(b.calculate_time_range(&TimeRange::LastDays(u32::MAX), now), (0, now));
    assert_eq!(b.calculate_time_range(&TimeRange::LastHours(1), 100), (0, 100));
    assert_eq!(b.calculate_time_range(&TimeRange::Today, 86_399), (0, 86_399));
}

#[test]
fn time_tree_uses_the_chosen_field() {
    let schema = build_schema();
    let b = FilterBuilder::new(&schema);
    let f = TimeFilter { field: TimeField::Created, range: TimeRange::After(42) };
    let tree = b.build_time_query(&f, 100).unwrap();
    assert_eq!(
        range_of(&tree),
        ("created_time".to_string(), RangeBound::Included(42), RangeBound::Excluded(u64::MAX))
    );
    let f = TimeFilter { field: TimeField::Modified, range: TimeRange::Before(42) };
    let tree = b.build_time_query(&f, 100).unwrap();
    assert_eq!(
        range_of(&tree),
        ("modified_time".to_string(), RangeBound::Included(0), RangeBound::Excluded(42))
    );
}

#[test]
fn clauses_on_missing_fields_are_left_out() {
    let schema = SchemaDescriptor {
        fields: vec![FieldDescriptor {
            name: "file_size".to_string(),
            kind: FieldKind::Number,
            stored: true,
        }],
    };
    let b = FilterBuilder::new(&schema);
    let q = QueryParser::new().parse("--type=pdf --tag=x --time=1d --size=<5");
    let tree = b.build_filter_query(&q.filters, 0).unwrap();
    match tree {
        FilterExpr::AllOf(parts) => assert_eq!(parts.len(), 1),
        _ => panic!("not a conjunction"),
    }
    let empty = SchemaDescriptor { fields: vec![] };
    assert!(FilterBuilder::new(&empty).build_filter_query(&q.filters, 0).is_none());
}

#[test]
fn schema_fields_and_handles() {
    let schema = build_schema();
    let names: Vec<&str> = schema.fields.iter().map(|f| f.name.as_str()).collect();
    assert_eq!(
        names,
        vec![
            "title",
            "body",
            "tags",
            "path",
            "parent_path",
            "filename",
            "file_type",
            "file_size",
            "modified_time",
            "created_time",
            "indexed_time"
        ]
    );
    assert_eq!(schema.get_field("title"), Some(0));
    assert_eq!(schema.get_field("path"), Some(3));
    assert_eq!(schema.get_field("indexed_time"), Some(10));
    assert_eq!(schema.get_field("nothing"), None);
    assert_eq!(schema.fields[0].kind, FieldKind::Text);
    assert_eq!(schema.fields[3].kind, FieldKind::Keyword);
    assert_eq!(schema.fields[7].kind, FieldKind::Number);
    assert!(schema.fields.iter().all(|f| f.stored));
}

#[test]
fn verdict_on_outcomes() {
    let o = |exclude: bool, hit: bool| PatternOutcome { exclude, hit };
    assert!(verdict(&[]));
    assert!(verdict(&[o(false, true)]));
    assert!(!verdict(&[o(false, false)]));
    assert!(verdict(&[o(true, false)]));
    assert!(!verdict(&[o(true, true)]));
    assert!(verdict(&[o(false, false), o(false, true), o(true, false)]));
    assert!(!verdict(&[o(false, true), o(true, true)]));
    assert!(!verdict(&[o(true, false), o(false, false)]));
    assert!(verdict(&[o(true, false), o(true, false)]));
}
