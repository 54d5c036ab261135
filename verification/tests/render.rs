use ai_search_demo::query::render::{render_filters, write_date, write_size, write_window};
use ai_search_demo::query::{
    Flag, QueryFilters, QueryParser, SizeFilter, TimeField, TimeFilter, TimeRange,
};

fn pairs(flags: &[Flag]) -> Vec<(String, String)> {
    flags.iter().map(|f| (f.key.clone(), f.value.clone())).collect()
}

fn same(a: &QueryFilters, b: &QueryFilters) -> bool {
    let pa: Vec<(String, bool)> = a.paths.iter().map(|p| (p.pattern.clone(), p.exclude)).collect();
    let pb: Vec<(String, bool)> = b.paths.iter().map(|p| (p.pattern.clone(), p.exclude)).collect();
    pa == pb && a.time == b.time && a.file_types == b.file_types && a.size == b.size && a.tags == b.tags
}

fn as_query(flags: &[Flag]) -> String {
    flags.iter().map(|f| format!("--{}=\"{}\"", f.key, f.value)).collect::<Vec<_>>().join(" ")
}

#[test]
fn rendered_flags() {
    let q = QueryParser::new()
        .parse("x --exclude-path=/t/* --path=/d/* --type=PDF,md --tag=a --time=7D --size=1.5KB-2mb");
    let flags = render_filters(&q.filters);
    let s = |a: &str, b: &str| (a.to_string(), b.to_string());
    assert_eq!(
        pairs(&flags),
        vec![
            s("path", "/d/*"),
            s("exclude-path", "/t/*"),
            s("type", "pdf"),
            s("type", "md"),
            s("tag", "a"),
            s("time-field", "modified"),
            s("time", "7d"),
            s("size", "1536b-2097152b"),
        ]
    );
}

#[test]
fn parse_render_parse_is_parse() {
    let parser = QueryParser::new();
    let queries = [
        "",
        "plain text only",
        "a --path=/x/* --exclude-path=/x/tmp/* --path=\"/y z/*\"",
        "--type=pdf,md,TXT --tag=rust, kernel --tag=\"two words\"",
        "--time=24h",
        "--time=3m --time-field=created",
        "--time=today --time-field=indexed",
        "--time=this-week",
        "--time=MONTH",
        "--after=2024-03-15",
        "--before=1970-01-01 --time-field=created",
        "--after=2147483647-4294967295-4294967295",
        "--after=2147483647-1-4294967295",
        "--size=>1mb",
        "--size=<100kb",
        "--size=0.5gb-2.25gb",
        "--size=18446744073709551615",
        "--size=99999999999999999999gb",
        "all --path=/a --type=x --tag=y --time=1w --size=5 together",
        "--time=nonsense --size=nonsense --after=nonsense",
        "--type=a,,b --tag=,",
    ];
    for q in queries.iter() {
        let first = parser.parse(q).filters;
        let flags = render_filters(&first);
        let again = parser.parse_filters(&flags);
        assert!(same(&first, &again), "{}", q);
        let through_text = parser.parse(&as_query(&flags)).filters;
        if first.file_types.iter().all(|t| !t.is_empty()) && first.tags.iter().all(|t| !t.is_empty()) {
            assert!(same(&first, &through_text), "{}", q);
        }
    }
}

#[test]
fn sizes_windows_and_dates_as_text() {
    let text = |v: Vec<char>| v.into_iter().collect::<String>();
    assert_eq!(text(write_size(&SizeFilter::GreaterThan(1_048_576))), ">1048576b");
    assert_eq!(text(write_size(&SizeFilter::LessThan(0))), "<0b");
    assert_eq!(text(write_size(&SizeFilter::Between(1, u64::MAX))), "1b-18446744073709551615b");
    assert_eq!(write_window(&TimeRange::LastDays(7)).map(text), Some("7d".to_string()));
    assert_eq!(write_window(&TimeRange::LastHours(0)).map(text), Some("0h".to_string()));
    assert_eq!(write_window(&TimeRange::LastWeeks(2)).map(text), Some("2w".to_string()));
    assert_eq!(write_window(&TimeRange::LastMonths(u32::MAX)).map(text), Some("4294967295m".to_string()));
    assert_eq!(write_window(&TimeRange::Today).map(text), Some("today".to_string()));
    assert_eq!(write_window(&TimeRange::ThisWeek).map(text), Some("week".to_string()));
    assert_eq!(write_window(&TimeRange::ThisMonth).map(text), Some("month".to_string()));
    assert_eq!(write_window(&TimeRange::After(0)).map(text), None);
    assert_eq!(write_window(&TimeRange::Between(0, 1)).map(text), None);
    assert_eq!(text(write_date(0)), "1970-1-1");
    assert_eq!(text(write_date(86_400)), "1970-1-2");
    assert_eq!(text(write_date(364 * 86_400)), "1970-13-5");
    assert_eq!(text(write_date(365 * 86_400)), "1971-1-1");
    assert_eq!(text(write_date(1_702_944_000)), "2024-1-1");
}

#[test]
fn window_between_two_times_is_not_written() {
    let mut f = QueryFilters::default();
    f.time = Some(TimeFilter { field: TimeField::Created, range: TimeRange::Between(1, 2) });
    let flags = render_filters(&f);
    assert_eq!(pairs(&flags), vec![("time-field".to_string(), "created".to_string())]);
    let again = QueryParser::new().parse_filters(&flags);
    assert_eq!(again.time, None);
}
