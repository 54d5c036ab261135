use ai_search_demo::query::parser::{date_from, size_filter_from, time_range_from};
use ai_search_demo::query::{
    Flag, PathFilter, QueryParser, SizeFilter, TimeField, TimeFilter, TimeRange,
};
use ai_search_demo::text::chars_of;

fn flag(key: &str, value: &str) -> Flag {
    Flag { key: key.to_string(), value: value.to_string() }
}

#[test]
fn test_parse_simple_query() {
    let parser = QueryParser::new();
    let result = parser.parse("rust programming tutorial");
    assert_eq!(result.text, "rust programming tutorial");
    assert!(result.filters.paths.is_empty());
}

#[test]
fn test_parse_with_path_filter() {
    let parser = QueryParser::new();
    let result = parser.parse("kernel docs --path=/usr/src/*");
    assert_eq!(result.text, "kernel docs");
    assert_eq!(result.filters.paths.len(), 1);
    assert_eq!(result.filters.paths[0].pattern, "/usr/src/*");
}

#[test]
fn test_parse_with_multiple_filters() {
    let parser = QueryParser::new();
    let result = parser.parse("os kernel --type=pdf,md --time=7d --path=/docs/*");
    assert_eq!(result.text, "os kernel");
    assert_eq!(result.filters.file_types, vec!["pdf", "md"]);
    assert!(result.filters.time.is_some());
}

#[test]
fn parse_quoted_path_and_relative_time() {
    let q = QueryParser::new().parse("hello world --type=pdf --path=\"/p q/*\" --time=7d");
    assert_eq!(q.raw_text, "hello world");
    assert_eq!(q.text, "hello world");
    assert_eq!(q.filters.file_types, vec!["pdf"]);
    assert_eq!(q.filters.paths.len(), 1);
    assert_eq!(q.filters.paths[0].pattern, "/p q/*");
    assert!(!q.filters.paths[0].exclude);
    assert_eq!(
        q.filters.time,
        Some(TimeFilter { field: TimeField::Modified, range: TimeRange::LastDays(7) })
    );
    assert_eq!(q.filters.size, None);
    assert!(q.filters.tags.is_empty());
}

#[test]
fn parse_text_around_and_between_flags() {
    let q = QueryParser::new().parse("  alpha --tag=x   beta  --type=MD gamma  ");
    assert_eq!(q.raw_text, "alpha beta gamma");
    assert_eq!(q.filters.tags, vec!["x"]);
    assert_eq!(q.filters.file_types, vec!["md"]);
}

#[test]
fn parse_pure_filter_query_has_empty_text() {
    let q = QueryParser::new().parse("--size=>1mb");
    assert_eq!(q.raw_text, "");
    assert_eq!(q.text, "");
    assert_eq!(q.filters.size, Some(SizeFilter::GreaterThan(1024 * 1024)));
}

#[test]
fn parse_empty_input() {
    let q = QueryParser::new().parse("");
    assert_eq!(q.raw_text, "");
    assert!(q.filters.paths.is_empty());
    assert!(q.filters.file_types.is_empty());
    assert!(q.filters.tags.is_empty());
    assert_eq!(q.filters.time, None);
    assert_eq!(q.filters.size, None);
}

#[test]
fn parse_repeated_flags_accumulate() {
    let q = QueryParser::new()
        .parse("x --path=/a/* --exclude-path=/a/tmp/* --path=/b/* --type=pdf --type=txt,md");
    let paths: Vec<(String, bool)> =
        q.filters.paths.iter().map(|p| (p.pattern.clone(), p.exclude)).collect();
    assert_eq!(
        paths,
        vec![
            ("/a/*".to_string(), false),
            ("/b/*".to_string(), false),
            ("/a/tmp/*".to_string(), true)
        ]
    );
    assert_eq!(q.filters.file_types, vec!["pdf", "txt", "md"]);
}

#[test]
fn parse_unknown_keys_are_ignored() {
    let q = QueryParser::new().parse("find --sort=modified --limit=20 --colour=red me");
    assert_eq!(q.raw_text, "find me");
    assert!(q.filters.paths.is_empty());
    assert_eq!(q.filters.time, None);
}

#[test]
fn parse_unreadable_values_are_dropped() {
    let q = QueryParser::new().parse("a --time=soon --size=big --after=yesterday");
    assert_eq!(q.raw_text, "a");
    assert_eq!(q.filters.time, None);
    assert_eq!(q.filters.size, None);
}

#[test]
fn parse_unclosed_quote_runs_to_whitespace() {
    let q = QueryParser::new().parse("--path=\"abc def");
    assert_eq!(q.filters.paths.len(), 1);
    assert_eq!(q.filters.paths[0].pattern, "\"abc");
    assert_eq!(q.raw_text, "def");
}

#[test]
fn parse_empty_quotes_are_a_bare_value() {
    let q = QueryParser::new().parse("--path=\"\" rest");
    assert_eq!(q.filters.paths[0].pattern, "\"\"");
    assert_eq!(q.raw_text, "rest");
}

#[test]
fn parse_flag_needs_key_and_value() {
    let q = QueryParser::new().parse("--=x --path= --Path=/a -- path=/b");
    assert!(q.filters.paths.is_empty());
    assert_eq!(q.raw_text, "--=x --path= --Path=/a -- path=/b");
}

#[test]
fn parse_flag_inside_a_word() {
    let q = QueryParser::new().parse("pre--tag=a,b post");
    assert_eq!(q.filters.tags, vec!["a", "b"]);
    assert_eq!(q.raw_text, "pre post");
}

#[test]
fn parse_value_stops_at_unicode_whitespace() {
    let q = QueryParser::new().parse("--tag=a\u{3000}b");
    assert_eq!(q.filters.tags, vec!["a"]);
    assert_eq!(q.raw_text, "b");
}

#[test]
fn parse_time_field_and_first_time_wins() {
    let q = QueryParser::new().parse("--time-field=created --time=24h --time=1w");
    assert_eq!(
        q.filters.time,
        Some(TimeFilter { field: TimeField::Created, range: TimeRange::LastHours(24) })
    );
    let q = QueryParser::new().parse("--time-field=indexed --time=this-month");
    assert_eq!(
        q.filters.time,
        Some(TimeFilter { field: TimeField::Indexed, range: TimeRange::ThisMonth })
    );
    let q = QueryParser::new().parse("--time-field=other --time=TODAY");
    assert_eq!(
        q.filters.time,
        Some(TimeFilter { field: TimeField::Modified, range: TimeRange::Today })
    );
}

#[test]
fn parse_time_shuts_out_after_and_before() {
    let p = QueryParser::new();
    let q = p.parse("--time=bogus --after=2024-01-01");
    assert_eq!(q.filters.time, None);
    let q = p.parse("--after=2024-01-01 --before=2025-01-01");
    assert_eq!(
        q.filters.time,
        Some(TimeFilter { field: TimeField::Modified, range: TimeRange::After(1_702_944_000) })
    );
    let q = p.parse("--before=1970-01-02");
    assert_eq!(
        q.filters.time,
        Some(TimeFilter { field: TimeField::Modified, range: TimeRange::Before(86_400) })
    );
}

#[test]
fn time_ranges() {
    assert_eq!(time_range_from(&chars_of("7d")), Some(TimeRange::LastDays(7)));
    assert_eq!(time_range_from(&chars_of("24h")), Some(TimeRange::LastHours(24)));
    assert_eq!(time_range_from(&chars_of("1w")), Some(TimeRange::LastWeeks(1)));
    assert_eq!(time_range_from(&chars_of("3m")), Some(TimeRange::LastMonths(3)));
    assert_eq!(time_range_from(&chars_of("today")), Some(TimeRange::Today));
    assert_eq!(time_range_from(&chars_of("week")), Some(TimeRange::ThisWeek));
    assert_eq!(time_range_from(&chars_of("this-week")), Some(TimeRange::ThisWeek));
    assert_eq!(time_range_from(&chars_of("month")), Some(TimeRange::ThisMonth));
    assert_eq!(time_range_from(&chars_of("this-month")), Some(TimeRange::ThisMonth));
    assert_eq!(time_range_from(&chars_of("007d")), Some(TimeRange::LastDays(7)));
    assert_eq!(time_range_from(&chars_of("4294967295h")), Some(TimeRange::LastHours(u32::MAX)));
    assert_eq!(time_range_from(&chars_of("4294967296h")), None);
    assert_eq!(time_range_from(&chars_of("d")), None);
    assert_eq!(time_range_from(&chars_of("7")), None);
    assert_eq!(time_range_from(&chars_of("7y")), None);
    assert_eq!(time_range_from(&chars_of("+7d")), None);
    assert_eq!(time_range_from(&chars_of("7 d")), None);
    assert_eq!(time_range_from(&chars_of("")), None);
}

#[test]
fn time_range_is_read_in_any_letter_case() {
    let p = QueryParser::new();
    assert_eq!(p.parse_time_range("7D"), Some(TimeRange::LastDays(7)));
    assert_eq!(p.parse_time_range("This-Week"), Some(TimeRange::ThisWeek));
}

#[test]
fn dates() {
    assert_eq!(date_from(&chars_of("1970-01-01")), Some(0));
    assert_eq!(date_from(&chars_of("1970-01-02")), Some(86_400));
    assert_eq!(date_from(&chars_of("1970-02-01")), Some(30 * 86_400));
    assert_eq!(date_from(&chars_of("1971-01-01")), Some(365 * 86_400));
    assert_eq!(date_from(&chars_of("2024-03-15")), Some((54 * 365 + 2 * 30 + 14) * 86_400));
    assert_eq!(date_from(&chars_of("+2024-+3-+15")), Some((54 * 365 + 2 * 30 + 14) * 86_400));
    assert_eq!(date_from(&chars_of("2024-13-40")), Some((54 * 365 + 12 * 30 + 39) * 86_400));
    assert_eq!(date_from(&chars_of("1969-12-31")), None);
    assert_eq!(date_from(&chars_of("2024-00-10")), None);
    assert_eq!(date_from(&chars_of("2024-10-00")), None);
    assert_eq!(date_from(&chars_of("2024-10")), None);
    assert_eq!(date_from(&chars_of("2024-10-10-1")), None);
    assert_eq!(date_from(&chars_of("2024/10/10")), None);
    assert_eq!(date_from(&chars_of("2147483648-01-01")), None);
    assert_eq!(date_from(&chars_of("2024-4294967296-01")), None);
    assert_eq!(date_from(&chars_of(" 2024-01-01")), None);
    assert_eq!(date_from(&chars_of("-2024-01-01")), None);
    assert_eq!(QueryParser::new().parse_date("1970-01-03"), Some(2 * 86_400));
}

#[test]
fn size_filters() {
    let kb = 1024u64;
    let mb = 1024 * kb;
    let gb = 1024 * mb;
    assert_eq!(size_filter_from(&chars_of(">1mb")), Some(SizeFilter::GreaterThan(mb)));
    assert_eq!(size_filter_from(&chars_of("<100kb")), Some(SizeFilter::LessThan(100 * kb)));
    assert_eq!(size_filter_from(&chars_of("1mb-10mb")), Some(SizeFilter::Between(mb, 10 * mb)));
    assert_eq!(size_filter_from(&chars_of("500")), Some(SizeFilter::LessThan(500)));
    assert_eq!(size_filter_from(&chars_of("500b")), Some(SizeFilter::LessThan(500)));
    assert_eq!(size_filter_from(&chars_of("2gb")), Some(SizeFilter::LessThan(2 * gb)));
    assert_eq!(size_filter_from(&chars_of(">1.5kb")), Some(SizeFilter::GreaterThan(1536)));
    assert_eq!(size_filter_from(&chars_of("0.5b")), Some(SizeFilter::LessThan(0)));
    assert_eq!(size_filter_from(&chars_of("0.99999999999999999999b")), Some(SizeFilter::LessThan(1)));
    assert_eq!(size_filter_from(&chars_of("1b-2kb")), Some(SizeFilter::Between(1, 2 * kb)));
    assert_eq!(size_filter_from(&chars_of("1-2kb")), Some(SizeFilter::Between(1, 2 * kb)));
    assert_eq!(size_filter_from(&chars_of(">1mb-2mb")), Some(SizeFilter::Between(mb, 2 * mb)));
    assert_eq!(size_filter_from(&chars_of("1mb-10")), Some(SizeFilter::LessThan(mb)));
    assert_eq!(size_filter_from(&chars_of(">1mb-10")), Some(SizeFilter::GreaterThan(mb)));
    assert_eq!(size_filter_from(&chars_of("")), None);
    assert_eq!(size_filter_from(&chars_of(">")), None);
    assert_eq!(size_filter_from(&chars_of("mb")), None);
    assert_eq!(size_filter_from(&chars_of("1.")), None);
    assert_eq!(size_filter_from(&chars_of(".5mb")), None);
    assert_eq!(size_filter_from(&chars_of("1tb")), None);
    assert_eq!(size_filter_from(&chars_of("1k")), None);
    assert_eq!(size_filter_from(&chars_of("1mb-")), None);
    assert_eq!(size_filter_from(&chars_of("1mb-2mb-3mb")), None);
    assert_eq!(size_filter_from(&chars_of("1 mb")), None);
    assert_eq!(size_filter_from(&chars_of("=1mb")), None);
    assert_eq!(size_filter_from(&chars_of("1MB")), None);
    assert_eq!(QueryParser::new().parse_size_filter("1MB"), Some(SizeFilter::LessThan(mb)));
}

#[test]
fn sizes_saturate() {
    assert_eq!(
        size_filter_from(&chars_of("18446744073709551615b")),
        Some(SizeFilter::LessThan(u64::MAX))
    );
    assert_eq!(
        size_filter_from(&chars_of("18446744073709551616")),
        Some(SizeFilter::LessThan(u64::MAX))
    );
    assert_eq!(
        size_filter_from(&chars_of("99999999999999999999999999999gb")),
        Some(SizeFilter::LessThan(u64::MAX))
    );
    assert_eq!(size_filter_from(&chars_of("17179869184gb")), Some(SizeFilter::LessThan(u64::MAX)));
    assert_eq!(
        size_filter_from(&chars_of("17179869183gb")),
        Some(SizeFilter::LessThan(17179869183 * 1024 * 1024 * 1024))
    );
}

#[test]
fn size_bytes() {
    let p = QueryParser::new();
    assert_eq!(p.parse_size_bytes("1", "", "b"), Some(1));
    assert_eq!(p.parse_size_bytes("1", "", "kb"), Some(1024));
    assert_eq!(p.parse_size_bytes("1", "", "mb"), Some(1_048_576));
    assert_eq!(p.parse_size_bytes("1", "", "gb"), Some(1_073_741_824));
    assert_eq!(p.parse_size_bytes("1", "5", "mb"), Some(1_572_864));
    assert_eq!(p.parse_size_bytes("0", "001", "kb"), Some(1));
    assert_eq!(p.parse_size_bytes("0", "0009765625", "kb"), Some(1));
    assert_eq!(p.parse_size_bytes("0", "0009765624", "kb"), Some(0));
    assert_eq!(p.parse_size_bytes("0", "99999999999999999999", "b"), Some(1));
    assert_eq!(p.parse_size_bytes("0", "9999999999999999", "b"), Some(0));
    assert_eq!(p.parse_size_bytes("9007199254740993", "", "b"), Some(9_007_199_254_740_992));
    assert_eq!(p.parse_size_bytes("9007199254740995", "", "b"), Some(9_007_199_254_740_996));
    assert_eq!(p.parse_size_bytes("", "5", "b"), None);
    assert_eq!(p.parse_size_bytes("1", "", "tb"), None);
    assert_eq!(p.parse_size_bytes("1", "", ""), None);
    assert_eq!(p.parse_size_bytes("1x", "", "b"), None);
    assert_eq!(p.parse_size_bytes("1", "x", "b"), None);
}

fn by_doubles(whole: &str, fraction: &str, factor: u64) -> u64 {
    let text = if fraction.is_empty() { whole.to_string() } else { format!("{}.{}", whole, fraction) };
    let number: f64 = text.parse().unwrap();
    (number * factor as f64) as u64
}

const UNITS: [(&str, u64); 4] = [("b", 1), ("kb", 1 << 10), ("mb", 1 << 20), ("gb", 1 << 30)];

#[test]
fn sizes_agree_with_double_arithmetic_on_short_numbers() {
    let p = QueryParser::new();
    let wholes = ["0", "1", "7", "12", "305", "1023", "1024", "99999"];
    let fractions = ["", "0", "5", "25", "125", "75", "001", "999"];
    for (unit, factor) in UNITS.iter() {
        for whole in wholes.iter() {
            for fraction in fractions.iter() {
                let expected = by_doubles(whole, fraction, *factor);
                assert_eq!(
                    p.parse_size_bytes(whole, fraction, unit),
                    Some(expected),
                    "{}.{}{}",
                    whole,
                    fraction,
                    unit
                );
            }
        }
    }
}

#[test]
fn sizes_agree_with_double_arithmetic_on_hard_numbers() {
    let p = QueryParser::new();
    let wholes = [
        "0",
        "000",
        "1",
        "4503599627370495",
        "4503599627370496",
        "4503599627370497",
        "9007199254740991",
        "9007199254740992",
        "9007199254740993",
        "9007199254740994",
        "9007199254740995",
        "18014398509481983",
        "18014398509481985",
        "18014398509481987",
        "36028797018963967",
        "8796093022207",
        "8796093022208",
        "4398046511103",
        "4194303",
        "4194304",
        "8388607",
        "17179869183",
        "17179869184",
        "18446744073709549567",
        "18446744073709550591",
        "18446744073709550592",
        "18446744073709551615",
        "18446744073709551616",
        "99999999999999999999999999999999999999",
    ];
    let fractions = [
        "",
        "0",
        "5",
        "4999999999999999999999999999",
        "5000000000000000000000000000",
        "5000000000000000000000000001",
        "9999999999999999",
        "99999999999999999",
        "999999999999999999999999999999999999999999",
        "0000000000000000000000000000000000000000001",
        "00048828125",
        "000488281249999999999999999999999999",
        "000488281250000000000000000000000001",
        "0009765625",
        "00097656249999999999999999",
        "999023437499999999999999999999",
        "9990234375",
        "99999999906867742538452148437",
        "999999999068677425384521484375",
        "9999999990686774253845214843750000000000000000000001",
        "25",
        "75",
        "3",
        "1",
        "000000000000000011102230246251565404236316680908203125",
        "00000000000000001110223024625156540423631668090820312",
        "99999999999999994448884876874217297882",
        "999999999999999944488848768742172978818416595458984375",
        "9999999999999999444888487687421729788184165954589843750000001",
        "99999999999999988897769753748434595763683319091796875",
        "9999999999999998889776975374843459576368331909179687",
    ];
    for (unit, factor) in UNITS.iter() {
        for whole in wholes.iter() {
            for fraction in fractions.iter() {
                let expected = by_doubles(whole, fraction, *factor);
                assert_eq!(
                    p.parse_size_bytes(whole, fraction, unit),
                    Some(expected),
                    "{}.{}{}",
                    whole,
                    fraction,
                    unit
                );
            }
        }
    }
}

#[test]
fn sizes_agree_with_double_arithmetic_on_many_numbers() {
    let p = QueryParser::new();
    let mut x: u64 = 0x2545_f491_4f6c_dd1d;
    let mut next = move || {
        x ^= x << 13;
        x ^= x >> 7;
        x ^= x << 17;
        x
    };
    for round in 0..6000 {
        let whole_len = 1 + (next() % 21) as usize;
        let frac_len = (next() % 45) as usize;
        let style = next() % 6;
        let digit = |n: u64, style: u64| -> char {
            match style {
                0 => '9',
                1 => '0',
                2 => if n % 7 == 0 { '5' } else { '9' },
                _ => (b'0' + (n % 10) as u8) as char,
            }
        };
        let whole: String = (0..whole_len).map(|_| digit(next(), 3 + style % 3)).collect();
        let fraction: String = (0..frac_len).map(|_| digit(next(), style)).collect();
        let (unit, factor) = UNITS[(round % 4) as usize];
        let expected = by_doubles(&whole, &fraction, factor);
        assert_eq!(
            p.parse_size_bytes(&whole, &fraction, unit),
            Some(expected),
            "{}.{}{}",
            whole,
            fraction,
            unit
        );
    }
    // Numbers just around the double-precision numbers near two to the 53rd.
    for base in [1u64 << 52, 1 << 53, 1 << 54, (1 << 53) - 4, (1 << 63) - 2048, u64::MAX - 4096] {
        for delta in 0..64u64 {
            let n = base.wrapping_add(delta).max(1);
            for fraction in ["", "5", "49999999999999999999", "50000000000000000001"] {
                let whole = n.to_string();
                let expected = by_doubles(&whole, fraction, 1);
                assert_eq!(p.parse_size_bytes(&whole, fraction, "b"), Some(expected), "{}.{}", whole, fraction);
            }
        }
    }
}

#[test]
fn parse_filters_from_flags() {
    let p = QueryParser::new();
    let flags = vec![
        flag("tag", " rust , kernel "),
        flag("type", "PDF, Md"),
        flag("exclude-path", "/tmp/*"),
        flag("path", "/docs/*"),
        flag("size", "1MB-10MB"),
        flag("before", "1970-01-11"),
        flag("time-field", "created"),
        flag("size", ">1b"),
    ];
    let f = p.parse_filters(&flags);
    assert_eq!(f.tags, vec!["rust", "kernel"]);
    assert_eq!(f.file_types, vec!["pdf", "md"]);
    assert_eq!(f.paths.len(), 2);
    assert_eq!(f.paths[0].pattern, "/docs/*");
    assert!(!f.paths[0].exclude);
    assert_eq!(f.paths[1].pattern, "/tmp/*");
    assert!(f.paths[1].exclude);
    assert_eq!(f.size, Some(SizeFilter::Between(1024 * 1024, 10 * 1024 * 1024)));
    assert_eq!(
        f.time,
        Some(TimeFilter { field: TimeField::Created, range: TimeRange::Before(864_000) })
    );
}

#[test]
fn parse_filters_keeps_empty_names() {
    let p = QueryParser::new();
    let f = p.parse_filters(&vec![flag("type", "a,,b"), flag("tag", ",")]);
    assert_eq!(f.file_types, vec!["a", "", "b"]);
    assert_eq!(f.tags, vec!["", ""]);
}

#[test]
fn split_input_gives_text_and_flags() {
    let p = QueryParser::new();
    let (text, flags) = p.split_input(" a --k=v b --x-y=\"1 2\" ");
    assert_eq!(text, "a b");
    let pairs: Vec<(String, String)> =
        flags.iter().map(|f| (f.key.clone(), f.value.clone())).collect();
    assert_eq!(
        pairs,
        vec![("k".to_string(), "v".to_string()), ("x-y".to_string(), "1 2".to_string())]
    );
}

#[test]
fn keyword_extractor_rewrites_the_text() {
    let p = QueryParser::new().with_keyword_extractor(|s: &str| s.to_uppercase());
    let q = p.parse("kernel docs --type=pdf");
    assert_eq!(q.raw_text, "kernel docs");
    assert_eq!(q.text, "KERNEL DOCS");
    assert_eq!(q.filters.file_types, vec!["pdf"]);
}

#[test]
fn keyword_extractor_is_not_asked_for_empty_text() {
    let p = QueryParser::new().with_keyword_extractor(|_s: &str| "never".to_string());
    let q = p.parse("--type=pdf");
    assert_eq!(q.raw_text, "");
    assert_eq!(q.text, "");
}

#[test]
fn path_filter_constructors() {
    let a = PathFilter::inclusion("/a/*");
    assert_eq!(a.pattern, "/a/*");
    assert!(!a.exclude);
    let b = PathFilter::exclude("/b/*");
    assert_eq!(b.pattern, "/b/*");
    assert!(b.exclude);
}
