use ai_search_demo::api::{
    default_limit, default_snippet_length, default_true, format_file_size, format_timestamp,
    ErrorResponse, FileMetadataResponse, QueryFiltersRequest, QueryInfo, SearchRequest,
    SearchResponse, SearchResult,
};
use ai_search_demo::query::SortBy;

#[test]
fn test_format_file_size() {
    assert_eq!(format_file_size(500), "500 B");
    assert_eq!(format_file_size(1024), "1.00 KB");
    assert_eq!(format_file_size(1536), "1.50 KB");
    assert_eq!(format_file_size(1048576), "1.00 MB");
    assert_eq!(format_file_size(1073741824), "1.00 GB");
}

#[test]
fn test_search_result() {
    let result = SearchResult::new("/home/user/docs/report.pdf", (0.95f32).to_bits())
        .with_title("Annual Report 2024")
        .with_metadata(FileMetadataResponse::new("pdf", 1024 * 1024));

    assert_eq!(result.filename, "report.pdf");
    assert_eq!(result.parent_path, "/home/user/docs");
    assert_eq!(result.title, Some("Annual Report 2024".to_string()));
}

fn by_doubles(bytes: u64) -> String {
    const KB: u64 = 1024;
    const MB: u64 = KB * 1024;
    const GB: u64 = MB * 1024;
    if bytes >= GB {
        format!("{:.2} GB", bytes as f64 / GB as f64)
    } else if bytes >= MB {
        format!("{:.2} MB", bytes as f64 / MB as f64)
    } else if bytes >= KB {
        format!("{:.2} KB", bytes as f64 / KB as f64)
    } else {
        format!("{} B", bytes)
    }
}

#[test]
fn file_sizes_agree_with_double_arithmetic() {
    let mut samples: Vec<u64> = vec![
        0,
        1,
        999,
        1023,
        1024,
        1025,
        1029,
        1034,
        1035,
        1152,
        1280,
        1408,
        2047,
        10 * 1024 + 5,
        1024 * 1024 - 1,
        1024 * 1024 + 5242,
        1024 * 1024 + 5243,
        1024 * 1024 * 1024 - 1,
        1024 * 1024 * 1024 + 5_368_709,
        5 * 1024 * 1024 * 1024 / 2,
        (1 << 53) - 1,
        1 << 53,
        (1 << 53) + 1,
        (1 << 53) + 2,
        (1 << 53) + 3,
        (1 << 54) + 2,
        (1 << 54) + 6,
        (1 << 60) + 12345,
        u64::MAX - 1024,
        u64::MAX - 1023,
        u64::MAX - 1,
        u64::MAX,
    ];
    let mut x: u64 = 0x9e37_79b9_7f4a_7c15;
    for _ in 0..4000 {
        x ^= x << 13;
        x ^= x >> 7;
        x ^= x << 17;
        samples.push(x);
        samples.push(x >> 11);
        samples.push(x >> 20);
        samples.push(x >> 33);
        samples.push(x >> 45);
        samples.push((x >> 40) * 128);
    }
    for unit in [1u64 << 10, 1 << 20, 1 << 30] {
        for k in 0..3000u64 {
            samples.push(unit * k / 200 + unit);
            samples.push(unit + k * (unit / 1024 + 1) / 8);
        }
    }
    for bytes in samples {
        assert_eq!(format_file_size(bytes), by_doubles(bytes), "{}", bytes);
    }
}

#[test]
fn file_size_ties_round_to_even() {
    assert_eq!(format_file_size(1152), "1.12 KB");
    assert_eq!(format_file_size(1408), "1.38 KB");
    assert_eq!(format_file_size(u64::MAX), "17179869184.00 GB");
}

#[test]
fn timestamps_for_a_reader() {
    let now = 1_000_000u64;
    assert_eq!(format_timestamp(now + 1, now), "未来");
    assert_eq!(format_timestamp(now, now), "刚刚");
    assert_eq!(format_timestamp(now - 59, now), "刚刚");
    assert_eq!(format_timestamp(now - 60, now), "1 分钟前");
    assert_eq!(format_timestamp(now - 3_599, now), "59 分钟前");
    assert_eq!(format_timestamp(now - 3_600, now), "1 小时前");
    assert_eq!(format_timestamp(now - 86_399, now), "23 小时前");
    assert_eq!(format_timestamp(now - 86_400, now), "1 天前");
    assert_eq!(format_timestamp(now - 604_799, now), "6 天前");
    assert_eq!(format_timestamp(now - 604_800, now), "7天前");
    assert_eq!(format_timestamp(0, now), "11天前");
}

#[test]
fn search_request_defaults_and_builders() {
    assert_eq!(default_limit(), 20);
    assert!(default_true());
    assert_eq!(default_snippet_length(), 200);
    let r = SearchRequest::new("os --type=pdf");
    assert_eq!(r.query, "os --type=pdf");
    assert_eq!(r.limit, 20);
    assert_eq!(r.offset, 0);
    assert!(r.highlight);
    assert_eq!(r.snippet_length, 200);
    assert!(r.use_ai);
    assert!(r.filters.is_none());
    let d = SearchRequest::default();
    assert_eq!(d.query, "");
    assert_eq!(d.limit, 20);
    let r = r.with_limit(10).with_offset(30);
    assert_eq!((r.limit, r.offset), (10, 30));
    let o = r.to_query_options();
    assert_eq!((o.limit, o.offset, o.highlight, o.preview_length), (10, 30, true, 200));
    assert_eq!(o.sort_by, SortBy::Relevance);
    let mut filters = QueryFiltersRequest::default();
    filters.sort_by = Some(SortBy::SizeDesc);
    let r = r.with_filters(filters);
    assert_eq!(r.to_query_options().sort_by, SortBy::SizeDesc);
    assert_eq!(r.limit, 10);
}

#[test]
fn search_response_pagination() {
    let info = QueryInfo::new("q --type=pdf", "q")
        .with_keywords(vec!["k".to_string()])
        .add_filter("a".to_string())
        .add_filter("b".to_string());
    assert_eq!(info.raw_query, "q --type=pdf");
    assert_eq!(info.search_text, "q");
    assert_eq!(info.keywords, vec!["k"]);
    assert_eq!(info.applied_filters, vec!["a", "b"]);
    let one = SearchResult::new("/a/b.txt", 0);
    let r = SearchResponse::new(info, vec![one], 5);
    assert_eq!(r.total, 5);
    assert_eq!((r.pagination.offset, r.pagination.limit, r.pagination.has_more), (0, 1, true));
    assert_eq!(r.took_ms, 0);
    assert!(r.aggregations.is_none());
    let r = r.with_pagination(2, 3);
    assert!(!r.pagination.has_more);
    let r = r.with_pagination(2, 2);
    assert!(r.pagination.has_more);
    let r = r.with_pagination(usize::MAX, usize::MAX);
    assert!(!r.pagination.has_more);
    let r = r.with_pagination(5, 0).with_took(15);
    assert!(!r.pagination.has_more);
    assert_eq!(r.took_ms, 15);
    assert_eq!(r.results.len(), 1);
}

#[test]
fn search_result_parts() {
    let r = SearchResult::new("/home/user/docs/report.pdf", 7);
    assert_eq!(r.path, "/home/user/docs/report.pdf");
    assert_eq!(r.score_bits, 7);
    assert!(r.title.is_none());
    assert!(r.highlights.is_empty());
    assert!(r.tags.is_empty());
    assert_eq!(r.metadata.file_size, 0);
    let bare = SearchResult::new("", 0);
    assert_eq!(bare.filename, "");
    assert_eq!(bare.parent_path, "");
    let root = SearchResult::new("/", 0);
    assert_eq!(root.filename, "");
    assert_eq!(root.parent_path, "");
    let r = r.with_tags(vec!["t".to_string()]).with_highlights(vec![]);
    assert_eq!(r.tags, vec!["t"]);
    assert_eq!(r.filename, "report.pdf");
}

#[test]
fn file_metadata_response() {
    let m = FileMetadataResponse::new("pdf", 1024 * 1024);
    assert_eq!(m.file_type, "pdf");
    assert_eq!(m.file_size, 1_048_576);
    assert_eq!(m.file_size_display, "1.00 MB");
    assert!(m.created_time.is_none() && m.modified_time_display.is_none());
    let m = m.with_times(Some(100), None, Some(300), 400);
    assert_eq!(m.created_time, Some(100));
    assert_eq!(m.modified_time, None);
    assert_eq!(m.indexed_time, Some(300));
    assert_eq!(m.created_time_display, Some("5 分钟前".to_string()));
    assert_eq!(m.modified_time_display, None);
    assert_eq!(m.file_size_display, "1.00 MB");
    let blank = FileMetadataResponse::default();
    assert_eq!(blank.file_type, "");
    assert_eq!(blank.file_size_display, "");
}

#[test]
fn error_response() {
    let e = ErrorResponse::new("FileNotFound", "no such file");
    assert_eq!(e.code, "FileNotFound");
    assert_eq!(e.message, "no such file");
    assert!(e.details.is_none());
    let e = e.with_details("/a/b");
    assert_eq!(e.details, Some("/a/b".to_string()));
    assert_eq!(e.code, "FileNotFound");
}
