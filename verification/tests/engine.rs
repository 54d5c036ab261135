use std::sync::Arc;

use ai_search_demo::api::SearchRequest;
use ai_search_demo::cache::FileMetaEntry;
use ai_search_demo::config::Config;
use ai_search_demo::engine::index::{
    delete_ops, forget_ops, index_response, orphan_paths, plan_index, sweep_ops, upsert_ops,
    CacheOp, TagSource, WriteOp,
};
use ai_search_demo::engine::search::{
    applied_filters, assemble_response, bracketed, compose_query_text, doc_to_result,
    extract_highlights, fetch_count, select_page, write_time_range, Hit, StoredDocument,
};
use ai_search_demo::engine::sync::{
    is_stale, is_supported_extension, normalize, on_scan_file, on_watch_event, FileAction,
    WatchKind, DEBOUNCE_MILLIS,
};
use ai_search_demo::engine::{resolve_fields, EngineError, SearchEngineBuilder};
use ai_search_demo::query::filter::PathMatcher;
use ai_search_demo::query::{PathFilter, QueryOptions, QueryParser, SortBy, TimeRange};
use ai_search_demo::registry::{EventType, FileRegistry};
use ai_search_demo::schema::{
    build_schema, FieldDescriptor, FieldKind, FileMetadata, FileStat, IndexDocument,
    SchemaDescriptor,
};

fn doc(path: &str, mtime: u64, content: &str) -> IndexDocument {
    let metadata = FileMetadata::describe(
        path,
        FileStat { file_size: content.len() as u64, modified_time: mtime, created_time: 1 },
        mtime + 1,
    );
    IndexDocument::new("t".to_string(), content.to_string(), vec![], metadata)
}

struct Index {
    live: Vec<IndexDocument>,
    staged: Vec<WriteOp>,
}

impl Index {
    fn new() -> Self {
        Index { live: Vec::new(), staged: Vec::new() }
    }

    fn write_all(&mut self, ops: Vec<WriteOp>) {
        for op in ops {
            match op {
                WriteOp::Commit => {
                    for staged in self.staged.drain(..) {
                        match staged {
                            WriteOp::DeleteTerm { path } => self.live.retain(|d| d.metadata.path != path),
                            WriteOp::AddDocument(d) => self.live.push(d),
                            WriteOp::Commit => {}
                        }
                    }
                }
                other => self.staged.push(other),
            }
        }
    }

    fn visible(&self, path: &str) -> Vec<&IndexDocument> {
        self.live.iter().filter(|d| d.metadata.path == path).collect()
    }

    fn paths(&self) -> Vec<String> {
        self.live.iter().map(|d| d.metadata.path.clone()).collect()
    }
}

#[test]
fn indexing_twice_leaves_one_document() {
    let mut index = Index::new();
    index.write_all(upsert_ops(doc("/r/a.txt", 10, "linux kernel scheduling")));
    let once = index.paths();
    index.write_all(upsert_ops(doc("/r/a.txt", 10, "linux kernel scheduling")));
    assert_eq!(index.paths(), once);
    assert_eq!(index.visible("/r/a.txt").len(), 1);
    assert!(index.staged.is_empty());
}

#[test]
fn indexing_a_changed_file_replaces_its_document() {
    let mut index = Index::new();
    index.write_all(upsert_ops(doc("/r/a.txt", 10, "linux kernel scheduling")));
    index.write_all(upsert_ops(doc("/r/b.txt", 11, "other")));
    index.write_all(upsert_ops(doc("/r/a.txt", 20, "userland only")));
    let seen = index.visible("/r/a.txt");
    assert_eq!(seen.len(), 1);
    assert_eq!(seen[0].metadata.modified_time, 20);
    assert_eq!(seen[0].content, "userland only");
    assert_eq!(index.visible("/r/b.txt").len(), 1);
    assert_eq!(index.live.len(), 2);
}

#[test]
fn deleting_leaves_no_document_and_no_cache_entry() {
    let mut index = Index::new();
    index.write_all(upsert_ops(doc("/r/a.txt", 10, "x")));
    index.write_all(upsert_ops(doc("/r/b.txt", 10, "y")));
    index.write_all(delete_ops("/r/a.txt"));
    assert!(index.visible("/r/a.txt").is_empty());
    assert_eq!(index.paths(), vec!["/r/b.txt"]);
    index.write_all(delete_ops("/r/missing.txt"));
    assert_eq!(index.paths(), vec!["/r/b.txt"]);
    let ops = forget_ops("/r/a.txt");
    assert_eq!(ops.len(), 2);
    assert!(matches!(&ops[0], CacheOp::RemoveKeywords { path } if path == "/r/a.txt"));
    assert!(matches!(&ops[1], CacheOp::RemoveMeta { path } if path == "/r/a.txt"));
}

#[test]
fn orphan_sweep_keeps_the_documents_whose_file_exists() {
    let mut index = Index::new();
    for p in ["/r/a.txt", "/r/b.txt", "/r/c.txt", "/r/d.txt"] {
        index.write_all(upsert_ops(doc(p, 1, p)));
    }
    let files = ["/r/b.txt", "/r/d.txt", "/r/unindexed.txt"];
    let paths = index.paths();
    let present: Vec<bool> = paths.iter().map(|p| files.contains(&p.as_str())).collect();
    let gone = orphan_paths(&paths, &present);
    assert_eq!(gone, vec!["/r/a.txt", "/r/c.txt"]);
    let ops = sweep_ops(&gone);
    assert_eq!(ops.len(), 3);
    assert!(matches!(ops[2], WriteOp::Commit));
    index.write_all(ops);
    assert_eq!(index.paths(), vec!["/r/b.txt", "/r/d.txt"]);
}

#[test]
fn orphan_paths_edge_cases() {
    let none: Vec<String> = Vec::new();
    assert_eq!(orphan_paths(&none, &vec![]), none);
    let paths = vec!["/a".to_string(), "/b".to_string()];
    assert_eq!(orphan_paths(&paths, &vec![true, true]), none);
    assert_eq!(orphan_paths(&paths, &vec![false, false]), paths);
    assert_eq!(orphan_paths(&paths, &vec![false]), none);
    let ops = sweep_ops(&none);
    assert_eq!(ops.len(), 1);
    assert!(matches!(ops[0], WriteOp::Commit));
}

#[test]
fn upsert_and_delete_ops() {
    let ops = upsert_ops(doc("/r/a.txt", 10, "x"));
    assert_eq!(ops.len(), 3);
    assert!(matches!(&ops[0], WriteOp::DeleteTerm { path } if path == "/r/a.txt"));
    assert!(matches!(&ops[1], WriteOp::AddDocument(d) if d.metadata.path == "/r/a.txt" && d.content == "x"));
    assert!(matches!(&ops[2], WriteOp::Commit));
    let ops = delete_ops("/r/a.txt");
    assert_eq!(ops.len(), 2);
    assert!(matches!(&ops[0], WriteOp::DeleteTerm { path } if path == "/r/a.txt"));
    assert!(matches!(&ops[1], WriteOp::Commit));
}

#[test]
fn index_plan_with_cached_and_fresh_tags() {
    let metadata = FileMetadata::describe(
        "/r/a.txt",
        FileStat { file_size: 23, modified_time: 77, created_time: 70 },
        80,
    );
    let tags = vec!["kernel".to_string()];
    let plan = plan_index(
        "a".to_string(),
        "linux kernel scheduling".to_string(),
        TagSource::Cached(tags.clone()),
        metadata.clone(),
    );
    assert_eq!(plan.path, "/r/a.txt");
    assert!(plan.cache_tags.is_none());
    assert_eq!(plan.writes.len(), 3);
    match &plan.writes[1] {
        WriteOp::AddDocument(d) => {
            assert_eq!(d.title, "a");
            assert_eq!(d.content, "linux kernel scheduling");
            assert_eq!(d.tags, tags);
            assert_eq!(d.metadata.modified_time, 77);
        }
        _ => panic!("no document"),
    }
    match &plan.on_success {
        CacheOp::SaveMeta { path, meta } => {
            assert_eq!(path, "/r/a.txt");
            assert_eq!(*meta, FileMetaEntry { file_size: 23, mtime: 77, indexed: true });
        }
        _ => panic!("no metadata"),
    }
    let fresh = plan_index(
        "a".to_string(),
        "linux kernel scheduling".to_string(),
        TagSource::Computed(tags.clone()),
        metadata,
    );
    match &fresh.cache_tags {
        Some(CacheOp::SetKeywords { path, entry }) => {
            assert_eq!(path, "/r/a.txt");
            assert_eq!(entry.keywords, tags);
            assert_eq!(
                ai_search_demo::cache::cached_keywords(Some(entry.clone()), "linux kernel scheduling"),
                Some(tags.clone())
            );
        }
        _ => panic!("no tags for the cache"),
    }
    let r = index_response("/r/a.txt", 12);
    assert!(r.success);
    assert_eq!(r.message, "文件已索引");
    assert_eq!(r.path, "/r/a.txt");
    assert_eq!(r.took_ms, 12);
}

#[test]
fn engine_errors() {
    let e = EngineError::FileNotFound("/a/b".to_string());
    assert_eq!(e.code(), "FileNotFound");
    assert_eq!(e.message(), "File not found: /a/b");
    assert!(e.is_per_file());
    let r = e.to_response();
    assert_eq!(r.code, "FileNotFound");
    assert_eq!(r.message, "File not found: /a/b");
    assert!(r.details.is_none());
    let all = [
        (EngineError::Tantivy("x".to_string()), "Tantivy", "Tantivy error: x", false),
        (EngineError::Io("x".to_string()), "Io", "IO error: x", true),
        (EngineError::Directory("x".to_string()), "Directory", "Directory error: x", false),
        (EngineError::QueryParse("x".to_string()), "QueryParse", "Query parse error: x", false),
        (EngineError::Index("x".to_string()), "Index", "Index error: x", false),
        (EngineError::Config("x".to_string()), "Config", "Configuration error: x", false),
        (EngineError::Extraction("x".to_string()), "Extraction", "Extraction error: x", true),
        (EngineError::Cache("x".to_string()), "Cache", "Cache error: x", true),
        (EngineError::Watcher("x".to_string()), "Watcher", "Watcher error: x", false),
    ];
    for (e, code, message, per_file) in all.iter() {
        assert_eq!(e.code(), *code);
        assert_eq!(e.message(), *message);
        assert_eq!(e.is_per_file(), *per_file);
    }
}

#[test]
fn builder_settings() {
    let s = SearchEngineBuilder::new().settings();
    assert_eq!(s.storage_path, "storage");
    assert_eq!(s.model_path, Some("model".to_string()));
    assert_eq!(s.heap_size, 50_000_000);
    assert_eq!(s.schema.fields.len(), 11);
    assert_eq!(s.config.ai_config.keyword_count, 3);
    let s = SearchEngineBuilder::default().with_ai(false).settings();
    assert_eq!(s.model_path, None);
    let mut config = Config::default();
    config.index_config.storage_path = Some("/cfg/store".to_string());
    config.ai_config.model_path = Some("/cfg/model".to_string());
    config.ai_config.keyword_count = 9;
    let config = Arc::new(config);
    let s = SearchEngineBuilder::new().with_config(config.clone()).settings();
    assert_eq!(s.storage_path, "/cfg/store");
    assert_eq!(s.model_path, Some("/cfg/model".to_string()));
    assert_eq!(s.config.ai_config.keyword_count, 9);
    let s = SearchEngineBuilder::new()
        .with_config(config)
        .with_storage_path("/own/store")
        .with_model_path("/own/model")
        .with_heap_size(123)
        .settings();
    assert_eq!(s.storage_path, "/own/store");
    assert_eq!(s.model_path, Some("/own/model".to_string()));
    assert_eq!(s.heap_size, 123);
}

#[test]
fn field_handles() {
    let h = resolve_fields(&build_schema()).unwrap();
    assert_eq!(
        (h.title, h.body, h.tags, h.path, h.parent_path, h.filename),
        (0, 1, 2, 3, 4, 5)
    );
    assert_eq!(
        (h.file_type, h.file_size, h.modified_time, h.created_time, h.indexed_time),
        (6, 7, 8, 9, 10)
    );
    let mut schema = build_schema();
    schema.fields.remove(4);
    schema.fields.remove(1);
    match resolve_fields(&schema) {
        Err(EngineError::Config(m)) => assert_eq!(m, "Missing field: body"),
        _ => panic!("no configuration error"),
    }
    let only = SchemaDescriptor {
        fields: vec![FieldDescriptor { name: "x".to_string(), kind: FieldKind::Keyword, stored: true }],
    };
    match resolve_fields(&only) {
        Err(e) => assert_eq!(e.message(), "Configuration error: Missing field: title"),
        _ => panic!("no configuration error"),
    }
}

#[test]
fn query_text_for_the_index() {
    let kw = vec!["os".to_string(), "kernel".to_string()];
    assert_eq!(compose_query_text("linux", &kw), Some("linux os kernel".to_string()));
    assert_eq!(compose_query_text("", &kw), Some("os kernel".to_string()));
    assert_eq!(compose_query_text("linux", &[]), Some("linux".to_string()));
    assert_eq!(compose_query_text("", &[]), None);
    assert_eq!(compose_query_text("", &["".to_string()]), None);
    assert_eq!(fetch_count(20, 0), 20);
    assert_eq!(fetch_count(10, 30), 40);
}

fn stored(path: &str, body: &str) -> StoredDocument {
    StoredDocument {
        path: Some(path.to_string()),
        title: Some("title".to_string()),
        body: Some(body.to_string()),
        file_type: Some("txt".to_string()),
        file_size: Some(2048),
        modified_time: Some(940),
        created_time: Some(100),
        indexed_time: Some(950),
        tags: vec!["a".to_string(), "b".to_string()],
    }
}

fn options(limit: usize, offset: usize, highlight: bool, preview_length: usize) -> QueryOptions {
    QueryOptions { sort_by: SortBy::Relevance, limit, offset, highlight, preview_length }
}

#[test]
fn result_of_a_hit() {
    let d = stored("/r/docs/x.txt", "linux kernel scheduling");
    let r = doc_to_result(&d, (1.5f32).to_bits(), &options(10, 0, true, 5), 1000);
    assert_eq!(r.path, "/r/docs/x.txt");
    assert_eq!(r.filename, "x.txt");
    assert_eq!(r.parent_path, "/r/docs");
    assert_eq!(f32::from_bits(r.score_bits), 1.5);
    assert_eq!(r.title, Some("title".to_string()));
    assert_eq!(r.tags, vec!["a", "b"]);
    assert_eq!(r.highlights.len(), 1);
    assert_eq!(r.highlights[0].field, "body");
    assert_eq!(r.highlights[0].text, "linux");
    assert!(r.highlights[0].position.is_none());
    assert_eq!(r.metadata.file_type, "txt");
    assert_eq!(r.metadata.file_size, 2048);
    assert_eq!(r.metadata.file_size_display, "2.00 KB");
    assert_eq!(r.metadata.modified_time, Some(940));
    assert_eq!(r.metadata.indexed_time, Some(950));
    assert_eq!(r.metadata.modified_time_display, Some("1 分钟前".to_string()));
    assert_eq!(r.metadata.created_time_display, Some("15 分钟前".to_string()));
    let quiet = doc_to_result(&d, 0, &options(10, 0, false, 5), 1000);
    assert!(quiet.highlights.is_empty());
}

#[test]
fn result_of_a_hit_without_fields() {
    let d = StoredDocument {
        path: None,
        title: None,
        body: None,
        file_type: None,
        file_size: None,
        modified_time: None,
        created_time: None,
        indexed_time: None,
        tags: vec![],
    };
    let r = doc_to_result(&d, 0, &options(10, 0, true, 5), 1000);
    assert_eq!(r.path, "");
    assert_eq!(r.filename, "");
    assert_eq!(r.title, None);
    assert!(r.highlights.is_empty());
    assert_eq!(r.metadata.file_type, "");
    assert_eq!(r.metadata.file_size, 0);
    assert_eq!(r.metadata.file_size_display, "0 B");
    assert_eq!(r.metadata.created_time_display, None);
}

#[test]
fn highlights_are_the_start_of_the_body() {
    let d = stored("/a", "操作系统内核");
    assert_eq!(extract_highlights(&d, 4)[0].text, "操作系统");
    assert_eq!(extract_highlights(&d, 6)[0].text, "操作系统内核");
    assert_eq!(extract_highlights(&d, 100)[0].text, "操作系统内核");
    assert_eq!(extract_highlights(&d, 0)[0].text, "");
}

fn hits(paths: &[&str]) -> Vec<Hit> {
    paths
        .iter()
        .enumerate()
        .map(|(i, p)| Hit { score_bits: i as u32, document: stored(p, "body") })
        .collect()
}

fn page(hits: &Vec<Hit>, matcher: &PathMatcher, limit: usize, offset: usize) -> Vec<String> {
    select_page(hits, matcher, &options(limit, offset, false, 0), 0)
        .into_iter()
        .map(|r| r.path)
        .collect()
}

#[test]
fn pages_of_accepted_hits() {
    let all = hits(&["/d/1", "/t/2", "/d/3", "/d/4", "/t/5", "/d/6"]);
    let any = PathMatcher::new(&[]);
    assert_eq!(page(&all, &any, 2, 0), vec!["/d/1", "/t/2"]);
    assert_eq!(page(&all, &any, 2, 4), vec!["/t/5", "/d/6"]);
    assert_eq!(page(&all, &any, 10, 5), vec!["/d/6"]);
    assert!(page(&all, &any, 10, 6).is_empty());
    assert!(page(&all, &any, 0, 0).is_empty());
    let docs = PathMatcher::new(&[PathFilter::inclusion("/d/*"), PathFilter::exclude("/d/4")]);
    assert_eq!(page(&all, &docs, 10, 0), vec!["/d/1", "/d/3", "/d/6"]);
    assert_eq!(page(&all, &docs, 1, 1), vec!["/d/3"]);
    assert_eq!(page(&all, &docs, 5, 2), vec!["/d/6"]);
    assert!(page(&all, &docs, 5, 3).is_empty());
    assert_eq!(page(&all, &docs, usize::MAX, 1), vec!["/d/3", "/d/6"]);
    assert!(page(&all, &docs, usize::MAX, usize::MAX).is_empty());
    let scored = select_page(&all, &docs, &options(1, 1, false, 0), 0);
    assert_eq!(scored[0].score_bits, 2);
}

#[test]
fn docs_pass_and_tmp_does_not() {
    let q = QueryParser::new().parse("--path=/tmp/root/docs/* --exclude-path=/tmp/root/tmp/*");
    let matcher = PathMatcher::new(&q.filters.paths);
    let all = hits(&["/tmp/root/docs/x.txt", "/tmp/root/tmp/y.txt"]);
    assert_eq!(page(&all, &matcher, 20, 0), vec!["/tmp/root/docs/x.txt"]);
}

#[test]
fn applied_filter_lines() {
    let q = QueryParser::new()
        .parse("--path=/d/* --exclude-path=/t/* --time=7d --type=pdf,md --size=>1 --tag=x");
    assert_eq!(
        applied_filters(&q.filters),
        vec!["路径: /d/*", "排除: /t/*", "时间: LastDays(7)", "类型: [\"pdf\", \"md\"]"]
    );
    let none = QueryParser::new().parse("just text");
    assert!(applied_filters(&none.filters).is_empty());
    let quoted = QueryParser::new().parse("--type=\"a\\b\"");
    assert_eq!(applied_filters(&quoted.filters), vec!["类型: [\"a\\\\b\"]"]);
}

#[test]
fn time_ranges_as_text() {
    let text = |r: TimeRange| write_time_range(&r).into_iter().collect::<String>();
    let debug = |r: TimeRange| format!("{:?}", r);
    for r in [
        TimeRange::LastDays(7),
        TimeRange::LastHours(0),
        TimeRange::LastWeeks(u32::MAX),
        TimeRange::LastMonths(12),
        TimeRange::Between(1, u64::MAX),
        TimeRange::After(5),
        TimeRange::Before(6),
        TimeRange::Today,
        TimeRange::ThisWeek,
        TimeRange::ThisMonth,
    ] {
        assert_eq!(text(r), debug(r));
    }
}

#[test]
fn search_response_assembly() {
    let request = SearchRequest::new("kernel --type=txt").with_limit(2).with_offset(1);
    let parsed = QueryParser::new().parse(&request.query);
    let results = select_page(
        &hits(&["/a", "/b", "/c", "/d"]),
        &PathMatcher::new(&parsed.filters.paths),
        &request.to_query_options(),
        0,
    );
    let r = assemble_response(&request, &parsed, vec!["k".to_string()], results, 4, 15);
    assert_eq!(r.query.raw_query, "kernel --type=txt");
    assert_eq!(r.query.search_text, "kernel");
    assert_eq!(r.query.keywords, vec!["k"]);
    assert_eq!(r.query.applied_filters, vec!["类型: [\"txt\"]"]);
    assert_eq!(r.results.len(), 2);
    assert_eq!(r.results[0].path, "/b");
    assert_eq!(r.total, 4);
    assert_eq!((r.pagination.offset, r.pagination.limit, r.pagination.has_more), (1, 2, true));
    assert_eq!(r.took_ms, 15);
}

#[test]
fn watcher_reports() {
    assert_eq!(normalize(WatchKind::Create, true, true), Some(EventType::Create));
    assert_eq!(normalize(WatchKind::ModifyData, true, true), Some(EventType::Modify));
    assert_eq!(normalize(WatchKind::Remove, false, true), Some(EventType::Delete));
    assert_eq!(normalize(WatchKind::Remove, true, true), Some(EventType::Delete));
    assert_eq!(normalize(WatchKind::Create, false, true), Some(EventType::Delete));
    assert_eq!(normalize(WatchKind::ModifyData, false, true), Some(EventType::Delete));
    assert_eq!(normalize(WatchKind::ModifyOther, true, true), None);
    assert_eq!(normalize(WatchKind::ModifyOther, false, true), None);
    assert_eq!(normalize(WatchKind::Other, true, true), None);
    assert_eq!(normalize(WatchKind::Create, true, false), None);
    assert_eq!(normalize(WatchKind::Remove, false, false), None);
    assert_eq!(DEBOUNCE_MILLIS, 200);
}

#[test]
fn staleness_and_extensions() {
    assert!(is_stale(None, 0));
    assert!(is_stale(Some(9), 10));
    assert!(!is_stale(Some(10), 10));
    assert!(!is_stale(Some(11), 10));
    let supported = vec!["txt".to_string(), "md".to_string(), "pdf".to_string()];
    assert!(is_supported_extension("txt", &supported));
    assert!(is_supported_extension("PDF", &supported));
    assert!(is_supported_extension("Md", &supported));
    assert!(!is_supported_extension("rs", &supported));
    assert!(!is_supported_extension("", &supported));
    assert!(!is_supported_extension("txt", &[]));
}

#[test]
fn scan_and_watcher_share_the_registry() {
    let mut r = FileRegistry::new();
    // During the scan the watcher's events are kept.
    assert_eq!(on_watch_event(&mut r, "/a.txt", EventType::Create, 10, 1), FileAction::Skip);
    assert_eq!(r.stats(), (0, 0));
    // The scan comes upon the file.
    assert_eq!(on_scan_file(&mut r, "/a.txt", true, 10, None, 2), FileAction::Index);
    assert_eq!(on_scan_file(&mut r, "/a.txt", true, 10, None, 3), FileAction::Skip);
    r.finish_processing("/a.txt", 4);
    // Files that need nothing.
    assert_eq!(on_scan_file(&mut r, "/b.bin", false, 10, None, 5), FileAction::Skip);
    assert_eq!(on_scan_file(&mut r, "/c.txt", true, 10, Some(10), 5), FileAction::Skip);
    assert_eq!(r.stats(), (2, 0));
    // The scan ends; the kept event is handed out once.
    let pending = r.complete_scan();
    assert_eq!(pending.len(), 1);
    assert_eq!(pending[0].path, "/a.txt");
    // The kept event is for a modification time that was processed: dropped.
    assert_eq!(on_watch_event(&mut r, "/a.txt", EventType::Create, 10, 6), FileAction::Skip);
    // A later modification is processed, and only once at a time.
    assert_eq!(on_watch_event(&mut r, "/a.txt", EventType::Modify, 11, 7), FileAction::Index);
    assert_eq!(on_watch_event(&mut r, "/a.txt", EventType::Modify, 12, 8), FileAction::Skip);
    r.finish_processing("/a.txt", 9);
    assert_eq!(on_watch_event(&mut r, "/a.txt", EventType::Modify, 12, 10), FileAction::Index);
    r.finish_processing("/a.txt", 11);
    // A deletion forgets the path.
    assert_eq!(on_watch_event(&mut r, "/a.txt", EventType::Delete, 0, 12), FileAction::Delete);
    assert_eq!(r.stats(), (1, 0));
    assert_eq!(on_watch_event(&mut r, "/a.txt", EventType::Create, 1, 13), FileAction::Index);
}

#[test]
fn lists_in_brackets() {
    let text = |items: &[&str]| {
        let items: Vec<String> = items.iter().map(|s| s.to_string()).collect();
        bracketed(&items).into_iter().collect::<String>()
    };
    assert_eq!(text(&[]), "[]");
    assert_eq!(text(&["a"]), "[a]");
    assert_eq!(text(&["a", "b", "c"]), "[a, b, c]");
}
