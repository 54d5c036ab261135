use ai_search_demo::config::{Config, PREVIEW_MAX_LENGTH, SENTENCE_SEARCH_START, STORAGE_PATH, WATCH_PATH};
use ai_search_demo::schema::{title_of, FileDoc, FileMetadata, FileStat, IndexDocument};

fn meta(path: &str) -> FileMetadata {
    FileMetadata::describe(
        path,
        FileStat { file_size: 2048, modified_time: 100, created_time: 50 },
        200,
    )
}

#[test]
fn metadata_from_a_path() {
    let m = meta("/tmp/root/Docs/Report.PDF");
    assert_eq!(m.path, "/tmp/root/Docs/Report.PDF");
    assert_eq!(m.parent_path, "/tmp/root/Docs");
    assert_eq!(m.filename, "Report.PDF");
    assert_eq!(m.file_type, "pdf");
    assert_eq!(m.file_size, 2048);
    assert_eq!(m.modified_time, 100);
    assert_eq!(m.created_time, 50);
    assert_eq!(m.indexed_time, 200);
}

#[test]
fn metadata_of_a_path_without_parts() {
    let m = meta("/");
    assert_eq!(m.parent_path, "");
    assert_eq!(m.filename, "");
    assert_eq!(m.file_type, "");
    let m = meta("/a/noext");
    assert_eq!(m.filename, "noext");
    assert_eq!(m.file_type, "");
    let m = meta("/a/.hidden");
    assert_eq!(m.file_type, "");
}

#[test]
fn tags_are_joined_with_spaces() {
    let doc = IndexDocument::new(
        "t".to_string(),
        "c".to_string(),
        vec!["rust".to_string(), "内核".to_string(), "x y".to_string()],
        meta("/a/b.txt"),
    );
    assert_eq!(doc.tags_string(), "rust 内核 x y");
    let none = IndexDocument::new("t".to_string(), "c".to_string(), vec![], meta("/a/b.txt"));
    assert_eq!(none.tags_string(), "");
    let one = IndexDocument::new("t".to_string(), "c".to_string(), vec!["a".to_string()], meta("/a"));
    assert_eq!(one.tags_string(), "a");
}

#[test]
fn file_doc_from_a_document() {
    let doc = IndexDocument::new("title".to_string(), "content".to_string(), vec![], meta("/a/b.txt"));
    let by_ref = FileDoc::of(&doc);
    assert_eq!(by_ref.title, "title");
    assert_eq!(by_ref.content, "content");
    assert_eq!(by_ref.path, "/a/b.txt");
    let owned = FileDoc::from(doc);
    assert_eq!(owned.title, "title");
    assert_eq!(owned.content, "content");
    assert_eq!(owned.path, "/a/b.txt");
}

#[test]
fn configuration_defaults() {
    let c = Config::default();
    assert_eq!(c.display.preview_max_length, 200);
    assert_eq!(c.display.sentence_search_start, 50);
    assert_eq!(c.ai_config.keyword_count, 3);
    assert_eq!(c.performance.index_writer_memory, 50_000_000);
    assert_eq!(c.walker.supported_extensions, vec!["txt", "md", "pdf"]);
    assert_eq!(c.walker.max_depth, 0);
    assert!(c.index_config.storage_path.is_none());
    assert!(c.ai_config.model_path.is_none());
    assert_eq!(PREVIEW_MAX_LENGTH, 200);
    assert_eq!(SENTENCE_SEARCH_START, 50);
    assert_eq!(WATCH_PATH, "./docs");
    assert_eq!(STORAGE_PATH, "./storage");
}

#[test]
fn titles() {
    assert_eq!(title_of("/a/b/report.final.pdf"), "report.final");
    assert_eq!(title_of("/a/b/notes"), "notes");
    assert_eq!(title_of("/a/b/.hidden"), ".hidden");
    assert_eq!(title_of("/"), "");
    assert_eq!(title_of(""), "");
}
