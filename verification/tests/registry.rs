use ai_search_demo::registry::{EventType, FileRegistry};

#[test]
fn first_request_is_granted_and_second_refused() {
    let mut r = FileRegistry::new();
    assert!(r.try_start_processing("/a", 10, 100));
    assert!(!r.try_start_processing("/a", 10, 101));
    assert!(!r.try_start_processing("/a", 99, 102));
    assert_eq!(r.stats(), (1, 1));
}

#[test]
fn finished_path_is_granted_for_a_later_mtime_only() {
    let mut r = FileRegistry::new();
    assert!(r.try_start_processing("/a", 10, 100));
    r.finish_processing("/a", 105);
    assert_eq!(r.stats(), (1, 0));
    assert!(!r.try_start_processing("/a", 10, 106));
    assert!(!r.try_start_processing("/a", 9, 107));
    assert_eq!(r.stats(), (1, 0));
    assert!(r.try_start_processing("/a", 11, 108));
    assert_eq!(r.stats(), (1, 1));
}

#[test]
fn paths_do_not_block_each_other() {
    let mut r = FileRegistry::new();
    assert!(r.try_start_processing("/a", 1, 0));
    assert!(r.try_start_processing("/b", 1, 0));
    assert_eq!(r.stats(), (2, 2));
    r.finish_processing("/a", 1);
    assert_eq!(r.stats(), (2, 1));
    r.finish_processing("/missing", 1);
    assert_eq!(r.stats(), (2, 1));
}

#[test]
fn deleted_path_is_forgotten() {
    let mut r = FileRegistry::new();
    assert!(r.try_start_processing("/a", 5, 0));
    r.finish_processing("/a", 1);
    assert!(r.is_file_processed("/a", 5));
    r.mark_deleted("/a");
    assert_eq!(r.stats(), (0, 0));
    assert!(!r.is_file_processed("/a", 5));
    assert!(r.try_start_processing("/a", 5, 2));
    r.mark_deleted("/other");
    assert_eq!(r.stats(), (1, 1));
}

#[test]
fn is_file_processed_compares_modification_times() {
    let mut r = FileRegistry::new();
    assert!(!r.is_file_processed("/a", 0));
    assert!(r.try_start_processing("/a", 5, 0));
    assert!(r.is_file_processed("/a", 4));
    assert!(r.is_file_processed("/a", 5));
    assert!(!r.is_file_processed("/a", 6));
}

#[test]
fn events_are_kept_until_the_scan_ends_and_drained_once() {
    let mut r = FileRegistry::new();
    assert!(!r.is_scan_completed());
    r.add_pending_event("/a".to_string(), EventType::Create, 1);
    r.add_pending_event("/b".to_string(), EventType::Delete, 2);
    let events = r.complete_scan();
    assert!(r.is_scan_completed());
    assert_eq!(events.len(), 2);
    assert_eq!(events[0].path, "/a");
    assert_eq!(events[0].event_type, EventType::Create);
    assert_eq!(events[0].timestamp, 1);
    assert_eq!(events[1].path, "/b");
    assert_eq!(events[1].event_type, EventType::Delete);
    r.add_pending_event("/c".to_string(), EventType::Modify, 3);
    assert!(r.complete_scan().is_empty());
}

#[test]
fn default_registry_is_empty() {
    let mut r = FileRegistry::default();
    assert_eq!(r.stats(), (0, 0));
    assert!(!r.is_scan_completed());
    assert!(r.complete_scan().is_empty());
}
