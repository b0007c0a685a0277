use php_lexer::file_watcher::{FileEvent, FileWatcher};

#[test]
fn a_new_watcher_knows_no_file() {
    let watcher = FileWatcher::create("./extra/");
    assert_eq!(watcher.scan_pattern(), "./extra/**/*");
    assert!(watcher.needs_digest("./extra/a.php", 10));
}

#[test]
fn an_unknown_file_is_indexed_once_its_digest_is_had() {
    let mut watcher = FileWatcher::create("./");
    assert_eq!(watcher.try_push_meta("a".to_string(), 10, None), FileEvent::Unchanged);
    assert!(watcher.needs_digest("a", 10));
    assert_eq!(
        watcher.try_push_meta("a".to_string(), 10, Some("h1".to_string())),
        FileEvent::Indexed
    );
    assert!(!watcher.needs_digest("a", 10));
    assert!(watcher.needs_digest("a", 11));
    assert!(watcher.needs_digest("b", 10));
}

#[test]
fn a_known_file_changes_when_time_and_digest_both_differ() {
    let mut watcher = FileWatcher::create("./");
    watcher.try_push_meta("a".to_string(), 10, Some("h1".to_string()));
    watcher.try_push_meta("b".to_string(), 10, Some("h1".to_string()));
    assert_eq!(
        watcher.try_push_meta("a".to_string(), 10, Some("h2".to_string())),
        FileEvent::Unchanged
    );
    assert_eq!(
        watcher.try_push_meta("a".to_string(), 11, Some("h1".to_string())),
        FileEvent::Unchanged
    );
    assert!(watcher.needs_digest("a", 11));
    assert_eq!(watcher.try_push_meta("a".to_string(), 11, None), FileEvent::Unchanged);
    assert_eq!(
        watcher.try_push_meta("a".to_string(), 11, Some("h2".to_string())),
        FileEvent::Modified
    );
    assert!(!watcher.needs_digest("a", 11));
    assert!(watcher.needs_digest("a", 10));
    assert!(!watcher.needs_digest("b", 10));
    assert_eq!(
        watcher.try_push_meta("a".to_string(), 10, Some("h2".to_string())),
        FileEvent::Unchanged
    );
}
