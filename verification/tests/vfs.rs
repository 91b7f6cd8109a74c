use librojo::vfs::{
    convert_event, normalize_line_endings, unwatch_effect, DirEntry, IoResultExt, Metadata, PathMap, PrefetchCache, ReadDir, UnwatchOutcome,
    VfsEvent, WatchEventKind, WatchSet, WatcherCriticalError,
};

#[test]
fn dir_entry_and_metadata() {
    let e = DirEntry { path: "/a/b".to_string() };
    assert_eq!(e.path(), "/a/b");
    let m = Metadata { is_file: true };
    assert!(m.is_file() && !m.is_dir());
    let d = Metadata { is_file: false };
    assert!(!d.is_file() && d.is_dir());
    let listing = ReadDir { entries: vec![e] };
    assert_eq!(listing.len(), 1);
    assert_eq!(listing.get(0).map(|e| e.path()), Some("/a/b"));
    assert!(listing.get(1).is_none());
}

#[test]
fn path_map_insert_replaces_and_remove_takes() {
    let mut m: PathMap<u32> = PathMap::new();
    m.insert("a", 1);
    m.insert("b", 2);
    m.insert("a", 3);
    assert_eq!(m.get("a"), Some(&3));
    assert_eq!(m.get("b"), Some(&2));
    assert_eq!(m.remove("a"), Some(3));
    assert_eq!(m.get("a"), None);
    assert_eq!(m.remove("a"), None);
}

#[test]
fn prefetch_file_is_handed_out_once() {
    let mut cache = PrefetchCache::new();
    cache.files.insert("test", b"cached".to_vec());
    assert_eq!(cache.take_file("test"), Some(b"cached".to_vec()));
    assert_eq!(cache.take_file("test"), None);
    assert_eq!(cache.take_file("other"), None);
}

#[test]
fn prefetch_canonical_children_and_kind() {
    let mut cache = PrefetchCache::new();
    cache.canonical.insert("src/foo", "/abs/src/foo".to_string());
    cache.children.insert("src", vec!["src/a".to_string(), "src/b".to_string()]);
    cache.is_file.insert("src/a", true);
    cache.is_file.insert("src", false);
    assert_eq!(cache.take_canonical("src/foo"), Some("/abs/src/foo".to_string()));
    assert_eq!(cache.take_canonical("src/foo"), None);
    assert_eq!(cache.take_children("src"), Some(vec!["src/a".to_string(), "src/b".to_string()]));
    assert_eq!(cache.take_children("src"), None);
    assert!(cache.metadata("src/a").unwrap().is_file());
    assert!(cache.metadata("src").unwrap().is_dir());
    assert!(cache.metadata("missing").is_none());
    assert!(cache.metadata("src").is_some());
}

#[test]
fn watcher_error_messages() {
    let e = WatcherCriticalError::WatcherError { error: "boom".into(), path: Some("/a/b".into()) };
    assert_eq!(e.message(), "File watcher error: boom (path: Some(\"/a/b\"))");
    let e = WatcherCriticalError::WatcherError { error: "boom".into(), path: None };
    assert_eq!(e.message(), "File watcher error: boom (path: None)");
    assert_eq!(
        WatcherCriticalError::RescanRequired.message(),
        "File watcher requested rescan due to too many changes"
    );
    assert_eq!(
        WatcherCriticalError::ChannelSendFailed("closed".into()).message(),
        "File watcher failed to send event: closed"
    );
    assert_eq!(WatcherCriticalError::ThreadTerminated.message(), "File watcher thread terminated unexpectedly");
}

#[test]
fn watcher_error_quotes_path_with_escapes() {
    let e = WatcherCriticalError::WatcherError { error: "x".into(), path: Some("a\"b".into()) };
    assert_eq!(e.message(), "File watcher error: x (path: Some(\"a\\\"b\"))");
}

#[test]
fn not_found_becomes_none() {
    let ok: std::io::Result<u32> = Ok(5);
    assert_eq!(ok.with_not_found().unwrap(), Some(5));
    let missing: std::io::Result<u32> = Err(std::io::Error::new(std::io::ErrorKind::NotFound, "gone"));
    assert_eq!(missing.with_not_found().unwrap(), None);
    let denied: std::io::Result<u32> = Err(std::io::Error::new(std::io::ErrorKind::PermissionDenied, "no"));
    assert_eq!(denied.with_not_found().unwrap_err().kind(), std::io::ErrorKind::PermissionDenied);
}

#[test]
fn watcher_critical_error_display() {
    let err1 = WatcherCriticalError::WatcherError {
        error: "test error".to_string(),
        path: Some("/test/path".to_string()),
    };
    assert!(err1.message().contains("test error"));

    let err2 = WatcherCriticalError::RescanRequired;
    assert!(err2.message().contains("rescan"));

    let err3 = WatcherCriticalError::ChannelSendFailed("send failed".to_string());
    assert!(err3.message().contains("send failed"));

    let err4 = WatcherCriticalError::ThreadTerminated;
    assert!(err4.message().contains("terminated"));
}

fn events(kind: WatchEventKind, paths: &[&str]) -> Vec<String> {
    convert_event(kind, &paths.iter().map(|p| p.to_string()).collect())
        .into_iter()
        .map(|e| match e {
            VfsEvent::Create(p) => format!("create {p}"),
            VfsEvent::Write(p) => format!("write {p}"),
            VfsEvent::Remove(p) => format!("remove {p}"),
        })
        .collect()
}

#[test]
fn watcher_reports_become_filesystem_events() {
    assert_eq!(events(WatchEventKind::Create, &["/a", "/b"]), vec!["create /a", "create /b"]);
    assert_eq!(events(WatchEventKind::Modify, &["/a"]), vec!["write /a"]);
    assert_eq!(events(WatchEventKind::Metadata, &["/a"]), Vec::<String>::new());
    assert_eq!(events(WatchEventKind::RenameBoth, &["/old", "/new"]), vec!["remove /old", "create /new"]);
    assert_eq!(events(WatchEventKind::RenameBoth, &["/old"]), Vec::<String>::new());
    assert_eq!(events(WatchEventKind::RenameFrom, &["/old"]), vec!["remove /old"]);
    assert_eq!(events(WatchEventKind::RenameTo, &["/new"]), vec!["create /new"]);
    assert_eq!(events(WatchEventKind::RenameOther, &["/x"]), vec!["write /x"]);
    assert_eq!(events(WatchEventKind::Remove, &["/x"]), vec!["remove /x"]);
    assert_eq!(events(WatchEventKind::Access, &["/x"]), Vec::<String>::new());
    assert_eq!(events(WatchEventKind::Other, &["/x"]), vec!["write /x"]);
}

#[test]
fn watched_directory_covers_its_descendants() {
    let mut w = WatchSet::new();
    assert!(w.needs_watch("/p/src"));
    w.record_watch("/p/src");
    assert!(!w.needs_watch("/p/src"));
    assert!(!w.needs_watch("/p/src/a/b.luau"));
    assert!(w.needs_watch("/p/srcx"));
    assert!(w.needs_watch("/p"));
    w.record_unwatch("/p/src");
    assert!(w.needs_watch("/p/src/a/b.luau"));
}

#[test]
fn unwatch_effects() {
    assert_eq!(unwatch_effect(UnwatchOutcome::Done), (true, true));
    assert_eq!(unwatch_effect(UnwatchOutcome::NotWatched), (true, true));
    assert_eq!(unwatch_effect(UnwatchOutcome::Failed), (false, false));
}

#[test]
fn read_to_string_lf_normalized_keeps_trailing_newline() {
    assert_eq!(normalize_line_endings("bar\r\nfoo\r\n\r\n"), "bar\nfoo\n\n");
}

#[test]
fn lone_carriage_returns_are_kept() {
    assert_eq!(normalize_line_endings("a\rb\r\r\nc"), "a\rb\r\nc");
    assert_eq!(normalize_line_endings("line1\r\nline2\r\n"), "line1\nline2\n");
}

#[test]
fn watched_root_covers_every_absolute_path() {
    let mut w = WatchSet::new();
    w.record_watch("/");
    assert!(!w.needs_watch("/x"));
    assert!(!w.needs_watch("/x/y.luau"));
    assert!(w.needs_watch("rel/path"));
}
