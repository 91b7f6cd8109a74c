use librojo::suppression::{EventKind, SuppressionTable};

#[test]
fn suppressed_write_is_swallowed_once() {
    let mut t = SuppressionTable::new();
    t.suppress("/p/a.luau");
    assert!(t.contains("/p/a.luau"));
    assert!(t.on_event(None, "/p/a.luau", EventKind::Write));
    assert!(!t.contains("/p/a.luau"));
    assert!(!t.on_event(None, "/p/a.luau", EventKind::Write));
}

#[test]
fn write_suppression_does_not_swallow_remove() {
    let mut t = SuppressionTable::new();
    t.suppress("/p/a.luau");
    assert!(!t.on_event(None, "/p/a.luau", EventKind::Remove));
    assert!(t.on_event(None, "/p/a.luau", EventKind::Create));
}

#[test]
fn remove_suppression_swallows_remove_only() {
    let mut t = SuppressionTable::new();
    t.suppress_remove("/p/old.luau");
    assert!(!t.on_event(None, "/p/old.luau", EventKind::Write));
    assert!(t.on_event(None, "/p/old.luau", EventKind::Remove));
    assert!(!t.contains("/p/old.luau"));
}

#[test]
fn any_suppression_swallows_one_of_each() {
    let mut t = SuppressionTable::new();
    t.suppress_any("/p/dir");
    assert!(t.on_event(None, "/p/dir", EventKind::Remove));
    assert!(t.contains("/p/dir"));
    assert!(t.on_event(None, "/p/dir", EventKind::Write));
    assert!(!t.contains("/p/dir"));
}

#[test]
fn withdrawn_suppressions_leave_the_table() {
    let mut t = SuppressionTable::new();
    t.suppress("/p/a");
    t.unsuppress("/p/a");
    assert!(!t.contains("/p/a"));
    t.suppress_any("/p/b");
    t.unsuppress_any("/p/b");
    assert!(!t.contains("/p/b"));
    assert!(!t.on_event(None, "/p/b", EventKind::Write));
}

#[test]
fn canonical_path_is_looked_up_first() {
    let mut t = SuppressionTable::new();
    t.suppress("/real/a");
    t.suppress("/link/a");
    assert!(t.on_event(Some("/real/a"), "/link/a", EventKind::Write));
    assert!(!t.contains("/real/a"));
    assert!(t.contains("/link/a"));
    assert!(t.on_event(Some("/real/a"), "/link/a", EventKind::Write));
    assert!(!t.contains("/link/a"));
}

#[test]
fn counts_accumulate() {
    let mut t = SuppressionTable::new();
    t.suppress("/p/a");
    t.suppress("/p/a");
    assert!(t.on_event(None, "/p/a", EventKind::Write));
    assert!(t.on_event(None, "/p/a", EventKind::Write));
    assert!(!t.on_event(None, "/p/a", EventKind::Write));
}

#[test]
fn stale_event_consumes_a_pending_suppression() {
    let mut t = SuppressionTable::new();
    assert!(!t.consume_stale("/p/old"));
    t.suppress_any("/p/old");
    assert!(t.consume_stale("/p/old"));
    assert!(t.contains("/p/old"));
    assert!(t.on_event(None, "/p/old", EventKind::Remove));
    assert!(!t.contains("/p/old"));
}

#[test]
fn failed_rename_withdraws_its_suppressions() {
    let mut t = SuppressionTable::new();
    t.suppress("/p/other");
    t.begin_rename("/p/old.luau", "/p/new.luau");
    assert!(t.contains("/p/old.luau"));
    assert!(t.contains("/p/new.luau"));
    t.end_rename("/p/old.luau", "/p/new.luau", false);
    assert!(!t.contains("/p/old.luau"));
    assert!(!t.contains("/p/new.luau"));
    assert!(t.contains("/p/other"));
}

#[test]
fn successful_rename_keeps_its_suppressions_for_the_echoes() {
    let mut t = SuppressionTable::new();
    t.begin_rename("/p/old.luau", "/p/new.luau");
    t.end_rename("/p/old.luau", "/p/new.luau", true);
    assert!(t.on_event(None, "/p/old.luau", EventKind::Remove));
    assert!(t.on_event(None, "/p/new.luau", EventKind::Create));
    assert!(!t.contains("/p/new.luau"));
}
