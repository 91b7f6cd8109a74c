use librojo::change_processor::{change_action, find_init_file, init_file_candidates, INIT_FILE_COUNT, snapshot_path, ChangeAction, PendingRecovery, ReconcileSchedule, VfsPresence};

#[test]
fn snapshot_path_of_init_file_is_its_directory() {
    assert_eq!(snapshot_path("/p/src/Module/init.luau"), "/p/src/Module");
    assert_eq!(snapshot_path("/p/src/Foo.luau"), "/p/src/Foo.luau");
}

#[test]
fn present_file_is_resnapshotted() {
    assert_eq!(
        change_action("/p/src/Foo.luau", VfsPresence::Present, false, false),
        ChangeAction::Resnapshot { path: "/p/src/Foo.luau".to_string() }
    );
}

#[test]
fn file_still_on_disk_is_resnapshotted() {
    assert_eq!(
        change_action("/p/src/Foo.luau", VfsPresence::Missing, true, false),
        ChangeAction::Resnapshot { path: "/p/src/Foo.luau".to_string() }
    );
}

#[test]
fn deleted_init_file_resnapshots_existing_directory() {
    assert_eq!(
        change_action("/p/src/Module/init.luau", VfsPresence::Missing, false, true),
        ChangeAction::Resnapshot { path: "/p/src/Module".to_string() }
    );
    assert_eq!(change_action("/p/src/Foo.luau", VfsPresence::Missing, false, true), ChangeAction::Remove);
}

#[test]
fn vanished_file_is_removed_and_failed_lookup_skipped() {
    assert_eq!(change_action("/p/src/Module/init.luau", VfsPresence::Missing, false, false), ChangeAction::Remove);
    assert_eq!(change_action("/p/src/Foo.luau", VfsPresence::Failed, true, true), ChangeAction::Skip);
}

#[test]
fn recovery_checks_come_due_after_the_delay() {
    let mut q = PendingRecovery::new();
    q.record("/p/a", 1000);
    q.record("/p/b", 1100);
    q.record("/p/c", 1250);
    assert!(q.take_due(1150).is_empty());
    assert_eq!(q.take_due(1300), vec!["/p/a".to_string(), "/p/b".to_string()]);
    assert!(q.take_due(1300).is_empty());
    assert_eq!(q.take_due(1450), vec!["/p/c".to_string()]);
    assert!(q.take_due(99999).is_empty());
}

#[test]
fn recovery_time_before_recording_counts_as_no_delay() {
    let mut q = PendingRecovery::new();
    q.record("/p/a", 5000);
    assert!(q.take_due(100).is_empty());
    assert_eq!(q.take_due(5200), vec!["/p/a".to_string()]);
}

#[test]
fn reconciliation_follows_a_burst_of_events() {
    let mut s = ReconcileSchedule::new();
    assert_eq!(s.wait_ms(0), 500);
    assert!(!s.after_events(1000));
    assert_eq!(s.reconcile_at, Some(1200));
    assert_eq!(s.wait_ms(1000), 200);
    assert_eq!(s.wait_ms(1180), 50);
    assert!(!s.after_events(1150));
    assert_eq!(s.reconcile_at, Some(1200));
    assert!(!s.when_idle(1199));
    assert!(s.when_idle(1200));
    assert_eq!(s.reconcile_at, None);
    assert!(!s.when_idle(5000));
}

#[test]
fn events_past_the_deadline_reconcile_at_once() {
    let mut s = ReconcileSchedule::new();
    assert!(!s.after_events(0));
    assert!(s.after_events(250));
    assert_eq!(s.reconcile_at, None);
}

#[test]
fn lost_events_reconcile_immediately() {
    let mut s = ReconcileSchedule::new();
    s.after_events(10);
    assert!(!s.after_watcher_error(false));
    assert_eq!(s.reconcile_at, Some(210));
    assert!(s.after_watcher_error(true));
    assert_eq!(s.reconcile_at, None);
}

#[test]
fn init_candidates_are_searched_luau_first() {
    let c = init_file_candidates("/p/src/Mod");
    assert_eq!(c.len(), INIT_FILE_COUNT);
    assert_eq!(c[0], "/p/src/Mod/init.luau");
    assert_eq!(c[1], "/p/src/Mod/init.server.luau");
    assert_eq!(c[6], "/p/src/Mod/init.lua");
    assert_eq!(c[9], "/p/src/Mod/init.local.lua");
}

#[test]
fn first_existing_init_file_is_chosen() {
    let mut exists = vec![false; INIT_FILE_COUNT];
    exists[2] = true;
    exists[7] = true;
    assert_eq!(
        find_init_file("/p/src/Mod", &exists),
        Some("/p/src/Mod/init.client.luau".to_string())
    );
}

#[test]
fn folder_without_init_file_has_none() {
    let exists = vec![false; INIT_FILE_COUNT];
    assert_eq!(find_init_file("/p/src/Mod", &exists), None);
}
