//! Decisions of the change processor: which path to re-read for an
//! instance whose file changed, what to do when the file is gone, and the
//! queue of removed paths to check again in case they come back.

use vstd::prelude::*;
use crate::fs_path::{file_name_spec, parent_spec, join_spec, join_path, lemma_join_parts, relevant_paths_spec, init_variant_names};
use crate::text::{chars_of, string_from_chars, has_prefix, matches_at};

verus! {

/// Whether the file at `p` is the init file of a directory-format
/// instance (its name starts with `init.`).
pub open spec fn is_init_path(p: Seq<char>) -> bool {
    has_prefix(file_name_spec(p), "init."@)
}

/// The path whose snapshot describes the instance stored at `p`: the
/// directory of an init file, else the file itself.
pub open spec fn snapshot_path_spec(p: Seq<char>) -> Seq<char> {
    if is_init_path(p) {
        parent_spec(p)
    } else {
        p
    }
}

/// The path to re-read for the instance whose file is `path`.
pub fn snapshot_path(path: &str) -> (r: String)
    ensures
        r@ == snapshot_path_spec(path@),
{
    let name = crate::fs_path::file_name_of(path);
    let n = chars_of(name.as_str());
    let init = chars_of("init.");
    if matches_at(&n, 0, &init) {
        crate::fs_path::parent_of(path)
    } else {
        string_from_chars(&chars_of(path))
    }
}

/// What the virtual filesystem says of an instance's file.
#[derive(Debug, Clone, Copy, PartialEq, Eq, Structural)]
pub enum VfsPresence {
    /// The file is there.
    Present,
    /// The file is not there.
    Missing,
    /// Looking the file up failed.
    Failed,
}

/// What to do for an instance whose file changed.
#[derive(Debug, Clone, PartialEq, Eq)]
pub enum ChangeAction {
    /// Re-read the instance from `path` and patch the tree.
    Resnapshot { path: String },
    /// Remove the instance and check later whether its file comes back.
    Remove,
    /// Leave the tree alone (the lookup failed).
    Skip,
}

/// Decides what to do for the instance stored at `path`: re-read it while
/// its file exists (by the virtual filesystem, or on disk when the virtual
/// filesystem lost track of it), re-read the directory of an init file whose
/// directory is still there, and remove it otherwise. `on_disk` and
/// `dir_on_disk` say whether the file and the snapshot path exist on disk.
pub fn change_action(path: &str, presence: VfsPresence, on_disk: bool, dir_on_disk: bool) -> (r: ChangeAction)
    ensures
        match presence {
            VfsPresence::Present => r == (ChangeAction::Resnapshot { path: r->path }) && r->path@
                == snapshot_path_spec(path@),
            VfsPresence::Failed => r == ChangeAction::Skip,
            VfsPresence::Missing => if on_disk || (is_init_path(path@) && dir_on_disk) {
                r == (ChangeAction::Resnapshot { path: r->path }) && r->path@ == snapshot_path_spec(path@)
            } else {
                r == ChangeAction::Remove
            },
        },
{
    match presence {
        VfsPresence::Present => ChangeAction::Resnapshot { path: snapshot_path(path) },
        VfsPresence::Failed => ChangeAction::Skip,
        VfsPresence::Missing => {
            let name = crate::fs_path::file_name_of(path);
            let n = chars_of(name.as_str());
            let init = chars_of("init.");
            let is_init = matches_at(&n, 0, &init);
            if on_disk || (is_init && dir_on_disk) {
                ChangeAction::Resnapshot { path: snapshot_path(path) }
            } else {
                ChangeAction::Remove
            }
        },
    }
}

/// How many init file names a directory-format script's folder is
/// searched for.
pub const INIT_FILE_COUNT: usize = 10;

/// The `i`-th init file name, in the order in which a directory-format
/// script's folder is searched (Luau before Lua, plain module first).
pub open spec fn init_file_name_spec(i: int) -> Seq<char> {
    if i == 0 {
        "init.luau"@
    } else if i == 1 {
        "init.server.luau"@
    } else if i == 2 {
        "init.client.luau"@
    } else if i == 3 {
        "init.local.luau"@
    } else if i == 4 {
        "init.plugin.luau"@
    } else if i == 5 {
        "init.legacy.luau"@
    } else if i == 6 {
        "init.lua"@
    } else if i == 7 {
        "init.server.lua"@
    } else if i == 8 {
        "init.client.lua"@
    } else {
        "init.local.lua"@
    }
}

/// The `i`-th init file name in search order.
pub fn init_file_name(i: usize) -> (r: &'static str)
    requires
        i < INIT_FILE_COUNT,
    ensures
        r@ == init_file_name_spec(i as int),
{
    if i == 0 {
        "init.luau"
    } else if i == 1 {
        "init.server.luau"
    } else if i == 2 {
        "init.client.luau"
    } else if i == 3 {
        "init.local.luau"
    } else if i == 4 {
        "init.plugin.luau"
    } else if i == 5 {
        "init.legacy.luau"
    } else if i == 6 {
        "init.lua"
    } else if i == 7 {
        "init.server.lua"
    } else if i == 8 {
        "init.client.lua"
    } else {
        "init.local.lua"
    }
}

/// The init files that the folder `dir` may hold, in search order.
pub fn init_file_candidates(dir: &str) -> (r: Vec<String>)
    ensures
        r@.len() == INIT_FILE_COUNT,
        forall|i: int| 0 <= i < INIT_FILE_COUNT ==> #[trigger] r@[i]@ == join_spec(dir@, init_file_name_spec(i)),
{
    let mut r: Vec<String> = Vec::new();
    let mut i: usize = 0;
    while i < INIT_FILE_COUNT
        invariant
            i <= INIT_FILE_COUNT,
            r@.len() == i,
            forall|k: int| 0 <= k < i ==> #[trigger] r@[k]@ == join_spec(dir@, init_file_name_spec(k)),
        decreases INIT_FILE_COUNT - i,
    {
        r.push(join_path(dir, init_file_name(i)));
        i = i + 1;
    }
    r
}

/// The init file of the folder `dir`, given for each candidate of
/// [`init_file_candidates`] whether it exists on disk: the first existing one in
/// search order, or `None` when none exists.
pub fn find_init_file(dir: &str, found: &[bool]) -> (r: Option<String>)
    requires
        found@.len() == INIT_FILE_COUNT,
    ensures
        r is None <==> (forall|i: int| 0 <= i < INIT_FILE_COUNT ==> !#[trigger] found@[i]),
        r matches Some(p) ==> exists|i: int|
            0 <= i < INIT_FILE_COUNT && #[trigger] found@[i]
            && (forall|j: int| 0 <= j < i ==> !#[trigger] found@[j])
            && p@ == join_spec(dir@, init_file_name_spec(i)),
{
    let mut i: usize = 0;
    while i < INIT_FILE_COUNT
        invariant
            i <= INIT_FILE_COUNT,
            found@.len() == INIT_FILE_COUNT,
            forall|j: int| 0 <= j < i ==> !#[trigger] found@[j],
        decreases INIT_FILE_COUNT - i,
    {
        if found[i] {
            return Some(join_path(dir, init_file_name(i)));
        }
        i = i + 1;
    }
    None
}

/// Every init file that the init-file lookup accepts is watched: for the
/// init file `init_file_name_spec(i)` of a directory `d`, the paths whose
/// changes concern its instance start with `d` and hold the file itself
/// and the directory's `init.meta.json5`.
pub proof fn lemma_init_file_watched(d: Seq<char>, i: int)
    requires
        d.len() > 0,
        d.last() != '/',
        0 <= i < INIT_FILE_COUNT,
    ensures
        relevant_paths_spec(join_spec(d, init_file_name_spec(i)))[0] == d,
        relevant_paths_spec(join_spec(d, init_file_name_spec(i))).contains(join_spec(d, init_file_name_spec(i))),
        relevant_paths_spec(join_spec(d, init_file_name_spec(i))).contains(join_spec(d, "init.meta.json5"@)),
{
    reveal_strlit("init.luau");
    reveal_strlit("init.server.luau");
    reveal_strlit("init.client.luau");
    reveal_strlit("init.local.luau");
    reveal_strlit("init.plugin.luau");
    reveal_strlit("init.legacy.luau");
    reveal_strlit("init.lua");
    reveal_strlit("init.server.lua");
    reveal_strlit("init.client.lua");
    reveal_strlit("init.local.lua");
    reveal_strlit("init.meta.json5");
    reveal_strlit("init.");
    let n = init_file_name_spec(i);
    assert(forall|j: int| 0 <= j < n.len() ==> n[j] != '/');
    lemma_join_parts(d, n);
    let p = join_spec(d, n);
    assert(file_name_spec(p) == n);
    assert(has_prefix(n, "init."@)) by {
        assert(n.subrange(0, 5) =~= "init."@);
    }
    let names = init_variant_names();
    let r = relevant_paths_spec(p);
    assert(r == seq![d] + names.map_values(|m: Seq<char>| join_spec(d, m)));
    let k: int = if i == 0 { 0 } else if i == 1 { 1 } else if i == 2 { 2 } else if i == 3 { 4 } else if i == 4 { 3 } else if i == 5 { 5 } else if i == 6 { 7 } else if i == 7 { 8 } else if i == 8 { 9 } else { 10 };
    assert(names[k] == n);
    assert(r[k + 1] == p);
    assert(r[12] == join_spec(d, "init.meta.json5"@));
}

/// How long after a removal a path is checked again, in milliseconds.
pub const RECOVERY_DELAY_MS: u64 = 200;

/// Whether a removal recorded at `recorded_at` is due for its check at
/// `now` (both in milliseconds on one clock; a time before the recording
/// counts as no time elapsed).
pub open spec fn is_due(recorded_at: u64, now: u64) -> bool {
    now >= recorded_at && now - recorded_at >= RECOVERY_DELAY_MS
}

/// Paths removed from the tree because their files vanished, each with the
/// time of the removal, oldest first.
#[derive(Debug)]
pub struct PendingRecovery {
    entries: Vec<(String, u64)>,
}

/// The `(path, time)` views of a list of pending entries.
pub open spec fn entry_views(s: Seq<(String, u64)>) -> Seq<(Seq<char>, u64)> {
    s.map_values(|e: (String, u64)| (e.0@, e.1))
}

impl View for PendingRecovery {
    type V = Seq<(Seq<char>, u64)>;

    closed spec fn view(&self) -> Seq<(Seq<char>, u64)> {
        entry_views(self.entries@)
    }
}

impl PendingRecovery {
    /// An empty queue.
    pub fn new() -> (r: Self)
        ensures
            r@ == Seq::<(Seq<char>, u64)>::empty(),
    {
        let r = PendingRecovery { entries: Vec::new() };
        assert(r@ =~= Seq::<(Seq<char>, u64)>::empty());
        r
    }

    /// Records that `path` was removed at `now`.
    pub fn record(&mut self, path: &str, now: u64)
        ensures
            final(self)@ == old(self)@.push((path@, now)),
    {
        self.entries.push((string_from_chars(&chars_of(path)), now));
        assert(entry_views(self.entries@) =~= entry_views(old(self).entries@).push((path@, now)));
    }

    /// Takes out the paths whose check is due at `now`, oldest first; the
    /// others stay, in their order.
    pub fn take_due(&mut self, now: u64) -> (ready: Vec<String>)
        ensures
            final(self)@ == old(self)@.filter(|e: (Seq<char>, u64)| !is_due(e.1, now)),
            ready@.map_values(|p: String| p@) == old(self)@.filter(|e: (Seq<char>, u64)| is_due(e.1, now)).map_values(
                |e: (Seq<char>, u64)| e.0,
            ),
    {
        let ghost old_v = self@;
        let ghost due = |e: (Seq<char>, u64)| is_due(e.1, now);
        let ghost not_due = |e: (Seq<char>, u64)| !is_due(e.1, now);
        let mut keep: Vec<(String, u64)> = Vec::new();
        let mut ready: Vec<String> = Vec::new();
        let mut i: usize = 0;
        while i < self.entries.len()
            invariant
                i <= self.entries.len(),
                old_v == entry_views(self.entries@),
                due == (|e: (Seq<char>, u64)| is_due(e.1, now)),
                not_due == (|e: (Seq<char>, u64)| !is_due(e.1, now)),
                entry_views(keep@) == old_v.take(i as int).filter(not_due),
                ready@.map_values(|p: String| p@) == old_v.take(i as int).filter(due).map_values(
                    |e: (Seq<char>, u64)| e.0,
                ),
            decreases self.entries.len() - i,
        {
            let p = string_from_chars(&chars_of(self.entries[i].0.as_str()));
            let t = self.entries[i].1;
            let ghost e = old_v[i as int];
            assert(e == (self.entries@[i as int].0@, t));
            assert(old_v.take(i + 1) =~= old_v.take(i as int).push(e));
            reveal(Seq::filter);
            assert(old_v.take(i + 1).filter(due) == if due(e) {
                old_v.take(i as int).filter(due).push(e)
            } else {
                old_v.take(i as int).filter(due)
            }) by {
                assert(old_v.take(i + 1).drop_last() =~= old_v.take(i as int));
            }
            assert(old_v.take(i + 1).filter(not_due) == if not_due(e) {
                old_v.take(i as int).filter(not_due).push(e)
            } else {
                old_v.take(i as int).filter(not_due)
            }) by {
                assert(old_v.take(i + 1).drop_last() =~= old_v.take(i as int));
            }
            if now >= t && now - t >= RECOVERY_DELAY_MS {
                assert(due(e) && !not_due(e));
                let ghost before = ready@;
                ready.push(p);
                assert(ready@.map_values(|q: String| q@) =~= before.map_values(|q: String| q@).push(e.0));
                assert(old_v.take(i as int).filter(due).push(e).map_values(|x: (Seq<char>, u64)| x.0)
                    =~= old_v.take(i as int).filter(due).map_values(|x: (Seq<char>, u64)| x.0).push(e.0));
            } else {
                assert(!due(e) && not_due(e));
                let ghost before = keep@;
                keep.push((p, t));
                assert(entry_views(keep@) =~= entry_views(before).push(e));
            }
            i += 1;
        }
        assert(old_v.take(old_v.len() as int) =~= old_v);
        self.entries = keep;
        ready
    }
}

/// A pending removal is handed out by a check at `now` exactly when its
/// delay has passed; otherwise it stays pending.
pub proof fn lemma_due_entries_handed_out(v: Seq<(Seq<char>, u64)>, now: u64, i: int)
    requires
        0 <= i < v.len(),
    ensures
        is_due(v[i].1, now) ==> v.filter(|e: (Seq<char>, u64)| is_due(e.1, now)).map_values(
            |e: (Seq<char>, u64)| e.0,
        ).contains(v[i].0) && !v.filter(|e: (Seq<char>, u64)| !is_due(e.1, now)).contains(v[i]),
        !is_due(v[i].1, now) ==> v.filter(|e: (Seq<char>, u64)| !is_due(e.1, now)).contains(v[i]),
{
    let due = |e: (Seq<char>, u64)| is_due(e.1, now);
    let not_due = |e: (Seq<char>, u64)| !is_due(e.1, now);
    if is_due(v[i].1, now) {
        v.lemma_filter_contains(due, i);
        let f = v.filter(due);
        let k = choose|k: int| 0 <= k < f.len() && f[k] == v[i];
        assert(f.map_values(|e: (Seq<char>, u64)| e.0)[k] == v[i].0);
        if v.filter(not_due).contains(v[i]) {
            let j = choose|j: int| 0 <= j < v.filter(not_due).len() && v.filter(not_due)[j] == v[i];
            v.lemma_filter_pred(not_due, j);
        }
    } else {
        v.lemma_filter_contains(not_due, i);
    }
}

// ---------------------------------------------------------------------------
// Scheduling tree reconciliation
// ---------------------------------------------------------------------------

/// How long after a burst of filesystem events the whole tree is checked
/// against the disk, in milliseconds.
pub const RECONCILE_DELAY_MS: u64 = 200;

/// The shortest wait between wake-ups while a check is pending, in
/// milliseconds.
pub const MIN_WAIT_MS: u64 = 50;

/// The wait between wake-ups when no check is pending, in milliseconds.
pub const IDLE_WAIT_MS: u64 = 500;

/// When the next check of the whole tree is due, if one is pending (a time
/// in milliseconds on the processor's clock).
#[derive(Debug, Clone, Copy, PartialEq, Eq, Structural)]
pub struct ReconcileSchedule {
    pub reconcile_at: Option<u64>,
}

/// The check that filesystem events handled at `now` leave due: the
/// pending one, or one a delay from now.
pub open spec fn events_deadline(at: Option<u64>, now: u64) -> int {
    match at {
        Some(d) => d as int,
        None => now + RECONCILE_DELAY_MS,
    }
}

/// Whether handling filesystem events at `now` runs the check.
pub open spec fn events_run(at: Option<u64>, now: u64) -> bool {
    now >= events_deadline(at, now)
}

/// The pending check after filesystem events were handled at `now`.
pub open spec fn events_schedule(at: Option<u64>, now: u64) -> Option<u64> {
    if events_run(at, now) {
        None
    } else {
        Some(events_deadline(at, now) as u64)
    }
}

impl ReconcileSchedule {
    /// Nothing pending.
    pub fn new() -> (r: Self)
        ensures
            r.reconcile_at is None,
    {
        ReconcileSchedule { reconcile_at: None }
    }

    /// How long to wait for work at `now`: until the pending check is due,
    /// but at least the shortest wait; the idle wait when none is pending.
    pub fn wait_ms(&self, now: u64) -> (r: u64)
        ensures
            r == match self.reconcile_at {
                Some(d) => if d > now && d - now > MIN_WAIT_MS {
                    (d - now) as u64
                } else {
                    MIN_WAIT_MS
                },
                None => IDLE_WAIT_MS,
            },
    {
        match self.reconcile_at {
            Some(d) => if d > now && d - now > MIN_WAIT_MS {
                d - now
            } else {
                MIN_WAIT_MS
            },
            None => IDLE_WAIT_MS,
        }
    }

    /// After filesystem events were handled at `now`: a check is scheduled
    /// for later unless one is pending, and a pending check that is due is
    /// run now (the result says whether) and cleared.
    pub fn after_events(&mut self, now: u64) -> (run: bool)
        requires
            now <= u64::MAX - RECONCILE_DELAY_MS,
        ensures
            run == events_run(old(self).reconcile_at, now),
            final(self).reconcile_at == events_schedule(old(self).reconcile_at, now),
    {
        let d = match self.reconcile_at {
            Some(d) => d,
            None => now + RECONCILE_DELAY_MS,
        };
        if now >= d {
            self.reconcile_at = None;
            true
        } else {
            self.reconcile_at = Some(d);
            false
        }
    }

    /// After the watcher reported a critical error: when it lost events, the
    /// tree is checked now (the result says whether) and the pending check
    /// is cleared.
    pub fn after_watcher_error(&mut self, rescan_required: bool) -> (run: bool)
        ensures
            run == rescan_required,
            final(self).reconcile_at == if rescan_required { None } else { old(self).reconcile_at },
    {
        if rescan_required {
            self.reconcile_at = None;
        }
        rescan_required
    }

    /// When no work arrived before `now`: a pending check that is due is run
    /// (the result says whether) and cleared.
    pub fn when_idle(&mut self, now: u64) -> (run: bool)
        ensures
            run == (old(self).reconcile_at matches Some(d) && now >= d),
            final(self).reconcile_at == if run { None } else { old(self).reconcile_at },
    {
        match self.reconcile_at {
            Some(d) => if now >= d {
                self.reconcile_at = None;
                true
            } else {
                false
            },
            None => false,
        }
    }
}

/// A burst of filesystem events does not postpone the check it scheduled:
/// events at `t0` schedule the check a delay later, events at any later
/// time before then leave that deadline as it is, and events at or after
/// the deadline run the check.
pub proof fn lemma_reconcile_not_postponed(t0: u64, t1: u64)
    requires
        t0 <= t1,
        t0 <= u64::MAX - RECONCILE_DELAY_MS,
    ensures
        events_schedule(None, t0) == Some((t0 + RECONCILE_DELAY_MS) as u64),
        t1 < t0 + RECONCILE_DELAY_MS ==> events_schedule(events_schedule(None, t0), t1) == events_schedule(None, t0),
        t1 >= t0 + RECONCILE_DELAY_MS ==> events_run(events_schedule(None, t0), t1),
{
}

} // verus!
