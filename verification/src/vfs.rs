//! Plain values exchanged with the virtual filesystem: directory entries,
//! file metadata and change events, the cache of pre-read files, and the
//! errors of the file watcher.

use vstd::prelude::*;
use crate::text::{chars_of, string_from_chars, chars_eq, push_str, has_prefix};

verus! {

/// An entry of a directory listing.
#[derive(Debug, Clone)]
pub struct DirEntry {
    pub path: String,
}

impl DirEntry {
    /// The entry's full path.
    pub fn path(&self) -> (res: &str)
        ensures
            res@ == self.path@,
    {
        self.path.as_str()
    }
}

/// The entries of a directory, in the order the backend listed them.
#[derive(Debug)]
pub struct ReadDir {
    pub entries: Vec<DirEntry>,
}

impl ReadDir {
    /// The number of entries.
    pub fn len(&self) -> (res: usize)
        ensures
            res == self.entries@.len(),
    {
        self.entries.len()
    }

    /// The entry at `index`, if there is one.
    pub fn get(&self, index: usize) -> (res: Option<&DirEntry>)
        ensures
            index < self.entries@.len() ==> res == Some(&self.entries@[index as int]),
            index >= self.entries@.len() ==> res is None,
    {
        if index < self.entries.len() {
            Some(&self.entries[index])
        } else {
            None
        }
    }
}

/// What the filesystem knows of a path: a file or a directory.
#[derive(Debug, Clone, Copy)]
pub struct Metadata {
    pub is_file: bool,
}

impl Metadata {
    /// Whether the path is a file.
    pub fn is_file(&self) -> (res: bool)
        ensures
            res == self.is_file,
    {
        self.is_file
    }

    /// Whether the path is a directory, that is, not a file.
    pub fn is_dir(&self) -> (res: bool)
        ensures
            res == !self.is_file,
    {
        !self.is_file
    }
}

/// A change the filesystem reports for a path.
#[derive(Debug, Clone)]
pub enum VfsEvent {
    Create(String),
    Write(String),
    Remove(String),
}

// ---------------------------------------------------------------------------
// Events of the file watcher
// ---------------------------------------------------------------------------

/// The kinds of change the file watcher reports, as far as they matter
/// here.
#[derive(Debug, Clone, Copy, PartialEq, Eq, Structural)]
pub enum WatchEventKind {
    /// A file or folder was created.
    Create,
    /// A file's data changed, or it changed in an unspecified way.
    Modify,
    /// Only metadata changed.
    Metadata,
    /// A rename reported with both paths, old first.
    RenameBoth,
    /// A rename reported with the old path only.
    RenameFrom,
    /// A rename reported with the new path only.
    RenameTo,
    /// A rename whose direction is not known.
    RenameOther,
    /// A file or folder was removed.
    Remove,
    /// A file was only read.
    Access,
    /// Any other or unknown change.
    Other,
}

/// The kind and path of a filesystem event.
pub open spec fn event_view(e: VfsEvent) -> (crate::suppression::EventKind, Seq<char>) {
    match e {
        VfsEvent::Create(p) => (crate::suppression::EventKind::Create, p@),
        VfsEvent::Write(p) => (crate::suppression::EventKind::Write, p@),
        VfsEvent::Remove(p) => (crate::suppression::EventKind::Remove, p@),
    }
}

/// One event of kind `k` for each path, in order.
pub open spec fn each_as(paths: Seq<Seq<char>>, k: crate::suppression::EventKind) -> Seq<(crate::suppression::EventKind, Seq<char>)> {
    paths.map_values(|p: Seq<char>| (k, p))
}

/// The filesystem events a watcher report stands for: creations (also the
/// new path of a rename) and removals (also the old path of a rename) as
/// such, data changes and changes of unknown kind as writes, a rename with
/// both paths as the removal of the old and the creation of the new one,
/// and nothing for metadata changes and reads.
pub open spec fn convert_event_spec(kind: WatchEventKind, paths: Seq<Seq<char>>) -> Seq<(crate::suppression::EventKind, Seq<char>)> {
    match kind {
        WatchEventKind::Create | WatchEventKind::RenameTo => each_as(paths, crate::suppression::EventKind::Create),
        WatchEventKind::Modify | WatchEventKind::RenameOther | WatchEventKind::Other => each_as(
            paths,
            crate::suppression::EventKind::Write,
        ),
        WatchEventKind::RenameFrom | WatchEventKind::Remove => each_as(paths, crate::suppression::EventKind::Remove),
        WatchEventKind::Metadata | WatchEventKind::Access => seq![],
        WatchEventKind::RenameBoth => if paths.len() >= 2 {
            seq![(crate::suppression::EventKind::Remove, paths[0]), (crate::suppression::EventKind::Create, paths[1])]
        } else {
            seq![]
        },
    }
}

fn make_event(k: crate::suppression::EventKind, path: &String) -> (e: VfsEvent)
    ensures
        event_view(e) == (k, path@),
{
    let p = string_from_chars(&chars_of(path.as_str()));
    match k {
        crate::suppression::EventKind::Create => VfsEvent::Create(p),
        crate::suppression::EventKind::Write => VfsEvent::Write(p),
        crate::suppression::EventKind::Remove => VfsEvent::Remove(p),
    }
}

/// The filesystem events for a watcher report of kind `kind` about `paths`.
pub fn convert_event(kind: WatchEventKind, paths: &Vec<String>) -> (res: Vec<VfsEvent>)
    ensures
        res@.map_values(|e: VfsEvent| event_view(e)) == convert_event_spec(
            kind,
            paths@.map_values(|p: String| p@),
        ),
{
    let ghost pv = paths@.map_values(|p: String| p@);
    let mut res: Vec<VfsEvent> = Vec::new();
    match kind {
        WatchEventKind::Metadata | WatchEventKind::Access => {
            assert(res@.map_values(|e: VfsEvent| event_view(e)) =~= convert_event_spec(kind, pv));
        },
        WatchEventKind::RenameBoth => {
            if paths.len() >= 2 {
                res.push(make_event(crate::suppression::EventKind::Remove, &paths[0]));
                res.push(make_event(crate::suppression::EventKind::Create, &paths[1]));
            }
            assert(res@.map_values(|e: VfsEvent| event_view(e)) =~= convert_event_spec(kind, pv));
        },
        _ => {
            let k = match kind {
                WatchEventKind::Create | WatchEventKind::RenameTo => crate::suppression::EventKind::Create,
                WatchEventKind::RenameFrom | WatchEventKind::Remove => crate::suppression::EventKind::Remove,
                _ => crate::suppression::EventKind::Write,
            };
            assert(convert_event_spec(kind, pv) == each_as(pv, k));
            let mut i: usize = 0;
            while i < paths.len()
                invariant
                    i <= paths.len(),
                    pv == paths@.map_values(|p: String| p@),
                    res@.map_values(|e: VfsEvent| event_view(e)) == each_as(pv, k).take(i as int),
                decreases paths.len() - i,
            {
                let ghost before = res@;
                let ev = make_event(k, &paths[i]);
                res.push(ev);
                assert(pv[i as int] == paths@[i as int]@);
                assert(res@.map_values(|e: VfsEvent| event_view(e)) =~= before.map_values(|e: VfsEvent| event_view(e)).push(
                    event_view(ev),
                ));
                assert(res@.map_values(|e: VfsEvent| event_view(e)) =~= each_as(pv, k).take(i + 1));
                i += 1;
            }
            assert(each_as(pv, k).take(paths.len() as int) =~= each_as(pv, k));
        },
    }
    res
}

/// Text with every `\r\n` line break written as `\n`, as files are read
/// when their line endings are normalized.
pub fn normalize_line_endings(contents: &str) -> (r: String)
    ensures
        r@ == crate::text::replace_spec(contents@, seq!['\r', '\n'], seq!['\n']),
{
    let crlf = vec!['\r', '\n'];
    let lf = vec!['\n'];
    assert(crlf@ =~= seq!['\r', '\n']);
    assert(lf@ =~= seq!['\n']);
    let out = crate::text::replace_all(&chars_of(contents), &crlf, &lf);
    string_from_chars(&out)
}

// ---------------------------------------------------------------------------
// Watched paths
// ---------------------------------------------------------------------------

/// Whether `dir` is `path` or one of its ancestors, as `Path::ancestors`
/// walks them: a directory ending in `/` (such as the root `/`) is above
/// every path that starts with it, any other directory is above the paths
/// that start with it and a `/`, and the empty path is above every
/// relative path.
pub open spec fn path_under(path: Seq<char>, dir: Seq<char>) -> bool {
    ||| path == dir
    ||| (dir.len() == 0 && !has_prefix(path, seq!['/']))
    ||| (dir.len() > 0 && dir.last() == '/' && has_prefix(path, dir))
    ||| (dir.len() > 0 && has_prefix(path, dir.push('/')))
}

/// Whether one of the watched paths `w` is `path` or a directory above it
/// (watches are recursive).
pub open spec fn covers(w: Set<Seq<char>>, path: Seq<char>) -> bool {
    exists|a: Seq<char>| w.contains(a) && path_under(path, a)
}

/// The paths the file watcher watches, each recursively.
#[derive(Debug)]
pub struct WatchSet {
    paths: Vec<String>,
}

/// The paths of a list of strings, as a set.
pub open spec fn path_set(v: Seq<String>) -> Set<Seq<char>> {
    v.map_values(|s: String| s@).to_set()
}

impl View for WatchSet {
    type V = Set<Seq<char>>;

    closed spec fn view(&self) -> Set<Seq<char>> {
        path_set(self.paths@)
    }
}

fn path_under_exec(path: &Vec<char>, prefix: &Vec<char>) -> (r: bool)
    ensures
        r == path_under(path@, prefix@),
{
    if chars_eq(path, prefix) {
        return true;
    }
    if prefix.len() == 0 {
        let slash = vec!['/'];
        let starts = crate::text::matches_at(path, 0, &slash);
        assert(starts == has_prefix(path@, seq!['/'])) by {
            assert(slash@ =~= seq!['/']);
        }
        return !starts;
    }
    if prefix[prefix.len() - 1] == '/' {
        if crate::text::matches_at(path, 0, prefix) {
            return true;
        }
    }
    let mut p = prefix.clone();
    p.push('/');
    crate::text::matches_at(path, 0, &p)
}

impl WatchSet {
    /// No path watched.
    pub fn new() -> (r: Self)
        ensures
            r@ == Set::<Seq<char>>::empty(),
    {
        let r = WatchSet { paths: Vec::new() };
        assert(path_set(r.paths@) =~= Set::<Seq<char>>::empty());
        r
    }

    /// Whether `path` has to be watched: neither it nor a directory above it
    /// is watched yet.
    pub fn needs_watch(&self, path: &str) -> (r: bool)
        ensures
            r == !covers(self@, path@),
    {
        let p = chars_of(path);
        let ghost views = self.paths@.map_values(|s: String| s@);
        let mut i: usize = 0;
        while i < self.paths.len()
            invariant
                i <= self.paths@.len(),
                p@ == path@,
                views == self.paths@.map_values(|s: String| s@),
                forall|k: int| 0 <= k < i ==> !path_under(path@, #[trigger] views[k]),
            decreases self.paths@.len() - i,
        {
            if path_under_exec(&p, &chars_of(self.paths[i].as_str())) {
                proof {
                    assert(views[i as int] == self.paths@[i as int]@);
                    assert(views.to_set().contains(views[i as int]));
                }
                return false;
            }
            i += 1;
        }
        proof {
            if covers(self@, path@) {
                let a = choose|a: Seq<char>| self@.contains(a) && path_under(path@, a);
                let k = choose|k: int| 0 <= k < views.len() && views[k] == a;
            }
        }
        true
    }

    /// Records that `path` is now watched.
    pub fn record_watch(&mut self, path: &str)
        ensures
            final(self)@ == old(self)@.insert(path@),
    {
        let ghost before = self.paths@;
        self.paths.push(string_from_chars(&chars_of(path)));
        proof {
            assert(self.paths@.map_values(|s: String| s@) =~= before.map_values(|s: String| s@).push(path@));
            before.map_values(|s: String| s@).lemma_push_to_set_commute(path@);
        }
    }

    /// Records that `path` is no longer watched.
    pub fn record_unwatch(&mut self, path: &str)
        ensures
            final(self)@ == old(self)@.remove(path@),
    {
        let p = chars_of(path);
        let ghost views = self.paths@.map_values(|s: String| s@);
        let mut kept: Vec<String> = Vec::new();
        let mut i: usize = 0;
        while i < self.paths.len()
            invariant
                i <= self.paths@.len(),
                p@ == path@,
                views == self.paths@.map_values(|s: String| s@),
                path_set(kept@) == views.take(i as int).to_set().remove(path@),
            decreases self.paths@.len() - i,
        {
            let q = chars_of(self.paths[i].as_str());
            let ghost before = kept@;
            proof {
                assert(views.take(i + 1) =~= views.take(i as int).push(views[i as int]));
                views.take(i as int).lemma_push_to_set_commute(views[i as int]);
            }
            if !chars_eq(&q, &p) {
                kept.push(string_from_chars(&q));
                proof {
                    assert(kept@.map_values(|s: String| s@) =~= before.map_values(|s: String| s@).push(q@));
                    before.map_values(|s: String| s@).lemma_push_to_set_commute(q@);
                    assert(path_set(kept@) =~= views.take(i + 1).to_set().remove(path@));
                }
            } else {
                assert(path_set(kept@) =~= views.take(i + 1).to_set().remove(path@));
            }
            i += 1;
        }
        assert(views.take(views.len() as int) =~= views);
        self.paths = kept;
    }
}

/// How an attempt to stop watching a path ended.
#[derive(Debug, Clone, Copy, PartialEq, Eq, Structural)]
pub enum UnwatchOutcome {
    /// The watcher stopped watching the path.
    Done,
    /// The path was not watched by itself (a directory above it is) or no
    /// longer exists.
    NotWatched,
    /// The watcher reported another error.
    Failed,
}

/// Whether to forget a path after trying to stop watching it, and whether
/// that counts as success: a path the watcher stopped watching, or never
/// watched by itself, is forgotten; on any other error it is kept and the
/// error reported.
pub fn unwatch_effect(outcome: UnwatchOutcome) -> (r: (bool, bool))
    ensures
        r == (match outcome {
            UnwatchOutcome::Failed => (false, false),
            _ => (true, true),
        }),
{
    match outcome {
        UnwatchOutcome::Failed => (false, false),
        _ => (true, true),
    }
}

// ---------------------------------------------------------------------------
// Maps keyed by path
// ---------------------------------------------------------------------------

/// The map that a list of `(path, value)` entries with distinct paths holds.
pub open spec fn entries_map<V>(s: Seq<(String, V)>) -> Map<Seq<char>, V>
    decreases s.len(),
{
    if s.len() == 0 {
        Map::empty()
    } else {
        entries_map(s.drop_last()).insert(s.last().0@, s.last().1)
    }
}

/// Whether the entries' paths are pairwise distinct.
pub open spec fn distinct_keys<V>(s: Seq<(String, V)>) -> bool {
    forall|i: int, j: int| 0 <= i < j < s.len() ==> (#[trigger] s[i]).0@ != (#[trigger] s[j]).0@
}

pub proof fn lemma_entries_map<V>(s: Seq<(String, V)>, k: Seq<char>)
    requires
        distinct_keys(s),
    ensures
        entries_map(s).contains_key(k) <==> exists|i: int| 0 <= i < s.len() && (#[trigger] s[i]).0@ == k,
        forall|i: int| 0 <= i < s.len() && (#[trigger] s[i]).0@ == k ==> entries_map(s)[k] == s[i].1,
    decreases s.len(),
{
    if s.len() > 0 {
        let t = s.drop_last();
        assert forall|i: int, j: int| 0 <= i < j < t.len() implies (#[trigger] t[i]).0@ != (#[trigger] t[j]).0@ by {
            assert(t[i] == s[i] && t[j] == s[j]);
        }
        lemma_entries_map(t, k);
        if entries_map(s).contains_key(k) && s.last().0@ != k {
            let i = choose|i: int| 0 <= i < t.len() && (#[trigger] t[i]).0@ == k;
            assert(s[i] == t[i]);
        }
        if exists|i: int| 0 <= i < s.len() && (#[trigger] s[i]).0@ == k {
            let i = choose|i: int| 0 <= i < s.len() && (#[trigger] s[i]).0@ == k;
            if i < s.len() - 1 {
                assert(t[i] == s[i]);
            }
        }
        assert forall|i: int| 0 <= i < s.len() && (#[trigger] s[i]).0@ == k implies entries_map(s)[k] == s[i].1 by {
            if i < s.len() - 1 {
                assert(t[i] == s[i]);
                assert(s[s.len() - 1].0@ != k);
            }
        }
    }
}

/// A map from paths to values, kept as a list of entries with distinct
/// paths.
#[derive(Debug)]
pub struct PathMap<V> {
    entries: Vec<(String, V)>,
}

impl<V> View for PathMap<V> {
    type V = Map<Seq<char>, V>;

    closed spec fn view(&self) -> Map<Seq<char>, V> {
        entries_map(self.entries@)
    }
}

impl<V> PathMap<V> {
    /// Whether the entries have distinct paths.
    pub closed spec fn wf(&self) -> bool {
        distinct_keys(self.entries@)
    }

    /// An empty map.
    pub fn new() -> (r: Self)
        ensures
            r.wf(),
            r@ == Map::<Seq<char>, V>::empty(),
    {
        PathMap { entries: Vec::new() }
    }

    fn find(&self, path: &str) -> (r: Option<usize>)
        requires
            self.wf(),
        ensures
            match r {
                Some(i) => i < self.entries@.len() && self.entries@[i as int].0@ == path@,
                None => forall|i: int| 0 <= i < self.entries@.len() ==> (#[trigger] self.entries@[i]).0@ != path@,
            },
    {
        let p = chars_of(path);
        let mut i: usize = 0;
        while i < self.entries.len()
            invariant
                i <= self.entries@.len(),
                p@ == path@,
                forall|j: int| 0 <= j < i ==> (#[trigger] self.entries@[j]).0@ != path@,
            decreases self.entries@.len() - i,
        {
            if chars_eq(&chars_of(self.entries[i].0.as_str()), &p) {
                return Some(i);
            }
            i += 1;
        }
        None
    }

    /// The value recorded for `path`, if any.
    pub fn get(&self, path: &str) -> (r: Option<&V>)
        requires
            self.wf(),
        ensures
            match r {
                Some(v) => self@.contains_key(path@) && *v == self@[path@],
                None => !self@.contains_key(path@),
            },
    {
        proof {
            lemma_entries_map(self.entries@, path@);
        }
        match self.find(path) {
            Some(i) => Some(&self.entries[i].1),
            None => None,
        }
    }

    /// Removes the value recorded for `path` and hands it back, if any.
    pub fn remove(&mut self, path: &str) -> (r: Option<V>)
        requires
            old(self).wf(),
        ensures
            final(self).wf(),
            final(self)@ == old(self)@.remove(path@),
            match r {
                Some(v) => old(self)@.contains_key(path@) && v == old(self)@[path@],
                None => !old(self)@.contains_key(path@),
            },
    {
        proof {
            lemma_entries_map(self.entries@, path@);
        }
        match self.find(path) {
            Some(i) => {
                let ghost s = self.entries@;
                let e = self.entries.remove(i);
                let ghost t = self.entries@;
                proof {
                    assert forall|a: int, b: int| 0 <= a < b < t.len() implies (#[trigger] t[a]).0@ != (#[trigger] t[b]).0@ by {
                        let a0 = if a < i { a } else { a + 1 };
                        let b0 = if b < i { b } else { b + 1 };
                        assert(t[a] == s[a0] && t[b] == s[b0]);
                    }
                    assert forall|k: Seq<char>| #[trigger] entries_map(t).contains_key(k) == entries_map(s).remove(path@).contains_key(k)
                        && (entries_map(t).contains_key(k) ==> entries_map(t)[k] == entries_map(s).remove(path@)[k]) by {
                        lemma_entries_map(s, k);
                        lemma_entries_map(t, k);
                        if entries_map(t).contains_key(k) {
                            let j = choose|j: int| 0 <= j < t.len() && (#[trigger] t[j]).0@ == k;
                            let j0 = if j < i { j } else { j + 1 };
                            assert(t[j] == s[j0]);
                        }
                        if entries_map(s).remove(path@).contains_key(k) {
                            let j = choose|j: int| 0 <= j < s.len() && (#[trigger] s[j]).0@ == k;
                            assert(j != i);
                            let j1 = if j < i { j } else { j - 1 };
                            assert(t[j1] == s[j]);
                        }
                    }
                    assert(entries_map(t) =~= entries_map(s).remove(path@));
                }
                Some(e.1)
            },
            None => {
                assert(self@ =~= self@.remove(path@));
                None
            },
        }
    }

    /// Records `value` for `path`, replacing any value recorded before.
    pub fn insert(&mut self, path: &str, value: V)
        requires
            old(self).wf(),
        ensures
            final(self).wf(),
            final(self)@ == old(self)@.insert(path@, value),
    {
        let _ = self.remove(path);
        let ghost s = self.entries@;
        proof {
            lemma_entries_map(s, path@);
        }
        let key = string_from_chars(&chars_of(path));
        self.entries.push((key, value));
        proof {
            let t = self.entries@;
            assert forall|a: int, b: int| 0 <= a < b < t.len() implies (#[trigger] t[a]).0@ != (#[trigger] t[b]).0@ by {
                if b == t.len() - 1 {
                    assert(t[a] == s[a]);
                } else {
                    assert(t[a] == s[a] && t[b] == s[b]);
                }
            }
            assert(t.drop_last() =~= s);
        }
    }
}

// ---------------------------------------------------------------------------
// Pre-read files
// ---------------------------------------------------------------------------

/// File contents, canonical paths, kinds and directory listings read ahead
/// of the first snapshot, so that the first reads need not reach the disk.
/// Each entry of `files`, `canonical` and `children` is handed out once.
#[derive(Debug)]
pub struct PrefetchCache {
    pub files: PathMap<Vec<u8>>,
    pub canonical: PathMap<String>,
    /// `true` for a file, `false` for a directory; paths not in the map are
    /// left to the backend.
    pub is_file: PathMap<bool>,
    /// The sorted child paths of each directory.
    pub children: PathMap<Vec<String>>,
}

impl PrefetchCache {
    /// Whether every map of the cache is well formed.
    pub open spec fn wf(&self) -> bool {
        self.files.wf() && self.canonical.wf() && self.is_file.wf() && self.children.wf()
    }

    /// An empty cache.
    pub fn new() -> (r: Self)
        ensures
            r.wf(),
            r.files@ == Map::<Seq<char>, Vec<u8>>::empty(),
            r.canonical@ == Map::<Seq<char>, String>::empty(),
            r.is_file@ == Map::<Seq<char>, bool>::empty(),
            r.children@ == Map::<Seq<char>, Vec<String>>::empty(),
    {
        PrefetchCache { files: PathMap::new(), canonical: PathMap::new(), is_file: PathMap::new(), children: PathMap::new() }
    }

    /// The pre-read contents of `path`, taken out of the cache.
    pub fn take_file(&mut self, path: &str) -> (r: Option<Vec<u8>>)
        requires
            old(self).wf(),
        ensures
            final(self).wf(),
            final(self).files@ == old(self).files@.remove(path@),
            final(self).canonical@ == old(self).canonical@,
            final(self).is_file@ == old(self).is_file@,
            final(self).children@ == old(self).children@,
            match r {
                Some(v) => old(self).files@.contains_key(path@) && v == old(self).files@[path@],
                None => !old(self).files@.contains_key(path@),
            },
    {
        self.files.remove(path)
    }

    /// The pre-read canonical form of `path`, taken out of the cache.
    pub fn take_canonical(&mut self, path: &str) -> (r: Option<String>)
        requires
            old(self).wf(),
        ensures
            final(self).wf(),
            final(self).canonical@ == old(self).canonical@.remove(path@),
            final(self).files@ == old(self).files@,
            final(self).is_file@ == old(self).is_file@,
            final(self).children@ == old(self).children@,
            match r {
                Some(v) => old(self).canonical@.contains_key(path@) && v == old(self).canonical@[path@],
                None => !old(self).canonical@.contains_key(path@),
            },
    {
        self.canonical.remove(path)
    }

    /// The pre-read child paths of the directory `path`, taken out of the
    /// cache.
    pub fn take_children(&mut self, path: &str) -> (r: Option<Vec<String>>)
        requires
            old(self).wf(),
        ensures
            final(self).wf(),
            final(self).children@ == old(self).children@.remove(path@),
            final(self).files@ == old(self).files@,
            final(self).canonical@ == old(self).canonical@,
            final(self).is_file@ == old(self).is_file@,
            match r {
                Some(v) => old(self).children@.contains_key(path@) && v == old(self).children@[path@],
                None => !old(self).children@.contains_key(path@),
            },
    {
        self.children.remove(path)
    }

    /// The metadata of `path` when the cache knows its kind.
    pub fn metadata(&self, path: &str) -> (r: Option<Metadata>)
        requires
            self.wf(),
        ensures
            match r {
                Some(m) => self.is_file@.contains_key(path@) && m.is_file == self.is_file@[path@],
                None => !self.is_file@.contains_key(path@),
            },
    {
        match self.is_file.get(path) {
            Some(b) => Some(Metadata { is_file: *b }),
            None => None,
        }
    }
}

// ---------------------------------------------------------------------------
// Errors of the file watcher
// ---------------------------------------------------------------------------

/// The text that `{:?}` gives for a string: the string in double quotes,
/// with quotes, backslashes and unprintable characters escaped.
pub uninterp spec fn debug_quoted(s: Seq<char>) -> Seq<char>;

/// Formats `s` as `{:?}` does (`<str as Debug>::fmt`); the result is named
/// by `debug_quoted`, since the escaping rules run to many cases.
#[verifier::external_body]
fn debug_str(s: &str) -> (r: String)
    ensures
        r@ == debug_quoted(s@),
{
    format!("{:?}", s)
}

/// An error of the file watcher after which watching is no longer
/// reliable.
#[derive(Debug, Clone)]
pub enum WatcherCriticalError {
    /// The watcher reported an error, possibly for a path.
    WatcherError { error: String, path: Option<String> },
    /// Too many changes made the watcher ask for a rescan.
    RescanRequired,
    /// An event could not be sent on.
    ChannelSendFailed(String),
    /// The watcher thread ended unexpectedly.
    ThreadTerminated,
}

impl WatcherCriticalError {
    /// The error's message.
    pub fn message(&self) -> (r: String)
        ensures
            r@ == match self {
                WatcherCriticalError::WatcherError { error, path } => "File watcher error: "@ + error@ + " (path: "@
                    + match path {
                    Some(p) => "Some("@ + debug_quoted(p@) + ")"@,
                    None => "None"@,
                } + ")"@,
                WatcherCriticalError::RescanRequired => "File watcher requested rescan due to too many changes"@,
                WatcherCriticalError::ChannelSendFailed(e) => "File watcher failed to send event: "@ + e@,
                WatcherCriticalError::ThreadTerminated => "File watcher thread terminated unexpectedly"@,
            },
    {
        let mut out: Vec<char> = Vec::new();
        match self {
            WatcherCriticalError::WatcherError { error, path } => {
                push_str(&mut out, "File watcher error: ");
                push_str(&mut out, error.as_str());
                push_str(&mut out, " (path: ");
                match path {
                    Some(p) => {
                        push_str(&mut out, "Some(");
                        let q = debug_str(p.as_str());
                        push_str(&mut out, q.as_str());
                        push_str(&mut out, ")");
                    },
                    None => {
                        push_str(&mut out, "None");
                    },
                }
                push_str(&mut out, ")");
            },
            WatcherCriticalError::RescanRequired => {
                push_str(&mut out, "File watcher requested rescan due to too many changes");
            },
            WatcherCriticalError::ChannelSendFailed(e) => {
                push_str(&mut out, "File watcher failed to send event: ");
                push_str(&mut out, e.as_str());
            },
            WatcherCriticalError::ThreadTerminated => {
                push_str(&mut out, "File watcher thread terminated unexpectedly");
            },
        }
        string_from_chars(&out)
    }
}

// ---------------------------------------------------------------------------
// I/O results
// ---------------------------------------------------------------------------

/// Marks the backends of the virtual filesystem; nothing outside this
/// library implements it.
pub trait Sealed {}

/// Declares `std::io::Error`, so that I/O results can pass through verified
/// code; its contents stay hidden.
#[verifier::external_type_specification]
#[verifier::external_body]
pub struct ExIoError(std::io::Error);

/// Whether the I/O error `e` is of kind `NotFound`: a fact of the error
/// value, which contracts here do not look into.
pub uninterp spec fn io_not_found(e: std::io::Error) -> bool;

/// Whether an I/O error is of kind `NotFound` (`io::Error::kind` compared
/// with `ErrorKind::NotFound`); the answer is named `io_not_found`, as the
/// kind is carried by the error value alone.
#[verifier::external_body]
fn is_not_found(err: &std::io::Error) -> (r: bool)
    ensures
        r == io_not_found(*err),
{
    err.kind() == std::io::ErrorKind::NotFound
}

/// Turns a "not found" error into an absent value.
pub trait IoResultExt<T>: Sized {
    /// `Ok(v)` becomes `Ok(Some(v))`, an error of kind `NotFound` becomes
    /// `Ok(None)`, and any other error is kept.
    fn with_not_found(self) -> std::io::Result<Option<T>>;
}

impl<T> IoResultExt<T> for std::io::Result<T> {
    fn with_not_found(self) -> (r: std::io::Result<Option<T>>)
        ensures
            match self {
                Ok(v) => r == Ok::<Option<T>, std::io::Error>(Some(v)),
                Err(e) => r == if io_not_found(e) {
                    Ok::<Option<T>, std::io::Error>(None)
                } else {
                    Err::<Option<T>, std::io::Error>(e)
                },
            },
    {
        match self {
            Ok(v) => Ok(Some(v)),
            Err(err) => {
                if is_not_found(&err) {
                    Ok(None)
                } else {
                    Err(err)
                }
            },
        }
    }
}

} // verus!
