//! One-shot suppression of the filesystem events that the tool's own writes
//! cause, so that they are not processed again as user changes.
//!
//! Each path (as a key, usually its canonical form) has two counters: how
//! many `Remove` events and how many `Create`/`Write` events are still to
//! be swallowed. A path whose counters are both zero is not in the table.

use vstd::prelude::*;
use crate::text::{chars_eq, chars_of, string_from_chars};

verus! {

/// The kind of a filesystem event, as far as suppression is concerned.
#[derive(Debug, Clone, Copy, PartialEq, Eq, Structural)]
pub enum EventKind {
    Create,
    Write,
    Remove,
}

/// Counters of events still to be swallowed, per path.
pub struct SuppressionTable {
    entries: Vec<(String, usize, usize)>,
}

/// The position of `key` among the entries.
pub open spec fn position(entries: Seq<(String, usize, usize)>, key: Seq<char>) -> Option<int>
    decreases entries.len(),
{
    if entries.len() == 0 {
        None
    } else if entries.last().0@ == key {
        Some(entries.len() - 1)
    } else {
        position(entries.drop_last(), key)
    }
}

/// The counters as a map from path to `(removes, creates_and_writes)`.
pub open spec fn counters(entries: Seq<(String, usize, usize)>) -> Map<Seq<char>, (nat, nat)> {
    Map::new(
        |k: Seq<char>| position(entries, k) is Some,
        |k: Seq<char>| {
            let e = entries[position(entries, k)->Some_0];
            (e.1 as nat, e.2 as nat)
        },
    )
}

/// Keys are distinct and no entry has both counters at zero.
pub open spec fn table_wf(entries: Seq<(String, usize, usize)>) -> bool {
    &&& forall|a: int, b: int| 0 <= a < b < entries.len() ==> (#[trigger] entries[a]).0@ != (#[trigger] entries[b]).0@
    &&& forall|a: int| 0 <= a < entries.len() ==> (#[trigger] entries[a]).1 > 0 || entries[a].2 > 0
}

impl View for SuppressionTable {
    type V = Map<Seq<char>, (nat, nat)>;

    closed spec fn view(&self) -> Map<Seq<char>, (nat, nat)> {
        counters(self.entries@)
    }
}

/// The table after adding `removes` and `writes` to the counters of `key`.
pub open spec fn add_counts(t: Map<Seq<char>, (nat, nat)>, key: Seq<char>, removes: nat, writes: nat) -> Map<
    Seq<char>,
    (nat, nat),
> {
    let (r, w) = if t.contains_key(key) {
        t[key]
    } else {
        (0nat, 0nat)
    };
    if r + removes == 0 && w + writes == 0 {
        t.remove(key)
    } else {
        t.insert(key, (r + removes, w + writes))
    }
}

/// The table after lowering the counters of `key` by `removes` and `writes`,
/// never below zero; a key whose counters reach zero leaves the table.
pub open spec fn sub_counts(t: Map<Seq<char>, (nat, nat)>, key: Seq<char>, removes: nat, writes: nat) -> Map<
    Seq<char>,
    (nat, nat),
> {
    if !t.contains_key(key) {
        t
    } else {
        let (r, w) = t[key];
        let r2: nat = if r >= removes { (r - removes) as nat } else { 0 };
        let w2: nat = if w >= writes { (w - writes) as nat } else { 0 };
        if r2 == 0 && w2 == 0 {
            t.remove(key)
        } else {
            t.insert(key, (r2, w2))
        }
    }
}

/// Whether an event of kind `kind` at `key` is swallowed: a `Remove` when
/// removes are pending, a `Create` or `Write` when writes are pending.
pub open spec fn swallows(t: Map<Seq<char>, (nat, nat)>, key: Seq<char>, kind: EventKind) -> bool {
    t.contains_key(key) && match kind {
        EventKind::Remove => t[key].0 > 0,
        _ => t[key].1 > 0,
    }
}

/// The table after an event of kind `kind` at `key` is seen: the matching
/// counter goes down by one if it is positive; a key with both counters at
/// zero leaves the table.
pub open spec fn after_event(t: Map<Seq<char>, (nat, nat)>, key: Seq<char>, kind: EventKind) -> Map<
    Seq<char>,
    (nat, nat),
> {
    if !t.contains_key(key) {
        t
    } else if swallows(t, key, kind) {
        match kind {
            EventKind::Remove => sub_counts(t, key, 1, 0),
            _ => sub_counts(t, key, 0, 1),
        }
    } else {
        sub_counts(t, key, 0, 0)
    }
}

proof fn lemma_position_found(entries: Seq<(String, usize, usize)>, key: Seq<char>)
    ensures
        match position(entries, key) {
            Some(i) => 0 <= i < entries.len() && entries[i].0@ == key,
            None => forall|a: int| 0 <= a < entries.len() ==> (#[trigger] entries[a]).0@ != key,
        },
    decreases entries.len(),
{
    if entries.len() > 0 && entries.last().0@ != key {
        lemma_position_found(entries.drop_last(), key);
        if position(entries.drop_last(), key) is None {
            assert forall|a: int| 0 <= a < entries.len() implies (#[trigger] entries[a]).0@ != key by {
                if a < entries.len() - 1 {
                    assert(entries[a] == entries.drop_last()[a]);
                }
            }
        }
    }
}

proof fn lemma_position_unique(entries: Seq<(String, usize, usize)>, key: Seq<char>, i: int)
    requires
        table_wf(entries),
        0 <= i < entries.len(),
        entries[i].0@ == key,
    ensures
        position(entries, key) == Some(i),
    decreases entries.len(),
{
    if i < entries.len() - 1 {
        assert(entries.last().0@ != key);
        let d = entries.drop_last();
        assert(table_wf(d)) by {
            assert forall|a: int, b: int| 0 <= a < b < d.len() implies (#[trigger] d[a]).0@ != (#[trigger] d[b]).0@ by {
                assert(d[a] == entries[a] && d[b] == entries[b]);
            }
            assert forall|a: int| 0 <= a < d.len() implies (#[trigger] d[a]).1 > 0 || d[a].2 > 0 by {
                assert(d[a] == entries[a]);
            }
        }
        assert(d[i] == entries[i]);
        lemma_position_unique(d, key, i);
    }
}

/// Position of `key` in the entries, by search.
fn find(entries: &Vec<(String, usize, usize)>, key: &Vec<char>) -> (res: Option<usize>)
    requires
        table_wf(entries@),
    ensures
        match res {
            Some(i) => position(entries@, key@) == Some(i as int) && i < entries@.len() && entries@[i as int].0@
                == key@,
            None => position(entries@, key@) is None,
        },
{
    let mut i: usize = 0;
    while i < entries.len()
        invariant
            i <= entries@.len(),
            table_wf(entries@),
            forall|a: int| 0 <= a < i ==> (#[trigger] entries@[a]).0@ != key@,
        decreases entries@.len() - i,
    {
        if chars_eq(&chars_of(entries[i].0.as_str()), key) {
            proof {
                lemma_position_unique(entries@, key@, i as int);
            }
            return Some(i);
        }
        i += 1;
    }
    proof {
        lemma_position_found(entries@, key@);
        if position(entries@, key@) is Some {
            let k = position(entries@, key@)->Some_0;
            assert(entries@[k].0@ == key@);
        }
    }
    None
}

proof fn lemma_counters_at(entries: Seq<(String, usize, usize)>, k: Seq<char>, a: int)
    requires
        table_wf(entries),
        0 <= a < entries.len(),
        entries[a].0@ == k,
    ensures
        counters(entries).contains_key(k),
        counters(entries)[k] == (entries[a].1 as nat, entries[a].2 as nat),
{
    lemma_position_unique(entries, k, a);
}

proof fn lemma_counters_absent(entries: Seq<(String, usize, usize)>, k: Seq<char>)
    requires
        forall|a: int| 0 <= a < entries.len() ==> (#[trigger] entries[a]).0@ != k,
    ensures
        !counters(entries).contains_key(k),
{
    lemma_position_found(entries, k);
    if position(entries, k) is Some {
        let i = position(entries, k)->Some_0;
        assert(entries[i].0@ != k);
    }
}

/// Either `k` is at some position, or at none.
proof fn lemma_counters_cases(entries: Seq<(String, usize, usize)>, k: Seq<char>)
    requires
        table_wf(entries),
    ensures
        counters(entries).contains_key(k) ==> exists|a: int| 0 <= a < entries.len() && (#[trigger] entries[a]).0@ == k,
        !counters(entries).contains_key(k) ==> forall|a: int| 0 <= a < entries.len() ==> (#[trigger] entries[a]).0@ != k,
{
    lemma_position_found(entries, k);
    if counters(entries).contains_key(k) {
        let i = position(entries, k)->Some_0;
        assert(entries[i].0@ == k);
    }
}

/// Replacing the counters of the entry at `i` replaces them in the map.
proof fn lemma_counters_set(e1: Seq<(String, usize, usize)>, i: int, x: (String, usize, usize))
    requires
        table_wf(e1),
        0 <= i < e1.len(),
        x.0@ == e1[i].0@,
        x.1 > 0 || x.2 > 0,
    ensures
        table_wf(e1.update(i, x)),
        counters(e1.update(i, x)) == counters(e1).insert(x.0@, (x.1 as nat, x.2 as nat)),
{
    let e2 = e1.update(i, x);
    assert(table_wf(e2)) by {
        assert forall|a: int, b: int| 0 <= a < b < e2.len() implies (#[trigger] e2[a]).0@ != (#[trigger] e2[b]).0@ by {
            assert(e1[a].0@ != e1[b].0@);
        }
        assert forall|a: int| 0 <= a < e2.len() implies (#[trigger] e2[a]).1 > 0 || e2[a].2 > 0 by {
            if a != i {
                assert(e2[a] == e1[a]);
            }
        }
    }
    let m = counters(e1).insert(x.0@, (x.1 as nat, x.2 as nat));
    assert forall|k: Seq<char>| #[trigger] counters(e2).contains_key(k) == m.contains_key(k) && (m.contains_key(k)
        ==> counters(e2)[k] == m[k]) by {
        lemma_counters_cases(e1, k);
        lemma_counters_cases(e2, k);
        if k == x.0@ {
            lemma_counters_at(e2, k, i);
        } else if counters(e1).contains_key(k) {
            let a = choose|a: int| 0 <= a < e1.len() && (#[trigger] e1[a]).0@ == k;
            assert(a != i);
            assert(e2[a] == e1[a]);
            lemma_counters_at(e1, k, a);
            lemma_counters_at(e2, k, a);
        } else {
            assert forall|a: int| 0 <= a < e2.len() implies (#[trigger] e2[a]).0@ != k by {
                if a != i {
                    assert(e2[a] == e1[a]);
                }
            }
            lemma_counters_absent(e2, k);
        }
    }
    assert(counters(e2) =~= m);
}

/// Appending an entry for a new key adds it to the map.
proof fn lemma_counters_push(e1: Seq<(String, usize, usize)>, x: (String, usize, usize))
    requires
        table_wf(e1),
        !counters(e1).contains_key(x.0@),
        x.1 > 0 || x.2 > 0,
    ensures
        table_wf(e1.push(x)),
        counters(e1.push(x)) == counters(e1).insert(x.0@, (x.1 as nat, x.2 as nat)),
{
    let e2 = e1.push(x);
    lemma_counters_cases(e1, x.0@);
    assert(table_wf(e2)) by {
        assert forall|a: int, b: int| 0 <= a < b < e2.len() implies (#[trigger] e2[a]).0@ != (#[trigger] e2[b]).0@ by {
            if b == e1.len() {
                assert(e1[a].0@ != x.0@);
            } else {
                assert(e1[a].0@ != e1[b].0@);
            }
        }
        assert forall|a: int| 0 <= a < e2.len() implies (#[trigger] e2[a]).1 > 0 || e2[a].2 > 0 by {
            if a < e1.len() {
                assert(e2[a] == e1[a]);
            }
        }
    }
    let m = counters(e1).insert(x.0@, (x.1 as nat, x.2 as nat));
    assert forall|k: Seq<char>| #[trigger] counters(e2).contains_key(k) == m.contains_key(k) && (m.contains_key(k)
        ==> counters(e2)[k] == m[k]) by {
        lemma_counters_cases(e1, k);
        if k == x.0@ {
            lemma_counters_at(e2, k, e1.len() as int);
        } else if counters(e1).contains_key(k) {
            let a = choose|a: int| 0 <= a < e1.len() && (#[trigger] e1[a]).0@ == k;
            assert(e2[a] == e1[a]);
            lemma_counters_at(e1, k, a);
            lemma_counters_at(e2, k, a);
        } else {
            assert forall|a: int| 0 <= a < e2.len() implies (#[trigger] e2[a]).0@ != k by {
                if a < e1.len() {
                    assert(e2[a] == e1[a]);
                }
            }
            lemma_counters_absent(e2, k);
        }
    }
    assert(counters(e2) =~= m);
}

/// Removing the entry at `i` removes its key from the map.
proof fn lemma_counters_remove(e1: Seq<(String, usize, usize)>, i: int)
    requires
        table_wf(e1),
        0 <= i < e1.len(),
    ensures
        table_wf(e1.remove(i)),
        counters(e1.remove(i)) == counters(e1).remove(e1[i].0@),
{
    let e2 = e1.remove(i);
    let key = e1[i].0@;
    assert(table_wf(e2)) by {
        assert forall|a: int, b: int| 0 <= a < b < e2.len() implies (#[trigger] e2[a]).0@ != (#[trigger] e2[b]).0@ by {
            let a1 = if a < i { a } else { a + 1 };
            let b1 = if b < i { b } else { b + 1 };
            assert(e2[a] == e1[a1] && e2[b] == e1[b1]);
            assert(e1[a1].0@ != e1[b1].0@);
        }
        assert forall|a: int| 0 <= a < e2.len() implies (#[trigger] e2[a]).1 > 0 || e2[a].2 > 0 by {
            let a1 = if a < i { a } else { a + 1 };
            assert(e2[a] == e1[a1]);
        }
    }
    let m = counters(e1).remove(key);
    assert forall|k: Seq<char>| #[trigger] counters(e2).contains_key(k) == m.contains_key(k) && (m.contains_key(k)
        ==> counters(e2)[k] == m[k]) by {
        lemma_counters_cases(e1, k);
        if k == key {
            assert forall|a: int| 0 <= a < e2.len() implies (#[trigger] e2[a]).0@ != k by {
                let a1 = if a < i { a } else { a + 1 };
                assert(e2[a] == e1[a1]);
                assert(e1[a1].0@ != e1[i].0@);
            }
            lemma_counters_absent(e2, k);
        } else if counters(e1).contains_key(k) {
            let a = choose|a: int| 0 <= a < e1.len() && (#[trigger] e1[a]).0@ == k;
            assert(a != i);
            let a2 = if a < i { a } else { a - 1 };
            assert(e2[a2] == e1[a]);
            lemma_counters_at(e1, k, a);
            lemma_counters_at(e2, k, a2);
        } else {
            assert forall|a: int| 0 <= a < e2.len() implies (#[trigger] e2[a]).0@ != k by {
                let a1 = if a < i { a } else { a + 1 };
                assert(e2[a] == e1[a1]);
            }
            lemma_counters_absent(e2, k);
        }
    }
    assert(counters(e2) =~= m);
}

impl SuppressionTable {
    /// The table's invariant.
    pub closed spec fn wf(&self) -> bool {
        table_wf(self.entries@)
    }

    /// An empty table.
    pub fn new() -> (res: Self)
        ensures
            res.wf(),
            res@ == Map::<Seq<char>, (nat, nat)>::empty(),
    {
        let res = SuppressionTable { entries: Vec::new() };
        assert(res@ =~= Map::<Seq<char>, (nat, nat)>::empty());
        res
    }

    /// Whether `key` has events pending.
    pub fn contains(&self, key: &str) -> (res: bool)
        requires
            self.wf(),
        ensures
            res == self@.contains_key(key@),
    {
        find(&self.entries, &chars_of(key)).is_some()
    }

    /// Adds `removes` and `writes` to the counters of `key`.
    fn add(&mut self, key: &str, removes: usize, writes: usize)
        requires
            old(self).wf(),
            removes > 0 || writes > 0,
            old(self)@.contains_key(key@) ==> old(self)@[key@].0 + removes <= usize::MAX && old(self)@[key@].1
                + writes <= usize::MAX,
        ensures
            final(self).wf(),
            final(self)@ == add_counts(old(self)@, key@, removes as nat, writes as nat),
    {
        let k = chars_of(key);
        match find(&self.entries, &k) {
            Some(i) => {
                let r = self.entries[i].1;
                let w = self.entries[i].2;
                proof {
                    lemma_counters_at(self.entries@, key@, i as int);
                }
                let x = (string_from_chars(&k), r + removes, w + writes);
                proof {
                    lemma_counters_set(self.entries@, i as int, x);
                }
                self.entries.set(i, x);
            },
            None => {
                let x = (string_from_chars(&k), removes, writes);
                proof {
                    lemma_counters_push(self.entries@, x);
                }
                self.entries.push(x);
            },
        }
    }

    /// Lowers the counters of `key` by `removes` and `writes`, never below
    /// zero, and drops the key when both reach zero.
    fn sub(&mut self, key: &str, removes: usize, writes: usize)
        requires
            old(self).wf(),
        ensures
            final(self).wf(),
            final(self)@ == sub_counts(old(self)@, key@, removes as nat, writes as nat),
    {
        let k = chars_of(key);
        match find(&self.entries, &k) {
            Some(i) => {
                let r = self.entries[i].1;
                let w = self.entries[i].2;
                proof {
                    lemma_counters_at(self.entries@, key@, i as int);
                }
                let r2 = r.saturating_sub(removes);
                let w2 = w.saturating_sub(writes);
                if r2 == 0 && w2 == 0 {
                    proof {
                        lemma_counters_remove(self.entries@, i as int);
                    }
                    self.entries.remove(i);
                } else {
                    let x = (string_from_chars(&k), r2, w2);
                    proof {
                        lemma_counters_set(self.entries@, i as int, x);
                    }
                    self.entries.set(i, x);
                }
            },
            None => {},
        }
    }

    /// Swallows the next `Create` or `Write` event at `key`.
    pub fn suppress(&mut self, key: &str)
        requires
            old(self).wf(),
            old(self)@.contains_key(key@) ==> old(self)@[key@].1 < usize::MAX,
        ensures
            final(self).wf(),
            final(self)@ == add_counts(old(self)@, key@, 0, 1),
    {
        self.add(key, 0, 1);
    }

    /// Withdraws one `Create`/`Write` suppression of `key` (after a write
    /// that failed, so that real changes are not swallowed).
    pub fn unsuppress(&mut self, key: &str)
        requires
            old(self).wf(),
        ensures
            final(self).wf(),
            final(self)@ == sub_counts(old(self)@, key@, 0, 1),
    {
        self.sub(key, 0, 1);
    }

    /// Swallows the next event of any kind at `key` (the old path of a
    /// rename, which platforms report in different ways).
    pub fn suppress_any(&mut self, key: &str)
        requires
            old(self).wf(),
            old(self)@.contains_key(key@) ==> old(self)@[key@].0 < usize::MAX && old(self)@[key@].1 < usize::MAX,
        ensures
            final(self).wf(),
            final(self)@ == add_counts(old(self)@, key@, 1, 1),
    {
        self.add(key, 1, 1);
    }

    /// Withdraws both suppressions added by [`Self::suppress_any`].
    pub fn unsuppress_any(&mut self, key: &str)
        requires
            old(self).wf(),
        ensures
            final(self).wf(),
            final(self)@ == sub_counts(old(self)@, key@, 1, 1),
    {
        self.sub(key, 1, 1);
    }

    /// Swallows the next `Remove` event at `key`.
    pub fn suppress_remove(&mut self, key: &str)
        requires
            old(self).wf(),
            old(self)@.contains_key(key@) ==> old(self)@[key@].0 < usize::MAX,
        ensures
            final(self).wf(),
            final(self)@ == add_counts(old(self)@, key@, 1, 0),
    {
        self.add(key, 1, 0);
    }

    /// Uses up one pending suppression of any kind at `key`, a
    /// `Create`/`Write` one first: the event is a stale one for a path that
    /// no longer exists, left behind by the tool's own rename. Returns
    /// whether there was one.
    pub fn consume_stale(&mut self, key: &str) -> (res: bool)
        requires
            old(self).wf(),
        ensures
            final(self).wf(),
            res == old(self)@.contains_key(key@),
            !old(self)@.contains_key(key@) ==> final(self)@ == old(self)@,
            old(self)@.contains_key(key@) && old(self)@[key@].1 > 0 ==> final(self)@ == sub_counts(old(self)@, key@, 0, 1),
            old(self)@.contains_key(key@) && old(self)@[key@].1 == 0 ==> final(self)@ == sub_counts(old(self)@, key@, 1, 0),
    {
        let k = chars_of(key);
        match find(&self.entries, &k) {
            Some(i) => {
                let w = self.entries[i].2;
                proof {
                    lemma_counters_at(self.entries@, key@, i as int);
                }
                if w > 0 {
                    self.sub(key, 0, 1);
                } else {
                    self.sub(key, 1, 0);
                }
                true
            },
            None => {
                proof {
                    lemma_counters_cases(self.entries@, key@);
                }
                false
            },
        }
    }

    /// Decides whether an event is an echo of the tool's own write and is
    /// to be swallowed. The event's path is looked up under its canonical
    /// form when it has one in the table, else as given; a pending
    /// suppression of the event's kind is used up. A key whose counters
    /// are both zero leaves the table.
    pub fn on_event(&mut self, canonical: Option<&str>, raw: &str, kind: EventKind) -> (res: bool)
        requires
            old(self).wf(),
        ensures
            final(self).wf(),
            ({
                let key = match canonical {
                    Some(c) => if old(self)@.contains_key(c@) {
                        Some(c@)
                    } else if old(self)@.contains_key(raw@) {
                        Some(raw@)
                    } else {
                        None
                    },
                    None => if old(self)@.contains_key(raw@) {
                        Some(raw@)
                    } else {
                        None
                    },
                };
                match key {
                    Some(k) => res == swallows(old(self)@, k, kind) && final(self)@ == after_event(
                        old(self)@,
                        k,
                        kind,
                    ),
                    None => !res && final(self)@ == old(self)@,
                }
            }),
    {
        let key: &str = match canonical {
            Some(c) => if self.contains(c) {
                c
            } else if self.contains(raw) {
                raw
            } else {
                return false;
            },
            None => if self.contains(raw) {
                raw
            } else {
                return false;
            },
        };
        let k = chars_of(key);
        let i = match find(&self.entries, &k) {
            Some(i) => i,
            None => return false,
        };
        proof {
            lemma_counters_at(self.entries@, key@, i as int);
        }
        let removes = self.entries[i].1;
        let writes = self.entries[i].2;
        let should = match kind {
            EventKind::Remove => removes > 0,
            _ => writes > 0,
        };
        if should {
            match kind {
                EventKind::Remove => self.sub(key, 1, 0),
                _ => self.sub(key, 0, 1),
            }
        } else {
            self.sub(key, 0, 0);
        }
        should
    }
}

// ---------------------------------------------------------------------------
// Laws
// ---------------------------------------------------------------------------

/// No key has both counters at zero.
pub open spec fn no_empty(t: Map<Seq<char>, (nat, nat)>) -> bool {
    forall|k: Seq<char>| #[trigger] t.contains_key(k) ==> t[k].0 > 0 || t[k].1 > 0
}

/// The table once a rename of `from` to `to` is announced: any one event at
/// the old path and a `Create`/`Write` at the new one are to be swallowed.
pub open spec fn rename_begun(t: Map<Seq<char>, (nat, nat)>, from: Seq<char>, to: Seq<char>) -> Map<
    Seq<char>,
    (nat, nat),
> {
    add_counts(add_counts(t, from, 1, 1), to, 0, 1)
}

/// The table once the announced rename is done: unchanged when it
/// succeeded, both announcements withdrawn when it failed.
pub open spec fn rename_ended(t: Map<Seq<char>, (nat, nat)>, from: Seq<char>, to: Seq<char>, succeeded: bool) -> Map<
    Seq<char>,
    (nat, nat),
> {
    if succeeded {
        t
    } else {
        sub_counts(sub_counts(t, from, 1, 1), to, 0, 1)
    }
}

impl SuppressionTable {
    /// Announces that the tool renames `from` to `to`.
    pub fn begin_rename(&mut self, from: &str, to: &str)
        requires
            old(self).wf(),
            old(self)@.contains_key(from@) ==> old(self)@[from@].0 < usize::MAX && old(self)@[from@].1 + 1
                < usize::MAX,
            old(self)@.contains_key(to@) ==> old(self)@[to@].1 + 1 < usize::MAX,
        ensures
            final(self).wf(),
            final(self)@ == rename_begun(old(self)@, from@, to@),
    {
        self.suppress_any(from);
        self.suppress(to);
    }

    /// Records how the announced rename of `from` to `to` went: when it
    /// failed, no event comes, so both announcements are withdrawn.
    pub fn end_rename(&mut self, from: &str, to: &str, succeeded: bool)
        requires
            old(self).wf(),
        ensures
            final(self).wf(),
            final(self)@ == rename_ended(old(self)@, from@, to@, succeeded),
    {
        if !succeeded {
            self.unsuppress_any(from);
            self.unsuppress(to);
        }
    }
}

impl SuppressionTable {
    /// A table never holds a key with nothing pending.
    pub proof fn lemma_view_no_empty(&self)
        requires
            self.wf(),
        ensures
            no_empty(self@),
    {
        assert forall|k: Seq<char>| #[trigger] self@.contains_key(k) implies self@[k].0 > 0 || self@[k].1 > 0 by {
            lemma_counters_cases(self.entries@, k);
            let a = choose|a: int| 0 <= a < self.entries@.len() && (#[trigger] self.entries@[a]).0@ == k;
            lemma_counters_at(self.entries@, k, a);
        }
    }
}

/// Withdrawing suppressions right after adding them leaves the table as it
/// was (for `unsuppress` after `suppress`, `unsuppress_any` after
/// `suppress_any`).
pub proof fn lemma_withdraw_undoes_add(t: Map<Seq<char>, (nat, nat)>, k: Seq<char>, removes: nat, writes: nat)
    requires
        no_empty(t),
        removes > 0 || writes > 0,
    ensures
        sub_counts(add_counts(t, k, removes, writes), k, removes, writes) == t,
{
    let t2 = add_counts(t, k, removes, writes);
    let t3 = sub_counts(t2, k, removes, writes);
    if t.contains_key(k) {
        assert(t3 =~= t.insert(k, t[k]));
        assert(t.insert(k, t[k]) =~= t);
    } else {
        assert(t3 =~= t);
    }
}

/// After a write is announced with `suppress`, the event it causes is
/// swallowed, and doing so leaves the table as it was before.
pub proof fn lemma_echo_swallowed_once(t: Map<Seq<char>, (nat, nat)>, k: Seq<char>, kind: EventKind)
    requires
        no_empty(t),
    ensures
        kind != EventKind::Remove ==> swallows(add_counts(t, k, 0, 1), k, kind) && after_event(
            add_counts(t, k, 0, 1),
            k,
            kind,
        ) == t,
        kind == EventKind::Remove ==> swallows(add_counts(t, k, 1, 0), k, kind) && after_event(
            add_counts(t, k, 1, 0),
            k,
            kind,
        ) == t,
{
    if kind == EventKind::Remove {
        lemma_withdraw_undoes_add(t, k, 1, 0);
    } else {
        lemma_withdraw_undoes_add(t, k, 0, 1);
    }
}

/// A rename that fails leaves the suppression table as it was before the
/// rename was announced.
pub proof fn lemma_failed_rename_restores(t: Map<Seq<char>, (nat, nat)>, from: Seq<char>, to: Seq<char>)
    requires
        no_empty(t),
    ensures
        rename_ended(rename_begun(t, from, to), from, to, false) == t,
{
    let t1 = add_counts(t, from, 1, 1);
    let t2 = add_counts(t1, to, 0, 1);
    let t3 = sub_counts(t2, from, 1, 1);
    let t4 = sub_counts(t3, to, 0, 1);
    if from == to {
        if t.contains_key(from) {
            assert(t4 =~= t.insert(from, t[from]));
            assert(t.insert(from, t[from]) =~= t);
        } else {
            assert(t4 =~= t);
        }
    } else {
        assert(t3 =~= add_counts(t, to, 0, 1)) by {
            if t.contains_key(from) {
                assert(t3 =~= add_counts(t, to, 0, 1));
            } else {
                assert(t3 =~= add_counts(t, to, 0, 1));
            }
        }
        lemma_withdraw_undoes_add(t, to, 0, 1);
    }
}

/// A pending `Remove` suppression never swallows a `Create` or `Write`
/// event, and a pending write suppression never swallows a `Remove`.
pub proof fn lemma_suppression_kinds_separate(t: Map<Seq<char>, (nat, nat)>, k: Seq<char>)
    requires
        no_empty(t),
    ensures
        swallows(add_counts(t, k, 1, 0), k, EventKind::Create) == swallows(t, k, EventKind::Create),
        swallows(add_counts(t, k, 1, 0), k, EventKind::Write) == swallows(t, k, EventKind::Write),
        swallows(add_counts(t, k, 0, 1), k, EventKind::Remove) == swallows(t, k, EventKind::Remove),
{
}

} // verus!
