//! Interned reference identifiers and the index of files holding
//! `Rojo_Ref_*` attributes.

use std::sync::Arc;
use vstd::prelude::*;
use crate::text::{chars_eq, chars_from, chars_of, has_prefix, has_suffix, matches_at, push_all, string_from_chars};
use crate::json::{json5_parse, json5_value_of, Json5Value};
use crate::rojo_ref::{ref_path_prefix, resolve_spec, resolve_ref_path_to_absolute, REF_PATH_ATTRIBUTE_PREFIX};

verus! {

/// A shared, cheaply clonable reference identifier.
#[derive(Debug, Default, PartialEq, Hash, Clone, Eq)]
pub struct RojoRef(Arc<String>);

impl View for RojoRef {
    type V = Seq<char>;

    closed spec fn view(&self) -> Seq<char> {
        self.0@
    }
}

impl RojoRef {
    /// Wraps an identifier.
    pub fn new(id: String) -> (r: Self)
        ensures
            r@ == id@,
    {
        RojoRef(Arc::new(id))
    }

    /// The identifier as a string slice.
    pub fn as_str(&self) -> (s: &str)
        ensures
            s@ == self@,
    {
        self.0.as_str()
    }
}

/// A `(reference path, file)` pair as plain character sequences.
pub open spec fn pair_view(p: (String, String)) -> (Seq<char>, Seq<char>) {
    (p.0@, p.1@)
}

/// The set of pairs held in a list.
pub open spec fn pairs_set(s: Seq<(String, String)>) -> Set<(Seq<char>, Seq<char>)> {
    s.map_values(|p: (String, String)| pair_view(p)).to_set()
}

proof fn lemma_pairs_set_empty()
    ensures
        pairs_set(Seq::<(String, String)>::empty()) == Set::<(Seq<char>, Seq<char>)>::empty(),
{
    let s = Seq::<(String, String)>::empty();
    assert(s.map_values(|p: (String, String)| pair_view(p)) =~= Seq::empty());
    assert(pairs_set(s) =~= Set::<(Seq<char>, Seq<char>)>::empty());
}

proof fn lemma_pairs_set_push(s: Seq<(String, String)>, x: (String, String))
    ensures
        pairs_set(s.push(x)) == pairs_set(s).insert(pair_view(x)),
{
    let m = s.map_values(|p: (String, String)| pair_view(p));
    assert(s.push(x).map_values(|p: (String, String)| pair_view(p)) =~= m.push(pair_view(x)));
    assert forall|q: (Seq<char>, Seq<char>)| pairs_set(s.push(x)).contains(q) == pairs_set(s).insert(pair_view(x)).contains(q) by {
        let mp = m.push(pair_view(x));
        if mp.contains(q) && q != pair_view(x) {
            let i = choose|i: int| 0 <= i < mp.len() && mp[i] == q;
            assert(i < m.len());
            assert(m[i] == q);
        }
        if m.contains(q) {
            let i = choose|i: int| 0 <= i < m.len() && m[i] == q;
            assert(mp[i] == q);
        }
        if q == pair_view(x) {
            assert(mp[m.len() as int] == q);
        }
    }
    assert(pairs_set(s.push(x)) =~= pairs_set(s).insert(pair_view(x)));
}

proof fn lemma_pairs_set_take(s: Seq<(String, String)>, i: int)
    requires
        0 <= i < s.len(),
    ensures
        pairs_set(s.take(i + 1)) == pairs_set(s.take(i)).insert(pair_view(s[i])),
{
    assert(s.take(i + 1) =~= s.take(i).push(s[i]));
    lemma_pairs_set_push(s.take(i), s[i]);
}

/// Index of meta/model files that contain `Rojo_Ref_*` attributes.
///
/// Relates each attribute VALUE (an absolute instance path such as
/// `Workspace/Model/Part1`) to the files in which it appears, so that the
/// files affected by a rename are found without walking the whole tree.
/// The relation is held as a list of `(path, file)` pairs; a path with no
/// file is simply absent.
#[derive(Debug, Default)]
pub struct RefPathIndex {
    pairs: Vec<(String, String)>,
}

impl View for RefPathIndex {
    type V = Set<(Seq<char>, Seq<char>)>;

    /// The set of `(path, file)` pairs recorded in the index.
    closed spec fn view(&self) -> Set<(Seq<char>, Seq<char>)> {
        pairs_set(self.pairs@)
    }
}

/// The new key of a path under a rename of `old` to `new`: `old` itself
/// becomes `new`, `old/...` becomes `new/...`, anything else is kept.
pub open spec fn renamed_key(path: Seq<char>, old: Seq<char>, new: Seq<char>) -> Seq<char> {
    if path == old {
        new
    } else if has_prefix(path, old.push('/')) {
        new + path.skip(old.len() as int)
    } else {
        path
    }
}

/// Whether `path` is `prefix` itself or lies under `prefix/`.
pub open spec fn under_prefix(path: Seq<char>, prefix: Seq<char>) -> bool {
    path == prefix || has_prefix(path, prefix.push('/'))
}

/// The files recorded in `idx` under a path that is `prefix` or lies under
/// `prefix/`.
pub open spec fn files_under(idx: Set<(Seq<char>, Seq<char>)>, prefix: Seq<char>) -> Set<Seq<char>> {
    Set::new(|f: Seq<char>| exists|r: Seq<char>| idx.contains((r, f)) && under_prefix(r, prefix))
}

impl RefPathIndex {
    /// An empty index.
    pub fn new() -> (r: Self)
        ensures
            r@ == Set::<(Seq<char>, Seq<char>)>::empty(),
    {
        let r = RefPathIndex { pairs: Vec::new() };
        assert(r@ =~= Set::<(Seq<char>, Seq<char>)>::empty()) by {
            assert(r.pairs@.map_values(|p: (String, String)| pair_view(p)) =~= Seq::empty());
        }
        r
    }

    /// Record that `meta_file` contains a `Rojo_Ref_*` attribute whose value
    /// is `ref_path`.
    pub fn add(&mut self, ref_path: &str, meta_file: &str)
        ensures
            final(self)@ == old(self)@.insert((ref_path@, meta_file@)),
    {
        let r = string_from_chars(&chars_of(ref_path));
        let f = string_from_chars(&chars_of(meta_file));
        proof {
            lemma_pairs_set_push(self.pairs@, (r, f));
        }
        self.pairs.push((r, f));
    }

    /// Remove the record that `meta_file` contains a `Rojo_Ref_*` attribute
    /// whose value is `ref_path`.
    pub fn remove(&mut self, ref_path: &str, meta_file: &str)
        ensures
            final(self)@ == old(self)@.remove((ref_path@, meta_file@)),
    {
        let r = string_from_chars(&chars_of(ref_path));
        let f = string_from_chars(&chars_of(meta_file));
        let ghost q0 = (ref_path@, meta_file@);
        let ghost old_pairs = self.pairs@;
        let mut out: Vec<(String, String)> = Vec::new();
        let mut i: usize = 0;
        proof {
            lemma_pairs_set_empty();
            assert(old_pairs.take(0) =~= Seq::<(String, String)>::empty());
            assert(pairs_set(out@) =~= pairs_set(old_pairs.take(0)).remove(q0));
        }
        while i < self.pairs.len()
            invariant
                self.pairs@ == old_pairs,
                i <= old_pairs.len(),
                r@ == q0.0,
                f@ == q0.1,
                pairs_set(out@) == pairs_set(old_pairs.take(i as int)).remove(q0),
            decreases old_pairs.len() - i,
        {
            let same = self.pairs[i].0 == r && self.pairs[i].1 == f;
            proof {
                lemma_pairs_set_take(old_pairs, i as int);
            }
            if !same {
                let item = (self.pairs[i].0.clone(), self.pairs[i].1.clone());
                proof {
                    lemma_pairs_set_push(out@, item);
                }
                out.push(item);
                assert(pairs_set(out@) =~= pairs_set(old_pairs.take(i + 1)).remove(q0));
            } else {
                assert(pairs_set(out@) =~= pairs_set(old_pairs.take(i + 1)).remove(q0));
            }
            i += 1;
        }
        assert(old_pairs.take(old_pairs.len() as int) =~= old_pairs);
        self.pairs = out;
    }

    /// Remove `meta_file` from every entry of the index.
    pub fn remove_all_for_file(&mut self, meta_file: &str)
        ensures
            final(self)@ == old(self)@.filter(|q: (Seq<char>, Seq<char>)| q.1 != meta_file@),
    {
        let f = string_from_chars(&chars_of(meta_file));
        let ghost old_pairs = self.pairs@;
        let ghost keep = |q: (Seq<char>, Seq<char>)| q.1 != meta_file@;
        let mut out: Vec<(String, String)> = Vec::new();
        let mut i: usize = 0;
        proof {
            lemma_pairs_set_empty();
            assert(old_pairs.take(0) =~= Seq::<(String, String)>::empty());
            assert(pairs_set(out@) =~= pairs_set(old_pairs.take(0)).filter(keep));
        }
        while i < self.pairs.len()
            invariant
                self.pairs@ == old_pairs,
                i <= old_pairs.len(),
                f@ == meta_file@,
                keep == (|q: (Seq<char>, Seq<char>)| q.1 != meta_file@),
                pairs_set(out@) == pairs_set(old_pairs.take(i as int)).filter(keep),
            decreases old_pairs.len() - i,
        {
            let drop = self.pairs[i].1 == f;
            proof {
                lemma_pairs_set_take(old_pairs, i as int);
            }
            if !drop {
                let item = (self.pairs[i].0.clone(), self.pairs[i].1.clone());
                proof {
                    lemma_pairs_set_push(out@, item);
                }
                out.push(item);
            }
            assert(pairs_set(out@) =~= pairs_set(old_pairs.take(i + 1)).filter(keep));
            i += 1;
        }
        assert(old_pairs.take(old_pairs.len() as int) =~= old_pairs);
        self.pairs = out;
    }

    /// Rename a file in all index entries.
    pub fn rename_file(&mut self, old_file: &str, new_file: &str)
        ensures
            final(self)@ == old(self)@.map(
                |q: (Seq<char>, Seq<char>)|
                    (q.0, if q.1 == old_file@ { new_file@ } else { q.1 }),
            ),
    {
        let of = string_from_chars(&chars_of(old_file));
        let nf = string_from_chars(&chars_of(new_file));
        let ghost old_pairs = self.pairs@;
        let ghost g = |q: (Seq<char>, Seq<char>)|
            (q.0, if q.1 == old_file@ { new_file@ } else { q.1 });
        let mut out: Vec<(String, String)> = Vec::new();
        let mut i: usize = 0;
        proof {
            lemma_pairs_set_empty();
            assert(old_pairs.take(0) =~= Seq::<(String, String)>::empty());
            assert(pairs_set(out@) =~= pairs_set(old_pairs.take(0)).map(g));
        }
        while i < self.pairs.len()
            invariant
                self.pairs@ == old_pairs,
                i <= old_pairs.len(),
                of@ == old_file@,
                nf@ == new_file@,
                g == (|q: (Seq<char>, Seq<char>)|
                    (q.0, if q.1 == old_file@ { new_file@ } else { q.1 })),
                pairs_set(out@) == pairs_set(old_pairs.take(i as int)).map(g),
            decreases old_pairs.len() - i,
        {
            let file = if self.pairs[i].1 == of { nf.clone() } else { self.pairs[i].1.clone() };
            let item = (self.pairs[i].0.clone(), file);
            proof {
                lemma_pairs_set_take(old_pairs, i as int);
                lemma_pairs_set_push(out@, item);
                assert(pair_view(item) == g(pair_view(old_pairs[i as int])));
                lemma_map_insert(pairs_set(old_pairs.take(i as int)), pair_view(old_pairs[i as int]), g);
            }
            out.push(item);
            i += 1;
        }
        assert(old_pairs.take(old_pairs.len() as int) =~= old_pairs);
        self.pairs = out;
    }

    /// Update all index entries after a rename: a path equal to `old_prefix`
    /// becomes `new_prefix`, and a path under `old_prefix/` gets
    /// `new_prefix` in place of `old_prefix`; the files of paths that meet
    /// are merged.
    pub fn update_prefix(&mut self, old_prefix: &str, new_prefix: &str)
        ensures
            final(self)@ == old(self)@.map(
                |q: (Seq<char>, Seq<char>)| (renamed_key(q.0, old_prefix@, new_prefix@), q.1),
            ),
    {
        let oc = chars_of(old_prefix);
        let nc = chars_of(new_prefix);
        let mut oslash = chars_of(old_prefix);
        oslash.push('/');
        let ghost old_pairs = self.pairs@;
        let ghost g = |q: (Seq<char>, Seq<char>)|
            (renamed_key(q.0, old_prefix@, new_prefix@), q.1);
        let mut out: Vec<(String, String)> = Vec::new();
        let mut i: usize = 0;
        proof {
            lemma_pairs_set_empty();
            assert(old_pairs.take(0) =~= Seq::<(String, String)>::empty());
            assert(pairs_set(out@) =~= pairs_set(old_pairs.take(0)).map(g));
        }
        while i < self.pairs.len()
            invariant
                self.pairs@ == old_pairs,
                i <= old_pairs.len(),
                oc@ == old_prefix@,
                nc@ == new_prefix@,
                oslash@ == old_prefix@.push('/'),
                g == (|q: (Seq<char>, Seq<char>)|
                    (renamed_key(q.0, old_prefix@, new_prefix@), q.1)),
                pairs_set(out@) == pairs_set(old_pairs.take(i as int)).map(g),
            decreases old_pairs.len() - i,
        {
            let key = renamed_key_chars(&chars_of(self.pairs[i].0.as_str()), &oc, &oslash, &nc);
            let item = (string_from_chars(&key), self.pairs[i].1.clone());
            proof {
                lemma_pairs_set_take(old_pairs, i as int);
                lemma_pairs_set_push(out@, item);
                assert(pair_view(item) == g(pair_view(old_pairs[i as int])));
                lemma_map_insert(pairs_set(old_pairs.take(i as int)), pair_view(old_pairs[i as int]), g);
            }
            out.push(item);
            i += 1;
        }
        assert(old_pairs.take(old_pairs.len() as int) =~= old_pairs);
        self.pairs = out;
    }
}

/// [`renamed_key`] on character vectors.
fn renamed_key_chars(path: &Vec<char>, old: &Vec<char>, old_slash: &Vec<char>, new: &Vec<char>) -> (r: Vec<char>)
    requires
        old_slash@ == old@.push('/'),
    ensures
        r@ == renamed_key(path@, old@, new@),
{
    if chars_eq(path, old) {
        chars_from(new, 0)
    } else if matches_at(path, 0, old_slash) {
        let mut out = chars_from(new, 0);
        let tail = chars_from(path, old.len());
        push_all(&mut out, &tail);
        assert(path@.subrange(0, old_slash@.len() as int) == old_slash@);
        out
    } else {
        chars_from(path, 0)
    }
}

proof fn lemma_map_insert(
    s: Set<(Seq<char>, Seq<char>)>,
    x: (Seq<char>, Seq<char>),
    g: spec_fn((Seq<char>, Seq<char>)) -> (Seq<char>, Seq<char>),
)
    ensures
        s.insert(x).map(g) == s.map(g).insert(g(x)),
{
    assert forall|q: (Seq<char>, Seq<char>)| s.insert(x).map(g).contains(q) == s.map(g).insert(g(x)).contains(q) by {
        if s.insert(x).map(g).contains(q) {
            let a = choose|a: (Seq<char>, Seq<char>)| s.insert(x).contains(a) && g(a) == q;
            if a != x {
                assert(s.contains(a));
            }
        }
        if s.map(g).contains(q) {
            let a = choose|a: (Seq<char>, Seq<char>)| s.contains(a) && g(a) == q;
            assert(s.insert(x).contains(a));
        }
        if q == g(x) {
            assert(s.insert(x).contains(x));
        }
    }
    assert(s.insert(x).map(g) =~= s.map(g).insert(g(x)));
}


// ---------------------------------------------------------------------------
// Ordering of file paths
// ---------------------------------------------------------------------------

/// Rank of a character in path order: `/` comes before every other
/// character, so that paths compare component by component.
pub open spec fn char_rank(c: char) -> int {
    if c == '/' {
        -1
    } else {
        (c as u32) as int
    }
}

/// Strict path order: lexicographic in [`char_rank`], a proper prefix first.
pub open spec fn path_lt(a: Seq<char>, b: Seq<char>) -> bool
    decreases a.len(),
{
    if a.len() == 0 {
        b.len() > 0
    } else if b.len() == 0 {
        false
    } else if char_rank(a[0]) != char_rank(b[0]) {
        char_rank(a[0]) < char_rank(b[0])
    } else {
        path_lt(a.skip(1), b.skip(1))
    }
}

proof fn lemma_char_rank_injective(x: char, y: char)
    ensures
        char_rank(x) == char_rank(y) ==> x == y,
{
    vstd::utf8::char_u32_cast(x, x as u32);
    vstd::utf8::char_u32_cast(y, y as u32);
}

pub proof fn lemma_path_lt_irreflexive(a: Seq<char>)
    ensures
        !path_lt(a, a),
    decreases a.len(),
{
    if a.len() > 0 {
        lemma_path_lt_irreflexive(a.skip(1));
    }
}

pub proof fn lemma_path_lt_transitive(a: Seq<char>, b: Seq<char>, c: Seq<char>)
    requires
        path_lt(a, b),
        path_lt(b, c),
    ensures
        path_lt(a, c),
    decreases a.len(),
{
    if a.len() > 0 && b.len() > 0 && c.len() > 0 {
        if char_rank(a[0]) == char_rank(b[0]) && char_rank(b[0]) == char_rank(c[0]) {
            lemma_path_lt_transitive(a.skip(1), b.skip(1), c.skip(1));
        }
    }
}

pub proof fn lemma_path_lt_total(a: Seq<char>, b: Seq<char>)
    ensures
        a != b ==> path_lt(a, b) || path_lt(b, a),
    decreases a.len(),
{
    if a.len() > 0 && b.len() > 0 {
        lemma_char_rank_injective(a[0], b[0]);
        lemma_path_lt_total(a.skip(1), b.skip(1));
        if char_rank(a[0]) == char_rank(b[0]) && a.skip(1) == b.skip(1) {
            assert(a =~= seq![a[0]] + a.skip(1));
            assert(b =~= seq![b[0]] + b.skip(1));
        }
    } else if a.len() == 0 && b.len() == 0 {
        assert(a =~= b);
    }
}

/// [`path_lt`] on character vectors.
fn path_less(a: &Vec<char>, b: &Vec<char>) -> (r: bool)
    ensures
        r == path_lt(a@, b@),
{
    let mut i: usize = 0;
    assert(a@.skip(0) =~= a@);
    assert(b@.skip(0) =~= b@);
    while i < a.len() && i < b.len()
        invariant
            i <= a.len(),
            i <= b.len(),
            path_lt(a@, b@) == path_lt(a@.skip(i as int), b@.skip(i as int)),
        decreases a.len() - i,
    {
        let ca = a[i];
        let cb = b[i];
        let ghost sa = a@.skip(i as int);
        let ghost sb = b@.skip(i as int);
        assert(sa[0] == ca && sb[0] == cb);
        if ca != cb {
            proof {
                lemma_char_rank_injective(ca, cb);
                assert(path_lt(sa, sb) == (char_rank(ca) < char_rank(cb)));
            }
            if ca == '/' {
                return true;
            } else if cb == '/' {
                return false;
            } else {
                return (ca as u32) < (cb as u32);
            }
        }
        assert(sa.skip(1) =~= a@.skip(i + 1));
        assert(sb.skip(1) =~= b@.skip(i + 1));
        i += 1;
    }
    i == a.len() && i < b.len()
}

/// Whether a list of strings is strictly increasing in path order.
pub open spec fn sorted_paths(v: Seq<Seq<char>>) -> bool {
    forall|i: int, j: int| 0 <= i < j < v.len() ==> path_lt(v[i], v[j])
}

/// The views of a sequence of strings.
pub open spec fn string_views(v: Seq<String>) -> Seq<Seq<char>> {
    v.map_values(|x: String| x@)
}

/// Inserts `x` into a strictly increasing list unless it is already there.
fn insert_sorted(out: &mut Vec<String>, x: String)
    requires
        sorted_paths(string_views(old(out)@)),
    ensures
        sorted_paths(string_views(final(out)@)),
        string_views(final(out)@).to_set() == string_views(old(out)@).to_set().insert(x@),
{
    let xc = chars_of(x.as_str());
    let ghost v = string_views(out@);
    let mut j: usize = 0;
    while j < out.len() && path_less(&chars_of(out[j].as_str()), &xc)
        invariant
            v == string_views(out@),
            xc@ == x@,
            j <= out.len(),
            forall|k: int| 0 <= k < j ==> path_lt(#[trigger] v[k], x@),
        decreases out.len() - j,
    {
        j += 1;
    }
    if j < out.len() && chars_eq(&chars_of(out[j].as_str()), &xc) {
        assert(v.to_set().insert(x@) =~= v.to_set()) by {
            assert(v[j as int] == x@);
        }
        return;
    }
    let ghost n = v.len();
    proof {
        if j < n {
            lemma_path_lt_total(v[j as int], x@);
        }
    }
    out.insert(j, x);
    let ghost w = string_views(out@);
    assert(w =~= v.insert(j as int, x@));
    proof {
        assert forall|a: int, b: int| 0 <= a < b < w.len() implies path_lt(w[a], w[b]) by {
            if b < j {
            } else if b == j {
                assert(path_lt(v[a], x@));
            } else if a == j {
                assert(path_lt(x@, v[j as int]));
                if b - 1 > j {
                    lemma_path_lt_transitive(x@, v[j as int], v[b - 1]);
                }
            } else if a < j {
                assert(path_lt(v[a], x@));
                assert(path_lt(x@, v[j as int]));
                lemma_path_lt_transitive(v[a], x@, v[j as int]);
                if b - 1 > j {
                    lemma_path_lt_transitive(v[a], v[j as int], v[b - 1]);
                }
            } else {
                assert(path_lt(v[a - 1], v[b - 1]));
            }
        }
        assert forall|q: Seq<char>| w.to_set().contains(q) == v.to_set().insert(x@).contains(q) by {
            if w.contains(q) {
                let k = choose|k: int| 0 <= k < w.len() && w[k] == q;
                if k < j {
                    assert(v[k] == q);
                } else if k > j {
                    assert(v[k - 1] == q);
                }
            }
            if v.contains(q) {
                let k = choose|k: int| 0 <= k < v.len() && v[k] == q;
                if k < j {
                    assert(w[k] == q);
                } else {
                    assert(w[k + 1] == q);
                }
            }
            if q == x@ {
                assert(w[j as int] == q);
            }
        }
        assert(w.to_set() =~= v.to_set().insert(x@));
    }
}

impl RefPathIndex {
    /// The files whose recorded path is `prefix` or lies under `prefix/`,
    /// each once, in path order: the files to update when the instance at
    /// `prefix` is renamed.
    pub fn find_by_prefix(&self, prefix: &str) -> (res: Vec<String>)
        ensures
            sorted_paths(string_views(res@)),
            string_views(res@).to_set() == files_under(self@, prefix@),
    {
        let pc = chars_of(prefix);
        let mut pslash = chars_of(prefix);
        pslash.push('/');
        let ghost target = Set::new(
            |f: Seq<char>| exists|r: Seq<char>| self@.contains((r, f)) && under_prefix(r, prefix@),
        );
        let mut out: Vec<String> = Vec::new();
        let mut i: usize = 0;
        proof {
            assert(string_views(out@) =~= Seq::<Seq<char>>::empty());
        }
        while i < self.pairs.len()
            invariant
                pc@ == prefix@,
                pslash@ == prefix@.push('/'),
                i <= self.pairs.len(),
                sorted_paths(string_views(out@)),
                forall|f: Seq<char>|
                    string_views(out@).to_set().contains(f) <==> exists|k: int|
                        0 <= k < i && (#[trigger] self.pairs@[k]).1@ == f && under_prefix(
                            self.pairs@[k].0@,
                            prefix@,
                        ),
            decreases self.pairs.len() - i,
        {
            let rc = chars_of(self.pairs[i].0.as_str());
            let hit = chars_eq(&rc, &pc) || matches_at(&rc, 0, &pslash);
            let ghost before = string_views(out@).to_set();
            if hit {
                let f = self.pairs[i].1.clone();
                insert_sorted(&mut out, f);
            }
            proof {
                assert forall|f: Seq<char>|
                    string_views(out@).to_set().contains(f) <==> exists|k: int|
                        0 <= k < i + 1 && (#[trigger] self.pairs@[k]).1@ == f && under_prefix(
                            self.pairs@[k].0@,
                            prefix@,
                        ) by {
                    if exists|k: int|
                        0 <= k < i + 1 && (#[trigger] self.pairs@[k]).1@ == f && under_prefix(
                            self.pairs@[k].0@,
                            prefix@,
                        ) {
                        let k = choose|k: int|
                            0 <= k < i + 1 && (#[trigger] self.pairs@[k]).1@ == f && under_prefix(
                                self.pairs@[k].0@,
                                prefix@,
                            );
                        if k < i {
                            assert(before.contains(f));
                        }
                    }
                }
            }
            i += 1;
        }
        proof {
            assert forall|f: Seq<char>| string_views(out@).to_set().contains(f) == target.contains(f) by {
                let m = self.pairs@.map_values(|p: (String, String)| pair_view(p));
                if string_views(out@).to_set().contains(f) {
                    let k = choose|k: int|
                        0 <= k < self.pairs@.len() && (#[trigger] self.pairs@[k]).1@ == f && under_prefix(
                            self.pairs@[k].0@,
                            prefix@,
                        );
                    assert(m[k] == (self.pairs@[k].0@, f));
                    assert(self@.contains((self.pairs@[k].0@, f)));
                }
                if target.contains(f) {
                    let r = choose|r: Seq<char>| self@.contains((r, f)) && under_prefix(r, prefix@);
                    let k = choose|k: int| 0 <= k < m.len() && m[k] == (r, f);
                    assert(self.pairs@[k].1@ == f);
                }
            }
            assert(string_views(out@).to_set() =~= target);
        }
        out
    }
}

// ---------------------------------------------------------------------------
// Filling the index from meta and model files
// ---------------------------------------------------------------------------

/// Whether a file name is that of a meta or model file, the files that may
/// hold `Rojo_Ref_*` attributes.
pub open spec fn is_meta_or_model_spec(name: Seq<char>) -> bool {
    has_suffix(name, ".meta.json5"@) || has_suffix(name, ".model.json5"@) || has_suffix(name, ".meta.json"@)
        || has_suffix(name, ".model.json"@)
}

fn ends_with(v: &Vec<char>, suffix: &str) -> (r: bool)
    ensures
        r == has_suffix(v@, suffix@),
{
    let s = chars_of(suffix);
    if s.len() > v.len() {
        return false;
    }
    matches_at(v, v.len() - s.len(), &s)
}

/// Whether a file name is that of a meta or model file.
pub fn is_meta_or_model(name: &str) -> (r: bool)
    ensures
        r == is_meta_or_model_spec(name@),
{
    let v = chars_of(name);
    ends_with(&v, ".meta.json5") || ends_with(&v, ".model.json5") || ends_with(&v, ".meta.json") || ends_with(
        &v,
        ".model.json",
    )
}

/// The absolute reference paths a file records: for each attribute whose
/// name starts with `Rojo_Ref_` and whose value is a string, in order, the
/// value resolved against `source_abs`, or the value itself where it does
/// not resolve.
pub open spec fn attribute_ref_paths(attrs: Seq<(String, Option<String>)>, source_abs: Seq<char>) -> Seq<Seq<char>>
    decreases attrs.len(),
{
    if attrs.len() == 0 {
        seq![]
    } else {
        let rest = attribute_ref_paths(attrs.drop_last(), source_abs);
        let key = attrs.last().0;
        let value = attrs.last().1;
        if has_prefix(key@, ref_path_prefix()) && value is Some {
            rest.push(
                match resolve_spec(value->0@, source_abs) {
                    Some(r) => r,
                    None => value->0@,
                },
            )
        } else {
            rest
        }
    }
}

/// The absolute reference paths recorded by a meta or model file whose
/// attributes are `attributes` (each with its value when that is a string)
/// and whose instance has the absolute path `source_abs`.
pub fn ref_paths_in_attributes(attributes: &Vec<(String, Option<String>)>, source_abs: &str) -> (res: Vec<String>)
    ensures
        res@.map_values(|s: String| s@) == attribute_ref_paths(attributes@, source_abs@),
{
    let prefix = chars_of(REF_PATH_ATTRIBUTE_PREFIX);
    proof {
        reveal_strlit("Rojo_Ref_");
    }
    assert(prefix@ == ref_path_prefix());
    let mut out: Vec<String> = Vec::new();
    let mut i: usize = 0;
    while i < attributes.len()
        invariant
            i <= attributes.len(),
            prefix@ == ref_path_prefix(),
            out@.map_values(|s: String| s@) == attribute_ref_paths(attributes@.take(i as int), source_abs@),
        decreases attributes.len() - i,
    {
        assert(attributes@.take(i + 1).drop_last() =~= attributes@.take(i as int));
        assert(attributes@.take(i + 1).last() == attributes@[i as int]);
        let key = chars_of(attributes[i].0.as_str());
        if matches_at(&key, 0, &prefix) {
            match &attributes[i].1 {
                Some(value) => {
                    let resolved = match resolve_ref_path_to_absolute(value.as_str(), source_abs) {
                        Some(r) => r,
                        None => string_from_chars(&chars_of(value.as_str())),
                    };
                    let ghost before = out@;
                    out.push(resolved);
                    assert(out@.map_values(|s: String| s@) =~= before.map_values(|s: String| s@).push(
                        resolved@,
                    ));
                },
                None => {},
            }
        }
        i += 1;
    }
    assert(attributes@.take(attributes@.len() as int) =~= attributes@);
    out
}

/// An attribute by its name and, when its value is a string, that string.
pub open spec fn attr_view(a: (String, Option<String>)) -> (Seq<char>, Option<Seq<char>>) {
    (
        a.0@,
        match a.1 {
            Some(s) => Some(s@),
            None => None,
        },
    )
}

/// `attribute_ref_paths` over attributes given by name and string value.
pub open spec fn ref_paths_of_attr_views(attrs: Seq<(Seq<char>, Option<Seq<char>>)>, source_abs: Seq<char>) -> Seq<
    Seq<char>,
>
    decreases attrs.len(),
{
    if attrs.len() == 0 {
        seq![]
    } else {
        let rest = ref_paths_of_attr_views(attrs.drop_last(), source_abs);
        let (key, value) = attrs.last();
        if has_prefix(key, ref_path_prefix()) && value is Some {
            rest.push(
                match resolve_spec(value->0, source_abs) {
                    Some(r) => r,
                    None => value->0,
                },
            )
        } else {
            rest
        }
    }
}

/// The reference paths of a list of attributes depend only on their names
/// and string values.
proof fn lemma_attribute_ref_paths_views(a: Seq<(String, Option<String>)>, s: Seq<char>)
    ensures
        attribute_ref_paths(a, s) == ref_paths_of_attr_views(a.map_values(|x: (String, Option<String>)| attr_view(x)), s),
    decreases a.len(),
{
    if a.len() > 0 {
        let fa = a.map_values(|x: (String, Option<String>)| attr_view(x));
        assert(a.drop_last().map_values(|x: (String, Option<String>)| attr_view(x)) =~= fa.drop_last());
        lemma_attribute_ref_paths_views(a.drop_last(), s);
    }
}

/// The value of the first entry named `key` among an object's entries.
pub open spec fn field_of(entries: Seq<(String, Json5Value)>, key: Seq<char>) -> Option<Json5Value>
    decreases entries.len(),
{
    if entries.len() == 0 {
        None
    } else if entries[0].0@ == key {
        Some(entries[0].1)
    } else {
        field_of(entries.skip(1), key)
    }
}

/// An object entry as an attribute: its name, and its value when that is a
/// string.
pub open spec fn entry_attr_view(e: (String, Json5Value)) -> (Seq<char>, Option<Seq<char>>) {
    (
        e.0@,
        match e.1 {
            Json5Value::String(s) => Some(s@),
            _ => None,
        },
    )
}

/// The attributes of the value of a meta or model file: the entries of its
/// `attributes` object, none when the value is no object or has no such
/// object.
pub open spec fn meta_attribute_views(v: Option<Json5Value>) -> Seq<(Seq<char>, Option<Seq<char>>)> {
    match v {
        Some(Json5Value::Object(entries)) => match field_of(entries@, "attributes"@) {
            Some(Json5Value::Object(attrs)) => attrs@.map_values(|e: (String, Json5Value)| entry_attr_view(e)),
            _ => seq![],
        },
        _ => seq![],
    }
}

/// The absolute reference paths that the meta or model file with the text
/// `text` records, for the instance with the absolute path `source_abs`:
/// those of the attributes of what the `json5` crate reads from the text
/// (none where it cannot read it).
pub fn ref_paths_in_meta_text(text: &str, source_abs: &str) -> (res: Vec<String>)
    ensures
        res@.map_values(|s: String| s@) == ref_paths_of_attr_views(meta_attribute_views(json5_value_of(text@)), source_abs@),
{
    let parsed = json5_parse(text);
    let mut attributes: Vec<(String, Option<String>)> = Vec::new();
    if let Some(Json5Value::Object(entries)) = &parsed {
        let key = chars_of("attributes");
        proof {
            reveal_strlit("attributes");
        }
        let mut i: usize = 0;
        let mut found = false;
        assert(entries@.skip(0) =~= entries@);
        while i < entries.len() && !found
            invariant
                i <= entries@.len(),
                key@ == "attributes"@,
                field_of(entries@, "attributes"@) == field_of(entries@.skip(i as int), "attributes"@),
                found ==> i < entries@.len() && entries@[i as int].0@ == "attributes"@,
            decreases entries@.len() - i, if found { 0int } else { 1int },
        {
            if chars_eq(&chars_of(entries[i].0.as_str()), &key) {
                found = true;
            } else {
                assert(entries@.skip(i as int).skip(1) =~= entries@.skip(i + 1));
                i += 1;
            }
        }
        if found {
            assert(entries@.skip(i as int)[0] == entries@[i as int]);
            assert(field_of(entries@, "attributes"@) == Some(entries@[i as int].1));
            if let Json5Value::Object(attrs) = &entries[i].1 {
                let mut j: usize = 0;
                while j < attrs.len()
                    invariant
                        j <= attrs@.len(),
                        attributes@.map_values(|x: (String, Option<String>)| attr_view(x)) == attrs@.take(
                            j as int,
                        ).map_values(|e: (String, Json5Value)| entry_attr_view(e)),
                    decreases attrs@.len() - j,
                {
                    let name = crate::text::to_owned_string(attrs[j].0.as_str());
                    let value = match &attrs[j].1 {
                        Json5Value::String(s) => Some(crate::text::to_owned_string(s.as_str())),
                        _ => None,
                    };
                    let ghost before = attributes@;
                    assert(attr_view((name, value)) == entry_attr_view(attrs@[j as int]));
                    let ghost pair = (name, value);
                    attributes.push((name, value));
                    assert(attributes@ == before.push(pair));
                    assert(attributes@.map_values(|x: (String, Option<String>)| attr_view(x)) =~= before.map_values(
                        |x: (String, Option<String>)| attr_view(x),
                    ).push(attr_view(pair)));
                    assert(attrs@.take(j + 1) =~= attrs@.take(j as int).push(attrs@[j as int]));
                    assert(attrs@.take(j + 1).map_values(|e: (String, Json5Value)| entry_attr_view(e)) =~= attrs@.take(
                        j as int,
                    ).map_values(|e: (String, Json5Value)| entry_attr_view(e)).push(entry_attr_view(attrs@[j as int])));
                    assert(attributes@.map_values(|x: (String, Option<String>)| attr_view(x)) =~= attrs@.take(
                        j + 1,
                    ).map_values(|e: (String, Json5Value)| entry_attr_view(e)));
                    j += 1;
                }
                assert(attrs@.take(attrs@.len() as int) =~= attrs@);
            } else {
                assert(attributes@.map_values(|x: (String, Option<String>)| attr_view(x)) =~= seq![]);
            }
        } else {
            assert(entries@.skip(i as int) =~= seq![]);
            assert(attributes@.map_values(|x: (String, Option<String>)| attr_view(x)) =~= seq![]);
        }
    } else {
        assert(attributes@.map_values(|x: (String, Option<String>)| attr_view(x)) =~= seq![]);
    }
    let res = ref_paths_in_attributes(&attributes, source_abs);
    proof {
        lemma_attribute_ref_paths_views(attributes@, source_abs@);
    }
    res
}

// ---------------------------------------------------------------------------
// Recording a rename
// ---------------------------------------------------------------------------

/// The index with the file `old_file` renamed to `new_file`.
pub open spec fn with_file_renamed(
    idx: Set<(Seq<char>, Seq<char>)>,
    old_file: Seq<char>,
    new_file: Seq<char>,
) -> Set<(Seq<char>, Seq<char>)> {
    idx.map(|q: (Seq<char>, Seq<char>)| (q.0, if q.1 == old_file { new_file } else { q.1 }))
}

/// The index after the files `olds[i]` that moved were renamed to
/// `news[i]`, in order.
pub open spec fn files_renamed(
    idx: Set<(Seq<char>, Seq<char>)>,
    olds: Seq<Seq<char>>,
    news: Seq<Seq<char>>,
) -> Set<(Seq<char>, Seq<char>)>
    decreases olds.len(),
{
    if olds.len() == 0 || olds.len() != news.len() {
        idx
    } else {
        let before = files_renamed(idx, olds.drop_last(), news.drop_last());
        if olds.last() != news.last() {
            with_file_renamed(before, olds.last(), news.last())
        } else {
            before
        }
    }
}

/// The paths of a list of strings.
pub open spec fn views_of(v: Seq<String>) -> Seq<Seq<char>> {
    v.map_values(|s: String| s@)
}

impl RefPathIndex {
    /// Records in the index that the instance at `old_prefix` is now at
    /// `new_prefix` and that the files `moved_from[i]` that moved with it are
    /// now `moved_to[i]`.
    pub fn record_rename(
        &mut self,
        old_prefix: &str,
        new_prefix: &str,
        moved_from: &Vec<String>,
        moved_to: &Vec<String>,
    )
        requires
            moved_from.len() == moved_to.len(),
        ensures
            final(self)@ == files_renamed(
                old(self)@.map(|q: (Seq<char>, Seq<char>)| (renamed_key(q.0, old_prefix@, new_prefix@), q.1)),
                views_of(moved_from@),
                views_of(moved_to@),
            ),
    {
        self.update_prefix(old_prefix, new_prefix);
        let ghost moved = self@;
        let mut i: usize = 0;
        while i < moved_from.len()
            invariant
                i <= moved_from.len(),
                moved_from.len() == moved_to.len(),
                self@ == files_renamed(moved, views_of(moved_from@).take(i as int), views_of(moved_to@).take(i as int)),
            decreases moved_from.len() - i,
        {
            let ghost os = views_of(moved_from@).take(i + 1);
            let ghost ns = views_of(moved_to@).take(i + 1);
            assert(os.drop_last() =~= views_of(moved_from@).take(i as int));
            assert(ns.drop_last() =~= views_of(moved_to@).take(i as int));
            assert(os.last() == moved_from@[i as int]@);
            assert(ns.last() == moved_to@[i as int]@);
            if !crate::text::str_eq(moved_from[i].as_str(), moved_to[i].as_str()) {
                self.rename_file(moved_from[i].as_str(), moved_to[i].as_str());
            }
            i += 1;
        }
        assert(views_of(moved_from@).take(moved_from@.len() as int) =~= views_of(moved_from@));
        assert(views_of(moved_to@).take(moved_to@.len() as int) =~= views_of(moved_to@));
    }
}

/// How rewriting the references in one file went.
#[derive(Debug, Clone, Copy, PartialEq, Eq, Structural)]
pub enum RewriteOutcome {
    /// The file was rewritten with the new paths.
    Rewritten,
    /// The file held no path under the old prefix and was left alone.
    Unchanged,
    /// Reading or writing the file failed.
    Failed,
}

/// The pass that a rename of the instance at `old_prefix` to `new_prefix`
/// makes over the meta and model files that record references under it:
/// `found` are the files the index lists, `targets` where each of them is
/// now (see [`relocated_files`]).
pub struct RefRewritePass {
    old_prefix: String,
    new_prefix: String,
    found: Vec<String>,
    targets: Vec<String>,
    any_rewritten: bool,
}

impl RefRewritePass {
    /// The renamed instance's old path.
    pub closed spec fn old_prefix(&self) -> Seq<char> {
        self.old_prefix@
    }

    /// The renamed instance's new path.
    pub closed spec fn new_prefix(&self) -> Seq<char> {
        self.new_prefix@
    }

    /// The files the index lists under the old path.
    pub closed spec fn found(&self) -> Seq<Seq<char>> {
        views_of(self.found@)
    }

    /// Where each of those files is now.
    pub closed spec fn targets(&self) -> Seq<Seq<char>> {
        views_of(self.targets@)
    }

    /// Whether a file has been rewritten so far.
    pub closed spec fn any_rewritten(&self) -> bool {
        self.any_rewritten
    }

    /// Starts the pass; there is none when the path did not change or no
    /// file records a reference under it.
    pub fn start(old_prefix: &str, new_prefix: &str, found: Vec<String>, targets: Vec<String>) -> (r: Option<Self>)
        requires
            found.len() == targets.len(),
        ensures
            r is Some <==> (old_prefix@ != new_prefix@ && found@.len() > 0),
            r matches Some(p) ==> p.old_prefix() == old_prefix@ && p.new_prefix() == new_prefix@ && p.found()
                == views_of(found@) && p.targets() == views_of(targets@) && !p.any_rewritten(),
    {
        if crate::text::str_eq(old_prefix, new_prefix) || found.len() == 0 {
            None
        } else {
            Some(
                RefRewritePass {
                    old_prefix: crate::text::to_owned_string(old_prefix),
                    new_prefix: crate::text::to_owned_string(new_prefix),
                    found,
                    targets,
                    any_rewritten: false,
                },
            )
        }
    }

    /// The number of files to rewrite.
    pub fn len(&self) -> (n: usize)
        ensures
            n == self.targets().len(),
    {
        self.targets.len()
    }

    /// The file to rewrite in step `i`.
    pub fn target(&self, i: usize) -> (f: &str)
        requires
            i < self.targets().len(),
        ensures
            f@ == self.targets()[i as int],
    {
        self.targets[i].as_str()
    }

    /// Before rewriting file `i`: its write is announced, so that the
    /// watcher's echo of it is swallowed.
    pub fn before_rewrite(&self, table: &mut crate::suppression::SuppressionTable, i: usize)
        requires
            i < self.targets().len(),
            old(table).wf(),
            old(table)@.contains_key(self.targets()[i as int]) ==> old(table)@[self.targets()[i as int]].1
                < usize::MAX,
        ensures
            final(table).wf(),
            final(table)@ == crate::suppression::add_counts(old(table)@, self.targets()[i as int], 0, 1),
    {
        table.suppress(self.targets[i].as_str());
    }

    /// After rewriting file `i`: the announcement is withdrawn unless the
    /// file was written, and a written file is remembered.
    pub fn after_rewrite(&mut self, table: &mut crate::suppression::SuppressionTable, i: usize, outcome: RewriteOutcome)
        requires
            i < old(self).targets().len(),
            old(table).wf(),
        ensures
            final(table).wf(),
            final(table)@ == if outcome == RewriteOutcome::Rewritten {
                old(table)@
            } else {
                crate::suppression::sub_counts(old(table)@, old(self).targets()[i as int], 0, 1)
            },
            final(self).old_prefix() == old(self).old_prefix(),
            final(self).new_prefix() == old(self).new_prefix(),
            final(self).found() == old(self).found(),
            final(self).targets() == old(self).targets(),
            final(self).any_rewritten() == (old(self).any_rewritten() || outcome == RewriteOutcome::Rewritten),
    {
        match outcome {
            RewriteOutcome::Rewritten => {
                self.any_rewritten = true;
            },
            _ => {
                table.unsuppress(self.targets[i].as_str());
            },
        }
    }

    /// Ends the pass: when a file was rewritten, the index records the new
    /// path of the references and where the files moved; otherwise it is
    /// left alone.
    pub fn finish(self, index: &mut RefPathIndex)
        requires
            self.found().len() == self.targets().len(),
        ensures
            final(index)@ == if self.any_rewritten() {
                files_renamed(
                    old(index)@.map(
                        |q: (Seq<char>, Seq<char>)| (renamed_key(q.0, self.old_prefix(), self.new_prefix()), q.1),
                    ),
                    self.found(),
                    self.targets(),
                )
            } else {
                old(index)@
            },
    {
        if self.any_rewritten {
            index.record_rename(self.old_prefix.as_str(), self.new_prefix.as_str(), &self.found, &self.targets);
        }
    }
}

/// Where each file recorded under a renamed instance is now: a file that
/// still exists (`exists[i]`) stays where it is; any other is looked for
/// with its first segment naming the instance replaced.
pub fn relocated_files(
    files: &Vec<String>,
    exists: &Vec<bool>,
    old_segment: &str,
    old_slug: Option<&str>,
    new_segment: &str,
) -> (res: Vec<String>)
    requires
        files.len() == exists.len(),
    ensures
        res.len() == files.len(),
        forall|i: int|
            0 <= i < files.len() ==> (#[trigger] res@[i])@ == (if exists@[i] {
                files@[i]@
            } else {
                crate::fs_path::relocated_path_spec(
                    files@[i]@,
                    old_segment@,
                    crate::fs_path::opt_str_view(old_slug),
                    new_segment@,
                )
            }),
{
    let mut res: Vec<String> = Vec::new();
    let mut i: usize = 0;
    while i < files.len()
        invariant
            i <= files.len(),
            files.len() == exists.len(),
            res.len() == i,
            forall|k: int|
                0 <= k < i ==> (#[trigger] res@[k])@ == (if exists@[k] {
                    files@[k]@
                } else {
                    crate::fs_path::relocated_path_spec(
                        files@[k]@,
                        old_segment@,
                        crate::fs_path::opt_str_view(old_slug),
                        new_segment@,
                    )
                }),
        decreases files.len() - i,
    {
        let f = if exists[i] {
            string_from_chars(&chars_of(files[i].as_str()))
        } else {
            crate::fs_path::relocated_file_path(files[i].as_str(), old_segment, old_slug, new_segment)
        };
        res.push(f);
        i += 1;
    }
    res
}

// ---------------------------------------------------------------------------
// What the index promises across operations
// ---------------------------------------------------------------------------

/// After a file is recorded under a path, looking up any prefix of that
/// path finds the file.
pub proof fn lemma_added_file_found(
    idx: Set<(Seq<char>, Seq<char>)>,
    ref_path: Seq<char>,
    file: Seq<char>,
    prefix: Seq<char>,
)
    requires
        under_prefix(ref_path, prefix),
    ensures
        files_under(idx.insert((ref_path, file)), prefix).contains(file),
{
    assert(idx.insert((ref_path, file)).contains((ref_path, file)));
}

/// Adding a record and removing it again leaves an index that did not hold
/// it unchanged.
pub proof fn lemma_remove_undoes_add(idx: Set<(Seq<char>, Seq<char>)>, ref_path: Seq<char>, file: Seq<char>)
    requires
        !idx.contains((ref_path, file)),
    ensures
        idx.insert((ref_path, file)).remove((ref_path, file)) == idx,
{
    assert(idx.insert((ref_path, file)).remove((ref_path, file)) =~= idx);
}

/// After every record of a file is removed, no lookup finds that file, and
/// every other file is found exactly where it was.
pub proof fn lemma_removed_file_not_found(idx: Set<(Seq<char>, Seq<char>)>, file: Seq<char>, prefix: Seq<char>)
    ensures
        files_under(idx.filter(|q: (Seq<char>, Seq<char>)| q.1 != file), prefix) == files_under(idx, prefix).remove(file),
{
    let kept = idx.filter(|q: (Seq<char>, Seq<char>)| q.1 != file);
    assert forall|f: Seq<char>| files_under(kept, prefix).contains(f) == files_under(idx, prefix).remove(file).contains(f) by {
        if files_under(idx, prefix).remove(file).contains(f) {
            let r = choose|r: Seq<char>| idx.contains((r, f)) && under_prefix(r, prefix);
            assert(kept.contains((r, f)));
        }
    }
    assert(files_under(kept, prefix) =~= files_under(idx, prefix).remove(file));
}

/// After a file is renamed in the index, every lookup finds the new name
/// where it found the old one.
pub proof fn lemma_renamed_file_found(
    idx: Set<(Seq<char>, Seq<char>)>,
    old_file: Seq<char>,
    new_file: Seq<char>,
    prefix: Seq<char>,
)
    ensures
        files_under(
            idx.map(|q: (Seq<char>, Seq<char>)| (q.0, if q.1 == old_file { new_file } else { q.1 })),
            prefix,
        ) == files_under(idx, prefix).map(|f: Seq<char>| if f == old_file { new_file } else { f }),
{
    let g = |q: (Seq<char>, Seq<char>)| (q.0, if q.1 == old_file { new_file } else { q.1 });
    let h = |f: Seq<char>| if f == old_file { new_file } else { f };
    let moved = idx.map(g);
    assert forall|f: Seq<char>| files_under(moved, prefix).contains(f) == files_under(idx, prefix).map(h).contains(f) by {
        if files_under(moved, prefix).contains(f) {
            let r = choose|r: Seq<char>| moved.contains((r, f)) && under_prefix(r, prefix);
            let q = choose|q: (Seq<char>, Seq<char>)| idx.contains(q) && g(q) == (r, f);
            assert(files_under(idx, prefix).contains(q.1));
            assert(h(q.1) == f);
        }
        if files_under(idx, prefix).map(h).contains(f) {
            let f0 = choose|f0: Seq<char>| files_under(idx, prefix).contains(f0) && h(f0) == f;
            let r = choose|r: Seq<char>| idx.contains((r, f0)) && under_prefix(r, prefix);
            assert(g((r, f0)) == (r, f));
            assert(moved.contains((r, f)));
        }
    }
    assert(files_under(moved, prefix) =~= files_under(idx, prefix).map(h));
}

/// After the paths under `old` are moved to `new`, every file recorded
/// under `old` is found under `new`.
pub proof fn lemma_moved_files_found(
    idx: Set<(Seq<char>, Seq<char>)>,
    old: Seq<char>,
    new: Seq<char>,
    ref_path: Seq<char>,
    file: Seq<char>,
)
    requires
        idx.contains((ref_path, file)),
        under_prefix(ref_path, old),
    ensures
        files_under(idx.map(|q: (Seq<char>, Seq<char>)| (renamed_key(q.0, old, new), q.1)), new).contains(file),
{
    let g = |q: (Seq<char>, Seq<char>)| (renamed_key(q.0, old, new), q.1);
    let moved = idx.map(g);
    let k = renamed_key(ref_path, old, new);
    assert(moved.contains(g((ref_path, file))));
    if ref_path != old {
        assert(has_prefix(ref_path, old.push('/')));
        assert(ref_path[old.len() as int] == old.push('/')[old.len() as int]);
        assert(k.subrange(0, new.len() + 1 as int) =~= new.push('/'));
    }
    assert(under_prefix(k, new));
}

} // verus!
