//! Reference paths between instances: the attribute names that hold them,
//! escaping of names, splitting, and relative paths resolved both ways.

use vstd::prelude::*;
use crate::text::{chars_eq, chars_from, chars_of, has_prefix, lemma_repeat_front, matches_at, push_all, push_str, repeat_seq, string_from_chars};

verus! {

/// Legacy: ID attribute on target instances (kept for backwards compatibility).
pub const REF_ID_ATTRIBUTE_NAME: &'static str = "Rojo_Id";

/// Legacy: pointer attribute prefix using IDs (kept for backwards compatibility).
pub const REF_POINTER_ATTRIBUTE_PREFIX: &'static str = "Rojo_Target_";

/// Prefix for path-based reference attributes using Luau require-by-string
/// style paths (e.g. `@self/Handle.model.json5`, `./Sibling.luau`).
pub const REF_PATH_ATTRIBUTE_PREFIX: &'static str = "Rojo_Ref_";

/// The characters of [`REF_PATH_ATTRIBUTE_PREFIX`].
pub open spec fn ref_path_prefix() -> Seq<char> {
    seq!['R', 'o', 'j', 'o', '_', 'R', 'e', 'f', '_']
}

/// Compute the `Rojo_Ref_*` attribute name for a given property name.
pub fn ref_attribute_name(prop_name: &str) -> (res: String)
    ensures
        res@ == ref_path_prefix() + prop_name@,
{
    let mut out: Vec<char> = Vec::new();
    proof {
        reveal_strlit("Rojo_Ref_");
    }
    push_str(&mut out, REF_PATH_ATTRIBUTE_PREFIX);
    push_str(&mut out, prop_name);
    string_from_chars(&out)
}


/// The characters of [`REF_POINTER_ATTRIBUTE_PREFIX`].
pub open spec fn ref_pointer_prefix() -> Seq<char> {
    seq!['R', 'o', 'j', 'o', '_', 'T', 'a', 'r', 'g', 'e', 't', '_']
}

/// Compute the `Rojo_Target_*` attribute name for a given property name.
pub fn ref_target_attribute_name(prop_name: &str) -> (res: String)
    ensures
        res@ == ref_pointer_prefix() + prop_name@,
{
    let mut out: Vec<char> = Vec::new();
    proof {
        reveal_strlit("Rojo_Target_");
    }
    push_str(&mut out, REF_POINTER_ATTRIBUTE_PREFIX);
    push_str(&mut out, prop_name);
    string_from_chars(&out)
}

// ---------------------------------------------------------------------------
// Escaping of path segments
// ---------------------------------------------------------------------------

/// The escaped form of one character of an instance name.
pub open spec fn escape_char(c: char) -> Seq<char> {
    if c == '\\' {
        seq!['\\', '\\']
    } else if c == '/' {
        seq!['\\', '/']
    } else {
        seq![c]
    }
}

/// An instance name with `\` written as `\\` and `/` written as `\/`.
pub open spec fn escape_spec(s: Seq<char>) -> Seq<char>
    decreases s.len(),
{
    if s.len() == 0 {
        seq![]
    } else {
        escape_char(s[0]) + escape_spec(s.skip(1))
    }
}

/// Reverses [`escape_spec`]: `\/` and `\\` become `/` and `\`; any other
/// backslash is kept together with the character after it.
pub open spec fn unescape_spec(s: Seq<char>) -> Seq<char>
    decreases s.len(),
{
    if s.len() == 0 {
        seq![]
    } else if s[0] == '\\' && s.len() >= 2 {
        if s[1] == '/' {
            seq!['/'] + unescape_spec(s.skip(2))
        } else if s[1] == '\\' {
            seq!['\\'] + unescape_spec(s.skip(2))
        } else {
            seq!['\\', s[1]] + unescape_spec(s.skip(2))
        }
    } else {
        seq![s[0]] + unescape_spec(s.skip(1))
    }
}

pub proof fn lemma_escape_append(a: Seq<char>, b: Seq<char>)
    ensures
        escape_spec(a + b) == escape_spec(a) + escape_spec(b),
    decreases a.len(),
{
    if a.len() == 0 {
        assert(a + b =~= b);
    } else {
        assert((a + b).skip(1) =~= a.skip(1) + b);
        lemma_escape_append(a.skip(1), b);
    }
}

proof fn lemma_escape_push(a: Seq<char>, c: char)
    ensures
        escape_spec(a.push(c)) == escape_spec(a) + escape_char(c),
{
    assert(a.push(c) =~= a + seq![c]);
    lemma_escape_append(a, seq![c]);
    assert(seq![c].skip(1) =~= Seq::<char>::empty());
    assert(escape_spec(Seq::<char>::empty()) == Seq::<char>::empty());
    assert(escape_char(c) + Seq::<char>::empty() =~= escape_char(c));
}

/// Unescaping an escaped name gives the name back.
pub proof fn lemma_unescape_inverts_escape(s: Seq<char>)
    ensures
        unescape_spec(escape_spec(s)) == s,
    decreases s.len(),
{
    if s.len() > 0 {
        lemma_unescape_inverts_escape(s.skip(1));
        let e = escape_spec(s);
        let rest = escape_spec(s.skip(1));
        let c = s[0];
        assert(e == escape_char(c) + rest);
        if c == '\\' || c == '/' {
            assert(e.skip(2) =~= rest);
        } else {
            assert(e.skip(1) =~= rest);
        }
        assert(s =~= seq![c] + s.skip(1));
    }
}

/// Escape `/` and `\` in an instance name for use in instance-name paths.
pub fn escape_ref_path_segment(name: &str) -> (res: String)
    ensures
        res@ == escape_spec(name@),
{
    let chars = chars_of(name);
    let ghost s = name@;
    let mut out: Vec<char> = Vec::new();
    let mut i: usize = 0;
    while i < chars.len()
        invariant
            chars@ == s,
            i <= chars.len(),
            out@ == escape_spec(s.take(i as int)),
        decreases chars.len() - i,
    {
        let c = chars[i];
        if c == '\\' {
            out.push('\\');
            out.push('\\');
        } else if c == '/' {
            out.push('\\');
            out.push('/');
        } else {
            out.push(c);
        }
        proof {
            assert(s.take(i + 1) =~= s.take(i as int).push(c));
            lemma_escape_push(s.take(i as int), c);
        }
        i += 1;
        assert(out@ =~= escape_spec(s.take(i as int)));
    }
    assert(s.take(chars.len() as int) =~= s);
    string_from_chars(&out)
}

/// Unescape a path segment back to an instance name, reversing
/// [`escape_ref_path_segment`].
pub fn unescape_ref_path_segment(segment: &str) -> (res: String)
    ensures
        res@ == unescape_spec(segment@),
{
    let chars = chars_of(segment);
    let out = unescape_chars(&chars);
    string_from_chars(&out)
}

/// [`unescape_spec`] on a vector of characters.
fn unescape_chars(chars: &Vec<char>) -> (out: Vec<char>)
    ensures
        out@ == unescape_spec(chars@),
{
    let ghost s = chars@;
    let mut out: Vec<char> = Vec::new();
    let mut i: usize = 0;
    assert(s.skip(0) =~= s);
    assert(out@ + unescape_spec(s) =~= unescape_spec(s));
    while i < chars.len()
        invariant
            chars@ == s,
            i <= chars.len(),
            unescape_spec(s) == out@ + unescape_spec(s.skip(i as int)),
        decreases chars.len() - i,
    {
        let ghost rest = s.skip(i as int);
        let c = chars[i];
        if c == '\\' && i + 1 < chars.len() {
            let d = chars[i + 1];
            if d == '/' {
                out.push('/');
            } else if d == '\\' {
                out.push('\\');
            } else {
                out.push('\\');
                out.push(d);
            }
            assert(rest.skip(2) =~= s.skip(i + 2));
            i += 2;
        } else {
            out.push(c);
            assert(rest.skip(1) =~= s.skip(i + 1));
            i += 1;
        }
        assert(unescape_spec(s) =~= out@ + unescape_spec(s.skip(i as int)));
    }
    assert(s.skip(0) =~= s);
    assert(unescape_spec(s.skip(i as int)) == Seq::<char>::empty());
    assert(out@ + Seq::<char>::empty() =~= out@);
    out
}


/// The raw (still escaped) segments of a ref path from index `i` on, where
/// `cur` is the segment read so far: a backslash keeps the character after
/// it, and only an unescaped `/` separates segments.
pub open spec fn ref_segments_from(s: Seq<char>, i: int, cur: Seq<char>) -> Seq<Seq<char>>
    decreases s.len() - i,
{
    if i < 0 || i >= s.len() {
        seq![cur]
    } else if s[i] == '\\' {
        if i + 1 < s.len() {
            ref_segments_from(s, i + 2, cur + seq![s[i], s[i + 1]])
        } else {
            ref_segments_from(s, i + 1, cur.push(s[i]))
        }
    } else if s[i] == '/' {
        seq![cur] + ref_segments_from(s, i + 1, seq![])
    } else {
        ref_segments_from(s, i + 1, cur.push(s[i]))
    }
}

/// The instance names that a ref path stands for: split on unescaped `/`,
/// then unescape each segment; the empty path has no segments.
pub open spec fn split_ref_spec(s: Seq<char>) -> Seq<Seq<char>> {
    if s.len() == 0 {
        seq![]
    } else {
        ref_segments_from(s, 0, seq![]).map_values(|x: Seq<char>| unescape_spec(x))
    }
}

/// The views of a sequence of strings.
pub open spec fn string_views(v: Seq<String>) -> Seq<Seq<char>> {
    v.map_values(|x: String| x@)
}

/// Split a ref path into instance names, splitting on unescaped `/` only
/// and unescaping each segment.
pub fn split_ref_path(path: &str) -> (res: Vec<String>)
    ensures
        string_views(res@) == split_ref_spec(path@),
{
    let chars = chars_of(path);
    let ghost s = path@;
    if chars.len() == 0 {
        let res: Vec<String> = Vec::new();
        assert(string_views(res@) =~= split_ref_spec(s));
        return res;
    }
    let ghost raw = ref_segments_from(s, 0, seq![]);
    let ghost done: Seq<Seq<char>> = seq![];
    let mut segments: Vec<String> = Vec::new();
    let mut current: Vec<char> = Vec::new();
    let mut i: usize = 0;
    while i < chars.len()
        invariant
            chars@ == s,
            i <= chars.len(),
            raw == done + ref_segments_from(s, i as int, current@),
            string_views(segments@) == done.map_values(|x: Seq<char>| unescape_spec(x)),
        decreases chars.len() - i,
    {
        let c = chars[i];
        let ghost before = current@;
        if c == '\\' {
            current.push(c);
            if i + 1 < chars.len() {
                current.push(chars[i + 1]);
                assert(current@ =~= before + seq![s[i as int], s[i + 1]]);
                i += 2;
            } else {
                i += 1;
            }
        } else if c == '/' {
            let seg = unescape_chars(&current);
            let ghost cur = current@;
            proof {
                assert(ref_segments_from(s, i as int, cur) == seq![cur] + ref_segments_from(s, i + 1, seq![]));
                assert(done + ref_segments_from(s, i as int, cur) =~= done.push(cur) + ref_segments_from(s, i + 1, seq![]));
                assert(done.push(cur).map_values(|x: Seq<char>| unescape_spec(x)) =~= done.map_values(|x: Seq<char>| unescape_spec(x)).push(unescape_spec(cur)));
                done = done.push(cur);
            }
            let seg_string = string_from_chars(&seg);
            segments.push(seg_string);
            assert(string_views(segments@) =~= done.map_values(|x: Seq<char>| unescape_spec(x)));
            current = Vec::new();
            i += 1;
        } else {
            current.push(c);
            i += 1;
        }
    }
    let seg = unescape_chars(&current);
    let ghost cur = current@;
    proof {
        assert(done + seq![cur] =~= done.push(cur));
        assert(done.push(cur).map_values(|x: Seq<char>| unescape_spec(x)) =~= done.map_values(|x: Seq<char>| unescape_spec(x)).push(unescape_spec(cur)));
    }
    segments.push(string_from_chars(&seg));
    assert(string_views(segments@) =~= split_ref_spec(s));
    segments
}

// ---------------------------------------------------------------------------
// Splitting and joining on `/`
// ---------------------------------------------------------------------------

/// Index of the first `/` at or after `i` (or the length).
pub open spec fn first_slash(s: Seq<char>, i: int) -> int
    decreases s.len() - i,
{
    if i < 0 || i >= s.len() {
        s.len() as int
    } else if s[i] == '/' {
        i
    } else {
        first_slash(s, i + 1)
    }
}

/// The `/`-separated pieces of `s` from index `i` on (as `str::split` gives
/// them: `n` separators give `n + 1` pieces).
pub open spec fn split_from(s: Seq<char>, i: int) -> Seq<Seq<char>>
    decreases s.len() - i,
{
    let k = first_slash(s, i);
    if i < 0 || i > s.len() || k >= s.len() {
        seq![s.subrange(i, s.len() as int)]
    } else {
        proof {
            lemma_first_slash(s, i);
        }
        seq![s.subrange(i, k)] + split_from(s, k + 1)
    }
}

/// The `/`-separated pieces of `s`.
pub open spec fn split_slash(s: Seq<char>) -> Seq<Seq<char>> {
    split_from(s, 0)
}

/// The pieces joined with `/` between them.
pub open spec fn join_slash(parts: Seq<Seq<char>>) -> Seq<char>
    decreases parts.len(),
{
    if parts.len() == 0 {
        seq![]
    } else if parts.len() == 1 {
        parts[0]
    } else {
        parts[0] + seq!['/'] + join_slash(parts.skip(1))
    }
}

/// The views of a sequence of character vectors.
pub open spec fn views(v: Seq<Vec<char>>) -> Seq<Seq<char>> {
    v.map_values(|x: Vec<char>| x@)
}

pub proof fn lemma_first_slash(s: Seq<char>, i: int)
    requires
        0 <= i <= s.len(),
    ensures
        i <= first_slash(s, i) <= s.len(),
        forall|k: int| i <= k < first_slash(s, i) ==> s[k] != '/',
        first_slash(s, i) < s.len() ==> s[first_slash(s, i)] == '/',
    decreases s.len() - i,
{
    if i < s.len() && s[i] != '/' {
        lemma_first_slash(s, i + 1);
    }
}

/// [`split_slash`] on a vector of characters.
pub(crate) fn split_slash_chars(v: &Vec<char>) -> (parts: Vec<Vec<char>>)
    ensures
        views(parts@) == split_slash(v@),
{
    let ghost s = v@;
    let n = v.len();
    let mut parts: Vec<Vec<char>> = Vec::new();
    let mut cur: Vec<char> = Vec::new();
    let mut st: usize = 0;
    let mut i: usize = 0;
    while i < n
        invariant
            v@ == s,
            n == s.len(),
            st <= i <= n,
            cur@ == s.subrange(st as int, i as int),
            first_slash(s, st as int) == first_slash(s, i as int),
            views(parts@) + split_from(s, st as int) == split_slash(s),
        decreases n - i,
    {
        if v[i] == '/' {
            proof {
                lemma_first_slash(s, st as int);
                assert(split_from(s, st as int) == seq![s.subrange(st as int, i as int)] + split_from(s, i + 1));
                assert(views(parts@.push(cur)) =~= views(parts@).push(cur@));
            }
            parts.push(cur);
            cur = Vec::new();
            st = i + 1;
            assert(views(parts@) + split_from(s, st as int) =~= split_slash(s));
        } else {
            cur.push(v[i]);
        }
        i += 1;
        assert(cur@ =~= s.subrange(st as int, i as int));
    }
    proof {
        assert(split_from(s, st as int) == seq![s.subrange(st as int, n as int)]);
        assert(views(parts@.push(cur)) =~= views(parts@).push(cur@));
    }
    parts.push(cur);
    assert(views(parts@) =~= split_slash(s));
    parts
}

pub proof fn lemma_join_push(ps: Seq<Seq<char>>, p: Seq<char>)
    requires
        ps.len() > 0,
    ensures
        join_slash(ps.push(p)) == join_slash(ps) + seq!['/'] + p,
    decreases ps.len(),
{
    let q = ps.push(p);
    if ps.len() == 1 {
        assert(q.skip(1) =~= seq![p]);
        assert(join_slash(seq![p]) == p);
        assert(q[0] == ps[0]);
    } else {
        assert(q.skip(1) =~= ps.skip(1).push(p));
        lemma_join_push(ps.skip(1), p);
        assert(q[0] == ps[0]);
        assert(join_slash(q) =~= join_slash(ps) + seq!['/'] + p);
    }
}

/// `parts[from..to]` joined with `/`.
pub(crate) fn join_slash_range(parts: &Vec<Vec<char>>, from: usize, to: usize) -> (out: Vec<char>)
    requires
        from <= to <= parts.len(),
    ensures
        out@ == join_slash(views(parts@).subrange(from as int, to as int)),
{
    let ghost pv = views(parts@);
    let mut out: Vec<char> = Vec::new();
    let mut i = from;
    while i < to
        invariant
            pv == views(parts@),
            from <= i <= to <= parts.len(),
            out@ == join_slash(pv.subrange(from as int, i as int)),
        decreases to - i,
    {
        if i > from {
            out.push('/');
        }
        push_all(&mut out, &parts[i]);
        proof {
            let ps = pv.subrange(from as int, i as int);
            assert(pv.subrange(from as int, i + 1) =~= ps.push(pv[i as int]));
            if i > from {
                lemma_join_push(ps, pv[i as int]);
            } else {
                assert(pv.subrange(from as int, i + 1) =~= seq![pv[i as int]]);
            }
        }
        i += 1;
    }
    out
}


/// `join_slash` of a split gives the string back.
pub proof fn lemma_join_split_from(s: Seq<char>, i: int)
    requires
        0 <= i <= s.len(),
    ensures
        join_slash(split_from(s, i)) == s.subrange(i, s.len() as int),
        split_from(s, i).len() >= 1,
    decreases s.len() - i,
{
    lemma_first_slash(s, i);
    let k = first_slash(s, i);
    if k < s.len() {
        lemma_join_split_from(s, k + 1);
        let rest = split_from(s, k + 1);
        let all = split_from(s, i);
        assert(all == seq![s.subrange(i, k)] + rest);
        assert(all.skip(1) =~= rest);
        assert(all[0] == s.subrange(i, k));
        assert(s.subrange(i, s.len() as int) =~= s.subrange(i, k) + seq!['/'] + s.subrange(k + 1, s.len() as int));
    }
}

pub proof fn lemma_join_split(s: Seq<char>)
    ensures
        join_slash(split_slash(s)) == s,
        split_slash(s).len() >= 1,
{
    lemma_join_split_from(s, 0);
    assert(s.subrange(0, s.len() as int) =~= s);
}

/// Joining a concatenation of two non-empty lists of pieces.
pub proof fn lemma_join_concat(a: Seq<Seq<char>>, b: Seq<Seq<char>>)
    requires
        a.len() > 0,
        b.len() > 0,
    ensures
        join_slash(a + b) == join_slash(a) + seq!['/'] + join_slash(b),
    decreases a.len(),
{
    let ab = a + b;
    assert(ab[0] == a[0]);
    if a.len() == 1 {
        assert(ab.skip(1) =~= b);
    } else {
        assert(ab.skip(1) =~= a.skip(1) + b);
        lemma_join_concat(a.skip(1), b);
        assert(join_slash(ab) =~= join_slash(a) + seq!['/'] + join_slash(b));
    }
}

/// A path written from instance names: each name escaped, joined with `/`.
pub open spec fn escaped_path(names: Seq<Seq<char>>) -> Seq<char> {
    join_slash(names.map_values(|n: Seq<char>| escape_spec(n)))
}

proof fn lemma_segments_over_escaped(x: Seq<char>, p: int, cur: Seq<char>, a: Seq<char>)
    requires
        0 <= p,
        p + escape_spec(a).len() <= x.len(),
        x.subrange(p, p + escape_spec(a).len()) == escape_spec(a),
    ensures
        ref_segments_from(x, p, cur) == ref_segments_from(
            x,
            p + escape_spec(a).len(),
            cur + escape_spec(a),
        ),
    decreases a.len(),
{
    let e = escape_spec(a);
    if a.len() == 0 {
        assert(cur + e =~= cur);
    } else {
        let a0 = a[0];
        let ec = escape_char(a0);
        let rest = escape_spec(a.skip(1));
        assert(e == ec + rest);
        assert(forall|k: int| 0 <= k < ec.len() ==> x[p + k] == #[trigger] e[k]) by {
            assert forall|k: int| 0 <= k < ec.len() implies x[p + k] == #[trigger] e[k] by {
                assert(x.subrange(p, p + e.len())[k] == x[p + k]);
            }
        }
        assert(x.subrange(p + ec.len(), p + ec.len() + rest.len()) =~= rest) by {
            assert forall|k: int| 0 <= k < rest.len() implies x.subrange(
                p + ec.len(),
                p + ec.len() + rest.len(),
            )[k] == rest[k] by {
                assert(x.subrange(p, p + e.len())[ec.len() + k] == e[ec.len() + k]);
            }
        }
        lemma_segments_over_escaped(x, p + ec.len(), cur + ec, a.skip(1));
        assert(cur + ec + rest =~= cur + e);
        assert(e[0] == ec[0]);
        assert(x[p] == e[0]);
        if a0 == '\\' || a0 == '/' {
            assert(e[1] == ec[1]);
            assert(x[p + 1] == e[1]);
            assert(x[p] == '\\');
            assert(cur + seq![x[p], x[p + 1]] =~= cur + ec);
        } else {
            assert(x[p] == a0);
            assert(cur.push(x[p]) =~= cur + ec);
        }
    }
}

proof fn lemma_segments_shift(q: Seq<char>, y: Seq<char>, i: int, cur: Seq<char>)
    requires
        0 <= i <= y.len(),
    ensures
        ref_segments_from(q + y, q.len() + i, cur) == ref_segments_from(y, i, cur),
    decreases y.len() - i,
{
    let z = q + y;
    if i < y.len() {
        assert(z[q.len() + i] == y[i]);
        if i + 1 < y.len() {
            assert(z[q.len() + i + 1] == y[i + 1]);
        }
        if y[i] == '\\' {
            if i + 1 < y.len() {
                lemma_segments_shift(q, y, i + 2, cur + seq![y[i], y[i + 1]]);
            } else {
                lemma_segments_shift(q, y, i + 1, cur.push(y[i]));
            }
        } else if y[i] == '/' {
            lemma_segments_shift(q, y, i + 1, seq![]);
        } else {
            lemma_segments_shift(q, y, i + 1, cur.push(y[i]));
        }
    }
}

proof fn lemma_segments_of_escaped_join(names: Seq<Seq<char>>)
    requires
        names.len() > 0,
    ensures
        ref_segments_from(escaped_path(names), 0, seq![]) == names.map_values(
            |n: Seq<char>| escape_spec(n),
        ),
    decreases names.len(),
{
    let es = names.map_values(|n: Seq<char>| escape_spec(n));
    let x = escaped_path(names);
    let e0 = escape_spec(names[0]);
    assert(es[0] == e0);
    if names.len() == 1 {
        assert(x == e0);
        assert(x.subrange(0, e0.len() as int) =~= e0);
        lemma_segments_over_escaped(x, 0, seq![], names[0]);
        assert(Seq::<char>::empty() + e0 =~= e0);
        assert(es =~= seq![e0]);
    } else {
        let rest = names.skip(1);
        assert(es.skip(1) =~= rest.map_values(|n: Seq<char>| escape_spec(n)));
        let y = escaped_path(rest);
        assert(x == e0 + seq!['/'] + y);
        assert(x.subrange(0, e0.len() as int) =~= e0);
        lemma_segments_over_escaped(x, 0, seq![], names[0]);
        assert(Seq::<char>::empty() + e0 =~= e0);
        assert(x[e0.len() as int] == '/');
        lemma_segments_of_escaped_join(rest);
        lemma_segments_shift(e0.push('/'), y, 0, seq![]);
        assert(e0.push('/') + y =~= x);
        assert(es =~= seq![e0] + es.skip(1));
    }
}

/// Splitting a path written from instance names gives the names back
/// (the empty path, written from the single empty name, has no segments).
pub proof fn lemma_split_inverts_escaped_join(names: Seq<Seq<char>>)
    requires
        names.len() > 0,
        !(names.len() == 1 && names[0].len() == 0),
    ensures
        split_ref_spec(escaped_path(names)) == names,
{
    let es = names.map_values(|n: Seq<char>| escape_spec(n));
    let x = escaped_path(names);
    lemma_segments_of_escaped_join(names);
    if names.len() == 1 {
        assert(x == es[0]);
        assert(escape_spec(names[0]) == escape_char(names[0][0]) + escape_spec(names[0].skip(1)));
        assert(x.len() > 0);
    } else {
        assert(x == es[0] + seq!['/'] + escaped_path(names.skip(1))) by {
            assert(names.skip(1).map_values(|n: Seq<char>| escape_spec(n)) =~= es.skip(1));
        }
        assert(x.len() > 0);
    }
    assert forall|j: int| 0 <= j < names.len() implies unescape_spec(es[j]) == names[j] by {
        lemma_unescape_inverts_escape(names[j]);
    }
    assert(es.map_values(|x: Seq<char>| unescape_spec(x)) =~= names);
}

// ---------------------------------------------------------------------------
// Relative (Luau require-by-string style) reference paths
// ---------------------------------------------------------------------------

/// `@self`
pub open spec fn at_self() -> Seq<char> {
    seq!['@', 's', 'e', 'l', 'f']
}

/// `@game`
pub open spec fn at_game() -> Seq<char> {
    seq!['@', 'g', 'a', 'm', 'e']
}

/// `./`
pub open spec fn dot_slash() -> Seq<char> {
    seq!['.', '/']
}

/// `../`
pub open spec fn dot_dot_slash() -> Seq<char> {
    seq!['.', '.', '/']
}

/// `..`
pub open spec fn dot_dot() -> Seq<char> {
    seq!['.', '.']
}

/// Number of leading pieces on which `a` and `b` agree, counting from `i`.
pub open spec fn common_prefix_len(a: Seq<Seq<char>>, b: Seq<Seq<char>>, i: int) -> int
    decreases a.len() - i,
{
    if 0 <= i < a.len() && i < b.len() && a[i] == b[i] {
        common_prefix_len(a, b, i + 1)
    } else {
        i
    }
}

/// The path from the instance at absolute path `s` to the one at `t`:
/// `@self` for the same instance, `@self/...` for a descendant, `./...`
/// for the same parent, a chain of `../` within the same service, and
/// `@game/...` across services or for an ancestor.
pub open spec fn relative_ref_spec(s: Seq<char>, t: Seq<char>) -> Seq<char> {
    if s == t {
        at_self()
    } else if has_prefix(t, s.push('/')) {
        at_self().push('/') + t.skip(s.len() as int + 1)
    } else {
        let sp = split_slash(s);
        let tp = split_slash(t);
        let common = common_prefix_len(sp, tp, 0);
        if common == 0 || common >= tp.len() {
            at_game().push('/') + t
        } else {
            let ups = sp.len() - common;
            let rem = join_slash(tp.skip(common));
            if ups == 1 {
                dot_slash() + rem
            } else {
                repeat_seq(dot_dot_slash(), (ups - 1) as nat) + rem
            }
        }
    }
}

pub proof fn lemma_common_prefix_len(a: Seq<Seq<char>>, b: Seq<Seq<char>>, i: int)
    requires
        0 <= i <= a.len(),
        i <= b.len(),
        a.take(i) == b.take(i),
    ensures
        i <= common_prefix_len(a, b, i) <= a.len(),
        common_prefix_len(a, b, i) <= b.len(),
        a.take(common_prefix_len(a, b, i)) == b.take(common_prefix_len(a, b, i)),
    decreases a.len() - i,
{
    if i < a.len() && i < b.len() && a[i] == b[i] {
        assert(a.take(i + 1) =~= a.take(i).push(a[i]));
        assert(b.take(i + 1) =~= b.take(i).push(b[i]));
        lemma_common_prefix_len(a, b, i + 1);
    }
}

/// When the target is not the source itself nor one of its descendants,
/// the pieces that the two paths share do not cover the whole source.
proof fn lemma_relative_goes_up(s: Seq<char>, t: Seq<char>)
    requires
        s != t,
        !has_prefix(t, s.push('/')),
        common_prefix_len(split_slash(s), split_slash(t), 0) < split_slash(t).len(),
    ensures
        common_prefix_len(split_slash(s), split_slash(t), 0) < split_slash(s).len(),
{
    let sp = split_slash(s);
    let tp = split_slash(t);
    assert(sp.take(0) =~= tp.take(0));
    lemma_common_prefix_len(sp, tp, 0);
    let c = common_prefix_len(sp, tp, 0);
    lemma_join_split(s);
    lemma_join_split(t);
    if c == sp.len() {
        assert(sp.take(c) =~= sp);
        assert(tp =~= tp.take(c) + tp.skip(c));
        lemma_join_concat(tp.take(c), tp.skip(c));
        let rest = join_slash(tp.skip(c));
        assert(t == s + seq!['/'] + rest);
        assert(t.subrange(0, s.len() as int + 1) =~= s.push('/'));
    }
}

proof fn lemma_first_slash_concat(x: Seq<char>, w: Seq<char>, i: int)
    requires
        0 <= i <= x.len(),
    ensures
        first_slash(x, i) < x.len() ==> first_slash(x + w, i) == first_slash(x, i),
        first_slash(x, i) == x.len() ==> first_slash(x + w, i) == x.len() + first_slash(w, 0),
    decreases x.len() - i,
{
    lemma_first_slash(x, i);
    if i < x.len() {
        assert((x + w)[i] == x[i]);
        if x[i] != '/' {
            lemma_first_slash_concat(x, w, i + 1);
        }
    } else {
        lemma_first_slash_shift(x, w, 0);
    }
}

proof fn lemma_first_slash_shift(p: Seq<char>, y: Seq<char>, i: int)
    requires
        0 <= i <= y.len(),
    ensures
        first_slash(p + y, p.len() + i) == p.len() + first_slash(y, i),
    decreases y.len() - i,
{
    if i < y.len() {
        assert((p + y)[p.len() + i] == y[i]);
        if y[i] != '/' {
            lemma_first_slash_shift(p, y, i + 1);
        }
    }
}

proof fn lemma_split_shift(p: Seq<char>, y: Seq<char>, i: int)
    requires
        0 <= i <= y.len(),
    ensures
        split_from(p + y, p.len() + i) == split_from(y, i),
    decreases y.len() - i,
{
    let z = p + y;
    lemma_first_slash_shift(p, y, i);
    lemma_first_slash(y, i);
    let k = first_slash(y, i);
    if k < y.len() {
        lemma_split_shift(p, y, k + 1);
        assert(z.subrange(p.len() + i, p.len() + k) =~= y.subrange(i, k));
    } else {
        assert(z.subrange(p.len() + i, z.len() as int) =~= y.subrange(i, y.len() as int));
    }
}

/// Splitting a string that has a `/` right after `x`.
pub proof fn lemma_split_concat(x: Seq<char>, y: Seq<char>, i: int)
    requires
        0 <= i <= x.len(),
    ensures
        split_from(x + seq!['/'] + y, i) == split_from(x, i) + split_slash(y),
    decreases x.len() - i,
{
    let sy = seq!['/'] + y;
    let z = x + sy;
    assert(x + seq!['/'] + y =~= z);
    lemma_first_slash(x, i);
    lemma_first_slash_concat(x, sy, i);
    let k = first_slash(x, i);
    if k < x.len() {
        lemma_split_concat(x, y, k + 1);
        assert(z.subrange(i, k) =~= x.subrange(i, k));
        assert(split_from(x, i) == seq![x.subrange(i, k)] + split_from(x, k + 1));
        assert(split_from(z, i) == seq![z.subrange(i, k)] + split_from(z, k + 1));
        assert(split_from(z, i) =~= split_from(x, i) + split_slash(y));
    } else {
        assert(sy[0] == '/');
        assert(first_slash(sy, 0) == 0);
        assert(first_slash(z, i) == x.len());
        lemma_split_shift(x.push('/'), y, 0);
        assert(x.push('/') + y =~= z);
        assert(z.subrange(i, x.len() as int) =~= x.subrange(i, x.len() as int));
        assert(split_from(z, i) =~= split_from(x, i) + split_slash(y));
    }
}

/// Whether no character of `s` is `/`.
pub open spec fn no_slash(s: Seq<char>) -> bool {
    forall|k: int| 0 <= k < s.len() ==> s[k] != '/'
}

/// The pieces of a split contain no `/`.
pub proof fn lemma_split_no_slash(s: Seq<char>, i: int)
    requires
        0 <= i <= s.len(),
    ensures
        forall|j: int| 0 <= j < split_from(s, i).len() ==> no_slash(#[trigger] split_from(s, i)[j]),
    decreases s.len() - i,
{
    lemma_first_slash(s, i);
    let k0 = first_slash(s, i);
    let all = split_from(s, i);
    if k0 < s.len() {
        lemma_split_no_slash(s, k0 + 1);
        let rest = split_from(s, k0 + 1);
        assert(all == seq![s.subrange(i, k0)] + rest);
        assert forall|j: int| 0 <= j < all.len() implies no_slash(#[trigger] all[j]) by {
            if j > 0 {
                assert(all[j] == rest[j - 1]);
            }
        }
    }
}

/// Splitting the join of pieces without `/` gives the pieces back.
pub proof fn lemma_split_join(parts: Seq<Seq<char>>)
    requires
        parts.len() > 0,
        forall|j: int| 0 <= j < parts.len() ==> no_slash(#[trigger] parts[j]),
    ensures
        split_slash(join_slash(parts)) == parts,
    decreases parts.len(),
{
    let p0 = parts[0];
    assert(no_slash(p0));
    lemma_first_slash(p0, 0);
    assert(first_slash(p0, 0) == p0.len());
    assert(p0.subrange(0, p0.len() as int) =~= p0);
    if parts.len() == 1 {
        assert(split_slash(p0) == seq![p0]);
        assert(parts =~= seq![p0]);
    } else {
        let rest = parts.skip(1);
        assert forall|j: int| 0 <= j < rest.len() implies no_slash(#[trigger] rest[j]) by {
            assert(rest[j] == parts[j + 1]);
        }
        lemma_split_join(rest);
        lemma_split_concat(p0, join_slash(rest), 0);
        assert(parts =~= seq![p0] + rest);
    }
}

/// A reference path whose pieces are all non-empty and none is `..`.
pub open spec fn valid_ref_path(p: Seq<char>) -> bool {
    forall|j: int|
        0 <= j < split_slash(p).len() ==> (#[trigger] split_slash(p)[j]).len() > 0
            && split_slash(p)[j] != dot_dot()
}

/// Whether every piece is non-empty and none is `..`.
pub open spec fn plain_segments(q: Seq<Seq<char>>) -> bool {
    forall|j: int| 0 <= j < q.len() ==> (#[trigger] q[j]).len() > 0 && q[j] != dot_dot()
}

proof fn lemma_resolve_plain(p: Seq<Seq<char>>, q: Seq<Seq<char>>)
    requires
        plain_segments(q),
    ensures
        resolve_segments(p, q) == Some(p + q),
    decreases q.len(),
{
    if q.len() == 0 {
        assert(p + q =~= p);
    } else {
        let r = q.skip(1);
        assert(q[0].len() > 0 && q[0] != dot_dot());
        assert forall|j: int| 0 <= j < r.len() implies (#[trigger] r[j]).len() > 0 && r[j]
            != dot_dot() by {
            assert(r[j] == q[j + 1]);
        }
        lemma_resolve_plain(p.push(q[0]), r);
        assert(p.push(q[0]) + r =~= p + q);
    }
}

/// `k` copies of `..`.
pub open spec fn dot_dots(k: nat) -> Seq<Seq<char>> {
    Seq::new(k, |_i: int| dot_dot())
}

proof fn lemma_resolve_dot_dots(p: Seq<Seq<char>>, k: nat, q: Seq<Seq<char>>)
    requires
        p.len() >= k,
    ensures
        resolve_segments(p, dot_dots(k) + q) == resolve_segments(p.take(p.len() - k), q),
    decreases k,
{
    let segs = dot_dots(k) + q;
    if k == 0 {
        assert(segs =~= q);
        assert(p.take(p.len() as int) =~= p);
    } else {
        assert(segs[0] == dot_dot());
        assert(segs.skip(1) =~= dot_dots((k - 1) as nat) + q);
        lemma_resolve_dot_dots(p.drop_last(), (k - 1) as nat, q);
        assert(p.drop_last().take(p.drop_last().len() - (k - 1)) =~= p.take(p.len() - k));
    }
}

proof fn lemma_split_dot_dots(k: nat, x: Seq<char>)
    ensures
        split_slash(repeat_seq(dot_dot_slash(), k) + x) == dot_dots(k) + split_slash(x),
    decreases k,
{
    if k == 0 {
        assert(repeat_seq(dot_dot_slash(), 0) + x =~= x);
        assert(dot_dots(0) + split_slash(x) =~= split_slash(x));
    } else {
        lemma_repeat_front(dot_dot_slash(), (k - 1) as nat);
        let y = repeat_seq(dot_dot_slash(), (k - 1) as nat) + x;
        assert(repeat_seq(dot_dot_slash(), k) + x =~= dot_dot() + seq!['/'] + y);
        lemma_split_concat(dot_dot(), y, 0);
        lemma_split_dot_dots((k - 1) as nat, x);
        assert(first_slash(dot_dot(), 2) == 2);
        assert(first_slash(dot_dot(), 1) == 2);
        assert(first_slash(dot_dot(), 0) == 2);
        assert(dot_dot().subrange(0, 2) =~= dot_dot());
        assert(split_slash(dot_dot()) == seq![dot_dot()]);
        assert(dot_dots(k) =~= seq![dot_dot()] + dot_dots((k - 1) as nat));
    }
}

/// Resolving the relative path from `s` to `t` seen from `s` gives `t` back,
/// for every target whose pieces are non-empty and not `..`.
pub proof fn lemma_resolve_inverts_relative(s: Seq<char>, t: Seq<char>)
    requires
        valid_ref_path(t),
    ensures
        resolve_spec(relative_ref_spec(s, t), s) == Some(t),
{
    let rel = relative_ref_spec(s, t);
    let sp = split_slash(s);
    let tp = split_slash(t);
    lemma_join_split(s);
    lemma_join_split(t);
    lemma_split_no_slash(t, 0);
    if s == t {
        assert(rel == at_self());
        assert(!has_prefix(rel, at_game().push('/')));
        assert(rel != at_game()) by {
            assert(rel[1] != at_game()[1]);
        }
    } else if has_prefix(t, s.push('/')) {
        let rest = t.skip(s.len() as int + 1);
        assert(rel == at_self().push('/') + rest);
        assert(t.subrange(0, s.len() as int + 1) == s.push('/'));
        assert(t =~= t.subrange(0, s.len() as int + 1) + rest);
        assert(t =~= s + seq!['/'] + rest);
        lemma_split_concat(s, rest, 0);
        assert(tp == sp + split_slash(rest));
        let sr = split_slash(rest);
        assert forall|j: int| 0 <= j < sr.len() implies (#[trigger] sr[j]).len() > 0 && sr[j]
            != dot_dot() by {
            assert(tp[sp.len() + j] == sr[j]);
        }
        lemma_resolve_plain(sp, sr);
        assert(rel[1] == 's');
        assert(!has_prefix(rel, at_game().push('/'))) by {
            if has_prefix(rel, at_game().push('/')) {
                assert(rel.subrange(0, 6)[1] == rel[1]);
            }
        }
        assert(rel.subrange(0, 6) =~= at_self().push('/'));
        assert(rel.skip(6) =~= rest);
    } else {
        assert(sp.take(0) =~= tp.take(0));
        lemma_common_prefix_len(sp, tp, 0);
        let c = common_prefix_len(sp, tp, 0);
        if c == 0 || c >= tp.len() {
            assert(rel == at_game().push('/') + t);
            assert(rel.subrange(0, 6) =~= at_game().push('/'));
            assert(rel.skip(6) =~= t);
        } else {
            lemma_relative_goes_up(s, t);
            let ups = sp.len() - c;
            let q = tp.skip(c);
            let rem = join_slash(q);
            assert forall|j: int| 0 <= j < q.len() implies no_slash(#[trigger] q[j]) by {
                assert(q[j] == tp[c + j]);
            }
            lemma_split_join(q);
            assert(plain_segments(q)) by {
                assert forall|j: int| 0 <= j < q.len() implies (#[trigger] q[j]).len() > 0
                    && q[j] != dot_dot() by {
                    assert(q[j] == tp[c + j]);
                }
            }
            assert(tp.take(c) + q =~= tp);
            if ups == 1 {
                assert(rel == dot_slash() + rem);
            } else {
                lemma_repeat_front(dot_dot_slash(), (ups - 2) as nat);
                assert(rel =~= dot_dot_slash() + (repeat_seq(dot_dot_slash(), (ups - 2) as nat) + rem));
            }
            assert(rel[0] == '.');
            assert(!has_prefix(rel, at_game().push('/'))) by {
                if has_prefix(rel, at_game().push('/')) {
                    assert(rel.subrange(0, 6)[0] == rel[0]);
                }
            }
            assert(!has_prefix(rel, at_self().push('/'))) by {
                if has_prefix(rel, at_self().push('/')) {
                    assert(rel.subrange(0, 6)[0] == rel[0]);
                }
            }
            assert(rel != at_game() && rel != at_self()) by {
                assert(at_game()[0] == '@');
            }
            if ups == 1 {
                assert(rel == dot_slash() + rem);
                assert(rel.subrange(0, 2) =~= dot_slash());
                assert(rel.skip(2) =~= rem);
                assert(sp.drop_last() =~= sp.take(c));
                lemma_resolve_plain(tp.take(c), q);
            } else {
                let k = (ups - 2) as nat;
                lemma_repeat_front(dot_dot_slash(), (ups - 2) as nat);
                let tail = repeat_seq(dot_dot_slash(), k) + rem;
                assert(rel =~= dot_dot_slash() + tail);
                assert(rel[1] == '.');
                assert(!has_prefix(rel, dot_slash())) by {
                    if has_prefix(rel, dot_slash()) {
                        assert(rel.subrange(0, 2)[1] == rel[1]);
                    }
                }
                assert(rel.subrange(0, 3) =~= dot_dot_slash());
                assert(rel.skip(3) =~= tail);
                lemma_split_dot_dots(k, rem);
                let pp = sp.drop_last().drop_last();
                lemma_resolve_dot_dots(pp, k, q);
                assert(pp.take(pp.len() - k) =~= sp.take(c));
                lemma_resolve_plain(tp.take(c), q);
            }
        }
    }
}

/// Characters of `@self`.
fn at_self_chars() -> (r: Vec<char>)
    ensures
        r@ == at_self(),
{
    vec!['@', 's', 'e', 'l', 'f']
}

/// Characters of `@game`.
fn at_game_chars() -> (r: Vec<char>)
    ensures
        r@ == at_game(),
{
    vec!['@', 'g', 'a', 'm', 'e']
}

/// Compute a Luau require-by-string style path from a source instance to a
/// target instance, both given as absolute `/`-separated paths.
///
/// Gives `@self` when target == source, `@self/...` when the target is a
/// descendant of the source, `./...` when they share the same parent,
/// `../` chains within the same service, and `@game/...` for cross-service
/// references or when the target is an ancestor of the source.
pub fn compute_relative_ref_path(source_abs: &str, target_abs: &str) -> (res: String)
    ensures
        res@ == relative_ref_spec(source_abs@, target_abs@),
{
    let s = chars_of(source_abs);
    let t = chars_of(target_abs);
    if chars_eq(&s, &t) {
        return string_from_chars(&at_self_chars());
    }
    let mut source_prefix: Vec<char> = Vec::new();
    push_all(&mut source_prefix, &s);
    source_prefix.push('/');
    if matches_at(&t, 0, &source_prefix) {
        let mut out = at_self_chars();
        out.push('/');
        let mut i = source_prefix.len();
        let ghost start = out@;
        while i < t.len()
            invariant
                source_prefix.len() <= i <= t.len(),
                out@ == start + t@.subrange(source_prefix.len() as int, i as int),
            decreases t.len() - i,
        {
            out.push(t[i]);
            i += 1;
            assert(out@ =~= start + t@.subrange(source_prefix.len() as int, i as int));
        }
        assert(t@.subrange(0, source_prefix@.len() as int) == s@.push('/'));
        assert(t@.subrange(source_prefix.len() as int, t.len() as int) =~= t@.skip(s.len() + 1));
        return string_from_chars(&out);
    }
    let sparts = split_slash_chars(&s);
    let tparts = split_slash_chars(&t);
    let ghost sp = views(sparts@);
    let ghost tp = views(tparts@);
    let mut common: usize = 0;
    while common < sparts.len() && common < tparts.len() && chars_eq(&sparts[common], &tparts[common])
        invariant
            sp == views(sparts@),
            tp == views(tparts@),
            common <= sparts.len(),
            common_prefix_len(sp, tp, 0) == common_prefix_len(sp, tp, common as int),
        decreases sparts.len() - common,
    {
        common += 1;
    }
    assert(common_prefix_len(sp, tp, 0) == common);
    if common == 0 || common >= tparts.len() {
        let mut out = at_game_chars();
        out.push('/');
        push_all(&mut out, &t);
        return string_from_chars(&out);
    }
    proof {
        lemma_relative_goes_up(s@, t@);
    }
    let ups = sparts.len() - common;
    let rem = join_slash_range(&tparts, common, tparts.len());
    assert(tp.subrange(common as int, tp.len() as int) =~= tp.skip(common as int));
    let mut out: Vec<char> = Vec::new();
    if ups == 1 {
        out.push('.');
        out.push('/');
    } else {
        let mut k: usize = 0;
        while k < ups - 1
            invariant
                ups >= 2,
                k <= ups - 1,
                out@ == repeat_seq(dot_dot_slash(), k as nat),
            decreases ups - 1 - k,
        {
            out.push('.');
            out.push('.');
            out.push('/');
            k += 1;
            assert(out@ =~= repeat_seq(dot_dot_slash(), k as nat));
        }
    }
    push_all(&mut out, &rem);
    assert(ups == 1 ==> out@ =~= dot_slash() + rem@);
    string_from_chars(&out)
}


/// Applies path segments to a list of pieces: `..` removes the last piece
/// (failing when there is none), an empty segment does nothing, and any
/// other segment is appended.
pub open spec fn resolve_segments(parts: Seq<Seq<char>>, segs: Seq<Seq<char>>) -> Option<
    Seq<Seq<char>>,
>
    decreases segs.len(),
{
    if segs.len() == 0 {
        Some(parts)
    } else if segs[0] == dot_dot() {
        if parts.len() == 0 {
            None
        } else {
            resolve_segments(parts.drop_last(), segs.skip(1))
        }
    } else if segs[0].len() == 0 {
        resolve_segments(parts, segs.skip(1))
    } else {
        resolve_segments(parts.push(segs[0]), segs.skip(1))
    }
}

/// Applies the segments of `rest` to `parts` and joins the result.
pub open spec fn resolve_with(parts: Seq<Seq<char>>, rest: Seq<char>) -> Option<Seq<char>> {
    match resolve_segments(parts, split_slash(rest)) {
        Some(p) => Some(join_slash(p)),
        None => None,
    }
}

/// The absolute path that a relative reference path stands for, seen from
/// the instance at absolute path `source`; `None` when the path goes above
/// the root.
pub open spec fn resolve_spec(path: Seq<char>, source: Seq<char>) -> Option<Seq<char>> {
    if has_prefix(path, at_game().push('/')) {
        Some(path.skip(6))
    } else if path == at_game() {
        Some(seq![])
    } else if path == at_self() {
        Some(source)
    } else if has_prefix(path, at_self().push('/')) {
        resolve_with(split_slash(source), path.skip(6))
    } else if has_prefix(path, dot_slash()) {
        resolve_with(split_slash(source).drop_last(), path.skip(2))
    } else if has_prefix(path, dot_dot_slash()) {
        if split_slash(source).len() < 2 {
            None
        } else {
            resolve_with(split_slash(source).drop_last().drop_last(), path.skip(3))
        }
    } else {
        Some(path)
    }
}

/// The view of an optional string.
pub open spec fn opt_view(o: Option<String>) -> Option<Seq<char>> {
    match o {
        Some(s) => Some(s@),
        None => None,
    }
}

/// Resolve a relative (Luau-style) ref path back to an absolute ref path,
/// given the absolute ref path `source_abs` of the instance that owns the
/// attribute. Returns `None` if the path navigates above the root.
pub fn resolve_ref_path_to_absolute(path: &str, source_abs: &str) -> (res: Option<String>)
    ensures
        opt_view(res) == resolve_spec(path@, source_abs@),
{
    let p = chars_of(path);
    let src = chars_of(source_abs);
    let mut game_slash = at_game_chars();
    game_slash.push('/');
    let mut self_slash = at_self_chars();
    self_slash.push('/');
    if matches_at(&p, 0, &game_slash) {
        let rest = chars_from(&p, 6);
        return Some(string_from_chars(&rest));
    }
    if chars_eq(&p, &at_game_chars()) {
        return Some(String::new());
    }
    if chars_eq(&p, &at_self_chars()) {
        return Some(string_from_chars(&src));
    }
    let mut parts;
    let rest_start: usize;
    if matches_at(&p, 0, &self_slash) {
        parts = split_slash_chars(&src);
        rest_start = 6;
    } else if matches_at(&p, 0, &vec!['.', '/']) {
        parts = split_slash_chars(&src);
        proof {
            lemma_join_split(src@);
        }
        parts.pop();
        assert(views(parts@) =~= split_slash(src@).drop_last());
        rest_start = 2;
    } else if matches_at(&p, 0, &vec!['.', '.', '/']) {
        parts = split_slash_chars(&src);
        proof {
            lemma_join_split(src@);
        }
        parts.pop();
        assert(views(parts@) =~= split_slash(src@).drop_last());
        if parts.len() == 0 {
            return None;
        }
        parts.pop();
        assert(views(parts@) =~= split_slash(src@).drop_last().drop_last());
        rest_start = 3;
    } else {
        return Some(string_from_chars(&p));
    }
    let rest = chars_from(&p, rest_start);
    let segs = split_slash_chars(&rest);
    let ghost sv = views(segs@);
    let ghost start = views(parts@);
    assert(sv.skip(0) =~= sv);
    assert(resolve_spec(path@, source_abs@) == resolve_with(start, rest@));
    let mut i: usize = 0;
    while i < segs.len()
        invariant
            sv == views(segs@),
            sv == split_slash(rest@),
            resolve_spec(path@, source_abs@) == resolve_with(start, rest@),
            i <= segs.len(),
            resolve_segments(start, sv) == resolve_segments(views(parts@), sv.skip(i as int)),
        decreases segs.len() - i,
    {
        let ghost before = views(parts@);
        assert(sv.skip(i as int).skip(1) =~= sv.skip(i + 1));
        let seg = &segs[i];
        let dd = vec!['.', '.'];
        assert(dd@ =~= dot_dot());
        assert(seg@ == sv[i as int]);
        assert(sv.skip(i as int)[0] == sv[i as int]);
        if chars_eq(seg, &dd) {
            if parts.len() == 0 {
                assert(resolve_segments(views(parts@), sv.skip(i as int)) is None);
                assert(resolve_segments(start, sv) is None);
                assert(resolve_with(start, rest@) is None);
                return None;
            }
            parts.pop();
            assert(views(parts@) =~= before.drop_last());
        } else if seg.len() > 0 {
            let copy = chars_from(seg, 0);
            assert(copy@ =~= seg@);
            parts.push(copy);
            assert(views(parts@) =~= before.push(sv[i as int]));
        }
        i += 1;
    }
    assert(sv.skip(0) =~= sv);
    let joined = join_slash_range(&parts, 0, parts.len());
    assert(views(parts@).subrange(0, parts@.len() as int) =~= views(parts@));
    Some(string_from_chars(&joined))
}

} // verus!
