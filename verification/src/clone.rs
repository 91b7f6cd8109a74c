//! Planning a project cloned from published places: folder names derived
//! from experience and place names, one distinct directory per place, and
//! the project file written for each place.

use std::collections::HashMap;
use vstd::prelude::*;
use crate::text::{chars_eq, chars_of, decimal, push_all, push_decimal, push_str, string_from_chars};
use crate::cli::CloneCommand;

verus! {

// ---------------------------------------------------------------------------
// Sanitising names
// ---------------------------------------------------------------------------

/// An ASCII letter or digit.
pub open spec fn is_ascii_alnum(c: char) -> bool {
    ('0' <= c && c <= '9') || ('a' <= c && c <= 'z') || ('A' <= c && c <= 'Z')
}

/// The ASCII lowercase form of `c`.
pub open spec fn lower_char(c: char) -> char {
    if 'A' <= c && c <= 'Z' {
        ((c as u32) + 32) as char
    } else {
        c
    }
}

/// `s` with ASCII letters lowercased.
pub open spec fn ascii_lower(s: Seq<char>) -> Seq<char> {
    s.map_values(|c: char| lower_char(c))
}

/// The ASCII letters, digits and spaces of `s`, in order.
pub open spec fn keep_alnum_space(s: Seq<char>) -> Seq<char>
    decreases s.len(),
{
    if s.len() == 0 {
        Seq::empty()
    } else {
        keep_alnum_space(s.drop_last()) + if is_ascii_alnum(s.last()) || s.last() == ' ' {
            seq![s.last()]
        } else {
            Seq::<char>::empty()
        }
    }
}

/// Position of the first space in `t`, or its length.
pub open spec fn first_space(t: Seq<char>) -> nat
    decreases t.len(),
{
    if t.len() == 0 || t[0] == ' ' {
        0
    } else {
        1 + first_space(t.skip(1))
    }
}

pub proof fn lemma_first_space_bound(t: Seq<char>)
    ensures
        first_space(t) <= t.len(),
    decreases t.len(),
{
    if t.len() > 0 && t[0] != ' ' {
        lemma_first_space_bound(t.skip(1));
    }
}

/// The maximal runs of non-space characters of `t`, in order.
pub open spec fn words(t: Seq<char>) -> Seq<Seq<char>>
    decreases t.len(),
{
    if t.len() == 0 {
        Seq::empty()
    } else if t[0] == ' ' {
        words(t.skip(1))
    } else {
        let k = first_space(t);
        proof {
            lemma_first_space_bound(t);
        }
        seq![t.take(k as int)] + words(t.skip(k as int))
    }
}

/// The words joined by `-`.
pub open spec fn join_hyphen(ws: Seq<Seq<char>>) -> Seq<char>
    decreases ws.len(),
{
    if ws.len() == 0 {
        Seq::empty()
    } else if ws.len() == 1 {
        ws[0]
    } else {
        join_hyphen(ws.drop_last()) + seq!['-'] + ws.last()
    }
}

/// A word that is `testing` in any letter case.
pub open spec fn is_noise_word(w: Seq<char>) -> bool {
    ascii_lower(w) == seq!['t', 'e', 's', 't', 'i', 'n', 'g']
}

/// The words that are not noise words, in order.
pub open spec fn drop_noise(ws: Seq<Seq<char>>) -> Seq<Seq<char>>
    decreases ws.len(),
{
    if ws.len() == 0 {
        Seq::empty()
    } else {
        drop_noise(ws.drop_last()) + if is_noise_word(ws.last()) {
            Seq::<Seq<char>>::empty()
        } else {
            seq![ws.last()]
        }
    }
}

/// `s` without its `[...]` and `(...)` sections, nested ones included, with
/// `b` brackets and `p` parentheses already open; a closing bracket or
/// parenthesis with none open is kept as a plain character.
pub open spec fn strip_groups(s: Seq<char>, b: nat, p: nat) -> Seq<char>
    decreases s.len(),
{
    if s.len() == 0 {
        Seq::empty()
    } else {
        let c = s[0];
        let rest = s.skip(1);
        if c == '[' {
            strip_groups(rest, b + 1, p)
        } else if c == ']' && b > 0 {
            strip_groups(rest, (b - 1) as nat, p)
        } else if c == '(' {
            strip_groups(rest, b, p + 1)
        } else if c == ')' && p > 0 {
            strip_groups(rest, b, (p - 1) as nat)
        } else if b == 0 && p == 0 {
            seq![c] + strip_groups(rest, b, p)
        } else {
            strip_groups(rest, b, p)
        }
    }
}

/// A place name as a directory name: its ASCII letters, digits and spaces,
/// the words joined by hyphens, lowercased.
pub open spec fn sanitize_place_spec(name: Seq<char>) -> Seq<char> {
    ascii_lower(join_hyphen(words(keep_alnum_space(name))))
}

/// An experience name as a folder name: without bracketed and
/// parenthesized sections, its ASCII letters, digits and spaces, the words
/// other than `testing` joined by hyphens, lowercased.
pub open spec fn sanitize_name_spec(name: Seq<char>) -> Seq<char> {
    ascii_lower(join_hyphen(drop_noise(words(keep_alnum_space(strip_groups(name, 0, 0))))))
}

fn is_ascii_alnum_exec(c: char) -> (res: bool)
    ensures
        res == is_ascii_alnum(c),
{
    ('0' <= c && c <= '9') || ('a' <= c && c <= 'z') || ('A' <= c && c <= 'Z')
}

/// The ASCII letters, digits and spaces of `s`.
fn keep_alnum_space_exec(s: &Vec<char>) -> (res: Vec<char>)
    ensures
        res@ == keep_alnum_space(s@),
{
    let mut out: Vec<char> = Vec::new();
    let mut i: usize = 0;
    while i < s.len()
        invariant
            i <= s.len(),
            out@ == keep_alnum_space(s@.take(i as int)),
        decreases s.len() - i,
    {
        let c = s[i];
        assert(s@.take(i + 1).drop_last() =~= s@.take(i as int));
        if is_ascii_alnum_exec(c) || c == ' ' {
            out.push(c);
        }
        assert(out@ =~= keep_alnum_space(s@.take(i + 1)));
        i += 1;
    }
    assert(s@.take(s@.len() as int) =~= s@);
    out
}

proof fn lemma_first_space_word(w: Seq<char>, r: Seq<char>)
    requires
        forall|k: int| 0 <= k < w.len() ==> w[k] != ' ',
        r.len() == 0 || r[0] == ' ',
    ensures
        first_space(w + r) == w.len(),
    decreases w.len(),
{
    if w.len() > 0 {
        assert((w + r).skip(1) =~= w.skip(1) + r);
        lemma_first_space_word(w.skip(1), r);
    } else {
        assert(w + r =~= r);
    }
}

proof fn lemma_words_word(w: Seq<char>, r: Seq<char>)
    requires
        w.len() > 0,
        forall|k: int| 0 <= k < w.len() ==> w[k] != ' ',
        r.len() == 0 || r[0] == ' ',
    ensures
        words(w + r) == seq![w] + words(r),
{
    lemma_first_space_word(w, r);
    assert((w + r).take(w.len() as int) =~= w);
    assert((w + r).skip(w.len() as int) =~= r);
}

/// The words of `t`.
fn words_exec(t: &Vec<char>) -> (res: Vec<Vec<char>>)
    ensures
        res@.map_values(|w: Vec<char>| w@) == words(t@),
{
    let mut done: Vec<Vec<char>> = Vec::new();
    let mut cur: Vec<char> = Vec::new();
    let mut i: usize = 0;
    assert(t@.skip(0) =~= t@);
    assert(cur@ + t@.skip(0) =~= t@);
    while i < t.len()
        invariant
            i <= t.len(),
            forall|k: int| 0 <= k < cur@.len() ==> cur@[k] != ' ',
            words(t@) == done@.map_values(|w: Vec<char>| w@) + words(cur@ + t@.skip(i as int)),
        decreases t.len() - i,
    {
        let c = t[i];
        let ghost rest = t@.skip(i as int);
        assert(rest[0] == c);
        assert(rest.skip(1) =~= t@.skip(i + 1));
        if c == ' ' {
            if cur.len() > 0 {
                proof {
                    lemma_words_word(cur@, rest);
                }
                let ghost old_done = done@;
                let ghost w = cur@;
                done.push(cur);
                cur = Vec::new();
                assert(done@.map_values(|w: Vec<char>| w@) =~= old_done.map_values(|w: Vec<char>| w@).push(w));
                assert(old_done.map_values(|w: Vec<char>| w@) + (seq![w] + words(rest)) =~= done@.map_values(
                    |w: Vec<char>| w@,
                ) + words(rest));
            } else {
                assert(cur@ + rest =~= rest);
            }
            assert(cur@ + t@.skip(i + 1) =~= t@.skip(i + 1));
        } else {
            assert(cur@ + rest =~= cur@.push(c) + t@.skip(i + 1));
            cur.push(c);
        }
        i += 1;
    }
    proof {
        assert(t@.skip(t@.len() as int) =~= Seq::<char>::empty());
        assert(cur@ + Seq::<char>::empty() =~= cur@);
    }
    let ghost before = done@;
    if cur.len() > 0 {
        proof {
            lemma_words_word(cur@, Seq::<char>::empty());
        }
        let ghost w = cur@;
        done.push(cur);
        assert(done@.map_values(|w: Vec<char>| w@) =~= before.map_values(|w: Vec<char>| w@).push(w));
        assert(before.map_values(|w: Vec<char>| w@) + seq![w] =~= done@.map_values(|w: Vec<char>| w@));
    } else {
        assert(words(cur@) =~= Seq::<Seq<char>>::empty());
        assert(done@.map_values(|w: Vec<char>| w@) + Seq::<Seq<char>>::empty() =~= done@.map_values(
            |w: Vec<char>| w@,
        ));
    }
    done
}

/// The words joined by `-`.
fn join_hyphen_exec(ws: &Vec<Vec<char>>) -> (res: Vec<char>)
    ensures
        res@ == join_hyphen(ws@.map_values(|w: Vec<char>| w@)),
{
    let ghost m = ws@.map_values(|w: Vec<char>| w@);
    let mut out: Vec<char> = Vec::new();
    let mut k: usize = 0;
    while k < ws.len()
        invariant
            k <= ws.len(),
            m == ws@.map_values(|w: Vec<char>| w@),
            out@ == join_hyphen(m.take(k as int)),
        decreases ws.len() - k,
    {
        assert(m.take(k + 1).drop_last() =~= m.take(k as int));
        assert(m.take(k + 1).last() == ws@[k as int]@);
        if k > 0 {
            out.push('-');
        } else {
            assert(m.take(1)[0] == ws@[0]@);
        }
        push_all(&mut out, &ws[k]);
        k += 1;
    }
    assert(m.take(ws@.len() as int) =~= m);
    out
}

/// The words that are not `testing` in any letter case.
fn drop_noise_exec(ws: Vec<Vec<char>>) -> (res: Vec<Vec<char>>)
    ensures
        res@.map_values(|w: Vec<char>| w@) == drop_noise(ws@.map_values(|w: Vec<char>| w@)),
{
    let ghost m = ws@.map_values(|w: Vec<char>| w@);
    let noise: Vec<char> = vec!['t', 'e', 's', 't', 'i', 'n', 'g'];
    let mut out: Vec<Vec<char>> = Vec::new();
    let mut k: usize = 0;
    while k < ws.len()
        invariant
            k <= ws.len(),
            m == ws@.map_values(|w: Vec<char>| w@),
            noise@ == seq!['t', 'e', 's', 't', 'i', 'n', 'g'],
            out@.map_values(|w: Vec<char>| w@) == drop_noise(m.take(k as int)),
        decreases ws.len() - k,
    {
        assert(m.take(k + 1).drop_last() =~= m.take(k as int));
        assert(m.take(k + 1).last() == ws@[k as int]@);
        let lower = ascii_lower_exec(&ws[k]);
        let ghost before = out@;
        if !chars_eq(&lower, &noise) {
            let w = copy_chars(&ws[k]);
            out.push(w);
            assert(out@.map_values(|w: Vec<char>| w@) =~= before.map_values(|w: Vec<char>| w@) + seq![
                ws@[k as int]@,
            ]);
        } else {
            assert(drop_noise(m.take(k + 1)) =~= drop_noise(m.take(k as int)));
        }
        k += 1;
    }
    assert(m.take(ws@.len() as int) =~= m);
    out
}

/// A copy of a character vector.
fn copy_chars(v: &Vec<char>) -> (res: Vec<char>)
    ensures
        res@ == v@,
{
    let mut out: Vec<char> = Vec::new();
    push_all(&mut out, v);
    assert(out@ =~= v@);
    out
}

fn lower_char_exec(c: char) -> (res: char)
    ensures
        res == lower_char(c),
{
    if 'A' <= c && c <= 'Z' {
        let code = ((c as u32) + 32) as u8;
        code as char
    } else {
        c
    }
}

/// `v` with ASCII letters lowercased.
fn ascii_lower_exec(v: &Vec<char>) -> (res: Vec<char>)
    ensures
        res@ == ascii_lower(v@),
{
    let mut out: Vec<char> = Vec::new();
    let mut i: usize = 0;
    while i < v.len()
        invariant
            i <= v.len(),
            out@ == ascii_lower(v@.take(i as int)),
        decreases v.len() - i,
    {
        out.push(lower_char_exec(v[i]));
        i += 1;
        assert(out@ =~= ascii_lower(v@.take(i as int)));
    }
    assert(v@.take(v@.len() as int) =~= v@);
    out
}

/// `s` without its `[...]` and `(...)` sections.
fn strip_groups_exec(s: &Vec<char>) -> (res: Vec<char>)
    ensures
        res@ == strip_groups(s@, 0, 0),
{
    let mut out: Vec<char> = Vec::new();
    let mut bracket_depth: usize = 0;
    let mut paren_depth: usize = 0;
    let mut i: usize = 0;
    assert(s@.skip(0) =~= s@);
    while i < s.len()
        invariant
            i <= s.len(),
            bracket_depth <= i,
            paren_depth <= i,
            out@ + strip_groups(s@.skip(i as int), bracket_depth as nat, paren_depth as nat) == strip_groups(s@, 0, 0),
        decreases s.len() - i,
    {
        let ch = s[i];
        let ghost rest = s@.skip(i as int);
        assert(rest[0] == ch);
        assert(rest.skip(1) =~= s@.skip(i + 1));
        if ch == '[' {
            bracket_depth += 1;
        } else if ch == ']' && bracket_depth > 0 {
            bracket_depth -= 1;
        } else if ch == '(' {
            paren_depth += 1;
        } else if ch == ')' && paren_depth > 0 {
            paren_depth -= 1;
        } else if bracket_depth == 0 && paren_depth == 0 {
            let ghost before = out@;
            out.push(ch);
            assert(before + (seq![ch] + strip_groups(s@.skip(i + 1), 0, 0)) =~= out@ + strip_groups(
                s@.skip(i + 1),
                0,
                0,
            ));
        }
        i += 1;
    }
    assert(s@.skip(s@.len() as int) =~= Seq::<char>::empty());
    assert(out@ + Seq::<char>::empty() =~= out@);
    out
}

/// Sanitizes a Roblox place name into a directory name: keeps ASCII letters,
/// digits and spaces, joins the words with hyphens, lowercases.
pub fn sanitize_place_name(name: &str) -> (res: String)
    ensures
        res@ == sanitize_place_spec(name@),
{
    let kept = keep_alnum_space_exec(&chars_of(name));
    let ws = words_exec(&kept);
    let joined = join_hyphen_exec(&ws);
    let lower = ascii_lower_exec(&joined);
    string_from_chars(&lower)
}

/// Sanitizes a Roblox experience name into a folder name:
///
/// 1. strips `[...]` and `(...)` sections;
/// 2. keeps only ASCII letters, digits and spaces;
/// 3. drops the word `testing` in any letter case;
/// 4. joins the words with hyphens and lowercases.
pub fn sanitize_name(name: &str) -> (res: String)
    ensures
        res@ == sanitize_name_spec(name@),
{
    let stripped = strip_groups_exec(&chars_of(name));
    let kept = keep_alnum_space_exec(&stripped);
    let ws = words_exec(&kept);
    let ws = drop_noise_exec(ws);
    let joined = join_hyphen_exec(&ws);
    let lower = ascii_lower_exec(&joined);
    string_from_chars(&lower)
}

// ---------------------------------------------------------------------------
// One directory per place
// ---------------------------------------------------------------------------

/// A place and the directory (and project file stem) it is cloned into.
#[derive(Debug)]
pub struct PlaceEntry {
    pub place_id: u64,
    pub dir_name: String,
}

/// The fallback directory name of the place at position `i`: `place-<i+1>`.
pub open spec fn fallback_name(i: int) -> Seq<char> {
    seq!['p', 'l', 'a', 'c', 'e', '-'] + decimal((i + 1) as nat)
}

/// The directory name wanted for the place `pid` at position `i`: its
/// sanitized API name when it has one that is not empty, the fallback
/// otherwise.
pub open spec fn base_name(names: Map<u64, String>, pid: u64, i: int) -> Seq<char> {
    if names.contains_key(pid) && sanitize_place_spec(names[pid]@).len() > 0 {
        sanitize_place_spec(names[pid]@)
    } else {
        fallback_name(i)
    }
}

/// `base-n`.
pub open spec fn candidate(base: Seq<char>, n: nat) -> Seq<char> {
    base + seq!['-'] + decimal(n)
}

/// `n >= 2` is the least suffix whose candidate is not taken.
pub open spec fn is_free_suffix(base: Seq<char>, taken: Seq<Seq<char>>, n: nat) -> bool {
    &&& n >= 2
    &&& !taken.contains(candidate(base, n))
    &&& forall|m: nat| 2 <= m < n ==> taken.contains(#[trigger] candidate(base, m))
}

/// `base` itself when it is not taken, otherwise `base-n` for the least
/// `n >= 2` with `base-n` not taken.
pub open spec fn pick_name(base: Seq<char>, taken: Seq<Seq<char>>) -> Seq<char> {
    if !taken.contains(base) {
        base
    } else {
        candidate(base, choose|n: nat| is_free_suffix(base, taken, n))
    }
}

/// The directory names of the first `k` places.
pub open spec fn dir_names(ids: Seq<u64>, names: Map<u64, String>, k: nat) -> Seq<Seq<char>>
    decreases k,
{
    if k == 0 {
        Seq::empty()
    } else {
        let prev = dir_names(ids, names, (k - 1) as nat);
        prev.push(pick_name(base_name(names, ids[k - 1], k - 1), prev))
    }
}

proof fn lemma_decimal_len(n: nat)
    ensures
        n < 10 ==> decimal(n).len() == 1,
        n >= 10 ==> decimal(n).len() >= 2,
    decreases n,
{
    if n >= 10 {
        lemma_decimal_len(n / 10);
    }
}

proof fn lemma_digit_char_injective(a: nat, b: nat)
    requires
        a < 10,
        b < 10,
        crate::text::digit_char(a) == crate::text::digit_char(b),
    ensures
        a == b,
{
}

/// Different numbers have different decimal representations.
proof fn lemma_decimal_injective(a: nat, b: nat)
    requires
        decimal(a) == decimal(b),
    ensures
        a == b,
    decreases a,
{
    lemma_decimal_len(a);
    lemma_decimal_len(b);
    if a < 10 && b < 10 {
        assert(decimal(a) == seq![crate::text::digit_char(a)]);
        assert(decimal(b) == seq![crate::text::digit_char(b)]);
        assert(decimal(a)[0] == crate::text::digit_char(a));
        assert(decimal(b)[0] == crate::text::digit_char(b));
        lemma_digit_char_injective(a, b);
    } else if a >= 10 && b >= 10 {
        let da = decimal(a);
        let db = decimal(b);
        assert(da.last() == db.last());
        assert(da.drop_last() =~= decimal(a / 10));
        assert(db.drop_last() =~= decimal(b / 10));
        lemma_decimal_injective(a / 10, b / 10);
        lemma_digit_char_injective(a % 10, b % 10);
    }
}

proof fn lemma_candidate_injective(base: Seq<char>, m1: nat, m2: nat)
    requires
        candidate(base, m1) == candidate(base, m2),
    ensures
        m1 == m2,
{
    let k: int = base.len() as int + 1;
    assert(candidate(base, m1).skip(k) =~= decimal(m1));
    assert(candidate(base, m2).skip(k) =~= decimal(m2));
    lemma_decimal_injective(m1, m2);
}

/// If the candidates `base-2` to `base-n` are all taken, there are at least
/// `n - 1` taken names.
proof fn lemma_candidates_bound(base: Seq<char>, taken: Seq<Seq<char>>, n: nat)
    requires
        n >= 2,
        forall|m: nat| 2 <= m <= n ==> taken.contains(#[trigger] candidate(base, m)),
    ensures
        n - 1 <= taken.len(),
{
    let dom = vstd::set_lib::set_int_range(2, n as int + 1);
    vstd::set_lib::lemma_int_range(2, n as int + 1);
    let f = |m: int| candidate(base, m as nat);
    assert(vstd::relations::injective_on(f, dom)) by {
        assert forall|a: int, b: int| dom.contains(a) && dom.contains(b) && #[trigger] f(a) == #[trigger] f(b) implies a
            == b by {
            lemma_candidate_injective(base, a as nat, b as nat);
        }
    }
    let img = dom.map(f);
    vstd::set_lib::lemma_map_size(dom, img, f);
    assert(img.subset_of(taken.to_set())) by {
        assert forall|x: Seq<char>| img.contains(x) implies taken.to_set().contains(x) by {
            let a = choose|a: int| dom.contains(a) && f(a) == x;
            assert(taken.contains(candidate(base, a as nat)));
        }
    }
    taken.lemma_cardinality_of_set();
    vstd::set_lib::lemma_len_subset(img, taken.to_set());
}

/// Searching upwards from `m`, past taken candidates, finds a free suffix.
proof fn lemma_free_suffix_from(base: Seq<char>, taken: Seq<Seq<char>>, m: nat)
    requires
        2 <= m,
        forall|k: nat| 2 <= k < m ==> taken.contains(#[trigger] candidate(base, k)),
    ensures
        exists|n: nat| is_free_suffix(base, taken, n),
    decreases taken.len() + 2 - m,
{
    if !taken.contains(candidate(base, m)) {
        assert(is_free_suffix(base, taken, m));
    } else {
        lemma_candidates_bound(base, taken, m);
        lemma_free_suffix_from(base, taken, m + 1);
    }
}

/// The name picked is never one already taken.
pub proof fn lemma_pick_name_fresh(base: Seq<char>, taken: Seq<Seq<char>>)
    ensures
        !taken.contains(pick_name(base, taken)),
{
    if taken.contains(base) {
        lemma_free_suffix_from(base, taken, 2);
    }
}

/// The places get pairwise different directory names.
pub proof fn lemma_dir_names_distinct(ids: Seq<u64>, names: Map<u64, String>, k: nat)
    requires
        k <= ids.len(),
    ensures
        dir_names(ids, names, k).len() == k,
        forall|a: int, b: int|
            0 <= a < b < k ==> #[trigger] dir_names(ids, names, k)[a] != #[trigger] dir_names(ids, names, k)[b],
    decreases k,
{
    if k > 0 {
        let prev = dir_names(ids, names, (k - 1) as nat);
        lemma_dir_names_distinct(ids, names, (k - 1) as nat);
        let base = base_name(names, ids[k - 1], k - 1);
        lemma_pick_name_fresh(base, prev);
        let cur = dir_names(ids, names, k);
        assert forall|a: int, b: int| 0 <= a < b < k implies #[trigger] cur[a] != #[trigger] cur[b] by {
            if b == k - 1 {
                assert(prev[a] == cur[a]);
                assert(prev.contains(cur[a]));
            } else {
                assert(prev[a] != prev[b]);
            }
        }
    }
}

/// Whether `name` is among `taken`.
fn contains_name(taken: &Vec<String>, name: &Vec<char>) -> (res: bool)
    ensures
        res == taken@.map_values(|s: String| s@).contains(name@),
{
    let ghost m = taken@.map_values(|s: String| s@);
    let mut i: usize = 0;
    while i < taken.len()
        invariant
            i <= taken.len(),
            m == taken@.map_values(|s: String| s@),
            forall|k: int| 0 <= k < i ==> m[k] != name@,
        decreases taken.len() - i,
    {
        if chars_eq(&chars_of(taken[i].as_str()), name) {
            assert(m[i as int] == name@);
            return true;
        }
        i += 1;
    }
    false
}

/// The directory name for the place at position `i` given the names
/// already taken.
fn pick_dir_name(base: &Vec<char>, taken: &Vec<String>) -> (res: Vec<char>)
    requires
        taken@.len() < 0xFFFF_FFF0,
    ensures
        res@ == pick_name(base@, taken@.map_values(|s: String| s@)),
{
    let ghost t = taken@.map_values(|s: String| s@);
    if !contains_name(taken, base) {
        let mut out: Vec<char> = Vec::new();
        push_all(&mut out, base);
        assert(out@ =~= base@);
        return out;
    }
    let mut n: u32 = 2;
    loop
        invariant
            2 <= n <= taken@.len() + 2,
            taken@.len() < 0xFFFF_FFF0,
            t == taken@.map_values(|s: String| s@),
            t.contains(base@),
            forall|m: nat| 2 <= m < n ==> t.contains(#[trigger] candidate(base@, m)),
        decreases taken@.len() + 2 - n,
    {
        let mut cand: Vec<char> = Vec::new();
        push_all(&mut cand, base);
        cand.push('-');
        push_decimal(&mut cand, n as u64);
        assert(cand@ =~= candidate(base@, n as nat));
        if !contains_name(taken, &cand) {
            proof {
                assert(is_free_suffix(base@, t, n as nat));
                assert forall|x: nat| #[trigger] is_free_suffix(base@, t, x) implies x == n by {
                    if x < n {
                        assert(t.contains(candidate(base@, x)));
                    } else if x > n {
                        assert(t.contains(candidate(base@, n as nat)));
                    }
                }
            }
            return cand;
        }
        proof {
            lemma_candidates_bound(base@, t, n as nat);
        }
        n += 1;
    }
}

/// The directory name each place is cloned into, in the order of the ids:
/// the sanitized API name of the place (`place-<position>` when it has no
/// usable name), made unique with the least suffix `-2`, `-3`, ... not yet
/// used by an earlier place.
pub fn build_place_entries(place_ids: &[u64], names: &HashMap<u64, String>) -> (res: Vec<PlaceEntry>)
    requires
        place_ids@.len() < 0xFFFF_FFF0,
    ensures
        res@.len() == place_ids@.len(),
        forall|i: int| 0 <= i < res@.len() ==> (#[trigger] res@[i]).place_id == place_ids@[i],
        res@.map_values(|e: PlaceEntry| e.dir_name@) == dir_names(place_ids@, names@, place_ids@.len()),
        forall|a: int, b: int|
            0 <= a < b < res@.len() ==> (#[trigger] res@[a]).dir_name@ != (#[trigger] res@[b]).dir_name@,
{
    broadcast use vstd::std_specs::hash::group_hash_axioms;
    let mut entries: Vec<PlaceEntry> = Vec::new();
    let mut taken: Vec<String> = Vec::new();
    let mut i: usize = 0;
    while i < place_ids.len()
        invariant
            i <= place_ids@.len(),
            place_ids@.len() < 0xFFFF_FFF0,
            entries@.len() == i,
            taken@.len() == i,
            forall|k: int| 0 <= k < i ==> (#[trigger] entries@[k]).place_id == place_ids@[k],
            entries@.map_values(|e: PlaceEntry| e.dir_name@) == dir_names(place_ids@, names@, i as nat),
            taken@.map_values(|s: String| s@) == dir_names(place_ids@, names@, i as nat),
        decreases place_ids@.len() - i,
    {
        let pid = place_ids[i];
        let mut fallback: Vec<char> = vec!['p', 'l', 'a', 'c', 'e', '-'];
        push_decimal(&mut fallback, (i + 1) as u64);
        let base: Vec<char> = match names.get(&pid) {
            Some(api_name) => {
                let sanitized = chars_of(sanitize_place_name(api_name.as_str()).as_str());
                if sanitized.len() == 0 {
                    fallback
                } else {
                    sanitized
                }
            },
            None => fallback,
        };
        assert(base@ == base_name(names@, pid, i as int));
        let dir = pick_dir_name(&base, &taken);
        let ghost prev = dir_names(place_ids@, names@, i as nat);
        assert(dir_names(place_ids@, names@, (i + 1) as nat) == prev.push(dir@));
        let ghost e0 = entries@;
        let ghost t0 = taken@;
        taken.push(string_from_chars(&dir));
        entries.push(PlaceEntry { place_id: pid, dir_name: string_from_chars(&dir) });
        assert(taken@.map_values(|s: String| s@) =~= t0.map_values(|s: String| s@).push(dir@));
        assert(entries@.map_values(|e: PlaceEntry| e.dir_name@) =~= e0.map_values(|e: PlaceEntry| e.dir_name@).push(
            dir@,
        ));
        i += 1;
    }
    proof {
        lemma_dir_names_distinct(place_ids@, names@, place_ids@.len());
        let m = entries@.map_values(|e: PlaceEntry| e.dir_name@);
        assert forall|a: int, b: int| 0 <= a < b < entries@.len() implies (#[trigger] entries@[a]).dir_name@ != (
        #[trigger] entries@[b]).dir_name@ by {
            assert(m[a] != m[b]);
        }
    }
    entries
}

// ---------------------------------------------------------------------------
// Project files and checks
// ---------------------------------------------------------------------------

/// The project file of a cloned place: named after its directory, serving
/// its place id, syncing scripts only, ignoring animation saves, and with
/// the directory as the data model's path.
pub open spec fn project_json5_spec(name: Seq<char>, place_id: u64) -> Seq<char> {
    "{\n\tname: \""@ + name + "\",\n\tservePlaceIds: ["@ + decimal(place_id as nat)
        + "],\n\tsyncScriptsOnly: true,\n\tglobIgnorePaths: [\""@ + name
        + "/ServerStorage/RBX_ANIMSAVES/**\", \""@ + name
        + "/ServerStorage/MoonAnimator2Saves/**\"],\n\tsyncbackRules: {\n\t\tignoreTrees: [\"ServerStorage/RBX_ANIMSAVES/**\", \"ServerStorage/MoonAnimator2Saves/**\"],\n\t},\n\ttree: {\n\t\t$className: \"DataModel\",\n\t\t$path: \""@
        + name + "\"\n\t}\n}\n"@
}

/// The JSON5 project file for one place of a multi-place clone.
pub fn generate_project_json5(entry: &PlaceEntry) -> (res: String)
    ensures
        res@ == project_json5_spec(entry.dir_name@, entry.place_id),
{
    let name = chars_of(entry.dir_name.as_str());
    let mut out: Vec<char> = Vec::new();
    push_str(&mut out, "{\n\tname: \"");
    push_all(&mut out, &name);
    push_str(&mut out, "\",\n\tservePlaceIds: [");
    push_decimal(&mut out, entry.place_id);
    push_str(&mut out, "],\n\tsyncScriptsOnly: true,\n\tglobIgnorePaths: [\"");
    push_all(&mut out, &name);
    push_str(&mut out, "/ServerStorage/RBX_ANIMSAVES/**\", \"");
    push_all(&mut out, &name);
    push_str(
        &mut out,
        "/ServerStorage/MoonAnimator2Saves/**\"],\n\tsyncbackRules: {\n\t\tignoreTrees: [\"ServerStorage/RBX_ANIMSAVES/**\", \"ServerStorage/MoonAnimator2Saves/**\"],\n\t},\n\ttree: {\n\t\t$className: \"DataModel\",\n\t\t$path: \"",
    );
    push_all(&mut out, &name);
    push_str(&mut out, "\"\n\t}\n}\n");
    string_from_chars(&out)
}

/// The position of the first universe id that differs from the first one,
/// if any: all places of a multi-place clone must share one universe.
pub fn first_universe_mismatch(universe_ids: &[u64]) -> (res: Option<usize>)
    requires
        universe_ids@.len() > 0,
    ensures
        match res {
            None => forall|i: int| 0 <= i < universe_ids@.len() ==> #[trigger] universe_ids@[i] == universe_ids@[0],
            Some(i) => i < universe_ids@.len() && universe_ids@[i as int] != universe_ids@[0] && forall|k: int|
                0 <= k < i ==> #[trigger] universe_ids@[k] == universe_ids@[0],
        },
{
    let first = universe_ids[0];
    let mut i: usize = 0;
    while i < universe_ids.len()
        invariant
            i <= universe_ids@.len(),
            first == universe_ids@[0],
            forall|k: int| 0 <= k < i ==> #[trigger] universe_ids@[k] == first,
        decreases universe_ids@.len() - i,
    {
        if universe_ids[i] != first {
            return Some(i);
        }
        i += 1;
    }
    None
}

/// The message given when place `place_ids[i]` lies in another universe
/// than the first place.
pub open spec fn universe_mismatch_message(place_ids: Seq<u64>, universe_ids: Seq<u64>, i: int) -> Seq<char> {
    "Place "@ + decimal(place_ids[i] as nat) + " belongs to universe "@ + decimal(universe_ids[i] as nat)
        + " but place "@ + decimal(place_ids[0] as nat) + " belongs to universe "@ + decimal(universe_ids[0] as nat)
        + ". All place IDs must be from the same experience."@
}

/// Checks that all places of a multi-place clone share the first place's
/// universe (`universe_ids[i]` is the universe of `place_ids[i]`); fails
/// naming the first place that does not.
pub fn check_same_universe(place_ids: &[u64], universe_ids: &[u64]) -> (res: Result<(), String>)
    requires
        universe_ids@.len() > 0,
        place_ids@.len() == universe_ids@.len(),
    ensures
        match res {
            Ok(()) => forall|i: int| 0 <= i < universe_ids@.len() ==> #[trigger] universe_ids@[i] == universe_ids@[0],
            Err(m) => exists|i: int|
                0 <= i < universe_ids@.len() && #[trigger] universe_ids@[i] != universe_ids@[0] && (forall|k: int|
                    0 <= k < i ==> #[trigger] universe_ids@[k] == universe_ids@[0]) && m@ == universe_mismatch_message(
                    place_ids@,
                    universe_ids@,
                    i,
                ),
        },
{
    match first_universe_mismatch(universe_ids) {
        None => Ok(()),
        Some(i) => {
            let mut v: Vec<char> = Vec::new();
            push_str(&mut v, "Place ");
            push_decimal(&mut v, place_ids[i]);
            push_str(&mut v, " belongs to universe ");
            push_decimal(&mut v, universe_ids[i]);
            push_str(&mut v, " but place ");
            push_decimal(&mut v, place_ids[0]);
            push_str(&mut v, " belongs to universe ");
            push_decimal(&mut v, universe_ids[0]);
            push_str(&mut v, ". All place IDs must be from the same experience.");
            let m = string_from_chars(&v);
            assert(m@ == universe_mismatch_message(place_ids@, universe_ids@, i as int));
            Err(m)
        },
    }
}

/// The message given when nothing of an experience name is left to name a
/// folder by.
pub open spec fn no_folder_message(name: Seq<char>) -> Seq<char> {
    "Could not derive a folder name from experience '"@ + name + "'. Use --path to specify one manually."@
}

/// The message given when the folder derived from an experience name
/// already exists.
pub open spec fn folder_exists_message(folder: Seq<char>) -> Seq<char> {
    "Directory '"@ + folder + "' already exists. Remove it or use --path to specify a different location."@
}

/// The folder that a clone without `--path` goes into, for the experience
/// named `name`: its sanitized name. `taken` tells whether a directory of
/// that name (`sanitize_name(name)`) already exists. Fails when the
/// sanitized name is empty, or else when it is taken.
pub fn experience_folder(name: &str, taken: bool) -> (res: Result<String, String>)
    ensures
        sanitize_name_spec(name@).len() == 0 ==> (res is Err && res->Err_0@ == no_folder_message(name@)),
        sanitize_name_spec(name@).len() > 0 && taken ==> (res is Err && res->Err_0@ == folder_exists_message(
            sanitize_name_spec(name@),
        )),
        sanitize_name_spec(name@).len() > 0 && !taken ==> (res is Ok && res->Ok_0@ == sanitize_name_spec(name@)),
{
    let folder = sanitize_name(name);
    let fc = chars_of(&folder);
    if fc.len() == 0 {
        let mut v: Vec<char> = Vec::new();
        push_str(&mut v, "Could not derive a folder name from experience '");
        push_str(&mut v, name);
        push_str(&mut v, "'. Use --path to specify one manually.");
        return Err(string_from_chars(&v));
    }
    if taken {
        let mut v: Vec<char> = Vec::new();
        push_str(&mut v, "Directory '");
        push_all(&mut v, &fc);
        push_str(&mut v, "' already exists. Remove it or use --path to specify a different location.");
        return Err(string_from_chars(&v));
    }
    Ok(folder)
}

/// The message given when a multi-place clone's target directory holds
/// files.
pub open spec fn dir_not_empty_message(path: Seq<char>) -> Seq<char> {
    "Directory '"@ + path + "' is not empty. Please use an empty directory."@
}

/// Checks the target directory of a multi-place clone: it may be missing
/// or empty, but not hold anything (`present` and `empty` describe the
/// directory at `path`).
pub fn check_target_dir(path: &str, present: bool, empty: bool) -> (res: Result<(), String>)
    ensures
        match res {
            Ok(()) => !present || empty,
            Err(m) => present && !empty && m@ == dir_not_empty_message(path@),
        },
{
    if present && !empty {
        let mut v: Vec<char> = Vec::new();
        push_str(&mut v, "Directory '");
        push_str(&mut v, path);
        push_str(&mut v, "' is not empty. Please use an empty directory.");
        Err(string_from_chars(&v))
    } else {
        Ok(())
    }
}

/// The checks a multi-place clone makes before it downloads anything or
/// creates a directory, in order: all places share the first place's
/// universe (`universe_ids[i]` is the universe of `place_ids[i]`), then the
/// target directory `target` is missing or empty (`present` and `empty`
/// describe it). Fails with the first check's message that does not pass.
pub fn check_multi_clone(
    place_ids: &[u64],
    universe_ids: &[u64],
    target: &str,
    present: bool,
    empty: bool,
) -> (res: Result<(), String>)
    requires
        universe_ids@.len() > 0,
        place_ids@.len() == universe_ids@.len(),
    ensures
        res is Ok <==> ((forall|i: int| 0 <= i < universe_ids@.len() ==> #[trigger] universe_ids@[i] == universe_ids@[0])
            && (!present || empty)),
        res matches Err(m) ==> if (forall|i: int| 0 <= i < universe_ids@.len() ==> #[trigger] universe_ids@[i] == universe_ids@[0]) {
            m@ == dir_not_empty_message(target@)
        } else {
            exists|i: int|
                0 <= i < universe_ids@.len() && #[trigger] universe_ids@[i] != universe_ids@[0] && (forall|k: int|
                    0 <= k < i ==> #[trigger] universe_ids@[k] == universe_ids@[0]) && m@ == universe_mismatch_message(
                    place_ids@,
                    universe_ids@,
                    i,
                )
        },
{
    match check_same_universe(place_ids, universe_ids) {
        Err(m) => Err(m),
        Ok(()) => check_target_dir(target, present, empty),
    }
}

/// The name of the project file of a place in a multi-place project.
pub fn project_file_name(dir_name: &str) -> (r: String)
    ensures
        r@ == dir_name@ + ".project.json5"@,
{
    let mut v = chars_of(dir_name);
    push_str(&mut v, ".project.json5");
    string_from_chars(&v)
}

/// How a clone proceeds.
#[derive(Debug, Clone, Copy, PartialEq, Eq, Structural)]
pub enum ClonePlan {
    /// One place: initialise a project and sync the place back into it.
    Single { place_id: u64 },
    /// Several places of one experience: a project file and a directory per
    /// place.
    Multi,
}

impl CloneCommand {
    /// Decides how the clone runs: a single place is cloned on its own,
    /// several places into a multi-place project.
    pub fn run(&self) -> (r: ClonePlan)
        requires
            self.placeids@.len() > 0,
        ensures
            self.placeids@.len() == 1 ==> r == (ClonePlan::Single { place_id: self.placeids@[0] }),
            self.placeids@.len() > 1 ==> r == ClonePlan::Multi,
    {
        if self.placeids.len() == 1 {
            ClonePlan::Single { place_id: self.placeids[0] }
        } else {
            ClonePlan::Multi
        }
    }
}

/// Only the word `testing`, in any letter case, is dropped from a folder
/// name: after the words `ws`, a further word `w` is dropped when its
/// lowercase form is `testing` and kept otherwise; no words give no words.
pub proof fn lemma_only_testing_is_dropped(ws: Seq<Seq<char>>, w: Seq<char>)
    ensures
        drop_noise(Seq::<Seq<char>>::empty()) == Seq::<Seq<char>>::empty(),
        ascii_lower(w) == seq!['t', 'e', 's', 't', 'i', 'n', 'g'] ==> drop_noise(ws.push(w)) == drop_noise(ws),
        ascii_lower(w) != seq!['t', 'e', 's', 't', 'i', 'n', 'g'] ==> drop_noise(ws.push(w)) == drop_noise(ws).push(w),
{
    assert(ws.push(w).drop_last() =~= ws);
    assert(ws.push(w).last() == w);
    assert(drop_noise(ws) + Seq::<Seq<char>>::empty() =~= drop_noise(ws));
    assert(drop_noise(ws) + seq![w] =~= drop_noise(ws).push(w));
}

/// Every word that is not `testing` in some letter case survives, in order:
/// the words kept from `ws` are exactly those words, each once, in their
/// order.
pub proof fn lemma_kept_words(ws: Seq<Seq<char>>)
    ensures
        drop_noise(ws) == ws.filter(|w: Seq<char>| ascii_lower(w) != seq!['t', 'e', 's', 't', 'i', 'n', 'g']),
    decreases ws.len(),
{
    let keep = |w: Seq<char>| ascii_lower(w) != seq!['t', 'e', 's', 't', 'i', 'n', 'g'];
    if ws.len() == 0 {
        assert(ws.filter(keep) =~= Seq::<Seq<char>>::empty());
    } else {
        lemma_kept_words(ws.drop_last());
        lemma_only_testing_is_dropped(ws.drop_last(), ws.last());
        assert(ws.drop_last().push(ws.last()) =~= ws);
        ws.drop_last().lemma_filter_push(ws.last(), keep);
    }
}

} // verus!
