//! Character-level helpers shared by the string-processing modules.
//!
//! Strings are processed as vectors of `char`; their views are the same
//! `Seq<char>` that vstd gives `str` and `String`.

use vstd::prelude::*;

verus! {

/// Collects the characters of a string slice into a vector.
pub fn chars_of(s: &str) -> (res: Vec<char>)
    ensures
        res@ == s@,
{
    let mut res: Vec<char> = Vec::new();
    for c in it: s.chars()
        invariant
            res@ == it.seq().take(it.index() as int),
    {
        res.push(c);
    }
    res
}

/// Appends one character to a `String` (`String::push`).
#[verifier::external_body]
pub(crate) fn push_char(s: &mut String, c: char)
    ensures
        final(s)@ == old(s)@.push(c),
{
    s.push(c);
}

/// Builds a `String` holding exactly the given characters.
pub fn string_from_chars(v: &Vec<char>) -> (res: String)
    ensures
        res@ == v@,
{
    let mut res = String::new();
    let mut i: usize = 0;
    while i < v.len()
        invariant
            i <= v.len(),
            res@ == v@.take(i as int),
        decreases v.len() - i,
    {
        push_char(&mut res, v[i]);
        i += 1;
        assert(v@.take(i as int) =~= v@.take(i - 1).push(v@[i - 1]));
    }
    assert(v@.take(v@.len() as int) =~= v@);
    res
}

/// Appends all characters of `v` to the string `out`.
pub fn append_chars(out: &mut String, v: &Vec<char>)
    ensures
        final(out)@ == old(out)@ + v@,
{
    let mut i: usize = 0;
    while i < v.len()
        invariant
            i <= v.len(),
            out@ == old(out)@ + v@.take(i as int),
        decreases v.len() - i,
    {
        push_char(out, v[i]);
        i += 1;
        assert(v@.take(i as int) =~= v@.take(i - 1).push(v@[i - 1]));
    }
    assert(v@.take(v@.len() as int) =~= v@);
}

/// Appends all characters of `src` to `out`.
pub fn push_all(out: &mut Vec<char>, src: &Vec<char>)
    ensures
        final(out)@ == old(out)@ + src@,
{
    let mut i: usize = 0;
    while i < src.len()
        invariant
            i <= src.len(),
            out@ == old(out)@ + src@.take(i as int),
        decreases src.len() - i,
    {
        out.push(src[i]);
        i += 1;
        assert(src@.take(i as int) =~= src@.take(i - 1).push(src@[i - 1]));
    }
    assert(src@.take(src@.len() as int) =~= src@);
}

/// Appends all characters of a string slice to `out`.
pub fn push_str(out: &mut Vec<char>, s: &str)
    ensures
        final(out)@ == old(out)@ + s@,
{
    let v = chars_of(s);
    push_all(out, &v);
}

/// `n` copies of the character `c`.
pub open spec fn repeat_char(c: char, n: nat) -> Seq<char> {
    Seq::new(n, |_i: int| c)
}

/// `n` copies of the sequence `s`, concatenated.
pub open spec fn repeat_seq(s: Seq<char>, n: nat) -> Seq<char>
    decreases n,
{
    if n == 0 {
        Seq::empty()
    } else {
        repeat_seq(s, (n - 1) as nat) + s
    }
}

pub proof fn lemma_repeat_front(t: Seq<char>, n: nat)
    ensures
        repeat_seq(t, n + 1) == t + repeat_seq(t, n),
    decreases n,
{
    if n == 0 {
        assert(repeat_seq(t, 1) == repeat_seq(t, 0) + t);
        assert(repeat_seq(t, 0) + t =~= t + repeat_seq(t, 0));
    } else {
        lemma_repeat_front(t, (n - 1) as nat);
        assert(repeat_seq(t, n + 1) == repeat_seq(t, n) + t);
        assert(repeat_seq(t, n) == repeat_seq(t, (n - 1) as nat) + t);
        assert(t + repeat_seq(t, n) =~= t + repeat_seq(t, (n - 1) as nat) + t);
    }
}

/// Whether `s` begins with `p`.
pub open spec fn has_prefix(s: Seq<char>, p: Seq<char>) -> bool {
    p.len() <= s.len() && s.subrange(0, p.len() as int) == p
}

/// Whether `s` ends with `p`.
pub open spec fn has_suffix(s: Seq<char>, p: Seq<char>) -> bool {
    p.len() <= s.len() && s.subrange(s.len() - p.len(), s.len() as int) == p
}

/// Whether the characters `v[pos..pos + p.len()]` are exactly `p`.
pub fn matches_at(v: &Vec<char>, pos: usize, p: &Vec<char>) -> (res: bool)
    requires
        pos <= v.len(),
    ensures
        res == (pos + p.len() <= v.len() && v@.subrange(pos as int, pos + p.len()) == p@),
{
    if p.len() > v.len() - pos {
        return false;
    }
    let mut i: usize = 0;
    while i < p.len()
        invariant
            pos + p.len() <= v.len(),
            i <= p.len(),
            forall|k: int| 0 <= k < i ==> v@[pos + k] == p@[k],
        decreases p.len() - i,
    {
        if v[pos + i] != p[i] {
            assert(v@.subrange(pos as int, pos + p.len())[i as int] != p@[i as int]);
            return false;
        }
        i += 1;
    }
    assert(v@.subrange(pos as int, pos + p.len()) =~= p@);
    true
}

/// Whether two character vectors hold the same characters.
pub fn chars_eq(a: &Vec<char>, b: &Vec<char>) -> (res: bool)
    ensures
        res == (a@ == b@),
{
    if a.len() != b.len() {
        return false;
    }
    let r = matches_at(a, 0, b);
    assert(a@.subrange(0, b@.len() as int) =~= a@);
    r
}

/// Whether two string slices hold the same characters.
pub fn str_eq(a: &str, b: &str) -> (res: bool)
    ensures
        res == (a@ == b@),
{
    let va = chars_of(a);
    let vb = chars_of(b);
    chars_eq(&va, &vb)
}

/// `s` with every occurrence of `pat` replaced by `rep`, scanning from the
/// left and never matching inside a replaced occurrence (what `str::replace`
/// does for a non-empty pattern).
pub open spec fn replace_spec(s: Seq<char>, pat: Seq<char>, rep: Seq<char>) -> Seq<char>
    decreases s.len(),
{
    if s.len() == 0 {
        Seq::empty()
    } else if pat.len() > 0 && has_prefix(s, pat) {
        rep + replace_spec(s.skip(pat.len() as int), pat, rep)
    } else {
        seq![s[0]] + replace_spec(s.skip(1), pat, rep)
    }
}

/// Replaces every occurrence of `pat` in `s` by `rep`.
pub fn replace_all(s: &Vec<char>, pat: &Vec<char>, rep: &Vec<char>) -> (res: Vec<char>)
    requires
        pat.len() > 0,
    ensures
        res@ == replace_spec(s@, pat@, rep@),
{
    let mut out: Vec<char> = Vec::new();
    let mut i: usize = 0;
    assert(s@.skip(0) =~= s@);
    while i < s.len()
        invariant
            i <= s.len(),
            pat.len() > 0,
            out@ + replace_spec(s@.skip(i as int), pat@, rep@) == replace_spec(s@, pat@, rep@),
        decreases s.len() - i,
    {
        let ghost t = s@.skip(i as int);
        if matches_at(s, i, pat) {
            assert(t.subrange(0, pat@.len() as int) =~= s@.subrange(i as int, i + pat@.len()));
            assert(t.skip(pat@.len() as int) =~= s@.skip(i + pat@.len()));
            assert(out@ + rep@ + replace_spec(s@.skip(i + pat@.len()), pat@, rep@) =~= out@ + (rep@ + replace_spec(t.skip(pat@.len() as int), pat@, rep@)));
            push_all(&mut out, rep);
            i = i + pat.len();
        } else {
            assert(pat@.len() <= t.len() ==> t.subrange(0, pat@.len() as int) =~= s@.subrange(i as int, i + pat@.len()));
            assert(t.skip(1) =~= s@.skip(i + 1));
            assert(t[0] == s@[i as int]);
            assert(out@.push(s@[i as int]) + replace_spec(s@.skip(i + 1), pat@, rep@) =~= out@ + (seq![t[0]] + replace_spec(t.skip(1), pat@, rep@)));
            out.push(s[i]);
            i = i + 1;
        }
    }
    assert(s@.skip(s@.len() as int) =~= Seq::<char>::empty());
    assert(out@ + Seq::<char>::empty() =~= out@);
    out
}

/// The decimal digit character for `d` (`d < 10`).
pub open spec fn digit_char(d: nat) -> char {
    if d == 0 {
        '0'
    } else if d == 1 {
        '1'
    } else if d == 2 {
        '2'
    } else if d == 3 {
        '3'
    } else if d == 4 {
        '4'
    } else if d == 5 {
        '5'
    } else if d == 6 {
        '6'
    } else if d == 7 {
        '7'
    } else if d == 8 {
        '8'
    } else {
        '9'
    }
}

/// The decimal representation of `n`, without leading zeros.
pub open spec fn decimal(n: nat) -> Seq<char>
    decreases n,
{
    if n < 10 {
        seq![digit_char(n)]
    } else {
        decimal(n / 10).push(digit_char(n % 10))
    }
}

fn digit(d: u64) -> (c: char)
    requires
        d < 10,
    ensures
        c == digit_char(d as nat),
{
    if d == 0 {
        '0'
    } else if d == 1 {
        '1'
    } else if d == 2 {
        '2'
    } else if d == 3 {
        '3'
    } else if d == 4 {
        '4'
    } else if d == 5 {
        '5'
    } else if d == 6 {
        '6'
    } else if d == 7 {
        '7'
    } else if d == 8 {
        '8'
    } else {
        '9'
    }
}

/// Appends the decimal representation of `n` to `out`.
pub fn push_decimal(out: &mut Vec<char>, n: u64)
    ensures
        final(out)@ == old(out)@ + decimal(n as nat),
    decreases n,
{
    if n >= 10 {
        push_decimal(out, n / 10);
    }
    out.push(digit(n % 10));
    assert(out@ =~= old(out)@ + decimal(n as nat));
}

/// A copy of a string slice as an owned `String`.
pub fn to_owned_string(s: &str) -> (res: String)
    ensures
        res@ == s@,
{
    string_from_chars(&chars_of(s))
}

/// The characters `v[from..]`.
pub fn chars_from(v: &Vec<char>, from: usize) -> (out: Vec<char>)
    requires
        from <= v.len(),
    ensures
        out@ == v@.skip(from as int),
{
    let mut out: Vec<char> = Vec::new();
    let mut i = from;
    while i < v.len()
        invariant
            from <= i <= v.len(),
            out@ == v@.subrange(from as int, i as int),
        decreases v.len() - i,
    {
        out.push(v[i]);
        i += 1;
        assert(out@ =~= v@.subrange(from as int, i as int));
    }
    assert(out@ =~= v@.skip(from as int));
    out
}

/// The pieces of `s` between occurrences of `sep` (`str::split` with a
/// character): one more piece than there are separators.
pub open spec fn split_on(s: Seq<char>, sep: char) -> Seq<Seq<char>>
    decreases s.len(),
{
    if s.len() == 0 {
        seq![Seq::empty()]
    } else {
        let rest = split_on(s.drop_last(), sep);
        if s.last() == sep {
            rest.push(Seq::empty())
        } else {
            rest.update(rest.len() - 1, rest.last().push(s.last()))
        }
    }
}

proof fn lemma_split_on_len(s: Seq<char>, sep: char)
    ensures
        split_on(s, sep).len() >= 1,
    decreases s.len(),
{
    if s.len() > 0 {
        lemma_split_on_len(s.drop_last(), sep);
    }
}

/// Splits `v` at every `sep`.
pub fn split_chars(v: &Vec<char>, sep: char) -> (res: Vec<Vec<char>>)
    ensures
        res@.map_values(|p: Vec<char>| p@) == split_on(v@, sep),
{
    let mut done: Vec<Vec<char>> = Vec::new();
    let mut cur: Vec<char> = Vec::new();
    let mut i: usize = 0;
    while i < v.len()
        invariant
            i <= v.len(),
            split_on(v@.take(i as int), sep) == done@.map_values(|p: Vec<char>| p@).push(cur@),
        decreases v.len() - i,
    {
        let c = v[i];
        let ghost d0 = done@;
        let ghost c0 = cur@;
        assert(v@.take(i + 1).drop_last() =~= v@.take(i as int));
        assert(v@.take(i + 1).last() == c);
        if c == sep {
            done.push(cur);
            cur = Vec::new();
            assert(done@.map_values(|p: Vec<char>| p@) =~= d0.map_values(|p: Vec<char>| p@).push(c0));
        } else {
            cur.push(c);
            assert(d0.map_values(|p: Vec<char>| p@).push(c0).update(d0.len() as int, c0.push(c)) =~= done@.map_values(
                |p: Vec<char>| p@,
            ).push(cur@));
        }
        i += 1;
    }
    assert(v@.take(v@.len() as int) =~= v@);
    let ghost d1 = done@;
    let ghost c1 = cur@;
    done.push(cur);
    assert(done@.map_values(|p: Vec<char>| p@) =~= d1.map_values(|p: Vec<char>| p@).push(c1));
    done
}

/// A line as `str::lines` yields it: without a trailing `\r`.
pub open spec fn strip_cr(line: Seq<char>) -> Seq<char> {
    if line.len() > 0 && line.last() == '\r' {
        line.drop_last()
    } else {
        line
    }
}

/// The lines of `s` as `str::lines` yields them: split at `\n`, a `\r`
/// before the `\n` removed, and no empty last line after a final `\n`.
pub open spec fn lines_spec(s: Seq<char>) -> Seq<Seq<char>> {
    let pieces = split_on(s, '\n');
    let ended = pieces.drop_last().map_values(|p: Seq<char>| strip_cr(p));
    if pieces.last().len() > 0 {
        ended.push(pieces.last())
    } else {
        ended
    }
}

/// The lines of `s`.
pub fn lines_of(s: &str) -> (res: Vec<Vec<char>>)
    ensures
        res@.map_values(|p: Vec<char>| p@) == lines_spec(s@),
{
    let v = chars_of(s);
    let pieces = split_chars(&v, '\n');
    let ghost ps = pieces@.map_values(|p: Vec<char>| p@);
    proof {
        lemma_split_on_len(v@, '\n');
    }
    let mut out: Vec<Vec<char>> = Vec::new();
    let last = pieces.len() - 1;
    let mut k: usize = 0;
    while k < last
        invariant
            k <= last,
            last == pieces@.len() - 1,
            ps == pieces@.map_values(|p: Vec<char>| p@),
            out@.map_values(|p: Vec<char>| p@) == ps.take(k as int).map_values(|p: Seq<char>| strip_cr(p)),
        decreases last - k,
    {
        let piece = &pieces[k];
        let mut line: Vec<char> = Vec::new();
        push_all(&mut line, piece);
        if line.len() > 0 && line[line.len() - 1] == '\r' {
            line.pop();
        }
        assert(line@ =~= strip_cr(ps[k as int]));
        let ghost o0 = out@;
        let ghost l0 = line@;
        out.push(line);
        assert(out@.map_values(|p: Vec<char>| p@) =~= o0.map_values(|p: Vec<char>| p@).push(l0));
        assert(ps.take(k + 1).map_values(|p: Seq<char>| strip_cr(p)) =~= ps.take(k as int).map_values(
            |p: Seq<char>| strip_cr(p),
        ).push(strip_cr(ps[k as int])));
        k += 1;
    }
    assert(ps.take(last as int) =~= ps.drop_last());
    if pieces[last].len() > 0 {
        let mut line: Vec<char> = Vec::new();
        push_all(&mut line, &pieces[last]);
        let ghost o0 = out@;
        out.push(line);
        assert(out@.map_values(|p: Vec<char>| p@) =~= o0.map_values(|p: Vec<char>| p@).push(ps.last()));
    }
    out
}

/// A Unicode `White_Space` character, what `char::is_whitespace` tests.
pub open spec fn is_whitespace_spec(c: char) -> bool {
    let u = c as u32;
    (0x09 <= u && u <= 0x0d) || u == 0x20 || u == 0x85 || u == 0xa0 || u == 0x1680 || (0x2000 <= u && u
        <= 0x200a) || u == 0x2028 || u == 0x2029 || u == 0x202f || u == 0x205f || u == 0x3000
}

fn is_whitespace_char(c: char) -> (res: bool)
    ensures
        res == is_whitespace_spec(c),
{
    let u = c as u32;
    (0x09 <= u && u <= 0x0d) || u == 0x20 || u == 0x85 || u == 0xa0 || u == 0x1680 || (0x2000 <= u && u
        <= 0x200a) || u == 0x2028 || u == 0x2029 || u == 0x202f || u == 0x205f || u == 0x3000
}

/// The maximal runs of non-whitespace characters of `s`, in order
/// (`str::split_whitespace`), built from the front with `cur` pending.
pub open spec fn ws_fields_from(s: Seq<char>, cur: Seq<char>) -> Seq<Seq<char>>
    decreases s.len(),
{
    if s.len() == 0 {
        if cur.len() > 0 {
            seq![cur]
        } else {
            Seq::empty()
        }
    } else if is_whitespace_spec(s[0]) {
        if cur.len() > 0 {
            seq![cur] + ws_fields_from(s.skip(1), Seq::empty())
        } else {
            ws_fields_from(s.skip(1), Seq::empty())
        }
    } else {
        ws_fields_from(s.skip(1), cur.push(s[0]))
    }
}

/// The whitespace-separated fields of `s` (`str::split_whitespace`).
pub open spec fn ws_fields(s: Seq<char>) -> Seq<Seq<char>> {
    ws_fields_from(s, Seq::empty())
}

/// The whitespace-separated fields of `v`.
pub fn split_whitespace_chars(v: &Vec<char>) -> (res: Vec<Vec<char>>)
    ensures
        res@.map_values(|p: Vec<char>| p@) == ws_fields(v@),
{
    let mut done: Vec<Vec<char>> = Vec::new();
    let mut cur: Vec<char> = Vec::new();
    let mut i: usize = 0;
    assert(v@.skip(0) =~= v@);
    while i < v.len()
        invariant
            i <= v.len(),
            ws_fields(v@) == done@.map_values(|p: Vec<char>| p@) + ws_fields_from(v@.skip(i as int), cur@),
        decreases v.len() - i,
    {
        let c = v[i];
        let ghost rest = v@.skip(i as int);
        assert(rest[0] == c);
        assert(rest.skip(1) =~= v@.skip(i + 1));
        if is_whitespace_char(c) {
            if cur.len() > 0 {
                let ghost d0 = done@;
                let ghost c0 = cur@;
                done.push(cur);
                cur = Vec::new();
                assert(done@.map_values(|p: Vec<char>| p@) =~= d0.map_values(|p: Vec<char>| p@).push(c0));
                assert(d0.map_values(|p: Vec<char>| p@) + (seq![c0] + ws_fields_from(v@.skip(i + 1), Seq::empty()))
                    =~= done@.map_values(|p: Vec<char>| p@) + ws_fields_from(v@.skip(i + 1), cur@));
            } else {
                assert(cur@ =~= Seq::<char>::empty());
            }
        } else {
            cur.push(c);
        }
        i += 1;
    }
    assert(v@.skip(v@.len() as int) =~= Seq::<char>::empty());
    if cur.len() > 0 {
        let ghost d0 = done@;
        let ghost c0 = cur@;
        done.push(cur);
        assert(done@.map_values(|p: Vec<char>| p@) =~= d0.map_values(|p: Vec<char>| p@) + seq![c0]);
    } else {
        assert(done@.map_values(|p: Vec<char>| p@) + Seq::<Seq<char>>::empty() =~= done@.map_values(
            |p: Vec<char>| p@,
        ));
    }
    done
}

/// `s` without leading whitespace.
pub open spec fn trim_start_spec(s: Seq<char>) -> Seq<char>
    decreases s.len(),
{
    if s.len() > 0 && is_whitespace_spec(s[0]) {
        trim_start_spec(s.skip(1))
    } else {
        s
    }
}

/// `s` without trailing whitespace.
pub open spec fn trim_end_spec(s: Seq<char>) -> Seq<char>
    decreases s.len(),
{
    if s.len() > 0 && is_whitespace_spec(s.last()) {
        trim_end_spec(s.drop_last())
    } else {
        s
    }
}

/// `s` without leading and trailing whitespace (`str::trim`).
pub open spec fn trim_spec(s: Seq<char>) -> Seq<char> {
    trim_end_spec(trim_start_spec(s))
}

/// `v` without leading and trailing whitespace.
pub fn trim_chars(v: &Vec<char>) -> (res: Vec<char>)
    ensures
        res@ == trim_spec(v@),
{
    let mut a: usize = 0;
    assert(v@.skip(0) =~= v@);
    while a < v.len() && is_whitespace_char(v[a])
        invariant
            a <= v.len(),
            trim_start_spec(v@) == trim_start_spec(v@.skip(a as int)),
        decreases v.len() - a,
    {
        assert(v@.skip(a as int).skip(1) =~= v@.skip(a + 1));
        a += 1;
    }
    let ghost t = v@.skip(a as int);
    assert(trim_start_spec(v@) == t);
    let mut b: usize = v.len();
    assert(t.take(t.len() as int) =~= t);
    while b > a && is_whitespace_char(v[b - 1])
        invariant
            a <= b <= v.len(),
            t == v@.skip(a as int),
            trim_end_spec(t) == trim_end_spec(t.take(b - a)),
        decreases b,
    {
        assert(t.take(b - a).drop_last() =~= t.take(b - 1 - a));
        b -= 1;
    }
    let mut out: Vec<char> = Vec::new();
    let mut i = a;
    while i < b
        invariant
            a <= i <= b <= v.len(),
            out@ == v@.subrange(a as int, i as int),
        decreases b - i,
    {
        out.push(v[i]);
        i += 1;
        assert(out@ =~= v@.subrange(a as int, i as int));
    }
    assert(out@ =~= t.take(b - a));
    out
}

} // verus!
