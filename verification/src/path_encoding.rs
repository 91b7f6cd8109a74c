//! Encoding and decoding of characters that are problematic in file names.
//!
//! Windows-invalid characters `< > : " / \ | ? *` and periods are written as
//! `%NAME%` patterns (for example `<` becomes `%LT%` and `.` becomes `%DOT%`),
//! a literal `%` is escaped as `%%`, and leading and trailing spaces become
//! `%SPACE%`. Decoding reverses the encoding: see
//! [`lemma_decode_inverts_encode`].

use vstd::prelude::*;
use crate::text::{chars_of, has_prefix, has_suffix, matches_at, lemma_repeat_front, push_all, repeat_char, repeat_seq, string_from_chars};

verus! {

// ---------------------------------------------------------------------------
// Specification
// ---------------------------------------------------------------------------

/// The token that stands for one leading or trailing space.
pub open spec fn space_token() -> Seq<char> {
    seq!['%', 'S', 'P', 'A', 'C', 'E', '%']
}

/// The pattern name of a character that is encoded as `%NAME%`; empty for
/// every other character.
pub open spec fn pattern_name(c: char) -> Seq<char> {
    if c == '.' {
        seq!['D', 'O', 'T']
    } else if c == '<' {
        seq!['L', 'T']
    } else if c == '>' {
        seq!['G', 'T']
    } else if c == ':' {
        seq!['C', 'O', 'L', 'O', 'N']
    } else if c == '"' {
        seq!['Q', 'U', 'O', 'T', 'E']
    } else if c == '/' {
        seq!['S', 'L', 'A', 'S', 'H']
    } else if c == '\\' {
        seq!['B', 'A', 'C', 'K', 'S', 'L', 'A', 'S', 'H']
    } else if c == '|' {
        seq!['P', 'I', 'P', 'E']
    } else if c == '?' {
        seq!['Q', 'U', 'E', 'S', 'T', 'I', 'O', 'N']
    } else if c == '*' {
        seq!['S', 'T', 'A', 'R']
    } else {
        seq![]
    }
}

/// Whether `c` is one of the characters encoded as a `%NAME%` pattern.
pub open spec fn is_special(c: char) -> bool {
    c == '.' || c == '<' || c == '>' || c == ':' || c == '"' || c == '/' || c == '\\' || c
        == '|' || c == '?' || c == '*'
}

/// The character that a pattern name stands for, if any.
pub open spec fn pattern_char(name: Seq<char>) -> Option<char> {
    if name == seq!['D', 'O', 'T'] {
        Some('.')
    } else if name == seq!['L', 'T'] {
        Some('<')
    } else if name == seq!['G', 'T'] {
        Some('>')
    } else if name == seq!['C', 'O', 'L', 'O', 'N'] {
        Some(':')
    } else if name == seq!['Q', 'U', 'O', 'T', 'E'] {
        Some('"')
    } else if name == seq!['S', 'L', 'A', 'S', 'H'] {
        Some('/')
    } else if name == seq!['B', 'A', 'C', 'K', 'S', 'L', 'A', 'S', 'H'] {
        Some('\\')
    } else if name == seq!['P', 'I', 'P', 'E'] {
        Some('|')
    } else if name == seq!['Q', 'U', 'E', 'S', 'T', 'I', 'O', 'N'] {
        Some('?')
    } else if name == seq!['S', 'T', 'A', 'R'] {
        Some('*')
    } else {
        None
    }
}

/// The encoding of a single character of the middle part of a name.
pub open spec fn encode_char(c: char) -> Seq<char> {
    if c == '%' {
        seq!['%', '%']
    } else if is_special(c) {
        seq!['%'] + pattern_name(c) + seq!['%']
    } else {
        seq![c]
    }
}

/// The encoding of a sequence of characters, character by character.
pub open spec fn encode_chars(s: Seq<char>) -> Seq<char>
    decreases s.len(),
{
    if s.len() == 0 {
        seq![]
    } else {
        encode_char(s[0]) + encode_chars(s.skip(1))
    }
}

/// Index of the first non-space character at or after `i` (or the length).
pub open spec fn first_non_space(s: Seq<char>, i: int) -> int
    decreases s.len() - i,
{
    if i < 0 || i >= s.len() {
        s.len() as int
    } else if s[i] == ' ' {
        first_non_space(s, i + 1)
    } else {
        i
    }
}

/// One past the last non-space character before `j` (or 0).
pub open spec fn end_non_space(s: Seq<char>, j: int) -> int
    decreases j,
{
    if j <= 0 || j > s.len() {
        0
    } else if s[j - 1] == ' ' {
        end_non_space(s, j - 1)
    } else {
        j
    }
}

/// A non-empty name made only of spaces.
pub open spec fn is_blank_nonempty(s: Seq<char>) -> bool {
    s.len() > 0 && forall|i: int| 0 <= i < s.len() ==> s[i] == ' '
}

/// Where the trailing spaces of `s` begin: after its last non-space
/// character, and never before the end of its leading spaces (so that a
/// name made only of spaces has all of them leading).
pub open spec fn trailing_start(s: Seq<char>) -> int {
    let a = first_non_space(s, 0);
    let e = end_non_space(s, s.len() as int);
    if e < a {
        a
    } else {
        e
    }
}

/// The encoded form of a file name: one `%SPACE%` per leading space, the
/// middle with its special characters encoded, one `%SPACE%` per trailing
/// space.
pub open spec fn encode_spec(s: Seq<char>) -> Seq<char> {
    let a = first_non_space(s, 0);
    let b = trailing_start(s);
    repeat_seq(space_token(), a as nat) + encode_chars(s.subrange(a, b)) + repeat_seq(
        space_token(),
        (s.len() - b) as nat,
    )
}

/// Number of `%SPACE%` tokens at the start of `s`.
pub open spec fn leading_tokens(s: Seq<char>) -> nat
    decreases s.len(),
{
    if has_prefix(s, space_token()) {
        1 + leading_tokens(s.skip(7))
    } else {
        0
    }
}

/// `s` without its leading `%SPACE%` tokens.
pub open spec fn strip_leading_tokens(s: Seq<char>) -> Seq<char>
    decreases s.len(),
{
    if has_prefix(s, space_token()) {
        strip_leading_tokens(s.skip(7))
    } else {
        s
    }
}

/// Number of `%SPACE%` tokens at the end of `s`.
pub open spec fn trailing_tokens(s: Seq<char>) -> nat
    decreases s.len(),
{
    if has_suffix(s, space_token()) {
        1 + trailing_tokens(s.take(s.len() - 7))
    } else {
        0
    }
}

/// `s` without its trailing `%SPACE%` tokens.
pub open spec fn strip_trailing_tokens(s: Seq<char>) -> Seq<char>
    decreases s.len(),
{
    if has_suffix(s, space_token()) {
        strip_trailing_tokens(s.take(s.len() - 7))
    } else {
        s
    }
}

/// Whether `c` is an ASCII uppercase letter.
pub open spec fn is_upper(c: char) -> bool {
    'A' <= c && c <= 'Z'
}

/// End of the run of uppercase letters that starts at `i`.
pub open spec fn upper_run_end(s: Seq<char>, i: int) -> int
    decreases s.len() - i,
{
    if 0 <= i < s.len() && is_upper(s[i]) {
        upper_run_end(s, i + 1)
    } else {
        i
    }
}

/// The `%NAME%` pattern starting at `i`: the character it decodes to and the
/// index of its closing `%`.
pub open spec fn pattern_at(s: Seq<char>, i: int) -> Option<(char, int)> {
    let e = upper_run_end(s, i + 1);
    if 0 <= i < s.len() && s[i] == '%' && e < s.len() && s[e] == '%' {
        match pattern_char(s.subrange(i + 1, e)) {
            Some(c) => Some((c, e)),
            None => None,
        }
    } else {
        None
    }
}

/// Left-to-right decoding of `%%` and `%NAME%` patterns from index `i` on.
pub open spec fn decode_from(s: Seq<char>, i: int) -> Seq<char>
    decreases s.len() - i,
{
    if i < 0 || i >= s.len() {
        seq![]
    } else if s[i] == '%' && i + 1 < s.len() && s[i + 1] == '%' {
        seq!['%'] + decode_from(s, i + 2)
    } else if let Some((c, e)) = pattern_at(s, i) {
        proof {
            lemma_upper_run_end_bounds(s, i + 1);
        }
        seq![c] + decode_from(s, e + 1)
    } else {
        seq![s[i]] + decode_from(s, i + 1)
    }
}

/// The decoded form of an encoded file name.
pub open spec fn decode_spec(s: Seq<char>) -> Seq<char> {
    let rest = strip_leading_tokens(s);
    let middle = strip_trailing_tokens(rest);
    repeat_char(' ', leading_tokens(s)) + decode_from(middle, 0) + repeat_char(
        ' ',
        trailing_tokens(rest),
    )
}

// ---------------------------------------------------------------------------
// Lemmas
// ---------------------------------------------------------------------------

pub proof fn lemma_upper_run_end_bounds(s: Seq<char>, i: int)
    requires
        0 <= i,
    ensures
        i <= upper_run_end(s, i),
        i <= s.len() ==> upper_run_end(s, i) <= s.len(),
    decreases s.len() - i,
{
    if 0 <= i < s.len() && is_upper(s[i]) {
        lemma_upper_run_end_bounds(s, i + 1);
    }
}


pub proof fn lemma_encode_chars_append(a: Seq<char>, b: Seq<char>)
    ensures
        encode_chars(a + b) == encode_chars(a) + encode_chars(b),
    decreases a.len(),
{
    if a.len() == 0 {
        assert(a + b =~= b);
    } else {
        assert((a + b).skip(1) =~= a.skip(1) + b);
        lemma_encode_chars_append(a.skip(1), b);
    }
}

pub proof fn lemma_encode_chars_single(c: char)
    ensures
        encode_chars(seq![c]) == encode_char(c),
{
    assert(seq![c].skip(1) =~= Seq::<char>::empty());
    assert(encode_chars(Seq::<char>::empty()) == Seq::<char>::empty());
    assert(encode_char(c) + Seq::<char>::empty() =~= encode_char(c));
}

pub proof fn lemma_first_non_space(s: Seq<char>, i: int)
    requires
        0 <= i <= s.len(),
    ensures
        i <= first_non_space(s, i) <= s.len(),
        forall|k: int| i <= k < first_non_space(s, i) ==> s[k] == ' ',
        first_non_space(s, i) < s.len() ==> s[first_non_space(s, i)] != ' ',
    decreases s.len() - i,
{
    if i < s.len() && s[i] == ' ' {
        lemma_first_non_space(s, i + 1);
    }
}

pub proof fn lemma_end_non_space(s: Seq<char>, j: int)
    requires
        0 <= j <= s.len(),
    ensures
        0 <= end_non_space(s, j) <= j,
        forall|k: int| end_non_space(s, j) <= k < j ==> s[k] == ' ',
        end_non_space(s, j) > 0 ==> s[end_non_space(s, j) - 1] != ' ',
    decreases j,
{
    if j > 0 && s[j - 1] == ' ' {
        lemma_end_non_space(s, j - 1);
    }
}

/// For a name that is not blank, the spaces trimmed at the start and at the
/// end do not overlap.
pub proof fn lemma_trim_bounds(s: Seq<char>)
    requires
        !is_blank_nonempty(s),
    ensures
        first_non_space(s, 0) <= end_non_space(s, s.len() as int),
        s.len() > 0 ==> first_non_space(s, 0) < end_non_space(s, s.len() as int),
{
    lemma_first_non_space(s, 0);
    lemma_end_non_space(s, s.len() as int);
    let a = first_non_space(s, 0);
    let b = end_non_space(s, s.len() as int);
    if s.len() > 0 {
        if a == s.len() {
            assert(is_blank_nonempty(s));
        }
        assert(s[a] != ' ');
        if b <= a {
            assert(a < s.len());
        }
    }
}

proof fn lemma_strip_leading_repeat(x: Seq<char>, a: nat)
    requires
        !has_prefix(x, space_token()),
    ensures
        strip_leading_tokens(repeat_seq(space_token(), a) + x) == x,
        leading_tokens(repeat_seq(space_token(), a) + x) == a,
    decreases a,
{
    if a == 0 {
        assert(repeat_seq(space_token(), 0) + x =~= x);
    } else {
        let t = space_token();
        lemma_repeat_front(t, (a - 1) as nat);
        let y = repeat_seq(t, (a - 1) as nat) + x;
        assert(repeat_seq(t, a) + x =~= t + y);
        assert((t + y).subrange(0, 7) =~= t);
        assert((t + y).skip(7) =~= y);
        lemma_strip_leading_repeat(x, (a - 1) as nat);
    }
}

proof fn lemma_strip_trailing_repeat(x: Seq<char>, b: nat)
    requires
        !has_suffix(x, space_token()),
    ensures
        strip_trailing_tokens(x + repeat_seq(space_token(), b)) == x,
        trailing_tokens(x + repeat_seq(space_token(), b)) == b,
    decreases b,
{
    let t = space_token();
    if b == 0 {
        assert(x + repeat_seq(t, 0) =~= x);
    } else {
        let y = x + repeat_seq(t, (b - 1) as nat);
        assert(x + repeat_seq(t, b) =~= y + t);
        let z = y + t;
        assert(z.subrange(z.len() - 7, z.len() as int) =~= t);
        assert(z.take(z.len() - 7) =~= y);
        lemma_strip_trailing_repeat(x, (b - 1) as nat);
    }
}

proof fn lemma_upper_run_end_exact(s: Seq<char>, i: int, e: int)
    requires
        0 <= i <= e <= s.len(),
        forall|k: int| i <= k < e ==> is_upper(s[k]),
        e == s.len() || !is_upper(s[e]),
    ensures
        upper_run_end(s, i) == e,
    decreases e - i,
{
    if i < e {
        lemma_upper_run_end_exact(s, i + 1, e);
    }
}

proof fn lemma_special_pattern(c: char)
    requires
        is_special(c),
    ensures
        pattern_name(c).len() > 0,
        forall|k: int| 0 <= k < pattern_name(c).len() ==> is_upper(#[trigger] pattern_name(c)[k]),
        pattern_char(pattern_name(c)) == Some(c),
{
}

/// `encode_chars(mid)` splits at position `j` of `mid`.
proof fn lemma_encode_split(mid: Seq<char>, j: int)
    requires
        0 <= j < mid.len(),
    ensures
        encode_chars(mid) == encode_chars(mid.take(j)) + encode_char(mid[j]) + encode_chars(
            mid.skip(j + 1),
        ),
        encode_chars(mid.take(j + 1)) == encode_chars(mid.take(j)) + encode_char(mid[j]),
{
    assert(mid =~= mid.take(j + 1) + mid.skip(j + 1));
    assert(mid.take(j + 1) =~= mid.take(j) + seq![mid[j]]);
    lemma_encode_chars_append(mid.take(j + 1), mid.skip(j + 1));
    lemma_encode_chars_append(mid.take(j), seq![mid[j]]);
    lemma_encode_chars_single(mid[j]);
}

proof fn lemma_decode_encoded_from(mid: Seq<char>, j: int)
    requires
        0 <= j <= mid.len(),
    ensures
        decode_from(encode_chars(mid), encode_chars(mid.take(j)).len() as int) == mid.skip(j),
    decreases mid.len() - j,
{
    let m = encode_chars(mid);
    if j == mid.len() {
        assert(mid.take(j) =~= mid);
        assert(mid.skip(j) =~= Seq::<char>::empty());
    } else {
        lemma_encode_split(mid, j);
        lemma_decode_encoded_from(mid, j + 1);
        let off = encode_chars(mid.take(j)).len() as int;
        let c = mid[j];
        let t = encode_char(c);
        let pre = encode_chars(mid.take(j));
        let post = encode_chars(mid.skip(j + 1));
        assert(m == pre + t + post);
        assert(forall|k: int| 0 <= k < t.len() ==> m[off + k] == t[k]);
        assert(mid.skip(j) =~= seq![c] + mid.skip(j + 1));
        if c == '%' {
            assert(m[off] == '%' && m[off + 1] == '%');
        } else if is_special(c) {
            lemma_special_pattern(c);
            let name = pattern_name(c);
            let e = off + 1 + name.len();
            assert(m[off] == '%');
            assert(m[off + 1] == name[0]);
            assert(m[e] == '%');
            assert forall|k: int| off + 1 <= k < e implies is_upper(m[k]) by {
                assert(m[k] == t[k - off]);
                assert(t[k - off] == name[k - off - 1]);
            }
            lemma_upper_run_end_exact(m, off + 1, e);
            assert(m.subrange(off + 1, e) =~= name);
            assert(pattern_at(m, off) == Some((c, e)));
        } else {
            assert(m[off] == c);
        }
    }
}

/// Decoding undoes the character-by-character encoding of the middle part.
proof fn lemma_decode_encode_chars(mid: Seq<char>)
    ensures
        decode_from(encode_chars(mid), 0) == mid,
{
    lemma_decode_encoded_from(mid, 0);
    assert(mid.take(0) =~= Seq::<char>::empty());
    assert(encode_chars(Seq::<char>::empty()) == Seq::<char>::empty());
    assert(mid.skip(0) =~= mid);
}

proof fn lemma_encode_char_no_token_prefix(c: char, y: Seq<char>)
    requires
        c != ' ',
    ensures
        !has_prefix(encode_char(c) + y, space_token()),
{
    let e = encode_char(c);
    let x = e + y;
    if has_prefix(x, space_token()) {
        assert(x.subrange(0, 7)[0] == x[0]);
        assert(x.subrange(0, 7)[1] == x[1]);
        assert(x.subrange(0, 7)[2] == x[2]);
        if c == '%' {
            assert(x[1] == e[1]);
        } else if is_special(c) {
            lemma_special_pattern(c);
            assert(x[1] == e[1]);
            assert(e[1] == pattern_name(c)[0]);
            if c == '/' || c == '*' {
                assert(x[2] == e[2]);
                assert(e[2] == pattern_name(c)[1]);
            }
        } else {
            assert(x[0] == c);
        }
    }
}

proof fn lemma_encode_char_no_token_suffix(y: Seq<char>, c: char)
    requires
        c != ' ',
    ensures
        !has_suffix(y + encode_char(c), space_token()),
{
    let e = encode_char(c);
    let x = y + e;
    let n = x.len();
    if has_suffix(x, space_token()) {
        let sub = x.subrange(n - 7, n as int);
        assert(sub[6] == x[n - 1]);
        assert(sub[5] == x[n - 2]);
        assert(sub[4] == x[n - 3]);
        assert(x[n - 1] == e[e.len() - 1]);
        if c == '%' {
            assert(x[n - 2] == e[0]);
        } else if is_special(c) {
            lemma_special_pattern(c);
            let name = pattern_name(c);
            assert(x[n - 2] == e[e.len() - 2]);
            assert(e[e.len() - 2] == name[name.len() - 1]);
            if c == '"' || c == '|' {
                assert(x[n - 3] == e[e.len() - 3]);
                assert(e[e.len() - 3] == name[name.len() - 2]);
            }
        } else {
            assert(e[0] == c);
        }
    }
}

/// The encoding of a middle part that starts and ends with a non-space
/// character neither starts nor ends with a `%SPACE%` token.
proof fn lemma_encoded_middle_edges(mid: Seq<char>, tail: Seq<char>)
    requires
        mid.len() > 0,
        mid[0] != ' ',
        mid[mid.len() - 1] != ' ',
    ensures
        !has_prefix(encode_chars(mid) + tail, space_token()),
        !has_suffix(encode_chars(mid), space_token()),
{
    let m = encode_chars(mid);
    lemma_encode_split(mid, 0);
    assert(mid.take(0) =~= Seq::<char>::empty());
    assert(encode_chars(Seq::<char>::empty()) == Seq::<char>::empty());
    let rest = encode_chars(mid.skip(1));
    assert(m + tail =~= encode_char(mid[0]) + (rest + tail));
    lemma_encode_char_no_token_prefix(mid[0], rest + tail);
    let l = mid.len() - 1;
    lemma_encode_split(mid, l);
    assert(mid.skip(l + 1) =~= Seq::<char>::empty());
    assert(m =~= encode_chars(mid.take(l)) + encode_char(mid[l]));
    lemma_encode_char_no_token_suffix(encode_chars(mid.take(l)), mid[l]);
}

/// A name made only of spaces encodes as one `%SPACE%` per space, and
/// decodes back.
proof fn lemma_decode_blank(name: Seq<char>)
    requires
        is_blank_nonempty(name),
    ensures
        encode_spec(name) == repeat_seq(space_token(), name.len()),
        decode_spec(encode_spec(name)) == name,
{
    lemma_first_non_space(name, 0);
    lemma_end_non_space(name, name.len() as int);
    let a = first_non_space(name, 0);
    assert(a == name.len()) by {
        if a < name.len() {
            assert(name[a] == ' ');
        }
    }
    assert(trailing_start(name) == a);
    let e: Seq<char> = Seq::empty();
    assert(name.subrange(a, a) =~= e);
    assert(encode_chars(e) == e);
    let enc = encode_spec(name);
    assert(enc =~= repeat_seq(space_token(), name.len()) + e);
    assert(!has_prefix(e, space_token()));
    lemma_strip_leading_repeat(e, name.len());
    assert(!has_suffix(e, space_token()));
    assert(strip_trailing_tokens(e) == e);
    assert(trailing_tokens(e) == 0);
    assert(decode_from(e, 0) == e);
    assert(decode_spec(enc) =~= repeat_char(' ', name.len()) + e + repeat_char(' ', 0));
    assert(decode_spec(enc) =~= name);
}

/// Decoding an encoded name gives the name back.
#[verifier::spinoff_prover]
#[verifier::rlimit(40)]
pub proof fn lemma_decode_inverts_encode(name: Seq<char>)
    ensures
        decode_spec(encode_spec(name)) == name,
{
    if is_blank_nonempty(name) {
        lemma_decode_blank(name);
        return;
    }
    let t = space_token();
    let a = first_non_space(name, 0);
    let b = end_non_space(name, name.len() as int);
    lemma_first_non_space(name, 0);
    lemma_end_non_space(name, name.len() as int);
    lemma_trim_bounds(name);
    let mid = name.subrange(a, b);
    let m = encode_chars(mid);
    let tb = (name.len() - b) as nat;
    let enc = encode_spec(name);
    if name.len() == 0 {
        assert(mid =~= Seq::<char>::empty());
        assert(m == Seq::<char>::empty());
        assert(enc =~= Seq::<char>::empty());
        assert(decode_from(Seq::<char>::empty(), 0) == Seq::<char>::empty());
        assert(decode_spec(enc) =~= name);
    } else {
        lemma_encoded_middle_edges(mid, repeat_seq(t, tb));
        assert(enc =~= repeat_seq(t, a as nat) + (m + repeat_seq(t, tb)));
        lemma_strip_leading_repeat(m + repeat_seq(t, tb), a as nat);
        lemma_strip_trailing_repeat(m, tb);
        lemma_decode_encode_chars(mid);
        assert(name =~= repeat_char(' ', a as nat) + mid + repeat_char(' ', tb));
    }
}

// ---------------------------------------------------------------------------
// Executable code
// ---------------------------------------------------------------------------

/// The pattern name of `c` (empty for characters that are not encoded).
fn pattern_name_chars(c: char) -> (r: Vec<char>)
    ensures
        r@ == pattern_name(c),
{
    if c == '.' {
        vec!['D', 'O', 'T']
    } else if c == '<' {
        vec!['L', 'T']
    } else if c == '>' {
        vec!['G', 'T']
    } else if c == ':' {
        vec!['C', 'O', 'L', 'O', 'N']
    } else if c == '"' {
        vec!['Q', 'U', 'O', 'T', 'E']
    } else if c == '/' {
        vec!['S', 'L', 'A', 'S', 'H']
    } else if c == '\\' {
        vec!['B', 'A', 'C', 'K', 'S', 'L', 'A', 'S', 'H']
    } else if c == '|' {
        vec!['P', 'I', 'P', 'E']
    } else if c == '?' {
        vec!['Q', 'U', 'E', 'S', 'T', 'I', 'O', 'N']
    } else if c == '*' {
        vec!['S', 'T', 'A', 'R']
    } else {
        Vec::new()
    }
}

/// The `%SPACE%` token.
fn space_token_chars() -> (r: Vec<char>)
    ensures
        r@ == space_token(),
{
    vec!['%', 'S', 'P', 'A', 'C', 'E', '%']
}

/// Appends the encoding of `c` to `out`.
fn push_encoded(out: &mut Vec<char>, c: char)
    ensures
        final(out)@ == old(out)@ + encode_char(c),
{
    if c == '%' {
        out.push('%');
        out.push('%');
        assert(out@ =~= old(out)@ + encode_char(c));
    } else {
        let name = pattern_name_chars(c);
        if name.len() > 0 {
            out.push('%');
            push_all(out, &name);
            out.push('%');
            assert(is_special(c));
            assert(out@ =~= old(out)@ + encode_char(c));
        } else {
            out.push(c);
            assert(!is_special(c));
            assert(out@ =~= old(out)@ + encode_char(c));
        }
    }
}

/// Encodes special characters in a file name.
///
/// Replaces `.`, `<`, `>`, `:`, `"`, `/`, `\`, `|`, `?`, `*` with `%DOT%`,
/// `%LT%`, `%GT%`, `%COLON%`, `%QUOTE%`, `%SLASH%`, `%BACKSLASH%`, `%PIPE%`,
/// `%QUESTION%`, `%STAR%`; escapes a literal `%` as `%%`; encodes each
/// leading and trailing space as `%SPACE%` (a name made only of spaces
/// becomes one `%SPACE%` per space).
pub fn encode_path_name(name: &str) -> (res: String)
    ensures
        res@ == encode_spec(name@),
{
    let chars = chars_of(name);
    let n = chars.len();
    let ghost s = name@;
    proof {
        lemma_first_non_space(s, 0);
        lemma_end_non_space(s, n as int);
        if !is_blank_nonempty(s) {
            lemma_trim_bounds(s);
        }
    }
    let mut lead: usize = 0;
    while lead < n && chars[lead] == ' '
        invariant
            chars@ == s,
            n == s.len(),
            lead <= n,
            first_non_space(s, 0) == first_non_space(s, lead as int),
        decreases n - lead,
    {
        lead += 1;
    }
    assert(first_non_space(s, 0) == lead);
    let mut end: usize = n;
    while end > lead && chars[end - 1] == ' '
        invariant
            chars@ == s,
            n == s.len(),
            lead <= end <= n,
            end_non_space(s, n as int) == end_non_space(s, end as int),
        decreases end,
    {
        end -= 1;
    }
    proof {
        if end == lead && lead > 0 {
            lemma_end_non_space(s, end as int);
        }
        if is_blank_nonempty(s) {
            assert(lead == n) by {
                if lead < n {
                    assert(s[lead as int] == ' ');
                }
            }
        }
    }
    assert(trailing_start(s) == end);
    let space = space_token_chars();
    let mut out: Vec<char> = Vec::new();
    let mut k: usize = 0;
    while k < lead
        invariant
            k <= lead,
            space@ == space_token(),
            out@ == repeat_seq(space_token(), k as nat),
        decreases lead - k,
    {
        push_all(&mut out, &space);
        k += 1;
    }
    let ghost prefix = out@;
    let mut i: usize = lead;
    while i < end
        invariant
            chars@ == s,
            n == s.len(),
            lead <= i <= end <= n,
            out@ == prefix + encode_chars(s.subrange(lead as int, i as int)),
        decreases end - i,
    {
        push_encoded(&mut out, chars[i]);
        proof {
            assert(s.subrange(lead as int, i + 1) =~= s.subrange(lead as int, i as int) + seq![s[i as int]]);
            lemma_encode_chars_append(s.subrange(lead as int, i as int), seq![s[i as int]]);
            lemma_encode_chars_single(s[i as int]);
        }
        i += 1;
    }
    let ghost middle = out@;
    let mut k: usize = 0;
    while k < n - end
        invariant
            end <= n,
            k <= n - end,
            space@ == space_token(),
            out@ == middle + repeat_seq(space_token(), k as nat),
        decreases n - end - k,
    {
        push_all(&mut out, &space);
        k += 1;
        assert(out@ =~= middle + repeat_seq(space_token(), k as nat));
    }
    string_from_chars(&out)
}


/// Whether `v[lo..hi]` is exactly `p`.
fn range_is(v: &Vec<char>, lo: usize, hi: usize, p: &Vec<char>) -> (res: bool)
    requires
        lo <= hi <= v.len(),
    ensures
        res == (v@.subrange(lo as int, hi as int) == p@),
{
    if hi - lo != p.len() {
        return false;
    }
    matches_at(v, lo, p)
}

/// The character that the pattern name `v[lo..hi]` stands for, if any.
fn lookup_pattern(v: &Vec<char>, lo: usize, hi: usize) -> (r: Option<char>)
    requires
        lo <= hi <= v.len(),
    ensures
        r == pattern_char(v@.subrange(lo as int, hi as int)),
{
    if range_is(v, lo, hi, &vec!['D', 'O', 'T']) {
        Some('.')
    } else if range_is(v, lo, hi, &vec!['L', 'T']) {
        Some('<')
    } else if range_is(v, lo, hi, &vec!['G', 'T']) {
        Some('>')
    } else if range_is(v, lo, hi, &vec!['C', 'O', 'L', 'O', 'N']) {
        Some(':')
    } else if range_is(v, lo, hi, &vec!['Q', 'U', 'O', 'T', 'E']) {
        Some('"')
    } else if range_is(v, lo, hi, &vec!['S', 'L', 'A', 'S', 'H']) {
        Some('/')
    } else if range_is(v, lo, hi, &vec!['B', 'A', 'C', 'K', 'S', 'L', 'A', 'S', 'H']) {
        Some('\\')
    } else if range_is(v, lo, hi, &vec!['P', 'I', 'P', 'E']) {
        Some('|')
    } else if range_is(v, lo, hi, &vec!['Q', 'U', 'E', 'S', 'T', 'I', 'O', 'N']) {
        Some('?')
    } else if range_is(v, lo, hi, &vec!['S', 'T', 'A', 'R']) {
        Some('*')
    } else {
        None
    }
}

/// Tries to decode a `%NAME%` pattern starting at `start`; on success gives
/// the decoded character and the index of the closing `%`.
fn try_decode_pattern(chars: &Vec<char>, start: usize) -> (r: Option<(char, usize)>)
    ensures
        match r {
            Some((c, e)) => pattern_at(chars@, start as int) == Some((c, e as int)),
            None => pattern_at(chars@, start as int) is None,
        },
{
    let ghost s = chars@;
    if start >= chars.len() || chars[start] != '%' {
        return None;
    }
    let mut end = start + 1;
    while end < chars.len() && chars[end] != '%'
        invariant
            chars@ == s,
            start < end <= chars.len(),
            s[start as int] == '%',
            upper_run_end(s, start + 1) == upper_run_end(s, end as int),
        decreases chars.len() - end,
    {
        if !('A' <= chars[end] && chars[end] <= 'Z') {
            return None;
        }
        end += 1;
    }
    if end >= chars.len() {
        return None;
    }
    match lookup_pattern(chars, start + 1, end) {
        Some(c) => Some((c, end)),
        None => None,
    }
}

/// Decodes `%%` and `%NAME%` patterns left to right; every other character
/// is copied as it is.
fn decode_patterns(chars: &Vec<char>) -> (out: Vec<char>)
    ensures
        out@ == decode_from(chars@, 0),
{
    let ghost s = chars@;
    let mut out: Vec<char> = Vec::new();
    let mut i: usize = 0;
    while i < chars.len()
        invariant
            chars@ == s,
            i <= chars.len(),
            decode_from(s, 0) == out@ + decode_from(s, i as int),
        decreases chars.len() - i,
    {
        if chars[i] == '%' && i + 1 < chars.len() && chars[i + 1] == '%' {
            out.push('%');
            i += 2;
            continue;
        }
        match try_decode_pattern(chars, i) {
            Some((c, e)) => {
                proof {
                    lemma_upper_run_end_bounds(s, i + 1);
                }
                out.push(c);
                i = e + 1;
            },
            None => {
                out.push(chars[i]);
                i += 1;
            },
        }
    }
    assert(decode_from(s, i as int) == Seq::<char>::empty());
    assert(out@ + Seq::<char>::empty() =~= out@);
    out
}

/// Decodes an encoded file name back to its original form.
///
/// `%%` becomes `%`, each `%NAME%` pattern becomes its character, and each
/// `%SPACE%` at the start or end becomes a space. Anything else, including
/// unknown patterns, is kept as it is.
pub fn decode_path_name(name: &str) -> (res: String)
    ensures
        res@ == decode_spec(name@),
{
    let chars = chars_of(name);
    let ghost s = name@;
    let n = chars.len();
    let space = space_token_chars();
    let mut lo: usize = 0;
    let mut lead: usize = 0;
    assert(s.skip(0) =~= s);
    while matches_at(&chars, lo, &space)
        invariant
            chars@ == s,
            n == s.len(),
            space@ == space_token(),
            lo <= n,
            lead <= lo,
            strip_leading_tokens(s) == strip_leading_tokens(s.skip(lo as int)),
            leading_tokens(s) == lead + leading_tokens(s.skip(lo as int)),
        decreases n - lo,
    {
        assert(s.skip(lo as int).subrange(0, 7) =~= s.subrange(lo as int, lo + 7));
        assert(s.skip(lo as int).skip(7) =~= s.skip(lo + 7));
        lo += 7;
        lead += 1;
    }
    assert(s.skip(lo as int).len() < 7 || s.skip(lo as int).subrange(0, 7) != space_token()) by {
        if s.skip(lo as int).len() >= 7 {
            assert(s.skip(lo as int).subrange(0, 7) =~= s.subrange(lo as int, lo + 7));
        }
    }
    let mut hi: usize = n;
    let mut trail: usize = 0;
    while hi - lo >= 7 && matches_at(&chars, hi - 7, &space)
        invariant
            chars@ == s,
            n == s.len(),
            space@ == space_token(),
            lo <= hi <= n,
            trail <= n - hi,
            strip_trailing_tokens(s.skip(lo as int)) == strip_trailing_tokens(
                s.subrange(lo as int, hi as int),
            ),
            trailing_tokens(s.skip(lo as int)) == trail + trailing_tokens(
                s.subrange(lo as int, hi as int),
            ),
        decreases hi,
    {
        let ghost r = s.subrange(lo as int, hi as int);
        assert(r.subrange(r.len() - 7, r.len() as int) =~= s.subrange(hi - 7, hi as int));
        assert(r.take(r.len() - 7) =~= s.subrange(lo as int, hi - 7));
        hi -= 7;
        trail += 1;
    }
    proof {
        let r = s.subrange(lo as int, hi as int);
        if r.len() >= 7 {
            assert(r.subrange(r.len() - 7, r.len() as int) =~= s.subrange(hi - 7, hi as int));
        }
        assert(s.skip(lo as int) =~= s.subrange(lo as int, n as int));
    }
    let mut middle: Vec<char> = Vec::new();
    let mut i: usize = lo;
    while i < hi
        invariant
            chars@ == s,
            n == s.len(),
            lo <= i <= hi <= n,
            middle@ == s.subrange(lo as int, i as int),
        decreases hi - i,
    {
        middle.push(chars[i]);
        i += 1;
        assert(middle@ =~= s.subrange(lo as int, i as int));
    }
    let decoded = decode_patterns(&middle);
    let mut out: Vec<char> = Vec::new();
    let mut k: usize = 0;
    while k < lead
        invariant
            k <= lead,
            out@ == repeat_char(' ', k as nat),
        decreases lead - k,
    {
        out.push(' ');
        k += 1;
        assert(out@ =~= repeat_char(' ', k as nat));
    }
    push_all(&mut out, &decoded);
    let ghost before = out@;
    let mut k: usize = 0;
    while k < trail
        invariant
            k <= trail,
            out@ == before + repeat_char(' ', k as nat),
        decreases trail - k,
    {
        out.push(' ');
        k += 1;
        assert(out@ =~= before + repeat_char(' ', k as nat));
    }
    string_from_chars(&out)
}

} // verus!
