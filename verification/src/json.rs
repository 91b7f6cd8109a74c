//! Pretty JSON5 output: string escaping, identifier keys, and the layout of
//! values with sorted object keys.

use vstd::prelude::*;
use crate::text::{append_chars, chars_of, push_all, push_char};

verus! {

/// A JSON5 value. Numbers keep their exact text. A well-formed value
/// (`json5_wf`, which rendering requires) has each object's entries in
/// increasing key order, each key once, as [`Json5Object`] builds them.
#[derive(Debug)]
pub enum Json5Value {
    Null,
    Bool(bool),
    Number(String),
    String(String),
    Array(Vec<Json5Value>),
    Object(Vec<(String, Json5Value)>),
}

// ---------------------------------------------------------------------------
// Escaping
// ---------------------------------------------------------------------------

/// A control character (general category Cc: U+0000 to U+001F and U+007F
/// to U+009F), what `char::is_control` tests.
pub open spec fn is_control_spec(c: char) -> bool {
    (c as u32) <= 0x1f || (0x7f <= (c as u32) && (c as u32) <= 0x9f)
}

/// The lowercase hexadecimal digit for `d < 16`.
pub open spec fn hex_digit(d: int) -> char {
    if d < 10 {
        crate::text::digit_char(d as nat)
    } else if d == 10 {
        'a'
    } else if d == 11 {
        'b'
    } else if d == 12 {
        'c'
    } else if d == 13 {
        'd'
    } else if d == 14 {
        'e'
    } else {
        'f'
    }
}

/// `n` (below `0x10000`) as four lowercase hexadecimal digits.
pub open spec fn hex4(n: int) -> Seq<char> {
    seq![hex_digit((n / 4096) % 16), hex_digit((n / 256) % 16), hex_digit((n / 16) % 16), hex_digit(n % 16)]
}

/// How one character is written inside a double-quoted JSON5 string: the
/// standard escapes `\"`, `\\`, `\b`, `\f`, `\n`, `\r`, `\t`, `\v`; the line
/// and paragraph separators as `\u2028` and `\u2029`; other control
/// characters as `\uXXXX`; anything else as itself.
pub open spec fn escape_char(c: char) -> Seq<char> {
    if c == '"' {
        seq!['\\', '"']
    } else if c == '\\' {
        seq!['\\', '\\']
    } else if c == '\u{0008}' {
        seq!['\\', 'b']
    } else if c == '\u{000C}' {
        seq!['\\', 'f']
    } else if c == '\n' {
        seq!['\\', 'n']
    } else if c == '\r' {
        seq!['\\', 'r']
    } else if c == '\t' {
        seq!['\\', 't']
    } else if c == '\u{000B}' {
        seq!['\\', 'v']
    } else if c == '\u{2028}' {
        seq!['\\', 'u', '2', '0', '2', '8']
    } else if c == '\u{2029}' {
        seq!['\\', 'u', '2', '0', '2', '9']
    } else if is_control_spec(c) {
        seq!['\\', 'u'] + hex4(c as u32 as int)
    } else {
        seq![c]
    }
}

/// The escaped characters of `s`, without the surrounding quotes.
pub open spec fn escape_chars(s: Seq<char>) -> Seq<char>
    decreases s.len(),
{
    if s.len() == 0 {
        Seq::empty()
    } else {
        escape_chars(s.drop_last()) + escape_char(s.last())
    }
}

/// `s` as a double-quoted, escaped JSON5 string.
pub open spec fn quoted(s: Seq<char>) -> Seq<char> {
    seq!['"'] + escape_chars(s) + seq!['"']
}

pub(crate) fn hex_digit_char(d: u32) -> (c: char)
    requires
        d < 16,
    ensures
        c == hex_digit(d as int),
{
    if d == 0 {
        '0'
    } else if d == 1 {
        '1'
    } else if d == 2 {
        '2'
    } else if d == 3 {
        '3'
    } else if d == 4 {
        '4'
    } else if d == 5 {
        '5'
    } else if d == 6 {
        '6'
    } else if d == 7 {
        '7'
    } else if d == 8 {
        '8'
    } else if d == 9 {
        '9'
    } else if d == 10 {
        'a'
    } else if d == 11 {
        'b'
    } else if d == 12 {
        'c'
    } else if d == 13 {
        'd'
    } else if d == 14 {
        'e'
    } else {
        'f'
    }
}

/// Appends the escaped form of `c` to `out`.
fn push_escaped_char(out: &mut Vec<char>, c: char)
    ensures
        final(out)@ == old(out)@ + escape_char(c),
{
    let code = c as u32;
    if c == '"' {
        out.push('\\');
        out.push('"');
    } else if c == '\\' {
        out.push('\\');
        out.push('\\');
    } else if c == '\u{0008}' {
        out.push('\\');
        out.push('b');
    } else if c == '\u{000C}' {
        out.push('\\');
        out.push('f');
    } else if c == '\n' {
        out.push('\\');
        out.push('n');
    } else if c == '\r' {
        out.push('\\');
        out.push('r');
    } else if c == '\t' {
        out.push('\\');
        out.push('t');
    } else if c == '\u{000B}' {
        out.push('\\');
        out.push('v');
    } else if c == '\u{2028}' {
        out.push('\\');
        out.push('u');
        out.push('2');
        out.push('0');
        out.push('2');
        out.push('8');
    } else if c == '\u{2029}' {
        out.push('\\');
        out.push('u');
        out.push('2');
        out.push('0');
        out.push('2');
        out.push('9');
    } else if code <= 0x1f || (0x7f <= code && code <= 0x9f) {
        out.push('\\');
        out.push('u');
        out.push(hex_digit_char((code / 4096) % 16));
        out.push(hex_digit_char((code / 256) % 16));
        out.push(hex_digit_char((code / 16) % 16));
        out.push(hex_digit_char(code % 16));
    } else {
        out.push(c);
    }
    assert(out@ =~= old(out)@ + escape_char(c));
}

/// Writes `s` to `output` as a double-quoted JSON5 string.
///
/// The escapes follow the JSON5 specification: `\"`, `\\`, `\b`, `\f`,
/// `\n`, `\r`, `\t`, `\v`; other control characters as `\uXXXX`; and, as
/// generators should, U+2028 and U+2029 as `\u2028` and `\u2029`.
pub fn write_escaped_string(output: &mut String, s: &str)
    ensures
        final(output)@ == old(output)@ + quoted(s@),
{
    let v = chars_of(s);
    let mut out: Vec<char> = Vec::new();
    out.push('"');
    let mut i: usize = 0;
    while i < v.len()
        invariant
            i <= v.len(),
            out@ == seq!['"'] + escape_chars(v@.take(i as int)),
        decreases v.len() - i,
    {
        push_escaped_char(&mut out, v[i]);
        assert(v@.take(i + 1).drop_last() =~= v@.take(i as int));
        i += 1;
    }
    assert(v@.take(v@.len() as int) =~= v@);
    out.push('"');
    append_chars(output, &out);
}

// ---------------------------------------------------------------------------
// Identifiers
// ---------------------------------------------------------------------------

/// Whether `c` has the Unicode `Alphabetic` property (`char::is_alphabetic`).
pub uninterp spec fn alphabetic(c: char) -> bool;

/// Whether `c` is alphabetic or numeric in Unicode (`char::is_alphanumeric`).
pub uninterp spec fn alphanumeric(c: char) -> bool;

/// `char::is_alphabetic`.
#[verifier::external_body]
fn char_is_alphabetic(c: char) -> (res: bool)
    ensures
        res == alphabetic(c),
{
    c.is_alphabetic()
}

/// `char::is_alphanumeric`.
#[verifier::external_body]
fn char_is_alphanumeric(c: char) -> (res: bool)
    ensures
        res == alphanumeric(c),
{
    c.is_alphanumeric()
}

/// A key that JSON5 accepts without quotes: non-empty, starting with a
/// letter, `_` or `$`, continuing with letters, digits, `_` or `$`.
pub open spec fn is_identifier(s: Seq<char>) -> bool {
    &&& s.len() > 0
    &&& alphabetic(s[0]) || s[0] == '_' || s[0] == '$'
    &&& forall|i: int| 1 <= i < s.len() ==> alphanumeric(#[trigger] s[i]) || s[i] == '_' || s[i] == '$'
}

/// Checks whether a string is a valid unquoted JSON5 identifier.
pub fn is_valid_identifier(s: &str) -> (res: bool)
    ensures
        res == is_identifier(s@),
{
    let v = chars_of(s);
    if v.len() == 0 {
        return false;
    }
    let first = v[0];
    if !char_is_alphabetic(first) && first != '_' && first != '$' {
        return false;
    }
    let mut i: usize = 1;
    while i < v.len()
        invariant
            1 <= i <= v.len(),
            v@ == s@,
            forall|k: int| 1 <= k < i ==> alphanumeric(#[trigger] v@[k]) || v@[k] == '_' || v@[k] == '$',
        decreases v.len() - i,
    {
        let c = v[i];
        if !(char_is_alphanumeric(c) || c == '_' || c == '$') {
            return false;
        }
        i += 1;
    }
    true
}

// ---------------------------------------------------------------------------
// Layout
// ---------------------------------------------------------------------------

/// Two spaces per level.
pub open spec fn indent_text(level: nat) -> Seq<char> {
    crate::text::repeat_char(' ', 2 * level)
}

/// Null, booleans, numbers and strings.
pub open spec fn is_scalar(v: Json5Value) -> bool {
    match v {
        Json5Value::Null | Json5Value::Bool(_) | Json5Value::Number(_) | Json5Value::String(_) => true,
        _ => false,
    }
}

/// An array of at most 20 scalars, written on one line.
pub open spec fn is_inline_array(items: Seq<Json5Value>) -> bool {
    items.len() <= 20 && forall|i: int| 0 <= i < items.len() ==> is_scalar(#[trigger] items[i])
}

/// An object key: bare when it is an identifier, quoted otherwise.
pub open spec fn key_text(key: Seq<char>) -> Seq<char> {
    if is_identifier(key) {
        key
    } else {
        quoted(key)
    }
}

/// The text of `v` written at nesting level `level`: scalars as themselves
/// (strings quoted), empty containers as `[]` and `{}`, short arrays of
/// scalars on one line as `[ a, b ]`, and other containers with one item
/// per line, indented one level deeper, items separated by commas.
pub open spec fn render(v: Json5Value, level: nat) -> Seq<char>
    decreases v, 1nat, 0nat,
{
    match v {
        Json5Value::Null => seq!['n', 'u', 'l', 'l'],
        Json5Value::Bool(b) => if b {
            seq!['t', 'r', 'u', 'e']
        } else {
            seq!['f', 'a', 'l', 's', 'e']
        },
        Json5Value::Number(s) => s@,
        Json5Value::String(s) => quoted(s@),
        Json5Value::Array(items) => if items@.len() == 0 {
            seq!['[', ']']
        } else if is_inline_array(items@) {
            seq!['[', ' '] + render_inline(v, items@.len()) + seq![' ', ']']
        } else {
            seq!['[', '\n'] + render_lines(v, level, items@.len()) + indent_text(level) + seq![']']
        },
        Json5Value::Object(entries) => if entries@.len() == 0 {
            seq!['{', '}']
        } else {
            seq!['{', '\n'] + render_lines(v, level, entries@.len()) + indent_text(level) + seq!['}']
        },
    }
}

/// The first `k` items of the array `v`, written at level 0 and joined by
/// `", "`.
pub open spec fn render_inline(v: Json5Value, k: nat) -> Seq<char>
    decreases v, 0nat, k,
{
    match v {
        Json5Value::Array(items) => if k == 0 || k > items@.len() {
            Seq::empty()
        } else if k == 1 {
            render(items@[0], 0)
        } else {
            render_inline(v, (k - 1) as nat) + seq![',', ' '] + render(items@[k - 1], 0)
        },
        _ => Seq::empty(),
    }
}

/// The line of item `i` of the container `v` at level `level`: indentation,
/// the key for an object, the value one level deeper, a comma unless it is
/// the last item, and a newline.
pub open spec fn render_line(v: Json5Value, level: nat, i: int) -> Seq<char>
    decreases v, 0nat, 0nat,
{
    match v {
        Json5Value::Array(items) => if 0 <= i < items@.len() {
            indent_text(level + 1) + render(items@[i], level + 1) + (if i < items@.len() - 1 {
                seq![',']
            } else {
                Seq::empty()
            }) + seq!['\n']
        } else {
            Seq::empty()
        },
        Json5Value::Object(entries) => if 0 <= i < entries@.len() {
            indent_text(level + 1) + key_text(entries@[i].0@) + seq![':', ' '] + render(entries@[i].1, level + 1)
                + (if i < entries@.len() - 1 {
                seq![',']
            } else {
                Seq::empty()
            }) + seq!['\n']
        } else {
            Seq::empty()
        },
        _ => Seq::empty(),
    }
}

/// The lines of the first `k` items of the container `v`.
pub open spec fn render_lines(v: Json5Value, level: nat, k: nat) -> Seq<char>
    decreases v, 0nat, k + 1,
{
    if k == 0 {
        Seq::empty()
    } else {
        render_lines(v, level, (k - 1) as nat) + render_line(v, level, k - 1)
    }
}

/// Nesting depth: 0 for scalars, one more than the deepest item for
/// containers.
pub open spec fn depth(v: Json5Value) -> nat
    decreases v, 1nat, 0nat,
{
    match v {
        Json5Value::Array(items) => 1 + depth_items(v, items@.len()),
        Json5Value::Object(entries) => 1 + depth_items(v, entries@.len()),
        _ => 0,
    }
}

/// The greatest depth among the first `k` items of the container `v`.
pub open spec fn depth_items(v: Json5Value, k: nat) -> nat
    decreases v, 0nat, k,
{
    if k == 0 {
        0
    } else {
        let rest = depth_items(v, (k - 1) as nat);
        let d = match v {
            Json5Value::Array(items) => if k <= items@.len() {
                depth(items@[k - 1])
            } else {
                0
            },
            Json5Value::Object(entries) => if k <= entries@.len() {
                depth(entries@[k - 1].1)
            } else {
                0
            },
            _ => 0,
        };
        if rest >= d {
            rest
        } else {
            d
        }
    }
}

proof fn lemma_depth_items(v: Json5Value, k: nat, i: int)
    requires
        0 <= i < k,
    ensures
        match v {
            Json5Value::Array(items) => i < items@.len() ==> depth(items@[i]) <= depth_items(v, k),
            Json5Value::Object(entries) => i < entries@.len() ==> depth(entries@[i].1) <= depth_items(v, k),
            _ => true,
        },
    decreases k,
{
    if i < k - 1 {
        lemma_depth_items(v, (k - 1) as nat, i);
    }
}

/// Whether every object inside `v`, `v` itself included, has its keys
/// strictly increasing (so each key once), as objects built through
/// [`Json5Object`] have.
pub open spec fn json5_wf(v: Json5Value) -> bool
    decreases v, 1nat, 0nat,
{
    match v {
        Json5Value::Array(items) => items_wf(v, items@.len()),
        Json5Value::Object(entries) => sorted_keys(entries@) && items_wf(v, entries@.len()),
        _ => true,
    }
}

/// Whether the first `k` items of the container `v` are well formed.
pub open spec fn items_wf(v: Json5Value, k: nat) -> bool
    decreases v, 0nat, k,
{
    if k == 0 {
        true
    } else {
        items_wf(v, (k - 1) as nat) && match v {
            Json5Value::Array(items) => k <= items@.len() ==> json5_wf(items@[k - 1]),
            Json5Value::Object(entries) => k <= entries@.len() ==> json5_wf(entries@[k - 1].1),
            _ => true,
        }
    }
}

proof fn lemma_items_wf(v: Json5Value, k: nat, i: int)
    requires
        0 <= i < k,
        items_wf(v, k),
    ensures
        match v {
            Json5Value::Array(items) => i < items@.len() ==> json5_wf(items@[i]),
            Json5Value::Object(entries) => i < entries@.len() ==> json5_wf(entries@[i].1),
            _ => true,
        },
    decreases k,
{
    if i < k - 1 {
        lemma_items_wf(v, (k - 1) as nat, i);
    }
}

/// Appends `level` times two spaces.
fn push_indent(out: &mut Vec<char>, level: usize)
    ensures
        final(out)@ == old(out)@ + indent_text(level as nat),
{
    let mut i: usize = 0;
    while i < level
        invariant
            i <= level,
            out@ == old(out)@ + indent_text(i as nat),
        decreases level - i,
    {
        out.push(' ');
        out.push(' ');
        i += 1;
        assert(out@ =~= old(out)@ + indent_text(i as nat));
    }
}

/// Appends `level` times two spaces to a string.
fn write_indent(output: &mut String, level: usize)
    ensures
        final(output)@ == old(output)@ + indent_text(level as nat),
{
    let mut v: Vec<char> = Vec::new();
    push_indent(&mut v, level);
    assert(v@ =~= Seq::<char>::empty() + indent_text(level as nat));
    append_chars(output, &v);
}

impl Json5Value {
    /// Whether the value nests less than `limit` containers deep.
    pub fn depth_below(&self, limit: usize) -> (r: bool)
        ensures
            r == (depth(*self) < limit),
        decreases self,
    {
        match self {
            Json5Value::Array(arr) => {
                if limit <= 1 {
                    return false;
                }
                let mut i: usize = 0;
                while i < arr.len()
                    invariant
                        i <= arr@.len(),
                        limit > 0,
                        *self == Json5Value::Array(*arr),
                        depth_items(*self, i as nat) + 1 < limit,
                    decreases arr@.len() - i,
                {
                    assert(match *self {
                        Json5Value::Array(a) => a == *arr,
                        _ => false,
                    });
                    assert(decreases_to!(*self => arr@[i as int]));
                    if !arr[i].depth_below(limit - 1) {
                        proof {
                            lemma_depth_items(*self, arr@.len(), i as int);
                        }
                        return false;
                    }
                    i += 1;
                }
                true
            },
            Json5Value::Object(entries) => {
                if limit <= 1 {
                    return false;
                }
                let mut i: usize = 0;
                while i < entries.len()
                    invariant
                        i <= entries@.len(),
                        limit > 0,
                        *self == Json5Value::Object(*entries),
                        depth_items(*self, i as nat) + 1 < limit,
                    decreases entries@.len() - i,
                {
                    assert(decreases_to!(*self => entries@[i as int].1));
                    if !entries[i].1.depth_below(limit - 1) {
                        proof {
                            lemma_depth_items(*self, entries@.len(), i as int);
                        }
                        return false;
                    }
                    i += 1;
                }
                true
            },
            _ => limit > 0,
        }
    }

    /// Whether every object in this value has its keys strictly increasing.
    pub fn is_well_formed(&self) -> (r: bool)
        ensures
            r == json5_wf(*self),
        decreases self,
    {
        match self {
            Json5Value::Array(arr) => {
                let mut i: usize = 0;
                while i < arr.len()
                    invariant
                        i <= arr@.len(),
                        *self == Json5Value::Array(*arr),
                        items_wf(*self, i as nat),
                    decreases arr@.len() - i,
                {
                    assert(decreases_to!(*self => arr@[i as int]));
                    if !arr[i].is_well_formed() {
                        proof {
                            if items_wf(*self, arr@.len()) {
                                lemma_items_wf(*self, arr@.len(), i as int);
                            }
                        }
                        return false;
                    }
                    i += 1;
                }
                true
            },
            Json5Value::Object(entries) => {
                let mut i: usize = 0;
                while i < entries.len()
                    invariant
                        i <= entries@.len(),
                        *self == Json5Value::Object(*entries),
                        items_wf(*self, i as nat),
                        sorted_keys(entries@.take(i as int)),
                    decreases entries@.len() - i,
                {
                    assert(decreases_to!(*self => entries@[i as int].1));
                    if i > 0 {
                        let a = chars_of(entries[i - 1].0.as_str());
                        let b = chars_of(entries[i].0.as_str());
                        if !key_less(&a, &b) {
                            proof {
                                assert(!sorted_keys(entries@)) by {
                                    let x = entries@[i - 1];
                                    let y = entries@[i as int];
                                    assert(!key_lt(x.0@, y.0@));
                                }
                            }
                            return false;
                        }
                    }
                    if !entries[i].1.is_well_formed() {
                        proof {
                            if items_wf(*self, entries@.len()) {
                                lemma_items_wf(*self, entries@.len(), i as int);
                            }
                        }
                        return false;
                    }
                    proof {
                        let s = entries@;
                        let t2 = s.take(i + 1);
                        assert forall|a: int, b: int| 0 <= a < b < t2.len() implies key_lt(
                            (#[trigger] t2[a]).0@,
                            (#[trigger] t2[b]).0@,
                        ) by {
                            if b < i {
                                assert(t2[a] == s.take(i as int)[a] && t2[b] == s.take(i as int)[b]);
                            } else if a < i - 1 {
                                assert(s.take(i as int)[a] == s[a] && s.take(i as int)[i - 1] == s[i - 1]);
                                lemma_key_lt_transitive(s[a].0@, s[i - 1].0@, s[i as int].0@);
                            }
                        }
                    }
                    i += 1;
                }
                assert(entries@.take(entries@.len() as int) =~= entries@);
                true
            },
            _ => true,
        }
    }

    /// Writes this value to `output` with JSON5 layout at nesting level
    /// `indent` (two spaces per level).
    pub fn write_to(&self, output: &mut String, indent: usize)
        requires
            indent + depth(*self) < usize::MAX / 4,
            json5_wf(*self),
        ensures
            final(output)@ == old(output)@ + render(*self, indent as nat),
        decreases self,
    {
        match self {
            Json5Value::Null => {
                append_chars(output, &vec!['n', 'u', 'l', 'l']);
            },
            Json5Value::Bool(b) => {
                if *b {
                    append_chars(output, &vec!['t', 'r', 'u', 'e']);
                } else {
                    append_chars(output, &vec!['f', 'a', 'l', 's', 'e']);
                }
            },
            Json5Value::Number(s) => {
                append_chars(output, &chars_of(s.as_str()));
            },
            Json5Value::String(s) => {
                write_escaped_string(output, s.as_str());
            },
            Json5Value::Array(arr) => {
                if arr.len() == 0 {
                    append_chars(output, &vec!['[', ']']);
                    return;
                }
                let mut inline = arr.len() <= 20;
                let mut k: usize = 0;
                while inline && k < arr.len()
                    invariant
                        k <= arr@.len(),
                        inline ==> arr@.len() <= 20,
                        inline ==> forall|q: int| 0 <= q < k ==> is_scalar(#[trigger] arr@[q]),
                        !inline ==> !is_inline_array(arr@),
                    decreases arr@.len() - k,
                {
                    if !matches!(
                        arr[k],
                        Json5Value::Null | Json5Value::Bool(_) | Json5Value::Number(_) | Json5Value::String(_)
                    ) {
                        inline = false;
                        assert(!is_scalar(arr@[k as int]));
                    }
                    k += 1;
                }
                assert(inline == is_inline_array(arr@));
                let ghost out0 = output@;
                if inline {
                    append_chars(output, &vec!['[', ' ']);
                    let mut i: usize = 0;
                    while i < arr.len()
                        invariant
                            i <= arr@.len(),
                            arr@.len() <= 20,
                            forall|q: int| 0 <= q < arr@.len() ==> is_scalar(#[trigger] arr@[q]),
                            *self == Json5Value::Array(*arr),
                            json5_wf(*self),
                            output@ == out0 + seq!['[', ' '] + render_inline(*self, i as nat),
                        decreases arr@.len() - i,
                    {
                        proof {
                            lemma_items_wf(*self, arr@.len(), i as int);
                        }
                        if i > 0 {
                            append_chars(output, &vec![',', ' ']);
                        }
                        assert(is_scalar(arr@[i as int]));
                        assert(match *self {
                            Json5Value::Array(a) => a == *arr,
                            _ => false,
                        });
                        assert(decreases_to!(*self => arr@[i as int]));
                        arr[i].write_to(output, 0);
                        i += 1;
                    }
                    append_chars(output, &vec![' ', ']']);
                } else {
                    append_chars(output, &vec!['[', '\n']);
                    let mut i: usize = 0;
                    while i < arr.len()
                        invariant
                            i <= arr@.len(),
                            *self == Json5Value::Array(*arr),
                            indent + depth(*self) < usize::MAX / 4,
                            json5_wf(*self),
                            output@ == out0 + seq!['[', '\n'] + render_lines(*self, indent as nat, i as nat),
                        decreases arr@.len() - i,
                    {
                        proof {
                            lemma_depth_items(*self, arr@.len(), i as int);
                            lemma_items_wf(*self, arr@.len(), i as int);
                        }
                        let ghost before = output@;
                        write_indent(output, indent + 1);
                        assert(decreases_to!(*self => arr@[i as int]));
                        arr[i].write_to(output, indent + 1);
                        if i < arr.len() - 1 {
                            push_char(output, ',');
                        }
                        push_char(output, '\n');
                        assert(output@ =~= before + render_line(*self, indent as nat, i as int));
                        assert(render_lines(*self, indent as nat, (i + 1) as nat) == render_lines(
                            *self,
                            indent as nat,
                            i as nat,
                        ) + render_line(*self, indent as nat, i as int));
                        i += 1;
                    }
                    write_indent(output, indent);
                    push_char(output, ']');
                }
            },
            Json5Value::Object(entries) => {
                if entries.len() == 0 {
                    append_chars(output, &vec!['{', '}']);
                    return;
                }
                let ghost out0 = output@;
                append_chars(output, &vec!['{', '\n']);
                let mut i: usize = 0;
                while i < entries.len()
                    invariant
                        i <= entries@.len(),
                        *self == Json5Value::Object(*entries),
                        indent + depth(*self) < usize::MAX / 4,
                        json5_wf(*self),
                        output@ == out0 + seq!['{', '\n'] + render_lines(*self, indent as nat, i as nat),
                    decreases entries@.len() - i,
                {
                    proof {
                        lemma_depth_items(*self, entries@.len(), i as int);
                        lemma_items_wf(*self, entries@.len(), i as int);
                    }
                    let ghost before = output@;
                    write_indent(output, indent + 1);
                    let key = entries[i].0.as_str();
                    if is_valid_identifier(key) {
                        append_chars(output, &chars_of(key));
                    } else {
                        write_escaped_string(output, key);
                    }
                    append_chars(output, &vec![':', ' ']);
                    assert(decreases_to!(*self => entries@[i as int].1));
                    entries[i].1.write_to(output, indent + 1);
                    if i < entries.len() - 1 {
                        push_char(output, ',');
                    }
                    push_char(output, '\n');
                    assert(output@ =~= before + render_line(*self, indent as nat, i as int));
                    assert(render_lines(*self, indent as nat, (i + 1) as nat) == render_lines(
                        *self,
                        indent as nat,
                        i as nat,
                    ) + render_line(*self, indent as nat, i as int));
                    i += 1;
                }
                write_indent(output, indent);
                push_char(output, '}');
            },
        }
    }
}

// ---------------------------------------------------------------------------
// Reading an escaped string back
// ---------------------------------------------------------------------------

/// The character a one-letter escape `\e` stands for in a JSON5 string.
pub open spec fn simple_escape(e: char) -> Option<char> {
    if e == '"' {
        Some('"')
    } else if e == '\\' {
        Some('\\')
    } else if e == 'b' {
        Some('\u{0008}')
    } else if e == 'f' {
        Some('\u{000C}')
    } else if e == 'n' {
        Some('\n')
    } else if e == 'r' {
        Some('\r')
    } else if e == 't' {
        Some('\t')
    } else if e == 'v' {
        Some('\u{000B}')
    } else {
        None
    }
}

/// The value of a hexadecimal digit, or `-1`.
pub open spec fn hex_value(c: char) -> int {
    if '0' <= c && c <= '9' {
        c as int - '0' as int
    } else if 'a' <= c && c <= 'f' {
        c as int - 'a' as int + 10
    } else if 'A' <= c && c <= 'F' {
        c as int - 'A' as int + 10
    } else {
        -1
    }
}

/// The value of four hexadecimal digits, or `-1` when one is not a digit.
pub open spec fn hex4_value(s: Seq<char>) -> int {
    if hex_value(s[0]) < 0 || hex_value(s[1]) < 0 || hex_value(s[2]) < 0 || hex_value(s[3]) < 0 {
        -1
    } else {
        4096 * hex_value(s[0]) + 256 * hex_value(s[1]) + 16 * hex_value(s[2]) + hex_value(s[3])
    }
}

/// Whether `v` is the code of a character (a Unicode scalar value).
pub open spec fn is_scalar_code(v: int) -> bool {
    (0 <= v && v <= 0xD7FF) || (0xE000 <= v && v <= 0x10FFFF)
}

/// `c` in front of the characters of `o`, if there are any.
pub open spec fn prepend(c: char, o: Option<Seq<char>>) -> Option<Seq<char>> {
    match o {
        Some(r) => Some(seq![c] + r),
        None => None,
    }
}

/// The characters that the body of a double-quoted JSON5 string (without
/// its quotes) stands for: `\` starts an escape (a one-letter escape, or
/// `\u` and four hexadecimal digits); a bare `"` or line break cannot occur.
/// `None` when the body is not well formed.
pub open spec fn unescape_json5(s: Seq<char>) -> Option<Seq<char>>
    decreases s.len(),
{
    if s.len() == 0 {
        Some(Seq::empty())
    } else if s[0] == '\\' {
        if s.len() >= 2 && simple_escape(s[1]) is Some {
            prepend(simple_escape(s[1])->0, unescape_json5(s.skip(2)))
        } else if s.len() >= 6 && s[1] == 'u' && hex4_value(s.subrange(2, 6)) >= 0 && is_scalar_code(
            hex4_value(s.subrange(2, 6)),
        ) {
            prepend((hex4_value(s.subrange(2, 6)) as u32) as char, unescape_json5(s.skip(6)))
        } else {
            None
        }
    } else if s[0] == '"' || s[0] == '\n' || s[0] == '\r' {
        None
    } else {
        prepend(s[0], unescape_json5(s.skip(1)))
    }
}

/// The characters a double-quoted JSON5 string literal `lit` stands for:
/// its body between the quotes read by `unescape_json5`; `None` when `lit`
/// is not such a literal.
pub open spec fn read_string_literal(lit: Seq<char>) -> Option<Seq<char>> {
    if lit.len() >= 2 && lit[0] == '"' && lit[lit.len() - 1] == '"' {
        unescape_json5(lit.subrange(1, lit.len() - 1))
    } else {
        None
    }
}

proof fn lemma_hex_digit_value(d: int)
    requires
        0 <= d < 16,
    ensures
        hex_value(hex_digit(d)) == d,
{
    if d < 10 {
        assert(crate::text::digit_char(d as nat) as int - '0' as int == d) by {
            if d == 0 {} else if d == 1 {} else if d == 2 {} else if d == 3 {} else if d == 4 {}
            else if d == 5 {} else if d == 6 {} else if d == 7 {} else if d == 8 {} else {}
        }
    }
}

proof fn lemma_hex4_value(n: int)
    requires
        0 <= n < 0x10000,
    ensures
        hex4_value(hex4(n)) == n,
{
    let a = (n / 4096) % 16;
    let b = (n / 256) % 16;
    let c = (n / 16) % 16;
    let d = n % 16;
    lemma_hex_digit_value(a);
    lemma_hex_digit_value(b);
    lemma_hex_digit_value(c);
    lemma_hex_digit_value(d);
    assert(4096 * a + 256 * b + 16 * c + d == n) by (nonlinear_arith)
        requires
            0 <= n < 0x10000,
            a == (n / 4096) % 16,
            b == (n / 256) % 16,
            c == (n / 16) % 16,
            d == n % 16,
    ;
}

proof fn lemma_escape_chars_front(s: Seq<char>)
    requires
        s.len() > 0,
    ensures
        escape_chars(s) == escape_char(s[0]) + escape_chars(s.skip(1)),
    decreases s.len(),
{
    if s.len() == 1 {
        assert(s.drop_last() =~= Seq::<char>::empty());
        assert(s.skip(1) =~= Seq::<char>::empty());
        assert(escape_chars(s) =~= escape_char(s[0]) + escape_chars(s.skip(1)));
    } else {
        lemma_escape_chars_front(s.drop_last());
        assert(s.drop_last().skip(1) =~= s.skip(1).drop_last());
        assert(s.skip(1).last() == s.last());
        assert(escape_chars(s) =~= escape_char(s[0]) + escape_chars(s.skip(1)));
    }
}

proof fn lemma_unescape_one(c: char, t: Seq<char>)
    ensures
        unescape_json5(escape_char(c) + t) == prepend(c, unescape_json5(t)),
{
    let e = escape_char(c) + t;
    if c == '"' || c == '\\' || c == '\u{0008}' || c == '\u{000C}' || c == '\n' || c == '\r' || c == '\t' || c
        == '\u{000B}' {
        assert(e.skip(2) =~= t);
    } else if c == '\u{2028}' || c == '\u{2029}' || is_control_spec(c) {
        let n = c as u32 as int;
        let h = if c == '\u{2028}' {
            seq!['2', '0', '2', '8']
        } else if c == '\u{2029}' {
            seq!['2', '0', '2', '9']
        } else {
            hex4(n)
        };
        assert(escape_char(c) == seq!['\\', 'u'] + h);
        assert(e.subrange(2, 6) =~= h);
        assert(e.skip(6) =~= t);
        if c == '\u{2028}' {
            assert(hex4_value(h) == 0x2028);
        } else if c == '\u{2029}' {
            assert(hex4_value(h) == 0x2029);
        } else {
            lemma_hex4_value(n);
        }
        assert(hex4_value(h) == n);
        vstd::utf8::char_u32_cast(c, c as u32);
        assert((hex4_value(h) as u32) as char == c);
    } else {
        assert(escape_char(c) == seq![c]);
        assert(e.skip(1) =~= t);
    }
}

/// Reading back the escaped form of a string gives the string: every
/// character survives escaping, and the escaped form has no bare quote or
/// line break.
pub proof fn lemma_unescape_json5_inverts_escape(s: Seq<char>)
    ensures
        unescape_json5(escape_chars(s)) == Some(s),
    decreases s.len(),
{
    if s.len() == 0 {
        assert(escape_chars(s) =~= Seq::<char>::empty());
    } else {
        lemma_escape_chars_front(s);
        lemma_unescape_json5_inverts_escape(s.skip(1));
        lemma_unescape_one(s[0], escape_chars(s.skip(1)));
        assert(seq![s[0]] + s.skip(1) =~= s);
    }
}

/// Reading back the literal that `write_escaped_string` writes for `s`
/// gives `s`.
pub proof fn lemma_read_inverts_quoted(s: Seq<char>)
    ensures
        read_string_literal(quoted(s)) == Some(s),
{
    let q = quoted(s);
    assert(q.subrange(1, q.len() - 1) =~= escape_chars(s));
    lemma_unescape_json5_inverts_escape(s);
}

// ---------------------------------------------------------------------------
// Objects with sorted keys
// ---------------------------------------------------------------------------

/// The order of object keys: lexicographic by character code, a proper
/// prefix first (the order of `String`).
pub open spec fn key_lt(a: Seq<char>, b: Seq<char>) -> bool
    decreases a.len(),
{
    if a.len() == 0 {
        b.len() > 0
    } else if b.len() == 0 {
        false
    } else if (a[0] as u32) < (b[0] as u32) {
        true
    } else if a[0] == b[0] {
        key_lt(a.skip(1), b.skip(1))
    } else {
        false
    }
}

proof fn lemma_key_lt_irreflexive(a: Seq<char>)
    ensures
        !key_lt(a, a),
    decreases a.len(),
{
    if a.len() > 0 {
        lemma_key_lt_irreflexive(a.skip(1));
    }
}

proof fn lemma_key_lt_transitive(a: Seq<char>, b: Seq<char>, c: Seq<char>)
    requires
        key_lt(a, b),
        key_lt(b, c),
    ensures
        key_lt(a, c),
    decreases a.len(),
{
    if a.len() > 0 && b.len() > 0 && c.len() > 0 && a[0] == b[0] && b[0] == c[0] {
        lemma_key_lt_transitive(a.skip(1), b.skip(1), c.skip(1));
    }
}

proof fn lemma_key_lt_total(a: Seq<char>, b: Seq<char>)
    ensures
        a == b || key_lt(a, b) || key_lt(b, a),
    decreases a.len(),
{
    if a.len() > 0 && b.len() > 0 {
        if a[0] == b[0] {
            lemma_key_lt_total(a.skip(1), b.skip(1));
            if a.skip(1) == b.skip(1) {
                assert(a =~= seq![a[0]] + a.skip(1));
                assert(b =~= seq![b[0]] + b.skip(1));
            }
        } else {
            vstd::utf8::char_u32_cast(a[0], a[0] as u32);
            vstd::utf8::char_u32_cast(b[0], b[0] as u32);
        }
    } else if a.len() == 0 && b.len() == 0 {
        assert(a =~= b);
    }
}

/// `key_lt` on vectors of characters.
fn key_less(a: &Vec<char>, b: &Vec<char>) -> (r: bool)
    ensures
        r == key_lt(a@, b@),
{
    let mut i: usize = 0;
    assert(a@.skip(0) =~= a@);
    assert(b@.skip(0) =~= b@);
    while i < a.len() && i < b.len()
        invariant
            i <= a.len(),
            i <= b.len(),
            a@.take(i as int) == b@.take(i as int),
            key_lt(a@, b@) == key_lt(a@.skip(i as int), b@.skip(i as int)),
        decreases a.len() - i,
    {
        let x = a[i];
        let y = b[i];
        if (x as u32) < (y as u32) {
            return true;
        }
        if x != y {
            return false;
        }
        assert(a@.skip(i as int).skip(1) =~= a@.skip(i + 1));
        assert(b@.skip(i as int).skip(1) =~= b@.skip(i + 1));
        assert(a@.take(i + 1) =~= a@.take(i as int).push(x));
        assert(b@.take(i + 1) =~= b@.take(i as int).push(y));
        i += 1;
    }
    i < b.len()
}

/// Whether entries' keys are strictly increasing.
pub open spec fn sorted_keys(s: Seq<(String, Json5Value)>) -> bool {
    forall|i: int, j: int| 0 <= i < j < s.len() ==> key_lt((#[trigger] s[i]).0@, (#[trigger] s[j]).0@)
}

/// The entries of a JSON5 object being built: each key once, in increasing
/// order, as the object's entries are written.
pub struct Json5Object {
    entries: Vec<(String, Json5Value)>,
}

impl View for Json5Object {
    type V = Map<Seq<char>, Json5Value>;

    closed spec fn view(&self) -> Map<Seq<char>, Json5Value> {
        crate::vfs::entries_map(self.entries@)
    }
}

impl Json5Object {
    /// The object's invariant: keys strictly increasing.
    pub closed spec fn wf(&self) -> bool {
        sorted_keys(self.entries@)
    }

    /// The entries in the order they are written.
    pub closed spec fn entries(&self) -> Seq<(String, Json5Value)> {
        self.entries@
    }

    /// An empty object.
    pub fn new() -> (r: Self)
        ensures
            r.wf(),
            r@ == Map::<Seq<char>, Json5Value>::empty(),
    {
        Json5Object { entries: Vec::new() }
    }

    /// Sets `key` to `value`, replacing the value it had.
    pub fn insert(&mut self, key: String, value: Json5Value)
        requires
            old(self).wf(),
        ensures
            final(self).wf(),
            final(self)@ == old(self)@.insert(key@, value),
    {
        let k = chars_of(key.as_str());
        let ghost s = self.entries@;
        let mut i: usize = 0;
        while i < self.entries.len()
            invariant
                i <= self.entries@.len(),
                self.entries@ == s,
                k@ == key@,
                forall|j: int| 0 <= j < i ==> key_lt((#[trigger] s[j]).0@, key@),
            ensures
                i <= self.entries@.len(),
                self.entries@ == s,
                forall|j: int| 0 <= j < i ==> key_lt((#[trigger] s[j]).0@, key@),
                i < self.entries@.len() ==> !key_lt(s[i as int].0@, key@),
            decreases self.entries@.len() - i,
        {
            let ek = chars_of(self.entries[i].0.as_str());
            if !key_less(&ek, &k) {
                break;
            }
            i += 1;
        }
        proof {
            lemma_sorted_distinct(s);
        }
        if i < self.entries.len() && crate::text::chars_eq(&chars_of(self.entries[i].0.as_str()), &k) {
            let ghost old_e = self.entries@[i as int];
            self.entries.set(i, (key, value));
            proof {
                let t = self.entries@;
                assert forall|a: int, b: int| 0 <= a < b < t.len() implies key_lt((#[trigger] t[a]).0@, (#[trigger] t[b]).0@) by {
                    assert(t[a].0@ == s[a].0@ && t[b].0@ == s[b].0@);
                }
                lemma_update_map(s, i as int, (key, value));
            }
        } else {
            proof {
                if i < s.len() {
                    lemma_key_lt_total(s[i as int].0@, key@);
                }
                assert forall|j: int| i <= j < s.len() implies key_lt(key@, (#[trigger] s[j]).0@) by {
                    if j > i {
                        lemma_key_lt_transitive(key@, s[i as int].0@, s[j].0@);
                    }
                }
            }
            self.entries.insert(i, (key, value));
            proof {
                let t = self.entries@;
                assert(t == s.insert(i as int, (key, value)));
                assert forall|a: int, b: int| 0 <= a < b < t.len() implies key_lt((#[trigger] t[a]).0@, (#[trigger] t[b]).0@) by {
                    if b < i {
                        assert(t[a] == s[a] && t[b] == s[b]);
                    } else if b == i {
                        assert(t[a] == s[a]);
                    } else if a < i {
                        assert(t[a] == s[a] && t[b] == s[b - 1]);
                        lemma_key_lt_transitive(s[a].0@, key@, s[b - 1].0@);
                    } else if a == i {
                        assert(t[b] == s[b - 1]);
                    } else {
                        assert(t[a] == s[a - 1] && t[b] == s[b - 1]);
                    }
                }
                assert forall|j: int| 0 <= j < s.len() implies (#[trigger] s[j]).0@ != key@ by {
                    if j < i {
                        lemma_key_lt_irreflexive(key@);
                    } else {
                        lemma_key_lt_irreflexive(key@);
                    }
                }
                lemma_insert_map(s, i as int, (key, value));
            }
        }
    }

    /// The object as a JSON5 value, its entries in increasing key order.
    pub fn into_value(self) -> (r: Json5Value)
        requires
            self.wf(),
        ensures
            r matches Json5Value::Object(es) && es@ == self.entries() && sorted_keys(es@)
                && crate::vfs::entries_map(es@) == self@ && json5_wf(r) == items_wf(r, es@.len()),
    {
        Json5Value::Object(self.entries)
    }
}

proof fn lemma_sorted_distinct(s: Seq<(String, Json5Value)>)
    requires
        sorted_keys(s),
    ensures
        crate::vfs::distinct_keys(s),
{
    assert forall|i: int, j: int| 0 <= i < j < s.len() implies (#[trigger] s[i]).0@ != (#[trigger] s[j]).0@ by {
        if s[i].0@ == s[j].0@ {
            lemma_key_lt_irreflexive(s[i].0@);
        }
    }
}

proof fn lemma_update_map(s: Seq<(String, Json5Value)>, i: int, e: (String, Json5Value))
    requires
        crate::vfs::distinct_keys(s),
        0 <= i < s.len(),
        s[i].0@ == e.0@,
    ensures
        crate::vfs::distinct_keys(s.update(i, e)),
        crate::vfs::entries_map(s.update(i, e)) == crate::vfs::entries_map(s).insert(e.0@, e.1),
{
    let t = s.update(i, e);
    assert forall|a: int, b: int| 0 <= a < b < t.len() implies (#[trigger] t[a]).0@ != (#[trigger] t[b]).0@ by {
        assert(t[a].0@ == s[a].0@ && t[b].0@ == s[b].0@);
    }
    assert forall|k: Seq<char>| #[trigger] crate::vfs::entries_map(t).contains_key(k)
        == crate::vfs::entries_map(s).insert(e.0@, e.1).contains_key(k) && (crate::vfs::entries_map(t).contains_key(k)
        ==> crate::vfs::entries_map(t)[k] == crate::vfs::entries_map(s).insert(e.0@, e.1)[k]) by {
        crate::vfs::lemma_entries_map(s, k);
        crate::vfs::lemma_entries_map(t, k);
        if k == e.0@ {
            assert(t[i].0@ == k);
        } else {
            if crate::vfs::entries_map(t).contains_key(k) {
                let j = choose|j: int| 0 <= j < t.len() && (#[trigger] t[j]).0@ == k;
                assert(s[j] == t[j]);
            }
            if crate::vfs::entries_map(s).contains_key(k) {
                let j = choose|j: int| 0 <= j < s.len() && (#[trigger] s[j]).0@ == k;
                assert(s[j] == t[j]);
            }
        }
    }
    assert(crate::vfs::entries_map(t) =~= crate::vfs::entries_map(s).insert(e.0@, e.1));
}

proof fn lemma_insert_map(s: Seq<(String, Json5Value)>, i: int, e: (String, Json5Value))
    requires
        crate::vfs::distinct_keys(s),
        0 <= i <= s.len(),
        forall|j: int| 0 <= j < s.len() ==> (#[trigger] s[j]).0@ != e.0@,
    ensures
        crate::vfs::entries_map(s.insert(i, e)) == crate::vfs::entries_map(s).insert(e.0@, e.1),
{
    let t = s.insert(i, e);
    assert forall|a: int, b: int| 0 <= a < b < t.len() implies (#[trigger] t[a]).0@ != (#[trigger] t[b]).0@ by {
        let a0 = if a < i { a } else { a - 1 };
        let b0 = if b < i { b } else { b - 1 };
        if a != i && b != i {
            assert(t[a] == s[a0] && t[b] == s[b0]);
        } else if a == i {
            assert(t[b] == s[b0]);
        } else {
            assert(t[a] == s[a0]);
        }
    }
    assert forall|k: Seq<char>| #[trigger] crate::vfs::entries_map(t).contains_key(k)
        == crate::vfs::entries_map(s).insert(e.0@, e.1).contains_key(k) && (crate::vfs::entries_map(t).contains_key(k)
        ==> crate::vfs::entries_map(t)[k] == crate::vfs::entries_map(s).insert(e.0@, e.1)[k]) by {
        crate::vfs::lemma_entries_map(s, k);
        crate::vfs::lemma_entries_map(t, k);
        if k == e.0@ {
            assert(t[i] == e);
        } else {
            if crate::vfs::entries_map(t).contains_key(k) {
                let j = choose|j: int| 0 <= j < t.len() && (#[trigger] t[j]).0@ == k;
                assert(j != i);
                let j0 = if j < i { j } else { j - 1 };
                assert(t[j] == s[j0]);
            }
            if crate::vfs::entries_map(s).contains_key(k) {
                let j = choose|j: int| 0 <= j < s.len() && (#[trigger] s[j]).0@ == k;
                let j1 = if j < i { j } else { j + 1 };
                assert(t[j1] == s[j]);
            }
        }
    }
    assert(crate::vfs::entries_map(t) =~= crate::vfs::entries_map(s).insert(e.0@, e.1));
}

// ---------------------------------------------------------------------------
// Reading JSON5 text
// ---------------------------------------------------------------------------

/// Declares `serde_json::Value`, the value the `json5` crate parses into.
#[verifier::external_type_specification]
#[verifier::external_body]
pub struct ExSerdeJsonValue(serde_json::Value);

/// The value that the `json5` crate reads from `text` (into a
/// `serde_json::Value`, taken over variant for variant), or `None` where it
/// rejects the text.
pub uninterp spec fn json5_value_of(text: Seq<char>) -> Option<Json5Value>;

/// A `serde_json::Value` as a JSON5 value, variant for variant: numbers by
/// their text, object entries in the map's order.
#[verifier::external_body]
fn json5_from_serde(v: serde_json::Value) -> Json5Value {
    match v {
        serde_json::Value::Null => Json5Value::Null,
        serde_json::Value::Bool(b) => Json5Value::Bool(b),
        serde_json::Value::Number(n) => Json5Value::Number(n.to_string()),
        serde_json::Value::String(s) => Json5Value::String(s),
        serde_json::Value::Array(items) => Json5Value::Array(items.into_iter().map(json5_from_serde).collect()),
        serde_json::Value::Object(m) => Json5Value::Object(m.into_iter().map(|(k, x)| (k, json5_from_serde(x))).collect()),
    }
}

/// Parses `text` with `json5::from_str::<serde_json::Value>`; what it
/// reads is named `json5_value_of`, `None` where the crate reports an
/// error.
#[verifier::external_body]
pub(crate) fn json5_parse(text: &str) -> (r: Option<Json5Value>)
    ensures
        r == json5_value_of(text@),
{
    json5::from_str::<serde_json::Value>(text).ok().map(json5_from_serde)
}

/// Decodes UTF-8 bytes with `std::str::from_utf8`, which succeeds exactly
/// on valid UTF-8 and then gives the characters the bytes encode.
#[verifier::external_body]
fn utf8_text(bytes: &[u8]) -> (r: Option<String>)
    ensures
        match r {
            Some(s) => vstd::utf8::valid_utf8(bytes@) && s@ == vstd::utf8::decode_utf8(bytes@),
            None => !vstd::utf8::valid_utf8(bytes@),
        },
{
    std::str::from_utf8(bytes).ok().map(String::from)
}

/// Parses JSON5 text (comments and trailing commas allowed) into a value;
/// fails with `Failed to parse JSON5` where the text is not JSON5.
pub fn parse_value(text: &str) -> (r: Result<Json5Value, String>)
    ensures
        match json5_value_of(text@) {
            Some(v) => r == Ok::<Json5Value, String>(v),
            None => r matches Err(m) && m@ == "Failed to parse JSON5"@,
        },
{
    match json5_parse(text) {
        Some(v) => Ok(v),
        None => Err(String::from_str("Failed to parse JSON5")),
    }
}

/// The message of a parse failure of the file described by `context`.
pub open spec fn parse_error_message(context: Seq<char>) -> Seq<char> {
    context + ": JSON5 parse error"@
}

/// Parses JSON5 text, naming the file described by `context` when it
/// fails: `<context>: JSON5 parse error`.
pub fn parse_value_with_context(text: &str, context: &str) -> (r: Result<Json5Value, String>)
    ensures
        match json5_value_of(text@) {
            Some(v) => r == Ok::<Json5Value, String>(v),
            None => r matches Err(m) && m@ == parse_error_message(context@),
        },
{
    match json5_parse(text) {
        Some(v) => Ok(v),
        None => {
            let mut out: Vec<char> = chars_of(context);
            crate::text::push_str(&mut out, ": JSON5 parse error");
            Err(crate::text::string_from_chars(&out))
        },
    }
}

/// Parses JSON5 bytes: fails with `<context>: File is not valid UTF-8`
/// where they are not UTF-8, else as [`parse_value_with_context`] on the
/// text they encode.
pub fn parse_value_from_slice_with_context(bytes: &[u8], context: &str) -> (r: Result<Json5Value, String>)
    ensures
        !vstd::utf8::valid_utf8(bytes@) ==> (r matches Err(m) && m@ == context@ + ": File is not valid UTF-8"@),
        vstd::utf8::valid_utf8(bytes@) ==> match json5_value_of(vstd::utf8::decode_utf8(bytes@)) {
            Some(v) => r == Ok::<Json5Value, String>(v),
            None => r matches Err(m) && m@ == parse_error_message(context@),
        },
{
    match utf8_text(bytes) {
        Some(text) => parse_value_with_context(text.as_str(), context),
        None => {
            let mut out: Vec<char> = chars_of(context);
            crate::text::push_str(&mut out, ": File is not valid UTF-8");
            Err(crate::text::string_from_chars(&out))
        },
    }
}

} // verus!
