//! Content hashes as git computes them, the git index cache used to skip
//! unchanged writes, and the parsing of git's plumbing output.

use sha1::{Digest, Sha1};
use vstd::prelude::*;
use crate::json::{hex_digit, hex_digit_char};
use crate::text::{append_chars, chars_eq, chars_of, decimal, push_decimal, str_eq, string_from_chars};

verus! {

/// The SHA-1 digest of `data`.
pub uninterp spec fn sha1_of(data: Seq<u8>) -> Seq<u8>;

/// `Sha1::digest` of the `sha1` crate: the SHA-1 digest of `data`, whose
/// output size is 20 bytes.
#[verifier::external_body]
fn sha1_digest(data: &[u8]) -> (res: Vec<u8>)
    ensures
        res@ == sha1_of(data@),
        res@.len() == 20,
{
    Sha1::digest(data).to_vec()
}

/// Lowercase hexadecimal text of bytes, two digits per byte.
pub open spec fn hex_bytes(b: Seq<u8>) -> Seq<char>
    decreases b.len(),
{
    if b.len() == 0 {
        Seq::empty()
    } else {
        hex_bytes(b.drop_last()) + seq![hex_digit(b.last() as int / 16), hex_digit(b.last() as int % 16)]
    }
}

/// The header git puts before a blob's content: `blob <size>` and a zero byte.
pub open spec fn blob_header(size: nat) -> Seq<u8> {
    seq![0x62u8, 0x6cu8, 0x6fu8, 0x62u8, 0x20u8] + decimal(size).map_values(|c: char| c as u8) + seq![0u8]
}

/// The blob hash git gives `content`, in hexadecimal.
pub open spec fn blob_sha1_spec(content: Seq<u8>) -> Seq<char> {
    hex_bytes(sha1_of(blob_header(content.len()) + content))
}

/// The bytes of `blob <size>\0`.
fn blob_header_bytes(size: usize) -> (res: Vec<u8>)
    ensures
        res@ == blob_header(size as nat),
{
    let mut digits: Vec<char> = Vec::new();
    push_decimal(&mut digits, size as u64);
    let mut out: Vec<u8> = vec![0x62u8, 0x6cu8, 0x6fu8, 0x62u8, 0x20u8];
    let ghost start = out@;
    let mut i: usize = 0;
    while i < digits.len()
        invariant
            i <= digits.len(),
            digits@ == decimal(size as nat),
            start == seq![0x62u8, 0x6cu8, 0x6fu8, 0x62u8, 0x20u8],
            out@ == start + digits@.take(i as int).map_values(|c: char| c as u8),
        decreases digits.len() - i,
    {
        out.push(digits[i] as u8);
        i += 1;
        assert(out@ =~= start + digits@.take(i as int).map_values(|c: char| c as u8));
    }
    assert(digits@.take(digits@.len() as int) =~= digits@);
    out.push(0u8);
    assert(out@ =~= blob_header(size as nat));
    out
}

/// Lowercase hexadecimal text of `b`.
fn hex_string(b: &Vec<u8>) -> (res: Vec<char>)
    ensures
        res@ == hex_bytes(b@),
{
    let mut out: Vec<char> = Vec::new();
    let mut i: usize = 0;
    while i < b.len()
        invariant
            i <= b.len(),
            out@ == hex_bytes(b@.take(i as int)),
        decreases b.len() - i,
    {
        let x = b[i];
        assert(b@.take(i + 1).drop_last() =~= b@.take(i as int));
        out.push(hex_digit_char((x / 16) as u32));
        out.push(hex_digit_char((x % 16) as u32));
        i += 1;
        assert(out@ =~= hex_bytes(b@.take(i as int)));
    }
    assert(b@.take(b@.len() as int) =~= b@);
    out
}

/// The git blob hash (`git hash-object`) of raw bytes, in lowercase
/// hexadecimal.
pub fn compute_blob_sha1_bytes(content: &[u8]) -> (res: String)
    ensures
        res@ == blob_sha1_spec(content@),
{
    let mut data = blob_header_bytes(content.len());
    let ghost header = data@;
    let mut i: usize = 0;
    while i < content.len()
        invariant
            i <= content@.len(),
            data@ == header + content@.take(i as int),
        decreases content@.len() - i,
    {
        data.push(content[i]);
        i += 1;
        assert(data@ =~= header + content@.take(i as int));
    }
    assert(content@.take(content@.len() as int) =~= content@);
    let digest = sha1_digest(data.as_slice());
    string_from_chars(&hex_string(&digest))
}

/// The git blob hash of a string's UTF-8 bytes, in lowercase hexadecimal.
pub fn compute_blob_sha1(content: &str) -> (res: String)
    ensures
        res@ == blob_sha1_spec(vstd::utf8::encode_utf8(content@)),
{
    compute_blob_sha1_bytes(content.as_bytes())
}

/// Whether instances of this class hold a script's source.
pub fn is_script_class(class_name: &str) -> (res: bool)
    ensures
        res == (class_name@ == "Script"@ || class_name@ == "LocalScript"@ || class_name@ == "ModuleScript"@),
{
    str_eq(class_name, "Script") || str_eq(class_name, "LocalScript") || str_eq(class_name, "ModuleScript")
}

// ---------------------------------------------------------------------------
// The git index cache
// ---------------------------------------------------------------------------

/// The hash recorded last for `path` in `entries`, if any.
pub open spec fn lookup(entries: Seq<(String, String)>, path: Seq<char>) -> Option<Seq<char>>
    decreases entries.len(),
{
    if entries.len() == 0 {
        None
    } else if entries.last().0@ == path {
        Some(entries.last().1@)
    } else {
        lookup(entries.drop_last(), path)
    }
}

/// Blob hashes of the files in the git index, by path relative to the
/// project, used to skip writing files whose new content git already has.
pub struct GitIndexCache {
    entries: Vec<(String, String)>,
}

impl View for GitIndexCache {
    type V = Map<Seq<char>, Seq<char>>;

    /// The hash of each path in the cache.
    closed spec fn view(&self) -> Map<Seq<char>, Seq<char>> {
        Map::new(|p: Seq<char>| lookup(self.entries@, p) is Some, |p: Seq<char>| lookup(self.entries@, p)->Some_0)
    }
}

/// The hash the cache holds for a path: under the path with `\` turned into
/// `/`, else under the path as given.
pub open spec fn index_hash(m: Map<Seq<char>, Seq<char>>, rel_path: Seq<char>) -> Option<Seq<char>> {
    let normalized = crate::text::replace_spec(rel_path, seq!['\\'], seq!['/']);
    if m.contains_key(normalized) {
        Some(m[normalized])
    } else if m.contains_key(rel_path) {
        Some(m[rel_path])
    } else {
        None
    }
}

impl GitIndexCache {
    /// An empty cache.
    pub fn new() -> (res: Self)
        ensures
            res@ == Map::<Seq<char>, Seq<char>>::empty(),
    {
        let res = GitIndexCache { entries: Vec::new() };
        assert(res@ =~= Map::<Seq<char>, Seq<char>>::empty());
        res
    }

    /// Records the blob hash of a path, replacing any earlier one.
    pub fn insert(&mut self, path: &str, hash: &str)
        ensures
            final(self)@ == old(self)@.insert(path@, hash@),
    {
        let ghost e0 = self.entries@;
        self.entries.push((string_from_chars(&chars_of(path)), string_from_chars(&chars_of(hash))));
        assert(self.entries@.drop_last() =~= e0);
        assert(self@ =~= old(self)@.insert(path@, hash@));
    }

    /// The hash recorded for `path`.
    fn get(&self, path: &Vec<char>) -> (res: Option<Vec<char>>)
        ensures
            match res {
                Some(h) => self@.contains_key(path@) && self@[path@] == h@,
                None => !self@.contains_key(path@),
            },
    {
        let mut i: usize = self.entries.len();
        assert(self.entries@.take(i as int) =~= self.entries@);
        while i > 0
            invariant
                i <= self.entries@.len(),
                lookup(self.entries@, path@) == lookup(self.entries@.take(i as int), path@),
            decreases i,
        {
            let k = i - 1;
            let ghost pre = self.entries@.take(i as int);
            assert(pre.drop_last() =~= self.entries@.take(k as int));
            assert(pre.last() == self.entries@[k as int]);
            if chars_eq(&chars_of(self.entries[k].0.as_str()), path) {
                let h = chars_of(self.entries[k].1.as_str());
                assert(lookup(self.entries@, path@) == Some(h@));
                return Some(h);
            }
            i = k;
        }
        assert(self.entries@.take(0) =~= Seq::<(String, String)>::empty());
        assert(lookup(self.entries@, path@) is None);
        None
    }

    /// Whether the blob hash of `content` equals the hash the git index has
    /// for `rel_path`, meaning that the file on disk almost certainly has
    /// this content already. A path the index does not know never matches.
    pub fn file_matches_index(&self, rel_path: &str, content: &[u8]) -> (res: bool)
        ensures
            res == match index_hash(self@, rel_path@) {
                Some(h) => blob_sha1_spec(content@) == h,
                None => false,
            },
    {
        let rel = chars_of(rel_path);
        let backslash = vec!['\\'];
        let slash = vec!['/'];
        assert(backslash@ =~= seq!['\\']);
        assert(slash@ =~= seq!['/']);
        let normalized = crate::text::replace_all(&rel, &backslash, &slash);
        let index_hash = match self.get(&normalized) {
            Some(h) => h,
            None => match self.get(&rel) {
                Some(h) => h,
                None => return false,
            },
        };
        let content_hash = compute_blob_sha1_bytes(content);
        chars_eq(&chars_of(content_hash.as_str()), &index_hash)
    }
}

// ---------------------------------------------------------------------------
// Parsing git's output
// ---------------------------------------------------------------------------

/// Position of the first `c` in `s`.
pub open spec fn index_of(s: Seq<char>, c: char) -> Option<int>
    decreases s.len(),
{
    if s.len() == 0 {
        None
    } else if s[0] == c {
        Some(0)
    } else {
        match index_of(s.skip(1), c) {
            Some(k) => Some(k + 1),
            None => None,
        }
    }
}

fn index_of_exec(v: &Vec<char>, c: char) -> (res: Option<usize>)
    ensures
        match res {
            Some(k) => index_of(v@, c) == Some(k as int) && k < v@.len(),
            None => index_of(v@, c) is None,
        },
{
    let mut i: usize = 0;
    assert(v@.skip(0) =~= v@);
    while i < v.len()
        invariant
            i <= v.len(),
            forall|k: int| 0 <= k < i ==> v@[k] != c,
            index_of(v@, c) == match index_of(v@.skip(i as int), c) {
                Some(k) => Some(k + i),
                None => None::<int>,
            },
        decreases v.len() - i,
    {
        let ghost rest = v@.skip(i as int);
        assert(rest.skip(1) =~= v@.skip(i + 1));
        if v[i] == c {
            return Some(i);
        }
        i += 1;
    }
    None
}

/// A line of `git ls-files --stage` (`<mode> <hash> <stage>\t<path>`) as
/// its path and hash; `None` for a line without a tab or with fewer than
/// two fields before it.
pub open spec fn ls_files_entry(line: Seq<char>) -> Option<(Seq<char>, Seq<char>)> {
    match index_of(line, '\t') {
        None => None,
        Some(t) => {
            let fields = crate::text::ws_fields(line.take(t));
            if fields.len() < 2 {
                None
            } else {
                Some((line.skip(t + 1), fields[1]))
            }
        },
    }
}

/// Parses one line of `git ls-files --stage` into its path and blob hash.
pub fn parse_ls_files_line(line: &str) -> (res: Option<(String, String)>)
    ensures
        match res {
            Some((path, hash)) => ls_files_entry(line@) == Some((path@, hash@)),
            None => ls_files_entry(line@) is None,
        },
{
    let v = chars_of(line);
    match index_of_exec(&v, '\t') {
        None => None,
        Some(t) => {
            let mut meta: Vec<char> = Vec::new();
            let mut k: usize = 0;
            while k < t
                invariant
                    k <= t,
                    t < v@.len(),
                    meta@ == v@.take(k as int),
                decreases t - k,
            {
                meta.push(v[k]);
                k += 1;
                assert(meta@ =~= v@.take(k as int));
            }
            let fields = crate::text::split_whitespace_chars(&meta);
            if fields.len() < 2 {
                None
            } else {
                assert(t < v.len());
                let path = crate::text::chars_from(&v, t + 1);
                assert(fields@.map_values(|p: Vec<char>| p@)[1] == fields@[1]@);
                Some((string_from_chars(&path), string_from_chars(&fields[1])))
            }
        },
    }
}

/// The path and hash of every well-formed line.
pub open spec fn ls_files_entries_spec(lines: Seq<Seq<char>>) -> Seq<(Seq<char>, Seq<char>)>
    decreases lines.len(),
{
    if lines.len() == 0 {
        Seq::empty()
    } else {
        ls_files_entries_spec(lines.drop_last()) + match ls_files_entry(lines.last()) {
            Some(e) => seq![e],
            None => Seq::empty(),
        }
    }
}

/// The `(path, hash)` entries of the output of `git ls-files --stage`, in
/// order; paths are relative to the repository root.
pub fn ls_files_entries(stdout: &str) -> (res: Vec<(String, String)>)
    ensures
        res@.map_values(|e: (String, String)| (e.0@, e.1@)) == ls_files_entries_spec(crate::text::lines_spec(stdout@)),
{
    let lines = crate::text::lines_of(stdout);
    let ghost ls = lines@.map_values(|p: Vec<char>| p@);
    let mut out: Vec<(String, String)> = Vec::new();
    let mut i: usize = 0;
    while i < lines.len()
        invariant
            i <= lines@.len(),
            ls == lines@.map_values(|p: Vec<char>| p@),
            out@.map_values(|e: (String, String)| (e.0@, e.1@)) == ls_files_entries_spec(ls.take(i as int)),
        decreases lines@.len() - i,
    {
        assert(ls.take(i + 1).drop_last() =~= ls.take(i as int));
        assert(ls.take(i + 1).last() == lines@[i as int]@);
        let line = string_from_chars(&lines[i]);
        let ghost o0 = out@;
        match parse_ls_files_line(line.as_str()) {
            Some(e) => {
                out.push(e);
                assert(out@.map_values(|e: (String, String)| (e.0@, e.1@)) =~= o0.map_values(
                    |e: (String, String)| (e.0@, e.1@),
                ) + seq![(e.0@, e.1@)]);
            },
            None => {
                assert(out@.map_values(|e: (String, String)| (e.0@, e.1@)) =~= o0.map_values(
                    |e: (String, String)| (e.0@, e.1@),
                ) + Seq::<(Seq<char>, Seq<char>)>::empty());
            },
        }
        i += 1;
    }
    assert(ls.take(lines@.len() as int) =~= ls);
    out
}

/// The views of a list of strings.
pub open spec fn views_of(v: Seq<String>) -> Seq<Seq<char>> {
    v.map_values(|x: String| x@)
}

/// A line of `git status --porcelain` as whether the file is untracked
/// (status `??`) and its path (from the fourth character on); lines shorter
/// than four characters carry nothing.
pub open spec fn status_entry(line: Seq<char>) -> Option<(bool, Seq<char>)> {
    if vstd::utf8::encode_utf8(line).len() < 4 {
        None
    } else if (line[0] as u32) < 0x80 {
        Some((line.take(2) == seq!['?', '?'], line.skip(3)))
    } else {
        Some((false, line.skip(2)))
    }
}

/// The paths of the status lines whose untracked flag is `untracked`.
pub open spec fn status_paths(lines: Seq<Seq<char>>, untracked: bool) -> Seq<Seq<char>>
    decreases lines.len(),
{
    if lines.len() == 0 {
        Seq::empty()
    } else {
        status_paths(lines.drop_last(), untracked) + match status_entry(lines.last()) {
            Some((u, path)) => if u == untracked {
                seq![path]
            } else {
                Seq::empty()
            },
            None => Seq::empty(),
        }
    }
}

/// The non-blank lines of `git diff --name-only`, trimmed.
pub open spec fn diff_paths(lines: Seq<Seq<char>>) -> Seq<Seq<char>>
    decreases lines.len(),
{
    if lines.len() == 0 {
        Seq::empty()
    } else {
        diff_paths(lines.drop_last()) + if crate::text::trim_spec(lines.last()).len() > 0 {
            seq![crate::text::trim_spec(lines.last())]
        } else {
            Seq::empty()
        }
    }
}

/// The status of a line of four or more bytes is read at byte offsets 2
/// and 3: those must fall between characters, which holds exactly when the
/// line starts with three one-byte characters (as `git status --porcelain`
/// lines do) or with a two-byte character and a one-byte one.
pub open spec fn status_text_ok(stdout: Seq<char>) -> bool {
    forall|k: int|
        0 <= k < crate::text::lines_spec(stdout).len() ==> {
            let l = #[trigger] crate::text::lines_spec(stdout)[k];
            vstd::utf8::encode_utf8(l).len() >= 4 ==> ((l.len() >= 3 && (l[0] as u32) < 0x80 && (l[1] as u32)
                < 0x80 && (l[2] as u32) < 0x80) || (l.len() >= 2 && 0x80 <= (l[0] as u32) <= 0x7FF && (l[1] as u32)
                < 0x80))
        }
}

/// The number of bytes that encode `c` in UTF-8.
fn utf8_width(c: char) -> (w: usize)
    ensures
        w == vstd::utf8::encode_scalar(c as u32).len(),
        1 <= w <= 4,
{
    let v = c as u32;
    if v < 0x80 {
        1
    } else if v < 0x800 {
        2
    } else if v < 0x10000 {
        3
    } else {
        4
    }
}

/// Whether the UTF-8 encoding of `l` is shorter than four bytes.
fn utf8_shorter_than_4(l: &Vec<char>) -> (r: bool)
    ensures
        r == (vstd::utf8::encode_utf8(l@).len() < 4),
{
    let mut acc: usize = 0;
    let mut i: usize = 0;
    assert(l@.skip(0) =~= l@);
    while i < l.len() && acc < 4
        invariant
            i <= l.len(),
            acc <= 7,
            acc + vstd::utf8::encode_utf8(l@.skip(i as int)).len() == vstd::utf8::encode_utf8(l@).len(),
        decreases l.len() - i,
    {
        let w = utf8_width(l[i]);
        assert(l@.skip(i as int).drop_first() =~= l@.skip(i + 1));
        assert(l@.skip(i as int)[0] == l@[i as int]);
        acc = acc + w;
        i = i + 1;
    }
    if i == l.len() {
        assert(l@.skip(i as int) =~= Seq::<char>::empty());
    }
    acc < 4
}

pub open spec fn append_new(s: Seq<Seq<char>>, xs: Seq<Seq<char>>) -> Seq<Seq<char>>
    decreases xs.len(),
{
    if xs.len() == 0 {
        s
    } else {
        let r = append_new(s, xs.drop_last());
        if r.contains(xs.last()) {
            r
        } else {
            r.push(xs.last())
        }
    }
}

/// Appending new paths keeps a list free of repeats and gives the union of
/// the two lists' paths.
pub proof fn lemma_append_new(s: Seq<Seq<char>>, xs: Seq<Seq<char>>)
    requires
        s.no_duplicates(),
    ensures
        append_new(s, xs).no_duplicates(),
        append_new(s, xs).to_set() == s.to_set().union(xs.to_set()),
        append_new(s, xs).len() >= s.len(),
        append_new(s, xs).take(s.len() as int) == s,
    decreases xs.len(),
{
    if xs.len() > 0 {
        let r = append_new(s, xs.drop_last());
        lemma_append_new(s, xs.drop_last());
        assert(xs.to_set() =~= xs.drop_last().to_set().insert(xs.last())) by {
            assert forall|p: Seq<char>| xs.to_set().contains(p) implies xs.drop_last().to_set().insert(xs.last()).contains(p) by {
                let k = choose|k: int| 0 <= k < xs.len() && xs[k] == p;
                if k < xs.len() - 1 {
                    assert(xs.drop_last()[k] == p);
                }
            }
            assert forall|p: Seq<char>| xs.drop_last().to_set().insert(xs.last()).contains(p) implies xs.to_set().contains(p) by {
                if p != xs.last() {
                    let k = choose|k: int| 0 <= k < xs.drop_last().len() && xs.drop_last()[k] == p;
                    assert(xs[k] == p);
                } else {
                    assert(xs[xs.len() - 1] == p);
                }
            }
        }
        if r.contains(xs.last()) {
            assert(r.to_set().contains(xs.last()));
            assert(append_new(s, xs).to_set() =~= s.to_set().union(xs.to_set()));
        } else {
            r.lemma_push_to_set_commute(xs.last());
            assert(r.push(xs.last()).to_set() =~= s.to_set().union(xs.to_set()));
            assert(r.push(xs.last()).take(s.len() as int) =~= r.take(s.len() as int));
        }
    } else {
        assert(xs.to_set() =~= Set::<Seq<char>>::empty());
        assert(s.to_set().union(xs.to_set()) =~= s.to_set());
        assert(s.take(s.len() as int) =~= s);
    }
}

/// Appending the paths of `xs + ys`, where `ys` holds at most one path, is
/// appending those of `xs` and then that path unless it is there already.
proof fn lemma_append_new_extend(s: Seq<Seq<char>>, xs: Seq<Seq<char>>, ys: Seq<Seq<char>>)
    requires
        ys.len() <= 1,
    ensures
        append_new(s, xs + ys) == if ys.len() == 0 {
            append_new(s, xs)
        } else if append_new(s, xs).contains(ys[0]) {
            append_new(s, xs)
        } else {
            append_new(s, xs).push(ys[0])
        },
{
    if ys.len() == 0 {
        assert(xs + ys =~= xs);
    } else {
        assert((xs + ys).drop_last() =~= xs);
        assert((xs + ys).last() == ys[0]);
    }
}

/// Pushes `item` onto `list` unless a path equal to it is there already.
fn push_new(list: &mut Vec<String>, item: Vec<char>)
    ensures
        views_of(final(list)@) == if views_of(old(list)@).contains(item@) {
            views_of(old(list)@)
        } else {
            views_of(old(list)@).push(item@)
        },
{
    if !contains_string(list, &item) {
        let ghost l0 = list@;
        list.push(string_from_chars(&item));
        assert(views_of(list@) =~= views_of(l0).push(item@));
    }
}

/// The files git reports as changed: files under version control that
/// were modified, staged, deleted, or changed since a starting commit, and
/// files git does not know yet.
/// Each list holds a path at most once, as the sets they stand for.
#[derive(Debug)]
pub struct ChangedFiles {
    pub modified: Vec<String>,
    pub untracked: Vec<String>,
}

impl ChangedFiles {
    /// Neither list holds a path twice.
    pub open spec fn wf(&self) -> bool {
        views_of(self.modified@).no_duplicates() && views_of(self.untracked@).no_duplicates()
    }

    /// No changed files.
    pub fn new() -> (res: Self)
        ensures
            res.wf(),
            res.modified@.len() == 0,
            res.untracked@.len() == 0,
    {
        ChangedFiles { modified: Vec::new(), untracked: Vec::new() }
    }

    /// Adds the files of the output of `git status --porcelain`: `??`
    /// lines to the untracked files, other lines to the modified ones.
    pub fn add_status_output(&mut self, stdout: &str)
        requires
            old(self).wf(),
            status_text_ok(stdout@),
        ensures
            final(self).wf(),
            views_of(final(self).modified@) == append_new(
                views_of(old(self).modified@),
                status_paths(crate::text::lines_spec(stdout@), false),
            ),
            views_of(final(self).untracked@) == append_new(
                views_of(old(self).untracked@),
                status_paths(crate::text::lines_spec(stdout@), true),
            ),
    {
        let lines = crate::text::lines_of(stdout);
        let ghost ls = lines@.map_values(|p: Vec<char>| p@);
        let ghost t0 = views_of(self.modified@);
        let ghost u0 = views_of(self.untracked@);
        let mut i: usize = 0;
        while i < lines.len()
            invariant
                i <= lines@.len(),
                ls == lines@.map_values(|p: Vec<char>| p@),
                views_of(self.modified@) == append_new(t0, status_paths(ls.take(i as int), false)),
                views_of(self.untracked@) == append_new(u0, status_paths(ls.take(i as int), true)),
                ls == crate::text::lines_spec(stdout@),
                status_text_ok(stdout@),
            decreases lines@.len() - i,
        {
            assert(ls.take(i + 1).drop_last() =~= ls.take(i as int));
            assert(ls.take(i + 1).last() == lines@[i as int]@);
            let line = &lines[i];
            assert(ls[i as int] == line@);
            if !utf8_shorter_than_4(line) && (line[0] as u32) >= 0x80 {
                let path = crate::text::chars_from(line, 2);
                push_new(&mut self.modified, path);
            } else if !utf8_shorter_than_4(line) {
                let path = crate::text::chars_from(line, 3);
                if line[0] == '?' && line[1] == '?' {
                    assert(line@.take(2) =~= seq!['?', '?']);
                    push_new(&mut self.untracked, path);
                } else {
                    assert(line@.take(2) != seq!['?', '?']) by {
                        if line@.take(2) == seq!['?', '?'] {
                            assert(line@.take(2)[0] == line@[0]);
                            assert(line@.take(2)[1] == line@[1]);
                        }
                    }
                    push_new(&mut self.modified, path);
                }
            }
            assert(status_paths(ls.take(i + 1), false) =~= status_paths(ls.take(i as int), false) + match status_entry(
                lines@[i as int]@,
            ) {
                Some((u, path)) => if u == false {
                    seq![path]
                } else {
                    Seq::empty()
                },
                None => Seq::empty(),
            });
            assert(status_paths(ls.take(i + 1), true) =~= status_paths(ls.take(i as int), true) + match status_entry(
                lines@[i as int]@,
            ) {
                Some((u, path)) => if u == true {
                    seq![path]
                } else {
                    Seq::empty()
                },
                None => Seq::empty(),
            });
            proof {
                lemma_append_new_extend(t0, status_paths(ls.take(i as int), false), match status_entry(lines@[i as int]@) {
                    Some((u, path)) => if u == false {
                        seq![path]
                    } else {
                        Seq::empty()
                    },
                    None => Seq::empty(),
                });
                lemma_append_new_extend(u0, status_paths(ls.take(i as int), true), match status_entry(lines@[i as int]@) {
                    Some((u, path)) => if u == true {
                        seq![path]
                    } else {
                        Seq::empty()
                    },
                    None => Seq::empty(),
                });
            }
            i += 1;
        }
        assert(ls.take(lines@.len() as int) =~= ls);
        proof {
            lemma_append_new(t0, status_paths(ls, false));
            lemma_append_new(u0, status_paths(ls, true));
        }
    }

    /// Adds the files of the output of `git diff --name-only` to the
    /// modified files: every non-blank line, trimmed.
    pub fn add_diff_output(&mut self, stdout: &str)
        requires
            old(self).wf(),
        ensures
            final(self).wf(),
            views_of(final(self).modified@) == append_new(
                views_of(old(self).modified@),
                diff_paths(crate::text::lines_spec(stdout@)),
            ),
            final(self).untracked@ == old(self).untracked@,
    {
        let lines = crate::text::lines_of(stdout);
        let ghost ls = lines@.map_values(|p: Vec<char>| p@);
        let ghost t0 = views_of(self.modified@);
        let mut i: usize = 0;
        while i < lines.len()
            invariant
                i <= lines@.len(),
                ls == lines@.map_values(|p: Vec<char>| p@),
                views_of(self.modified@) == append_new(t0, diff_paths(ls.take(i as int))),
                self.untracked@ == old(self).untracked@,
            decreases lines@.len() - i,
        {
            assert(ls.take(i + 1).drop_last() =~= ls.take(i as int));
            assert(ls.take(i + 1).last() == lines@[i as int]@);
            let trimmed = crate::text::trim_chars(&lines[i]);
            if trimmed.len() > 0 {
                push_new(&mut self.modified, trimmed);
            }
            proof {
                let add = if crate::text::trim_spec(ls[i as int]).len() > 0 {
                    seq![crate::text::trim_spec(ls[i as int])]
                } else {
                    Seq::<Seq<char>>::empty()
                };
                assert(diff_paths(ls.take(i + 1)) == diff_paths(ls.take(i as int)) + add);
                lemma_append_new_extend(t0, diff_paths(ls.take(i as int)), add);
            }
            i += 1;
        }
        assert(ls.take(lines@.len() as int) =~= ls);
        proof {
            lemma_append_new(t0, diff_paths(ls));
        }
    }

    /// All changed files, each once: the modified ones, then the untracked
    /// ones that are not also modified.
    pub fn all(&self) -> (res: Vec<String>)
        requires
            self.wf(),
        ensures
            views_of(res@) == append_new(views_of(self.modified@), views_of(self.untracked@)),
            views_of(res@).no_duplicates(),
            views_of(res@).to_set() == views_of(self.modified@).to_set().union(views_of(self.untracked@).to_set()),
    {
        let mut out: Vec<String> = Vec::new();
        let mut i: usize = 0;
        while i < self.modified.len()
            invariant
                i <= self.modified@.len(),
                views_of(out@) == views_of(self.modified@.take(i as int)),
            decreases self.modified@.len() - i,
        {
            let item = string_from_chars(&chars_of(self.modified[i].as_str()));
            assert(item@ == self.modified@[i as int]@);
            let ghost o0 = out@;
            out.push(item);
            assert(views_of(out@) =~= views_of(o0).push(item@));
            assert(views_of(self.modified@.take(i + 1)) =~= views_of(self.modified@.take(i as int)).push(
                self.modified@[i as int]@,
            ));
            i += 1;
        }
        assert(self.modified@.take(self.modified@.len() as int) =~= self.modified@);
        let ghost m = views_of(self.modified@);
        let ghost u = views_of(self.untracked@);
        assert(u.take(0) =~= Seq::<Seq<char>>::empty());
        let mut j: usize = 0;
        while j < self.untracked.len()
            invariant
                j <= self.untracked@.len(),
                u == views_of(self.untracked@),
                views_of(out@) == append_new(m, u.take(j as int)),
            decreases self.untracked@.len() - j,
        {
            let item = chars_of(self.untracked[j].as_str());
            assert(item@ == u[j as int]);
            push_new(&mut out, item);
            proof {
                assert(u.take(j + 1) =~= u.take(j as int) + seq![u[j as int]]);
                lemma_append_new_extend(m, u.take(j as int), seq![u[j as int]]);
            }
            j += 1;
        }
        assert(u.take(u.len() as int) =~= u);
        proof {
            lemma_append_new(m, u);
        }
        out
    }

    /// Whether no file changed.
    pub fn is_empty(&self) -> (res: bool)
        ensures
            res == (self.modified@.len() == 0 && self.untracked@.len() == 0),
    {
        self.modified.len() == 0 && self.untracked.len() == 0
    }

    /// Whether `path` is among the untracked files.
    pub fn is_untracked(&self, path: &str) -> (res: bool)
        ensures
            res == views_of(self.untracked@).contains(path@),
    {
        contains_string(&self.untracked, &chars_of(path))
    }
}

/// An ASCII hexadecimal digit.
pub open spec fn is_hex_digit(c: char) -> bool {
    ('0' <= c && c <= '9') || ('a' <= c && c <= 'f') || ('A' <= c && c <= 'F')
}

/// Forty hexadecimal digits: the text of a full SHA-1 object name.
pub open spec fn is_object_name(s: Seq<char>) -> bool {
    s.len() == 40 && forall|i: int| 0 <= i < 40 ==> is_hex_digit(#[trigger] s[i])
}

fn is_object_name_exec(v: &Vec<char>) -> (res: bool)
    ensures
        res == is_object_name(v@),
{
    if v.len() != 40 {
        return false;
    }
    let mut i: usize = 0;
    while i < 40
        invariant
            i <= 40,
            v@.len() == 40,
            forall|k: int| 0 <= k < i ==> is_hex_digit(#[trigger] v@[k]),
        decreases 40 - i,
    {
        let c = v[i];
        if !(('0' <= c && c <= '9') || ('a' <= c && c <= 'f') || ('A' <= c && c <= 'F')) {
            assert(!is_hex_digit(v@[i as int]));
            return false;
        }
        i += 1;
    }
    true
}

/// The commit named by the output of `git rev-parse HEAD`: the trimmed
/// output when it is a full object name.
pub open spec fn head_commit_spec(stdout: Seq<char>) -> Option<Seq<char>> {
    let hex = crate::text::trim_spec(stdout);
    if is_object_name(hex) {
        Some(hex)
    } else {
        None
    }
}

/// Reads the commit out of the output of `git rev-parse HEAD`.
pub fn head_commit_from_output(stdout: &str) -> (res: Option<String>)
    ensures
        match res {
            Some(s) => head_commit_spec(stdout@) == Some(s@),
            None => head_commit_spec(stdout@) is None,
        },
{
    let hex = crate::text::trim_chars(&chars_of(stdout));
    if is_object_name_exec(&hex) {
        Some(string_from_chars(&hex))
    } else {
        None
    }
}

/// A line of `git cat-file --batch-check` (`<name> <type> <size>`, or
/// `<object> missing`) as the object name it reports, if it reports one.
pub open spec fn batch_check_entry(line: Seq<char>) -> Option<Seq<char>> {
    let parts = crate::text::ws_fields(line);
    if parts.len() >= 2 && parts[1] != seq!['m', 'i', 's', 's', 'i', 'n', 'g'] && is_object_name(parts[0]) {
        Some(parts[0])
    } else {
        None
    }
}

/// The object name each line of `git cat-file --batch-check` reports, in
/// order, `None` for objects that are missing or malformed lines.
pub fn parse_batch_check_output(stdout: &str) -> (res: Vec<Option<String>>)
    ensures
        res@.len() == crate::text::lines_spec(stdout@).len(),
        forall|k: int|
            0 <= k < res@.len() ==> match #[trigger] res@[k] {
                Some(s) => batch_check_entry(crate::text::lines_spec(stdout@)[k]) == Some(s@),
                None => batch_check_entry(crate::text::lines_spec(stdout@)[k]) is None,
            },
{
    let lines = crate::text::lines_of(stdout);
    let ghost ls = lines@.map_values(|p: Vec<char>| p@);
    let missing: Vec<char> = vec!['m', 'i', 's', 's', 'i', 'n', 'g'];
    let mut out: Vec<Option<String>> = Vec::new();
    let mut i: usize = 0;
    while i < lines.len()
        invariant
            i <= lines@.len(),
            ls == lines@.map_values(|p: Vec<char>| p@),
            missing@ == seq!['m', 'i', 's', 's', 'i', 'n', 'g'],
            out@.len() == i,
            forall|k: int|
                0 <= k < i ==> match #[trigger] out@[k] {
                    Some(s) => batch_check_entry(ls[k]) == Some(s@),
                    None => batch_check_entry(ls[k]) is None,
                },
        decreases lines@.len() - i,
    {
        let parts = crate::text::split_whitespace_chars(&lines[i]);
        let ghost ps = parts@.map_values(|p: Vec<char>| p@);
        assert(ls[i as int] == lines@[i as int]@);
        let entry = if parts.len() >= 2 && !chars_eq(&parts[1], &missing) && is_object_name_exec(&parts[0]) {
            assert(ps[0] == parts@[0]@ && ps[1] == parts@[1]@);
            Some(string_from_chars(&parts[0]))
        } else {
            proof {
                if parts@.len() >= 2 {
                    assert(ps[0] == parts@[0]@ && ps[1] == parts@[1]@);
                }
            }
            None
        };
        out.push(entry);
        i += 1;
    }
    out
}

// ---------------------------------------------------------------------------
// Committed hashes of changed scripts
// ---------------------------------------------------------------------------

/// Which version of a file an object name asks for.
#[derive(Debug, Clone, Copy, PartialEq, Eq, Structural)]
pub enum RefKind {
    /// The committed version (`HEAD:<path>`).
    Head,
    /// The staged version (`:0:<path>`).
    Staged,
    /// The version in the commit the session started from.
    InitialHead,
}

/// An object name asked for one of the resolved instances.
#[derive(Debug, Clone, Copy)]
pub struct ScriptRef {
    pub resolved_idx: usize,
    pub kind: RefKind,
}

/// `path` with `\` written as `/`.
pub open spec fn slash_path(path: Seq<char>) -> Seq<char> {
    crate::text::replace_spec(path, seq!['\\'], seq!['/'])
}

/// The object name by which `git show` reads the committed version of the
/// file at `rel_path`: `HEAD:` and the path with `\` written as `/`.
pub fn head_object_name(rel_path: &str) -> (r: String)
    ensures
        r@ == seq!['H', 'E', 'A', 'D', ':'] + slash_path(rel_path@),
{
    let backslash = vec!['\\'];
    let slash = vec!['/'];
    assert(backslash@ =~= seq!['\\']);
    assert(slash@ =~= seq!['/']);
    let p = crate::text::replace_all(&chars_of(rel_path), &backslash, &slash);
    let mut out: Vec<char> = vec!['H', 'E', 'A', 'D', ':'];
    crate::text::push_all(&mut out, &p);
    string_from_chars(&out)
}

/// The object name by which `git show` reads the staged version of the file
/// at `rel_path`: `:0:` and the path with `\` written as `/`.
pub fn staged_object_name(rel_path: &str) -> (r: String)
    ensures
        r@ == seq![':', '0', ':'] + slash_path(rel_path@),
{
    let backslash = vec!['\\'];
    let slash = vec!['/'];
    assert(backslash@ =~= seq!['\\']);
    assert(slash@ =~= seq!['/']);
    let p = crate::text::replace_all(&chars_of(rel_path), &backslash, &slash);
    let mut out: Vec<char> = vec![':', '0', ':'];
    crate::text::push_all(&mut out, &p);
    string_from_chars(&out)
}

/// The object names asked for instance `i` of class `class_name` at
/// `path`: none unless it is a script; otherwise its committed and staged
/// versions and, with a starting commit, its version there.
pub open spec fn refs_for(
    class_name: Seq<char>,
    path: Seq<char>,
    i: int,
    initial_head: Option<Seq<char>>,
) -> Seq<(Seq<char>, int, RefKind)> {
    if !(class_name == "Script"@ || class_name == "LocalScript"@ || class_name == "ModuleScript"@) {
        Seq::empty()
    } else {
        let p = slash_path(path);
        seq![(seq!['H', 'E', 'A', 'D', ':'] + p, i, RefKind::Head), (seq![':', '0', ':'] + p, i, RefKind::Staged)]
            + match initial_head {
            Some(ih) => seq![(ih + seq![':'] + p, i, RefKind::InitialHead)],
            None => Seq::empty(),
        }
    }
}

/// The object names asked for the first `k` instances, in order.
pub open spec fn refs_upto(
    classes: Seq<Seq<char>>,
    paths: Seq<Seq<char>>,
    initial_head: Option<Seq<char>>,
    k: nat,
) -> Seq<(Seq<char>, int, RefKind)>
    decreases k,
{
    if k == 0 {
        Seq::empty()
    } else {
        refs_upto(classes, paths, initial_head, (k - 1) as nat) + refs_for(
            classes[k - 1],
            paths[k - 1],
            k - 1,
            initial_head,
        )
    }
}

/// The object names, and what each is asked for, whose hashes are looked up
/// for the scripts among the resolved instances (class names and paths
/// relative to the repository).
pub fn script_object_refs(class_names: &Vec<String>, rel_paths: &Vec<String>, initial_head: Option<&str>) -> (res: (
    Vec<String>,
    Vec<ScriptRef>,
))
    requires
        class_names@.len() == rel_paths@.len(),
    ensures
        res.0@.len() == res.1@.len(),
        res.0@.len() == refs_upto(
            views_of(class_names@),
            views_of(rel_paths@),
            match initial_head {
                Some(h) => Some(h@),
                None => None,
            },
            class_names@.len(),
        ).len(),
        forall|k: int|
            0 <= k < res.0@.len() ==> (#[trigger] res.0@[k]@, res.1@[k].resolved_idx as int, res.1@[k].kind)
                == refs_upto(
                views_of(class_names@),
                views_of(rel_paths@),
                match initial_head {
                    Some(h) => Some(h@),
                    None => None,
                },
                class_names@.len(),
            )[k],
{
    let ghost ih: Option<Seq<char>> = match initial_head {
        Some(h) => Some(h@),
        None => None,
    };
    let ghost cs = views_of(class_names@);
    let ghost ps = views_of(rel_paths@);
    let mut names: Vec<String> = Vec::new();
    let mut refs: Vec<ScriptRef> = Vec::new();
    let backslash = vec!['\\'];
    let slash = vec!['/'];
    assert(backslash@ =~= seq!['\\']);
    assert(slash@ =~= seq!['/']);
    let mut i: usize = 0;
    while i < class_names.len()
        invariant
            i <= class_names@.len(),
            class_names@.len() == rel_paths@.len(),
            cs == views_of(class_names@),
            ps == views_of(rel_paths@),
            ih == match initial_head {
                Some(h) => Some(h@),
                None => None::<Seq<char>>,
            },
            backslash@ == seq!['\\'],
            slash@ == seq!['/'],
            names@.len() == refs@.len(),
            names@.len() == refs_upto(cs, ps, ih, i as nat).len(),
            forall|k: int|
                0 <= k < names@.len() ==> (#[trigger] names@[k]@, refs@[k].resolved_idx as int, refs@[k].kind)
                    == refs_upto(cs, ps, ih, i as nat)[k],
        decreases class_names@.len() - i,
    {
        let ghost before = refs_upto(cs, ps, ih, i as nat);
        let ghost n0 = names@.len();
        assert(cs[i as int] == class_names@[i as int]@);
        assert(ps[i as int] == rel_paths@[i as int]@);
        if is_script_class(class_names[i].as_str()) {
            let p = crate::text::replace_all(&chars_of(rel_paths[i].as_str()), &backslash, &slash);
            let mut head: Vec<char> = vec!['H', 'E', 'A', 'D', ':'];
            crate::text::push_all(&mut head, &p);
            let mut staged: Vec<char> = vec![':', '0', ':'];
            crate::text::push_all(&mut staged, &p);
            names.push(string_from_chars(&head));
            refs.push(ScriptRef { resolved_idx: i, kind: RefKind::Head });
            names.push(string_from_chars(&staged));
            refs.push(ScriptRef { resolved_idx: i, kind: RefKind::Staged });
            match initial_head {
                Some(h) => {
                    let mut at: Vec<char> = chars_of(h);
                    at.push(':');
                    crate::text::push_all(&mut at, &p);
                    names.push(string_from_chars(&at));
                    refs.push(ScriptRef { resolved_idx: i, kind: RefKind::InitialHead });
                },
                None => {},
            }
            let ghost added = refs_for(cs[i as int], ps[i as int], i as int, ih);
            assert(refs_upto(cs, ps, ih, (i + 1) as nat) == before + added);
            assert forall|k: int|
                0 <= k < names@.len() implies (#[trigger] names@[k]@, refs@[k].resolved_idx as int, refs@[k].kind)
                == refs_upto(cs, ps, ih, (i + 1) as nat)[k] by {
                if k >= n0 {
                    assert((before + added)[k] == added[k - n0]);
                }
            }
        } else {
            assert(refs_upto(cs, ps, ih, (i + 1) as nat) =~= before);
        }
        i += 1;
    }
    (names, refs)
}

/// The hashes found for each instance after the first `k` lookups: a
/// committed hash is always added, a staged or starting-commit hash only
/// when not already there; lookups that found nothing add nothing.
pub open spec fn merged_hashes(
    n: nat,
    refs: Seq<ScriptRef>,
    hashes: Seq<Option<Seq<char>>>,
    k: nat,
) -> Seq<Seq<Seq<char>>>
    decreases k,
{
    if k == 0 {
        Seq::new(n, |_i: int| Seq::empty())
    } else {
        let m = merged_hashes(n, refs, hashes, (k - 1) as nat);
        let r = refs[k - 1];
        if k - 1 < hashes.len() && hashes[k - 1] is Some {
            let h = hashes[k - 1]->Some_0;
            let cur = m[r.resolved_idx as int];
            if r.kind == RefKind::Head || !cur.contains(h) {
                m.update(r.resolved_idx as int, cur.push(h))
            } else {
                m
            }
        } else {
            m
        }
    }
}

/// The views of optional strings.
pub open spec fn opt_views(v: Seq<Option<String>>) -> Seq<Option<Seq<char>>> {
    v.map_values(|o: Option<String>| match o {
        Some(s) => Some(s@),
        None => None,
    })
}

/// The views of lists of strings.
pub open spec fn nested_views(v: Seq<Vec<String>>) -> Seq<Seq<Seq<char>>> {
    v.map_values(|l: Vec<String>| views_of(l@))
}

/// A copy of a list of strings.
fn copy_strings(list: &Vec<String>) -> (res: Vec<String>)
    ensures
        views_of(res@) == views_of(list@),
{
    let mut out: Vec<String> = Vec::new();
    let mut i: usize = 0;
    while i < list.len()
        invariant
            i <= list@.len(),
            views_of(out@) == views_of(list@.take(i as int)),
        decreases list@.len() - i,
    {
        let item = string_from_chars(&chars_of(list[i].as_str()));
        assert(item@ == list@[i as int]@);
        let ghost o0 = out@;
        out.push(item);
        assert(views_of(out@) =~= views_of(o0).push(item@));
        assert(views_of(list@.take(i + 1)) =~= views_of(list@.take(i as int)).push(list@[i as int]@));
        i += 1;
    }
    assert(list@.take(list@.len() as int) =~= list@);
    out
}

/// Whether `list` holds `h`.
fn contains_string(list: &Vec<String>, h: &Vec<char>) -> (res: bool)
    ensures
        res == views_of(list@).contains(h@),
{
    let ghost vs = views_of(list@);
    let mut i: usize = 0;
    while i < list.len()
        invariant
            i <= list@.len(),
            vs == views_of(list@),
            forall|k: int| 0 <= k < i ==> vs[k] != h@,
        decreases list@.len() - i,
    {
        assert(vs[i as int] == list@[i as int]@);
        if chars_eq(&chars_of(list[i].as_str()), h) {
            return true;
        }
        i += 1;
    }
    false
}

/// The committed hashes of each of `n` instances, from the results of the
/// lookups `refs` (one result per lookup, in order; results past the end
/// count as not found). An instance with no hash has an empty list.
pub fn merge_committed_hashes(n: usize, refs: &Vec<ScriptRef>, hashes: &Vec<Option<String>>) -> (res: Vec<Vec<String>>)
    requires
        forall|k: int| 0 <= k < refs@.len() ==> (#[trigger] refs@[k]).resolved_idx < n,
    ensures
        nested_views(res@) == merged_hashes(n as nat, refs@, opt_views(hashes@), refs@.len()),
{
    let ghost hs = opt_views(hashes@);
    let mut out: Vec<Vec<String>> = Vec::new();
    let mut q: usize = 0;
    while q < n
        invariant
            q <= n,
            out@.len() == q,
            forall|j: int| 0 <= j < q ==> (#[trigger] out@[j])@.len() == 0,
        decreases n - q,
    {
        out.push(Vec::new());
        q += 1;
    }
    assert(nested_views(out@) =~= merged_hashes(n as nat, refs@, hs, 0)) by {
        assert forall|j: int| 0 <= j < n implies #[trigger] nested_views(out@)[j] == merged_hashes(
            n as nat,
            refs@,
            hs,
            0,
        )[j] by {
            assert(views_of(out@[j]@) =~= Seq::<Seq<char>>::empty());
        }
    }
    let mut i: usize = 0;
    while i < refs.len()
        invariant
            i <= refs@.len(),
            out@.len() == n,
            hs == opt_views(hashes@),
            forall|k: int| 0 <= k < refs@.len() ==> (#[trigger] refs@[k]).resolved_idx < n,
            nested_views(out@) == merged_hashes(n as nat, refs@, hs, i as nat),
        decreases refs@.len() - i,
    {
        let r = refs[i];
        let ghost m = merged_hashes(n as nat, refs@, hs, i as nat);
        if i < hashes.len() {
            match &hashes[i] {
                Some(h) => {
                    let hc = chars_of(h.as_str());
                    let idx = r.resolved_idx;
                    assert(hs[i as int] == Some(h@));
                    assert(views_of(out@[idx as int]@) == m[idx as int]);
                    let add = match r.kind {
                        RefKind::Head => true,
                        _ => !contains_string(&out[idx], &hc),
                    };
                    if add {
                        let mut list = copy_strings(&out[idx]);
                        let ghost l0 = list@;
                        list.push(string_from_chars(&hc));
                        assert(views_of(list@) =~= views_of(l0).push(h@));
                        out.set(idx, list);
                        assert(nested_views(out@) =~= m.update(idx as int, m[idx as int].push(h@)));
                    }
                },
                None => {
                    assert(hs[i as int] is None);
                },
            }
        }
        i += 1;
    }
    out
}

} // verus!
