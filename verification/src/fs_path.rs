//! File paths as text, and the file names that two-way sync derives from
//! them.
//!
//! A path here is `/`-separated text. Its file name is the text after the
//! last `/` (all of it when there is none), its directory part is the text
//! up to and including that `/`, and its parent is the directory part
//! without the final `/` (`/` itself for a file at the root). The stem and
//! extension of a file name split it at its last `.`, as `std::path` does:
//! a name whose only `.` is its first character, and `..`, have no
//! extension.

use vstd::prelude::*;
use crate::rojo_ref::{split_slash, join_slash, views, split_slash_chars, join_slash_range};
use crate::text::{chars_of, string_from_chars, push_str, push_all, has_prefix, has_suffix, matches_at};

verus! {

// ---------------------------------------------------------------------------
// Path pieces
// ---------------------------------------------------------------------------

/// Index of the last `c` in `s`, or `-1` when `s` holds none.
pub open spec fn last_index_of(s: Seq<char>, c: char) -> int
    decreases s.len(),
{
    if s.len() == 0 {
        -1
    } else if s.last() == c {
        s.len() - 1
    } else {
        last_index_of(s.drop_last(), c)
    }
}

pub proof fn lemma_last_index_of(s: Seq<char>, c: char)
    ensures
        -1 <= last_index_of(s, c) < s.len(),
        last_index_of(s, c) >= 0 ==> s[last_index_of(s, c)] == c,
        forall|i: int| last_index_of(s, c) < i < s.len() ==> s[i] != c,
    decreases s.len(),
{
    if s.len() > 0 && s.last() != c {
        lemma_last_index_of(s.drop_last(), c);
        let k = last_index_of(s.drop_last(), c);
        assert forall|i: int| k < i < s.len() implies s[i] != c by {
            if i < s.len() - 1 {
                assert(s.drop_last()[i] == s[i]);
            }
        }
    }
}

proof fn lemma_last_index_unique(s: Seq<char>, c: char, k: int)
    requires
        -1 <= k < s.len(),
        k >= 0 ==> s[k] == c,
        forall|i: int| k < i < s.len() ==> s[i] != c,
    ensures
        last_index_of(s, c) == k,
    decreases s.len(),
{
    if s.len() > 0 && k < s.len() - 1 {
        assert(s.last() != c);
        let t = s.drop_last();
        assert forall|i: int| k < i < t.len() implies t[i] != c by {
            assert(t[i] == s[i]);
        }
        lemma_last_index_unique(t, c, k);
    }
}

/// One more than the index of the last `c` in `v` (zero when there is
/// none): the length of the text up to and including it.
fn after_last(v: &Vec<char>, c: char) -> (r: usize)
    ensures
        r == last_index_of(v@, c) + 1,
{
    let mut i = v.len();
    while i > 0 && v[i - 1] != c
        invariant
            i <= v.len(),
            forall|j: int| i <= j < v.len() ==> v@[j] != c,
        decreases i,
    {
        i -= 1;
    }
    proof {
        lemma_last_index_unique(v@, c, i - 1);
    }
    i
}

/// Where the file name of `p` starts.
pub open spec fn name_start(p: Seq<char>) -> int {
    last_index_of(p, '/') + 1
}

/// The file name of `p`: the text after its last `/`.
pub open spec fn file_name_spec(p: Seq<char>) -> Seq<char> {
    p.skip(name_start(p))
}

/// The directory part of `p`: the text up to and including its last `/`.
pub open spec fn dir_part(p: Seq<char>) -> Seq<char> {
    p.take(name_start(p))
}

/// The parent of `p`: its directory part without the final `/`, except
/// that a file at the root has the root `/` as parent.
pub open spec fn parent_spec(p: Seq<char>) -> Seq<char> {
    if name_start(p) <= 1 {
        p.take(name_start(p))
    } else {
        p.take(name_start(p) - 1)
    }
}

/// `name` joined onto the directory `dir`, with one `/` between them
/// unless `dir` is empty or already ends with `/`.
pub open spec fn join_spec(dir: Seq<char>, name: Seq<char>) -> Seq<char> {
    if dir.len() == 0 || dir.last() == '/' {
        dir + name
    } else {
        dir.push('/') + name
    }
}

/// `p` with its file name replaced by `name`.
pub open spec fn with_file_name_spec(p: Seq<char>, name: Seq<char>) -> Seq<char> {
    dir_part(p) + name
}

/// Whether the file name `n` has an extension: a `.` that is not its first
/// character, and `n` is not `..`.
pub open spec fn has_extension(n: Seq<char>) -> bool {
    n != seq!['.', '.'] && last_index_of(n, '.') > 0
}

/// The stem of the file name `n`: the text before its last `.`, or all of
/// `n` when it has no extension.
pub open spec fn file_stem_spec(n: Seq<char>) -> Seq<char> {
    if has_extension(n) {
        n.take(last_index_of(n, '.'))
    } else {
        n
    }
}

/// The extension of the file name `n`: the text after its last `.`, or the
/// empty text when it has none.
pub open spec fn extension_spec(n: Seq<char>) -> Seq<char> {
    if has_extension(n) {
        n.skip(last_index_of(n, '.') + 1)
    } else {
        Seq::empty()
    }
}

fn file_name_chars(p: &Vec<char>) -> (r: Vec<char>)
    ensures
        r@ == file_name_spec(p@),
{
    let k = after_last(p, '/');
    proof {
        lemma_last_index_of(p@, '/');
    }
    let mut r: Vec<char> = Vec::new();
    let mut i = k;
    while i < p.len()
        invariant
            k <= i <= p.len(),
            k == name_start(p@),
            r@ == p@.subrange(k as int, i as int),
        decreases p.len() - i,
    {
        r.push(p[i]);
        i += 1;
        assert(r@ =~= p@.subrange(k as int, i as int));
    }
    assert(r@ =~= file_name_spec(p@));
    r
}

fn prefix_chars(p: &Vec<char>, n: usize) -> (r: Vec<char>)
    requires
        n <= p.len(),
    ensures
        r@ == p@.take(n as int),
{
    let mut r: Vec<char> = Vec::new();
    let mut i: usize = 0;
    while i < n
        invariant
            i <= n <= p.len(),
            r@ == p@.take(i as int),
        decreases n - i,
    {
        r.push(p[i]);
        i += 1;
        assert(r@ =~= p@.take(i as int));
    }
    r
}

fn dir_part_chars(p: &Vec<char>) -> (r: Vec<char>)
    ensures
        r@ == dir_part(p@),
{
    let k = after_last(p, '/');
    proof {
        lemma_last_index_of(p@, '/');
    }
    prefix_chars(p, k)
}

fn parent_chars(p: &Vec<char>) -> (r: Vec<char>)
    ensures
        r@ == parent_spec(p@),
{
    let k = after_last(p, '/');
    proof {
        lemma_last_index_of(p@, '/');
    }
    if k <= 1 {
        prefix_chars(p, k)
    } else {
        prefix_chars(p, k - 1)
    }
}

fn join_chars(dir: &Vec<char>, name: &str) -> (r: Vec<char>)
    ensures
        r@ == join_spec(dir@, name@),
{
    let mut r = dir.clone();
    assert(r@ == dir@);
    if dir.len() > 0 && dir[dir.len() - 1] != '/' {
        r.push('/');
    }
    push_str(&mut r, name);
    r
}

/// The stem and the extension of the file name `n`.
fn stem_and_extension(n: &Vec<char>) -> (r: (Vec<char>, Vec<char>))
    ensures
        r.0@ == file_stem_spec(n@),
        r.1@ == extension_spec(n@),
{
    let k = after_last(n, '.');
    proof {
        lemma_last_index_of(n@, '.');
    }
    let is_dot_dot = n.len() == 2 && n[0] == '.' && n[1] == '.';
    proof {
        if n@.len() == 2 && n@[0] == '.' && n@[1] == '.' {
            assert(n@ =~= seq!['.', '.']);
        }
        if n@ == seq!['.', '.'] {
            assert(n@[0] == '.' && n@[1] == '.');
        }
    }
    if is_dot_dot || k <= 1 {
        (n.clone(), Vec::new())
    } else {
        let stem = prefix_chars(n, k - 1);
        let mut ext: Vec<char> = Vec::new();
        let mut i = k;
        while i < n.len()
            invariant
                k <= i <= n.len(),
                ext@ == n@.subrange(k as int, i as int),
            decreases n.len() - i,
        {
            ext.push(n[i]);
            i += 1;
            assert(ext@ =~= n@.subrange(k as int, i as int));
        }
        assert(ext@ =~= n@.skip(k as int));
        (stem, ext)
    }
}

/// Whether `v` begins with the characters of `prefix`.
fn starts_with_str(v: &Vec<char>, prefix: &str) -> (r: bool)
    ensures
        r == has_prefix(v@, prefix@),
{
    let s = chars_of(prefix);
    matches_at(v, 0, &s)
}

/// `v` without `suffix`, when it ends with it.
fn strip_suffix_str(v: &Vec<char>, suffix: &str) -> (r: Option<Vec<char>>)
    ensures
        r is Some <==> has_suffix(v@, suffix@),
        r is Some ==> r->0@ == v@.take(v@.len() - suffix@.len()),
{
    let s = chars_of(suffix);
    if s.len() > v.len() {
        return None;
    }
    if matches_at(v, v.len() - s.len(), &s) {
        Some(prefix_chars(v, v.len() - s.len()))
    } else {
        None
    }
}

// ---------------------------------------------------------------------------
// Script file names
// ---------------------------------------------------------------------------

/// The stem of a script's file name without the script-kind suffix it ends
/// with, if any (`.server`, `.client`, `.plugin`, `.local`, `.legacy`, tried
/// in that order).
pub open spec fn script_base(stem: Seq<char>) -> Seq<char> {
    if has_suffix(stem, ".server"@) {
        stem.take(stem.len() - ".server"@.len())
    } else if has_suffix(stem, ".client"@) {
        stem.take(stem.len() - ".client"@.len())
    } else if has_suffix(stem, ".plugin"@) {
        stem.take(stem.len() - ".plugin"@.len())
    } else if has_suffix(stem, ".local"@) {
        stem.take(stem.len() - ".local"@.len())
    } else if has_suffix(stem, ".legacy"@) {
        stem.take(stem.len() - ".legacy"@.len())
    } else {
        stem
    }
}

fn script_base_chars(stem: &Vec<char>) -> (r: Vec<char>)
    ensures
        r@ == script_base(stem@),
{
    if let Some(b) = strip_suffix_str(stem, ".server") {
        b
    } else if let Some(b) = strip_suffix_str(stem, ".client") {
        b
    } else if let Some(b) = strip_suffix_str(stem, ".plugin") {
        b
    } else if let Some(b) = strip_suffix_str(stem, ".local") {
        b
    } else if let Some(b) = strip_suffix_str(stem, ".legacy") {
        b
    } else {
        stem.clone()
    }
}

/// The script-kind suffix a stem ends with when a file is renamed: the first
/// of `.server`, `.client`, `.plugin`, `.local`, `.legacy` and `.model` that
/// the stem ends with, or the empty text.
pub open spec fn rename_suffix(stem: Seq<char>) -> Seq<char> {
    if has_suffix(stem, ".server"@) {
        ".server"@
    } else if has_suffix(stem, ".client"@) {
        ".client"@
    } else if has_suffix(stem, ".plugin"@) {
        ".plugin"@
    } else if has_suffix(stem, ".local"@) {
        ".local"@
    } else if has_suffix(stem, ".legacy"@) {
        ".legacy"@
    } else if has_suffix(stem, ".model"@) {
        ".model"@
    } else {
        Seq::empty()
    }
}

/// A file name taken apart for a rename: the base that carries the
/// instance's name, the script-kind suffix after it, and the extension.
pub struct ScriptFileParts {
    pub base: String,
    pub suffix: String,
    pub extension: String,
}

/// The file name put together from a base name, a script-kind suffix and an
/// extension (no `.` before an empty extension).
pub open spec fn script_file_name_spec(base: Seq<char>, suffix: Seq<char>, extension: Seq<char>) -> Seq<char> {
    if extension.len() == 0 {
        base + suffix
    } else {
        base + suffix + seq!['.'] + extension
    }
}

fn suffix_chars(stem: &Vec<char>) -> (r: Vec<char>)
    ensures
        r@ == rename_suffix(stem@),
        has_suffix(stem@, r@),
{
    if strip_suffix_str(stem, ".server").is_some() {
        chars_of(".server")
    } else if strip_suffix_str(stem, ".client").is_some() {
        chars_of(".client")
    } else if strip_suffix_str(stem, ".plugin").is_some() {
        chars_of(".plugin")
    } else if strip_suffix_str(stem, ".local").is_some() {
        chars_of(".local")
    } else if strip_suffix_str(stem, ".legacy").is_some() {
        chars_of(".legacy")
    } else if strip_suffix_str(stem, ".model").is_some() {
        chars_of(".model")
    } else {
        assert(stem@.subrange(stem@.len() - 0, stem@.len() as int) =~= Seq::<char>::empty());
        Vec::new()
    }
}

/// Takes a script's file name apart for a rename: the extension, the
/// script-kind suffix at the end of the stem, and the stem without it.
pub fn script_file_parts(file_name: &str) -> (r: ScriptFileParts)
    ensures
        r.extension@ == extension_spec(file_name@),
        r.suffix@ == rename_suffix(file_stem_spec(file_name@)),
        r.base@ == file_stem_spec(file_name@).take(
            file_stem_spec(file_name@).len() - rename_suffix(file_stem_spec(file_name@)).len(),
        ),
{
    let n = chars_of(file_name);
    let (stem, ext) = stem_and_extension(&n);
    let suffix = suffix_chars(&stem);
    let base = prefix_chars(&stem, stem.len() - suffix.len());
    ScriptFileParts {
        base: string_from_chars(&base),
        suffix: string_from_chars(&suffix),
        extension: string_from_chars(&ext),
    }
}

/// The file name of a renamed script: the new base name, then the
/// script-kind suffix, then `.` and the extension unless it is empty.
pub fn script_file_name(base: &str, suffix: &str, extension: &str) -> (r: String)
    ensures
        r@ == script_file_name_spec(base@, suffix@, extension@),
{
    let mut v = chars_of(base);
    push_str(&mut v, suffix);
    let e = chars_of(extension);
    if e.len() > 0 {
        v.push('.');
        push_all(&mut v, &e);
    }
    string_from_chars(&v)
}

/// Taking a file name apart and putting it back together gives the same
/// name, unless the name ends with a `.` that starts its extension.
pub proof fn lemma_script_file_name_roundtrip(n: Seq<char>)
    requires
        !(has_extension(n) && extension_spec(n).len() == 0),
    ensures
        ({
            let stem = file_stem_spec(n);
            let suffix = rename_suffix(stem);
            script_file_name_spec(stem.take(stem.len() - suffix.len()), suffix, extension_spec(n)) == n
        }),
{
    let stem = file_stem_spec(n);
    let suffix = rename_suffix(stem);
    if suffix.len() == 0 {
        assert(stem.subrange(stem.len() as int, stem.len() as int) =~= suffix);
    }
    assert(has_suffix(stem, suffix));
    assert(stem.take(stem.len() - suffix.len()) + suffix =~= stem);
    if has_extension(n) {
        lemma_last_index_of(n, '.');
        let k = last_index_of(n, '.');
        assert(stem + seq!['.'] + extension_spec(n) =~= n);
    }
}

/// The script-kind suffix that a script class is stored under.
pub open spec fn class_script_suffix(class_name: Seq<char>) -> Seq<char> {
    if class_name == "Script"@ {
        ".server"@
    } else if class_name == "LocalScript"@ {
        ".local"@
    } else {
        Seq::empty()
    }
}

/// The new file name of a script whose class changes: `init` for a
/// directory's init file, else the base of its stem, then the new class's
/// suffix and `.luau`.
pub open spec fn class_file_name_spec(file_name: Seq<char>, class_name: Seq<char>) -> Seq<char> {
    let base = if has_prefix(file_name, "init."@) {
        "init"@
    } else {
        script_base(file_stem_spec(file_name))
    };
    base + class_script_suffix(class_name) + ".luau"@
}

/// The file name a script is renamed to when its class changes to
/// `new_class`.
pub fn script_file_name_for_class(file_name: &str, new_class: &str) -> (r: String)
    ensures
        r@ == class_file_name_spec(file_name@, new_class@),
{
    let n = chars_of(file_name);
    let mut v = if starts_with_str(&n, "init.") {
        chars_of("init")
    } else {
        let (stem, _ext) = stem_and_extension(&n);
        script_base_chars(&stem)
    };
    if crate::text::str_eq(new_class, "Script") {
        push_str(&mut v, ".server");
    } else if crate::text::str_eq(new_class, "LocalScript") {
        push_str(&mut v, ".local");
    }
    push_str(&mut v, ".luau");
    string_from_chars(&v)
}

// ---------------------------------------------------------------------------
// Paths of renamed instances
// ---------------------------------------------------------------------------

/// The names that a directory-format script may keep inside its directory.
pub open spec fn init_variant_names() -> Seq<Seq<char>> {
    seq![
        "init.luau"@,
        "init.server.luau"@,
        "init.client.luau"@,
        "init.plugin.luau"@,
        "init.local.luau"@,
        "init.legacy.luau"@,
        "init.csv"@,
        "init.lua"@,
        "init.server.lua"@,
        "init.client.lua"@,
        "init.local.lua"@,
        "init.meta.json5"@,
    ]
}

/// The paths whose changes concern the instance stored at `p`: for an init
/// file, its directory and every init file that directory may hold; for any
/// other file, the file and the `.meta.json5` file beside it.
pub open spec fn relevant_paths_spec(p: Seq<char>) -> Seq<Seq<char>> {
    let name = file_name_spec(p);
    if has_prefix(name, "init."@) {
        let d = parent_spec(p);
        seq![d] + init_variant_names().map_values(|n: Seq<char>| join_spec(d, n))
    } else {
        seq![p, with_file_name_spec(p, script_base(file_stem_spec(name)) + ".meta.json5"@)]
    }
}

/// Joining a name that holds no `/` onto a directory that does not end
/// with `/` gives a path whose parent is that directory and whose file
/// name is that name.
pub proof fn lemma_join_parts(d: Seq<char>, name: Seq<char>)
    requires
        d.len() > 0,
        d.last() != '/',
        forall|i: int| 0 <= i < name.len() ==> name[i] != '/',
    ensures
        file_name_spec(join_spec(d, name)) == name,
        parent_spec(join_spec(d, name)) == d,
{
    let p = d.push('/') + name;
    assert(join_spec(d, name) == p);
    assert forall|i: int| d.len() < i < p.len() implies p[i] != '/' by {
        assert(p[i] == name[i - d.len() - 1]);
    }
    lemma_last_index_unique(p, '/', d.len() as int);
    assert(p.skip(d.len() + 1int) =~= name);
    assert(p.take(d.len() as int) =~= d);
}

/// The views of a sequence of strings.
pub open spec fn views_of(v: Seq<String>) -> Seq<Seq<char>> {
    v.map_values(|s: String| s@)
}

fn push_joined(out: &mut Vec<String>, dir: &Vec<char>, name: &str)
    ensures
        views_of(final(out)@) == views_of(old(out)@).push(join_spec(dir@, name@)),
{
    let j = join_chars(dir, name);
    let s = string_from_chars(&j);
    out.push(s);
    assert(views_of(out@) =~= views_of(old(out)@).push(join_spec(dir@, name@)));
}

/// The paths to watch for the instance whose file is now `new_path` (after
/// a rename or a class change).
pub fn rebuild_relevant_paths(new_path: &str) -> (res: Vec<String>)
    ensures
        views_of(res@) == relevant_paths_spec(new_path@),
{
    let p = chars_of(new_path);
    let name = file_name_chars(&p);
    let mut out: Vec<String> = Vec::new();
    if starts_with_str(&name, "init.") {
        let d = parent_chars(&p);
        out.push(string_from_chars(&d));
        assert(views_of(out@) =~= seq![d@]);
        push_joined(&mut out, &d, "init.luau");
        push_joined(&mut out, &d, "init.server.luau");
        push_joined(&mut out, &d, "init.client.luau");
        push_joined(&mut out, &d, "init.plugin.luau");
        push_joined(&mut out, &d, "init.local.luau");
        push_joined(&mut out, &d, "init.legacy.luau");
        push_joined(&mut out, &d, "init.csv");
        push_joined(&mut out, &d, "init.lua");
        push_joined(&mut out, &d, "init.server.lua");
        push_joined(&mut out, &d, "init.client.lua");
        push_joined(&mut out, &d, "init.local.lua");
        push_joined(&mut out, &d, "init.meta.json5");
        assert(views_of(out@) =~= relevant_paths_spec(p@));
    } else {
        let (stem, _ext) = stem_and_extension(&name);
        let mut meta = script_base_chars(&stem);
        push_str(&mut meta, ".meta.json5");
        let mut sibling = dir_part_chars(&p);
        push_all(&mut sibling, &meta);
        out.push(string_from_chars(&p));
        out.push(string_from_chars(&sibling));
        assert(views_of(out@) =~= relevant_paths_spec(p@));
    }
    out
}

/// What renaming the instance stored in the standalone file at `path`
/// changes on disk, once the new file-system name is chosen.
pub struct FileRenamePlan {
    /// Where the file moves.
    pub new_path: String,
    /// The `.meta.json5` file beside the old file, moved along if it exists.
    pub old_meta: String,
    /// Where that meta file moves.
    pub new_meta: String,
    /// Whether the instance's `name` field lives in the file itself (a
    /// `.model` file) rather than in its meta file.
    pub name_in_file: bool,
    /// Whether a `name` field is written (the file-system name differs from
    /// the instance's name) rather than removed.
    pub writes_name: bool,
}

/// The parts of the file name of `path` for a rename: base, script-kind
/// suffix, extension.
pub open spec fn rename_base(path: Seq<char>) -> Seq<char> {
    let stem = file_stem_spec(file_name_spec(path));
    stem.take(stem.len() - rename_suffix(stem).len())
}

/// The script-kind suffix of the file name of `path`.
pub open spec fn rename_suffix_of(path: Seq<char>) -> Seq<char> {
    rename_suffix(file_stem_spec(file_name_spec(path)))
}

/// Plans the rename of the instance stored in the standalone file at
/// `path` to the instance name `new_name`, written on disk as `fs_name`
/// (the name made safe and unique among its siblings). The file keeps its
/// script-kind suffix and extension; the meta file beside it follows the
/// base name; the `name` field is kept only when `fs_name` is not the
/// instance's name, in the model file itself for `.model` files and in the
/// meta file otherwise.
pub fn plan_file_rename(path: &str, fs_name: &str, new_name: &str) -> (r: FileRenamePlan)
    ensures
        r.new_path@ == with_file_name_spec(
            path@,
            script_file_name_spec(fs_name@, rename_suffix_of(path@), extension_spec(file_name_spec(path@))),
        ),
        r.old_meta@ == with_file_name_spec(path@, rename_base(path@) + ".meta.json5"@),
        r.new_meta@ == with_file_name_spec(path@, fs_name@ + ".meta.json5"@),
        r.name_in_file == (rename_suffix_of(path@) == ".model"@),
        r.writes_name == (fs_name@ != new_name@),
{
    let p = chars_of(path);
    let name = file_name_chars(&p);
    let parts = script_file_parts(&string_from_chars(&name));
    let file = script_file_name(fs_name, parts.suffix.as_str(), parts.extension.as_str());
    let dir = dir_part_chars(&p);
    let mut np = dir.clone();
    push_str(&mut np, file.as_str());
    let mut om = dir.clone();
    push_str(&mut om, parts.base.as_str());
    push_str(&mut om, ".meta.json5");
    let mut nm = dir.clone();
    push_str(&mut nm, fs_name);
    push_str(&mut nm, ".meta.json5");
    let in_file = crate::text::str_eq(parts.suffix.as_str(), ".model");
    let writes = !crate::text::str_eq(fs_name, new_name);
    FileRenamePlan {
        new_path: string_from_chars(&np),
        old_meta: string_from_chars(&om),
        new_meta: string_from_chars(&nm),
        name_in_file: in_file,
        writes_name: writes,
    }
}

/// The path of a renamed instance's reference: `old_ref_path` with its last
/// `/`-separated segment replaced by `segment`.
pub fn renamed_ref_path(old_ref_path: &str, segment: &str) -> (r: String)
    ensures
        r@ == with_file_name_spec(old_ref_path@, segment@),
{
    let p = chars_of(old_ref_path);
    let mut v = dir_part_chars(&p);
    push_str(&mut v, segment);
    string_from_chars(&v)
}

/// The last `/`-separated segment of a path (its file name).
pub fn file_name_of(path: &str) -> (r: String)
    ensures
        r@ == file_name_spec(path@),
{
    let p = chars_of(path);
    string_from_chars(&file_name_chars(&p))
}

/// `path` as shown relative to `root`: the text after `root` and a `/` when
/// `path` lies under `root`, the empty text when it is `root`, else `path`.
pub open spec fn rel_path_spec(path: Seq<char>, root: Seq<char>) -> Seq<char> {
    let pre = if root.len() > 0 && root.last() == '/' {
        root
    } else {
        root.push('/')
    };
    if root.len() == 0 {
        path
    } else if path == root || path.push('/') == root {
        Seq::empty()
    } else if has_prefix(path, pre) {
        path.skip(pre.len() as int)
    } else {
        path
    }
}

/// The parent of a path.
pub fn parent_of(path: &str) -> (r: String)
    ensures
        r@ == parent_spec(path@),
{
    let p = chars_of(path);
    string_from_chars(&parent_chars(&p))
}

/// `name` joined onto the directory `dir`.
pub fn join_path(dir: &str, name: &str) -> (r: String)
    ensures
        r@ == join_spec(dir@, name@),
{
    let d = chars_of(dir);
    string_from_chars(&join_chars(&d, name))
}

/// The stem of a file name.
pub fn file_stem_of(name: &str) -> (r: String)
    ensures
        r@ == file_stem_spec(name@),
{
    let n = chars_of(name);
    let (stem, _ext) = stem_and_extension(&n);
    string_from_chars(&stem)
}

/// The extension of a file name (empty when it has none).
pub fn extension_of(name: &str) -> (r: String)
    ensures
        r@ == extension_spec(name@),
{
    let n = chars_of(name);
    let (_stem, ext) = stem_and_extension(&n);
    string_from_chars(&ext)
}

/// `path` as shown relative to the project root `root`.
pub fn rel_path(path: &str, root: &str) -> (r: String)
    ensures
        r@ == rel_path_spec(path@, root@),
{
    let p = chars_of(path);
    let rt = chars_of(root);
    if rt.len() == 0 {
        return string_from_chars(&p);
    }
    let mut pre = rt.clone();
    if rt[rt.len() - 1] != '/' {
        pre.push('/');
    }
    let mut ps = p.clone();
    ps.push('/');
    if crate::text::chars_eq(&p, &rt) || crate::text::chars_eq(&ps, &rt) {
        return String::new();
    }
    if matches_at(&p, 0, &pre) {
        let mut out: Vec<char> = Vec::new();
        let mut i = pre.len();
        while i < p.len()
            invariant
                pre.len() <= i <= p.len(),
                out@ == p@.subrange(pre.len() as int, i as int),
            decreases p.len() - i,
        {
            out.push(p[i]);
            i += 1;
            assert(out@ =~= p@.subrange(pre.len() as int, i as int));
        }
        assert(out@ =~= p@.skip(pre.len() as int));
        string_from_chars(&out)
    } else {
        string_from_chars(&p)
    }
}

// ---------------------------------------------------------------------------
// Files that move with a renamed directory
// ---------------------------------------------------------------------------

/// Whether a path segment names a file or directory (is not empty, `.` or
/// `..`).
pub open spec fn is_normal_segment(s: Seq<char>) -> bool {
    s.len() > 0 && s != seq!['.'] && s != seq!['.', '.']
}

/// Whether the segment `s` names the renamed instance: it is `old`, or the
/// slug `alt` that the instance was stored under.
pub open spec fn segment_matches(s: Seq<char>, old: Seq<char>, alt: Option<Seq<char>>) -> bool {
    is_normal_segment(s) && (s == old || alt == Some(s))
}

/// `segs` with the first segment that names the renamed instance replaced
/// by `new`, or `None` when no segment names it.
pub open spec fn replace_first_matching(
    segs: Seq<Seq<char>>,
    old: Seq<char>,
    alt: Option<Seq<char>>,
    new: Seq<char>,
) -> Option<Seq<Seq<char>>>
    decreases segs.len(),
{
    if segs.len() == 0 {
        None
    } else if segment_matches(segs[0], old, alt) {
        Some(seq![new] + segs.skip(1))
    } else {
        match replace_first_matching(segs.skip(1), old, alt, new) {
            Some(rest) => Some(seq![segs[0]] + rest),
            None => None,
        }
    }
}

/// The view of an optional string slice.
pub open spec fn opt_str_view(o: Option<&str>) -> Option<Seq<char>> {
    match o {
        Some(s) => Some(s@),
        None => None,
    }
}

/// Where a file is looked for after the instance named `old` (or stored
/// under the slug `alt`) was renamed to `new`: the path with the first
/// segment that names the instance replaced, or the path itself when none
/// does.
pub open spec fn relocated_path_spec(
    path: Seq<char>,
    old: Seq<char>,
    alt: Option<Seq<char>>,
    new: Seq<char>,
) -> Seq<char> {
    match replace_first_matching(split_slash(path), old, alt, new) {
        Some(segs) => join_slash(segs),
        None => path,
    }
}

proof fn lemma_replace_first(
    segs: Seq<Seq<char>>,
    old: Seq<char>,
    alt: Option<Seq<char>>,
    new: Seq<char>,
    i: int,
)
    requires
        0 <= i <= segs.len(),
        forall|j: int| 0 <= j < i ==> !segment_matches(#[trigger] segs[j], old, alt),
        i < segs.len() ==> segment_matches(segs[i], old, alt),
    ensures
        replace_first_matching(segs, old, alt, new) == (if i < segs.len() {
            Some(segs.update(i, new))
        } else {
            None::<Seq<Seq<char>>>
        }),
    decreases segs.len(),
{
    if segs.len() == 0 {
    } else if i == 0 {
        assert(seq![new] + segs.skip(1) =~= segs.update(0, new));
    } else {
        let t = segs.skip(1);
        assert forall|j: int| 0 <= j < i - 1 implies !segment_matches(#[trigger] t[j], old, alt) by {
            assert(t[j] == segs[j + 1]);
        }
        assert(!segment_matches(segs[0], old, alt));
        lemma_replace_first(t, old, alt, new, i - 1);
        if i < segs.len() {
            assert(seq![segs[0]] + t.update(i - 1, new) =~= segs.update(i, new));
        }
    }
}

fn segment_matches_exec(s: &Vec<char>, old: &Vec<char>, alt: &Option<Vec<char>>) -> (r: bool)
    ensures
        r == segment_matches(
            s@,
            old@,
            match alt {
                Some(a) => Some(a@),
                None => None,
            },
        ),
{
    let normal = s.len() > 0 && !(s.len() == 1 && s[0] == '.') && !(s.len() == 2 && s[0] == '.' && s[1] == '.');
    proof {
        if s@.len() == 1 && s@[0] == '.' {
            assert(s@ =~= seq!['.']);
        }
        if s@ == seq!['.'] {
            assert(s@[0] == '.');
        }
        if s@.len() == 2 && s@[0] == '.' && s@[1] == '.' {
            assert(s@ =~= seq!['.', '.']);
        }
        if s@ == seq!['.', '.'] {
            assert(s@[0] == '.' && s@[1] == '.');
        }
    }
    if !normal {
        return false;
    }
    if crate::text::chars_eq(s, old) {
        return true;
    }
    match alt {
        Some(a) => crate::text::chars_eq(s, a),
        None => false,
    }
}

/// Where a file recorded under a renamed instance is looked for when it is
/// no longer at its recorded path: the first segment of `path` that is
/// `old_segment` (or the slug `old_slug` it was stored under) becomes
/// `new_segment`.
pub fn relocated_file_path(path: &str, old_segment: &str, old_slug: Option<&str>, new_segment: &str) -> (r: String)
    ensures
        r@ == relocated_path_spec(path@, old_segment@, opt_str_view(old_slug), new_segment@),
{
    let p = chars_of(path);
    let ov = chars_of(old_segment);
    let alt: Option<Vec<char>> = match old_slug {
        Some(a) => Some(chars_of(a)),
        None => None,
    };
    let ghost av = opt_str_view(old_slug);
    assert(av == match alt {
        Some(a) => Some(a@),
        None => None::<Seq<char>>,
    });
    let mut parts = split_slash_chars(&p);
    let ghost segs = views(parts@);
    let mut i: usize = 0;
    while i < parts.len()
        invariant
            i <= parts.len(),
            segs == views(parts@),
            av == match alt {
                Some(a) => Some(a@),
                None => None::<Seq<char>>,
            },
            forall|j: int| 0 <= j < i ==> !segment_matches(#[trigger] segs[j], ov@, av),
        ensures
            i <= parts.len(),
            segs == views(parts@),
            forall|j: int| 0 <= j < i ==> !segment_matches(#[trigger] segs[j], ov@, av),
            i < parts.len() ==> segment_matches(segs[i as int], ov@, av),
        decreases parts.len() - i,
    {
        if segment_matches_exec(&parts[i], &ov, &alt) {
            break;
        }
        i += 1;
    }
    proof {
        lemma_replace_first(segs, ov@, av, new_segment@, i as int);
    }
    if i < parts.len() {
        let nv = chars_of(new_segment);
        parts.set(i, nv);
        assert(views(parts@) =~= segs.update(i as int, new_segment@));
        let n = parts.len();
        let out = join_slash_range(&parts, 0, n);
        assert(views(parts@).subrange(0, n as int) =~= views(parts@));
        string_from_chars(&out)
    } else {
        string_from_chars(&p)
    }
}


// ---------------------------------------------------------------------------
// Laws of script-kind suffixes
// ---------------------------------------------------------------------------

/// A suffix whose characters differ from the end of `x` at position `k`
/// is not a suffix of `x`.
proof fn lemma_differs_at(x: Seq<char>, y: Seq<char>, k: int)
    requires
        0 <= k < y.len() <= x.len(),
        x[x.len() - y.len() + k] != y[k],
    ensures
        !has_suffix(x, y),
{
    if has_suffix(x, y) {
        assert(x.subrange(x.len() - y.len(), x.len() as int)[k] == y[k]);
    }
}

/// Whether `s + x` ends with `y`: as `x` does when `y` is no longer than
/// `x`; only if `y` ends with `x` when it is longer.
proof fn lemma_concat_suffix(s: Seq<char>, x: Seq<char>, y: Seq<char>)
    ensures
        y.len() <= x.len() ==> has_suffix(s + x, y) == has_suffix(x, y),
        y.len() > x.len() && has_suffix(s + x, y) ==> has_suffix(y, x),
{
    let t = s + x;
    if y.len() <= x.len() {
        assert(t.subrange(t.len() - y.len(), t.len() as int) =~= x.subrange(x.len() - y.len(), x.len() as int));
    } else if has_suffix(t, y) && y.len() <= t.len() {
        assert(y.subrange(y.len() - x.len(), y.len() as int) =~= t.subrange(t.len() - x.len(), t.len() as int));
        assert(t.subrange(t.len() - x.len(), t.len() as int) =~= x);
    }
}

/// A script's base name drops whichever script-kind suffix its stem ends
/// with: for any stem `s` and any of `.server`, `.client`, `.plugin`,
/// `.local`, `.legacy`, the base of `s` followed by that suffix is `s`. So
/// the file name a class change gives never keeps the old kind's suffix,
/// and the meta file beside a script is named after the bare base.
pub proof fn lemma_script_base_drops_kind_suffix(s: Seq<char>, x: Seq<char>)
    requires
        x == ".server"@ || x == ".client"@ || x == ".plugin"@ || x == ".local"@ || x == ".legacy"@,
    ensures
        script_base(s + x) == s,
{
    reveal_strlit(".server");
    reveal_strlit(".client");
    reveal_strlit(".plugin");
    reveal_strlit(".local");
    reveal_strlit(".legacy");
    reveal_strlit(".model");
    if x == ".server"@ {
        lemma_concat_suffix(s, ".server"@, ".server"@);
        assert(has_suffix(".server"@, ".server"@)) by { assert(".server"@.subrange(0, 7) =~= ".server"@); }
    } else if x == ".client"@ {
        lemma_differs_at(".client"@, ".server"@, 1);
        lemma_concat_suffix(s, ".client"@, ".server"@);
        lemma_concat_suffix(s, ".client"@, ".client"@);
        assert(has_suffix(".client"@, ".client"@)) by { assert(".client"@.subrange(0, 7) =~= ".client"@); }
    } else if x == ".plugin"@ {
        lemma_differs_at(".plugin"@, ".server"@, 1);
        lemma_concat_suffix(s, ".plugin"@, ".server"@);
        lemma_differs_at(".plugin"@, ".client"@, 1);
        lemma_concat_suffix(s, ".plugin"@, ".client"@);
        lemma_concat_suffix(s, ".plugin"@, ".plugin"@);
        assert(has_suffix(".plugin"@, ".plugin"@)) by { assert(".plugin"@.subrange(0, 7) =~= ".plugin"@); }
    } else if x == ".local"@ {
        lemma_differs_at(".server"@, ".local"@, 0);
        lemma_concat_suffix(s, ".local"@, ".server"@);
        lemma_differs_at(".client"@, ".local"@, 0);
        lemma_concat_suffix(s, ".local"@, ".client"@);
        lemma_differs_at(".plugin"@, ".local"@, 0);
        lemma_concat_suffix(s, ".local"@, ".plugin"@);
        lemma_concat_suffix(s, ".local"@, ".local"@);
        assert(has_suffix(".local"@, ".local"@)) by { assert(".local"@.subrange(0, 6) =~= ".local"@); }
    } else if x == ".legacy"@ {
        lemma_differs_at(".legacy"@, ".server"@, 1);
        lemma_concat_suffix(s, ".legacy"@, ".server"@);
        lemma_differs_at(".legacy"@, ".client"@, 1);
        lemma_concat_suffix(s, ".legacy"@, ".client"@);
        lemma_differs_at(".legacy"@, ".plugin"@, 1);
        lemma_concat_suffix(s, ".legacy"@, ".plugin"@);
        lemma_differs_at(".legacy"@, ".local"@, 0);
        lemma_concat_suffix(s, ".legacy"@, ".local"@);
        lemma_concat_suffix(s, ".legacy"@, ".legacy"@);
        assert(has_suffix(".legacy"@, ".legacy"@)) by { assert(".legacy"@.subrange(0, 7) =~= ".legacy"@); }
    }
    assert((s + x).take((s + x).len() - x.len()) =~= s);
}

/// A rename keeps the script-kind suffix of the file: for any stem `s` and
/// any of `.server`, `.client`, `.plugin`, `.local`, `.legacy`, `.model`,
/// the suffix a rename keeps of `s` followed by it is that suffix, and the
/// base it replaces is `s`.
pub proof fn lemma_rename_keeps_kind_suffix(s: Seq<char>, x: Seq<char>)
    requires
        x == ".server"@ || x == ".client"@ || x == ".plugin"@ || x == ".local"@ || x == ".legacy"@ || x
            == ".model"@,
    ensures
        rename_suffix(s + x) == x,
        (s + x).take((s + x).len() - rename_suffix(s + x).len()) == s,
{
    reveal_strlit(".server");
    reveal_strlit(".client");
    reveal_strlit(".plugin");
    reveal_strlit(".local");
    reveal_strlit(".legacy");
    reveal_strlit(".model");
    if x == ".server"@ {
        lemma_concat_suffix(s, ".server"@, ".server"@);
        assert(has_suffix(".server"@, ".server"@)) by { assert(".server"@.subrange(0, 7) =~= ".server"@); }
    } else if x == ".client"@ {
        lemma_differs_at(".client"@, ".server"@, 1);
        lemma_concat_suffix(s, ".client"@, ".server"@);
        lemma_concat_suffix(s, ".client"@, ".client"@);
        assert(has_suffix(".client"@, ".client"@)) by { assert(".client"@.subrange(0, 7) =~= ".client"@); }
    } else if x == ".plugin"@ {
        lemma_differs_at(".plugin"@, ".server"@, 1);
        lemma_concat_suffix(s, ".plugin"@, ".server"@);
        lemma_differs_at(".plugin"@, ".client"@, 1);
        lemma_concat_suffix(s, ".plugin"@, ".client"@);
        lemma_concat_suffix(s, ".plugin"@, ".plugin"@);
        assert(has_suffix(".plugin"@, ".plugin"@)) by { assert(".plugin"@.subrange(0, 7) =~= ".plugin"@); }
    } else if x == ".local"@ {
        lemma_differs_at(".server"@, ".local"@, 0);
        lemma_concat_suffix(s, ".local"@, ".server"@);
        lemma_differs_at(".client"@, ".local"@, 0);
        lemma_concat_suffix(s, ".local"@, ".client"@);
        lemma_differs_at(".plugin"@, ".local"@, 0);
        lemma_concat_suffix(s, ".local"@, ".plugin"@);
        lemma_concat_suffix(s, ".local"@, ".local"@);
        assert(has_suffix(".local"@, ".local"@)) by { assert(".local"@.subrange(0, 6) =~= ".local"@); }
    } else if x == ".legacy"@ {
        lemma_differs_at(".legacy"@, ".server"@, 1);
        lemma_concat_suffix(s, ".legacy"@, ".server"@);
        lemma_differs_at(".legacy"@, ".client"@, 1);
        lemma_concat_suffix(s, ".legacy"@, ".client"@);
        lemma_differs_at(".legacy"@, ".plugin"@, 1);
        lemma_concat_suffix(s, ".legacy"@, ".plugin"@);
        lemma_differs_at(".legacy"@, ".local"@, 0);
        lemma_concat_suffix(s, ".legacy"@, ".local"@);
        lemma_concat_suffix(s, ".legacy"@, ".legacy"@);
        assert(has_suffix(".legacy"@, ".legacy"@)) by { assert(".legacy"@.subrange(0, 7) =~= ".legacy"@); }
    } else if x == ".model"@ {
        lemma_differs_at(".server"@, ".model"@, 0);
        lemma_concat_suffix(s, ".model"@, ".server"@);
        lemma_differs_at(".client"@, ".model"@, 0);
        lemma_concat_suffix(s, ".model"@, ".client"@);
        lemma_differs_at(".plugin"@, ".model"@, 0);
        lemma_concat_suffix(s, ".model"@, ".plugin"@);
        lemma_differs_at(".model"@, ".local"@, 1);
        lemma_concat_suffix(s, ".model"@, ".local"@);
        lemma_differs_at(".legacy"@, ".model"@, 0);
        lemma_concat_suffix(s, ".model"@, ".legacy"@);
        lemma_concat_suffix(s, ".model"@, ".model"@);
        assert(has_suffix(".model"@, ".model"@)) by { assert(".model"@.subrange(0, 6) =~= ".model"@); }
    }
    assert((s + x).take((s + x).len() - x.len()) =~= s);
}

/// A file name made of a stem, a `.` and an extension without `.` has that
/// stem and that extension.
proof fn lemma_stem_and_extension_of(stem: Seq<char>, ext: Seq<char>)
    requires
        stem.len() > 0,
        ext.len() > 0,
        forall|i: int| 0 <= i < ext.len() ==> ext[i] != '.',
    ensures
        file_stem_spec(stem + seq!['.'] + ext) == stem,
        extension_spec(stem + seq!['.'] + ext) == ext,
{
    let n = stem + seq!['.'] + ext;
    assert forall|i: int| stem.len() < i < n.len() implies n[i] != '.' by {
        assert(n[i] == ext[i - stem.len() - 1]);
    }
    assert(n[stem.len() as int] == '.');
    lemma_last_index_unique(n, '.', stem.len() as int);
    assert(n != seq!['.', '.']) by {
        assert(n.len() >= 3);
    }
    assert(n.take(stem.len() as int) =~= stem);
    assert(n.skip(stem.len() + 1int) =~= ext);
}

/// A class change names the script after its bare base: a file `b` + `x` +
/// `.` + `e`, where `x` is a script-kind suffix (or nothing) and `e` an
/// extension, becomes `b.luau` as a `ModuleScript`, `b.server.luau` as a
/// `Script` and `b.local.luau` as a `LocalScript` (unless it is a
/// directory's init file).
pub proof fn lemma_class_change_file_name(b: Seq<char>, x: Seq<char>, e: Seq<char>)
    requires
        b.len() > 0,
        e.len() > 0,
        forall|i: int| 0 <= i < e.len() ==> e[i] != '.',
        x == ".server"@ || x == ".client"@ || x == ".plugin"@ || x == ".local"@ || x == ".legacy"@,
        !has_prefix(b + x + seq!['.'] + e, "init."@),
    ensures
        class_file_name_spec(b + x + seq!['.'] + e, "ModuleScript"@) == b + ".luau"@,
        class_file_name_spec(b + x + seq!['.'] + e, "Script"@) == b + ".server.luau"@,
        class_file_name_spec(b + x + seq!['.'] + e, "LocalScript"@) == b + ".local.luau"@,
{
    reveal_strlit("ModuleScript");
    reveal_strlit("Script");
    reveal_strlit("LocalScript");
    reveal_strlit(".server");
    reveal_strlit(".local");
    reveal_strlit(".luau");
    reveal_strlit(".server.luau");
    reveal_strlit(".local.luau");
    lemma_stem_and_extension_of(b + x, e);
    lemma_script_base_drops_kind_suffix(b, x);
    assert("ModuleScript"@ != "Script"@) by {
        assert("ModuleScript"@.len() != "Script"@.len());
    }
    assert("ModuleScript"@ != "LocalScript"@) by {
        assert("ModuleScript"@.len() != "LocalScript"@.len());
    }
    assert(b + ".server"@ + ".luau"@ =~= b + ".server.luau"@);
    assert(b + ".local"@ + ".luau"@ =~= b + ".local.luau"@);
    assert(b + Seq::<char>::empty() + ".luau"@ =~= b + ".luau"@);
}

/// A rename keeps a script's kind and extension: the file `b` + `x` + `.` +
/// `e`, where `x` is a script-kind suffix and `e` an extension, renamed to
/// the file-system name `f` becomes `f` + `x` + `.` + `e`, and the meta
/// file that moves with it is named after `b`.
pub proof fn lemma_rename_file_name(b: Seq<char>, x: Seq<char>, e: Seq<char>, f: Seq<char>)
    requires
        b.len() > 0,
        e.len() > 0,
        forall|i: int| 0 <= i < e.len() ==> e[i] != '.',
        x == ".server"@ || x == ".client"@ || x == ".plugin"@ || x == ".local"@ || x == ".legacy"@ || x
            == ".model"@,
    ensures
        script_file_name_spec(
            f,
            rename_suffix(file_stem_spec(b + x + seq!['.'] + e)),
            extension_spec(b + x + seq!['.'] + e),
        ) == f + x + seq!['.'] + e,
        ({
            let stem = file_stem_spec(b + x + seq!['.'] + e);
            stem.take(stem.len() - rename_suffix(stem).len()) == b
        }),
{
    lemma_stem_and_extension_of(b + x, e);
    lemma_rename_keeps_kind_suffix(b, x);
}

/// The paths watched for a script file name it and the meta file named
/// after its bare base: for the file `b` + `x` + `.` + `e` in the directory
/// `d`, where `x` is a script-kind suffix, they are that file and
/// `d/b.meta.json5`.
pub proof fn lemma_relevant_paths_of_script(d: Seq<char>, b: Seq<char>, x: Seq<char>, e: Seq<char>)
    requires
        d.len() > 0,
        d.last() != '/',
        b.len() > 0,
        e.len() > 0,
        forall|i: int| 0 <= i < b.len() ==> b[i] != '/',
        forall|i: int| 0 <= i < e.len() ==> e[i] != '.' && e[i] != '/',
        x == ".server"@ || x == ".client"@ || x == ".plugin"@ || x == ".local"@ || x == ".legacy"@,
        !has_prefix(b + x + seq!['.'] + e, "init."@),
    ensures
        relevant_paths_spec(join_spec(d, b + x + seq!['.'] + e)) == seq![
            join_spec(d, b + x + seq!['.'] + e),
            join_spec(d, b + ".meta.json5"@),
        ],
{
    reveal_strlit(".server");
    reveal_strlit(".client");
    reveal_strlit(".plugin");
    reveal_strlit(".local");
    reveal_strlit(".legacy");
    let name = b + x + seq!['.'] + e;
    assert forall|i: int| 0 <= i < name.len() implies name[i] != '/' by {
        if i < b.len() {
            assert(name[i] == b[i]);
        } else if i < b.len() + x.len() {
            assert(name[i] == x[i - b.len()]);
        } else if i > b.len() + x.len() {
            assert(name[i] == e[i - b.len() - x.len() - 1]);
        }
    }
    lemma_join_parts(d, name);
    let p = join_spec(d, name);
    lemma_stem_and_extension_of(b + x, e);
    lemma_script_base_drops_kind_suffix(b, x);
    lemma_last_index_of(p, '/');
    assert(p == d.push('/') + name);
    assert forall|i: int| d.len() < i < p.len() implies p[i] != '/' by {
        assert(p[i] == name[i - d.len() - 1]);
    }
    lemma_last_index_unique(p, '/', d.len() as int);
    assert(dir_part(p) =~= d.push('/'));
    assert(with_file_name_spec(p, b + ".meta.json5"@) =~= join_spec(d, b + ".meta.json5"@));
}

/// A stem that ends with none of the script-kind suffixes keeps all of
/// its text as its base (`Foo.model` stays `Foo.model`), and a rename then
/// keeps no suffix but `.model` when the stem ends with it.
pub proof fn lemma_plain_stem_kept(s: Seq<char>)
    requires
        !has_suffix(s, ".server"@),
        !has_suffix(s, ".client"@),
        !has_suffix(s, ".plugin"@),
        !has_suffix(s, ".local"@),
        !has_suffix(s, ".legacy"@),
    ensures
        script_base(s) == s,
        rename_suffix(s) == (if has_suffix(s, ".model"@) {
            ".model"@
        } else {
            Seq::<char>::empty()
        }),
{
}

} // verus!
