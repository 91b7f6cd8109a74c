use librojo::git::{head_object_name, staged_object_name};
use librojo::git::{
    compute_blob_sha1, compute_blob_sha1_bytes, head_commit_from_output, is_script_class,
    ls_files_entries, merge_committed_hashes, parse_batch_check_output, parse_ls_files_line,
    script_object_refs, ChangedFiles, GitIndexCache, RefKind, ScriptRef,
};

#[test]
fn blob_sha1_empty_content() {
    let hash = compute_blob_sha1("");
    assert_eq!(hash, "e69de29bb2d1d6434b8b29ae775ad8c2e48c5391");
}

#[test]
fn blob_sha1_hello_world() {
    let hash = compute_blob_sha1("hello world");
    assert_eq!(hash, "95d09f2b10159347eece71399a7e2e907ea3df4f");
}

#[test]
fn blob_sha1_multiline_script() {
    let content = "local foo = 1\nlocal bar = 2\nreturn foo + bar\n";
    let hash = compute_blob_sha1(content);
    assert_eq!(hash.len(), 40);
    assert_eq!(hash, compute_blob_sha1(content));
}

#[test]
fn blob_sha1_different_content_different_hash() {
    let h1 = compute_blob_sha1("version 1");
    let h2 = compute_blob_sha1("version 2");
    assert_ne!(h1, h2);
}

#[test]
fn script_class_detection() {
    assert!(is_script_class("Script"));
    assert!(is_script_class("LocalScript"));
    assert!(is_script_class("ModuleScript"));
    assert!(!is_script_class("Folder"));
    assert!(!is_script_class("Part"));
    assert!(!is_script_class("Model"));
    assert!(!is_script_class("StringValue"));
}

#[test]
fn blob_sha1_of_bytes_matches_string_form() {
    assert_eq!(
        compute_blob_sha1_bytes("hello world".as_bytes()),
        "95d09f2b10159347eece71399a7e2e907ea3df4f"
    );
    let unicode = "-- Unicode: 日本語テスト\n";
    assert_eq!(compute_blob_sha1(unicode), compute_blob_sha1_bytes(unicode.as_bytes()));
}

#[test]
fn index_cache_matches_only_recorded_content() {
    let mut cache = GitIndexCache::new();
    cache.insert("src/a.luau", "95d09f2b10159347eece71399a7e2e907ea3df4f");
    assert!(cache.file_matches_index("src/a.luau", b"hello world"));
    assert!(cache.file_matches_index("src\\a.luau", b"hello world"));
    assert!(!cache.file_matches_index("src/a.luau", b"hello world!"));
    assert!(!cache.file_matches_index("src/b.luau", b"hello world"));
}

#[test]
fn index_cache_later_insert_replaces() {
    let mut cache = GitIndexCache::new();
    cache.insert("a", "0000000000000000000000000000000000000000");
    cache.insert("a", "e69de29bb2d1d6434b8b29ae775ad8c2e48c5391");
    assert!(cache.file_matches_index("a", b""));
}

#[test]
fn ls_files_lines_parse() {
    assert_eq!(
        parse_ls_files_line("100644 e69de29bb2d1d6434b8b29ae775ad8c2e48c5391 0\tsrc/init.luau"),
        Some((
            "src/init.luau".to_string(),
            "e69de29bb2d1d6434b8b29ae775ad8c2e48c5391".to_string()
        ))
    );
    assert_eq!(parse_ls_files_line("no tab here"), None);
    assert_eq!(parse_ls_files_line("100644\tpath"), None);
    let entries = ls_files_entries("100644 aa 0\ta b.txt\r\nbad\n100755 bb 0\tc\n");
    assert_eq!(
        entries,
        vec![
            ("a b.txt".to_string(), "aa".to_string()),
            ("c".to_string(), "bb".to_string())
        ]
    );
}

#[test]
fn status_and_diff_output_sorted_into_sets() {
    let mut changed = ChangedFiles::new();
    assert!(changed.is_empty());
    changed.add_status_output(" M src/a.luau\n?? new.luau\nA  staged.luau\nxy\n");
    assert_eq!(changed.modified, vec!["src/a.luau", "staged.luau"]);
    assert_eq!(changed.untracked, vec!["new.luau"]);
    changed.add_diff_output("  src/c.luau \n\n   \n");
    assert_eq!(changed.modified, vec!["src/a.luau", "staged.luau", "src/c.luau"]);
    assert!(changed.is_untracked("new.luau"));
    assert!(!changed.is_untracked("src/a.luau"));
    assert_eq!(changed.all().len(), 4);
    assert!(!changed.is_empty());
}

#[test]
fn head_commit_requires_full_hex_name() {
    let sha = "95d09f2b10159347eece71399a7e2e907ea3df4f";
    assert_eq!(head_commit_from_output(&format!("{sha}\n")), Some(sha.to_string()));
    assert_eq!(head_commit_from_output("95d09f2b"), None);
    assert_eq!(
        head_commit_from_output("zzd09f2b10159347eece71399a7e2e907ea3df4f"),
        None
    );
}

#[test]
fn batch_check_lines() {
    let sha = "95d09f2b10159347eece71399a7e2e907ea3df4f";
    let out = format!("{sha} blob 11\nHEAD:missing.luau missing\nshort blob 3\n");
    assert_eq!(
        parse_batch_check_output(&out),
        vec![Some(sha.to_string()), None, None]
    );
}

#[test]
fn object_refs_for_scripts_only() {
    let classes = vec!["Script".to_string(), "Folder".to_string(), "ModuleScript".to_string()];
    let paths = vec!["a\\b.luau".to_string(), "dir".to_string(), "m.luau".to_string()];
    let (names, refs) = script_object_refs(&classes, &paths, Some("abc"));
    assert_eq!(
        names,
        vec!["HEAD:a/b.luau", ":0:a/b.luau", "abc:a/b.luau", "HEAD:m.luau", ":0:m.luau", "abc:m.luau"]
    );
    assert_eq!(refs.len(), 6);
    assert_eq!(refs[0].resolved_idx, 0);
    assert_eq!(refs[3].resolved_idx, 2);
    assert_eq!(refs[2].kind, RefKind::InitialHead);
    let (names, _) = script_object_refs(&classes, &paths, None);
    assert_eq!(names.len(), 4);
}

#[test]
fn committed_hashes_merge_without_duplicates() {
    let refs = vec![
        ScriptRef { resolved_idx: 1, kind: RefKind::Head },
        ScriptRef { resolved_idx: 1, kind: RefKind::Staged },
        ScriptRef { resolved_idx: 1, kind: RefKind::InitialHead },
        ScriptRef { resolved_idx: 0, kind: RefKind::Head },
        ScriptRef { resolved_idx: 0, kind: RefKind::Staged },
    ];
    let hashes = vec![
        Some("h1".to_string()),
        Some("h1".to_string()),
        Some("h2".to_string()),
        None,
    ];
    let merged = merge_committed_hashes(3, &refs, &hashes);
    assert_eq!(merged[1], vec!["h1", "h2"]);
    assert!(merged[0].is_empty());
    assert!(merged[2].is_empty());
}

#[test]
fn git_show_object_names() {
    assert_eq!(head_object_name("src\\Main.server.luau"), "HEAD:src/Main.server.luau");
    assert_eq!(staged_object_name("script.luau"), ":0:script.luau");
}

#[test]
fn changed_files_hold_each_path_once() {
    let mut changed = ChangedFiles::new();
    changed.add_status_output(" M src/a.luau\n M src/a.luau\n?? new.luau\n");
    changed.add_diff_output("src/a.luau\nsrc/b.luau\n");
    assert_eq!(changed.modified, vec!["src/a.luau", "src/b.luau"]);
    assert_eq!(changed.untracked, vec!["new.luau"]);
    assert_eq!(changed.all(), vec!["src/a.luau", "src/b.luau", "new.luau"]);
}

#[test]
fn status_line_with_two_byte_first_character_is_cut_at_byte_three() {
    let mut changed = ChangedFiles::new();
    changed.add_status_output("é cd\n?? ab\nab\n");
    assert_eq!(changed.modified, vec!["cd"]);
    assert_eq!(changed.untracked, vec!["ab"]);
}
