use librojo::ref_index::{
    is_meta_or_model, ref_paths_in_attributes, ref_paths_in_meta_text, relocated_files, RefPathIndex, RefRewritePass, RewriteOutcome,
};
use librojo::suppression::SuppressionTable;

#[test]
fn meta_and_model_file_names() {
    assert!(is_meta_or_model("init.meta.json5"));
    assert!(is_meta_or_model("Part.model.json5"));
    assert!(is_meta_or_model("old.meta.json"));
    assert!(is_meta_or_model("old.model.json"));
    assert!(!is_meta_or_model("script.luau"));
    assert!(!is_meta_or_model("default.project.json5"));
}

#[test]
fn ref_attributes_are_resolved_against_the_owner() {
    let attrs = vec![
        ("Rojo_Ref_PrimaryPart".to_string(), Some("@self/Handle".to_string())),
        ("Rojo_Ref_Value".to_string(), Some("Workspace/Target".to_string())),
        ("Rojo_Ref_Bad".to_string(), Some("../../../../Escape".to_string())),
        ("Rojo_Ref_NotString".to_string(), None),
        ("Color".to_string(), Some("@self/Ignored".to_string())),
    ];
    let paths = ref_paths_in_attributes(&attrs, "Workspace/Model");
    assert_eq!(
        paths,
        vec![
            "Workspace/Model/Handle".to_string(),
            "Workspace/Target".to_string(),
            "../../../../Escape".to_string(),
        ]
    );
}

#[test]
fn added_file_is_found_under_every_prefix() {
    let mut index = RefPathIndex::new();
    index.add("Workspace/Model/Part1", "/p/a.meta.json5");
    for prefix in ["Workspace", "Workspace/Model", "Workspace/Model/Part1"] {
        assert_eq!(index.find_by_prefix(prefix), vec!["/p/a.meta.json5".to_string()]);
    }
    assert!(index.find_by_prefix("Workspace/Mod").is_empty());
}

#[test]
fn removing_all_for_a_file_hides_it_everywhere() {
    let mut index = RefPathIndex::new();
    index.add("Workspace/A", "/p/a.meta.json5");
    index.add("Workspace/B", "/p/a.meta.json5");
    index.add("Workspace/B", "/p/b.meta.json5");
    index.remove_all_for_file("/p/a.meta.json5");
    assert_eq!(index.find_by_prefix("Workspace"), vec!["/p/b.meta.json5".to_string()]);
}

#[test]
fn renamed_file_is_found_where_the_old_one_was() {
    let mut index = RefPathIndex::new();
    index.add("Workspace/A", "/p/old/a.meta.json5");
    index.rename_file("/p/old/a.meta.json5", "/p/new/a.meta.json5");
    assert_eq!(index.find_by_prefix("Workspace/A"), vec!["/p/new/a.meta.json5".to_string()]);
}

#[test]
fn moved_prefix_finds_files_under_new_name() {
    let mut index = RefPathIndex::new();
    index.add("Workspace/Old/Part", "/p/a.meta.json5");
    index.add("Workspace/Old", "/p/b.meta.json5");
    index.update_prefix("Workspace/Old", "Workspace/New");
    assert_eq!(
        index.find_by_prefix("Workspace/New"),
        vec!["/p/a.meta.json5".to_string(), "/p/b.meta.json5".to_string()]
    );
    assert!(index.find_by_prefix("Workspace/Old").is_empty());
}

#[test]
fn add_then_remove_restores_index() {
    let mut index = RefPathIndex::new();
    index.add("Workspace/A", "/p/a.meta.json5");
    index.add("Workspace/B", "/p/b.meta.json5");
    index.remove("Workspace/B", "/p/b.meta.json5");
    assert_eq!(index.find_by_prefix("Workspace"), vec!["/p/a.meta.json5".to_string()]);
}

#[test]
fn rename_is_recorded_in_the_index() {
    let mut index = RefPathIndex::new();
    index.add("Workspace/Old/Part", "/p/Old/a.meta.json5");
    index.add("Workspace/Other", "/p/b.meta.json5");
    let moved_from = vec!["/p/Old/a.meta.json5".to_string(), "/p/b.meta.json5".to_string()];
    let moved_to = vec!["/p/New/a.meta.json5".to_string(), "/p/b.meta.json5".to_string()];
    index.record_rename("Workspace/Old", "Workspace/New", &moved_from, &moved_to);
    assert_eq!(index.find_by_prefix("Workspace/New"), vec!["/p/New/a.meta.json5".to_string()]);
    assert!(index.find_by_prefix("Workspace/Old").is_empty());
    assert_eq!(index.find_by_prefix("Workspace/Other"), vec!["/p/b.meta.json5".to_string()]);
}

#[test]
fn files_that_vanished_are_looked_for_under_the_new_name() {
    let files = vec!["/p/Old/a.meta.json5".to_string(), "/p/Old_2/b.meta.json5".to_string(), "/p/c.meta.json5".to_string()];
    let exists = vec![false, false, true];
    let moved = relocated_files(&files, &exists, "Old", Some("Old_2"), "New");
    assert_eq!(
        moved,
        vec!["/p/New/a.meta.json5".to_string(), "/p/New/b.meta.json5".to_string(), "/p/c.meta.json5".to_string()]
    );
}

#[test]
fn ref_paths_are_read_from_meta_text() {
    let text = r#"{
        // refs of the model
        className: "Model",
        attributes: {
            Rojo_Ref_Value: "Workspace/Target",
            Rojo_Ref_PrimaryPart: "@self/Handle",
            Rojo_Ref_Count: 3,
        },
    }"#;
    assert_eq!(
        ref_paths_in_meta_text(text, "Workspace/Model"),
        vec!["Workspace/Model/Handle".to_string(), "Workspace/Target".to_string()]
    );
    assert!(ref_paths_in_meta_text("{ attributes: 1 }", "Workspace/Model").is_empty());
    assert!(ref_paths_in_meta_text("not json5", "Workspace/Model").is_empty());
}

#[test]
fn rename_pass_is_skipped_when_nothing_to_do() {
    assert!(RefRewritePass::start("A/B", "A/B", vec!["f.meta.json5".into()], vec!["f.meta.json5".into()]).is_none());
    assert!(RefRewritePass::start("A/B", "A/C", vec![], vec![]).is_none());
}

#[test]
fn rename_pass_withdraws_unwritten_and_updates_index_after_a_rewrite() {
    let mut index = RefPathIndex::new();
    index.add("Workspace/Old/Part", "/p/Old/init.meta.json5");
    index.add("Workspace/Old", "/p/other.meta.json5");
    let found = index.find_by_prefix("Workspace/Old");
    assert_eq!(found.len(), 2);
    let targets: Vec<String> = found
        .iter()
        .map(|f| if f == "/p/Old/init.meta.json5" { "/p/New/init.meta.json5".to_string() } else { f.clone() })
        .collect();
    let mut pass = RefRewritePass::start("Workspace/Old", "Workspace/New", found, targets).unwrap();
    let mut table = SuppressionTable::new();
    for i in 0..pass.len() {
        pass.before_rewrite(&mut table, i);
        let target = pass.target(i).to_string();
        let outcome = if target == "/p/other.meta.json5" { RewriteOutcome::Rewritten } else { RewriteOutcome::Unchanged };
        pass.after_rewrite(&mut table, i, outcome);
        assert_eq!(table.contains(&target), outcome == RewriteOutcome::Rewritten);
    }
    pass.finish(&mut index);
    assert_eq!(index.find_by_prefix("Workspace/Old"), Vec::<String>::new());
    let mut now = index.find_by_prefix("Workspace/New");
    now.sort();
    assert_eq!(now, vec!["/p/New/init.meta.json5".to_string(), "/p/other.meta.json5".to_string()]);
}
