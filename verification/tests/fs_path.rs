use librojo::fs_path::{
    plan_file_rename,
    file_name_of, rebuild_relevant_paths, rel_path, relocated_file_path, renamed_ref_path, script_file_name,
    script_file_name_for_class, script_file_parts,
};

#[test]
fn relevant_paths_of_standalone_script() {
    let paths = rebuild_relevant_paths("/proj/src/Foo.server.luau");
    assert_eq!(paths, vec!["/proj/src/Foo.server.luau".to_string(), "/proj/src/Foo.meta.json5".to_string()]);
}

#[test]
fn relevant_paths_of_model_file_keep_model_in_meta_name() {
    let paths = rebuild_relevant_paths("/proj/src/Data.model.json5");
    assert_eq!(paths, vec!["/proj/src/Data.model.json5".to_string(), "/proj/src/Data.model.meta.json5".to_string()]);
}

#[test]
fn relevant_paths_of_init_file() {
    let paths = rebuild_relevant_paths("/proj/src/Module/init.server.luau");
    let expected: Vec<String> = vec![
        "/proj/src/Module",
        "/proj/src/Module/init.luau",
        "/proj/src/Module/init.server.luau",
        "/proj/src/Module/init.client.luau",
        "/proj/src/Module/init.plugin.luau",
        "/proj/src/Module/init.local.luau",
        "/proj/src/Module/init.legacy.luau",
        "/proj/src/Module/init.csv",
        "/proj/src/Module/init.lua",
        "/proj/src/Module/init.server.lua",
        "/proj/src/Module/init.client.lua",
        "/proj/src/Module/init.local.lua",
        "/proj/src/Module/init.meta.json5",
    ]
    .into_iter()
    .map(String::from)
    .collect();
    assert_eq!(paths, expected);
}

#[test]
fn relevant_paths_of_relative_file_without_directory() {
    let paths = rebuild_relevant_paths("Foo.client.lua");
    assert_eq!(paths, vec!["Foo.client.lua".to_string(), "Foo.meta.json5".to_string()]);
}

#[test]
fn script_parts_of_server_script() {
    let parts = script_file_parts("Foo.server.luau");
    assert_eq!(parts.base, "Foo");
    assert_eq!(parts.suffix, ".server");
    assert_eq!(parts.extension, "luau");
}

#[test]
fn script_parts_of_model_and_plain_names() {
    let parts = script_file_parts("Data.model.json5");
    assert_eq!((parts.base.as_str(), parts.suffix.as_str(), parts.extension.as_str()), ("Data", ".model", "json5"));
    let parts = script_file_parts("README");
    assert_eq!((parts.base.as_str(), parts.suffix.as_str(), parts.extension.as_str()), ("README", "", ""));
    let parts = script_file_parts(".gitignore");
    assert_eq!((parts.base.as_str(), parts.suffix.as_str(), parts.extension.as_str()), (".gitignore", "", ""));
}

#[test]
fn script_file_name_joins_parts() {
    assert_eq!(script_file_name("Bar", ".server", "luau"), "Bar.server.luau");
    assert_eq!(script_file_name("Bar", "", ""), "Bar");
    assert_eq!(script_file_name("Bar", ".model", "json5"), "Bar.model.json5");
}

#[test]
fn script_file_name_round_trips_through_parts() {
    for name in ["Foo.server.luau", "Data.model.json5", "Plain.luau", "README", ".gitignore", "a.b.c.local.lua"] {
        let p = script_file_parts(name);
        assert_eq!(script_file_name(&p.base, &p.suffix, &p.extension), name);
    }
}

#[test]
fn class_change_file_names() {
    assert_eq!(script_file_name_for_class("Foo.server.luau", "ModuleScript"), "Foo.luau");
    assert_eq!(script_file_name_for_class("Foo.luau", "LocalScript"), "Foo.local.luau");
    assert_eq!(script_file_name_for_class("Foo.client.lua", "Script"), "Foo.server.luau");
    assert_eq!(script_file_name_for_class("init.server.luau", "ModuleScript"), "init.luau");
    assert_eq!(script_file_name_for_class("init.luau", "Script"), "init.server.luau");
    assert_eq!(script_file_name_for_class("init.lua", "LocalScript"), "init.local.luau");
}

#[test]
fn renamed_ref_path_replaces_last_segment() {
    assert_eq!(renamed_ref_path("Workspace/Model/Part", "NewPart.luau"), "Workspace/Model/NewPart.luau");
    assert_eq!(renamed_ref_path("Workspace", "Renamed"), "Renamed");
}

#[test]
fn file_name_is_last_segment() {
    assert_eq!(file_name_of("a/b/c.txt"), "c.txt");
    assert_eq!(file_name_of("Workspace/Old"), "Old");
    assert_eq!(file_name_of("plain"), "plain");
}

#[test]
fn relocated_path_replaces_first_matching_segment() {
    assert_eq!(
        relocated_file_path("/proj/src/Old/init.meta.json5", "Old", None, "New"),
        "/proj/src/New/init.meta.json5"
    );
    assert_eq!(
        relocated_file_path("/proj/src/Hey_Bro/a.meta.json5", "Hey/Bro", Some("Hey_Bro"), "Hi_Bro"),
        "/proj/src/Hi_Bro/a.meta.json5"
    );
    assert_eq!(relocated_file_path("/proj/Old/Old/x.json5", "Old", None, "New"), "/proj/New/Old/x.json5");
}

#[test]
fn relocated_path_without_match_is_unchanged() {
    assert_eq!(relocated_file_path("/proj/src/Other/a.meta.json5", "Old", None, "New"), "/proj/src/Other/a.meta.json5");
    assert_eq!(relocated_file_path("/proj/../x", "..", None, "New"), "/proj/../x");
}

#[test]
fn rel_path_strips_project_root() {
    assert_eq!(rel_path("/proj/src/a.luau", "/proj"), "src/a.luau");
    assert_eq!(rel_path("/proj/src/a.luau", "/proj/"), "src/a.luau");
    assert_eq!(rel_path("/proj", "/proj"), "");
    assert_eq!(rel_path("/projx/a", "/proj"), "/projx/a");
    assert_eq!(rel_path("/other/x", "/proj"), "/other/x");
    assert_eq!(rel_path("rel/x", ""), "rel/x");
}

#[test]
fn relevant_paths_of_local_lua_init_file_include_it() {
    let paths = rebuild_relevant_paths("/d/init.local.lua");
    assert_eq!(paths[0], "/d");
    assert!(paths.contains(&"/d/init.local.lua".to_string()));
    assert!(paths.contains(&"/d/init.meta.json5".to_string()));
}

#[test]
fn rename_plan_keeps_suffix_and_moves_meta() {
    let plan = plan_file_rename("/p/src/Old.server.luau", "New_Name", "New/Name");
    assert_eq!(plan.new_path, "/p/src/New_Name.server.luau");
    assert_eq!(plan.old_meta, "/p/src/Old.meta.json5");
    assert_eq!(plan.new_meta, "/p/src/New_Name.meta.json5");
    assert!(!plan.name_in_file);
    assert!(plan.writes_name);
}

#[test]
fn rename_plan_of_model_keeps_name_in_the_file() {
    let plan = plan_file_rename("/p/src/Data.model.json5", "Stats", "Stats");
    assert_eq!(plan.new_path, "/p/src/Stats.model.json5");
    assert!(plan.name_in_file);
    assert!(!plan.writes_name);
}
