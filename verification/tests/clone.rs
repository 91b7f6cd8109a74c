use librojo::clone::check_same_universe;
use librojo::cli::{CloneCommand, InitKind};
use librojo::clone::{check_multi_clone, check_target_dir, experience_folder, project_file_name, ClonePlan};
use std::collections::HashMap;

use librojo::clone::{
    build_place_entries, first_universe_mismatch, generate_project_json5, sanitize_name,
    sanitize_place_name, PlaceEntry,
};

#[test]
fn sanitize_typical_name() {
    assert_eq!(
        sanitize_name("Escape Tsunami For Brainrots!"),
        "escape-tsunami-for-brainrots"
    );
}

#[test]
fn sanitize_brackets_and_parens() {
    assert_eq!(sanitize_name("My Game (UPDATE) [v2.0]"), "my-game");
}

#[test]
fn sanitize_emojis() {
    assert_eq!(sanitize_name("Cool Game 🌊🏃⚡"), "cool-game");
}

#[test]
fn sanitize_complex() {
    assert_eq!(
        sanitize_name("some crazy game! (UPDATE) [LOL] 🎮"),
        "some-crazy-game"
    );
}

#[test]
fn sanitize_only_special_chars() {
    assert_eq!(sanitize_name("🎮🌊⚡"), "");
}

#[test]
fn sanitize_removes_testing() {
    assert_eq!(sanitize_name("My Game Testing"), "my-game");
    assert_eq!(sanitize_name("TESTING My Game"), "my-game");
    assert_eq!(sanitize_name("My testing Game"), "my-game");
}

#[test]
fn sanitize_place_name_simple() {
    assert_eq!(sanitize_place_name("Game"), "game");
    assert_eq!(sanitize_place_name("Lobby"), "lobby");
    assert_eq!(sanitize_place_name("Main Menu"), "main-menu");
}

#[test]
fn sanitize_place_name_special_chars() {
    assert_eq!(sanitize_place_name("Game! 🎮"), "game");
    assert_eq!(sanitize_place_name("Test: Level 1"), "test-level-1");
}

#[test]
fn build_entries_uses_api_names() {
    let mut names = HashMap::new();
    names.insert(111, "Game".to_string());
    names.insert(222, "Lobby".to_string());

    let entries = build_place_entries(&[111, 222], &names);
    assert_eq!(entries.len(), 2);
    assert_eq!(entries[0].dir_name, "game");
    assert_eq!(entries[0].place_id, 111);
    assert_eq!(entries[1].dir_name, "lobby");
    assert_eq!(entries[1].place_id, 222);
}

#[test]
fn build_entries_dedup_collision() {
    let mut names = HashMap::new();
    names.insert(111, "Game".to_string());
    names.insert(222, "Game".to_string());

    let entries = build_place_entries(&[111, 222], &names);
    assert_eq!(entries[0].dir_name, "game");
    assert_eq!(entries[1].dir_name, "game-2");
}

#[test]
fn build_entries_fallback_when_no_name() {
    let names = HashMap::new();

    let entries = build_place_entries(&[111, 222], &names);
    assert_eq!(entries[0].dir_name, "place-1");
    assert_eq!(entries[1].dir_name, "place-2");
}

#[test]
fn generate_project_json5_format() {
    let entry = PlaceEntry {
        place_id: 12345,
        dir_name: "game".to_string(),
    };
    let content = generate_project_json5(&entry);
    assert!(content.contains("name: \"game\""));
    assert!(content.contains("servePlaceIds: [12345]"));
    assert!(content.contains("$path: \"game\""));
    assert!(content.contains("syncScriptsOnly: true"));
}

#[test]
fn sanitize_keeps_unmatched_closing_brackets() {
    assert_eq!(sanitize_name("Game ] one ) two"), "game-one-two");
    assert_eq!(sanitize_name("A [nested [deep] still] B"), "a-b");
}

#[test]
fn sanitize_place_name_collapses_whitespace() {
    assert_eq!(sanitize_place_name("  Big   World  "), "big-world");
    assert_eq!(sanitize_place_name(""), "");
}

#[test]
fn build_entries_dedup_skips_taken_suffixes() {
    let mut names = HashMap::new();
    names.insert(1, "Game".to_string());
    names.insert(2, "Game 2".to_string());
    names.insert(3, "Game".to_string());
    names.insert(4, "Game".to_string());
    let entries = build_place_entries(&[1, 2, 3, 4], &names);
    let dirs: Vec<&str> = entries.iter().map(|e| e.dir_name.as_str()).collect();
    assert_eq!(dirs, vec!["game", "game-2", "game-3", "game-4"]);
}

#[test]
fn build_entries_fallback_for_empty_sanitized_name() {
    let mut names = HashMap::new();
    names.insert(7, "🎮".to_string());
    let entries = build_place_entries(&[5, 7], &names);
    assert_eq!(entries[0].dir_name, "place-1");
    assert_eq!(entries[1].dir_name, "place-2");
    assert_eq!(entries[1].place_id, 7);
}

#[test]
fn generate_project_json5_exact_text() {
    let entry = PlaceEntry {
        place_id: 7,
        dir_name: "lobby".to_string(),
    };
    let expected = "{\n\tname: \"lobby\",\n\tservePlaceIds: [7],\n\tsyncScriptsOnly: true,\n\tglobIgnorePaths: [\"lobby/ServerStorage/RBX_ANIMSAVES/**\", \"lobby/ServerStorage/MoonAnimator2Saves/**\"],\n\tsyncbackRules: {\n\t\tignoreTrees: [\"ServerStorage/RBX_ANIMSAVES/**\", \"ServerStorage/MoonAnimator2Saves/**\"],\n\t},\n\ttree: {\n\t\t$className: \"DataModel\",\n\t\t$path: \"lobby\"\n\t}\n}\n";
    assert_eq!(generate_project_json5(&entry), expected);
}

#[test]
fn universe_mismatch_reports_first_difference() {
    assert_eq!(first_universe_mismatch(&[5, 5, 5]), None);
    assert_eq!(first_universe_mismatch(&[5]), None);
    assert_eq!(first_universe_mismatch(&[5, 5, 6, 7]), Some(2));
}

#[test]
fn same_universe_check_passes_and_names_first_mismatch() {
    assert_eq!(check_same_universe(&[1, 2, 3], &[9, 9, 9]), Ok(()));
    assert_eq!(
        check_same_universe(&[11, 22, 33], &[9, 8, 7]),
        Err("Place 22 belongs to universe 8 but place 11 belongs to universe 9. All place IDs must be from the same experience.".to_string())
    );
}

#[test]
fn project_file_names_and_clone_plan() {
    assert_eq!(project_file_name("lobby"), "lobby.project.json5");
    let mut cmd = CloneCommand {
        placeids: vec![42],
        path: None,
        kind: InitKind::Place,
        skip_git: false,
        skip_rules: false,
        skip_cd: false,
    };
    assert_eq!(cmd.run(), ClonePlan::Single { place_id: 42 });
    cmd.placeids.push(43);
    assert_eq!(cmd.run(), ClonePlan::Multi);
}

#[test]
fn experience_folder_is_the_sanitized_name() {
    assert_eq!(experience_folder("My Cool Game [Testing]", false), Ok("my-cool-game".to_string()));
}

#[test]
fn experience_folder_fails_when_nothing_is_left() {
    assert_eq!(
        experience_folder("[Beta] (wip)", false),
        Err("Could not derive a folder name from experience '[Beta] (wip)'. Use --path to specify one manually.".to_string())
    );
}

#[test]
fn experience_folder_fails_when_taken() {
    assert_eq!(
        experience_folder("Obby", true),
        Err("Directory 'obby' already exists. Remove it or use --path to specify a different location.".to_string())
    );
}

#[test]
fn target_dir_may_be_missing_or_empty() {
    assert_eq!(check_target_dir("places", false, false), Ok(()));
    assert_eq!(check_target_dir("places", true, true), Ok(()));
    assert_eq!(
        check_target_dir("places", true, false),
        Err("Directory 'places' is not empty. Please use an empty directory.".to_string())
    );
}

#[test]
fn multi_clone_checks_universe_before_directory() {
    assert_eq!(check_multi_clone(&[1, 2], &[7, 7], "dir", false, false), Ok(()));
    assert_eq!(
        check_multi_clone(&[1, 2], &[7, 8], "dir", true, false),
        Err("Place 2 belongs to universe 8 but place 1 belongs to universe 7. All place IDs must be from the same experience.".to_string())
    );
    assert_eq!(
        check_multi_clone(&[1, 2], &[7, 7], "dir", true, false),
        Err("Directory 'dir' is not empty. Please use an empty directory.".to_string())
    );
}
