use librojo::ref_index::RefPathIndex;
use librojo::rojo_ref::{
    compute_relative_ref_path, escape_ref_path_segment, ref_attribute_name,
    ref_target_attribute_name, resolve_ref_path_to_absolute, split_ref_path,
    unescape_ref_path_segment,
};

#[test]
fn ref_attr_name_primary_part() {
    assert_eq!(ref_attribute_name("PrimaryPart"), "Rojo_Ref_PrimaryPart");
}

#[test]
fn ref_attr_name_value() {
    assert_eq!(ref_attribute_name("Value"), "Rojo_Ref_Value");
}

#[test]
fn ref_attr_name_part0() {
    assert_eq!(ref_attribute_name("Part0"), "Rojo_Ref_Part0");
}

#[test]
fn ref_attr_name_attachment0() {
    assert_eq!(ref_attribute_name("Attachment0"), "Rojo_Ref_Attachment0");
}

#[test]
fn ref_attr_name_adornee() {
    assert_eq!(ref_attribute_name("Adornee"), "Rojo_Ref_Adornee");
}

#[test]
fn escape_name_without_slash() {
    assert_eq!(escape_ref_path_segment("Part1"), "Part1");
}

#[test]
fn escape_name_with_slash() {
    let escaped = escape_ref_path_segment("A/B");
    assert_eq!(escaped.as_str(), "A\\/B");
}

#[test]
fn escape_name_with_backslash() {
    let escaped = escape_ref_path_segment("A\\B");
    assert_eq!(escaped.as_str(), "A\\\\B");
}

#[test]
fn escape_name_with_both() {
    let escaped = escape_ref_path_segment("A/B\\C");
    assert_eq!(escaped.as_str(), "A\\/B\\\\C");
}

#[test]
fn unescape_plain_segment() {
    assert_eq!(unescape_ref_path_segment("Part1"), "Part1");
}

#[test]
fn unescape_escaped_slash() {
    assert_eq!(unescape_ref_path_segment("A\\/B").as_str(), "A/B");
}

#[test]
fn unescape_escaped_backslash() {
    assert_eq!(unescape_ref_path_segment("A\\\\B").as_str(), "A\\B");
}

#[test]
fn escape_unescape_round_trip() {
    let original = "A/B\\C/D";
    let escaped = escape_ref_path_segment(original);
    let unescaped = unescape_ref_path_segment(&escaped);
    assert_eq!(unescaped.as_str(), original);
}

#[test]
fn split_simple_path() {
    let segments = split_ref_path("Workspace/Model/Part");
    assert_eq!(segments.len(), 3);
    assert_eq!(segments[0], "Workspace");
    assert_eq!(segments[1], "Model");
    assert_eq!(segments[2], "Part");
}

#[test]
fn split_path_with_escaped_slash() {
    let segments = split_ref_path("Workspace/A\\/B/Part");
    assert_eq!(segments.len(), 3);
    assert_eq!(segments[0], "Workspace");
    assert_eq!(segments[1], "A/B"); // unescaped
    assert_eq!(segments[2], "Part");
}

#[test]
fn split_empty_path() {
    let segments = split_ref_path("");
    assert!(segments.is_empty());
}

#[test]
fn split_single_segment() {
    let segments = split_ref_path("Workspace");
    assert_eq!(segments.len(), 1);
    assert_eq!(segments[0], "Workspace");
}

#[test]
fn ref_target_attr_name_value() {
    assert_eq!(ref_target_attribute_name("Value"), "Rojo_Target_Value");
}

#[test]
fn ref_path_index_add_and_find() {
    let mut index = RefPathIndex::new();
    index.add(
        "Workspace/Model/Part1",
        "/project/init.meta.json5",
    );
    let results = index.find_by_prefix("Workspace/Model/Part1");
    assert_eq!(results.len(), 1);
    assert_eq!(results[0], "/project/init.meta.json5");
}

#[test]
fn ref_path_index_find_by_prefix_children() {
    let mut index = RefPathIndex::new();
    index.add("Workspace/Model/Part1", "/a.meta.json5");
    index.add("Workspace/Model/Part2", "/b.meta.json5");
    index.add("Workspace/Other", "/c.meta.json5");

    // "Workspace/Model" should match both Part1 and Part2
    let results = index.find_by_prefix("Workspace/Model");
    assert_eq!(results.len(), 2);
}

#[test]
fn ref_path_index_find_exact_match() {
    let mut index = RefPathIndex::new();
    index.add("Workspace/Model", "/a.meta.json5");
    let results = index.find_by_prefix("Workspace/Model");
    assert_eq!(results.len(), 1);
}

#[test]
fn ref_path_index_no_partial_match() {
    let mut index = RefPathIndex::new();
    index.add("Workspace/ModelExtra", "/a.meta.json5");
    // "Workspace/Model" should NOT match "Workspace/ModelExtra"
    let results = index.find_by_prefix("Workspace/Model");
    assert!(results.is_empty());
}

#[test]
fn ref_path_index_remove() {
    let mut index = RefPathIndex::new();
    let path = "/a.meta.json5";
    index.add("Workspace/Part", path);
    assert_eq!(index.find_by_prefix("Workspace/Part").len(), 1);

    index.remove("Workspace/Part", path);
    assert!(index.find_by_prefix("Workspace/Part").is_empty());
}

#[test]
fn ref_path_index_remove_nonexistent_is_noop() {
    let mut index = RefPathIndex::new();
    // Should not panic
    index.remove("Workspace/Missing", "/x.meta.json5");
}

#[test]
fn ref_path_index_remove_all_for_file() {
    let mut index = RefPathIndex::new();
    let file = "/a.meta.json5";
    index.add("Workspace/Part1", file);
    index.add("Workspace/Part2", file);

    index.remove_all_for_file(file);
    assert!(index.find_by_prefix("Workspace/Part1").is_empty());
    assert!(index.find_by_prefix("Workspace/Part2").is_empty());
}

#[test]
fn ref_path_index_remove_all_for_file_preserves_other_files() {
    let mut index = RefPathIndex::new();
    let file_a = "/a.meta.json5";
    let file_b = "/b.meta.json5";
    // Both files share the same ref path entry
    index.add("Workspace/Part1", file_a);
    index.add("Workspace/Part1", file_b);
    // file_a also has another ref
    index.add("Workspace/Part2", file_a);

    index.remove_all_for_file(file_a);

    // file_b's entry should be preserved
    let results = index.find_by_prefix("Workspace/Part1");
    assert_eq!(results.len(), 1);
    assert_eq!(results[0], "/b.meta.json5");

    // file_a's other entry should be gone
    assert!(index.find_by_prefix("Workspace/Part2").is_empty());
}

#[test]
fn ref_path_index_update_prefix() {
    let mut index = RefPathIndex::new();
    index.add("Workspace/OldModel/Part1", "/a.meta.json5");
    index.add("Workspace/OldModel/Part2", "/b.meta.json5");
    index.add("Workspace/Other", "/c.meta.json5");

    index.update_prefix("Workspace/OldModel", "Workspace/NewModel");

    assert!(index.find_by_prefix("Workspace/OldModel").is_empty());
    assert_eq!(index.find_by_prefix("Workspace/NewModel").len(), 2);
    // "Workspace/Other" should be unchanged
    assert_eq!(index.find_by_prefix("Workspace/Other").len(), 1);
}

#[test]
fn ref_path_index_update_prefix_exact() {
    let mut index = RefPathIndex::new();
    index.add("Workspace/Part", "/a.meta.json5");

    index.update_prefix("Workspace/Part", "Workspace/RenamedPart");

    assert!(index.find_by_prefix("Workspace/Part").is_empty());
    assert_eq!(index.find_by_prefix("Workspace/RenamedPart").len(), 1);
}

#[test]
fn ref_path_index_deduplicate_results() {
    let mut index = RefPathIndex::new();
    let file = "/shared.meta.json5";
    // Same file has two Rojo_Ref_* attrs both under the same prefix
    index.add("Workspace/Model/Part1", file);
    index.add("Workspace/Model/Part2", file);

    let results = index.find_by_prefix("Workspace/Model");
    // Should be deduplicated to just one entry
    assert_eq!(results.len(), 1);
}

#[test]
fn relative_self_reference() {
    assert_eq!(
        compute_relative_ref_path("Workspace/Model", "Workspace/Model"),
        "@self"
    );
}

#[test]
fn relative_self_direct_child() {
    assert_eq!(
        compute_relative_ref_path("Workspace/Model", "Workspace/Model/Handle.model.json5"),
        "@self/Handle.model.json5"
    );
}

#[test]
fn relative_self_nested_descendant() {
    assert_eq!(
        compute_relative_ref_path(
            "Workspace/Model",
            "Workspace/Model/SubFolder/Part.model.json5"
        ),
        "@self/SubFolder/Part.model.json5"
    );
}

#[test]
fn relative_self_deeply_nested() {
    assert_eq!(
        compute_relative_ref_path("Workspace/Model", "Workspace/Model/A/B/C/D.luau"),
        "@self/A/B/C/D.luau"
    );
}

#[test]
fn relative_self_tool_handle() {
    assert_eq!(
        compute_relative_ref_path("Workspace/Tool", "Workspace/Tool/Handle.model.json5"),
        "@self/Handle.model.json5"
    );
}

#[test]
fn relative_self_init_style_child() {
    assert_eq!(
        compute_relative_ref_path("Workspace/Model", "Workspace/Model/Init"),
        "@self/Init"
    );
}

#[test]
fn relative_self_nested_sound() {
    assert_eq!(
        compute_relative_ref_path("Workspace/Gun", "Workspace/Gun/Sounds/Fire.model.json5"),
        "@self/Sounds/Fire.model.json5"
    );
}

#[test]
fn relative_self_slugified_child() {
    assert_eq!(
        compute_relative_ref_path("Workspace/Model", "Workspace/Model/Hey_Bro.server.luau"),
        "@self/Hey_Bro.server.luau"
    );
}

#[test]
fn relative_self_dedup_child() {
    assert_eq!(
        compute_relative_ref_path("Workspace/Model", "Workspace/Model/Data~2"),
        "@self/Data~2"
    );
}

#[test]
fn relative_dot_sibling_script() {
    assert_eq!(
        compute_relative_ref_path(
            "Workspace/Folder/ScriptA.server.luau",
            "Workspace/Folder/ScriptB.server.luau"
        ),
        "./ScriptB.server.luau"
    );
}

#[test]
fn relative_dot_sibling_module() {
    assert_eq!(
        compute_relative_ref_path(
            "Workspace/Folder/ScriptA.server.luau",
            "Workspace/Folder/Config.luau"
        ),
        "./Config.luau"
    );
}

#[test]
fn relative_dot_sibling_directory() {
    assert_eq!(
        compute_relative_ref_path(
            "Workspace/Folder/ScriptA.server.luau",
            "Workspace/Folder/SubFolder"
        ),
        "./SubFolder"
    );
}

#[test]
fn relative_dot_sibling_then_descend() {
    assert_eq!(
        compute_relative_ref_path(
            "Workspace/Folder/ScriptA.server.luau",
            "Workspace/Folder/SubFolder/Deep.luau"
        ),
        "./SubFolder/Deep.luau"
    );
}

#[test]
fn relative_dot_object_value_sibling() {
    assert_eq!(
        compute_relative_ref_path(
            "Workspace/Folder/ObjectValue.model.json5",
            "Workspace/Folder/Target.model.json5"
        ),
        "./Target.model.json5"
    );
}

#[test]
fn relative_dot_beam_attachment0() {
    assert_eq!(
        compute_relative_ref_path(
            "Workspace/Beams/Beam.model.json5",
            "Workspace/Beams/Att1.model.json5"
        ),
        "./Att1.model.json5"
    );
}

#[test]
fn relative_dot_beam_attachment1() {
    assert_eq!(
        compute_relative_ref_path(
            "Workspace/Beams/Beam.model.json5",
            "Workspace/Beams/Att2.model.json5"
        ),
        "./Att2.model.json5"
    );
}

#[test]
fn relative_dot_slugified_sibling() {
    assert_eq!(
        compute_relative_ref_path(
            "Workspace/Folder/A.luau",
            "Workspace/Folder/Hey_Bro.server.luau"
        ),
        "./Hey_Bro.server.luau"
    );
}

#[test]
fn relative_dot_dedup_sibling_folder() {
    assert_eq!(
        compute_relative_ref_path("Workspace/Folder/A.luau", "Workspace/Folder/Data~2"),
        "./Data~2"
    );
}

#[test]
fn relative_dot_dedup_sibling_model() {
    assert_eq!(
        compute_relative_ref_path(
            "Workspace/Folder/A.luau",
            "Workspace/Folder/Data~3.model.json5"
        ),
        "./Data~3.model.json5"
    );
}

#[test]
fn relative_dotdot_2_ups() {
    assert_eq!(
        compute_relative_ref_path(
            "Workspace/A/Script.server.luau",
            "Workspace/B/Part.model.json5"
        ),
        "../B/Part.model.json5"
    );
}

#[test]
fn relative_dotdot_2_ups_directory() {
    assert_eq!(
        compute_relative_ref_path("Workspace/A/Script.server.luau", "Workspace/B"),
        "../B"
    );
}

#[test]
fn relative_dotdot_3_ups() {
    assert_eq!(
        compute_relative_ref_path(
            "Workspace/A/B/Script.server.luau",
            "Workspace/C/Part.model.json5"
        ),
        "../../C/Part.model.json5"
    );
}

#[test]
fn relative_dotdot_4_ups() {
    assert_eq!(
        compute_relative_ref_path(
            "Workspace/A/B/C/Script.luau",
            "Workspace/D/E/Part.model.json5"
        ),
        "../../../D/E/Part.model.json5"
    );
}

#[test]
fn relative_dotdot_5_ups() {
    assert_eq!(
        compute_relative_ref_path(
            "Workspace/A/B/C/D/Script.luau",
            "Workspace/E/Part.model.json5"
        ),
        "../../../../E/Part.model.json5"
    );
}

#[test]
fn relative_dotdot_peer_model() {
    assert_eq!(
        compute_relative_ref_path(
            "Workspace/Models/Car/Body.model.json5",
            "Workspace/Models/Truck/Body.model.json5"
        ),
        "../Truck/Body.model.json5"
    );
}

#[test]
fn relative_dotdot_cousin() {
    assert_eq!(
        compute_relative_ref_path("Workspace/A/Deep/Script.luau", "Workspace/A/Other.luau"),
        "../Other.luau"
    );
}

#[test]
fn relative_dotdot_beam_uncle_folder() {
    assert_eq!(
        compute_relative_ref_path(
            "Workspace/A/B/Beam.model.json5",
            "Workspace/A/C/Att.model.json5"
        ),
        "../C/Att.model.json5"
    );
}

#[test]
fn relative_dotdot_cross_system() {
    assert_eq!(
        compute_relative_ref_path(
            "Workspace/Systems/Combat/Hitbox.server.luau",
            "Workspace/Systems/Audio/HitSound.model.json5"
        ),
        "../Audio/HitSound.model.json5"
    );
}

#[test]
fn relative_dotdot_same_zone() {
    assert_eq!(
        compute_relative_ref_path(
            "Workspace/Map/Zone1/Spawns/Spawn1.model.json5",
            "Workspace/Map/Zone1/Props/Tree.model.json5"
        ),
        "../Props/Tree.model.json5"
    );
}

#[test]
fn relative_dotdot_cross_zone() {
    assert_eq!(
        compute_relative_ref_path(
            "Workspace/Map/Zone1/Spawns/Spawn1.model.json5",
            "Workspace/Map/Zone2/Flag.model.json5"
        ),
        "../../Zone2/Flag.model.json5"
    );
}

#[test]
fn relative_game_cross_service_classic() {
    assert_eq!(
        compute_relative_ref_path(
            "Workspace/Script.server.luau",
            "ReplicatedStorage/Module.luau"
        ),
        "@game/ReplicatedStorage/Module.luau"
    );
}

#[test]
fn relative_game_to_server_storage() {
    assert_eq!(
        compute_relative_ref_path("Workspace/Script.server.luau", "ServerStorage/Data.luau"),
        "@game/ServerStorage/Data.luau"
    );
}

#[test]
fn relative_game_sss_to_rs() {
    assert_eq!(
        compute_relative_ref_path(
            "ServerScriptService/Main.server.luau",
            "ReplicatedStorage/Shared/Utils.luau"
        ),
        "@game/ReplicatedStorage/Shared/Utils.luau"
    );
}

#[test]
fn relative_game_client_to_rs() {
    assert_eq!(
        compute_relative_ref_path(
            "StarterGui/ScreenGui/Button.client.luau",
            "ReplicatedStorage/UI/Theme.luau"
        ),
        "@game/ReplicatedStorage/UI/Theme.luau"
    );
}

#[test]
fn relative_game_to_service_itself() {
    assert_eq!(
        compute_relative_ref_path("Workspace/A/B/C/Script.luau", "Lighting"),
        "@game/Lighting"
    );
}

#[test]
fn relative_game_ancestor_own_service() {
    assert_eq!(
        compute_relative_ref_path("Workspace/A/B/C/Script.luau", "Workspace"),
        "@game/Workspace"
    );
}

#[test]
fn relative_game_ancestor_grandparent() {
    assert_eq!(
        compute_relative_ref_path("Workspace/A/B/Script.luau", "Workspace/A"),
        "@game/Workspace/A"
    );
}

#[test]
fn relative_game_ancestor_great_grandparent() {
    assert_eq!(
        compute_relative_ref_path("Workspace/A/B/C/Script.luau", "Workspace/A/B"),
        "@game/Workspace/A/B"
    );
}

#[test]
fn relative_game_ancestor_own_service_single_level() {
    assert_eq!(
        compute_relative_ref_path("ReplicatedStorage/A.luau", "ReplicatedStorage"),
        "@game/ReplicatedStorage"
    );
}

#[test]
fn relative_game_to_sound_service() {
    assert_eq!(
        compute_relative_ref_path("Workspace/Script.luau", "SoundService/BGM.model.json5"),
        "@game/SoundService/BGM.model.json5"
    );
}

#[test]
fn relative_special_windows_reserved() {
    assert_eq!(
        compute_relative_ref_path("Workspace/Folder/A.luau", "Workspace/Other/CON_.luau"),
        "../Other/CON_.luau"
    );
}

#[test]
fn relative_special_into_dedup_folder() {
    assert_eq!(
        compute_relative_ref_path("Workspace/A.luau", "Workspace/Data~2/Child.luau"),
        "./Data~2/Child.luau"
    );
}

#[test]
fn relative_special_init_style_child() {
    assert_eq!(
        compute_relative_ref_path("Workspace/Model", "Workspace/Model/Scripts"),
        "@self/Scripts"
    );
}

#[test]
fn relative_special_init_style_both() {
    assert_eq!(
        compute_relative_ref_path("Workspace/Scripts", "Workspace/Scripts/Foo"),
        "@self/Foo"
    );
}

#[test]
fn relative_edge_service_own_child() {
    assert_eq!(
        compute_relative_ref_path("Workspace", "Workspace/Model.model.json5"),
        "@self/Model.model.json5"
    );
}

#[test]
fn relative_edge_service_to_service() {
    assert_eq!(
        compute_relative_ref_path("Workspace", "ReplicatedStorage/Module.luau"),
        "@game/ReplicatedStorage/Module.luau"
    );
}

#[test]
fn relative_edge_service_self_ref() {
    assert_eq!(compute_relative_ref_path("Workspace", "Workspace"), "@self");
}

#[test]
fn relative_edge_service_to_different_service() {
    assert_eq!(
        compute_relative_ref_path("Workspace", "Lighting"),
        "@game/Lighting"
    );
}

#[test]
fn relative_edge_segment_prefix_ambiguity() {
    assert_eq!(
        compute_relative_ref_path("Workspace/A", "Workspace/AB"),
        "./AB"
    );
}

#[test]
fn relative_edge_same_stem_different_ext() {
    assert_eq!(
        compute_relative_ref_path("Workspace/Foo.server.luau", "Workspace/Foo.luau"),
        "./Foo.luau"
    );
}

#[test]
fn relative_edge_deep_close_cousins() {
    assert_eq!(
        compute_relative_ref_path(
            "Workspace/A/B/C/D/E/F/Script.luau",
            "Workspace/A/B/C/D/E/G/Target.luau"
        ),
        "../G/Target.luau"
    );
}

#[test]
fn relative_edge_deep_far_apart() {
    assert_eq!(
        compute_relative_ref_path(
            "Workspace/A/B/C/D/E/F/Script.luau",
            "Workspace/X/Target.luau"
        ),
        "../../../../../../X/Target.luau"
    );
}

#[test]
fn resolve_abs_game_prefix() {
    assert_eq!(
        resolve_ref_path_to_absolute("@game/ReplicatedStorage/Module.luau", "Workspace/Script"),
        Some("ReplicatedStorage/Module.luau".to_string())
    );
}

#[test]
fn resolve_abs_self_no_path() {
    assert_eq!(
        resolve_ref_path_to_absolute("@self", "Workspace/Model"),
        Some("Workspace/Model".to_string())
    );
}

#[test]
fn resolve_abs_self_with_child() {
    assert_eq!(
        resolve_ref_path_to_absolute("@self/Handle.model.json5", "Workspace/Model"),
        Some("Workspace/Model/Handle.model.json5".to_string())
    );
}

#[test]
fn resolve_abs_self_nested() {
    assert_eq!(
        resolve_ref_path_to_absolute("@self/A/B/C", "Workspace/Model"),
        Some("Workspace/Model/A/B/C".to_string())
    );
}

#[test]
fn resolve_abs_dot_sibling() {
    assert_eq!(
        resolve_ref_path_to_absolute("./Sibling.luau", "Workspace/Folder/Script.luau"),
        Some("Workspace/Folder/Sibling.luau".to_string())
    );
}

#[test]
fn resolve_abs_dot_sibling_descend() {
    assert_eq!(
        resolve_ref_path_to_absolute("./Sub/Deep.luau", "Workspace/Folder/Script.luau"),
        Some("Workspace/Folder/Sub/Deep.luau".to_string())
    );
}

#[test]
fn resolve_abs_dotdot_2_ups() {
    assert_eq!(
        resolve_ref_path_to_absolute("../B/Part.model.json5", "Workspace/A/Script.luau"),
        Some("Workspace/B/Part.model.json5".to_string())
    );
}

#[test]
fn resolve_abs_dotdot_3_ups() {
    assert_eq!(
        resolve_ref_path_to_absolute("../../C/Part.model.json5", "Workspace/A/B/Script.luau"),
        Some("Workspace/C/Part.model.json5".to_string())
    );
}

#[test]
fn resolve_abs_dotdot_cross_service_via_root() {
    assert_eq!(
        resolve_ref_path_to_absolute(
            "../../ReplicatedStorage/Module.luau",
            "Workspace/A/Script.luau"
        ),
        Some("ReplicatedStorage/Module.luau".to_string())
    );
}

#[test]
fn resolve_abs_bare_path_legacy() {
    assert_eq!(
        resolve_ref_path_to_absolute("Workspace/Model/Handle.model.json5", "anything/here"),
        Some("Workspace/Model/Handle.model.json5".to_string())
    );
}

#[test]
fn resolve_abs_dotdot_mid_path() {
    assert_eq!(
        resolve_ref_path_to_absolute("@self/Sub/../Handle.model.json5", "Workspace/Model"),
        Some("Workspace/Model/Handle.model.json5".to_string())
    );
}

#[test]
fn resolve_abs_dotdot_above_root_returns_none() {
    assert_eq!(resolve_ref_path_to_absolute("../../X", "Workspace"), None);
}

#[test]
fn resolve_then_compute_round_trip() {
    let source = "Workspace/A/B/Script.luau";
    let target = "Workspace/C/Part.model.json5";
    let relative = compute_relative_ref_path(source, target);
    assert_eq!(relative, "../../C/Part.model.json5");
    let resolved = resolve_ref_path_to_absolute(&relative, source).unwrap();
    assert_eq!(resolved, target);
}

#[test]
fn resolve_then_compute_round_trip_self() {
    let source = "Workspace/Model";
    let target = "Workspace/Model/Handle.model.json5";
    let relative = compute_relative_ref_path(source, target);
    assert_eq!(relative, "@self/Handle.model.json5");
    let resolved = resolve_ref_path_to_absolute(&relative, source).unwrap();
    assert_eq!(resolved, target);
}

#[test]
fn resolve_then_compute_round_trip_game() {
    let source = "Workspace/Script.luau";
    let target = "ReplicatedStorage/Module.luau";
    let relative = compute_relative_ref_path(source, target);
    assert_eq!(relative, "@game/ReplicatedStorage/Module.luau");
    let resolved = resolve_ref_path_to_absolute(&relative, source).unwrap();
    assert_eq!(resolved, target);
}

#[test]
fn resolve_then_compute_round_trip_dot() {
    let source = "Workspace/Folder/A.luau";
    let target = "Workspace/Folder/B.luau";
    let relative = compute_relative_ref_path(source, target);
    assert_eq!(relative, "./B.luau");
    let resolved = resolve_ref_path_to_absolute(&relative, source).unwrap();
    assert_eq!(resolved, target);
}
