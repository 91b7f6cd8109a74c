use librojo::cli::{
    SyncbackStep,
    confirms_write, get_place_id_from_project, git_setup_plan, resolve_path, template_target, write_summary,
    ColorChoice, FileKind, GitSetupPlan, InitKind, ProjectParams, SubcommandKind, SyncbackCommand, SyncbackInput,
};
use std::str::FromStr;

#[test]
fn color_choices_parse() {
    assert!(matches!(ColorChoice::parse("auto"), Ok(ColorChoice::Auto)));
    assert!(matches!(ColorChoice::parse("always"), Ok(ColorChoice::Always)));
    assert!(matches!(ColorChoice::from_str("never"), Ok(ColorChoice::Never)));
}

#[test]
fn invalid_color_choice_message() {
    match ColorChoice::parse("sometimes") {
        Err(e) => assert_eq!(e.message(), "Invalid color choice 'sometimes'. Valid values are: auto, always, never"),
        Ok(_) => panic!("expected an error"),
    }
    assert!(ColorChoice::parse("Auto").is_err());
}

#[test]
fn init_kinds_parse_and_name_templates() {
    assert_eq!(InitKind::parse("place").ok(), Some(InitKind::Place));
    assert_eq!(InitKind::from_str("model").ok(), Some(InitKind::Model));
    assert_eq!(InitKind::parse("plugin").ok().map(|k| k.template_name()), Some("plugin"));
    assert_eq!(InitKind::Place.template_name(), "place");
    match InitKind::parse("game") {
        Err(e) => assert_eq!(e.message(), "Invalid init kind 'game'. Valid kinds are: place, model, plugin"),
        Ok(_) => panic!("expected an error"),
    }
}

#[test]
fn template_rendering() {
    let params = ProjectParams { name: "my-game".to_string(), place_id: Some(1234) };
    assert_eq!(
        params.render_template("name={project_name} v={rojo_version} id={place_id} again={project_name}", "7.5.0"),
        "name=my-game v=7.5.0 id=1234 again=my-game"
    );
}

#[test]
fn place_id_is_smallest_serve_place_id() {
    assert_eq!(get_place_id_from_project(Some(&[30, 10, 20])), Ok(10));
    assert_eq!(get_place_id_from_project(Some(&[5])), Ok(5));
}

#[test]
fn place_id_errors() {
    assert_eq!(
        get_place_id_from_project(None),
        Err("No servePlaceIds in project file. Add servePlaceIds to your project or use --download=PLACEID".to_string())
    );
    assert_eq!(get_place_id_from_project(Some(&[])), Err("servePlaceIds is empty in project file".to_string()));
}

#[test]
fn syncback_input_choice() {
    let mut cmd = SyncbackCommand {
        project: "default.project.json5".into(),
        input: "Project.rbxl".into(),
        download: Some(9),
        list: false,
        dry_run: false,
        interactive: false,
        incremental: false,
    };
    assert_eq!(cmd.input_source(true), SyncbackInput::Download { place_id: 9 });
    cmd.download = None;
    assert_eq!(cmd.input_source(true), SyncbackInput::Existing);
    assert_eq!(cmd.input_source(false), SyncbackInput::DownloadFromProject);
}

#[test]
fn write_prompt_answers() {
    assert!(confirms_write("y"));
    assert!(confirms_write(" Y\n"));
    assert!(!confirms_write("yes"));
    assert!(!confirms_write(""));
    assert!(!confirms_write("n"));
}

#[test]
fn write_summary_text() {
    assert_eq!(write_summary(12, 0), "Would write 12 files/folders and remove 0 files/folders.");
}

#[test]
fn template_targets() {
    let exclude = vec!["default.project.json5".to_string()];
    assert_eq!(template_target("src/init.luau", false, &exclude), Some("src/init.luau".to_string()));
    assert_eq!(template_target("default.project.json5", false, &exclude), None);
    assert_eq!(template_target("gitignore.txt", false, &exclude), Some(".gitignore".to_string()));
    assert_eq!(template_target("sub/gitignore.txt", false, &exclude), Some("sub/.gitignore".to_string()));
    assert_eq!(template_target("gitignore.txt", true, &exclude), None);
    assert_eq!(template_target("default.project.json5", false, &Vec::new()), Some("default.project.json5".to_string()));
}

#[test]
fn git_setup_plans() {
    assert_eq!(
        git_setup_plan(false, false, false),
        GitSetupPlan { init_repo: true, initial_commit: true, add_submodules: true }
    );
    assert_eq!(
        git_setup_plan(false, true, true),
        GitSetupPlan { init_repo: false, initial_commit: true, add_submodules: false }
    );
    assert_eq!(
        git_setup_plan(true, false, false),
        GitSetupPlan { init_repo: false, initial_commit: false, add_submodules: false }
    );
}

#[test]
fn resolved_paths_and_command_names() {
    assert_eq!(resolve_path("/abs/p", "/cwd"), "/abs/p");
    assert_eq!(resolve_path("rel/p", "/cwd"), "/cwd/rel/p");
    assert_eq!(resolve_path("rel", "/cwd/"), "/cwd/rel");
    assert_eq!(SubcommandKind::FmtProject.command_name(), "fmt-project");
    assert_eq!(SubcommandKind::Pull.command_name(), "pull");
    assert_eq!(SubcommandKind::Serve.command_name(), "serve");
}

#[test]
fn input_file_kinds() {
    assert_eq!(FileKind::from_path("/p/Project.rbxl"), Some(FileKind::Rbxl));
    assert_eq!(FileKind::from_path("Place.rbxlx"), Some(FileKind::Rbxlx));
    assert_eq!(FileKind::from_path("/m/Model.rbxm"), Some(FileKind::Rbxm));
    assert_eq!(FileKind::from_path("Model.rbxmx"), Some(FileKind::Rbxmx));
    assert_eq!(FileKind::from_path("notes.txt"), None);
    assert_eq!(FileKind::from_path("rbxl"), None);
    assert_eq!(FileKind::from_path(".rbxl"), None);
}

#[test]
fn syncback_step_follows_dry_run_then_interactive() {
    let mut cmd = SyncbackCommand {
        project: "default.project.json5".into(),
        input: "Project.rbxl".into(),
        download: None,
        list: false,
        dry_run: true,
        interactive: true,
        incremental: false,
    };
    assert_eq!(cmd.step_after_changes(), SyncbackStep::Report);
    cmd.dry_run = false;
    assert_eq!(cmd.step_after_changes(), SyncbackStep::Ask);
    cmd.interactive = false;
    assert_eq!(cmd.step_after_changes(), SyncbackStep::Write);
}
