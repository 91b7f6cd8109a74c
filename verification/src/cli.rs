//! The command line's option types and the small parsers behind them.
//!
//! These are the plain forms of the options; the command line parser that
//! fills them lives with the program.

use vstd::prelude::*;
use crate::text::{chars_of, decimal, push_decimal, push_str, replace_all, replace_spec, str_eq, string_from_chars, to_owned_string};

verus! {

/// When to colour terminal output.
#[derive(Debug, Clone, Copy, PartialEq, Eq, Structural)]
pub enum ColorChoice {
    Auto,
    Always,
    Never,
}

/// A `--color` value that is none of `auto`, `always` and `never`.
#[derive(Debug)]
pub struct ColorChoiceParseError {
    pub attempted: String,
}

impl ColorChoiceParseError {
    /// The error text shown to the user.
    pub fn message(&self) -> (res: String)
        ensures
            res@ == "Invalid color choice '"@ + self.attempted@
                + "'. Valid values are: auto, always, never"@,
    {
        let mut out: Vec<char> = Vec::new();
        push_str(&mut out, "Invalid color choice '");
        push_str(&mut out, self.attempted.as_str());
        push_str(&mut out, "'. Valid values are: auto, always, never");
        string_from_chars(&out)
    }
}

/// The colour choice a `--color` value names, if any.
pub open spec fn color_choice_spec(source: Seq<char>) -> Option<ColorChoice> {
    if source == "auto"@ {
        Some(ColorChoice::Auto)
    } else if source == "always"@ {
        Some(ColorChoice::Always)
    } else if source == "never"@ {
        Some(ColorChoice::Never)
    } else {
        None
    }
}

impl ColorChoice {
    /// Parses a `--color` value: exactly `auto`, `always` or `never`.
    pub fn parse(source: &str) -> (res: Result<ColorChoice, ColorChoiceParseError>)
        ensures
            match res {
                Ok(c) => color_choice_spec(source@) == Some(c),
                Err(e) => color_choice_spec(source@) is None && e.attempted@ == source@,
            },
    {
        if str_eq(source, "auto") {
            Ok(ColorChoice::Auto)
        } else if str_eq(source, "always") {
            Ok(ColorChoice::Always)
        } else if str_eq(source, "never") {
            Ok(ColorChoice::Never)
        } else {
            Err(ColorChoiceParseError { attempted: to_owned_string(source) })
        }
    }
}

impl std::str::FromStr for ColorChoice {
    type Err = ColorChoiceParseError;

    fn from_str(source: &str) -> (res: Result<Self, Self::Err>)
        ensures
            match res {
                Ok(v) => color_choice_spec(source@) == Some(v),
                Err(e) => color_choice_spec(source@) is None && e.attempted@ == source@,
            },
    {
        ColorChoice::parse(source)
    }
}

/// Options shared by every subcommand.
#[derive(Debug)]
pub struct GlobalOptions {
    /// Verbosity level: how many times `--verbose` was given.
    pub verbosity: u8,
    /// Colour behaviour.
    pub color: ColorChoice,
}

/// The templates a new project can be created from.
#[derive(Debug, Clone, Copy, PartialEq, Eq, Structural)]
pub enum InitKind {
    /// A place that contains a baseplate.
    Place,
    /// An empty model, suitable for a library.
    Model,
    /// An empty plugin.
    Plugin,
}

/// A `--kind` value that is none of `place`, `model` and `plugin`.
#[derive(Debug)]
pub struct InitKindParseError {
    pub attempted: String,
}

impl InitKindParseError {
    /// The error text shown to the user.
    pub fn message(&self) -> (res: String)
        ensures
            res@ == "Invalid init kind '"@ + self.attempted@
                + "'. Valid kinds are: place, model, plugin"@,
    {
        let mut out: Vec<char> = Vec::new();
        push_str(&mut out, "Invalid init kind '");
        push_str(&mut out, self.attempted.as_str());
        push_str(&mut out, "'. Valid kinds are: place, model, plugin");
        string_from_chars(&out)
    }
}

/// The template kind a `--kind` value names, if any.
pub open spec fn init_kind_spec(source: Seq<char>) -> Option<InitKind> {
    if source == "place"@ {
        Some(InitKind::Place)
    } else if source == "model"@ {
        Some(InitKind::Model)
    } else if source == "plugin"@ {
        Some(InitKind::Plugin)
    } else {
        None
    }
}

impl InitKind {
    /// Parses a `--kind` value: exactly `place`, `model` or `plugin`.
    pub fn parse(source: &str) -> (res: Result<InitKind, InitKindParseError>)
        ensures
            match res {
                Ok(k) => init_kind_spec(source@) == Some(k),
                Err(e) => init_kind_spec(source@) is None && e.attempted@ == source@,
            },
    {
        if str_eq(source, "place") {
            Ok(InitKind::Place)
        } else if str_eq(source, "model") {
            Ok(InitKind::Model)
        } else if str_eq(source, "plugin") {
            Ok(InitKind::Plugin)
        } else {
            Err(InitKindParseError { attempted: to_owned_string(source) })
        }
    }

    /// The name of the directory that holds this kind's template files.
    pub fn template_name(&self) -> (res: &'static str)
        ensures
            res@ == match *self {
                InitKind::Place => "place"@,
                InitKind::Model => "model"@,
                InitKind::Plugin => "plugin"@,
            },
    {
        match self {
            InitKind::Place => "place",
            InitKind::Model => "model",
            InitKind::Plugin => "plugin",
        }
    }
}

impl std::str::FromStr for InitKind {
    type Err = InitKindParseError;

    fn from_str(source: &str) -> (res: Result<Self, Self::Err>)
        ensures
            match res {
                Ok(v) => init_kind_spec(source@) == Some(v),
                Err(e) => init_kind_spec(source@) is None && e.attempted@ == source@,
            },
    {
        InitKind::parse(source)
    }
}

/// Options of `init`: create a new project from a template.
#[derive(Debug)]
pub struct InitCommand {
    /// Where to create the project.
    pub path: String,
    /// Which template to use.
    pub kind: InitKind,
    /// Do not initialise a git repository.
    pub skip_git: bool,
    /// Place id to put in `servePlaceIds`.
    pub placeid: Option<u64>,
    /// Do not add the editor rules directory.
    pub skip_rules: bool,
    /// Do not change into the new project's directory.
    pub skip_cd: bool,
}

/// Options of `clone`: create a project from one or more published places.
#[derive(Debug)]
pub struct CloneCommand {
    /// The place ids to download and sync back.
    pub placeids: Vec<u64>,
    /// Where to create the project; derived from the experience name if absent.
    pub path: Option<String>,
    /// Which template to use.
    pub kind: InitKind,
    /// Do not initialise a git repository.
    pub skip_git: bool,
    /// Do not add the editor rules directory.
    pub skip_rules: bool,
    /// Do not change into the new project's directory.
    pub skip_cd: bool,
}

/// Options of `cursor`: open a directory in the editor.
#[derive(Debug)]
pub struct CursorCommand {
    pub path: String,
}

/// Options of `fmt-project`: reformat a project file.
#[derive(Debug)]
pub struct FmtProjectCommand {
    pub project: String,
}

/// Options of `studio`: open a project's place in Roblox Studio.
#[derive(Debug)]
pub struct StudioCommand {
    pub project: String,
}

/// Options of `syncback`: write the instances of a place file back into a project.
#[derive(Debug)]
pub struct SyncbackCommand {
    /// The project to sync back to.
    pub project: String,
    /// The place file to read instances from.
    pub input: String,
    /// Download this place id instead of reading `input`.
    pub download: Option<u64>,
    /// List the files that would be added or removed.
    pub list: bool,
    /// Do not write anything.
    pub dry_run: bool,
    /// Ask before writing.
    pub interactive: bool,
    /// Keep the existing file layout where possible.
    pub incremental: bool,
}

/// The place a syncback downloads when no place id is given: the smallest
/// of the project's `servePlaceIds`, so that the choice does not depend on
/// their order. Fails when the project has no such list or it is empty.
pub fn get_place_id_from_project(serve_place_ids: Option<&[u64]>) -> (res: Result<u64, String>)
    ensures
        match serve_place_ids {
            None => res matches Err(m) && m@
                == "No servePlaceIds in project file. Add servePlaceIds to your project or use --download=PLACEID"@,
            Some(ids) => if ids@.len() == 0 {
                res matches Err(m) && m@ == "servePlaceIds is empty in project file"@
            } else {
                res matches Ok(id) && (exists|i: int| 0 <= i < ids@.len() && ids@[i] == id) && (forall|i: int|
                    0 <= i < ids@.len() ==> id <= #[trigger] ids@[i])
            },
        },
{
    match serve_place_ids {
        None => Err(string_from_chars(
            &chars_of("No servePlaceIds in project file. Add servePlaceIds to your project or use --download=PLACEID"),
        )),
        Some(ids) => {
            if ids.len() == 0 {
                return Err(string_from_chars(&chars_of("servePlaceIds is empty in project file")));
            }
            let mut best = ids[0];
            let mut at: usize = 0;
            let mut i: usize = 1;
            while i < ids.len()
                invariant
                    1 <= i <= ids@.len(),
                    at < ids@.len(),
                    ids@[at as int] == best,
                    forall|k: int| 0 <= k < i ==> best <= #[trigger] ids@[k],
                decreases ids@.len() - i,
            {
                if ids[i] < best {
                    best = ids[i];
                    at = i;
                }
                i += 1;
            }
            Ok(best)
        },
    }
}

/// Where a syncback reads the new place from.
#[derive(Debug, Clone, Copy, PartialEq, Eq, Structural)]
pub enum SyncbackInput {
    /// Download the place given with `--download`.
    Download { place_id: u64 },
    /// Read the input file, which exists.
    Existing,
    /// The input file does not exist: download the project's place.
    DownloadFromProject,
}

impl SyncbackCommand {
    /// Chooses the syncback's input: the `--download` place if one was
    /// given, else the input file if it exists, else the place named by the
    /// project.
    pub fn input_source(&self, input_exists: bool) -> (r: SyncbackInput)
        ensures
            r == match self.download {
                Some(id) => SyncbackInput::Download { place_id: id },
                None => if input_exists {
                    SyncbackInput::Existing
                } else {
                    SyncbackInput::DownloadFromProject
                },
            },
    {
        match self.download {
            Some(id) => SyncbackInput::Download { place_id: id },
            None => if input_exists {
                SyncbackInput::Existing
            } else {
                SyncbackInput::DownloadFromProject
            },
        }
    }
}

/// Whether an answer to the write prompt agrees: `y` in either case, with
/// surrounding whitespace ignored.
pub fn confirms_write(answer: &str) -> (r: bool)
    ensures
        r == (crate::logging::lowercase(crate::text::trim_spec(answer@)) == "y"@),
{
    let trimmed = crate::text::trim_chars(&chars_of(answer));
    let t = string_from_chars(&trimmed);
    let lower = crate::logging::to_lowercase(t.as_str());
    str_eq(lower.as_str(), "y")
}

/// What a syncback does once it knows what would change.
#[derive(Debug, Clone, Copy, PartialEq, Eq, Structural)]
pub enum SyncbackStep {
    /// `--dry-run`: report what would change and stop without writing.
    Report,
    /// `--interactive`: report what would change and ask before writing.
    Ask,
    /// Write the changes.
    Write,
}

/// The step of a syncback with these options once its changes are known.
pub open spec fn syncback_step_spec(dry_run: bool, interactive: bool) -> SyncbackStep {
    if dry_run {
        SyncbackStep::Report
    } else if interactive {
        SyncbackStep::Ask
    } else {
        SyncbackStep::Write
    }
}

/// Whether a syncback writes to disk, given the answer to its prompt when
/// it asks one.
pub open spec fn syncback_writes(dry_run: bool, interactive: bool, answer: Seq<char>) -> bool {
    match syncback_step_spec(dry_run, interactive) {
        SyncbackStep::Report => false,
        SyncbackStep::Ask => crate::logging::lowercase(crate::text::trim_spec(answer)) == "y"@,
        SyncbackStep::Write => true,
    }
}

impl SyncbackCommand {
    /// What this syncback does once its changes are known: a dry run only
    /// reports them, an interactive run asks first, any other run writes.
    pub fn step_after_changes(&self) -> (r: SyncbackStep)
        ensures
            r == syncback_step_spec(self.dry_run, self.interactive),
    {
        if self.dry_run {
            SyncbackStep::Report
        } else if self.interactive {
            SyncbackStep::Ask
        } else {
            SyncbackStep::Write
        }
    }
}

/// A syncback writes nothing on a dry run, nor when it asks and the answer
/// is not `y`; it writes when it neither reports nor asks, or when the
/// answer agrees.
pub proof fn lemma_syncback_writes_only_when_allowed(dry_run: bool, interactive: bool, answer: Seq<char>)
    ensures
        syncback_writes(dry_run, interactive, answer) <==> (!dry_run && (!interactive
            || crate::logging::lowercase(crate::text::trim_spec(answer)) == "y"@)),
{
}

/// What a syncback would change: `Would write A files/folders and remove R
/// files/folders.`
pub fn write_summary(added: usize, removed: usize) -> (r: String)
    ensures
        r@ == "Would write "@ + decimal(added as nat) + " files/folders and remove "@ + decimal(removed as nat)
            + " files/folders."@,
{
    let mut v: Vec<char> = Vec::new();
    push_str(&mut v, "Would write ");
    push_decimal(&mut v, added as u64);
    push_str(&mut v, " files/folders and remove ");
    push_decimal(&mut v, removed as u64);
    push_str(&mut v, " files/folders.");
    string_from_chars(&v)
}

/// The name of the template file that becomes the project's `.gitignore`.
pub const GIT_IGNORE_PLACEHOLDER: &'static str = "gitignore.txt";

/// Where a template file is written in a new project, if at all: files
/// whose name is excluded are skipped, the `.gitignore` placeholder is
/// skipped without git and renamed to `.gitignore` with it, and any other
/// file keeps its path.
pub open spec fn template_target_spec(path: Seq<char>, skip_git: bool, exclude: Seq<Seq<char>>) -> Option<Seq<char>> {
    let name = crate::fs_path::file_name_spec(path);
    if exclude.contains(name) {
        None
    } else if name == "gitignore.txt"@ {
        if skip_git {
            None
        } else {
            Some(crate::fs_path::with_file_name_spec(path, ".gitignore"@))
        }
    } else {
        Some(path)
    }
}

/// Where the template file at `path` is written in a new project (see
/// [`template_target_spec`]).
pub fn template_target(path: &str, skip_git: bool, exclude: &Vec<String>) -> (r: Option<String>)
    ensures
        match r {
            Some(t) => template_target_spec(path@, skip_git, crate::fs_path::views_of(exclude@)) == Some(t@),
            None => template_target_spec(path@, skip_git, crate::fs_path::views_of(exclude@)) is None,
        },
{
    let name = crate::fs_path::file_name_of(path);
    let ghost ex = crate::fs_path::views_of(exclude@);
    let mut i: usize = 0;
    while i < exclude.len()
        invariant
            i <= exclude.len(),
            ex == crate::fs_path::views_of(exclude@),
            name@ == crate::fs_path::file_name_spec(path@),
            forall|k: int| 0 <= k < i ==> ex[k] != name@,
        decreases exclude.len() - i,
    {
        if str_eq(exclude[i].as_str(), name.as_str()) {
            assert(ex[i as int] == name@);
            assert(ex.contains(name@));
            return None;
        }
        i += 1;
    }
    assert(!ex.contains(name@));
    if str_eq(name.as_str(), GIT_IGNORE_PLACEHOLDER) {
        proof {
            reveal_strlit("gitignore.txt");
        }
        if skip_git {
            None
        } else {
            Some(crate::fs_path::renamed_ref_path(path, ".gitignore"))
        }
    } else {
        proof {
            reveal_strlit("gitignore.txt");
        }
        Some(string_from_chars(&chars_of(path)))
    }
}

/// What setting up git for a new project does.
#[derive(Debug, Clone, Copy, PartialEq, Eq, Structural)]
pub struct GitSetupPlan {
    /// Create a repository (none encloses the project yet).
    pub init_repo: bool,
    /// Commit the template files.
    pub initial_commit: bool,
    /// Add the agent rules as submodules.
    pub add_submodules: bool,
}

/// Plans the git setup of a new project: unless git is skipped, a
/// repository is created when none encloses the project, the template files
/// are committed, and the agent rules are added unless they are skipped.
pub fn git_setup_plan(skip_git: bool, skip_rules: bool, inside_repo: bool) -> (r: GitSetupPlan)
    ensures
        r.init_repo == (!skip_git && !inside_repo),
        r.initial_commit == !skip_git,
        r.add_submodules == (!skip_git && !skip_rules),
{
    GitSetupPlan {
        init_repo: !skip_git && !inside_repo,
        initial_commit: !skip_git,
        add_submodules: !skip_git && !skip_rules,
    }
}

/// A path made absolute: kept when it starts at the root, else joined onto
/// the working directory `cwd`.
pub fn resolve_path(path: &str, cwd: &str) -> (r: String)
    ensures
        r@ == (if path@.len() > 0 && path@[0] == '/' {
            path@
        } else {
            crate::fs_path::join_spec(cwd@, path@)
        }),
{
    let p = chars_of(path);
    if p.len() > 0 && p[0] == '/' {
        string_from_chars(&p)
    } else {
        crate::fs_path::join_path(cwd, path)
    }
}

/// The subcommands of the command line.
#[derive(Debug, Clone, Copy, PartialEq, Eq, Structural)]
pub enum SubcommandKind {
    Clone,
    Completions,
    Init,
    Serve,
    Build,
    Upload,
    Sourcemap,
    FmtProject,
    Cursor,
    Doc,
    Plugin,
    Studio,
    Syncback,
    Pull,
}

impl SubcommandKind {
    /// The subcommand's name, which also names its log files.
    pub fn command_name(&self) -> (r: &'static str)
        ensures
            r@ == match *self {
                SubcommandKind::Clone => "clone"@,
                SubcommandKind::Completions => "completions"@,
                SubcommandKind::Init => "init"@,
                SubcommandKind::Serve => "serve"@,
                SubcommandKind::Build => "build"@,
                SubcommandKind::Upload => "upload"@,
                SubcommandKind::Sourcemap => "sourcemap"@,
                SubcommandKind::FmtProject => "fmt-project"@,
                SubcommandKind::Cursor => "cursor"@,
                SubcommandKind::Doc => "doc"@,
                SubcommandKind::Plugin => "plugin"@,
                SubcommandKind::Studio => "studio"@,
                SubcommandKind::Syncback => "syncback"@,
                SubcommandKind::Pull => "pull"@,
            },
    {
        match self {
            SubcommandKind::Clone => "clone",
            SubcommandKind::Completions => "completions",
            SubcommandKind::Init => "init",
            SubcommandKind::Serve => "serve",
            SubcommandKind::Build => "build",
            SubcommandKind::Upload => "upload",
            SubcommandKind::Sourcemap => "sourcemap",
            SubcommandKind::FmtProject => "fmt-project",
            SubcommandKind::Cursor => "cursor",
            SubcommandKind::Doc => "doc",
            SubcommandKind::Plugin => "plugin",
            SubcommandKind::Studio => "studio",
            SubcommandKind::Syncback => "syncback",
            SubcommandKind::Pull => "pull",
        }
    }
}

/// The kinds of place and model file a syncback reads.
#[derive(Debug, Clone, Copy, PartialEq, Eq, Structural)]
pub enum FileKind {
    /// An XML model file.
    Rbxmx,
    /// An XML place file.
    Rbxlx,
    /// A binary model file.
    Rbxm,
    /// A binary place file.
    Rbxl,
}

/// The message given for an input file of no known kind.
pub const UNKNOWN_INPUT_KIND_ERR: &'static str = "Could not detect what kind of file was inputted. Expected input file to end in .rbxl, .rbxlx, .rbxm, or .rbxmx.";

/// The kind of file an extension names.
pub open spec fn file_kind_spec(extension: Seq<char>) -> Option<FileKind> {
    if extension == "rbxlx"@ {
        Some(FileKind::Rbxlx)
    } else if extension == "rbxmx"@ {
        Some(FileKind::Rbxmx)
    } else if extension == "rbxl"@ {
        Some(FileKind::Rbxl)
    } else if extension == "rbxm"@ {
        Some(FileKind::Rbxm)
    } else {
        None
    }
}

impl FileKind {
    /// The kind of the file at `path`, by the extension of its name.
    pub fn from_path(path: &str) -> (r: Option<FileKind>)
        ensures
            r == file_kind_spec(crate::fs_path::extension_spec(crate::fs_path::file_name_spec(path@))),
    {
        let name = crate::fs_path::file_name_of(path);
        let ext = crate::fs_path::extension_of(name.as_str());
        if str_eq(ext.as_str(), "rbxlx") {
            Some(FileKind::Rbxlx)
        } else if str_eq(ext.as_str(), "rbxmx") {
            Some(FileKind::Rbxmx)
        } else if str_eq(ext.as_str(), "rbxl") {
            Some(FileKind::Rbxl)
        } else if str_eq(ext.as_str(), "rbxm") {
            Some(FileKind::Rbxm)
        } else {
            None
        }
    }
}

/// Options of `upload`: publish a project to Roblox.
#[derive(Debug)]
pub struct UploadCommand {
    pub project: String,
    pub cookie: Option<String>,
    pub api_key: Option<String>,
    pub universe_id: Option<u64>,
    pub asset_id: u64,
}

/// The values substituted into a project template.
pub struct ProjectParams {
    pub name: String,
    pub place_id: Option<u64>,
}

/// The text substituted for `{place_id}`: the id in decimal, `0` when absent.
pub open spec fn place_id_text(place_id: Option<u64>) -> Seq<char> {
    match place_id {
        Some(id) => decimal(id as nat),
        None => seq!['0'],
    }
}

/// `template` with `{project_name}`, then `{rojo_version}`, then `{place_id}`
/// replaced, each over the result of the step before.
pub open spec fn render_spec(template: Seq<char>, name: Seq<char>, version: Seq<char>, place_id: Option<u64>) -> Seq<char> {
    replace_spec(
        replace_spec(replace_spec(template, "{project_name}"@, name), "{rojo_version}"@, version),
        "{place_id}"@,
        place_id_text(place_id),
    )
}

impl ProjectParams {
    /// Fills in a template file: the project name, the tool's version and
    /// the place id.
    pub fn render_template(&self, template: &str, rojo_version: &str) -> (res: String)
        ensures
            res@ == render_spec(template@, self.name@, rojo_version@, self.place_id),
    {
        let mut id_text: Vec<char> = Vec::new();
        match self.place_id {
            Some(id) => push_decimal(&mut id_text, id),
            None => id_text.push('0'),
        }
        assert(id_text@ =~= place_id_text(self.place_id));
        let name_pat = chars_of("{project_name}");
        let version_pat = chars_of("{rojo_version}");
        let id_pat = chars_of("{place_id}");
        proof {
            reveal_strlit("{project_name}");
            reveal_strlit("{rojo_version}");
            reveal_strlit("{place_id}");
        }
        let t0 = chars_of(template);
        let t1 = replace_all(&t0, &name_pat, &chars_of(self.name.as_str()));
        let t2 = replace_all(&t1, &version_pat, &chars_of(rojo_version));
        let t3 = replace_all(&t2, &id_pat, &id_text);
        string_from_chars(&t3)
    }
}

} // verus!
