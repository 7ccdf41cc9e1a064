//! The first-run demo: a reserved nanochat project with one finished
//! experiment, run and conversation. Installing it writes files and a Git
//! repository; this module decides whether what the store holds afterwards
//! is the intact demo, and how its local origin is repaired when the data
//! directory moves.

use vstd::prelude::*;

use crate::json::{insert, member, string_value, JsonValue};
use crate::text::{join, join_with, owned, push_str, str_eq, trim, trim_seq, views};
use crate::tool_targets::command_of;
use crate::transcript::{WirePart, WireToolState};

verus! {

/// The reserved demo project.
pub const PROJECT_ID: &'static str = "demo_nanochat_v1";
/// Its one experiment.
pub const EXPERIMENT_ID: &'static str = "demo_nanochat_cpu_v1";
/// Its one run.
pub const RUN_ID: &'static str = "demo_nanochat_run_v1";
/// Its one chat session.
pub const SESSION_ID: &'static str = "chat_demo_nanochat_v1";
/// The two messages of the conversation.
pub const USER_MESSAGE_ID: &'static str = "msg_demo_nanochat_user_v1";
pub const ASSISTANT_MESSAGE_ID: &'static str = "msg_demo_nanochat_assistant_v1";
/// The repository the demo stands for.
pub const OWNER: &'static str = "openresearch-demo";
pub const REPO: &'static str = "nanochat";
/// The experiment's branch.
pub const BRANCH: &'static str = "orx/cpu-apple-silicon-end-to-end-baseline";
/// The commit the experiment and its run ended on.
pub const BASELINE_SHA: &'static str = "1b3a42272a65478d26306696cb7bcb80e26c2e18";

pub const EXPERIMENT_SHA: &'static str = "346231fe75f91cd62b3040195993f33dc0e1853b";

/// The harness settings the user picked for the demo conversation.
pub struct DemoSelection {
    pub harness: String,
    pub model: Option<String>,
    pub permission_mode: Option<String>,
    pub reasoning_level: Option<String>,
}

/// A local project as the store keeps it.
pub struct LocalProject {
    pub id: String,
    pub name: String,
    pub slug: String,
    pub github_owner: String,
    pub github_repo: String,
    pub github_sync_enabled: bool,
    pub baseline_branch: String,
    pub repo_path: String,
    pub run_command: Option<String>,
    pub paper_id: Option<String>,
    pub created_at: i64,
    pub updated_at: i64,
}

/// The installed demo, with the settings its conversation was stored with.
pub struct DemoCompletion {
    pub project: LocalProject,
    pub selection: DemoSelection,
    pub newly_created: bool,
}

/// An experiment of the demo project as stored.
pub struct StoredExperiment {
    pub id: String,
    pub branch_name: String,
}

/// A run of the demo project as stored.
pub struct StoredRun {
    pub id: String,
    pub status: String,
    pub exit_code: Option<i64>,
    pub commit_sha: Option<String>,
}

/// A chat session of the demo project as stored.
pub struct StoredSession {
    pub id: String,
    pub harness: String,
    pub model: Option<String>,
    pub permission_mode: Option<String>,
    pub reasoning_level: Option<String>,
}

/// A message of the demo conversation as stored.
pub struct StoredMessage {
    pub id: String,
    pub role: String,
}

/// What the store holds under the reserved ids once the demo was seeded.
pub struct StoredDemo {
    pub project: Option<LocalProject>,
    pub experiments: Vec<StoredExperiment>,
    pub runs: Vec<StoredRun>,
    pub sessions: Vec<StoredSession>,
    pub messages: Vec<StoredMessage>,
}

/// The error when the demo project did not persist.
pub open spec fn missing_project_message() -> Seq<char> {
    "demo project seed did not persist"@
}

/// The error when the reserved project points elsewhere.
pub open spec fn foreign_project_message() -> Seq<char> {
    "the reserved demo project already exists with unexpected repository metadata; delete it and retry onboarding"@
}

/// The error when the project's records are not the demo's.
pub open spec fn incomplete_project_message() -> Seq<char> {
    "the reserved demo project is incomplete or modified; delete it and retry onboarding"@
}

/// The error when the conversation is not the demo's.
pub open spec fn incomplete_conversation_message() -> Seq<char> {
    "the reserved demo conversation is incomplete or modified; delete it and retry onboarding"@
}

/// The project is the demo's, cloned at `repo`.
pub open spec fn project_matches(p: LocalProject, repo: Seq<char>) -> bool {
    &&& p.repo_path@ == repo
    &&& p.github_owner@ == OWNER@
    &&& p.github_repo@ == REPO@
    &&& p.baseline_branch@ == "main"@
}

/// The project's records are exactly the demo's experiment, run and session.
pub open spec fn records_match(d: StoredDemo) -> bool {
    &&& d.experiments@.len() == 1
    &&& d.experiments@[0].id@ == EXPERIMENT_ID@
    &&& d.experiments@[0].branch_name@ == BRANCH@
    &&& d.runs@.len() == 1
    &&& d.runs@[0].id@ == RUN_ID@
    &&& d.runs@[0].status@ == "done"@
    &&& d.runs@[0].exit_code == Some(0i64)
    &&& d.runs@[0].commit_sha matches Some(sha) && sha@ == EXPERIMENT_SHA@
    &&& d.sessions@.len() == 1
    &&& d.sessions@[0].id@ == SESSION_ID@
}

/// The conversation is exactly the demo's user message and answer.
pub open spec fn conversation_matches(d: StoredDemo) -> bool {
    &&& d.messages@.len() == 2
    &&& d.messages@[0].id@ == USER_MESSAGE_ID@
    &&& d.messages@[0].role@ == "user"@
    &&& d.messages@[1].id@ == ASSISTANT_MESSAGE_ID@
    &&& d.messages@[1].role@ == "assistant"@
}

/// The error onboarding reports for this store state, if any.
pub open spec fn onboarding_error(repo: Seq<char>, d: StoredDemo) -> Option<Seq<char>> {
    match d.project {
        None => Some(missing_project_message()),
        Some(p) => if !project_matches(p, repo) {
            Some(foreign_project_message())
        } else if !records_match(d) {
            Some(incomplete_project_message())
        } else if !conversation_matches(d) {
            Some(incomplete_conversation_message())
        } else {
            None
        },
    }
}

/// Whether two optional strings are equal.
fn opt_eq(a: &Option<String>, b: &str) -> (r: bool)
    ensures
        r == (a matches Some(x) && x@ == b@),
{
    match a {
        Some(x) => str_eq(x.as_str(), b),
        None => false,
    }
}

/// A copy of an optional string.
fn clone_opt(o: &Option<String>) -> (r: Option<String>)
    ensures
        r == *o,
{
    match o {
        Some(s) => Some(s.clone()),
        None => None,
    }
}

fn project_matches_exec(p: &LocalProject, repo: &str) -> (r: bool)
    ensures
        r == project_matches(*p, repo@),
{
    str_eq(p.repo_path.as_str(), repo) && str_eq(p.github_owner.as_str(), OWNER) && str_eq(
        p.github_repo.as_str(),
        REPO,
    ) && str_eq(p.baseline_branch.as_str(), "main")
}

fn records_match_exec(d: &StoredDemo) -> (r: bool)
    ensures
        r == records_match(*d),
{
    d.experiments.len() == 1 && str_eq(d.experiments[0].id.as_str(), EXPERIMENT_ID) && str_eq(
        d.experiments[0].branch_name.as_str(),
        BRANCH,
    ) && d.runs.len() == 1 && str_eq(d.runs[0].id.as_str(), RUN_ID) && str_eq(
        d.runs[0].status.as_str(),
        "done",
    ) && d.runs[0].exit_code == Some(0i64) && opt_eq(&d.runs[0].commit_sha, EXPERIMENT_SHA)
        && d.sessions.len() == 1 && str_eq(d.sessions[0].id.as_str(), SESSION_ID)
}

fn conversation_matches_exec(d: &StoredDemo) -> (r: bool)
    ensures
        r == conversation_matches(*d),
{
    d.messages.len() == 2 && str_eq(d.messages[0].id.as_str(), USER_MESSAGE_ID) && str_eq(
        d.messages[0].role.as_str(),
        "user",
    ) && str_eq(d.messages[1].id.as_str(), ASSISTANT_MESSAGE_ID) && str_eq(
        d.messages[1].role.as_str(),
        "assistant",
    )
}

/// Finishes onboarding from what the store holds after seeding the demo at
/// `repo`: the installed demo with the settings its conversation was stored
/// with, or why the reserved records cannot be used.
pub fn complete_onboarding(repo: &str, stored: StoredDemo, newly_created: bool) -> (r: Result<
    DemoCompletion,
    String,
>)
    ensures
        match r {
            Ok(c) => onboarding_error(repo@, stored) is None && stored.project == Some(c.project)
                && c.newly_created == newly_created && c.selection.harness
                == stored.sessions@[0].harness && c.selection.model == stored.sessions@[0].model
                && c.selection.permission_mode == stored.sessions@[0].permission_mode
                && c.selection.reasoning_level == stored.sessions@[0].reasoning_level,
            Err(m) => onboarding_error(repo@, stored) == Some(m@),
        },
{
    let ghost snapshot = stored;
    let StoredDemo { project, experiments, runs, sessions, messages } = stored;
    let project = match project {
        None => {
            return Err(owned("demo project seed did not persist"));
        },
        Some(p) => p,
    };
    if !project_matches_exec(&project, repo) {
        return Err(
            owned(
                "the reserved demo project already exists with unexpected repository metadata; delete it and retry onboarding",
            ),
        );
    }
    let d = StoredDemo { project: None, experiments, runs, sessions, messages };
    if !records_match_exec(&d) {
        return Err(
            owned(
                "the reserved demo project is incomplete or modified; delete it and retry onboarding",
            ),
        );
    }
    if !conversation_matches_exec(&d) {
        return Err(
            owned(
                "the reserved demo conversation is incomplete or modified; delete it and retry onboarding",
            ),
        );
    }
    let s = &d.sessions[0];
    let selection = DemoSelection {
        harness: s.harness.clone(),
        model: clone_opt(&s.model),
        permission_mode: clone_opt(&s.permission_mode),
        reasoning_level: clone_opt(&s.reasoning_level),
    };
    Ok(DemoCompletion { project, selection, newly_created })
}

/// The commit a demo conversation's worktree starts from: the experiment's
/// commit for the demo session, nothing for any other.
pub fn session_start_ref(owner: &str, repo: &str, session_id: &str) -> (r: Option<&'static str>)
    ensures
        r is Some <==> (owner@ == OWNER@ && repo@ == REPO@ && session_id@ == SESSION_ID@),
        r matches Some(sha) ==> sha@ == EXPERIMENT_SHA@,
{
    if str_eq(owner, OWNER) && str_eq(repo, REPO) && str_eq(session_id, SESSION_ID) {
        Some(EXPERIMENT_SHA)
    } else {
        None
    }
}

// ---------------------------------------------------------------------------
// Repairing the local origin
// ---------------------------------------------------------------------------

/// What repairing the demo's origin does to the clone.
pub enum OriginRepair {
    /// Nothing: the demo is not installed or its clone is gone.
    Unchanged,
    /// Points the existing `origin` remote at the moved bare repository.
    SetUrl(String),
    /// Adds an `origin` remote for the moved bare repository.
    AddOrigin(String),
}

/// The error when the installed demo is not at its reserved clone path.
pub open spec fn misplaced_clone_message() -> Seq<char> {
    "the installed nanochat demo repository is not at its reserved cache path"@
}

/// The error when the moved origin is not a bare repository.
pub open spec fn not_bare_message(bare: Seq<char>) -> Seq<char> {
    "the moved nanochat demo origin at "@ + bare + " is not a bare Git repository"@
}

/// What repairing the origin comes to, in terms of views.
pub enum RepairPlan {
    Unchanged,
    SetUrl(Seq<char>),
    AddOrigin(Seq<char>),
    Fail(Seq<char>),
}

/// The repair for the observed state of the installed demo.
pub open spec fn repair_plan(
    installed_repo_path: Option<Seq<char>>,
    reserved_repo: Seq<char>,
    has_git_dir: bool,
    bare_path: Seq<char>,
    bare_check: Option<Seq<char>>,
    has_origin: bool,
) -> RepairPlan {
    match installed_repo_path {
        None => RepairPlan::Unchanged,
        Some(p) => if p != reserved_repo {
            RepairPlan::Fail(misplaced_clone_message())
        } else if !has_git_dir {
            RepairPlan::Unchanged
        } else if bare_check != Some("true"@) {
            RepairPlan::Fail(not_bare_message(bare_path))
        } else if has_origin {
            RepairPlan::SetUrl(bare_path)
        } else {
            RepairPlan::AddOrigin(bare_path)
        },
    }
}

/// The view of an optional string slice.
pub open spec fn opt_view(o: Option<&str>) -> Option<Seq<char>> {
    match o {
        Some(s) => Some(s@),
        None => None,
    }
}

/// Repoints the demo's origin after the data directory moved.
/// `installed_repo_path` is where the store says the demo is cloned (`None`
/// when it is not installed); `has_git_dir` whether that clone exists;
/// `bare_check` what `git rev-parse --is-bare-repository` printed in the
/// moved origin (`None` when it failed); `has_origin` whether the clone
/// has an `origin` remote.
pub fn repair_installed_origin(
    installed_repo_path: Option<&str>,
    reserved_repo: &str,
    has_git_dir: bool,
    bare_path: &str,
    bare_check: Option<&str>,
    has_origin: bool,
) -> (r: Result<OriginRepair, String>)
    ensures
        ({
            let plan = repair_plan(
                opt_view(installed_repo_path),
                reserved_repo@,
                has_git_dir,
                bare_path@,
                opt_view(bare_check),
                has_origin,
            );
            match r {
                Ok(OriginRepair::Unchanged) => plan is Unchanged,
                Ok(OriginRepair::SetUrl(o)) => plan == RepairPlan::SetUrl(o@),
                Ok(OriginRepair::AddOrigin(o)) => plan == RepairPlan::AddOrigin(o@),
                Err(m) => plan == RepairPlan::Fail(m@),
            }
        }),
{
    let p = match installed_repo_path {
        None => {
            return Ok(OriginRepair::Unchanged);
        },
        Some(p) => p,
    };
    if !str_eq(p, reserved_repo) {
        return Err(owned("the installed nanochat demo repository is not at its reserved cache path"));
    }
    if !has_git_dir {
        return Ok(OriginRepair::Unchanged);
    }
    let is_bare = match bare_check {
        Some(out) => str_eq(out, "true"),
        None => false,
    };
    if !is_bare {
        let mut m = owned("the moved nanochat demo origin at ");
        push_str(&mut m, bare_path);
        push_str(&mut m, " is not a bare Git repository");
        return Err(m);
    }
    if has_origin {
        Ok(OriginRepair::SetUrl(owned(bare_path)))
    } else {
        Ok(OriginRepair::AddOrigin(owned(bare_path)))
    }
}

// ---------------------------------------------------------------------------
// The seeded conversation
// ---------------------------------------------------------------------------

/// How a harness names its tools in a transcript: title-case `Read`,
/// `Edit`, `Bash`; opencode's `read`, `bash`, `todowrite`; or the patch
/// style's `bash` and `edit`.
#[derive(PartialEq, Eq, Structural, Clone, Copy, Debug)]
pub enum ToolDialect {
    TitleCase,
    Opencode,
    Patch,
}

/// The tool dialect of a harness's demo transcript: title-case tool names
/// for the harness `title_case_harness` (the one whose tools are named
/// `Read`, `Edit`, `Bash`), opencode's own names for `opencode`, and the
/// patch style for every other harness.
pub open spec fn dialect_of(harness: Seq<char>, title_case_harness: Seq<char>) -> ToolDialect {
    if harness == title_case_harness {
        ToolDialect::TitleCase
    } else if harness == "opencode"@ {
        ToolDialect::Opencode
    } else {
        ToolDialect::Patch
    }
}

/// The tool dialect of a harness's demo transcript (see [`dialect_of`]).
pub fn dialect_for(harness: &str, title_case_harness: &str) -> (r: ToolDialect)
    ensures
        r == dialect_of(harness@, title_case_harness@),
{
    if str_eq(harness, title_case_harness) {
        ToolDialect::TitleCase
    } else if str_eq(harness, "opencode") {
        ToolDialect::Opencode
    } else {
        ToolDialect::Patch
    }
}

/// The demo conversation's assistant answer as the harness would have
/// streamed it, in the harness's own tool dialect (see [`dialect_of`]).
pub fn assistant_parts(harness: &str, title_case_harness: &str) -> (r: Vec<WirePart>)
    ensures
        all_entries(r@, demo_layout(dialect_of(harness@, title_case_harness@))),
{
    dialect_parts(dialect_for(harness, title_case_harness))
}

pub const INTRO_TEXT: &'static str = "I’ll inspect the local CPU path, make the known portability and SFT safeguards part of the experiment before launch, then run the full pipeline once and surface the meaningful checkpoints through the final chat confirmation.";

pub const INSPECTION_SUMMARY_TEXT: &'static str = "The run is suitable for a local MPS baseline, but I’m hardening four failure boundaries before spending compute: keep caches inside the checkout, reject overlength SFT conversations, skip batches with no supervised targets, and disable periodic ChatCORE so unified-memory pressure cannot kill an otherwise healthy SFT run.";

pub const EXPERIMENT_CREATED_TEXT: &'static str = "With those safeguards committed, I created the CPU / Apple-Silicon end-to-end baseline experiment. I’m launching its single local run now.";

pub const BASE_PROGRESS_TEXT: &'static str = "Tokenizer training completed at 4.69 bytes/token. The 6-layer, 73.5M-parameter base model then trained for 5,000 steps over 81.92M tokens. Validation BPB improved from 3.195800 initially to 1.371813 at step 1,000, 1.248040 at step 2,500, and 1.165758 at step 5,000.";

pub const SFT_PROGRESS_TEXT: &'static str = "Base evaluation finished at train/validation BPB 1.152185/1.119301. SFT stayed finite through all 1,500 steps and improved validation BPB from 1.0174 to 0.7389, with intermediate checkpoints at 0.9914, 0.9141, 0.8483, 0.7950, and 0.7486.";

pub const FINAL_TEXT: &'static str = "The single end-to-end run is complete. Base training finished at validation BPB **1.165758**, base evaluation reported **1.152185 / 1.119301** train/validation BPB, SFT converged to **0.7389**, and the saved checkpoint correctly answered **Paris**. I preserved the cleaned log and full results in the project artifact.";

pub const LAUNCH_COMMAND: &'static str = "orx exp run demo_nanochat_cpu_v1 --backend local --force";

pub const EVALUATE_COMMAND: &'static str = "orx logs demo_nanochat_run_v1 --bytes 16000";

pub const CONFIRM_COMMAND: &'static str = "orx logs demo_nanochat_run_v1 --bytes 4000";

pub const REPORT_COMMAND: &'static str = "printf '%s\\n' '# nanochat CPU / Apple-Silicon pipeline results' 'Base validation BPB: 1.165758' 'SFT validation BPB: 0.7389' 'Chat confirmation: Paris' > cpu-apple-silicon-pipeline-results.md";

pub const INSPECT_COMMAND: &'static str = "sed -n '1,220p' runs/runcpu.sh scripts/chat_sft.py scripts/chat_cli.py";

pub const DIFF_COMMAND: &'static str = "git diff --check && git diff --stat";

pub const EVALUATE_OUTPUT: &'static str = "base_eval train_bpb=1.152185 val_bpb=1.119301\nCORE openbook_qa=0.2500 winogrande=0.5625";

pub const CONFIRM_OUTPUT: &'static str = "Paris is a city known for its historical and cultural significance. The capital of France is Paris.";

/// What one part of the seeded conversation holds: its id; its tool, or
/// none for a text part; a text part's text; a tool's output and title; the
/// command its input carries and the file it names, where it has them.
pub struct DemoEntry {
    pub id: Seq<char>,
    pub tool: Option<Seq<char>>,
    pub text: Option<Seq<char>>,
    pub output: Option<Seq<char>>,
    pub title: Option<Seq<char>>,
    pub command: Option<Seq<char>>,
    pub file_path: Option<Seq<char>>,
}

/// A text part of the conversation.
pub open spec fn text_entry(id: Seq<char>, text: Seq<char>) -> DemoEntry {
    DemoEntry { id, tool: None, text: Some(text), output: None, title: None, command: None, file_path: None }
}

/// A completed tool call of the conversation.
pub open spec fn tool_entry(
    id: Seq<char>,
    tool: Seq<char>,
    output: Option<Seq<char>>,
    title: Seq<char>,
    command: Option<Seq<char>>,
    file_path: Option<Seq<char>>,
) -> DemoEntry {
    DemoEntry { id, tool: Some(tool), text: None, output, title: Some(title), command, file_path }
}

/// The tool that reads files in a dialect.
pub open spec fn read_tool(d: ToolDialect) -> Seq<char> {
    match d {
        ToolDialect::TitleCase => "Read"@,
        ToolDialect::Opencode => "read"@,
        ToolDialect::Patch => "bash"@,
    }
}

/// The tool the safeguards are applied with in a dialect.
pub open spec fn edit_tool(d: ToolDialect) -> Seq<char> {
    match d {
        ToolDialect::TitleCase => "Edit"@,
        ToolDialect::Opencode => "bash"@,
        ToolDialect::Patch => "edit"@,
    }
}

/// The shell tool of a dialect.
pub open spec fn shell_tool(d: ToolDialect) -> Seq<char> {
    match d {
        ToolDialect::TitleCase => "Bash"@,
        _ => "bash"@,
    }
}

/// The seeded conversation's parts in a dialect, in order: opencode also
/// keeps a todo list; the patch style writes the results file with `edit`
/// where the others run `printf`.
pub open spec fn demo_layout(d: ToolDialect) -> Seq<DemoEntry> {
    let (read_command, read_file) = match d {
        ToolDialect::TitleCase => (None, Some("runs/runcpu.sh"@)),
        ToolDialect::Opencode => (None, Some("runs/runcpu.sh"@)),
        ToolDialect::Patch => (Some(INSPECT_COMMAND@), None),
    };
    let (edit_command, edit_file) = match d {
        ToolDialect::TitleCase => (None, Some("runs/runcpu.sh"@)),
        ToolDialect::Opencode => (Some(DIFF_COMMAND@), None),
        ToolDialect::Patch => (None, None),
    };
    let (report_tool, report_command) = match d {
        ToolDialect::Patch => ("edit"@, None),
        _ => (shell_tool(d), Some(REPORT_COMMAND@)),
    };
    seq![text_entry("intro"@, INTRO_TEXT@)] + (if d == ToolDialect::Opencode {
        seq![tool_entry("todo"@, "todowrite"@, None, "Track nanochat demo"@, None, None)]
    } else {
        Seq::empty()
    }) + seq![
        tool_entry(
            "inspect"@,
            read_tool(d),
            Some("CPU pipeline, SFT packing, and chat entry point inspected."@),
            "Inspect CPU pipeline"@,
            read_command,
            read_file,
        ),
        text_entry("inspection-summary"@, INSPECTION_SUMMARY_TEXT@),
        tool_entry(
            "portable-fixes"@,
            edit_tool(d),
            Some("Portable CPU/SFT safeguards applied."@),
            "Apply portable safeguards"@,
            edit_command,
            edit_file,
        ),
        text_entry("experiment-created"@, EXPERIMENT_CREATED_TEXT@),
        tool_entry(
            "launch"@,
            shell_tool(d),
            Some("Run started on Apple Silicon (MPS)."@),
            "Launch the new baseline experiment"@,
            Some(LAUNCH_COMMAND@),
            None,
        ),
        text_entry("base-progress"@, BASE_PROGRESS_TEXT@),
        tool_entry(
            "evaluate"@,
            shell_tool(d),
            Some(EVALUATE_OUTPUT@),
            "Read evaluation and SFT progress"@,
            Some(EVALUATE_COMMAND@),
            None,
        ),
        text_entry("sft-progress"@, SFT_PROGRESS_TEXT@),
        tool_entry(
            "confirm"@,
            shell_tool(d),
            Some(CONFIRM_OUTPUT@),
            "Confirm the trained chat model"@,
            Some(CONFIRM_COMMAND@),
            None,
        ),
        tool_entry(
            "report"@,
            report_tool,
            Some("Results artifact saved."@),
            "Save durable results"@,
            report_command,
            None,
        ),
        text_entry("final"@, FINAL_TEXT@),
    ]
}

/// Whether a part is the conversation entry `e`: a plain text part, or a
/// completed tool call with that output and title whose object input
/// carries the entry's command and file.
pub open spec fn is_entry(p: WirePart, e: DemoEntry) -> bool {
    &&& p.id@ == e.id
    &&& p.prompt is None
    &&& p.children@.len() == 0
    &&& match e.tool {
        None => {
            &&& p.kind@ == "text"@
            &&& p.tool is None
            &&& p.state is None
            &&& crate::tool_targets::opt_view(p.text) == e.text
        },
        Some(t) => {
            &&& p.kind@ == "tool"@
            &&& crate::tool_targets::opt_view(p.tool) == Some(t)
            &&& p.text is None
            &&& p.state matches Some(s)
            &&& p.state.unwrap().status@ == "completed"@
            &&& p.state.unwrap().error is None
            &&& crate::tool_targets::opt_view(p.state.unwrap().output) == e.output
            &&& crate::tool_targets::opt_view(p.state.unwrap().title) == e.title
            &&& p.state.unwrap().input matches Some(i)
            &&& p.state.unwrap().input.unwrap() is Object
            &&& (e.command matches Some(c) ==> command_of(p.state.unwrap().input.unwrap()) == c)
            &&& (e.file_path matches Some(f) ==> string_value(
                member(p.state.unwrap().input.unwrap(), "filePath"@),
            ) == Some(f))
        },
    }
}

/// A JSON string.
fn jstr(s: &str) -> (r: JsonValue)
    ensures
        r matches JsonValue::Str(x) && x@ == s@,
{
    JsonValue::Str(owned(s))
}

/// An input whose only entry is `command`.
fn command_input(command: &str) -> (r: JsonValue)
    ensures
        r is Object,
        command_of(r) == command@,
{
    let mut entries: Vec<(String, JsonValue)> = Vec::new();
    insert(&mut entries, "command", jstr(command));
    JsonValue::Object(entries)
}

/// An input with entries of string values, in order.
fn string_entries(pairs: Vec<(&str, &str)>) -> (r: Vec<(String, JsonValue)>)
{
    let mut entries: Vec<(String, JsonValue)> = Vec::new();
    let mut i: usize = 0;
    while i < pairs.len()
        decreases pairs@.len() - i,
    {
        let (k, v) = pairs[i];
        entries.push((owned(k), jstr(v)));
        i = i + 1;
    }
    entries
}

/// An input whose last entry is `filePath`.
fn file_input(pairs: Vec<(&str, &str)>, file: &str) -> (r: JsonValue)
    ensures
        r is Object,
        string_value(member(r, "filePath"@)) == Some(file@),
{
    let mut entries = string_entries(pairs);
    insert(&mut entries, "filePath", jstr(file));
    JsonValue::Object(entries)
}

/// A list of objects with string entries, under `key`.
fn list_input(key: &str, items: Vec<Vec<(&str, &str)>>) -> (r: JsonValue)
    ensures
        r is Object,
{
    let mut values: Vec<JsonValue> = Vec::new();
    let mut i: usize = 0;
    while i < items.len()
        decreases items@.len() - i,
    {
        let entries = string_entries(items[i].clone());
        values.push(JsonValue::Object(entries));
        i = i + 1;
    }
    let mut entries: Vec<(String, JsonValue)> = Vec::new();
    insert(&mut entries, key, JsonValue::Array(values));
    JsonValue::Object(entries)
}

/// A completed tool call of the conversation.
fn demo_tool(id: &str, tool: &str, input: JsonValue, output: Option<&str>, title: &str) -> (r: WirePart)
    ensures
        r.id@ == id@,
        r.kind@ == "tool"@,
        crate::tool_targets::opt_view(r.tool) == Some(tool@),
        r.text is None && r.prompt is None && r.children@.len() == 0,
        r.state matches Some(s) && s.status@ == "completed"@ && s.error is None && s.input == Some(input)
            && crate::tool_targets::opt_view(s.title) == Some(title@) && crate::tool_targets::opt_view(s.output)
            == match output {
            Some(o) => Some(o@),
            None => None,
        },
{
    let output = match output {
        Some(o) => Some(owned(o)),
        None => None,
    };
    WirePart {
        id: owned(id),
        kind: owned("tool"),
        text: None,
        tool: Some(owned(tool)),
        state: Some(
            WireToolState {
                status: owned("completed"),
                input: Some(input),
                output,
                error: None,
                title: Some(owned(title)),
            },
        ),
        prompt: None,
        children: Vec::new(),
    }
}

/// Every part is the entry at the same place.
pub open spec fn all_entries(parts: Seq<WirePart>, es: Seq<DemoEntry>) -> bool {
    parts.len() == es.len() && forall|i: int| 0 <= i < es.len() ==> is_entry(#[trigger] parts[i], es[i])
}

proof fn lemma_push_entry(parts: Seq<WirePart>, es: Seq<DemoEntry>, p: WirePart, e: DemoEntry)
    requires
        all_entries(parts, es),
        is_entry(p, e),
    ensures
        all_entries(parts.push(p), es.push(e)),
{
    assert forall|i: int| 0 <= i < es.len() + 1 implies is_entry(#[trigger] parts.push(p)[i], es.push(e)[i]) by {
        if i < es.len() {
            assert(parts.push(p)[i] == parts[i]);
        }
    }
}

/// The assistant's side of the seeded conversation, with the tool names
/// and inputs of the session's harness.
pub fn dialect_parts(dialect: ToolDialect) -> (r: Vec<WirePart>)
    ensures
        all_entries(r@, demo_layout(dialect)),
{
    let ghost d = dialect;
    let mut parts: Vec<WirePart> = Vec::new();
    let ghost mut es: Seq<DemoEntry> = Seq::empty();
    let p = WirePart::text("intro", INTRO_TEXT);
    proof {
        lemma_push_entry(parts@, es, p, text_entry("intro"@, INTRO_TEXT@));
        es = es.push(text_entry("intro"@, INTRO_TEXT@));
    }
    parts.push(p);
    if dialect == ToolDialect::Opencode {
        let mut todos: Vec<Vec<(&str, &str)>> = Vec::new();
        todos.push(vec![("content", "Inspect and harden the CPU pipeline"), ("status", "completed"), ("priority", "high")]);
        todos.push(vec![("content", "Run base training, evaluation, and SFT"), ("status", "completed"), ("priority", "high")]);
        todos.push(vec![("content", "Confirm chat output and save results"), ("status", "completed"), ("priority", "medium")]);
        let p = demo_tool("todo", "todowrite", list_input("todos", todos), None, "Track nanochat demo");
        let ghost e = tool_entry("todo"@, "todowrite"@, None, "Track nanochat demo"@, None, None);
        proof {
            lemma_push_entry(parts@, es, p, e);
            es = es.push(e);
        }
        parts.push(p);
    }
    let (read_name, read_input, edit_name, edit_input, shell_name) = match dialect {
        ToolDialect::TitleCase => (
            "Read",
            file_input(vec![("file_path", "runs/runcpu.sh")], "runs/runcpu.sh"),
            "Edit",
            file_input(
                vec![
                    ("file_path", "runs/runcpu.sh"),
                    ("old_string", "export NANOCHAT_BASE_DIR=\"$HOME/.cache/nanochat\"\nmkdir -p $NANOCHAT_BASE_DIR"),
                    ("new_string", "export NANOCHAT_BASE_DIR=\"$PWD/.cache/nanochat\"\nexport UV_CACHE_DIR=\"$PWD/.cache/uv\"\nmkdir -p \"$NANOCHAT_BASE_DIR\" \"$UV_CACHE_DIR\""),
                ],
                "runs/runcpu.sh",
            ),
            "Bash",
        ),
        ToolDialect::Opencode => (
            "read",
            file_input(Vec::new(), "runs/runcpu.sh"),
            "bash",
            command_input(DIFF_COMMAND),
            "bash",
        ),
        ToolDialect::Patch => {
            let mut changes: Vec<Vec<(&str, &str)>> = Vec::new();
            changes.push(vec![("path", "runs/runcpu.sh"), ("kind", "update")]);
            changes.push(vec![("path", "scripts/chat_sft.py"), ("kind", "update")]);
            changes.push(vec![("path", "scripts/chat_cli.py"), ("kind", "update")]);
            ("bash", command_input(INSPECT_COMMAND), "edit", list_input("changes", changes), "bash")
        },
    };
    let ghost layout = demo_layout(dialect);
    let p = demo_tool(
        "inspect",
        read_name,
        read_input,
        Some("CPU pipeline, SFT packing, and chat entry point inspected."),
        "Inspect CPU pipeline",
    );
    let ghost k: int = es.len() as int;
    proof {
        lemma_push_entry(parts@, es, p, layout[k]);
        es = es.push(layout[k]);
    }
    parts.push(p);
    let p = WirePart::text("inspection-summary", INSPECTION_SUMMARY_TEXT);
    proof {
        lemma_push_entry(parts@, es, p, layout[k + 1]);
        es = es.push(layout[k + 1]);
    }
    parts.push(p);
    let p = demo_tool(
        "portable-fixes",
        edit_name,
        edit_input,
        Some("Portable CPU/SFT safeguards applied."),
        "Apply portable safeguards",
    );
    proof {
        lemma_push_entry(parts@, es, p, layout[k + 2]);
        es = es.push(layout[k + 2]);
    }
    parts.push(p);
    let p = WirePart::text("experiment-created", EXPERIMENT_CREATED_TEXT);
    proof {
        lemma_push_entry(parts@, es, p, layout[k + 3]);
        es = es.push(layout[k + 3]);
    }
    parts.push(p);
    let p = demo_tool(
        "launch",
        shell_name,
        command_input(LAUNCH_COMMAND),
        Some("Run started on Apple Silicon (MPS)."),
        "Launch the new baseline experiment",
    );
    proof {
        lemma_push_entry(parts@, es, p, layout[k + 4]);
        es = es.push(layout[k + 4]);
    }
    parts.push(p);
    let p = WirePart::text("base-progress", BASE_PROGRESS_TEXT);
    proof {
        lemma_push_entry(parts@, es, p, layout[k + 5]);
        es = es.push(layout[k + 5]);
    }
    parts.push(p);
    let p = demo_tool(
        "evaluate",
        shell_name,
        command_input(EVALUATE_COMMAND),
        Some(EVALUATE_OUTPUT),
        "Read evaluation and SFT progress",
    );
    proof {
        lemma_push_entry(parts@, es, p, layout[k + 6]);
        es = es.push(layout[k + 6]);
    }
    parts.push(p);
    let p = WirePart::text("sft-progress", SFT_PROGRESS_TEXT);
    proof {
        lemma_push_entry(parts@, es, p, layout[k + 7]);
        es = es.push(layout[k + 7]);
    }
    parts.push(p);
    let p = demo_tool(
        "confirm",
        shell_name,
        command_input(CONFIRM_COMMAND),
        Some(CONFIRM_OUTPUT),
        "Confirm the trained chat model",
    );
    proof {
        lemma_push_entry(parts@, es, p, layout[k + 8]);
        es = es.push(layout[k + 8]);
    }
    parts.push(p);
    let (report_tool, report_input) = match dialect {
        ToolDialect::Patch => {
            let mut changes: Vec<Vec<(&str, &str)>> = Vec::new();
            changes.push(vec![("path", "cpu-apple-silicon-pipeline-results.md"), ("kind", "add")]);
            (edit_name, list_input("changes", changes))
        },
        _ => (shell_name, command_input(REPORT_COMMAND)),
    };
    let p = demo_tool("report", report_tool, report_input, Some("Results artifact saved."), "Save durable results");
    proof {
        lemma_push_entry(parts@, es, p, layout[k + 9]);
        es = es.push(layout[k + 9]);
    }
    parts.push(p);
    let p = WirePart::text("final", FINAL_TEXT);
    proof {
        lemma_push_entry(parts@, es, p, layout[k + 10]);
        es = es.push(layout[k + 10]);
        assert(es =~= layout);
    }
    parts.push(p);
    parts
}

// ---------------------------------------------------------------------------
// Git for the demo repository
// ---------------------------------------------------------------------------

/// The Git variables cleared for the demo's Git: nothing the user's shell
/// set may point Git elsewhere.
pub open spec fn cleared_git_vars() -> Seq<Seq<char>> {
    seq![
        "GIT_DIR"@,
        "GIT_WORK_TREE"@,
        "GIT_INDEX_FILE"@,
        "GIT_OBJECT_DIRECTORY"@,
        "GIT_ALTERNATE_OBJECT_DIRECTORIES"@,
        "GIT_COMMON_DIR"@,
        "GIT_CEILING_DIRECTORIES"@,
        "GIT_DISCOVERY_ACROSS_FILESYSTEM"@,
        "GIT_CONFIG_COUNT"@,
        "GIT_CONFIG_PARAMETERS"@,
        "GIT_TEMPLATE_DIR"@,
    ]
}

/// The variables set for the demo's Git: no prompts, no user or system
/// configuration, and a fixed author, committer and date, so that the
/// demo's commits have the same ids everywhere.
pub open spec fn fixed_git_env() -> Seq<(Seq<char>, Seq<char>)> {
    seq![
        ("GIT_TERMINAL_PROMPT"@, "0"@),
        ("GIT_CONFIG_NOSYSTEM"@, "1"@),
        ("GIT_CONFIG_GLOBAL"@, "/dev/null"@),
        ("GIT_ATTR_NOSYSTEM"@, "1"@),
        ("GIT_AUTHOR_NAME"@, "OpenResearch Demo"@),
        ("GIT_AUTHOR_EMAIL"@, "demo@openresearch.sh"@),
        ("GIT_COMMITTER_NAME"@, "OpenResearch Demo"@),
        ("GIT_COMMITTER_EMAIL"@, "demo@openresearch.sh"@),
        ("GIT_AUTHOR_DATE"@, "2026-08-04T12:00:00Z"@),
        ("GIT_COMMITTER_DATE"@, "2026-08-04T12:00:00Z"@),
    ]
}

/// The options every demo Git command starts with: no attributes, excludes
/// or hooks from outside the repository.
pub open spec fn hermetic_git_options() -> Seq<Seq<char>> {
    seq![
        "-c"@,
        "core.attributesFile=/dev/null"@,
        "-c"@,
        "core.excludesFile=/dev/null"@,
        "-c"@,
        "core.hooksPath=/dev/null"@,
    ]
}

/// How a demo Git command is run.
pub struct GitInvocation {
    /// Variables removed from the environment.
    pub cleared: Vec<&'static str>,
    /// Variables set in the environment.
    pub env: Vec<(&'static str, &'static str)>,
    /// The whole argument list.
    pub args: Vec<String>,
}

/// How the demo runs `git <args>`: hermetic and deterministic.
pub fn demo_git_invocation(args: &Vec<String>) -> (r: GitInvocation)
    ensures
        r.cleared@.map_values(|v: &'static str| v@) == cleared_git_vars(),
        r.env@.map_values(|e: (&'static str, &'static str)| (e.0@, e.1@)) == fixed_git_env(),
        views(r.args@) == hermetic_git_options() + views(args@),
{
    let cleared = vec![
        "GIT_DIR",
        "GIT_WORK_TREE",
        "GIT_INDEX_FILE",
        "GIT_OBJECT_DIRECTORY",
        "GIT_ALTERNATE_OBJECT_DIRECTORIES",
        "GIT_COMMON_DIR",
        "GIT_CEILING_DIRECTORIES",
        "GIT_DISCOVERY_ACROSS_FILESYSTEM",
        "GIT_CONFIG_COUNT",
        "GIT_CONFIG_PARAMETERS",
        "GIT_TEMPLATE_DIR",
    ];
    let env = vec![
        ("GIT_TERMINAL_PROMPT", "0"),
        ("GIT_CONFIG_NOSYSTEM", "1"),
        ("GIT_CONFIG_GLOBAL", "/dev/null"),
        ("GIT_ATTR_NOSYSTEM", "1"),
        ("GIT_AUTHOR_NAME", "OpenResearch Demo"),
        ("GIT_AUTHOR_EMAIL", "demo@openresearch.sh"),
        ("GIT_COMMITTER_NAME", "OpenResearch Demo"),
        ("GIT_COMMITTER_EMAIL", "demo@openresearch.sh"),
        ("GIT_AUTHOR_DATE", "2026-08-04T12:00:00Z"),
        ("GIT_COMMITTER_DATE", "2026-08-04T12:00:00Z"),
    ];
    let mut all: Vec<String> = Vec::new();
    all.push(owned("-c"));
    all.push(owned("core.attributesFile=/dev/null"));
    all.push(owned("-c"));
    all.push(owned("core.excludesFile=/dev/null"));
    all.push(owned("-c"));
    all.push(owned("core.hooksPath=/dev/null"));
    assert(views(all@) =~= hermetic_git_options());
    let mut i: usize = 0;
    while i < args.len()
        invariant
            i <= args@.len(),
            views(all@) == hermetic_git_options() + views(args@).take(i as int),
        decreases args@.len() - i,
    {
        let ghost prev = views(all@);
        all.push(args[i].clone());
        assert(views(all@) =~= prev.push(args@[i as int]@));
        assert(views(args@).take(i + 1) =~= views(args@).take(i as int).push(args@[i as int]@));
        i = i + 1;
    }
    assert(views(args@).take(args@.len() as int) =~= views(args@));
    assert(cleared@.map_values(|v: &'static str| v@) =~= cleared_git_vars());
    assert(env@.map_values(|e: (&'static str, &'static str)| (e.0@, e.1@)) =~= fixed_git_env());
    GitInvocation { cleared, env, args: all }
}

/// What a finished demo Git command gives: its output trimmed, or an error
/// naming the command and quoting its trimmed standard error.
pub fn git_result(success: bool, args: &Vec<String>, stdout: &str, stderr: &str) -> (r: Result<String, String>)
    ensures
        match r {
            Ok(out) => success && out@ == trim_seq(stdout@),
            Err(e) => !success && e@ == "git "@ + join_with(views(args@), " "@) + " failed: "@ + trim_seq(
                stderr@,
            ),
        },
{
    if !success {
        let mut e = owned("git ");
        let joined = join(args, " ");
        push_str(&mut e, joined.as_str());
        push_str(&mut e, " failed: ");
        let t = trim(stderr);
        push_str(&mut e, t.as_str());
        return Err(e);
    }
    Ok(trim(stdout))
}

// ---------------------------------------------------------------------------
// Whether the reserved paths hold the demo
// ---------------------------------------------------------------------------

/// An optional text equals `s`.
pub open spec fn opt_is(o: Option<&str>, s: Seq<char>) -> bool {
    o matches Some(x) && x@ == s
}

/// What the user is told when the reserved checkout is something else.
pub open spec fn foreign_worktree_message(path: Seq<char>) -> Seq<char> {
    "the reserved demo path at "@ + path
        + " already exists but is not the OpenResearch nanochat demo; move it aside and retry onboarding"@
}

/// What the user is told when the reserved origin lacks the demo's refs.
pub open spec fn foreign_origin_message(path: Seq<char>) -> Seq<char> {
    "the reserved demo origin at "@ + path
        + " does not contain the expected OpenResearch refs; move it aside and retry onboarding"@
}

fn text_is(o: Option<&str>, s: &str) -> (r: bool)
    ensures
        r == opt_is(o, s@),
{
    match o {
        Some(x) => str_eq(x, s),
        None => false,
    }
}

/// Whether the checkout at `path` is the intact demo: a Git work tree whose
/// `main` and experiment branch sit at the demo's commits (the answers of
/// `git rev-parse`, none when Git failed), with nothing uncommitted, and
/// the baseline an ancestor of the experiment. Anything else is refused
/// and left alone.
pub fn check_demo_worktree(
    path: &str,
    has_git_dir: bool,
    baseline: Option<&str>,
    experiment: Option<&str>,
    status: Option<&str>,
    baseline_is_ancestor: bool,
) -> (r: Result<(), String>)
    ensures
        match r {
            Ok(()) => has_git_dir && opt_is(baseline, BASELINE_SHA@) && opt_is(experiment, EXPERIMENT_SHA@)
                && opt_is(status, ""@) && baseline_is_ancestor,
            Err(e) => !(has_git_dir && opt_is(baseline, BASELINE_SHA@) && opt_is(experiment, EXPERIMENT_SHA@)
                && opt_is(status, ""@) && baseline_is_ancestor) && e@ == foreign_worktree_message(path@),
        },
{
    if has_git_dir && text_is(baseline, BASELINE_SHA) && text_is(experiment, EXPERIMENT_SHA) && text_is(
        status,
        "",
    ) && baseline_is_ancestor {
        return Ok(());
    }
    let mut e = owned("the reserved demo path at ");
    push_str(&mut e, path);
    push_str(
        &mut e,
        " already exists but is not the OpenResearch nanochat demo; move it aside and retry onboarding",
    );
    Err(e)
}

/// Whether the bare repository at `path` is the demo's origin: it has a
/// `HEAD` file, its `main` and experiment branch sit at the demo's commits,
/// Git calls it bare, and its `HEAD` is `refs/heads/main`.
pub fn check_demo_origin(
    path: &str,
    has_head_file: bool,
    baseline: Option<&str>,
    experiment: Option<&str>,
    is_bare: Option<&str>,
    head: Option<&str>,
) -> (r: Result<(), String>)
    ensures
        match r {
            Ok(()) => has_head_file && opt_is(baseline, BASELINE_SHA@) && opt_is(experiment, EXPERIMENT_SHA@)
                && opt_is(is_bare, "true"@) && opt_is(head, "refs/heads/main"@),
            Err(e) => !(has_head_file && opt_is(baseline, BASELINE_SHA@) && opt_is(experiment, EXPERIMENT_SHA@)
                && opt_is(is_bare, "true"@) && opt_is(head, "refs/heads/main"@)) && e@ == foreign_origin_message(
                path@,
            ),
        },
{
    if has_head_file && text_is(baseline, BASELINE_SHA) && text_is(experiment, EXPERIMENT_SHA) && text_is(
        is_bare,
        "true",
    ) && text_is(head, "refs/heads/main") {
        return Ok(());
    }
    let mut e = owned("the reserved demo origin at ");
    push_str(&mut e, path);
    push_str(&mut e, " does not contain the expected OpenResearch refs; move it aside and retry onboarding");
    Err(e)
}

} // verus!
