//! Native modular agent skills for `orx`.
//!
//! The `orx skill` overview is factored into focused modules, each a complete
//! `SKILL.md` (frontmatter included) installed and printed verbatim. Local
//! `orx up` sessions get the [`SkillSet::Local`] modules written into the
//! session worktree on every turn; `orx skill <name>` resolves a bundled
//! module with or without its `orx-` prefix. Every module has one canonical
//! body; the Local set omits project onboarding, which the Full set adds.

use vstd::prelude::*;

use crate::text::{char_is_whitespace, owned, push_str, str_eq, trim, trim_seq};

verus! {

/// One embedded skill module: its public name (the skill directory name and
/// the `name:` frontmatter field), a one-line description (mirrored in the
/// frontmatter), and the complete `SKILL.md`.
#[derive(Clone, Copy, Debug)]
pub struct AgentSkill {
    pub name: &'static str,
    pub description: &'static str,
    pub content: &'static str,
}

/// Which module set to serve. Both sets share the canonical module bodies.
#[derive(Clone, Copy, Debug, PartialEq, Eq, Structural)]
pub enum SkillSet {
    /// Skills installed into an active `orx up` project session.
    Local,
    /// The complete set, including local project onboarding guidance.
    Full,
}

/// The bundled overview printed by `orx skill` with no argument.
pub const SKILL_OVERVIEW: &'static str = "---\nname: orx\ndescription: \"Drive OpenResearch from the command line: projects, the experiment tree, runs on any compute backend, evidence in logs, literature, and durable reports.\"\n---\n\n# orx\n\n`orx` is the command-line surface of OpenResearch. Everything an agent does goes through it: create and inspect experiments, launch runs, read their logs, search the literature, and write results into the project's artifacts.\n\nLoad a focused module with `orx skill <name>` before working in its area:\n\n- `orx-experiment-tree`: shape the tree and run the auto-research loop.\n- `orx-git`: read, edit, commit, and diff experiment code.\n- `orx-compute`: launch runs on a backend and wait for them.\n- `orx-compute-k8s`: run on your own Kubernetes cluster.\n- `orx-evidence`: analyze results through `orx logs`.\n- `orx-reports`: write durable research outputs.\n- `orx-lit`: search and read research papers.\n- `orx-create`: start a local project and add experiments.\n\nEvery command prints its own help with `--help`. Prefer the CLI's output as the source of truth: ids, statuses, and metrics come from `orx`, never from memory.\n";

pub const COMPUTE: &'static str = "---\nname: orx-compute\ndescription: \"Launch experiment runs with `orx exp run`: backends (hf, modal, k8s, ssh, slurm, ray, openresearch, local), flavors, timeouts, images, sizing, and choosing `orx exp wait` vs `orx exp wake`. Use before launching or re-launching any run, when choosing or switching a backend or GPU flavor, when a job OOMs, stalls, or times out, or when deciding GPU vs CPU.\"\n---\n\n# Compute\n\nA run executes the experiment's run command against an immutable source snapshot of the experiment's committed code. Commit first; uncommitted edits are not part of the run.\n\n## Backends\n\n- `local`: this machine.\n- `hf`: Hugging Face Jobs, billed to the user's Hugging Face account.\n- `modal`, `k8s`, `ssh`, `slurm`, `ray`: the user's own infrastructure (see `orx-compute-k8s` for Kubernetes).\n- `openresearch`: an ephemeral OpenResearch box per run, sized with `--flavor <gpu>[:count]` or `--flavor cpu…[:vcpus]`.\n\n## Sizing and limits\n\nPick the smallest flavor that fits the job, and set a timeout that bounds the cost of a hung run. A job that runs out of memory needs a larger flavor or a smaller batch, not a retry.\n\n## Waiting\n\nUse `orx exp wait <run>` to block until a short run is terminal, or `orx exp wake <run>` to be resumed in this chat when a long run finishes.\n";

pub const COMPUTE_K8S: &'static str = "---\nname: orx-compute-k8s\ndescription: \"Run an experiment on your own Kubernetes cluster (`orx exp run --backend k8s`): the single-pod committed-manifest contract orx enforces at submit. Use when the user names k8s, kubernetes, or a cluster, before writing or editing `.orx/k8s.yaml`, or when a k8s submit is rejected.\"\n---\n\n# Kubernetes\n\nThe k8s backend submits the committed manifest `.orx/k8s.yaml` from the experiment's snapshot. The manifest describes exactly one Job with a single pod; orx rejects anything else at submit.\n\nEdit the manifest like any other experiment code: change it, commit it, then launch with `orx exp run <experiment> --backend k8s`. Cancelling a run deletes the resources the manifest created.\n";

pub const EXPERIMENT_TREE: &'static str = "---\nname: orx-experiment-tree\ndescription: \"The experiment-tree model and the auto-research loop: shape the tree (stacked bushes), branch/launch/wait/promote, and `orx exp desc` notes. Use before creating, planning, or reorganizing experiments, when deciding what to try next, when a round of runs finishes, or whenever you're unsure how work maps onto the tree.\"\n---\n\n# The experiment tree\n\nEvery experiment is a node with its own branch. A baseline is a root; a child branches from its parent's code. Work proceeds in rounds: branch a few children from the current best node, launch them, wait, compare, and promote the winner as the parent of the next round.\n\nRecord what each node tried and what it found with `orx exp desc`, so the tree itself is the research log.\n";

pub const GIT: &'static str = "---\nname: orx-git\ndescription: \"Read, edit, commit, and diff experiment code with local Git. Use whenever you touch an experiment branch, compare nodes, prepare a run, or diagnose stale code.\"\n---\n\n# Git\n\nEach experiment is a local branch in the project repository. Read and edit it in the session worktree, commit with a message that says what changed, and compare nodes with `git diff <parent>..<child>`.\n\nGit is the record of the code, and it is never part of compute transport: runs take an immutable snapshot of the committed branch, so do not push merely to launch compute. Stale results usually mean uncommitted changes.\n";

pub const LIT: &'static str = "---\nname: orx-lit\ndescription: \"Search and read research papers. The main agent calls alphaXiv, OpenAlex, and bioRxiv discovery primitives, ranks the combined candidates, and chooses sources for focused follow-ups. Use for literature reviews, related work, prior art, papers, authors, methods, benchmarks, or research claims; never delegate the retrieval loop to a sub-agent.\"\n---\n\n# Literature\n\n`orx lit \"<question>\"` searches the first enabled source. On alphaXiv it runs keyword and semantic retrieval together; add `--keyword` terms for names and acronyms. Rank the combined candidates against the question yourself, then read the best with `orx paper <id>`.\n\nRun follow-up searches from what you learned, and stop when new searches return papers you have already seen.\n";

pub const CREATE: &'static str = "---\nname: orx-create\ndescription: \"Initialize a local project with `orx up` and add local experiment nodes with `orx create-experiment`. Use when starting a project or experiment, when the local tree is empty, or when choosing a baseline, parent, or run command.\"\n---\n\n# Creating projects and experiments\n\n`orx up` starts the local workspace. Add an experiment with `orx create-experiment <project> --title \"<title>\"`: with `--parent <id>` it branches from that experiment, with `--baseline` it starts a new root, and with neither it branches from the oldest root (or becomes the first baseline). Give each experiment the run command that reproduces it.\n";

pub const REPORTS: &'static str = "---\nname: orx-reports\ndescription: \"Write durable research outputs into the local project's artifacts directory. Use when a line of work concludes, when the user asks for a write-up, summary, comparison, figures, or exported data, or before ending a long task — findings not written down are lost.\"\n---\n\n# Reports\n\nWrite results into the project's `artifacts/` directory: a Markdown report for findings, plus the figures and data it relies on.\n\nWhen you reply, cite every relevant output as raw `<file path=\"artifacts/<relative-path>\" />` tags so it renders as a link — never as a bare or backticked path.\n\nA report states the question, the runs it draws on, the numbers, and what to try next.\n";

pub const EVIDENCE: &'static str = "---\nname: orx-evidence\ndescription: \"Analyze run results through `orx logs`. Use after any run reaches a terminal state, before declaring a run a success or failure, when metrics are missing from output, or when designing what a run command should print.\"\n---\n\n# Evidence\n\nA run's log is its evidence. Read it with `orx logs <run>` before calling a run a success or a failure, and quote the numbers it printed.\n\nDesign run commands to print the metrics that decide the question, one per line with a clear name, so the log answers it without guesswork.\n";

/// The description of `COMPUTE`.
pub const COMPUTE_DESCRIPTION: &'static str = "Launch experiment runs with `orx exp run`: backends (hf, modal, k8s, ssh, slurm, ray, openresearch, local), flavors, timeouts, images, sizing, and choosing `orx exp wait` vs `orx exp wake`. Use before launching or re-launching any run, when choosing or switching a backend or GPU flavor, when a job OOMs, stalls, or times out, or when deciding GPU vs CPU.";

/// The description of `COMPUTE_K8S`.
pub const COMPUTE_K8S_DESCRIPTION: &'static str = "Run an experiment on your own Kubernetes cluster (`orx exp run --backend k8s`): the single-pod committed-manifest contract orx enforces at submit. Use when the user names k8s, kubernetes, or a cluster, before writing or editing `.orx/k8s.yaml`, or when a k8s submit is rejected.";

/// The description of `EXPERIMENT_TREE`.
pub const EXPERIMENT_TREE_DESCRIPTION: &'static str = "The experiment-tree model and the auto-research loop: shape the tree (stacked bushes), branch/launch/wait/promote, and `orx exp desc` notes. Use before creating, planning, or reorganizing experiments, when deciding what to try next, when a round of runs finishes, or whenever you're unsure how work maps onto the tree.";

/// The description of `GIT`.
pub const GIT_DESCRIPTION: &'static str = "Read, edit, commit, and diff experiment code with local Git. Use whenever you touch an experiment branch, compare nodes, prepare a run, or diagnose stale code.";

/// The description of `LIT`.
pub const LIT_DESCRIPTION: &'static str = "Search and read research papers. The main agent calls alphaXiv, OpenAlex, and bioRxiv discovery primitives, ranks the combined candidates, and chooses sources for focused follow-ups. Use for literature reviews, related work, prior art, papers, authors, methods, benchmarks, or research claims; never delegate the retrieval loop to a sub-agent.";

/// The description of `CREATE`.
pub const CREATE_DESCRIPTION: &'static str = "Initialize a local project with `orx up` and add local experiment nodes with `orx create-experiment`. Use when starting a project or experiment, when the local tree is empty, or when choosing a baseline, parent, or run command.";

/// The description of `REPORTS`.
pub const REPORTS_DESCRIPTION: &'static str = "Write durable research outputs into the local project's artifacts directory. Use when a line of work concludes, when the user asks for a write-up, summary, comparison, figures, or exported data, or before ending a long task — findings not written down are lost.";

/// The description of `EVIDENCE`.
pub const EVIDENCE_DESCRIPTION: &'static str = "Analyze run results through `orx logs`. Use after any run reaches a terminal state, before declaring a run a success or failure, when metrics are missing from output, or when designing what a run command should print.";

/// The modules of a set as (name, description, body) triples, in order. The Local set is the
/// Full set without `orx-create`; both list the same canonical bodies.
#[verifier::opaque]
pub open spec fn skill_table(set: SkillSet) -> Seq<(Seq<char>, Seq<char>, Seq<char>)> {
    let shared = seq![
        ("orx-experiment-tree"@, EXPERIMENT_TREE_DESCRIPTION@, EXPERIMENT_TREE@),
        ("orx-git"@, GIT_DESCRIPTION@, GIT@),
        ("orx-compute"@, COMPUTE_DESCRIPTION@, COMPUTE@),
        ("orx-compute-k8s"@, COMPUTE_K8S_DESCRIPTION@, COMPUTE_K8S@),
        ("orx-evidence"@, EVIDENCE_DESCRIPTION@, EVIDENCE@),
        ("orx-reports"@, REPORTS_DESCRIPTION@, REPORTS@),
        ("orx-lit"@, LIT_DESCRIPTION@, LIT@),
    ];
    match set {
        SkillSet::Local => shared,
        SkillSet::Full => seq![("orx-create"@, CREATE_DESCRIPTION@, CREATE@)] + shared,
    }
}

fn compute() -> (r: AgentSkill)
    ensures
        r.name@ == "orx-compute"@,
        r.description@ == COMPUTE_DESCRIPTION@,
        r.content@ == COMPUTE@,
{
    AgentSkill {
        name: "orx-compute",
        description: COMPUTE_DESCRIPTION,
        content: COMPUTE,
    }
}

fn compute_k8s() -> (r: AgentSkill)
    ensures
        r.name@ == "orx-compute-k8s"@,
        r.description@ == COMPUTE_K8S_DESCRIPTION@,
        r.content@ == COMPUTE_K8S@,
{
    AgentSkill {
        name: "orx-compute-k8s",
        description: COMPUTE_K8S_DESCRIPTION,
        content: COMPUTE_K8S,
    }
}

fn experiment_tree() -> (r: AgentSkill)
    ensures
        r.name@ == "orx-experiment-tree"@,
        r.description@ == EXPERIMENT_TREE_DESCRIPTION@,
        r.content@ == EXPERIMENT_TREE@,
{
    AgentSkill {
        name: "orx-experiment-tree",
        description: EXPERIMENT_TREE_DESCRIPTION,
        content: EXPERIMENT_TREE,
    }
}

fn git() -> (r: AgentSkill)
    ensures
        r.name@ == "orx-git"@,
        r.description@ == GIT_DESCRIPTION@,
        r.content@ == GIT@,
{
    AgentSkill {
        name: "orx-git",
        description: GIT_DESCRIPTION,
        content: GIT,
    }
}

fn lit() -> (r: AgentSkill)
    ensures
        r.name@ == "orx-lit"@,
        r.description@ == LIT_DESCRIPTION@,
        r.content@ == LIT@,
{
    AgentSkill {
        name: "orx-lit",
        description: LIT_DESCRIPTION,
        content: LIT,
    }
}

fn create() -> (r: AgentSkill)
    ensures
        r.name@ == "orx-create"@,
        r.description@ == CREATE_DESCRIPTION@,
        r.content@ == CREATE@,
{
    AgentSkill {
        name: "orx-create",
        description: CREATE_DESCRIPTION,
        content: CREATE,
    }
}

fn reports() -> (r: AgentSkill)
    ensures
        r.name@ == "orx-reports"@,
        r.description@ == REPORTS_DESCRIPTION@,
        r.content@ == REPORTS@,
{
    AgentSkill {
        name: "orx-reports",
        description: REPORTS_DESCRIPTION,
        content: REPORTS,
    }
}

fn evidence() -> (r: AgentSkill)
    ensures
        r.name@ == "orx-evidence"@,
        r.description@ == EVIDENCE_DESCRIPTION@,
        r.content@ == EVIDENCE@,
{
    AgentSkill {
        name: "orx-evidence",
        description: EVIDENCE_DESCRIPTION,
        content: EVIDENCE,
    }
}

/// The modules as (name, description, body) triples.
pub open spec fn modules_of(v: Seq<AgentSkill>) -> Seq<(Seq<char>, Seq<char>, Seq<char>)> {
    v.map_values(|s: AgentSkill| (s.name@, s.description@, s.content@))
}

/// The modules for a given set, in a stable order: Full adds `orx-create` in
/// front; every module carries its one canonical body.
pub fn skills(set: SkillSet) -> (r: Vec<AgentSkill>)
    ensures
        modules_of(r@) == skill_table(set),
{
    let mut v: Vec<AgentSkill> = Vec::new();
    if set == SkillSet::Full {
        v.push(create());
    }
    v.push(experiment_tree());
    v.push(git());
    v.push(compute());
    v.push(compute_k8s());
    v.push(evidence());
    v.push(reports());
    v.push(lit());
    reveal(skill_table);
    assert(modules_of(v@) =~= skill_table(set));
    v
}

/// `name` (trimmed) selects the module called `module`: its public name or
/// the name without the `orx-` prefix.
pub open spec fn selects(name: Seq<char>, module: Seq<char>) -> bool {
    let want = trim_seq(name);
    module == want || module == "orx-"@ + want
}

/// The first module of the set that `name` selects, as a (name,
/// description, body) triple.
pub open spec fn find_spec(name: Seq<char>, set: SkillSet) -> Option<(Seq<char>, Seq<char>, Seq<char>)> {
    first_selected(skill_table(set), name)
}

/// The first entry of `t` that `name` selects.
pub open spec fn first_selected(t: Seq<(Seq<char>, Seq<char>, Seq<char>)>, name: Seq<char>) -> Option<
    (Seq<char>, Seq<char>, Seq<char>),
> {
    if exists|i: int| 0 <= i < t.len() && selects(name, #[trigger] t[i].0) {
        let i = choose|i: int|
            0 <= i < t.len() && selects(name, #[trigger] t[i].0) && forall|j: int|
                0 <= j < i ==> !selects(name, #[trigger] t[j].0);
        Some(t[i])
    } else {
        None
    }
}

proof fn lemma_first_selected(t: Seq<(Seq<char>, Seq<char>, Seq<char>)>, name: Seq<char>, i: int)
    requires
        0 <= i < t.len(),
        selects(name, t[i].0),
        forall|j: int| 0 <= j < i ==> !selects(name, #[trigger] t[j].0),
    ensures
        first_selected(t, name) == Some(t[i]),
{
    let k = choose|k: int|
        0 <= k < t.len() && selects(name, #[trigger] t[k].0) && forall|j: int|
            0 <= j < k ==> !selects(name, #[trigger] t[j].0);
    assert(0 <= k < t.len() && selects(name, t[k].0));
    if k < i {
        assert(!selects(name, t[k].0));
    } else if k > i {
        assert(!selects(name, t[i].0));
    }
}

/// Resolve a bundled skill by name within `set`, accepting both the public
/// name (`orx-compute`) and the bare form (`compute`); `None` for an unknown name.
pub fn find(name: &str, set: SkillSet) -> (r: Option<AgentSkill>)
    ensures
        match r {
            Some(s) => find_spec(name@, set) == Some((s.name@, s.description@, s.content@)),
            None => find_spec(name@, set) is None,
        },
{
    let want = trim(name);
    let mut prefixed = owned("orx-");
    push_str(&mut prefixed, want.as_str());
    let all = skills(set);
    let ghost t = skill_table(set);
    let mut i: usize = 0;
    while i < all.len()
        invariant
            i <= all@.len(),
            modules_of(all@) == t,
            t == skill_table(set),
            want@ == trim_seq(name@),
            prefixed@ == "orx-"@ + want@,
            forall|j: int| 0 <= j < i ==> !selects(name@, #[trigger] t[j].0),
        decreases all@.len() - i,
    {
        let s = all[i];
        assert(t[i as int] == (s.name@, s.description@, s.content@));
        if str_eq(s.name, want.as_str()) || str_eq(s.name, prefixed.as_str()) {
            proof {
                lemma_first_selected(t, name@, i as int);
            }
            return Some(s);
        }
        i = i + 1;
    }
    proof {
        if exists|k: int| 0 <= k < t.len() && selects(name@, #[trigger] t[k].0) {
            let k = choose|k: int| 0 <= k < t.len() && selects(name@, #[trigger] t[k].0);
            assert(!selects(name@, t[k].0));
        }
    }
    None
}

/// A module shared by both sets has the same body in each: every Local
/// module is a Full module, name and body alike.
pub proof fn law_shared_modules_use_one_body()
    ensures
        forall|i: int|
            0 <= i < skill_table(SkillSet::Local).len() ==> skill_table(SkillSet::Full).contains(
                #[trigger] skill_table(SkillSet::Local)[i],
            ),
        skill_table(SkillSet::Full).len() == skill_table(SkillSet::Local).len() + 1,
        skill_table(SkillSet::Full)[0].0 == "orx-create"@,
{
    reveal(skill_table);
    assert forall|i: int|
        0 <= i < skill_table(SkillSet::Local).len() implies skill_table(SkillSet::Full).contains(
        #[trigger] skill_table(SkillSet::Local)[i],
    ) by {
        assert(skill_table(SkillSet::Full)[i + 1] == skill_table(SkillSet::Local)[i]);
    }
}

/// The front matter a module's `SKILL.md` opens with: `---`, its name,
/// its description as a JSON string, `---`, then a blank line.
pub open spec fn front_matter(name: Seq<char>, description: Seq<char>) -> Seq<char> {
    "---\nname: "@ + name + "\ndescription: \""@ + description + "\"\n---\n\n"@
}

/// A module is well described: its name has the `orx-…` form, its
/// description is 1 to 400 characters with no control character and
/// nothing that needs escaping in a JSON string, and its `SKILL.md` opens
/// with its front matter followed by a body that is not blank.
pub open spec fn well_described(m: (Seq<char>, Seq<char>, Seq<char>)) -> bool {
    &&& module_name(m.0)
    &&& 1 <= m.1.len() <= 400
    &&& forall|i: int|
        0 <= i < m.1.len() ==> (m.1[i] as u32) >= 0x20 && m.1[i] != '"' && m.1[i] != '\\'
    &&& m.2.len() >= front_matter(m.0, m.1).len()
    &&& m.2.take(front_matter(m.0, m.1).len() as int) == front_matter(m.0, m.1)
    &&& exists|i: int|
        front_matter(m.0, m.1).len() <= i < m.2.len() && !char_is_whitespace(#[trigger] m.2[i])
}

/// A lower-case letter, a digit, or `-`.
pub open spec fn name_piece_char(c: char) -> bool {
    ('a' <= c <= 'z') || ('0' <= c <= '9') || c == '-'
}

/// A module name: `orx` followed by one or more `-` segments of lower-case
/// letters and digits (`^orx(-[a-z0-9]+)+$`).
pub open spec fn module_name(n: Seq<char>) -> bool {
    &&& n.len() > 4
    &&& n.take(4) == "orx-"@
    &&& forall|i: int| 3 <= i < n.len() ==> name_piece_char(#[trigger] n[i])
    &&& n.last() != '-'
    &&& forall|i: int| 3 <= i < n.len() - 1 ==> !(#[trigger] n[i] == '-' && n[i + 1] == '-')
}

proof fn lemma_create_described()
    ensures
        well_described(("orx-create"@, CREATE_DESCRIPTION@, CREATE@)),
{
    reveal_strlit("orx-create");
    reveal_strlit("Initialize a local project with `orx up` and add local experiment nodes with `orx create-experiment`. Use when starting a project or experiment, when the local tree is empty, or when choosing a baseline, parent, or run command.");
    reveal_strlit("---\nname: orx-create\ndescription: \"Initialize a local project with `orx up` and add local experiment nodes with `orx create-experiment`. Use when starting a project or experiment, when the local tree is empty, or when choosing a baseline, parent, or run command.\"\n---\n\n# Creating projects and experiments\n\n`orx up` starts the local workspace. Add an experiment with `orx create-experiment <project> --title \"<title>\"`: with `--parent <id>` it branches from that experiment, with `--baseline` it starts a new root, and with neither it branches from the oldest root (or becomes the first baseline). Give each experiment the run command that reproduces it.\n");
    reveal_strlit("---\nname: ");
    reveal_strlit("\ndescription: \"");
    reveal_strlit("\"\n---\n\n");
    reveal_strlit("orx-");
    let f = front_matter("orx-create"@, CREATE_DESCRIPTION@);
    assert(CREATE@.take(f.len() as int) =~= f);
    assert(CREATE@[f.len() as int] == '#');
    assert(!char_is_whitespace(CREATE@[f.len() as int]));
    assert("orx-create"@.take(4) =~= "orx-"@);
}

proof fn lemma_experiment_tree_described()
    ensures
        well_described(("orx-experiment-tree"@, EXPERIMENT_TREE_DESCRIPTION@, EXPERIMENT_TREE@)),
{
    reveal_strlit("orx-experiment-tree");
    reveal_strlit("The experiment-tree model and the auto-research loop: shape the tree (stacked bushes), branch/launch/wait/promote, and `orx exp desc` notes. Use before creating, planning, or reorganizing experiments, when deciding what to try next, when a round of runs finishes, or whenever you're unsure how work maps onto the tree.");
    reveal_strlit("---\nname: orx-experiment-tree\ndescription: \"The experiment-tree model and the auto-research loop: shape the tree (stacked bushes), branch/launch/wait/promote, and `orx exp desc` notes. Use before creating, planning, or reorganizing experiments, when deciding what to try next, when a round of runs finishes, or whenever you're unsure how work maps onto the tree.\"\n---\n\n# The experiment tree\n\nEvery experiment is a node with its own branch. A baseline is a root; a child branches from its parent's code. Work proceeds in rounds: branch a few children from the current best node, launch them, wait, compare, and promote the winner as the parent of the next round.\n\nRecord what each node tried and what it found with `orx exp desc`, so the tree itself is the research log.\n");
    reveal_strlit("---\nname: ");
    reveal_strlit("\ndescription: \"");
    reveal_strlit("\"\n---\n\n");
    reveal_strlit("orx-");
    let f = front_matter("orx-experiment-tree"@, EXPERIMENT_TREE_DESCRIPTION@);
    assert(EXPERIMENT_TREE@.take(f.len() as int) =~= f);
    assert(EXPERIMENT_TREE@[f.len() as int] == '#');
    assert(!char_is_whitespace(EXPERIMENT_TREE@[f.len() as int]));
    assert("orx-experiment-tree"@.take(4) =~= "orx-"@);
}

proof fn lemma_git_described()
    ensures
        well_described(("orx-git"@, GIT_DESCRIPTION@, GIT@)),
{
    reveal_strlit("orx-git");
    reveal_strlit("Read, edit, commit, and diff experiment code with local Git. Use whenever you touch an experiment branch, compare nodes, prepare a run, or diagnose stale code.");
    reveal_strlit("---\nname: orx-git\ndescription: \"Read, edit, commit, and diff experiment code with local Git. Use whenever you touch an experiment branch, compare nodes, prepare a run, or diagnose stale code.\"\n---\n\n# Git\n\nEach experiment is a local branch in the project repository. Read and edit it in the session worktree, commit with a message that says what changed, and compare nodes with `git diff <parent>..<child>`.\n\nGit is the record of the code, and it is never part of compute transport: runs take an immutable snapshot of the committed branch, so do not push merely to launch compute. Stale results usually mean uncommitted changes.\n");
    reveal_strlit("---\nname: ");
    reveal_strlit("\ndescription: \"");
    reveal_strlit("\"\n---\n\n");
    reveal_strlit("orx-");
    let f = front_matter("orx-git"@, GIT_DESCRIPTION@);
    assert(GIT@.take(f.len() as int) =~= f);
    assert(GIT@[f.len() as int] == '#');
    assert(!char_is_whitespace(GIT@[f.len() as int]));
    assert("orx-git"@.take(4) =~= "orx-"@);
}

proof fn lemma_compute_described()
    ensures
        well_described(("orx-compute"@, COMPUTE_DESCRIPTION@, COMPUTE@)),
{
    reveal_strlit("orx-compute");
    reveal_strlit("Launch experiment runs with `orx exp run`: backends (hf, modal, k8s, ssh, slurm, ray, openresearch, local), flavors, timeouts, images, sizing, and choosing `orx exp wait` vs `orx exp wake`. Use before launching or re-launching any run, when choosing or switching a backend or GPU flavor, when a job OOMs, stalls, or times out, or when deciding GPU vs CPU.");
    reveal_strlit("---\nname: orx-compute\ndescription: \"Launch experiment runs with `orx exp run`: backends (hf, modal, k8s, ssh, slurm, ray, openresearch, local), flavors, timeouts, images, sizing, and choosing `orx exp wait` vs `orx exp wake`. Use before launching or re-launching any run, when choosing or switching a backend or GPU flavor, when a job OOMs, stalls, or times out, or when deciding GPU vs CPU.\"\n---\n\n# Compute\n\nA run executes the experiment's run command against an immutable source snapshot of the experiment's committed code. Commit first; uncommitted edits are not part of the run.\n\n## Backends\n\n- `local`: this machine.\n- `hf`: Hugging Face Jobs, billed to the user's Hugging Face account.\n- `modal`, `k8s`, `ssh`, `slurm`, `ray`: the user's own infrastructure (see `orx-compute-k8s` for Kubernetes).\n- `openresearch`: an ephemeral OpenResearch box per run, sized with `--flavor <gpu>[:count]` or `--flavor cpu…[:vcpus]`.\n\n## Sizing and limits\n\nPick the smallest flavor that fits the job, and set a timeout that bounds the cost of a hung run. A job that runs out of memory needs a larger flavor or a smaller batch, not a retry.\n\n## Waiting\n\nUse `orx exp wait <run>` to block until a short run is terminal, or `orx exp wake <run>` to be resumed in this chat when a long run finishes.\n");
    reveal_strlit("---\nname: ");
    reveal_strlit("\ndescription: \"");
    reveal_strlit("\"\n---\n\n");
    reveal_strlit("orx-");
    let f = front_matter("orx-compute"@, COMPUTE_DESCRIPTION@);
    assert(COMPUTE@.take(f.len() as int) =~= f);
    assert(COMPUTE@[f.len() as int] == '#');
    assert(!char_is_whitespace(COMPUTE@[f.len() as int]));
    assert("orx-compute"@.take(4) =~= "orx-"@);
}

proof fn lemma_compute_k8s_described()
    ensures
        well_described(("orx-compute-k8s"@, COMPUTE_K8S_DESCRIPTION@, COMPUTE_K8S@)),
{
    reveal_strlit("orx-compute-k8s");
    reveal_strlit("Run an experiment on your own Kubernetes cluster (`orx exp run --backend k8s`): the single-pod committed-manifest contract orx enforces at submit. Use when the user names k8s, kubernetes, or a cluster, before writing or editing `.orx/k8s.yaml`, or when a k8s submit is rejected.");
    reveal_strlit("---\nname: orx-compute-k8s\ndescription: \"Run an experiment on your own Kubernetes cluster (`orx exp run --backend k8s`): the single-pod committed-manifest contract orx enforces at submit. Use when the user names k8s, kubernetes, or a cluster, before writing or editing `.orx/k8s.yaml`, or when a k8s submit is rejected.\"\n---\n\n# Kubernetes\n\nThe k8s backend submits the committed manifest `.orx/k8s.yaml` from the experiment's snapshot. The manifest describes exactly one Job with a single pod; orx rejects anything else at submit.\n\nEdit the manifest like any other experiment code: change it, commit it, then launch with `orx exp run <experiment> --backend k8s`. Cancelling a run deletes the resources the manifest created.\n");
    reveal_strlit("---\nname: ");
    reveal_strlit("\ndescription: \"");
    reveal_strlit("\"\n---\n\n");
    reveal_strlit("orx-");
    let f = front_matter("orx-compute-k8s"@, COMPUTE_K8S_DESCRIPTION@);
    assert(COMPUTE_K8S@.take(f.len() as int) =~= f);
    assert(COMPUTE_K8S@[f.len() as int] == '#');
    assert(!char_is_whitespace(COMPUTE_K8S@[f.len() as int]));
    assert("orx-compute-k8s"@.take(4) =~= "orx-"@);
}

proof fn lemma_evidence_described()
    ensures
        well_described(("orx-evidence"@, EVIDENCE_DESCRIPTION@, EVIDENCE@)),
{
    reveal_strlit("orx-evidence");
    reveal_strlit("Analyze run results through `orx logs`. Use after any run reaches a terminal state, before declaring a run a success or failure, when metrics are missing from output, or when designing what a run command should print.");
    reveal_strlit("---\nname: orx-evidence\ndescription: \"Analyze run results through `orx logs`. Use after any run reaches a terminal state, before declaring a run a success or failure, when metrics are missing from output, or when designing what a run command should print.\"\n---\n\n# Evidence\n\nA run's log is its evidence. Read it with `orx logs <run>` before calling a run a success or a failure, and quote the numbers it printed.\n\nDesign run commands to print the metrics that decide the question, one per line with a clear name, so the log answers it without guesswork.\n");
    reveal_strlit("---\nname: ");
    reveal_strlit("\ndescription: \"");
    reveal_strlit("\"\n---\n\n");
    reveal_strlit("orx-");
    let f = front_matter("orx-evidence"@, EVIDENCE_DESCRIPTION@);
    assert(EVIDENCE@.take(f.len() as int) =~= f);
    assert(EVIDENCE@[f.len() as int] == '#');
    assert(!char_is_whitespace(EVIDENCE@[f.len() as int]));
    assert("orx-evidence"@.take(4) =~= "orx-"@);
}

proof fn lemma_reports_described()
    ensures
        well_described(("orx-reports"@, REPORTS_DESCRIPTION@, REPORTS@)),
{
    reveal_strlit("orx-reports");
    reveal_strlit("Write durable research outputs into the local project's artifacts directory. Use when a line of work concludes, when the user asks for a write-up, summary, comparison, figures, or exported data, or before ending a long task — findings not written down are lost.");
    reveal_strlit("---\nname: orx-reports\ndescription: \"Write durable research outputs into the local project's artifacts directory. Use when a line of work concludes, when the user asks for a write-up, summary, comparison, figures, or exported data, or before ending a long task — findings not written down are lost.\"\n---\n\n# Reports\n\nWrite results into the project's `artifacts/` directory: a Markdown report for findings, plus the figures and data it relies on.\n\nWhen you reply, cite every relevant output as raw `<file path=\"artifacts/<relative-path>\" />` tags so it renders as a link — never as a bare or backticked path.\n\nA report states the question, the runs it draws on, the numbers, and what to try next.\n");
    reveal_strlit("---\nname: ");
    reveal_strlit("\ndescription: \"");
    reveal_strlit("\"\n---\n\n");
    reveal_strlit("orx-");
    let f = front_matter("orx-reports"@, REPORTS_DESCRIPTION@);
    assert(REPORTS@.take(f.len() as int) =~= f);
    assert(REPORTS@[f.len() as int] == '#');
    assert(!char_is_whitespace(REPORTS@[f.len() as int]));
    assert("orx-reports"@.take(4) =~= "orx-"@);
}

proof fn lemma_lit_described()
    ensures
        well_described(("orx-lit"@, LIT_DESCRIPTION@, LIT@)),
{
    reveal_strlit("orx-lit");
    reveal_strlit("Search and read research papers. The main agent calls alphaXiv, OpenAlex, and bioRxiv discovery primitives, ranks the combined candidates, and chooses sources for focused follow-ups. Use for literature reviews, related work, prior art, papers, authors, methods, benchmarks, or research claims; never delegate the retrieval loop to a sub-agent.");
    reveal_strlit("---\nname: orx-lit\ndescription: \"Search and read research papers. The main agent calls alphaXiv, OpenAlex, and bioRxiv discovery primitives, ranks the combined candidates, and chooses sources for focused follow-ups. Use for literature reviews, related work, prior art, papers, authors, methods, benchmarks, or research claims; never delegate the retrieval loop to a sub-agent.\"\n---\n\n# Literature\n\n`orx lit \"<question>\"` searches the first enabled source. On alphaXiv it runs keyword and semantic retrieval together; add `--keyword` terms for names and acronyms. Rank the combined candidates against the question yourself, then read the best with `orx paper <id>`.\n\nRun follow-up searches from what you learned, and stop when new searches return papers you have already seen.\n");
    reveal_strlit("---\nname: ");
    reveal_strlit("\ndescription: \"");
    reveal_strlit("\"\n---\n\n");
    reveal_strlit("orx-");
    let f = front_matter("orx-lit"@, LIT_DESCRIPTION@);
    assert(LIT@.take(f.len() as int) =~= f);
    assert(LIT@[f.len() as int] == '#');
    assert(!char_is_whitespace(LIT@[f.len() as int]));
    assert("orx-lit"@.take(4) =~= "orx-"@);
}

/// Every bundled module is well described (see [`well_described`]), and
/// no two modules of a set share a name.
pub proof fn law_modules_are_well_described(set: SkillSet)
    ensures
        forall|i: int| 0 <= i < skill_table(set).len() ==> well_described(#[trigger] skill_table(set)[i]),
        forall|i: int, j: int|
            0 <= i < j < skill_table(set).len() ==> (#[trigger] skill_table(set)[i]).0 != (#[trigger] skill_table(set)[j]).0,
{
    lemma_create_described();
    lemma_experiment_tree_described();
    lemma_git_described();
    lemma_compute_described();
    lemma_compute_k8s_described();
    lemma_evidence_described();
    lemma_reports_described();
    lemma_lit_described();
    reveal_strlit("orx-create");
    reveal_strlit("orx-experiment-tree");
    reveal_strlit("orx-git");
    reveal_strlit("orx-compute");
    reveal_strlit("orx-compute-k8s");
    reveal_strlit("orx-evidence");
    reveal_strlit("orx-reports");
    reveal_strlit("orx-lit");
    assert("orx-create"@.len() == 10);
    assert("orx-experiment-tree"@.len() == 19);
    assert("orx-git"@.len() == 7);
    assert("orx-compute"@.len() == 11);
    assert("orx-compute-k8s"@.len() == 15);
    assert("orx-evidence"@.len() == 12);
    assert("orx-reports"@.len() == 11);
    assert("orx-lit"@.len() == 7);
    assert("orx-git"@[4] != "orx-lit"@[4]);
    assert("orx-compute"@[4] != "orx-reports"@[4]);
    reveal(skill_table);
}

/// Which bundled set this invocation serves: Local inside an `orx up`
/// session, Full for a human at a terminal or a cloud box.
pub fn current_skill_set(in_local_session: bool) -> (r: SkillSet)
    ensures
        r == (if in_local_session {
            SkillSet::Local
        } else {
            SkillSet::Full
        }),
{
    if in_local_session {
        SkillSet::Local
    } else {
        SkillSet::Full
    }
}

/// `<dir>/<name>/SKILL.md`.
pub open spec fn skill_file_path(skills_dir_rel: Seq<char>, name: Seq<char>) -> Seq<char> {
    skills_dir_rel + "/"@ + name + "/SKILL.md"@
}

/// The files a session's skills directory holds: one `SKILL.md` per Local
/// module, at `<skills_dir_rel>/<name>/SKILL.md`, with the module's body.
pub fn session_skill_files(skills_dir_rel: &str) -> (r: Vec<(String, &'static str)>)
    ensures
        r@.len() == skill_table(SkillSet::Local).len(),
        forall|i: int|
            0 <= i < r@.len() ==> (#[trigger] r@[i]).0@ == skill_file_path(
                skills_dir_rel@,
                skill_table(SkillSet::Local)[i].0,
            ) && r@[i].1@ == skill_table(SkillSet::Local)[i].2,
{
    let all = skills(SkillSet::Local);
    let ghost t = skill_table(SkillSet::Local);
    let mut out: Vec<(String, &'static str)> = Vec::new();
    let mut i: usize = 0;
    while i < all.len()
        invariant
            i <= all@.len(),
            modules_of(all@) == t,
            t == skill_table(SkillSet::Local),
            out@.len() == i,
            forall|k: int|
                0 <= k < i ==> (#[trigger] out@[k]).0@ == skill_file_path(skills_dir_rel@, t[k].0)
                    && out@[k].1@ == t[k].2,
        decreases all@.len() - i,
    {
        let s = all[i];
        assert(t[i as int] == (s.name@, s.description@, s.content@));
        let mut path = owned(skills_dir_rel);
        push_str(&mut path, "/");
        push_str(&mut path, s.name);
        push_str(&mut path, "/SKILL.md");
        out.push((path, s.content));
        i = i + 1;
    }
    out
}

} // verus!
