//! The Oh My Pi harness (`omp`): one print-mode process per turn whose JSONL
//! events become transcript parts. This module holds the harness's identity,
//! the command line of a turn, how streamed deltas are grouped into parts,
//! how a finished tool call is recorded, and the model catalog's
//! de-duplication. Spawning the process and reading its output are I/O.

use vstd::prelude::*;

use crate::json::JsonValue;
use crate::text::{decimal, join, join_with, owned, push_char, push_decimal, push_str, str_eq, views};

verus! {

/// The Oh My Pi coding agent.
pub struct OhMyPi;

impl OhMyPi {
    /// The harness id.
    pub fn id(&self) -> (r: &'static str)
        ensures
            r@ == "oh-my-pi"@,
    {
        "oh-my-pi"
    }

    /// The harness's display name.
    pub fn name(&self) -> (r: &'static str)
        ensures
            r@ == "Oh My Pi"@,
    {
        "Oh My Pi"
    }

    /// Oh My Pi can hold a chat.
    pub fn supports_chat(&self) -> (r: bool)
        ensures
            r,
    {
        true
    }

    /// Where a session's skills are written, relative to its worktree.
    pub fn session_skills_dir(&self) -> (r: Option<&'static str>)
        ensures
            r matches Some(d) && d@ == ".opencode/skills"@,
    {
        Some(".opencode/skills")
    }
}

// ---------------------------------------------------------------------------
// The command line of a turn
// ---------------------------------------------------------------------------

/// The arguments of one turn's `omp` invocation, before the message: print
/// mode with JSON events, auto-approval and no title generation; resuming
/// the native session when there is one; the chosen model; the reasoning
/// level unless it is the default one.
pub open spec fn turn_args_spec(
    native_session_id: Option<Seq<char>>,
    model: Option<Seq<char>>,
    reasoning_level: Option<Seq<char>>,
    reasoning_default: Seq<char>,
) -> Seq<Seq<char>> {
    seq!["-p"@, "--mode=json"@, "--auto-approve"@, "--no-title"@] + match native_session_id {
        Some(id) => seq!["--resume"@, id],
        None => Seq::empty(),
    } + match model {
        Some(m) => seq!["--model"@, m],
        None => Seq::empty(),
    } + match reasoning_level {
        Some(l) => if l != reasoning_default {
            seq!["--thinking"@, l]
        } else {
            Seq::empty()
        },
        None => Seq::empty(),
    }
}

/// The view of an optional string slice.
pub open spec fn opt_view(o: Option<&str>) -> Option<Seq<char>> {
    match o {
        Some(s) => Some(s@),
        None => None,
    }
}

/// Appends two arguments.
fn push_pair(v: &mut Vec<String>, a: &str, b: &str)
    ensures
        views(final(v)@) == views(old(v)@).push(a@).push(b@),
{
    v.push(owned(a));
    v.push(owned(b));
    assert(views(v@) =~= views(old(v)@).push(a@).push(b@));
}

/// The arguments of one turn's `omp` invocation, before the message.
pub fn turn_args(
    native_session_id: Option<&str>,
    model: Option<&str>,
    reasoning_level: Option<&str>,
    reasoning_default: &str,
) -> (r: Vec<String>)
    ensures
        views(r@) == turn_args_spec(
            opt_view(native_session_id),
            opt_view(model),
            opt_view(reasoning_level),
            reasoning_default@,
        ),
{
    let mut v: Vec<String> = Vec::new();
    v.push(owned("-p"));
    v.push(owned("--mode=json"));
    v.push(owned("--auto-approve"));
    v.push(owned("--no-title"));
    let ghost base = views(v@);
    assert(base =~= seq!["-p"@, "--mode=json"@, "--auto-approve"@, "--no-title"@]);
    match native_session_id {
        Some(id) => push_pair(&mut v, "--resume", id),
        None => {},
    }
    let ghost with_resume = views(v@);
    match model {
        Some(m) => push_pair(&mut v, "--model", m),
        None => {},
    }
    let ghost with_model = views(v@);
    match reasoning_level {
        Some(l) => {
            if !str_eq(l, reasoning_default) {
                push_pair(&mut v, "--thinking", l);
            }
        },
        None => {},
    }
    proof {
        let spec = turn_args_spec(
            opt_view(native_session_id),
            opt_view(model),
            opt_view(reasoning_level),
            reasoning_default@,
        );
        assert(views(v@) =~= spec);
    }
    v
}

/// The message of a turn: on the first turn of a session the playbook
/// rides in front as tagged system context; resumed sessions already hold it.
pub open spec fn turn_text_spec(
    has_native_session: bool,
    playbook: Seq<char>,
    text: Seq<char>,
) -> Seq<char> {
    if has_native_session {
        text
    } else {
        "<system-context>\n"@ + playbook + "\n</system-context>\n\n"@ + text
    }
}

/// The message of a turn.
pub fn turn_text(has_native_session: bool, playbook: &str, text: &str) -> (r: String)
    ensures
        r@ == turn_text_spec(has_native_session, playbook@, text@),
{
    if has_native_session {
        return owned(text);
    }
    let mut out = owned("<system-context>\n");
    push_str(&mut out, playbook);
    push_str(&mut out, "\n</system-context>\n\n");
    push_str(&mut out, text);
    out
}

// ---------------------------------------------------------------------------
// Grouping streamed deltas into parts
// ---------------------------------------------------------------------------

/// The id of the `n`-th part the stream opened: the kind's prefix, `-`, `n`.
pub open spec fn part_id(prefix: Seq<char>, n: nat) -> Seq<char> {
    prefix + "-"@ + decimal(n)
}

/// Which text and thinking parts are open while a turn streams. Deltas go to
/// the open part of their kind; a `*_start` or first delta opens one, a
/// `*_end` closes it. Every opened part gets a fresh numbered id.
pub struct StreamParts {
    pub counter: u64,
    pub open_text: Option<String>,
    pub open_reasoning: Option<String>,
}

/// A fresh id with the given prefix.
fn next_id(counter: &mut u64, prefix: &str) -> (r: String)
    requires
        *old(counter) < u64::MAX,
    ensures
        *final(counter) == *old(counter) + 1,
        r@ == part_id(prefix@, *final(counter) as nat),
{
    *counter = *counter + 1;
    let mut id = owned(prefix);
    push_char(&mut id, '-');
    push_decimal(&mut id, *counter);
    proof {
        reveal_strlit("-");
        assert(id@ =~= part_id(prefix@, *counter as nat));
    }
    id
}

impl StreamParts {
    /// No part is open and none was numbered yet.
    pub fn new() -> (r: Self)
        ensures
            r.counter == 0,
            r.open_text is None,
            r.open_reasoning is None,
    {
        StreamParts { counter: 0, open_text: None, open_reasoning: None }
    }

    /// The text part deltas go to, opening one if none is open.
    pub fn text_part(&mut self) -> (r: String)
        requires
            old(self).counter < u64::MAX,
        ensures
            final(self).open_reasoning == old(self).open_reasoning,
            match old(self).open_text {
                Some(id) => r@ == id@ && *final(self) == *old(self),
                None => final(self).counter == old(self).counter + 1 && r@ == part_id(
                    "text"@,
                    final(self).counter as nat,
                ) && (final(self).open_text matches Some(id) && id@ == r@),
            },
    {
        match &self.open_text {
            Some(id) => id.clone(),
            None => {
                let id = next_id(&mut self.counter, "text");
                self.open_text = Some(id.clone());
                id
            },
        }
    }

    /// The thinking part deltas go to, opening one if none is open.
    pub fn reasoning_part(&mut self) -> (r: String)
        requires
            old(self).counter < u64::MAX,
        ensures
            final(self).open_text == old(self).open_text,
            match old(self).open_reasoning {
                Some(id) => r@ == id@ && *final(self) == *old(self),
                None => final(self).counter == old(self).counter + 1 && r@ == part_id(
                    "think"@,
                    final(self).counter as nat,
                ) && (final(self).open_reasoning matches Some(id) && id@ == r@),
            },
    {
        match &self.open_reasoning {
            Some(id) => id.clone(),
            None => {
                let id = next_id(&mut self.counter, "think");
                self.open_reasoning = Some(id.clone());
                id
            },
        }
    }

    /// Closes the open text part; the next text delta opens a new one.
    pub fn end_text(&mut self)
        ensures
            final(self).open_text is None,
            final(self).open_reasoning == old(self).open_reasoning,
            final(self).counter == old(self).counter,
    {
        self.open_text = None;
    }

    /// Closes the open thinking part.
    pub fn end_reasoning(&mut self)
        ensures
            final(self).open_reasoning is None,
            final(self).open_text == old(self).open_text,
            final(self).counter == old(self).counter,
    {
        self.open_reasoning = None;
    }

    /// The id of a tool part: the native call id, or a fresh numbered one.
    pub fn tool_part_id(&mut self, native_id: Option<&str>) -> (r: String)
        requires
            old(self).counter < u64::MAX,
        ensures
            final(self).open_text == old(self).open_text,
            final(self).open_reasoning == old(self).open_reasoning,
            match native_id {
                Some(id) => r@ == id@ && final(self).counter == old(self).counter,
                None => final(self).counter == old(self).counter + 1 && r@ == part_id(
                    "tool"@,
                    final(self).counter as nat,
                ),
            },
    {
        match native_id {
            Some(id) => owned(id),
            None => next_id(&mut self.counter, "tool"),
        }
    }
}

// ---------------------------------------------------------------------------
// Finished tool calls
// ---------------------------------------------------------------------------

/// How a finished tool call is recorded on its part.
pub struct ToolOutcome {
    pub status: String,
    pub output: String,
    pub error: Option<String>,
}

/// The output of a finished tool call: its content texts joined by `\n`, or
/// `(completed)` when there are none.
pub open spec fn tool_output_spec(texts: Seq<Seq<char>>) -> Seq<char> {
    let joined = join_with(texts, "\n"@);
    if joined.len() == 0 {
        "(completed)"@
    } else {
        joined
    }
}

/// Records a finished tool call: `error` or `completed`, the joined content
/// texts as output, and a fixed error note when the tool reported an error.
pub fn tool_outcome(is_error: bool, texts: &Vec<String>) -> (r: ToolOutcome)
    ensures
        r.status@ == (if is_error {
            "error"@
        } else {
            "completed"@
        }),
        r.output@ == tool_output_spec(views(texts@)),
        is_error ==> (r.error matches Some(e) && e@ == "tool reported an error"@),
        !is_error ==> r.error is None,
{
    let joined = join(texts, "\n");
    let output = if joined.as_str().is_empty() {
        owned("(completed)")
    } else {
        joined
    };
    ToolOutcome {
        status: if is_error {
            owned("error")
        } else {
            owned("completed")
        },
        output,
        error: if is_error {
            Some(owned("tool reported an error"))
        } else {
            None
        },
    }
}

// ---------------------------------------------------------------------------
// The model catalog
// ---------------------------------------------------------------------------

/// Whether `selectors[i]` is present and no earlier entry has the same one.
pub open spec fn first_with_selector(selectors: Seq<Option<String>>, i: int) -> bool {
    &&& selectors[i] is Some
    &&& forall|k: int|
        0 <= k < i ==> !(#[trigger] selectors[k] matches Some(s) && s@ == selectors[i].unwrap()@)
}

/// Whether some entry before `i` carries `sel`.
fn seen_before(selectors: &Vec<Option<String>>, i: usize, sel: &str) -> (r: bool)
    requires
        i <= selectors.len(),
    ensures
        r == exists|k: int| 0 <= k < i && (#[trigger] selectors@[k] matches Some(s) && s@ == sel@),
{
    let mut k: usize = 0;
    while k < i
        invariant
            k <= i <= selectors.len(),
            forall|j: int| 0 <= j < k ==> !(#[trigger] selectors@[j] matches Some(s) && s@ == sel@),
        decreases i - k,
    {
        match &selectors[k] {
            Some(s) => {
                if str_eq(s.as_str(), sel) {
                    return true;
                }
            },
            None => {},
        }
        k = k + 1;
    }
    false
}

/// The catalog entries kept, by index: those with a selector, each
/// selector once, first occurrence winning, in catalog order.
pub fn dedupe_by_selector(selectors: &Vec<Option<String>>) -> (r: Vec<usize>)
    ensures
        forall|j: int| 0 <= j < r@.len() ==> #[trigger] r@[j] < selectors@.len(),
        forall|j: int, k: int| 0 <= j < k < r@.len() ==> r@[j] < r@[k],
        forall|i: int|
            0 <= i < selectors@.len() ==> (first_with_selector(selectors@, i) <==> r@.contains(
                i as usize,
            )),
{
    let mut kept: Vec<usize> = Vec::new();
    let mut i: usize = 0;
    while i < selectors.len()
        invariant
            i <= selectors.len(),
            forall|j: int| 0 <= j < kept@.len() ==> #[trigger] kept@[j] < i,
            forall|j: int, k: int| 0 <= j < k < kept@.len() ==> kept@[j] < kept@[k],
            forall|x: int|
                0 <= x < i ==> (first_with_selector(selectors@, x) <==> kept@.contains(x as usize)),
        decreases selectors.len() - i,
    {
        let keep = match &selectors[i] {
            Some(s) => !seen_before(selectors, i, s.as_str()),
            None => false,
        };
        let ghost before = kept@;
        if keep {
            kept.push(i);
        }
        assert forall|x: int| 0 <= x < i + 1 implies (first_with_selector(selectors@, x)
            <==> kept@.contains(x as usize)) by {
            if x < i {
                if kept@.contains(x as usize) {
                    let j = choose|j: int| 0 <= j < kept@.len() && kept@[j] == x as usize;
                    if j == before.len() {
                        assert(false);
                    }
                    assert(before[j] == x as usize);
                }
                if before.contains(x as usize) {
                    let j = choose|j: int| 0 <= j < before.len() && before[j] == x as usize;
                    assert(kept@[j] == x as usize);
                }
            } else {
                if keep {
                    assert(kept@[before.len() as int] == i);
                } else if kept@.contains(x as usize) {
                    let j = choose|j: int| 0 <= j < kept@.len() && kept@[j] == x as usize;
                    assert(before[j] < i);
                }
            }
        }
        i = i + 1;
    }
    kept
}

// ---------------------------------------------------------------------------
// Whether the harness can chat
// ---------------------------------------------------------------------------

/// What detection reports of the harness, given whether `omp` is installed,
/// the providers signed in through opencode's credentials, and whether a
/// provider API key is set.
pub struct OmpReadiness {
    pub authenticated: bool,
    /// `oauth` when a provider is signed in, else `apiKey` when a key is set.
    pub auth_method: Option<&'static str>,
    /// The signed-in providers, comma-separated.
    pub account: Option<String>,
    /// Installed and authenticated: the model list is offered.
    pub agent_ready: bool,
    /// What the user is told to do when it is not ready.
    pub agent_note: Option<&'static str>,
}

/// The note shown when `omp` is installed but nothing is signed in.
pub open spec fn sign_in_note() -> Seq<char> {
    "Sign in with `opencode auth login` to chat with it here."@
}

/// The note shown when `omp` is not installed.
pub open spec fn install_note() -> Seq<char> {
    "Install Oh My Pi (`omp`), then sign in with `opencode auth login`."@
}

/// Whether Oh My Pi can chat, and how it is signed in.
pub fn omp_readiness(installed: bool, providers: &Vec<String>, api_key_set: bool) -> (r: OmpReadiness)
    ensures
        r.authenticated == (providers@.len() > 0 || api_key_set),
        match r.auth_method {
            Some(m) => (providers@.len() > 0 && m@ == "oauth"@) || (providers@.len() == 0 && api_key_set
                && m@ == "apiKey"@),
            None => providers@.len() == 0 && !api_key_set,
        },
        match r.account {
            Some(a) => providers@.len() > 0 && a@ == join_with(views(providers@), ", "@),
            None => providers@.len() == 0,
        },
        r.agent_ready == (installed && r.authenticated),
        match r.agent_note {
            Some(n) => !r.agent_ready && n@ == (if installed {
                sign_in_note()
            } else {
                install_note()
            }),
            None => r.agent_ready,
        },
{
    let signed_in = providers.len() > 0;
    let authenticated = signed_in || api_key_set;
    let auth_method = if signed_in {
        Some("oauth")
    } else if api_key_set {
        Some("apiKey")
    } else {
        None
    };
    let account = if signed_in {
        Some(join(providers, ", "))
    } else {
        None
    };
    let agent_ready = installed && authenticated;
    let agent_note = if agent_ready {
        None
    } else if installed {
        Some("Sign in with `opencode auth login` to chat with it here.")
    } else {
        Some("Install Oh My Pi (`omp`), then sign in with `opencode auth login`.")
    };
    OmpReadiness { authenticated, auth_method, account, agent_ready, agent_note }
}

/// The providers signed in through opencode's credential file: the keys of
/// its top-level object, in order (none when it is not an object).
pub fn auth_providers(auth: &JsonValue) -> (r: Vec<String>)
    ensures
        match *auth {
            JsonValue::Object(entries) => views(r@) == entries@.map_values(|e: (String, JsonValue)| e.0@),
            _ => r@.len() == 0,
        },
{
    let mut out: Vec<String> = Vec::new();
    match auth {
        JsonValue::Object(entries) => {
            let mut i: usize = 0;
            while i < entries.len()
                invariant
                    i <= entries@.len(),
                    views(out@) == entries@.take(i as int).map_values(|e: (String, JsonValue)| e.0@),
                decreases entries@.len() - i,
            {
                let ghost prev = views(out@);
                out.push(entries[i].0.clone());
                assert(views(out@) =~= prev.push(entries@[i as int].0@));
                assert(entries@.take(i + 1).map_values(|e: (String, JsonValue)| e.0@) =~= entries@.take(
                    i as int,
                ).map_values(|e: (String, JsonValue)| e.0@).push(entries@[i as int].0@));
                i = i + 1;
            }
            assert(entries@.take(entries@.len() as int) =~= entries@);
        },
        _ => {},
    }
    out
}


/// The error of a turn whose `omp` process exited unsuccessfully: how it
/// exited, and where its log is.
pub fn omp_exit_error(exit_status: &str, log_path: &str) -> (r: String)
    ensures
        r@ == "omp exited with "@ + exit_status@ + "; see "@ + log_path@,
{
    let mut m = owned("omp exited with ");
    push_str(&mut m, exit_status);
    push_str(&mut m, "; see ");
    push_str(&mut m, log_path);
    m
}

} // verus!
