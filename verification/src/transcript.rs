//! The parts of an assistant message as the UI renders them: text, tool
//! calls with their state, interactive prompt cards, and the nested parts of
//! sub-agents. Interrupted turns settle their running tools; stale prompt
//! cards are resolved; the first unanswered permission card is found
//! depth-first.

use vstd::prelude::*;

use crate::chat::{effective_note, plain_answer_spec, PromptAnswer, TextAnnotation, WireQuestionOption};
use crate::json::{get, insert, member, take, JsonValue};
use crate::text::{is_blank, owned, push_char, push_str, str_eq};

verus! {

/// The state of a tool call.
pub struct WireToolState {
    /// `running`, `completed`, `error` or `interrupted`.
    pub status: String,
    pub input: Option<JsonValue>,
    pub output: Option<String>,
    pub error: Option<String>,
    pub title: Option<String>,
}

/// An interactive request the user must act on: a `plan`, `permission` or
/// `question` card.
pub struct WirePrompt {
    pub kind: String,
    /// Whether the card was answered.
    pub resolved: bool,
    pub plan: Option<String>,
    pub synthesized: bool,
    pub tool: Option<String>,
    pub tool_input: Option<JsonValue>,
    pub question: Option<String>,
    pub header: Option<String>,
    pub options: Vec<WireQuestionOption>,
    pub multi_select: bool,
    pub plan_exit: bool,
    /// The harness-native id a held card is answered under.
    pub native_id: Option<String>,
    /// The answer echo stamped when the card is resolved.
    pub answers: Vec<String>,
    pub approved: Option<bool>,
    pub note: Option<String>,
    pub annotations: Vec<TextAnnotation>,
}

/// One part of a message; `children` holds the transcript of a sub-agent
/// the part spawned.
pub struct WirePart {
    pub id: String,
    /// `text`, `reasoning`, `image`, `annotation`, `tool` or `prompt`.
    pub kind: String,
    pub text: Option<String>,
    pub tool: Option<String>,
    pub state: Option<WireToolState>,
    pub prompt: Option<WirePrompt>,
    pub children: Vec<WirePart>,
}

impl WirePart {
    /// A part of the given kind carrying text.
    fn with_text(id: &str, kind: &str, text: &str) -> (r: Self)
        ensures
            r.id@ == id@,
            r.kind@ == kind@,
            r.text matches Some(t) && t@ == text@,
            r.tool is None && r.state is None && r.prompt is None && r.children@.len() == 0,
    {
        WirePart {
            id: owned(id),
            kind: owned(kind),
            text: Some(owned(text)),
            tool: None,
            state: None,
            prompt: None,
            children: Vec::new(),
        }
    }

    /// A text part.
    pub fn text(id: &str, text: &str) -> (r: Self)
        ensures
            r.id@ == id@,
            r.kind@ == "text"@,
            r.text matches Some(t) && t@ == text@,
            r.tool is None && r.state is None && r.prompt is None && r.children@.len() == 0,
    {
        Self::with_text(id, "text", text)
    }

    /// A reasoning part.
    pub fn reasoning(id: &str, text: &str) -> (r: Self)
        ensures
            r.id@ == id@,
            r.kind@ == "reasoning"@,
            r.text matches Some(t) && t@ == text@,
            r.tool is None && r.state is None && r.prompt is None && r.children@.len() == 0,
    {
        Self::with_text(id, "reasoning", text)
    }

    /// An image part; its text is the attachment's file name.
    pub fn image(id: &str, name: &str) -> (r: Self)
        ensures
            r.id@ == id@,
            r.kind@ == "image"@,
            r.text matches Some(t) && t@ == name@,
            r.tool is None && r.state is None && r.prompt is None && r.children@.len() == 0,
    {
        Self::with_text(id, "image", name)
    }

    /// A selected-excerpt part.
    pub fn annotation(id: &str, text: &str) -> (r: Self)
        ensures
            r.id@ == id@,
            r.kind@ == "annotation"@,
            r.text matches Some(t) && t@ == text@,
            r.tool is None && r.state is None && r.prompt is None && r.children@.len() == 0,
    {
        Self::with_text(id, "annotation", text)
    }

    /// A synthetic tool part: a status row that is not a real tool call.
    pub fn tool(id: &str, tool: &str, status: &str, error: Option<String>) -> (r: Self)
        ensures
            r.id@ == id@,
            r.kind@ == "tool"@,
            r.text is None,
            r.tool matches Some(t) && t@ == tool@,
            r.state matches Some(s) && s.status@ == status@ && s.error == error && s.input is None
                && s.output is None && s.title is None,
            r.prompt is None && r.children@.len() == 0,
    {
        WirePart {
            id: owned(id),
            kind: owned("tool"),
            text: None,
            tool: Some(owned(tool)),
            state: Some(
                WireToolState {
                    status: owned(status),
                    input: None,
                    output: None,
                    error,
                    title: None,
                },
            ),
            prompt: None,
            children: Vec::new(),
        }
    }

    /// An interactive prompt part.
    pub fn prompt(id: &str, prompt: WirePrompt) -> (r: Self)
        ensures
            r.id@ == id@,
            r.kind@ == "prompt"@,
            r.prompt == Some(prompt),
            r.text is None && r.tool is None && r.state is None && r.children@.len() == 0,
    {
        WirePart {
            id: owned(id),
            kind: owned("prompt"),
            text: None,
            tool: None,
            state: None,
            prompt: Some(prompt),
            children: Vec::new(),
        }
    }
}

// ---------------------------------------------------------------------------
// Resolving prompt cards
// ---------------------------------------------------------------------------

/// A copy of a list of strings.
fn clone_strings(v: &Vec<String>) -> (r: Vec<String>)
    ensures
        r@ == v@,
{
    let mut out: Vec<String> = Vec::new();
    let mut i: usize = 0;
    while i < v.len()
        invariant
            i <= v@.len(),
            out@ == v@.take(i as int),
        decreases v@.len() - i,
    {
        out.push(v[i].clone());
        assert(out@ =~= v@.take(i + 1));
        i = i + 1;
    }
    assert(v@.take(v@.len() as int) =~= v@);
    out
}

/// A copy of a list of annotations.
fn clone_annotations(v: &Vec<TextAnnotation>) -> (r: Vec<TextAnnotation>)
    ensures
        r@ == v@,
{
    let mut out: Vec<TextAnnotation> = Vec::new();
    let mut i: usize = 0;
    while i < v.len()
        invariant
            i <= v@.len(),
            out@ == v@.take(i as int),
        decreases v@.len() - i,
    {
        out.push(TextAnnotation { text: v[i].text.clone() });
        assert(out@ =~= v@.take(i + 1));
        i = i + 1;
    }
    assert(v@.take(v@.len() as int) =~= v@);
    out
}

/// The view of an optional string.
pub open spec fn opt_string_view(o: Option<String>) -> Option<Seq<char>> {
    match o {
        Some(s) => Some(s@),
        None => None,
    }
}

/// Two cards agree on everything the question itself is made of.
pub open spec fn same_card(a: WirePrompt, b: WirePrompt) -> bool {
    &&& a.kind == b.kind
    &&& a.plan == b.plan
    &&& a.synthesized == b.synthesized
    &&& a.tool == b.tool
    &&& a.tool_input == b.tool_input
    &&& a.question == b.question
    &&& a.header == b.header
    &&& a.options == b.options
    &&& a.multi_select == b.multi_select
    &&& a.plan_exit == b.plan_exit
    &&& a.native_id == b.native_id
}

/// Two cards carry the same answer echo.
pub open spec fn same_echo(a: WirePrompt, b: WirePrompt) -> bool {
    &&& a.answers@ == b.answers@
    &&& a.approved == b.approved
    &&& a.note == b.note
    &&& a.annotations@ == b.annotations@
}

/// `after` is `before` resolved, with the echo of `answer` stamped on it;
/// without an answer an earlier echo is kept.
pub open spec fn stamped(before: WirePrompt, after: WirePrompt, answer: Option<PromptAnswer>) -> bool {
    &&& after.resolved
    &&& same_card(before, after)
    &&& match answer {
        None => same_echo(before, after),
        Some(a) => {
            &&& after.answers@ == a.answers@
            &&& after.approved == Some(a.approve)
            &&& opt_string_view(after.note) == effective_note(a.note)
            &&& after.annotations@ == a.annotations@
        },
    }
}

/// Resolves a card and stamps the answer echo.
pub fn stamp_resolved(prompt: &mut WirePrompt, answer: Option<&PromptAnswer>)
    ensures
        stamped(
            *old(prompt),
            *final(prompt),
            match answer {
                Some(a) => Some(*a),
                None => None,
            },
        ),
{
    prompt.resolved = true;
    match answer {
        Some(a) => {
            prompt.answers = clone_strings(&a.answers);
            prompt.approved = Some(a.approve);
            prompt.note = match &a.note {
                Some(n) => if is_blank(n.as_str()) {
                    None
                } else {
                    Some(n.clone())
                },
                None => None,
            };
            prompt.annotations = clone_annotations(&a.annotations);
        },
        None => {},
    }
}

/// A card the stale-card sweep resolves: unanswered, and (when only held
/// cards are swept) held under a native id.
pub open spec fn is_stale(p: WirePrompt, native_only: bool) -> bool {
    !p.resolved && (!native_only || p.native_id is Some)
}

/// A part or one of its descendants carries a stale card.
pub open spec fn has_stale(p: WirePart, native_only: bool) -> bool
    decreases p, 1int,
{
    (p.prompt matches Some(q) && is_stale(q, native_only)) || {
        proof {
            lemma_children_decrease(p);
        }
        any_stale(p.children@, native_only)
    }
}

/// Some part of the list, or a descendant, carries a stale card.
pub open spec fn any_stale(parts: Seq<WirePart>, native_only: bool) -> bool
    decreases parts, 0int,
{
    if parts.len() == 0 {
        false
    } else {
        proof {
            lemma_last_decreases(parts);
        }
        any_stale(parts.drop_last(), native_only) || has_stale(parts.last(), native_only)
    }
}

/// The children of a part are smaller than the part.
pub proof fn lemma_children_decrease(p: WirePart)
    ensures
        decreases_to!(p => p.children@),
{
    assert(decreases_to!(p => p.children));
    assert(decreases_to!(p.children => p.children@));
}

/// A list is larger than its last element and than the rest.
pub proof fn lemma_last_decreases(s: Seq<WirePart>)
    requires
        s.len() > 0,
    ensures
        decreases_to!(s => s.last()),
        decreases_to!(s => s.drop_last()),
{
    assert(decreases_to!(s => s[s.len() - 1]));
    assert(s.drop_last() =~= s.subrange(0, s.len() - 1));
    assert(decreases_to!(s => s.subrange(0, s.len() - 1)));
}

/// `n` is `o` with every stale card in it, at any depth, resolved; nothing
/// else changes.
pub open spec fn swept(o: WirePart, n: WirePart, native_only: bool) -> bool
    decreases o, 1int,
{
    &&& n.id == o.id
    &&& n.kind == o.kind
    &&& n.text == o.text
    &&& n.tool == o.tool
    &&& n.state == o.state
    &&& match (o.prompt, n.prompt) {
        (None, None) => true,
        (Some(a), Some(b)) => if is_stale(a, native_only) {
            stamped(a, b, None)
        } else {
            b == a
        },
        _ => false,
    }
    &&& {
        proof {
            lemma_children_decrease(o);
        }
        all_swept(o.children@, n.children@, native_only)
    }
}

/// Every part of `n` is the part of `o` at the same place, swept.
pub open spec fn all_swept(o: Seq<WirePart>, n: Seq<WirePart>, native_only: bool) -> bool
    decreases o, 0int,
{
    if o.len() == 0 {
        n.len() == 0
    } else {
        proof {
            lemma_last_decreases(o);
        }
        n.len() == o.len() && all_swept(o.drop_last(), n.drop_last(), native_only) && swept(
            o.last(),
            n.last(),
            native_only,
        )
    }
}

/// Resolves the stale cards of one part and its descendants; says whether
/// there were any.
fn sweep_part(p: WirePart, native_only: bool) -> (r: (WirePart, bool))
    ensures
        swept(p, r.0, native_only),
        r.1 == has_stale(p, native_only),
    decreases p,
{
    let ghost old_p = p;
    let WirePart { id, kind, text, tool, state, prompt, children } = p;
    proof {
        lemma_children_decrease(old_p);
    }
    let (children, child_changed) = sweep_parts(children, native_only);
    let mut changed = false;
    let prompt = match prompt {
        Some(mut q) => {
            if !q.resolved && (!native_only || q.native_id.is_some()) {
                stamp_resolved(&mut q, None);
                changed = true;
            }
            Some(q)
        },
        None => None,
    };
    let r = WirePart { id, kind, text, tool, state, prompt, children };
    (r, changed || child_changed)
}

/// Resolves the stale cards of a list of parts and their descendants.
fn sweep_parts(parts: Vec<WirePart>, native_only: bool) -> (r: (Vec<WirePart>, bool))
    ensures
        all_swept(parts@, r.0@, native_only),
        r.1 == any_stale(parts@, native_only),
    decreases parts@,
{
    let ghost orig = parts@;
    let mut out: Vec<WirePart> = Vec::new();
    let mut changed = false;
    let mut rest = parts;
    let mut k: usize = 0;
    let n = rest.len();
    while rest.len() > 0
        invariant
            n == orig.len(),
            k + rest@.len() == n,
            rest@ == orig.skip(k as int),
            orig == parts@,
            all_swept(orig.take(k as int), out@, native_only),
            changed == any_stale(orig.take(k as int), native_only),
        decreases rest@.len(),
    {
        let ghost idx = k as int;
        let x = rest.remove(0);
        assert(x == orig[idx]);
        assert(rest@ =~= orig.skip(idx + 1));
        proof {
            assert(decreases_to!(orig => orig[idx]));
        }
        let (y, c) = sweep_part(x, native_only);
        let ghost prev = out@;
        out.push(y);
        proof {
            let t = orig.take(idx + 1);
            assert(t.drop_last() =~= orig.take(idx));
            assert(out@.drop_last() =~= prev);
            assert(t.last() == x);
        }
        changed = changed || c;
        k = k + 1;
    }
    assert(orig.take(n as int) =~= orig);
    (out, changed)
}

/// Resolves every stale card in the parts, at any depth: an unanswered card,
/// or (when `native_only`) an unanswered card held under a native id. Says
/// whether any was resolved.
pub fn resolve_stale_prompts_in_parts(parts: &mut Vec<WirePart>, native_only: bool) -> (changed:
    bool)
    ensures
        all_swept(old(parts)@, final(parts)@, native_only),
        changed == any_stale(old(parts)@, native_only),
{
    let mut taken: Vec<WirePart> = Vec::new();
    std::mem::swap(&mut taken, parts);
    let (swept_parts, changed) = sweep_parts(taken, native_only);
    *parts = swept_parts;
    changed
}

// ---------------------------------------------------------------------------
// Settling interrupted turns
// ---------------------------------------------------------------------------

/// The state of a tool after its turn was interrupted: a running tool is
/// marked `interrupted`; anything else stays as it was.
pub open spec fn settled_state(o: Option<WireToolState>, n: Option<WireToolState>) -> bool {
    match (o, n) {
        (None, None) => true,
        (Some(a), Some(b)) => {
            &&& b.status@ == (if a.status@ == "running"@ {
                "interrupted"@
            } else {
                a.status@
            })
            &&& b.input == a.input
            &&& b.output == a.output
            &&& b.error == a.error
            &&& b.title == a.title
        },
        _ => false,
    }
}

/// `n` is `o` with every running tool in it, at any depth, marked
/// interrupted; nothing else changes.
pub open spec fn settled(o: WirePart, n: WirePart) -> bool
    decreases o, 1int,
{
    &&& n.id == o.id
    &&& n.kind == o.kind
    &&& n.text == o.text
    &&& n.tool == o.tool
    &&& n.prompt == o.prompt
    &&& settled_state(o.state, n.state)
    &&& {
        proof {
            lemma_children_decrease(o);
        }
        all_settled(o.children@, n.children@)
    }
}

/// Every part of `n` is the part of `o` at the same place, settled.
pub open spec fn all_settled(o: Seq<WirePart>, n: Seq<WirePart>) -> bool
    decreases o, 0int,
{
    if o.len() == 0 {
        n.len() == 0
    } else {
        proof {
            lemma_last_decreases(o);
        }
        n.len() == o.len() && all_settled(o.drop_last(), n.drop_last()) && settled(
            o.last(),
            n.last(),
        )
    }
}

fn settle_part(p: WirePart) -> (r: WirePart)
    ensures
        settled(p, r),
    decreases p,
{
    let ghost old_p = p;
    let WirePart { id, kind, text, tool, state, prompt, children } = p;
    proof {
        lemma_children_decrease(old_p);
    }
    let children = settle_parts(children);
    let state = match state {
        Some(st) => {
            let WireToolState { status, input, output, error, title } = st;
            let status = if str_eq(status.as_str(), "running") {
                owned("interrupted")
            } else {
                status
            };
            Some(WireToolState { status, input, output, error, title })
        },
        None => None,
    };
    WirePart { id, kind, text, tool, state, prompt, children }
}

fn settle_parts(parts: Vec<WirePart>) -> (r: Vec<WirePart>)
    ensures
        all_settled(parts@, r@),
    decreases parts@,
{
    let ghost orig = parts@;
    let mut out: Vec<WirePart> = Vec::new();
    let mut rest = parts;
    let mut k: usize = 0;
    let n = rest.len();
    while rest.len() > 0
        invariant
            n == orig.len(),
            k + rest@.len() == n,
            rest@ == orig.skip(k as int),
            orig == parts@,
            all_settled(orig.take(k as int), out@),
        decreases rest@.len(),
    {
        let ghost idx = k as int;
        let x = rest.remove(0);
        assert(x == orig[idx]);
        assert(rest@ =~= orig.skip(idx + 1));
        proof {
            assert(decreases_to!(orig => orig[idx]));
        }
        let y = settle_part(x);
        let ghost prev = out@;
        out.push(y);
        proof {
            let t = orig.take(idx + 1);
            assert(t.drop_last() =~= orig.take(idx));
            assert(out@.drop_last() =~= prev);
            assert(t.last() == x);
        }
        k = k + 1;
    }
    assert(orig.take(n as int) =~= orig);
    out
}

/// Marks every running tool in the parts, at any depth, as interrupted.
pub fn settle_interrupted_tool_parts(parts: &mut Vec<WirePart>)
    ensures
        all_settled(old(parts)@, final(parts)@),
{
    let mut taken: Vec<WirePart> = Vec::new();
    std::mem::swap(&mut taken, parts);
    *parts = settle_parts(taken);
}

// ---------------------------------------------------------------------------
// The oldest unanswered permission card
// ---------------------------------------------------------------------------

/// A part that is an unanswered permission card.
pub open spec fn is_open_permission(p: WirePart) -> bool {
    p.prompt matches Some(q) && q.kind@ == "permission"@ && !q.resolved
}

/// The id of the first unanswered permission card in a part, the part
/// itself before its descendants.
pub open spec fn first_permission_in(p: WirePart) -> Option<Seq<char>>
    decreases p, 1int,
{
    if is_open_permission(p) {
        Some(p.id@)
    } else {
        proof {
            lemma_children_decrease(p);
        }
        first_permission(p.children@)
    }
}

/// The id of the first unanswered permission card in the parts, depth-first
/// in order.
pub open spec fn first_permission(parts: Seq<WirePart>) -> Option<Seq<char>>
    decreases parts, 0int,
{
    if parts.len() == 0 {
        None
    } else {
        proof {
            lemma_last_decreases(parts);
        }
        match first_permission(parts.drop_last()) {
            Some(id) => Some(id),
            None => first_permission_in(parts.last()),
        }
    }
}

/// A card found in a prefix of the parts is the first card of all of them.
proof fn lemma_first_permission_prefix(s: Seq<WirePart>, k: int)
    requires
        0 <= k <= s.len(),
        first_permission(s.take(k)) is Some,
    ensures
        first_permission(s) == first_permission(s.take(k)),
    decreases s.len(),
{
    if k == s.len() {
        assert(s.take(k) =~= s);
    } else {
        assert(s.drop_last().take(k) =~= s.take(k));
        lemma_first_permission_prefix(s.drop_last(), k);
    }
}

/// The id of the first unanswered permission card, depth-first.
pub fn first_unresolved_permission_in_parts(parts: &Vec<WirePart>) -> (r: Option<String>)
    ensures
        match r {
            Some(id) => first_permission(parts@) == Some(id@),
            None => first_permission(parts@) is None,
        },
    decreases parts@,
{
    let mut i: usize = 0;
    while i < parts.len()
        invariant
            i <= parts@.len(),
            first_permission(parts@.take(i as int)) is None,
        decreases parts@.len() - i,
    {
        let ghost t = parts@.take(i + 1);
        assert(t.drop_last() =~= parts@.take(i as int));
        assert(t.last() == parts@[i as int]);
        let part = &parts[i];
        let open = match &part.prompt {
            Some(q) => str_eq(q.kind.as_str(), "permission") && !q.resolved,
            None => false,
        };
        if open {
            proof {
                assert(is_open_permission(t.last()));
                assert(first_permission_in(t.last()) == Some(t.last().id@));
                assert(first_permission(t) == Some(t.last().id@));
                lemma_first_permission_prefix(parts@, i + 1);
            }
            return Some(part.id.clone());
        }
        proof {
            assert(decreases_to!(parts@ => parts@[i as int]));
            lemma_children_decrease(parts@[i as int]);
        }
        match first_unresolved_permission_in_parts(&part.children) {
            Some(id) => {
                proof {
                    lemma_first_permission_prefix(parts@, i + 1);
                }
                return Some(id);
            },
            None => {},
        }
        i = i + 1;
    }
    assert(parts@.take(parts@.len() as int) =~= parts@);
    None
}

// ---------------------------------------------------------------------------
// Tool state signatures
// ---------------------------------------------------------------------------

/// The path of a part below `parent`: its id, after `parent/` when nested.
pub open spec fn part_path(parent: Seq<char>, id: Seq<char>) -> Seq<char> {
    if parent.len() == 0 {
        id
    } else {
        parent + "/"@ + id
    }
}

/// The `(path, status)` of every tool state in a part and its descendants,
/// in document order.
pub open spec fn signature_of(p: WirePart, parent: Seq<char>) -> Seq<(Seq<char>, Seq<char>)>
    decreases p, 1int,
{
    let path = part_path(parent, p.id@);
    let own = match p.state {
        Some(st) => seq![(path, st.status@)],
        None => Seq::empty(),
    };
    own + {
        proof {
            lemma_children_decrease(p);
        }
        signature_all(p.children@, path)
    }
}

/// The tool-state signature of a list of parts below `parent`.
pub open spec fn signature_all(parts: Seq<WirePart>, parent: Seq<char>) -> Seq<
    (Seq<char>, Seq<char>),
>
    decreases parts, 0int,
{
    if parts.len() == 0 {
        Seq::empty()
    } else {
        proof {
            lemma_last_decreases(parts);
        }
        signature_all(parts.drop_last(), parent) + signature_of(parts.last(), parent)
    }
}

/// The views of a list of string pairs.
pub open spec fn pair_views(v: Seq<(String, String)>) -> Seq<(Seq<char>, Seq<char>)> {
    v.map_values(|p: (String, String)| (p.0@, p.1@))
}

/// Appends the signature of the parts below `parent` to `states`.
fn collect_states(parts: &Vec<WirePart>, parent: &str, states: &mut Vec<(String, String)>)
    ensures
        pair_views(final(states)@) == pair_views(old(states)@) + signature_all(parts@, parent@),
    decreases parts@,
{
    let mut i: usize = 0;
    while i < parts.len()
        invariant
            i <= parts@.len(),
            pair_views(states@) == pair_views(old(states)@) + signature_all(
                parts@.take(i as int),
                parent@,
            ),
        decreases parts@.len() - i,
    {
        let ghost t = parts@.take(i + 1);
        assert(t.drop_last() =~= parts@.take(i as int));
        assert(t.last() == parts@[i as int]);
        let part = &parts[i];
        let path = if parent.is_empty() {
            part.id.clone()
        } else {
            let mut p = owned(parent);
            push_char(&mut p, '/');
            push_str(&mut p, part.id.as_str());
            proof {
                reveal_strlit("/");
                assert(p@ =~= parent@ + "/"@ + part.id@);
            }
            p
        };
        assert(path@ == part_path(parent@, part.id@));
        let ghost before = pair_views(states@);
        match &part.state {
            Some(st) => {
                states.push((path.clone(), st.status.clone()));
                assert(pair_views(states@) =~= before.push((path@, st.status@)));
            },
            None => {},
        }
        proof {
            assert(decreases_to!(parts@ => parts@[i as int]));
            lemma_children_decrease(parts@[i as int]);
        }
        let ghost mid = pair_views(states@);
        collect_states(&part.children, path.as_str(), states);
        proof {
            let own = match parts@[i as int].state {
                Some(st) => seq![(path@, st.status@)],
                None => Seq::<(Seq<char>, Seq<char>)>::empty(),
            };
            assert(mid =~= before + own);
            assert(signature_of(parts@[i as int], parent@) =~= own + signature_all(
                part.children@,
                path@,
            ));
            assert(pair_views(states@) =~= pair_views(old(states)@) + signature_all(
                parts@.take(i + 1),
                parent@,
            ));
        }
        i = i + 1;
    }
    assert(parts@.take(parts@.len() as int) =~= parts@);
}

/// The `(path, status)` of every tool state in the parts, nested parts
/// named `parent/child`, in document order.
pub fn tool_state_signature(parts: &Vec<WirePart>) -> (r: Vec<(String, String)>)
    ensures
        pair_views(r@) == signature_all(parts@, Seq::empty()),
{
    let mut states: Vec<(String, String)> = Vec::new();
    collect_states(parts, "", &mut states);
    proof {
        reveal_strlit("");
        assert(""@ =~= Seq::<char>::empty());
        assert(pair_views(Seq::<(String, String)>::empty()) =~= Seq::empty());
        assert(Seq::<(Seq<char>, Seq<char>)>::empty() + signature_all(parts@, Seq::empty())
            =~= signature_all(parts@, Seq::empty()));
    }
    states
}

// ---------------------------------------------------------------------------
// Upserting a part
// ---------------------------------------------------------------------------

/// The input keys that carry a tool call's out-of-band targets across a
/// rebuild of its part.
pub open spec fn is_carry_key(k: Seq<char>) -> bool {
    k == "runTargetIds"@ || k == "runTargetIdsAuthoritative"@ || k == "experimentTargetIds"@ || k
        == "experimentTargetIdsAuthoritative"@ || k == "targetIds"@
}

/// Whether carrying the target keys would have to set a key on an input
/// that is neither an object nor null (which the rebuild cannot do).
pub open spec fn carry_blocked(inc: JsonValue, prev: JsonValue) -> bool {
    !(inc is Object || inc is Null) && exists|k: Seq<char>| is_carry_key(k) && #[trigger] member(prev, k) is Some
}

/// `n` is the incoming input with every target key it lacks taken from the
/// previous input. A null input becomes an object when a key is carried.
pub open spec fn carried(inc: JsonValue, prev: JsonValue, n: JsonValue) -> bool {
    if inc is Object || (inc is Null && exists|k: Seq<char>| is_carry_key(k) && #[trigger] member(prev, k) is Some) {
        &&& n is Object
        &&& forall|k: Seq<char>|
            #[trigger] member(n, k) == if is_carry_key(k) && member(inc, k) is None {
                member(prev, k)
            } else {
                member(inc, k)
            }
    } else {
        n == inc
    }
}

/// Carries one key from the previous input when the incoming one lacks it.
fn carry_key(inc: JsonValue, prev: JsonValue, key: &str) -> (r: (JsonValue, JsonValue))
    requires
        inc is Object || inc is Null || member(prev, key@) is None,
    ensures
        forall|k: Seq<char>| k != key@ ==> #[trigger] member(r.1, k) == member(prev, k),
        r.1 is Object <==> prev is Object,
        if member(inc, key@) is Some || member(prev, key@) is None {
            r.0 == inc
        } else {
            &&& r.0 is Object
            &&& member(r.0, key@) == member(prev, key@)
            &&& forall|k: Seq<char>| k != key@ ==> #[trigger] member(r.0, k) == member(inc, k)
        },
{
    if get(&inc, key).is_some() {
        return (inc, prev);
    }
    let (value, prev) = match prev {
        JsonValue::Object(mut entries) => {
            let v = take(&mut entries, key);
            (v, JsonValue::Object(entries))
        },
        other => (None, other),
    };
    match value {
        None => (inc, prev),
        Some(v) => {
            let entries = match inc {
                JsonValue::Null => {
                    let mut e: Vec<(String, JsonValue)> = Vec::new();
                    insert(&mut e, key, v);
                    e
                },
                JsonValue::Object(mut e) => {
                    insert(&mut e, key, v);
                    e
                },
                _ => {
                    proof {
                        assert(false);
                    }
                    Vec::new()
                },
            };
            (JsonValue::Object(entries), prev)
        },
    }
}

/// Carries the target keys the incoming input lacks from the previous one.
fn carry_targets(inc: JsonValue, prev: JsonValue) -> (r: JsonValue)
    requires
        !carry_blocked(inc, prev),
    ensures
        carried(inc, prev, r),
{
    proof {
        reveal_strlit("runTargetIds");
        reveal_strlit("runTargetIdsAuthoritative");
        reveal_strlit("experimentTargetIds");
        reveal_strlit("experimentTargetIdsAuthoritative");
        reveal_strlit("targetIds");
        assert("runTargetIds"@.len() == 12);
        assert("runTargetIdsAuthoritative"@.len() == 25);
        assert("experimentTargetIds"@.len() == 19);
        assert("experimentTargetIdsAuthoritative"@.len() == 32);
        assert("targetIds"@.len() == 9);
        if !(inc is Object || inc is Null) {
            assert(member(prev, "runTargetIds"@) is None);
            assert(member(prev, "runTargetIdsAuthoritative"@) is None);
            assert(member(prev, "experimentTargetIds"@) is None);
            assert(member(prev, "experimentTargetIdsAuthoritative"@) is None);
            assert(member(prev, "targetIds"@) is None);
        }
    }
    let ghost inc0 = inc;
    let ghost prev0 = prev;
    let (a, p1) = carry_key(inc, prev, "runTargetIds");
    let (b, p2) = carry_key(a, p1, "runTargetIdsAuthoritative");
    let (c, p3) = carry_key(b, p2, "experimentTargetIds");
    let (d, p4) = carry_key(c, p3, "experimentTargetIdsAuthoritative");
    let (e, _) = carry_key(d, p4, "targetIds");
    proof {
        assert forall|k: Seq<char>| #[trigger] member(e, k) == if is_carry_key(k) && member(inc0, k) is None {
            member(prev0, k)
        } else {
            member(inc0, k)
        } by {
            if k == "runTargetIds"@ {
            } else if k == "runTargetIdsAuthoritative"@ {
            } else if k == "experimentTargetIds"@ {
            } else if k == "experimentTargetIdsAuthoritative"@ {
            } else if k == "targetIds"@ {
            } else {
            }
        }
        if !(inc0 is Object || (inc0 is Null && exists|k: Seq<char>| is_carry_key(k) && #[trigger] member(prev0, k) is Some)) {
            if inc0 is Null {
                assert(member(prev0, "runTargetIds"@) is None);
                assert(member(prev0, "runTargetIdsAuthoritative"@) is None);
                assert(member(prev0, "experimentTargetIds"@) is None);
                assert(member(prev0, "experimentTargetIdsAuthoritative"@) is None);
                assert(member(prev0, "targetIds"@) is None);
            }
        }
    }
    e
}

/// The index of the first part with the given id.
pub open spec fn first_with_id(parts: Seq<WirePart>, id: Seq<char>) -> Option<int>
    decreases parts.len(),
{
    if parts.len() == 0 {
        None
    } else {
        match first_with_id(parts.drop_last(), id) {
            Some(i) => Some(i),
            None => if parts.last().id@ == id {
                Some(parts.len() - 1)
            } else {
                None
            },
        }
    }
}

proof fn lemma_first_with_id_prefix(s: Seq<WirePart>, id: Seq<char>, k: int)
    requires
        0 <= k <= s.len(),
        first_with_id(s.take(k), id) is Some,
    ensures
        first_with_id(s, id) == first_with_id(s.take(k), id),
    decreases s.len(),
{
    if k == s.len() {
        assert(s.take(k) =~= s);
    } else {
        assert(s.drop_last().take(k) =~= s.take(k));
        lemma_first_with_id_prefix(s.drop_last(), id, k);
    }
}

pub(crate) proof fn lemma_first_with_id_bound(s: Seq<WirePart>, id: Seq<char>)
    ensures
        first_with_id(s, id) matches Some(i) ==> 0 <= i < s.len() && s[i].id@ == id,
    decreases s.len(),
{
    if s.len() > 0 {
        lemma_first_with_id_bound(s.drop_last(), id);
    }
}

/// `n` is `part` rebuilt over the part `existing` it replaces: it keeps the
/// sub-agent transcript already streamed into `existing` when it brings none
/// of its own, and the out-of-band targets recorded on the previous tool
/// input.
pub open spec fn rebuilt(existing: WirePart, part: WirePart, n: WirePart) -> bool {
    &&& n.id == part.id
    &&& n.kind == part.kind
    &&& n.text == part.text
    &&& n.tool == part.tool
    &&& n.prompt == part.prompt
    &&& n.children == if part.children@.len() == 0 {
        existing.children
    } else {
        part.children
    }
    &&& match (part.state, existing.state) {
        (Some(ps), Some(es)) => match (ps.input, es.input) {
            (Some(pi), Some(ei)) => n.state matches Some(ns) && ns.status == ps.status && ns.output
                == ps.output && ns.error == ps.error && ns.title == ps.title && (ns.input matches Some(
                ni,
            ) && carried(pi, ei, ni)),
            _ => n.state == part.state,
        },
        _ => n.state == part.state,
    }
}

/// The index of the first part with the given id.
pub(crate) fn find_part_index(parts: &Vec<WirePart>, id: &str) -> (r: Option<usize>)
    ensures
        match r {
            Some(i) => first_with_id(parts@, id@) == Some(i as int),
            None => first_with_id(parts@, id@) is None,
        },
{
    let mut i: usize = 0;
    while i < parts.len()
        invariant
            i <= parts@.len(),
            first_with_id(parts@.take(i as int), id@) is None,
        decreases parts@.len() - i,
    {
        let ghost t = parts@.take(i + 1);
        assert(t.drop_last() =~= parts@.take(i as int));
        assert(t.last() == parts@[i as int]);
        if crate::text::str_eq(parts[i].id.as_str(), id) {
            proof {
                lemma_first_with_id_prefix(parts@, id@, i + 1);
            }
            return Some(i);
        }
        i = i + 1;
    }
    assert(parts@.take(i as int) =~= parts@);
    None
}

// ---------------------------------------------------------------------------
// Messages and permission decisions
// ---------------------------------------------------------------------------

/// A chat message as the UI receives it.
pub struct WireMessage {
    pub id: String,
    pub role: String,
    pub parts: Vec<WirePart>,
    pub created_at: i64,
}

/// What the permission bridge answers a harness that asked to use a tool.
pub enum PermissionDecision {
    /// Go ahead, with the (possibly rewritten) tool input.
    Allow { updated_input: Option<JsonValue> },
    /// Refuse, telling the model why.
    Deny { message: String },
}

impl PermissionDecision {
    /// A refusal.
    pub fn deny(message: &str) -> (r: Self)
        ensures
            r matches PermissionDecision::Deny { message: m } && m@ == message@,
    {
        PermissionDecision::Deny { message: owned(message) }
    }
}

/// The refusal of a file edit in plan mode.
pub open spec fn plan_edit_refusal() -> Seq<char> {
    "File edits are blocked in plan mode. Present your plan with the ExitPlanMode tool so the user can approve it before implementation."@
}

/// Whether a decision is the refusal of a file edit in plan mode.
pub open spec fn is_plan_edit_refusal(r: Option<PermissionDecision>) -> bool {
    r matches Some(PermissionDecision::Deny { message }) && message@ == plan_edit_refusal()
}

/// A web research tool.
pub open spec fn is_web_tool(name: Seq<char>) -> bool {
    name == "WebFetch"@ || name == "WebSearch"@
}

/// A file-editing tool.
pub open spec fn is_edit_tool(name: Seq<char>) -> bool {
    name == "Write"@ || name == "Edit"@ || name == "MultiEdit"@ || name == "NotebookEdit"@
}

/// What plan mode decides on its own about a tool call, without a card: a
/// read-only `Bash` command and web research go ahead with their input
/// unchanged; file edits are refused; anything else is the user's call
/// (`None`). `command_readonly` says whether the call's `command` is a
/// string that the read-only command check accepts.
pub fn plan_auto_policy(tool_name: &str, tool_input: JsonValue, command_readonly: bool) -> (r: Option<PermissionDecision>)
    ensures
        tool_name@ == "Bash"@ ==> r == (if command_readonly {
            Some(PermissionDecision::Allow { updated_input: Some(tool_input) })
        } else {
            None
        }),
        tool_name@ != "Bash"@ && is_web_tool(tool_name@) ==> r == Some(
            PermissionDecision::Allow { updated_input: Some(tool_input) },
        ),
        tool_name@ != "Bash"@ && !is_web_tool(tool_name@) && is_edit_tool(tool_name@)
            ==> is_plan_edit_refusal(r),
        tool_name@ != "Bash"@ && !is_web_tool(tool_name@) && !is_edit_tool(tool_name@) ==> r is None,
{
    if str_eq(tool_name, "Bash") {
        return if command_readonly {
            Some(PermissionDecision::Allow { updated_input: Some(tool_input) })
        } else {
            None
        };
    }
    if str_eq(tool_name, "WebFetch") || str_eq(tool_name, "WebSearch") {
        return Some(PermissionDecision::Allow { updated_input: Some(tool_input) });
    }
    if str_eq(tool_name, "Write") || str_eq(tool_name, "Edit") || str_eq(tool_name, "MultiEdit")
        || str_eq(tool_name, "NotebookEdit") {
        return Some(
            PermissionDecision::deny(
                "File edits are blocked in plan mode. Present your plan with the ExitPlanMode tool so the user can approve it before implementation.",
            ),
        );
    }
    None
}

/// The JSON the harness's permission hook expects:
/// `{"behavior":"allow","updatedInput":…}` (no input key when there is
/// none) or `{"behavior":"deny","message":…}`.
pub open spec fn decision_json_ok(d: PermissionDecision, r: JsonValue) -> bool {
    &&& r is Object
    &&& match d {
        PermissionDecision::Allow { updated_input } => {
            &&& member(r, "behavior"@) matches Some(JsonValue::Str(b)) && b@ == "allow"@
            &&& member(r, "updatedInput"@) == updated_input
            &&& member(r, "message"@) is None
        },
        PermissionDecision::Deny { message } => {
            &&& member(r, "behavior"@) matches Some(JsonValue::Str(b)) && b@ == "deny"@
            &&& member(r, "message"@) matches Some(JsonValue::Str(m)) && m@ == message@
            &&& member(r, "updatedInput"@) is None
        },
    }
    &&& forall|k: Seq<char>|
        k != "behavior"@ && k != "updatedInput"@ && k != "message"@ ==> #[trigger] member(r, k) is None
}

/// The JSON of a permission decision.
pub fn permission_decision_json(decision: PermissionDecision) -> (r: JsonValue)
    ensures
        decision_json_ok(decision, r),
{
    proof {
        reveal_strlit("behavior");
        reveal_strlit("updatedInput");
        reveal_strlit("message");
        assert("behavior"@.len() == 8);
        assert("updatedInput"@.len() == 12);
        assert("message"@.len() == 7);
    }
    let ghost d = decision;
    let mut entries: Vec<(String, JsonValue)> = Vec::new();
    assert forall|k: Seq<char>| #[trigger] crate::json::entry_value(entries@, k) is None by {
        assert(crate::json::key_index(entries@, k) is None);
    }
    match decision {
        PermissionDecision::Allow { updated_input } => {
            insert(&mut entries, "behavior", JsonValue::Str(owned("allow")));
            match updated_input {
                Some(v) => insert(&mut entries, "updatedInput", v),
                None => {},
            }
        },
        PermissionDecision::Deny { message } => {
            insert(&mut entries, "behavior", JsonValue::Str(owned("deny")));
            insert(&mut entries, "message", JsonValue::Str(message));
        },
    }
    JsonValue::Object(entries)
}

// ---------------------------------------------------------------------------
// Answering a card
// ---------------------------------------------------------------------------

/// The note an answer made only of selected excerpts is shown with.
pub open spec fn excerpt_only_note() -> Seq<char> {
    "Asked about selected text"@
}

/// Whether an answer to a card is a question answered with excerpts alone:
/// no option chosen and no note written.
pub open spec fn excerpt_only(prompt: WirePrompt, answer: PromptAnswer) -> bool {
    prompt.kind@ == "question"@ && answer.annotations@.len() > 0 && plain_answer_spec(
        answer.answers@,
        answer.note,
    ).len() == 0
}

/// Gives a question answered with excerpts alone a note, so that the
/// answered card shows what was asked; any other answer is left as it is.
pub fn ensure_annotation_answer_display(prompt: &WirePrompt, answer: &mut PromptAnswer)
    ensures
        if excerpt_only(*prompt, *old(answer)) {
            &&& final(answer).note matches Some(n)
            &&& final(answer).note.unwrap()@ == excerpt_only_note()
            &&& final(answer).session_id == old(answer).session_id
            &&& final(answer).prompt_id == old(answer).prompt_id
            &&& final(answer).approve == old(answer).approve
            &&& final(answer).resume_mode == old(answer).resume_mode
            &&& final(answer).answers == old(answer).answers
            &&& final(answer).annotations == old(answer).annotations
        } else {
            *final(answer) == *old(answer)
        },
{
    if str_eq(prompt.kind.as_str(), "question") && answer.annotations.len() > 0 {
        let plain = answer.plain_answer_text();
        if plain.as_str().is_empty() {
            answer.note = Some(owned("Asked about selected text"));
        }
    }
}

/// The index of the first part with id `id` that carries a card.
pub open spec fn first_card(parts: Seq<WirePart>, id: Seq<char>) -> Option<int>
    decreases parts.len(),
{
    if parts.len() == 0 {
        None
    } else {
        match first_card(parts.drop_last(), id) {
            Some(i) => Some(i),
            None => if parts.last().id@ == id && parts.last().prompt is Some {
                Some(parts.len() - 1)
            } else {
                None
            },
        }
    }
}

proof fn lemma_first_card_prefix(s: Seq<WirePart>, id: Seq<char>, k: int)
    requires
        0 <= k <= s.len(),
        first_card(s.take(k), id) is Some,
    ensures
        first_card(s, id) == first_card(s.take(k), id),
    decreases s.len(),
{
    if k == s.len() {
        assert(s.take(k) =~= s);
    } else {
        assert(s.drop_last().take(k) =~= s.take(k));
        lemma_first_card_prefix(s.drop_last(), id, k);
    }
}

proof fn lemma_first_card_is(s: Seq<WirePart>, id: Seq<char>, i: int)
    requires
        first_card(s, id) == Some(i),
    ensures
        0 <= i < s.len(),
        s[i].id@ == id,
        s[i].prompt is Some,
    decreases s.len(),
{
    if first_card(s.drop_last(), id) is Some {
        lemma_first_card_is(s.drop_last(), id, i);
    }
}

/// The first part with id `id` that carries a card.
fn find_card(parts: &Vec<WirePart>, id: &str) -> (r: Option<usize>)
    ensures
        match r {
            Some(i) => first_card(parts@, id@) == Some(i as int),
            None => first_card(parts@, id@) is None,
        },
{
    let mut i: usize = 0;
    while i < parts.len()
        invariant
            i <= parts@.len(),
            first_card(parts@.take(i as int), id@) is None,
        decreases parts@.len() - i,
    {
        let ghost t = parts@.take(i + 1);
        assert(t.drop_last() =~= parts@.take(i as int));
        assert(t.last() == parts@[i as int]);
        if str_eq(parts[i].id.as_str(), id) && parts[i].prompt.is_some() {
            proof {
                lemma_first_card_prefix(parts@, id@, i + 1);
            }
            return Some(i);
        }
        i = i + 1;
    }
    assert(parts@.take(i as int) =~= parts@);
    None
}

/// What answering a card in a message did.
#[derive(PartialEq, Eq, Structural, Clone, Copy, Debug)]
pub enum CardResolution {
    /// No part of the message carries the card.
    Missing,
    /// The card was already resolved and there was no answer to stamp.
    Unchanged,
    /// The card is resolved now, with the answer's echo.
    Resolved,
}

/// `n` is the part `o` whose card was resolved with `answer`: nothing else
/// of the part changes.
pub open spec fn card_resolved(o: WirePart, n: WirePart, answer: Option<PromptAnswer>) -> bool {
    &&& n.id == o.id
    &&& n.kind == o.kind
    &&& n.text == o.text
    &&& n.tool == o.tool
    &&& n.state == o.state
    &&& n.children == o.children
    &&& n.prompt matches Some(q)
    &&& stamped(o.prompt.unwrap(), n.prompt.unwrap(), answer)
}

/// Resolves the card with id `prompt_id` among a message's parts and stamps
/// the answer's echo on it. A card that is already resolved is left alone
/// when there is no answer to stamp, so that a repeated clean-up changes
/// nothing.
pub fn resolve_prompt_card(parts: &mut Vec<WirePart>, prompt_id: &str, answer: Option<&PromptAnswer>) -> (r: CardResolution)
    ensures
        match first_card(old(parts)@, prompt_id@) {
            None => r == CardResolution::Missing && final(parts)@ == old(parts)@,
            Some(i) => if old(parts)@[i].prompt.unwrap().resolved && answer is None {
                r == CardResolution::Unchanged && final(parts)@ == old(parts)@
            } else {
                &&& r == CardResolution::Resolved
                &&& final(parts)@.len() == old(parts)@.len()
                &&& forall|j: int| 0 <= j < old(parts)@.len() && j != i ==> final(parts)@[j] == old(parts)@[j]
                &&& card_resolved(
                    old(parts)@[i],
                    final(parts)@[i],
                    match answer {
                        Some(a) => Some(*a),
                        None => None,
                    },
                )
            },
        },
{
    let i = match find_card(parts, prompt_id) {
        Some(i) => i,
        None => {
            return CardResolution::Missing;
        },
    };
    proof {
        lemma_first_card_is(parts@, prompt_id@, i as int);
    }
    let already = match &parts[i].prompt {
        Some(q) => q.resolved,
        None => false,
    };
    if already && answer.is_none() {
        return CardResolution::Unchanged;
    }
    let ghost before = parts@;
    let mut part = parts.remove(i);
    let mut prompt = match part.prompt {
        Some(q) => q,
        None => {
            return CardResolution::Missing;
        },
    };
    stamp_resolved(&mut prompt, answer);
    part.prompt = Some(prompt);
    parts.insert(i, part);
    proof {
        assert forall|j: int| 0 <= j < before.len() && j != i implies parts@[j] == before[j] by {
            if j < i {
                assert(parts@[j] == before.remove(i as int)[j]);
            } else {
                assert(parts@[j] == before.remove(i as int)[j - 1]);
            }
        }
    }
    CardResolution::Resolved
}

/// Lists whose parts have the same ids and carry cards at the same places
/// have their first card with an id at the same place.
proof fn lemma_first_card_same_shape(o: Seq<WirePart>, n: Seq<WirePart>, id: Seq<char>)
    requires
        o.len() == n.len(),
        forall|j: int| 0 <= j < o.len() ==> (#[trigger] n[j]).id == o[j].id && (n[j].prompt is Some) == (o[j].prompt is Some),
    ensures
        first_card(n, id) == first_card(o, id),
    decreases o.len(),
{
    if o.len() > 0 {
        assert forall|j: int| 0 <= j < o.len() - 1 implies (#[trigger] n.drop_last()[j]).id == o.drop_last()[j].id
            && (n.drop_last()[j].prompt is Some) == (o.drop_last()[j].prompt is Some) by {
            assert(n.drop_last()[j] == n[j]);
            assert(o.drop_last()[j] == o[j]);
        }
        lemma_first_card_same_shape(o.drop_last(), n.drop_last(), id);
        assert(n.last() == n[n.len() - 1]);
        assert(o.last() == o[o.len() - 1]);
    }
}

/// Once a card is answered, looking for it again finds the same card,
/// resolved: a later clean-up without an answer leaves it alone, and a
/// repeated answer only re-stamps its echo.
pub proof fn law_an_answered_card_is_found_resolved(
    o: Seq<WirePart>,
    n: Seq<WirePart>,
    id: Seq<char>,
    answer: Option<PromptAnswer>,
)
    requires
        first_card(o, id) is Some,
        n.len() == o.len(),
        forall|j: int| 0 <= j < o.len() && j != first_card(o, id).unwrap() ==> n[j] == o[j],
        card_resolved(o[first_card(o, id).unwrap()], n[first_card(o, id).unwrap()], answer),
    ensures
        first_card(n, id) == first_card(o, id),
        n[first_card(o, id).unwrap()].prompt.unwrap().resolved,
{
    let i = first_card(o, id).unwrap();
    lemma_first_card_is(o, id, i);
    assert forall|j: int| 0 <= j < o.len() implies (#[trigger] n[j]).id == o[j].id && (n[j].prompt is Some) == (
    o[j].prompt is Some) by {
        if j != i {
            assert(n[j] == o[j]);
        }
    }
    lemma_first_card_same_shape(o, n, id);
}

// ---------------------------------------------------------------------------
// When a streaming turn is flushed
// ---------------------------------------------------------------------------

/// The least time between two mid-turn flushes, in milliseconds.
pub const FLUSH_INTERVAL_MS: u64 = 75;

/// Whether two tool state signatures are the same.
fn same_signature(a: &Vec<(String, String)>, b: &Vec<(String, String)>) -> (r: bool)
    ensures
        r == (pair_views(a@) == pair_views(b@)),
{
    if a.len() != b.len() {
        proof {
            if pair_views(a@) == pair_views(b@) {
                assert(pair_views(a@).len() == a@.len());
            }
        }
        return false;
    }
    let mut i: usize = 0;
    while i < a.len()
        invariant
            i <= a@.len(),
            a@.len() == b@.len(),
            forall|k: int| 0 <= k < i ==> (#[trigger] pair_views(a@)[k]) == pair_views(b@)[k],
        decreases a@.len() - i,
    {
        assert(pair_views(a@)[i as int] == (a@[i as int].0@, a@[i as int].1@));
        assert(pair_views(b@)[i as int] == (b@[i as int].0@, b@[i as int].1@));
        if !str_eq(a[i].0.as_str(), b[i].0.as_str()) || !str_eq(a[i].1.as_str(), b[i].1.as_str()) {
            return false;
        }
        i = i + 1;
    }
    assert(pair_views(a@) =~= pair_views(b@));
    true
}

/// Whether a streaming turn flushes now: its tool states changed to a set
/// neither flushed nor already tried, or the flush interval has passed.
/// (The final flush of a turn happens regardless.)
pub fn flush_due(
    current: &Vec<(String, String)>,
    last_flushed: &Vec<(String, String)>,
    last_attempted: &Vec<(String, String)>,
    since_last_flush_ms: u64,
) -> (r: bool)
    ensures
        r == ((pair_views(current@) != pair_views(last_flushed@) && pair_views(current@) != pair_views(
            last_attempted@,
        )) || since_last_flush_ms >= FLUSH_INTERVAL_MS),
{
    let changed = !same_signature(current, last_flushed) && !same_signature(current, last_attempted);
    changed || since_last_flush_ms >= FLUSH_INTERVAL_MS
}

// ---------------------------------------------------------------------------
// Adopting resolutions persisted by a concurrent answer
// ---------------------------------------------------------------------------

/// The card the persisted copy of a message holds for part `id`: that of
/// its first part with the id.
pub open spec fn stored_card(persisted: Seq<WirePart>, id: Seq<char>) -> Option<WirePrompt> {
    match first_with_id(persisted, id) {
        Some(i) => persisted[i].prompt,
        None => None,
    }
}

/// A card carries no answer echo.
pub open spec fn echo_empty(q: WirePrompt) -> bool {
    q.answers@.len() == 0 && q.approved is None && q.note is None && q.annotations@.len() == 0
}

/// `n` is the in-memory part `o` after adopting the persisted resolution of
/// its card: when the persisted card is resolved, the card becomes
/// resolved and, when it has no echo yet, takes the persisted echo; the
/// question itself and everything else stay.
pub open spec fn adopted(o: WirePart, n: WirePart, persisted: Seq<WirePart>) -> bool {
    &&& n.id == o.id
    &&& n.kind == o.kind
    &&& n.text == o.text
    &&& n.tool == o.tool
    &&& n.state == o.state
    &&& n.children == o.children
    &&& match (o.prompt, stored_card(persisted, o.id@)) {
        (Some(q), Some(sq)) => if sq.resolved {
            &&& n.prompt matches Some(nq)
            &&& n.prompt.unwrap().resolved
            &&& same_card(q, n.prompt.unwrap())
            &&& if echo_empty(q) {
                same_echo(n.prompt.unwrap(), sq)
            } else {
                same_echo(n.prompt.unwrap(), q)
            }
        } else {
            n.prompt == o.prompt
        },
        _ => n.prompt == o.prompt,
    }
}

/// Adopts one part's persisted resolution.
fn adopt_part(p: WirePart, persisted: &Vec<WirePart>) -> (r: WirePart)
    ensures
        adopted(p, r, persisted@),
{
    let WirePart { id, kind, text, tool, state, prompt, children } = p;
    let q = match prompt {
        Some(q) => q,
        None => {
            return WirePart { id, kind, text, tool, state, prompt: None, children };
        },
    };
    let idx = match find_part_index(persisted, id.as_str()) {
        Some(i) => i,
        None => {
            return WirePart { id, kind, text, tool, state, prompt: Some(q), children };
        },
    };
    proof {
        lemma_first_with_id_bound(persisted@, id@);
    }
    let sq = match &persisted[idx].prompt {
        Some(sq) => sq,
        None => {
            return WirePart { id, kind, text, tool, state, prompt: Some(q), children };
        },
    };
    if !sq.resolved {
        return WirePart { id, kind, text, tool, state, prompt: Some(q), children };
    }
    let mut q = q;
    q.resolved = true;
    if q.answers.len() == 0 && q.approved.is_none() && q.note.is_none() && q.annotations.len() == 0 {
        q.answers = clone_strings(&sq.answers);
        q.approved = sq.approved;
        q.note = match &sq.note {
            Some(n) => Some(n.clone()),
            None => None,
        };
        q.annotations = clone_annotations(&sq.annotations);
    }
    WirePart { id, kind, text, tool, state, prompt: Some(q), children }
}

/// Every part of `n` is the part of `o` at the same place, with its
/// persisted resolution adopted.
pub open spec fn all_adopted(o: Seq<WirePart>, n: Seq<WirePart>, persisted: Seq<WirePart>) -> bool {
    o.len() == n.len() && forall|i: int| 0 <= i < o.len() ==> adopted(#[trigger] o[i], n[i], persisted)
}

/// Merges into the in-memory parts of a message the resolutions a
/// concurrent answer persisted, so that the turn's next flush does not
/// undo them: a card only ever becomes resolved and only an empty echo is
/// filled, never the reverse.
pub fn adopt_resolved_prompts(parts: &mut Vec<WirePart>, persisted: &Vec<WirePart>)
    ensures
        all_adopted(old(parts)@, final(parts)@, persisted@),
{
    let mut taken: Vec<WirePart> = Vec::new();
    std::mem::swap(&mut taken, parts);
    let ghost orig = taken@;
    let mut out: Vec<WirePart> = Vec::new();
    let mut rest = taken;
    let mut k: usize = 0;
    let n = rest.len();
    while rest.len() > 0
        invariant
            n == orig.len(),
            k + rest@.len() == n,
            rest@ == orig.skip(k as int),
            out@.len() == k,
            forall|i: int| 0 <= i < k ==> adopted(#[trigger] orig[i], out@[i], persisted@),
        decreases rest@.len(),
    {
        let ghost idx = k as int;
        let x = rest.remove(0);
        assert(x == orig[idx]);
        assert(rest@ =~= orig.skip(idx + 1));
        let y = adopt_part(x, persisted);
        out.push(y);
        k = k + 1;
    }
    *parts = out;
}

/// Adopting persisted resolutions never takes one back: a resolved card
/// stays resolved, and an echo the in-memory card already carries is kept.
pub proof fn law_adoption_never_unresolves(o: WirePart, n: WirePart, persisted: Seq<WirePart>)
    requires
        adopted(o, n, persisted),
    ensures
        o.prompt matches Some(q) ==> (n.prompt matches Some(nq) && nq.resolved == (q.resolved || (stored_card(
            persisted,
            o.id@,
        ) matches Some(sq) && sq.resolved))),
        o.prompt matches Some(q) ==> (!echo_empty(q) ==> same_echo(n.prompt.unwrap(), q)),
        o.prompt is None ==> n.prompt is None,
{
}

/// Whether the target keys of the part being replaced cannot be carried.
pub open spec fn upsert_blocked(parts: Seq<WirePart>, part: WirePart) -> bool {
    match first_with_id(parts, part.id@) {
        Some(i) => match (part.state, parts[i].state) {
            (Some(ps), Some(es)) => match (ps.input, es.input) {
                (Some(pi), Some(ei)) => carry_blocked(pi, ei),
                _ => false,
            },
            _ => false,
        },
        None => false,
    }
}

/// `n` is `o` with `part` in place of the first part with its id (see
/// [`rebuilt`]), or with `part` appended when there is none.
pub open spec fn upserted(o: Seq<WirePart>, part: WirePart, n: Seq<WirePart>) -> bool {
    match first_with_id(o, part.id@) {
        None => n == o.push(part),
        Some(i) => {
            &&& n.len() == o.len()
            &&& forall|j: int| 0 <= j < o.len() && j != i ==> n[j] == o[j]
            &&& rebuilt(o[i], part, n[i])
        },
    }
}

/// Replaces the part with the same id, keeping its sub-agent transcript and
/// out-of-band targets (see [`rebuilt`]), or appends the part.
pub fn upsert_preserving_children(parts: &mut Vec<WirePart>, part: WirePart)
    requires
        !upsert_blocked(old(parts)@, part),
    ensures
        upserted(old(parts)@, part, final(parts)@),
{
    let i = match find_part_index(parts, part.id.as_str()) {
        Some(i) => i,
        None => {
            parts.push(part);
            return ;
        },
    };
    proof {
        lemma_first_with_id_bound(parts@, part.id@);
    }
    let existing = parts.remove(i);
    let WirePart { id, kind, text, tool, state, prompt, children } = part;
    let WirePart { children: ex_children, state: ex_state, .. } = existing;
    let children = if children.len() == 0 {
        ex_children
    } else {
        children
    };
    let state = match state {
        Some(ps) => match ex_state {
            Some(es) => {
                let WireToolState { status, input, output, error, title } = ps;
                match input {
                    Some(pi) => match es.input {
                        Some(ei) => Some(
                            WireToolState {
                                status,
                                input: Some(carry_targets(pi, ei)),
                                output,
                                error,
                                title,
                            },
                        ),
                        None => Some(WireToolState { status, input: Some(pi), output, error, title }),
                    },
                    None => Some(WireToolState { status, input: None, output, error, title }),
                }
            },
            None => Some(ps),
        },
        None => None,
    };
    parts.insert(i, WirePart { id, kind, text, tool, state, prompt, children });
}

} // verus!
