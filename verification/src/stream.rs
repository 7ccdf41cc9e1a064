//! How a running turn streams into its assistant message: parts are upserted
//! by id, text deltas are appended, a sub-agent's transcript is hung under
//! the part that spawned it (found depth-first), errors are appended as rows
//! of their own, and any new activity drops the retry status row.

use vstd::prelude::*;

use crate::text::{decimal, ends_with, is_suffix, owned, push_decimal, push_str, str_eq};
use crate::transcript::{
    find_part_index, first_with_id, lemma_children_decrease, lemma_first_with_id_bound,
    upsert_blocked, upsert_preserving_children, upserted, WirePart,
};
use crate::turns::{drop_id, without_id};

verus! {

/// The id of the row that shows a retry in progress.
pub open spec fn retry_row_id() -> Seq<char> {
    "turn-retry"@
}

/// The characters of an optional text; empty when there is none.
pub open spec fn text_or_empty(t: Option<String>) -> Seq<char> {
    match t {
        Some(s) => s@,
        None => Seq::empty(),
    }
}

/// `n` is `o` with `delta` appended to its text (a part without text gets
/// `delta` as its text); nothing else changes.
pub open spec fn text_appended(o: WirePart, n: WirePart, delta: Seq<char>) -> bool {
    &&& n.id == o.id
    &&& n.kind == o.kind
    &&& n.tool == o.tool
    &&& n.state == o.state
    &&& n.prompt == o.prompt
    &&& n.children == o.children
    &&& n.text matches Some(t) && t@ == text_or_empty(o.text) + delta
}

/// `n` is `o` with `delta` appended to the text of the first part with id
/// `id`; `o` itself when there is none.
pub open spec fn appended_to(o: Seq<WirePart>, id: Seq<char>, delta: Seq<char>, n: Seq<WirePart>) -> bool {
    match first_with_id(o, id) {
        None => n == o,
        Some(i) => {
            &&& n.len() == o.len()
            &&& forall|j: int| 0 <= j < o.len() && j != i ==> n[j] == o[j]
            &&& text_appended(o[i], n[i], delta)
        },
    }
}

/// Appends `delta` to the text of the part at `i`.
fn append_text_at(parts: &mut Vec<WirePart>, i: usize, delta: &str)
    requires
        i < old(parts)@.len(),
    ensures
        final(parts)@.len() == old(parts)@.len(),
        forall|j: int| 0 <= j < old(parts)@.len() && j != i ==> final(parts)@[j] == old(parts)@[j],
        text_appended(old(parts)@[i as int], final(parts)@[i as int], delta@),
{
    let ghost before = parts@;
    let p = parts.remove(i);
    let WirePart { id, kind, text, tool, state, prompt, children } = p;
    let mut t = match text {
        Some(t) => t,
        None => String::new(),
    };
    push_str(&mut t, delta);
    parts.insert(i, WirePart { id, kind, text: Some(t), tool, state, prompt, children });
    assert forall|j: int| 0 <= j < before.len() && j != i implies parts@[j] == before[j] by {
        if j < i {
            assert(parts@[j] == before.remove(i as int)[j]);
        } else {
            assert(parts@[j] == before.remove(i as int)[j - 1]);
        }
    }
}

/// Drops the retry status row, as any new activity of the turn does; says
/// whether there was one.
pub fn clear_retry_status(parts: &mut Vec<WirePart>) -> (removed: bool)
    ensures
        final(parts)@ == without_id(old(parts)@, retry_row_id()),
        removed == (first_with_id(old(parts)@, retry_row_id()) is Some),
{
    let removed = find_part_index(parts, "turn-retry").is_some();
    let mut taken: Vec<WirePart> = Vec::new();
    std::mem::swap(&mut taken, parts);
    *parts = drop_id(taken, "turn-retry");
    removed
}

/// Appends streamed text to the top-level part `part_id`, after dropping the
/// retry status row; nothing else happens when there is no such part.
pub fn append_part_text(parts: &mut Vec<WirePart>, part_id: &str, delta: &str)
    ensures
        appended_to(without_id(old(parts)@, retry_row_id()), part_id@, delta@, final(parts)@),
{
    clear_retry_status(parts);
    match find_part_index(parts, part_id) {
        Some(i) => {
            proof {
                lemma_first_with_id_bound(parts@, part_id@);
            }
            append_text_at(parts, i, delta);
        },
        None => {},
    }
}

/// Inserts or replaces a part by id, in arrival order, after dropping the
/// retry status row (see [`upserted`]).
pub fn upsert_part(parts: &mut Vec<WirePart>, part: WirePart)
    requires
        !upsert_blocked(without_id(old(parts)@, retry_row_id()), part),
    ensures
        upserted(without_id(old(parts)@, retry_row_id()), part, final(parts)@),
{
    clear_retry_status(parts);
    upsert_preserving_children(parts, part);
}

/// Re-upserts a part and keeps a sub-agent transcript that streamed into it
/// when it brings none of its own; the same operation as [`upsert_part`].
pub fn upsert_part_preserving_children(parts: &mut Vec<WirePart>, part: WirePart)
    requires
        !upsert_blocked(without_id(old(parts)@, retry_row_id()), part),
    ensures
        upserted(without_id(old(parts)@, retry_row_id()), part, final(parts)@),
{
    upsert_part(parts, part);
}

/// `p` is a fresh part of kind `kind` with id `id` whose text is `text`.
pub open spec fn fresh_text_part(p: WirePart, id: Seq<char>, kind: Seq<char>, text: Seq<char>) -> bool {
    &&& p.id@ == id
    &&& p.kind@ == kind
    &&& p.text matches Some(t) && t@ == text
    &&& p.tool is None
    &&& p.state is None
    &&& p.prompt is None
    &&& p.children@.len() == 0
}

/// `n` is `o` without the retry row and with `delta` streamed into the
/// part `id`, which is opened as a part of kind `kind` on its first delta.
pub open spec fn delta_streamed(o: Seq<WirePart>, id: Seq<char>, kind: Seq<char>, delta: Seq<char>, n: Seq<WirePart>) -> bool {
    let kept = without_id(o, retry_row_id());
    match first_with_id(kept, id) {
        Some(_) => appended_to(kept, id, delta, n),
        None => {
            &&& n.len() == kept.len() + 1
            &&& n.drop_last() == kept
            &&& fresh_text_part(n.last(), id, kind, delta)
        },
    }
}

/// Streams a text delta into the part `id`, opening it as an empty part of
/// kind `kind` on the first delta, after dropping the retry row.
pub fn stream_delta(parts: &mut Vec<WirePart>, id: &str, kind: &str, delta: &str)
    requires
        id@ != retry_row_id(),
    ensures
        delta_streamed(old(parts)@, id@, kind@, delta@, final(parts)@),
{
    clear_retry_status(parts);
    match find_part_index(parts, id) {
        Some(i) => {
            proof {
                lemma_first_with_id_bound(parts@, id@);
            }
            append_text_at(parts, i, delta);
        },
        None => {
            let ghost kept = parts@;
            parts.push(
                WirePart {
                    id: owned(id),
                    kind: owned(kind),
                    text: Some(owned(delta)),
                    tool: None,
                    state: None,
                    prompt: None,
                    children: Vec::new(),
                },
            );
            assert(parts@.drop_last() =~= kept);
        },
    }
}

/// Who retries a failed turn: the owner recorded while it retried, else
/// the harness itself (`native`) for a failure kind ending in `_terminal`,
/// else `orx`.
pub open spec fn retry_owner_spec(recorded: Option<Seq<char>>, kind: Seq<char>) -> Seq<char> {
    match recorded {
        Some(o) => o,
        None => if is_suffix("_terminal"@, kind) {
            "native"@
        } else {
            "orx"@
        },
    }
}

/// The owner a failed turn's retry is reported under.
pub fn retry_owner(recorded: Option<&str>, kind: &str) -> (r: String)
    ensures
        r@ == retry_owner_spec(
            match recorded {
                Some(o) => Some(o@),
                None => None,
            },
            kind@,
        ),
{
    match recorded {
        Some(o) => owned(o),
        None => if ends_with(kind, "_terminal") {
            owned("native")
        } else {
            owned("orx")
        },
    }
}

/// The error row appended as the `n`-th part: a tool row `err-<n>` of the
/// `error` tool, in state `error`, carrying the message.
pub open spec fn is_error_row(p: WirePart, n: nat, message: Seq<char>) -> bool {
    &&& p.id@ == "err-"@ + decimal(n)
    &&& p.kind@ == "tool"@
    &&& p.text is None
    &&& p.tool matches Some(t) && t@ == "error"@
    &&& p.state is Some
    &&& p.state.unwrap().status@ == "error"@
    &&& p.state.unwrap().error matches Some(m) && m@ == message
    &&& p.state.unwrap().input is None
    &&& p.state.unwrap().output is None
    &&& p.state.unwrap().title is None
    &&& p.prompt is None
    &&& p.children@.len() == 0
}

/// Appends an error row for `message`, numbered by the parts before it.
pub fn push_error(parts: &mut Vec<WirePart>, message: String)
    ensures
        final(parts)@.len() == old(parts)@.len() + 1,
        final(parts)@.drop_last() == old(parts)@,
        is_error_row(final(parts)@.last(), old(parts)@.len(), message@),
{
    let ghost m = message@;
    let mut id = owned("err-");
    push_decimal(&mut id, parts.len() as u64);
    let row = WirePart::tool(id.as_str(), "error", "error", Some(message));
    parts.push(row);
    assert(parts@.drop_last() =~= old(parts)@);
}


// ---------------------------------------------------------------------------
// Sub-agent transcripts
// ---------------------------------------------------------------------------

/// A list is larger than its first element and than the rest.
pub proof fn lemma_front_decreases(s: Seq<WirePart>)
    requires
        s.len() > 0,
    ensures
        decreases_to!(s => s[0]),
        decreases_to!(s => s.skip(1)),
{
    assert(decreases_to!(s => s[0]));
    assert(s.skip(1) =~= s.subrange(1, s.len() as int));
    assert(decreases_to!(s => s.subrange(1, s.len() as int)));
}

/// The first part with id `id` in `p` or its descendants, depth-first: a
/// part comes before the parts of its sub-agent, and those before its later
/// siblings.
pub open spec fn found_in(p: WirePart, id: Seq<char>) -> Option<WirePart>
    decreases p, 1int,
{
    if p.id@ == id {
        Some(p)
    } else {
        proof {
            lemma_children_decrease(p);
        }
        found_among(p.children@, id)
    }
}

/// The first part with id `id` among the parts and their descendants,
/// depth-first.
pub open spec fn found_among(parts: Seq<WirePart>, id: Seq<char>) -> Option<WirePart>
    decreases parts, 0int,
{
    if parts.len() == 0 {
        None
    } else {
        proof {
            lemma_front_decreases(parts);
        }
        match found_in(parts[0], id) {
            Some(q) => Some(q),
            None => found_among(parts.skip(1), id),
        }
    }
}

/// What is done to the children of the part a sub-agent event is addressed
/// to.
pub enum ChildEdit {
    /// Upsert a part among the children (see [`upserted`]).
    Upsert { part: WirePart },
    /// Append streamed text to the child `child_id`, which is first created
    /// as `make` when there is none yet.
    AppendText { child_id: String, delta: String, make: WirePart },
}

/// A [`ChildEdit`] as contracts speak of it.
pub enum EditSpec {
    Upsert(WirePart),
    AppendText(Seq<char>, Seq<char>, WirePart),
}

impl ChildEdit {
    /// The edit as contracts speak of it.
    pub open spec fn spec_edit(self) -> EditSpec {
        match self {
            ChildEdit::Upsert { part } => EditSpec::Upsert(part),
            ChildEdit::AppendText { child_id, delta, make } => EditSpec::AppendText(
                child_id@,
                delta@,
                make,
            ),
        }
    }
}

/// The edit can be made on this parent.
pub open spec fn child_edit_allowed(e: EditSpec, parent: WirePart) -> bool {
    match e {
        EditSpec::Upsert(part) => !upsert_blocked(parent.children@, part),
        EditSpec::AppendText(..) => true,
    }
}

/// `n` is the children `o` with `delta` appended to the text of the child
/// `child_id`, which is first appended as `make` when there is none.
pub open spec fn with_child_text(
    o: Seq<WirePart>,
    child_id: Seq<char>,
    delta: Seq<char>,
    make: WirePart,
    n: Seq<WirePart>,
) -> bool {
    let base = if first_with_id(o, child_id) is None {
        o.push(make)
    } else {
        o
    };
    appended_to(base, child_id, delta, n)
}

/// `n` is `o` but for its children.
pub open spec fn same_but_children(o: WirePart, n: WirePart) -> bool {
    &&& n.id == o.id
    &&& n.kind == o.kind
    &&& n.text == o.text
    &&& n.tool == o.tool
    &&& n.state == o.state
    &&& n.prompt == o.prompt
}

/// `n` is the parent `o` with the edit made on its children.
pub open spec fn child_edit_done(e: EditSpec, o: WirePart, n: WirePart) -> bool {
    &&& same_but_children(o, n)
    &&& match e {
        EditSpec::Upsert(part) => upserted(o.children@, part, n.children@),
        EditSpec::AppendText(child_id, delta, make) => with_child_text(
            o.children@,
            child_id,
            delta,
            make,
            n.children@,
        ),
    }
}

/// `n` is `o` with the edit made on the first part with id `id` (see
/// [`found_in`]); nothing else changes.
pub open spec fn edited_in(o: WirePart, n: WirePart, id: Seq<char>, e: EditSpec) -> bool
    decreases o, 1int,
{
    if o.id@ == id {
        child_edit_done(e, o, n)
    } else {
        proof {
            lemma_children_decrease(o);
        }
        same_but_children(o, n) && edited_among(o.children@, n.children@, id, e)
    }
}

/// `n` is `o` with the edit made on the first part with id `id` among the
/// parts and their descendants; nothing else changes.
pub open spec fn edited_among(o: Seq<WirePart>, n: Seq<WirePart>, id: Seq<char>, e: EditSpec) -> bool
    decreases o, 0int,
{
    if o.len() == 0 {
        n.len() == 0
    } else {
        proof {
            lemma_front_decreases(o);
        }
        n.len() == o.len() && if found_in(o[0], id) is Some {
            edited_in(o[0], n[0], id, e) && n.skip(1) == o.skip(1)
        } else {
            n[0] == o[0] && edited_among(o.skip(1), n.skip(1), id, e)
        }
    }
}

/// The first of the parts that holds `id` in itself or a descendant.
fn first_holding(parts: &Vec<WirePart>, id: &str) -> (r: Option<usize>)
    ensures
        match r {
            Some(k) => {
                &&& k < parts@.len()
                &&& found_in(parts@[k as int], id@) is Some
                &&& forall|j: int| 0 <= j < k ==> found_in(#[trigger] parts@[j], id@) is None
                &&& found_among(parts@, id@) == found_in(parts@[k as int], id@)
            },
            None => found_among(parts@, id@) is None,
        },
    decreases parts@, 0int,
{
    let mut i: usize = 0;
    assert(parts@.skip(0) =~= parts@);
    while i < parts.len()
        invariant
            i <= parts@.len(),
            found_among(parts@, id@) == found_among(parts@.skip(i as int), id@),
            forall|j: int| 0 <= j < i ==> found_in(#[trigger] parts@[j], id@) is None,
        decreases parts@.len() - i,
    {
        let ghost s = parts@.skip(i as int);
        assert(s[0] == parts@[i as int]);
        assert(s.skip(1) =~= parts@.skip(i + 1));
        proof {
            assert(decreases_to!(parts@ => parts@[i as int]));
        }
        if part_holds(&parts[i], id) {
            proof {
                lemma_found_at(parts@, i as int, id@);
            }
            return Some(i);
        }
        i = i + 1;
    }
    None
}

/// Whether `p` or one of its descendants has id `id`.
fn part_holds(p: &WirePart, id: &str) -> (r: bool)
    ensures
        r == (found_in(*p, id@) is Some),
    decreases *p, 1int,
{
    if str_eq(p.id.as_str(), id) {
        return true;
    }
    proof {
        lemma_children_decrease(*p);
    }
    first_holding(&p.children, id).is_some()
}

/// When the part at `k` is the first to hold `id`, the search finds it
/// there.
proof fn lemma_found_at(o: Seq<WirePart>, k: int, id: Seq<char>)
    requires
        0 <= k < o.len(),
        found_in(o[k], id) is Some,
        forall|j: int| 0 <= j < k ==> found_in(#[trigger] o[j], id) is None,
    ensures
        found_among(o, id) == found_in(o[k], id),
    decreases k,
{
    if k > 0 {
        let r = o.skip(1);
        assert(found_in(o[0], id) is None);
        assert forall|j: int| 0 <= j < k - 1 implies found_in(#[trigger] r[j], id) is None by {
            assert(r[j] == o[j + 1]);
        }
        assert(r[k - 1] == o[k]);
        lemma_found_at(r, k - 1, id);
    }
}

/// Editing the first part that holds `id` edits the list.
proof fn lemma_edit_at(o: Seq<WirePart>, k: int, id: Seq<char>, e: EditSpec, x: WirePart)
    requires
        0 <= k < o.len(),
        found_in(o[k], id) is Some,
        forall|j: int| 0 <= j < k ==> found_in(#[trigger] o[j], id) is None,
        edited_in(o[k], x, id, e),
    ensures
        edited_among(o, o.update(k, x), id, e),
    decreases k,
{
    let n = o.update(k, x);
    if k == 0 {
        assert(n.skip(1) =~= o.skip(1));
    } else {
        let r = o.skip(1);
        assert(found_in(o[0], id) is None);
        assert forall|j: int| 0 <= j < k - 1 implies found_in(#[trigger] r[j], id) is None by {
            assert(r[j] == o[j + 1]);
        }
        assert(r[k - 1] == o[k]);
        lemma_edit_at(r, k - 1, id, e, x);
        assert(n.skip(1) =~= r.update(k - 1, x));
        assert(n[0] == o[0]);
    }
}

/// Makes the edit on the children of a parent.
fn apply_child_edit(p: WirePart, e: ChildEdit) -> (n: WirePart)
    requires
        child_edit_allowed(e.spec_edit(), p),
    ensures
        child_edit_done(e.spec_edit(), p, n),
{
    let WirePart { id, kind, text, tool, state, prompt, children } = p;
    let mut children = children;
    match e {
        ChildEdit::Upsert { part } => {
            upsert_preserving_children(&mut children, part);
        },
        ChildEdit::AppendText { child_id, delta, make } => {
            add_child_text(&mut children, child_id.as_str(), delta.as_str(), make);
        },
    }
    WirePart { id, kind, text, tool, state, prompt, children }
}

/// Appends streamed text to a child, creating it first when needed.
fn add_child_text(children: &mut Vec<WirePart>, child_id: &str, delta: &str, make: WirePart)
    ensures
        with_child_text(old(children)@, child_id@, delta@, make, final(children)@),
{
    if find_part_index(children, child_id).is_none() {
        children.push(make);
    }
    match find_part_index(children, child_id) {
        Some(i) => {
            proof {
                lemma_first_with_id_bound(children@, child_id@);
            }
            append_text_at(children, i, delta);
        },
        None => {},
    }
}

/// Makes the edit on the first part with id `id` in `p` or its descendants.
fn edit_part(p: WirePart, id: &str, e: ChildEdit) -> (n: WirePart)
    requires
        found_in(p, id@) matches Some(q) && child_edit_allowed(e.spec_edit(), q),
    ensures
        edited_in(p, n, id@, e.spec_edit()),
    decreases p, 1int,
{
    if str_eq(p.id.as_str(), id) {
        return apply_child_edit(p, e);
    }
    proof {
        lemma_children_decrease(p);
    }
    let WirePart { id: pid, kind, text, tool, state, prompt, children } = p;
    let children = edit_parts(children, id, e);
    WirePart { id: pid, kind, text, tool, state, prompt, children }
}

/// Makes the edit on the first part with id `id` among the parts and their
/// descendants.
fn edit_parts(parts: Vec<WirePart>, id: &str, e: ChildEdit) -> (n: Vec<WirePart>)
    requires
        found_among(parts@, id@) matches Some(q) && child_edit_allowed(e.spec_edit(), q),
    ensures
        edited_among(parts@, n@, id@, e.spec_edit()),
    decreases parts@, 0int,
{
    let k = match first_holding(&parts, id) {
        Some(k) => k,
        None => {
            return parts;
        },
    };
    let ghost orig = parts@;
    let ghost es = e.spec_edit();
    proof {
        assert(decreases_to!(orig => orig[k as int]));
    }
    let mut parts = parts;
    let x = parts.remove(k);
    let y = edit_part(x, id, e);
    parts.insert(k, y);
    proof {
        assert(parts@ =~= orig.update(k as int, y));
        lemma_edit_at(orig, k as int, id@, es, y);
    }
    parts
}

/// Upserts a part among the children of the part `parent_id`, found
/// depth-first anywhere in the message, after dropping the retry status
/// row: a sub-agent's transcript hung under the part that spawned it.
/// Nothing else happens while the parent is not there yet.
pub fn upsert_child(parts: &mut Vec<WirePart>, parent_id: &str, part: WirePart)
    requires
        found_among(without_id(old(parts)@, retry_row_id()), parent_id@) matches Some(q)
            ==> !upsert_blocked(q.children@, part),
    ensures
        ({
            let kept = without_id(old(parts)@, retry_row_id());
            if found_among(kept, parent_id@) is Some {
                edited_among(kept, final(parts)@, parent_id@, EditSpec::Upsert(part))
            } else {
                final(parts)@ == kept
            }
        }),
{
    clear_retry_status(parts);
    if first_holding(parts, parent_id).is_some() {
        let mut taken: Vec<WirePart> = Vec::new();
        std::mem::swap(&mut taken, parts);
        *parts = edit_parts(taken, parent_id, ChildEdit::Upsert { part });
    }
}

/// Appends streamed text to the child `child_id` of the part `parent_id`
/// (found depth-first), creating the child as `make` on its first delta,
/// after dropping the retry status row. Nothing else happens while the
/// parent is not there yet.
pub fn append_child_text(
    parts: &mut Vec<WirePart>,
    parent_id: &str,
    child_id: &str,
    delta: &str,
    make: WirePart,
)
    ensures
        ({
            let kept = without_id(old(parts)@, retry_row_id());
            if found_among(kept, parent_id@) is Some {
                edited_among(
                    kept,
                    final(parts)@,
                    parent_id@,
                    EditSpec::AppendText(child_id@, delta@, make),
                )
            } else {
                final(parts)@ == kept
            }
        }),
{
    clear_retry_status(parts);
    if first_holding(parts, parent_id).is_some() {
        let mut taken: Vec<WirePart> = Vec::new();
        std::mem::swap(&mut taken, parts);
        *parts = edit_parts(
            taken,
            parent_id,
            ChildEdit::AppendText { child_id: owned(child_id), delta: owned(delta), make },
        );
    }
}


// ---------------------------------------------------------------------------
// How a turn ends
// ---------------------------------------------------------------------------

/// The failure a finished turn is recorded with: a terminal error the turn
/// recorded while it ran wins over the error the harness returned; a turn
/// that completed fails only with such a recorded error.
pub fn turn_failure(
    recorded: Option<(String, String)>,
    outcome: Result<(), (String, String)>,
) -> (r: Option<(String, String)>)
    ensures
        r == match outcome {
            Err(e) => Some(
                match recorded {
                    Some(t) => t,
                    None => e,
                },
            ),
            Ok(()) => recorded,
        },
{
    match outcome {
        Err(e) => Some(
            match recorded {
                Some(t) => t,
                None => e,
            },
        ),
        Ok(()) => recorded,
    }
}

/// What scheduling another orx retry of a turn decides.
pub struct OrxRetry {
    /// The retry's number and delay, when one is scheduled.
    pub scheduled: Option<(u32, u64)>,
    /// The retries scheduled so far.
    pub count: u32,
    /// Whether earlier retries ran out: set when no retry is scheduled
    /// although one was before.
    pub exhausted: bool,
}

/// Schedules retry number `count + 1`, given the delay the retry policy
/// offers for it (none once the policy gives up), the time spent retrying
/// so far, and the retry budget: a retry that would end past the budget is
/// not scheduled.
pub fn orx_retry_step(count: u32, delay_ms: Option<u64>, elapsed_ms: u64, budget_ms: u64) -> (r: OrxRetry)
    requires
        count < u32::MAX,
    ensures
        match delay_ms {
            Some(d) if elapsed_ms + d <= budget_ms => r.scheduled == Some(((count + 1) as u32, d))
                && r.count == count + 1 && !r.exhausted,
            _ => r.scheduled is None && r.count == count && r.exhausted == (count > 0),
        },
{
    match delay_ms {
        Some(d) => {
            if (elapsed_ms as u128) + (d as u128) <= budget_ms as u128 {
                OrxRetry { scheduled: Some((count + 1, d)), count: count + 1, exhausted: false }
            } else {
                OrxRetry { scheduled: None, count, exhausted: count > 0 }
            }
        },
        None => OrxRetry { scheduled: None, count, exhausted: count > 0 },
    }
}

/// The first part with id `id` among the parts and their descendants,
/// depth-first (see [`found_among`]).
pub fn find_part<'a>(parts: &'a Vec<WirePart>, id: &str) -> (r: Option<&'a WirePart>)
    ensures
        match r {
            Some(p) => found_among(parts@, id@) == Some(*p),
            None => found_among(parts@, id@) is None,
        },
    decreases parts@, 0int,
{
    match first_holding(parts, id) {
        Some(k) => {
            proof {
                assert(decreases_to!(parts@ => parts@[k as int]));
            }
            find_in_part(&parts[k], id)
        },
        None => None,
    }
}

/// The first part with id `id` in `p` or its descendants, depth-first.
fn find_in_part<'a>(p: &'a WirePart, id: &str) -> (r: Option<&'a WirePart>)
    ensures
        match r {
            Some(q) => found_in(*p, id@) == Some(*q),
            None => found_in(*p, id@) is None,
        },
    decreases *p, 1int,
{
    if str_eq(p.id.as_str(), id) {
        return Some(p);
    }
    proof {
        lemma_children_decrease(*p);
    }
    find_part(&p.children, id)
}

// ---------------------------------------------------------------------------
// Laws
// ---------------------------------------------------------------------------

/// Two lists whose parts have the same ids, place by place, find the same
/// first part for every id.
proof fn lemma_first_with_id_by_ids(o: Seq<WirePart>, m: Seq<WirePart>, id: Seq<char>)
    requires
        o.len() == m.len(),
        forall|j: int| 0 <= j < o.len() ==> (#[trigger] o[j]).id == m[j].id,
    ensures
        first_with_id(o, id) == first_with_id(m, id),
    decreases o.len(),
{
    if o.len() > 0 {
        lemma_first_with_id_by_ids(o.drop_last(), m.drop_last(), id);
        assert(o.last().id == o[o.len() - 1].id);
    }
}

/// A text streamed in two deltas ends up as the text streamed in one: the
/// second delta goes to the same part, after the first.
pub proof fn law_deltas_concatenate(
    o: Seq<WirePart>,
    id: Seq<char>,
    d1: Seq<char>,
    d2: Seq<char>,
    m: Seq<WirePart>,
    n: Seq<WirePart>,
)
    requires
        appended_to(o, id, d1, m),
        appended_to(m, id, d2, n),
    ensures
        appended_to(o, id, d1 + d2, n),
{
    match first_with_id(o, id) {
        None => {},
        Some(i) => {
            assert forall|j: int| 0 <= j < o.len() implies (#[trigger] o[j]).id == m[j].id by {
                if j != i {
                    assert(m[j] == o[j]);
                }
            }
            lemma_first_with_id_by_ids(o, m, id);
            assert(text_or_empty(m[i].text) == text_or_empty(o[i].text) + d1);
            assert(text_or_empty(o[i].text) + d1 + d2 =~= text_or_empty(o[i].text) + (d1 + d2));
        },
    }
}

} // verus!
