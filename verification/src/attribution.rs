//! Which tool call a target reported out of band belongs to. While a turn
//! runs, the CLI appends `(scope, command, cwd, resource, target)` events
//! for the runs and experiments it touched; each event is attached to the
//! latest `orx logs` / `orx exp status|desc` call whose command matches, or
//! to the calls its scope is already bound to. An event that cannot be
//! pinned to exactly one call is left unattributed.

use vstd::prelude::*;

use crate::json::{as_str, get, insert, member, string_value, JsonValue};
use crate::text::{
    chars_of, contains_seq, contains_str, lower_seq, owned, str_eq, to_ascii_lowercase, views,
};
use crate::tool_targets::{
    authority_key, candidate, candidate_of, command_of, distinct, holds, is_string_array,
    normalize_command, normalized_command, opt_view, read_ids, stored_ids, string_array,
    target_key, tool_command, valid_target, valid_tool_target, TOOL_TARGET_CAP,
};
use crate::transcript::{lemma_children_decrease, lemma_last_decreases, WirePart, WireToolState};

verus! {

// ---------------------------------------------------------------------------
// Matching a command
// ---------------------------------------------------------------------------

/// Whether a (normalised) tool command is one that reads the resource
/// (`orx logs` for runs, `orx exp status|desc` for experiments) and agrees
/// with the command the event reported: no hint, or one contains the other.
pub open spec fn names_command(command: Seq<char>, hint: Seq<char>, runs: bool) -> bool {
    let about = if runs {
        contains_seq(command, "orx logs"@)
    } else {
        contains_seq(command, "orx exp status"@) || contains_seq(command, "orx exp desc"@)
    };
    about && (hint.len() == 0 || contains_seq(command, hint) || contains_seq(hint, command))
}

/// Whether `resource` names runs (anything else is taken as experiments).
pub open spec fn is_runs(resource: Seq<char>) -> bool {
    resource == "runs"@
}

/// Whether a tool command matches a reported command for the resource.
pub fn target_command_matches(command: &str, command_hint: &str, resource: &str) -> (r: bool)
    ensures
        r == names_command(command@, command_hint@, is_runs(resource@)),
{
    let about = if str_eq(resource, "runs") {
        contains_str(command, "orx logs")
    } else {
        contains_str(command, "orx exp status") || contains_str(command, "orx exp desc")
    };
    about && (command_hint.is_empty() || contains_str(command, command_hint) || contains_str(
        command_hint,
        command,
    ))
}

// ---------------------------------------------------------------------------
// Candidate tool calls
// ---------------------------------------------------------------------------

/// A candidate call: its part id, its normalised command and its working
/// directory when the input names one.
pub type Candidate = (String, String, Option<String>);

/// The view of a candidate.
pub open spec fn cand_view(c: Candidate) -> (Seq<char>, Seq<char>, Option<Seq<char>>) {
    (c.0@, c.1@, opt_view(c.2))
}

/// The views of a list of candidates.
pub open spec fn cand_views(cs: Seq<Candidate>) -> Seq<(Seq<char>, Seq<char>, Option<Seq<char>>)> {
    cs.map_values(|c: Candidate| cand_view(c))
}

/// The object input of a tool part, if it has one.
pub open spec fn object_input(p: WirePart) -> Option<JsonValue> {
    match p.state {
        Some(s) => match s.input {
            Some(i) => if i is Object {
                Some(i)
            } else {
                None
            },
            None => None,
        },
        None => None,
    }
}

/// The working directory an input names: its `cwd`, else its `workdir`,
/// when that is a string.
pub open spec fn cwd_of(input: JsonValue) -> Option<Seq<char>> {
    match member(input, "cwd"@) {
        Some(v) => string_value(Some(v)),
        None => string_value(member(input, "workdir"@)),
    }
}

/// The part itself as a candidate, when its command matches.
pub open spec fn own_candidate(p: WirePart, hint: Seq<char>, runs: bool) -> Seq<
    (Seq<char>, Seq<char>, Option<Seq<char>>),
> {
    match object_input(p) {
        Some(input) => {
            let c = normalized_command(command_of(input));
            if names_command(c, hint, runs) {
                seq![(p.id@, c, cwd_of(input))]
            } else {
                Seq::empty()
            }
        },
        None => Seq::empty(),
    }
}

/// The candidates of a part: those among its descendants, then itself.
pub open spec fn part_candidates(p: WirePart, hint: Seq<char>, runs: bool) -> Seq<
    (Seq<char>, Seq<char>, Option<Seq<char>>),
>
    decreases p, 1int,
{
    proof {
        lemma_children_decrease(p);
    }
    candidates_in(p.children@, hint, runs) + own_candidate(p, hint, runs)
}

/// The candidates of a list of parts, latest part first.
pub open spec fn candidates_in(parts: Seq<WirePart>, hint: Seq<char>, runs: bool) -> Seq<
    (Seq<char>, Seq<char>, Option<Seq<char>>),
>
    decreases parts, 0int,
{
    if parts.len() == 0 {
        Seq::empty()
    } else {
        proof {
            lemma_last_decreases(parts);
        }
        part_candidates(parts.last(), hint, runs) + candidates_in(parts.drop_last(), hint, runs)
    }
}

/// The working directory an input names.
fn cwd_value(input: &JsonValue) -> (r: Option<String>)
    ensures
        opt_view(r) == cwd_of(*input),
{
    match get(input, "cwd") {
        Some(v) => match as_str(v) {
            Some(s) => Some(owned(s)),
            None => None,
        },
        None => match get(input, "workdir") {
            Some(v) => match as_str(v) {
                Some(s) => Some(owned(s)),
                None => None,
            },
            None => None,
        },
    }
}

/// Adds the part itself as a candidate when its command matches.
fn push_own_candidate(part: &WirePart, hint: &str, resource: &str, out: &mut Vec<Candidate>)
    ensures
        cand_views(final(out)@) == cand_views(old(out)@) + own_candidate(*part, hint@, is_runs(resource@)),
{
    let ghost before = cand_views(out@);
    let input = match &part.state {
        Some(st) => match &st.input {
            Some(i) => i,
            None => {
                assert(cand_views(out@) =~= before + Seq::empty());
                return ;
            },
        },
        None => {
            assert(cand_views(out@) =~= before + Seq::empty());
            return ;
        },
    };
    match input {
        JsonValue::Object(_) => {},
        _ => {
            assert(cand_views(out@) =~= before + Seq::empty());
            return ;
        },
    }
    let command = normalize_command(tool_command(input).as_str());
    if target_command_matches(command.as_str(), hint, resource) {
        let cwd = cwd_value(input);
        let c: Candidate = (part.id.clone(), command, cwd);
        out.push(c);
        assert(cand_views(out@) =~= before + seq![cand_view(c)]);
    } else {
        assert(cand_views(out@) =~= before + Seq::empty());
    }
}

/// Collects the candidate calls among some parts and their descendants,
/// latest first, descendants before the part that holds them.
#[verifier::spinoff_prover]
pub fn target_candidates(parts: &Vec<WirePart>, command_hint: &str, resource: &str, candidates: &mut Vec<Candidate>)
    ensures
        cand_views(final(candidates)@) == cand_views(old(candidates)@) + candidates_in(
            parts@,
            command_hint@,
            is_runs(resource@),
        ),
    decreases parts@,
{
    let ghost runs = is_runs(resource@);
    let ghost hint = command_hint@;
    let ghost start = cand_views(candidates@);
    let mut i: usize = parts.len();
    assert(parts@.take(i as int) =~= parts@);
    while i > 0
        invariant
            i <= parts@.len(),
            runs == is_runs(resource@),
            hint == command_hint@,
            cand_views(candidates@) + candidates_in(parts@.take(i as int), hint, runs) == start
                + candidates_in(parts@, hint, runs),
        decreases i,
    {
        let ghost t = parts@.take(i as int);
        assert(t.drop_last() =~= parts@.take(i - 1));
        assert(t.last() == parts@[i - 1]);
        let ghost mid = cand_views(candidates@);
        let part = &parts[i - 1];
        proof {
            assert(decreases_to!(parts@ => parts@[i - 1]));
            lemma_children_decrease(parts@[i - 1]);
        }
        target_candidates(&part.children, command_hint, resource, candidates);
        push_own_candidate(part, command_hint, resource, candidates);
        proof {
            let pc = part_candidates(t.last(), hint, runs);
            assert(cand_views(candidates@) =~= mid + pc);
            assert(candidates_in(t, hint, runs) == pc + candidates_in(parts@.take(i - 1), hint, runs));
            assert(cand_views(candidates@) + candidates_in(parts@.take(i - 1), hint, runs) =~= mid
                + candidates_in(t, hint, runs));
        }
        i = i - 1;
    }
    assert(cand_views(candidates@) + candidates_in(parts@.take(0), hint, runs) =~= cand_views(candidates@));
    assert(parts@.take(parts@.len() as int) =~= parts@);
}

// ---------------------------------------------------------------------------
// Recording a target on chosen calls
// ---------------------------------------------------------------------------

/// Whether some id, lower-cased, is `x`.
pub open spec fn seen_lower(ids: Seq<Seq<char>>, x: Seq<char>) -> bool {
    exists|i: int| 0 <= i < ids.len() && lower_seq(#[trigger] ids[i]) == x
}

/// The ids a call records after a reported target is added: the target's
/// id, lower-cased, is appended unless the cap is reached, the report holds
/// no id, or an existing id matches it ignoring case.
pub open spec fn attached_ids(existing: Seq<Seq<char>>, target: Seq<char>) -> Seq<Seq<char>> {
    let c = candidate(target);
    if existing.len() >= TOOL_TARGET_CAP || !valid_target(c) || seen_lower(existing, lower_seq(c)) {
        existing
    } else {
        existing.push(lower_seq(c))
    }
}

/// `n` is the object input `o` with the target recorded: the resource's id
/// list rewritten as the stored ids plus the target, marked authoritative;
/// every other key unchanged.
pub open spec fn attached_input(o: JsonValue, n: JsonValue, runs: bool, target: Seq<char>) -> bool {
    let ids = attached_ids(stored_ids(member(o, target_key(runs))), target);
    &&& n is Object
    &&& member(n, target_key(runs)) matches Some(v) && is_string_array(v, ids)
    &&& member(n, authority_key(runs)) == Some(JsonValue::Bool(true))
    &&& forall|k: Seq<char>|
        k != target_key(runs) && k != authority_key(runs) ==> #[trigger] member(n, k) == member(o, k)
}

/// `t` is the tool state `s` with the target recorded in its input.
pub open spec fn attached_state(s: WireToolState, t: WireToolState, runs: bool, target: Seq<char>) -> bool {
    &&& t.status == s.status
    &&& t.output == s.output
    &&& t.error == s.error
    &&& t.title == s.title
    &&& t.input matches Some(j)
    &&& attached_input(s.input.unwrap(), t.input.unwrap(), runs, target)
}

/// `n` is the part `o` with the target recorded on it, when its id is one
/// of `ids` and it has an object input; nothing else of it changes.
pub open spec fn attached_own(o: WirePart, n: WirePart, ids: Seq<Seq<char>>, runs: bool, target: Seq<char>) -> bool {
    &&& n.id == o.id
    &&& n.kind == o.kind
    &&& n.text == o.text
    &&& n.tool == o.tool
    &&& n.prompt == o.prompt
    &&& if ids.contains(o.id@) && object_input(o) is Some {
        &&& n.state matches Some(t)
        &&& attached_state(o.state.unwrap(), n.state.unwrap(), runs, target)
    } else {
        n.state == o.state
    }
}

/// `n` is the part `o` with the target recorded on it and on its
/// descendants whose ids are among `ids`.
pub open spec fn attached_part(o: WirePart, n: WirePart, ids: Seq<Seq<char>>, runs: bool, target: Seq<char>) -> bool
    decreases o, 1int,
{
    &&& attached_own(o, n, ids, runs, target)
    &&& {
        proof {
            lemma_children_decrease(o);
        }
        all_attached(o.children@, n.children@, ids, runs, target)
    }
}

/// Every part of `n` is the part of `o` at the same place, with the target
/// recorded where its id is among `ids`.
pub open spec fn all_attached(o: Seq<WirePart>, n: Seq<WirePart>, ids: Seq<Seq<char>>, runs: bool, target: Seq<char>) -> bool
    decreases o, 0int,
{
    if o.len() == 0 {
        n.len() == 0
    } else {
        proof {
            lemma_last_decreases(o);
        }
        n.len() == o.len() && all_attached(o.drop_last(), n.drop_last(), ids, runs, target)
            && attached_part(o.last(), n.last(), ids, runs, target)
    }
}

/// Adds a reported target to a list of ids.
fn attach_id(targets: Vec<String>, value: &str) -> (r: Vec<String>)
    ensures
        views(r@) == attached_ids(views(targets@), value@),
{
    if targets.len() >= TOOL_TARGET_CAP {
        return targets;
    }
    let v = chars_of(value);
    let c = candidate_of(&v, 0, v.len());
    assert(v@.subrange(0, v@.len() as int) =~= value@);
    if !valid_tool_target(c.as_str()) {
        return targets;
    }
    let normalized = to_ascii_lowercase(c.as_str());
    let mut i: usize = 0;
    while i < targets.len()
        invariant
            i <= targets@.len(),
            normalized@ == lower_seq(c@),
            c@ == candidate(value@),
            valid_target(c@),
            targets@.len() < TOOL_TARGET_CAP,
            forall|k: int| 0 <= k < i ==> lower_seq(#[trigger] views(targets@)[k]) != normalized@,
        decreases targets@.len() - i,
    {
        let lowered = to_ascii_lowercase(targets[i].as_str());
        assert(views(targets@)[i as int] == targets@[i as int]@);
        if str_eq(lowered.as_str(), normalized.as_str()) {
            assert(lower_seq(views(targets@)[i as int]) == lower_seq(c@));
            assert(seen_lower(views(targets@), lower_seq(c@)));
            return targets;
        }
        i = i + 1;
    }
    let ghost before = views(targets@);
    let mut targets = targets;
    targets.push(normalized);
    assert(views(targets@) =~= before.push(lower_seq(c@)));
    targets
}

/// Records a target on one object input.
#[verifier::spinoff_prover]
fn attach_input(obj: JsonValue, runs: bool, target: &str) -> (r: JsonValue)
    requires
        obj is Object,
    ensures
        attached_input(obj, r, runs, target@),
{
    let key = if runs {
        "runTargetIds"
    } else {
        "experimentTargetIds"
    };
    let auth_key = if runs {
        "runTargetIdsAuthoritative"
    } else {
        "experimentTargetIdsAuthoritative"
    };
    proof {
        reveal_strlit("runTargetIds");
        reveal_strlit("runTargetIdsAuthoritative");
        reveal_strlit("experimentTargetIds");
        reveal_strlit("experimentTargetIdsAuthoritative");
        assert(target_key(runs).len() != authority_key(runs).len());
    }
    let existing = read_ids(get(&obj, key));
    let ids = attach_id(existing, target);
    let mut entries = match obj {
        JsonValue::Object(e) => e,
        _ => {
            return JsonValue::Null;
        },
    };
    insert(&mut entries, key, string_array(ids));
    insert(&mut entries, auth_key, JsonValue::Bool(true));
    JsonValue::Object(entries)
}

/// Records a target in a tool state's object input.
fn attach_state(st: WireToolState, runs: bool, target: &str) -> (r: WireToolState)
    requires
        st.input matches Some(i) && i is Object,
    ensures
        attached_state(st, r, runs, target@),
{
    let WireToolState { status, input, output, error, title } = st;
    let input = match input {
        Some(i) => attach_input(i, runs, target),
        None => JsonValue::Null,
    };
    WireToolState { status, input: Some(input), output, error, title }
}

/// Whether a tool state has an object input.
fn has_object_input(state: &Option<WireToolState>) -> (r: bool)
    ensures
        r == (state matches Some(s) && s.input matches Some(i) && i is Object),
{
    match state {
        Some(s) => match &s.input {
            Some(JsonValue::Object(_)) => true,
            _ => false,
        },
        None => false,
    }
}

/// Records a target on one part's own input when its id is chosen.
fn attach_own(p: WirePart, ids: &Vec<String>, runs: bool, target: &str) -> (r: WirePart)
    requires
        p.children@.len() == 0,
    ensures
        attached_own(p, r, views(ids@), runs, target@),
        r.children@.len() == 0,
{
    let WirePart { id, kind, text, tool, state, prompt, children } = p;
    if !holds(ids, &id) || !has_object_input(&state) {
        return WirePart { id, kind, text, tool, state, prompt, children };
    }
    let state = match state {
        Some(st) => Some(attach_state(st, runs, target)),
        None => None,
    };
    WirePart { id, kind, text, tool, state, prompt, children }
}

/// Records a target on a part and its descendants whose ids are chosen.
fn attach_part(p: WirePart, ids: &Vec<String>, runs: bool, target: &str) -> (r: WirePart)
    ensures
        attached_part(p, r, views(ids@), runs, target@),
    decreases p,
{
    let ghost old_p = p;
    let mut p = p;
    proof {
        lemma_children_decrease(old_p);
    }
    let mut children: Vec<WirePart> = Vec::new();
    std::mem::swap(&mut children, &mut p.children);
    let children = attach_parts(children, ids, runs, target);
    let mut r = attach_own(p, ids, runs, target);
    r.children = children;
    r
}

/// Records a target on the parts, at any depth, whose ids are chosen.
fn attach_parts(parts: Vec<WirePart>, ids: &Vec<String>, runs: bool, target: &str) -> (r: Vec<WirePart>)
    ensures
        all_attached(parts@, r@, views(ids@), runs, target@),
    decreases parts@,
{
    let ghost orig = parts@;
    let mut out: Vec<WirePart> = Vec::new();
    let mut rest = parts;
    let mut k: usize = 0;
    let n = rest.len();
    while rest.len() > 0
        invariant
            n == orig.len(),
            k + rest@.len() == n,
            rest@ == orig.skip(k as int),
            orig == parts@,
            all_attached(orig.take(k as int), out@, views(ids@), runs, target@),
        decreases rest@.len(),
    {
        let ghost idx = k as int;
        let x = rest.remove(0);
        assert(x == orig[idx]);
        assert(rest@ =~= orig.skip(idx + 1));
        proof {
            assert(decreases_to!(orig => orig[idx]));
        }
        let y = attach_part(x, ids, runs, target);
        let ghost prev = out@;
        out.push(y);
        proof {
            let t = orig.take(idx + 1);
            assert(t.drop_last() =~= orig.take(idx));
            assert(out@.drop_last() =~= prev);
            assert(t.last() == x);
        }
        k = k + 1;
    }
    assert(orig.take(n as int) =~= orig);
    out
}

/// Records a target on every part, at any depth, whose id is in
/// `part_ids`: the resource's id list gains the target and is marked
/// authoritative.
pub fn attach_target_to_ids(parts: &mut Vec<WirePart>, part_ids: &Vec<String>, resource: &str, target: &str)
    ensures
        all_attached(old(parts)@, final(parts)@, views(part_ids@), is_runs(resource@), target@),
{
    let runs = str_eq(resource, "runs");
    let mut taken: Vec<WirePart> = Vec::new();
    std::mem::swap(&mut taken, parts);
    *parts = attach_parts(taken, part_ids, runs, target);
}

// ---------------------------------------------------------------------------
// Attributing one event
// ---------------------------------------------------------------------------

/// The candidates in the working directory `cwd`, in order.
pub open spec fn in_cwd(cs: Seq<(Seq<char>, Seq<char>, Option<Seq<char>>)>, cwd: Seq<char>) -> Seq<
    (Seq<char>, Seq<char>, Option<Seq<char>>),
>
    decreases cs.len(),
{
    if cs.len() == 0 {
        Seq::empty()
    } else {
        in_cwd(cs.drop_last(), cwd) + if cs.last().2 == Some(cwd) {
            seq![cs.last()]
        } else {
            Seq::empty()
        }
    }
}

/// The candidates whose part is not claimed yet, in order.
pub open spec fn unclaimed(cs: Seq<(Seq<char>, Seq<char>, Option<Seq<char>>)>, claimed: Seq<Seq<char>>) -> Seq<
    (Seq<char>, Seq<char>, Option<Seq<char>>),
>
    decreases cs.len(),
{
    if cs.len() == 0 {
        Seq::empty()
    } else {
        unclaimed(cs.drop_last(), claimed) + if claimed.contains(cs.last().0) {
            Seq::empty()
        } else {
            seq![cs.last()]
        }
    }
}

/// The candidates narrowed by the reported working directory (when some
/// candidate ran there) and stripped of claimed parts.
pub open spec fn narrowed(
    cs: Seq<(Seq<char>, Seq<char>, Option<Seq<char>>)>,
    claimed: Seq<Seq<char>>,
    cwd_hint: Seq<char>,
) -> Seq<(Seq<char>, Seq<char>, Option<Seq<char>>)> {
    let by_cwd = if cwd_hint.len() > 0 && (exists|i: int| 0 <= i < cs.len() && (#[trigger] cs[i]).2 == Some(cwd_hint)) {
        in_cwd(cs, cwd_hint)
    } else {
        cs
    };
    unclaimed(by_cwd, claimed)
}

/// The part an unbound event belongs to: the part of the latest remaining
/// candidate, provided every remaining candidate with the same command is
/// that same part; otherwise none.
pub open spec fn chosen_part(cs: Seq<(Seq<char>, Seq<char>, Option<Seq<char>>)>) -> Option<Seq<char>> {
    if cs.len() > 0 && forall|i: int| 0 <= i < cs.len() && (#[trigger] cs[i]).1 == cs[0].1 ==> cs[i].0 == cs[0].0 {
        Some(cs[0].0)
    } else {
        None
    }
}

/// The views of a list of strings hold the same strings as `b`'s.
pub open spec fn same_ids(a: Seq<Seq<char>>, b: Seq<Seq<char>>) -> bool {
    forall|x: Seq<char>| a.contains(x) <==> b.contains(x)
}

/// Whether some candidate ran in `cwd`.
fn any_in_cwd(cs: &Vec<Candidate>, cwd: &str) -> (r: bool)
    ensures
        r == exists|i: int| 0 <= i < cs@.len() && (#[trigger] cand_views(cs@)[i]).2 == Some(cwd@),
{
    let mut i: usize = 0;
    while i < cs.len()
        invariant
            i <= cs@.len(),
            forall|k: int| 0 <= k < i ==> (#[trigger] cand_views(cs@)[k]).2 != Some(cwd@),
        decreases cs@.len() - i,
    {
        assert(cand_views(cs@)[i as int] == cand_view(cs@[i as int]));
        let here = match &cs[i].2 {
            Some(d) => str_eq(d.as_str(), cwd),
            None => false,
        };
        if here {
            assert(cand_views(cs@)[i as int].2 == Some(cwd@));
            return true;
        }
        i = i + 1;
    }
    false
}

/// Keeps the candidates that ran in `cwd`.
fn keep_in_cwd(cs: Vec<Candidate>, cwd: &str) -> (r: Vec<Candidate>)
    ensures
        cand_views(r@) == in_cwd(cand_views(cs@), cwd@),
{
    let ghost all = cand_views(cs@);
    let mut out: Vec<Candidate> = Vec::new();
    let mut rest = cs;
    let n = rest.len();
    let mut k: usize = 0;
    while rest.len() > 0
        invariant
            k + rest@.len() == n,
            n == all.len(),
            cand_views(rest@) == all.skip(k as int),
            cand_views(out@) == in_cwd(all.take(k as int), cwd@),
        decreases rest@.len(),
    {
        let ghost before = rest@;
        let c = rest.remove(0);
        assert(cand_view(c) == cand_views(before)[0]);
        assert(cand_views(before)[0] == all[k as int]);
        assert(rest@ =~= before.subrange(1, before.len() as int));
        assert forall|j: int| 0 <= j < rest@.len() implies #[trigger] cand_views(rest@)[j] == all.skip(k + 1)[j] by {
            assert(rest@[j] == before[j + 1]);
            assert(cand_views(before)[j + 1] == all.skip(k as int)[j + 1]);
        }
        assert(cand_views(rest@) =~= all.skip(k + 1));
        let ghost t = all.take(k + 1);
        assert(t.drop_last() =~= all.take(k as int));
        assert(t.last() == all[k as int]);
        let ghost prev = cand_views(out@);
        let here = match &c.2 {
            Some(d) => str_eq(d.as_str(), cwd),
            None => false,
        };
        if here {
            out.push(c);
            assert(cand_views(out@) =~= prev + seq![cand_view(c)]);
        } else {
            assert(cand_views(out@) =~= prev + Seq::empty());
        }
        k = k + 1;
    }
    assert(all.take(n as int) =~= all);
    out
}

/// Drops the candidates whose part is claimed.
fn drop_claimed(cs: Vec<Candidate>, claimed: &Vec<String>) -> (r: Vec<Candidate>)
    ensures
        cand_views(r@) == unclaimed(cand_views(cs@), views(claimed@)),
{
    let ghost all = cand_views(cs@);
    let mut out: Vec<Candidate> = Vec::new();
    let mut rest = cs;
    let n = rest.len();
    let mut k: usize = 0;
    while rest.len() > 0
        invariant
            k + rest@.len() == n,
            n == all.len(),
            cand_views(rest@) == all.skip(k as int),
            cand_views(out@) == unclaimed(all.take(k as int), views(claimed@)),
        decreases rest@.len(),
    {
        let ghost before = rest@;
        let c = rest.remove(0);
        assert(cand_view(c) == cand_views(before)[0]);
        assert(cand_views(before)[0] == all[k as int]);
        assert(rest@ =~= before.subrange(1, before.len() as int));
        assert forall|j: int| 0 <= j < rest@.len() implies #[trigger] cand_views(rest@)[j] == all.skip(k + 1)[j] by {
            assert(rest@[j] == before[j + 1]);
            assert(cand_views(before)[j + 1] == all.skip(k as int)[j + 1]);
        }
        assert(cand_views(rest@) =~= all.skip(k + 1));
        let ghost t = all.take(k + 1);
        assert(t.drop_last() =~= all.take(k as int));
        assert(t.last() == all[k as int]);
        let ghost prev = cand_views(out@);
        if holds(claimed, &c.0) {
            assert(cand_views(out@) =~= prev + Seq::empty());
        } else {
            out.push(c);
            assert(cand_views(out@) =~= prev + seq![cand_view(c)]);
        }
        k = k + 1;
    }
    assert(all.take(n as int) =~= all);
    out
}

/// The part an unbound event belongs to among the remaining candidates.
fn choose_part(cs: &Vec<Candidate>) -> (r: Option<String>)
    ensures
        match r {
            Some(id) => chosen_part(cand_views(cs@)) == Some(id@),
            None => chosen_part(cand_views(cs@)) is None,
        },
{
    let ghost v = cand_views(cs@);
    if cs.len() == 0 {
        return None;
    }
    assert(v[0] == cand_view(cs@[0]));
    let mut i: usize = 0;
    while i < cs.len()
        invariant
            i <= cs@.len(),
            cs@.len() > 0,
            v == cand_views(cs@),
            forall|k: int| 0 <= k < i && (#[trigger] v[k]).1 == v[0].1 ==> v[k].0 == v[0].0,
        decreases cs@.len() - i,
    {
        assert(v[i as int] == cand_view(cs@[i as int]));
        if str_eq(cs[i].1.as_str(), cs[0].1.as_str()) && !str_eq(cs[i].0.as_str(), cs[0].0.as_str()) {
            assert(v[i as int].1 == v[0].1 && v[i as int].0 != v[0].0);
            return None;
        }
        i = i + 1;
    }
    Some(cs[0].0.clone())
}

/// The distinct ids of a list, first occurrences in order.
fn distinct_ids(ids: &Vec<String>) -> (r: Vec<String>)
    ensures
        distinct(views(r@)),
        same_ids(views(r@), views(ids@)),
{
    let mut out: Vec<String> = Vec::new();
    let mut i: usize = 0;
    while i < ids.len()
        invariant
            i <= ids@.len(),
            distinct(views(out@)),
            same_ids(views(out@), views(ids@).take(i as int)),
        decreases ids@.len() - i,
    {
        let ghost prev = views(out@);
        let ghost a = ids@[i as int]@;
        let ghost s = views(ids@).take(i as int);
        let ghost t = views(ids@).take(i + 1);
        assert(t =~= s.push(a));
        if !holds(&out, &ids[i]) {
            out.push(ids[i].clone());
            assert(views(out@) =~= prev.push(a));
            assert forall|j: int| 0 <= j < prev.len() implies prev[j] != a by {
                assert(!prev.contains(a));
            }
        } else {
            assert(prev.contains(a));
        }
        assert forall|x: Seq<char>| views(out@).contains(x) <==> t.contains(x) by {
            if x == a {
                assert(t[i as int] == x);
                if views(out@).len() > prev.len() {
                    assert(views(out@)[prev.len() as int] == x);
                } else {
                    let j = choose|j: int| 0 <= j < prev.len() && prev[j] == x;
                    assert(views(out@)[j] == x);
                }
            } else {
                if t.contains(x) {
                    let j = choose|j: int| 0 <= j < t.len() && t[j] == x;
                    assert(j < i);
                    assert(s[j] == x);
                    assert(s.contains(x));
                    assert(prev.contains(x));
                    let m = choose|m: int| 0 <= m < prev.len() && prev[m] == x;
                    assert(views(out@)[m] == x);
                }
                if views(out@).contains(x) {
                    let j = choose|j: int| 0 <= j < views(out@).len() && views(out@)[j] == x;
                    assert(j < prev.len());
                    assert(prev[j] == x);
                    assert(prev.contains(x));
                    assert(s.contains(x));
                    let m = choose|m: int| 0 <= m < s.len() && s[m] == x;
                    assert(t[m] == x);
                }
            }
        }
        i = i + 1;
    }
    assert(views(ids@).take(ids@.len() as int) =~= views(ids@));
    out
}

/// `n` is the parts `o` after a reported target was attributed, `r` the
/// parts it was recorded on. With parts `bound` to the event's scope it is
/// recorded on those. Otherwise the candidate calls are those whose
/// command matches the report, latest first; the reported working
/// directory narrows them when some candidate ran there; parts in
/// `claimed` are dropped; and the target goes to the latest remaining part
/// when no other remaining part ran the same command, else nowhere.
pub open spec fn event_attributed(
    o: Seq<WirePart>,
    n: Seq<WirePart>,
    bound: Option<Seq<Seq<char>>>,
    claimed: Seq<Seq<char>>,
    hint: Seq<char>,
    cwd: Seq<char>,
    runs: bool,
    target: Seq<char>,
    r: Seq<Seq<char>>,
) -> bool {
    match bound {
        Some(b) => {
            &&& distinct(r)
            &&& same_ids(r, b)
            &&& all_attached(o, n, r, runs, target)
        },
        None => match chosen_part(narrowed(candidates_in(o, normalized_command(hint), runs), claimed, cwd)) {
            Some(id) => {
                &&& r == seq![id]
                &&& all_attached(o, n, seq![id], runs, target)
            },
            None => r.len() == 0 && n == o,
        },
    }
}

/// Attributes one reported target (see `event_attributed`). Returns the
/// parts the target was recorded on: none when it could not be pinned.
pub fn attach_target_event(
    parts: &mut Vec<WirePart>,
    bound_part_ids: Option<&Vec<String>>,
    claimed_part_ids: &Vec<String>,
    command_hint: &str,
    cwd_hint: &str,
    resource: &str,
    target: &str,
) -> (r: Vec<String>)
    ensures
        event_attributed(
            old(parts)@,
            final(parts)@,
            match bound_part_ids {
                Some(b) => Some(views(b@)),
                None => None,
            },
            views(claimed_part_ids@),
            command_hint@,
            cwd_hint@,
            is_runs(resource@),
            target@,
            views(r@),
        ),
{
    let ids = match bound_part_ids {
        Some(bound) => distinct_ids(bound),
        None => {
            let hint = normalize_command(command_hint);
            let mut candidates: Vec<Candidate> = Vec::new();
            target_candidates(parts, hint.as_str(), resource, &mut candidates);
            assert(cand_views(candidates@) =~= candidates_in(parts@, hint@, is_runs(resource@)));
            let narrowed_by_cwd = if !cwd_hint.is_empty() && any_in_cwd(&candidates, cwd_hint) {
                keep_in_cwd(candidates, cwd_hint)
            } else {
                candidates
            };
            let remaining = drop_claimed(narrowed_by_cwd, claimed_part_ids);
            match choose_part(&remaining) {
                Some(id) => {
                    let mut one: Vec<String> = Vec::new();
                    one.push(id);
                    assert(views(one@) =~= seq![id@]);
                    one
                },
                None => {
                    return Vec::new();
                },
            }
        },
    };
    attach_target_to_ids(parts, &ids, resource, target);
    ids
}

// ---------------------------------------------------------------------------
// Applying the pending events of a turn
// ---------------------------------------------------------------------------

/// A target the CLI reported while a tool call ran.
pub struct TargetEvent {
    /// The shell the call ran in; its events go to the same parts.
    pub scope: String,
    pub command: String,
    pub cwd: String,
    /// `runs` or `experiments`.
    pub resource: String,
    pub target: String,
}

/// The parts a scope is bound to: those of its first binding.
pub open spec fn binding_of(bindings: Seq<(String, Vec<String>)>, scope: Seq<char>) -> Option<Seq<Seq<char>>>
    decreases bindings.len(),
{
    if bindings.len() == 0 {
        None
    } else {
        match binding_of(bindings.drop_last(), scope) {
            Some(b) => Some(b),
            None => if bindings.last().0@ == scope {
                Some(views(bindings.last().1@))
            } else {
                None
            },
        }
    }
}

proof fn lemma_binding_prefix(s: Seq<(String, Vec<String>)>, scope: Seq<char>, k: int)
    requires
        0 <= k <= s.len(),
        binding_of(s.take(k), scope) is Some,
    ensures
        binding_of(s, scope) == binding_of(s.take(k), scope),
    decreases s.len(),
{
    if k == s.len() {
        assert(s.take(k) =~= s);
    } else {
        assert(s.drop_last().take(k) =~= s.take(k));
        lemma_binding_prefix(s.drop_last(), scope, k);
    }
}

/// The index of the binding of a scope.
fn find_binding(bindings: &Vec<(String, Vec<String>)>, scope: &str) -> (r: Option<usize>)
    ensures
        match r {
            Some(k) => k < bindings@.len() && binding_of(bindings@, scope@) == Some(views(bindings@[k as int].1@)),
            None => binding_of(bindings@, scope@) is None,
        },
{
    let mut i: usize = 0;
    while i < bindings.len()
        invariant
            i <= bindings@.len(),
            binding_of(bindings@.take(i as int), scope@) is None,
        decreases bindings@.len() - i,
    {
        let ghost t = bindings@.take(i + 1);
        assert(t.drop_last() =~= bindings@.take(i as int));
        assert(t.last() == bindings@[i as int]);
        if str_eq(bindings[i].0.as_str(), scope) {
            proof {
                lemma_binding_prefix(bindings@, scope@, i + 1);
            }
            return Some(i);
        }
        i = i + 1;
    }
    assert(bindings@.take(i as int) =~= bindings@);
    None
}

/// Copies of some ids.
fn copy_ids(ids: &Vec<String>) -> (r: Vec<String>)
    ensures
        views(r@) == views(ids@),
{
    let mut out: Vec<String> = Vec::new();
    let mut i: usize = 0;
    while i < ids.len()
        invariant
            i <= ids@.len(),
            views(out@) == views(ids@).take(i as int),
        decreases ids@.len() - i,
    {
        let ghost prev = views(out@);
        out.push(ids[i].clone());
        assert(views(out@) =~= prev.push(ids@[i as int]@));
        assert(views(ids@).take(i + 1) =~= views(ids@).take(i as int).push(ids@[i as int]@));
        i = i + 1;
    }
    assert(views(ids@).take(ids@.len() as int) =~= views(ids@));
    out
}

/// One event attributed: `n` is the parts `o` after it, `ids` the parts
/// it went to (see `event_attributed`, with the event scope's binding and
/// the claimed parts). Its parts join the claimed ones; an unbound scope
/// that got parts is bound to them, appended to the bindings; bindings
/// never change otherwise.
pub open spec fn event_step(
    o: Seq<WirePart>,
    n: Seq<WirePart>,
    e: TargetEvent,
    b0: Seq<(String, Vec<String>)>,
    b1: Seq<(String, Vec<String>)>,
    c0: Seq<Seq<char>>,
    c1: Seq<Seq<char>>,
    ids: Seq<Seq<char>>,
) -> bool {
    &&& event_attributed(
        o,
        n,
        binding_of(b0, e.scope@),
        c0,
        e.command@,
        e.cwd@,
        is_runs(e.resource@),
        e.target@,
        ids,
    )
    &&& c1 == c0 + ids
    &&& if ids.len() > 0 && binding_of(b0, e.scope@) is None {
        &&& b1.len() == b0.len() + 1
        &&& b1.drop_last() == b0
        &&& b1.last().0@ == e.scope@
        &&& views(b1.last().1@) == ids
    } else {
        b1 == b0
    }
}

/// Attributes one event: bound scopes reuse their parts; an unbound scope
/// that gets a part is bound to it, and that part is claimed. Returns the
/// parts the target was recorded on.
pub fn apply_target_event(
    parts: &mut Vec<WirePart>,
    event: &TargetEvent,
    bindings: &mut Vec<(String, Vec<String>)>,
    claimed: &mut Vec<String>,
) -> (r: Vec<String>)
    ensures
        event_step(
            old(parts)@,
            final(parts)@,
            *event,
            old(bindings)@,
            final(bindings)@,
            views(old(claimed)@),
            views(final(claimed)@),
            views(r@),
        ),
{
    let ghost b0 = bindings@;
    let found = find_binding(bindings, event.scope.as_str());
    let ids = match found {
        Some(k) => attach_target_event(
            parts,
            Some(&bindings[k].1),
            claimed,
            event.command.as_str(),
            event.cwd.as_str(),
            event.resource.as_str(),
            event.target.as_str(),
        ),
        None => attach_target_event(
            parts,
            None,
            claimed,
            event.command.as_str(),
            event.cwd.as_str(),
            event.resource.as_str(),
            event.target.as_str(),
        ),
    };
    if ids.len() > 0 && found.is_none() {
        let entry = (event.scope.clone(), copy_ids(&ids));
        bindings.push(entry);
        proof {
            assert(bindings@.drop_last() =~= b0);
        }
    }
    let ghost c0 = views(claimed@);
    let mut i: usize = 0;
    while i < ids.len()
        invariant
            i <= ids@.len(),
            views(claimed@) == c0 + views(ids@).take(i as int),
        decreases ids@.len() - i,
    {
        let ghost prev = views(claimed@);
        claimed.push(ids[i].clone());
        assert(views(claimed@) =~= prev.push(ids@[i as int]@));
        assert(views(ids@).take(i + 1) =~= views(ids@).take(i as int).push(ids@[i as int]@));
        i = i + 1;
    }
    assert(views(ids@).take(ids@.len() as int) =~= views(ids@));
    ids
}

/// Every id some binding holds, in order.
pub open spec fn bound_parts(bindings: Seq<(String, Vec<String>)>) -> Seq<Seq<char>>
    decreases bindings.len(),
{
    if bindings.len() == 0 {
        Seq::empty()
    } else {
        bound_parts(bindings.drop_last()) + views(bindings.last().1@)
    }
}

/// The events applied in order from parts `o`, bindings `b0` and claimed
/// parts `c0`: each is one `event_step` from the state the previous ones
/// left; `n`, `b1` and `c1` are the final state and `remaining` the events
/// that went to no part, in order.
pub open spec fn events_applied(
    o: Seq<WirePart>,
    n: Seq<WirePart>,
    events: Seq<TargetEvent>,
    b0: Seq<(String, Vec<String>)>,
    b1: Seq<(String, Vec<String>)>,
    c0: Seq<Seq<char>>,
    c1: Seq<Seq<char>>,
    remaining: Seq<TargetEvent>,
) -> bool
    decreases events.len(),
{
    if events.len() == 0 {
        n == o && b1 == b0 && c1 == c0 && remaining.len() == 0
    } else {
        exists|mid: Seq<WirePart>, bm: Seq<(String, Vec<String>)>, cm: Seq<Seq<char>>, ids: Seq<Seq<char>>|
            #[trigger] event_step(mid, n, events.last(), bm, b1, cm, c1, ids) && events_applied(
                o,
                mid,
                events.drop_last(),
                b0,
                bm,
                c0,
                cm,
                if ids.len() == 0 {
                    remaining.drop_last()
                } else {
                    remaining
                },
            ) && (ids.len() == 0 ==> remaining.len() > 0 && remaining.last() == events.last())
    }
}

proof fn lemma_events_applied_step(
    o: Seq<WirePart>,
    mid: Seq<WirePart>,
    n: Seq<WirePart>,
    events: Seq<TargetEvent>,
    b0: Seq<(String, Vec<String>)>,
    bm: Seq<(String, Vec<String>)>,
    b1: Seq<(String, Vec<String>)>,
    c0: Seq<Seq<char>>,
    cm: Seq<Seq<char>>,
    c1: Seq<Seq<char>>,
    rm: Seq<TargetEvent>,
    r: Seq<TargetEvent>,
    ids: Seq<Seq<char>>,
)
    requires
        events.len() > 0,
        events_applied(o, mid, events.drop_last(), b0, bm, c0, cm, rm),
        event_step(mid, n, events.last(), bm, b1, cm, c1, ids),
        r == if ids.len() == 0 {
            rm.push(events.last())
        } else {
            rm
        },
    ensures
        events_applied(o, n, events, b0, b1, c0, c1, r),
{
    if ids.len() == 0 {
        assert(r.drop_last() =~= rm);
        assert(r.last() == events.last());
    }
    assert(event_step(mid, n, events.last(), bm, b1, cm, c1, ids));
}

/// Attributes the pending events in order (see `events_applied`), starting
/// from the given bindings with the parts they hold claimed. A scope is
/// bound to the parts its first attributed event went to; a part bound to
/// one scope is not given to another's unbound event. Returns the events
/// that could not be attributed yet, in order; they are tried again once
/// more of the turn has streamed in.
pub fn apply_target_events(
    parts: &mut Vec<WirePart>,
    pending: Vec<TargetEvent>,
    bindings: &mut Vec<(String, Vec<String>)>,
) -> (r: Vec<TargetEvent>)
    ensures
        exists|c1: Seq<Seq<char>>|
            events_applied(
                old(parts)@,
                final(parts)@,
                pending@,
                old(bindings)@,
                final(bindings)@,
                bound_parts(old(bindings)@),
                c1,
                r@,
            ),
{
    let mut claimed: Vec<String> = Vec::new();
    let mut j: usize = 0;
    while j < bindings.len()
        invariant
            j <= bindings@.len(),
            views(claimed@) == bound_parts(bindings@.take(j as int)),
        decreases bindings@.len() - j,
    {
        let ghost prev = views(claimed@);
        let ghost t = bindings@.take(j + 1);
        assert(t.drop_last() =~= bindings@.take(j as int));
        let mut i: usize = 0;
        while i < bindings[j].1.len()
            invariant
                j < bindings@.len(),
                i <= bindings@[j as int].1@.len(),
                views(claimed@) == prev + views(bindings@[j as int].1@).take(i as int),
            decreases bindings@[j as int].1@.len() - i,
        {
            let ghost before = views(claimed@);
            let id = bindings[j].1[i].clone();
            claimed.push(id);
            assert(views(claimed@) =~= before.push(bindings@[j as int].1@[i as int]@));
            assert(views(bindings@[j as int].1@).take(i + 1) =~= views(bindings@[j as int].1@).take(i as int).push(
                bindings@[j as int].1@[i as int]@,
            ));
            i = i + 1;
        }
        assert(views(bindings@[j as int].1@).take(bindings@[j as int].1@.len() as int) =~= views(
            bindings@[j as int].1@,
        ));
        j = j + 1;
    }
    assert(bindings@.take(bindings@.len() as int) =~= bindings@);
    let ghost o = parts@;
    let ghost b0 = bindings@;
    let ghost c0 = views(claimed@);
    let ghost all = pending@;
    let mut remaining: Vec<TargetEvent> = Vec::new();
    let mut rest = pending;
    let mut k: usize = 0;
    let n = rest.len();
    assert(all.take(0) =~= Seq::<TargetEvent>::empty());
    while rest.len() > 0
        invariant
            n == all.len(),
            k + rest@.len() == n,
            rest@ == all.skip(k as int),
            c0 == bound_parts(b0),
            events_applied(o, parts@, all.take(k as int), b0, bindings@, c0, views(claimed@), remaining@),
        decreases rest@.len(),
    {
        let ghost idx = k as int;
        let event = rest.remove(0);
        assert(event == all[idx]);
        assert(rest@ =~= all.skip(idx + 1));
        let ghost mid = parts@;
        let ghost bm = bindings@;
        let ghost cm = views(claimed@);
        let ghost rm = remaining@;
        let ids = apply_target_event(parts, &event, bindings, &mut claimed);
        if ids.len() == 0 {
            remaining.push(event);
        }
        proof {
            let t = all.take(idx + 1);
            assert(t.drop_last() =~= all.take(idx));
            assert(t.last() == all[idx]);
            lemma_events_applied_step(
                o,
                mid,
                parts@,
                t,
                b0,
                bm,
                bindings@,
                c0,
                cm,
                views(claimed@),
                rm,
                remaining@,
                views(ids@),
            );
        }
        k = k + 1;
    }
    assert(all.take(n as int) =~= all);
    assert(events_applied(o, parts@, all, b0, bindings@, c0, views(claimed@), remaining@));
    remaining
}

/// Lower-casing twice is lower-casing once.
proof fn lemma_lower_idempotent(s: Seq<char>)
    ensures
        lower_seq(lower_seq(s)) == lower_seq(s),
{
    assert forall|i: int| 0 <= i < s.len() implies lower_seq(lower_seq(s))[i] == lower_seq(s)[i] by {
        let c = s[i];
        if 'A' <= c && c <= 'Z' {
            assert((c as u32) + 32 <= 'z' as u32);
        }
    }
    assert(lower_seq(lower_seq(s)) =~= lower_seq(s));
}

/// Reporting the same target for a call again records nothing new: the
/// ids after two reports are the ids after one, and a call never records
/// more than the cap unless it already held more.
pub proof fn law_reporting_a_target_twice_records_it_once(existing: Seq<Seq<char>>, target: Seq<char>)
    ensures
        attached_ids(attached_ids(existing, target), target) == attached_ids(existing, target),
        attached_ids(existing, target).len() <= existing.len() + 1,
        existing.len() < TOOL_TARGET_CAP ==> attached_ids(existing, target).len() <= TOOL_TARGET_CAP,
{
    let c = candidate(target);
    let once = attached_ids(existing, target);
    if once != existing {
        let lc = lower_seq(c);
        lemma_lower_idempotent(c);
        assert(once[existing.len() as int] == lc);
        assert(lower_seq(once[existing.len() as int]) == lc);
        assert(seen_lower(once, lc));
    }
}

} // verus!
