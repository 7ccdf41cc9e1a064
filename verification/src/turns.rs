//! Turn bookkeeping around the chat host: the revisions that order plan
//! and permission changes made while messages wait in the queue, which
//! recovery a failed turn admits, and the small texts and part lists a turn
//! is built from.

use vstd::prelude::*;

use crate::chat::{SavedAttachment, TextAnnotation, TurnOverrides};
use crate::queue::ImageAttachment;
use crate::json::{insert, member, string_value, JsonValue};
use crate::transcript::{
    first_with_id, rebuilt, upsert_blocked, upsert_preserving_children, WirePart, WireToolState,
};
use crate::jobs::{sh_quote, sh_quote_spec};
use crate::text::{
    chars_of, decimal, is_blank, join, join_with, lines, lines_of, matches_at, occurs_at, views, owned, push_char, push_decimal, push_signed_decimal, push_str, signed_decimal, str_eq, string_of_range,
    trim, trim_end_seq, trim_seq,
};

verus! {

// ---------------------------------------------------------------------------
// Change revisions
// ---------------------------------------------------------------------------

/// The latest change per session: `(session id, revision, value)` entries;
/// a session's latest change is its last entry.
pub struct SessionChanges<T> {
    pub entries: Vec<(String, u64, T)>,
}

/// The index of the last entry for `session`.
pub open spec fn last_index<T>(entries: Seq<(String, u64, T)>, session: Seq<char>) -> Option<int>
    decreases entries.len(),
{
    if entries.len() == 0 {
        None
    } else if entries.last().0@ == session {
        Some(entries.len() - 1)
    } else {
        last_index(entries.drop_last(), session)
    }
}

/// The latest change recorded for `session`.
pub open spec fn latest_change<T>(entries: Seq<(String, u64, T)>, session: Seq<char>) -> Option<
    (u64, T),
> {
    match last_index(entries, session) {
        Some(i) => Some((entries[i].1, entries[i].2)),
        None => None,
    }
}

proof fn lemma_last_index_bound<T>(entries: Seq<(String, u64, T)>, session: Seq<char>)
    ensures
        last_index(entries, session) matches Some(i) ==> 0 <= i < entries.len()
            && entries[i].0@ == session && forall|j: int|
            i < j < entries.len() ==> (#[trigger] entries[j].0@) != session,
        last_index(entries, session) is None ==> forall|j: int|
            0 <= j < entries.len() ==> (#[trigger] entries[j].0@) != session,
    decreases entries.len(),
{
    if entries.len() > 0 {
        lemma_last_index_bound(entries.drop_last(), session);
        if entries.last().0@ != session {
            assert forall|j: int| 0 <= j < entries.len() - 1 implies entries[j] == entries.drop_last()[j] by {}
        }
    }
}

/// The last index is the one found scanning from the end.
proof fn lemma_last_index_is<T>(entries: Seq<(String, u64, T)>, session: Seq<char>, i: int)
    requires
        0 <= i < entries.len(),
        entries[i].0@ == session,
        forall|j: int| i < j < entries.len() ==> (#[trigger] entries[j].0@) != session,
    ensures
        last_index(entries, session) == Some(i),
    decreases entries.len(),
{
    if i < entries.len() - 1 {
        assert(entries.drop_last()[i] == entries[i]);
        lemma_last_index_is(entries.drop_last(), session, i);
    }
}

/// No entry is for `session`.
proof fn lemma_last_index_none<T>(entries: Seq<(String, u64, T)>, session: Seq<char>)
    requires
        forall|j: int| 0 <= j < entries.len() ==> (#[trigger] entries[j].0@) != session,
    ensures
        last_index(entries, session) is None,
    decreases entries.len(),
{
    if entries.len() > 0 {
        assert(entries.last().0@ != session);
        lemma_last_index_none(entries.drop_last(), session);
    }
}

impl<T> SessionChanges<T> {
    /// No change recorded.
    pub fn new() -> (r: Self)
        ensures
            r.entries@.len() == 0,
    {
        SessionChanges { entries: Vec::new() }
    }

    /// The index of the latest change of `session`.
    pub fn find(&self, session: &str) -> (r: Option<usize>)
        ensures
            match r {
                Some(i) => last_index(self.entries@, session@) == Some(i as int),
                None => last_index(self.entries@, session@) is None,
            },
    {
        let mut k: usize = self.entries.len();
        while k > 0
            invariant
                k <= self.entries@.len(),
                forall|j: int| k <= j < self.entries@.len() ==> (#[trigger] self.entries@[j].0@) != session@,
            decreases k,
        {
            if str_eq(self.entries[k - 1].0.as_str(), session) {
                proof {
                    lemma_last_index_is(self.entries@, session@, k - 1);
                }
                return Some(k - 1);
            }
            k = k - 1;
        }
        proof {
            lemma_last_index_none(self.entries@, session@);
        }
        None
    }

    /// Records `session`'s latest change.
    pub fn record(&mut self, session: &str, revision: u64, value: T)
        ensures
            latest_change(final(self).entries@, session@) == Some((revision, value)),
            forall|s: Seq<char>|
                s != session@ ==> latest_change(final(self).entries@, s) == latest_change(
                    old(self).entries@,
                    s,
                ),
    {
        let ghost o = self.entries@;
        match self.find(session) {
            Some(i) => {
                proof {
                    lemma_last_index_bound(o, session@);
                }
                let key = self.entries[i].0.clone();
                self.entries.set(i, (key, revision, value));
                proof {
                    let e = self.entries@;
                    lemma_last_index_is(e, session@, i as int);
                    assert forall|s: Seq<char>| s != session@ implies latest_change(e, s)
                        == latest_change(o, s) by {
                        lemma_last_index_bound(o, s);
                        match last_index(o, s) {
                            Some(j) => {
                                assert(j != i);
                                lemma_last_index_is(e, s, j);
                            },
                            None => {
                                lemma_last_index_none(e, s);
                            },
                        }
                    }
                }
            },
            None => {
                proof {
                    lemma_last_index_bound(o, session@);
                }
                self.entries.push((owned(session), revision, value));
                proof {
                    let e = self.entries@;
                    lemma_last_index_is(e, session@, o.len() as int);
                    assert forall|s: Seq<char>| s != session@ implies latest_change(e, s)
                        == latest_change(o, s) by {
                        lemma_last_index_bound(o, s);
                        match last_index(o, s) {
                            Some(j) => {
                                lemma_last_index_is(e, s, j);
                            },
                            None => {
                                lemma_last_index_none(e, s);
                            },
                        }
                    }
                }
            },
        }
    }
}

/// The revision the next change of a session gets: one more than its
/// latest, or 1.
pub open spec fn next_revision<T>(latest: Option<(u64, T)>) -> int {
    match latest {
        Some((r, _)) => r + 1,
        None => 1,
    }
}

/// Whether no session has used up the revision numbers.
pub open spec fn revisions_left<T>(entries: Seq<(String, u64, T)>) -> bool {
    forall|i: int| 0 <= i < entries.len() ==> (#[trigger] entries[i]).1 < u64::MAX
}

/// Stamps a queued message's plan and permission changes with the next
/// revision of its session (recording them as the session's latest), unless
/// they already carry one.
pub fn stamp_turn_revisions(
    overrides: &mut TurnOverrides,
    session_id: &str,
    plan_changes: &mut SessionChanges<bool>,
    permission_changes: &mut SessionChanges<String>,
)
    requires
        revisions_left(old(plan_changes).entries@),
        revisions_left(old(permission_changes).entries@),
    ensures
        final(overrides).model == old(overrides).model,
        final(overrides).permission_mode == old(overrides).permission_mode,
        final(overrides).plan_mode == old(overrides).plan_mode,
        final(overrides).reasoning_level == old(overrides).reasoning_level,
        if old(overrides).plan_revision is None && old(overrides).plan_mode is Some {
            &&& final(overrides).plan_revision == Some(
                next_revision(latest_change(old(plan_changes).entries@, session_id@)) as u64,
            )
            &&& latest_change(final(plan_changes).entries@, session_id@) == Some(
                (final(overrides).plan_revision.unwrap(), old(overrides).plan_mode.unwrap()),
            )
            &&& forall|s: Seq<char>| s != session_id@ ==> latest_change(final(plan_changes).entries@, s)
                == latest_change(old(plan_changes).entries@, s)
        } else {
            final(overrides).plan_revision == old(overrides).plan_revision && *final(plan_changes)
                == *old(plan_changes)
        },
        if old(overrides).permission_revision is None && old(overrides).permission_mode is Some {
            &&& final(overrides).permission_revision == Some(
                next_revision(latest_change(old(permission_changes).entries@, session_id@)) as u64,
            )
            &&& latest_change(final(permission_changes).entries@, session_id@) matches Some((r, m))
                && r == final(overrides).permission_revision.unwrap() && m@
                == old(overrides).permission_mode.unwrap()@
            &&& forall|s: Seq<char>|
                s != session_id@ ==> latest_change(final(permission_changes).entries@, s)
                    == latest_change(old(permission_changes).entries@, s)
        } else {
            final(overrides).permission_revision == old(overrides).permission_revision
                && *final(permission_changes) == *old(permission_changes)
        },
{
    if overrides.plan_revision.is_none() {
        if let Some(plan_mode) = overrides.plan_mode {
            let revision = match plan_changes.find(session_id) {
                Some(i) => {
                    proof {
                        lemma_last_index_bound(plan_changes.entries@, session_id@);
                    }
                    plan_changes.entries[i].1 + 1
                },
                None => 1,
            };
            plan_changes.record(session_id, revision, plan_mode);
            overrides.plan_revision = Some(revision);
        }
    }
    if overrides.permission_revision.is_none() {
        match &overrides.permission_mode {
            Some(mode) => {
                let revision = match permission_changes.find(session_id) {
                    Some(i) => {
                        proof {
                            lemma_last_index_bound(permission_changes.entries@, session_id@);
                        }
                        permission_changes.entries[i].1 + 1
                    },
                    None => 1,
                };
                permission_changes.record(session_id, revision, mode.clone());
                overrides.permission_revision = Some(revision);
            },
            None => {},
        }
    }
}

/// The plan change a detached queued message applies: a newer recorded
/// change wins over its own; otherwise its own, with its revision (or the
/// next one when it has none).
pub open spec fn plan_change_spec<T>(
    latest: Option<(u64, T)>,
    requested: T,
    revision: Option<u64>,
) -> (int, T) {
    match (revision, latest) {
        (Some(r), Some((l, m))) => if l > r {
            (l as int, m)
        } else {
            (r as int, requested)
        },
        (Some(r), None) => (r as int, requested),
        (None, latest) => (next_revision(latest), requested),
    }
}

/// Changes made while messages wait in the queue apply in revision order:
/// the revision a queued change resolves to is never older than the
/// session's latest recorded change nor than the message's own, and a
/// message whose revision is older than the latest change takes that
/// change's value instead of its own.
pub proof fn law_queued_changes_apply_in_revision_order<T>(
    latest: Option<(u64, T)>,
    requested: T,
    revision: Option<u64>,
)
    ensures
        latest matches Some(p) ==> plan_change_spec(latest, requested, revision).0 >= p.0,
        revision matches Some(r) ==> plan_change_spec(latest, requested, revision).0 >= r,
        latest matches Some(p) ==> (revision matches Some(r) ==> (p.0 > r ==> plan_change_spec(
            latest,
            requested,
            revision,
        ) == (p.0 as int, p.1))),
        revision is None ==> plan_change_spec(latest, requested, revision).1 == requested,
{
}

/// The plan change a detached queued message applies.
pub fn resolve_plan_change(
    changes: &SessionChanges<bool>,
    session_id: &str,
    requested: bool,
    revision: Option<u64>,
) -> (r: (u64, bool))
    requires
        revisions_left(changes.entries@),
    ensures
        (r.0 as int, r.1) == plan_change_spec(
            latest_change(changes.entries@, session_id@),
            requested,
            revision,
        ),
{
    let latest = match changes.find(session_id) {
        Some(i) => {
            proof {
                lemma_last_index_bound(changes.entries@, session_id@);
            }
            Some((changes.entries[i].1, changes.entries[i].2))
        },
        None => None,
    };
    match revision {
        Some(r) => match latest {
            Some((l, m)) => if l > r {
                (l, m)
            } else {
                (r, requested)
            },
            None => (r, requested),
        },
        None => match latest {
            Some((l, _)) => (l + 1, requested),
            None => (1, requested),
        },
    }
}

/// The permission change a detached queued message applies.
pub fn resolve_permission_change(
    changes: &SessionChanges<String>,
    session_id: &str,
    requested: String,
    revision: Option<u64>,
) -> (r: (u64, String))
    requires
        revisions_left(changes.entries@),
    ensures
        ({
            let s = plan_change_spec(latest_change(changes.entries@, session_id@), requested, revision);
            r.0 as int == s.0 && r.1@ == s.1@
        }),
{
    let found = changes.find(session_id);
    proof {
        lemma_last_index_bound(changes.entries@, session_id@);
    }
    match revision {
        Some(r) => match found {
            Some(i) => {
                let l = changes.entries[i].1;
                if l > r {
                    (l, changes.entries[i].2.clone())
                } else {
                    (r, requested)
                }
            },
            None => (r, requested),
        },
        None => match found {
            Some(i) => (changes.entries[i].1 + 1, requested),
            None => (1, requested),
        },
    }
}

// ---------------------------------------------------------------------------
// Recovering a failed turn
// ---------------------------------------------------------------------------

/// What the store holds about a turn that recovery reads.
pub struct ChatTurnRecord {
    pub id: String,
    /// `preparing`, `retrying`, `running`, `completed` or `failed`.
    pub state: String,
    /// The recovery a failed turn offers: `retry` or `continue`.
    pub recovery_action: Option<String>,
    /// `not_sent`, `rejected`, `accepted` or `unknown`.
    pub delivery_state: String,
    /// The turn that already recovered this one.
    pub recovered_by_turn_id: Option<String>,
}

/// How a recovery request is answered before any work starts.
pub enum RecoveryAdmission {
    /// The recovery already happened or is under way: this turn answers.
    Existing(String),
    /// Send the original message again.
    Retry,
    /// Ask the harness to continue the possibly delivered request.
    Continue,
}

/// The recovery a request for `action` on `turn` comes to, as views.
pub enum RecoveryPlan {
    Existing(Seq<char>),
    Retry,
    Continue,
    Refused(Seq<char>),
}

/// The turn's state is one a retry is already working through.
pub open spec fn retry_in_flight(state: Seq<char>) -> bool {
    state == "preparing"@ || state == "retrying"@ || state == "running"@ || state == "completed"@
}

/// Whether a recovery request is admitted, and as what: a recovered turn
/// answers with its successor; a retry already in flight answers with the
/// turn itself; only a failed turn offering exactly this action proceeds, a
/// retry only when the harness certainly never took the message, a continue
/// only when it may have.
pub open spec fn recovery_plan(turn: ChatTurnRecord, action: Seq<char>) -> RecoveryPlan {
    match turn.recovered_by_turn_id {
        Some(by) => RecoveryPlan::Existing(by@),
        None => if action == "retry"@ && retry_in_flight(turn.state@) {
            RecoveryPlan::Existing(turn.id@)
        } else if turn.state@ != "failed"@ || !(turn.recovery_action matches Some(a) && a@ == action) {
            RecoveryPlan::Refused("this recovery action is no longer available"@)
        } else if action != "retry"@ && action != "continue"@ {
            RecoveryPlan::Refused("recovery action must be retry or continue"@)
        } else if action == "retry"@ && !(turn.delivery_state@ == "not_sent"@
            || turn.delivery_state@ == "rejected"@) {
            RecoveryPlan::Refused("an accepted or uncertain turn cannot be replayed"@)
        } else if action == "continue"@ && !(turn.delivery_state@ == "accepted"@
            || turn.delivery_state@ == "unknown"@) {
            RecoveryPlan::Refused("a turn that was not accepted should be retried instead"@)
        } else if action == "retry"@ {
            RecoveryPlan::Retry
        } else {
            RecoveryPlan::Continue
        },
    }
}

/// Admits or refuses a recovery request for a failed turn.
pub fn admit_recovery(turn: &ChatTurnRecord, action: &str) -> (r: Result<RecoveryAdmission, String>)
    ensures
        match r {
            Ok(RecoveryAdmission::Existing(id)) => recovery_plan(*turn, action@)
                == RecoveryPlan::Existing(id@),
            Ok(RecoveryAdmission::Retry) => recovery_plan(*turn, action@) is Retry,
            Ok(RecoveryAdmission::Continue) => recovery_plan(*turn, action@) is Continue,
            Err(m) => recovery_plan(*turn, action@) == RecoveryPlan::Refused(m@),
        },
{
    if let Some(by) = &turn.recovered_by_turn_id {
        return Ok(RecoveryAdmission::Existing(by.clone()));
    }
    let st = turn.state.as_str();
    let is_retry = str_eq(action, "retry");
    if is_retry && (str_eq(st, "preparing") || str_eq(st, "retrying") || str_eq(st, "running")
        || str_eq(st, "completed")) {
        return Ok(RecoveryAdmission::Existing(turn.id.clone()));
    }
    let offered = match &turn.recovery_action {
        Some(a) => str_eq(a.as_str(), action),
        None => false,
    };
    if !str_eq(st, "failed") || !offered {
        return Err(owned("this recovery action is no longer available"));
    }
    let is_continue = str_eq(action, "continue");
    if !is_retry && !is_continue {
        return Err(owned("recovery action must be retry or continue"));
    }
    let d = turn.delivery_state.as_str();
    if is_retry && !(str_eq(d, "not_sent") || str_eq(d, "rejected")) {
        return Err(owned("an accepted or uncertain turn cannot be replayed"));
    }
    if is_continue && !(str_eq(d, "accepted") || str_eq(d, "unknown")) {
        return Err(owned("a turn that was not accepted should be retried instead"));
    }
    if is_retry {
        Ok(RecoveryAdmission::Retry)
    } else {
        Ok(RecoveryAdmission::Continue)
    }
}

/// Recovery never resends a message the harness may have taken: a retry is
/// admitted only for a turn whose delivery state is `not_sent` or
/// `rejected`, a continue only for one that is `accepted` or `unknown`, and
/// either only for a failed turn that offered that action.
pub proof fn law_recovery_respects_delivery_certainty(turn: ChatTurnRecord, action: Seq<char>)
    ensures
        recovery_plan(turn, action) is Retry ==> (turn.delivery_state@ == "not_sent"@
            || turn.delivery_state@ == "rejected"@) && turn.state@ == "failed"@,
        recovery_plan(turn, action) is Continue ==> (turn.delivery_state@ == "accepted"@
            || turn.delivery_state@ == "unknown"@) && turn.state@ == "failed"@,
        (recovery_plan(turn, action) is Retry || recovery_plan(turn, action) is Continue) ==> (
        turn.recovery_action matches Some(a) && a@ == action),
{
}

/// The plan mode a recovered turn sets, and whether Codex must first leave
/// a plan it was in: only when Plan is switched off on Codex while the
/// session was (or was still leaving) in Plan.
pub fn plan_reset_pending(plan_mode: bool, harness: &str, session_plan_mode: bool, session_reset_pending: bool) -> (r: bool)
    ensures
        r == (!plan_mode && harness@ == "codex"@ && (session_plan_mode || session_reset_pending)),
{
    !plan_mode && str_eq(harness, "codex") && (session_plan_mode || session_reset_pending)
}

// ---------------------------------------------------------------------------
// The parts a recovery keeps
// ---------------------------------------------------------------------------

/// A part recovery rows leave behind: the retry and recovery status rows.
pub open spec fn is_recovery_row(p: WirePart) -> bool {
    p.id@ == "turn-retry"@ || p.id@ == "turn-recovery"@
}

/// A failed tool row: the error status row of the turn that failed.
pub open spec fn is_error_row(p: WirePart) -> bool {
    (p.tool matches Some(t) && t@ == "error"@) && (p.state matches Some(st) && st.status@ == "error"@)
}

/// The parts that are kept, in order.
pub open spec fn kept_parts(parts: Seq<WirePart>, drop_errors: bool) -> Seq<WirePart>
    decreases parts.len(),
{
    if parts.len() == 0 {
        Seq::empty()
    } else {
        let p = parts.last();
        kept_parts(parts.drop_last(), drop_errors) + if is_recovery_row(p) || (drop_errors
            && is_error_row(p)) {
            Seq::empty()
        } else {
            seq![p]
        }
    }
}

/// Recovering a turn drops only its own rows: the retry and recovery rows,
/// and (when errors are dropped) a part of the `error` tool in state
/// `error`. Every other part, an ordinary tool call that ended in error
/// included, is kept; and everything kept was in the answer and is no
/// retry or recovery row.
pub proof fn law_recovery_drops_only_its_own_rows(parts: Seq<WirePart>, drop_errors: bool, i: int)
    requires
        0 <= i < parts.len(),
    ensures
        !(parts[i].id@ == "turn-retry"@ || parts[i].id@ == "turn-recovery"@ || (drop_errors
            && (parts[i].tool matches Some(t) && t@ == "error"@) && (parts[i].state matches Some(
            st,
        ) && st.status@ == "error"@))) ==> kept_parts(parts, drop_errors).contains(parts[i]),
        forall|x: WirePart| #[trigger]
            kept_parts(parts, drop_errors).contains(x) ==> parts.contains(x) && !(x.id@
                == "turn-retry"@ || x.id@ == "turn-recovery"@),
    decreases parts.len(),
{
    let d = parts.drop_last();
    let k = kept_parts(parts, drop_errors);
    let kd = kept_parts(d, drop_errors);
    let p = parts[i];
    assert(parts.last() == parts[parts.len() - 1]);
    if d.len() > 0 {
        let j = if i < d.len() { i } else { 0 };
        law_recovery_drops_only_its_own_rows(d, drop_errors, j);
    }
    assert forall|x: WirePart| #[trigger] k.contains(x) implies parts.contains(x) && !(x.id@
        == "turn-retry"@ || x.id@ == "turn-recovery"@) by {
        let j = choose|j: int| 0 <= j < k.len() && k[j] == x;
        if j < kd.len() {
            assert(kd[j] == x);
            assert(kd.contains(x));
            let q = choose|q: int| 0 <= q < d.len() && d[q] == x;
            assert(parts[q] == x);
        } else {
            assert(x == parts.last());
            assert(parts[parts.len() - 1] == x);
        }
    }
    if i == parts.len() - 1 {
        if !(is_recovery_row(p) || (drop_errors && is_error_row(p))) {
            assert(k[k.len() - 1] == p);
        }
    } else {
        assert(d[i] == p);
        law_recovery_drops_only_its_own_rows(d, drop_errors, i);
        if kd.contains(p) {
            let j = choose|j: int| 0 <= j < kd.len() && kd[j] == p;
            assert(k[j] == p);
        }
    }
}

fn is_dropped(p: &WirePart, drop_errors: bool) -> (r: bool)
    ensures
        r == (is_recovery_row(*p) || (drop_errors && is_error_row(*p))),
{
    let row = str_eq(p.id.as_str(), "turn-retry") || str_eq(p.id.as_str(), "turn-recovery");
    let error_tool = match &p.tool {
        Some(t) => str_eq(t.as_str(), "error"),
        None => false,
    };
    let error_state = match &p.state {
        Some(st) => str_eq(st.status.as_str(), "error"),
        None => false,
    };
    row || (drop_errors && error_tool && error_state)
}

/// The parts of a failed turn's answer that survive its recovery: without
/// the retry and recovery rows and, for a retry (`drop_errors`), without
/// the error rows of the failed attempt.
pub fn retained_parts(parts: Vec<WirePart>, drop_errors: bool) -> (r: Vec<WirePart>)
    ensures
        r@ == kept_parts(parts@, drop_errors),
{
    let ghost orig = parts@;
    let mut out: Vec<WirePart> = Vec::new();
    let mut rest = parts;
    let mut k: usize = 0;
    let n = rest.len();
    while rest.len() > 0
        invariant
            n == orig.len(),
            k + rest@.len() == n,
            rest@ == orig.skip(k as int),
            out@ == kept_parts(orig.take(k as int), drop_errors),
        decreases rest@.len(),
    {
        let ghost idx = k as int;
        let x = rest.remove(0);
        assert(x == orig[idx]);
        assert(rest@ =~= orig.skip(idx + 1));
        let ghost t = orig.take(idx + 1);
        assert(t.drop_last() =~= orig.take(idx));
        assert(t.last() == x);
        if !is_dropped(&x, drop_errors) {
            out.push(x);
        }
        assert(out@ =~= kept_parts(t, drop_errors));
        k = k + 1;
    }
    assert(orig.take(n as int) =~= orig);
    out
}

// ---------------------------------------------------------------------------
// Attachments
// ---------------------------------------------------------------------------

/// The accepted attachment types are exactly PNG, JPEG, GIF, WebP and PDF,
/// each with its canonical extension; every other type is refused.
pub proof fn law_accepted_attachment_types()
    ensures
        image_ext_spec("image/png"@) == Some("png"@),
        image_ext_spec("image/jpeg"@) == Some("jpg"@),
        image_ext_spec("image/gif"@) == Some("gif"@),
        image_ext_spec("image/webp"@) == Some("webp"@),
        image_ext_spec("application/pdf"@) == Some("pdf"@),
        forall|m: Seq<char>| m != "image/png"@ && m != "image/jpeg"@ && m != "image/gif"@ && m != "image/webp"@ && m != "application/pdf"@ ==> #[trigger] image_ext_spec(m) is None,
{
    reveal_strlit("image/png");
    reveal_strlit("image/jpeg");
    reveal_strlit("image/gif");
    reveal_strlit("image/webp");
    reveal_strlit("application/pdf");
    assert("image/png"@.len() == 9);
    assert("image/jpeg"@.len() == 10);
    assert("image/gif"@.len() == 9);
    assert("image/webp"@.len() == 10);
    assert("application/pdf"@.len() == 15);
    assert("image/png"@[6] != "image/gif"@[6]);
    assert("image/jpeg"@[6] != "image/webp"@[6]);
}

/// The file extension of an accepted attachment type.
pub open spec fn image_ext_spec(media_type: Seq<char>) -> Option<Seq<char>> {
    if media_type == "image/png"@ {
        Some("png"@)
    } else if media_type == "image/jpeg"@ {
        Some("jpg"@)
    } else if media_type == "image/gif"@ {
        Some("gif"@)
    } else if media_type == "image/webp"@ {
        Some("webp"@)
    } else if media_type == "application/pdf"@ {
        Some("pdf"@)
    } else {
        None
    }
}

/// The file extension of an accepted attachment type.
pub fn image_ext(media_type: &str) -> (r: Option<&'static str>)
    ensures
        match r {
            Some(e) => image_ext_spec(media_type@) == Some(e@),
            None => image_ext_spec(media_type@) is None,
        },
{
    if str_eq(media_type, "image/png") {
        Some("png")
    } else if str_eq(media_type, "image/jpeg") {
        Some("jpg")
    } else if str_eq(media_type, "image/gif") {
        Some("gif")
    } else if str_eq(media_type, "image/webp") {
        Some("webp")
    } else if str_eq(media_type, "application/pdf") {
        Some("pdf")
    } else {
        None
    }
}

/// The part of a path after its last `/` or `\`.
pub open spec fn base_name(s: Seq<char>) -> Seq<char>
    decreases s.len(),
{
    if s.len() == 0 {
        s
    } else if s.last() == '/' || s.last() == '\\' {
        Seq::empty()
    } else {
        base_name(s.drop_last()).push(s.last())
    }
}

/// A name without its last `.` extension.
pub open spec fn stem_of(s: Seq<char>) -> Seq<char> {
    if exists|i: int| 0 <= i < s.len() && s[i] == '.' {
        let i = choose|i: int| 0 <= i < s.len() && s[i] == '.' && forall|j: int| i < j < s.len() ==> s[j] != '.';
        s.take(i)
    } else {
        s
    }
}

/// A character kept as it is in an attachment name.
pub open spec fn name_char(c: char) -> bool {
    ('0' <= c <= '9') || ('a' <= c <= 'z') || ('A' <= c <= 'Z') || c == '-' || c == '_'
}

/// The name with every other character replaced by `-`.
pub open spec fn cleaned(s: Seq<char>) -> Seq<char> {
    s.map_values(|c: char| if name_char(c) { c } else { '-' })
}

/// `s` without leading dashes.
pub open spec fn dash_front(s: Seq<char>) -> Seq<char>
    decreases s.len(),
{
    if s.len() > 0 && s[0] == '-' {
        dash_front(s.drop_first())
    } else {
        s
    }
}

/// `s` without trailing dashes.
pub open spec fn dash_back(s: Seq<char>) -> Seq<char>
    decreases s.len(),
{
    if s.len() > 0 && s.last() == '-' {
        dash_back(s.drop_last())
    } else {
        s
    }
}

/// `s` without leading and trailing dashes.
pub open spec fn trim_dashes(s: Seq<char>) -> Seq<char> {
    dash_back(dash_front(s))
}

proof fn lemma_dash_front_skip(s: Seq<char>, i: int)
    requires
        0 <= i <= s.len(),
        forall|k: int| 0 <= k < i ==> #[trigger] s[k] == '-',
    ensures
        dash_front(s) == dash_front(s.subrange(i, s.len() as int)),
    decreases i,
{
    if i > 0 {
        assert(s.drop_first().subrange(i - 1, s.drop_first().len() as int) =~= s.subrange(i, s.len() as int));
        assert forall|k: int| 0 <= k < i - 1 implies #[trigger] s.drop_first()[k] == '-' by {
            assert(s.drop_first()[k] == s[k + 1]);
        }
        lemma_dash_front_skip(s.drop_first(), i - 1);
    } else {
        assert(s.subrange(0, s.len() as int) =~= s);
    }
}

proof fn lemma_dash_back_cut(s: Seq<char>, j: int)
    requires
        0 <= j <= s.len(),
        forall|k: int| j <= k < s.len() ==> #[trigger] s[k] == '-',
    ensures
        dash_back(s) == dash_back(s.subrange(0, j)),
    decreases s.len() - j,
{
    if j < s.len() {
        assert(s.drop_last().subrange(0, j) =~= s.subrange(0, j));
        assert forall|k: int| j <= k < s.drop_last().len() implies #[trigger] s.drop_last()[k] == '-' by {
            assert(s.drop_last()[k] == s[k]);
        }
        lemma_dash_back_cut(s.drop_last(), j);
    } else {
        assert(s.subrange(0, j) =~= s);
    }
}

/// The bounds of `v` without leading and trailing dashes.
fn dash_bounds(v: &Vec<char>) -> (r: (usize, usize))
    ensures
        r.0 <= r.1 <= v@.len(),
        v@.subrange(r.0 as int, r.1 as int) == trim_dashes(v@),
{
    let mut lo: usize = 0;
    while lo < v.len() && v[lo] == '-'
        invariant
            lo <= v@.len(),
            forall|k: int| 0 <= k < lo ==> #[trigger] v@[k] == '-',
        decreases v@.len() - lo,
    {
        lo = lo + 1;
    }
    proof {
        lemma_dash_front_skip(v@, lo as int);
    }
    let ghost rest = v@.subrange(lo as int, v@.len() as int);
    assert(rest.len() > 0 ==> rest[0] == v@[lo as int]);
    assert(dash_front(rest) == rest);
    let mut hi: usize = v.len();
    while hi > lo && v[hi - 1] == '-'
        invariant
            lo <= hi <= v@.len(),
            forall|k: int| hi <= k < v@.len() ==> #[trigger] v@[k] == '-',
        decreases hi,
    {
        hi = hi - 1;
    }
    proof {
        let r = v@.subrange(lo as int, v@.len() as int);
        assert forall|k: int| hi - lo <= k < r.len() implies #[trigger] r[k] == '-' by {
            assert(r[k] == v@[lo + k]);
        }
        lemma_dash_back_cut(r, hi - lo);
        assert(r.subrange(0, hi - lo) =~= v@.subrange(lo as int, hi as int));
        let t = v@.subrange(lo as int, hi as int);
        if t.len() > 0 {
            assert(t.last() == v@[hi - 1]);
        }
    }
    (lo, hi)
}

/// The server-minted form of an attachment's name: its base name without
/// extension, every character outside ASCII alphanumerics, `-` and `_`
/// replaced by `-`, dashes trimmed, at most 60 characters; `document` or
/// `image` when nothing is left; then `.` and the canonical extension.
pub open spec fn safe_attachment_name_spec(original: Option<Seq<char>>, ext: Seq<char>) -> Seq<char> {
    let base = match original {
        Some(n) => stem_of(base_name(n)),
        None => Seq::empty(),
    };
    let t = trim_dashes(cleaned(base));
    let safe = if t.len() > 60 { t.take(60) } else { t };
    let named = if safe.len() == 0 {
        if ext == "pdf"@ { "document"@ } else { "image"@ }
    } else {
        safe
    };
    named + "."@ + ext
}

/// Every character is a name character.
pub open spec fn all_name_chars(s: Seq<char>) -> bool {
    forall|i: int| 0 <= i < s.len() ==> name_char(#[trigger] s[i])
}

proof fn lemma_dash_front_keeps(s: Seq<char>)
    requires
        all_name_chars(s),
    ensures
        all_name_chars(dash_front(s)),
    decreases s.len(),
{
    if s.len() > 0 && s[0] == '-' {
        assert forall|i: int| 0 <= i < s.drop_first().len() implies name_char(#[trigger] s.drop_first()[i]) by {
            assert(s.drop_first()[i] == s[i + 1]);
        }
        lemma_dash_front_keeps(s.drop_first());
    }
}

proof fn lemma_dash_back_keeps(s: Seq<char>)
    requires
        all_name_chars(s),
    ensures
        all_name_chars(dash_back(s)),
    decreases s.len(),
{
    if s.len() > 0 && s.last() == '-' {
        assert forall|i: int| 0 <= i < s.drop_last().len() implies name_char(#[trigger] s.drop_last()[i]) by {
            assert(s.drop_last()[i] == s[i]);
        }
        lemma_dash_back_keeps(s.drop_last());
    }
}

/// A server-minted attachment name is one plain path component: name
/// characters (ASCII letters, digits, `-`, `_`), at most 60 of them and at
/// least one, then `.` and the extension. No separator or `..` can come
/// from the client's file name.
pub proof fn law_attachment_names_are_plain(original: Option<Seq<char>>, ext: Seq<char>)
    ensures
        ({
            let r = safe_attachment_name_spec(original, ext);
            let n = r.len() - ext.len() - 1;
            &&& 1 <= n <= 60
            &&& r.skip(n) == "."@ + ext
            &&& all_name_chars(r.take(n))
        }),
{
    reveal_strlit("document");
    reveal_strlit("image");
    reveal_strlit(".");
    let base = match original {
        Some(n) => stem_of(base_name(n)),
        None => Seq::empty(),
    };
    let c = cleaned(base);
    assert(all_name_chars(c));
    lemma_dash_front_keeps(c);
    lemma_dash_back_keeps(dash_front(c));
    let t = trim_dashes(c);
    let safe = if t.len() > 60 { t.take(60) } else { t };
    assert(all_name_chars(safe));
    let named = if safe.len() == 0 {
        if ext == "pdf"@ { "document"@ } else { "image"@ }
    } else {
        safe
    };
    assert(all_name_chars(named));
    let r = named + "."@ + ext;
    assert(r == safe_attachment_name_spec(original, ext));
    assert(r.skip(named.len() as int) =~= "."@ + ext);
    assert(r.take(named.len() as int) =~= named);
}

/// The server-minted form of an attachment's name.
pub fn safe_attachment_name(original: Option<&str>, ext: &str) -> (r: String)
    ensures
        r@ == safe_attachment_name_spec(
            match original {
                Some(n) => Some(n@),
                None => None,
            },
            ext@,
        ),
{
    let mut cleaned_chars: Vec<char> = Vec::new();
    match original {
        Some(n) => {
            let v = chars_of(n);
            // The base name starts after the last separator.
            let mut b: usize = v.len();
            while b > 0 && v[b - 1] != '/' && v[b - 1] != '\\'
                invariant
                    b <= v@.len(),
                    v@ == n@,
                    forall|k: int| b <= k < v@.len() ==> v@[k] != '/' && v@[k] != '\\',
                decreases b,
            {
                b = b - 1;
            }
            proof {
                lemma_base_name(v@, b as int);
            }
            // The stem ends at the last dot of the base name.
            let mut e: usize = v.len();
            while e > b && v[e - 1] != '.'
                invariant
                    b <= e <= v@.len(),
                    forall|k: int| e <= k < v@.len() ==> v@[k] != '.',
                decreases e,
            {
                e = e - 1;
            }
            let end = if e > b {
                e - 1
            } else {
                v.len()
            };
            proof {
                let base = v@.subrange(b as int, v@.len() as int);
                if e > b {
                    let i = e - 1 - b;
                    assert(base[i] == '.');
                    let c = choose|x: int| 0 <= x < base.len() && base[x] == '.' && forall|j: int| x < j < base.len() ==> base[j] != '.';
                    if c < i {
                        assert(base[i] != '.');
                    } else if c > i {
                        assert(base[c] == v@[b + c]);
                    }
                    assert(base.take(i) =~= v@.subrange(b as int, end as int));
                } else {
                    assert forall|x: int| 0 <= x < base.len() implies base[x] != '.' by {
                        assert(base[x] == v@[b + x]);
                    }
                    assert(base =~= v@.subrange(b as int, end as int));
                }
            }
            let mut i: usize = b;
            while i < end
                invariant
                    b <= i <= end <= v@.len(),
                    cleaned_chars@ == cleaned(v@.subrange(b as int, i as int)),
                decreases end - i,
            {
                let c = v[i];
                let keep = ('0' <= c && c <= '9') || ('a' <= c && c <= 'z') || ('A' <= c && c <= 'Z')
                    || c == '-' || c == '_';
                cleaned_chars.push(if keep {
                    c
                } else {
                    '-'
                });
                assert(cleaned_chars@ =~= cleaned(v@.subrange(b as int, i + 1)));
                i = i + 1;
            }
        },
        None => {
            assert(cleaned_chars@ =~= cleaned(Seq::<char>::empty()));
        },
    }
    let (lo, hi) = dash_bounds(&cleaned_chars);
    let hi = if hi - lo > 60 {
        lo + 60
    } else {
        hi
    };
    let mut out = string_of_range(&cleaned_chars, lo, hi);
    if lo == hi {
        out = if str_eq(ext, "pdf") {
            owned("document")
        } else {
            owned("image")
        };
    }
    proof {
        let t = trim_dashes(cleaned_chars@);
        if t.len() > 60 {
            assert(t.take(60) =~= cleaned_chars@.subrange(lo as int, hi as int));
        }
    }
    push_char(&mut out, '.');
    push_str(&mut out, ext);
    proof {
        reveal_strlit(".");
        assert(out@ =~= safe_attachment_name_spec(
            match original {
                Some(n) => Some(n@),
                None => None,
            },
            ext@,
        ));
    }
    out
}

/// The decoded bytes of base64 text, as the `base64` crate's standard
/// engine decodes it, or the text of its decode error.
pub uninterp spec fn base64_decoded(t: Seq<char>) -> Result<Seq<u8>, Seq<char>>;

/// Calls `base64::Engine::decode` on the standard engine; the bytes, or
/// the printed decode error, are named [`base64_decoded`].
#[verifier::external_body]
fn decode_base64(t: &str) -> (r: Result<Vec<u8>, String>)
    ensures
        match r {
            Ok(b) => base64_decoded(t@) == Ok::<Seq<u8>, Seq<char>>(b@),
            Err(e) => base64_decoded(t@) == Err::<Seq<u8>, Seq<char>>(e@),
        },
{
    base64::Engine::decode(&base64::engine::general_purpose::STANDARD, t.as_bytes()).map_err(|e| e.to_string())
}

/// A control character (general category Cc), as `char::is_control`
/// reports it: U+0000 to U+001F and U+007F to U+009F.
pub open spec fn is_control_char(c: char) -> bool {
    (c as u32) <= 0x1f || (0x7f <= (c as u32) && (c as u32) <= 0x9f)
}

/// The text without its control characters.
pub open spec fn without_controls(s: Seq<char>) -> Seq<char>
    decreases s.len(),
{
    if s.len() == 0 {
        s
    } else {
        without_controls(s.drop_last()) + if is_control_char(s.last()) {
            Seq::empty()
        } else {
            seq![s.last()]
        }
    }
}

/// The name an attachment is shown under: its original base name without
/// control characters (so it cannot break out of the block it is quoted
/// in), or the safe name when that leaves nothing.
pub open spec fn display_name_spec(original: Option<Seq<char>>, safe: Seq<char>) -> Seq<char> {
    match original {
        Some(n) => {
            let d = without_controls(base_name(n));
            if d.len() > 0 {
                d
            } else {
                safe
            }
        },
        None => safe,
    }
}

/// The shown name of an attachment.
fn display_name(original: Option<&str>, safe: &str) -> (r: String)
    ensures
        r@ == display_name_spec(
            match original {
                Some(n) => Some(n@),
                None => None,
            },
            safe@,
        ),
{
    let n = match original {
        Some(n) => n,
        None => {
            return owned(safe);
        },
    };
    let v = chars_of(n);
    let mut b: usize = v.len();
    while b > 0 && v[b - 1] != '/' && v[b - 1] != '\\'
        invariant
            b <= v@.len(),
            v@ == n@,
            forall|k: int| b <= k < v@.len() ==> v@[k] != '/' && v@[k] != '\\',
        decreases b,
    {
        b = b - 1;
    }
    proof {
        lemma_base_name(v@, b as int);
    }
    let ghost base = v@.subrange(b as int, v@.len() as int);
    let mut out = String::new();
    let mut i: usize = b;
    while i < v.len()
        invariant
            b <= i <= v@.len(),
            base == v@.subrange(b as int, v@.len() as int),
            out@ == without_controls(base.take(i - b)),
        decreases v@.len() - i,
    {
        let c = v[i];
        let ghost t = base.take(i - b + 1);
        assert(t.drop_last() =~= base.take(i - b));
        assert(t.last() == c);
        let u = c as u32;
        if !(u <= 0x1f || (0x7f <= u && u <= 0x9f)) {
            push_char(&mut out, c);
            assert(out@ =~= without_controls(base.take(i - b)) + seq![c]);
        } else {
            assert(without_controls(t) =~= without_controls(base.take(i - b)) + Seq::<char>::empty());
        }
        i = i + 1;
    }
    assert(base.take(base.len() as int) =~= base);
    if out.as_str().is_empty() {
        owned(safe)
    } else {
        out
    }
}

/// An attachment ready to be written: its server-minted file name, the
/// name it is shown under, whether it is a PDF, and its decoded bytes.
pub struct PreparedAttachment {
    pub file_name: String,
    pub display_name: String,
    pub is_pdf: bool,
    pub bytes: Vec<u8>,
}

/// The server-minted file name of an attachment: `att-<unique>__<safe name>`.
pub open spec fn attachment_file_name(unique: Seq<char>, original: Option<Seq<char>>, ext: Seq<char>) -> Seq<char> {
    "att-"@ + unique + "__"@ + safe_attachment_name_spec(original, ext)
}

/// The view of an optional string.
pub open spec fn opt_name(o: Option<String>) -> Option<Seq<char>> {
    match o {
        Some(s) => Some(s@),
        None => None,
    }
}

/// Prepares a pasted or uploaded attachment for writing under the unique
/// prefix `unique`: an accepted type, its base64 data decoded, and its
/// names; or why it cannot be saved.
pub fn prepare_attachment(img: &ImageAttachment, unique: &str) -> (r: Result<PreparedAttachment, String>)
    ensures
        match image_ext_spec(img.media_type@) {
            None => r matches Err(e) && e@ == "unsupported attachment type: "@ + img.media_type@,
            Some(ext) => match base64_decoded(img.data_base64@) {
                Err(m) => r matches Err(e) && e@ == "bad attachment data: "@ + m,
                Ok(b) => r matches Ok(p) && (p.bytes@ == b && p.file_name@ == attachment_file_name(
                    unique@,
                    opt_name(img.name),
                    ext,
                ) && p.display_name@ == display_name_spec(
                    opt_name(img.name),
                    safe_attachment_name_spec(opt_name(img.name), ext),
                ) && p.is_pdf == (ext == "pdf"@)),
            },
        },
{
    let ext = match image_ext(img.media_type.as_str()) {
        Some(e) => e,
        None => {
            let mut e = owned("unsupported attachment type: ");
            push_str(&mut e, img.media_type.as_str());
            return Err(e);
        },
    };
    let bytes = match decode_base64(img.data_base64.as_str()) {
        Ok(b) => b,
        Err(m) => {
            let mut e = owned("bad attachment data: ");
            push_str(&mut e, m.as_str());
            return Err(e);
        },
    };
    let name: Option<&str> = match &img.name {
        Some(n) => Some(n.as_str()),
        None => None,
    };
    let safe = safe_attachment_name(name, ext);
    let mut file_name = owned("att-");
    push_str(&mut file_name, unique);
    push_str(&mut file_name, "__");
    push_str(&mut file_name, safe.as_str());
    let display = display_name(name, safe.as_str());
    proof {
        reveal_strlit("pdf");
    }
    let is_pdf = str_eq(ext, "pdf");
    Ok(PreparedAttachment { file_name, display_name: display, is_pdf, bytes })
}

/// The base name is the text after the last separator.
proof fn lemma_base_name(s: Seq<char>, b: int)
    requires
        0 <= b <= s.len(),
        b == 0 || s[b - 1] == '/' || s[b - 1] == '\\',
        forall|k: int| b <= k < s.len() ==> s[k] != '/' && s[k] != '\\',
    ensures
        base_name(s) == s.subrange(b, s.len() as int),
    decreases s.len(),
{
    if s.len() == b {
        if b > 0 {
            assert(s.last() == s[b - 1]);
        }
        assert(s.subrange(b, s.len() as int) =~= Seq::<char>::empty());
    } else {
        let d = s.drop_last();
        assert(s.last() == s[s.len() - 1]);
        assert forall|k: int| b <= k < d.len() implies d[k] != '/' && d[k] != '\\' by {
            assert(d[k] == s[k]);
        }
        if b > 0 {
            assert(d[b - 1] == s[b - 1]);
        }
        lemma_base_name(d, b);
        assert(d.subrange(b, d.len() as int).push(s.last()) =~= s.subrange(b, s.len() as int));
    }
}

// ---------------------------------------------------------------------------
// Texts of a turn
// ---------------------------------------------------------------------------

/// The chip label of a queued message: its transcript text (or its text),
/// or an attachment count for an attachment-only message.
pub open spec fn queued_label_spec(text: Seq<char>, transcript_text: Option<Seq<char>>, images: nat) -> Seq<
    char,
> {
    let display = match transcript_text {
        Some(t) => t,
        None => text,
    };
    if trim_seq(display).len() > 0 || images == 0 {
        display
    } else {
        decimal(images) + " attachment"@ + if images == 1 {
            ""@
        } else {
            "s"@
        }
    }
}

/// The chip label of a queued message.
pub fn queued_label(text: &str, transcript_text: Option<&str>, images: usize) -> (r: String)
    ensures
        r@ == queued_label_spec(
            text@,
            match transcript_text {
                Some(t) => Some(t@),
                None => None,
            },
            images as nat,
        ),
{
    let display = match transcript_text {
        Some(t) => t,
        None => text,
    };
    if !is_blank(display) || images == 0 {
        return owned(display);
    }
    let mut out = String::new();
    push_decimal(&mut out, images as u64);
    push_str(&mut out, " attachment");
    if images != 1 {
        push_str(&mut out, "s");
    }
    proof {
        reveal_strlit("");
        assert(out@ =~= queued_label_spec(
            text@,
            match transcript_text {
                Some(t) => Some(t@),
                None => None,
            },
            images as nat,
        ));
    }
    out
}

/// The message a finished run leaves in the chat that started it: only a
/// run that ended `done` or `failed` wakes the chat (never a cancelled one).
pub open spec fn wakeup_text_spec(run_id: Seq<char>, status: Seq<char>, project_id: Seq<char>) -> Option<
    Seq<char>,
> {
    if status == "done"@ || status == "failed"@ {
        Some(
            "[orx] Run `"@ + run_id + "` finished with status **"@ + status
                + "**. You can compare this result with other project runs using `orx runs "@
                + project_id + "` and inspect this run's logs using `orx logs "@ + run_id + "`."@,
        )
    } else {
        None
    }
}

/// The wake-up message of a finished run.
pub fn run_wakeup_text(run_id: &str, status: &str, project_id: &str) -> (r: Option<String>)
    ensures
        match r {
            Some(t) => wakeup_text_spec(run_id@, status@, project_id@) == Some(t@),
            None => wakeup_text_spec(run_id@, status@, project_id@) is None,
        },
{
    if !(str_eq(status, "done") || str_eq(status, "failed")) {
        return None;
    }
    let mut out = owned("[orx] Run `");
    push_str(&mut out, run_id);
    push_str(&mut out, "` finished with status **");
    push_str(&mut out, status);
    push_str(
        &mut out,
        "**. You can compare this result with other project runs using `orx runs ",
    );
    push_str(&mut out, project_id);
    push_str(&mut out, "` and inspect this run's logs using `orx logs ");
    push_str(&mut out, run_id);
    push_str(&mut out, "`.");
    Some(out)
}

/// Whether `sessions[i]` is the first wake-up of its chat session.
pub open spec fn first_of_session(sessions: Seq<String>, i: int) -> bool {
    forall|k: int| 0 <= k < i ==> (#[trigger] sessions[k])@ != sessions[i]@
}

/// The wake-ups attempted in one tick, by index: the earliest per chat
/// session, in order.
pub fn first_wakeup_per_session(sessions: &Vec<String>) -> (r: Vec<usize>)
    ensures
        forall|j: int| 0 <= j < r@.len() ==> #[trigger] r@[j] < sessions@.len(),
        forall|j: int, k: int| 0 <= j < k < r@.len() ==> r@[j] < r@[k],
        forall|i: int|
            0 <= i < sessions@.len() ==> (first_of_session(sessions@, i) <==> r@.contains(i as usize)),
{
    let mut kept: Vec<usize> = Vec::new();
    let mut i: usize = 0;
    while i < sessions.len()
        invariant
            i <= sessions@.len(),
            forall|j: int| 0 <= j < kept@.len() ==> #[trigger] kept@[j] < i,
            forall|j: int, k: int| 0 <= j < k < kept@.len() ==> kept@[j] < kept@[k],
            forall|x: int| 0 <= x < i ==> (first_of_session(sessions@, x) <==> kept@.contains(x as usize)),
        decreases sessions@.len() - i,
    {
        let mut seen = false;
        let mut k: usize = 0;
        while k < i
            invariant
                k <= i < sessions@.len(),
                seen == exists|y: int| 0 <= y < k && (#[trigger] sessions@[y])@ == sessions@[i as int]@,
            decreases i - k,
        {
            if str_eq(sessions[k].as_str(), sessions[i].as_str()) {
                seen = true;
            }
            k = k + 1;
        }
        let ghost before = kept@;
        if !seen {
            kept.push(i);
        }
        assert forall|x: int| 0 <= x < i + 1 implies (first_of_session(sessions@, x)
            <==> kept@.contains(x as usize)) by {
            if x < i {
                if kept@.contains(x as usize) {
                    let j = choose|j: int| 0 <= j < kept@.len() && kept@[j] == x as usize;
                    if j == before.len() {
                        assert(false);
                    }
                    assert(before[j] == x as usize);
                }
                if before.contains(x as usize) {
                    let j = choose|j: int| 0 <= j < before.len() && before[j] == x as usize;
                    assert(kept@[j] == x as usize);
                }
            } else {
                if !seen {
                    assert(kept@[before.len() as int] == i);
                } else {
                    let y = choose|y: int| 0 <= y < i && (#[trigger] sessions@[y])@ == sessions@[i as int]@;
                    assert(!first_of_session(sessions@, x));
                    if kept@.contains(x as usize) {
                        let j = choose|j: int| 0 <= j < kept@.len() && kept@[j] == x as usize;
                        assert(before[j] < i);
                    }
                }
            }
        }
        i = i + 1;
    }
    kept
}

/// The shell hook that loads the user's `BASH_ENV` (when one was set) and
/// exports what a chat tool call needs to report its targets.
pub open spec fn bash_env_hook_spec(original: Option<Seq<char>>) -> Seq<char> {
    (match original {
        Some(v) => "_ORX_CHAT_USER_BASH_ENV="@ + sh_quote_spec(v)
            + "\neval \"_ORX_CHAT_USER_BASH_ENV=\\\"$_ORX_CHAT_USER_BASH_ENV\\\"\"\n[[ -r \"$_ORX_CHAT_USER_BASH_ENV\" ]] && source \"$_ORX_CHAT_USER_BASH_ENV\"\n"@,
        None => Seq::empty(),
    }) + "export ORX_CHAT_TOOL_SCOPE=\"bash-$$\"\nexport ORX_CHAT_TOOL_COMMAND=\"${BASH_EXECUTION_STRING-}\"\nif [[ -z \"${ORX_CHAT_TARGET_FILE-}\" && -r \"${ORX_CHAT_TARGET_POINTER-}\" ]]; then\nexport ORX_CHAT_TARGET_FILE=$(<\"$ORX_CHAT_TARGET_POINTER\")\nelif [[ -z \"${ORX_CHAT_TARGET_FILE-}\" ]]; then\nunset ORX_CHAT_TARGET_FILE\nfi\n"@
}

/// The `BASH_ENV` hook of a chat session's shells.
pub fn bash_env_hook(original: Option<&str>) -> (r: String)
    ensures
        r@ == bash_env_hook_spec(match original {
            Some(v) => Some(v@),
            None => None,
        }),
{
    let mut out = String::new();
    match original {
        Some(v) => {
            push_str(&mut out, "_ORX_CHAT_USER_BASH_ENV=");
            let q = sh_quote(v);
            push_str(&mut out, q.as_str());
            push_str(
                &mut out,
                "\neval \"_ORX_CHAT_USER_BASH_ENV=\\\"$_ORX_CHAT_USER_BASH_ENV\\\"\"\n[[ -r \"$_ORX_CHAT_USER_BASH_ENV\" ]] && source \"$_ORX_CHAT_USER_BASH_ENV\"\n",
            );
        },
        None => {},
    }
    push_str(
        &mut out,
        "export ORX_CHAT_TOOL_SCOPE=\"bash-$$\"\nexport ORX_CHAT_TOOL_COMMAND=\"${BASH_EXECUTION_STRING-}\"\nif [[ -z \"${ORX_CHAT_TARGET_FILE-}\" && -r \"${ORX_CHAT_TARGET_POINTER-}\" ]]; then\nexport ORX_CHAT_TARGET_FILE=$(<\"$ORX_CHAT_TARGET_POINTER\")\nelif [[ -z \"${ORX_CHAT_TARGET_FILE-}\" ]]; then\nunset ORX_CHAT_TARGET_FILE\nfi\n",
    );
    proof {
        assert(out@ =~= bash_env_hook_spec(match original {
            Some(v) => Some(v@),
            None => None,
        }));
    }
    out
}

/// The lines every chat shell hook ends with: they name the tool call's
/// scope and command and find the file its targets are reported to.
pub open spec fn zsh_target_lines() -> Seq<char> {
    "export ORX_CHAT_TOOL_SCOPE=\"zsh-$$\"\nexport ORX_CHAT_TOOL_COMMAND=\"${ZSH_EXECUTION_STRING-}\"\nif [[ -z \"${ORX_CHAT_TARGET_FILE-}\" && -r \"${ORX_CHAT_TARGET_POINTER-}\" ]]; then\nexport ORX_CHAT_TARGET_FILE=$(<\"$ORX_CHAT_TARGET_POINTER\")\nelif [[ -z \"${ORX_CHAT_TARGET_FILE-}\" ]]; then\nunset ORX_CHAT_TARGET_FILE\nfi\n"@
}

/// The `.zshenv` of a chat session's zsh: it sources the user's own
/// `.zshenv` from their `ZDOTDIR`, restores the shim's, and exports what a
/// tool call needs to report its targets.
pub open spec fn zshenv_hook_spec(original_zdotdir: Seq<char>) -> Seq<char> {
    "_ORX_CHAT_SHIM_ZDOTDIR=$ZDOTDIR\n_ORX_CHAT_USER_ZDOTDIR="@ + sh_quote_spec(original_zdotdir)
        + "\nZDOTDIR=$_ORX_CHAT_USER_ZDOTDIR\n[[ -r \"$ZDOTDIR/.zshenv\" ]] && source \"$ZDOTDIR/.zshenv\"\n_ORX_CHAT_USER_ZDOTDIR=$ZDOTDIR\nZDOTDIR=$_ORX_CHAT_SHIM_ZDOTDIR\n"@
        + zsh_target_lines()
}

/// The `.zshenv` hook of a chat session's zsh.
pub fn zshenv_hook(original_zdotdir: &str) -> (r: String)
    ensures
        r@ == zshenv_hook_spec(original_zdotdir@),
{
    let mut out = String::new();
    push_str(&mut out, "_ORX_CHAT_SHIM_ZDOTDIR=$ZDOTDIR\n_ORX_CHAT_USER_ZDOTDIR=");
    let q = sh_quote(original_zdotdir);
    push_str(&mut out, q.as_str());
    push_str(
        &mut out,
        "\nZDOTDIR=$_ORX_CHAT_USER_ZDOTDIR\n[[ -r \"$ZDOTDIR/.zshenv\" ]] && source \"$ZDOTDIR/.zshenv\"\n_ORX_CHAT_USER_ZDOTDIR=$ZDOTDIR\nZDOTDIR=$_ORX_CHAT_SHIM_ZDOTDIR\n",
    );
    push_str(
        &mut out,
        "export ORX_CHAT_TOOL_SCOPE=\"zsh-$$\"\nexport ORX_CHAT_TOOL_COMMAND=\"${ZSH_EXECUTION_STRING-}\"\nif [[ -z \"${ORX_CHAT_TARGET_FILE-}\" && -r \"${ORX_CHAT_TARGET_POINTER-}\" ]]; then\nexport ORX_CHAT_TARGET_FILE=$(<\"$ORX_CHAT_TARGET_POINTER\")\nelif [[ -z \"${ORX_CHAT_TARGET_FILE-}\" ]]; then\nunset ORX_CHAT_TARGET_FILE\nfi\n",
    );
    proof {
        assert(out@ =~= zshenv_hook_spec(original_zdotdir@));
    }
    out
}

/// A zsh startup file of a chat session (`.zprofile`, `.zshrc`, ...): it
/// sources the user's file of the same name from their `ZDOTDIR`, then
/// restores the shim's.
pub open spec fn zsh_startup_wrapper_spec(name: Seq<char>) -> Seq<char> {
    "_ORX_CHAT_SHIM_ZDOTDIR=$ZDOTDIR\nZDOTDIR=$_ORX_CHAT_USER_ZDOTDIR\n[[ -r \"$ZDOTDIR/"@ + name
        + "\" ]] && source \"$ZDOTDIR/"@ + name
        + "\"\n_ORX_CHAT_USER_ZDOTDIR=$ZDOTDIR\nZDOTDIR=$_ORX_CHAT_SHIM_ZDOTDIR\n"@
}

/// A zsh startup file of a chat session.
pub fn zsh_startup_wrapper(name: &str) -> (r: String)
    ensures
        r@ == zsh_startup_wrapper_spec(name@),
{
    let mut out = String::new();
    push_str(&mut out, "_ORX_CHAT_SHIM_ZDOTDIR=$ZDOTDIR\nZDOTDIR=$_ORX_CHAT_USER_ZDOTDIR\n[[ -r \"$ZDOTDIR/");
    push_str(&mut out, name);
    push_str(&mut out, "\" ]] && source \"$ZDOTDIR/");
    push_str(&mut out, name);
    push_str(&mut out, "\"\n_ORX_CHAT_USER_ZDOTDIR=$ZDOTDIR\nZDOTDIR=$_ORX_CHAT_SHIM_ZDOTDIR\n");
    proof {
        assert(out@ =~= zsh_startup_wrapper_spec(name@));
    }
    out
}


/// The hook files of a chat session's shell directory, in the order they
/// are written: zsh's `.zshenv`, then its other startup files, each
/// wrapping the user's own.
pub open spec fn shell_hook_files_spec(original_zdotdir: Seq<char>) -> Seq<(Seq<char>, Seq<char>)> {
    seq![
        (".zshenv"@, zshenv_hook_spec(original_zdotdir)),
        (".zprofile"@, zsh_startup_wrapper_spec(".zprofile"@)),
        (".zshrc"@, zsh_startup_wrapper_spec(".zshrc"@)),
        (".zlogin"@, zsh_startup_wrapper_spec(".zlogin"@)),
        (".zlogout"@, zsh_startup_wrapper_spec(".zlogout"@)),
    ]
}

/// The zsh hook files of a chat session's shell directory.
pub fn shell_hook_files(original_zdotdir: &str) -> (r: Vec<(&'static str, String)>)
    ensures
        r@.map_values(|f: (&'static str, String)| (f.0@, f.1@)) == shell_hook_files_spec(original_zdotdir@),
{
    let mut files: Vec<(&'static str, String)> = Vec::new();
    files.push((".zshenv", zshenv_hook(original_zdotdir)));
    files.push((".zprofile", zsh_startup_wrapper(".zprofile")));
    files.push((".zshrc", zsh_startup_wrapper(".zshrc")));
    files.push((".zlogin", zsh_startup_wrapper(".zlogin")));
    files.push((".zlogout", zsh_startup_wrapper(".zlogout")));
    assert(files@.map_values(|f: (&'static str, String)| (f.0@, f.1@)) =~= shell_hook_files_spec(
        original_zdotdir@,
    ));
    files
}

// ---------------------------------------------------------------------------
// The retry status of a turn
// ---------------------------------------------------------------------------

/// The part that shows a turn waiting to retry: a running `retry` tool
/// part `turn-retry` titled with the reason, whose input says who retries,
/// the attempt, the maximum and the time of the next try (numbers, or null
/// when unknown) and the turn.
pub open spec fn is_retry_status(
    p: WirePart,
    owner: Seq<char>,
    reason: Seq<char>,
    attempt: i64,
    maximum: Option<i64>,
    next_retry_at: Option<i64>,
    turn_id: Seq<char>,
) -> bool {
    &&& p.id@ == "turn-retry"@
    &&& p.kind@ == "tool"@
    &&& p.tool matches Some(t) && t@ == "retry"@
    &&& p.text is None && p.prompt is None && p.children@.len() == 0
    &&& p.state matches Some(s)
    &&& p.state.unwrap().status@ == "running"@
    &&& p.state.unwrap().error is None && p.state.unwrap().output is None
    &&& p.state.unwrap().title matches Some(t) && t@ == reason
    &&& p.state.unwrap().input matches Some(i)
    &&& p.state.unwrap().input.unwrap() is Object
    &&& string_value(member(p.state.unwrap().input.unwrap(), "retryOwner"@)) == Some(owner)
    &&& number_text(member(p.state.unwrap().input.unwrap(), "attempt"@)) == Some(signed_decimal(attempt as int))
    &&& number_text(member(p.state.unwrap().input.unwrap(), "maximum"@)) == number_view(maximum)
    &&& number_text(member(p.state.unwrap().input.unwrap(), "nextRetryAt"@)) == number_view(next_retry_at)
    &&& string_value(member(p.state.unwrap().input.unwrap(), "turnId"@)) == Some(turn_id)
}

/// The text of a JSON number, or none for null (and anything else).
pub open spec fn number_text(v: Option<JsonValue>) -> Option<Seq<char>> {
    match v {
        Some(JsonValue::Number(n)) => Some(n@),
        _ => None,
    }
}

/// The text an optional number is written as.
pub open spec fn number_view(n: Option<i64>) -> Option<Seq<char>> {
    match n {
        Some(v) => Some(signed_decimal(v as int)),
        None => None,
    }
}

/// A JSON number.
fn json_number(n: i64) -> (r: JsonValue)
    ensures
        r matches JsonValue::Number(t) && t@ == signed_decimal(n as int),
{
    let mut t = String::new();
    push_signed_decimal(&mut t, n);
    JsonValue::Number(t)
}

/// A JSON number, or null.
fn json_number_or_null(n: Option<i64>) -> (r: JsonValue)
    ensures
        number_text(Some(r)) == number_view(n),
        n is None ==> r == JsonValue::Null,
{
    match n {
        Some(v) => json_number(v),
        None => JsonValue::Null,
    }
}

/// The input of a retry status part.
fn retry_input(owner: &str, attempt: i64, maximum: Option<i64>, next_retry_at: Option<i64>, turn_id: &str) -> (r: JsonValue)
    ensures
        r is Object,
        string_value(member(r, "retryOwner"@)) == Some(owner@),
        number_text(member(r, "attempt"@)) == Some(signed_decimal(attempt as int)),
        number_text(member(r, "maximum"@)) == number_view(maximum),
        number_text(member(r, "nextRetryAt"@)) == number_view(next_retry_at),
        string_value(member(r, "turnId"@)) == Some(turn_id@),
{
    proof {
        reveal_strlit("retryOwner");
        reveal_strlit("attempt");
        reveal_strlit("maximum");
        reveal_strlit("nextRetryAt");
        reveal_strlit("turnId");
        assert("retryOwner"@.len() == 10);
        assert("attempt"@.len() == 7);
        assert("maximum"@.len() == 7);
        assert("nextRetryAt"@.len() == 11);
        assert("turnId"@.len() == 6);
        assert("attempt"@[0] != "maximum"@[0]);
    }
    let mut entries: Vec<(String, JsonValue)> = Vec::new();
    insert(&mut entries, "retryOwner", JsonValue::Str(owned(owner)));
    insert(&mut entries, "attempt", json_number(attempt));
    insert(&mut entries, "maximum", json_number_or_null(maximum));
    insert(&mut entries, "nextRetryAt", json_number_or_null(next_retry_at));
    insert(&mut entries, "turnId", JsonValue::Str(owned(turn_id)));
    JsonValue::Object(entries)
}

/// The part that shows a turn waiting to retry.
pub fn retry_status_part(
    owner: &str,
    reason: &str,
    attempt: i64,
    maximum: Option<i64>,
    next_retry_at: Option<i64>,
    turn_id: &str,
) -> (r: WirePart)
    ensures
        is_retry_status(r, owner@, reason@, attempt, maximum, next_retry_at, turn_id@),
{
    let input = retry_input(owner, attempt, maximum, next_retry_at, turn_id);
    let mut part = WirePart::tool("turn-retry", "retry", "running", None);
    let state = match part.state {
        Some(st) => Some(WireToolState { input: Some(input), title: Some(owned(reason)), ..st }),
        None => None,
    };
    part.state = state;
    part
}

// ---------------------------------------------------------------------------
// A new turn's title and attachments
// ---------------------------------------------------------------------------

/// The first line of some lines that is not blank, trimmed; empty when
/// there is none.
pub open spec fn first_nonblank(ls: Seq<Seq<char>>) -> Seq<char>
    decreases ls.len(),
{
    if ls.len() == 0 {
        Seq::empty()
    } else {
        let f = first_nonblank(ls.drop_last());
        if f.len() > 0 {
            f
        } else {
            trim_seq(ls.last())
        }
    }
}

/// A line cut for a title: at most 64 characters; a longer line is cut at
/// 64, trailing white space dropped, and `…` appended.
pub open spec fn title_of_line(line: Seq<char>) -> Seq<char> {
    if line.len() > 64 {
        trim_end_seq(line.take(64)).push('…')
    } else {
        line
    }
}

/// The display name of the first PDF among the attachments, cut to 64
/// characters.
pub open spec fn first_pdf_name(saved: Seq<SavedAttachment>) -> Option<Seq<char>>
    decreases saved.len(),
{
    if saved.len() == 0 {
        None
    } else {
        match first_pdf_name(saved.drop_last()) {
            Some(n) => Some(n),
            None => if saved.last().is_pdf {
                let d = saved.last().display_name@;
                Some(if d.len() > 64 { d.take(64) } else { d })
            } else {
                None
            },
        }
    }
}

/// The placeholder title a session gets from its first message: the first
/// line that is not blank, cut to 64 characters; for a message with only
/// attachments, the first PDF's name, else `Image`; none when there is
/// nothing to name it from.
pub open spec fn fallback_title_spec(display_text: Seq<char>, saved: Seq<SavedAttachment>) -> Option<Seq<char>> {
    let t = title_of_line(first_nonblank(lines_of(display_text)));
    let title = if t.len() == 0 && saved.len() > 0 {
        match first_pdf_name(saved) {
            Some(n) => n,
            None => "Image"@,
        }
    } else {
        t
    };
    if title.len() > 0 {
        Some(title)
    } else {
        None
    }
}

/// The first line that is not blank, trimmed.
fn first_nonblank_line(text: &str) -> (r: String)
    ensures
        r@ == first_nonblank(lines_of(text@)),
{
    let ls = lines(text);
    let mut i: usize = 0;
    while i < ls.len()
        invariant
            i <= ls@.len(),
            views(ls@) == lines_of(text@),
            first_nonblank(views(ls@).take(i as int)).len() == 0,
        decreases ls@.len() - i,
    {
        let ghost t = views(ls@).take(i + 1);
        assert(t.drop_last() =~= views(ls@).take(i as int));
        assert(t.last() == ls@[i as int]@);
        let line = trim(ls[i].as_str());
        if !line.as_str().is_empty() {
            proof {
                lemma_first_nonblank_prefix(views(ls@), i + 1);
            }
            return line;
        }
        i = i + 1;
    }
    assert(views(ls@).take(ls@.len() as int) =~= views(ls@));
    String::new()
}

proof fn lemma_first_nonblank_prefix(ls: Seq<Seq<char>>, k: int)
    requires
        0 <= k <= ls.len(),
        first_nonblank(ls.take(k)).len() > 0,
    ensures
        first_nonblank(ls) == first_nonblank(ls.take(k)),
    decreases ls.len(),
{
    if k == ls.len() {
        assert(ls.take(k) =~= ls);
    } else {
        assert(ls.drop_last().take(k) =~= ls.take(k));
        lemma_first_nonblank_prefix(ls.drop_last(), k);
    }
}

/// The first characters of a text, at most `n` of them.
fn first_chars(v: &Vec<char>, n: usize) -> (r: String)
    ensures
        r@ == (if v@.len() > n { v@.take(n as int) } else { v@ }),
{
    let hi = if v.len() > n { n } else { v.len() };
    let r = string_of_range(v, 0, hi);
    assert(v@.subrange(0, hi as int) =~= (if v@.len() > n { v@.take(n as int) } else { v@ }));
    r
}

/// A text without its trailing white space.
fn trim_end_string(s: &str) -> (r: String)
    ensures
        r@ == trim_end_seq(s@),
{
    let v = chars_of(s);
    let mut hi: usize = v.len();
    assert(v@.take(hi as int) =~= v@);
    while hi > 0 && crate::text::is_whitespace(v[hi - 1])
        invariant
            hi <= v@.len(),
            v@ == s@,
            trim_end_seq(s@) == trim_end_seq(v@.take(hi as int)),
        decreases hi,
    {
        assert(v@.take(hi as int).drop_last() =~= v@.take(hi - 1));
        hi = hi - 1;
    }
    assert(v@.take(hi as int) =~= v@.subrange(0, hi as int));
    string_of_range(&v, 0, hi)
}

/// The display name of the first PDF, cut to 64 characters.
fn first_pdf(saved: &Vec<SavedAttachment>) -> (r: Option<String>)
    ensures
        match r {
            Some(n) => first_pdf_name(saved@) == Some(n@),
            None => first_pdf_name(saved@) is None,
        },
{
    let mut i: usize = 0;
    while i < saved.len()
        invariant
            i <= saved@.len(),
            first_pdf_name(saved@.take(i as int)) is None,
        decreases saved@.len() - i,
    {
        let ghost t = saved@.take(i + 1);
        assert(t.drop_last() =~= saved@.take(i as int));
        assert(t.last() == saved@[i as int]);
        if saved[i].is_pdf {
            let d = chars_of(saved[i].display_name.as_str());
            let n = first_chars(&d, 64);
            proof {
                lemma_first_pdf_prefix(saved@, i + 1);
            }
            return Some(n);
        }
        i = i + 1;
    }
    assert(saved@.take(saved@.len() as int) =~= saved@);
    None
}

/// The placeholder title of a new session (see `fallback_title_spec`).
pub fn fallback_title(display_text: &str, saved: &Vec<SavedAttachment>) -> (r: Option<String>)
    ensures
        match r {
            Some(t) => fallback_title_spec(display_text@, saved@) == Some(t@),
            None => fallback_title_spec(display_text@, saved@) is None,
        },
{
    let line = first_nonblank_line(display_text);
    let v = chars_of(line.as_str());
    let mut title = if v.len() > 64 {
        let cut = first_chars(&v, 64);
        let mut t = trim_end_string(cut.as_str());
        push_char(&mut t, '…');
        t
    } else {
        line
    };
    if title.as_str().is_empty() && saved.len() > 0 {
        title = match first_pdf(saved) {
            Some(n) => n,
            None => owned("Image"),
        };
    }
    if title.as_str().is_empty() {
        proof {
            reveal_strlit("Image");
        }
        None
    } else {
        Some(title)
    }
}

proof fn lemma_first_pdf_prefix(s: Seq<SavedAttachment>, k: int)
    requires
        0 <= k <= s.len(),
        first_pdf_name(s.take(k)) is Some,
    ensures
        first_pdf_name(s) == first_pdf_name(s.take(k)),
    decreases s.len(),
{
    if k == s.len() {
        assert(s.take(k) =~= s);
    } else {
        assert(s.drop_last().take(k) =~= s.take(k));
        lemma_first_pdf_prefix(s.drop_last(), k);
    }
}

/// The lines that list saved attachments: `- <name> — <path>` each.
pub open spec fn attachment_lines(saved: Seq<SavedAttachment>) -> Seq<char>
    decreases saved.len(),
{
    if saved.len() == 0 {
        Seq::empty()
    } else {
        attachment_lines(saved.drop_last()) + "- "@ + saved.last().display_name@ + " — "@ + saved.last().path@
            + "\n"@
    }
}

/// What a turn's text is followed by when the user attached files: how
/// many, where each was saved, and how to read them.
pub open spec fn attached_files_spec(saved: Seq<SavedAttachment>) -> Seq<char> {
    "\n\n<attached-files>\nThe user attached "@ + decimal(saved.len()) + " file(s) to this message, saved on disk at:\n"@
        + attachment_lines(saved)
        + "Open each with your file-reading tool (Read) before responding — it can read PDFs and images.\n</attached-files>"@
}

/// The attached-files block of a turn's text.
pub fn attached_files_block(saved: &Vec<SavedAttachment>) -> (r: String)
    ensures
        r@ == attached_files_spec(saved@),
{
    let mut list = String::new();
    let mut i: usize = 0;
    while i < saved.len()
        invariant
            i <= saved@.len(),
            list@ == attachment_lines(saved@.take(i as int)),
        decreases saved@.len() - i,
    {
        let ghost t = saved@.take(i + 1);
        assert(t.drop_last() =~= saved@.take(i as int));
        assert(t.last() == saved@[i as int]);
        push_str(&mut list, "- ");
        push_str(&mut list, saved[i].display_name.as_str());
        push_str(&mut list, " — ");
        push_str(&mut list, saved[i].path.as_str());
        push_str(&mut list, "\n");
        assert(list@ =~= attachment_lines(t));
        i = i + 1;
    }
    assert(saved@.take(saved@.len() as int) =~= saved@);
    let mut out = owned("\n\n<attached-files>\nThe user attached ");
    push_decimal(&mut out, saved.len() as u64);
    push_str(&mut out, " file(s) to this message, saved on disk at:\n");
    push_str(&mut out, list.as_str());
    push_str(
        &mut out,
        "Open each with your file-reading tool (Read) before responding — it can read PDFs and images.\n</attached-files>",
    );
    assert(out@ =~= attached_files_spec(saved@));
    out
}

/// Whether a submitted message starts its session: an ordinary first
/// message, or a first message made of excerpts.
pub fn starts_session(transcript_text: Option<&str>, has_messages: bool, has_annotations: bool) -> (r: bool)
    ensures
        r == ((transcript_text is None && !has_messages) || (has_annotations && !has_messages)),
{
    crate::chat::is_initial_chat_message(transcript_text, has_messages) || (has_annotations && !has_messages)
}

// ---------------------------------------------------------------------------
// The card of an unfinished turn
// ---------------------------------------------------------------------------

/// The recovery an unfinished turn offers: the one it recorded, else a
/// retry when its message certainly never reached the harness and a
/// continue otherwise.
pub open spec fn recovery_action_for(recorded: Option<Seq<char>>, delivery_state: Seq<char>) -> Seq<char> {
    match recorded {
        Some(a) => a,
        None => if delivery_state == "not_sent"@ || delivery_state == "rejected"@ {
            "retry"@
        } else {
            "continue"@
        },
    }
}

/// The card shown for a turn that ended unfinished: an `error` tool part
/// `turn-recovery` carrying the error, whose input names the turn, the
/// error kind (null when there is none) and the recovery it offers.
pub open spec fn is_recovery_card(
    p: WirePart,
    turn_id: Seq<char>,
    error_kind: Option<Seq<char>>,
    error_message: Option<String>,
    action: Seq<char>,
) -> bool {
    &&& p.id@ == "turn-recovery"@
    &&& p.kind@ == "tool"@
    &&& p.tool matches Some(t) && t@ == "error"@
    &&& p.text is None && p.prompt is None && p.children@.len() == 0
    &&& p.state matches Some(s)
    &&& p.state.unwrap().status@ == "error"@
    &&& p.state.unwrap().error == error_message
    &&& p.state.unwrap().output is None && p.state.unwrap().title is None
    &&& p.state.unwrap().input matches Some(i)
    &&& p.state.unwrap().input.unwrap() is Object
    &&& string_value(member(p.state.unwrap().input.unwrap(), "turnId"@)) == Some(turn_id)
    &&& match error_kind {
        Some(k) => string_value(member(p.state.unwrap().input.unwrap(), "errorKind"@)) == Some(k),
        None => member(p.state.unwrap().input.unwrap(), "errorKind"@) == Some(JsonValue::Null),
    }
    &&& string_value(member(p.state.unwrap().input.unwrap(), "recoveryAction"@)) == Some(action)
}

/// The input of a recovery card.
fn recovery_input(turn_id: &str, error_kind: Option<&str>, action: &str) -> (r: JsonValue)
    ensures
        r is Object,
        string_value(member(r, "turnId"@)) == Some(turn_id@),
        match error_kind {
            Some(k) => string_value(member(r, "errorKind"@)) == Some(k@),
            None => member(r, "errorKind"@) == Some(JsonValue::Null),
        },
        string_value(member(r, "recoveryAction"@)) == Some(action@),
{
    proof {
        reveal_strlit("turnId");
        reveal_strlit("errorKind");
        reveal_strlit("recoveryAction");
        assert("turnId"@.len() == 6);
        assert("errorKind"@.len() == 9);
        assert("recoveryAction"@.len() == 14);
    }
    let mut entries: Vec<(String, JsonValue)> = Vec::new();
    insert(&mut entries, "turnId", JsonValue::Str(owned(turn_id)));
    let kind = match error_kind {
        Some(k) => JsonValue::Str(owned(k)),
        None => JsonValue::Null,
    };
    insert(&mut entries, "errorKind", kind);
    insert(&mut entries, "recoveryAction", JsonValue::Str(owned(action)));
    JsonValue::Object(entries)
}

/// The card of an unfinished turn.
pub fn recovery_card(
    turn_id: &str,
    error_kind: Option<&str>,
    error_message: Option<String>,
    recovery_action: Option<&str>,
    delivery_state: &str,
) -> (r: WirePart)
    ensures
        is_recovery_card(
            r,
            turn_id@,
            match error_kind {
                Some(k) => Some(k@),
                None => None,
            },
            error_message,
            recovery_action_for(
                match recovery_action {
                    Some(a) => Some(a@),
                    None => None,
                },
                delivery_state@,
            ),
        ),
{
    let action = match recovery_action {
        Some(a) => a,
        None => if str_eq(delivery_state, "not_sent") || str_eq(delivery_state, "rejected") {
            "retry"
        } else {
            "continue"
        },
    };
    let input = recovery_input(turn_id, error_kind, action);
    let mut part = WirePart::tool("turn-recovery", "error", "error", error_message);
    let state = match part.state {
        Some(st) => Some(WireToolState { input: Some(input), ..st }),
        None => None,
    };
    part.state = state;
    part
}

/// The parts without those with id `id` (at the top level).
pub open spec fn without_id(parts: Seq<WirePart>, id: Seq<char>) -> Seq<WirePart>
    decreases parts.len(),
{
    if parts.len() == 0 {
        Seq::empty()
    } else {
        without_id(parts.drop_last(), id) + if parts.last().id@ == id {
            Seq::empty()
        } else {
            seq![parts.last()]
        }
    }
}

/// Drops the parts with id `id` (at the top level).
pub(crate) fn drop_id(parts: Vec<WirePart>, id: &str) -> (r: Vec<WirePart>)
    ensures
        r@ == without_id(parts@, id@),
{
    let ghost orig = parts@;
    let mut out: Vec<WirePart> = Vec::new();
    let mut rest = parts;
    let mut k: usize = 0;
    let n = rest.len();
    while rest.len() > 0
        invariant
            n == orig.len(),
            k + rest@.len() == n,
            rest@ == orig.skip(k as int),
            out@ == without_id(orig.take(k as int), id@),
        decreases rest@.len(),
    {
        let ghost idx = k as int;
        let x = rest.remove(0);
        assert(x == orig[idx]);
        assert(rest@ =~= orig.skip(idx + 1));
        let ghost t = orig.take(idx + 1);
        assert(t.drop_last() =~= orig.take(idx));
        assert(t.last() == x);
        if !str_eq(x.id.as_str(), id) {
            out.push(x);
            assert(out@ =~= without_id(orig.take(idx), id@) + seq![x]);
        } else {
            assert(without_id(t, id@) =~= without_id(orig.take(idx), id@) + Seq::empty());
        }
        k = k + 1;
    }
    assert(orig.take(n as int) =~= orig);
    out
}

/// Puts the recovery card of an unfinished turn on its message: the retry
/// status is dropped, and the card replaces an earlier recovery card
/// (keeping what that one carried, see `rebuilt`) or is appended.
pub fn with_recovery_card(parts: &mut Vec<WirePart>, card: WirePart)
    requires
        card.id@ == "turn-recovery"@,
        card.state matches Some(s) && s.input matches Some(i) && i is Object,
    ensures
        ({
            let kept = without_id(old(parts)@, "turn-retry"@);
            match first_with_id(kept, card.id@) {
                None => final(parts)@ == kept.push(card),
                Some(i) => {
                    &&& final(parts)@.len() == kept.len()
                    &&& forall|j: int| 0 <= j < kept.len() && j != i ==> final(parts)@[j] == kept[j]
                    &&& rebuilt(kept[i], card, final(parts)@[i])
                },
            }
        }),
{
    let mut taken: Vec<WirePart> = Vec::new();
    std::mem::swap(&mut taken, parts);
    *parts = drop_id(taken, "turn-retry");
    assert(!upsert_blocked(parts@, card));
    upsert_preserving_children(parts, card);
}

// ---------------------------------------------------------------------------
// Prepared inputs after the data directory moved
// ---------------------------------------------------------------------------

/// The last occurrence of `p` in `s`.
pub open spec fn last_occurrence(s: Seq<char>, p: Seq<char>) -> Option<int> {
    if exists|i: int| #[trigger] occurs_at(s, p, i) {
        Some(choose|i: int| #[trigger] occurs_at(s, p, i) && forall|j: int| i < j ==> !occurs_at(s, p, j))
    } else {
        None
    }
}

/// The position of the last occurrence of `p` in `v`.
fn find_last(v: &Vec<char>, p: &str) -> (r: Option<usize>)
    ensures
        match r {
            Some(i) => last_occurrence(v@, p@) == Some(i as int) && i + p@.len() <= v@.len(),
            None => last_occurrence(v@, p@) is None,
        },
{
    let q = chars_of(p);
    if q.len() > v.len() {
        proof {
            assert forall|i: int| !occurs_at(v@, p@, i) by {}
        }
        return None;
    }
    let mut k: usize = v.len() - q.len();
    loop
        invariant
            k <= v@.len() - q@.len(),
            q@ == p@,
            q@.len() <= v@.len(),
            forall|j: int| k < j ==> !occurs_at(v@, p@, j),
        decreases k,
    {
        if matches_at(v, &q, k) {
            proof {
                let c = choose|i: int| #[trigger] occurs_at(v@, p@, i) && forall|j: int| i < j ==> !occurs_at(v@, p@, j);
                if c < k {
                    assert(occurs_at(v@, p@, k as int));
                } else if c > k {
                    assert(!occurs_at(v@, p@, c));
                }
            }
            return Some(k);
        }
        if k == 0 {
            proof {
                assert forall|i: int| !occurs_at(v@, p@, i) by {
                    if i >= 0 {
                    }
                }
            }
            return None;
        }
        k = k - 1;
    }
}

/// `p` with its file name joined on, as `Path::join` does on Unix.
pub open spec fn joined_path(dir: Seq<char>, file: Seq<char>) -> Seq<char> {
    if dir.len() == 0 {
        file
    } else if dir.last() == '/' {
        dir + file
    } else {
        dir + "/"@ + file
    }
}

/// One line of a prepared input: an attachment line `<label> — <path>`
/// whose path lies in a `chat-attachments` directory is pointed at the
/// current attachments directory; any other line stays.
pub open spec fn rebased_line(line: Seq<char>, dir: Seq<char>) -> Seq<char> {
    match last_occurrence(line, " — "@) {
        Some(i) => {
            let label = line.take(i);
            let path = line.skip(i + 3).map_values(|c: char| if c == '\\' { '/' } else { c });
            match last_occurrence(path, "/chat-attachments/"@) {
                Some(j) => {
                    let file = path.skip(j + 18);
                    if file.len() == 0 || file.contains('/') {
                        line
                    } else {
                        label + " — "@ + joined_path(dir, file)
                    }
                },
                None => line,
            }
        },
        None => line,
    }
}

/// A prepared input with its attachment paths pointed at the current
/// attachments directory; lines rejoined with `\n`.
pub open spec fn rebased_input(input: Seq<char>, dir: Seq<char>) -> Seq<char> {
    join_with(lines_of(input).map_values(|l: Seq<char>| rebased_line(l, dir)), "\n"@)
}

/// The characters of `v` from `from` on, backslashes made slashes.
fn normalized_from(v: &Vec<char>, from: usize) -> (r: Vec<char>)
    requires
        from <= v@.len(),
    ensures
        r@ == v@.skip(from as int).map_values(|c: char| if c == '\\' { '/' } else { c }),
{
    let mut path: Vec<char> = Vec::new();
    let mut k: usize = from;
    while k < v.len()
        invariant
            from <= k <= v@.len(),
            path@ == v@.subrange(from as int, k as int).map_values(|c: char| if c == '\\' { '/' } else { c }),
        decreases v@.len() - k,
    {
        path.push(if v[k] == '\\' {
            '/'
        } else {
            v[k]
        });
        assert(path@ =~= v@.subrange(from as int, k + 1).map_values(|c: char| if c == '\\' { '/' } else { c }));
        k = k + 1;
    }
    assert(v@.subrange(from as int, v@.len() as int) =~= v@.skip(from as int));
    path
}

/// Whether a slash follows position `start`.
fn slash_after(path: &Vec<char>, start: usize) -> (r: bool)
    requires
        start <= path@.len(),
    ensures
        r == path@.skip(start as int).contains('/'),
{
    let mut m: usize = start;
    while m < path.len()
        invariant
            start <= m <= path@.len(),
            forall|x: int| start <= x < m ==> path@[x] != '/',
        decreases path@.len() - m,
    {
        if path[m] == '/' {
            assert(path@.skip(start as int)[m - start] == '/');
            return true;
        }
        m = m + 1;
    }
    proof {
        let file = path@.skip(start as int);
        if file.contains('/') {
            let y = choose|y: int| 0 <= y < file.len() && file[y] == '/';
            assert(path@[start + y] == '/');
        }
    }
    false
}

/// `label — dir/file`, the file being `path[start..]`.
fn relinked(v: &Vec<char>, i: usize, dir: &str, path: &Vec<char>, start: usize) -> (r: String)
    requires
        i <= v@.len(),
        start <= path@.len(),
    ensures
        r@ == v@.take(i as int) + " — "@ + joined_path(dir@, path@.skip(start as int)),
{
    proof {
        reveal_strlit("/");
    }
    let mut out = string_of_range(&v, 0, i);
    push_str(&mut out, " — ");
    let ghost before = out@;
    if !dir.is_empty() {
        push_str(&mut out, dir);
        let dv = chars_of(dir);
        if dv[dv.len() - 1] != '/' {
            push_char(&mut out, '/');
        }
    }
    let ghost mid = out@;
    let mut q: usize = start;
    while q < path.len()
        invariant
            start <= q <= path@.len(),
            out@ == mid + path@.subrange(start as int, q as int),
        decreases path@.len() - q,
    {
        push_char(&mut out, path[q]);
        assert(out@ =~= mid + path@.subrange(start as int, q + 1));
        q = q + 1;
    }
    proof {
        assert(path@.subrange(start as int, path@.len() as int) =~= path@.skip(start as int));
        assert(v@.subrange(0, i as int) =~= v@.take(i as int));
        assert(out@ =~= v@.take(i as int) + " — "@ + joined_path(dir@, path@.skip(start as int)));
    }
    out
}

#[verifier::rlimit(50)]
#[verifier::spinoff_prover]
fn rebase_line(line: &str, dir: &str) -> (r: String)
    ensures
        r@ == rebased_line(line@, dir@),
{
    proof {
        reveal_strlit(" — ");
        reveal_strlit("/chat-attachments/");
    }
    let v = chars_of(line);
    let i = match find_last(&v, " — ") {
        Some(i) => i,
        None => {
            return owned(line);
        },
    };
    let vl = v.len();
    assert(i + 3 <= vl);
    let path = normalized_from(&v, i + 3);
    let j = match find_last(&path, "/chat-attachments/") {
        Some(j) => j,
        None => {
            return owned(line);
        },
    };
    let pl = path.len();
    assert(j + 18 <= pl);
    let start = j + 18;
    let ghost file = path@.skip(start as int);
    assert(path@ == line@.skip(i + 3).map_values(|c: char| if c == '\\' { '/' } else { c }));
    if start == path.len() || slash_after(&path, start) {
        assert(file.len() == 0 || file.contains('/'));
        return owned(line);
    }
    let r = relinked(&v, i, dir, &path, start);
    assert(r@ == line@.take(i as int) + " — "@ + joined_path(dir@, file));
    r
}

proof fn lemma_take_map_push<A, B>(s: Seq<A>, i: int, f: spec_fn(A) -> B)
    requires
        0 <= i < s.len(),
    ensures
        s.take(i + 1).map_values(f) == s.take(i).map_values(f).push(f(s[i])),
{
    assert(s.take(i + 1).map_values(f) =~= s.take(i).map_values(f).push(f(s[i])));
}

/// Points the attachment paths of a prepared input at `dir`, the current
/// attachments directory.
#[verifier::spinoff_prover]
#[verifier::rlimit(40)]
pub fn rebase_prepared_attachment_paths(input: &str, dir: &str) -> (r: String)
    ensures
        r@ == rebased_input(input@, dir@),
{
    let ls = lines(input);
    let mut out: Vec<String> = Vec::new();
    let mut i: usize = 0;
    while i < ls.len()
        invariant
            i <= ls@.len(),
            views(ls@) == lines_of(input@),
            out@.len() == i,
            views(out@) == views(ls@).take(i as int).map_values(|l: Seq<char>| rebased_line(l, dir@)),
        decreases ls@.len() - i,
    {
        let ghost prev = views(out@);
        let r = rebase_line(ls[i].as_str(), dir);
        out.push(r);
        assert(views(out@) =~= prev.push(rebased_line(ls@[i as int]@, dir@)));
        proof {
            lemma_take_map_push(views(ls@), i as int, |l: Seq<char>| rebased_line(l, dir@));
        }
        i = i + 1;
    }
    assert(views(ls@).take(ls@.len() as int) =~= views(ls@));
    join(&out, "\n")
}

/// The message that asks the harness to continue a turn that may have
/// been delivered, quoting the original request.
pub open spec fn recovery_prompt_spec(original: Seq<char>) -> Seq<char> {
    "<orx-recovery>\nA previous turn ended after the request may have been accepted. Inspect the current repository and transcript state before acting. Do not repeat completed tool actions. Continue the unfinished request safely.\n\nOriginal request:\n"@
        + original + "\n</orx-recovery>"@
}

/// The message that asks the harness to continue a possibly delivered turn.
pub fn recovery_prompt(prepared_input: &str, dir: &str) -> (r: String)
    ensures
        r@ == recovery_prompt_spec(rebased_input(prepared_input@, dir@)),
{
    let mut out = owned(
        "<orx-recovery>\nA previous turn ended after the request may have been accepted. Inspect the current repository and transcript state before acting. Do not repeat completed tool actions. Continue the unfinished request safely.\n\nOriginal request:\n",
    );
    let body = rebase_prepared_attachment_paths(prepared_input, dir);
    push_str(&mut out, body.as_str());
    push_str(&mut out, "\n</orx-recovery>");
    out
}

// ---------------------------------------------------------------------------
// The user's side of a turn
// ---------------------------------------------------------------------------

/// The parts shown for the user's message: its text (when there is any),
/// one image part per saved attachment named `img<i>`, and one part per
/// selected excerpt named `annotation<i>`, trimmed.
pub open spec fn user_parts_ok(
    display_text: Seq<char>,
    saved: Seq<SavedAttachment>,
    annotations: Seq<TextAnnotation>,
    r: Seq<WirePart>,
) -> bool {
    let t: int = if display_text.len() > 0 { 1 } else { 0 };
    &&& r.len() == t + saved.len() + annotations.len()
    &&& t == 1 ==> r[0].id@ == "p0"@ && r[0].kind@ == "text"@ && (r[0].text matches Some(x) && x@ == display_text)
    &&& forall|i: int| 0 <= i < saved.len() ==> {
        let p = #[trigger] r[t + i];
        p.id@ == "img"@ + decimal(i as nat) && p.kind@ == "image"@ && (p.text matches Some(x) && x@ == saved[i].file_name@)
    }
    &&& forall|i: int| 0 <= i < annotations.len() ==> {
        let p = #[trigger] r[t + saved.len() + i];
        p.id@ == "annotation"@ + decimal(i as nat) && p.kind@ == "annotation"@ && (p.text matches Some(x)
            && x@ == trim_seq(annotations[i].text@))
    }
    &&& forall|i: int| 0 <= i < r.len() ==> (#[trigger] r[i]).state is None && r[i].prompt is None && r[i].children@.len() == 0
}

/// `prefix` followed by the decimal form of `n`.
fn numbered(prefix: &str, n: usize) -> (r: String)
    ensures
        r@ == prefix@ + decimal(n as nat),
{
    let mut out = owned(prefix);
    push_decimal(&mut out, n as u64);
    out
}

/// The parts shown for the user's message.
pub fn transcript_parts(
    display_text: &str,
    saved: &Vec<SavedAttachment>,
    annotations: &Vec<TextAnnotation>,
) -> (r: Vec<WirePart>)
    ensures
        user_parts_ok(display_text@, saved@, annotations@, r@),
{
    let mut parts: Vec<WirePart> = Vec::new();
    if !display_text.is_empty() {
        parts.push(WirePart::text("p0", display_text));
    }
    let t = parts.len();
    let mut i: usize = 0;
    while i < saved.len()
        invariant
            t == (if display_text@.len() > 0 { 1int } else { 0int }),
            i <= saved@.len(),
            parts@.len() == t + i,
            t == 1 ==> parts@[0].id@ == "p0"@ && parts@[0].kind@ == "text"@ && (parts@[0].text matches Some(x) && x@ == display_text@),
            forall|k: int| 0 <= k < i ==> {
                let p = #[trigger] parts@[t + k];
                p.id@ == "img"@ + decimal(k as nat) && p.kind@ == "image"@ && (p.text matches Some(x) && x@ == saved@[k].file_name@)
            },
            forall|k: int| 0 <= k < parts@.len() ==> (#[trigger] parts@[k]).state is None && parts@[k].prompt is None && parts@[k].children@.len() == 0,
        decreases saved@.len() - i,
    {
        let id = numbered("img", i);
        parts.push(WirePart::image(id.as_str(), saved[i].file_name.as_str()));
        i = i + 1;
    }
    let mut j: usize = 0;
    while j < annotations.len()
        invariant
            t == (if display_text@.len() > 0 { 1int } else { 0int }),
            j <= annotations@.len(),
            parts@.len() == t + saved@.len() + j,
            t == 1 ==> parts@[0].id@ == "p0"@ && parts@[0].kind@ == "text"@ && (parts@[0].text matches Some(x) && x@ == display_text@),
            forall|k: int| 0 <= k < saved@.len() ==> {
                let p = #[trigger] parts@[t + k];
                p.id@ == "img"@ + decimal(k as nat) && p.kind@ == "image"@ && (p.text matches Some(x) && x@ == saved@[k].file_name@)
            },
            forall|k: int| 0 <= k < j ==> {
                let p = #[trigger] parts@[t + saved@.len() + k];
                p.id@ == "annotation"@ + decimal(k as nat) && p.kind@ == "annotation"@ && (p.text matches Some(x)
                    && x@ == trim_seq(annotations@[k].text@))
            },
            forall|k: int| 0 <= k < parts@.len() ==> (#[trigger] parts@[k]).state is None && parts@[k].prompt is None && parts@[k].children@.len() == 0,
        decreases annotations@.len() - j,
    {
        let id = numbered("annotation", j);
        let text = trim(annotations[j].text.as_str());
        parts.push(WirePart::annotation(id.as_str(), text.as_str()));
        j = j + 1;
    }
    parts
}

} // verus!
