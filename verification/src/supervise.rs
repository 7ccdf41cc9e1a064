//! Decisions of `orx supervise <runId>`, the lens beside an external job.
//!
//! The supervisor polls a job, mirrors its status, and — for jobs on a box it
//! reaches over ssh — rides out transport outages for one continuous window
//! before declaring the run failed. The persisted per-run launch record (the
//! start of an ongoing outage, the time a remote launch was claimed, and the
//! transport events shown in the run log) is modelled by [`LaunchRecord`];
//! each probe of the box is one step over it. Times are epoch milliseconds.

use vstd::prelude::*;

use crate::jobs::{LaunchProbe, WaitOutcome};
use crate::text::{
    contains_seq, contains_str, decimal, lower_seq, owned, push_decimal, push_str, str_eq,
    to_ascii_lowercase,
};

verus! {

/// How long a lost ssh transport is retried before the run fails (two minutes).
pub const SSH_LOSS_DEADLINE_MS: u64 = 120_000;

/// The longest a single ssh probe may take.
pub const SSH_PROBE_TIMEOUT_MS: u64 = 30_000;

/// Time between two polls of a job.
pub const POLL_INTERVAL_MS: u64 = 5_000;

// ---------------------------------------------------------------------------
// Elapsed time
// ---------------------------------------------------------------------------

/// `i64::saturating_sub`.
pub open spec fn saturating_diff(observed_at: int, started_at: int) -> int {
    let d = observed_at - started_at;
    if d > i64::MAX {
        i64::MAX as int
    } else if d < i64::MIN {
        i64::MIN as int
    } else {
        d
    }
}

/// Milliseconds from `started_at` to `observed_at`, never negative.
pub open spec fn elapsed_since_spec(started_at: int, observed_at: int) -> nat {
    let d = saturating_diff(observed_at, started_at);
    if d > 0 {
        d as nat
    } else {
        0
    }
}

/// Milliseconds from `started_at` to `observed_at`; a clock that went
/// backwards counts as no time at all.
pub fn elapsed_since(started_at: i64, observed_at: i64) -> (r: u64)
    ensures
        r as nat == elapsed_since_spec(started_at as int, observed_at as int),
{
    // `i64::saturating_sub`, then clamped at zero.
    let wide: i128 = observed_at as i128 - started_at as i128;
    let d: i128 = if wide > i64::MAX as i128 {
        i64::MAX as i128
    } else if wide < i64::MIN as i128 {
        i64::MIN as i128
    } else {
        wide
    };
    if d > 0 {
        d as u64
    } else {
        0
    }
}

/// Whether an outage (or a claim) that began at `started_at` has lasted the whole deadline.
pub fn ssh_outage_timed_out(started_at: i64, observed_at: i64, deadline_ms: u64) -> (r: bool)
    ensures
        r == (elapsed_since_spec(started_at as int, observed_at as int) >= deadline_ms),
{
    elapsed_since(started_at, observed_at) >= deadline_ms
}

/// An outage times out after one continuous window: once timed out, any
/// later observation of the same outage is timed out as well.
pub proof fn law_outage_timeout_is_monotone(
    started_at: int,
    observed_at: int,
    later: int,
    deadline_ms: nat,
)
    requires
        observed_at <= later,
        elapsed_since_spec(started_at, observed_at) >= deadline_ms,
    ensures
        elapsed_since_spec(started_at, later) >= deadline_ms,
{
}

// ---------------------------------------------------------------------------
// Status of a polled job
// ---------------------------------------------------------------------------

/// Whether a terminal run should be reported as cancelled: a cancel was sent
/// to the backend, or (for a local run) the run row carries cancel intent.
pub fn should_report_cancelled(local_mode: bool, cancel_sent: bool, local_cancel_requested: bool) -> (r:
    bool)
    ensures
        r == (cancel_sent || (local_mode && local_cancel_requested)),
{
    cancel_sent || (local_mode && local_cancel_requested)
}

/// The run status for a backend stage: the stage's own status, except that a
/// terminal stage that did not succeed becomes `cancelled` when cancellation
/// is to be reported.
pub open spec fn run_status_spec(stage_status: Seq<char>, terminal: bool, report_cancelled: bool) -> Seq<
    char,
> {
    if stage_status != "done"@ && terminal && report_cancelled {
        "cancelled"@
    } else {
        stage_status
    }
}

/// The status to record for a polled stage. `stage_status` is the stage's
/// mapping onto run statuses and `terminal` whether the stage is final.
pub fn run_status_for_stage(stage_status: &str, terminal: bool, report_cancelled: bool) -> (r:
    String)
    ensures
        r@ == run_status_spec(stage_status@, terminal, report_cancelled),
{
    if !str_eq(stage_status, "done") && terminal && report_cancelled {
        owned("cancelled")
    } else {
        owned(stage_status)
    }
}

/// Cancel intent never rewrites a success: a run whose stage maps to `done`
/// is reported `done`, and a run reported `cancelled` reached a terminal stage.
pub proof fn law_cancel_never_overrides_success(
    stage_status: Seq<char>,
    terminal: bool,
    report_cancelled: bool,
)
    ensures
        stage_status == "done"@ ==> run_status_spec(stage_status, terminal, report_cancelled)
            == "done"@,
        run_status_spec(stage_status, terminal, report_cancelled) != stage_status ==> terminal
            && report_cancelled,
{
}

// ---------------------------------------------------------------------------
// Transport failures
// ---------------------------------------------------------------------------

/// The class of an ssh failure, from the words of its message (ASCII case ignored).
pub open spec fn failure_kind(message: Seq<char>) -> Seq<char> {
    let lower = lower_seq(message);
    if contains_seq(lower, "permission denied"@) || contains_seq(lower, "authentication"@)
        || contains_seq(lower, "publickey"@) {
        "ssh_auth"@
    } else if contains_seq(lower, "could not resolve hostname"@) || contains_seq(
        lower,
        "name or service not known"@,
    ) || contains_seq(lower, "nodename nor servname"@) {
        "endpoint"@
    } else if contains_seq(lower, "connection refused"@) || contains_seq(
        lower,
        "connection timed out"@,
    ) || contains_seq(lower, "operation timed out"@) || contains_seq(lower, "no route to host"@)
        || contains_seq(lower, "connection reset"@) {
        "tcp"@
    } else {
        "ssh"@
    }
}

/// How an ssh failure is classified, by the words of its message with
/// ASCII case ignored: an authentication failure is `ssh_auth`; else a name
/// that does not resolve is `endpoint`; else a refused, timed-out,
/// unroutable or reset connection is `tcp`; anything else is `ssh`.
pub proof fn law_failure_classes(m: Seq<char>)
    ensures
        (contains_seq(lower_seq(m), "permission denied"@) || contains_seq(lower_seq(m), "authentication"@) || contains_seq(lower_seq(m), "publickey"@)) ==> failure_kind(m) == "ssh_auth"@,
        !(contains_seq(lower_seq(m), "permission denied"@) || contains_seq(lower_seq(m), "authentication"@) || contains_seq(lower_seq(m), "publickey"@)) && (contains_seq(lower_seq(m), "could not resolve hostname"@) || contains_seq(lower_seq(m), "name or service not known"@) || contains_seq(lower_seq(m), "nodename nor servname"@)) ==> failure_kind(m) == "endpoint"@,
        !(contains_seq(lower_seq(m), "permission denied"@) || contains_seq(lower_seq(m), "authentication"@) || contains_seq(lower_seq(m), "publickey"@)) && !(contains_seq(lower_seq(m), "could not resolve hostname"@) || contains_seq(lower_seq(m), "name or service not known"@) || contains_seq(lower_seq(m), "nodename nor servname"@)) && (contains_seq(lower_seq(m), "connection refused"@) || contains_seq(lower_seq(m), "connection timed out"@) || contains_seq(lower_seq(m), "operation timed out"@) || contains_seq(lower_seq(m), "no route to host"@) || contains_seq(lower_seq(m), "connection reset"@)) ==> failure_kind(m) == "tcp"@,
        !(contains_seq(lower_seq(m), "permission denied"@) || contains_seq(lower_seq(m), "authentication"@) || contains_seq(lower_seq(m), "publickey"@)) && !(contains_seq(lower_seq(m), "could not resolve hostname"@) || contains_seq(lower_seq(m), "name or service not known"@) || contains_seq(lower_seq(m), "nodename nor servname"@)) && !(contains_seq(lower_seq(m), "connection refused"@) || contains_seq(lower_seq(m), "connection timed out"@) || contains_seq(lower_seq(m), "operation timed out"@) || contains_seq(lower_seq(m), "no route to host"@) || contains_seq(lower_seq(m), "connection reset"@)) ==> failure_kind(m) == "ssh"@,
        ssh_failure_detail_spec(m) == failure_kind(m) + ": "@ + m,
{
}

/// "<kind>: <message>".
pub open spec fn ssh_failure_detail_spec(message: Seq<char>) -> Seq<char> {
    failure_kind(message) + ": "@ + message
}

/// Classify an ssh failure for the run log: `ssh_auth`, `endpoint`, `tcp` or `ssh`.
pub fn ssh_failure_detail(message: &str) -> (r: String)
    ensures
        r@ == ssh_failure_detail_spec(message@),
{
    let lower = to_ascii_lowercase(message);
    let l = lower.as_str();
    let kind = if contains_str(l, "permission denied") || contains_str(l, "authentication")
        || contains_str(l, "publickey") {
        "ssh_auth"
    } else if contains_str(l, "could not resolve hostname") || contains_str(
        l,
        "name or service not known",
    ) || contains_str(l, "nodename nor servname") {
        "endpoint"
    } else if contains_str(l, "connection refused") || contains_str(l, "connection timed out")
        || contains_str(l, "operation timed out") || contains_str(l, "no route to host")
        || contains_str(l, "connection reset") {
        "tcp"
    } else {
        "ssh"
    };
    let mut s = owned(kind);
    push_str(&mut s, ": ");
    push_str(&mut s, message);
    s
}

// ---------------------------------------------------------------------------
// The persisted launch record
// ---------------------------------------------------------------------------

/// What the store keeps about a run's transport: when the ongoing outage
/// began, when a remote launch was claimed, and the transport events that
/// the run log replays.
#[derive(Debug, Clone, PartialEq, Eq)]
pub struct LaunchRecord {
    pub outage_lost_at: Option<i64>,
    pub claim_at: Option<i64>,
    pub events: Vec<String>,
}

impl LaunchRecord {
    /// A record with no outage, no claim and no events.
    pub fn new() -> (r: LaunchRecord)
        ensures
            r.outage_lost_at is None,
            r.claim_at is None,
            r.events@.len() == 0,
    {
        LaunchRecord { outage_lost_at: None, claim_at: None, events: Vec::new() }
    }
}

pub open spec fn events_view(events: Seq<String>) -> Seq<Seq<char>> {
    events.map_values(|e: String| e@)
}

fn record_event(record: &mut LaunchRecord, message: String)
    ensures
        final(record).outage_lost_at == old(record).outage_lost_at,
        final(record).claim_at == old(record).claim_at,
        events_view(final(record).events@) == events_view(old(record).events@).push(message@),
{
    let ghost before = record.events@;
    record.events.push(message);
    assert(events_view(record.events@) =~= events_view(before).push(message@));
}

/// Where a launch stands after one probe of the box.
#[derive(Debug, Clone, PartialEq, Eq)]
pub enum LaunchState {
    /// The payload already started on the box.
    AlreadyLaunched,
    /// Nothing started yet: the supervisor may launch.
    Fresh,
    /// The caller's cancel check fired.
    Cancelled,
    /// A launch was claimed (or intended) but did not produce a job in time.
    LaunchClaimTimedOut(String),
    /// The ssh transport stayed down for the whole deadline.
    TransportTimedOut(String),
}

/// What a probe of the box returned: a launch state, or the transport error's message.
pub enum ProbeResult {
    Reached(LaunchProbe),
    Lost(String),
}

pub open spec fn secs(ms: nat) -> Seq<char> {
    decimal(ms / 1000)
}

/// "SSH transport to <dest> was unavailable for <s>s before recovering."
pub open spec fn unavailable_before_recovering(dest: Seq<char>, ms: nat) -> Seq<char> {
    "SSH transport to "@ + dest + " was unavailable for "@ + secs(ms) + "s before recovering."@
}

/// "orx: SSH connection recovered after <s>s."
pub open spec fn recovered_message(ms: nat) -> Seq<char> {
    "orx: SSH connection recovered after "@ + secs(ms) + "s."@
}

/// The message for a claim that did not become a job in time, by how the probe saw it.
pub open spec fn claim_timeout_message(probe: Option<LaunchProbe>, deadline_ms: nat) -> Seq<char> {
    match probe {
        Some(LaunchProbe::Claimed) => "Remote launch claim did not publish a pid within "@ + secs(
            deadline_ms,
        ) + "s."@,
        Some(LaunchProbe::Started) => "Remote launch claim exceeded "@ + secs(deadline_ms)
            + "s before publishing a pid."@,
        Some(LaunchProbe::Fresh) => "Remote launch intent did not create a job within "@ + secs(
            deadline_ms,
        ) + "s."@,
        None => "Remote launch did not complete within "@ + secs(deadline_ms) + "s."@,
    }
}

/// "orx: SSH connection lost before launch; retrying for up to <d>s: <detail>"
pub open spec fn lost_before_launch_message(deadline_ms: nat, detail: Seq<char>) -> Seq<char> {
    "orx: SSH connection lost before launch; retrying for up to "@ + secs(deadline_ms) + "s: "@
        + detail
}

/// "SSH transport to <dest> remained unavailable for <s>s before launch: <detail>"
pub open spec fn unavailable_before_launch(dest: Seq<char>, ms: nat, detail: Seq<char>) -> Seq<char> {
    "SSH transport to "@ + dest + " remained unavailable for "@ + secs(ms) + "s before launch: "@
        + detail
}

pub open spec fn prefixed(m: Seq<char>) -> Seq<char> {
    "orx: "@ + m
}

/// The pre-launch probe step, as a relation between the record before and
/// after, and the decided state (`None`: probe again).
pub open spec fn launch_step_spec(
    before: (Option<i64>, Option<i64>, Seq<Seq<char>>),
    after: (Option<i64>, Option<i64>, Seq<Seq<char>>),
    dest: Seq<char>,
    deadline_ms: nat,
    probe_started_at: i64,
    observed_at: i64,
    probe: ProbeResult,
    result: Option<LaunchState>,
) -> bool {
    let (outage, claim, events) = before;
    match probe {
        ProbeResult::Reached(state) => {
            // An ongoing outage either ends here or has already lasted too long.
            let outage_ms = match outage {
                Some(lost) => elapsed_since_spec(lost as int, observed_at as int),
                None => 0,
            };
            if outage is Some && outage_ms >= deadline_ms {
                let m = unavailable_before_recovering(dest, outage_ms);
                &&& after == (outage, claim, events.push(prefixed(m)))
                &&& result matches Some(LaunchState::TransportTimedOut(msg)) && msg@ == m
            } else {
                let events1 = if outage is Some {
                    events.push(recovered_message(outage_ms))
                } else {
                    events
                };
                match state {
                    LaunchProbe::Claimed => {
                        let claimed = match claim {
                            Some(c) => c,
                            None => observed_at,
                        };
                        if elapsed_since_spec(claimed as int, observed_at as int) >= deadline_ms {
                            let m = claim_timeout_message(Some(LaunchProbe::Claimed), deadline_ms);
                            &&& after == (None::<i64>, Some(claimed), events1.push(prefixed(m)))
                            &&& result matches Some(LaunchState::LaunchClaimTimedOut(msg)) && msg@
                                == m
                        } else {
                            after == (None::<i64>, Some(claimed), events1) && result is None
                        }
                    },
                    LaunchProbe::Started => match claim {
                        Some(c) if elapsed_since_spec(c as int, observed_at as int)
                            >= deadline_ms => {
                            let m = claim_timeout_message(Some(LaunchProbe::Started), deadline_ms);
                            &&& after == (None::<i64>, None::<i64>, events1.push(prefixed(m)))
                            &&& result matches Some(LaunchState::LaunchClaimTimedOut(msg)) && msg@
                                == m
                        },
                        _ => after == (None::<i64>, None::<i64>, events1) && result == Some(
                            LaunchState::AlreadyLaunched,
                        ),
                    },
                    LaunchProbe::Fresh => match claim {
                        Some(c) if elapsed_since_spec(c as int, observed_at as int)
                            >= deadline_ms => {
                            let m = claim_timeout_message(Some(LaunchProbe::Fresh), deadline_ms);
                            &&& after == (None::<i64>, claim, events1.push(prefixed(m)))
                            &&& result matches Some(LaunchState::LaunchClaimTimedOut(msg)) && msg@
                                == m
                        },
                        _ => after == (None::<i64>, claim, events1) && result == Some(
                            LaunchState::Fresh,
                        ),
                    },
                }
            }
        },
        ProbeResult::Lost(error) => {
            let detail = ssh_failure_detail_spec(error@);
            // The outage keeps the time it began; a new one begins when the probe started.
            let lost = match outage {
                Some(l) => l,
                None => probe_started_at,
            };
            let events1 = if outage is None {
                events.push(lost_before_launch_message(deadline_ms, detail))
            } else {
                events
            };
            let claim_expired = match claim {
                Some(c) => elapsed_since_spec(c as int, observed_at as int) >= deadline_ms,
                None => false,
            };
            let outage_ms = elapsed_since_spec(lost as int, observed_at as int);
            if claim_expired {
                let m = claim_timeout_message(None, deadline_ms);
                &&& after == (Some(lost), claim, events1.push(prefixed(m)))
                &&& result matches Some(LaunchState::LaunchClaimTimedOut(msg)) && msg@ == m
            } else if outage_ms >= deadline_ms {
                let m = unavailable_before_launch(dest, outage_ms, detail);
                &&& after == (Some(lost), claim, events1.push(prefixed(m)))
                &&& result matches Some(LaunchState::TransportTimedOut(msg)) && msg@ == m
            } else {
                after == (Some(lost), claim, events1) && result is None
            }
        },
    }
}

pub open spec fn record_view(r: LaunchRecord) -> (Option<i64>, Option<i64>, Seq<Seq<char>>) {
    (r.outage_lost_at, r.claim_at, events_view(r.events@))
}

fn message_with_secs(prefix: &str, ms: u64, suffix: &str) -> (r: String)
    ensures
        r@ == prefix@ + secs(ms as nat) + suffix@,
{
    let mut s = owned(prefix);
    push_decimal(&mut s, ms / 1000);
    push_str(&mut s, suffix);
    s
}

fn with_orx_prefix(m: &String) -> (r: String)
    ensures
        r@ == prefixed(m@),
{
    let mut s = owned("orx: ");
    push_str(&mut s, m.as_str());
    s
}

/// One probe of the box before launching: track the outage and the launch
/// claim in `record`, and decide whether the launch can proceed
/// (`AlreadyLaunched`/`Fresh`), has timed out, or needs another probe (`None`).
pub fn evaluate_launch_probe(
    record: &mut LaunchRecord,
    dest: &str,
    deadline_ms: u64,
    probe_started_at: i64,
    observed_at: i64,
    probe: ProbeResult,
) -> (r: Option<LaunchState>)
    ensures
        launch_step_spec(
            record_view(*old(record)),
            record_view(*final(record)),
            dest@,
            deadline_ms as nat,
            probe_started_at,
            observed_at,
            probe,
            r,
        ),
{
    let ghost before = record_view(*record);
    let ghost p = probe;
    match probe {
        ProbeResult::Reached(state) => {
            if let Some(lost) = record.outage_lost_at {
                let unavailable = elapsed_since(lost, observed_at);
                if unavailable >= deadline_ms {
                    let mut msg = owned("SSH transport to ");
                    push_str(&mut msg, dest);
                    push_str(&mut msg, " was unavailable for ");
                    push_decimal(&mut msg, unavailable / 1000);
                    push_str(&mut msg, "s before recovering.");
                    record_event(record, with_orx_prefix(&msg));
                    return Some(LaunchState::TransportTimedOut(msg));
                }
                let recovered = message_with_secs(
                    "orx: SSH connection recovered after ",
                    unavailable,
                    "s.",
                );
                record.outage_lost_at = None;
                record_event(record, recovered);
            }
            let ghost events1 = events_view(record.events@);
            match state {
                LaunchProbe::Claimed => {
                    let claimed = match record.claim_at {
                        Some(c) => c,
                        None => observed_at,
                    };
                    record.claim_at = Some(claimed);
                    if ssh_outage_timed_out(claimed, observed_at, deadline_ms) {
                        let m = message_with_secs(
                            "Remote launch claim did not publish a pid within ",
                            deadline_ms,
                            "s.",
                        );
                        record_event(record, with_orx_prefix(&m));
                        return Some(LaunchState::LaunchClaimTimedOut(m));
                    }
                    None
                },
                LaunchProbe::Started => {
                    let claim = record.claim_at;
                    record.claim_at = None;
                    if let Some(c) = claim {
                        if ssh_outage_timed_out(c, observed_at, deadline_ms) {
                            let m = message_with_secs(
                                "Remote launch claim exceeded ",
                                deadline_ms,
                                "s before publishing a pid.",
                            );
                            record_event(record, with_orx_prefix(&m));
                            return Some(LaunchState::LaunchClaimTimedOut(m));
                        }
                    }
                    Some(LaunchState::AlreadyLaunched)
                },
                LaunchProbe::Fresh => {
                    if let Some(c) = record.claim_at {
                        if ssh_outage_timed_out(c, observed_at, deadline_ms) {
                            let m = message_with_secs(
                                "Remote launch intent did not create a job within ",
                                deadline_ms,
                                "s.",
                            );
                            record_event(record, with_orx_prefix(&m));
                            return Some(LaunchState::LaunchClaimTimedOut(m));
                        }
                    }
                    Some(LaunchState::Fresh)
                },
            }
        },
        ProbeResult::Lost(error) => {
            let detail = ssh_failure_detail(error.as_str());
            let lost = match record.outage_lost_at {
                Some(l) => l,
                None => {
                    let mut m = message_with_secs(
                        "orx: SSH connection lost before launch; retrying for up to ",
                        deadline_ms,
                        "s: ",
                    );
                    push_str(&mut m, detail.as_str());
                    record.outage_lost_at = Some(probe_started_at);
                    record_event(record, m);
                    probe_started_at
                },
            };
            if let Some(c) = record.claim_at {
                if ssh_outage_timed_out(c, observed_at, deadline_ms) {
                    let m = message_with_secs(
                        "Remote launch did not complete within ",
                        deadline_ms,
                        "s.",
                    );
                    record_event(record, with_orx_prefix(&m));
                    return Some(LaunchState::LaunchClaimTimedOut(m));
                }
            }
            let unavailable = elapsed_since(lost, observed_at);
            if unavailable >= deadline_ms {
                let mut m = owned("SSH transport to ");
                push_str(&mut m, dest);
                push_str(&mut m, " remained unavailable for ");
                push_decimal(&mut m, unavailable / 1000);
                push_str(&mut m, "s before launch: ");
                push_str(&mut m, detail.as_str());
                record_event(record, with_orx_prefix(&m));
                return Some(LaunchState::TransportTimedOut(m));
            }
            None
        },
    }
}

/// The launch record never forgets the start of an outage or a claim: a
/// probe that reports the transport lost keeps the outage's original start
/// (one continuous window) and keeps the claim; only a probe that reaches
/// the box ends an outage, and only a started payload clears the claim.
pub proof fn law_outage_window_is_continuous(
    before: (Option<i64>, Option<i64>, Seq<Seq<char>>),
    after: (Option<i64>, Option<i64>, Seq<Seq<char>>),
    dest: Seq<char>,
    deadline_ms: nat,
    probe_started_at: i64,
    observed_at: i64,
    probe: ProbeResult,
    result: Option<LaunchState>,
)
    requires
        launch_step_spec(
            before,
            after,
            dest,
            deadline_ms,
            probe_started_at,
            observed_at,
            probe,
            result,
        ),
    ensures
        probe is Lost ==> after.1 == before.1 && after.0 == (match before.0 {
            Some(l) => Some(l),
            None => Some(probe_started_at),
        }),
        before.1 is Some && !(probe matches ProbeResult::Reached(LaunchProbe::Started))
            ==> after.1 == before.1,
        result matches Some(LaunchState::TransportTimedOut(_)) ==> after.0 is Some,
        after.2.len() >= before.2.len(),
        after.2.subrange(0, before.2.len() as int) == before.2,
{
    assert forall|e: Seq<Seq<char>>, x: Seq<char>| #[trigger] e.push(x).subrange(0, e.len() as int) == e by {
        assert(e.push(x).subrange(0, e.len() as int) =~= e);
    }
    assert forall|e: Seq<Seq<char>>, x: Seq<char>, y: Seq<char>| #[trigger] e.push(x).push(y).subrange(0, e.len() as int) == e by {
        assert(e.push(x).push(y).subrange(0, e.len() as int) =~= e);
    }
    assert(before.2.subrange(0, before.2.len() as int) =~= before.2);
}

// ---------------------------------------------------------------------------
// One round of polling a job
// ---------------------------------------------------------------------------

/// What a supervisor does after a poll that found the job still running.
#[derive(Debug, Clone, Copy, PartialEq, Eq, Structural)]
pub enum PollAction {
    /// The status changed: record it (and mirror it), then act on the
    /// cancel intent that comes back.
    RecordTransition,
    /// Nothing to report: look up the cancel intent instead.
    CheckCancel,
    /// A cancel was already sent: just wait for the next poll.
    Wait,
}

/// The supervisor's move after a non-terminal poll.
pub fn poll_action(status: &str, last_status: &str, cancel_sent: bool) -> (r: PollAction)
    ensures
        r == (if status@ != last_status@ {
            PollAction::RecordTransition
        } else if !cancel_sent {
            PollAction::CheckCancel
        } else {
            PollAction::Wait
        }),
{
    if !str_eq(status, last_status) {
        PollAction::RecordTransition
    } else if !cancel_sent {
        PollAction::CheckCancel
    } else {
        PollAction::Wait
    }
}

/// A cancel is sent to the backend once: when it is requested and none was
/// sent yet.
pub fn should_send_cancel(cancel_requested: bool, cancel_sent: bool) -> (r: bool)
    ensures
        r == (cancel_requested && !cancel_sent),
{
    cancel_requested && !cancel_sent
}

/// What cancelling a Kubernetes run deletes: the resources its manifest
/// recorded, or, for a run from before resources were recorded, just its
/// Job, `job/<name>`.
pub fn cancel_resources(recorded: Option<Vec<String>>, job_name: &str) -> (r: Vec<String>)
    ensures
        match recorded {
            Some(v) => r@ == v@,
            None => r@.len() == 1 && r@[0]@ == "job/"@ + job_name@,
        },
{
    match recorded {
        Some(v) => v,
        None => {
            let mut j = owned("job/");
            push_str(&mut j, job_name);
            vec![j]
        },
    }
}

// ---------------------------------------------------------------------------
// Provisioning an OpenResearch box
// ---------------------------------------------------------------------------

/// What becomes of the box when a run ends before its job starts.
#[derive(Debug, Clone, Copy, PartialEq, Eq, Structural)]
pub enum BoxDisposal {
    /// Tear the box down now.
    Teardown,
    /// The provider failed the box itself: only the pending cleanup record
    /// is cleared.
    ClearRecord,
    /// Hand the box to the retained cleanup, which retries until it is gone.
    ResumeRetained,
}

/// How a run ends when provisioning did not bring its box online: the
/// status to record, the result text, and what becomes of the box.
pub struct ProvisioningPlan {
    pub status: &'static str,
    pub result_markdown: Option<String>,
    pub disposal: BoxDisposal,
}

/// "Provisioning failed: <message>"
pub open spec fn provisioning_failed(message: Seq<char>) -> Seq<char> {
    "Provisioning failed: "@ + message
}

/// `p` ends the run as failed with the provisioning failure `m`.
pub open spec fn fails_provisioning(p: ProvisioningPlan, m: Seq<char>, disposal: BoxDisposal) -> bool {
    &&& p.status@ == "failed"@
    &&& p.result_markdown matches Some(t) && t@ == provisioning_failed(m)
    &&& p.disposal == disposal
}

fn failed_plan(message: &str, disposal: BoxDisposal) -> (r: ProvisioningPlan)
    ensures
        fails_provisioning(r, message@, disposal),
{
    let mut text = owned("Provisioning failed: ");
    push_str(&mut text, message);
    ProvisioningPlan { status: "failed", result_markdown: Some(text), disposal }
}

/// What the supervisor does after waiting for the box: nothing when it came
/// online; a cancelled run tears the box down; a failure the provider
/// recorded clears the cleanup record; a box that did not come online in
/// time goes to the retained cleanup; and a failed wait tears the box
/// down. Every way out disposes of the box.
pub fn provisioning_plan(outcome: &Result<WaitOutcome, String>) -> (r: Option<ProvisioningPlan>)
    ensures
        match outcome {
            Ok(WaitOutcome::Online(_)) => r is None,
            Ok(WaitOutcome::Cancelled) => r matches Some(p) && (p.status@ == "cancelled"@
                && p.result_markdown is None && p.disposal == BoxDisposal::Teardown),
            Ok(WaitOutcome::Failed(m)) => r matches Some(p) && fails_provisioning(
                p,
                m@,
                BoxDisposal::ClearRecord,
            ),
            Ok(WaitOutcome::TimedOut(m)) => r matches Some(p) && fails_provisioning(
                p,
                m@,
                BoxDisposal::ResumeRetained,
            ),
            Err(e) => r matches Some(p) && fails_provisioning(p, e@, BoxDisposal::Teardown),
        },
{
    match outcome {
        Ok(WaitOutcome::Online(_)) => None,
        Ok(WaitOutcome::Cancelled) => Some(
            ProvisioningPlan {
                status: "cancelled",
                result_markdown: None,
                disposal: BoxDisposal::Teardown,
            },
        ),
        Ok(WaitOutcome::Failed(m)) => Some(failed_plan(m.as_str(), BoxDisposal::ClearRecord)),
        Ok(WaitOutcome::TimedOut(m)) => Some(failed_plan(m.as_str(), BoxDisposal::ResumeRetained)),
        Err(e) => Some(failed_plan(e.as_str(), BoxDisposal::Teardown)),
    }
}

/// "The supervisor found no OpenResearch credentials (`orx login`), so
/// cleanup for box <id> is waiting for refreshed credentials."
pub open spec fn missing_credentials_text(sandbox_id: Seq<char>) -> Seq<char> {
    "The supervisor found no OpenResearch credentials (`orx login`), so cleanup for box "@
        + sandbox_id + " is waiting for refreshed credentials."@
}

/// How a run ends when the supervisor has no credentials to manage its
/// box: failed, saying so, with the box handed to the retained cleanup.
pub fn missing_credentials_plan(sandbox_id: &str) -> (r: ProvisioningPlan)
    ensures
        r.status@ == "failed"@,
        r.result_markdown matches Some(t) && t@ == missing_credentials_text(sandbox_id@),
        r.disposal == BoxDisposal::ResumeRetained,
{
    let mut text = owned(
        "The supervisor found no OpenResearch credentials (`orx login`), so cleanup for box ",
    );
    push_str(&mut text, sandbox_id);
    push_str(&mut text, " is waiting for refreshed credentials.");
    ProvisioningPlan { status: "failed", result_markdown: Some(text), disposal: BoxDisposal::ResumeRetained }
}

// ---------------------------------------------------------------------------
// Watching a launched job over SSH
// ---------------------------------------------------------------------------

/// What a probe of a launched job returned: its stage and message, or the
/// transport error's message.
pub enum WatchProbe {
    Job { stage: String, message: Option<String> },
    Lost(String),
}

/// What the watch does after one probe.
pub enum WatchStep {
    /// Wait this long and probe again: the outage window is still open.
    Retry { delay_ms: u64 },
    /// Take this job state as the job's: a stage and its message.
    Observe { stage: String, message: Option<String> },
}

/// "orx: SSH connection lost; retrying for up to <d>s: <detail>"
pub open spec fn lost_while_watching_message(deadline_ms: nat, detail: Seq<char>) -> Seq<char> {
    "orx: SSH connection lost; retrying for up to "@ + secs(deadline_ms) + "s: "@ + detail
}

/// "SSH transport to <dest> remained unavailable for <s>s: <detail>"
pub open spec fn remained_unavailable(dest: Seq<char>, ms: nat, detail: Seq<char>) -> Seq<char> {
    "SSH transport to "@ + dest + " remained unavailable for "@ + secs(ms) + "s: "@ + detail
}

/// `r` is the job state with stage `ERROR` and message `m`.
pub open spec fn transport_error(r: WatchStep, m: Seq<char>) -> bool {
    r matches WatchStep::Observe { stage, message } && (stage@ == "ERROR"@ && message == Some(
        message.unwrap(),
    ) && message.unwrap()@ == m)
}

/// The watch step, as a relation between the launch record before and
/// after and what the watch does. A reached job ends an open outage (logging
/// how long it lasted) unless the outage already outlasted the deadline, in
/// which case the job is taken as failed with an `ERROR` stage. A lost
/// probe opens an outage when none is open (at the probe's start), and
/// either waits for the rest of the window, at most one poll interval, or,
/// once the window has passed, takes the job as failed.
pub open spec fn watch_step_spec(
    before: (Option<i64>, Option<i64>, Seq<Seq<char>>),
    after: (Option<i64>, Option<i64>, Seq<Seq<char>>),
    dest: Seq<char>,
    deadline_ms: nat,
    probe_started_at: i64,
    observed_at: i64,
    probe: WatchProbe,
    result: WatchStep,
) -> bool {
    let (outage, claim, events) = before;
    match probe {
        WatchProbe::Job { stage, message } => match outage {
            Some(lost) => {
                let ms = elapsed_since_spec(lost as int, observed_at as int);
                if ms >= deadline_ms {
                    let m = unavailable_before_recovering(dest, ms);
                    &&& after == (outage, claim, events.push(prefixed(m)))
                    &&& transport_error(result, m)
                } else {
                    &&& after == (None::<i64>, claim, events.push(recovered_message(ms)))
                    &&& result == WatchStep::Observe { stage, message }
                }
            },
            None => after == before && result == WatchStep::Observe { stage, message },
        },
        WatchProbe::Lost(error) => {
            let detail = ssh_failure_detail_spec(error@);
            let lost = match outage {
                Some(l) => l,
                None => probe_started_at,
            };
            let events1 = if outage is None {
                events.push(lost_while_watching_message(deadline_ms, detail))
            } else {
                events
            };
            let ms = elapsed_since_spec(lost as int, observed_at as int);
            if ms < deadline_ms {
                &&& after == (Some(lost), claim, events1)
                &&& result == WatchStep::Retry {
                    delay_ms: (if deadline_ms - ms < POLL_INTERVAL_MS {
                        deadline_ms - ms
                    } else {
                        POLL_INTERVAL_MS as int
                    }) as u64,
                }
            } else {
                let m = remained_unavailable(dest, ms, detail);
                &&& after == (Some(lost), claim, events1.push(prefixed(m)))
                &&& transport_error(result, m)
            }
        },
    }
}

/// One probe of a launched job watched over SSH with an outage deadline
/// (see [`watch_step_spec`]): track the outage in `record` and decide
/// whether to probe again or which job state to take.
pub fn evaluate_watch_probe(
    record: &mut LaunchRecord,
    dest: &str,
    deadline_ms: u64,
    probe_started_at: i64,
    observed_at: i64,
    probe: WatchProbe,
) -> (r: WatchStep)
    ensures
        watch_step_spec(
            record_view(*old(record)),
            record_view(*final(record)),
            dest@,
            deadline_ms as nat,
            probe_started_at,
            observed_at,
            probe,
            r,
        ),
{
    match probe {
        WatchProbe::Job { stage, message } => {
            match record.outage_lost_at {
                Some(lost) => {
                    let unavailable = elapsed_since(lost, observed_at);
                    if unavailable >= deadline_ms {
                        let mut msg = owned("SSH transport to ");
                        push_str(&mut msg, dest);
                        push_str(&mut msg, " was unavailable for ");
                        push_decimal(&mut msg, unavailable / 1000);
                        push_str(&mut msg, "s before recovering.");
                        record_event(record, with_orx_prefix(&msg));
                        WatchStep::Observe { stage: owned("ERROR"), message: Some(msg) }
                    } else {
                        let recovered = message_with_secs(
                            "orx: SSH connection recovered after ",
                            unavailable,
                            "s.",
                        );
                        record.outage_lost_at = None;
                        record_event(record, recovered);
                        WatchStep::Observe { stage, message }
                    }
                },
                None => WatchStep::Observe { stage, message },
            }
        },
        WatchProbe::Lost(error) => {
            let detail = ssh_failure_detail(error.as_str());
            let lost = match record.outage_lost_at {
                Some(l) => l,
                None => {
                    let mut m = message_with_secs(
                        "orx: SSH connection lost; retrying for up to ",
                        deadline_ms,
                        "s: ",
                    );
                    push_str(&mut m, detail.as_str());
                    record.outage_lost_at = Some(probe_started_at);
                    record_event(record, m);
                    probe_started_at
                },
            };
            let unavailable = elapsed_since(lost, observed_at);
            if unavailable < deadline_ms {
                let left = deadline_ms - unavailable;
                let delay = if left < POLL_INTERVAL_MS {
                    left
                } else {
                    POLL_INTERVAL_MS
                };
                WatchStep::Retry { delay_ms: delay }
            } else {
                let mut m = owned("SSH transport to ");
                push_str(&mut m, dest);
                push_str(&mut m, " remained unavailable for ");
                push_decimal(&mut m, unavailable / 1000);
                push_str(&mut m, "s: ");
                push_str(&mut m, detail.as_str());
                record_event(record, with_orx_prefix(&m));
                WatchStep::Observe { stage: owned("ERROR"), message: Some(m) }
            }
        },
    }
}

/// While a job is watched, an outage is one continuous window: a lost probe
/// keeps the outage's original start, and once the window has passed the
/// job is taken as failed with an `ERROR` stage, never probed again.
pub proof fn law_watch_outage_window_is_continuous(
    before: (Option<i64>, Option<i64>, Seq<Seq<char>>),
    after: (Option<i64>, Option<i64>, Seq<Seq<char>>),
    dest: Seq<char>,
    deadline_ms: nat,
    probe_started_at: i64,
    observed_at: i64,
    probe: WatchProbe,
    result: WatchStep,
)
    requires
        watch_step_spec(before, after, dest, deadline_ms, probe_started_at, observed_at, probe, result),
    ensures
        probe is Lost ==> after.0 == (match before.0 {
            Some(l) => Some(l),
            None => Some(probe_started_at),
        }),
        after.1 == before.1,
        (after.0 matches Some(l) && elapsed_since_spec(l as int, observed_at as int) >= deadline_ms)
            ==> (probe is Lost ==> result is Observe),
        result matches WatchStep::Retry { delay_ms } ==> 0 < delay_ms <= POLL_INTERVAL_MS,
{
}

// ---------------------------------------------------------------------------
// Which watcher a run gets
// ---------------------------------------------------------------------------

/// The watcher of a run, chosen by the kind of its backend descriptor.
#[derive(Debug, Clone, Copy, PartialEq, Eq, Structural)]
pub enum Supervisor {
    Openresearch,
    K8s,
    Modal,
    Ssh,
    Slurm,
    Ray,
    Local,
    /// Any other kind is a Hugging Face job reference.
    HuggingFace,
}

/// The watcher for a backend descriptor kind.
pub open spec fn supervisor_spec(kind: Seq<char>) -> Supervisor {
    if kind == "openresearch_job"@ {
        Supervisor::Openresearch
    } else if kind == "k8s_job"@ {
        Supervisor::K8s
    } else if kind == "modal_job"@ {
        Supervisor::Modal
    } else if kind == "ssh_job"@ {
        Supervisor::Ssh
    } else if kind == "slurm_job"@ {
        Supervisor::Slurm
    } else if kind == "ray_job"@ {
        Supervisor::Ray
    } else if kind == "local_job"@ {
        Supervisor::Local
    } else {
        Supervisor::HuggingFace
    }
}

/// The watcher for a backend descriptor kind.
pub fn supervisor_for(kind: &str) -> (r: Supervisor)
    ensures
        r == supervisor_spec(kind@),
{
    if str_eq(kind, "openresearch_job") {
        Supervisor::Openresearch
    } else if str_eq(kind, "k8s_job") {
        Supervisor::K8s
    } else if str_eq(kind, "modal_job") {
        Supervisor::Modal
    } else if str_eq(kind, "ssh_job") {
        Supervisor::Ssh
    } else if str_eq(kind, "slurm_job") {
        Supervisor::Slurm
    } else if str_eq(kind, "ray_job") {
        Supervisor::Ray
    } else if str_eq(kind, "local_job") {
        Supervisor::Local
    } else {
        Supervisor::HuggingFace
    }
}

/// The reason a failed local run records on its row: the job's message,
/// when it has one. Runs mirrored to the server record nothing here.
pub fn failure_note(local: bool, status: &str, message: Option<&str>) -> (r: Option<String>)
    ensures
        match r {
            Some(n) => local && status@ == "failed"@ && (message matches Some(m) && n@ == "Job failed: "@ + m@),
            None => !local || status@ != "failed"@ || message is None,
        },
{
    if !local || !str_eq(status, "failed") {
        return None;
    }
    match message {
        Some(m) => {
            let mut n = owned("Job failed: ");
            push_str(&mut n, m);
            Some(n)
        },
        None => None,
    }
}

// ---------------------------------------------------------------------------
// Probe budgets while a launch is awaited
// ---------------------------------------------------------------------------

/// What is left of a window of `deadline_ms` that began at `started_at`
/// (zero once it has passed), or `fallback` when no window is open.
pub open spec fn window_left(started_at: Option<i64>, now: i64, deadline_ms: u64, fallback: u64) -> nat {
    match started_at {
        Some(s) => if elapsed_since_spec(s as int, now as int) >= deadline_ms {
            0
        } else {
            (deadline_ms - elapsed_since_spec(s as int, now as int)) as nat
        },
        None => fallback as nat,
    }
}

/// The smallest of three numbers.
pub open spec fn min3(a: nat, b: nat, c: nat) -> nat {
    if a <= b && a <= c {
        a
    } else if b <= c {
        b
    } else {
        c
    }
}

fn window_left_exec(started_at: Option<i64>, now: i64, deadline_ms: u64, fallback: u64) -> (r: u64)
    ensures
        r as nat == window_left(started_at, now, deadline_ms, fallback),
{
    match started_at {
        Some(s) => {
            let e = elapsed_since(s, now);
            if e >= deadline_ms {
                0
            } else {
                deadline_ms - e
            }
        },
        None => fallback,
    }
}

/// How long the next launch probe may take: no longer than the probe
/// timeout, nor than what is left of an ongoing transport outage or of the
/// launch claim, measured against the same deadline. Zero means the window
/// has closed and the box is not probed again.
pub fn probe_budget(outage_lost_at: Option<i64>, claim_at: Option<i64>, deadline_ms: u64, now: i64) -> (r: u64)
    ensures
        r as nat == min3(
            window_left(outage_lost_at, now, deadline_ms, SSH_PROBE_TIMEOUT_MS),
            window_left(claim_at, now, deadline_ms, SSH_PROBE_TIMEOUT_MS),
            SSH_PROBE_TIMEOUT_MS as nat,
        ),
{
    let a = window_left_exec(outage_lost_at, now, deadline_ms, SSH_PROBE_TIMEOUT_MS);
    let b = window_left_exec(claim_at, now, deadline_ms, SSH_PROBE_TIMEOUT_MS);
    let c = SSH_PROBE_TIMEOUT_MS;
    if a <= b && a <= c {
        a
    } else if b <= c {
        b
    } else {
        c
    }
}

/// How long to wait before probing again: the poll interval, cut short by
/// the end of an ongoing outage window or of the launch claim.
pub fn poll_delay(outage_lost_at: Option<i64>, claim_at: Option<i64>, deadline_ms: u64, observed_at: i64) -> (r: u64)
    ensures
        r as nat == min3(
            POLL_INTERVAL_MS as nat,
            window_left(outage_lost_at, observed_at, deadline_ms, POLL_INTERVAL_MS),
            window_left(claim_at, observed_at, deadline_ms, POLL_INTERVAL_MS),
        ),
{
    let a = POLL_INTERVAL_MS;
    let b = window_left_exec(outage_lost_at, observed_at, deadline_ms, POLL_INTERVAL_MS);
    let c = window_left_exec(claim_at, observed_at, deadline_ms, POLL_INTERVAL_MS);
    if a <= b && a <= c {
        a
    } else if b <= c {
        b
    } else {
        c
    }
}

/// A probe never runs past the deadline of an open outage or claim: once
/// either window has fully elapsed the budget is zero, and it never exceeds
/// the probe timeout.
pub proof fn law_probes_stay_inside_their_windows(
    outage_lost_at: Option<i64>,
    claim_at: Option<i64>,
    deadline_ms: u64,
    now: i64,
)
    ensures
        min3(
            window_left(outage_lost_at, now, deadline_ms, SSH_PROBE_TIMEOUT_MS),
            window_left(claim_at, now, deadline_ms, SSH_PROBE_TIMEOUT_MS),
            SSH_PROBE_TIMEOUT_MS as nat,
        ) <= SSH_PROBE_TIMEOUT_MS,
        (outage_lost_at matches Some(s) && elapsed_since_spec(s as int, now as int) >= deadline_ms) ==> min3(
            window_left(outage_lost_at, now, deadline_ms, SSH_PROBE_TIMEOUT_MS),
            window_left(claim_at, now, deadline_ms, SSH_PROBE_TIMEOUT_MS),
            SSH_PROBE_TIMEOUT_MS as nat,
        ) == 0,
        (claim_at matches Some(s) && elapsed_since_spec(s as int, now as int) >= deadline_ms) ==> min3(
            window_left(outage_lost_at, now, deadline_ms, SSH_PROBE_TIMEOUT_MS),
            window_left(claim_at, now, deadline_ms, SSH_PROBE_TIMEOUT_MS),
            SSH_PROBE_TIMEOUT_MS as nat,
        ) == 0,
{
}

} // verus!
