use openresearch_cli::supervise::{cancel_resources, poll_action, should_send_cancel, PollAction};
use openresearch_cli::supervise::{evaluate_watch_probe, WatchProbe, WatchStep};
use openresearch_cli::jobs::WaitOutcome;
use openresearch_cli::supervise::{missing_credentials_plan, provisioning_plan, BoxDisposal};
use openresearch_cli::text::{is_whitespace, trim};
use openresearch_cli::jobs::LaunchProbe;
use openresearch_cli::supervise::{
    elapsed_since, evaluate_launch_probe, failure_note, poll_delay, probe_budget,
    run_status_for_stage,
    should_report_cancelled, supervisor_for, Supervisor,
    ssh_failure_detail, ssh_outage_timed_out, LaunchRecord, LaunchState, ProbeResult,
    SSH_LOSS_DEADLINE_MS,
};

#[test]
fn ssh_outage_uses_one_continuous_two_minute_window() {
    let started_at = 1_000;
    assert!(!ssh_outage_timed_out(
        started_at,
        started_at + 119_999,
        SSH_LOSS_DEADLINE_MS
    ));
    assert!(ssh_outage_timed_out(
        started_at,
        started_at + 120_000,
        SSH_LOSS_DEADLINE_MS
    ));
    assert!(!ssh_outage_timed_out(
        started_at,
        started_at - 1,
        SSH_LOSS_DEADLINE_MS
    ));
}

#[test]
fn elapsed_time_never_goes_negative() {
    assert_eq!(elapsed_since(1_000, 500), 0);
    assert_eq!(elapsed_since(1_000, 1_500), 500);
    assert_eq!(elapsed_since(i64::MIN, i64::MAX), i64::MAX as u64);
}

#[test]
fn recovered_cancel_intent_only_overrides_failed_terminal_state() {
    let cancel = should_report_cancelled(true, false, false);
    assert_eq!(run_status_for_stage("failed", true, cancel), "failed");
    let cancel = should_report_cancelled(true, false, true);
    assert_eq!(run_status_for_stage("failed", true, cancel), "cancelled");
    assert_eq!(run_status_for_stage("done", true, cancel), "done");
    assert_eq!(run_status_for_stage("failed", false, cancel), "failed");
    assert!(should_report_cancelled(false, true, false));
    assert!(!should_report_cancelled(false, false, true));
}

#[test]
fn ssh_failures_are_classified_by_their_words() {
    assert_eq!(
        ssh_failure_detail("Permission denied (publickey)"),
        "ssh_auth: Permission denied (publickey)"
    );
    assert_eq!(
        ssh_failure_detail("Could not resolve hostname gpu-box"),
        "endpoint: Could not resolve hostname gpu-box"
    );
    assert_eq!(
        ssh_failure_detail("connect: Connection refused"),
        "tcp: connect: Connection refused"
    );
    assert_eq!(ssh_failure_detail("weird"), "ssh: weird");
}

#[test]
fn launch_probe_respects_persisted_outage_and_clears_it_on_recovery() {
    let mut record = LaunchRecord::new();
    let started_at = 1_000;
    let pending = evaluate_launch_probe(
        &mut record,
        "gpu-box",
        SSH_LOSS_DEADLINE_MS,
        started_at,
        started_at,
        ProbeResult::Lost("connection refused".into()),
    );
    assert_eq!(pending, None);
    let recovered = evaluate_launch_probe(
        &mut record,
        "gpu-box",
        SSH_LOSS_DEADLINE_MS,
        started_at + 119_000,
        started_at + 119_000,
        ProbeResult::Reached(LaunchProbe::Started),
    );
    assert_eq!(recovered, Some(LaunchState::AlreadyLaunched));
    assert_eq!(record.outage_lost_at, None);

    let mut record = LaunchRecord::new();
    evaluate_launch_probe(
        &mut record,
        "gpu-box",
        SSH_LOSS_DEADLINE_MS,
        started_at,
        started_at,
        ProbeResult::Lost("connection refused".into()),
    );
    let timed_out = evaluate_launch_probe(
        &mut record,
        "gpu-box",
        SSH_LOSS_DEADLINE_MS,
        started_at + SSH_LOSS_DEADLINE_MS as i64,
        started_at + SSH_LOSS_DEADLINE_MS as i64,
        ProbeResult::Reached(LaunchProbe::Started),
    );
    assert!(matches!(timed_out, Some(LaunchState::TransportTimedOut(_))));
}

#[test]
fn launch_claim_has_a_distinct_persisted_deadline() {
    let mut record = LaunchRecord::new();
    evaluate_launch_probe(
        &mut record,
        "gpu-box",
        SSH_LOSS_DEADLINE_MS,
        1_000,
        1_000,
        ProbeResult::Lost("connection refused".into()),
    );
    let pending = evaluate_launch_probe(
        &mut record,
        "gpu-box",
        SSH_LOSS_DEADLINE_MS,
        100_000,
        100_000,
        ProbeResult::Reached(LaunchProbe::Claimed),
    );
    assert_eq!(pending, None);
    assert_eq!(record.outage_lost_at, None);
    assert_eq!(record.claim_at, Some(100_000));
    evaluate_launch_probe(
        &mut record,
        "gpu-box",
        SSH_LOSS_DEADLINE_MS,
        150_000,
        150_000,
        ProbeResult::Lost("connection reset".into()),
    );
    assert_eq!(record.claim_at, Some(100_000));
    let timed_out = evaluate_launch_probe(
        &mut record,
        "gpu-box",
        SSH_LOSS_DEADLINE_MS,
        220_000,
        220_000,
        ProbeResult::Reached(LaunchProbe::Claimed),
    );
    assert!(matches!(timed_out, Some(LaunchState::LaunchClaimTimedOut(_))));
}

#[test]
fn each_backend_kind_gets_its_watcher() {
    assert_eq!(supervisor_for("openresearch_job"), Supervisor::Openresearch);
    assert_eq!(supervisor_for("k8s_job"), Supervisor::K8s);
    assert_eq!(supervisor_for("modal_job"), Supervisor::Modal);
    assert_eq!(supervisor_for("ssh_job"), Supervisor::Ssh);
    assert_eq!(supervisor_for("slurm_job"), Supervisor::Slurm);
    assert_eq!(supervisor_for("ray_job"), Supervisor::Ray);
    assert_eq!(supervisor_for("local_job"), Supervisor::Local);
    assert_eq!(supervisor_for("hf_job"), Supervisor::HuggingFace);
}

#[test]
fn only_failed_local_runs_record_the_job_message() {
    assert_eq!(failure_note(true, "failed", Some("OOM")), Some("Job failed: OOM".to_string()));
    assert_eq!(failure_note(true, "failed", None), None);
    assert_eq!(failure_note(false, "failed", Some("OOM")), None);
    assert_eq!(failure_note(true, "done", Some("ok")), None);
}

#[test]
fn probes_and_waits_shrink_with_the_open_windows() {
    let deadline = 120_000;
    // Nothing open: the full probe timeout and poll interval.
    assert_eq!(probe_budget(None, None, deadline, 1_000), 30_000);
    assert_eq!(poll_delay(None, None, deadline, 1_000), 5_000);
    // An outage that began 100 s ago leaves 20 s.
    assert_eq!(probe_budget(Some(0), None, deadline, 100_000), 20_000);
    assert_eq!(poll_delay(Some(0), None, deadline, 118_000), 2_000);
    // A claim nearly out of time bounds both.
    assert_eq!(probe_budget(Some(0), Some(0), deadline, 119_500), 500);
    // A closed window means no further probe.
    assert_eq!(probe_budget(None, Some(0), deadline, 200_000), 0);
    assert_eq!(poll_delay(Some(0), None, deadline, 200_000), 0);
    // A clock that went backwards counts as no time elapsed.
    assert_eq!(probe_budget(Some(5_000), None, deadline, 1_000), 30_000);
}

#[test]
fn a_watched_job_waits_out_an_outage_then_fails() {
    let mut record = LaunchRecord::new();
    let step = evaluate_watch_probe(&mut record, "box", 120_000, 1_000, 2_000, WatchProbe::Lost("Connection refused".into()));
    assert!(matches!(step, WatchStep::Retry { delay_ms: 5_000 }));
    assert_eq!(record.outage_lost_at, Some(1_000));
    assert_eq!(record.events, vec!["orx: SSH connection lost; retrying for up to 120s: tcp: Connection refused".to_string()]);
    let step = evaluate_watch_probe(&mut record, "box", 120_000, 118_000, 119_000, WatchProbe::Lost("Connection refused".into()));
    assert!(matches!(step, WatchStep::Retry { delay_ms: 2_000 }));
    assert_eq!(record.outage_lost_at, Some(1_000));
    let step = evaluate_watch_probe(&mut record, "box", 120_000, 120_000, 121_000, WatchProbe::Lost("Connection refused".into()));
    match step {
        WatchStep::Observe { stage, message } => {
            assert_eq!(stage, "ERROR");
            assert_eq!(message.as_deref(), Some("SSH transport to box remained unavailable for 120s: tcp: Connection refused"));
        }
        _ => panic!("expected the job to fail"),
    }
    assert_eq!(record.events.len(), 2);
}

#[test]
fn a_watched_job_that_answers_ends_the_outage() {
    let mut record = LaunchRecord::new();
    record.outage_lost_at = Some(0);
    let step = evaluate_watch_probe(&mut record, "box", 120_000, 40_000, 45_000, WatchProbe::Job { stage: "RUNNING".into(), message: None });
    assert!(matches!(step, WatchStep::Observe { ref stage, message: None } if stage == "RUNNING"));
    assert_eq!(record.outage_lost_at, None);
    assert_eq!(record.events, vec!["orx: SSH connection recovered after 45s.".to_string()]);
    record.outage_lost_at = Some(0);
    let step = evaluate_watch_probe(&mut record, "box", 120_000, 130_000, 130_000, WatchProbe::Job { stage: "RUNNING".into(), message: None });
    match step {
        WatchStep::Observe { stage, message } => {
            assert_eq!(stage, "ERROR");
            assert_eq!(message.as_deref(), Some("SSH transport to box was unavailable for 130s before recovering."));
        }
        _ => panic!("expected the job to fail"),
    }
}

#[test]
fn every_failed_provisioning_disposes_of_the_box() {
    let p = provisioning_plan(&Ok(WaitOutcome::Cancelled)).unwrap();
    assert_eq!((p.status, p.result_markdown, p.disposal), ("cancelled", None, BoxDisposal::Teardown));
    let p = provisioning_plan(&Ok(WaitOutcome::Failed("quota".into()))).unwrap();
    assert_eq!(p.status, "failed");
    assert_eq!(p.result_markdown.as_deref(), Some("Provisioning failed: quota"));
    assert_eq!(p.disposal, BoxDisposal::ClearRecord);
    let p = provisioning_plan(&Ok(WaitOutcome::TimedOut("late".into()))).unwrap();
    assert_eq!(p.disposal, BoxDisposal::ResumeRetained);
    assert_eq!(p.result_markdown.as_deref(), Some("Provisioning failed: late"));
    let p = provisioning_plan(&Err("api down".into())).unwrap();
    assert_eq!(p.disposal, BoxDisposal::Teardown);
    assert_eq!(p.result_markdown.as_deref(), Some("Provisioning failed: api down"));
    let p = missing_credentials_plan("sb-1");
    assert_eq!(p.status, "failed");
    assert_eq!(p.disposal, BoxDisposal::ResumeRetained);
    assert_eq!(p.result_markdown.as_deref(), Some("The supervisor found no OpenResearch credentials (`orx login`), so cleanup for box sb-1 is waiting for refreshed credentials."));
}

#[test]
fn white_space_is_the_unicode_list() {
    for c in ['\t', '\n', '\u{b}', '\u{c}', '\r', ' ', '\u{85}', '\u{a0}', '\u{1680}', '\u{2000}', '\u{200a}', '\u{2028}', '\u{2029}', '\u{202f}', '\u{205f}', '\u{3000}'] {
        assert!(is_whitespace(c) && c.is_whitespace());
    }
    for c in ['a', '\u{200b}', '\u{feff}', '\u{180e}', '0'] {
        assert_eq!(is_whitespace(c), c.is_whitespace());
    }
    assert_eq!(trim("\u{a0} x \u{3000}"), "x");
}

#[test]
fn a_poll_records_transitions_then_checks_cancel_intent() {
    assert_eq!(poll_action("running", "starting", false), PollAction::RecordTransition);
    assert_eq!(poll_action("running", "running", false), PollAction::CheckCancel);
    assert_eq!(poll_action("running", "running", true), PollAction::Wait);
    assert!(should_send_cancel(true, false));
    assert!(!should_send_cancel(true, true));
    assert!(!should_send_cancel(false, false));
}

#[test]
fn cancelling_a_k8s_run_deletes_its_recorded_resources_or_its_job() {
    assert_eq!(cancel_resources(None, "train-1"), vec!["job/train-1".to_string()]);
    let recorded = vec!["job/a".to_string(), "configmap/b".to_string()];
    assert_eq!(cancel_resources(Some(recorded.clone()), "train-1"), recorded);
}
