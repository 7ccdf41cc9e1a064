use openresearch_cli::jobs::{
    failed_sandbox_message, launch_probe_from_output, launch_probe_script, parse_flavor,
    provisioning_remaining, provisioning_timed_out, run_dir, sandbox_created_at_ms, sh_quote,
    wait_online_after_poll, wait_online_begin, wrap_with_timeout, LaunchProbe, Sandbox,
    SandboxPoll, SandboxTarget, WaitOutcome, WaitStep, PROVISION_DEADLINE_MS,
};

#[test]
fn parse_flavor_gpu_defaults_to_one() {
    match parse_flavor("h100_sxm", 100, None).unwrap() {
        SandboxTarget::New {
            gpu,
            gpu_count,
            disk_gb,
            provider,
        } => {
            assert_eq!(gpu, "H100_SXM");
            assert_eq!(gpu_count, 1);
            assert_eq!(disk_gb, 100);
            assert!(provider.is_none());
        }
        other => panic!("wrong target: {other:?}"),
    }
}

#[test]
fn parse_flavor_gpu_with_count_and_provider() {
    match parse_flavor("h100_sxm:2", 250, Some("runpod".into())).unwrap() {
        SandboxTarget::New {
            gpu,
            gpu_count,
            disk_gb,
            provider,
        } => {
            assert_eq!(gpu, "H100_SXM");
            assert_eq!(gpu_count, 2);
            assert_eq!(disk_gb, 250);
            assert_eq!(provider.as_deref(), Some("runpod"));
        }
        other => panic!("wrong target: {other:?}"),
    }
}

#[test]
fn parse_flavor_cpu_defaults_to_eight_vcpus() {
    match parse_flavor("cpu5c", 100, None).unwrap() {
        SandboxTarget::NewCpu {
            cpu_flavor,
            vcpu_count,
        } => {
            assert_eq!(cpu_flavor, "cpu5c");
            assert_eq!(vcpu_count, 8);
        }
        other => panic!("wrong target: {other:?}"),
    }
}

#[test]
fn parse_flavor_cpu_with_vcpus() {
    match parse_flavor("cpu5m:32", 100, None).unwrap() {
        SandboxTarget::NewCpu {
            cpu_flavor,
            vcpu_count,
        } => {
            assert_eq!(cpu_flavor, "cpu5m");
            assert_eq!(vcpu_count, 32);
        }
        other => panic!("wrong target: {other:?}"),
    }
}

#[test]
fn parse_flavor_rejects_bad_suffix_and_empty() {
    assert!(parse_flavor("h100_sxm:x", 100, None).is_err());
    assert!(parse_flavor("h100_sxm:0", 100, None).is_err());
    assert!(parse_flavor("", 100, None).is_err());
    assert!(parse_flavor(":2", 100, None).is_err());
}

#[test]
fn parse_flavor_errors_name_the_flavor_and_trim_it() {
    assert_eq!(
        parse_flavor("  h100_sxm:-3 ", 100, None).unwrap_err(),
        "Bad --flavor 'h100_sxm:-3': the ':-3' suffix must be a positive count (GPUs) or vCPU tier. See `orx compute` for available shapes."
    );
    assert_eq!(
        parse_flavor(":2", 100, None).unwrap_err(),
        "--flavor is empty. Pass a GPU id like h100_sxm[:count] or a CPU flavor like cpu5c[:vcpus] — see `orx compute`."
    );
    // A signed count parses like std's i64 parser: `+4` is four.
    match parse_flavor(" a100:+4 ", 10, None).unwrap() {
        SandboxTarget::New { gpu, gpu_count, .. } => {
            assert_eq!(gpu, "A100");
            assert_eq!(gpu_count, 4);
        }
        other => panic!("wrong target: {other:?}"),
    }
    // Overflowing counts are rejected, the largest i64 is accepted.
    assert!(parse_flavor("cpu:9223372036854775808", 10, None).is_err());
    match parse_flavor("cpu:9223372036854775807", 10, None).unwrap() {
        SandboxTarget::NewCpu { vcpu_count, .. } => assert_eq!(vcpu_count, i64::MAX),
        other => panic!("wrong target: {other:?}"),
    }
}

#[test]
fn timeout_wrapper_quotes_and_guards() {
    let wrapped = wrap_with_timeout("echo 'hi there'", 14400);
    assert!(wrapped.starts_with("timeout --signal=TERM --kill-after=30s 14400 bash -c "));
    // The payload survives quoting (embedded single quotes escaped).
    assert!(wrapped.contains("'echo '\\''hi there'\\'''"));
    assert!(wrapped.contains("rc=$?"));
    assert!(wrapped.trim_end().ends_with("exit $rc"));
}

#[test]
fn sh_quote_escapes_every_single_quote() {
    assert_eq!(sh_quote(""), "''");
    assert_eq!(sh_quote("a'b"), "'a'\\''b'");
    assert_eq!(
        wrap_with_timeout("true", 7),
        "timeout --signal=TERM --kill-after=30s 7 bash -c 'true'\nrc=$?\nif [ \"$rc\" = 124 ]; then echo \"orx: run timed out after 7s\" >&2; fi\nexit $rc"
    );
}

#[test]
fn run_dir_matches_ssh_convention() {
    assert_eq!(run_dir("abc"), ".orx/runs/abc");
}

#[test]
fn provisioning_deadline_is_anchored_to_the_sandbox_uuid() {
    let sandbox_id = "00000000-03e8-7000-8000-000000000000";
    assert_eq!(sandbox_created_at_ms(sandbox_id), Some(1_000));
    assert!(!provisioning_timed_out(
        sandbox_id,
        0,
        300_999,
        PROVISION_DEADLINE_MS
    ));
    assert_eq!(
        provisioning_remaining(sandbox_id, 0, 300_999, PROVISION_DEADLINE_MS),
        1
    );
    assert!(provisioning_timed_out(
        sandbox_id,
        0,
        301_000,
        PROVISION_DEADLINE_MS
    ));
    assert_eq!(
        provisioning_remaining(sandbox_id, 0, 301_000, PROVISION_DEADLINE_MS),
        0
    );
}

#[test]
fn legacy_sandbox_ids_use_process_elapsed_time() {
    assert!(provisioning_timed_out(
        "legacy",
        PROVISION_DEADLINE_MS,
        301_000,
        PROVISION_DEADLINE_MS
    ));
}

#[test]
fn sandbox_ids_in_the_future_fall_back_to_elapsed_time() {
    let sandbox_id = "00000000-03e8-7000-8000-000000000000";
    assert!(!provisioning_timed_out(sandbox_id, 10, 999, PROVISION_DEADLINE_MS));
    assert_eq!(
        provisioning_remaining(sandbox_id, 10, 999, PROVISION_DEADLINE_MS),
        PROVISION_DEADLINE_MS - 10
    );
    assert_eq!(sandbox_created_at_ms("zz000000-0000"), None);
    assert_eq!(sandbox_created_at_ms("0000-0000"), None);
    assert_eq!(sandbox_created_at_ms("+0000000003e8"), Some(0x3e));
    assert_eq!(sandbox_created_at_ms("+000000003e8"), Some(1_000));
    assert_eq!(sandbox_created_at_ms("FFFFFFFFFFFF-x"), Some(0xFFFF_FFFF_FFFF));
}

fn sandbox(id: &str, status: &str) -> Sandbox {
    Sandbox {
        id: id.into(),
        status: status.into(),
        ssh_hostname: None,
        ssh_port: None,
        ssh_username: None,
        provision_warnings: None,
        provision_stage: None,
        provision_error_code: None,
        provision_error_message: None,
        last_health_error: None,
    }
}

#[test]
fn failed_sandbox_message_includes_typed_reason() {
    let mut s = sandbox("sb_1", "failed");
    s.provision_stage = Some("ssh_auth".into());
    s.provision_error_code = Some("readiness_timeout".into());
    s.provision_error_message = Some("The registered key was rejected".into());
    assert_eq!(
        failed_sandbox_message(&s),
        "Box sb_1 failed during ssh_auth (readiness_timeout): The registered key was rejected."
    );
}

#[test]
fn failed_sandbox_message_falls_back_for_legacy_payload() {
    let mut s = sandbox("sb_legacy", "failed");
    s.provision_warnings = Some("provider capacity unavailable".into());
    assert_eq!(
        failed_sandbox_message(&s),
        "Box sb_legacy failed: provider capacity unavailable."
    );
}

#[test]
fn failed_sandbox_message_distinguishes_post_ready_ssh_loss() {
    let mut s = sandbox("sb_health", "failed");
    s.ssh_hostname = Some("example.test".into());
    s.ssh_port = Some(22);
    s.ssh_username = Some("root".into());
    s.provision_stage = Some("ready".into());
    s.last_health_error = Some("ssh_auth: authentication failed".into());
    assert_eq!(
        failed_sandbox_message(&s),
        "Box sb_health failed: ssh_auth: authentication failed."
    );
}

#[test]
fn failed_sandbox_message_without_any_reason() {
    assert_eq!(
        failed_sandbox_message(&sandbox("sb_x", "failed")),
        "Box sb_x failed: the provider did not return a failure reason."
    );
}

#[test]
fn launch_probe_output_prefers_started() {
    assert_eq!(launch_probe_from_output("STARTED\n"), LaunchProbe::Started);
    assert_eq!(launch_probe_from_output("CLAIMED\n"), LaunchProbe::Claimed);
    assert_eq!(launch_probe_from_output("FRESH\n"), LaunchProbe::Fresh);
    assert_eq!(launch_probe_from_output(""), LaunchProbe::Fresh);
    let script = launch_probe_script("r1");
    assert!(script.starts_with("d=\"$HOME/.orx/runs/r1\"; "));
    assert!(script.ends_with("else echo FRESH; fi"));
}

#[test]
fn online_wait_begins_with_cancellation_then_deadline() {
    let id = "00000000-03e8-7000-8000-000000000000";
    assert!(matches!(
        wait_online_begin(id, PROVISION_DEADLINE_MS, true, 0, 1_000, None),
        WaitStep::Finished(WaitOutcome::Cancelled)
    ));
    match wait_online_begin(id, PROVISION_DEADLINE_MS, false, 0, 301_000, Some("boom".into())) {
        WaitStep::Finished(WaitOutcome::TimedOut(m)) => assert_eq!(
            m,
            format!("Box {id} did not come online within 5m (last API error: boom).")
        ),
        _ => panic!("expected a timeout"),
    }
    match wait_online_begin(id, PROVISION_DEADLINE_MS, false, 0, 295_000, None) {
        WaitStep::Poll { budget_ms } => assert_eq!(budget_ms, 6_000),
        _ => panic!("expected a poll"),
    }
    match wait_online_begin(id, PROVISION_DEADLINE_MS, false, 0, 1_000, None) {
        WaitStep::Poll { budget_ms } => assert_eq!(budget_ms, 15_000),
        _ => panic!("expected a poll"),
    }
}

#[test]
fn online_wait_reads_each_poll() {
    let id = "legacy";
    let mut online = sandbox(id, "online");
    online.ssh_hostname = Some("h".into());
    online.ssh_port = Some(22);
    online.ssh_username = Some("u".into());
    match wait_online_after_poll(id, 300_000, 15_000, 1_000, 0, 0, SandboxPoll::Answered(online.clone())) {
        WaitStep::Finished(WaitOutcome::Online(b)) => assert_eq!(*b, online),
        _ => panic!("expected online"),
    }
    let mut dead = sandbox(id, "dead");
    dead.provision_warnings = Some("no capacity".into());
    match wait_online_after_poll(id, 300_000, 15_000, 1_000, 0, 0, SandboxPoll::Answered(dead)) {
        WaitStep::Failed(m) => assert_eq!(m, "Box legacy went dead while provisioning: no capacity."),
        _ => panic!("expected failure"),
    }
    match wait_online_after_poll(id, 300_000, 15_000, 1_000, 0, 0, SandboxPoll::NotFound) {
        WaitStep::Failed(m) => assert!(m.contains("the API returned 404")),
        _ => panic!("expected failure"),
    }
    match wait_online_after_poll(id, 300_000, 15_000, 1_000, 0, 1_000, SandboxPoll::RequestTimedOut) {
        WaitStep::Sleep { delay_ms, last_error } => {
            assert_eq!(delay_ms, 5_000);
            assert_eq!(last_error.as_deref(), Some("sandbox status request timed out after 15s"));
        }
        _ => panic!("expected a sleep"),
    }
    match wait_online_after_poll(id, 300_000, 15_000, 298_000, 0, 0, SandboxPoll::Answered(sandbox(id, "booting"))) {
        WaitStep::Sleep { delay_ms, last_error } => {
            assert_eq!(delay_ms, 2_000);
            assert!(last_error.is_none());
        }
        _ => panic!("expected a sleep"),
    }
    match wait_online_after_poll(id, 300_000, 15_000, 300_000, 0, 0, SandboxPoll::ApiError("503".into())) {
        WaitStep::Finished(WaitOutcome::TimedOut(m)) => {
            assert_eq!(m, "Box legacy did not come online within 5m (last API error: 503).")
        }
        _ => panic!("expected a timeout"),
    }
    match wait_online_after_poll(id, 300_000, 15_000, 10, 0, 0, SandboxPoll::Answered(sandbox(id, "failed"))) {
        WaitStep::Finished(WaitOutcome::Failed(m)) => {
            assert_eq!(m, "Box legacy failed: the provider did not return a failure reason.")
        }
        _ => panic!("expected a failure outcome"),
    }
}
