use openresearch_cli::desktop::{
    health_accepted, health_matches_process, is_bundle_exe_launch, matching_upgrade_pid,
    parse_shell_environment,
    DesktopProcess, HealthResponse, PACKAGE_VERSION,
};

fn health(version: Option<&str>, service: Option<&str>) -> HealthResponse {
    HealthResponse {
        ok: true,
        version: version.map(str::to_string),
        service: service.map(str::to_string),
        pid: None,
        desktop_instance_id: None,
    }
}

#[test]
fn accepts_current_and_legacy_health_responses() {
    assert!(health_accepted(&health(Some("0.1.97"), Some("openresearch"))));
    assert!(health_accepted(&health(Some("0.1.96"), None)));
}

#[test]
fn rejects_unrelated_health_responses() {
    assert!(!health_accepted(&health(None, None)));
    let mut h = health(Some("0.1.97"), Some("openresearch"));
    h.ok = false;
    assert!(!health_accepted(&h));
}

#[test]
fn attributes_readiness_only_to_the_spawned_process() {
    let mut health = HealthResponse {
        ok: true,
        version: Some(PACKAGE_VERSION.to_string()),
        service: Some("openresearch".to_string()),
        pid: Some(123),
        desktop_instance_id: Some("desktop-run".to_string()),
    };

    assert!(health_matches_process(&health, 123, "desktop-run"));
    health.pid = Some(456);
    assert!(!health_matches_process(&health, 123, "desktop-run"));
    health.pid = Some(123);
    health.desktop_instance_id = Some("other-run".to_string());
    assert!(!health_matches_process(&health, 123, "desktop-run"));
}

#[test]
fn restarts_only_the_matching_desktop_owned_process() {
    let state = DesktopProcess {
        pid: 123,
        version: "0.1.96".to_string(),
        instance_id: "desktop-run".to_string(),
    };
    let mut health = HealthResponse {
        ok: true,
        version: Some("0.1.96".to_string()),
        service: Some("openresearch".to_string()),
        pid: Some(123),
        desktop_instance_id: Some("desktop-run".to_string()),
    };

    assert_eq!(matching_upgrade_pid(&health, &state), Some(123));
    health.version = Some("0.1.98".to_string());
    assert_eq!(matching_upgrade_pid(&health, &state), None);
    health.version = Some("0.1.96".to_string());
    health.desktop_instance_id = None;
    assert_eq!(matching_upgrade_pid(&health, &state), None);
    health.desktop_instance_id = Some("desktop-run".to_string());
    health.version = Some("not a version".to_string());
    assert_eq!(matching_upgrade_pid(&health, &state), None);
}

#[test]
fn parses_environment_after_shell_startup_output() {
    let output = b"startup text\0__ORX_DESKTOP_ENV__\0PATH=/opt/homebrew/bin:/usr/bin\0TOKEN=a=b\0";
    let parsed = parse_shell_environment(output);
    assert_eq!(
        parsed,
        vec![
            (b"PATH".to_vec(), b"/opt/homebrew/bin:/usr/bin".to_vec()),
            (b"TOKEN".to_vec(), b"a=b".to_vec())
        ]
    );
}

#[test]
fn environment_without_marker_or_with_nameless_entries() {
    assert!(parse_shell_environment(b"PATH=/usr/bin\0").is_empty());
    let output = b"__ORX_DESKTOP_ENV__\0=x\0noequals\0A=\0";
    assert_eq!(parse_shell_environment(output), vec![(b"A".to_vec(), Vec::new())]);
}

const EXE: &str = "/Applications/OpenResearch.app/Contents/MacOS/OpenResearch";

#[test]
fn finder_and_direct_runs_of_the_bundle_exe_are_app_launches() {
    assert!(is_bundle_exe_launch(EXE, Some(EXE)));
    assert!(is_bundle_exe_launch(EXE, Some("./OpenResearch")));
}

#[test]
fn the_bundles_orx_symlink_stays_a_cli() {
    // `exe` is canonicalized, so the symlink shows up only in argv.
    assert!(!is_bundle_exe_launch(EXE, Some("orx")));
    assert!(!is_bundle_exe_launch(
        EXE,
        Some("/Applications/OpenResearch.app/Contents/MacOS/orx")
    ));
}

#[test]
fn installs_outside_a_bundle_are_never_app_launches() {
    assert!(!is_bundle_exe_launch("/usr/local/bin/orx", Some("orx")));
    assert!(!is_bundle_exe_launch(EXE, None));
}

#[test]
fn bundle_paths_are_read_by_component() {
    assert!(is_bundle_exe_launch(
        "/Applications//OpenResearch.app/Contents/./MacOS/OpenResearch",
        Some("OpenResearch/")
    ));
    assert!(!is_bundle_exe_launch("/Contents/MacOSX/OpenResearch", Some("OpenResearch")));
    assert!(!is_bundle_exe_launch("MacOS/OpenResearch", Some("OpenResearch")));
}
