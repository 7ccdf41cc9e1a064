use openresearch_cli::linux_app::{
    archive_digest, checksum_matches, is_update_leftover, manifest_failure,
    rewrite_desktop_exec_text, verify_archive, AppManifest, MANIFEST_ASSET,
};

fn manifest(sha: &str) -> AppManifest {
    AppManifest {
        version: "0.2.0".into(),
        tag: "v0.2.0".into(),
        asset: "openresearch-linux.tar.gz".into(),
        sha256: sha.into(),
    }
}

#[test]
fn digest_is_lower_hex_sha256() {
    assert_eq!(
        archive_digest(b"abc"),
        "ba7816bf8f01cfea414140de5dae2223b00361a396177a9cb410ff61f20015ad"
    );
    assert_eq!(
        archive_digest(b""),
        "e3b0c44298fc1c149afbf4c8996fb92427ae41e4649b934ca495991b7852b855"
    );
}

#[test]
fn published_checksum_is_compared_case_insensitively_and_trimmed() {
    let d = "ba7816bf8f01cfea414140de5dae2223b00361a396177a9cb410ff61f20015ad";
    assert!(checksum_matches(d, &format!("  {}\n", d.to_uppercase())));
    assert!(!checksum_matches(d, "ba78"));
    assert!(verify_archive(&manifest(&d.to_uppercase()), b"abc").is_ok());
}

#[test]
fn mismatched_archive_is_refused_with_both_digests() {
    let err = verify_archive(&manifest(" deadbeef "), b"abc").unwrap_err();
    assert_eq!(
        err,
        "The downloaded openresearch-linux.tar.gz does not match the checksum published for v0.2.0 \
         (expected deadbeef, got ba7816bf8f01cfea414140de5dae2223b00361a396177a9cb410ff61f20015ad). \
         Nothing was installed."
    );
}

#[test]
fn rewrite_desktop_exec_pins_the_installed_root() {
    let text = "[Desktop Entry]\nName=OpenResearch\nExec=__PREFIX__/bin/openresearch\nTerminal=false\n";
    let rewritten = rewrite_desktop_exec_text(text, "/opt/openresearch");
    assert!(rewritten.contains("Exec=/opt/openresearch/bin/openresearch"));
    assert!(!rewritten.contains("__PREFIX__"));
    assert_eq!(
        rewritten,
        "[Desktop Entry]\nName=OpenResearch\nExec=/opt/openresearch/bin/openresearch\nTerminal=false"
    );
}

#[test]
fn leftovers_are_staging_or_backup_dirs_but_never_the_app() {
    assert!(is_update_leftover(".openresearch-update-1234", false));
    assert!(is_update_leftover(".openresearch-old-abcd", false));
    assert!(!is_update_leftover(".openresearch-old-abcd", true));
    assert!(!is_update_leftover("openresearch", false));
}

#[test]
fn manifest_failures_name_the_status() {
    assert_eq!(
        manifest_failure(503, "Service Unavailable"),
        "App manifest request failed (503 Service Unavailable)"
    );
    assert_eq!(MANIFEST_ASSET, "linux-app.json");
}
