use openresearch_cli::platform::{
    browser_command, error_dialog_commands, extract_path, windows_browser_args, Platform,
};

#[test]
fn windows_opener_passes_query_url_as_one_argument() {
    let url = "https://example.com/login?code=a&state=b";
    assert_eq!(windows_browser_args(url), ["url.dll,FileProtocolHandler", url]);
}

#[test]
fn each_platform_has_its_opener() {
    let url = "http://127.0.0.1:4791";
    let (p, a) = browser_command(Platform::MacOs, url);
    assert_eq!((p.as_str(), a), ("open", vec![url.to_string()]));
    let (p, a) = browser_command(Platform::Other, url);
    assert_eq!((p.as_str(), a), ("xdg-open", vec![url.to_string()]));
    let (p, a) = browser_command(Platform::Windows, url);
    assert_eq!(
        (p.as_str(), a),
        (
            "rundll32.exe",
            vec!["url.dll,FileProtocolHandler".to_string(), url.to_string()]
        )
    );
}

const M: &str = "__ORX_PATH_abc123__";

#[test]
fn extracts_path_from_a_chatty_shell() {
    let stdout = format!("nvm loaded\n{M}/opt/homebrew/bin:/usr/bin{M}");
    assert_eq!(
        extract_path(&stdout, M).as_deref(),
        Some("/opt/homebrew/bin:/usr/bin")
    );
}

#[test]
fn rejects_truncated_or_empty_output() {
    assert_eq!(extract_path("", M), None);
    assert_eq!(extract_path(&format!("{M}/usr/bin"), M), None);
    assert_eq!(extract_path(&format!("{M}{M}"), M), None);
}

#[test]
fn rejects_a_fence_wrapping_the_template_instead_of_its_output() {
    let stdout = format!(r#"+ /bin/sh -c printf "{M}%s{M}" "$PATH""#);
    assert_eq!(extract_path(&stdout, M), None);
}

#[test]
fn any_absolute_entry_is_enough_and_trailing_text_is_ignored() {
    assert_eq!(
        extract_path(&format!("{M}relative::/bin{M}tail{M}"), M).as_deref(),
        Some("relative::/bin")
    );
    assert_eq!(extract_path(&format!("{M}a/b:c{M}"), M), None);
}

#[test]
fn failed_starts_are_reported_by_the_first_dialog_that_works() {
    let linux = error_dialog_commands(Platform::Other, "no port");
    let programs: Vec<&str> = linux.iter().map(|c| c.program.as_str()).collect();
    assert_eq!(programs, vec!["zenity", "kdialog", "xmessage", "notify-send"]);
    assert_eq!(
        linux[0].args,
        vec!["--error", "--title=OpenResearch could not start", "--text", "no port"]
    );
    assert_eq!(linux[3].args, vec!["--urgency=critical", "OpenResearch could not start", "no port"]);
    assert!(linux.iter().all(|c| c.env.is_none()));

    let mac = error_dialog_commands(Platform::MacOs, "no port");
    assert_eq!(mac.len(), 1);
    assert_eq!(mac[0].program, "osascript");
    assert_eq!(mac[0].args.last().map(String::as_str), Some("no port"));

    let windows = error_dialog_commands(Platform::Windows, "no port");
    assert_eq!(windows.len(), 1);
    assert_eq!(windows[0].program, "powershell.exe");
    assert!(!windows[0].args.iter().any(|a| a == "no port"));
    assert_eq!(
        windows[0].env,
        Some(("ORX_DESKTOP_ERROR".to_string(), "no port".to_string()))
    );
}
