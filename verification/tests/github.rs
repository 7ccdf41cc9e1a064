use openresearch_cli::github::{
    create_repo_outcome, next_name_attempt, no_available_name_message, repo_api_url,
    repo_candidate, repo_meta_from, should_shallow_clone, viewer_login_from, CreateRepoError,
    CreateRepoReply, SHALLOW_CLONE_THRESHOLD_KB,
};

#[test]
fn shallow_clone_is_reserved_for_large_repositories() {
    assert!(!should_shallow_clone(None));
    assert!(!should_shallow_clone(Some(SHALLOW_CLONE_THRESHOLD_KB - 1)));
    assert!(should_shallow_clone(Some(SHALLOW_CLONE_THRESHOLD_KB)));
}

#[test]
fn threshold_is_250_mib() {
    assert_eq!(SHALLOW_CLONE_THRESHOLD_KB, 250 * 1024);
}

#[test]
fn candidates_count_up_from_the_bare_name() {
    assert_eq!(repo_candidate("paper", 1), "paper");
    assert_eq!(repo_candidate("paper", 2), "paper-2");
    assert_eq!(repo_candidate("paper", 100), "paper-100");
    assert_eq!(next_name_attempt(1), Some(2));
    assert_eq!(next_name_attempt(99), Some(100));
    assert_eq!(next_name_attempt(100), None);
    assert_eq!(
        no_available_name_message("paper"),
        "Could not find an available GitHub repository name for 'paper'."
    );
}

#[test]
fn repository_endpoints_percent_encode_their_segments() {
    assert_eq!(
        repo_api_url("octo-cat", "my.repo_1~x"),
        "https://api.github.com/repos/octo-cat/my.repo_1~x"
    );
    assert_eq!(
        repo_api_url("a b", "c/d"),
        "https://api.github.com/repos/a%20b/c%2Fd"
    );
    assert_eq!(repo_api_url("é", "x"), "https://api.github.com/repos/%C3%A9/x");
}

#[test]
fn repo_meta_reads_flags_only_on_success() {
    let m = repo_meta_from(200, Some(true), None).unwrap();
    assert!(m.can_push);
    assert!(!m.archived);
    let m = repo_meta_from(200, None, Some(true)).unwrap();
    assert!(!m.can_push);
    assert!(m.archived);
    assert!(repo_meta_from(404, Some(true), Some(true)).is_none());
    assert!(repo_meta_from(500, None, None).is_none());
}

#[test]
fn viewer_login_must_be_present_and_non_empty() {
    assert_eq!(viewer_login_from(200, Some("octo")), Some("octo".to_string()));
    assert_eq!(viewer_login_from(200, Some("")), None);
    assert_eq!(viewer_login_from(200, None), None);
    assert_eq!(viewer_login_from(401, Some("octo")), None);
}

fn reply(status: u16) -> CreateRepoReply {
    CreateRepoReply {
        status,
        status_text: format!("{status} Status"),
        error_code: None,
        error_detail: None,
        message: None,
        owner_login: None,
        name: None,
        default_branch: None,
    }
}

#[test]
fn taken_names_are_recognised_by_code_or_detail() {
    let mut r = reply(422);
    r.error_code = Some("already_exists".into());
    assert!(matches!(
        create_repo_outcome("paper", &r),
        Err(CreateRepoError::NameExists)
    ));
    let mut r = reply(422);
    r.error_detail = Some("name Already Exists on this account".into());
    assert!(matches!(
        create_repo_outcome("paper", &r),
        Err(CreateRepoError::NameExists)
    ));
}

#[test]
fn other_failures_carry_their_message() {
    let mut r = reply(422);
    r.error_detail = Some("name is too long".into());
    match create_repo_outcome("paper", &r) {
        Err(CreateRepoError::Failed(m)) => assert_eq!(m, "Could not create 'paper': name is too long."),
        _ => panic!("expected a failure"),
    }
    match create_repo_outcome("paper", &reply(422)) {
        Err(CreateRepoError::Failed(m)) => {
            assert_eq!(m, "Could not create 'paper': invalid repository name.")
        }
        _ => panic!("expected a failure"),
    }
    let mut r = reply(403);
    r.status_text = "403 Forbidden".into();
    r.message = Some("Resource not accessible".into());
    match create_repo_outcome("paper", &r) {
        Err(CreateRepoError::Failed(m)) => {
            assert_eq!(m, "GitHub repo create failed (403 Forbidden): Resource not accessible")
        }
        _ => panic!("expected a failure"),
    }
    match create_repo_outcome("paper", &reply(201)) {
        Err(CreateRepoError::Failed(m)) => assert_eq!(m, "GitHub response missing owner login"),
        _ => panic!("expected a failure"),
    }
}

#[test]
fn created_repository_defaults_name_and_branch() {
    let mut r = reply(201);
    r.owner_login = Some("octo".into());
    match create_repo_outcome("paper", &r) {
        Ok((owner, name, branch)) => {
            assert_eq!(owner, "octo");
            assert_eq!(name, "paper");
            assert_eq!(branch, "main");
        }
        Err(_) => panic!("expected success"),
    }
    r.name = Some("paper-2".into());
    r.default_branch = Some("trunk".into());
    match create_repo_outcome("paper", &r) {
        Ok((_, name, branch)) => {
            assert_eq!(name, "paper-2");
            assert_eq!(branch, "trunk");
        }
        Err(_) => panic!("expected success"),
    }
}
