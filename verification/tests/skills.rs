use std::collections::HashSet;

use openresearch_cli::skills::{
    current_skill_set, find, session_skill_files, skills, SkillSet, REPORTS, SKILL_OVERVIEW,
};

fn is_valid_name(name: &str) -> bool {
    // ^[a-z0-9]+(-[a-z0-9]+)*$
    !name.is_empty()
        && name.split('-').all(|seg| {
            !seg.is_empty()
                && seg
                    .chars()
                    .all(|c| c.is_ascii_lowercase() || c.is_ascii_digit())
        })
}

/// Agent guidance speaks of the CLI, never of where to click in the
/// OpenResearch interface.
fn assert_agent_guidance_is_ui_agnostic(label: &str, text: &str) {
    let lower = text.to_ascii_lowercase();
    for phrase in [
        "click",
        "sidebar",
        "side panel",
        "in the ui",
        "in the app",
        "open the dashboard",
        "settings page",
        "tab in",
    ] {
        assert!(
            !lower.contains(phrase),
            "{label}: guidance mentions UI navigation ({phrase:?})"
        );
    }
}

#[test]
fn names_are_valid_unique_and_prefixed() {
    for set in [SkillSet::Local, SkillSet::Full] {
        let mut seen = HashSet::new();
        for s in skills(set) {
            assert!(
                is_valid_name(s.name),
                "{:?}: invalid name {:?}",
                set,
                s.name
            );
            assert!(
                s.name.starts_with("orx-"),
                "{:?}: name {:?} not orx- prefixed",
                set,
                s.name
            );
            assert!(
                seen.insert(s.name),
                "{:?}: duplicate name {:?}",
                set,
                s.name
            );
        }
    }
}

#[test]
fn descriptions_are_within_bounds() {
    for set in [SkillSet::Local, SkillSet::Full] {
        for s in skills(set) {
            let len = s.description.chars().count();
            assert!(
                (1..=400).contains(&len),
                "{:?}: {} description is {} chars (want 1..=400)",
                set,
                s.name,
                len
            );
        }
    }
}

#[test]
fn file_frontmatter_matches_code_and_is_valid_yaml() {
    for set in [SkillSet::Local, SkillSet::Full] {
        for s in skills(set) {
            let mut lines = s.content.lines();
            assert_eq!(lines.next(), Some("---"), "{} missing opening ---", s.name);
            let name_line = lines.next().unwrap_or_default();
            let desc_line = lines.next().unwrap_or_default();
            assert_eq!(
                name_line,
                format!("name: {}", s.name),
                "{} name frontmatter",
                s.name
            );
            let value = desc_line
                .strip_prefix("description: ")
                .unwrap_or_else(|| panic!("{} description frontmatter shape", s.name));
            let decoded: String = serde_json::from_str(value).unwrap_or_else(|e| {
                panic!("{} description is not a quoted scalar: {e}", s.name)
            });
            assert_eq!(decoded, s.description, "{} description round-trip", s.name);
            assert!(
                !s.description.contains('\n'),
                "{} description has a newline",
                s.name
            );
            assert_eq!(lines.next(), Some("---"), "{} missing closing ---", s.name);
            let body = s
                .content
                .split_once("\n---\n\n")
                .map(|(_, body)| body)
                .unwrap_or("");
            assert!(!body.trim().is_empty(), "{} has an empty body", s.name);
        }
    }
}

#[test]
fn find_resolves_prefixed_and_bare() {
    for set in [SkillSet::Local, SkillSet::Full] {
        assert_eq!(
            find("orx-compute", set).map(|s| s.name),
            Some("orx-compute")
        );
        assert_eq!(find("compute", set).map(|s| s.name), Some("orx-compute"));
        assert!(find("does-not-exist", set).is_none());
        assert!(find("project-query", set).is_none());
    }
    // `orx-create` is Full-only — a local session has no create surface.
    assert_eq!(
        find("orx-create", SkillSet::Full).map(|s| s.name),
        Some("orx-create")
    );
    assert_eq!(
        find("create", SkillSet::Full).map(|s| s.name),
        Some("orx-create")
    );
    assert!(find("orx-create", SkillSet::Local).is_none());
}

#[test]
fn find_trims_the_requested_name() {
    assert_eq!(
        find("  compute-k8s\n", SkillSet::Local).map(|s| s.name),
        Some("orx-compute-k8s")
    );
    assert!(find("orx-orx-git", SkillSet::Full).is_none());
    assert_eq!(current_skill_set(true), SkillSet::Local);
    assert_eq!(current_skill_set(false), SkillSet::Full);
}

#[test]
fn shared_skills_use_one_canonical_body() {
    for name in ["experiment-tree", "git", "compute", "evidence", "reports"] {
        let local = find(name, SkillSet::Local).expect("local skill");
        let full = find(name, SkillSet::Full).expect("full skill");
        assert_eq!(local.content, full.content, "{name} body");
    }
}

#[test]
fn reports_skill_links_written_artifacts() {
    assert!(REPORTS.contains("cite every relevant output as raw"));
    assert!(REPORTS.contains("<file path=\"artifacts/<relative-path>\" />"));
    assert!(REPORTS.contains("never as a bare or backticked path"));
}

#[test]
fn session_skill_files_cover_the_local_set() {
    let rel = ".opencode/skills";
    let files = session_skill_files(rel);
    let expected: HashSet<String> = skills(SkillSet::Local)
        .iter()
        .map(|s| format!("{rel}/{}/SKILL.md", s.name))
        .collect();
    let got: HashSet<String> = files.iter().map(|(path, _)| path.clone()).collect();
    assert_eq!(got, expected, "exactly the Local-set files");
    for (s, (_, content)) in skills(SkillSet::Local).iter().zip(files.iter()) {
        assert_eq!(*content, s.content, "{} SKILL.md content", s.name);
    }
    // Idempotent: asking again yields the same files.
    let again: Vec<(String, &str)> = session_skill_files(rel);
    assert_eq!(again, files);
}

#[test]
fn unified_git_and_compute_skills_are_written_to_sessions() {
    let rel = ".agents/skills";
    let files = session_skill_files(rel);
    let content = |path: &str| {
        files
            .iter()
            .find(|(p, _)| p == path)
            .map(|(_, c)| *c)
            .unwrap_or_else(|| panic!("{path} missing"))
    };
    let git = content(".agents/skills/orx-git/SKILL.md");
    assert!(git.contains("never part of compute transport"));
    assert!(git.contains("do not push merely to launch compute"));
    let compute = content(".agents/skills/orx-compute/SKILL.md");
    assert!(compute.contains("immutable source snapshot"));
    assert!(compute.contains("Hugging Face Jobs"));
    content(".agents/skills/orx-compute-k8s/SKILL.md");
}

#[test]
fn bundled_skills_avoid_openresearch_ui_navigation() {
    for set in [SkillSet::Local, SkillSet::Full] {
        for skill in skills(set) {
            assert_agent_guidance_is_ui_agnostic(skill.name, skill.content);
            assert_agent_guidance_is_ui_agnostic(skill.name, skill.description);
        }
    }
}

#[test]
fn bundled_overview_avoids_openresearch_ui_navigation() {
    assert_agent_guidance_is_ui_agnostic("orx skill overview", SKILL_OVERVIEW);
}

#[test]
fn every_module_carries_its_description_in_its_front_matter() {
    for set in [SkillSet::Local, SkillSet::Full] {
        for s in skills(set) {
            let n = s.description.chars().count();
            assert!((1..=400).contains(&n));
            assert!(!s.description.contains('\n'));
            let front = format!(
                "---\nname: {}\ndescription: \"{}\"\n---\n\n",
                s.name, s.description
            );
            assert!(s.content.starts_with(&front), "{}", s.name);
        }
    }
    let found = find("git", SkillSet::Local).unwrap();
    assert!(found.description.starts_with("Read, edit, commit, and diff experiment code"));
}
