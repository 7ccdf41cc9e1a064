use openresearch_cli::lit::{
    acronym_only_query, collapse_ws, collect_retrieval_result, default_limit,
    ensure_alphaxiv_enabled, is_acronym, merge_hits, metric, publication_date,
    render_flat_results, render_retrieval_set, resolve_lit_source, truncate_chars, validate_alphaxiv_options_source, LitHit, LitSnippet,
    LitSource, RetrievalSet,
};

fn disabled(names: &[&str]) -> Vec<String> {
    names.iter().map(|s| s.to_string()).collect()
}

fn lit_hit(id: &str) -> LitHit {
    LitHit {
        id: id.into(),
        title: "Paper".into(),
        abstract_: String::new(),
        publication_date: None,
        votes: Some(0),
        citations: None,
        snippets: Vec::new(),
    }
}

#[test]
fn respects_disabled_alphaxiv_source() {
    let error = ensure_alphaxiv_enabled(&["alphaxiv".to_string()])
        .expect_err("disabled alphaXiv should reject retrieval");
    assert!(error.contains("alphaXiv is disabled"));
    ensure_alphaxiv_enabled(&[]).expect("enabled alphaXiv should permit retrieval");
}

#[test]
fn resolves_source_honoring_disabled_set() {
    // Explicit source that's enabled passes through.
    assert_eq!(
        resolve_lit_source(Some(LitSource::Openalex), &[]).unwrap(),
        LitSource::Openalex
    );
    // Explicit disabled source errors.
    assert!(resolve_lit_source(Some(LitSource::Biorxiv), &disabled(&["biorxiv"])).is_err());
    // No --source → alphaxiv when enabled.
    assert_eq!(resolve_lit_source(None, &[]).unwrap(), LitSource::Alphaxiv);
    // No --source, alphaxiv disabled → next enabled (openalex).
    assert_eq!(
        resolve_lit_source(None, &disabled(&["alphaxiv"])).unwrap(),
        LitSource::Openalex
    );
    // No --source, only biorxiv enabled → biorxiv.
    assert_eq!(
        resolve_lit_source(None, &disabled(&["alphaxiv", "openalex"])).unwrap(),
        LitSource::Biorxiv
    );
    // Everything disabled → error.
    assert!(resolve_lit_source(None, &disabled(&["alphaxiv", "openalex", "biorxiv"])).is_err());
    // An unknown/stale name in the set matches no real source and is ignored.
    assert_eq!(
        resolve_lit_source(Some(LitSource::Alphaxiv), &disabled(&["ghost"])).unwrap(),
        LitSource::Alphaxiv
    );
}

#[test]
fn resolve_errors_name_the_source() {
    assert_eq!(
        resolve_lit_source(Some(LitSource::Biorxiv), &disabled(&["biorxiv"])).unwrap_err(),
        "bioRxiv is disabled by your OpenResearch literature-source configuration. Re-enable it or pick another --source."
    );
    assert_eq!(
        resolve_lit_source(None, &disabled(&["alphaxiv", "openalex", "biorxiv"])).unwrap_err(),
        "All literature sources are disabled by your OpenResearch configuration."
    );
}

#[test]
fn date_bounds_explain_disabled_alphaxiv_fallback() {
    let error = validate_alphaxiv_options_source(None, LitSource::Openalex, true)
        .expect_err("fallback with date bounds should fail");

    assert!(error.contains("alphaXiv is disabled in Settings"));
    assert!(validate_alphaxiv_options_source(
        Some(LitSource::Alphaxiv),
        LitSource::Alphaxiv,
        true
    )
    .is_ok());
}

#[test]
fn alphaxiv_options_on_an_explicit_other_source_are_refused() {
    assert_eq!(
        validate_alphaxiv_options_source(Some(LitSource::Openalex), LitSource::Openalex, true)
            .unwrap_err(),
        "--keyword, --prioritize, --published-after, and --published-before are supported only for alphaXiv searches"
    );
    assert!(validate_alphaxiv_options_source(None, LitSource::Openalex, false).is_ok());
    assert_eq!(default_limit(None, LitSource::Alphaxiv), 15);
    assert_eq!(default_limit(None, LitSource::Biorxiv), 5);
    assert_eq!(default_limit(Some(3), LitSource::Alphaxiv), 3);
}

#[test]
fn isolates_acronyms_when_other_keywords_are_present() {
    assert_eq!(
        acronym_only_query(&["SDPO".into(), "preference optimization".into()]),
        Some("SDPO".into())
    );
    assert_eq!(acronym_only_query(&["GRPO".into(), "DAPO".into()]), None);
    assert_eq!(acronym_only_query(&["transformers".into()]), None);
}

#[test]
fn acronym_query_trims_and_joins() {
    assert_eq!(
        acronym_only_query(&[" GRPO ".into(), "rl".into(), "DA-PO".into()]),
        Some("GRPO DA-PO".into())
    );
    assert!(is_acronym("GPT-4"));
    assert!(!is_acronym("A"));
    assert!(!is_acronym("Gpt"));
    assert!(!is_acronym("4GPT"));
    assert!(!is_acronym("ABCDEFGHIJK"));
    assert!(!is_acronym("AB C"));
}

#[test]
fn keeps_successful_retrieval_when_another_strategy_fails() {
    let mut sets = Vec::new();
    let mut failures = Vec::new();
    collect_retrieval_result(
        &mut sets,
        &mut failures,
        "Keyword results",
        "attention".into(),
        Ok(vec![lit_hit("2401.00001")]),
    );
    collect_retrieval_result(
        &mut sets,
        &mut failures,
        "Semantic results",
        "attention mechanisms".into(),
        Err("semantic search unavailable".into()),
    );

    assert_eq!(sets.len(), 1);
    assert_eq!(sets[0].hits[0].id, "2401.00001");
    assert_eq!(failures.len(), 1);
    assert_eq!(
        failures[0],
        "Semantic results unavailable: semantic search unavailable"
    );
}

#[test]
fn merged_json_hits_keep_the_first_strategy_order() {
    let sets = vec![
        RetrievalSet {
            label: "Keyword results",
            query: "attention".into(),
            hits: vec![lit_hit("a"), lit_hit("b")],
        },
        RetrievalSet {
            label: "Semantic results",
            query: "attention mechanisms".into(),
            hits: vec![lit_hit("b"), lit_hit("c")],
        },
    ];

    assert_eq!(
        merge_hits(&sets)
            .into_iter()
            .map(|hit| hit.id)
            .collect::<Vec<_>>(),
        ["a", "b", "c"]
    );
}

#[test]
fn merge_keeps_the_first_hit_of_each_paper() {
    let mut first = lit_hit("a");
    first.title = "first".into();
    first.snippets = vec![LitSnippet {
        page_number: 3,
        snippet: "x".into(),
    }];
    let mut second = lit_hit("a");
    second.title = "second".into();
    let sets = vec![RetrievalSet {
        label: "Keyword results",
        query: "q".into(),
        hits: vec![first, second, lit_hit("b")],
    }];
    let merged = merge_hits(&sets);
    assert_eq!(merged.len(), 2);
    assert_eq!(merged[0].title, "first");
    assert_eq!(merged[0].snippets[0].page_number, 3);
    assert_eq!(merged[0].snippets[0].snippet, "x");
    assert!(merge_hits(&[]).is_empty());
}

#[test]
fn hit_formatting() {
    let mut hit = lit_hit("x");
    hit.publication_date = Some("2024-01-02T03:04:05Z".into());
    hit.votes = Some(12);
    assert_eq!(publication_date(&hit), "2024-01-02");
    assert_eq!(metric(&hit), "12 votes");
    hit.votes = None;
    hit.citations = Some(7);
    assert_eq!(metric(&hit), "7 citations");
    hit.citations = None;
    hit.publication_date = None;
    assert_eq!(metric(&hit), "—");
    assert_eq!(publication_date(&hit), "—");
    assert_eq!(collapse_ws("  a \n\t b  c "), "a b c");
    assert_eq!(collapse_ws("   "), "");
    assert_eq!(truncate_chars("héllo", 5), "héllo");
    assert_eq!(truncate_chars("héllo", 2), "hé…");
}

#[test]
fn retrieval_sets_show_each_paper_once_numbered_per_set() {
    let mut first = lit_hit("2401.00001");
    first.title = "Sparse Attention".into();
    first.abstract_ = "We  study\n sparse   attention.".into();
    first.publication_date = Some("2024-01-02T00:00:00Z".into());
    first.votes = Some(12);
    first.snippets = vec![
        LitSnippet { page_number: 3, snippet: "a  b".into() },
        LitSnippet { page_number: 4, snippet: "c".into() },
        LitSnippet { page_number: 5, snippet: "never shown".into() },
    ];
    let mut second = lit_hit("2401.00002");
    second.votes = None;
    second.citations = Some(7);
    let keyword = RetrievalSet {
        label: "Keyword results",
        query: "sparse attention".into(),
        hits: vec![first, second],
    };
    let mut printed = Vec::new();
    let text = render_retrieval_set(&keyword, &mut printed);
    assert_eq!(
        text,
        "## Keyword results\nQuery: sparse attention\n\n\
         1. [ID=2401.00001] **Sparse Attention**. Published 2024-01-02 · 12 votes: We study sparse attention.\n   Matches: [p.3] a b | [p.4] c\n\
         2. [ID=2401.00002] **Paper**. Published — · 7 citations: \n\n"
    );
    assert_eq!(printed, vec!["2401.00001".to_string(), "2401.00002".to_string()]);

    let semantic = RetrievalSet {
        label: "Semantic results",
        query: "attention".into(),
        hits: vec![lit_hit("2401.00002")],
    };
    assert_eq!(
        render_retrieval_set(&semantic, &mut printed),
        "## Semantic results\nQuery: attention\n\nNo additional papers found.\n\n"
    );
    assert_eq!(printed.len(), 2);
}

#[test]
fn flat_results_list_id_title_date_metric_and_abstract() {
    let mut a = lit_hit("W1");
    a.abstract_ = "  An   abstract ".into();
    a.votes = None;
    let b = lit_hit("W2");
    assert_eq!(
        render_flat_results(&vec![a, b]),
        "W1  Paper\n            — · —\n            An abstract\n\nW2  Paper\n            — · 0 votes\n\n"
    );
}
