//! Searching: which clues are used, how finds are merged, ordered and shown.
use simple_core::budget::{
    assemble_search_candidate_views, desired_search_evidence_chars, select_search_candidate_sets,
    truncate_candidate_evidence, SearchBudgetOptions, SearchHydration, SearchRepresentation,
};
use simple_core::candidate::{
    merge_candidate, sort_candidates, Candidate, CandidateSection, SearchSort, VerbatimMatch,
};
use simple_core::json::Json;
use simple_core::lanes::{
    apply_semantic_outcome, retrieval_lane_gap, retrieval_lane_selection, RetrievalLaneSelection,
    RequestSemanticEmbeddings, RetrievalTimings, SemanticCandidates, SemanticLaneReport, SemanticOutcome,
};
use simple_core::lexical::{
    bounded_lexical_fallback_queries, lexical_candidate_bonus, lexical_terms, path_hints,
    ranked_lexical_fallback_queries, search_anchors,
};
use simple_core::paths::entry_link_lookup_keys;
use simple_core::render::{
    render_budgeted_search_candidate, render_evidence_lead, render_search_candidate,
};
use simple_core::requests::SearchQuery;
use simple_core::verbatim::{
    extract_verbatim_matches, verbatim_match_terms, MAX_VERBATIM_RESPONSE_CHARS,
};

/// What stands for a score.
fn points(points: f64) -> i64 {
    let magnitude = points.abs().to_bits() as i64;
    if points < 0.0 {
        -magnitude
    } else {
        magnitude
    }
}

/// The score that a code stands for.
fn number(code: i64) -> f64 {
    let magnitude = f64::from_bits(code.unsigned_abs());
    if code < 0 {
        -magnitude
    } else {
        magnitude
    }
}

const AUGUST_FIRST: i64 = 1_785_542_400_000_000;
const DAY: i64 = 86_400_000_000;

fn owned(text: &str) -> Option<String> {
    Some(text.to_owned())
}

fn text_of<'a>(value: &'a Json, key: &str) -> Option<&'a str> {
    value.get_text(key).map(|text| text.as_str())
}

fn first_of<'a>(value: &'a Json, key: &str) -> &'a Json {
    &value.get(key).unwrap().as_array().unwrap()[0]
}

fn candidate_with_sections(id: u128, section_chars: &[usize]) -> Candidate {
    let sections = section_chars
        .iter()
        .enumerate()
        .map(|(index, chars)| CandidateSection {
            heading: format!("Section {index}"),
            excerpt: char::from(b'a' + u8::try_from(index).unwrap_or(0))
                .to_string()
                .repeat(*chars),
            score: points(10.0 - index as f64),
        })
        .collect::<Vec<_>>();
    Candidate {
        entry_id: id,
        path: format!("Sources/{id}.md"),
        title: format!("Source {id}"),
        version: 1,
        updated_at: AUGUST_FIRST,
        content_sha256: format!("{id:064x}"),
        heading: sections
            .first()
            .map(|section| section.heading.clone())
            .unwrap_or_default(),
        excerpt: sections
            .first()
            .map(|section| section.excerpt.clone())
            .unwrap_or_default(),
        score: points(10.0),
        lanes: vec!["lexical".to_owned()],
        sections,
        verbatim_matches: vec![],
        superseded_by: None,
    }
}

fn ids(candidates: &[Candidate]) -> Vec<u128> {
    candidates.iter().map(|item| item.entry_id).collect()
}

#[test]
fn search_sort_defaults_to_best_match_and_validates_public_values() {
    assert_eq!(SearchSort::parse(&None).unwrap(), SearchSort::BestMatch);
    assert_eq!(
        SearchSort::parse(&owned("last_modified")).unwrap(),
        SearchSort::LastModified
    );
    assert_eq!(SearchSort::parse(&owned("title")).unwrap(), SearchSort::Title);
    assert!(SearchSort::parse(&owned("newest-ish")).is_err());

    let query = SearchQuery {
        id: None,
        query: "signal".to_owned(),
        goal: None,
        limit: None,
        sort: owned("last_modified"),
        modes: vec![],
    };
    assert_eq!(query.sort.as_deref(), Some("last_modified"));
    assert_eq!(
        SearchSort::parse(&query.sort).unwrap(),
        SearchSort::LastModified
    );
}

#[test]
fn search_sorts_by_relevance_recency_or_title_before_path() {
    let mut older_best = candidate_with_sections(1, &[8]);
    older_best.title = "Zulu".to_owned();
    older_best.score = points(10.0);
    older_best.updated_at = AUGUST_FIRST;

    let mut newer_best = candidate_with_sections(2, &[8]);
    newer_best.title = "alpha".to_owned();
    newer_best.score = points(10.0);
    newer_best.updated_at = AUGUST_FIRST + DAY;

    let mut newest_lower_score = candidate_with_sections(3, &[8]);
    newest_lower_score.title = "Middle".to_owned();
    newest_lower_score.score = points(9.0);
    newest_lower_score.updated_at = AUGUST_FIRST + 2 * DAY;

    let candidates = || {
        vec![
            older_best.copy(),
            newest_lower_score.copy(),
            newer_best.copy(),
        ]
    };

    let mut best_match = candidates();
    sort_candidates(&mut best_match, SearchSort::BestMatch);
    assert_eq!(
        ids(&best_match),
        vec![
            newer_best.entry_id,
            older_best.entry_id,
            newest_lower_score.entry_id
        ]
    );

    let mut last_modified = candidates();
    sort_candidates(&mut last_modified, SearchSort::LastModified);
    assert_eq!(
        ids(&last_modified),
        vec![
            newest_lower_score.entry_id,
            newer_best.entry_id,
            older_best.entry_id
        ]
    );

    let mut title = candidates();
    sort_candidates(&mut title, SearchSort::Title);
    assert_eq!(
        ids(&title),
        vec![
            newer_best.entry_id,
            newest_lower_score.entry_id,
            older_best.entry_id
        ]
    );
}

fn semantic_report(outcome: SemanticOutcome) -> SemanticLaneReport {
    SemanticLaneReport {
        outcome,
        ready_us: 1_000,
        lane_us: 2_000,
    }
}

#[test]
fn optional_semantic_failures_never_downgrade_core_results() {
    let mut merged = Vec::new();
    merge_candidate(&mut merged, candidate_with_sections(1, &[64]));
    merge_candidate(&mut merged, candidate_with_sections(2, &[64]));
    let mut failures: Vec<String> = vec![];
    let mut timings = RetrievalTimings::none();
    assert!(!apply_semantic_outcome(
        Some(semantic_report(SemanticOutcome::Disabled)),
        false,
        &mut merged,
        &mut failures,
        &mut timings,
    ));
    for outcome in [
        SemanticOutcome::IndexUnavailable,
        SemanticOutcome::ReadinessError,
        SemanticOutcome::Failed,
        SemanticOutcome::Deferred,
    ] {
        assert!(!apply_semantic_outcome(
            Some(semantic_report(outcome)),
            false,
            &mut merged,
            &mut failures,
            &mut timings,
        ));
        assert_eq!(merged.len(), 2);
    }
    assert!(apply_semantic_outcome(
        None,
        false,
        &mut merged,
        &mut failures,
        &mut timings,
    ));
    assert!(failures.is_empty());
}

#[test]
fn semantic_only_failures_are_reported_without_removing_core_results() {
    let mut merged = Vec::new();
    merge_candidate(&mut merged, candidate_with_sections(1, &[64]));
    merge_candidate(&mut merged, candidate_with_sections(2, &[64]));
    let mut failures: Vec<String> = vec![];
    let mut timings = RetrievalTimings::none();
    for outcome in [
        SemanticOutcome::Disabled,
        SemanticOutcome::IndexUnavailable,
        SemanticOutcome::ReadinessError,
        SemanticOutcome::Failed,
        SemanticOutcome::Deferred,
    ] {
        assert!(!apply_semantic_outcome(
            Some(semantic_report(outcome)),
            true,
            &mut merged,
            &mut failures,
            &mut timings,
        ));
        assert_eq!(merged.len(), 2);
    }
    assert_eq!(
        failures,
        vec![
            "semantic_disabled",
            "semantic_index_unavailable",
            "semantic_readiness_error",
            "semantic",
            "semantic_deferred"
        ]
    );
}

#[test]
fn semantic_success_merges_candidates_and_records_lane_timings() {
    let mut merged = Vec::new();
    merge_candidate(&mut merged, candidate_with_sections(1, &[64]));
    let mut failures: Vec<String> = vec![];
    let mut timings = RetrievalTimings::none();
    assert!(!apply_semantic_outcome(
        Some(SemanticLaneReport {
            outcome: SemanticOutcome::Success(SemanticCandidates {
                candidates: vec![candidate_with_sections(9, &[64])],
                embed_us: 10_000,
                database_us: 20_000,
            }),
            ready_us: 3_000,
            lane_us: 40_000,
        }),
        false,
        &mut merged,
        &mut failures,
        &mut timings,
    ));
    assert_eq!(merged.len(), 2);
    assert!(failures.is_empty());
    assert_eq!(timings.semantic_ready, 3_000);
    assert_eq!(timings.semantic, 40_000);
    assert_eq!(timings.embed, 10_000);
    assert_eq!(timings.semantic_db, 20_000);
}

#[test]
fn semantic_gap_reasons_are_distinct_per_condition() {
    for (token, kind, reason) in [
        (
            "semantic_disabled",
            "retrieval_lane_unavailable",
            "policy_disabled",
        ),
        (
            "semantic_index_unavailable",
            "retrieval_lane_unavailable",
            "index_unavailable",
        ),
        (
            "semantic_readiness_error",
            "retrieval_lane_unavailable",
            "dependency_error",
        ),
        (
            "semantic_deferred",
            "retrieval_lane_deferred",
            "deadline_deferred",
        ),
        ("semantic", "retrieval_lane_failed", "dependency_error"),
    ] {
        let gap = retrieval_lane_gap(token);
        assert_eq!(text_of(&gap, "kind"), Some(kind), "kind for {token}");
        assert_eq!(text_of(&gap, "lane"), Some("semantic"), "lane for {token}");
        assert_eq!(text_of(&gap, "reason"), Some(reason), "reason for {token}");
        assert!(
            text_of(&gap, "message").unwrap().contains("retained"),
            "message for {token} must state other evidence is retained"
        );
    }
    let generic = retrieval_lane_gap("lexical");
    assert_eq!(text_of(&generic, "kind"), Some("retrieval_lane_failed"));
    assert_eq!(text_of(&generic, "lane"), Some("lexical"));
    assert!(generic.get("reason").is_none());
}

#[test]
fn no_semantic_policy_applies_to_default_open_and_search_selection() {
    let default_lanes = retrieval_lane_selection(&vec![]).unwrap();
    assert_eq!(
        default_lanes,
        RetrievalLaneSelection {
            exact: true,
            lexical: true,
            semantic: true,
            semantic_only: false,
        }
    );
    let semantic_policy_enabled = false;
    assert!(!(default_lanes.semantic && semantic_policy_enabled));

    let exact_lexical =
        retrieval_lane_selection(&vec!["exact".to_owned(), "lexical".to_owned()]).unwrap();
    assert!(!exact_lexical.semantic);
    assert!(retrieval_lane_selection(&vec!["unknown".to_owned()]).is_err());
}

#[test]
fn path_hints_only_return_explicit_relative_files() {
    assert_eq!(
        path_hints("Read `Trips/Europe 2026/Plan.md` and explain it"),
        ["Trips/Europe 2026/Plan.md"]
    );
    assert!(path_hints("Find the current trip plan").is_empty());
}

#[test]
fn entry_link_lookup_is_exact_normalized_and_bounded() {
    assert_eq!(
        entry_link_lookup_keys("Projects/Other/Roádmap.MD#Next").unwrap(),
        vec![
            "roádmap".to_owned(),
            "roádmap.md".to_owned(),
            "roádmap.markdown".to_owned(),
        ]
    );
    assert!(entry_link_lookup_keys("#Heading").is_err());
    assert!(entry_link_lookup_keys(&"x".repeat(1_025)).is_err());
}

#[test]
fn search_anchors_keep_explicit_clues_without_replaying_the_whole_task() {
    assert_eq!(
        search_anchors(
            "What is recorded for `terminal-corpus-64000-current-answer` without a path?"
        ),
        ["terminal-corpus-64000-current-answer"]
    );
    assert_eq!(
        search_anchors("Find terminal-corpus-64000-current-answer without a path"),
        ["terminal-corpus-64000-current-answer"]
    );
    assert!(
        search_anchors("Reconcile non-negotiable recovery rules and success/failure criteria")
            .is_empty()
    );
    assert!(search_anchors("Find the current trip plan").is_empty());
}

#[test]
fn lexical_fallback_turns_natural_tasks_into_focused_term_pairs() {
    let fallbacks = bounded_lexical_fallback_queries(
        "Handle the request to add every confirmed Europe flight to the family calendar. \
         State what the bounded search found, whether any write is needed, and report it.",
    );
    assert!(fallbacks.contains(&"confirmed europe".to_owned()));
    assert!(fallbacks.contains(&"family calendar".to_owned()));
    assert!(
        fallbacks
            .iter()
            .all(|fallback| !fallback.contains("handle"))
    );
    assert!(
        fallbacks
            .iter()
            .all(|fallback| !fallback.contains("request"))
    );
    let focused = bounded_lexical_fallback_queries(
        "Handle the request to add every confirmed Europe flight to the family calendar. \
         State what the bounded search found, whether any write is needed, and report it.",
    )
    .into_iter()
    .next()
    .expect("natural task should produce a focused query");
    assert_eq!(focused, "confirmed europe");
}

#[test]
fn lexical_fallback_keeps_distinctive_terms_from_long_tasks() {
    let fallbacks = bounded_lexical_fallback_queries(
        "Resume the D1 parser performance and autonomy work. Reconcile the older 10M Nyx \
         tuning checkpoint with the later durable autonomy summary. Explain what the PVE34 \
         result established and leave a checkpoint.",
    );
    assert_eq!(fallbacks.first().map(String::as_str), Some("d1 10m"));
    assert!(
        fallbacks.contains(&"pve34 parser".to_owned()),
        "{fallbacks:?}"
    );
    assert!(fallbacks.contains(&"performance autonomy".to_owned()));
    assert!(
        fallbacks
            .iter()
            .all(|fallback| !fallback.contains("resume"))
    );
    assert!(
        fallbacks
            .iter()
            .all(|fallback| !fallback.contains("reconcile"))
    );
    let focused = bounded_lexical_fallback_queries(
        "Resume the D1 parser performance and autonomy work. Reconcile the older 10M Nyx \
         tuning checkpoint with the later durable autonomy summary. Explain what the PVE34 \
         result established and leave a checkpoint.",
    )
    .into_iter()
    .next()
    .expect("identifier task should produce a focused query");
    assert_eq!(focused, "d1 10m");
    let ranked = ranked_lexical_fallback_queries(
        "Resume the D1 parser performance and autonomy work. Reconcile the older 10M Nyx \
         tuning checkpoint with the later durable autonomy summary. Explain what the PVE34 \
         result established and leave a checkpoint.",
    );
    assert!(ranked.contains(&"pve34 parser".to_owned()), "{ranked:?}");
    assert!(
        ranked.contains(&"performance autonomy".to_owned()),
        "{ranked:?}"
    );
}

#[test]
fn lexical_focus_preserves_release_identifiers_without_broad_or_terms() {
    let task = "Location v1.1 SQLx slow statement warnings";
    let terms = lexical_terms(task, 16);
    assert_eq!(
        &terms[..2],
        ["v1.1".to_owned(), "sqlx".to_owned()],
        "{terms:?}"
    );
    assert!(!terms.iter().any(|term| term == "1"), "{terms:?}");

    let focused = bounded_lexical_fallback_queries(task)
        .into_iter()
        .next()
        .expect("release task should be searchable");
    assert_eq!(focused, "v1.1 sqlx");
    assert!(!focused.contains(" OR "));
    assert!(
        bounded_lexical_fallback_queries(task)
            .iter()
            .all(|fallback| !fallback.contains(" OR "))
    );
}

#[test]
fn lexical_terms_keep_semver_acronyms_and_structured_identifiers_intact() {
    let terms = lexical_terms(
        "Compare Brunn v1.1 with v1.0 using SQLx RLS workspace_lexical_candidates_v2 \
         and apps/api/src/simple_core.rs",
        16,
    );
    for expected in [
        "v1.1",
        "v1.0",
        "sqlx",
        "rls",
        "workspace_lexical_candidates_v2",
        "apps/api/src/simple_core.rs",
    ] {
        assert!(
            terms.iter().any(|term| term == expected),
            "missing {expected} in {terms:?}"
        );
    }
    assert!(
        !terms.iter().any(|term| matches!(term.as_str(), "0" | "1")),
        "{terms:?}"
    );
}

#[test]
fn lexical_focus_keeps_ordinary_natural_language_recall() {
    let task = "Handle the request to add every confirmed Europe flight to the family calendar. \
                State what the bounded search found, whether any write is needed, and report it.";
    let focused = bounded_lexical_fallback_queries(task)
        .into_iter()
        .next()
        .expect("natural task should produce a focused query");
    assert_eq!(focused, "confirmed europe");

    let fallbacks = bounded_lexical_fallback_queries(task);
    assert_eq!(fallbacks.len(), 4, "{fallbacks:?}");
    assert_eq!(
        fallbacks.first().map(String::as_str),
        Some("confirmed europe")
    );
    assert!(
        fallbacks.iter().any(|query| query == "family calendar"),
        "an incidental first-pair hit must not exclude the authoritative pair: {fallbacks:?}"
    );
}

#[test]
fn bounded_lexical_union_keeps_an_authoritative_fourth_pair_after_a_first_pair_hit() {
    let fallbacks = bounded_lexical_fallback_queries("confirmed Europe itinerary family calendar");
    assert_eq!(
        fallbacks,
        [
            "confirmed europe",
            "europe itinerary",
            "itinerary family",
            "family calendar",
        ]
    );

    let mut merged = Vec::new();
    for fallback in &fallbacks {
        let hits = match fallback.as_str() {
            "confirmed europe" => {
                let mut incidental = candidate_with_sections(1, &[16]);
                incidental.score = points(3.0);
                let mut shared = candidate_with_sections(2, &[16]);
                shared.score = points(4.0);
                vec![incidental, shared]
            }
            "family calendar" => {
                let mut authoritative = candidate_with_sections(3, &[16]);
                authoritative.score = points(20.0);
                let mut shared = candidate_with_sections(2, &[16]);
                shared.score = points(7.0);
                vec![authoritative, shared]
            }
            _ => vec![],
        };
        for hit in hits {
            merge_candidate(&mut merged, hit);
        }
    }
    assert_eq!(merged.len(), 3, "all four queries must run and dedupe");
    let mut ranked = merged;
    sort_candidates(&mut ranked, SearchSort::BestMatch);
    assert_eq!(ranked[0].entry_id, 3);
    assert_eq!(ranked[1].entry_id, 2);
    assert_eq!(ranked[1].score, points(7.0));
}

#[test]
fn lexical_bonus_matches_preserved_structured_identifiers() {
    let relevant = lexical_candidate_bonus(
        "Location v1.1 SQLx workspace_lexical_candidates_v2",
        "sources/Projects/Brunn/Location-v1.1-SQLx.md",
        "workspace_lexical_candidates_v2",
        "SQLx slow statements",
        "Location v1.1 release evidence.",
    );
    let generic = lexical_candidate_bonus(
        "Location v1.1 SQLx workspace_lexical_candidates_v2",
        "sources/Projects/Brunn/Location notes.md",
        "Location notes",
        "Database work",
        "General release evidence.",
    );
    assert!(number(relevant) > number(generic) + 2.0, "{relevant} should beat {generic}");
}

#[test]
fn lexical_bonus_prefers_domain_paths_over_generic_matching_prose() {
    let task = "Resume the D1 parser performance and autonomy work. Reconcile the older 10M \
                Nyx tuning checkpoint with the later durable autonomy summary and PVE34.";
    let warmind = lexical_candidate_bonus(
        task,
        "Projects/Warmind/D1 parser autonomy and autotuning context summary - 2026-05-25.md",
        "D1 parser autonomy and autotuning context summary",
        "Current operating model",
        "PVE34 was historical evidence rather than a fixed identity.",
    );
    let generic = lexical_candidate_bonus(
        task,
        "Projects/Brunn/Portable Personal Context Layer.md",
        "Portable Personal Context Layer",
        "Durable agent work",
        "Resume durable work from a checkpoint and preserve an operating model.",
    );
    assert!(number(warmind) > number(generic) + 2.0, "{warmind} should beat {generic}");

    let rupture = lexical_candidate_bonus(
        "Extend the StarRupture factory plan from current source authority.",
        "Topics/Star Rupture/Star Rupture production.md",
        "Star Rupture production",
        "Source authority",
        "Current factory planning evidence.",
    );
    assert!(number(rupture) >= 2.0);
}

#[test]
fn verbatim_matches_preserve_exact_lines_beyond_excerpt_window() {
    let identifier = "STRAYID-64000-07-deadbeef";
    let prefix = format!("{}\n", "x".repeat(2_500));
    let line = format!("literal identifier: {identifier}");
    let content = format!("{prefix}{line}\ntrailing material\n");
    let terms = verbatim_match_terms(&format!("Synthetic/records/0000007.md {identifier}"));

    assert_eq!(terms, vec![identifier]);
    let matches = extract_verbatim_matches(&content, &terms, 9, &"a".repeat(64));

    assert_eq!(matches.len(), 1);
    assert_eq!(matches[0].line_no, 2);
    assert_eq!(matches[0].byte_start, prefix.len());
    assert_eq!(matches[0].byte_end, prefix.len() + line.len());
    assert_eq!(matches[0].text, line);
    assert_eq!(matches[0].version, 9);
    assert_eq!(
        matches[0].content_hash,
        format!("sha256:{}", "a".repeat(64))
    );
    assert!(!matches[0].truncated);
}

#[test]
fn verbatim_response_budget_truncates_text_and_offsets_together() {
    let candidate = Candidate {
        entry_id: 0,
        path: "Synthetic/record.md".to_owned(),
        title: "Record".to_owned(),
        version: 1,
        updated_at: AUGUST_FIRST,
        content_sha256: "a".repeat(64),
        heading: String::new(),
        excerpt: "prefix".to_owned(),
        score: points(10.0),
        lanes: vec!["exact".to_owned()],
        sections: vec![],
        verbatim_matches: vec![VerbatimMatch {
            line_no: 3,
            byte_start: 100,
            byte_end: 112,
            text: "abcdefghijkl".to_owned(),
            version: 1,
            content_hash: format!("sha256:{}", "a".repeat(64)),
            truncated: false,
        }],
        superseded_by: None,
    };
    let mut remaining = 5;

    let rendered = render_search_candidate(&candidate, &mut remaining);
    let source_match = first_of(&rendered, "verbatim_matches");

    assert_eq!(text_of(source_match, "text"), Some("abcde"));
    assert_eq!(source_match.get_integer("byte_start"), Some(100));
    assert_eq!(source_match.get_integer("byte_end"), Some(105));
    assert!(matches!(
        source_match.get("truncated"),
        Some(Json::Bool(true))
    ));
    assert_eq!(remaining, 0);
}

#[test]
fn search_candidates_expose_identity_and_evidence_without_ranking_internals() {
    let candidate = Candidate {
        entry_id: 0,
        path: "Trips/Plan.md".to_owned(),
        title: "Trip plan".to_owned(),
        version: 4,
        updated_at: AUGUST_FIRST + DAY + 45_000_000_000,
        content_sha256: "a".repeat(64),
        heading: "Rail".to_owned(),
        excerpt: "Take the train.".to_owned(),
        score: points(12.5),
        lanes: vec!["lexical".to_owned(), "semantic".to_owned()],
        sections: vec![
            CandidateSection {
                heading: "Rail".to_owned(),
                excerpt: "Take the train.".to_owned(),
                score: points(12.5),
            },
            CandidateSection {
                heading: "Backup".to_owned(),
                excerpt: "Keep the bus as a fallback.".to_owned(),
                score: points(11.0),
            },
        ],
        verbatim_matches: vec![],
        superseded_by: None,
    };
    let mut remaining_verbatim_chars = MAX_VERBATIM_RESPONSE_CHARS;
    let rendered = render_search_candidate(&candidate, &mut remaining_verbatim_chars);
    assert_eq!(
        text_of(&rendered, "reference"),
        Some("entry:00000000-0000-0000-0000-000000000000")
    );
    assert_eq!(text_of(&rendered, "excerpt"), Some("Take the train."));
    assert_eq!(
        text_of(&rendered, "updated_at"),
        Some("2026-08-02T12:30:00Z")
    );
    assert_eq!(
        text_of(first_of(&rendered, "additional_sections"), "excerpt"),
        Some("Keep the bus as a fallback.")
    );
    for omitted in ["entry_id", "content_sha256", "score", "lanes"] {
        assert!(
            rendered.get(omitted).is_none(),
            "{omitted} should be omitted"
        );
    }
    let lead = render_evidence_lead(&candidate);
    assert_eq!(text_of(&lead, "path"), Some("Trips/Plan.md"));
    for omitted in ["entry_id", "content_sha256", "score", "lanes", "excerpt"] {
        assert!(
            lead.get(omitted).is_none(),
            "{omitted} should be omitted from evidence leads"
        );
    }
}

#[test]
fn search_text_budget_counts_additional_sections() {
    let mut candidate = Candidate {
        entry_id: 0,
        path: "Trips/Plan.md".to_owned(),
        title: "Trip plan".to_owned(),
        version: 1,
        updated_at: AUGUST_FIRST,
        content_sha256: "a".repeat(64),
        heading: "Primary".to_owned(),
        excerpt: "1234".to_owned(),
        score: points(1.0),
        lanes: vec!["lexical".to_owned()],
        sections: vec![
            CandidateSection {
                heading: "Primary".to_owned(),
                excerpt: "1234".to_owned(),
                score: points(1.0),
            },
            CandidateSection {
                heading: "Second".to_owned(),
                excerpt: "5678".to_owned(),
                score: points(0.9),
            },
            CandidateSection {
                heading: "Third".to_owned(),
                excerpt: "90".to_owned(),
                score: points(0.8),
            },
        ],
        verbatim_matches: vec![],
        superseded_by: None,
    };
    let mut remaining = 5;
    assert!(truncate_candidate_evidence(&mut candidate, &mut remaining));
    assert_eq!(remaining, 0);
    assert_eq!(candidate.excerpt, "1234");
    assert_eq!(candidate.sections.len(), 2);
    assert_eq!(candidate.sections[1].excerpt, "5");
}

#[test]
fn fair_share_candidate_allocation_preserves_the_last_query_floor() {
    let candidate_sets = (0_u128..16)
        .map(|query| {
            (0_u128..50)
                .map(|rank| candidate_with_sections(query * 100 + rank + 1, &[16]))
                .collect::<Vec<_>>()
        })
        .collect::<Vec<_>>();
    let (selected, truncated) = select_search_candidate_sets(&candidate_sets, true, 128);
    assert!(truncated);
    assert_eq!(
        selected.iter().map(Vec::len).collect::<Vec<_>>(),
        vec![8; 16]
    );
    assert_eq!(selected[15][0].entry_id, candidate_sets[15][0].entry_id,);
}

#[test]
fn fair_share_character_allocation_preserves_every_query_floor() {
    let candidate_sets = (0_u128..16)
        .map(|query| vec![candidate_with_sections(query + 1, &[2_400, 2_400, 2_400])])
        .collect::<Vec<_>>();
    let options = SearchBudgetOptions {
        fair_share: true,
        top1_hydration: false,
        char_cap: true,
        section_demotion_top_n: None,
        max_chars: 48_000,
    };
    let (views, truncated) = assemble_search_candidate_views(&candidate_sets, &vec![], options);
    assert!(truncated);
    assert!(
        views
            .iter()
            .all(|query| { desired_search_evidence_chars(&query[0]) == 3_000 })
    );
    assert_eq!(
        views
            .iter()
            .flat_map(|query| query.iter())
            .map(desired_search_evidence_chars)
            .sum::<usize>(),
        48_000,
    );
}

#[test]
fn hydration_is_batched_budgeted_and_degrades_in_request_order() {
    let candidate_sets = (0_u128..16)
        .map(|query| {
            vec![
                candidate_with_sections(query * 10 + 1, &[2_400]),
                candidate_with_sections(query * 10 + 2, &[2_400]),
            ]
        })
        .collect::<Vec<_>>();
    let hydration = candidate_sets
        .iter()
        .map(|query| SearchHydration {
            entry_id: query[0].entry_id,
            size_bytes: 24_000,
            content: "x".repeat(24_000),
        })
        .collect::<Vec<_>>();
    let options = SearchBudgetOptions {
        fair_share: true,
        top1_hydration: true,
        char_cap: true,
        section_demotion_top_n: Some(8),
        max_chars: 48_000,
    };
    let (views, truncated) = assemble_search_candidate_views(&candidate_sets, &hydration, options);
    assert!(truncated);
    assert_eq!(
        views[0][0].representation,
        SearchRepresentation::CompleteSource,
    );
    assert_eq!(
        views[1][0].representation,
        SearchRepresentation::CompleteSource,
    );
    assert_eq!(
        views[2][0].representation,
        SearchRepresentation::PointerLead,
    );
    assert_eq!(
        views
            .iter()
            .flat_map(|query| query.iter())
            .map(|view| {
                view.complete_text
                    .as_deref()
                    .map(str::chars)
                    .map(Iterator::count)
                    .unwrap_or_else(|| desired_search_evidence_chars(view))
            })
            .sum::<usize>(),
        48_000,
    );
    assert_eq!(
        views[0][1].representation,
        SearchRepresentation::PointerLead,
    );
}

#[test]
fn section_demotion_renders_heading_leads_without_body_text() {
    let candidate_sets = vec![vec![
        candidate_with_sections(1, &[8, 8]),
        candidate_with_sections(2, &[8, 8]),
    ]];
    let options = SearchBudgetOptions {
        fair_share: false,
        top1_hydration: false,
        char_cap: true,
        section_demotion_top_n: Some(1),
        max_chars: 48_000,
    };
    let (views, truncated) = assemble_search_candidate_views(&candidate_sets, &vec![], options);
    assert!(truncated);
    let mut remaining_verbatim_chars = MAX_VERBATIM_RESPONSE_CHARS;
    let rendered = render_budgeted_search_candidate(&views[0][1], &mut remaining_verbatim_chars);
    let lead = first_of(&rendered, "additional_sections");
    assert_eq!(text_of(lead, "representation"), Some("heading_lead"));
    assert!(lead.get("excerpt").is_none());
    assert_eq!(text_of(&rendered, "representation"), Some("excerpt"));
}

#[test]
fn first_ready_semantic_slot_prepares_the_entire_request_batch() {
    let mut batch = RequestSemanticEmbeddings::new(vec![owned("alpha"), None, owned("bravo")])
        .unwrap();
    assert_eq!(batch.inputs(), ["alpha", "bravo"]);
    assert_eq!(batch.take(0), Some(0));
    assert!(batch.take(1).is_none());
    assert_eq!(batch.take(2), Some(1));
}
