//! Scores, budgets, pages and replies, with exact values.
use simple_core::budget::{
    desired_search_evidence_chars, plan_tokens, spend, SearchBudgetOptions, SearchCandidateView,
    SearchConfig, SearchRepresentation,
};
use simple_core::candidate::{derived_penalty, supersession_penalty, Candidate, CandidateSection};
use simple_core::envelope::{
    is_no_op, reply_with_receipt, revision, ResponseStatus, WorkspaceEnvelope,
};
use simple_core::evaluation::{
    cleanup_response, delta_target, evaluation_response, evaluation_status_response, Cleanup,
    EvalOutcome,
};
use simple_core::files::{
    binary_receipt, keeps_description, merge_binary_description_metadata, plan_binary,
    queues_description, BinaryAction, BinaryUpload,
};
use simple_core::json::{Json, Number};
use simple_core::lanes::{
    annotate_candidates, exact_candidate, lexical_anchor_queries, lexical_candidate,
    lexical_follow_up_queries, semantic_candidate, semantic_deadline_ms, semantic_deferred_gap,
    semantic_lane_probed, semantic_lane_searched, semantic_lane_start, write_millis, FoundRow,
    RetrievalLaneSelection, SemanticOutcome, SemanticReadiness, SemanticRetrieval, SemanticStep,
    SupersededPath,
};
use simple_core::lexical::{
    collapsed_search_text, is_lexical_noise, lexical_candidate_bonus, looks_like_path,
    normalized_search_words,
};
use simple_core::listing::{
    binaries_page, changes_limit, jobs_page, manifest_plan, manifest_reply, page_limit,
    page_offset, usage_page, ManifestRow, UsageSort,
};
use simple_core::open::{
    checkpoint_generation, continuation_candidates, hint_candidates, looks_up_generation,
    requested_hints, tokens_behind_deltas, ResolvedHint, CHANGED_SCORE, CONTINUED_SCORE,
    HINT_SCORE,
};
use simple_core::outside::{compact_json, entry_ref, pretty_json, sha256_hex};
use simple_core::read::{
    reads_head, render_read, truth_step, EntryRow, TruthStep,
};
use simple_core::receipts::{pinned_source, set_checkpoint_resulting_generation};
use simple_core::render::{
    apply_checkpoint_budget, candidate_excerpt, chars_of_tokens, plan_evidence, write_score,
    DocumentRow,
};
use simple_core::requests::{
    BinaryListQuery, ChangesQuery, EvalImportRequest, JobsQuery, ManifestQuery, OpenHints,
    ReadItem, UsageQuery,
};
use simple_core::score::{add_scores, greater_score, subtract_scores, NOT_A_NUMBER};
use simple_core::search::{search_limit, semantic_batch, top1_entry_ids};
use simple_core::upsert::{
    delete_reply, guard_holds, markdown_receipt, queues_embedding, MarkdownUpsertResult,
    UpsertAction, WriteOperation,
};
use simple_core::text::fixed_point;
use simple_core::write::{
    is_portable_checkpoint_import, rebase_imported_checkpoint_metadata, strip_digest_name,
    DocumentChunk, PreparedMarkdown,
};

/// What stands for a score.
fn points(points: f64) -> i64 {
    let magnitude = points.abs().to_bits() as i64;
    if points < 0.0 {
        -magnitude
    } else {
        magnitude
    }
}

/// The score that a code stands for.
fn number(code: i64) -> f64 {
    let magnitude = f64::from_bits(code.unsigned_abs());
    if code < 0 {
        -magnitude
    } else {
        magnitude
    }
}

fn owned(text: &str) -> Option<String> {
    Some(text.to_owned())
}

fn value_of(json: &Json) -> serde_json::Value {
    match json {
        Json::Null => serde_json::Value::Null,
        Json::Bool(flag) => serde_json::Value::Bool(*flag),
        Json::Number(Number::Natural(n)) => serde_json::Value::from(*n),
        Json::Number(Number::Negative(n)) => serde_json::Value::from(*n),
        Json::Number(Number::Decimal(t)) => serde_json::Value::from(t.parse::<f64>().ok()),
        Json::Text(t) => serde_json::Value::String(t.clone()),
        Json::Array(items) => serde_json::Value::Array(items.iter().map(value_of).collect()),
        Json::Object(entries) => serde_json::Value::Object(
            entries
                .iter()
                .map(|(key, value)| (key.clone(), value_of(value)))
                .collect(),
        ),
    }
}

fn reads(json: &Json, expected: &str) {
    assert_eq!(
        value_of(json),
        serde_json::from_str::<serde_json::Value>(expected).unwrap()
    );
}

fn found(path: &str, title: &str, heading: &str, content: &str) -> FoundRow {
    FoundRow {
        entry_id: 7,
        path: path.to_owned(),
        title: title.to_owned(),
        version: 2,
        updated_at: 5,
        content_sha256: "a".repeat(64),
        heading: heading.to_owned(),
        content: content.to_owned(),
    }
}

fn candidate(id: u128, path: &str) -> Candidate {
    let mut made = exact_candidate(found(path, "T", "", "text"), &Vec::new());
    made.entry_id = id;
    made
}

#[test]
fn lexical_bonuses_weigh_place_and_length() {
    // Ten characters or more weigh 1.4, six to nine 1.0, fewer 0.7.
    let bonus = |query: &str, path: &str, heading: &str, excerpt: &str| {
        number(lexical_candidate_bonus(query, path, "", heading, excerpt))
    };
    assert_eq!(bonus("migration", "Plans/Migration.md", "", ""), 0.8);
    assert_eq!(bonus("migration", "a.md", "Migration", ""), 0.45);
    assert_eq!(bonus("migration", "a.md", "", "the migration"), 0.1);
    assert_eq!(bonus("migration", "a.md", "", ""), 0.0);
    assert_eq!(bonus("vault", "Vault.md", "", ""), 0.8 * 0.7);
    assert_eq!(bonus("vault", "a.md", "Vault", ""), 0.45 * 0.7);
    assert_eq!(bonus("vault", "a.md", "", "vault"), 0.1 * 0.7);
    assert_eq!(bonus("authorization", "Authorization.md", "", ""), 0.8 * 1.4);
    assert_eq!(bonus("authorization", "a.md", "Authorization", ""), 0.45 * 1.4);
    assert_eq!(bonus("authorization", "a.md", "", "authorization"), 0.1 * 1.4);
    assert_eq!(bonus("v2.1", "Notes v2.1.md", "", ""), 0.8 * 1.4);
    let many = (0..32)
        .map(|index| format!("release{index:02}"))
        .collect::<Vec<_>>()
        .join(" ");
    assert_eq!(bonus(&many, &many, "", ""), 8.0);
}

#[test]
fn search_texts_are_folded() {
    assert_eq!(normalized_search_words("Auth-Token, v2"), " auth token v2 ");
    assert_eq!(collapsed_search_text("Auth-Token, v2"), "authtokenv2");
    assert!(is_lexical_noise("the"));
    assert!(!is_lexical_noise("migration"));
    assert!(looks_like_path("Notes/a.md"));
    assert!(!looks_like_path("hello"));
}

#[test]
fn penalties_depend_on_the_place() {
    assert_eq!(derived_penalty(".brunn/proposals/a.md"), points(2.0));
    assert_eq!(derived_penalty(".brunn/derived/a.md"), points(1.0));
    assert_eq!(derived_penalty(".brunn/dreams/a.md"), points(1.0));
    assert_eq!(derived_penalty("Notes/a.md"), 0);
    assert_eq!(supersession_penalty(true, true, 5), 5);
    assert_eq!(supersession_penalty(true, false, 5), 0);
    assert_eq!(supersession_penalty(false, true, 5), 0);
}

#[test]
fn scores_are_added_as_the_format_adds() {
    let sum = |a: f64, b: f64| number(add_scores(points(a), points(b)));
    assert_eq!(sum(0.1, 0.2), 0.1 + 0.2);
    assert_ne!(sum(0.1, 0.2), 0.3);
    assert_eq!(sum(1.0, f64::EPSILON / 2.0), 1.0);
    assert_eq!(sum(1.0 + f64::EPSILON, f64::EPSILON / 2.0), 1.0 + 2.0 * f64::EPSILON);
    assert_eq!(sum(f64::MAX, f64::MAX), f64::INFINITY);
    assert_eq!(sum(f64::INFINITY, -1.0), f64::INFINITY);
    assert_eq!(sum(-1.0, 1.0), 0.0);
    let least = points(f64::NEG_INFINITY);
    assert_eq!(add_scores(points(f64::INFINITY), least), NOT_A_NUMBER);
    assert_eq!(add_scores(NOT_A_NUMBER, points(1.0)), NOT_A_NUMBER);
    assert_eq!(subtract_scores(points(1.0), i64::MIN), NOT_A_NUMBER);
    assert_eq!(greater_score(NOT_A_NUMBER, least), least);
    assert_eq!(greater_score(points(1.0), points(-2.0)), points(1.0));
    assert_eq!(
        number(subtract_scores(points(0.3), points(0.1))),
        0.3 - 0.1
    );
    let mut state = 0x9e37_79b9_7f4a_7c15_u64;
    let mut drawn = |spread: u64| {
        state = state
            .wrapping_mul(6_364_136_223_846_793_005)
            .wrapping_add(1_442_695_040_888_963_407);
        let exponent = (1_023 - spread / 2 + (state >> 40) % spread) << 52;
        f64::from_bits((state & 0x800f_ffff_ffff_ffff) ^ exponent)
    };
    for spread in [1, 4, 60, 140, 2_046] {
        for _ in 0..20_000 {
            let (a, b) = (drawn(spread), drawn(spread));
            assert_eq!(sum(a, b), a + b, "{a:e} {b:e}");
        }
    }
    for (a, b) in [(5e-324, 5e-324), (2.2250738585072014e-308, -5e-324), (0.0, -5e-324)] {
        assert_eq!(sum(a, b), a + b);
    }
}

#[test]
fn scores_are_written_as_numbers() {
    assert_eq!(value_of(&write_score(points(12.5))), serde_json::Value::from(12.5));
    assert_eq!(value_of(&write_score(points(-0.1))), serde_json::Value::from(-0.1));
    assert_eq!(compact_json(&write_score(points(3.0))), "3.0");
    assert!(write_score(NOT_A_NUMBER).is_null());
    assert!(write_score(points(f64::INFINITY)).is_null());
    assert_eq!(number(HINT_SCORE), 40.0);
    assert_eq!(number(CHANGED_SCORE), 30.0);
    assert_eq!(number(CONTINUED_SCORE), 20.0);
}

#[test]
fn lanes_score_their_finds() {
    let exact = exact_candidate(found("Notes/a.md", "A", "H", "text"), &vec!["text".to_owned()]);
    assert_eq!(exact.score, points(10.0));
    assert_eq!(exact.lanes, ["exact"]);
    assert_eq!(exact.verbatim_matches.len(), 1);
    let lexical = lexical_candidate(
        found("Notes/migration.md", "A", "H", "text"),
        points(0.5),
        "migration",
        false,
        true,
        points(1.0),
    );
    assert_eq!(number(lexical.score), 3.0 + 0.5 + 0.8);
    assert_eq!(lexical.lanes, ["lexical"]);
    let superseded = lexical_candidate(
        found("Notes/migration.md", "A", "H", "text"),
        points(0.5),
        "migration",
        true,
        true,
        points(0.3),
    );
    assert_eq!(number(superseded.score), 3.0 + 0.5 + 0.8 - 0.0 - 0.3);
    let semantic = semantic_candidate(
        found("Notes/a.md", "A", "H", "text"),
        points(0.7),
        "nothing",
        false,
        true,
        points(1.0),
    );
    assert_eq!(number(semantic.score), 2.0 + (1.0 - 0.7));
    let far = semantic_candidate(
        found(".brunn/dreams/a.md", "A", "H", "text"),
        points(1.25),
        "nothing",
        false,
        true,
        points(1.0),
    );
    assert_eq!(number(far.score), 2.0 + 0.0 - 1.0);
    assert_eq!(semantic.lanes, ["semantic"]);
    let long = exact_candidate(found("a.md", "A", "", &"x".repeat(3_000)), &Vec::new());
    assert_eq!(long.excerpt.chars().count(), 2_400);
}

#[test]
fn semantic_lanes_go_step_by_step() {
    let lanes = |semantic: bool| RetrievalLaneSelection {
        exact: true,
        lexical: true,
        semantic,
        semantic_only: false,
    };
    assert!(matches!(semantic_lane_start(lanes(true), true), SemanticStep::Probe));
    assert!(matches!(
        semantic_lane_start(lanes(true), false),
        SemanticStep::Done(SemanticOutcome::Disabled)
    ));
    assert!(matches!(
        semantic_lane_start(lanes(false), true),
        SemanticStep::Done(SemanticOutcome::NotRequested)
    ));
    assert!(matches!(
        semantic_lane_probed(SemanticReadiness::Ready(true), true),
        SemanticStep::Retrieve
    ));
    assert!(matches!(
        semantic_lane_probed(SemanticReadiness::Ready(false), true),
        SemanticStep::Done(SemanticOutcome::IndexUnavailable)
    ));
    assert!(matches!(
        semantic_lane_probed(SemanticReadiness::Error, true),
        SemanticStep::Done(SemanticOutcome::ReadinessError)
    ));
    assert!(matches!(
        semantic_lane_probed(SemanticReadiness::TimedOut, true),
        SemanticStep::Done(SemanticOutcome::Deferred)
    ));
    assert!(matches!(
        semantic_lane_searched(SemanticRetrieval::TimedOut, true),
        SemanticOutcome::Deferred
    ));
    assert!(matches!(
        semantic_lane_searched(SemanticRetrieval::TimedOut, false),
        SemanticOutcome::Failed
    ));
    assert!(matches!(
        semantic_lane_searched(SemanticRetrieval::Error, true),
        SemanticOutcome::Failed
    ));
    assert_eq!(semantic_deadline_ms(Some(40)), 40);
    assert_eq!(semantic_deadline_ms(None), 2_500);
    reads(
        &semantic_deferred_gap(),
        r#"{"kind":"retrieval_lane_deferred","lane":"semantic","reason":"deadline_deferred",
            "message":"semantic retrieval exceeded its accelerator deadline; exact and lexical evidence was retained"}"#,
    );
}

#[test]
fn lexical_scans_start_from_anchors() {
    let single = lexical_anchor_queries("plan the \"blue harbor\" migration", true);
    assert!(!single.is_empty());
    let missed = lexical_follow_up_queries("plan the blue harbor migration", false);
    assert!(!missed.is_empty());
}

#[test]
fn superseded_candidates_are_annotated() {
    let features = Some(vec![SupersededPath {
        path: "Notes/a.md".to_owned(),
        annotation: simple_core::candidate::SupersessionAnnotation {
            value: Json::text("Notes/b.md"),
        },
    }]);
    let mut shown = vec![candidate(1, "Notes/a.md"), candidate(2, "Notes/c.md")];
    annotate_candidates(&mut shown, &features, true);
    let note = shown[0].superseded_by.as_ref().unwrap();
    assert_eq!(note.chars(), "\"Notes/b.md\"".len());
    assert!(shown[1].superseded_by.is_none());
    let mut plain = vec![candidate(1, "Notes/a.md")];
    annotate_candidates(&mut plain, &features, false);
    assert!(plain[0].superseded_by.is_none());
}

#[test]
fn budgets_are_clamped() {
    assert_eq!(plan_tokens(None), 12_000);
    assert_eq!(plan_tokens(Some(1)), 1_000);
    assert_eq!(plan_tokens(Some(2_000)), 2_000);
    assert_eq!(plan_tokens(Some(1_000_000)), 64_000);
    assert_eq!(spend(10, 4), 6);
    assert_eq!(spend(4, 10), 0);
    assert_eq!(chars_of_tokens(3), 12);
    assert_eq!(search_limit(None), 8);
    assert_eq!(search_limit(Some(0)), 1);
    assert_eq!(search_limit(Some(500)), 50);
    let config = SearchConfig {
        search_fair_share: true,
        search_top1_hydration: false,
        search_char_cap: true,
        search_section_demotion_top_n: None,
    };
    let options = SearchBudgetOptions::from_request(&config, Some(2_000));
    assert!(options.active());
    assert_eq!(options.max_chars, 8_000);
    assert_eq!(tokens_behind_deltas(1_000, 400), 900);
    assert_eq!(tokens_behind_deltas(10, 4_000), 0);
    let mut shown = candidate(1, "a.md");
    shown.excerpt = "abc".to_owned();
    shown.sections = vec![
        CandidateSection {
            heading: "One".to_owned(),
            excerpt: "abc".to_owned(),
            score: 2,
        },
        CandidateSection {
            heading: "Two".to_owned(),
            excerpt: "defg".to_owned(),
            score: 1,
        },
    ];
    let view = SearchCandidateView {
        candidate: shown,
        representation: SearchRepresentation::Excerpt,
        complete_text: None,
        demote_additional_sections: false,
    };
    assert_eq!(desired_search_evidence_chars(&view), 7);
}

#[test]
fn pages_are_clamped() {
    assert_eq!(page_limit(None, 50, 200), 50);
    assert_eq!(page_limit(Some(0), 50, 200), 1);
    assert_eq!(page_limit(Some(900), 50, 200), 200);
    assert_eq!(page_offset(None, 1_000), 0);
    assert_eq!(page_offset(Some(5_000), 1_000), 1_000);
    let changes = |limit: Option<usize>| ChangesQuery {
        since_generation: 0,
        limit,
    };
    assert_eq!(changes_limit(&changes(Some(3))), 3);
    let (limit, offset) = jobs_page(&JobsQuery {
        status: None,
        limit: Some(0),
        offset: Some(4),
    })
    .unwrap();
    assert_eq!((limit, offset), (1, 4));
    let (limit, _) = binaries_page(&BinaryListQuery {
        limit: Some(2),
        offset: None,
    });
    assert_eq!(limit, 2);
    let (sort, limit, _) = usage_page(&UsageQuery {
        sort: None,
        limit: Some(9),
        offset: None,
    })
    .unwrap();
    assert_eq!((sort.as_str(), limit), (UsageSort::MostUsed.as_str(), 9));
}

fn manifest_row(id: u128, path: &str) -> ManifestRow {
    ManifestRow {
        id,
        path: path.to_owned(),
        title: "T".to_owned(),
        kind: "markdown".to_owned(),
        media_type: "text/markdown".to_owned(),
        current_version: 1,
        deleted: false,
        version_id: 8,
        version: 1,
        content_sha256: "a".repeat(64),
        size_bytes: 4,
        metadata: Json::object(),
        created_at: 0,
    }
}

#[test]
fn manifests_lead_to_their_next_page() {
    let plan = manifest_plan(&ManifestQuery {
        limit: Some(2),
        offset: None,
        after_path: None,
        after_entry_ref: None,
        after_version: None,
        history: false,
    })
    .unwrap();
    assert_eq!(plan.limit, 2);
    let rows = vec![manifest_row(1, "a.md"), manifest_row(2, "b.md")];
    let reply = manifest_reply(&rows, 6, &plan);
    assert_eq!(reply.corpus_revision.as_deref(), Some("generation:6"));
    let text = value_of(&reply.data).to_string();
    assert!(text.contains("b.md"));
    assert!(text.contains(&entry_ref(2)));
}

#[test]
fn receipts_say_what_was_done() {
    let result = MarkdownUpsertResult {
        entry_id: 1,
        version: 2,
        version_id: Some(3),
        generation: Some(4),
        no_op: true,
        metadata_only: false,
    };
    let receipt = markdown_receipt(&result, "a.md", &"a".repeat(64), 4, Vec::new());
    assert!(is_no_op(&receipt));
    let reply = reply_with_receipt(receipt);
    assert_eq!(reply.status, ResponseStatus::NoOp);
    assert_eq!(revision(12), "generation:12");
    reads(
        &pinned_source(1, "a.md", 2, &"a".repeat(64)),
        &format!(
            r#"{{"entry_ref":"entry:00000000-0000-0000-0000-000000000001","path":"a.md",
                "version":2,"content_hash":"sha256:{}"}}"#,
            "a".repeat(64)
        ),
    );
    let deleted = delete_reply(1, "a.md", 2, Some(9));
    assert_eq!(deleted.corpus_revision.as_deref(), Some("generation:9"));
    assert!(guard_holds(None, None));
    assert!(guard_holds(Some((1, 4)), Some(4)));
    assert!(!guard_holds(Some((1, 4)), Some(5)));
    assert!(!guard_holds(Some((1, 4)), None));
    let moved = set_checkpoint_resulting_generation(
        Json::object().with("client", Json::object().with("kind", Json::text("checkpoint"))),
        3,
        4,
    );
    reads(
        &moved,
        r#"{"client":{"kind":"checkpoint","workspace_generation":3,
            "pinned_workspace_generation":3,"resulting_workspace_generation":4}}"#,
    );
}

#[test]
fn embeddings_are_queued_for_what_lacks_them() {
    let document = |embedded: bool| PreparedMarkdown {
        entry_id_hint: None,
        path: "a.md".to_owned(),
        title: "a".to_owned(),
        content: "text".to_owned(),
        content_sha256: sha256_hex("text"),
        media_type: "text/markdown".to_owned(),
        metadata: Json::object(),
        chunks: vec![DocumentChunk {
            ordinal: 0,
            heading: String::new(),
            content: "text".to_owned(),
            estimated_tokens: 1,
        }],
        embedded: vec![embedded],
        expected_version: None,
        tier_a_history_stage: None,
        force_new_version: false,
    };
    let append = UpsertAction::Append {
        entry_id: 1,
        version: 1,
        operation: WriteOperation::Create,
    };
    assert!(queues_embedding(&document(false), append));
    assert!(!queues_embedding(&document(true), append));
    assert!(!queues_embedding(&document(false), UpsertAction::Keep));
}

#[test]
fn deltas_follow_what_is_there() {
    assert_eq!(
        delta_target(Some((5, 3)), 9),
        (5, 4, WriteOperation::Update)
    );
    assert_eq!(delta_target(None, 9), (9, 1, WriteOperation::Create));
}

fn entry(content: &str) -> EntryRow {
    EntryRow {
        id: 5,
        path: "Notes/a.md".to_owned(),
        title: "a".to_owned(),
        kind: "markdown".to_owned(),
        media_type: "text/markdown".to_owned(),
        version: 1,
        content_sha256: sha256_hex(content),
        content: owned(content),
        object_key: None,
        object_version_id: None,
        size_bytes: i64::try_from(content.len()).unwrap(),
        metadata: Json::object(),
        updated_at: 0,
        workspace_generation: None,
    }
}

fn item(view: &str, start: Option<usize>, end: Option<usize>) -> ReadItem {
    ReadItem {
        reference: None,
        path: owned("Notes/a.md"),
        link_target: None,
        view: owned(view),
        start,
        end,
        max_chars: None,
        version: None,
    }
}

#[test]
fn reads_show_the_asked_part() {
    let source = entry("one\ntwo\nthree\n");
    let full = render_read(&source, &item("full", None, None), 100).unwrap();
    assert_eq!(full.get_text("text").unwrap(), "one\ntwo\nthree\n");
    let cut = render_read(&source, &item("full", None, None), 5).unwrap();
    assert_eq!(cut.get_text("text").unwrap(), "one\nt");
    let lines = render_read(&source, &item("range", Some(2), Some(3)), 100).unwrap();
    assert_eq!(lines.get_text("text").unwrap(), "two\nthree");
    assert_eq!(truth_step(&None, true, true, true), TruthStep::Leave);
    assert_eq!(
        truth_step(&owned("current_truth"), false, true, true),
        TruthStep::Disabled
    );
    assert_eq!(
        truth_step(&owned("current_truth"), true, true, true),
        TruthStep::Resolve
    );
    assert!(reads_head("Notes/b.md", false, "Notes/a.md"));
    assert!(!reads_head("Notes/a.md", false, "Notes/a.md"));
    assert!(!reads_head("Notes/b.md", true, "Notes/a.md"));
}

#[test]
fn evidence_is_complete_where_it_fits() {
    let shown = vec![candidate(1, "a.md"), candidate(2, "b.md")];
    let documents = vec![
        DocumentRow {
            entry_id: 1,
            size_bytes: 4,
            content: owned("text"),
        },
        DocumentRow {
            entry_id: 2,
            size_bytes: 50_000,
            content: None,
        },
    ];
    let steps = plan_evidence(&shown, &documents, 1_000);
    assert_eq!(steps.len(), 2);
    assert!(steps[0].complete);
    assert!(!steps[1].complete);
    assert_eq!(candidate_excerpt(&shown[1], 2), "te");
    let checkpoint = Json::object().with("text", Json::text("0123456789"));
    let (kept, cut, left) = apply_checkpoint_budget(Some(checkpoint), 1);
    assert!(cut);
    assert!(kept.is_some());
    assert!(left <= 1);
    let (none, cut, left) = apply_checkpoint_budget(None, 7);
    assert!(none.is_none() && !cut);
    assert_eq!(left, 7);
}

#[test]
fn hints_lead_and_are_gathered_once() {
    let hints = OpenHints {
        authorization_scope: None,
        root_refs: vec![" Notes/a.md ".to_owned(), String::new()],
        open_object_refs: vec!["notes/A.md".to_owned(), "Notes/b.md".to_owned()],
    };
    assert_eq!(requested_hints(&hints).unwrap(), ["Notes/a.md", "Notes/b.md"]);
    let (told, gaps) = hint_candidates(vec![
        ("Notes/a.md".to_owned(), ResolvedHint::Found { entry: entry("text") }),
        ("Notes/x.md".to_owned(), ResolvedHint::NotFound),
    ])
    .unwrap();
    assert_eq!(told.len(), 1);
    assert_eq!(told[0].score, HINT_SCORE);
    assert_eq!(gaps.len(), 1);
    let followed = continuation_candidates(
        vec![candidate(1, "Notes/a.md"), candidate(2, "Notes/b.md")],
        &vec!["notes/b.md".to_owned()],
    );
    let score = |id: u128| {
        followed
            .iter()
            .find(|shown| shown.entry_id == id)
            .unwrap()
            .score
    };
    assert_eq!(score(1), CONTINUED_SCORE);
    assert_eq!(score(2), CHANGED_SCORE);
    assert!(looks_up_generation(true, true, true) || !looks_up_generation(false, false, false));
    assert_eq!(checkpoint_generation(&None), None);
}

#[test]
fn top_finds_are_listed_once() {
    let sets = vec![
        vec![candidate(1, "a.md"), candidate(2, "b.md")],
        vec![candidate(1, "a.md")],
        Vec::new(),
        vec![candidate(3, "c.md")],
    ];
    assert_eq!(top1_entry_ids(&sets), [1, 3]);
    assert!(semantic_batch(&Vec::new(), true).is_none());
}

#[test]
fn times_are_told_in_milliseconds() {
    assert_eq!(value_of(&write_millis(1_500)), serde_json::Value::from(1.5));
}

#[test]
fn fractions_are_written_without_needless_zeros() {
    for (billionths, expected) in [
        (0, "0.0"),
        (1_500_000_000, "1.5"),
        (-250_000_000, "-0.25"),
        (1, "0.000000001"),
        (12_000_000_000, "12.0"),
        (i64::MIN, "-9223372036.854775808"),
    ] {
        assert_eq!(fixed_point(billionths), expected);
    }
}

#[test]
fn zero_has_no_sign() {
    let holding = |numeral: &str| {
        Json::object().with(
            "values",
            Json::Array(vec![Json::Number(Number::Decimal(numeral.to_owned()))]),
        )
    };
    assert!(holding("0.0").same(&holding("-0.0")));
    assert!(!holding("0.0").same(&holding("0.5")));
    assert_eq!(compact_json(&holding("-0.0")), r#"{"values":[-0.0]}"#);
    assert_eq!(
        pretty_json(&Json::object().with("b", Json::Null).with("a", Json::integer(-1))),
        "{\n  \"a\": -1,\n  \"b\": null\n}"
    );
}

#[test]
fn envelopes_leave_out_what_is_absent() {
    let envelope = WorkspaceEnvelope::complete("r".to_owned(), None, Json::object());
    reads(
        &envelope.into_json(),
        r#"{"status":"complete","data":{}}"#,
    );
}

fn upload(description: Option<String>) -> BinaryUpload {
    BinaryUpload {
        path: "Scans/a.png".to_owned(),
        media_type: "image/png".to_owned(),
        stored_hash: "a".repeat(64),
        size_bytes: 5,
        object_version_id: owned("v1"),
        description,
        provenance: None,
        limitations: None,
        portable: None,
        expected_version: None,
        companion: None,
    }
}

#[test]
fn files_keep_or_queue_their_descriptions() {
    let plain = upload(None);
    let described = upload(owned("a scan"));
    let append = BinaryAction::Append {
        entry_id: 1,
        version: 1,
        operation: WriteOperation::Create,
    };
    assert!(!keeps_description(&plain, append));
    assert!(keeps_description(&plain, BinaryAction::Keep));
    assert!(queues_description(&plain, append, false, false));
    assert!(!queues_description(&described, append, false, false));
    let plan = plan_binary(&plain).unwrap();
    let companion = MarkdownUpsertResult {
        entry_id: 2,
        version: 1,
        version_id: Some(3),
        generation: Some(4),
        no_op: true,
        metadata_only: false,
    };
    let kept = binary_receipt(&plain, &plan, BinaryAction::Keep, 1, 1, &companion, 4);
    assert!(is_no_op(&kept));
    let made = binary_receipt(&plain, &plan, append, 1, 1, &companion, 4);
    assert!(!is_no_op(&made));
    let merged = merge_binary_description_metadata(
        Json::object().with("description_status", Json::text("pending")),
        Some(Json::object().with("description_status", Json::text("ready"))),
    );
    reads(
        &merged,
        r#"{"description_status":"ready","description":{"description_status":"ready"}}"#,
    );
}

#[test]
fn imported_checkpoints_are_rebased() {
    let metadata = Json::object()
        .with("kind", Json::text("checkpoint"))
        .with("workspace_generation", Json::integer(40))
        .with(
            "_brunn_import",
            Json::object().with("format", Json::text("brunn-workspace-import-manifest@v1")),
        );
    let path = simple_core::paths::checkpoint_path(5);
    assert!(is_portable_checkpoint_import(&path, &metadata));
    assert!(!is_portable_checkpoint_import("Notes/a.md", &metadata));
    let rebased = rebase_imported_checkpoint_metadata(metadata, 3);
    assert_eq!(rebased.get_integer("workspace_generation"), Some(3));
    assert_eq!(rebased.get_integer("origin_workspace_generation"), Some(40));
    assert_eq!(strip_digest_name("sha256:abc"), "abc");
    assert_eq!(strip_digest_name("abc"), "abc");
}

#[test]
fn evaluations_are_reported() {
    let request = EvalImportRequest {
        schema: "brunn-eval-import@v1".to_owned(),
        run_id: "run".to_owned(),
        case_id: "case".to_owned(),
        authorization_scope: "scope".to_owned(),
        display_scope: "shown".to_owned(),
        access_mode: "read_only".to_owned(),
        documents: Vec::new(),
        delta_documents: Vec::new(),
        seed_checkpoint: None,
        idempotency_key: "key".to_owned(),
        batch_index: None,
        batch_count: None,
    };
    let response = evaluation_response(
        &request,
        None,
        &EvalOutcome {
            user_id: 1,
            scope_id: 2,
            credential_id: 3,
            base_generation: 4,
            generation: 5,
            checkpoint_ref: None,
            chunks: 6,
            embeddings: 0,
            embedding_provider: "none".to_owned(),
            embedding_model: "none".to_owned(),
            embedding_degraded: true,
            token: "brunn_eval_x".to_owned(),
        },
    );
    let text = value_of(&response).to_string();
    assert!(text.contains("brunn_eval_x"));
    assert!(text.contains("simple-import:00000000-0000-0000-0000-000000000001"));
    let pending = value_of(&evaluation_status_response("simple-import:x", 2, 0, 5)).to_string();
    let ready = value_of(&evaluation_status_response("simple-import:x", 0, 0, 5)).to_string();
    assert_ne!(pending, ready);
    let cleaned = cleanup_response(
        "simple-import:x",
        &Cleanup {
            entries_removed: 1,
            search_chunks_removed: 2,
            jobs_removed: 3,
            credentials_revoked: 4,
            revoked_at: 0,
        },
    );
    assert!(value_of(&cleaned).to_string().contains("1970-01-01T00:00:00Z"));
}
