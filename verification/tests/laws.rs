//! What holds of several operations together, on examples.
use sha2::Digest;
use simple_core::auth::{require_write_capabilities, AuthContext, Capability, ManagedPath};
use simple_core::budget::{
    assemble_search_candidate_views, fair_search_char_quotas, select_search_candidate_sets,
    truncate_candidate_evidence, SearchBudgetOptions, SearchCandidateView, SearchRepresentation,
};
use simple_core::candidate::{
    merge_candidate, normalize_candidate_sections, sort_candidates, Candidate, CandidateSection,
    SearchSort, LANE_BONUS,
};
use simple_core::checkpoint::{
    checkpoint_envelope, checkpoint_id_in, checkpoint_request_identity,
    implicit_checkpoint_idempotency_key, validate_checkpoint_request,
};
use simple_core::deltas::{
    continuation_paths, materialize_resume_deltas, resume_pair, unified_line_diff, PairRow,
};
use simple_core::envelope::ResponseStatus;
use simple_core::error::ApiError;
use simple_core::evaluation::{evaluation_capabilities, evaluation_ref, feature_declarations, index_counts, BulkMarkdown};
use simple_core::files::{
    annotated_metadata, decide_binary, plan_binary, stream_chunk, stream_end, stream_start,
    BinaryAction, BinaryUpload,
    ExistingBinary,
};
use simple_core::history::{
    tier_a_exact_history_action, TierAExactHistoryAction, TierAHistorySemantics, TierAHistoryStage,
};
use simple_core::json::Json;
use simple_core::lanes::{
    answer_query, latest_generation, retrieval_lane_gap, retrieval_lane_selection, LaneResult,
    RequestSemanticEmbeddings, SemanticLaneReport, SemanticOutcome,
};
use simple_core::lexical::{collapsed_search_text, normalized_search_words};
use simple_core::listing::{change_page, ChangeRow};
use simple_core::open::{
    evidence_leads, open_candidates, open_reply, tokens_behind_deltas, OpenAnswer, OpenSearch,
};
use simple_core::outside::{compact_json, entry_ref};
use simple_core::paths::{
    checkpoint_path, checkpoint_ref, entry_link_lookup_keys, validate_sha256,
};
use simple_core::read::{read_entries, CurrentTruth, EntryRow, ResolvedRead};
use simple_core::receipts::{
    adopt_legacy_checkpoint, checkpoint_receipt_value, LegacyCheckpoint,
};
use simple_core::render::{
    apply_checkpoint_budget, chars_of_tokens, hydrate_candidates, DocumentRow,
};
use simple_core::requests::{
    CheckpointRequest, EvalImportRequest, ReadItem, WriteRequest,
};
use simple_core::resume::{changed_checkpoint_sources, CheckpointSource};
use simple_core::search::{in_request_order, plain_search_results, CompletedQuery};
use simple_core::sources::{choose_sources, collect_markdown_paths, plan_sources, source_ids};
use simple_core::upsert::{
    decide_delete, decide_upsert, upsert_result, DeletableEntry, DeleteAction, ExistingEntry,
    UpsertAction, WriteOperation,
};
use simple_core::verbatim::{extract_verbatim_matches, render_verbatim_matches};
use simple_core::write::{
    rebase_imported_checkpoint_metadata, validate_write_path, ConversationCheck, DocumentChunk,
    PreparedMarkdown,
};

/// What stands for a score.
fn points(points: f64) -> i64 {
    let magnitude = points.abs().to_bits() as i64;
    if points < 0.0 {
        -magnitude
    } else {
        magnitude
    }
}

/// The score that a code stands for.
fn number(code: i64) -> f64 {
    let magnitude = f64::from_bits(code.unsigned_abs());
    if code < 0 {
        -magnitude
    } else {
        magnitude
    }
}

fn owned(text: &str) -> Option<String> {
    Some(text.to_owned())
}

fn candidate(id: u128, score: i64) -> Candidate {
    Candidate {
        entry_id: id,
        path: format!("Notes/{id}.md"),
        title: format!("Note {id}"),
        version: 1,
        updated_at: 0,
        content_sha256: format!("{id:064x}"),
        heading: String::new(),
        excerpt: format!("excerpt {id}"),
        score,
        lanes: vec!["lexical".to_owned()],
        sections: vec![CandidateSection {
            heading: String::new(),
            excerpt: format!("excerpt {id}"),
            score,
        }],
        verbatim_matches: Vec::new(),
        superseded_by: None,
    }
}

fn ids(candidates: &[Candidate]) -> Vec<u128> {
    candidates.iter().map(|found| found.entry_id).collect()
}

fn row(id: u128, path: &str, content: &str) -> EntryRow {
    EntryRow {
        id,
        path: path.to_owned(),
        title: path.to_owned(),
        kind: "markdown".to_owned(),
        media_type: "text/markdown".to_owned(),
        version: 1,
        content_sha256: simple_core::outside::sha256_hex(content),
        content: Some(content.to_owned()),
        object_key: None,
        object_version_id: None,
        size_bytes: i64::try_from(content.len()).unwrap(),
        metadata: Json::object(),
        updated_at: 0,
        workspace_generation: Some(3),
    }
}

fn prepared(path: &str, content: &str) -> PreparedMarkdown {
    PreparedMarkdown {
        entry_id_hint: None,
        path: path.to_owned(),
        title: "Title".to_owned(),
        content: content.to_owned(),
        content_sha256: simple_core::outside::sha256_hex(content),
        media_type: "text/markdown".to_owned(),
        metadata: Json::object(),
        chunks: Vec::<DocumentChunk>::new(),
        embedded: Vec::new(),
        expected_version: None,
        tier_a_history_stage: None,
        force_new_version: false,
    }
}

fn existing(id: u128, version: i64, content: &str) -> ExistingEntry {
    ExistingEntry {
        id,
        kind: "markdown".to_owned(),
        current_version: version,
        deleted: false,
        version_id: 77,
        content_sha256: simple_core::outside::sha256_hex(content),
        metadata: Json::object(),
    }
}

#[test]
fn managed_writes_need_more_than_saving() {
    let auth = |capabilities: Vec<Capability>| AuthContext {
        credential_id: 1,
        user_id: 2,
        capabilities,
    };
    let task = ManagedPath::Task { identified: true };
    let path = ".brunn/tasks/a.md";
    assert!(require_write_capabilities(
        &auth(vec![Capability::Save, Capability::TaskWrite]),
        path,
        task
    )
    .is_err());
    assert!(require_write_capabilities(
        &auth(vec![
            Capability::Save,
            Capability::TaskWrite,
            Capability::CredentialManage
        ]),
        path,
        task
    )
    .is_ok());
    assert!(matches!(
        require_write_capabilities(&auth(vec![]), "Notes/a.md", ManagedPath::Neither),
        Err(ApiError::Capability {
            capability: Capability::Save
        })
    ));
}

#[test]
fn fair_shares_go_round_the_queries() {
    let sets = vec![
        vec![candidate(1, 3), candidate(2, 2), candidate(3, 1)],
        vec![candidate(4, 9)],
        vec![candidate(5, 8), candidate(6, 7)],
    ];
    let (shown, cut) = select_search_candidate_sets(&sets, true, 4);
    assert!(cut);
    assert_eq!(ids(&shown[0]), [1, 2]);
    assert_eq!(ids(&shown[1]), [4]);
    assert_eq!(ids(&shown[2]), [5]);
    let (shown, cut) = select_search_candidate_sets(&sets, false, 4);
    assert!(cut);
    assert_eq!(ids(&shown[0]), [1, 2, 3]);
    assert_eq!(ids(&shown[1]), [4]);
    assert!(shown[2].is_empty());
    let (_, cut) = select_search_candidate_sets(&sets, true, 6);
    assert!(!cut);
}

#[test]
fn cut_candidates_spend_what_they_show() {
    let mut found = candidate(1, points(1.0));
    found.excerpt = "abcdef".to_owned();
    found.sections = vec![
        CandidateSection {
            heading: "One".to_owned(),
            excerpt: "abcdef".to_owned(),
            score: 2,
        },
        CandidateSection {
            heading: "Two".to_owned(),
            excerpt: "ghijkl".to_owned(),
            score: 1,
        },
    ];
    let mut remaining = 9;
    assert!(truncate_candidate_evidence(&mut found, &mut remaining));
    assert_eq!(remaining, 0);
    assert_eq!(found.excerpt, "abcdef");
    assert_eq!(found.sections[1].excerpt, "ghi");
}

fn view(id: u128, chars: usize) -> SearchCandidateView {
    let mut shown = candidate(id, points(1.0));
    shown.excerpt = "x".repeat(chars);
    shown.sections = Vec::new();
    SearchCandidateView {
        candidate: shown,
        representation: SearchRepresentation::Excerpt,
        complete_text: None,
        demote_additional_sections: false,
    }
}

#[test]
fn fair_quotas_give_what_is_desired_or_all_there_is() {
    let views = vec![vec![view(1, 10)], vec![view(2, 100)], vec![view(3, 60)]];
    assert_eq!(fair_search_char_quotas(&views, 1_000), [10, 100, 60]);
    let quotas = fair_search_char_quotas(&views, 90);
    assert_eq!(quotas.iter().sum::<usize>(), 90);
    assert_eq!(quotas[0], 10);
    assert!(quotas[1] >= 30 && quotas[2] >= 30);
    assert_eq!(fair_search_char_quotas(&Vec::new(), 90), Vec::<usize>::new());
}

#[test]
fn responses_stay_within_their_characters() {
    let sets = vec![vec![candidate(1, 2), candidate(2, 1)], vec![candidate(3, 3)]];
    let options = SearchBudgetOptions {
        fair_share: true,
        top1_hydration: false,
        char_cap: true,
        section_demotion_top_n: None,
        max_chars: 12,
    };
    let (views, truncated) = assemble_search_candidate_views(&sets, &Vec::new(), options);
    assert!(truncated);
    let shown = views
        .iter()
        .flatten()
        .map(|shown| shown.candidate.excerpt.chars().count())
        .sum::<usize>();
    assert!(shown <= 12);
}

#[test]
fn candidates_keep_their_best_sections_once() {
    let section = |heading: &str, excerpt: &str, score: i64| CandidateSection {
        heading: heading.to_owned(),
        excerpt: excerpt.to_owned(),
        score,
    };
    let mut found = candidate(1, points(1.0));
    found.sections = vec![
        section("A", "a", 1),
        section("B", "b", 5),
        section("B", "b", 4),
        section("C", "c", 3),
        section("D", "d", 2),
    ];
    normalize_candidate_sections(&mut found);
    let shown = found
        .sections
        .iter()
        .map(|kept| kept.heading.as_str())
        .collect::<Vec<_>>();
    assert_eq!(shown, ["B", "C", "D"]);
}

#[test]
fn merging_keeps_entries_scores_and_lanes() {
    let mut merged = vec![candidate(1, points(3.0)), candidate(2, points(1.0))];
    let mut again = candidate(1, points(2.0));
    again.lanes = vec!["semantic".to_owned()];
    merge_candidate(&mut merged, again);
    merge_candidate(&mut merged, candidate(3, points(1.0)));
    assert_eq!(ids(&merged), [1, 2, 3]);
    assert_eq!(number(merged[0].score), 3.0 + 0.15);
    assert_eq!(number(LANE_BONUS), 0.15);
    assert_eq!(merged[0].lanes, ["lexical", "semantic"]);
    assert_eq!(merged[1].score, points(1.0));
}

#[test]
fn sorting_keeps_every_candidate() {
    let mut found = vec![candidate(3, 1), candidate(1, 2), candidate(2, 2)];
    sort_candidates(&mut found, SearchSort::BestMatch);
    assert_eq!(ids(&found), [1, 2, 3]);
}

fn request(session: &str, key: Option<String>) -> CheckpointRequest {
    CheckpointRequest {
        session_id: session.to_owned(),
        parent_checkpoint_id: None,
        state: Json::object().with("goal", Json::text("ship")),
        source_refs: vec!["Notes/a.md".to_owned()],
        idempotency_key: key,
    }
}

#[test]
fn checkpoint_requests_are_the_same_in_every_session() {
    let first = checkpoint_request_identity(&request("one", None));
    let second = checkpoint_request_identity(&request("two", owned("key")));
    assert!(first.same(&second));
    let mut other = request("one", None);
    other.source_refs.clear();
    assert!(!first.same(&checkpoint_request_identity(&other)));
}

#[test]
fn differences_leave_out_common_lines() {
    let before = "a\nb\nc\nd\ne\nf\ng\nh\n";
    let after = "a\nb\nc\nd\nE\nf\ng\nh\n";
    let diff = unified_line_diff("n.md", before, after);
    assert!(diff.contains("\n-e\n+E\n"));
    assert!(!diff.contains("\n a\n"));
    let none = unified_line_diff("n.md", before, before);
    assert!(!none.contains("\n-a"));
    assert!(!none.contains("\n+a"));
}

fn pair(id: u128, before: &str, after: &str) -> simple_core::deltas::ResumeVersionPair {
    let source = CheckpointSource {
        entry_id: id,
        path: format!("Notes/{id}.md"),
        pinned_version: 1,
        pinned_sha256: simple_core::outside::sha256_hex(before),
    };
    resume_pair(
        &source,
        PairRow {
            path: Some(source.path.clone()),
            current_version: Some(2),
            pinned_sha256: Some(simple_core::outside::sha256_hex(before)),
            before: owned(before),
            current_sha256: Some(simple_core::outside::sha256_hex(after)),
            after: owned(after),
        },
    )
    .unwrap()
}

#[test]
fn comparisons_are_charged_for_what_they_hold() {
    let pairs = vec![
        pair(1, "one\n", "two\n"),
        pair(2, &"left\n".repeat(600), &"right\n".repeat(600)),
    ];
    let batch = materialize_resume_deltas(&pairs, &Vec::new(), 48_000);
    assert_eq!(batch.deltas.len(), 2);
    let shown = batch
        .deltas
        .iter()
        .map(|delta| {
            ["before", "after", "diff"]
                .iter()
                .filter_map(|key| delta.get_text(key))
                .map(|text| text.chars().count())
                .sum::<usize>()
        })
        .sum::<usize>();
    assert_eq!(batch.charged_chars, shown);
    assert!(batch.charged_chars <= 6_000);
    let none = materialize_resume_deltas(&pairs, &Vec::new(), 0);
    assert_eq!(none.charged_chars, 0);
    assert!(none.deltas.is_empty());
    assert_eq!(none.leads.len(), 2);
}

#[test]
fn work_goes_on_at_each_path_once() {
    let change = |path: &str| Json::object().with("path", Json::text(path));
    let changes = (0..20)
        .map(|index| change(&format!("Notes/{}.md", index % 18)))
        .chain([change(".brunn/dreams/a.md")])
        .collect::<Vec<_>>();
    let (paths, _) = continuation_paths(None, &changes);
    assert_eq!(paths.len(), 16);
    assert_eq!(paths[0], "Notes/1.md");
    assert_eq!(paths[1], "Notes/0.md");
    assert_eq!(paths[2], "Notes/17.md");
    assert!(!paths.iter().any(|path| path.starts_with(".brunn/")));
}

fn evaluation(run: &str) -> EvalImportRequest {
    EvalImportRequest {
        schema: String::new(),
        run_id: run.to_owned(),
        case_id: "case".to_owned(),
        authorization_scope: "scope".to_owned(),
        display_scope: String::new(),
        access_mode: "read_only".to_owned(),
        documents: Vec::new(),
        delta_documents: Vec::new(),
        seed_checkpoint: None,
        idempotency_key: "key".to_owned(),
        batch_index: None,
        batch_count: None,
    }
}

#[test]
fn batches_share_their_workspace() {
    let mut second = evaluation("run");
    second.batch_index = Some(1);
    second.batch_count = Some(2);
    assert_eq!(
        evaluation_ref(&evaluation("run"), true),
        evaluation_ref(&second, true)
    );
    assert_ne!(
        evaluation_ref(&evaluation("run"), true),
        evaluation_ref(&evaluation("run"), false)
    );
}

#[test]
fn reading_credentials_can_do_less_than_writing_ones() {
    let (reading, _) = evaluation_capabilities("read_only");
    let (writing, _) = evaluation_capabilities("read_write");
    assert_eq!(reading, ["open", "query", "read", "status"]);
    assert!(reading.iter().all(|name| writing.contains(name)));
    assert!(writing.contains(&"checkpoint".to_owned()));
}

#[test]
fn chunks_and_vectors_are_counted() {
    let chunk = |ordinal: usize| DocumentChunk {
        ordinal,
        heading: String::new(),
        content: "text".to_owned(),
        estimated_tokens: 1,
    };
    let document = |embedded: Vec<bool>| BulkMarkdown {
        entry_id: 1,
        version_id: 2,
        path: "a.md".to_owned(),
        title: "a".to_owned(),
        content: "text".to_owned(),
        content_sha256: "a".repeat(64),
        media_type: "text/markdown".to_owned(),
        metadata: Json::object(),
        chunks: (0..embedded.len()).map(chunk).collect(),
        embedded,
        supersedes: Vec::new(),
        declared_kind: None,
    };
    let documents = vec![document(vec![true, false]), document(vec![true])];
    assert_eq!(index_counts(&documents), (3, 2));
    assert_eq!(feature_declarations(&documents), 0);
    let declaring = vec![
        BulkMarkdown {
            supersedes: vec!["old.md".to_owned()],
            ..document(vec![])
        },
        BulkMarkdown {
            declared_kind: owned("intention"),
            ..document(vec![])
        },
        BulkMarkdown {
            declared_kind: owned("note"),
            ..document(vec![])
        },
    ];
    assert_eq!(feature_declarations(&declaring), 2);
}

#[test]
fn streams_are_bounded_by_limit_and_permission() {
    let mut digest = stream_start();
    let size = stream_chunk(0, &[7; 10], Some(25), &mut digest).unwrap();
    let size = stream_chunk(size, &[9; 15], Some(25), &mut digest).unwrap();
    assert_eq!(size, 25);
    assert!(stream_chunk(size, &[1], Some(25), &mut digest).is_err());
    let mut bytes = vec![7_u8; 10];
    bytes.extend([9; 15]);
    let whole = hash_hex(&bytes);
    assert!(stream_end(Some(25), size, &Some(whole), digest).is_ok());
    let mut other = stream_start();
    assert!(stream_chunk(4_294_967_295, &[1], None, &mut other).is_ok());
    assert!(stream_chunk(4_294_967_296, &[1], None, &mut other).is_err());
}

fn hash_hex(bytes: &[u8]) -> String {
    hex::encode(sha2::Sha256::digest(bytes))
}

#[test]
fn words_stand_between_single_spaces() {
    let words = normalized_search_words("  Well, a(b)--C3 ");
    assert_eq!(words, " well a b c3 ");
    assert_eq!(normalized_search_words(&words), words);
    assert_eq!(normalized_search_words("?!"), " ");
    assert_eq!(normalized_search_words("ÄÖ-ü"), " äö ü ");
}

#[test]
fn letters_are_the_words_without_spaces() {
    for text in ["  Well, a(b)--C3 ", "", "ÄÖ-ü", "x y"] {
        assert_eq!(
            collapsed_search_text(text),
            normalized_search_words(text).replace(' ', "")
        );
    }
}

fn upload(path: &str, description: Option<String>) -> BinaryUpload {
    BinaryUpload {
        path: path.to_owned(),
        media_type: "image/png".to_owned(),
        stored_hash: format!("sha256:{}", "a".repeat(64)),
        size_bytes: 5,
        object_version_id: owned("v1"),
        description,
        provenance: owned("camera"),
        limitations: None,
        portable: None,
        expected_version: None,
        companion: None,
    }
}

#[test]
fn descriptions_follow_the_key_of_the_path() {
    let first = plan_binary(&upload("Scans/A.png", None)).unwrap();
    let second = plan_binary(&upload("scans/a.PNG", None)).unwrap();
    let other = plan_binary(&upload("Scans/b.png", None)).unwrap();
    assert_eq!(first.companion_path, second.companion_path);
    assert_ne!(first.companion_path, other.companion_path);
}

#[test]
fn annotating_twice_changes_nothing() {
    let asked = upload("Scans/A.png", owned("a scan"));
    let plan = plan_binary(&asked).unwrap();
    let stored = |metadata: Json| ExistingBinary {
        id: 9,
        kind: "binary".to_owned(),
        media_type: "image/png".to_owned(),
        current_version: 3,
        deleted: false,
        content_sha256: "a".repeat(64),
        metadata,
    };
    let before = Some(stored(Json::object()));
    assert_eq!(
        decide_binary(&asked, &plan, &before, false, 1).unwrap(),
        BinaryAction::Annotate
    );
    let after = Some(stored(annotated_metadata(&asked, &plan, &Json::object())));
    assert_eq!(
        decide_binary(&asked, &plan, &after, false, 1).unwrap(),
        BinaryAction::Keep
    );
    assert_eq!(
        decide_binary(&asked, &plan, &None, false, 1).unwrap(),
        BinaryAction::Append {
            entry_id: 1,
            version: 1,
            operation: WriteOperation::Create
        }
    );
}

#[test]
fn exact_steps_stand_next_to_their_target() {
    let stage = Some(TierAHistoryStage {
        target_lineage_ordinal: 4,
        semantics: TierAHistorySemantics::PreserveIntentionalExactBytesVersion,
    });
    let metadata = Json::object()
        .with("_brunn_import", import_marker())
        .with(
            "_brunn_tier_a_history",
            Json::object()
                .with("format", Json::text("brunn-tier-a-history-stage@v1"))
                .with("target_lineage_ordinal", Json::integer(4))
                .with(
                    "semantics",
                    Json::text("preserve_intentional_exact_bytes_version"),
                ),
        );
    let act = |version: i64, matches: bool, deleted: bool| {
        tier_a_exact_history_action(
            stage,
            Some(version),
            matches,
            deleted,
            Some(&metadata),
            &metadata,
        )
    };
    assert_eq!(act(3, true, false).unwrap(), TierAExactHistoryAction::Append);
    assert_eq!(
        act(4, true, false).unwrap(),
        TierAExactHistoryAction::Idempotent
    );
    assert!(act(2, true, false).is_err());
    assert!(act(5, true, false).is_err());
    assert!(act(3, false, false).is_err());
    assert!(act(3, true, true).is_err());
}

#[test]
fn semantic_only_leaves_the_other_lanes_out() {
    let lanes = retrieval_lane_selection(&vec!["semantic".to_owned()]).unwrap();
    assert!(lanes.semantic && lanes.semantic_only && !lanes.exact && !lanes.lexical);
    assert!(retrieval_lane_selection(&vec!["psychic".to_owned()]).is_err());
}

#[test]
fn prepared_texts_are_taken_once_at_their_place() {
    let mut batch =
        RequestSemanticEmbeddings::new(vec![owned("one"), None, owned("three")]).unwrap();
    assert_eq!(batch.inputs(), ["one", "three"]);
    assert_eq!(batch.take(2), Some(1));
    assert_eq!(batch.take(2), None);
    assert_eq!(batch.take(1), None);
    assert_eq!(batch.take(0), Some(0));
    assert_eq!(batch.take(9), None);
    assert!(RequestSemanticEmbeddings::new(vec![None, None]).is_none());
}

#[test]
fn core_finds_survive_a_semantic_failure() {
    let found = |candidates: Vec<Candidate>, generation: i64| LaneResult::Found {
        candidates,
        generation: Some(generation),
    };
    let lanes = retrieval_lane_selection(&Vec::new()).unwrap();
    let answer = answer_query(
        found(vec![candidate(1, points(5.0))], 4),
        found(vec![candidate(2, points(1.0)), candidate(1, points(1.0))], 7),
        Some(SemanticLaneReport {
            outcome: SemanticOutcome::Failed,
            ready_us: 0,
            lane_us: 0,
        }),
        (10, 20),
        lanes,
        &None,
        false,
        SearchSort::BestMatch,
        8,
    );
    assert_eq!(ids(&answer.candidates), [1, 2]);
    assert_eq!(answer.workspace_generation, Some(7));
    assert_eq!(latest_generation(Some(4), None), Some(4));
    assert_eq!(latest_generation(None, None), None);
    assert_eq!(answer.timings.exact, 10);
    assert_eq!(answer.timings.lexical, 20);
    let failed = answer_query(
        LaneResult::Failed,
        found(Vec::new(), 7),
        None,
        (1, 2),
        lanes,
        &None,
        false,
        SearchSort::BestMatch,
        8,
    );
    assert_eq!(failed.failures, ["exact"]);
    assert!(failed.candidates.is_empty());
}

fn change(generation: i64) -> ChangeRow {
    ChangeRow {
        generation,
        operation: "update".to_owned(),
        path: "Notes/a.md".to_owned(),
        version: generation,
        content_sha256: "a".repeat(64),
        recorded_at: 0,
    }
}

#[test]
fn pages_of_changes_join() {
    let rows = (1..=5).map(change).collect::<Vec<_>>();
    let page = change_page(&rows[..4].to_vec(), 3, Some(5));
    assert!(page.truncated);
    assert_eq!(page.changes.len(), 3);
    let next = page.next_generation.unwrap();
    assert_eq!(next, 3);
    let rest = rows
        .iter()
        .filter(|row| row.generation > next)
        .cloned()
        .collect::<Vec<_>>();
    let last = change_page(&rest, 3, Some(5));
    assert!(!last.truncated);
    assert_eq!(last.changes.len(), 2);
    assert_eq!(last.next_generation, None);
}

#[test]
fn opening_tells_each_entry_once() {
    let (told, failures) = open_candidates(
        Some(vec![candidate(1, points(1.0))]),
        vec![candidate(2, points(1.0)), candidate(1, points(9.0))],
        OpenSearch::Found {
            candidates: (1..=40).map(|id| candidate(id, points(1.0))).collect(),
            failures: vec!["lexical".to_owned()],
        },
        &None,
        false,
    );
    assert_eq!(told.len(), 32);
    assert_eq!(failures, ["lexical"]);
    let mut seen = ids(&told);
    seen.sort_unstable();
    seen.dedup();
    assert_eq!(seen.len(), 32);
    assert_eq!(told[0].entry_id, 1);
}

#[test]
fn every_find_is_shown_or_pointed_to() {
    let found = vec![candidate(1, points(2.0)), candidate(2, points(1.0))];
    let documents = vec![DocumentRow {
        entry_id: 1,
        size_bytes: 4,
        content: owned("text"),
    }];
    let evidence = hydrate_candidates(&found[..1].to_vec_copy(), &documents, 1_000);
    assert_eq!(evidence.len(), 1);
    let leads = evidence_leads(&found, &evidence, Vec::new());
    assert_eq!(leads.len(), 1);
    assert_eq!(leads[0].get_text("reference").unwrap(), &entry_ref(2));
}

trait Copied {
    fn to_vec_copy(&self) -> Vec<Candidate>;
}

impl Copied for [Candidate] {
    fn to_vec_copy(&self) -> Vec<Candidate> {
        self.iter().map(Candidate::copy).collect()
    }
}

fn answer(failures: Vec<String>, found: bool) -> OpenAnswer {
    OpenAnswer {
        session_id: "session".to_owned(),
        generation: 4,
        authorization_scope: None,
        evidence: Vec::new(),
        leads: Vec::new(),
        checkpoint: None,
        checkpoint_text_truncated: false,
        changes: change_page(&Vec::new(), 10, Some(4)),
        found,
        hint_gaps: Vec::new(),
        failures,
        owner_presence: None,
        pending_intentions: None,
        resume_deltas: None,
    }
}

#[test]
fn opening_tells_its_gaps() {
    let complete = open_reply(answer(Vec::new(), true));
    assert_eq!(complete.status, ResponseStatus::Complete);
    assert!(complete.gaps.is_empty());
    assert_eq!(complete.corpus_revision.as_deref(), Some("generation:4"));
    let partial = open_reply(answer(vec!["lexical".to_owned()], true));
    assert_eq!(partial.status, ResponseStatus::Partial);
    assert_eq!(partial.gaps.len(), 1);
    let degraded = open_reply(answer(vec!["lexical".to_owned()], false));
    assert_eq!(degraded.status, ResponseStatus::Degraded);
}

#[test]
fn digests_are_stable() {
    let digest = validate_sha256(&"AB".repeat(32)).unwrap();
    assert_eq!(validate_sha256(&digest).unwrap(), digest);
    assert_eq!(validate_sha256(&format!("sha256:{digest}")).unwrap(), digest);
}

fn read_item(path: &str) -> ReadItem {
    ReadItem {
        reference: None,
        path: owned(path),
        link_target: None,
        view: owned("full"),
        start: None,
        end: None,
        max_chars: None,
        version: None,
    }
}

#[test]
fn reads_are_tallied_within_the_response() {
    let found = |id: u128, content: &str| {
        let path = format!("Notes/{id}.md");
        (
            read_item(&path),
            ResolvedRead::Found {
                entry: row(id, &path, content),
                conversation: false,
                truth: CurrentTruth::NotAsked,
            },
        )
    };
    let tally = read_entries(vec![
        found(1, "alpha"),
        (
            read_item("Notes/none.md"),
            ResolvedRead::Missing {
                code: "entry_not_found".to_owned(),
                message: "no".to_owned(),
                details: Json::object(),
            },
        ),
        found(2, "beta"),
    ])
    .unwrap();
    assert_eq!(tally.used, [1, 2]);
    assert_eq!(tally.missing, 1);
    assert_eq!(tally.skipped, 0);
    assert_eq!(tally.generation, Some(3));
    let shown = tally
        .items
        .iter()
        .filter_map(|item| item.get_text("text"))
        .map(|text| text.chars().count())
        .sum::<usize>();
    assert_eq!(shown, 9);
    assert_eq!(tally.remaining_chars + shown, 4_194_304);
    assert!(read_entries(vec![(
        read_item("Notes/a.md"),
        ResolvedRead::Failed {
            error: ApiError::internal("down"),
        },
    )])
    .is_err());
}

#[test]
fn checkpoint_receipts_tell_their_generation() {
    let receipt = checkpoint_receipt_value(
        &checkpoint_ref(5),
        &checkpoint_path(5),
        5,
        6,
        1,
        &"a".repeat(64),
        7,
        8,
        Vec::new(),
    );
    let answer = |session: &str, receipt: Json, replayed: bool| {
        checkpoint_envelope(session, receipt, replayed, "request".to_owned(), Some(4))
    };
    let made = answer("session", receipt.copy(), false).unwrap();
    assert_eq!(made.corpus_revision.as_deref(), Some("generation:8"));
    assert_eq!(made.query_count, Some(4));
    let again = answer("another session", receipt, true).unwrap();
    assert!(again.data.same(&made.data));
    assert_eq!(again.corpus_revision, made.corpus_revision);
    assert_eq!(again.session_id.as_deref(), Some("another session"));
    assert_eq!(again.query_count, None);
    assert!(matches!(
        answer("session", Json::object(), false),
        Err(ApiError::Internal { .. })
    ));
}

#[test]
fn checkpoints_of_other_requests_are_not_adopted() {
    let kept = LegacyCheckpoint {
        id: 5,
        path: checkpoint_path(5),
        current_version: 1,
        version_id: 6,
        content_sha256: "a".repeat(64),
        metadata: Json::object(),
    };
    let request = CheckpointRequest {
        session_id: "now".to_owned(),
        parent_checkpoint_id: None,
        state: Json::object(),
        source_refs: Vec::new(),
        idempotency_key: owned("key"),
    };
    assert!(matches!(
        adopt_legacy_checkpoint(&vec![kept], &request, "key"),
        Err(ApiError::Conflict { .. })
    ));
    assert!(adopt_legacy_checkpoint(&Vec::new(), &request, "key")
        .unwrap()
        .is_none());
    let id = checkpoint_id_in(&request, "then");
    let own = |path: String| LegacyCheckpoint {
        id: 5,
        path,
        current_version: 1,
        version_id: 6,
        content_sha256: "a".repeat(64),
        metadata: Json::object()
            .with("kind", Json::text("checkpoint"))
            .with("session_id", Json::text("then"))
            .with("pinned_workspace_generation", Json::natural(4)),
    };
    let adopted = adopt_legacy_checkpoint(&vec![own(checkpoint_path(id))], &request, "key");
    let adopted = adopted.unwrap().unwrap();
    assert_eq!((adopted.checkpoint_id, adopted.pinned_generation), (id, 4));
    assert!(adopt_legacy_checkpoint(&vec![own(checkpoint_path(id ^ 1))], &request, "key").is_err());
}

#[test]
fn paths_are_collected_in_the_order_of_the_texts() {
    let state = Json::Object(vec![
        ("z".to_owned(), Json::text("see `b/last.md` and a/first.md now")),
        (
            "a".to_owned(),
            Json::Array(vec![Json::text("a/first.md"), Json::natural(1), Json::text("none")]),
        ),
        ("a".to_owned(), Json::text("hidden/second.md")),
    ]);
    let mut paths = vec!["kept.md".to_owned()];
    collect_markdown_paths(&state, &mut paths);
    assert_eq!(
        paths,
        ["kept.md", "a/first.md", "a/first.md", "a/first.md", "b/last.md"]
    );
    assert_eq!(
        plan_sources(&state, &Vec::new()).unwrap().inferred,
        ["a/first.md", "b/last.md"]
    );
}

#[test]
fn requests_that_ask_for_the_same_have_one_digest() {
    let ask = |session: &str, key: Option<String>| CheckpointRequest {
        session_id: session.to_owned(),
        parent_checkpoint_id: None,
        state: Json::object().with("objective", Json::text("go on")),
        source_refs: vec!["a.md".to_owned()],
        idempotency_key: key,
    };
    let accept = |request: &CheckpointRequest| {
        let canonical = compact_json(&checkpoint_request_identity(request));
        validate_checkpoint_request(request, Ok(()), Ok(canonical)).unwrap()
    };
    let keyed = accept(&ask("one", owned("key")));
    let other = accept(&ask("two", None));
    assert_eq!(keyed.0, "key");
    assert_eq!(keyed.1, other.1);
    assert_eq!(
        other.0,
        implicit_checkpoint_idempotency_key(&ask("two", None))
    );
    assert_ne!(
        other.0,
        implicit_checkpoint_idempotency_key(&ask("one", None))
    );
}

#[test]
fn headings_and_folders_do_not_change_what_a_link_means() {
    let keys = entry_link_lookup_keys("Roadmap.md").unwrap();
    assert_eq!(keys, ["roadmap", "roadmap.md", "roadmap.markdown"]);
    for target in ["Roadmap#Next", "x/y/Roadmap.MD", " Plans / Roadmap #a/b", "Roadmap?v=1"] {
        assert_eq!(entry_link_lookup_keys(target).unwrap(), keys, "{target}");
    }
    assert!(entry_link_lookup_keys("x/").is_err());
    assert!(entry_link_lookup_keys("#Next").is_err());
}

#[test]
fn digests_are_read_in_any_case() {
    let digest = "0a".repeat(32);
    for written in [digest.to_uppercase(), format!("sha256:{digest}"), digest.clone()] {
        assert_eq!(validate_sha256(&written).unwrap(), digest);
    }
}

#[test]
fn evidence_stays_within_its_budget() {
    let found = (1..=10).map(|id| candidate(id, points(1.0))).collect::<Vec<_>>();
    let documents = (1..=10)
        .map(|id| DocumentRow {
            entry_id: id,
            size_bytes: 3_000,
            content: Some("y".repeat(3_000)),
        })
        .collect::<Vec<_>>();
    let evidence = hydrate_candidates(&found, &documents, 1_000);
    assert!(evidence.len() <= 8);
    let shown = evidence
        .iter()
        .filter_map(|item| item.get_text("text"))
        .map(|text| text.chars().count())
        .sum::<usize>();
    assert!(shown <= 4_000);
    assert!(shown > 0);
}

#[test]
fn checkpoints_changes_and_sources_share_one_budget() {
    let checkpoint = Json::object().with("text", Json::Text("c".repeat(3_001)));
    let (checkpoint, cut, left) = apply_checkpoint_budget(Some(checkpoint), 1_000);
    assert!(!cut);
    assert_eq!(left, 249);
    let pairs = vec![pair(1, "one\n", "two\n")];
    let batch = materialize_resume_deltas(&pairs, &Vec::new(), chars_of_tokens(left));
    let left = tokens_behind_deltas(left, batch.charged_chars);
    let found = vec![candidate(1, points(1.0)), candidate(2, points(1.0))];
    let documents = vec![
        DocumentRow {
            entry_id: 1,
            size_bytes: 600,
            content: Some("y".repeat(600)),
        },
        DocumentRow {
            entry_id: 2,
            size_bytes: 9_000,
            content: Some("z".repeat(9_000)),
        },
    ];
    let shown = hydrate_candidates(&found, &documents, left)
        .iter()
        .filter_map(|item| item.get_text("text"))
        .map(|text| text.chars().count())
        .sum::<usize>();
    let kept = checkpoint.unwrap().get_text("text").unwrap().chars().count();
    assert_eq!(kept, 3_001);
    assert!(shown >= 600);
    assert!(kept + batch.charged_chars + shown <= 4_000);
}

#[test]
fn plain_responses_stay_within_their_limits() {
    let lanes = retrieval_lane_selection(&Vec::new()).unwrap();
    let completed = (0..4)
        .map(|index| CompletedQuery {
            index,
            id: None,
            goal: None,
            answer: answer_query(
                LaneResult::Found {
                    candidates: (1..=50).map(|id| candidate(id, points(1.0))).collect(),
                    generation: None,
                },
                LaneResult::Failed,
                None,
                (0, 0),
                lanes,
                &None,
                false,
                SearchSort::BestMatch,
                50,
            ),
        })
        .collect::<Vec<_>>();
    let results = plain_search_results(&completed);
    assert_eq!(results.results.len(), 4);
    assert_eq!(results.entries.len(), 128);
    assert!(results.truncated);
}

#[test]
fn optional_semantic_lanes_never_fail_a_request() {
    for outcome in [
        SemanticOutcome::Disabled,
        SemanticOutcome::IndexUnavailable,
        SemanticOutcome::ReadinessError,
        SemanticOutcome::Failed,
        SemanticOutcome::Deferred,
    ] {
        let report = Some(SemanticLaneReport {
            outcome,
            ready_us: 0,
            lane_us: 0,
        });
        let mut lanes = retrieval_lane_selection(&Vec::new()).unwrap();
        lanes.semantic_only = false;
        let found = |id: u128| LaneResult::Found {
            candidates: vec![candidate(id, points(1.0))],
            generation: None,
        };
        let answer = answer_query(
            found(1),
            found(2),
            report,
            (0, 0),
            lanes,
            &None,
            false,
            SearchSort::BestMatch,
            8,
        );
        assert!(answer.failures.is_empty());
        assert_eq!(answer.candidates.len(), 2);
    }
}

#[test]
fn gaps_of_different_failures_differ() {
    let lanes = [
        "exact",
        "lexical",
        "semantic",
        "semantic_disabled",
        "semantic_index_unavailable",
        "semantic_readiness_error",
        "semantic_deferred",
    ];
    for (i, first) in lanes.iter().enumerate() {
        for second in &lanes[i + 1..] {
            assert!(!retrieval_lane_gap(first).same(&retrieval_lane_gap(second)));
        }
    }
}

#[test]
fn moved_checkpoints_remember_their_origin() {
    let metadata = Json::object()
        .with("kind", Json::text("checkpoint"))
        .with("workspace_generation", Json::integer(40));
    let once = rebase_imported_checkpoint_metadata(metadata, 3);
    let twice = rebase_imported_checkpoint_metadata(once, 9);
    assert_eq!(twice.get_integer("workspace_generation"), Some(9));
    assert_eq!(twice.get_integer("origin_workspace_generation"), Some(40));
}

#[test]
fn changed_sources_are_compared_or_passed_over() {
    let sources = (1_u128..=10)
        .map(|id| {
            Json::object()
                .with("entry_ref", Json::Text(entry_ref(id)))
                .with("path", Json::Text(format!("Notes/{id}.md")))
                .with("version", Json::integer(1))
                .with("content_hash", Json::Text(format!("sha256:{}", "a".repeat(64))))
        })
        .collect::<Vec<_>>();
    let checkpoint = Json::object().with("source_entries", Json::Array(sources));
    let changes = (1..=10)
        .map(|id| Json::object().with("path", Json::Text(format!("Notes/{id}.md"))))
        .collect::<Vec<_>>();
    let (compared, passed) = changed_checkpoint_sources(Some(&checkpoint), &changes);
    assert_eq!(compared.len(), 8);
    let order = compared
        .iter()
        .chain(&passed)
        .map(|source| source.entry_id)
        .collect::<Vec<_>>();
    assert_eq!(order, (1..=10).collect::<Vec<u128>>());
}

#[test]
fn answers_stand_in_the_order_of_the_request() {
    let lanes = retrieval_lane_selection(&Vec::new()).unwrap();
    let completed = [2, 0, 1]
        .into_iter()
        .map(|index| CompletedQuery {
            index,
            id: None,
            goal: None,
            answer: answer_query(
                LaneResult::Failed,
                LaneResult::Failed,
                None,
                (0, 0),
                lanes,
                &None,
                false,
                SearchSort::BestMatch,
                1,
            ),
        })
        .collect::<Vec<_>>();
    let order = in_request_order(completed)
        .iter()
        .map(|query| query.index)
        .collect::<Vec<_>>();
    assert_eq!(order, [0, 1, 2]);
}

#[test]
fn checkpoint_sources_are_pinned_once() {
    let state = Json::object().with("goal", Json::text("see Notes/2.md"));
    let refs = vec![entry_ref(1), "Notes/1.md".to_owned()];
    let plan = plan_sources(&state, &refs).unwrap();
    let chosen = source_ids(&plan, &vec![2, 1, 2]);
    assert_eq!(chosen, [1, 2]);
    let rows = vec![row(1, "Notes/1.md", "one"), row(2, "Notes/2.md", "two")];
    let picked = choose_sources(&plan, &chosen, &rows).unwrap();
    assert_eq!(picked, [0, 1]);
    let missing = plan_sources(&state, &vec![entry_ref(9)]).unwrap();
    let chosen = source_ids(&missing, &Vec::new());
    assert_eq!(chosen, [9]);
    assert!(choose_sources(&missing, &chosen, &rows).is_err());
    let none = plan_sources(&Json::object(), &Vec::new()).unwrap();
    let chosen = source_ids(&none, &Vec::new());
    assert!(chosen.is_empty());
    assert!(choose_sources(&none, &chosen, &Vec::new()).unwrap().is_empty());
}

#[test]
fn repeated_writes_are_kept() {
    let write = prepared("Notes/a.md", "text");
    let made = decide_upsert(&write, &None, 11).unwrap();
    assert_eq!(
        made,
        UpsertAction::Append {
            entry_id: 11,
            version: 1,
            operation: WriteOperation::Create
        }
    );
    let result = upsert_result(made, &None, 12, Some(5));
    assert_eq!((result.entry_id, result.version), (11, 1));
    assert_eq!(result.version_id, Some(12));
    assert!(!result.no_op);
    let mut stale = prepared("Notes/a.md", "text");
    stale.expected_version = Some(0);
    let row = Some(existing(11, 1, "text"));
    assert_eq!(decide_upsert(&write, &row, 13).unwrap(), UpsertAction::Keep);
    assert_eq!(decide_upsert(&stale, &row, 13).unwrap(), UpsertAction::Keep);
}

#[test]
fn forced_writes_make_versions() {
    let row = Some(existing(11, 1, "text"));
    let mut write = prepared("Notes/a.md", "text");
    write.metadata = Json::object().with("kind", Json::text("briefing_edition"));
    assert_eq!(decide_upsert(&write, &row, 13).unwrap(), UpsertAction::Keep);
    write.force_new_version = true;
    assert_eq!(
        decide_upsert(&write, &row, 13).unwrap(),
        UpsertAction::Append {
            entry_id: 11,
            version: 2,
            operation: WriteOperation::Update
        }
    );
}

#[test]
fn versions_follow_the_expected_one() {
    let row = Some(existing(11, 4, "old"));
    let mut write = prepared("Notes/a.md", "new");
    write.expected_version = Some(4);
    assert_eq!(
        decide_upsert(&write, &row, 13).unwrap(),
        UpsertAction::Append {
            entry_id: 11,
            version: 5,
            operation: WriteOperation::Update
        }
    );
    write.expected_version = Some(3);
    assert!(matches!(
        decide_upsert(&write, &row, 13),
        Err(ApiError::Conflict { code, .. }) if code == "entry_version_conflict"
    ));
}

#[test]
fn checkpoints_never_change() {
    let path = checkpoint_path(11);
    let row = Some(existing(11, 1, "kept"));
    assert_eq!(
        decide_upsert(&prepared(&path, "kept"), &row, 13).unwrap(),
        UpsertAction::Keep
    );
    assert!(matches!(
        decide_upsert(&prepared(&path, "changed"), &row, 13),
        Err(ApiError::Conflict { .. })
    ));
}

#[test]
fn exact_history_makes_its_target() {
    let mut write = prepared("Notes/a.md", "text");
    write.tier_a_history_stage = Some(TierAHistoryStage {
        target_lineage_ordinal: 2,
        semantics: TierAHistorySemantics::PreserveIntentionalExactBytesVersion,
    });
    write.force_new_version = true;
    write.expected_version = Some(1);
    assert_eq!(
        decide_upsert(&write, &Some(existing(11, 1, "text")), 13).unwrap(),
        UpsertAction::Append {
            entry_id: 11,
            version: 2,
            operation: WriteOperation::Update
        }
    );
}

#[test]
fn managed_entries_are_not_deleted() {
    let entry = |path: &str, deleted: bool| DeletableEntry {
        path: path.to_owned(),
        kind: "markdown".to_owned(),
        current_version: 2,
        deleted,
        metadata: Json::object(),
    };
    assert!(decide_delete(1, &entry(".brunn/dreams/a.md", false), None).is_err());
    assert!(matches!(
        decide_delete(1, &entry("Notes/a.md", false), Some(2)).unwrap(),
        DeleteAction::Remove { companion_path: None }
    ));
    assert!(decide_delete(1, &entry("Notes/a.md", false), Some(1)).is_err());
    assert!(matches!(
        decide_delete(1, &entry("Notes/a.md", true), None).unwrap(),
        DeleteAction::Keep
    ));
}

#[test]
fn matches_quote_the_source() {
    let content = "first\ncaf\u{e9} MARKER-7 here\nlast MARKER-7\n";
    let found = extract_verbatim_matches(content, &vec!["MARKER-7".to_owned()], 3, "abc");
    assert_eq!(found.len(), 2);
    for quoted in &found {
        assert_eq!(
            &content[quoted.byte_start..quoted.byte_end],
            quoted.text.as_str()
        );
    }
    assert_eq!(found[0].line_no, 2);
    let mut shown = candidate(1, points(1.0));
    shown.verbatim_matches = found;
    let mut remaining = 25;
    let rendered = render_verbatim_matches(&shown, &mut remaining);
    assert_eq!(rendered.len(), 2);
    assert_eq!(remaining, 0);
}

fn import_marker() -> Json {
    Json::object().with("format", Json::text("brunn-workspace-import-manifest@v1"))
}

#[test]
fn managed_paths_are_only_restored() {
    let write = |path: &str, imported: bool, expected: Option<i64>| {
        let metadata = Json::object().with("kind", Json::text("checkpoint"));
        WriteRequest {
            path: path.to_owned(),
            content: "text".to_owned(),
            media_type: "text/markdown".to_owned(),
            expected_version: expected,
            idempotency_key: None,
            metadata: if imported {
                metadata.with("_brunn_import", import_marker())
            } else {
                metadata
            },
        }
    };
    let refused = |request: &WriteRequest| {
        validate_write_path(request, Ok(false), &ConversationCheck::NotAsked).is_err()
    };
    let path = checkpoint_path(4);
    assert!(refused(&write(&path, false, Some(0))));
    assert!(refused(&write(&path, true, None)));
    assert!(refused(&write(".brunn/dreams/a.md", true, Some(0))));
    assert!(!refused(&write(&path, true, Some(0))));
    assert!(!refused(&write("Notes/a.md", false, None)));
}
