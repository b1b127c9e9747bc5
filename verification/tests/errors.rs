//! What is refused, and with which words.
use std::fmt::Debug;

use simple_core::auth::{AuthContext, Capability};
use simple_core::binary::{
    check_stored, complete_form, field_limit, prepare_portable_binary_companion, read_small_field,
    put_field, UploadForm,
};
use simple_core::candidate::SearchSort;
use simple_core::checkpoint::{
    check_checkpoint_parent, checkpoint_idempotency_conflict, checkpoint_parent_lookup,
    replay_checkpoint_receipt, validate_checkpoint_request, KeptReceipt,
};
use simple_core::deltas::{check_pair_count, resume_pair, verify_resume_content_hash, PairRow};
use simple_core::error::ApiError;
use simple_core::evaluation::{
    check_batch_order, check_evaluation_enabled, check_publish_lock, evaluation_batch, import_user,
    seed_metadata, validate_eval_import,
};
use simple_core::files::{
    binary_object_key, check_binary_kind, check_is_binary, check_stored_size, check_stream_stored,
    stream_chunk, stream_end, stream_plan, stream_query, stream_start, ExistingBinary, UploadPermission,
};
use simple_core::history::{
    parse_tier_a_history_stage, tier_a_exact_history_action, validate_tier_a_history_request,
    TierAHistorySemantics, TierAHistoryStage,
};
use simple_core::json::Json;
use simple_core::lanes::{lane_timeout, retrieval_lane_selection};
use simple_core::listing::{jobs_page, manifest_plan, usage_page, UsageSort};
use simple_core::open::{hint_lookup, open_budget, open_generation, requested_hints};
use simple_core::outside::{entry_ref, sha256_hex};
use simple_core::paths::checkpoint_ref;
use simple_core::read::{
    check_read_count, entry_lookup, entry_not_found, link_choice, read_source, render_read,
    summary_lookup, summary_not_found, EntryRow,
};
use simple_core::receipts::{
    adopted_receipt, checkpoint_made, read_checkpoint, Adoption, LegacyCheckpoint,
};
use simple_core::requests::{
    CheckpointRequest, EvalDocument, EvalImportRequest, JobsQuery, ManifestQuery, OpenHints,
    OpenRequest, ReadItem, SearchQuery, SearchRequest, StreamingBinaryQuery, UsageQuery,
    WriteRequest,
};
use simple_core::resume::CheckpointSource;
use simple_core::search::{check_query, search_queries};
use simple_core::sources::plan_sources;
use simple_core::upsert::{decide_upsert, delete_target, ExistingEntry, MarkdownUpsertResult};
use simple_core::write::{
    check_imported_parent, imported_checkpoint_parent, imported_parent, prepare_markdown,
    prepare_task_markdown_for_update, ConversationCheck, DocumentFacts, PreparedMarkdown,
};

fn owned(text: &str) -> Option<String> {
    Some(text.to_owned())
}

/// What a refusal says of itself: its words, or its code.
fn told<T: Debug>(result: Result<T, ApiError>) -> String {
    match result.unwrap_err() {
        ApiError::Invalid { message }
        | ApiError::Internal { message }
        | ApiError::Configuration { message } => message,
        ApiError::Conflict { code, .. } => code,
        ApiError::NotFound { code, reference } => format!("{code} {reference}"),
        ApiError::Public { status, code, .. } => format!("{status} {code}"),
        ApiError::Capability { capability } => format!("{capability:?}"),
    }
}

const UNSAFE_PATH: &str = "path must be a safe relative workspace path";
const RESERVED: &str = "the .brunn namespace is reserved for workspace-managed entries";
const BAD_DIGEST: &str = "expected_content_hash must be a SHA-256 value";

#[test]
fn upload_fields_are_checked() {
    assert_eq!(told(field_limit("color")), "unsupported binary upload field color");
    assert_eq!(
        told(read_small_field("path", &vec![b'a'; 9], 8)),
        "413 binary_metadata_too_large"
    );
    assert_eq!(
        told(read_small_field("path", &vec![0xc3, 0x28], 8)),
        "path must be UTF-8"
    );
    let bytes = "\u{e9}tude".as_bytes().to_vec();
    assert_eq!(read_small_field("path", &bytes, 6).unwrap(), "\u{e9}tude");
    let put = |name: &str, value: &str| put_field(UploadForm::empty(), name, value.to_owned());
    assert_eq!(told(put("mtime_ns", "soon")), "mtime_ns must be an integer");
    assert_eq!(put("mtime_ns", "-5").unwrap().mtime_ns, Some(-5));
    assert_eq!(told(put("mode", "rw")), "mode must be an integer");
    assert_eq!(
        told(put("mode", "512")),
        "mode may contain only portable permission bits"
    );
    assert_eq!(put("mode", "511").unwrap().mode, Some(511));
    assert_eq!(
        told(put("expected_version", "one")),
        "expected_version must be an integer"
    );
    assert_eq!(
        told(put("portable_companion_mtime_ns", "x")),
        "portable_companion_mtime_ns must be an integer"
    );
    assert_eq!(
        told(put("portable_companion_mode", "x")),
        "portable_companion_mode must be an integer"
    );
    assert_eq!(told(put("color", "x")), "unsupported binary upload field color");
    let once = UploadForm::empty().with_file(None).unwrap();
    assert_eq!(
        told(once.with_file(None)),
        "workspace binary upload accepts exactly one file"
    );
}

#[test]
fn upload_forms_are_checked() {
    let form = |path: Option<&str>, hash: Option<&str>, file: bool| UploadForm {
        path: path.map(str::to_owned),
        expected_content_hash: hash.map(str::to_owned),
        has_file: file,
        ..UploadForm::empty()
    };
    let hash = "A".repeat(64);
    assert_eq!(
        told(complete_form(&form(None, Some(&hash), true), false)),
        "binary path is required"
    );
    assert_eq!(
        told(complete_form(&form(Some("../a"), Some(&hash), true), false)),
        UNSAFE_PATH
    );
    assert_eq!(
        told(complete_form(&form(Some(".brunn/a"), Some(&hash), true), false)),
        RESERVED
    );
    assert_eq!(
        told(complete_form(&form(Some("a.png"), None, true), false)),
        "expected_content_hash is required"
    );
    assert_eq!(
        told(complete_form(&form(Some("a.png"), Some("x"), true), false)),
        BAD_DIGEST
    );
    assert_eq!(
        told(complete_form(&form(Some("a.png"), Some(&hash), false), false)),
        "binary file is required"
    );
    let plan = complete_form(&form(Some("a.png"), Some(&hash), true), false).unwrap();
    assert_eq!(plan.expected_sha256, "a".repeat(64));
    assert_eq!(plan.media_type, "image/png");
    assert!(plan.companion.is_none());
    assert_eq!(
        told(check_stored("a.png", &"b".repeat(64), &"a".repeat(64))),
        "content_hash_mismatch"
    );
    assert!(check_stored("a.png", &format!("sha256:{}", "a".repeat(64)), &"a".repeat(64)).is_ok());
}

#[test]
fn exact_descriptions_are_checked() {
    let digest = sha256_hex("text");
    let prepare = |evaluation: bool,
                   text: Option<&str>,
                   format: Option<&str>,
                   path: Option<&str>,
                   sha: Option<&str>,
                   mode: Option<u32>| {
        prepare_portable_binary_companion(
            evaluation,
            "Scans/a.png",
            &text.map(str::to_owned),
            &format.map(str::to_owned),
            &path.map(str::to_owned),
            &sha.map(str::to_owned),
            None,
            mode,
        )
    };
    assert!(prepare(false, Some("text"), None, None, None, None)
        .unwrap()
        .is_none());
    assert_eq!(
        told(prepare(false, Some("text"), Some("x"), None, None, None)),
        "exact portable binary companions require an evaluation-only stack"
    );
    assert_eq!(
        told(prepare(true, Some("text"), Some("x"), None, None, None)),
        "portable_companion_format is missing or unsupported"
    );
    assert_eq!(
        told(prepare(true, Some("text"), None, Some("a.md"), None, None)),
        "portable_companion_format is missing or unsupported"
    );
    let format = Some("brunn-tier-a-portable-companion@v1");
    assert!(
        prepare(true, Some("text"), format, Some("a.md"), Some(&digest), None)
            .unwrap()
            .is_some()
    );
    assert_eq!(
        told(prepare(true, Some("text"), format, None, Some(&digest), None)),
        "portable_companion_path is required"
    );
    assert_eq!(
        told(prepare(
            true,
            Some("text"),
            format,
            Some("scans/A.png"),
            Some(&digest),
            None
        )),
        "portable binary and companion paths must be different"
    );
    assert_eq!(
        told(prepare(true, None, format, Some("a.md"), Some(&digest), None)),
        "exact portable companion content is required"
    );
    assert_eq!(
        told(prepare(true, Some("text"), format, Some("a.md"), None, None)),
        "portable_companion_sha256 is required"
    );
    assert_eq!(
        told(prepare(
            true,
            Some("other"),
            format,
            Some("a.md"),
            Some(&digest),
            None
        )),
        "portable_companion_hash_mismatch"
    );
    assert_eq!(
        told(prepare(
            true,
            Some("text"),
            format,
            Some("a.md"),
            Some(&digest),
            Some(512)
        )),
        "portable_companion_mode may contain only portable permission bits"
    );
}

fn stream(path: &str, hash: &str) -> StreamingBinaryQuery {
    StreamingBinaryQuery {
        path: path.to_owned(),
        media_type: None,
        expected_content_hash: hash.to_owned(),
        mtime_ns: None,
        mode: None,
        provenance: None,
        expected_version: None,
    }
}

#[test]
fn streams_are_checked() {
    let auth = |capabilities: Vec<Capability>| AuthContext {
        credential_id: 1,
        user_id: 2,
        capabilities,
    };
    let hash = "a".repeat(64);
    assert_eq!(
        told(stream_query(&auth(vec![]), &None, stream("a", &hash), &None)),
        "Stage"
    );
    let permission = Some(UploadPermission {
        path: "granted.png".to_owned(),
        media_type: "image/png".to_owned(),
        sha256: None,
        expected_version: Some(3),
        size_bytes: 5,
        entry_id: 1,
        version_id: 2,
    });
    assert_eq!(
        told(stream_query(
            &auth(vec![]),
            &permission,
            stream("a", &hash),
            &owned("image/gif")
        )),
        "Content-Type must match the upload permission"
    );
    let granted = stream_query(
        &auth(vec![]),
        &permission,
        stream("a", &hash),
        &owned("image/png"),
    )
    .unwrap();
    assert_eq!(granted.path, "granted.png");
    assert_eq!(granted.expected_version, Some(3));
    assert_eq!(told(stream_plan(false, &stream("/a", &hash))), UNSAFE_PATH);
    assert_eq!(told(stream_plan(false, &stream(".brunn/a", &hash))), RESERVED);
    assert_eq!(told(stream_plan(false, &stream("a.png", ""))), BAD_DIGEST);
    assert_eq!(
        stream_plan(true, &stream("a.png", "")).unwrap(),
        ("image/png".to_owned(), None)
    );
    let long = StreamingBinaryQuery {
        media_type: Some("x".repeat(256)),
        ..stream("a.png", &hash)
    };
    assert_eq!(
        told(stream_plan(false, &long)),
        "media_type is limited to 255 characters"
    );
    let mode = StreamingBinaryQuery {
        mode: Some(512),
        ..stream("a.png", &hash)
    };
    assert_eq!(
        told(stream_plan(false, &mode)),
        "mode may contain only portable permission bits"
    );
    let mut digest = stream_start();
    assert_eq!(
        told(stream_chunk(u64::MAX, b"x", None, &mut digest)),
        "binary upload size overflow"
    );
    assert_eq!(
        told(stream_chunk(4_294_967_296, b"x", None, &mut digest)),
        "413 binary_too_large"
    );
    assert_eq!(
        told(stream_chunk(4, b"xy", Some(5), &mut digest)),
        "uploaded size does not match size_bytes"
    );
    let filled = || {
        let mut digest = stream_start();
        let size = stream_chunk(0, b"hel", Some(5), &mut digest).unwrap();
        let size = stream_chunk(size, b"lo", Some(5), &mut digest).unwrap();
        (size, digest)
    };
    assert_eq!(
        told(stream_end(Some(5), 4, &None, filled().1)),
        "uploaded size does not match size_bytes"
    );
    assert_eq!(
        told(stream_end(Some(5), filled().0, &Some(hash.clone()), filled().1)),
        "uploaded SHA-256 does not match sha256"
    );
    assert!(stream_end(Some(5), filled().0, &Some(sha256_hex("hello")), filled().1).is_ok());
    assert_eq!(
        told(check_stream_stored("a", &hash, &Some("b".repeat(64)))),
        "content_hash_mismatch"
    );
    assert!(check_stream_stored("a", &hash, &None).is_ok());
}

fn entry(kind: &str) -> EntryRow {
    EntryRow {
        id: 5,
        path: "Notes/a.md".to_owned(),
        title: "a".to_owned(),
        kind: kind.to_owned(),
        media_type: "text/markdown".to_owned(),
        version: 1,
        content_sha256: sha256_hex("text"),
        content: owned("text"),
        object_key: None,
        object_version_id: None,
        size_bytes: 4,
        metadata: Json::object(),
        updated_at: 0,
        workspace_generation: None,
    }
}

#[test]
fn stored_files_are_checked() {
    let stored = |kind: &str| {
        Some(ExistingBinary {
            id: 1,
            kind: kind.to_owned(),
            media_type: "image/png".to_owned(),
            current_version: 1,
            deleted: false,
            content_sha256: "a".repeat(64),
            metadata: Json::object(),
        })
    };
    assert_eq!(
        told(check_binary_kind("a.png", &stored("markdown"))),
        "entry_kind_conflict"
    );
    assert!(check_binary_kind("a.png", &stored("binary")).is_ok());
    assert!(check_binary_kind("a.png", &None).is_ok());
    assert_eq!(
        told(check_is_binary(&entry("markdown"))),
        "the requested entry is not binary"
    );
    assert_eq!(
        told(binary_object_key(&entry("binary"))),
        "binary entry has no object key"
    );
    assert_eq!(
        told(check_stored_size(&entry("binary"), Some(3))),
        "content_size_mismatch"
    );
    assert_eq!(
        told(check_stored_size(&entry("binary"), None)),
        "content_size_mismatch"
    );
    assert!(check_stored_size(&entry("binary"), Some(4)).is_ok());
}

fn checkpoint(session: &str) -> CheckpointRequest {
    CheckpointRequest {
        session_id: session.to_owned(),
        parent_checkpoint_id: None,
        state: Json::object(),
        source_refs: Vec::new(),
        idempotency_key: None,
    }
}

#[test]
fn checkpoint_requests_are_checked() {
    let check = |request: &CheckpointRequest| {
        validate_checkpoint_request(request, Ok(()), Ok("{}".to_owned()))
    };
    assert!(check(&checkpoint("session")).is_ok());
    assert_eq!(
        told(check(&checkpoint(""))),
        "checkpoint session_id must contain 1 to 256 printable characters"
    );
    let keyed = |key: &str| CheckpointRequest {
        idempotency_key: owned(key),
        ..checkpoint("session")
    };
    assert_eq!(
        told(check(&keyed(""))),
        "idempotency_key must contain 1 to 256 printable characters"
    );
    assert_eq!(
        told(check(&keyed("implicit:550e8400-e29b-71d4-a716-446655440000"))),
        "checkpoint idempotency keys matching implicit:<uuid> are reserved"
    );
    let state = |state: Json| CheckpointRequest {
        state,
        ..checkpoint("session")
    };
    assert_eq!(
        told(check(&state(Json::Null))),
        "checkpoint state must be an object"
    );
    assert_eq!(
        told(check(&state(Json::object().with("project", Json::integer(1))))),
        "checkpoint state.project must be a string"
    );
    let sources = |refs: Vec<String>| CheckpointRequest {
        source_refs: refs,
        ..checkpoint("session")
    };
    assert_eq!(
        told(check(&sources(vec!["a".to_owned(); 65]))),
        "checkpoint source_refs are limited to 64 exact references"
    );
    assert_eq!(
        told(check(&sources(vec![String::new()]))),
        "checkpoint source_refs must contain 1 to 4096 printable characters"
    );
    let parent = CheckpointRequest {
        parent_checkpoint_id: owned("\n"),
        ..checkpoint("session")
    };
    assert_eq!(
        told(check(&parent)),
        "checkpoint parent_checkpoint_id must contain 1 to 256 printable characters"
    );
    assert_eq!(
        told(validate_checkpoint_request(
            &checkpoint("session"),
            Ok(()),
            Err(ApiError::internal("canonical form"))
        )),
        "canonical form"
    );
}

#[test]
fn repeated_checkpoints_are_replayed_or_refused() {
    let kept = |hash: &str| {
        Some(KeptReceipt {
            request_hash: hash.to_owned(),
            receipt: Json::object().with("kept", Json::Bool(true)),
        })
    };
    let replayed = replay_checkpoint_receipt(kept("same"), "key", "same").unwrap();
    assert!(replayed.unwrap().get("kept").is_some());
    assert_eq!(
        told(replay_checkpoint_receipt(kept("other"), "key", "same")),
        "idempotency_conflict"
    );
    assert!(replay_checkpoint_receipt(None, "key", "same").unwrap().is_none());
    assert!(matches!(
        checkpoint_idempotency_conflict("key"),
        ApiError::Conflict { .. }
    ));
}

#[test]
fn checkpoint_parents_are_checked() {
    assert_eq!(
        told(checkpoint_parent_lookup("Notes/a.md")),
        "parent_checkpoint_id must be a checkpoint or entry ref"
    );
    assert!(checkpoint_parent_lookup(&checkpoint_ref(5)).is_ok());
    assert_eq!(
        told(check_checkpoint_parent("checkpoint:x", None)),
        "entry_not_found checkpoint:x"
    );
    assert_eq!(
        told(check_checkpoint_parent("checkpoint:x", Some(&Json::object()))),
        "parent_checkpoint_id does not identify a checkpoint entry"
    );
    let kind = Json::object().with("kind", Json::text("checkpoint"));
    assert!(check_checkpoint_parent("checkpoint:x", Some(&kind)).is_ok());
}

#[test]
fn lineages_are_checked() {
    let source = CheckpointSource {
        entry_id: 5,
        path: "Notes/a.md".to_owned(),
        pinned_version: 1,
        pinned_sha256: sha256_hex("before"),
    };
    let line = |before: Option<String>, pinned: Option<String>| PairRow {
        path: owned("Notes/a.md"),
        current_version: Some(2),
        pinned_sha256: pinned,
        before,
        current_sha256: Some(sha256_hex("after")),
        after: owned("after"),
    };
    let lineage = "checkpoint_lineage_error";
    assert!(resume_pair(&source, line(owned("before"), Some(sha256_hex("before")))).is_ok());
    assert_eq!(
        told(resume_pair(&source, line(owned("changed"), Some(sha256_hex("before"))))),
        lineage
    );
    assert_eq!(told(resume_pair(&source, line(owned("before"), None))), lineage);
    assert_eq!(
        told(resume_pair(&source, line(owned("before"), Some("c".repeat(64))))),
        lineage
    );
    assert_eq!(told(check_pair_count(2, 1)), lineage);
    assert!(check_pair_count(2, 2).is_ok());
    assert_eq!(
        told(verify_resume_content_hash(&source, 1, &sha256_hex("x"), "y")),
        lineage
    );
}

fn evaluation() -> EvalImportRequest {
    EvalImportRequest {
        schema: "brunn-eval-import@v1".to_owned(),
        run_id: "run".to_owned(),
        case_id: "case".to_owned(),
        authorization_scope: "scope".to_owned(),
        display_scope: "scope".to_owned(),
        access_mode: "read_only".to_owned(),
        documents: vec![document("Notes/a.md", "text")],
        delta_documents: Vec::new(),
        seed_checkpoint: None,
        idempotency_key: "key".to_owned(),
        batch_index: None,
        batch_count: None,
    }
}

fn document(path: &str, content: &str) -> EvalDocument {
    EvalDocument {
        path: path.to_owned(),
        content: content.to_owned(),
        content_sha256: sha256_hex(content),
        media_type: "text/markdown".to_owned(),
    }
}

#[test]
fn evaluation_imports_are_checked() {
    assert!(validate_eval_import(&evaluation()).is_ok());
    let mut other = evaluation();
    other.schema = "v0".to_owned();
    assert_eq!(
        told(validate_eval_import(&other)),
        "evaluation import schema must be brunn-eval-import@v1"
    );
    let mut other = evaluation();
    other.access_mode = "root".to_owned();
    assert_eq!(
        told(validate_eval_import(&other)),
        "access_mode must be read_only or read_write"
    );
    let mut other = evaluation();
    other.documents.clear();
    assert_eq!(
        told(validate_eval_import(&other)),
        "evaluation import requires at least one document"
    );
    let mut other = evaluation();
    other.documents[0].path = "/a".to_owned();
    assert_eq!(told(validate_eval_import(&other)), UNSAFE_PATH);
    let mut other = evaluation();
    other.documents[0].content_sha256 = "a".repeat(64);
    assert_eq!(
        told(validate_eval_import(&other)),
        "content_sha256 does not match Notes/a.md"
    );
    let mut other = evaluation();
    other.batch_index = Some(2);
    other.batch_count = Some(2);
    assert_eq!(
        told(evaluation_batch(&other)),
        "evaluation batch_index must be less than a positive batch_count"
    );
    other.batch_count = None;
    assert_eq!(
        told(evaluation_batch(&other)),
        "evaluation batch_index and batch_count must be provided together"
    );
    other.batch_index = Some(0);
    other.batch_count = Some(2);
    other.delta_documents = vec![document("Notes/b.md", "text")];
    assert_eq!(
        told(validate_eval_import(&other)),
        "evaluation deltas and seed checkpoints belong only in the final batch"
    );
    assert_eq!(
        told(check_batch_order(&evaluation(), None, true)),
        "eval_token_unavailable_on_replay"
    );
    assert_eq!(
        told(check_batch_order(&evaluation(), Some((0, 2)), true)),
        "eval_token_unavailable_on_replay"
    );
    assert_eq!(
        told(check_batch_order(&evaluation(), Some((1, 2)), false)),
        "eval_batch_out_of_order"
    );
    assert!(check_batch_order(&evaluation(), Some((1, 2)), true).is_ok());
    assert_eq!(
        told(check_evaluation_enabled(false)),
        "route_not_found /v1/workspace/admin/eval/import"
    );
    assert!(check_evaluation_enabled(true).is_ok());
    assert_eq!(
        told(seed_metadata(1, 2, &vec!["a.md".to_owned()], Vec::new())),
        "every seed checkpoint source_ref must identify a base document"
    );
    assert_eq!(told(check_publish_lock(false)), "entry_busy");
    assert!(check_publish_lock(true).is_ok());
}

#[test]
fn evaluations_belong_to_their_user() {
    let caller = AuthContext {
        credential_id: 1,
        user_id: 7,
        capabilities: Vec::new(),
    };
    let id = |user: u128| {
        format!(
            "simple-import:{}",
            entry_ref(user).trim_start_matches("entry:")
        )
    };
    assert_eq!(import_user(&caller, &id(7), "no").unwrap(), 7);
    assert_eq!(
        told(import_user(&caller, &id(8), "no")),
        "403 evaluation_scope_mismatch"
    );
    assert_eq!(
        told(import_user(&caller, "simple-import:x", "no")),
        "invalid simple evaluation import ID"
    );
}

#[test]
fn histories_are_checked() {
    let stage = |format: &str, target: Json, semantics: &str| {
        Json::object().with(
            "_brunn_tier_a_history",
            Json::object()
                .with("format", Json::text(format))
                .with("target_lineage_ordinal", target)
                .with("semantics", Json::text(semantics)),
        )
    };
    let format = "brunn-tier-a-history-stage@v1";
    let exact = "preserve_intentional_exact_bytes_version";
    let ordinary = "ordinary_content_transition";
    assert_eq!(
        told(parse_tier_a_history_stage(&stage("v0", Json::integer(1), exact))),
        "Tier-A history stage metadata has a missing or unsupported format"
    );
    assert_eq!(
        told(parse_tier_a_history_stage(&stage(format, Json::integer(0), exact))),
        "Tier-A history stage target ordinal must be positive"
    );
    assert_eq!(
        told(parse_tier_a_history_stage(&stage(format, Json::integer(1), "x"))),
        "Tier-A history stage semantics are missing or unsupported"
    );
    assert_eq!(
        told(parse_tier_a_history_stage(&stage(format, Json::integer(1), exact))),
        "an intentional exact-byte history version must target ordinal 2 or later"
    );
    let import = |metadata: Json| {
        metadata.with(
            "_brunn_import",
            Json::object().with("format", Json::text("brunn-workspace-import-manifest@v1")),
        )
    };
    assert_eq!(
        told(validate_tier_a_history_request(
            "a.md",
            &stage(format, Json::integer(2), ordinary),
            Some(1),
            true
        )),
        "Tier-A history replay requires workspace import metadata"
    );
    let two = import(stage(format, Json::integer(2), ordinary));
    assert_eq!(
        told(validate_tier_a_history_request("a.md", &two, None, true)),
        "Tier-A history replay requires expected_version"
    );
    assert_eq!(
        told(validate_tier_a_history_request("a.md", &two, Some(4), true)),
        "tier_a_history_ordinal_mismatch"
    );
    let kept = import(stage(format, Json::integer(2), exact));
    assert_eq!(
        told(validate_tier_a_history_request("a.md", &kept, Some(1), false)),
        "intentional exact-byte history preservation requires an evaluation-only stack"
    );
    assert_eq!(
        told(validate_tier_a_history_request(
            ".brunn/a.md",
            &kept,
            Some(1),
            true
        )),
        "intentional exact-byte history preservation is not supported for managed paths"
    );
    let step = Some(TierAHistoryStage {
        target_lineage_ordinal: 3,
        semantics: TierAHistorySemantics::PreserveIntentionalExactBytesVersion,
    });
    let act = |version: Option<i64>, matches: bool| {
        tier_a_exact_history_action(step, version, matches, false, Some(&kept), &kept)
    };
    assert_eq!(told(act(None, true)), "tier_a_history_gap");
    assert_eq!(told(act(Some(1), true)), "tier_a_history_gap");
    assert_eq!(told(act(Some(4), true)), "tier_a_history_ahead");
    assert_eq!(
        told(act(Some(2), false)),
        "tier_a_exact_history_identity_mismatch"
    );
}

#[test]
fn listings_are_checked() {
    let jobs = |status: &str| JobsQuery {
        status: owned(status),
        limit: None,
        offset: None,
    };
    assert_eq!(told(jobs_page(&jobs("lost"))), "unsupported job status");
    assert!(jobs_page(&jobs("failed")).is_ok());
    let manifest = |path: Option<&str>,
                    reference: Option<String>,
                    version: Option<i64>,
                    offset: Option<usize>,
                    history: bool| {
        manifest_plan(&ManifestQuery {
            limit: None,
            offset,
            after_path: path.map(str::to_owned),
            after_entry_ref: reference,
            after_version: version,
            history,
        })
    };
    assert_eq!(
        told(manifest(Some("a.md"), Some(entry_ref(1)), None, Some(5), false)),
        "manifest cursor and offset cannot be used together"
    );
    assert_eq!(
        told(manifest(Some("a.md"), None, None, None, false)),
        "after_path and after_entry_ref must be provided together"
    );
    assert_eq!(
        told(manifest(Some("a.md"), owned("a"), None, None, false)),
        "after_entry_ref must be an entry:<uuid>"
    );
    assert_eq!(
        told(manifest(Some("a.md"), Some(entry_ref(1)), None, None, true)),
        "history cursors require after_path, after_entry_ref, and after_version"
    );
    assert_eq!(
        told(manifest(Some("a.md"), Some(entry_ref(1)), Some(0), None, true)),
        "after_version must be positive"
    );
    assert_eq!(
        told(manifest(Some("a.md"), Some(entry_ref(1)), Some(1), None, false)),
        "after_version is only valid for history manifests"
    );
    let plan = manifest(Some("a.md"), Some(entry_ref(1)), Some(2), None, true).unwrap();
    let cursor = plan.cursor.unwrap();
    assert_eq!((cursor.entry_id, cursor.version), (1, Some(2)));
    assert_eq!(cursor.path, "a.md");
    let usage = |sort: Option<&str>| {
        usage_page(&UsageQuery {
            sort: sort.map(str::to_owned),
            limit: None,
            offset: None,
        })
    };
    assert_eq!(
        told(usage(Some("random"))),
        "usage sort must be most_used, least_used, least_recently_used, or most_recently_used"
    );
    assert_eq!(usage(Some("least_used")).unwrap().0, UsageSort::LeastUsed);
}

#[test]
fn searches_are_checked() {
    let query = |text: &str| SearchQuery {
        id: None,
        query: text.to_owned(),
        goal: None,
        limit: None,
        sort: None,
        modes: Vec::new(),
    };
    let request = |queries: Vec<SearchQuery>, single: Option<&str>| SearchRequest {
        session_id: None,
        queries,
        query: single.map(str::to_owned),
        limit: None,
        token_budget: None,
    };
    assert_eq!(told(search_queries(request(vec![], None))), "query is required");
    assert_eq!(
        told(search_queries(request(vec![query("a"); 17], None))),
        "at most 16 queries may be batched"
    );
    assert_eq!(
        told(search_queries(request(vec![query(" ")], None))),
        "search query is required"
    );
    assert_eq!(
        search_queries(request(vec![], Some("alone"))).unwrap()[0].query,
        "alone"
    );
    assert_eq!(
        told(check_query("a", &vec!["psychic".to_owned()], &None)),
        "search modes must be exact, lexical, or semantic"
    );
    assert_eq!(
        told(check_query("a", &Vec::new(), &owned("random"))),
        "search sort must be best_match, last_modified, or title"
    );
    assert_eq!(
        told(SearchSort::parse(&owned("random"))),
        "search sort must be best_match, last_modified, or title"
    );
    assert_eq!(
        told(retrieval_lane_selection(&vec!["Exact".to_owned()])),
        "search modes must be exact, lexical, or semantic"
    );
    assert!(matches!(
        lane_timeout("exact"),
        ApiError::Public { status: 503, code, .. } if code == "retrieval_lane_timeout"
    ));
}

#[test]
fn opening_is_checked() {
    let open = |task: &str| OpenRequest {
        task: task.to_owned(),
        hints: OpenHints {
            authorization_scope: None,
            root_refs: Vec::new(),
            open_object_refs: Vec::new(),
        },
        resume_checkpoint_ref: None,
        token_budget: None,
        modes: Vec::new(),
    };
    assert_eq!(told(open_budget(&open(" "))), "task is required");
    assert_eq!(open_budget(&open("work")).unwrap(), 12_000);
    assert_eq!(
        told(open_generation(None, None)),
        "read-path hydration did not return workspace generation"
    );
    assert_eq!(open_generation(Some(4), None).unwrap(), 4);
    let hints = |root_refs: Vec<String>, open_object_refs: Vec<String>| OpenHints {
        authorization_scope: None,
        root_refs,
        open_object_refs,
    };
    let many = (0..33).map(|index| format!("{index}.md")).collect();
    assert_eq!(
        told(requested_hints(&hints(many, Vec::new()))),
        "open hints are limited to 32 exact paths or entry references"
    );
    assert_eq!(
        told(hint_lookup("/absolute")),
        "open hints must be exact paths, entry refs, or checkpoint refs"
    );
}

#[test]
fn reads_are_checked() {
    assert_eq!(
        told(entry_lookup(&owned("a.md"), &None, Some(0))),
        "entry version must be positive"
    );
    assert_eq!(
        told(entry_lookup(&None, &None, None)),
        "read requires an exact path or entry ref"
    );
    assert!(matches!(
        entry_not_found(&owned("a.md"), &None),
        ApiError::NotFound { code, reference } if code == "entry_not_found" && reference == "a.md"
    ));
    assert_eq!(
        told(summary_lookup(&None, &owned("x"))),
        "checkpoint sources require an exact path or entry ref"
    );
    assert!(matches!(
        summary_not_found(&None, &owned("entry:x")),
        ApiError::NotFound { reference, .. } if reference == "entry:x"
    ));
    assert_eq!(told(link_choice(0, "a")), "entry_link_not_found a");
    assert_eq!(told(link_choice(2, "a")), "409 entry_link_ambiguous");
    assert!(link_choice(1, "a").is_ok());
    let item = |path: Option<&str>, link: Option<&str>, view: &str| ReadItem {
        reference: None,
        path: path.map(str::to_owned),
        link_target: link.map(str::to_owned),
        view: owned(view),
        start: None,
        end: None,
        max_chars: None,
        version: None,
    };
    assert_eq!(
        told(read_source(&item(Some("a.md"), Some("a"), "full"))),
        "a link-target read cannot also specify a path, reference, or version"
    );
    assert_eq!(
        told(render_read(&entry("markdown"), &item(Some("a.md"), None, "x-ray"), 100)),
        "simple read does not support view x-ray"
    );
    assert_eq!(
        told(check_read_count(0)),
        "read requires between 1 and 32 exact requests"
    );
    assert_eq!(
        told(check_read_count(33)),
        "read requires between 1 and 32 exact requests"
    );
    assert!(check_read_count(32).is_ok());
}

#[test]
fn receipts_are_checked() {
    let result = |version_id: Option<u128>| MarkdownUpsertResult {
        entry_id: 1,
        version: 1,
        version_id,
        generation: None,
        no_op: false,
        metadata_only: false,
    };
    assert_eq!(
        told(checkpoint_made(&result(Some(2)), None)),
        "checkpoint entry exists without a workspace change receipt"
    );
    assert_eq!(
        told(checkpoint_made(&result(None), Some(4))),
        "checkpoint write did not produce a version reference"
    );
    assert_eq!(checkpoint_made(&result(Some(2)), Some(4)).unwrap(), (2, 4));
    let legacy = LegacyCheckpoint {
        id: 5,
        path: "x".to_owned(),
        current_version: 1,
        version_id: 6,
        content_sha256: "a".repeat(64),
        metadata: Json::object(),
    };
    let adoption = Adoption {
        checkpoint_id: 5,
        pinned_generation: 3,
    };
    assert_eq!(
        told(adopted_receipt(&legacy, &adoption, None)),
        "legacy checkpoint is missing its workspace change"
    );
    assert!(adopted_receipt(&legacy, &adoption, Some(4)).is_ok());
    assert_eq!(
        told(read_checkpoint("checkpoint:x", &entry("markdown"))),
        "resume_checkpoint_ref does not identify a checkpoint entry"
    );
}

#[test]
fn sources_are_checked() {
    assert_eq!(
        told(plan_sources(&Json::object(), &vec!["entry:x".to_owned()])),
        "checkpoint sources require an exact path or entry ref"
    );
}

fn prepared(path: &str, kind_of_write: bool) -> PreparedMarkdown {
    PreparedMarkdown {
        entry_id_hint: None,
        path: path.to_owned(),
        title: "a".to_owned(),
        content: "text".to_owned(),
        content_sha256: sha256_hex("text"),
        media_type: "text/markdown".to_owned(),
        metadata: Json::object(),
        chunks: Vec::new(),
        embedded: Vec::new(),
        expected_version: None,
        tier_a_history_stage: None,
        force_new_version: kind_of_write,
    }
}

#[test]
fn writes_are_checked() {
    let existing = Some(ExistingEntry {
        id: 1,
        kind: "binary".to_owned(),
        current_version: 1,
        deleted: false,
        version_id: 2,
        content_sha256: "a".repeat(64),
        metadata: Json::object(),
    });
    assert_eq!(
        told(decide_upsert(&prepared("a.md", false), &existing, 3)),
        "entry_kind_conflict"
    );
    assert_eq!(
        told(delete_target("Notes/a.md")),
        "delete requires an entry:<uuid> reference"
    );
    assert_eq!(delete_target(&entry_ref(4)).unwrap(), 4);
    let facts = |conversation: ConversationCheck, candidate: bool| DocumentFacts {
        conversation_candidate: candidate,
        workspace_import: false,
        conversation,
        task: Ok(false),
        title: "a".to_owned(),
        content_hash: format!("sha256:{}", sha256_hex("text")),
        chunks: Vec::new(),
    };
    let write = |path: &str, media_type: &str, content: String| WriteRequest {
        path: path.to_owned(),
        content,
        media_type: media_type.to_owned(),
        expected_version: None,
        idempotency_key: None,
        metadata: Json::object(),
    };
    let prepare = |request: WriteRequest| {
        prepare_markdown(request, facts(ConversationCheck::NotAsked, false), false)
    };
    assert!(prepare(write("a.md", "text/markdown", "text".to_owned())).is_ok());
    assert_eq!(
        told(prepare(write("/a", "text/markdown", String::new()))),
        UNSAFE_PATH
    );
    assert_eq!(
        told(prepare(write("a.png", "image/png", String::new()))),
        "workspace.write accepts Markdown or plain text; upload other files as binaries"
    );
    assert_eq!(
        told(prepare(write("a.md", "text/markdown", "x".repeat(4_194_305)))),
        "413 entry_too_large"
    );
    let keyed = WriteRequest {
        idempotency_key: owned(""),
        ..write("a.md", "text/markdown", "text".to_owned())
    };
    assert_eq!(
        told(prepare(keyed)),
        "idempotency_key must contain 1 to 256 printable characters"
    );
    assert_eq!(
        told(prepare_markdown(
            write("a.md", "text/markdown", "text".to_owned()),
            facts(ConversationCheck::NotAsked, true),
            false
        )),
        "canonical conversation entries may be written only by workspace import"
    );
    let task = |task: Result<bool, ApiError>| {
        prepare_task_markdown_for_update(
            ".brunn/tasks/a.md".to_owned(),
            "text".to_owned(),
            Json::object(),
            1,
            task,
            "a".to_owned(),
            &format!("sha256:{}", sha256_hex("text")),
        )
    };
    assert_eq!(
        told(task(Ok(false))),
        "managed task updates require canonical task.v1 metadata"
    );
    assert_eq!(told(task(Err(ApiError::invalid("bad task")))), "bad task");
    assert!(task(Ok(true)).is_ok());
}

#[test]
fn imported_parents_are_checked() {
    let parent = |value: Json| Json::object().with("parent_checkpoint_ref", value);
    assert_eq!(
        told(imported_checkpoint_parent(&parent(Json::text("entry:x")))),
        "imported checkpoint parent must use checkpoint:<uuid>"
    );
    assert_eq!(
        told(imported_checkpoint_parent(&parent(Json::text("checkpoint:x")))),
        "imported checkpoint parent reference is invalid"
    );
    assert_eq!(
        told(imported_checkpoint_parent(&parent(Json::integer(1)))),
        "imported checkpoint parent_checkpoint_ref must be a string or null"
    );
    let own = parent(Json::Text(checkpoint_ref(5)));
    assert_eq!(
        told(imported_parent("Notes/a.md", &own)),
        "imported checkpoint path is invalid"
    );
    assert_eq!(
        told(imported_parent(&simple_core::paths::checkpoint_path(5), &own)),
        "checkpoint_parent_cycle"
    );
    assert_eq!(
        imported_parent(&simple_core::paths::checkpoint_path(6), &own).unwrap(),
        Some(5)
    );
    assert_eq!(
        told(check_imported_parent(5, None)),
        "checkpoint_parent_unresolved"
    );
}
