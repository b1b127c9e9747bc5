//! Reading, writing, restoring and resuming.
use sha2::{Digest, Sha256};
use simple_core::auth::{require_write_capabilities, AuthContext, Capability, ManagedPath};
use simple_core::binary::prepare_portable_binary_companion;
use simple_core::checkpoint::{
    checkpoint_entry_id_for_new_write, checkpoint_envelope, checkpoint_request_identity,
    deterministic_checkpoint_id, implicit_checkpoint_idempotency_key, validate_checkpoint_request,
};
use simple_core::deltas::{continuation_paths, unified_line_diff, verify_resume_content_hash};
use simple_core::envelope::WorkspaceEnvelope;
use simple_core::error::ApiError;
use simple_core::evaluation::{evaluation_batch, validate_eval_import};
use simple_core::history::{
    tier_a_exact_history_action, validate_tier_a_history_request, TierAExactHistoryAction,
    TierAHistorySemantics, TierAHistoryStage,
};
use simple_core::json::{Json, Number};
use simple_core::open::{presence_label, presence_step, PresenceLookup, PresenceStep};
use simple_core::paths::{
    checkpoint_path, portable_path_key, validate_idempotency_key, validate_path, validate_sha256,
};
use simple_core::read::{
    exact_read_char_limit, EntryRow, MAX_CONVERSATION_BYTES, MAX_EXACT_READ_CHARS,
};
use simple_core::render::apply_checkpoint_budget;
use simple_core::requests::{
    markdown_media_type, CheckpointRequest, EvalDocument, EvalImportRequest, ReadItem, WriteRequest,
};
use simple_core::resume::{
    changed_checkpoint_sources, CheckpointSource, RESUME_DELTA_SOURCE_LIMIT,
};
use simple_core::write::{
    imported_checkpoint_parent, is_agent_memory_noop_summary, rebase_imported_checkpoint_metadata,
    validate_write_path, ConversationCheck,
};
use uuid::Uuid;

const IMPORT_FORMAT: &str = "brunn-workspace-import-manifest@v1";

fn owned(text: &str) -> Option<String> {
    Some(text.to_owned())
}

fn object(entries: Vec<(&str, Json)>) -> Json {
    Json::Object(
        entries
            .into_iter()
            .map(|(key, value)| (key.to_owned(), value))
            .collect(),
    )
}

fn text(value: &str) -> Json {
    Json::Text(value.to_owned())
}

fn import() -> Json {
    object(vec![("format", text(IMPORT_FORMAT))])
}

fn value_of(json: &Json) -> serde_json::Value {
    match json {
        Json::Null => serde_json::Value::Null,
        Json::Bool(flag) => serde_json::Value::Bool(*flag),
        Json::Number(Number::Natural(n)) => serde_json::Value::from(*n),
        Json::Number(Number::Negative(n)) => serde_json::Value::from(*n),
        Json::Number(Number::Decimal(t)) => serde_json::Value::from(t.parse::<f64>().ok()),
        Json::Text(t) => serde_json::Value::String(t.clone()),
        Json::Array(items) => serde_json::Value::Array(items.iter().map(value_of).collect()),
        Json::Object(entries) => serde_json::Value::Object(
            entries
                .iter()
                .map(|(key, value)| (key.clone(), value_of(value)))
                .collect(),
        ),
    }
}

fn canonical(json: &Json) -> String {
    serde_json::to_string(&value_of(json)).unwrap()
}

fn accept(request: &CheckpointRequest) -> Result<(String, String), ApiError> {
    validate_checkpoint_request(
        request,
        Ok(()),
        Ok(canonical(&checkpoint_request_identity(request))),
    )
}

fn again(request: &CheckpointRequest) -> CheckpointRequest {
    CheckpointRequest {
        session_id: request.session_id.clone(),
        parent_checkpoint_id: request.parent_checkpoint_id.clone(),
        state: request.state.copy(),
        source_refs: request.source_refs.clone(),
        idempotency_key: request.idempotency_key.clone(),
    }
}

#[test]
fn owner_presence_open_block_is_formatted_and_omitted_when_unavailable_or_over_seven_days_old() {
    let hour: i64 = 3_600_000_000;
    let now: i64 = 1_788_379_200_000_000;
    let reported = |reported_at: i64| PresenceLookup::Reported { reported_at };

    assert_eq!(presence_step(reported(now - 6 * hour), now), PresenceStep::Show);
    assert_eq!(presence_label(PresenceStep::Show, true), "true");
    assert_eq!(presence_label(PresenceStep::Show, false), "false:render_error");

    let old = presence_step(reported(now - 7 * 24 * hour), now);
    assert_eq!(old, PresenceStep::Stale);
    assert_eq!(presence_label(old, true), "false:stale");
    assert_eq!(
        presence_step(reported(now - 7 * 24 * hour + 1), now),
        PresenceStep::Show
    );

    let unknown = presence_step(PresenceLookup::Unknown, now);
    assert_eq!(unknown, PresenceStep::NoRow);
    assert_eq!(presence_label(unknown, true), "false:no_row");

    let failed = presence_step(PresenceLookup::Failed, now);
    assert_eq!(failed, PresenceStep::LookupError);
    assert_eq!(presence_label(failed, true), "false:lookup_error");

    let off = presence_step(PresenceLookup::Off, now);
    assert_eq!(off, PresenceStep::FlagOff);
    assert_eq!(presence_label(off, true), "false:flag_off");
}

#[test]
fn agent_memory_noop_summaries_are_not_admitted() {
    let noop = "# Chronicle summary\n\nNo durable memory could be extracted from this session.\n";
    assert!(is_agent_memory_noop_summary(
        "agent-memory/chronicle/2026-08-30.md",
        noop
    ));
    // The path prefix IS the classification: the same content elsewhere
    // is admitted, and signal-bearing chronicle content is kept.
    assert!(!is_agent_memory_noop_summary("sources/Notes.md", noop));
    assert!(!is_agent_memory_noop_summary(
        "agent-memory/chronicle/2026-08-30.md",
        "# Chronicle summary\n\nThe owner decided to migrate the vault on Tuesday.\n",
    ));
}

#[test]
fn exact_read_expands_only_for_one_canonical_conversation() {
    let conversation_id = Uuid::parse_str("550e8400-e29b-71d4-a716-446655440000").unwrap();
    let entry_id = Uuid::parse_str("550e8400-e29b-71d4-a716-446655440001").unwrap();
    let content = "# Conversation\n".to_owned();
    let entry = EntryRow {
        id: entry_id.as_u128(),
        path: format!(".brunn/conversations/{conversation_id}.md"),
        title: "Conversation".to_owned(),
        kind: "markdown".to_owned(),
        media_type: "text/markdown".to_owned(),
        version: 1,
        content_sha256: "a".repeat(64),
        size_bytes: i64::try_from(content.len()).unwrap(),
        content: Some(content),
        object_key: None,
        object_version_id: None,
        metadata: Json::object(),
        updated_at: 1_787_832_000_000_000,
        workspace_generation: Some(1),
    };
    let request = ReadItem {
        reference: Some(format!("entry:{entry_id}")),
        path: None,
        link_target: None,
        view: owned("full"),
        start: None,
        end: None,
        max_chars: Some(MAX_CONVERSATION_BYTES),
        version: None,
    };

    assert_ne!(entry.id, conversation_id.as_u128());
    assert_eq!(
        exact_read_char_limit(1, &request, &entry, true),
        MAX_CONVERSATION_BYTES
    );
    assert_eq!(
        exact_read_char_limit(2, &request, &entry, true),
        MAX_EXACT_READ_CHARS
    );
    assert_eq!(
        exact_read_char_limit(1, &request, &entry, false),
        MAX_EXACT_READ_CHARS
    );
}

fn warmind(name: &str) -> String {
    format!("Projects/Warmind/{name}.md")
}

#[test]
fn continuation_paths_put_recent_changes_before_checkpoint_sources() {
    let checkpoint = object(vec![(
        "source_entries",
        Json::Array(vec![
            object(vec![("path", text(&warmind("Rules")))]),
            object(vec![("path", text(&warmind("Plan")))]),
        ]),
    )]);
    let changes = vec![
        object(vec![("path", text(&warmind("Rules")))]),
        object(vec![("path", text(".brunn/checkpoints/ignored.md"))]),
        object(vec![("path", text(&warmind("New evidence")))]),
    ];
    let (paths, changed) = continuation_paths(Some(&checkpoint), &changes);
    assert_eq!(
        paths,
        [warmind("New evidence"), warmind("Rules"), warmind("Plan")]
    );
    assert!(changed.contains(&portable_path_key(&warmind("New evidence"))));
    assert!(changed.contains(&portable_path_key(&warmind("Rules"))));
}

#[test]
fn safe_paths_reject_traversal_and_absolute_paths() {
    assert!(validate_path("Trips/Plan.md").is_ok());
    assert!(validate_path("../Plan.md").is_err());
    assert!(validate_path("/Trips/Plan.md").is_err());
    assert!(validate_path("Trips//Plan.md").is_err());
    assert!(validate_path(r"Trips\Plan.md").is_err());
}

#[test]
fn portable_path_keys_fold_unicode_and_case_without_rewriting_paths() {
    assert_eq!(
        portable_path_key("Trips/Caf\u{e9}.md"),
        portable_path_key("trips/Cafe\u{301}.md")
    );
}

fn tier_a_history_metadata(target: u64, semantics: &str) -> Json {
    object(vec![
        ("_brunn_import", import()),
        (
            "_brunn_tier_a_history",
            object(vec![
                ("format", text("brunn-tier-a-history-stage@v1")),
                ("target_lineage_ordinal", Json::natural(target)),
                ("semantics", text(semantics)),
            ]),
        ),
    ])
}

const EXACT_SEMANTICS: &str = "preserve_intentional_exact_bytes_version";

#[test]
fn exact_history_preservation_requires_an_evaluation_stack() {
    let metadata = tier_a_history_metadata(2, EXACT_SEMANTICS);
    assert!(
        validate_tier_a_history_request("Notes/repeated.md", &metadata, Some(1), false).is_err()
    );
    assert_eq!(
        validate_tier_a_history_request("Notes/repeated.md", &metadata, Some(1), true).unwrap(),
        Some(TierAHistoryStage {
            target_lineage_ordinal: 2,
            semantics: TierAHistorySemantics::PreserveIntentionalExactBytesVersion
        })
    );
    assert!(
        validate_tier_a_history_request("Notes/repeated.md", &metadata, Some(0), true).is_err()
    );
}

#[test]
fn exact_history_append_retry_gap_and_ahead_are_fail_closed() {
    let stage = Some(TierAHistoryStage {
        target_lineage_ordinal: 2,
        semantics: TierAHistorySemantics::PreserveIntentionalExactBytesVersion,
    });
    let metadata = tier_a_history_metadata(2, EXACT_SEMANTICS);
    let empty = Json::object();
    assert_eq!(
        tier_a_exact_history_action(stage, Some(1), true, false, Some(&empty), &metadata).unwrap(),
        TierAExactHistoryAction::Append
    );
    assert_eq!(
        tier_a_exact_history_action(stage, Some(2), true, false, Some(&metadata), &metadata)
            .unwrap(),
        TierAExactHistoryAction::Idempotent
    );
    assert!(tier_a_exact_history_action(stage, None, false, false, None, &metadata).is_err());
    assert!(
        tier_a_exact_history_action(stage, Some(3), true, false, Some(&metadata), &metadata)
            .is_err()
    );
    assert!(
        tier_a_exact_history_action(stage, Some(1), false, false, Some(&empty), &metadata).is_err()
    );
    assert_eq!(
        tier_a_exact_history_action(
            Some(TierAHistoryStage {
                target_lineage_ordinal: 2,
                semantics: TierAHistorySemantics::OrdinaryContentTransition,
            }),
            Some(1),
            true,
            false,
            Some(&empty),
            &metadata,
        )
        .unwrap(),
        TierAExactHistoryAction::NotRequested
    );
}

#[test]
fn ordinary_writes_cannot_mutate_workspace_managed_paths() {
    let ordinary = WriteRequest {
        path: ".brunn/checkpoints/not-a-checkpoint.md".to_owned(),
        content: "no".to_owned(),
        media_type: markdown_media_type(),
        expected_version: None,
        idempotency_key: None,
        metadata: Json::object(),
    };
    assert!(validate_write_path(&ordinary, Ok(false), &ConversationCheck::NotAsked).is_err());

    let checkpoint_id = Uuid::now_v7();
    let portable_restore = WriteRequest {
        path: format!(".brunn/checkpoints/{checkpoint_id}.md"),
        content: "checkpoint".to_owned(),
        media_type: markdown_media_type(),
        expected_version: Some(0),
        idempotency_key: None,
        metadata: object(vec![
            ("kind", text("checkpoint")),
            (
                "checkpoint_ref",
                text(&format!("checkpoint:{checkpoint_id}")),
            ),
            ("_brunn_import", import()),
        ]),
    };
    assert!(
        validate_write_path(&portable_restore, Ok(false), &ConversationCheck::NotAsked).is_ok()
    );

    let conversation_id = Uuid::parse_str("550e8400-e29b-71d4-a716-446655440000").unwrap();
    let conversation_restore = WriteRequest {
        path: format!(".brunn/conversations/{conversation_id}.md"),
        content: "# Conversation\n".to_owned(),
        media_type: markdown_media_type(),
        expected_version: Some(0),
        idempotency_key: None,
        metadata: object(vec![
            ("client", object(vec![("kind", text("conversation"))])),
            ("_brunn_import", import()),
        ]),
    };
    assert!(
        validate_write_path(&conversation_restore, Ok(false), &ConversationCheck::Valid).is_ok(),
        "a canonical portable conversation restore owns its reserved path"
    );

    let oversized_conversation_restore = WriteRequest {
        content: "x".repeat(MAX_CONVERSATION_BYTES + 1),
        ..conversation_restore
    };
    assert!(matches!(
        validate_write_path(
            &oversized_conversation_restore,
            Ok(false),
            &ConversationCheck::Valid
        ),
        Err(ApiError::Public { status: 413, code, .. }) if code == "conversation_entry_too_large"
    ));
}

#[test]
fn portable_restore_paths_require_their_own_capabilities() {
    let checkpoint_id = Uuid::now_v7();
    let auth = |capabilities: &[Capability]| AuthContext {
        credential_id: Uuid::now_v7().as_u128(),
        user_id: Uuid::now_v7().as_u128(),
        capabilities: capabilities.to_vec(),
    };
    let neither = ManagedPath::Neither;
    let save_only = auth(&[Capability::Save]);
    assert!(require_write_capabilities(&save_only, "Notes/ordinary.md", neither).is_ok());
    assert!(
        require_write_capabilities(
            &save_only,
            &format!(".brunn/checkpoints/{checkpoint_id}.md"),
            neither
        )
        .is_err()
    );
    assert!(require_write_capabilities(&save_only, ".brunn/binaries/receipt.md", neither).is_err());
    let conversation_path = format!(".brunn/conversations/{}.md", Uuid::now_v7());
    let conversation = ManagedPath::Conversation { identified: true };
    assert!(require_write_capabilities(&save_only, &conversation_path, conversation).is_err());
    assert!(
        require_write_capabilities(
            &auth(&[Capability::Save, Capability::MessageWrite]),
            &conversation_path,
            conversation
        )
        .is_err(),
        "ordinary messaging credentials cannot forge managed conversation entries"
    );
    assert!(
        require_write_capabilities(
            &auth(&[
                Capability::Save,
                Capability::MessageWrite,
                Capability::CredentialManage
            ]),
            &conversation_path,
            conversation
        )
        .is_ok()
    );
    let task_id = Uuid::now_v7();
    let task_path = format!(".brunn/tasks/{task_id}.md");
    let task = ManagedPath::Task { identified: true };
    assert!(require_write_capabilities(&save_only, &task_path, task).is_err());
    assert!(
        require_write_capabilities(
            &auth(&[Capability::Save, Capability::TaskWrite]),
            &task_path,
            task
        )
        .is_err()
    );
    assert!(
        require_write_capabilities(
            &auth(&[
                Capability::Save,
                Capability::TaskWrite,
                Capability::CredentialManage
            ]),
            &task_path,
            task
        )
        .is_ok()
    );
    assert!(
        require_write_capabilities(
            &auth(&[Capability::Save, Capability::TaskWrite, Capability::Admin]),
            &task_path,
            task
        )
        .is_ok()
    );
    assert!(
        require_write_capabilities(
            &auth(&[Capability::Save, Capability::TaskWrite, Capability::Admin]),
            ".brunn/tasks/550e8400-e29b-41d4-a716-446655440000.md",
            ManagedPath::Task { identified: false }
        )
        .is_err()
    );
    assert!(
        require_write_capabilities(
            &auth(&[Capability::Save, Capability::Checkpoint]),
            &format!(".brunn/checkpoints/{checkpoint_id}.md"),
            neither
        )
        .is_ok()
    );
    assert!(
        require_write_capabilities(
            &auth(&[Capability::Save, Capability::Stage]),
            ".brunn/binaries/receipt.md",
            neither
        )
        .is_ok()
    );
}

#[test]
fn expected_binary_hashes_are_strict() {
    let hash = "a".repeat(64);
    assert_eq!(validate_sha256(&format!("sha256:{hash}")).unwrap(), hash);
    assert!(validate_sha256("not-a-hash").is_err());
}

#[test]
fn exact_portable_companions_are_eval_only_and_preserve_exact_bytes() {
    let content = "\r\n# Byte copied\r\n";
    let hash = hex::encode(Sha256::digest(content.as_bytes()));
    let format_name = "brunn-tier-a-portable-companion@v1";
    assert!(
        prepare_portable_binary_companion(
            false,
            "sources/file.png",
            &owned(content),
            &owned(format_name),
            &owned("workspace/assets/file.png.md"),
            &Some(format!("sha256:{hash}")),
            Some(123),
            Some(0o600),
        )
        .is_err()
    );
    let companion = prepare_portable_binary_companion(
        true,
        "sources/file.png",
        &owned(content),
        &owned(format_name),
        &owned("workspace/assets/file.png.md"),
        &Some(format!("sha256:{hash}")),
        Some(123),
        Some(0o600),
    )
    .unwrap()
    .unwrap();
    assert_eq!(companion.content, content);
    assert_eq!(companion.content_sha256, hash);
    assert_eq!(companion.path, "workspace/assets/file.png.md");
    assert_eq!(companion.modified_unix_ns, Some(123));
    assert_eq!(companion.mode, Some(0o600));
    assert!(
        prepare_portable_binary_companion(
            true,
            "sources/file.png",
            &owned(content),
            &owned(format_name),
            &owned("workspace/assets/file.png.md"),
            &Some(format!("sha256:{}", "0".repeat(64))),
            None,
            None,
        )
        .is_err()
    );
}

#[test]
fn imported_checkpoint_parent_references_are_strict() {
    let parent = Uuid::now_v7();
    let metadata = object(vec![
        ("_brunn_import", import()),
        (
            "client",
            object(vec![
                ("kind", text("checkpoint")),
                (
                    "parent_checkpoint_ref",
                    text(&format!("checkpoint:{parent}")),
                ),
            ]),
        ),
    ]);
    assert_eq!(
        imported_checkpoint_parent(&metadata).unwrap(),
        Some(parent.as_u128())
    );
    assert_eq!(
        imported_checkpoint_parent(&object(vec![("parent_checkpoint_ref", Json::Null)])).unwrap(),
        None
    );
    assert!(
        imported_checkpoint_parent(&object(vec![(
            "parent_checkpoint_ref",
            text(&format!("entry:{parent}"))
        )]))
        .is_err()
    );
}

#[test]
fn checkpoint_fingerprints_and_ids_are_canonical_and_request_bound() {
    let request = CheckpointRequest {
        session_id: "session:one".to_owned(),
        parent_checkpoint_id: None,
        state: object(vec![
            ("z", Json::natural(1)),
            ("objective", text("Continue")),
            ("a", Json::natural(2)),
        ]),
        source_refs: vec![],
        idempotency_key: owned("same"),
    };
    let reordered = CheckpointRequest {
        state: object(vec![
            ("a", Json::natural(2)),
            ("objective", text("Continue")),
            ("z", Json::natural(1)),
        ]),
        ..again(&request)
    };
    let (effective_key, request_hash) = accept(&request).unwrap();
    let (reordered_key, reordered_hash) = accept(&reordered).unwrap();
    assert_eq!(effective_key, "same");
    assert_eq!(effective_key, reordered_key);
    assert_eq!(request_hash, reordered_hash);
    let correlated_from_another_session = CheckpointRequest {
        session_id: "session:two".to_owned(),
        ..again(&request)
    };
    let (correlated_key, correlated_hash) = accept(&correlated_from_another_session).unwrap();
    assert_eq!(effective_key, correlated_key);
    assert_eq!(
        request_hash, correlated_hash,
        "session IDs correlate calls but do not change the durable operation"
    );
    let newly_created_id = checkpoint_entry_id_for_new_write(&request);
    let deterministic_id = deterministic_checkpoint_id(&request);
    assert_eq!(
        newly_created_id, deterministic_id,
        "every writer agrees on the identity of the entry"
    );
    assert_eq!(
        checkpoint_path(newly_created_id),
        checkpoint_path(deterministic_id),
        "a new checkpoint is published at the path where it is looked for"
    );
    assert_eq!(
        newly_created_id,
        checkpoint_entry_id_for_new_write(&reordered),
        "equivalent JSON payloads preserve the path"
    );
    assert_ne!(
        newly_created_id,
        deterministic_checkpoint_id(&correlated_from_another_session),
        "the session is part of the path; a request is known again by its receipt"
    );
    let receipt = object(vec![
        (
            "checkpoint_ref",
            text(&format!(
                "checkpoint:{}",
                Uuid::from_u128(newly_created_id)
            )),
        ),
        ("workspace_generation", Json::natural(7)),
        ("resulting_workspace_generation", Json::natural(7)),
    ]);
    let first_envelope = checkpoint_envelope(
        &request.session_id,
        receipt.copy(),
        false,
        "request:one".to_owned(),
        Some(4),
    )
    .unwrap();
    let replay_envelope = checkpoint_envelope(
        &correlated_from_another_session.session_id,
        receipt.copy(),
        true,
        "request:two".to_owned(),
        Some(4),
    )
    .unwrap();
    assert_eq!(
        value_of(&first_envelope.data),
        value_of(&replay_envelope.data)
    );
    assert_eq!(value_of(&replay_envelope.data), value_of(&receipt));
    assert_eq!(first_envelope.session_id.as_deref(), Some("session:one"));
    assert_eq!(replay_envelope.session_id.as_deref(), Some("session:two"));
    let changed = CheckpointRequest {
        state: object(vec![
            ("a", Json::natural(2)),
            ("objective", text("Different")),
            ("z", Json::natural(1)),
        ]),
        ..again(&request)
    };
    let (changed_key, changed_hash) = accept(&changed).unwrap();
    assert_eq!(effective_key, changed_key);
    assert_ne!(request_hash, changed_hash);
    assert_ne!(newly_created_id, checkpoint_entry_id_for_new_write(&changed));
}

#[test]
fn checkpoint_input_bounds_are_enforced_before_database_work() {
    let fixture = |key: Option<String>| CheckpointRequest {
        session_id: "session:one".to_owned(),
        parent_checkpoint_id: None,
        state: object(vec![("objective", text("Continue"))]),
        source_refs: vec![],
        idempotency_key: key,
    };
    assert!(accept(&fixture(Some("x".repeat(256)))).is_ok());
    assert!(accept(&fixture(Some("x".repeat(257)))).is_err());
    assert!(accept(&fixture(None)).is_ok());
    assert!(accept(&fixture(owned("bad\nkey"))).is_err());
    assert!(accept(&fixture(Some(format!("implicit:{}", Uuid::nil())))).is_err());
    assert!(accept(&fixture(owned("implicit:caller-label"))).is_ok());

    let mut request = fixture(owned("bounded"));
    request.session_id = "x".repeat(257);
    assert!(accept(&request).is_err());
    request.session_id = "session:one".to_owned();
    request.state = text("not an object");
    assert!(accept(&request).is_err());
    request.state = object(vec![("objective", text("Continue"))]);
    request.source_refs = (0..65).map(|index| format!("Sources/{index}.md")).collect();
    assert!(accept(&request).is_err());
}

#[test]
fn checkpoint_missing_key_uses_stable_legacy_scoped_identity() {
    let request = CheckpointRequest {
        session_id: "session:implicit-one".to_owned(),
        parent_checkpoint_id: None,
        state: object(vec![(
            "objective",
            text("Preserve the optional-key contract"),
        )]),
        source_refs: vec!["Sources/Plan.md".to_owned()],
        idempotency_key: None,
    };
    let (effective_key, request_hash) = accept(&request).unwrap();
    assert_eq!(effective_key, implicit_checkpoint_idempotency_key(&request));
    assert!(effective_key.len() <= 256);
    let (replayed_key, replayed_hash) = accept(&request).unwrap();
    assert_eq!(effective_key, replayed_key);
    assert_eq!(request_hash, replayed_hash);

    let changed_payload = CheckpointRequest {
        state: object(vec![(
            "objective",
            text("A historically distinct checkpoint"),
        )]),
        ..again(&request)
    };
    let (changed_payload_key, changed_payload_hash) = accept(&changed_payload).unwrap();
    assert_ne!(effective_key, changed_payload_key);
    assert_ne!(request_hash, changed_payload_hash);

    let changed_session = CheckpointRequest {
        session_id: "session:implicit-two".to_owned(),
        ..request
    };
    let (changed_session_key, changed_session_hash) = accept(&changed_session).unwrap();
    assert_ne!(effective_key, changed_session_key);
    assert_eq!(request_hash, changed_session_hash);
    assert_ne!(checkpoint_entry_id_for_new_write(&changed_payload), checkpoint_entry_id_for_new_write(&changed_session));
}

#[test]
fn workspace_envelope_omits_empty_legacy_metadata() {
    let data = object(vec![("evidence", Json::Array(vec![]))]);
    let envelope = WorkspaceEnvelope::complete("request".to_owned(), None, data);
    let value = envelope.into_json();
    assert_eq!(
        value.get_text("status").map(|status| status.as_str()),
        Some("complete")
    );
    for omitted in [
        "request_id",
        "session_id",
        "corpus_revision",
        "gaps",
        "freshness",
        "coverage",
        "conflicts",
        "ambiguities",
        "truncation",
    ] {
        assert!(value.get(omitted).is_none(), "{omitted} should be omitted");
    }
}

#[test]
fn checkpoint_budget_precedes_related_evidence() {
    let checkpoint = Some(object(vec![("text", text("abcdefgh"))]));
    let (checkpoint, truncated, evidence_tokens) = apply_checkpoint_budget(checkpoint, 1);
    assert!(truncated);
    assert_eq!(evidence_tokens, 0);
    assert_eq!(
        checkpoint
            .as_ref()
            .and_then(|value| value.get_text("text"))
            .map(|text| text.as_str()),
        Some("abcd")
    );
}

fn pinned(id: Uuid, path: &str, version: u64, digit: &str) -> Json {
    object(vec![
        ("entry_ref", text(&format!("entry:{id}"))),
        ("path", text(path)),
        ("version", Json::natural(version)),
        ("content_hash", text(&format!("sha256:{}", digit.repeat(64)))),
    ])
}

#[test]
fn resume_delta_sources_follow_checkpoint_authoring_order() {
    let first = Uuid::now_v7();
    let second = Uuid::now_v7();
    let checkpoint = object(vec![(
        "source_entries",
        Json::Array(vec![
            pinned(first, "Plans/First.md", 3, "a"),
            pinned(second, "Plans/Second.md", 7, "b"),
        ]),
    )]);
    let changes = vec![
        object(vec![("path", text("Plans/Second.md"))]),
        object(vec![("path", text("Plans/First.md"))]),
    ];

    let (selected, overflow) = changed_checkpoint_sources(Some(&checkpoint), &changes);

    assert!(overflow.is_empty());
    assert_eq!(
        selected
            .iter()
            .map(|source| source.path.as_str())
            .collect::<Vec<_>>(),
        ["Plans/First.md", "Plans/Second.md"]
    );
    assert_eq!(selected[0].pinned_version, 3);
    assert_eq!(selected[1].pinned_sha256, "b".repeat(64));
}

#[test]
fn resume_delta_source_limit_degrades_in_authoring_order() {
    let entries = (0..10)
        .map(|index| pinned(Uuid::now_v7(), &format!("Plans/{index}.md"), 1, "c"))
        .collect::<Vec<_>>();
    let changes = (0..10)
        .rev()
        .map(|index| object(vec![("path", text(&format!("Plans/{index}.md")))]))
        .collect::<Vec<_>>();

    let (selected, overflow) = changed_checkpoint_sources(
        Some(&object(vec![("source_entries", Json::Array(entries))])),
        &changes,
    );

    assert_eq!(selected.len(), RESUME_DELTA_SOURCE_LIMIT);
    assert_eq!(selected[0].path, "Plans/0.md");
    assert_eq!(selected[7].path, "Plans/7.md");
    assert_eq!(
        overflow
            .iter()
            .map(|source| source.path.as_str())
            .collect::<Vec<_>>(),
        ["Plans/8.md", "Plans/9.md"]
    );
}

#[test]
fn resume_unified_diff_has_three_context_lines() {
    let before = "one\ntwo\nthree\nfour\nold\nsix\nseven\neight\nnine\n";
    let after = "one\ntwo\nthree\nfour\nnew\nsix\nseven\neight\nnine\n";

    let diff = unified_line_diff("Plans/Current.md", before, after);

    assert!(
        diff.starts_with("--- a/Plans/Current.md\n+++ b/Plans/Current.md\n@@ -2,7 +2,7 @@\n")
    );
    assert!(diff.contains(" four\n-old\n+new\n six\n seven\n eight\n"));
    assert!(!diff.contains(" one\n"));
    assert!(!diff.contains(" nine\n"));
}

#[test]
fn resume_content_hash_mismatch_is_a_lineage_error() {
    let source = CheckpointSource {
        entry_id: Uuid::now_v7().as_u128(),
        path: "Plans/Current.md".to_owned(),
        pinned_version: 1,
        pinned_sha256: "0".repeat(64),
    };

    let error = verify_resume_content_hash(&source, 1, &"0".repeat(64), "changed")
        .expect_err("mismatched content must fail");

    assert!(matches!(
        error,
        ApiError::Conflict { code, .. } if code == "checkpoint_lineage_error"
    ));
}

#[test]
fn imported_checkpoint_metadata_rebases_and_drops_origin_entry_ids() {
    let metadata = object(vec![
        ("_brunn_import", import()),
        (
            "client",
            object(vec![
                ("kind", text("checkpoint")),
                ("workspace_generation", Json::natural(1_000_000)),
                (
                    "source_entries",
                    Json::Array(vec![object(vec![
                        (
                            "entry_ref",
                            text("entry:00000000-0000-0000-0000-000000000001"),
                        ),
                        ("path", text("Trips/Plan.md")),
                    ])]),
                ),
            ]),
        ),
    ]);
    let rebased = rebase_imported_checkpoint_metadata(metadata, 42);
    let client = rebased.get("client").unwrap();
    assert_eq!(client.get_integer("workspace_generation"), Some(42));
    assert_eq!(
        client.get_integer("origin_workspace_generation"),
        Some(1_000_000)
    );
    assert!(
        client.get("source_entries").unwrap().as_array().unwrap()[0]
            .get("entry_ref")
            .is_none()
    );
}

#[test]
fn evaluation_batches_are_bounded_and_ordered() {
    let content = "# Fixture";
    let document = EvalDocument {
        path: "Fixture.md".to_owned(),
        content: content.to_owned(),
        content_sha256: hex::encode(Sha256::digest(content.as_bytes())),
        media_type: markdown_media_type(),
    };
    let mut request = EvalImportRequest {
        schema: "brunn-eval-import@v1".to_owned(),
        run_id: "run".to_owned(),
        case_id: "case".to_owned(),
        authorization_scope: "eval:run/case".to_owned(),
        display_scope: "Fixture".to_owned(),
        access_mode: "read_write".to_owned(),
        documents: vec![document],
        delta_documents: vec![],
        seed_checkpoint: None,
        idempotency_key: "import".to_owned(),
        batch_index: Some(1),
        batch_count: Some(3),
    };
    assert_eq!(evaluation_batch(&request).unwrap(), Some((1, 3)));
    assert!(validate_eval_import(&request).is_ok());
    request.batch_count = Some(1);
    assert!(validate_eval_import(&request).is_err());
    request.batch_index = Some(0);
    request.batch_count = None;
    assert!(validate_eval_import(&request).is_err());
}

#[test]
fn idempotency_keys_are_bounded_and_printable() {
    assert!(validate_idempotency_key("capture:stable").is_ok());
    assert!(validate_idempotency_key("").is_err());
    assert!(validate_idempotency_key(&"x".repeat(257)).is_err());
    assert!(validate_idempotency_key("bad\nkey").is_err());
}
