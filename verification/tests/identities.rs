//! Names, digests, codes and times.
use base64::engine::general_purpose::URL_SAFE_NO_PAD;
use base64::Engine;
use hmac::{Hmac, Mac};
use sha2::{Digest, Sha256};
use simple_core::binary::choose_media_type;
use simple_core::checkpoint::{
    checkpoint_entry_id_for_new_write, checkpoint_lock, deterministic_checkpoint_id,
    implicit_checkpoint_idempotency_key, is_reserved_implicit_checkpoint_key,
    render_checkpoint_markdown,
};
use simple_core::error::ApiError;
use simple_core::evaluation::{
    derive_eval_token, evaluation_display_name, evaluation_ref, render_seed_checkpoint,
};
use simple_core::files::{lock_keys, plan_binary, BinaryUpload};
use simple_core::json::Json;
use simple_core::outside::{entry_ref, sha256_hex};
use simple_core::paths::{
    checkpoint_id_of_path, checkpoint_id_of_ref, checkpoint_path, checkpoint_ref, entry_id_of_ref,
    entry_link_lookup_keys, is_checkpoint_path, is_managed, portable_path_key, validate_path,
    validate_public_path, validate_sha256,
};
use simple_core::read::{lookup_plan, LookupStep};
use simple_core::render::time_value;
use simple_core::requests::{CaptureRequest, CheckpointRequest, EvalImportRequest};
use simple_core::upsert::{capture_write, entry_lock, version_ref};
use uuid::Uuid;

const ID: u128 = 0x550e8400_e29b_71d4_a716_446655440000;
const ID_TEXT: &str = "550e8400-e29b-71d4-a716-446655440000";

fn owned(text: &str) -> Option<String> {
    Some(text.to_owned())
}

fn upload(path: &str) -> BinaryUpload {
    BinaryUpload {
        path: path.to_owned(),
        media_type: "image/png".to_owned(),
        stored_hash: format!("sha256:{}", "a".repeat(64)),
        size_bytes: 5,
        object_version_id: owned("v1"),
        description: None,
        provenance: None,
        limitations: None,
        portable: None,
        expected_version: None,
        companion: None,
    }
}

fn evaluation(case: &str) -> EvalImportRequest {
    EvalImportRequest {
        schema: String::new(),
        run_id: "run".to_owned(),
        case_id: case.to_owned(),
        authorization_scope: "scope".to_owned(),
        display_scope: String::new(),
        access_mode: "read_only".to_owned(),
        documents: Vec::new(),
        delta_documents: Vec::new(),
        seed_checkpoint: None,
        idempotency_key: "key".to_owned(),
        batch_index: None,
        batch_count: None,
    }
}

#[test]
fn digests_of_texts_are_the_known_ones() {
    assert_eq!(
        sha256_hex(""),
        "e3b0c44298fc1c149afbf4c8996fb92427ae41e4649b934ca495991b7852b855"
    );
    assert_eq!(
        sha256_hex("abc"),
        "ba7816bf8f01cfea414140de5dae2223b00361a396177a9cb410ff61f20015ad"
    );
    assert_eq!(
        sha256_hex("Caf\u{e9}"),
        hex::encode(Sha256::digest("Caf\u{e9}".as_bytes()))
    );
}

#[test]
fn references_carry_the_hyphenated_identity() {
    assert_eq!(entry_ref(ID), format!("entry:{ID_TEXT}"));
    assert_eq!(version_ref(ID), format!("entry-version:{ID_TEXT}"));
    assert_eq!(checkpoint_ref(ID), format!("checkpoint:{ID_TEXT}"));
    assert_eq!(checkpoint_path(ID), format!(".brunn/checkpoints/{ID_TEXT}.md"));
    assert_eq!(entry_id_of_ref(&entry_ref(ID)), Some(ID));
    assert_eq!(checkpoint_id_of_ref(&checkpoint_ref(ID)), Some(ID));
    assert_eq!(checkpoint_id_of_path(&checkpoint_path(ID)), Some(ID));
    assert!(is_checkpoint_path(&checkpoint_path(ID)));
    assert_eq!(entry_id_of_ref("entry:nothing"), None);
    assert_eq!(checkpoint_id_of_path(".brunn/checkpoints/nothing.md"), None);
    assert!(!is_checkpoint_path("Notes/a.md"));
}

#[test]
fn evaluation_tokens_are_codes_of_reference_and_key() {
    for (secret, reference, key) in [
        ("secret", "eval-user:abc", "key"),
        ("", "", ""),
        (&*"long".repeat(40), "eval-user:d\u{e9}f", "another key"),
    ] {
        let mut mac = Hmac::<Sha256>::new_from_slice(secret.as_bytes()).unwrap();
        mac.update(reference.as_bytes());
        mac.update(b"\0");
        mac.update(key.as_bytes());
        assert_eq!(
            derive_eval_token(secret, reference, key),
            format!(
                "brunn_eval_{}",
                URL_SAFE_NO_PAD.encode(mac.finalize().into_bytes())
            )
        );
    }
}

#[test]
fn evaluation_references_depend_on_run_case_scope_key_and_batching() {
    let request = evaluation("case");
    assert_eq!(
        evaluation_ref(&request, false),
        format!(
            "eval-user:{}",
            hex::encode(Sha256::digest(
                b"simple-workspace-eval-v1\0run\0case\0scope\0key"
            ))
        )
    );
    assert_eq!(
        evaluation_ref(&request, true),
        format!(
            "eval-user:{}",
            hex::encode(Sha256::digest(
                b"simple-workspace-eval-batch-v1\0run\0case\0scope\0key"
            ))
        )
    );
    assert_ne!(
        evaluation_ref(&request, false),
        evaluation_ref(&evaluation("other"), false)
    );
}

#[test]
fn evaluation_display_names_keep_the_first_characters_of_the_case() {
    assert_eq!(
        evaluation_display_name(&evaluation("case")),
        "Brunn evaluation: case"
    );
    assert_eq!(
        evaluation_display_name(&evaluation(&"\u{e9}".repeat(200))),
        format!("Brunn evaluation: {}", "\u{e9}".repeat(160))
    );
}

#[test]
fn checkpoint_identities_are_the_first_half_of_a_digest() {
    let request = CheckpointRequest {
        session_id: "s".to_owned(),
        parent_checkpoint_id: None,
        state: Json::object()
            .with("z", Json::billionths(-2_500_000_000))
            .with("a", Json::Array(vec![Json::text("\"x\""), Json::Bool(true)])),
        source_refs: vec!["a.md".to_owned()],
        idempotency_key: None,
    };
    let written = [
        r#"{"idempotency_key":null,"parent_checkpoint_id":null,"session_id":"s","#,
        r#""source_refs":["a.md"],"state":{"a":["\"x\"",true],"z":-2.5}}"#,
    ]
    .concat();
    let digest = Sha256::digest(written.as_bytes());
    let expected = Uuid::from_slice(&digest[..16]).unwrap();
    assert_eq!(deterministic_checkpoint_id(&request), expected.as_u128());
    assert_eq!(checkpoint_entry_id_for_new_write(&request), expected.as_u128());
    assert_eq!(
        implicit_checkpoint_idempotency_key(&request),
        format!("implicit:{expected}")
    );
    assert!(is_reserved_implicit_checkpoint_key(
        &implicit_checkpoint_idempotency_key(&request)
    ));
    assert!(!is_reserved_implicit_checkpoint_key("implicit:nothing"));
    assert!(!is_reserved_implicit_checkpoint_key(ID_TEXT));
}

#[test]
fn checkpoints_show_what_is_no_text_as_json() {
    let request = CheckpointRequest {
        session_id: "s".to_owned(),
        parent_checkpoint_id: None,
        state: Json::object()
            .with("objective", Json::text("Ship"))
            .with("decisions", Json::text("one"))
            .with(
                "current_state",
                Json::Array(vec![
                    Json::text("drafted"),
                    Json::object().with("b", Json::natural(1)).with("a", Json::Null),
                ]),
            ),
        source_refs: vec!["evidence:7".to_owned()],
        idempotency_key: None,
    };
    let text = render_checkpoint_markdown(ID, 3, &request, &Vec::new(), Ok(())).unwrap();
    assert!(text.starts_with(&format!(
        "---\nbrunn_kind: checkpoint\ncheckpoint_id: {ID_TEXT}\nworkspace_generation: 3\n"
    )));
    assert!(text.contains(
        "# Checkpoint: Ship\n\n## Current state\n\n- drafted\n- {\"a\":null,\"b\":1}\n\n\
         ## Decisions\n\n- one\n\n## Open questions\n\n- None recorded.\n\n"
    ));
}

#[test]
fn locks_are_named_by_user_and_key() {
    assert_eq!(
        checkpoint_lock(ID, "key"),
        format!(
            "simple-idempotency:{ID_TEXT}:checkpoint:{}",
            sha256_hex("key")
        )
    );
    assert_eq!(
        entry_lock(ID, "Notes/A.md"),
        format!("simple-entry:{ID_TEXT}:notes/a.md")
    );
    assert_eq!(
        lock_keys("Zebra.png", ".brunn/binaries/a.md"),
        (".brunn/binaries/a.md".to_owned(), "zebra.png".to_owned())
    );
    assert_eq!(
        lock_keys("a.png", "b.md"),
        ("a.png".to_owned(), "b.md".to_owned())
    );
}

#[test]
fn media_types_follow_the_request_and_then_the_name() {
    assert_eq!(choose_media_type(&owned("text/x-own"), "a.png"), "text/x-own");
    assert_eq!(choose_media_type(&None, "a.png"), "image/png");
    assert_eq!(choose_media_type(&None, "a"), "application/octet-stream");
}

#[test]
fn times_are_written_with_the_digits_they_need() {
    let written = |micros: i64| match time_value(micros) {
        Json::Text(text) => text,
        other => panic!("{other:?}"),
    };
    assert_eq!(written(0), "1970-01-01T00:00:00Z");
    assert_eq!(written(1_785_542_400_000_000), "2026-08-01T00:00:00Z");
    assert_eq!(written(1_785_542_400_250_000), "2026-08-01T00:00:00.250Z");
    assert_eq!(written(1_785_542_400_000_007), "2026-08-01T00:00:00.000007Z");
}

#[test]
fn portable_keys_normalize_and_fold_case() {
    assert_eq!(portable_path_key("Trips/Cafe\u{301}.md"), "trips/caf\u{e9}.md");
    assert_eq!(portable_path_key("\u{130}"), "i\u{307}");
}

#[test]
fn descriptions_quote_paths_as_json() {
    let plan = plan_binary(&upload("Scans/a \"b\".png")).unwrap();
    assert!(plan
        .companion
        .content
        .contains(r#""Scans/a \"b\".png""#));
    assert_eq!(plan.content_sha256, "a".repeat(64));
    let unversioned = BinaryUpload {
        object_version_id: None,
        ..upload("a.png")
    };
    assert!(matches!(
        plan_binary(&unversioned),
        Err(ApiError::Internal { message })
            if message == "versioned object upload returned no exact version ID"
    ));
}

#[test]
fn seed_checkpoints_list_their_sources() {
    assert_eq!(
        render_seed_checkpoint(ID, 7, &Json::object(), &vec!["a.md".to_owned(), "b.md".to_owned()]),
        format!(
            "---\nbrunn_kind: checkpoint\ncheckpoint_id: {ID_TEXT}\nworkspace_generation: 7\n---\n\n\
             # Seed checkpoint\n\n## State\n\n```json\n{{}}\n```\n\n\
             ## Source references\n\n- `a.md`\n- `b.md`\n"
        )
    );
    assert!(render_seed_checkpoint(ID, 7, &Json::object(), &Vec::new())
        .ends_with("## Source references\n\n- None recorded.\n"));
    let state = Json::object().with("a", Json::Array(vec![Json::natural(1)]));
    assert!(render_seed_checkpoint(ID, 7, &state, &Vec::new())
        .contains("```json\n{\n  \"a\": [\n    1\n  ]\n}\n```"));
}

#[test]
fn paths_are_safe_and_managed_ones_are_not_public() {
    for path in ["", "/a", "a//b", "a/./b", "a/../b", "a\\b", "a\nb", "a/"] {
        assert!(
            matches!(validate_path(path), Err(ApiError::Invalid { message })
                if message == "path must be a safe relative workspace path"),
            "{path}"
        );
    }
    assert!(validate_path(&"a".repeat(1_024)).is_ok());
    assert!(validate_path(&"a".repeat(1_025)).is_err());
    assert!(validate_path(&"\u{e9}".repeat(512)).is_ok());
    assert!(validate_path(&"\u{e9}".repeat(513)).is_err());
    assert!(is_managed(".brunn/dreams/a.md"));
    assert!(!is_managed("Notes/a.md"));
    assert!(validate_public_path("Notes/a.md").is_ok());
    assert!(validate_public_path(".brunn/dreams/a.md").is_err());
}

#[test]
fn digests_are_read_in_either_form() {
    let bare = "A".repeat(64);
    assert_eq!(validate_sha256(&bare).unwrap(), "a".repeat(64));
    assert_eq!(
        validate_sha256(&format!(" sha256:{bare} ")).unwrap(),
        "a".repeat(64)
    );
    assert!(validate_sha256(&"a".repeat(63)).is_err());
    assert!(validate_sha256(&"g".repeat(64)).is_err());
}

#[test]
fn link_targets_name_a_file() {
    assert_eq!(
        entry_link_lookup_keys(" Notes/Plan.MD#part ").unwrap(),
        ["plan", "plan.md", "plan.markdown"]
    );
    assert!(matches!(
        entry_link_lookup_keys("a/.md"),
        Err(ApiError::Invalid { message }) if message == "link_target must name an entry"
    ));
    assert!(matches!(
        entry_link_lookup_keys(" "),
        Err(ApiError::Invalid { message })
            if message == "link_target must contain 1 to 1024 printable characters"
    ));
}

fn shown(steps: &[LookupStep]) -> Vec<String> {
    steps
        .iter()
        .map(|step| match step {
            LookupStep::Path(path) => format!("path {path}"),
            LookupStep::Key(key) => format!("key {key}"),
            LookupStep::Id(id) => format!("id {}", Uuid::from_u128(*id)),
        })
        .collect()
}

#[test]
fn lookups_go_by_path_and_key_or_by_reference() {
    assert_eq!(
        shown(&lookup_plan(&owned("Notes/A.md"), &Some(entry_ref(ID)))),
        ["path Notes/A.md", "key notes/a.md"]
    );
    assert_eq!(
        shown(&lookup_plan(&owned(".brunn/dreams/A.md"), &None)),
        ["path .brunn/dreams/A.md"]
    );
    assert_eq!(
        shown(&lookup_plan(&None, &Some(entry_ref(ID)))),
        [format!("id {ID_TEXT}")]
    );
    assert_eq!(
        shown(&lookup_plan(&None, &Some(checkpoint_ref(ID)))),
        [format!("path .brunn/checkpoints/{ID_TEXT}.md")]
    );
    assert!(lookup_plan(&None, &owned("entry:nothing")).is_empty());
    assert!(lookup_plan(&None, &None).is_empty());
}

/// Noon of the first of August 2026, in microseconds since the epoch.
const NOON: i64 = 1785585600000000;

#[test]
fn keyed_captures_have_a_stable_place() {
    let capture = |key: Option<String>| CaptureRequest {
        content: "  remember  ".to_owned(),
        source: Json::object(),
        intent: None,
        idempotency_key: key,
    };
    let write = capture_write(ID, capture(owned("key")), NOON, 7).unwrap();
    assert_eq!(
        write.path,
        format!(
            "Inbox/Captures/Stable/{}.md",
            hex::encode(Sha256::digest(format!("{ID_TEXT}\0key").as_bytes()))
        )
    );
    assert_eq!(write.expected_version, Some(0));
    assert_eq!(
        write.content,
        "# Captured context\n\nremember\n\n## Source\n\n```json\n{}\n```\n"
    );
    let again = capture_write(ID, capture(owned("key")), NOON + 86_400_000_000, 8).unwrap();
    assert_eq!(again.path, write.path);
    let unkeyed = capture_write(ID, capture(None), NOON, 7).unwrap();
    assert_eq!(
        unkeyed.path,
        "Inbox/Captures/2026/08/01/00000000-0000-0000-0000-000000000007.md"
    );
    assert_eq!(unkeyed.expected_version, None);
    assert!(matches!(
        capture_write(ID, capture(owned("")), NOON, 7),
        Err(ApiError::Invalid { .. })
    ));
    let empty = CaptureRequest {
        content: " \n".to_owned(),
        ..capture(None)
    };
    assert!(matches!(
        capture_write(ID, empty, NOON, 7),
        Err(ApiError::Invalid { message }) if message == "capture content is required"
    ));
    assert!(matches!(
        capture_write(ID, capture(None), i64::MAX, 7),
        Err(ApiError::Internal { .. })
    ));
    let sourced = CaptureRequest {
        source: Json::object().with("url", Json::text("x")),
        ..capture(None)
    };
    assert!(capture_write(ID, sourced, NOON, 7)
        .unwrap()
        .content
        .ends_with("```json\n{\n  \"url\": \"x\"\n}\n```\n"));
}
