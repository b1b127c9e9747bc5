//! The receipts of checkpoints: of new ones, of repeated ones, and of ones that were
//! made before there were receipts.
use vstd::prelude::*;

#[allow(unused_imports)]
use crate::candidate::option_view;
use crate::checkpoint::{
    checkpoint_id_in, checkpoint_idempotency_conflict, write_text_items,
};
#[allow(unused_imports)]
use crate::checkpoint::{
    checkpoint_reply_of, id_of_json, identity_in, key_conflict, text_items,
};
#[allow(unused_imports)]
use crate::envelope::revision_text;
use crate::error::ApiError;
#[allow(unused_imports)]
use crate::error::{refusal, ApiErrorV};
#[allow(unused_imports)]
use crate::history::outcome;
use crate::json::Json;
#[allow(unused_imports)]
use crate::json::{integer, items_view, object, optional_text, JsonV};
use crate::outside::{entry_ref, sha256_hex};
#[allow(unused_imports)]
use crate::outside::{entry_ref_text, text_digest};
use crate::paths::{checkpoint_path, checkpoint_ref};
#[allow(unused_imports)]
use crate::paths::{checkpoint_path_text, checkpoint_ref_text};
use crate::read::EntryRow;
#[allow(unused_imports)]
use crate::render::hash_text;
use crate::requests::{markdown_media_type, CheckpointRequest, WriteRequest};
use crate::text::{cat, same};
use crate::upsert::{version_ref, MarkdownUpsertResult};
#[allow(unused_imports)]
use crate::upsert::version_ref_text;
use crate::write::{checkpoint_client_metadata, text_is};
#[allow(unused_imports)]
use crate::write::client_of;

verus! {

// ---------------------------------------------------------------------------
// Writing a checkpoint
// ---------------------------------------------------------------------------

/// A source as a checkpoint keeps it: pinned to the version it had.
pub open spec fn pinned_source_json(
    id: u128,
    path: Seq<char>,
    version: int,
    digest: Seq<char>,
) -> JsonV {
    object().with("entry_ref"@, JsonV::Text(entry_ref_text(id))).with(
        "path"@,
        JsonV::Text(path),
    ).with("version"@, integer(version)).with("content_hash"@, JsonV::Text(hash_text(digest)))
}

/// A source as a checkpoint keeps it, of what identifies the version it had.
pub fn pinned_source(id: u128, path: &str, version: i64, content_sha256: &str) -> (r: Json)
    ensures
        r@ == pinned_source_json(id, path@, version as int, content_sha256@),
{
    Json::object().with("entry_ref", Json::Text(entry_ref(id))).with("path", Json::text(path)).with(
        "version",
        Json::integer(version),
    ).with("content_hash", Json::Text(cat("sha256:", content_sha256)))
}

pub open spec fn pinned_json(entry: EntryRow) -> JsonV {
    pinned_source_json(entry.id, entry.path@, entry.version as int, entry.content_sha256@)
}

/// An entry as a checkpoint keeps it among its sources.
pub fn entry_reference(entry: &EntryRow) -> (r: Json)
    ensures
        r@ == pinned_json(*entry),
{
    pinned_source(entry.id, entry.path.as_str(), entry.version, entry.content_sha256.as_str())
}

pub open spec fn all_pinned(entries: Seq<EntryRow>) -> Seq<JsonV> {
    Seq::new(entries.len(), |i: int| pinned_json(entries[i]))
}

/// The sources as a checkpoint keeps them.
pub fn pin_sources(entries: &Vec<EntryRow>) -> (r: Vec<Json>)
    ensures
        items_view(r@) == all_pinned(entries@),
{
    let mut out: Vec<Json> = Vec::new();
    let mut i: usize = 0;
    while i < entries.len()
        invariant
            i <= entries@.len(),
            items_view(out@) == all_pinned(entries@).take(i as int),
        decreases entries@.len() - i,
    {
        let ghost held = out@;
        let source = entry_reference(&entries[i]);
        out.push(source);
        proof {
            assert(items_view(out@) =~= items_view(held).push(source@));
            assert(all_pinned(entries@).take(i + 1) =~= all_pinned(entries@).take(i as int).push(
                all_pinned(entries@)[i as int],
            ));
        }
        i = i + 1;
    }
    assert(all_pinned(entries@).take(i as int) =~= all_pinned(entries@));
    out
}

fn copy_items(items: &Vec<Json>) -> (r: Vec<Json>)
    ensures
        items_view(r@) == items_view(items@),
{
    let mut out: Vec<Json> = Vec::new();
    let mut i: usize = 0;
    while i < items.len()
        invariant
            i <= items@.len(),
            items_view(out@) == items_view(items@).take(i as int),
        decreases items@.len() - i,
    {
        let ghost held = out@;
        let item = items[i].copy();
        out.push(item);
        proof {
            assert(items_view(out@) =~= items_view(held).push(item@));
            assert(items_view(items@).take(i + 1) =~= items_view(items@).take(i as int).push(
                items@[i as int]@,
            ));
        }
        i = i + 1;
    }
    assert(items_view(items@).take(i as int) =~= items_view(items@));
    out
}

/// What is kept with the document of a checkpoint. The generation that the write
/// itself makes is not known yet.
pub open spec fn checkpoint_metadata(
    id: u128,
    generation: int,
    request: CheckpointRequest,
    sources: Seq<JsonV>,
    request_hash: Seq<char>,
) -> JsonV {
    object().with("kind"@, JsonV::Text("checkpoint"@)).with(
        "checkpoint_ref"@,
        JsonV::Text(checkpoint_ref_text(id)),
    ).with("workspace_generation"@, integer(generation)).with(
        "pinned_workspace_generation"@,
        integer(generation),
    ).with("resulting_workspace_generation"@, JsonV::Null).with(
        "session_id"@,
        JsonV::Text(request.session_id@),
    ).with(
        "parent_checkpoint_ref"@,
        optional_text(option_view(request.parent_checkpoint_id)),
    ).with("checkpoint_state"@, request.state@).with(
        "project"@,
        match request.state@.get("project"@) {
            Some(p) => p,
            None => JsonV::Null,
        },
    ).with("source_refs"@, text_items(request.source_refs@)).with(
        "source_entries"@,
        JsonV::Array(sources),
    ).with("request_hash"@, JsonV::Text(hash_text(request_hash))).with(
        "operation_kind"@,
        JsonV::Text("checkpoint"@),
    )
}

/// The write of a checkpoint: a new entry under its own path.
pub fn checkpoint_write(
    id: u128,
    generation: i64,
    request: &CheckpointRequest,
    content: String,
    sources: &Vec<Json>,
    idempotency_key: &str,
    request_hash: &str,
) -> (r: WriteRequest)
    ensures
        r.path@ == checkpoint_path_text(id),
        r.content == content,
        r.media_type@ == "text/markdown"@,
        r.expected_version == Some(0i64),
        option_view(r.idempotency_key) == Some(idempotency_key@),
        r.metadata@ == checkpoint_metadata(
            id,
            generation as int,
            *request,
            items_view(sources@),
            request_hash@,
        ),
{
    let project = match request.state.get("project") {
        Some(p) => p.copy(),
        None => Json::Null,
    };
    let metadata = Json::object().with("kind", Json::text("checkpoint")).with(
        "checkpoint_ref",
        Json::Text(checkpoint_ref(id)),
    ).with("workspace_generation", Json::integer(generation)).with(
        "pinned_workspace_generation",
        Json::integer(generation),
    ).with("resulting_workspace_generation", Json::Null).with(
        "session_id",
        Json::text(request.session_id.as_str()),
    ).with("parent_checkpoint_ref", Json::optional_text(&request.parent_checkpoint_id)).with(
        "checkpoint_state",
        request.state.copy(),
    ).with("project", project).with("source_refs", write_text_items(&request.source_refs)).with(
        "source_entries",
        Json::array(copy_items(sources)),
    ).with("request_hash", Json::Text(cat("sha256:", request_hash))).with(
        "operation_kind",
        Json::text("checkpoint"),
    );
    WriteRequest {
        path: checkpoint_path(id),
        content,
        media_type: markdown_media_type(),
        expected_version: Some(0),
        idempotency_key: Some(idempotency_key.to_owned()),
        metadata,
    }
}

/// What a checkpoint says of the generations: the one it is pinned to, and the one
/// that its write made.
pub open spec fn with_generations(client: JsonV, pinned: int, resulting: int) -> JsonV {
    client.with("workspace_generation"@, integer(pinned)).with(
        "pinned_workspace_generation"@,
        integer(pinned),
    ).with("resulting_workspace_generation"@, integer(resulting))
}

/// The metadata of a checkpoint once its write has made a generation.
pub open spec fn stamped(metadata: JsonV, pinned: int, resulting: int) -> JsonV {
    match metadata.get("client"@) {
        Some(client) => if client is Object {
            metadata.with("client"@, with_generations(client, pinned, resulting))
        } else {
            with_generations(metadata, pinned, resulting)
        },
        None => with_generations(metadata, pinned, resulting),
    }
}

fn put_generations(client: Json, pinned: i64, resulting: i64) -> (r: Json)
    ensures
        r@ == with_generations(client@, pinned as int, resulting as int),
{
    client.with("workspace_generation", Json::integer(pinned)).with(
        "pinned_workspace_generation",
        Json::integer(pinned),
    ).with("resulting_workspace_generation", Json::integer(resulting))
}

/// The metadata of a checkpoint once its write has made a generation.
pub fn set_checkpoint_resulting_generation(
    metadata: Json,
    pinned_generation: i64,
    resulting_generation: i64,
) -> (r: Json)
    requires
        metadata@ is Object,
    ensures
        r@ == stamped(metadata@, pinned_generation as int, resulting_generation as int),
{
    let client: Option<Json> = match metadata.get("client") {
        Some(client) => if client.is_object() {
            Some(client.copy())
        } else {
            None
        },
        None => None,
    };
    match client {
        Some(client) => metadata.with(
            "client",
            put_generations(client, pinned_generation, resulting_generation),
        ),
        None => put_generations(metadata, pinned_generation, resulting_generation),
    }
}

/// The receipt of a checkpoint.
pub open spec fn checkpoint_receipt_json(
    reference: Seq<char>,
    path: Seq<char>,
    entry_id: u128,
    version_id: u128,
    version: int,
    sha256: Seq<char>,
    pinned: int,
    resulting: int,
    sources: Seq<JsonV>,
) -> JsonV {
    object().with("checkpoint_id"@, JsonV::Text(reference)).with(
        "checkpoint_ref"@,
        JsonV::Text(reference),
    ).with("path"@, JsonV::Text(path)).with("workspace_generation"@, integer(resulting)).with(
        "pinned_workspace_generation"@,
        integer(pinned),
    ).with("resulting_workspace_generation"@, integer(resulting)).with(
        "source_entries"@,
        JsonV::Array(sources),
    ).with(
        "write"@,
        object().with("entry_ref"@, JsonV::Text(entry_ref_text(entry_id))).with(
            "version_ref"@,
            JsonV::Text(version_ref_text(version_id)),
        ).with("path"@, JsonV::Text(path)).with("version"@, integer(version)).with(
            "content_hash"@,
            JsonV::Text(hash_text(sha256)),
        ).with("workspace_generation"@, integer(resulting)).with(
            "pinned_workspace_generation"@,
            integer(pinned),
        ).with("resulting_workspace_generation"@, integer(resulting)).with(
            "search_status"@,
            JsonV::Text("lexical_ready_semantic_queued"@),
        ).with("metadata_only"@, JsonV::Bool(false)).with("no_op"@, JsonV::Bool(false)),
    )
}

/// The receipt of a checkpoint.
pub fn checkpoint_receipt_value(
    checkpoint_ref: &str,
    path: &str,
    entry_id: u128,
    version_id: u128,
    version: i64,
    content_sha256: &str,
    pinned_generation: i64,
    resulting_generation: i64,
    source_entries: Vec<Json>,
) -> (r: Json)
    ensures
        r@ == checkpoint_receipt_json(
            checkpoint_ref@,
            path@,
            entry_id,
            version_id,
            version as int,
            content_sha256@,
            pinned_generation as int,
            resulting_generation as int,
            items_view(source_entries@),
        ),
{
    Json::object().with("checkpoint_id", Json::text(checkpoint_ref)).with(
        "checkpoint_ref",
        Json::text(checkpoint_ref),
    ).with("path", Json::text(path)).with(
        "workspace_generation",
        Json::integer(resulting_generation),
    ).with("pinned_workspace_generation", Json::integer(pinned_generation)).with(
        "resulting_workspace_generation",
        Json::integer(resulting_generation),
    ).with("source_entries", Json::array(source_entries)).with(
        "write",
        Json::object().with("entry_ref", Json::Text(entry_ref(entry_id))).with(
            "version_ref",
            Json::Text(version_ref(version_id)),
        ).with("path", Json::text(path)).with("version", Json::integer(version)).with(
            "content_hash",
            Json::Text(cat("sha256:", content_sha256)),
        ).with("workspace_generation", Json::integer(resulting_generation)).with(
            "pinned_workspace_generation",
            Json::integer(pinned_generation),
        ).with("resulting_workspace_generation", Json::integer(resulting_generation)).with(
            "search_status",
            Json::text("lexical_ready_semantic_queued"),
        ).with("metadata_only", Json::Bool(false)).with("no_op", Json::Bool(false)),
    )
}

/// The version and the generation that the write of a checkpoint made. A write that
/// found the checkpoint as it is made them before: `change_generation` is that of
/// the change.
pub fn checkpoint_made(result: &MarkdownUpsertResult, change_generation: Option<i64>) -> (r: Result<
    (u128, i64),
    ApiError,
>)
    ensures
        refusal(r) == if result.generation is None && change_generation is None {
            Some(
                ApiErrorV::Internal("checkpoint entry exists without a workspace change receipt"@),
            )
        } else if result.version_id is None {
            Some(
                ApiErrorV::Internal("checkpoint write did not produce a version reference"@),
            )
        } else {
            None
        },
        r matches Ok(made) ==> Some(made.0) == result.version_id && Some(made.1)
            == match result.generation {
            Some(g) => Some(g),
            None => change_generation,
        },
{
    let generation: i64 = match result.generation {
        Some(g) => g,
        None => match change_generation {
            Some(g) => g,
            None => {
                return Err(
                    ApiError::internal(
                        "checkpoint entry exists without a workspace change receipt",
                    ),
                );
            },
        },
    };
    match result.version_id {
        Some(id) => Ok((id, generation)),
        None => Err(
            ApiError::internal("checkpoint write did not produce a version reference"),
        ),
    }
}

/// The receipt of a checkpoint always tells the state of the workspace that the
/// checkpoint made.
pub proof fn lemma_receipt_tells_generation(
    session: Seq<char>,
    reference: Seq<char>,
    path: Seq<char>,
    entry_id: u128,
    version_id: u128,
    version: int,
    sha256: Seq<char>,
    pinned: int,
    resulting: i64,
    sources: Seq<JsonV>,
)
    ensures
        ({
            let receipt = checkpoint_receipt_json(
                reference,
                path,
                entry_id,
                version_id,
                version,
                sha256,
                pinned,
                resulting as int,
                sources,
            );
            checkpoint_reply_of(session, receipt) is Ok && checkpoint_reply_of(
                session,
                receipt,
            )->Ok_0.corpus_revision == Some(revision_text(resulting as int))
        }),
{
    reveal_strlit("resulting_workspace_generation");
    reveal_strlit("source_entries");
    reveal_strlit("write");
    assert("resulting_workspace_generation"@.len() == 30);
    assert("source_entries"@.len() == 14);
    assert("write"@.len() == 5);
    let receipt = checkpoint_receipt_json(
        reference,
        path,
        entry_id,
        version_id,
        version,
        sha256,
        pinned,
        resulting as int,
        sources,
    );
    assert(receipt.get("resulting_workspace_generation"@) == Some(integer(resulting as int)));
}

// ---------------------------------------------------------------------------
// Checkpoints that were made before there were receipts
// ---------------------------------------------------------------------------

/// A checkpoint without a receipt, in its current version.
#[derive(Debug)]
pub struct LegacyCheckpoint {
    pub id: u128,
    pub path: String,
    pub current_version: i64,
    pub version_id: u128,
    pub content_sha256: String,
    pub metadata: Json,
}

/// By what a checkpoint without a receipt is looked for: by the digest of the key of
/// the request, where it has one.
pub fn legacy_key_hash(request: &CheckpointRequest, idempotency_key: &str) -> (r: Option<String>)
    ensures
        option_view(r) == if request.idempotency_key is Some {
            Some(text_digest(idempotency_key@))
        } else {
            None
        },
{
    if request.idempotency_key.is_some() {
        Some(sha256_hex(idempotency_key))
    } else {
        None
    }
}

/// The session that a checkpoint was made in.
pub open spec fn session_of(metadata: JsonV) -> Option<Seq<char>> {
    client_of(metadata).get_text("session_id"@)
}

/// The session that a checkpoint was made in.
pub fn legacy_session(metadata: &Json) -> (r: Option<String>)
    ensures
        option_view(r) == session_of(metadata@),
{
    match checkpoint_client_metadata(metadata).get_text("session_id") {
        Some(session) => Some(session.clone()),
        None => None,
    }
}

/// Whether a checkpoint is the one that the request would have made in the session
/// that the checkpoint was made in.
pub open spec fn is_same_request(row: LegacyCheckpoint, request: CheckpointRequest) -> bool {
    match session_of(row.metadata@) {
        Some(session) => row.path@ == checkpoint_path_text(
            id_of_json(identity_in(request, session)) as u128,
        ),
        None => false,
    }
}

/// What is taken over of a checkpoint without a receipt.
#[derive(Clone, Copy, Debug, PartialEq, Eq, Structural)]
pub struct Adoption {
    pub checkpoint_id: u128,
    pub pinned_generation: i64,
}

pub open spec fn pinned_of(client: JsonV) -> Option<int> {
    match client.get("pinned_workspace_generation"@) {
        Some(v) => v.integer(),
        None => client.get_integer("workspace_generation"@),
    }
}

/// What is taken over: the first of the checkpoints, where all of them were made by
/// this request. One that another request made is a conflict.
pub open spec fn adoption_of(
    rows: Seq<LegacyCheckpoint>,
    request: CheckpointRequest,
    key: Seq<char>,
) -> Result<Option<Adoption>, ApiErrorV> {
    if rows.len() == 0 {
        Ok(None)
    } else if exists|i: int|
        0 <= i < rows.len() && !is_same_request(#[trigger] rows[i], request) {
        Err(key_conflict(key))
    } else {
        let client = client_of(rows[0].metadata@);
        if client.get_text("kind"@) != Some("checkpoint"@) {
            Err(key_conflict(key))
        } else {
            match pinned_of(client) {
                Some(pinned) => Ok(
                    Some(
                        Adoption {
                            checkpoint_id: id_of_json(
                                identity_in(request, session_of(rows[0].metadata@)->0),
                            ) as u128,
                            pinned_generation: pinned as i64,
                        },
                    ),
                ),
                None => Err(
                    ApiErrorV::Internal("legacy checkpoint is missing its pinned generation"@),
                ),
            }
        }
    }
}

/// What is taken over of checkpoints without a receipt.
pub fn adopt_legacy_checkpoint(
    rows: &Vec<LegacyCheckpoint>,
    request: &CheckpointRequest,
    idempotency_key: &str,
) -> (r: Result<Option<Adoption>, ApiError>)
    ensures
        outcome(r) == adoption_of(rows@, *request, idempotency_key@),
{
    if rows.len() == 0 {
        return Ok(None);
    }
    let mut first: u128 = 0;
    let mut i: usize = 0;
    while i < rows.len()
        invariant
            i <= rows@.len(),
            forall|k: int| 0 <= k < i ==> is_same_request(#[trigger] rows@[k], *request),
            i > 0 ==> first == id_of_json(
                identity_in(*request, session_of(rows@[0].metadata@)->0),
            ),
        decreases rows@.len() - i,
    {
        let session = match legacy_session(&rows[i].metadata) {
            Some(session) => session,
            None => {
                assert(!is_same_request(rows@[i as int], *request));
                return Err(checkpoint_idempotency_conflict(idempotency_key));
            },
        };
        let id = checkpoint_id_in(request, session.as_str());
        if !same(rows[i].path.as_str(), checkpoint_path(id).as_str()) {
            assert(!is_same_request(rows@[i as int], *request));
            return Err(checkpoint_idempotency_conflict(idempotency_key));
        }
        if i == 0 {
            first = id;
        }
        i = i + 1;
    }
    let client = checkpoint_client_metadata(&rows[0].metadata);
    if !text_is(client, "kind", "checkpoint") {
        return Err(checkpoint_idempotency_conflict(idempotency_key));
    }
    let pinned: Option<i64> = match client.get("pinned_workspace_generation") {
        Some(v) => v.as_integer(),
        None => client.get_integer("workspace_generation"),
    };
    match pinned {
        Some(pinned_generation) => Ok(
            Some(
                Adoption {
                    checkpoint_id: first,
                    pinned_generation,
                },
            ),
        ),
        None => Err(ApiError::internal("legacy checkpoint is missing its pinned generation")),
    }
}

pub open spec fn kept_sources(client: JsonV) -> Seq<JsonV> {
    match client.get("source_entries"@) {
        Some(JsonV::Array(items)) => items,
        _ => Seq::empty(),
    }
}

/// The receipt of a checkpoint that is taken over, `change_generation` being that of
/// the change that made it.
pub fn adopted_receipt(
    row: &LegacyCheckpoint,
    adoption: &Adoption,
    change_generation: Option<i64>,
) -> (r: Result<Json, ApiError>)
    ensures
        match r {
            Ok(receipt) => change_generation is Some && receipt@ == checkpoint_receipt_json(
                checkpoint_ref_text(adoption.checkpoint_id),
                checkpoint_path_text(adoption.checkpoint_id),
                row.id,
                row.version_id,
                row.current_version as int,
                row.content_sha256@,
                adoption.pinned_generation as int,
                change_generation->0 as int,
                kept_sources(client_of(row.metadata@)),
            ),
            Err(e) => change_generation is None && e@ == ApiErrorV::Internal(
                "legacy checkpoint is missing its workspace change"@,
            ),
        },
{
    let resulting: i64 = match change_generation {
        Some(g) => g,
        None => {
            return Err(ApiError::internal("legacy checkpoint is missing its workspace change"));
        },
    };
    let client = checkpoint_client_metadata(&row.metadata);
    let sources: Vec<Json> = match client.get("source_entries") {
        Some(v) => match v.as_array() {
            Some(items) => copy_items(items),
            None => Vec::new(),
        },
        None => Vec::new(),
    };
    assert(items_view(sources@) =~= kept_sources(client_of(row.metadata@)));
    Ok(
        checkpoint_receipt_value(
            checkpoint_ref(adoption.checkpoint_id).as_str(),
            checkpoint_path(adoption.checkpoint_id).as_str(),
            row.id,
            row.version_id,
            row.current_version,
            row.content_sha256.as_str(),
            adoption.pinned_generation,
            resulting,
            sources,
        ),
    )
}

/// A checkpoint that another request made is never taken over.
pub proof fn lemma_adoption_is_request_bound(
    rows: Seq<LegacyCheckpoint>,
    request: CheckpointRequest,
    key: Seq<char>,
    i: int,
)
    requires
        0 <= i < rows.len(),
        !is_same_request(rows[i], request),
    ensures
        adoption_of(rows, request, key) == Err::<Option<Adoption>, ApiErrorV>(key_conflict(key)),
{
}

// ---------------------------------------------------------------------------
// Reading a checkpoint
// ---------------------------------------------------------------------------

pub open spec fn member_or_null(value: JsonV, key: Seq<char>) -> JsonV {
    match value.get(key) {
        Some(v) => v,
        None => JsonV::Null,
    }
}

fn copy_member(value: &Json, key: &str) -> (r: Json)
    ensures
        r@ == member_or_null(value@, key@),
{
    match value.get(key) {
        Some(v) => v.copy(),
        None => Json::Null,
    }
}

/// A checkpoint as work is resumed from it.
pub open spec fn resumed_json(reference: Seq<char>, entry: EntryRow) -> JsonV {
    let client = client_of(entry.metadata@);
    object().with("checkpoint_id"@, JsonV::Text(reference)).with(
        "path"@,
        JsonV::Text(entry.path@),
    ).with("workspace_generation"@, member_or_null(client, "workspace_generation"@)).with(
        "pinned_workspace_generation"@,
        match client.get("pinned_workspace_generation"@) {
            Some(v) => v,
            None => member_or_null(client, "workspace_generation"@),
        },
    ).with(
        "resulting_workspace_generation"@,
        member_or_null(client, "resulting_workspace_generation"@),
    ).with("text"@, optional_text(option_view(entry.content))).with(
        "source_entries"@,
        member_or_null(client, "source_entries"@),
    )
}

/// A checkpoint as work is resumed from it.
pub fn read_checkpoint(reference: &str, entry: &EntryRow) -> (r: Result<Json, ApiError>)
    ensures
        match r {
            Ok(j) => client_of(entry.metadata@).get_text("kind"@) == Some("checkpoint"@) && j@
                == resumed_json(reference@, *entry),
            Err(e) => client_of(entry.metadata@).get_text("kind"@) != Some("checkpoint"@) && e@
                == ApiErrorV::Invalid(
                "resume_checkpoint_ref does not identify a checkpoint entry"@,
            ),
        },
{
    let client = checkpoint_client_metadata(&entry.metadata);
    if !text_is(client, "kind", "checkpoint") {
        return Err(
            ApiError::invalid("resume_checkpoint_ref does not identify a checkpoint entry"),
        );
    }
    let pinned = match client.get("pinned_workspace_generation") {
        Some(v) => v.copy(),
        None => copy_member(client, "workspace_generation"),
    };
    Ok(
        Json::object().with("checkpoint_id", Json::text(reference)).with(
            "path",
            Json::text(entry.path.as_str()),
        ).with("workspace_generation", copy_member(client, "workspace_generation")).with(
            "pinned_workspace_generation",
            pinned,
        ).with(
            "resulting_workspace_generation",
            copy_member(client, "resulting_workspace_generation"),
        ).with("text", Json::optional_text(&entry.content)).with(
            "source_entries",
            copy_member(client, "source_entries"),
        ),
    )
}

}
