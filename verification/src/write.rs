//! Writing documents: what is accepted, and what a write does to the entry that is
//! there.
use vstd::prelude::*;

use crate::envelope::{Reply, ResponseStatus};
#[allow(unused_imports)]
use crate::envelope::ReplyV;
use crate::error::ApiError;
#[allow(unused_imports)]
use crate::error::{refusal, ApiErrorV};
use crate::history::{is_workspace_import, validate_tier_a_history_request, TierAHistoryStage};
#[allow(unused_imports)]
use crate::history::{imported, outcome, requested_stage, stage_of};
use crate::json::Json;
#[allow(unused_imports)]
use crate::json::{integer, items_view, object, JsonV};
use crate::outside::{entry_ref, sha256_hex, uuid_parse};
#[allow(unused_imports)]
use crate::outside::{text_digest, uuid_value};
use crate::paths::{
    checkpoint_id_of_path, checkpoint_ref, is_checkpoint_path, is_managed,
    validate_idempotency_key, validate_path,
};
#[allow(unused_imports)]
use crate::paths::{
    checkpoint_of_path, checkpoint_ref_text, managed, printable, safe_path, utf8_len,
    MAX_KEY_BYTES,
};
use crate::read::MAX_CONVERSATION_BYTES;
use crate::requests::{markdown_media_type, WriteRequest};
#[allow(unused_imports)]
use crate::seqs::lemma_map_take;
use crate::text::{byte_len, contains, ends_with, lower, same, starts_with, strip_prefix};
#[allow(unused_imports)]
use crate::text::{behind, has_prefix, has_suffix, occurs, lower_case};

verus! {

/// The most bytes a document has.
pub const MAX_WRITE_BYTES: usize = 4_194_304;

// ---------------------------------------------------------------------------
// What metadata says
// ---------------------------------------------------------------------------

/// What the client said of an entry: the member `client` of its metadata, or the
/// metadata itself.
pub open spec fn client_of(metadata: JsonV) -> JsonV {
    match metadata.get("client"@) {
        Some(v) => if v is Object {
            v
        } else {
            metadata
        },
        None => metadata,
    }
}

/// What the client said of an entry.
pub fn checkpoint_client_metadata(metadata: &Json) -> (r: &Json)
    ensures
        r@ == client_of(metadata@),
{
    match metadata.get("client") {
        Some(v) => if v.is_object() {
            v
        } else {
            metadata
        },
        None => metadata,
    }
}

/// Whether a member of an object is a certain text.
pub fn text_is(value: &Json, key: &str, text: &str) -> (r: bool)
    ensures
        r == (value@.get_text(key@) == Some(text@)),
{
    match value.get_text(key) {
        Some(t) => same(t.as_str(), text),
        None => false,
    }
}

/// Whether a write imports a checkpoint.
pub open spec fn imports_checkpoint(path: Seq<char>, metadata: JsonV) -> bool {
    checkpoint_of_path(path) is Some && imported(metadata) && client_of(metadata).get_text(
        "kind"@,
    ) == Some("checkpoint"@)
}

/// Whether a write imports a checkpoint.
pub fn is_portable_checkpoint_import(path: &str, metadata: &Json) -> (r: bool)
    ensures
        r == imports_checkpoint(path@, metadata@),
{
    is_checkpoint_path(path) && is_workspace_import(metadata) && text_is(
        checkpoint_client_metadata(metadata),
        "kind",
        "checkpoint",
    )
}

/// The parent that an imported checkpoint names.
pub open spec fn parent_of_import(metadata: JsonV) -> Result<Option<u128>, ApiErrorV> {
    match client_of(metadata).get("parent_checkpoint_ref"@) {
        None => Ok(None),
        Some(JsonV::Null) => Ok(None),
        Some(JsonV::Text(reference)) => match behind(reference, "checkpoint:"@) {
            None => Err(
                ApiErrorV::Invalid("imported checkpoint parent must use checkpoint:<uuid>"@),
            ),
            Some(raw) => match uuid_value(raw) {
                Some(id) => Ok(Some(id)),
                None => Err(
                    ApiErrorV::Invalid("imported checkpoint parent reference is invalid"@),
                ),
            },
        },
        Some(_) => Err(
            ApiErrorV::Invalid(
                "imported checkpoint parent_checkpoint_ref must be a string or null"@,
            ),
        ),
    }
}

/// The parent that an imported checkpoint names.
pub fn imported_checkpoint_parent(metadata: &Json) -> (r: Result<Option<u128>, ApiError>)
    ensures
        outcome(r) == parent_of_import(metadata@),
{
    match checkpoint_client_metadata(metadata).get("parent_checkpoint_ref") {
        None => Ok(None),
        Some(Json::Null) => Ok(None),
        Some(Json::Text(reference)) => match strip_prefix(reference.as_str(), "checkpoint:") {
            None => Err(
                ApiError::invalid("imported checkpoint parent must use checkpoint:<uuid>"),
            ),
            Some(raw) => match uuid_parse(raw.as_str()) {
                Some(id) => Ok(Some(id)),
                None => Err(ApiError::invalid("imported checkpoint parent reference is invalid")),
            },
        },
        Some(_) => Err(
            ApiError::invalid("imported checkpoint parent_checkpoint_ref must be a string or null"),
        ),
    }
}

/// The parent that has to exist before a checkpoint is imported: not the checkpoint
/// itself.
pub open spec fn awaited_parent(
    child_path: Seq<char>,
    metadata: JsonV,
) -> Result<Option<u128>, ApiErrorV> {
    match parent_of_import(metadata) {
        Ok(Some(parent)) => match checkpoint_of_path(child_path) {
            None => Err(ApiErrorV::Invalid("imported checkpoint path is invalid"@)),
            Some(child) => if parent == child {
                Err(
                    ApiErrorV::Conflict(
                        "checkpoint_parent_cycle"@,
                        "an imported checkpoint cannot parent itself"@,
                        object().with("checkpoint_ref"@, JsonV::Text(checkpoint_ref_text(child))),
                    ),
                )
            } else {
                Ok(Some(parent))
            },
        },
        other => other,
    }
}

/// The parent that has to exist before a checkpoint is imported.
pub fn imported_parent(child_path: &str, metadata: &Json) -> (r: Result<Option<u128>, ApiError>)
    ensures
        outcome(r) == awaited_parent(child_path@, metadata@),
{
    let parent: u128 = match imported_checkpoint_parent(metadata) {
        Ok(Some(parent)) => parent,
        Ok(None) => {
            return Ok(None);
        },
        Err(e) => {
            return Err(e);
        },
    };
    match checkpoint_id_of_path(child_path) {
        None => Err(ApiError::invalid("imported checkpoint path is invalid")),
        Some(child) => if parent == child {
            Err(
                ApiError::conflict(
                    "checkpoint_parent_cycle",
                    "an imported checkpoint cannot parent itself",
                    Json::object().with("checkpoint_ref", Json::Text(checkpoint_ref(child))),
                ),
            )
        } else {
            Ok(Some(parent))
        },
    }
}

pub open spec fn unresolved_parent(parent: u128, message: Seq<char>) -> ApiErrorV {
    ApiErrorV::Conflict(
        "checkpoint_parent_unresolved"@,
        message,
        object().with("parent_checkpoint_ref"@, JsonV::Text(checkpoint_ref_text(parent))),
    )
}

/// Accepts the parent of an imported checkpoint, by the metadata of the entry under
/// the parent's path: that entry has to be the checkpoint.
pub fn check_imported_parent(parent: u128, parent_metadata: Option<&Json>) -> (r: Result<
    (),
    ApiError,
>)
    ensures
        refusal(r) == match parent_metadata {
            None => Some(
                unresolved_parent(
                    parent,
                    "imported checkpoint parent must already exist for the same user"@,
                ),
            ),
            Some(m) => if client_of(m@).get_text("kind"@) == Some("checkpoint"@) && client_of(
                m@,
            ).get_text("checkpoint_ref"@) == Some(checkpoint_ref_text(parent)) {
                None
            } else {
                Some(
                    unresolved_parent(
                        parent,
                        "imported checkpoint parent does not resolve to a checkpoint entry"@,
                    ),
                )
            },
        },
{
    let reference = checkpoint_ref(parent);
    let metadata = match parent_metadata {
        Some(m) => m,
        None => {
            return Err(
                ApiError::conflict(
                    "checkpoint_parent_unresolved",
                    "imported checkpoint parent must already exist for the same user",
                    Json::object().with("parent_checkpoint_ref", Json::Text(reference)),
                ),
            );
        },
    };
    let client = checkpoint_client_metadata(metadata);
    if text_is(client, "kind", "checkpoint") && text_is(
        client,
        "checkpoint_ref",
        reference.as_str(),
    ) {
        Ok(())
    } else {
        Err(
            ApiError::conflict(
                "checkpoint_parent_unresolved",
                "imported checkpoint parent does not resolve to a checkpoint entry",
                Json::object().with("parent_checkpoint_ref", Json::Text(reference)),
            ),
        )
    }
}

// ---------------------------------------------------------------------------
// An imported checkpoint in its new workspace
// ---------------------------------------------------------------------------

pub open spec fn without_refs(sources: Seq<JsonV>) -> Seq<JsonV> {
    sources.map_values(|s: JsonV| s.without("entry_ref"@))
}

/// What an imported checkpoint says of itself in its new workspace: the generation
/// it was written at there, the one it came from, and its sources without the
/// identities they had.
pub open spec fn rebased_client(client: JsonV, generation: int) -> JsonV {
    let remembered = match client.get("workspace_generation"@) {
        Some(origin) => if client.get("origin_workspace_generation"@) is None {
            client.with("origin_workspace_generation"@, origin)
        } else {
            client
        },
        None => client,
    };
    let moved = remembered.with("workspace_generation"@, integer(generation));
    match moved.get("source_entries"@) {
        Some(JsonV::Array(sources)) => moved.with(
            "source_entries"@,
            JsonV::Array(without_refs(sources)),
        ),
        _ => moved,
    }
}

/// The metadata of an imported checkpoint in its new workspace.
pub open spec fn rebased(metadata: JsonV, generation: int) -> JsonV {
    match metadata.get("client"@) {
        Some(client) => if client is Object {
            metadata.with("client"@, rebased_client(client, generation))
        } else {
            rebased_client(metadata, generation)
        },
        None => rebased_client(metadata, generation),
    }
}

fn rebase_client(client: Json, generation: i64) -> (r: Json)
    ensures
        r@ == rebased_client(client@, generation as int),
{
    let origin: Option<Json> = match client.get("workspace_generation") {
        Some(origin) => match client.get("origin_workspace_generation") {
            None => Some(origin.copy()),
            Some(_) => None,
        },
        None => None,
    };
    let remembered = match origin {
        Some(origin) => client.with("origin_workspace_generation", origin),
        None => client,
    };
    let moved = remembered.with("workspace_generation", Json::integer(generation));
    let sources: Option<Vec<Json>> = match moved.get("source_entries") {
        Some(value) => match value.as_array() {
            Some(sources) => {
                let mut out: Vec<Json> = Vec::new();
                let ghost all = items_view(sources@);
                let ghost f = |s: JsonV| s.without("entry_ref"@);
                let mut i: usize = 0;
                assert(items_view(out@) =~= all.take(0).map_values(f));
                while i < sources.len()
                    invariant
                        i <= sources@.len(),
                        all == items_view(sources@),
                        f == (|s: JsonV| s.without("entry_ref"@)),
                        items_view(out@) == all.take(i as int).map_values(f),
                    decreases sources@.len() - i,
                {
                    let ghost held = out@;
                    let source = sources[i].copy().without("entry_ref");
                    out.push(source);
                    proof {
                        lemma_map_take(all, f, i as int);
                        assert(items_view(out@) =~= items_view(held).push(source@));
                    }
                    i = i + 1;
                }
                assert(all.take(i as int) =~= all);
                Some(out)
            },
            None => None,
        },
        None => None,
    };
    match sources {
        Some(sources) => moved.with("source_entries", Json::array(sources)),
        None => moved,
    }
}

/// The metadata of an imported checkpoint in its new workspace.
pub fn rebase_imported_checkpoint_metadata(metadata: Json, generation: i64) -> (r: Json)
    requires
        metadata@ is Object,
    ensures
        r@ == rebased(metadata@, generation as int),
{
    let client: Option<Json> = match metadata.get("client") {
        Some(client) => if client.is_object() {
            Some(client.copy())
        } else {
            None
        },
        None => None,
    };
    match client {
        Some(client) => metadata.with("client", rebase_client(client, generation)),
        None => rebase_client(metadata, generation),
    }
}

/// A checkpoint remembers the generation that it was first written at, however often
/// it is moved.
pub proof fn lemma_origin_is_remembered(client: JsonV, first: int, second: int)
    requires
        client is Object,
    ensures
        rebased_client(client, first).get("workspace_generation"@) == Some(integer(first)),
        rebased_client(client, first).get("origin_workspace_generation"@) == match client.get(
            "origin_workspace_generation"@,
        ) {
            Some(origin) => Some(origin),
            None => client.get("workspace_generation"@),
        },
        client.get("workspace_generation"@) is Some ==> rebased_client(
            rebased_client(client, first),
            second,
        ).get("origin_workspace_generation"@) == rebased_client(client, first).get(
            "origin_workspace_generation"@,
        ),
{
    reveal_strlit("workspace_generation");
    reveal_strlit("origin_workspace_generation");
    reveal_strlit("source_entries");
    assert("workspace_generation"@.len() == 20);
    assert("origin_workspace_generation"@.len() == 27);
    assert("source_entries"@.len() == 14);
}

// ---------------------------------------------------------------------------
// Which writes are accepted
// ---------------------------------------------------------------------------

/// Whether a document is the summary of a session in which nothing was worth
/// keeping.
pub open spec fn noop_summary(path: Seq<char>, content: Seq<char>) -> bool {
    has_prefix(path, "agent-memory/"@) && (occurs(lower_case(content), "no durable memory"@)
        || occurs(lower_case(content), "no durable memories"@) || occurs(
        lower_case(content),
        "nothing durable could be extracted"@,
    ))
}

/// Whether a document is the summary of a session in which nothing was worth
/// keeping; such summaries are not admitted among the memories of agents.
pub fn is_agent_memory_noop_summary(path: &str, content: &str) -> (r: bool)
    ensures
        r == noop_summary(path@, content@),
{
    if !starts_with(path, "agent-memory/") {
        return false;
    }
    let lowered = lower(content);
    contains(lowered.as_str(), "no durable memory") || contains(
        lowered.as_str(),
        "no durable memories",
    ) || contains(lowered.as_str(), "nothing durable could be extracted")
}

/// The reply to a write of such a summary.
pub open spec fn noop_summary_reply_of(path: Seq<char>) -> ReplyV {
    ReplyV {
        session_id: None,
        corpus_revision: None,
        status: ResponseStatus::NoOp,
        data: object().with("path"@, JsonV::Text(path)).with("no_op"@, JsonV::Bool(true)).with(
            "reason"@,
            JsonV::Text("agent_memory_noop_summary"@),
        ),
        gaps: Seq::empty(),
    }
}

pub fn noop_summary_reply(path: &str) -> (r: Reply)
    ensures
        r@ == noop_summary_reply_of(path@),
{
    let gaps: Vec<Json> = Vec::new();
    let r = Reply {
        session_id: None,
        corpus_revision: None,
        status: ResponseStatus::NoOp,
        data: Json::object().with("path", Json::text(path)).with("no_op", Json::Bool(true)).with(
            "reason",
            Json::text("agent_memory_noop_summary"),
        ),
        gaps,
    };
    assert(r@.gaps =~= Seq::empty());
    r
}

/// What the messaging service says of a document.
#[derive(Debug)]
pub enum ConversationCheck {
    /// The path is not one of a conversation.
    NotAsked,
    /// The document is a conversation.
    Valid,
    /// The document has nothing of a conversation.
    Absent,
    /// The document is a conversation that is not well formed.
    Invalid { message: String },
}

/// Whether a managed path may be written with this request, by what the metadata
/// says: only an import that states the version it expects restores a checkpoint,
/// the description of a file, a task or a conversation.
pub open spec fn restores(
    request: WriteRequest,
    task: bool,
    conversation: ConversationCheck,
) -> bool {
    let client = client_of(request.metadata@);
    let checkpoint = match checkpoint_of_path(request.path@) {
        Some(id) => client.get_text("kind"@) == Some("checkpoint"@) && (client.get_text(
            "checkpoint_ref"@,
        ) is None || client.get_text("checkpoint_ref"@) == Some(checkpoint_ref_text(id))),
        None => false,
    };
    let companion = has_prefix(request.path@, ".brunn/binaries/"@) && has_suffix(
        request.path@,
        ".md"@,
    ) && client.get_text("kind"@) == Some("binary_description"@) && client.get_text(
        "binary_path"@,
    ) is Some;
    imported(request.metadata@) && request.expected_version is Some && (checkpoint || companion
        || task || conversation is Valid)
}

/// Why the path of a write is not accepted.
pub open spec fn write_path_refusal(
    request: WriteRequest,
    task: Result<bool, ApiErrorV>,
    conversation: ConversationCheck,
) -> Option<ApiErrorV> {
    if !safe_path(request.path@) {
        Some(ApiErrorV::Invalid("path must be a safe relative workspace path"@))
    } else if !managed(request.path@) {
        None
    } else if task is Err {
        Some(task->Err_0)
    } else if !(conversation is NotAsked) && utf8_len(request.content@) > MAX_CONVERSATION_BYTES {
        Some(
            ApiErrorV::Public(
                413,
                "conversation_entry_too_large"@,
                "canonical conversation Markdown is limited to 12 MiB"@,
            ),
        )
    } else if conversation is Invalid {
        Some(ApiErrorV::Invalid(conversation->message@))
    } else if restores(request, task->Ok_0, conversation) {
        None
    } else {
        Some(ApiErrorV::Invalid("the .brunn namespace is reserved for workspace-managed entries"@))
    }
}

/// Accepts the path of a write. `task` is whether the document is a task, by the
/// task service; `conversation` is what the messaging service says.
pub fn validate_write_path(
    request: &WriteRequest,
    task: Result<bool, ApiError>,
    conversation: &ConversationCheck,
) -> (r: Result<(), ApiError>)
    ensures
        refusal(r) == write_path_refusal(*request, outcome(task), *conversation),
{
    match validate_path(request.path.as_str()) {
        Ok(_) => {},
        Err(e) => {
            return Err(e);
        },
    }
    if !is_managed(request.path.as_str()) {
        return Ok(());
    }
    let task: bool = match task {
        Ok(task) => task,
        Err(e) => {
            return Err(e);
        },
    };
    let conversation: bool = match conversation {
        ConversationCheck::NotAsked => false,
        ConversationCheck::Valid => {
            if byte_len(request.content.as_str()) > MAX_CONVERSATION_BYTES {
                return Err(conversation_too_large());
            }
            true
        },
        ConversationCheck::Absent => {
            if byte_len(request.content.as_str()) > MAX_CONVERSATION_BYTES {
                return Err(conversation_too_large());
            }
            false
        },
        ConversationCheck::Invalid { message } => {
            if byte_len(request.content.as_str()) > MAX_CONVERSATION_BYTES {
                return Err(conversation_too_large());
            }
            return Err(ApiError::invalid(message.as_str()));
        },
    };
    let client = checkpoint_client_metadata(&request.metadata);
    let checkpoint = match checkpoint_id_of_path(request.path.as_str()) {
        Some(id) => text_is(client, "kind", "checkpoint") && (match client.get_text(
            "checkpoint_ref",
        ) {
            Some(reference) => same(reference.as_str(), checkpoint_ref(id).as_str()),
            None => true,
        }),
        None => false,
    };
    let companion = starts_with(request.path.as_str(), ".brunn/binaries/") && ends_with(
        request.path.as_str(),
        ".md",
    ) && text_is(client, "kind", "binary_description") && client.get_text("binary_path").is_some();
    if is_workspace_import(&request.metadata) && request.expected_version.is_some() && (checkpoint
        || companion || task || conversation) {
        return Ok(());
    }
    Err(ApiError::invalid("the .brunn namespace is reserved for workspace-managed entries"))
}

fn conversation_too_large() -> (r: ApiError)
    ensures
        r@ == ApiErrorV::Public(
            413,
            "conversation_entry_too_large"@,
            "canonical conversation Markdown is limited to 12 MiB"@,
        ),
{
    ApiError::public(
        413,
        "conversation_entry_too_large",
        "canonical conversation Markdown is limited to 12 MiB",
    )
}

/// A managed path is never written by a request that does not come from an import,
/// or that does not state the version it expects.
pub proof fn lemma_managed_paths_are_only_restored(
    request: WriteRequest,
    task: Result<bool, ApiErrorV>,
    conversation: ConversationCheck,
)
    requires
        managed(request.path@),
        write_path_refusal(request, task, conversation) is None,
    ensures
        imported(request.metadata@),
        request.expected_version is Some,
{
}

// ---------------------------------------------------------------------------
// Preparing a document
// ---------------------------------------------------------------------------

/// A part of a document that is searched on its own.
#[derive(Clone, Debug)]
pub struct DocumentChunk {
    pub ordinal: usize,
    pub heading: String,
    pub content: String,
    pub estimated_tokens: usize,
}

/// What other services say of a document.
#[derive(Debug)]
pub struct DocumentFacts {
    /// Whether the document claims to be a conversation.
    pub conversation_candidate: bool,
    /// Whether the messaging service takes the metadata for that of an import.
    pub workspace_import: bool,
    pub conversation: ConversationCheck,
    /// Whether the document is a task.
    pub task: Result<bool, ApiError>,
    pub title: String,
    pub content_hash: String,
    pub chunks: Vec<DocumentChunk>,
}

/// A document that is ready to be written.
#[derive(Debug)]
pub struct PreparedMarkdown {
    pub entry_id_hint: Option<u128>,
    pub path: String,
    pub title: String,
    pub content: String,
    pub content_sha256: String,
    pub media_type: String,
    pub metadata: Json,
    pub chunks: Vec<DocumentChunk>,
    /// For each chunk, whether it has its vector.
    pub embedded: Vec<bool>,
    pub expected_version: Option<i64>,
    pub tier_a_history_stage: Option<TierAHistoryStage>,
    /// Whether a new version is written even where the content is unchanged.
    pub force_new_version: bool,
}

impl PreparedMarkdown {
    /// Metadata is an object, and the step of a history is the one it describes.
    pub open spec fn wf(self) -> bool {
        &&& self.metadata@ is Object
        &&& self.tier_a_history_stage is Some ==> stage_of(self.metadata@) == Ok::<
            Option<TierAHistoryStage>,
            ApiErrorV,
        >(self.tier_a_history_stage)
    }
}

/// Metadata as an object.
pub open spec fn as_metadata(value: JsonV) -> JsonV {
    match value {
        JsonV::Object(_) => value,
        JsonV::Null => object(),
        other => object().with("value"@, other),
    }
}

/// The metadata under which a document is kept: that of the request, with the
/// digest of its idempotency key.
pub open spec fn kept_metadata(request: WriteRequest) -> JsonV {
    match request.idempotency_key {
        Some(key) => as_metadata(request.metadata@).with(
            "_brunn_idempotency_hash"@,
            JsonV::Text(text_digest(key@)),
        ),
        None => as_metadata(request.metadata@),
    }
}

/// Why a document is not even looked at.
pub open spec fn form_refusal(request: WriteRequest) -> Option<ApiErrorV> {
    if !safe_path(request.path@) {
        Some(ApiErrorV::Invalid("path must be a safe relative workspace path"@))
    } else if request.media_type@ != "text/markdown"@ && request.media_type@ != "text/plain"@ {
        Some(
            ApiErrorV::Invalid(
                "workspace.write accepts Markdown or plain text; upload other files as binaries"@,
            ),
        )
    } else {
        match request.idempotency_key {
            Some(key) => if printable(key@, MAX_KEY_BYTES as int) {
                None
            } else {
                Some(
                    ApiErrorV::Invalid(
                        "idempotency_key must contain 1 to 256 printable characters"@,
                    ),
                )
            },
            None => None,
        }
    }
}

/// The metadata under which a document is kept.
pub fn prepare_metadata(request: &WriteRequest) -> (r: Result<Json, ApiError>)
    ensures
        refusal(r) == form_refusal(*request),
        r is Ok ==> r->Ok_0@ == kept_metadata(*request),
        r is Ok ==> r->Ok_0@ is Object,
{
    match validate_path(request.path.as_str()) {
        Ok(_) => {},
        Err(e) => {
            return Err(e);
        },
    }
    if !same(request.media_type.as_str(), "text/markdown") && !same(
        request.media_type.as_str(),
        "text/plain",
    ) {
        return Err(
            ApiError::invalid(
                "workspace.write accepts Markdown or plain text; upload other files as binaries",
            ),
        );
    }
    let metadata = if request.metadata.is_object() {
        request.metadata.copy()
    } else if request.metadata.is_null() {
        Json::object()
    } else {
        Json::object().with("value", request.metadata.copy())
    };
    match &request.idempotency_key {
        Some(key) => {
            match validate_idempotency_key(key.as_str()) {
                Ok(_) => {},
                Err(e) => {
                    return Err(e);
                },
            }
            Ok(metadata.with("_brunn_idempotency_hash", Json::Text(sha256_hex(key.as_str()))))
        },
        None => Ok(metadata),
    }
}

/// Why a document of an acceptable form is not written.
pub open spec fn content_refusal(
    request: WriteRequest,
    facts: DocumentFacts,
    evaluation: bool,
) -> Option<ApiErrorV> {
    let size = utf8_len(request.content@);
    if facts.conversation_candidate && size > MAX_CONVERSATION_BYTES {
        Some(
            ApiErrorV::Public(
                413,
                "conversation_entry_too_large"@,
                "canonical conversation Markdown is limited to 12 MiB"@,
            ),
        )
    } else if facts.conversation_candidate && !facts.workspace_import {
        Some(
            ApiErrorV::Invalid(
                "canonical conversation entries may be written only by workspace import"@,
            ),
        )
    } else if !facts.conversation_candidate && size > MAX_WRITE_BYTES {
        Some(
            ApiErrorV::Public(
                413,
                "entry_too_large"@,
                "Markdown writes are limited to 4 MiB; use a binary entry and companion Markdown"@,
            ),
        )
    } else if facts.conversation_candidate && facts.conversation is Invalid {
        Some(ApiErrorV::Invalid(facts.conversation->message@))
    } else if facts.conversation_candidate && !(facts.conversation is Valid) {
        Some(ApiErrorV::Invalid("canonical conversation metadata is required"@))
    } else if facts.task is Err {
        Some(facts.task->Err_0@)
    } else {
        match requested_stage(
            request.path@,
            kept_metadata(request),
            request.expected_version,
            evaluation,
        ) {
            Err(e) => Some(e),
            Ok(_) => None,
        }
    }
}

/// The digits of a digest, without its name in front, however often it stands
/// there.
pub open spec fn bare_digest(s: Seq<char>) -> Seq<char>
    decreases s.len(),
{
    match behind(s, "sha256:"@) {
        Some(rest) => if rest.len() < s.len() {
            bare_digest(rest)
        } else {
            s
        },
        None => s,
    }
}

pub fn strip_digest_name(hash: &str) -> (r: String)
    ensures
        r@ == bare_digest(hash@),
{
    let mut out = hash.to_owned();
    loop
        invariant
            bare_digest(out@) == bare_digest(hash@),
        decreases out@.len(),
    {
        match strip_prefix(out.as_str(), "sha256:") {
            Some(rest) => {
                proof {
                    reveal_strlit("sha256:");
                }
                out = rest;
            },
            None => {
                return out;
            },
        }
    }
}

/// Whether a document makes a new version in any case, and is not searched: a task
/// or a conversation, whose meaning lies in its metadata.
pub open spec fn by_metadata(facts: DocumentFacts) -> bool {
    facts.conversation_candidate || facts.task == Ok::<bool, ApiError>(true)
}

/// Prepares a document for writing. `facts` is what other services say of the path,
/// the metadata by `prepare_metadata`, and the content.
pub fn prepare_markdown(request: WriteRequest, facts: DocumentFacts, evaluation: bool) -> (r:
    Result<PreparedMarkdown, ApiError>)
    ensures
        refusal(r) == match form_refusal(request) {
            Some(e) => Some(e),
            None => content_refusal(request, facts, evaluation),
        },
        r matches Ok(p) ==> {
            &&& p.wf()
            &&& p.entry_id_hint is None
            &&& p.path == request.path
            &&& p.title == facts.title
            &&& p.content == request.content
            &&& p.content_sha256@ == bare_digest(facts.content_hash@)
            &&& p.media_type == request.media_type
            &&& p.metadata@ == kept_metadata(request)
            &&& p.chunks@ == if by_metadata(facts) {
                Seq::empty()
            } else {
                facts.chunks@
            }
            &&& p.embedded@ == Seq::new(p.chunks@.len(), |i: int| false)
            &&& p.expected_version == request.expected_version
            &&& Ok::<Option<TierAHistoryStage>, ApiErrorV>(p.tier_a_history_stage)
                == requested_stage(
                request.path@,
                kept_metadata(request),
                request.expected_version,
                evaluation,
            )
            &&& p.force_new_version == by_metadata(facts)
        },
{
    let metadata = match prepare_metadata(&request) {
        Ok(metadata) => metadata,
        Err(e) => {
            return Err(e);
        },
    };
    let size = byte_len(request.content.as_str());
    if facts.conversation_candidate {
        if size > MAX_CONVERSATION_BYTES {
            return Err(conversation_too_large());
        }
        if !facts.workspace_import {
            return Err(
                ApiError::invalid(
                    "canonical conversation entries may be written only by workspace import",
                ),
            );
        }
        match &facts.conversation {
            ConversationCheck::Valid => {},
            ConversationCheck::Invalid { message } => {
                return Err(ApiError::invalid(message.as_str()));
            },
            _ => {
                return Err(ApiError::invalid("canonical conversation metadata is required"));
            },
        }
    } else if size > MAX_WRITE_BYTES {
        return Err(
            ApiError::public(
                413,
                "entry_too_large",
                "Markdown writes are limited to 4 MiB; use a binary entry and companion Markdown",
            ),
        );
    }
    let task: bool = match facts.task {
        Ok(task) => task,
        Err(e) => {
            return Err(e);
        },
    };
    let stage = match validate_tier_a_history_request(
        request.path.as_str(),
        &metadata,
        request.expected_version,
        evaluation,
    ) {
        Ok(stage) => stage,
        Err(e) => {
            return Err(e);
        },
    };
    let force = task || facts.conversation_candidate;
    let chunks: Vec<DocumentChunk> = if force {
        Vec::new()
    } else {
        facts.chunks
    };
    let mut embedded: Vec<bool> = Vec::new();
    while embedded.len() < chunks.len()
        invariant
            embedded@.len() <= chunks@.len(),
            forall|i: int| 0 <= i < embedded@.len() ==> embedded@[i] == false,
        decreases chunks@.len() - embedded@.len(),
    {
        embedded.push(false);
    }
    assert(embedded@ =~= Seq::new(chunks@.len(), |i: int| false));
    Ok(
        PreparedMarkdown {
            entry_id_hint: None,
            path: request.path,
            title: facts.title,
            content_sha256: strip_digest_name(facts.content_hash.as_str()),
            content: request.content,
            media_type: request.media_type,
            metadata,
            chunks,
            embedded,
            expected_version: request.expected_version,
            tier_a_history_stage: stage,
            force_new_version: force,
        },
    )
}

/// Prepares a task for its next version. `task` is whether the document is a task,
/// by the task service; `title` and `content_hash` are what the document has.
pub fn prepare_task_markdown_for_update(
    path: String,
    content: String,
    metadata: Json,
    expected_version: i64,
    task: Result<bool, ApiError>,
    title: String,
    content_hash: &str,
) -> (r: Result<PreparedMarkdown, ApiError>)
    ensures
        refusal(r) == if !safe_path(path@) {
            Some(ApiErrorV::Invalid("path must be a safe relative workspace path"@))
        } else if utf8_len(content@) > MAX_WRITE_BYTES {
            Some(
                ApiErrorV::Public(413, "entry_too_large"@, "Task Markdown is limited to 4 MiB"@),
            )
        } else {
            match outcome(task) {
                Err(e) => Some(e),
                Ok(false) => Some(
                    ApiErrorV::Invalid("managed task updates require canonical task.v1 metadata"@),
                ),
                Ok(true) => None,
            }
        },
        r matches Ok(p) ==> {
            &&& p.entry_id_hint is None
            &&& p.path == path
            &&& p.title == title
            &&& p.content == content
            &&& p.content_sha256@ == bare_digest(content_hash@)
            &&& p.media_type@ == "text/markdown"@
            &&& p.metadata == metadata
            &&& p.chunks@.len() == 0
            &&& p.embedded@.len() == 0
            &&& p.expected_version == Some(expected_version)
            &&& p.tier_a_history_stage is None
            &&& p.force_new_version
        },
{
    match validate_path(path.as_str()) {
        Ok(_) => {},
        Err(e) => {
            return Err(e);
        },
    }
    if byte_len(content.as_str()) > MAX_WRITE_BYTES {
        return Err(
            ApiError::public(413, "entry_too_large", "Task Markdown is limited to 4 MiB"),
        );
    }
    match task {
        Ok(true) => {},
        Ok(false) => {
            return Err(
                ApiError::invalid("managed task updates require canonical task.v1 metadata"),
            );
        },
        Err(e) => {
            return Err(e);
        },
    }
    Ok(
        PreparedMarkdown {
            entry_id_hint: None,
            path,
            title,
            content_sha256: strip_digest_name(content_hash),
            content,
            media_type: markdown_media_type(),
            metadata,
            chunks: Vec::new(),
            embedded: Vec::new(),
            expected_version: Some(expected_version),
            tier_a_history_stage: None,
            force_new_version: true,
        },
    )
}

}
