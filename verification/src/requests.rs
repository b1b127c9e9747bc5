//! What clients ask for.
use vstd::prelude::*;

use crate::json::Json;

verus! {

/// Where a client suggests to look.
#[derive(Clone, Debug)]
pub struct OpenHints {
    pub authorization_scope: Option<String>,
    pub root_refs: Vec<String>,
    pub open_object_refs: Vec<String>,
}

/// A client begins to work on a task.
#[derive(Clone, Debug)]
pub struct OpenRequest {
    pub task: String,
    pub hints: OpenHints,
    pub resume_checkpoint_ref: Option<String>,
    pub token_budget: Option<usize>,
    pub modes: Vec<String>,
}

/// One query of a search.
#[derive(Clone, Debug)]
pub struct SearchQuery {
    pub id: Option<String>,
    pub query: String,
    pub goal: Option<String>,
    pub limit: Option<usize>,
    pub sort: Option<String>,
    pub modes: Vec<String>,
}

/// A search: several queries, or one.
#[derive(Clone, Debug)]
pub struct SearchRequest {
    pub session_id: Option<String>,
    pub queries: Vec<SearchQuery>,
    pub query: Option<String>,
    pub limit: Option<usize>,
    pub token_budget: Option<usize>,
}

/// One entry that is to be read.
#[derive(Clone, Debug)]
pub struct ReadItem {
    pub reference: Option<String>,
    pub path: Option<String>,
    pub link_target: Option<String>,
    pub view: Option<String>,
    pub start: Option<usize>,
    pub end: Option<usize>,
    pub max_chars: Option<usize>,
    pub version: Option<i64>,
}

#[derive(Clone, Debug)]
pub struct ReadRequest {
    pub session_id: Option<String>,
    pub requests: Vec<ReadItem>,
}

/// A document that is to be written.
#[derive(Debug)]
pub struct WriteRequest {
    pub path: String,
    pub content: String,
    pub media_type: String,
    pub expected_version: Option<i64>,
    pub idempotency_key: Option<String>,
    pub metadata: Json,
}

/// Something that is to be kept, wherever it belongs.
#[derive(Debug)]
pub struct CaptureRequest {
    pub content: String,
    pub source: Json,
    pub intent: Option<String>,
    pub idempotency_key: Option<String>,
}

/// The state of a task that is to be kept.
#[derive(Debug)]
pub struct CheckpointRequest {
    pub session_id: String,
    pub parent_checkpoint_id: Option<String>,
    pub state: Json,
    pub source_refs: Vec<String>,
    pub idempotency_key: Option<String>,
}

#[derive(Clone, Debug)]
pub struct ChangesQuery {
    pub since_generation: i64,
    pub limit: Option<usize>,
}

#[derive(Clone, Debug)]
pub struct BinaryListQuery {
    pub limit: Option<usize>,
    pub offset: Option<usize>,
}

#[derive(Clone, Debug)]
pub struct ManifestQuery {
    pub limit: Option<usize>,
    pub offset: Option<usize>,
    pub after_path: Option<String>,
    pub after_entry_ref: Option<String>,
    pub after_version: Option<i64>,
    pub history: bool,
}

#[derive(Clone, Debug)]
pub struct UsageQuery {
    pub sort: Option<String>,
    pub limit: Option<usize>,
    pub offset: Option<usize>,
}

#[derive(Clone, Debug)]
pub struct BinaryVersionQuery {
    pub version: Option<i64>,
}

#[derive(Clone, Debug)]
pub struct StreamingBinaryQuery {
    pub path: String,
    pub media_type: Option<String>,
    pub expected_content_hash: String,
    pub mtime_ns: Option<i64>,
    pub mode: Option<u32>,
    pub provenance: Option<String>,
    pub expected_version: Option<i64>,
}

#[derive(Clone, Debug)]
pub struct DeleteQuery {
    pub expected_version: Option<i64>,
}

#[derive(Clone, Debug)]
pub struct DreamRequest {
    pub since_generation: Option<i64>,
    pub focus: Option<String>,
}

#[derive(Clone, Debug)]
pub struct JobsQuery {
    pub status: Option<String>,
    pub limit: Option<usize>,
    pub offset: Option<usize>,
}

/// A workspace that is to be made for an evaluation.
#[derive(Debug)]
pub struct EvalImportRequest {
    pub schema: String,
    pub run_id: String,
    pub case_id: String,
    pub authorization_scope: String,
    pub display_scope: String,
    pub access_mode: String,
    pub documents: Vec<EvalDocument>,
    pub delta_documents: Vec<EvalDocument>,
    pub seed_checkpoint: Option<EvalSeedCheckpoint>,
    pub idempotency_key: String,
    pub batch_index: Option<usize>,
    pub batch_count: Option<usize>,
}

#[derive(Clone, Debug)]
pub struct EvalDocument {
    pub path: String,
    pub content: String,
    pub content_sha256: String,
    pub media_type: String,
}

#[derive(Debug)]
pub struct EvalSeedCheckpoint {
    pub state: Json,
    pub source_refs: Vec<String>,
}

/// The media type of Markdown.
pub fn markdown_media_type() -> (r: String)
    ensures
        r@ == "text/markdown"@,
{
    "text/markdown".to_owned()
}

}
