//! Workspaces for evaluations: what is imported into them, under which identity, and
//! what is told about them.
use vstd::prelude::*;

use crate::auth::AuthContext;
#[allow(unused_imports)]
use crate::candidate::option_view;
use crate::checkpoint::write_text_items;
#[allow(unused_imports)]
use crate::checkpoint::text_items;
use crate::envelope::revision;
#[allow(unused_imports)]
use crate::envelope::revision_text;
use crate::error::ApiError;
#[allow(unused_imports)]
use crate::error::{refusal, ApiErrorV};
#[allow(unused_imports)]
use crate::history::outcome;
use crate::json::Json;
#[allow(unused_imports)]
use crate::json::{integer, items_view, object, optional_text, JsonV};
use crate::outside::{
    base64_encode, hmac_sha256, pretty_json, sha256_hex, uuid_format, uuid_parse,
};
#[allow(unused_imports)]
use crate::outside::{
    base64_url, hmac_sha256_code, pretty_text, text_digest, uuid_text, uuid_value,
};
use crate::paths::{checkpoint_ref, validate_path};
#[allow(unused_imports)]
use crate::paths::{checkpoint_ref_text, safe_path, utf8_len};
use crate::render::time_value;
#[allow(unused_imports)]
use crate::render::time_json;
use crate::requests::{EvalDocument, EvalImportRequest};
#[allow(unused_imports)]
use crate::seqs::{lemma_filter_empty, lemma_filter_take, lemma_texts_push};
use crate::text::{
    byte_len, cat, cat3, decimal_of, join, lower, same, strip_prefix, truncate_chars,
};
#[allow(unused_imports)]
use crate::text::{behind, decimal, joined, texts, truncated, lower_case};
use crate::upsert::WriteOperation;
use crate::write::DocumentChunk;

verus! {

/// How many documents an import has.
pub const MAX_EVAL_DOCUMENTS: usize = 700_000;

/// How many documents one batch of an import has.
pub const MAX_EVAL_BATCH_DOCUMENTS: usize = 10_000;

/// How many bytes the documents of an import have.
pub const MAX_EVAL_BYTES: usize = 536_870_912;

// ---------------------------------------------------------------------------
// Which imports are accepted
// ---------------------------------------------------------------------------

/// The batch that a request is, of how many; nothing where it is the whole import.
pub open spec fn batch_of(index: Option<usize>, count: Option<usize>) -> Result<
    Option<(usize, usize)>,
    ApiErrorV,
> {
    if index is None && count is None {
        Ok(None)
    } else if index is Some && count is Some {
        if index->0 < count->0 {
            Ok(Some((index->0, count->0)))
        } else {
            Err(
                ApiErrorV::Invalid("evaluation batch_index must be less than a positive batch_count"@),
            )
        }
    } else {
        Err(
            ApiErrorV::Invalid("evaluation batch_index and batch_count must be provided together"@),
        )
    }
}

/// The batch that a request is, of how many.
pub fn evaluation_batch(request: &EvalImportRequest) -> (r: Result<
    Option<(usize, usize)>,
    ApiError,
>)
    ensures
        outcome(r) == batch_of(request.batch_index, request.batch_count),
{
    match (request.batch_index, request.batch_count) {
        (None, None) => Ok(None),
        (Some(index), Some(count)) => if index < count {
            Ok(Some((index, count)))
        } else {
            Err(
                ApiError::invalid("evaluation batch_index must be less than a positive batch_count"),
            )
        },
        _ => Err(
            ApiError::invalid("evaluation batch_index and batch_count must be provided together"),
        ),
    }
}

/// The bytes of documents.
pub open spec fn total_bytes(documents: Seq<EvalDocument>) -> int
    decreases documents.len(),
{
    if documents.len() == 0 {
        0
    } else {
        total_bytes(documents.drop_last()) + utf8_len(documents.last().content@)
    }
}

/// Why a document is not imported: its path, or a digest that is not its own.
pub open spec fn document_refusal(document: EvalDocument) -> Option<ApiErrorV> {
    if !safe_path(document.path@) {
        Some(ApiErrorV::Invalid("path must be a safe relative workspace path"@))
    } else if text_digest(document.content@) != lower_case(document.content_sha256@) {
        Some(ApiErrorV::Invalid("content_sha256 does not match "@ + document.path@))
    } else {
        None
    }
}

/// Why the first document that is not imported is not, from one on.
pub open spec fn first_refusal(documents: Seq<EvalDocument>, i: int) -> Option<ApiErrorV>
    decreases documents.len() - i,
{
    if i < 0 || i >= documents.len() {
        None
    } else if document_refusal(documents[i]) is Some {
        document_refusal(documents[i])
    } else {
        first_refusal(documents, i + 1)
    }
}

/// Why an import is not carried out.
pub open spec fn eval_refusal(request: EvalImportRequest) -> Option<ApiErrorV> {
    let documents = request.documents@ + request.delta_documents@;
    let batch = batch_of(request.batch_index, request.batch_count);
    if request.schema@ != "brunn-eval-import@v1"@ {
        Some(ApiErrorV::Invalid("evaluation import schema must be brunn-eval-import@v1"@))
    } else if request.access_mode@ != "read_only"@ && request.access_mode@ != "read_write"@ {
        Some(ApiErrorV::Invalid("access_mode must be read_only or read_write"@))
    } else if request.documents@.len() == 0 {
        Some(ApiErrorV::Invalid("evaluation import requires at least one document"@))
    } else if documents.len() > MAX_EVAL_DOCUMENTS {
        Some(ApiErrorV::Invalid("simple evaluation imports are limited to 700,000 documents"@))
    } else if batch is Err {
        Some(batch->Err_0)
    } else if batch->Ok_0 is Some && documents.len() > MAX_EVAL_BATCH_DOCUMENTS {
        Some(
            ApiErrorV::Invalid(
                "batched simple evaluation imports are limited to 10,000 documents per request"@,
            ),
        )
    } else if batch->Ok_0 is Some && (batch->Ok_0->0).0 + 1 < (batch->Ok_0->0).1 && (
    request.delta_documents@.len() > 0 || request.seed_checkpoint is Some) {
        Some(
            ApiErrorV::Invalid(
                "evaluation deltas and seed checkpoints belong only in the final batch"@,
            ),
        )
    } else if total_bytes(documents) > MAX_EVAL_BYTES {
        Some(
            ApiErrorV::Public(
                413,
                "eval_import_too_large"@,
                "evaluation text is limited to 512 MiB"@,
            ),
        )
    } else {
        first_refusal(documents, 0)
    }
}

proof fn lemma_total_bytes_add(a: Seq<EvalDocument>, b: Seq<EvalDocument>)
    ensures
        total_bytes(a + b) == total_bytes(a) + total_bytes(b),
    decreases b.len(),
{
    if b.len() == 0 {
        assert(a + b =~= a);
    } else {
        lemma_total_bytes_add(a, b.drop_last());
        assert((a + b).drop_last() =~= a + b.drop_last());
        assert((a + b).last() == b.last());
    }
}

/// The bytes of documents, any number above the limit standing for those that are
/// too many.
fn count_bytes(documents: &Vec<EvalDocument>) -> (r: usize)
    ensures
        r == total_bytes(documents@) || (r > MAX_EVAL_BYTES && total_bytes(documents@)
            > MAX_EVAL_BYTES),
        0 <= total_bytes(documents@),
{
    let mut total: usize = 0;
    let mut i: usize = 0;
    assert(documents@.take(0) =~= Seq::<EvalDocument>::empty());
    while i < documents.len()
        invariant
            i <= documents@.len(),
            total == total_bytes(documents@.take(i as int)) || (total > MAX_EVAL_BYTES
                && total_bytes(documents@.take(i as int)) > MAX_EVAL_BYTES),
            0 <= total_bytes(documents@.take(i as int)),
        decreases documents@.len() - i,
    {
        proof {
            assert(documents@.take(i + 1).drop_last() =~= documents@.take(i as int));
            assert(documents@.take(i + 1).last() == documents@[i as int]);
        }
        total = total.saturating_add(byte_len(documents[i].content.as_str()));
        i = i + 1;
    }
    assert(documents@.take(i as int) =~= documents@);
    total
}

fn check_document(document: &EvalDocument) -> (r: Result<(), ApiError>)
    ensures
        refusal(r) == document_refusal(*document),
{
    match validate_path(document.path.as_str()) {
        Ok(_) => {},
        Err(e) => {
            return Err(e);
        },
    }
    let digest = sha256_hex(document.content.as_str());
    if !same(digest.as_str(), lower(document.content_sha256.as_str()).as_str()) {
        return Err(
            ApiError::invalid(
                cat("content_sha256 does not match ", document.path.as_str()).as_str(),
            ),
        );
    }
    Ok(())
}

/// Accepts an import.
pub fn validate_eval_import(request: &EvalImportRequest) -> (r: Result<(), ApiError>)
    ensures
        refusal(r) == eval_refusal(*request),
{
    if !same(request.schema.as_str(), "brunn-eval-import@v1") {
        return Err(ApiError::invalid("evaluation import schema must be brunn-eval-import@v1"));
    }
    if !same(request.access_mode.as_str(), "read_only") && !same(
        request.access_mode.as_str(),
        "read_write",
    ) {
        return Err(ApiError::invalid("access_mode must be read_only or read_write"));
    }
    if request.documents.len() == 0 {
        return Err(ApiError::invalid("evaluation import requires at least one document"));
    }
    let ghost all = request.documents@ + request.delta_documents@;
    let documents: usize = request.documents.len().saturating_add(request.delta_documents.len());
    if documents > MAX_EVAL_DOCUMENTS {
        return Err(
            ApiError::invalid("simple evaluation imports are limited to 700,000 documents"),
        );
    }
    assert(documents == all.len());
    match evaluation_batch(request) {
        Ok(Some((index, count))) => {
            if documents > MAX_EVAL_BATCH_DOCUMENTS {
                return Err(
                    ApiError::invalid(
                        "batched simple evaluation imports are limited to 10,000 documents per request",
                    ),
                );
            }
            if index + 1 < count && (request.delta_documents.len() > 0
                || request.seed_checkpoint.is_some()) {
                return Err(
                    ApiError::invalid(
                        "evaluation deltas and seed checkpoints belong only in the final batch",
                    ),
                );
            }
        },
        Ok(None) => {},
        Err(e) => {
            return Err(e);
        },
    }
    let bytes: usize = count_bytes(&request.documents).saturating_add(
        count_bytes(&request.delta_documents),
    );
    proof {
        lemma_total_bytes_add(request.documents@, request.delta_documents@);
    }
    if bytes > MAX_EVAL_BYTES {
        return Err(
            ApiError::public(413, "eval_import_too_large", "evaluation text is limited to 512 MiB"),
        );
    }
    let mut i: usize = 0;
    while i < documents
        invariant
            i <= documents,
            all == request.documents@ + request.delta_documents@,
            documents == all.len(),
            eval_refusal(*request) == first_refusal(all, i as int),
        ensures
            eval_refusal(*request) is None,
        decreases documents - i,
    {
        let document = if i < request.documents.len() {
            &request.documents[i]
        } else {
            &request.delta_documents[i - request.documents.len()]
        };
        assert(*document == all[i as int]);
        match check_document(document) {
            Ok(_) => {},
            Err(e) => {
                proof {
                    assert(first_refusal(all, i as int) == Some(e@));
                }
                return Err(e);
            },
        }
        i = i + 1;
    }
    Ok(())
}

/// What is imported has the digests it was announced with, and only the last batch
/// changes documents or brings a checkpoint along.
pub proof fn lemma_imports_are_checked(request: EvalImportRequest, i: int)
    requires
        eval_refusal(request) is None,
        0 <= i < (request.documents@ + request.delta_documents@).len(),
    ensures
        document_refusal((request.documents@ + request.delta_documents@)[i]) is None,
        request.batch_index matches Some(index) ==> request.batch_count is Some && index
            < request.batch_count->0 && (index + 1 < request.batch_count->0 ==>
        request.delta_documents@.len() == 0 && request.seed_checkpoint is None),
{
    lemma_no_refusal(request.documents@ + request.delta_documents@, 0, i);
}

proof fn lemma_no_refusal(documents: Seq<EvalDocument>, from: int, i: int)
    requires
        0 <= from <= i < documents.len(),
        first_refusal(documents, from) is None,
    ensures
        document_refusal(documents[i]) is None,
    decreases documents.len() - from,
{
    if from < i {
        lemma_no_refusal(documents, from + 1, i);
    }
}

// ---------------------------------------------------------------------------
// Identities and tokens
// ---------------------------------------------------------------------------

/// What identifies the workspace of an evaluation.
pub open spec fn eval_identity(request: EvalImportRequest, batched: bool) -> Seq<char> {
    (if batched {
        "simple-workspace-eval-batch-v1"@
    } else {
        "simple-workspace-eval-v1"@
    }) + "\0"@ + request.run_id@ + "\0"@ + request.case_id@ + "\0"@ + request.authorization_scope@
        + "\0"@ + request.idempotency_key@
}

/// The name under which the workspace of an evaluation is known.
pub open spec fn eval_ref(request: EvalImportRequest, batched: bool) -> Seq<char> {
    "eval-user:"@ + text_digest(eval_identity(request, batched))
}

/// The name under which the workspace of an evaluation is known: the same for all
/// batches of an import.
pub fn evaluation_ref(request: &EvalImportRequest, batched: bool) -> (r: String)
    ensures
        r@ == eval_ref(*request, batched),
{
    let mut identity = if batched {
        "simple-workspace-eval-batch-v1".to_owned()
    } else {
        "simple-workspace-eval-v1".to_owned()
    };
    identity.append("\0");
    identity.append(request.run_id.as_str());
    identity.append("\0");
    identity.append(request.case_id.as_str());
    identity.append("\0");
    identity.append(request.authorization_scope.as_str());
    identity.append("\0");
    identity.append(request.idempotency_key.as_str());
    cat("eval-user:", sha256_hex(identity.as_str()).as_str())
}

/// How the workspace of an evaluation is shown.
pub fn evaluation_display_name(request: &EvalImportRequest) -> (r: String)
    ensures
        r@ == "Brunn evaluation: "@ + truncated(request.case_id@, 160),
{
    cat("Brunn evaluation: ", truncate_chars(request.case_id.as_str(), 160).as_str())
}

/// The batches of one import share a workspace, whatever documents they bring.
pub proof fn lemma_batches_share_workspace(a: EvalImportRequest, b: EvalImportRequest)
    requires
        a.run_id@ == b.run_id@,
        a.case_id@ == b.case_id@,
        a.authorization_scope@ == b.authorization_scope@,
        a.idempotency_key@ == b.idempotency_key@,
    ensures
        eval_ref(a, true) == eval_ref(b, true),
{
}

/// The token of an evaluation.
pub open spec fn eval_token(secret: Seq<char>, reference: Seq<char>, key: Seq<char>) -> Seq<char> {
    "brunn_eval_"@ + base64_url(
        hmac_sha256_code(
            vstd::utf8::encode_utf8(secret),
            vstd::utf8::encode_utf8(reference + "\0"@ + key),
        ),
    )
}

/// The token of an evaluation: always the same for the same workspace, key and
/// secret.
pub fn derive_eval_token(secret: &str, external_ref: &str, idempotency_key: &str) -> (r: String)
    ensures
        r@ == eval_token(secret@, external_ref@, idempotency_key@),
{
    let message = cat3(external_ref, "\0", idempotency_key);
    let code = match hmac_sha256(secret.as_bytes(), message.as_str().as_bytes()) {
        Some(code) => code,
        None => Vec::new(),
    };
    cat("brunn_eval_", base64_encode(&code).as_str())
}

/// What the credential of an evaluation may do.
pub open spec fn eval_capabilities(read_only: bool) -> Seq<Seq<char>> {
    let reading = seq!["open"@, "query"@, "read"@, "status"@];
    if read_only {
        reading
    } else {
        reading + seq!["checkpoint"@, "save"@, "stage"@, "correct"@, "delete"@, "dream"@]
    }
}

/// What the credential of an evaluation may do, and how it is called.
pub fn evaluation_capabilities(access_mode: &str) -> (r: (Vec<String>, String))
    ensures
        texts(r.0@) == eval_capabilities(access_mode@ == "read_only"@),
        r.1@ == if access_mode@ == "read_only"@ {
            "Evaluation read-only"@
        } else {
            "Evaluation read/write"@
        },
{
    let mut names: Vec<String> = Vec::new();
    names.push("open".to_owned());
    names.push("query".to_owned());
    names.push("read".to_owned());
    names.push("status".to_owned());
    if same(access_mode, "read_only") {
        assert(texts(names@) =~= eval_capabilities(true));
        return (names, "Evaluation read-only".to_owned());
    }
    names.push("checkpoint".to_owned());
    names.push("save".to_owned());
    names.push("stage".to_owned());
    names.push("correct".to_owned());
    names.push("delete".to_owned());
    names.push("dream".to_owned());
    assert(texts(names@) =~= eval_capabilities(false));
    (names, "Evaluation read/write".to_owned())
}

/// A credential that only reads can do nothing that one which writes cannot.
pub proof fn lemma_reading_is_part_of_writing(name: Seq<char>)
    requires
        eval_capabilities(true).contains(name),
    ensures
        eval_capabilities(false).contains(name),
{
    let k = choose|k: int|
        0 <= k < eval_capabilities(true).len() && eval_capabilities(true)[k] == name;
    assert(eval_capabilities(false)[k] == name);
}

/// Why a batch does not come in its turn.
pub open spec fn batch_refusal(
    request: EvalImportRequest,
    batch: Option<(usize, usize)>,
    existing: bool,
) -> Option<ApiErrorV> {
    if existing && (batch is None || (batch->0).0 == 0) {
        Some(
            ApiErrorV::Conflict(
                "eval_token_unavailable_on_replay"@,
                "the evaluation import already committed; use a new run ID"@,
                object().with("run_id"@, JsonV::Text(request.run_id@)).with(
                    "case_id"@,
                    JsonV::Text(request.case_id@),
                ),
            ),
        )
    } else if !existing && batch is Some && (batch->0).0 > 0 {
        Some(
            ApiErrorV::Conflict(
                "eval_batch_out_of_order"@,
                "evaluation import batches must begin with batch zero"@,
                object().with("batch_index"@, integer((batch->0).0 as int)),
            ),
        )
    } else {
        None
    }
}

/// Accepts a batch where its import stands: the first one begins a workspace, and
/// only later ones find it. `existing` says whether the workspace has entries.
pub fn check_batch_order(request: &EvalImportRequest, batch: Option<(usize, usize)>, existing: bool) -> (r:
    Result<(), ApiError>)
    ensures
        refusal(r) == batch_refusal(*request, batch, existing),
{
    let index: Option<usize> = match batch {
        Some((index, _)) => Some(index),
        None => None,
    };
    let begins = match index {
        Some(index) => index == 0,
        None => true,
    };
    if existing && begins {
        return Err(
            ApiError::conflict(
                "eval_token_unavailable_on_replay",
                "the evaluation import already committed; use a new run ID",
                Json::object().with("run_id", Json::text(request.run_id.as_str())).with(
                    "case_id",
                    Json::text(request.case_id.as_str()),
                ),
            ),
        );
    }
    match index {
        Some(index) => {
            if !existing && index > 0 {
                return Err(
                    ApiError::conflict(
                        "eval_batch_out_of_order",
                        "evaluation import batches must begin with batch zero",
                        Json::object().with("batch_index", Json::count(index)),
                    ),
                );
            }
        },
        None => {},
    }
    Ok(())
}

/// Refuses every import where evaluations do not run.
pub fn check_evaluation_enabled(enabled: bool) -> (r: Result<(), ApiError>)
    ensures
        refusal(r) == if enabled {
            None
        } else {
            Some(ApiErrorV::NotFound("route_not_found"@, "/v1/workspace/admin/eval/import"@))
        },
{
    if enabled {
        Ok(())
    } else {
        Err(ApiError::not_found("route_not_found", "/v1/workspace/admin/eval/import"))
    }
}

// ---------------------------------------------------------------------------
// Documents
// ---------------------------------------------------------------------------

/// A document that is ready to be imported.
#[derive(Debug)]
pub struct BulkMarkdown {
    pub entry_id: u128,
    pub version_id: u128,
    pub path: String,
    pub title: String,
    pub content: String,
    pub content_sha256: String,
    pub media_type: String,
    pub metadata: Json,
    pub chunks: Vec<DocumentChunk>,
    /// For each chunk, whether it has its vector.
    pub embedded: Vec<bool>,
    /// What the document says that it supersedes.
    pub supersedes: Vec<String>,
    /// What the document says that it is.
    pub declared_kind: Option<String>,
}

/// Makes a document ready to be imported. `title`, `chunks`, `supersedes` and
/// `declared_kind` are what it has and says.
pub fn prepare_bulk_document(
    document: &EvalDocument,
    entry_id: u128,
    version_id: u128,
    title: String,
    chunks: Vec<DocumentChunk>,
    supersedes: Vec<String>,
    declared_kind: Option<String>,
) -> (r: BulkMarkdown)
    ensures
        r.entry_id == entry_id,
        r.version_id == version_id,
        r.path@ == document.path@,
        r.title == title,
        r.content@ == document.content@,
        r.content_sha256@ == lower_case(document.content_sha256@),
        r.media_type@ == document.media_type@,
        r.metadata@ == object().with("kind"@, JsonV::Text("evaluation_import"@)),
        r.chunks == chunks,
        r.embedded@ == Seq::new(chunks@.len(), |i: int| false),
        r.supersedes == supersedes,
        r.declared_kind == declared_kind,
{
    let mut embedded: Vec<bool> = Vec::new();
    while embedded.len() < chunks.len()
        invariant
            embedded@.len() <= chunks@.len(),
            forall|i: int| 0 <= i < embedded@.len() ==> embedded@[i] == false,
        decreases chunks@.len() - embedded@.len(),
    {
        embedded.push(false);
    }
    assert(embedded@ =~= Seq::new(chunks@.len(), |i: int| false));
    BulkMarkdown {
        entry_id,
        version_id,
        path: document.path.clone(),
        title,
        content: document.content.clone(),
        content_sha256: lower(document.content_sha256.as_str()),
        media_type: document.media_type.clone(),
        metadata: Json::object().with("kind", Json::text("evaluation_import")),
        chunks,
        embedded,
        supersedes,
        declared_kind,
    }
}

/// The entry, the version and the operation of a document that is changed by an import.
pub open spec fn target_of(existing: Option<(u128, i64)>, new_id: u128) -> (
    u128,
    i64,
    WriteOperation,
) {
    match existing {
        Some(row) => (row.0, (row.1 + 1) as i64, WriteOperation::Update),
        None => (new_id, 1i64, WriteOperation::Create),
    }
}

/// What a change of a document does: it adds a version to the entry that is there,
/// or makes the entry.
pub fn delta_target(existing: Option<(u128, i64)>, new_id: u128) -> (r: (u128, i64, WriteOperation))
    requires
        existing matches Some(row) ==> row.1 < i64::MAX,
    ensures
        r == target_of(existing, new_id),
{
    match existing {
        Some((id, version)) => (id, version + 1, WriteOperation::Update),
        None => (new_id, 1, WriteOperation::Create),
    }
}

/// What is kept with a changed document.
pub fn delta_metadata() -> (r: Json)
    ensures
        r@ == object().with("kind"@, JsonV::Text("evaluation_delta"@)),
{
    Json::object().with("kind", Json::text("evaluation_delta"))
}

pub open spec fn chunk_total(documents: Seq<BulkMarkdown>) -> int
    decreases documents.len(),
{
    if documents.len() == 0 {
        0
    } else {
        chunk_total(documents.drop_last()) + documents.last().chunks@.len()
    }
}

pub open spec fn true_total(flags: Seq<bool>) -> int
    decreases flags.len(),
{
    if flags.len() == 0 {
        0
    } else {
        true_total(flags.drop_last()) + if flags.last() {
            1int
        } else {
            0int
        }
    }
}

pub open spec fn embedded_total(documents: Seq<BulkMarkdown>) -> int
    decreases documents.len(),
{
    if documents.len() == 0 {
        0
    } else {
        embedded_total(documents.drop_last()) + true_total(documents.last().embedded@)
    }
}

proof fn lemma_true_total(flags: Seq<bool>)
    ensures
        0 <= true_total(flags) <= flags.len(),
    decreases flags.len(),
{
    if flags.len() > 0 {
        lemma_true_total(flags.drop_last());
    }
}

pub open spec fn each_flagged(documents: Seq<BulkMarkdown>) -> bool {
    forall|i: int|
        0 <= i < documents.len() ==> (#[trigger] documents[i]).embedded@.len()
            == documents[i].chunks@.len()
}

proof fn lemma_totals(documents: Seq<BulkMarkdown>, n: int)
    requires
        each_flagged(documents),
        0 <= n <= documents.len(),
    ensures
        0 <= embedded_total(documents.take(n)) <= chunk_total(documents.take(n)) <= chunk_total(
            documents,
        ),
    decreases documents.len(),
{
    if documents.len() > 0 {
        let front = documents.drop_last();
        assert forall|i: int| 0 <= i < front.len() implies (#[trigger] front[i]).embedded@.len()
            == front[i].chunks@.len() by {
            assert(front[i] == documents[i]);
        }
        if n < documents.len() {
            lemma_totals(front, n);
            assert(front.take(n) =~= documents.take(n));
        } else {
            lemma_totals(front, n - 1);
            assert(documents.take(n) =~= documents);
            assert(front.take(n - 1) =~= front);
            lemma_true_total(documents.last().embedded@);
            assert(documents[n - 1].embedded@.len() == documents[n - 1].chunks@.len());
        }
    } else {
        assert(documents.take(n) =~= documents);
    }
}

fn count_true(flags: &Vec<bool>) -> (r: usize)
    ensures
        r == true_total(flags@),
        r <= flags@.len(),
{
    let mut n: usize = 0;
    let mut i: usize = 0;
    assert(flags@.take(0) =~= Seq::<bool>::empty());
    while i < flags.len()
        invariant
            i <= flags@.len(),
            n <= i,
            n == true_total(flags@.take(i as int)),
        decreases flags@.len() - i,
    {
        proof {
            assert(flags@.take(i + 1).drop_last() =~= flags@.take(i as int));
            assert(flags@.take(i + 1).last() == flags@[i as int]);
        }
        if flags[i] {
            n = n + 1;
        }
        i = i + 1;
    }
    assert(flags@.take(i as int) =~= flags@);
    n
}

/// How many chunks documents have, and how many of them have their vector.
pub fn index_counts(documents: &Vec<BulkMarkdown>) -> (r: (usize, usize))
    requires
        each_flagged(documents@),
        chunk_total(documents@) <= usize::MAX,
    ensures
        r.0 == chunk_total(documents@),
        r.1 == embedded_total(documents@),
{
    let mut chunks: usize = 0;
    let mut embedded: usize = 0;
    let mut i: usize = 0;
    assert(documents@.take(0) =~= Seq::<BulkMarkdown>::empty());
    while i < documents.len()
        invariant
            i <= documents@.len(),
            each_flagged(documents@),
            chunk_total(documents@) <= usize::MAX,
            chunks == chunk_total(documents@.take(i as int)),
            embedded == embedded_total(documents@.take(i as int)),
        decreases documents@.len() - i,
    {
        proof {
            assert(documents@.take(i + 1).drop_last() =~= documents@.take(i as int));
            assert(documents@.take(i + 1).last() == documents@[i as int]);
            lemma_totals(documents@, i + 1);
        }
        chunks = chunks + documents[i].chunks.len();
        embedded = embedded + count_true(&documents[i].embedded);
        i = i + 1;
    }
    assert(documents@.take(i as int) =~= documents@);
    (chunks, embedded)
}

/// Whether a document declares a feature of the workspace: that it supersedes others,
/// or that it is an intention.
pub open spec fn declares_feature(document: BulkMarkdown) -> bool {
    document.supersedes@.len() > 0 || option_view(document.declared_kind) == Some("intention"@)
}

/// How many documents declare a feature of the workspace.
pub fn feature_declarations(documents: &Vec<BulkMarkdown>) -> (r: usize)
    ensures
        r == documents@.filter(|d: BulkMarkdown| declares_feature(d)).len(),
{
    let ghost p = |d: BulkMarkdown| declares_feature(d);
    let mut n: usize = 0;
    let mut i: usize = 0;
    proof {
        lemma_filter_empty(documents@.take(0), p);
    }
    while i < documents.len()
        invariant
            i <= documents@.len(),
            n <= i,
            p == (|d: BulkMarkdown| declares_feature(d)),
            n == documents@.take(i as int).filter(p).len(),
        decreases documents@.len() - i,
    {
        proof {
            lemma_filter_take(documents@, p, i as int);
        }
        let declared = match &documents[i].declared_kind {
            Some(kind) => same(kind.as_str(), "intention"),
            None => false,
        };
        if documents[i].supersedes.len() > 0 || declared {
            n = n + 1;
        }
        i = i + 1;
    }
    assert(documents@.take(i as int) =~= documents@);
    n
}

// ---------------------------------------------------------------------------
// The checkpoint of an import
// ---------------------------------------------------------------------------

pub open spec fn backquoted(refs: Seq<Seq<char>>) -> Seq<Seq<char>> {
    Seq::new(refs.len(), |i: int| "- `"@ + refs[i] + "`"@)
}

/// The document of the checkpoint that an import brings along.
pub open spec fn seed_text(id: u128, generation: int, state: JsonV, refs: Seq<Seq<char>>) -> Seq<
    char,
> {
    "---\nbrunn_kind: checkpoint\ncheckpoint_id: "@ + uuid_text(id) + "\nworkspace_generation: "@
        + decimal(generation) + "\n---\n\n# Seed checkpoint\n\n## State\n\n```json\n"@ + pretty_text(
        state,
    ) + "\n```\n\n## Source references\n\n"@ + (if refs.len() == 0 {
        "- None recorded."@
    } else {
        joined(backquoted(refs), "\n"@)
    }) + "\n"@
}

/// The document of the checkpoint that an import brings along.
pub fn render_seed_checkpoint(
    checkpoint_id: u128,
    generation: i64,
    state: &Json,
    source_refs: &Vec<String>,
) -> (r: String)
    ensures
        r@ == seed_text(checkpoint_id, generation as int, state@, texts(source_refs@)),
{
    let ghost refs = texts(source_refs@);
    let mut lines: Vec<String> = Vec::new();
    let mut i: usize = 0;
    while i < source_refs.len()
        invariant
            i <= source_refs@.len(),
            refs == texts(source_refs@),
            texts(lines@) == backquoted(refs).take(i as int),
        decreases source_refs@.len() - i,
    {
        let ghost held = lines@;
        lines.push(cat3("- `", source_refs[i].as_str(), "`"));
        proof {
            lemma_texts_push(held, lines@[held.len() as int]);
            assert(backquoted(refs).take(i + 1) =~= backquoted(refs).take(i as int).push(
                backquoted(refs)[i as int],
            ));
        }
        i = i + 1;
    }
    assert(backquoted(refs).take(i as int) =~= backquoted(refs));
    let listed = if source_refs.len() == 0 {
        "- None recorded.".to_owned()
    } else {
        join(&lines, "\n")
    };
    let mut out = "---\nbrunn_kind: checkpoint\ncheckpoint_id: ".to_owned();
    out.append(uuid_format(checkpoint_id).as_str());
    out.append("\nworkspace_generation: ");
    out.append(decimal_of(generation).as_str());
    out.append("\n---\n\n# Seed checkpoint\n\n## State\n\n```json\n");
    out.append(pretty_json(state).as_str());
    out.append("\n```\n\n## Source references\n\n");
    out.append(listed.as_str());
    out.append("\n");
    out
}

/// What is kept with that checkpoint; every source it names has to be among the
/// documents.
pub fn seed_metadata(
    checkpoint_id: u128,
    generation: i64,
    source_refs: &Vec<String>,
    source_entries: Vec<Json>,
) -> (r: Result<Json, ApiError>)
    ensures
        match r {
            Ok(metadata) => source_entries@.len() == source_refs@.len() && metadata@
                == object().with("kind"@, JsonV::Text("checkpoint"@)).with(
                "checkpoint_ref"@,
                JsonV::Text(checkpoint_ref_text(checkpoint_id)),
            ).with("workspace_generation"@, integer(generation as int)).with(
                "source_refs"@,
                text_items(source_refs@),
            ).with("source_entries"@, JsonV::Array(items_view(source_entries@))),
            Err(e) => source_entries@.len() != source_refs@.len() && e@ == ApiErrorV::Invalid(
                "every seed checkpoint source_ref must identify a base document"@,
            ),
        },
{
    if source_entries.len() != source_refs.len() {
        return Err(
            ApiError::invalid("every seed checkpoint source_ref must identify a base document"),
        );
    }
    Ok(
        Json::object().with("kind", Json::text("checkpoint")).with(
            "checkpoint_ref",
            Json::Text(checkpoint_ref(checkpoint_id)),
        ).with("workspace_generation", Json::integer(generation)).with(
            "source_refs",
            write_text_items(source_refs),
        ).with("source_entries", Json::array(source_entries)),
    )
}

// ---------------------------------------------------------------------------
// What is told
// ---------------------------------------------------------------------------

/// What came of an import.
#[derive(Debug)]
pub struct EvalOutcome {
    pub user_id: u128,
    pub scope_id: u128,
    pub credential_id: u128,
    pub base_generation: i64,
    pub generation: i64,
    pub checkpoint_ref: Option<String>,
    pub chunks: usize,
    pub embeddings: usize,
    pub embedding_provider: String,
    pub embedding_model: String,
    pub embedding_degraded: bool,
    pub token: String,
}

pub open spec fn import_id(user: u128) -> Seq<char> {
    "simple-import:"@ + uuid_text(user)
}

pub open spec fn optional_count(n: Option<usize>) -> JsonV {
    match n {
        Some(n) => integer(n as int),
        None => JsonV::Null,
    }
}

pub open spec fn index_status(semantic: Seq<char>) -> JsonV {
    object().with("exact"@, JsonV::Text("ready"@)).with("lexical"@, JsonV::Text("ready"@)).with(
        "semantic"@,
        JsonV::Text(semantic),
    )
}

/// What is told of an import.
pub open spec fn eval_json(
    request: EvalImportRequest,
    batch: Option<(usize, usize)>,
    o: EvalOutcome,
) -> JsonV {
    let ready = o.embeddings == o.chunks;
    object().with(
        "status"@,
        JsonV::Text(
            if ready {
                "ready"@
            } else {
                "indexing"@
            },
        ),
    ).with("ready_for_evaluation"@, JsonV::Bool(ready)).with(
        "import_id"@,
        JsonV::Text(import_id(o.user_id)),
    ).with(
        "status_url"@,
        JsonV::Text("/v1/workspace/admin/eval/imports/"@ + import_id(o.user_id)),
    ).with("authorization_scope"@, JsonV::Text(request.authorization_scope@)).with(
        "requested_authorization_scope"@,
        JsonV::Text(request.authorization_scope@),
    ).with("display_scope"@, JsonV::Text(request.display_scope@)).with(
        "access_mode"@,
        JsonV::Text(request.access_mode@),
    ).with("user_id"@, JsonV::Text("user:"@ + uuid_text(o.user_id))).with(
        "scope_id"@,
        JsonV::Text("scope:"@ + uuid_text(o.scope_id)),
    ).with("credential_id"@, JsonV::Text("credential:"@ + uuid_text(o.credential_id))).with(
        "base_corpus_revision"@,
        JsonV::Text(revision_text(o.base_generation as int)),
    ).with("corpus_revision"@, JsonV::Text(revision_text(o.generation as int))).with(
        "checkpoint_id"@,
        optional_text(option_view(o.checkpoint_ref)),
    ).with("seed_session_id"@, JsonV::Null).with(
        "index_status"@,
        index_status(
            if ready {
                "ready"@
            } else {
                "pending"@
            },
        ),
    ).with(
        "index_counts"@,
        object().with(
            "documents"@,
            integer((request.documents@.len() + request.delta_documents@.len()) as int),
        ).with("chunks"@, integer(o.chunks as int)).with("embeddings"@, integer(o.embeddings as int)),
    ).with("embedding_provider"@, JsonV::Text(o.embedding_provider@)).with(
        "embedding_model"@,
        JsonV::Text(o.embedding_model@),
    ).with("embedding_degraded"@, JsonV::Bool(o.embedding_degraded)).with(
        "documents"@,
        integer(request.documents@.len() as int),
    ).with("delta_documents"@, integer(request.delta_documents@.len() as int)).with(
        "batch_index"@,
        optional_count(
            match batch {
                Some(b) => Some(b.0),
                None => None,
            },
        ),
    ).with(
        "batch_count"@,
        optional_count(
            match batch {
                Some(b) => Some(b.1),
                None => None,
            },
        ),
    ).with("replayed"@, JsonV::Bool(false)).with(
        "token_status"@,
        JsonV::Text("issued_once"@),
    ).with("credential_token"@, JsonV::Text(o.token@))
}

fn write_count(n: Option<usize>) -> (r: Json)
    ensures
        r@ == optional_count(n),
{
    match n {
        Some(n) => Json::count(n),
        None => Json::Null,
    }
}

fn write_index_status(semantic: &str) -> (r: Json)
    ensures
        r@ == index_status(semantic@),
{
    Json::object().with("exact", Json::text("ready")).with("lexical", Json::text("ready")).with(
        "semantic",
        Json::text(semantic),
    )
}

/// What is told of an import.
pub fn evaluation_response(
    request: &EvalImportRequest,
    batch: Option<(usize, usize)>,
    o: &EvalOutcome,
) -> (r: Json)
    requires
        request.documents@.len() + request.delta_documents@.len() <= usize::MAX,
    ensures
        r@ == eval_json(*request, batch, *o),
{
    let ready = o.embeddings == o.chunks;
    let id = cat("simple-import:", uuid_format(o.user_id).as_str());
    let (index, count): (Option<usize>, Option<usize>) = match batch {
        Some((index, count)) => (Some(index), Some(count)),
        None => (None, None),
    };
    let status = if ready {
        "ready"
    } else {
        "indexing"
    };
    let semantic = if ready {
        "ready"
    } else {
        "pending"
    };
    Json::object().with("status", Json::text(status)).with(
        "ready_for_evaluation",
        Json::Bool(ready),
    ).with("import_id", Json::text(id.as_str())).with(
        "status_url",
        Json::Text(cat("/v1/workspace/admin/eval/imports/", id.as_str())),
    ).with("authorization_scope", Json::text(request.authorization_scope.as_str())).with(
        "requested_authorization_scope",
        Json::text(request.authorization_scope.as_str()),
    ).with("display_scope", Json::text(request.display_scope.as_str())).with(
        "access_mode",
        Json::text(request.access_mode.as_str()),
    ).with("user_id", Json::Text(cat("user:", uuid_format(o.user_id).as_str()))).with(
        "scope_id",
        Json::Text(cat("scope:", uuid_format(o.scope_id).as_str())),
    ).with("credential_id", Json::Text(cat("credential:", uuid_format(o.credential_id).as_str()))).with(
        "base_corpus_revision",
        Json::Text(revision(o.base_generation)),
    ).with("corpus_revision", Json::Text(revision(o.generation))).with(
        "checkpoint_id",
        Json::optional_text(&o.checkpoint_ref),
    ).with("seed_session_id", Json::Null).with("index_status", write_index_status(semantic)).with(
        "index_counts",
        Json::object().with(
            "documents",
            Json::count(request.documents.len() + request.delta_documents.len()),
        ).with("chunks", Json::count(o.chunks)).with("embeddings", Json::count(o.embeddings)),
    ).with("embedding_provider", Json::text(o.embedding_provider.as_str())).with(
        "embedding_model",
        Json::text(o.embedding_model.as_str()),
    ).with("embedding_degraded", Json::Bool(o.embedding_degraded)).with(
        "documents",
        Json::count(request.documents.len()),
    ).with("delta_documents", Json::count(request.delta_documents.len())).with(
        "batch_index",
        write_count(index),
    ).with("batch_count", write_count(count)).with("replayed", Json::Bool(false)).with(
        "token_status",
        Json::text("issued_once"),
    ).with("credential_token", Json::text(o.token.as_str()))
}

/// The user that an import belongs to.
pub open spec fn user_of_import(import: Seq<char>) -> Option<u128> {
    match behind(import, "simple-import:"@) {
        Some(id) => uuid_value(id),
        None => None,
    }
}

/// The user that an import belongs to, who alone may ask for it; `message` is what
/// others are told.
pub fn import_user(caller: &AuthContext, import: &str, message: &str) -> (r: Result<u128, ApiError>)
    ensures
        match user_of_import(import@) {
            None => r is Err && r->Err_0@ == ApiErrorV::Invalid(
                "invalid simple evaluation import ID"@,
            ),
            Some(user) => if caller.user_id == user {
                r == Ok::<u128, ApiError>(user)
            } else {
                r is Err && r->Err_0@ == ApiErrorV::Public(
                    403,
                    "evaluation_scope_mismatch"@,
                    message@,
                )
            },
        },
{
    let user: u128 = match strip_prefix(import, "simple-import:") {
        Some(id) => match uuid_parse(id.as_str()) {
            Some(user) => user,
            None => {
                return Err(ApiError::invalid("invalid simple evaluation import ID"));
            },
        },
        None => {
            return Err(ApiError::invalid("invalid simple evaluation import ID"));
        },
    };
    if caller.user_id != user {
        return Err(ApiError::public(403, "evaluation_scope_mismatch", message));
    }
    Ok(user)
}

/// How far an import is: ready once no work is left and none has failed.
pub open spec fn status_json(import: Seq<char>, pending: int, failed: int, generation: int) -> JsonV {
    let ready = pending == 0 && failed == 0;
    object().with(
        "status"@,
        JsonV::Text(
            if ready {
                "ready"@
            } else if failed > 0 {
                "failed"@
            } else {
                "indexing"@
            },
        ),
    ).with("ready_for_evaluation"@, JsonV::Bool(ready)).with("import_id"@, JsonV::Text(import)).with(
        "corpus_revision"@,
        JsonV::Text(revision_text(generation)),
    ).with(
        "index_status"@,
        index_status(
            if ready {
                "ready"@
            } else if failed > 0 {
                "failed"@
            } else {
                "pending"@
            },
        ),
    ).with(
        "index_counts"@,
        object().with("pending_jobs"@, integer(pending)).with("failed_jobs"@, integer(failed)),
    )
}

/// How far an import is.
pub fn evaluation_status_response(import: &str, pending: i64, failed: i64, generation: i64) -> (r:
    Json)
    ensures
        r@ == status_json(import@, pending as int, failed as int, generation as int),
{
    let ready = pending == 0 && failed == 0;
    let status = if ready {
        "ready"
    } else if failed > 0 {
        "failed"
    } else {
        "indexing"
    };
    let semantic = if ready {
        "ready"
    } else if failed > 0 {
        "failed"
    } else {
        "pending"
    };
    Json::object().with("status", Json::text(status)).with(
        "ready_for_evaluation",
        Json::Bool(ready),
    ).with("import_id", Json::text(import)).with(
        "corpus_revision",
        Json::Text(revision(generation)),
    ).with("index_status", write_index_status(semantic)).with(
        "index_counts",
        Json::object().with("pending_jobs", Json::integer(pending)).with(
            "failed_jobs",
            Json::integer(failed),
        ),
    )
}

/// What was removed with the workspace of an evaluation.
#[derive(Clone, Copy, Debug)]
pub struct Cleanup {
    pub entries_removed: i64,
    pub search_chunks_removed: i64,
    pub jobs_removed: i64,
    pub credentials_revoked: i64,
    pub revoked_at: i64,
}

/// What is told when the workspace of an evaluation is removed.
pub fn cleanup_response(import: &str, c: &Cleanup) -> (r: Json)
    ensures
        r@ == object().with("status"@, JsonV::Text("cleaned"@)).with(
            "import_id"@,
            JsonV::Text(import@),
        ).with("entries_removed"@, integer(c.entries_removed as int)).with(
            "search_chunks_removed"@,
            integer(c.search_chunks_removed as int),
        ).with("jobs_removed"@, integer(c.jobs_removed as int)).with(
            "credentials_revoked"@,
            integer(c.credentials_revoked as int),
        ).with("revoked_at"@, time_json(c.revoked_at)),
{
    Json::object().with("status", Json::text("cleaned")).with("import_id", Json::text(import)).with(
        "entries_removed",
        Json::integer(c.entries_removed),
    ).with("search_chunks_removed", Json::integer(c.search_chunks_removed)).with(
        "jobs_removed",
        Json::integer(c.jobs_removed),
    ).with("credentials_revoked", Json::integer(c.credentials_revoked)).with(
        "revoked_at",
        time_value(c.revoked_at),
    )
}

/// Refuses a write while another one publishes the same entry.
pub fn check_publish_lock(acquired: bool) -> (r: Result<(), ApiError>)
    ensures
        refusal(r) == if acquired {
            None
        } else {
            Some(
                ApiErrorV::Conflict(
                    "entry_busy"@,
                    "another write is publishing the same entry; retry"@,
                    object().with("retryable"@, JsonV::Bool(true)),
                ),
            )
        },
{
    if acquired {
        return Ok(());
    }
    Err(
        ApiError::conflict(
            "entry_busy",
            "another write is publishing the same entry; retry",
            Json::object().with("retryable", Json::Bool(true)),
        ),
    )
}

}
