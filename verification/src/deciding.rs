//! Laws of decisions: what a write, an upload or a deletion does follows from what was asked
//! and from what is there, nothing is overwritten that its writer has not seen, and what is
//! refused is refused for a reason.
use vstd::prelude::*;

#[allow(unused_imports)]
use crate::binary::media_type_of;
#[allow(unused_imports)]
use crate::candidate::option_view;
#[allow(unused_imports)]
use crate::error::ApiErrorV;
#[allow(unused_imports)]
use crate::evaluation::{batch_refusal, target_of};
#[allow(unused_imports)]
use crate::files::{
    annotated, decided_binary, description_kept, description_queued, end_refusal, said,
    stream_refusal, BinaryAction, BinaryUpload, ExistingBinary,
};
#[allow(unused_imports)]
use crate::history::{
    stage_of, TierAHistorySemantics, TierAHistoryStage,
};
#[allow(unused_imports)]
use crate::json::{alike, integer, object, JsonV};
#[allow(unused_imports)]
use crate::outside::entry_ref_text;
#[allow(unused_imports)]
use crate::paths::{
    checkpoint_of_path, checkpoint_ref_text, digest_value, managed, printable, safe_path, utf8_len,
};
#[allow(unused_imports)]
use crate::requests::{EvalImportRequest, StreamingBinaryQuery, WriteRequest};
#[allow(unused_imports)]
use crate::text::{has_prefix, has_suffix};
#[allow(unused_imports)]
use crate::upsert::{
    decided, delete_refusal, metadata_after, result_of, taken_along, version_conflict,
    writes_chunks, DeletableEntry, ExistingEntry,
    UpsertAction, WriteOperation,
};
#[allow(unused_imports)]
use crate::write::{
    as_metadata, bare_digest, client_of, content_refusal, form_refusal, kept_metadata, restores,
    write_path_refusal, ConversationCheck, DocumentFacts, PreparedMarkdown,
};

verus! {

// ---------------------------------------------------------------------------
// Writes
// ---------------------------------------------------------------------------

/// Whether a write is an ordinary one: no step of a history that keeps the content, and
/// not to a checkpoint.
pub open spec fn is_ordinary(p: PreparedMarkdown) -> bool {
    &&& p.tier_a_history_stage matches Some(s) ==> s.semantics
        != TierAHistorySemantics::PreserveIntentionalExactBytesVersion
    &&& checkpoint_of_path(p.path@) is None
}

/// Whether a write expects a version that is not there.
pub open spec fn is_stale(expected: Option<i64>, version: int, deleted: bool) -> bool {
    expected matches Some(e) && e != version && !(deleted && e == 0)
}

/// A document that is new is created in its first version, unless it is expected to be
/// there.
pub proof fn lemma_new_documents_are_created(p: PreparedMarkdown, new_id: u128)
    requires
        is_ordinary(p),
    ensures
        p.expected_version is None || p.expected_version == Some(0i64) ==> decided(p, None, new_id)
            == Ok::<UpsertAction, ApiErrorV>(
            UpsertAction::Append { entry_id: new_id, version: 1, operation: WriteOperation::Create },
        ),
        is_stale(p.expected_version, 0, false) ==> decided(p, None, new_id) is Err,
{
}

/// Changed content becomes the next version of the same entry.
pub proof fn lemma_changes_become_versions(p: PreparedMarkdown, row: ExistingEntry, new_id: u128)
    requires
        is_ordinary(p),
        row.kind@ == "markdown"@,
        row.content_sha256@ != p.content_sha256@,
        row.current_version < i64::MAX,
        !is_stale(p.expected_version, row.current_version as int, row.deleted),
    ensures
        decided(p, Some(row), new_id) == Ok::<UpsertAction, ApiErrorV>(
            UpsertAction::Append {
                entry_id: row.id,
                version: (row.current_version + 1) as i64,
                operation: WriteOperation::Update,
            },
        ),
{
}

/// Nothing is overwritten that the writer has not seen: a write of other content that
/// expects another version is refused, and is told both versions.
pub proof fn lemma_stale_writes_are_refused(p: PreparedMarkdown, row: ExistingEntry, new_id: u128)
    requires
        is_ordinary(p),
        row.kind@ == "markdown"@,
        row.content_sha256@ != p.content_sha256@,
        is_stale(p.expected_version, row.current_version as int, row.deleted),
    ensures
        decided(p, Some(row), new_id) matches Err(ApiErrorV::Conflict(code, _, details)) && code
            == "entry_version_conflict"@ && details.get("path"@) == Some(JsonV::Text(p.path@))
            && details.get("expected_version"@) == Some(
            integer(p.expected_version->0 as int),
        ) && details.get("actual_version"@) == Some(integer(row.current_version as int)),
{
    reveal_strlit("path");
    reveal_strlit("expected_version");
    reveal_strlit("actual_version");
    assert("path"@.len() == 4 && "expected_version"@.len() == 16 && "actual_version"@.len() == 14);
}

/// A file is never replaced by a document.
pub proof fn lemma_files_are_not_overwritten(p: PreparedMarkdown, row: ExistingEntry, new_id: u128)
    requires
        row.kind@ != "markdown"@,
    ensures
        decided(p, Some(row), new_id) matches Err(ApiErrorV::Conflict(code, _, details)) && code
            == "entry_kind_conflict"@ && details.get("path"@) == Some(JsonV::Text(p.path@)),
{
}

/// Whatever a write does, it is right to do it: it keeps only what is there as it is, it
/// amends only an entry with the same content, bringing it back exactly where it is
/// deleted, and it adds a version only where its writer has seen the one before.
pub proof fn lemma_writes_are_justified(
    p: PreparedMarkdown,
    existing: Option<ExistingEntry>,
    new_id: u128,
)
    requires
        decided(p, existing, new_id) is Ok,
    ensures
        existing matches Some(row) ==> row.kind@ == "markdown"@,
        match decided(p, existing, new_id)->Ok_0 {
            UpsertAction::Keep => existing matches Some(row) && row.content_sha256@
                == p.content_sha256@ && !row.deleted,
            UpsertAction::Amend { metadata, restore } => existing matches Some(row)
                && row.content_sha256@ == p.content_sha256@ && restore == row.deleted && (metadata
                || restore) && !p.force_new_version && (metadata ==> !alike(
                row.metadata@,
                p.metadata@,
            ) && (p.metadata@.get("_brunn_import"@) is Some || p.metadata@.get(
                "portable"@,
            ) is Some)),
            UpsertAction::Append { entry_id, version, operation } => {
                &&& existing is None ==> entry_id == new_id && version == 1 && operation
                    == WriteOperation::Create && !is_stale(p.expected_version, 0, false)
                &&& existing matches Some(row) ==> entry_id == row.id && operation
                    == WriteOperation::Update && !is_stale(
                    p.expected_version,
                    row.current_version as int,
                    row.deleted,
                ) && (row.content_sha256@ != p.content_sha256@ || p.force_new_version
                    || p.tier_a_history_stage is Some)
            },
        },
{
}

/// What an import says of a document that is there with the same content is not lost: it
/// takes the place of what was kept, unless that is the same.
pub proof fn lemma_imported_facts_are_taken_over(
    p: PreparedMarkdown,
    row: ExistingEntry,
    new_id: u128,
    generation: int,
)
    requires
        is_ordinary(p),
        !p.force_new_version,
        row.kind@ == "markdown"@,
        row.content_sha256@ == p.content_sha256@,
        p.metadata@.get("_brunn_import"@) is Some || p.metadata@.get("portable"@) is Some,
    ensures
        decided(p, Some(row), new_id) is Ok,
        alike(
            metadata_after(p, Some(row), decided(p, Some(row), new_id)->Ok_0, generation),
            p.metadata@,
        ),
{
}

/// A write that says nothing of where it is from leaves what is kept with the same content
/// as it is.
pub proof fn lemma_kept_facts_stay(
    p: PreparedMarkdown,
    row: ExistingEntry,
    new_id: u128,
    generation: int,
)
    requires
        is_ordinary(p),
        !p.force_new_version,
        row.kind@ == "markdown"@,
        row.content_sha256@ == p.content_sha256@,
        p.metadata@.get("_brunn_import"@) is None && p.metadata@.get("portable"@) is None,
    ensures
        decided(p, Some(row), new_id) is Ok,
        metadata_after(p, Some(row), decided(p, Some(row), new_id)->Ok_0, generation)
            == row.metadata@,
        !(decided(p, Some(row), new_id)->Ok_0 is Append),
{
}

/// What is kept with a document is all that its request says of it, and beside that the
/// digest of its key alone.
pub proof fn lemma_metadata_is_kept(request: WriteRequest, key: Seq<char>)
    ensures
        kept_metadata(request) is Object,
        request.metadata@ is Object && key != "_brunn_idempotency_hash"@ ==> kept_metadata(
            request,
        ).get(key) == request.metadata@.get(key),
        request.metadata@ is Object && request.idempotency_key is None ==> kept_metadata(request)
            == request.metadata@,
        request.idempotency_key matches Some(k) ==> kept_metadata(request).get(
            "_brunn_idempotency_hash"@,
        ) == Some(JsonV::Text(crate::outside::text_digest(k@))),
        !(request.metadata@ is Object) && !(request.metadata@ is Null) ==> kept_metadata(
            request,
        ).get("value"@) == Some(request.metadata@),
{
    reveal_strlit("_brunn_idempotency_hash");
    reveal_strlit("value");
    assert("_brunn_idempotency_hash"@.len() == 23 && "value"@.len() == 5);
}

/// A request is of an acceptable form exactly where its path is safe, its media type is one
/// of a text, and its key, where it has one, is printable.
pub proof fn lemma_acceptable_forms(request: WriteRequest)
    ensures
        form_refusal(request) is None <==> {
            &&& safe_path(request.path@)
            &&& request.media_type@ == "text/markdown"@ || request.media_type@ == "text/plain"@
            &&& request.idempotency_key matches Some(key) ==> printable(key@, 256)
        },
        form_refusal(request) matches Some(e) ==> e is Invalid,
{
}

/// A document that is written has at most four mebibytes, or twelve where it is a
/// conversation, which only an import writes and which must be a valid one.
pub proof fn lemma_written_documents_are_bounded(
    request: WriteRequest,
    facts: DocumentFacts,
    evaluation: bool,
)
    requires
        content_refusal(request, facts, evaluation) is None,
    ensures
        !facts.conversation_candidate ==> utf8_len(request.content@) <= 4 * 1024 * 1024,
        facts.conversation_candidate ==> utf8_len(request.content@) <= 12 * 1024 * 1024
            && facts.workspace_import && facts.conversation is Valid,
        facts.task is Ok,
{
}

/// A plain document of at most four mebibytes that is no step of a history is written.
pub proof fn lemma_plain_documents_are_written(
    request: WriteRequest,
    facts: DocumentFacts,
    evaluation: bool,
)
    requires
        !facts.conversation_candidate,
        facts.task is Ok,
        utf8_len(request.content@) <= 4 * 1024 * 1024,
        request.metadata@.get("_brunn_tier_a_history"@) is None,
    ensures
        content_refusal(request, facts, evaluation) is None,
{
    reveal_strlit("_brunn_tier_a_history");
    reveal_strlit("_brunn_idempotency_hash");
    reveal_strlit("value");
    assert("_brunn_tier_a_history"@.len() == 21 && "_brunn_idempotency_hash"@.len() == 23 && "value"@.len() == 5);
}

/// Every safe path outside the managed part of the workspace may be written, and inside it
/// only what an import restores: a checkpoint under its own name, the description of a
/// file, a task, or a valid conversation.
pub proof fn lemma_paths_that_may_be_written(
    request: WriteRequest,
    task: Result<bool, ApiErrorV>,
    conversation: ConversationCheck,
)
    ensures
        safe_path(request.path@) && !managed(request.path@) ==> write_path_refusal(
            request,
            task,
            conversation,
        ) is None,
        !safe_path(request.path@) ==> write_path_refusal(request, task, conversation) is Some,
        managed(request.path@) && write_path_refusal(request, task, conversation) is None ==> {
            let said = client_of(request.metadata@);
            ||| task == Ok::<bool, ApiErrorV>(true)
            ||| conversation is Valid
            ||| checkpoint_of_path(request.path@) is Some && said.get("kind"@) == Some(
                JsonV::Text("checkpoint"@),
            ) && (said.get_text("checkpoint_ref"@) is None || said.get("checkpoint_ref"@) == Some(
                JsonV::Text(checkpoint_ref_text(checkpoint_of_path(request.path@)->0)),
            ))
            ||| has_prefix(request.path@, ".brunn/binaries/"@) && has_suffix(
                request.path@,
                ".md"@,
            ) && said.get("kind"@) == Some(JsonV::Text("binary_description"@))
        },
{
}

/// The step of a history that metadata describes is the one that is written there: behind
/// a positive ordinal, with one of the two meanings. Without a description there is none.
pub proof fn lemma_stages_are_read_as_written(metadata: JsonV)
    ensures
        stage_of(metadata) == Ok::<Option<TierAHistoryStage>, ApiErrorV>(None) <==> metadata.get(
            "_brunn_tier_a_history"@,
        ) is None,
        stage_of(metadata) matches Ok(Some(stage)) ==> {
            let said = metadata.get("_brunn_tier_a_history"@)->0;
            &&& said.get("target_lineage_ordinal"@) is Some
            &&& said.get("target_lineage_ordinal"@)->0.integer() == Some(
                stage.target_lineage_ordinal as int,
            )
            &&& stage.target_lineage_ordinal > 0
            &&& stage.semantics is OrdinaryContentTransition ==> said.get("semantics"@) == Some(
                JsonV::Text("ordinary_content_transition"@),
            )
            &&& stage.semantics is PreserveIntentionalExactBytesVersion ==> said.get("semantics"@)
                == Some(JsonV::Text("preserve_intentional_exact_bytes_version"@))
                && stage.target_lineage_ordinal >= 2
        },
{
}

// ---------------------------------------------------------------------------
// Deletions
// ---------------------------------------------------------------------------

/// An entry is deleted exactly where its path is one that may be written, and the version
/// is the expected one where one is expected.
pub proof fn lemma_deletions_are_justified(id: u128, row: DeletableEntry, expected: Option<i64>)
    ensures
        delete_refusal(id, row, expected) is None <==> {
            &&& safe_path(row.path@)
            &&& !managed(row.path@)
            &&& expected matches Some(e) ==> e == row.current_version
        },
        delete_refusal(id, row, expected) matches Some(ApiErrorV::Conflict(code, _, details))
            ==> code == "entry_version_conflict"@ && details.get("entry_ref"@) == Some(
            JsonV::Text(entry_ref_text(id)),
        ) && details.get("expected_version"@) == Some(integer(expected->0 as int)) && details.get(
            "actual_version"@,
        ) == Some(integer(row.current_version as int)),
{
    reveal_strlit("entry_ref");
    reveal_strlit("expected_version");
    reveal_strlit("actual_version");
    assert("entry_ref"@.len() == 9 && "expected_version"@.len() == 16 && "actual_version"@.len() == 14);
}

// ---------------------------------------------------------------------------
// Uploads
// ---------------------------------------------------------------------------

/// A file that is new is created in its first version, unless it is expected to be there.
pub proof fn lemma_new_files_are_created(upload: BinaryUpload, permitted: bool, new_id: u128)
    ensures
        decided_binary(upload, None, permitted, new_id) == if is_stale(
            upload.expected_version,
            0,
            false,
        ) {
            Err::<BinaryAction, ApiErrorV>(
                version_conflict(upload.path@, upload.expected_version->0 as int, 0),
            )
        } else {
            Ok(
                BinaryAction::Append {
                    entry_id: new_id,
                    version: 1,
                    operation: WriteOperation::Create,
                },
            )
        },
{
}

/// Other bytes become the next version of the same file, where the expected version is
/// there; with a permission of its own an upload makes a version of the same bytes too.
pub proof fn lemma_other_bytes_become_versions(
    upload: BinaryUpload,
    row: ExistingBinary,
    permitted: bool,
    new_id: u128,
)
    requires
        row.current_version < i64::MAX,
        permitted || row.content_sha256@ != bare_digest(upload.stored_hash@),
    ensures
        !is_stale(upload.expected_version, row.current_version as int, row.deleted)
            ==> decided_binary(upload, Some(row), permitted, new_id) == Ok::<
            BinaryAction,
            ApiErrorV,
        >(
            BinaryAction::Append {
                entry_id: row.id,
                version: (row.current_version + 1) as i64,
                operation: WriteOperation::Update,
            },
        ),
        is_stale(upload.expected_version, row.current_version as int, row.deleted)
            ==> decided_binary(upload, Some(row), permitted, new_id) == Err::<
            BinaryAction,
            ApiErrorV,
        >(
            version_conflict(
                upload.path@,
                upload.expected_version->0 as int,
                row.current_version as int,
            ),
        ),
{
}

/// Bytes that are there make no version, whatever is expected: the file stays as it is
/// where it is not deleted and nothing new is said of it, and is annotated otherwise.
pub proof fn lemma_known_bytes_make_no_version(
    upload: BinaryUpload,
    row: ExistingBinary,
    new_id: u128,
)
    requires
        row.content_sha256@ == bare_digest(upload.stored_hash@),
    ensures
        decided_binary(upload, Some(row), false, new_id) is Ok,
        !(decided_binary(upload, Some(row), false, new_id)->Ok_0 is Append),
        decided_binary(upload, Some(row), false, new_id)->Ok_0 is Keep <==> !row.deleted && alike(
            annotated(upload, row.metadata@),
            row.metadata@,
        ) && row.media_type@ == upload.media_type@,
{
}

/// A conflict of versions tells the path and both versions.
pub proof fn lemma_conflicts_tell_versions(path: Seq<char>, expected: int, actual: int)
    ensures
        version_conflict(path, expected, actual) matches ApiErrorV::Conflict(code, _, details)
            && code == "entry_version_conflict"@ && details.get("path"@) == Some(
            JsonV::Text(path),
        ) && details.get("expected_version"@) == Some(integer(expected)) && details.get(
            "actual_version"@,
        ) == Some(integer(actual)),
{
    reveal_strlit("path");
    reveal_strlit("expected_version");
    reveal_strlit("actual_version");
    assert("path"@.len() == 4 && "expected_version"@.len() == 16 && "actual_version"@.len() == 14);
}

/// A stream is taken exactly where its path may be written, its digest is announced, or a
/// permission makes that unnecessary, its media type is short enough, and its mode holds
/// nothing but permissions.
pub proof fn lemma_streams_that_are_taken(permitted: bool, query: StreamingBinaryQuery)
    ensures
        stream_refusal(permitted, query) is None <==> {
            &&& safe_path(query.path@)
            &&& !managed(query.path@)
            &&& digest_value(query.expected_content_hash@) is Some || (permitted
                && query.expected_content_hash@.len() == 0)
            &&& utf8_len(media_type_of(option_view(query.media_type), query.path@)) <= 255
            &&& query.mode matches Some(mode) ==> mode <= 0o777
        },
{
}

/// What became of a write is told as it was done: the entry and the version that are there
/// now, a change only where one was made, and that nothing was done only where nothing was.
pub proof fn lemma_results_tell_what_was_done(
    action: UpsertAction,
    existing: Option<ExistingEntry>,
    new_version_id: u128,
    generation: Option<i64>,
)
    ensures
        ({
            let r = result_of(action, existing, new_version_id, generation);
            &&& r.no_op <==> action is Keep
            &&& r.metadata_only <==> (action matches UpsertAction::Amend { metadata, restore }
                && metadata)
            &&& r.generation == if action is Keep {
                None
            } else {
                generation
            }
            &&& action matches UpsertAction::Append { entry_id, version, operation } ==> r.entry_id
                == entry_id && r.version == version && r.version_id == Some(new_version_id)
            &&& !(action is Append) && existing is Some ==> r.entry_id == existing->0.id && r.version
                == existing->0.current_version && r.version_id == Some(existing->0.version_id)
        }),
{
}

/// Chunks are written with a version that is added and with an entry that is brought back,
/// and otherwise not.
pub proof fn lemma_when_chunks_are_written(action: UpsertAction)
    ensures
        action is Append ==> writes_chunks(action),
        action is Keep ==> !writes_chunks(action),
        action matches UpsertAction::Amend { metadata, restore } ==> writes_chunks(action)
            == restore,
{
}

/// A file takes its description along when it is deleted; a document takes nothing along.
pub proof fn lemma_files_take_descriptions_along(row: DeletableEntry)
    ensures
        row.kind@ == "binary"@ ==> (taken_along(row) matches Some(path) ==> row.metadata@.get(
            "companion_path"@,
        ) == Some(JsonV::Text(path))),
        row.kind@ == "binary"@ ==> (row.metadata@.get("companion_path"@) matches Some(
            JsonV::Text(path),
        ) ==> taken_along(row) == Some(path)),
        row.kind@ != "binary"@ ==> taken_along(row) is None,
{
}

/// A description stays only where the bytes were there and nothing new is said, and is
/// written in the background only where nobody gave one; never both where one was there.
pub proof fn lemma_descriptions_stay_or_are_written(
    upload: BinaryUpload,
    action: BinaryAction,
    permitted: bool,
)
    ensures
        said(upload.description) is Some || upload.companion is Some ==> !description_kept(
            upload,
            action,
        ) && !description_queued(upload, action, permitted, false) && !description_queued(
            upload,
            action,
            permitted,
            true,
        ),
        said(upload.description) is None && upload.companion is None ==> {
            &&& description_kept(upload, action) <==> !(action is Append)
            &&& !permitted && action is Append ==> description_queued(upload, action, permitted, true)
            &&& !permitted ==> description_queued(upload, action, permitted, false)
            &&& !(action is Append) ==> !description_queued(upload, action, permitted, true)
            &&& permitted ==> !description_queued(upload, action, permitted, false)
        },
{
}

/// A stream under a permission is accepted exactly where it has the permitted size, and
/// the permitted bytes where the permission names their digest.
pub proof fn lemma_streams_that_are_accepted(
    permitted_size: Option<u64>,
    expected: Option<Seq<char>>,
    bytes: Seq<u8>,
)
    ensures
        permitted_size is None ==> end_refusal(
            permitted_size,
            bytes.len() as int,
            expected,
            bytes,
        ) is None,
        permitted_size matches Some(limit) ==> (end_refusal(
            permitted_size,
            bytes.len() as int,
            expected,
            bytes,
        ) is None <==> bytes.len() == limit && (expected matches Some(hash) ==> hash
            == crate::outside::hex_text(crate::outside::sha256_digest(bytes)))),
{
}

/// A document that an import changes becomes the next version of its entry, or the first
/// one of a new entry.
pub proof fn lemma_imports_follow_versions(existing: Option<(u128, i64)>, new_id: u128)
    requires
        existing matches Some(row) ==> row.1 < i64::MAX,
    ensures
        existing is None ==> target_of(existing, new_id) == (new_id, 1i64, WriteOperation::Create),
        existing matches Some(row) ==> target_of(existing, new_id).0 == row.0 && target_of(
            existing,
            new_id,
        ).1 == row.1 + 1 && target_of(existing, new_id).2 == WriteOperation::Update,
{
}

/// The first batch of an import, or a whole one, is accepted exactly where its workspace
/// is new, and a later batch exactly where it is there.
pub proof fn lemma_batches_come_in_turn(
    request: EvalImportRequest,
    batch: Option<(usize, usize)>,
    existing: bool,
)
    ensures
        batch is None ==> (batch_refusal(request, batch, existing) is None <==> !existing),
        batch matches Some(b) ==> (b.0 == 0 ==> (batch_refusal(request, batch, existing) is None
            <==> !existing)) && (b.0 > 0 ==> (batch_refusal(request, batch, existing) is None
            <==> existing)),
{
}

} // verus!
