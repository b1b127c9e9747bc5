//! Laws of receipts and of what is kept: a receipt says what was done to which entry, and
//! what is kept with an entry is what was said of it.
use vstd::prelude::*;

#[allow(unused_imports)]
use crate::binary::portable_json;
#[allow(unused_imports)]
use crate::candidate::option_view;
#[allow(unused_imports)]
use crate::checkpoint::text_items;
#[allow(unused_imports)]
use crate::envelope::{
    envelope_json, receipt_reply, revision_text, status_word, ResponseStatus, WorkspaceEnvelope,
};
#[allow(unused_imports)]
use crate::evaluation::{
    eval_capabilities, eval_json, import_id, optional_count, status_json, EvalOutcome,
};
#[allow(unused_imports)]
use crate::files::{
    annotated, binary_receipt_of, companion_metadata, companion_path_of, description_status_of,
    fresh_metadata, limitations_of, optional_value, provenance_of, said, BinaryAction,
    BinaryUpload,
};
#[allow(unused_imports)]
use crate::json::{integer, items_view, object, optional_integer, optional_text, Json, JsonV};
#[allow(unused_imports)]
use crate::outside::{entry_ref_text, uuid_text};
#[allow(unused_imports)]
use crate::paths::checkpoint_ref_text;
#[allow(unused_imports)]
use crate::read::EntryRow;
#[allow(unused_imports)]
use crate::receipts::{
    all_pinned, checkpoint_metadata, checkpoint_receipt_json, resumed_json, stamped,
    with_generations,
};
#[allow(unused_imports)]
use crate::render::hash_text;
#[allow(unused_imports)]
use crate::requests::{CheckpointRequest, EvalImportRequest};
#[allow(unused_imports)]
use crate::text::{texts, trimmed};
#[allow(unused_imports)]
use crate::upsert::{
    delete_reply_of, markdown_receipt_of, receipt_head, version_ref_text, MarkdownUpsertResult,
};
#[allow(unused_imports)]
use crate::write::{bare_digest, client_of, rebased, rebased_client};

verus! {

// ---------------------------------------------------------------------------
// Writes
// ---------------------------------------------------------------------------

/// A receipt of a write says which entry it made or found, in which version, and the digest
/// of its content.
pub proof fn lemma_receipt_begins_with_the_entry(
    result: MarkdownUpsertResult,
    path: Seq<char>,
    sha256: Seq<char>,
    generation: int,
)
    ensures
        ({
            let v = receipt_head(result, path, sha256, generation);
            &&& v.get("entry_ref"@) == Some(JsonV::Text(entry_ref_text(result.entry_id)))
            &&& v.get("version_ref"@) == Some(match result.version_id { Some(id) => JsonV::Text(version_ref_text(id)), None => JsonV::Null })
            &&& v.get("path"@) == Some(JsonV::Text(path))
            &&& v.get("version"@) == Some(integer(result.version as int))
            &&& v.get("content_hash"@) == Some(JsonV::Text(hash_text(sha256)))
            &&& v.get("workspace_generation"@) == Some(integer(generation))
            &&& v is Object
            &&& forall|key: Seq<char>| key != "entry_ref"@ && key != "version_ref"@ && key != "path"@ && key != "version"@ && key != "content_hash"@ && key != "workspace_generation"@ ==> (#[trigger] v.get(key)) is None
        }),
{
    reveal_strlit("entry_ref");
    reveal_strlit("version_ref");
    reveal_strlit("path");
    reveal_strlit("version");
    reveal_strlit("content_hash");
    reveal_strlit("workspace_generation");
    assert("entry_ref"@.len() == 9 && "version_ref"@.len() == 11 && "path"@.len() == 4 && "version"@.len() == 7 && "content_hash"@.len() == 12 && "workspace_generation"@.len() == 20);
}

/// A receipt says whether anything was done, whether only metadata was changed, and what
/// this means to a search; it warns of what is superseded exactly where there is something
/// to warn of.
pub proof fn lemma_receipt_says_what_was_done(
    result: MarkdownUpsertResult,
    path: Seq<char>,
    sha256: Seq<char>,
    generation: int,
    warnings: Seq<JsonV>,
)
    ensures
        ({
            let v = markdown_receipt_of(result, path, sha256, generation, warnings);
            &&& v.get("entry_ref"@) == Some(JsonV::Text(entry_ref_text(result.entry_id)))
            &&& v.get("version_ref"@) == Some(match result.version_id { Some(id) => JsonV::Text(version_ref_text(id)), None => JsonV::Null })
            &&& v.get("path"@) == Some(JsonV::Text(path))
            &&& v.get("version"@) == Some(integer(result.version as int))
            &&& v.get("content_hash"@) == Some(JsonV::Text(hash_text(sha256)))
            &&& v.get("workspace_generation"@) == Some(integer(generation))
            &&& v.get("metadata_only"@) == Some(JsonV::Bool(result.metadata_only))
            &&& v.get("no_op"@) == Some(JsonV::Bool(result.no_op))
            &&& result.no_op ==> v.get("search_status"@) == Some(JsonV::Text("unchanged"@))
            &&& !result.no_op && result.metadata_only ==> v.get("search_status"@) == Some(JsonV::Text("content_unchanged"@))
            &&& !result.no_op && !result.metadata_only ==> v.get("search_status"@) == Some(JsonV::Text("lexical_ready_semantic_queued"@))
            &&& warnings.len() > 0 ==> v.get("supersession_warnings"@) == Some(JsonV::Array(warnings))
            &&& warnings.len() == 0 ==> v.get("supersession_warnings"@) is None
        }),
{
    reveal_strlit("entry_ref");
    reveal_strlit("version_ref");
    reveal_strlit("path");
    reveal_strlit("version");
    reveal_strlit("content_hash");
    reveal_strlit("workspace_generation");
    reveal_strlit("search_status");
    reveal_strlit("metadata_only");
    reveal_strlit("no_op");
    reveal_strlit("supersession_warnings");
    assert("entry_ref"@.len() == 9 && "version_ref"@.len() == 11 && "path"@.len() == 4 && "version"@.len() == 7 && "content_hash"@.len() == 12 && "workspace_generation"@.len() == 20 && "search_status"@.len() == 13 && "metadata_only"@.len() == 13 && "no_op"@.len() == 5 && "supersession_warnings"@.len() == 21);
    assert("search_status"@[0] != "metadata_only"@[0]);
}

/// The reply to a write is its receipt; it says that nothing was done where the receipt
/// does, and otherwise that the write is committed, with the state that it made.
pub proof fn lemma_reply_follows_receipt(receipt: JsonV, generation: i64)
    ensures
        receipt_reply(receipt).data == receipt,
        receipt_reply(receipt).gaps.len() == 0,
        receipt_reply(receipt).status == ResponseStatus::NoOp <==> receipt.get("no_op"@) == Some(
            JsonV::Bool(true),
        ),
        receipt_reply(receipt).status == ResponseStatus::Committed <==> receipt.get("no_op"@)
            != Some(JsonV::Bool(true)),
        receipt.get("workspace_generation"@) == Some(integer(generation as int)) ==> receipt_reply(
            receipt,
        ).corpus_revision == Some(revision_text(generation as int)),
{
}

/// The reply to a deletion names the entry; it is committed, with the state it made, exactly
/// where something was deleted.
pub proof fn lemma_deletion_is_told(
    id: u128,
    path: Seq<char>,
    version: int,
    generation: Option<i64>,
)
    ensures
        ({
            let v = delete_reply_of(id, path, version, generation).data;
            &&& v.get("entry_ref"@) == Some(JsonV::Text(entry_ref_text(id)))
            &&& v.get("path"@) == Some(JsonV::Text(path))
            &&& v.get("version"@) == Some(integer(version))
            &&& v.get("no_op"@) == Some(JsonV::Bool(generation is None))
            &&& delete_reply_of(id, path, version, generation).status == if generation is None { ResponseStatus::NoOp } else { ResponseStatus::Committed }
            &&& generation is None ==> v.get("workspace_generation"@) is None && delete_reply_of(id, path, version, generation).corpus_revision is None
            &&& generation matches Some(g) ==> v.get("workspace_generation"@) == Some(integer(g as int)) && delete_reply_of(id, path, version, generation).corpus_revision == Some(revision_text(g as int))
        }),
{
    reveal_strlit("entry_ref");
    reveal_strlit("path");
    reveal_strlit("version");
    reveal_strlit("no_op");
    reveal_strlit("workspace_generation");
    assert("entry_ref"@.len() == 9 && "path"@.len() == 4 && "version"@.len() == 7 && "no_op"@.len() == 5 && "workspace_generation"@.len() == 20);
}

// ---------------------------------------------------------------------------
// Checkpoints
// ---------------------------------------------------------------------------

/// A source is pinned to its entry, its path, its version and its digest, and no source is
/// left out.
pub proof fn lemma_sources_are_pinned_whole(
    entries: Seq<EntryRow>,
    i: int,
)
    requires
        0 <= i < entries.len(),
    ensures
        ({
            let v = all_pinned(entries)[i];
            &&& v.get("entry_ref"@) == Some(JsonV::Text(entry_ref_text(entries[i].id)))
            &&& v.get("path"@) == Some(JsonV::Text(entries[i].path@))
            &&& v.get("version"@) == Some(integer(entries[i].version as int))
            &&& v.get("content_hash"@) == Some(JsonV::Text(hash_text(entries[i].content_sha256@)))
            &&& all_pinned(entries).len() == entries.len()
        }),
{
    reveal_strlit("entry_ref");
    reveal_strlit("path");
    reveal_strlit("version");
    reveal_strlit("content_hash");
    assert("entry_ref"@.len() == 9 && "path"@.len() == 4 && "version"@.len() == 7 && "content_hash"@.len() == 12);
}

/// What is kept with a checkpoint says all that its request says, what it is pinned to, and
/// that its own write made no state yet.
#[verifier::rlimit(30)]
pub proof fn lemma_checkpoint_keeps_its_request(
    id: u128,
    generation: int,
    request: CheckpointRequest,
    sources: Seq<JsonV>,
    request_hash: Seq<char>,
)
    ensures
        ({
            let v = checkpoint_metadata(id, generation, request, sources, request_hash);
            &&& v.get("kind"@) == Some(JsonV::Text("checkpoint"@))
            &&& v.get("checkpoint_ref"@) == Some(JsonV::Text(checkpoint_ref_text(id)))
            &&& v.get("workspace_generation"@) == Some(integer(generation))
            &&& v.get("pinned_workspace_generation"@) == Some(integer(generation))
            &&& v.get("resulting_workspace_generation"@) == Some(JsonV::Null)
            &&& v.get("session_id"@) == Some(JsonV::Text(request.session_id@))
            &&& v.get("parent_checkpoint_ref"@) == Some(optional_text(option_view(request.parent_checkpoint_id)))
            &&& v.get("checkpoint_state"@) == Some(request.state@)
            &&& v.get("project"@) == Some(match request.state@.get("project"@) { Some(p) => p, None => JsonV::Null })
            &&& v.get("source_refs"@) == Some(text_items(request.source_refs@))
            &&& v.get("source_entries"@) == Some(JsonV::Array(sources))
            &&& v.get("request_hash"@) == Some(JsonV::Text(hash_text(request_hash)))
            &&& v.get("operation_kind"@) == Some(JsonV::Text("checkpoint"@))
        }),
{
    reveal_strlit("kind");
    reveal_strlit("checkpoint_ref");
    reveal_strlit("workspace_generation");
    reveal_strlit("pinned_workspace_generation");
    reveal_strlit("resulting_workspace_generation");
    reveal_strlit("session_id");
    reveal_strlit("parent_checkpoint_ref");
    reveal_strlit("checkpoint_state");
    reveal_strlit("project");
    reveal_strlit("source_refs");
    reveal_strlit("source_entries");
    reveal_strlit("request_hash");
    reveal_strlit("operation_kind");
    assert("kind"@.len() == 4 && "checkpoint_ref"@.len() == 14 && "workspace_generation"@.len() == 20 && "pinned_workspace_generation"@.len() == 27 && "resulting_workspace_generation"@.len() == 30 && "session_id"@.len() == 10 && "parent_checkpoint_ref"@.len() == 21 && "checkpoint_state"@.len() == 16 && "project"@.len() == 7 && "source_refs"@.len() == 11 && "source_entries"@.len() == 14 && "request_hash"@.len() == 12 && "operation_kind"@.len() == 14);
    assert("checkpoint_ref"@[0] != "source_entries"@[0]);
    assert("checkpoint_ref"@[0] != "operation_kind"@[0]);
    assert("source_entries"@[0] != "operation_kind"@[0]);
}

/// Once a checkpoint is written, what the client said of it tells both states, the one it
/// is pinned to and the one it made; everything else that was kept stays.
pub proof fn lemma_checkpoint_is_stamped(metadata: JsonV, pinned: int, resulting: int, key: Seq<char>)
    requires
        metadata is Object,
    ensures
        ({
            let told = client_of(stamped(metadata, pinned, resulting));
            &&& told.get("workspace_generation"@) == Some(integer(pinned))
            &&& told.get("pinned_workspace_generation"@) == Some(integer(pinned))
            &&& told.get("resulting_workspace_generation"@) == Some(integer(resulting))
            &&& key != "workspace_generation"@ && key != "pinned_workspace_generation"@ && key
                != "resulting_workspace_generation"@ ==> told.get(key) == client_of(metadata).get(
                key,
            )
        }),
        (match metadata.get("client"@) {
            Some(c) => c is Object,
            None => false,
        }) && key != "client"@ ==> stamped(metadata, pinned, resulting).get(key) == metadata.get(key),
{
    reveal_strlit("workspace_generation");
    reveal_strlit("pinned_workspace_generation");
    reveal_strlit("resulting_workspace_generation");
    reveal_strlit("client");
    assert("workspace_generation"@.len() == 20 && "pinned_workspace_generation"@.len() == 27 && "resulting_workspace_generation"@.len() == 30 && "client"@.len() == 6);
}

/// The receipt of a checkpoint says what was written, what it is pinned to, and the state
/// it made.
#[verifier::rlimit(30)]
pub proof fn lemma_checkpoint_receipt_is_whole(
    reference: Seq<char>,
    path: Seq<char>,
    entry_id: u128,
    version_id: u128,
    version: int,
    sha256: Seq<char>,
    pinned: int,
    resulting: int,
    sources: Seq<JsonV>,
)
    ensures
        ({
            let v = checkpoint_receipt_json(reference, path, entry_id, version_id, version, sha256, pinned, resulting, sources);
            &&& v.get("checkpoint_id"@) == Some(JsonV::Text(reference))
            &&& v.get("checkpoint_ref"@) == Some(JsonV::Text(reference))
            &&& v.get("path"@) == Some(JsonV::Text(path))
            &&& v.get("workspace_generation"@) == Some(integer(resulting))
            &&& v.get("pinned_workspace_generation"@) == Some(integer(pinned))
            &&& v.get("resulting_workspace_generation"@) == Some(integer(resulting))
            &&& v.get("source_entries"@) == Some(JsonV::Array(sources))
            &&& v.get("write"@) is Some
            &&& v.get("write"@)->0.get("entry_ref"@) == Some(JsonV::Text(entry_ref_text(entry_id)))
            &&& v.get("write"@)->0.get("version_ref"@) == Some(JsonV::Text(version_ref_text(version_id)))
            &&& v.get("write"@)->0.get("path"@) == Some(JsonV::Text(path))
            &&& v.get("write"@)->0.get("version"@) == Some(integer(version))
            &&& v.get("write"@)->0.get("content_hash"@) == Some(JsonV::Text(hash_text(sha256)))
            &&& v.get("write"@)->0.get("workspace_generation"@) == Some(integer(resulting))
            &&& v.get("write"@)->0.get("pinned_workspace_generation"@) == Some(integer(pinned))
            &&& v.get("write"@)->0.get("resulting_workspace_generation"@) == Some(integer(resulting))
            &&& v.get("write"@)->0.get("no_op"@) == Some(JsonV::Bool(false))
            &&& v.get("write"@)->0.get("metadata_only"@) == Some(JsonV::Bool(false))
        }),
{
    reveal_strlit("checkpoint_id");
    reveal_strlit("checkpoint_ref");
    reveal_strlit("path");
    reveal_strlit("workspace_generation");
    reveal_strlit("pinned_workspace_generation");
    reveal_strlit("resulting_workspace_generation");
    reveal_strlit("source_entries");
    reveal_strlit("write");
    reveal_strlit("entry_ref");
    reveal_strlit("version_ref");
    reveal_strlit("version");
    reveal_strlit("content_hash");
    reveal_strlit("search_status");
    reveal_strlit("metadata_only");
    reveal_strlit("no_op");
    assert("checkpoint_id"@.len() == 13 && "checkpoint_ref"@.len() == 14 && "path"@.len() == 4 && "workspace_generation"@.len() == 20 && "pinned_workspace_generation"@.len() == 27 && "resulting_workspace_generation"@.len() == 30 && "source_entries"@.len() == 14 && "write"@.len() == 5 && "entry_ref"@.len() == 9 && "version_ref"@.len() == 11 && "version"@.len() == 7 && "content_hash"@.len() == 12 && "search_status"@.len() == 13 && "metadata_only"@.len() == 13 && "no_op"@.len() == 5);
    assert("checkpoint_ref"@[0] != "source_entries"@[0]);
    assert("checkpoint_id"@[0] != "search_status"@[0]);
    assert("checkpoint_id"@[0] != "metadata_only"@[0]);
    assert("search_status"@[0] != "metadata_only"@[0]);
    assert("write"@[0] != "no_op"@[0]);
}

/// A checkpoint is resumed from as it was kept: its text, its sources and its states.
pub proof fn lemma_checkpoint_is_resumed_as_kept(
    reference: Seq<char>,
    entry: EntryRow,
)
    ensures
        ({
            let v = resumed_json(reference, entry);
            &&& v.get("checkpoint_id"@) == Some(JsonV::Text(reference))
            &&& v.get("path"@) == Some(JsonV::Text(entry.path@))
            &&& v.get("text"@) == Some(match entry.content { Some(t) => JsonV::Text(t@), None => JsonV::Null })
            &&& client_of(entry.metadata@).get("workspace_generation"@) matches Some(g) ==> v.get("workspace_generation"@) == Some(g)
            &&& client_of(entry.metadata@).get("pinned_workspace_generation"@) matches Some(g) ==> v.get("pinned_workspace_generation"@) == Some(g)
            &&& client_of(entry.metadata@).get("pinned_workspace_generation"@) is None ==> v.get("pinned_workspace_generation"@) == v.get("workspace_generation"@)
            &&& client_of(entry.metadata@).get("resulting_workspace_generation"@) matches Some(g) ==> v.get("resulting_workspace_generation"@) == Some(g)
            &&& client_of(entry.metadata@).get("source_entries"@) matches Some(s) ==> v.get("source_entries"@) == Some(s)
        }),
{
    reveal_strlit("checkpoint_id");
    reveal_strlit("path");
    reveal_strlit("workspace_generation");
    reveal_strlit("pinned_workspace_generation");
    reveal_strlit("resulting_workspace_generation");
    reveal_strlit("text");
    reveal_strlit("source_entries");
    assert("checkpoint_id"@.len() == 13 && "path"@.len() == 4 && "workspace_generation"@.len() == 20 && "pinned_workspace_generation"@.len() == 27 && "resulting_workspace_generation"@.len() == 30 && "text"@.len() == 4 && "source_entries"@.len() == 14);
    assert("path"@[0] != "text"@[0]);
}

/// What a checkpoint keeps is what work is resumed from: its sources, and the states that
/// it was pinned to and that it made.
pub proof fn lemma_kept_checkpoints_are_resumed(
    id: u128,
    generation: int,
    request: CheckpointRequest,
    sources: Seq<JsonV>,
    request_hash: Seq<char>,
    resulting: int,
    reference: Seq<char>,
    entry: EntryRow,
)
    requires
        entry.metadata@ == stamped(
            checkpoint_metadata(id, generation, request, sources, request_hash),
            generation,
            resulting,
        ),
    ensures
        ({
            let v = resumed_json(reference, entry);
            &&& v.get("source_entries"@) == Some(JsonV::Array(sources))
            &&& v.get("pinned_workspace_generation"@) == Some(integer(generation))
            &&& v.get("resulting_workspace_generation"@) == Some(integer(resulting))
        }),
{
    let kept = checkpoint_metadata(id, generation, request, sources, request_hash);
    lemma_checkpoint_keeps_its_request(id, generation, request, sources, request_hash);
    lemma_no_client(id, generation, request, sources, request_hash);
    lemma_checkpoint_is_stamped(kept, generation, resulting, "source_entries"@);
    reveal_strlit("workspace_generation");
    reveal_strlit("pinned_workspace_generation");
    reveal_strlit("resulting_workspace_generation");
    reveal_strlit("source_entries");
    reveal_strlit("client");
    assert("workspace_generation"@.len() == 20 && "pinned_workspace_generation"@.len() == 27 && "resulting_workspace_generation"@.len() == 30 && "source_entries"@.len() == 14 && "client"@.len() == 6);
    lemma_checkpoint_is_resumed_as_kept(reference, entry);
}

proof fn lemma_no_client(
    id: u128,
    generation: int,
    request: CheckpointRequest,
    sources: Seq<JsonV>,
    request_hash: Seq<char>,
)
    ensures
        checkpoint_metadata(id, generation, request, sources, request_hash) is Object,
        checkpoint_metadata(id, generation, request, sources, request_hash).get("client"@) is None,
{
    reveal_strlit("client");
    reveal_strlit("kind");
    reveal_strlit("checkpoint_ref");
    reveal_strlit("workspace_generation");
    reveal_strlit("pinned_workspace_generation");
    reveal_strlit("resulting_workspace_generation");
    reveal_strlit("session_id");
    reveal_strlit("parent_checkpoint_ref");
    reveal_strlit("checkpoint_state");
    reveal_strlit("project");
    reveal_strlit("source_refs");
    reveal_strlit("source_entries");
    reveal_strlit("request_hash");
    reveal_strlit("operation_kind");
    assert("client"@.len() == 6 && "kind"@.len() == 4 && "checkpoint_ref"@.len() == 14 && "workspace_generation"@.len() == 20 && "pinned_workspace_generation"@.len() == 27 && "resulting_workspace_generation"@.len() == 30 && "session_id"@.len() == 10 && "parent_checkpoint_ref"@.len() == 21 && "checkpoint_state"@.len() == 16 && "project"@.len() == 7 && "source_refs"@.len() == 11 && "source_entries"@.len() == 14 && "request_hash"@.len() == 12 && "operation_kind"@.len() == 14);
    assert("checkpoint_ref"@[0] != "source_entries"@[0]);
    assert("checkpoint_ref"@[0] != "operation_kind"@[0]);
    assert("source_entries"@[0] != "operation_kind"@[0]);
}

/// An imported checkpoint keeps all that it says but for the states of its workspace and
/// the identities of its sources, of which none is lost.
pub proof fn lemma_import_keeps_the_rest(client: JsonV, generation: int, key: Seq<char>)
    requires
        client is Object,
    ensures
        ({
            let moved = rebased_client(client, generation);
            &&& key != "workspace_generation"@ && key != "origin_workspace_generation"@ && key
                != "source_entries"@ ==> moved.get(key) == client.get(key)
            &&& client.get("source_entries"@) is None ==> moved.get("source_entries"@) is None
            &&& client.get("source_entries"@) matches Some(JsonV::Array(sources)) ==> {
                &&& moved.get("source_entries"@) matches Some(JsonV::Array(left)) && left.len()
                    == sources.len() && forall|i: int|
                    0 <= i < sources.len() ==> (#[trigger] left[i]).get("entry_ref"@) is None
                        && (key != "entry_ref"@ ==> left[i].get(key) == sources[i].get(key))
            }
        }),
{
    reveal_strlit("workspace_generation");
    reveal_strlit("origin_workspace_generation");
    reveal_strlit("source_entries");
    assert("workspace_generation"@.len() == 20 && "origin_workspace_generation"@.len() == 27 && "source_entries"@.len() == 14);
}

// ---------------------------------------------------------------------------
// Files
// ---------------------------------------------------------------------------

/// What was said is kept without the space around it; a blank text says nothing.
pub proof fn lemma_blank_texts_say_nothing(text: Option<String>)
    ensures
        text is None ==> said(text) is None,
        text matches Some(t) ==> (said(text) is Some <==> trimmed(t@).len() > 0) && (said(
            text,
        ) is Some ==> said(text)->0 == trimmed(t@)),
{
}

/// The description of a file is copied, given, or pending, and its status says which.
pub proof fn lemma_description_status(upload: BinaryUpload)
    ensures
        description_status_of(upload) == "byte_copied"@ <==> upload.companion is Some,
        description_status_of(upload) == "provided"@ <==> upload.companion is None && said(
            upload.description,
        ) is Some,
        description_status_of(upload) == "pending"@ <==> upload.companion is None && said(
            upload.description,
        ) is None,
        upload.companion matches Some(c) ==> companion_path_of(upload) == c.path@,
        said(upload.provenance) matches Some(t) ==> provenance_of(upload) == t,
        said(upload.limitations) matches Some(t) ==> limitations_of(upload) == t,
{
    reveal_strlit("byte_copied");
    reveal_strlit("provided");
    reveal_strlit("pending");
    assert("byte_copied"@.len() == 11 && "provided"@.len() == 8 && "pending"@.len() == 7);
}

/// What is kept with a new file is where its description is, how it came to be, and what was
/// said of where the file is from and of what it lacks.
pub proof fn lemma_new_files_keep_what_was_said(
    upload: BinaryUpload,
)
    ensures
        ({
            let v = fresh_metadata(upload);
            &&& v.get("companion_path"@) == Some(JsonV::Text(companion_path_of(upload)))
            &&& v.get("description_status"@) == Some(JsonV::Text(description_status_of(upload)))
            &&& v.get("portable"@) == Some(match upload.portable { Some(p) => p@, None => JsonV::Null })
            &&& v.get("provenance"@) == Some(JsonV::Text(provenance_of(upload)))
            &&& v.get("limitations"@) == Some(JsonV::Text(limitations_of(upload)))
        }),
{
    reveal_strlit("companion_path");
    reveal_strlit("description_status");
    reveal_strlit("portable");
    reveal_strlit("provenance");
    reveal_strlit("limitations");
    assert("companion_path"@.len() == 14 && "description_status"@.len() == 18 && "portable"@.len() == 8 && "provenance"@.len() == 10 && "limitations"@.len() == 11);
}

/// What an upload says of bytes that were there takes the place of what was said before;
/// what it does not speak of stays.
pub proof fn lemma_known_files_are_annotated(
    upload: BinaryUpload,
    metadata: JsonV,
    key: Seq<char>,
)
    requires
        metadata is Object,
    ensures
        ({
            let v = annotated(upload, metadata);
            &&& v.get("companion_path"@) == Some(JsonV::Text(companion_path_of(upload)))
            &&& v.get("description_status"@) == Some(JsonV::Text(description_status_of(upload)))
            &&& v.get("portable"@) == match upload.portable { Some(p) => Some(p@), None => metadata.get("portable"@) }
            &&& v.get("provenance"@) == if upload.provenance is Some { Some(JsonV::Text(provenance_of(upload))) } else { metadata.get("provenance"@) }
            &&& v.get("limitations"@) == if upload.limitations is Some { Some(JsonV::Text(limitations_of(upload))) } else { metadata.get("limitations"@) }
            &&& key != "companion_path"@ && key != "portable"@ && key != "description_status"@ && key != "provenance"@ && key != "limitations"@ ==> v.get(key) == metadata.get(key)
        }),
{
    reveal_strlit("companion_path");
    reveal_strlit("portable");
    reveal_strlit("description_status");
    reveal_strlit("provenance");
    reveal_strlit("limitations");
    assert("companion_path"@.len() == 14 && "portable"@.len() == 8 && "description_status"@.len() == 18 && "provenance"@.len() == 10 && "limitations"@.len() == 11);
}

/// What is kept with the description of a file names the file and the digest of its bytes; a
/// copied description is marked as imported, with its own digest.
pub proof fn lemma_descriptions_are_tied_to_files(
    upload: BinaryUpload,
)
    ensures
        ({
            let v = companion_metadata(upload);
            &&& v.get("kind"@) == Some(JsonV::Text("binary_description"@))
            &&& v.get("binary_path"@) == Some(JsonV::Text(upload.path@))
            &&& v.get("content_hash"@) == Some(JsonV::Text(hash_text(bare_digest(upload.stored_hash@))))
            &&& v.get("description_status"@) == Some(JsonV::Text(description_status_of(upload)))
            &&& upload.companion is None ==> v.get("_brunn_import"@) == Some(JsonV::Null) && v.get("portable"@) == Some(match upload.portable { Some(p) => p@, None => JsonV::Null })
            &&& upload.companion matches Some(c) ==> v.get("_brunn_import"@)->0.get("format"@) == Some(JsonV::Text("brunn-workspace-import-manifest@v1"@))
            &&& upload.companion matches Some(c) ==> v.get("_brunn_import"@) is Some && v.get("_brunn_import"@)->0.get("content_sha256"@) == Some(JsonV::Text(hash_text(c.content_sha256@)))
            &&& upload.companion matches Some(c) ==> v.get("portable"@) is Some && v.get("portable"@)->0 == portable_json(c.modified_unix_ns, c.mode)
        }),
{
    reveal_strlit("kind");
    reveal_strlit("binary_path");
    reveal_strlit("content_hash");
    reveal_strlit("portable");
    reveal_strlit("description_status");
    reveal_strlit("_brunn_import");
    reveal_strlit("format");
    reveal_strlit("portable_companion_format");
    reveal_strlit("content_sha256");
    assert("kind"@.len() == 4 && "binary_path"@.len() == 11 && "content_hash"@.len() == 12 && "portable"@.len() == 8 && "description_status"@.len() == 18 && "_brunn_import"@.len() == 13 && "format"@.len() == 6 && "portable_companion_format"@.len() == 25 && "content_sha256"@.len() == 14);
}

/// When a file was changed and what its permissions are is kept as far as it is known.
pub proof fn lemma_portable_facts_are_kept(
    mtime: Option<i64>,
    mode: Option<u32>,
)
    ensures
        ({
            let v = portable_json(mtime, mode);
            &&& v.get("modified_unix_ns"@) == Some(optional_integer(mtime))
            &&& v.get("mode"@) == Some(match mode { Some(m) => integer(m as int), None => JsonV::Null })
        }),
{
    reveal_strlit("modified_unix_ns");
    reveal_strlit("mode");
    assert("modified_unix_ns"@.len() == 16 && "mode"@.len() == 4);
}

/// The receipt of an upload says what became of the file and of its description; nothing was
/// done only where neither was changed.
pub proof fn lemma_upload_receipt_is_whole(
    upload: BinaryUpload,
    action: BinaryAction,
    entry_id: u128,
    version: int,
    companion: MarkdownUpsertResult,
    generation: int,
)
    ensures
        ({
            let v = binary_receipt_of(upload, action, entry_id, version, companion, generation);
            &&& v.get("entry_ref"@) == Some(JsonV::Text(entry_ref_text(entry_id)))
            &&& v.get("path"@) == Some(JsonV::Text(upload.path@))
            &&& v.get("version"@) == Some(integer(version))
            &&& v.get("content_hash"@) == Some(JsonV::Text(hash_text(bare_digest(upload.stored_hash@))))
            &&& v.get("size_bytes"@) == Some(integer(upload.size_bytes as int))
            &&& v.get("media_type"@) == Some(JsonV::Text(upload.media_type@))
            &&& v.get("workspace_generation"@) == Some(integer(generation))
            &&& v.get("description_status"@) == Some(JsonV::Text(description_status_of(upload)))
            &&& v.get("metadata_only"@) == Some(JsonV::Bool(action is Annotate))
            &&& v.get("no_op"@) == Some(JsonV::Bool(action is Keep && companion.no_op))
            &&& v.get("companion"@) is Some
            &&& v.get("companion"@)->0.get("entry_ref"@) == Some(JsonV::Text(entry_ref_text(companion.entry_id)))
            &&& v.get("companion"@)->0.get("path"@) == Some(JsonV::Text(companion_path_of(upload)))
            &&& v.get("companion"@)->0.get("version"@) == Some(integer(companion.version as int))
        }),
{
    reveal_strlit("entry_ref");
    reveal_strlit("path");
    reveal_strlit("version");
    reveal_strlit("content_hash");
    reveal_strlit("size_bytes");
    reveal_strlit("media_type");
    reveal_strlit("companion");
    reveal_strlit("workspace_generation");
    reveal_strlit("description_status");
    reveal_strlit("metadata_only");
    reveal_strlit("no_op");
    assert("entry_ref"@.len() == 9 && "path"@.len() == 4 && "version"@.len() == 7 && "content_hash"@.len() == 12 && "size_bytes"@.len() == 10 && "media_type"@.len() == 10 && "companion"@.len() == 9 && "workspace_generation"@.len() == 20 && "description_status"@.len() == 18 && "metadata_only"@.len() == 13 && "no_op"@.len() == 5);
    assert("size_bytes"@[0] != "media_type"@[0]);
    assert("entry_ref"@[0] != "companion"@[0]);
}

// ---------------------------------------------------------------------------
// Responses
// ---------------------------------------------------------------------------

/// A client is sent the data, how far its request was carried out, and everything else that
/// is there; what is not there is left out.
pub proof fn lemma_response_is_sent_whole(
    e: WorkspaceEnvelope<Json>,
)
    ensures
        ({
            let v = envelope_json(e);
            &&& v.get("status"@) == Some(JsonV::Text(status_word(e.status)))
            &&& v.get("data"@) == Some(e.data@)
            &&& v.get("session_id"@) == match e.session_id { Some(t) => Some(JsonV::Text(t@)), None => None }
            &&& v.get("corpus_revision"@) == match e.corpus_revision { Some(t) => Some(JsonV::Text(t@)), None => None }
            &&& e.gaps@.len() > 0 ==> v.get("gaps"@) == Some(JsonV::Array(items_view(e.gaps@)))
            &&& e.gaps@.len() == 0 ==> v.get("gaps"@) is None
            &&& v.get("timings_ms"@) == match e.timings_ms { Some(t) => Some(t@), None => None }
            &&& v.get("query_count"@) == match e.query_count { Some(n) => Some(integer(n as int)), None => None }
            &&& v.get("request_id"@) is None
        }),
{
    reveal_strlit("request_id");
    assert("request_id"@.len() == 10);
    reveal_strlit("session_id");
    reveal_strlit("corpus_revision");
    reveal_strlit("status");
    reveal_strlit("data");
    reveal_strlit("gaps");
    reveal_strlit("timings_ms");
    reveal_strlit("query_count");
    assert("session_id"@.len() == 10 && "corpus_revision"@.len() == 15 && "status"@.len() == 6 && "data"@.len() == 4 && "gaps"@.len() == 4 && "timings_ms"@.len() == 10 && "query_count"@.len() == 11);
    assert("request_id"@[0] != "session_id"@[0]);
    assert("request_id"@[0] != "timings_ms"@[0]);
    assert("data"@[0] != "gaps"@[0]);
    assert("session_id"@[0] != "timings_ms"@[0]);
}

/// The words for how far requests are carried out differ.
pub proof fn lemma_status_words_differ(a: ResponseStatus, b: ResponseStatus)
    requires
        status_word(a) == status_word(b),
    ensures
        a == b,
{
    reveal_strlit("complete");
    reveal_strlit("partial");
    reveal_strlit("degraded");
    reveal_strlit("no_op");
    reveal_strlit("committed");
    assert("complete"@.len() == 8 && "partial"@.len() == 7 && "degraded"@.len() == 8 && "no_op"@.len() == 5 && "committed"@.len() == 9);
    assert("complete"@[0] != "degraded"@[0]);
}

// ---------------------------------------------------------------------------
// Evaluations
// ---------------------------------------------------------------------------

/// An import is ready exactly where no work is left and none has failed, and failed where some
/// has; the counts are told.
pub proof fn lemma_import_status_is_honest(
    import: Seq<char>,
    pending: int,
    failed: int,
    generation: int,
)
    ensures
        ({
            let v = status_json(import, pending, failed, generation);
            &&& v.get("ready_for_evaluation"@) == Some(JsonV::Bool(pending == 0 && failed == 0))
            &&& v.get("import_id"@) == Some(JsonV::Text(import))
            &&& v.get("corpus_revision"@) == Some(JsonV::Text(revision_text(generation)))
            &&& v.get("status"@) == Some(JsonV::Text(if pending == 0 && failed == 0 { "ready"@ } else if failed > 0 { "failed"@ } else { "indexing"@ }))
            &&& v.get("index_counts"@) is Some && v.get("index_counts"@)->0.get("pending_jobs"@) == Some(integer(pending)) && v.get("index_counts"@)->0.get("failed_jobs"@) == Some(integer(failed))
            &&& v.get("index_status"@) is Some && v.get("index_status"@)->0.get("semantic"@) == Some(JsonV::Text(if pending == 0 && failed == 0 { "ready"@ } else if failed > 0 { "failed"@ } else { "pending"@ }))
        }),
{
    reveal_strlit("status");
    reveal_strlit("ready_for_evaluation");
    reveal_strlit("import_id");
    reveal_strlit("corpus_revision");
    reveal_strlit("index_status");
    reveal_strlit("index_counts");
    reveal_strlit("exact");
    reveal_strlit("lexical");
    reveal_strlit("semantic");
    reveal_strlit("pending_jobs");
    reveal_strlit("failed_jobs");
    assert("status"@.len() == 6 && "ready_for_evaluation"@.len() == 20 && "import_id"@.len() == 9 && "corpus_revision"@.len() == 15 && "index_status"@.len() == 12 && "index_counts"@.len() == 12 && "exact"@.len() == 5 && "lexical"@.len() == 7 && "semantic"@.len() == 8 && "pending_jobs"@.len() == 12 && "failed_jobs"@.len() == 11);
    assert("index_status"@[6] != "index_counts"@[6]);
    assert("index_status"@[0] != "pending_jobs"@[0]);
    assert("index_counts"@[0] != "pending_jobs"@[0]);
}

/// What is told of an import names its workspace and its credential, says for whom it was
/// asked, and counts what it brought; it is ready exactly where every chunk has its vector.
#[verifier::rlimit(60)]
pub proof fn lemma_import_is_told(
    request: EvalImportRequest,
    batch: Option<(usize, usize)>,
    o: EvalOutcome,
)
    ensures
        ({
            let v = eval_json(request, batch, o);
            &&& v.get("ready_for_evaluation"@) == Some(JsonV::Bool(o.embeddings == o.chunks))
            &&& v.get("status"@) == Some(JsonV::Text(if o.embeddings == o.chunks { "ready"@ } else { "indexing"@ }))
            &&& v.get("import_id"@) == Some(JsonV::Text(import_id(o.user_id)))
            &&& v.get("authorization_scope"@) == Some(JsonV::Text(request.authorization_scope@))
            &&& v.get("display_scope"@) == Some(JsonV::Text(request.display_scope@))
            &&& v.get("access_mode"@) == Some(JsonV::Text(request.access_mode@))
            &&& v.get("user_id"@) == Some(JsonV::Text("user:"@ + uuid_text(o.user_id)))
            &&& v.get("scope_id"@) == Some(JsonV::Text("scope:"@ + uuid_text(o.scope_id)))
            &&& v.get("credential_id"@) == Some(JsonV::Text("credential:"@ + uuid_text(o.credential_id)))
            &&& v.get("base_corpus_revision"@) == Some(JsonV::Text(revision_text(o.base_generation as int)))
            &&& v.get("corpus_revision"@) == Some(JsonV::Text(revision_text(o.generation as int)))
            &&& v.get("checkpoint_id"@) == Some(optional_text(option_view(o.checkpoint_ref)))
            &&& v.get("embedding_provider"@) == Some(JsonV::Text(o.embedding_provider@))
            &&& v.get("embedding_model"@) == Some(JsonV::Text(o.embedding_model@))
            &&& v.get("embedding_degraded"@) == Some(JsonV::Bool(o.embedding_degraded))
            &&& v.get("documents"@) == Some(integer(request.documents@.len() as int))
            &&& v.get("delta_documents"@) == Some(integer(request.delta_documents@.len() as int))
            &&& v.get("credential_token"@) == Some(JsonV::Text(o.token@))
            &&& batch is None ==> v.get("batch_index"@) == Some(JsonV::Null) && v.get("batch_count"@) == Some(JsonV::Null)
            &&& batch matches Some(b) ==> v.get("batch_index"@) == Some(integer(b.0 as int)) && v.get("batch_count"@) == Some(integer(b.1 as int))
            &&& v.get("index_counts"@) is Some && v.get("index_counts"@)->0.get("chunks"@) == Some(integer(o.chunks as int)) && v.get("index_counts"@)->0.get("embeddings"@) == Some(integer(o.embeddings as int))
            &&& v.get("index_counts"@)->0.get("documents"@) == Some(integer((request.documents@.len() + request.delta_documents@.len()) as int))
        }),
{
    reveal_strlit("status");
    reveal_strlit("ready_for_evaluation");
    reveal_strlit("import_id");
    reveal_strlit("status_url");
    reveal_strlit("authorization_scope");
    reveal_strlit("requested_authorization_scope");
    reveal_strlit("display_scope");
    reveal_strlit("access_mode");
    reveal_strlit("user_id");
    reveal_strlit("scope_id");
    reveal_strlit("credential_id");
    reveal_strlit("base_corpus_revision");
    reveal_strlit("corpus_revision");
    reveal_strlit("checkpoint_id");
    reveal_strlit("seed_session_id");
    reveal_strlit("index_status");
    reveal_strlit("index_counts");
    reveal_strlit("embedding_provider");
    reveal_strlit("embedding_model");
    reveal_strlit("embedding_degraded");
    reveal_strlit("documents");
    reveal_strlit("delta_documents");
    reveal_strlit("batch_index");
    reveal_strlit("batch_count");
    reveal_strlit("replayed");
    reveal_strlit("token_status");
    reveal_strlit("credential_token");
    reveal_strlit("chunks");
    reveal_strlit("embeddings");
    assert("status"@.len() == 6 && "ready_for_evaluation"@.len() == 20 && "import_id"@.len() == 9 && "status_url"@.len() == 10 && "authorization_scope"@.len() == 19 && "requested_authorization_scope"@.len() == 29 && "display_scope"@.len() == 13 && "access_mode"@.len() == 11 && "user_id"@.len() == 7 && "scope_id"@.len() == 8 && "credential_id"@.len() == 13 && "base_corpus_revision"@.len() == 20 && "corpus_revision"@.len() == 15 && "checkpoint_id"@.len() == 13 && "seed_session_id"@.len() == 15 && "index_status"@.len() == 12 && "index_counts"@.len() == 12 && "embedding_provider"@.len() == 18 && "embedding_model"@.len() == 15 && "embedding_degraded"@.len() == 18 && "documents"@.len() == 9 && "delta_documents"@.len() == 15 && "batch_index"@.len() == 11 && "batch_count"@.len() == 11 && "replayed"@.len() == 8 && "token_status"@.len() == 12 && "credential_token"@.len() == 16 && "chunks"@.len() == 6 && "embeddings"@.len() == 10);
    assert("display_scope"@[0] != "credential_id"@[0]);
    assert("ready_for_evaluation"@[0] != "base_corpus_revision"@[0]);
    assert("display_scope"@[0] != "checkpoint_id"@[0]);
    assert("credential_id"@[1] != "checkpoint_id"@[1]);
    assert("corpus_revision"@[0] != "seed_session_id"@[0]);
    assert("index_status"@[6] != "index_counts"@[6]);
    assert("corpus_revision"@[0] != "embedding_model"@[0]);
    assert("seed_session_id"@[0] != "embedding_model"@[0]);
    assert("embedding_provider"@[10] != "embedding_degraded"@[10]);
    assert("import_id"@[0] != "documents"@[0]);
    assert("corpus_revision"@[0] != "delta_documents"@[0]);
    assert("seed_session_id"@[0] != "delta_documents"@[0]);
    assert("embedding_model"@[0] != "delta_documents"@[0]);
    assert("access_mode"@[0] != "batch_index"@[0]);
    assert("access_mode"@[0] != "batch_count"@[0]);
    assert("batch_index"@[6] != "batch_count"@[6]);
    assert("scope_id"@[0] != "replayed"@[0]);
    assert("index_status"@[0] != "token_status"@[0]);
    assert("index_counts"@[0] != "token_status"@[0]);
    assert("status"@[0] != "chunks"@[0]);
    assert("status_url"@[0] != "embeddings"@[0]);
}

} // verus!
