//! Laws of acceptance: a request is accepted exactly where it is well formed, within its
//! limits and allowed, and what identifies it tells it apart from others.
use vstd::prelude::*;

#[allow(unused_imports)]
use crate::auth::{write_refusal, AuthContext, Capability, ManagedPath};
#[allow(unused_imports)]
use crate::binary::{
    asks_for_copy, copy_refusal, field_bytes, field_refusal, form_refusal, form_with,
    media_type_of, UploadForm,
};
#[allow(unused_imports)]
use crate::candidate::option_view;
#[allow(unused_imports)]
use crate::checkpoint::{
    checkpoint_refusal, checkpoint_reply_of, identity_in, key_conflict, request_json, reserved_key,
    text_items,
};
#[allow(unused_imports)]
use crate::envelope::{revision_text, ResponseStatus};
#[allow(unused_imports)]
use crate::error::ApiErrorV;
#[allow(unused_imports)]
use crate::evaluation::{
    batch_of, document_refusal, eval_capabilities, eval_refusal, first_refusal, total_bytes,
};
#[allow(unused_imports)]
use crate::json::{integer, object, optional_text, JsonV};
#[allow(unused_imports)]
use crate::outside::{text_digest, uuid_value};
#[allow(unused_imports)]
use crate::paths::{
    checkpoint_of_path, digest_value, link_refusal, link_stem, managed, path_key, printable,
    safe_path, unsafe_part, utf8_len,
};
#[allow(unused_imports)]
use crate::requests::{CaptureRequest, CheckpointRequest, EvalDocument, EvalImportRequest};
#[allow(unused_imports)]
use crate::text::{behind, has_prefix, integer_value, lower_case, natural_value, texts, trimmed};
#[allow(unused_imports)]
use crate::upsert::capture_refusal;

verus! {

// ---------------------------------------------------------------------------
// Checkpoints
// ---------------------------------------------------------------------------

/// A checkpoint is made exactly where its session, its key and its references are printable
/// and within their limits, its key is not one that the workspace makes itself, its state
/// is an object whose project, where it has one, is accepted, and all of it is no larger
/// than a document may be.
pub proof fn lemma_checkpoints_that_are_made(
    request: CheckpointRequest,
    project: Result<(), ApiErrorV>,
    canonical: Result<Seq<char>, ApiErrorV>,
)
    ensures
        checkpoint_refusal(request, project, canonical) is None <==> {
            &&& printable(request.session_id@, 256)
            &&& request.idempotency_key matches Some(key) ==> printable(key@, 256) && !reserved_key(
                key@,
            )
            &&& request.state@ is Object
            &&& match request.state@.get("project"@) {
                None => true,
                Some(JsonV::Null) => true,
                Some(JsonV::Text(_)) => project is Ok,
                Some(_) => false,
            }
            &&& request.source_refs@.len() <= 64
            &&& forall|i: int|
                0 <= i < request.source_refs@.len() ==> printable(
                    (#[trigger] request.source_refs@[i])@,
                    4096,
                )
            &&& request.parent_checkpoint_id matches Some(parent) ==> printable(parent@, 256)
            &&& canonical matches Ok(text) && utf8_len(text) <= 4 * 1024 * 1024
        },
{
}

/// The keys that the workspace makes itself are reserved, and no others.
pub proof fn lemma_reserved_keys(key: Seq<char>, id: u128)
    ensures
        reserved_key("implicit:"@ + crate::outside::uuid_text(id)),
        reserved_key(key) ==> "implicit:"@.is_prefix_of(key),
{
    crate::outside::lemma_uuid_is_read_back(id);
    crate::paths::lemma_behind("implicit:"@, crate::outside::uuid_text(id));
}

/// Requests for checkpoints are told apart by all that they say: their session, parent,
/// state, references and key.
pub proof fn lemma_identities_tell_requests_apart(
    a: CheckpointRequest,
    first: Seq<char>,
    b: CheckpointRequest,
    second: Seq<char>,
)
    requires
        identity_in(a, first) == identity_in(b, second),
    ensures
        first == second,
        option_view(a.parent_checkpoint_id) == option_view(b.parent_checkpoint_id),
        a.state@ == b.state@,
        texts(a.source_refs@) == texts(b.source_refs@),
        option_view(a.idempotency_key) == option_view(b.idempotency_key),
{
    reveal_strlit("session_id");
    reveal_strlit("parent_checkpoint_id");
    reveal_strlit("state");
    reveal_strlit("source_refs");
    reveal_strlit("idempotency_key");
    assert("session_id"@.len() == 10 && "parent_checkpoint_id"@.len() == 20 && "state"@.len() == 5 && "source_refs"@.len() == 11 && "idempotency_key"@.len() == 15);
    let x = identity_in(a, first);
    let y = identity_in(b, second);
    assert(x.get("session_id"@) == y.get("session_id"@));
    assert(x.get("parent_checkpoint_id"@) == y.get("parent_checkpoint_id"@));
    assert(x.get("state"@) == y.get("state"@));
    assert(x.get("source_refs"@) == y.get("source_refs"@));
    assert(x.get("idempotency_key"@) == y.get("idempotency_key"@));
    lemma_items_tell_texts_apart(a.source_refs@, b.source_refs@);
}

proof fn lemma_items_tell_texts_apart(a: Seq<String>, b: Seq<String>)
    requires
        text_items(a) == text_items(b),
    ensures
        texts(a) == texts(b),
{
    let x = text_items(a)->Array_0;
    let y = text_items(b)->Array_0;
    assert(x.len() == a.len() && y.len() == b.len());
    assert forall|i: int| 0 <= i < a.len() implies texts(a)[i] == texts(b)[i] by {
        assert(x[i] == JsonV::Text(a[i]@));
        assert(y[i] == JsonV::Text(b[i]@));
    }
    assert(texts(a) =~= texts(b));
}

/// What two requests have to share to ask for the same is their parent, their state and
/// their references, all of them.
pub proof fn lemma_requests_ask_for_what_they_say(a: CheckpointRequest, b: CheckpointRequest)
    requires
        request_json(a) == request_json(b),
    ensures
        option_view(a.parent_checkpoint_id) == option_view(b.parent_checkpoint_id),
        a.state@ == b.state@,
        texts(a.source_refs@) == texts(b.source_refs@),
{
    reveal_strlit("schema");
    reveal_strlit("parent_checkpoint_id");
    reveal_strlit("state");
    reveal_strlit("source_refs");
    assert("schema"@.len() == 6 && "parent_checkpoint_id"@.len() == 20 && "state"@.len() == 5 && "source_refs"@.len() == 11);
    let x = request_json(a);
    let y = request_json(b);
    assert(x.get("parent_checkpoint_id"@) == y.get("parent_checkpoint_id"@));
    assert(x.get("state"@) == y.get("state"@));
    assert(x.get("source_refs"@) == y.get("source_refs"@));
    lemma_items_tell_texts_apart(a.source_refs@, b.source_refs@);
}

/// A key that was used for another request is told.
pub proof fn lemma_used_keys_are_told(key: Seq<char>)
    ensures
        key_conflict(key) matches ApiErrorV::Conflict(code, _, details) && code
            == "idempotency_conflict"@ && details.get("idempotency_key"@) == Some(
            JsonV::Text(key),
        ) && details.get("idempotency_key_reused"@) == Some(JsonV::Bool(true)),
{
    reveal_strlit("operation_kind");
    reveal_strlit("idempotency_key");
    reveal_strlit("idempotency_key_reused");
    assert("operation_kind"@.len() == 14 && "idempotency_key"@.len() == 15 && "idempotency_key_reused"@.len() == 22);
}

/// The reply to a request for a checkpoint is its receipt, under the session that asked,
/// with the state that the checkpoint made.
pub proof fn lemma_checkpoint_replies(session: Seq<char>, receipt: JsonV, generation: i64)
    ensures
        receipt.get("resulting_workspace_generation"@) == Some(integer(generation as int)) ==> {
            &&& checkpoint_reply_of(session, receipt) is Ok
            &&& checkpoint_reply_of(session, receipt)->Ok_0.session_id == Some(session)
            &&& checkpoint_reply_of(session, receipt)->Ok_0.data == receipt
            &&& checkpoint_reply_of(session, receipt)->Ok_0.status == ResponseStatus::Committed
            &&& checkpoint_reply_of(session, receipt)->Ok_0.corpus_revision == Some(
                revision_text(generation as int),
            )
            &&& checkpoint_reply_of(session, receipt)->Ok_0.gaps.len() == 0
        },
        receipt.get("resulting_workspace_generation"@) is None && receipt.get(
            "workspace_generation"@,
        ) is None ==> checkpoint_reply_of(session, receipt) is Err,
{
}

// ---------------------------------------------------------------------------
// Captures, links and credentials
// ---------------------------------------------------------------------------

/// A capture that says something, under a printable key, is kept.
pub proof fn lemma_captures_that_are_kept(request: CaptureRequest, now: i64)
    ensures
        request.idempotency_key is Some ==> (capture_refusal(request, now) is None <==> trimmed(
            request.content@,
        ).len() > 0 && printable(request.idempotency_key->0@, 256)),
        trimmed(request.content@).len() == 0 ==> capture_refusal(request, now) is Some,
{
}

/// A link is looked up exactly where it is printable and names something.
pub proof fn lemma_links_that_are_looked_up(target: Seq<char>)
    ensures
        link_refusal(target) is None <==> {
            &&& printable(trimmed(target), 1024)
            &&& link_stem(trimmed(target)).len() > 0
            &&& link_stem(trimmed(target)) != "."@
            &&& link_stem(trimmed(target)) != ".."@
        },
{
}

/// A credential writes a path exactly where it may save, and may do what the path asks for:
/// a message or a task together with managing credentials or administering, a checkpoint,
/// or the description of a file.
pub proof fn lemma_credentials_that_write(auth: AuthContext, path: Seq<char>, managed: ManagedPath)
    ensures
        write_refusal(auth, path, managed) is None <==> {
            let manages = auth.capabilities@.contains(Capability::CredentialManage)
                || auth.capabilities@.contains(Capability::Admin);
            &&& auth.capabilities@.contains(Capability::Save)
            &&& match managed {
                ManagedPath::Conversation { identified } => identified
                    && auth.capabilities@.contains(Capability::MessageWrite) && manages,
                ManagedPath::Task { identified } => identified && auth.capabilities@.contains(
                    Capability::TaskWrite,
                ) && manages,
                ManagedPath::Neither => if checkpoint_of_path(path) is Some {
                    auth.capabilities@.contains(Capability::Checkpoint)
                } else {
                    ".brunn/binaries/"@.is_prefix_of(path) ==> auth.capabilities@.contains(
                        Capability::Stage,
                    )
                },
            }
        },
{
}

// ---------------------------------------------------------------------------
// Uploads
// ---------------------------------------------------------------------------

proof fn lemma_digits_are_natural(s: Seq<char>)
    requires
        forall|i: int| 0 <= i < s.len() ==> crate::text::is_ascii_digit_char(#[trigger] s[i]),
    ensures
        crate::text::digits_value(s) >= 0,
    decreases s.len(),
{
    if s.len() > 0 {
        assert(crate::text::is_ascii_digit_char(s[s.len() - 1]));
        lemma_digits_are_natural(s.drop_last());
    }
}

proof fn lemma_numbers_fit(s: Seq<char>, max: int)
    ensures
        integer_value(s) matches Some(n) ==> i64::MIN <= n <= i64::MAX,
        natural_value(s, max) matches Some(n) ==> 0 <= n <= max,
{
    let signed = s.len() > 0 && (s[0] == '+' || s[0] == '-');
    let d = if signed {
        s.skip(1)
    } else {
        s
    };
    if crate::text::all_digits(d) {
        lemma_digits_are_natural(d);
    }
}

/// A field of an upload is kept under its own name, as it was given or as the number that
/// it denotes; no other field is changed, and an unknown one is refused.
#[verifier::rlimit(60)]
pub proof fn lemma_fields_are_kept_under_their_names(
    form: UploadForm,
    name: Seq<char>,
    value: String,
)
    ensures
        name == "path"@ ==> form_with(form, name, value) is Ok && form_with(form, name, value)->Ok_0.path == Some(
            value,
        ),
        name == "media_type"@ ==> form_with(form, name, value) is Ok && form_with(form, name, value)->Ok_0.media_type == Some(
            value,
        ),
        name == "description"@ ==> form_with(form, name, value) is Ok && form_with(form, name, value)->Ok_0.description == Some(
            value,
        ),
        name == "provenance"@ ==> form_with(form, name, value) is Ok && form_with(form, name, value)->Ok_0.provenance == Some(
            value,
        ),
        name == "limitations"@ ==> form_with(form, name, value) is Ok && form_with(form, name, value)->Ok_0.limitations == Some(
            value,
        ),
        name == "expected_content_hash"@ ==> form_with(form, name, value) is Ok && form_with(form, name, value)->Ok_0.expected_content_hash == Some(
            value,
        ),
        name == "portable_companion_format"@ ==> form_with(form, name, value) is Ok && form_with(form, name, value)->Ok_0.companion_format == Some(
            value,
        ),
        name == "portable_companion_path"@ ==> form_with(form, name, value) is Ok && form_with(form, name, value)->Ok_0.companion_path == Some(
            value,
        ),
        name == "portable_companion_sha256"@ ==> form_with(form, name, value) is Ok && form_with(form, name, value)->Ok_0.companion_sha256 == Some(
            value,
        ),
        name == "mtime_ns"@ ==> (form_with(form, name, value) is Ok <==> integer_value(value@) is Some)
            && (form_with(form, name, value) matches Ok(r) ==> r.mtime_ns is Some && r.mtime_ns->0
            == integer_value(value@)->0),
        name == "expected_version"@ ==> (form_with(form, name, value) is Ok <==> integer_value(value@) is Some)
            && (form_with(form, name, value) matches Ok(r) ==> r.expected_version is Some && r.expected_version->0
            == integer_value(value@)->0),
        name == "portable_companion_mtime_ns"@ ==> (form_with(form, name, value) is Ok <==> integer_value(value@) is Some)
            && (form_with(form, name, value) matches Ok(r) ==> r.companion_mtime_ns is Some && r.companion_mtime_ns->0
            == integer_value(value@)->0),
        name == "mode"@ ==> (form_with(form, name, value) is Ok <==> natural_value(
            value@,
            0o777,
        ) is Some) && (form_with(form, name, value) matches Ok(r) ==> r.mode is Some && r.mode->0
            == natural_value(value@, 0o777)->0),
        name == "portable_companion_mode"@ ==> (form_with(form, name, value) matches Ok(r)
            ==> r.companion_mode is Some && r.companion_mode->0 == natural_value(
            value@,
            u32::MAX as int,
        )->0),
        form_with(form, name, value) matches Ok(r) ==> {
            &&& name != "path"@ ==> r.path == form.path
            &&& name != "media_type"@ ==> r.media_type == form.media_type
            &&& name != "description"@ ==> r.description == form.description
            &&& name != "provenance"@ ==> r.provenance == form.provenance
            &&& name != "limitations"@ ==> r.limitations == form.limitations
            &&& name != "expected_content_hash"@ ==> r.expected_content_hash == form.expected_content_hash
            &&& name != "portable_companion_format"@ ==> r.companion_format == form.companion_format
            &&& name != "portable_companion_path"@ ==> r.companion_path == form.companion_path
            &&& name != "portable_companion_sha256"@ ==> r.companion_sha256 == form.companion_sha256
            &&& name != "mtime_ns"@ ==> r.mtime_ns == form.mtime_ns
            &&& name != "expected_version"@ ==> r.expected_version == form.expected_version
            &&& name != "portable_companion_mtime_ns"@ ==> r.companion_mtime_ns == form.companion_mtime_ns
            &&& name != "mode"@ ==> r.mode == form.mode
            &&& name != "portable_companion_mode"@ ==> r.companion_mode == form.companion_mode
            &&& r.has_file == form.has_file
        },
        form_with(form, name, value) is Ok ==> field_bytes(name) is Some,
{
    lemma_numbers_fit(value@, u32::MAX as int);
    lemma_numbers_fit(value@, 0o777);
    reveal_strlit("path");
    reveal_strlit("media_type");
    reveal_strlit("description");
    reveal_strlit("provenance");
    reveal_strlit("limitations");
    reveal_strlit("expected_content_hash");
    reveal_strlit("portable_companion_format");
    reveal_strlit("portable_companion_path");
    reveal_strlit("portable_companion_sha256");
    reveal_strlit("mtime_ns");
    reveal_strlit("expected_version");
    reveal_strlit("portable_companion_mtime_ns");
    reveal_strlit("mode");
    reveal_strlit("portable_companion_mode");
    assert("path"@.len() == 4 && "media_type"@.len() == 10 && "description"@.len() == 11 && "provenance"@.len() == 10 && "limitations"@.len() == 11 && "expected_content_hash"@.len() == 21 && "portable_companion_format"@.len() == 25 && "portable_companion_path"@.len() == 23 && "portable_companion_sha256"@.len() == 25 && "mtime_ns"@.len() == 8 && "expected_version"@.len() == 16 && "portable_companion_mtime_ns"@.len() == 27 && "mode"@.len() == 4 && "portable_companion_mode"@.len() == 23);
    assert("media_type"@[0] != "provenance"@[0]);
    assert("description"@[0] != "limitations"@[0]);
    assert("portable_companion_format"@[19] != "portable_companion_sha256"@[19]);
    assert("path"@[0] != "mode"@[0]);
    assert("portable_companion_path"@[19] != "portable_companion_mode"@[19]);
}

/// A form is carried out exactly where its path may be written, the digest of its bytes is
/// announced, the bytes are there, and a description that is to be copied is acceptable.
pub proof fn lemma_forms_that_are_carried_out(form: UploadForm, evaluation: bool)
    ensures
        form_refusal(form, evaluation) is None <==> {
            &&& form.path is Some && safe_path(form.path->0@) && !managed(form.path->0@)
            &&& form.expected_content_hash is Some && digest_value(
                form.expected_content_hash->0@,
            ) is Some
            &&& form.has_file
            &&& form.companion_format is Some || form.companion_path is Some
                || form.companion_sha256 is Some || form.companion_mtime_ns is Some
                || form.companion_mode is Some ==> copy_refusal(
                evaluation,
                form.path->0@,
                option_view(form.description),
                option_view(form.companion_format),
                option_view(form.companion_path),
                option_view(form.companion_sha256),
                form.companion_mode,
            ) is None
        },
{
}

/// A description is copied only for an evaluation, to a path of its own that may be
/// written, and only where its bytes are those that were announced.
pub proof fn lemma_descriptions_that_are_copied(
    evaluation: bool,
    binary_path: Seq<char>,
    description: Option<Seq<char>>,
    format: Option<Seq<char>>,
    path: Option<Seq<char>>,
    sha256: Option<Seq<char>>,
    mode: Option<u32>,
)
    ensures
        copy_refusal(evaluation, binary_path, description, format, path, sha256, mode) is None
            <==> {
            &&& evaluation
            &&& format == Some("brunn-tier-a-portable-companion@v1"@)
            &&& path is Some && safe_path(path->0) && !managed(path->0)
            &&& path_key(path->0) != path_key(binary_path)
            &&& description is Some && sha256 is Some
            &&& digest_value(sha256->0) == Some(text_digest(description->0))
            &&& mode matches Some(m) ==> m <= 0o777
        },
{
}

/// The bytes of a field are a text exactly where they are not too many and valid UTF-8.
pub proof fn lemma_fields_that_are_read(name: Seq<char>, bytes: Seq<u8>, limit: int)
    ensures
        field_refusal(name, bytes, limit) is None <==> bytes.len() <= limit
            && vstd::utf8::valid_utf8(bytes),
{
}

/// The media type of a file is the one that was named, unless that is blank; then it is the
/// one that goes with its path.
pub proof fn lemma_media_types(named: Option<Seq<char>>, path: Seq<char>)
    ensures
        named matches Some(t) ==> (trimmed(t).len() > 0 ==> media_type_of(named, path) == t) && (
        trimmed(t).len() == 0 ==> media_type_of(named, path) == media_type_of(None, path)),
{
}

// ---------------------------------------------------------------------------
// Evaluations
// ---------------------------------------------------------------------------

proof fn lemma_first_refusal(documents: Seq<EvalDocument>, i: int)
    requires
        0 <= i,
    ensures
        first_refusal(documents, i) is None <==> forall|k: int|
            i <= k < documents.len() ==> document_refusal(#[trigger] documents[k]) is None,
    decreases documents.len() - i,
{
    if i < documents.len() {
        lemma_first_refusal(documents, i + 1);
        if document_refusal(documents[i]) is None && first_refusal(documents, i + 1) is None {
            assert forall|k: int| i <= k < documents.len() implies document_refusal(
                #[trigger] documents[k],
            ) is None by {
                if k > i {
                    assert(document_refusal(documents[k]) is None);
                }
            }
        }
    }
}

/// Whether a document may be imported: its path is safe, and its digest is its own, in
/// whatever case it is written.
pub open spec fn is_importable(document: EvalDocument) -> bool {
    safe_path(document.path@) && text_digest(document.content@) == lower_case(
        document.content_sha256@,
    )
}

/// An import is carried out exactly where it is of the known form, brings documents, no
/// more than allowed, each of which may be imported, and keeps changes and checkpoints for
/// its last batch.
pub proof fn lemma_imports_that_are_carried_out(request: EvalImportRequest)
    ensures
        eval_refusal(request) is None <==> {
            let documents = request.documents@ + request.delta_documents@;
            &&& request.schema@ == "brunn-eval-import@v1"@
            &&& request.access_mode@ == "read_only"@ || request.access_mode@ == "read_write"@
            &&& request.documents@.len() > 0
            &&& documents.len() <= 700_000
            &&& request.batch_index is Some <==> request.batch_count is Some
            &&& request.batch_index matches Some(index) ==> {
                &&& index < request.batch_count->0
                &&& documents.len() <= 10_000
                &&& index + 1 < request.batch_count->0 ==> request.delta_documents@.len() == 0
                    && request.seed_checkpoint is None
            }
            &&& total_bytes(documents) <= 512 * 1024 * 1024
            &&& forall|k: int| 0 <= k < documents.len() ==> is_importable(#[trigger] documents[k])
        },
{
    let documents = request.documents@ + request.delta_documents@;
    lemma_first_refusal(documents, 0);
    assert forall|d: EvalDocument| #[trigger] document_refusal(d) is None <==> is_importable(
        d,
    ) by {}
    if first_refusal(documents, 0) is None {
        assert forall|k: int| 0 <= k < documents.len() implies is_importable(
            #[trigger] documents[k],
        ) by {
            assert(document_refusal(documents[k]) is None);
        }
    }
    if forall|k: int| 0 <= k < documents.len() ==> is_importable(#[trigger] documents[k]) {
        assert forall|k: int| 0 <= k < documents.len() implies document_refusal(
            #[trigger] documents[k],
        ) is None by {
            assert(is_importable(documents[k]));
        }
    }
}

/// The bytes of documents are counted one by one.
pub proof fn lemma_bytes_are_added_up(documents: Seq<EvalDocument>, more: EvalDocument)
    ensures
        total_bytes(Seq::<EvalDocument>::empty()) == 0,
        total_bytes(documents.push(more)) == total_bytes(documents) + utf8_len(more.content@),
{
    assert(documents.push(more).drop_last() =~= documents);
}

/// What a credential that only reads may do changes nothing.
pub proof fn lemma_readers_change_nothing(name: Seq<char>)
    ensures
        eval_capabilities(true).contains(name) ==> name == "open"@ || name == "query"@ || name
            == "read"@ || name == "status"@,
        eval_capabilities(false).contains("save"@) && eval_capabilities(false).contains("delete"@)
            && eval_capabilities(false).contains("checkpoint"@),
{
    let all = eval_capabilities(false);
    assert(all[4] == "checkpoint"@);
    assert(all[5] == "save"@);
    assert(all[8] == "delete"@);
}

} // verus!
