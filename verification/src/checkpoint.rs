//! Checkpoints: what identifies one, what it says, and what its receipt says.
use vstd::prelude::*;
#[allow(unused_imports)]
use vstd::utf8::encode_utf8;

#[allow(unused_imports)]
use crate::candidate::option_view;
use crate::envelope::{revision, Reply, ResponseStatus, WorkspaceEnvelope};
#[allow(unused_imports)]
use crate::envelope::{frames, revision_text, ReplyV};
use crate::error::ApiError;
#[allow(unused_imports)]
use crate::error::{refusal, ApiErrorV};
#[allow(unused_imports)]
use crate::history::outcome;
use crate::json::Json;
#[allow(unused_imports)]
use crate::json::{integer, items_view, object, optional_text, JsonV};
use crate::outside::{compact_json, sha256, sha256_hex, uuid_format, uuid_parse};
#[allow(unused_imports)]
use crate::outside::{
    big_endian, is_lower_hex_char, json_text, lemma_hex_text, sha256_digest, text_digest,
    uuid_text, uuid_value,
};
use crate::paths::{
    checkpoint_id_of_ref, checkpoint_path, entry_id_of_ref, is_printable,
    validate_idempotency_key,
};
#[allow(unused_imports)]
use crate::paths::{
    checkpoint_of_ref, checkpoint_path_text, entry_of_ref, printable, utf8_len, MAX_KEY_BYTES,
};
use crate::read::{EntryRow, LookupStep};
#[allow(unused_imports)]
use crate::read::StepV;
use crate::requests::CheckpointRequest;
use crate::text::{byte_len, cat, cat3, decimal_of, same, starts_with, strip_prefix};
#[allow(unused_imports)]
use crate::text::{behind, decimal, has_prefix, texts};
use crate::write::{checkpoint_client_metadata, text_is, MAX_WRITE_BYTES};
#[allow(unused_imports)]
use crate::write::client_of;

verus! {

/// How many sources a checkpoint names.
pub const MAX_SOURCE_REFS: usize = 64;

/// The most bytes the reference of a source has.
pub const MAX_SOURCE_REF_BYTES: usize = 4096;

// ---------------------------------------------------------------------------
// What identifies a checkpoint
// ---------------------------------------------------------------------------

/// Texts as an array.
pub open spec fn text_items(v: Seq<String>) -> JsonV {
    JsonV::Array(Seq::new(v.len(), |i: int| JsonV::Text(v[i]@)))
}

/// Texts as an array.
pub fn write_text_items(v: &Vec<String>) -> (r: Json)
    ensures
        r@ == text_items(v@),
{
    let mut out: Vec<Json> = Vec::new();
    let ghost all = Seq::new(v@.len(), |i: int| JsonV::Text(v@[i]@));
    let mut i: usize = 0;
    while i < v.len()
        invariant
            i <= v@.len(),
            all == Seq::new(v@.len(), |i: int| JsonV::Text(v@[i]@)),
            items_view(out@) == all.take(i as int),
        decreases v@.len() - i,
    {
        let ghost held = out@;
        let item = Json::text(v[i].as_str());
        out.push(item);
        proof {
            assert(items_view(out@) =~= items_view(held).push(item@));
            assert(all.take(i + 1) =~= all.take(i as int).push(all[i as int]));
        }
        i = i + 1;
    }
    assert(all.take(i as int) =~= all);
    Json::array(out)
}

/// What the identity of a checkpoint is made from that a request asks for in a session.
pub open spec fn identity_in(request: CheckpointRequest, session: Seq<char>) -> JsonV {
    object().with("session_id"@, JsonV::Text(session)).with(
        "parent_checkpoint_id"@,
        optional_text(option_view(request.parent_checkpoint_id)),
    ).with("state"@, request.state@).with("source_refs"@, text_items(request.source_refs@)).with(
        "idempotency_key"@,
        optional_text(option_view(request.idempotency_key)),
    )
}

fn write_identity(request: &CheckpointRequest, session: &str) -> (r: Json)
    ensures
        r@ == identity_in(*request, session@),
{
    Json::object().with("session_id", Json::text(session)).with(
        "parent_checkpoint_id",
        Json::optional_text(&request.parent_checkpoint_id),
    ).with("state", request.state.copy()).with(
        "source_refs",
        write_text_items(&request.source_refs),
    ).with("idempotency_key", Json::optional_text(&request.idempotency_key))
}

/// What two requests share that ask for the same: not the session they come from,
/// nor the key they are made with.
pub open spec fn request_json(request: CheckpointRequest) -> JsonV {
    object().with("schema"@, JsonV::Text("brunn-simple-checkpoint-request@v1"@)).with(
        "parent_checkpoint_id"@,
        optional_text(option_view(request.parent_checkpoint_id)),
    ).with("state"@, request.state@).with("source_refs"@, text_items(request.source_refs@))
}

/// What two requests share that ask for the same.
pub fn checkpoint_request_identity(request: &CheckpointRequest) -> (r: Json)
    ensures
        r@ == request_json(*request),
{
    Json::object().with("schema", Json::text("brunn-simple-checkpoint-request@v1")).with(
        "parent_checkpoint_id",
        Json::optional_text(&request.parent_checkpoint_id),
    ).with("state", request.state.copy()).with(
        "source_refs",
        write_text_items(&request.source_refs),
    )
}

/// Requests that differ in their session or their key alone ask for the same.
pub proof fn lemma_request_ignores_session_and_key(a: CheckpointRequest, b: CheckpointRequest)
    requires
        option_view(a.parent_checkpoint_id) == option_view(b.parent_checkpoint_id),
        a.state@ == b.state@,
        texts(a.source_refs@) == texts(b.source_refs@),
    ensures
        request_json(a) == request_json(b),
{
    let x = Seq::new(a.source_refs@.len(), |i: int| JsonV::Text(a.source_refs@[i]@));
    let y = Seq::new(b.source_refs@.len(), |i: int| JsonV::Text(b.source_refs@[i]@));
    let s = texts(a.source_refs@);
    let t = texts(b.source_refs@);
    assert(s.len() == x.len() && t.len() == y.len());
    assert forall|i: int| 0 <= i < x.len() implies x[i] == y[i] by {
        assert(s[i] == a.source_refs@[i]@);
        assert(t[i] == b.source_refs@[i]@);
    }
    assert(x =~= y);
}

pub open spec fn pow256(n: nat) -> nat
    decreases n,
{
    if n == 0 {
        1
    } else {
        256 * pow256((n - 1) as nat)
    }
}

proof fn lemma_pow256(n: nat, m: nat)
    requires
        n <= m,
    ensures
        1 <= pow256(n) <= pow256(m),
    decreases m,
{
    if n < m {
        lemma_pow256(n, (m - 1) as nat);
    } else if n > 0 {
        lemma_pow256((n - 1) as nat, (n - 1) as nat);
    }
}

/// The number that the first sixteen bytes are, the first one counting most.
fn number_of(bytes: &Vec<u8>) -> (r: u128)
    requires
        bytes@.len() >= 16,
    ensures
        r == big_endian(bytes@.take(16)),
{
    let mut value: u128 = 0;
    let mut i: usize = 0;
    let ghost front = bytes@.take(16);
    assert(front.take(0) =~= Seq::<u8>::empty());
    proof {
        assert(pow256(16) == 0x1_0000_0000_0000_0000_0000_0000_0000_0000nat) by {
            reveal_with_fuel(pow256, 17);
        }
    }
    while i < 16
        invariant
            i <= 16 <= bytes@.len(),
            front == bytes@.take(16),
            pow256(16) == 0x1_0000_0000_0000_0000_0000_0000_0000_0000nat,
            value == big_endian(front.take(i as int)),
            value < pow256(i as nat),
        decreases 16 - i,
    {
        proof {
            lemma_pow256((i + 1) as nat, 16);
            assert(front.take(i + 1).drop_last() =~= front.take(i as int));
            assert(front.take(i + 1).last() == bytes@[i as int]);
            assert(pow256((i + 1) as nat) == 256 * pow256(i as nat));
        }
        value = value * 256 + bytes[i] as u128;
        i = i + 1;
    }
    assert(front.take(16) =~= front);
    value
}

/// The identity that is made from a JSON value: the first sixteen bytes of the digest
/// of its text.
pub open spec fn id_of_json(value: JsonV) -> nat {
    big_endian(sha256_digest(encode_utf8(json_text(value))).take(16))
}

/// The identity of the checkpoint that a request asks for.
pub open spec fn checkpoint_id_of(request: CheckpointRequest) -> nat {
    id_of_json(identity_in(request, request.session_id@))
}

/// The identity of the checkpoint that a request would ask for in a session.
pub fn checkpoint_id_in(request: &CheckpointRequest, session: &str) -> (r: u128)
    ensures
        r == id_of_json(identity_in(*request, session@)),
{
    let text = compact_json(&write_identity(request, session));
    let digest = sha256(text.as_str().as_bytes());
    number_of(&digest)
}

/// The identity of a checkpoint: the first sixteen bytes of the digest of everything
/// that its request says, written as JSON.
pub fn deterministic_checkpoint_id(request: &CheckpointRequest) -> (r: u128)
    ensures
        r == checkpoint_id_of(*request),
{
    checkpoint_id_in(request, request.session_id.as_str())
}

/// The identity of the entry that a new checkpoint is written to.
pub fn checkpoint_entry_id_for_new_write(request: &CheckpointRequest) -> (r: u128)
    ensures
        r == checkpoint_id_of(*request),
{
    deterministic_checkpoint_id(request)
}

/// The key of a checkpoint that was made without one.
pub open spec fn implicit_key(request: CheckpointRequest) -> Seq<char> {
    "implicit:"@ + uuid_text(checkpoint_id_of(request) as u128)
}

/// The key of a checkpoint that was made without one: always the same for the same
/// request.
pub fn implicit_checkpoint_idempotency_key(request: &CheckpointRequest) -> (r: String)
    ensures
        r@ == implicit_key(*request),
{
    cat("implicit:", uuid_format(checkpoint_entry_id_for_new_write(request)).as_str())
}

/// The key that a checkpoint is made under.
pub open spec fn key_of(request: CheckpointRequest) -> Seq<char> {
    match request.idempotency_key {
        Some(key) => key@,
        None => implicit_key(request),
    }
}

/// Whether a key could be that of a checkpoint made without one.
pub open spec fn reserved_key(key: Seq<char>) -> bool {
    match behind(key, "implicit:"@) {
        Some(suffix) => uuid_value(suffix) is Some,
        None => false,
    }
}

/// Whether a key could be that of a checkpoint made without one. The key of every
/// such checkpoint could.
pub fn is_reserved_implicit_checkpoint_key(key: &str) -> (r: bool)
    ensures
        r == reserved_key(key@),
        forall|request: CheckpointRequest| key@ == #[trigger] implicit_key(request) ==> r,
{
    proof {
        assert forall|request: CheckpointRequest|
            key@ == #[trigger] implicit_key(request) implies behind(key@, "implicit:"@) == Some(
            uuid_text(checkpoint_id_of(request) as u128),
        ) by {
            let prefix = "implicit:"@;
            let rest = uuid_text(checkpoint_id_of(request) as u128);
            assert((prefix + rest).subrange(0, prefix.len() as int) =~= prefix);
            assert((prefix + rest).take(prefix.len() as int) =~= prefix);
            assert((prefix + rest).skip(prefix.len() as int) =~= rest);
            assert((prefix + rest).subrange(prefix.len() as int, (prefix + rest).len() as int)
                =~= rest);
        }
    }
    match strip_prefix(key, "implicit:") {
        Some(suffix) => uuid_parse(suffix.as_str()).is_some(),
        None => false,
    }
}

// ---------------------------------------------------------------------------
// Which checkpoints are accepted
// ---------------------------------------------------------------------------

pub open spec fn unprintable_ref(refs: Seq<String>) -> bool {
    exists|i: int|
        0 <= i < refs.len() && !printable((#[trigger] refs[i])@, MAX_SOURCE_REF_BYTES as int)
}

/// Why a checkpoint is not made. `project` is what the task service says of the
/// project's name, `canonical` the request as canonical JSON.
pub open spec fn checkpoint_refusal(
    request: CheckpointRequest,
    project: Result<(), ApiErrorV>,
    canonical: Result<Seq<char>, ApiErrorV>,
) -> Option<ApiErrorV> {
    let named = request.state@.get("project"@);
    if !printable(request.session_id@, 256) {
        Some(
            ApiErrorV::Invalid("checkpoint session_id must contain 1 to 256 printable characters"@),
        )
    } else if request.idempotency_key is Some && !printable(
        request.idempotency_key->0@,
        MAX_KEY_BYTES as int,
    ) {
        Some(ApiErrorV::Invalid("idempotency_key must contain 1 to 256 printable characters"@))
    } else if request.idempotency_key is Some && reserved_key(request.idempotency_key->0@) {
        Some(
            ApiErrorV::Invalid("checkpoint idempotency keys matching implicit:<uuid> are reserved"@),
        )
    } else if !(request.state@ is Object) {
        Some(ApiErrorV::Invalid("checkpoint state must be an object"@))
    } else if named is Some && !(named->0 is Null) && !(named->0 is Text) {
        Some(ApiErrorV::Invalid("checkpoint state.project must be a string"@))
    } else if named is Some && named->0 is Text && project is Err {
        Some(project->Err_0)
    } else if request.source_refs@.len() > MAX_SOURCE_REFS {
        Some(ApiErrorV::Invalid("checkpoint source_refs are limited to 64 exact references"@))
    } else if unprintable_ref(request.source_refs@) {
        Some(
            ApiErrorV::Invalid("checkpoint source_refs must contain 1 to 4096 printable characters"@),
        )
    } else if request.parent_checkpoint_id is Some && !printable(
        request.parent_checkpoint_id->0@,
        256,
    ) {
        Some(
            ApiErrorV::Invalid(
                "checkpoint parent_checkpoint_id must contain 1 to 256 printable characters"@,
            ),
        )
    } else if canonical is Err {
        Some(canonical->Err_0)
    } else if utf8_len(canonical->Ok_0) > MAX_WRITE_BYTES {
        Some(
            ApiErrorV::Public(
                413,
                "checkpoint_too_large"@,
                "checkpoint requests are limited to 4 MiB"@,
            ),
        )
    } else {
        None
    }
}

fn has_unprintable_ref(refs: &Vec<String>) -> (r: bool)
    ensures
        r == unprintable_ref(refs@),
{
    let mut i: usize = 0;
    while i < refs.len()
        invariant
            i <= refs@.len(),
            forall|k: int|
                0 <= k < i ==> printable((#[trigger] refs@[k])@, MAX_SOURCE_REF_BYTES as int),
        decreases refs@.len() - i,
    {
        if !is_printable(refs[i].as_str(), MAX_SOURCE_REF_BYTES) {
            return true;
        }
        i = i + 1;
    }
    false
}

/// The key under which a checkpoint is made, and the digest of what is asked for.
/// `project` is what the task service says of the project's name, `canonical` the
/// request as canonical JSON.
pub fn validate_checkpoint_request(
    request: &CheckpointRequest,
    project: Result<(), ApiError>,
    canonical: Result<String, ApiError>,
) -> (r: Result<(String, String), ApiError>)
    ensures
        refusal(r) == checkpoint_refusal(
            *request,
            outcome(project),
            match canonical {
                Ok(t) => Ok(t@),
                Err(e) => Err(e@),
            },
        ),
        r matches Ok(pair) ==> {
            &&& pair.0@ == key_of(*request)
            &&& canonical is Ok
            &&& pair.1@ == text_digest(canonical->Ok_0@)
            &&& pair.1@.len() == 64
        },
{
    if !is_printable(request.session_id.as_str(), 256) {
        return Err(
            ApiError::invalid("checkpoint session_id must contain 1 to 256 printable characters"),
        );
    }
    match &request.idempotency_key {
        Some(key) => {
            match validate_idempotency_key(key.as_str()) {
                Ok(_) => {},
                Err(e) => {
                    return Err(e);
                },
            }
            if is_reserved_implicit_checkpoint_key(key.as_str()) {
                return Err(
                    ApiError::invalid(
                        "checkpoint idempotency keys matching implicit:<uuid> are reserved",
                    ),
                );
            }
        },
        None => {},
    }
    if !request.state.is_object() {
        return Err(ApiError::invalid("checkpoint state must be an object"));
    }
    match request.state.get("project") {
        Some(Json::Null) => {},
        Some(Json::Text(_)) => match project {
            Ok(_) => {},
            Err(e) => {
                return Err(e);
            },
        },
        Some(_) => {
            return Err(ApiError::invalid("checkpoint state.project must be a string"));
        },
        None => {},
    }
    if request.source_refs.len() > MAX_SOURCE_REFS {
        return Err(
            ApiError::invalid("checkpoint source_refs are limited to 64 exact references"),
        );
    }
    if has_unprintable_ref(&request.source_refs) {
        return Err(
            ApiError::invalid("checkpoint source_refs must contain 1 to 4096 printable characters"),
        );
    }
    match &request.parent_checkpoint_id {
        Some(parent) => {
            if !is_printable(parent.as_str(), 256) {
                return Err(
                    ApiError::invalid(
                        "checkpoint parent_checkpoint_id must contain 1 to 256 printable characters",
                    ),
                );
            }
        },
        None => {},
    }
    let canonical = match canonical {
        Ok(t) => t,
        Err(e) => {
            return Err(e);
        },
    };
    if byte_len(canonical.as_str()) > MAX_WRITE_BYTES {
        return Err(
            ApiError::public(
                413,
                "checkpoint_too_large",
                "checkpoint requests are limited to 4 MiB",
            ),
        );
    }
    let key = match &request.idempotency_key {
        Some(key) => key.clone(),
        None => implicit_checkpoint_idempotency_key(request),
    };
    Ok((key, sha256_hex(canonical.as_str())))
}

/// Requests that differ in their session or their key alone have the same digest,
/// however JSON is made canonical, and it is written in hexadecimal digits in lower
/// case. A request with a key is made under that key, and one without a key under its
/// own implicit key.
pub proof fn lemma_requests_that_ask_for_the_same(
    a: CheckpointRequest,
    b: CheckpointRequest,
    canonical: spec_fn(JsonV) -> Seq<char>,
)
    requires
        option_view(a.parent_checkpoint_id) == option_view(b.parent_checkpoint_id),
        a.state@ == b.state@,
        texts(a.source_refs@) == texts(b.source_refs@),
    ensures
        text_digest(canonical(request_json(a))) == text_digest(canonical(request_json(b))),
        forall|i: int|
            0 <= i < text_digest(canonical(request_json(a))).len() ==> is_lower_hex_char(
                #[trigger] text_digest(canonical(request_json(a)))[i],
            ),
        a.idempotency_key is Some ==> key_of(a) == a.idempotency_key->0@,
        a.idempotency_key is None ==> key_of(a) == implicit_key(a),
{
    lemma_request_ignores_session_and_key(a, b);
    lemma_hex_text(sha256_digest(encode_utf8(canonical(request_json(a)))));
}

/// Under what checkpoints with the same key wait for each other.
pub open spec fn checkpoint_lock_text(user: u128, key: Seq<char>) -> Seq<char> {
    "simple-idempotency:"@ + uuid_text(user) + (":checkpoint:"@ + text_digest(key))
}

pub fn checkpoint_lock(user: u128, idempotency_key: &str) -> (r: String)
    ensures
        r@ == checkpoint_lock_text(user, idempotency_key@),
{
    cat3(
        "simple-idempotency:",
        uuid_format(user).as_str(),
        cat(":checkpoint:", sha256_hex(idempotency_key).as_str()).as_str(),
    )
}

// ---------------------------------------------------------------------------
// Repeated requests
// ---------------------------------------------------------------------------

/// A key that was used for something else.
pub open spec fn key_conflict(key: Seq<char>) -> ApiErrorV {
    ApiErrorV::Conflict(
        "idempotency_conflict"@,
        "checkpoint idempotency key was already used for a different request"@,
        object().with("operation_kind"@, JsonV::Text("checkpoint"@)).with(
            "idempotency_key"@,
            JsonV::Text(key),
        ).with("idempotency_key_reused"@, JsonV::Bool(true)),
    )
}

pub fn checkpoint_idempotency_conflict(idempotency_key: &str) -> (r: ApiError)
    ensures
        r@ == key_conflict(idempotency_key@),
{
    ApiError::conflict(
        "idempotency_conflict",
        "checkpoint idempotency key was already used for a different request",
        Json::object().with("operation_kind", Json::text("checkpoint")).with(
            "idempotency_key",
            Json::text(idempotency_key),
        ).with("idempotency_key_reused", Json::Bool(true)),
    )
}

/// What is kept of a checkpoint that was made under a key.
#[derive(Debug)]
pub struct KeptReceipt {
    pub request_hash: String,
    pub receipt: Json,
}

/// The receipt of a request that was carried out before: the same request gets the
/// same receipt, another one under the same key is refused.
pub fn replay_checkpoint_receipt(
    kept: Option<KeptReceipt>,
    idempotency_key: &str,
    request_hash: &str,
) -> (r: Result<Option<Json>, ApiError>)
    ensures
        match r {
            Ok(None) => kept is None,
            Ok(Some(receipt)) => kept is Some && kept->0.request_hash@ == request_hash@ && receipt
                == kept->0.receipt,
            Err(e) => kept is Some && kept->0.request_hash@ != request_hash@ && e@ == key_conflict(
                idempotency_key@,
            ),
        },
{
    match kept {
        None => Ok(None),
        Some(kept) => if same(kept.request_hash.as_str(), request_hash) {
            Ok(Some(kept.receipt))
        } else {
            Err(checkpoint_idempotency_conflict(idempotency_key))
        },
    }
}

/// The reply to a request for a checkpoint.
pub open spec fn checkpoint_reply_of(session: Seq<char>, receipt: JsonV) -> Result<
    ReplyV,
    ApiErrorV,
> {
    let found = match receipt.get("resulting_workspace_generation"@) {
        Some(v) => v.integer(),
        None => receipt.get_integer("workspace_generation"@),
    };
    match found {
        None => Err(
            ApiErrorV::Internal("checkpoint receipt is missing its resulting generation"@),
        ),
        Some(g) => Ok(
            ReplyV {
                session_id: Some(session),
                corpus_revision: Some(revision_text(g)),
                status: ResponseStatus::Committed,
                data: receipt,
                gaps: Seq::empty(),
            },
        ),
    }
}

/// The response to a request for a checkpoint. A repeated request gets the same
/// reply; the number of queries is told only where the checkpoint is new.
pub fn checkpoint_envelope(
    session_id: &str,
    receipt: Json,
    replayed: bool,
    request_id: String,
    query_count: Option<usize>,
) -> (r: Result<WorkspaceEnvelope<Json>, ApiError>)
    ensures
        match r {
            Ok(envelope) => checkpoint_reply_of(session_id@, receipt@) is Ok && frames(
                envelope,
                checkpoint_reply_of(session_id@, receipt@)->Ok_0,
                request_id@,
                if replayed {
                    None
                } else {
                    query_count
                },
            ),
            Err(e) => checkpoint_reply_of(session_id@, receipt@) == Err::<ReplyV, ApiErrorV>(e@),
        },
{
    let found: Option<i64> = match receipt.get("resulting_workspace_generation") {
        Some(v) => v.as_integer(),
        None => receipt.get_integer("workspace_generation"),
    };
    match found {
        None => Err(
            ApiError::internal("checkpoint receipt is missing its resulting generation"),
        ),
        Some(g) => {
            let gaps: Vec<Json> = Vec::new();
            assert(items_view(gaps@) =~= Seq::empty());
            let reply = Reply {
                session_id: Some(session_id.to_owned()),
                corpus_revision: Some(revision(g)),
                status: ResponseStatus::Committed,
                data: receipt,
                gaps,
            };
            let count = if replayed {
                None
            } else {
                query_count
            };
            Ok(reply.framed(request_id, count))
        },
    }
}

/// A repeated request is answered as the first one was, but for the session that it
/// comes from.
pub proof fn lemma_replies_differ_in_session(first: Seq<char>, second: Seq<char>, receipt: JsonV)
    ensures
        match checkpoint_reply_of(first, receipt) {
            Ok(reply) => checkpoint_reply_of(second, receipt) == Ok::<ReplyV, ApiErrorV>(
                (ReplyV { session_id: Some(second), ..reply }),
            ),
            Err(e) => checkpoint_reply_of(second, receipt) == Err::<ReplyV, ApiErrorV>(e),
        },
{
}

// ---------------------------------------------------------------------------
// Parents
// ---------------------------------------------------------------------------

/// How the parent of a checkpoint is looked for.
pub fn checkpoint_parent_lookup(reference: &str) -> (r: Result<LookupStep, ApiError>)
    ensures
        match r {
            Ok(step) => step@ == match checkpoint_of_ref(reference@) {
                Some(id) => StepV::Path(checkpoint_path_text(id)),
                None => StepV::Id(entry_of_ref(reference@)->0),
            },
            Err(e) => e@ == ApiErrorV::Invalid(
                "parent_checkpoint_id must be a checkpoint or entry ref"@,
            ),
        },
        r is Err <==> checkpoint_of_ref(reference@) is None && entry_of_ref(reference@) is None,
{
    match checkpoint_id_of_ref(reference) {
        Some(id) => Ok(LookupStep::Path(checkpoint_path(id))),
        None => match entry_id_of_ref(reference) {
            Some(id) => Ok(LookupStep::Id(id)),
            None => Err(
                ApiError::invalid("parent_checkpoint_id must be a checkpoint or entry ref"),
            ),
        },
    }
}

/// Accepts the parent of a checkpoint, by the metadata of the entry that was found.
pub fn check_checkpoint_parent(reference: &str, metadata: Option<&Json>) -> (r: Result<
    (),
    ApiError,
>)
    ensures
        refusal(r) == match metadata {
            None => Some(ApiErrorV::NotFound("entry_not_found"@, reference@)),
            Some(m) => if client_of(m@).get_text("kind"@) == Some("checkpoint"@) {
                None
            } else {
                Some(
                    ApiErrorV::Invalid("parent_checkpoint_id does not identify a checkpoint entry"@),
                )
            },
        },
{
    match metadata {
        None => Err(ApiError::not_found("entry_not_found", reference)),
        Some(m) => if text_is(checkpoint_client_metadata(m), "kind", "checkpoint") {
            Ok(())
        } else {
            Err(ApiError::invalid("parent_checkpoint_id does not identify a checkpoint entry"))
        },
    }
}

// ---------------------------------------------------------------------------
// What a checkpoint says
// ---------------------------------------------------------------------------

/// An item of the state of a checkpoint: a text as it is, anything else as JSON.
pub open spec fn item_text(item: JsonV) -> Seq<char> {
    match item {
        JsonV::Text(t) => t,
        _ => json_text(item),
    }
}

pub open spec fn item_line(text: Seq<char>) -> Seq<char> {
    "- "@ + text + "\n"@
}

pub open spec fn item_lines(items: Seq<JsonV>) -> Seq<char>
    decreases items.len(),
{
    if items.len() == 0 {
        Seq::empty()
    } else {
        item_lines(items.drop_last()) + item_line(item_text(items.last()))
    }
}

/// A part of what a checkpoint says: its items, one a line.
pub open spec fn section_text(heading: Seq<char>, value: Option<JsonV>) -> Seq<char> {
    "## "@ + heading + "\n\n"@ + (match value {
        Some(JsonV::Array(items)) => item_lines(items),
        Some(JsonV::Text(t)) => item_line(t),
        _ => "- None recorded.\n"@,
    }) + "\n"@
}

fn write_section(heading: &str, value: Option<&Json>) -> (r: String)
    ensures
        r@ == section_text(
            heading@,
            match value {
                Some(v) => Some(v@),
                None => None,
            },
        ),
{
    let mut out = "## ".to_owned();
    out.append(heading);
    out.append("\n\n");
    let body: String = match value {
        Some(v) => match v.as_array() {
            Some(items) => {
                let ghost all = items_view(items@);
                let mut body = String::new();
                let mut i: usize = 0;
                assert(all.take(0) =~= Seq::<JsonV>::empty());
                assert(body@ =~= item_lines(all.take(0)));
                while i < items.len()
                    invariant
                        i <= items@.len(),
                        all == items_view(items@),
                        body@ == item_lines(all.take(i as int)),
                    decreases items@.len() - i,
                {
                    proof {
                        assert(all.take(i + 1).drop_last() =~= all.take(i as int));
                        assert(all.take(i + 1).last() == items@[i as int]@);
                    }
                    let line = match &items[i] {
                        Json::Text(t) => cat3("- ", t.as_str(), "\n"),
                        _ => cat3("- ", compact_json(&items[i]).as_str(), "\n"),
                    };
                    body.append(line.as_str());
                    i = i + 1;
                }
                assert(all.take(i as int) =~= all);
                body
            },
            None => match v {
                Json::Text(t) => cat3("- ", t.as_str(), "\n"),
                _ => "- None recorded.\n".to_owned(),
            },
        },
        None => "- None recorded.\n".to_owned(),
    };
    out.append(body.as_str());
    out.append("\n");
    out
}

/// Whether a reference names something outside the workspace.
pub open spec fn outside_ref(reference: Seq<char>) -> bool {
    has_prefix(reference, "source_episode:"@) || has_prefix(reference, "evidence:"@)
}

pub fn is_outside_ref(reference: &str) -> (r: bool)
    ensures
        r == outside_ref(reference@),
{
    starts_with(reference, "source_episode:") || starts_with(reference, "evidence:")
}

pub open spec fn source_line(entry: EntryRow) -> Seq<char> {
    "- `"@ + entry.path@ + "` | version "@ + decimal(entry.version as int) + " | `sha256:"@
        + entry.content_sha256@ + "`\n"@
}

pub open spec fn source_lines(entries: Seq<EntryRow>) -> Seq<char>
    decreases entries.len(),
{
    if entries.len() == 0 {
        Seq::empty()
    } else {
        source_lines(entries.drop_last()) + source_line(entries.last())
    }
}

fn write_source_lines(entries: &Vec<EntryRow>) -> (r: String)
    ensures
        r@ == source_lines(entries@),
{
    let mut out = String::new();
    let mut i: usize = 0;
    assert(entries@.take(0) =~= Seq::<EntryRow>::empty());
    assert(out@ =~= source_lines(entries@.take(0)));
    while i < entries.len()
        invariant
            i <= entries@.len(),
            out@ == source_lines(entries@.take(i as int)),
        decreases entries@.len() - i,
    {
        let entry = &entries[i];
        proof {
            assert(entries@.take(i + 1).drop_last() =~= entries@.take(i as int));
            assert(entries@.take(i + 1).last() == entries@[i as int]);
        }
        let mut line = "- `".to_owned();
        line.append(entry.path.as_str());
        line.append("` | version ");
        line.append(decimal_of(entry.version).as_str());
        line.append(" | `sha256:");
        line.append(entry.content_sha256.as_str());
        line.append("`\n");
        out.append(line.as_str());
        i = i + 1;
    }
    assert(entries@.take(i as int) =~= entries@);
    out
}

pub open spec fn outside_lines(refs: Seq<Seq<char>>) -> Seq<char>
    decreases refs.len(),
{
    if refs.len() == 0 {
        Seq::empty()
    } else if outside_ref(refs.last()) {
        outside_lines(refs.drop_last()) + ("- `"@ + refs.last() + "`\n"@)
    } else {
        outside_lines(refs.drop_last())
    }
}

fn write_outside_lines(refs: &Vec<String>) -> (r: String)
    ensures
        r@ == outside_lines(texts(refs@)),
{
    let ghost all = texts(refs@);
    let mut out = String::new();
    let mut i: usize = 0;
    assert(all.take(0) =~= Seq::<Seq<char>>::empty());
    assert(out@ =~= outside_lines(all.take(0)));
    while i < refs.len()
        invariant
            i <= refs@.len(),
            all == texts(refs@),
            out@ == outside_lines(all.take(i as int)),
        decreases refs@.len() - i,
    {
        proof {
            assert(all.take(i + 1).drop_last() =~= all.take(i as int));
            assert(all.take(i + 1).last() == refs@[i as int]@);
        }
        if is_outside_ref(refs[i].as_str()) {
            out.append(cat3("- `", refs[i].as_str(), "`\n").as_str());
        }
        i = i + 1;
    }
    assert(all.take(i as int) =~= all);
    out
}

pub open spec fn text_or(value: Option<Seq<char>>, default: Seq<char>) -> Seq<char> {
    match value {
        Some(t) => t,
        None => default,
    }
}

/// The document of a checkpoint.
pub open spec fn checkpoint_text(
    id: u128,
    generation: int,
    request: CheckpointRequest,
    entries: Seq<EntryRow>,
) -> Seq<char> {
    let state = request.state@;
    let outside = outside_lines(texts(request.source_refs@));
    "---\nbrunn_kind: checkpoint\ncheckpoint_id: "@ + uuid_text(id) + "\nworkspace_generation: "@
        + decimal(generation) + "\nsession_id: "@ + request.session_id@
        + "\nparent_checkpoint_id: "@ + text_or(
        option_view(request.parent_checkpoint_id),
        Seq::empty(),
    ) + "\nproject: "@ + text_or(state.get_text("project"@), Seq::empty())
        + "\n---\n\n# Checkpoint: "@ + text_or(
        state.get_text("objective"@),
        "Resume durable work"@,
    ) + "\n\n"@ + section_text("Current state"@, state.get("current_state"@)) + section_text(
        "Decisions"@,
        state.get("decisions"@),
    ) + section_text("Open questions"@, state.get("open_questions"@)) + section_text(
        "Next actions"@,
        state.get("next_actions"@),
    ) + section_text("Artifacts"@, state.get("artifacts"@))
        + "## Exact source references\n\n"@ + (if entries.len() == 0 {
        "- None recorded.\n"@
    } else {
        source_lines(entries)
    }) + (if outside.len() == 0 {
        Seq::empty()
    } else {
        "\n## External source references\n\n"@ + outside
    })
}

fn text_of(value: Option<&String>, default: &str) -> (r: String)
    ensures
        r@ == text_or(
            match value {
                Some(t) => Some(t@),
                None => None,
            },
            default@,
        ),
{
    match value {
        Some(t) => t.clone(),
        None => default.to_owned(),
    }
}

/// The document of a checkpoint. `project` is what the task service says of the
/// project's name, where the state has one.
pub fn render_checkpoint_markdown(
    checkpoint_id: u128,
    generation: i64,
    request: &CheckpointRequest,
    source_entries: &Vec<EntryRow>,
    project: Result<(), ApiError>,
) -> (r: Result<String, ApiError>)
    ensures
        refusal(r) == if text_or(request.state@.get_text("project"@), Seq::empty()).len() > 0
            && project is Err {
            Some(project->Err_0@)
        } else {
            None
        },
        r is Ok ==> r->Ok_0@ == checkpoint_text(
            checkpoint_id,
            generation as int,
            *request,
            source_entries@,
        ),
{
    proof {
        reveal_strlit("");
        assert(""@ =~= Seq::<char>::empty());
    }
    let objective = text_of(request.state.get_text("objective"), "Resume durable work");
    let named = text_of(request.state.get_text("project"), "");
    if named.as_str().unicode_len() > 0 {
        match project {
            Ok(_) => {},
            Err(e) => {
                return Err(e);
            },
        }
    }
    let parent = match &request.parent_checkpoint_id {
        Some(p) => p.clone(),
        None => "".to_owned(),
    };
    let state = &request.state;
    let mut out = "---\nbrunn_kind: checkpoint\ncheckpoint_id: ".to_owned();
    out.append(uuid_format(checkpoint_id).as_str());
    out.append("\nworkspace_generation: ");
    out.append(decimal_of(generation).as_str());
    out.append("\nsession_id: ");
    out.append(request.session_id.as_str());
    out.append("\nparent_checkpoint_id: ");
    out.append(parent.as_str());
    out.append("\nproject: ");
    out.append(named.as_str());
    out.append("\n---\n\n# Checkpoint: ");
    out.append(objective.as_str());
    out.append("\n\n");
    out.append(write_section("Current state", state.get("current_state")).as_str());
    out.append(write_section("Decisions", state.get("decisions")).as_str());
    out.append(write_section("Open questions", state.get("open_questions")).as_str());
    out.append(write_section("Next actions", state.get("next_actions")).as_str());
    out.append(write_section("Artifacts", state.get("artifacts")).as_str());
    out.append("## Exact source references\n\n");
    let sources = if source_entries.len() == 0 {
        "- None recorded.\n".to_owned()
    } else {
        write_source_lines(source_entries)
    };
    out.append(sources.as_str());
    let outside = write_outside_lines(&request.source_refs);
    if outside.as_str().unicode_len() > 0 {
        out.append(cat("\n## External source references\n\n", outside.as_str()).as_str());
    }
    assert(out@ =~= checkpoint_text(
        checkpoint_id,
        generation as int,
        *request,
        source_entries@,
    ));
    Ok(out)
}

}
