//! What a write does to the entry that is there: nothing, an amendment, or a new
//! version.
use vstd::prelude::*;

#[allow(unused_imports)]
use crate::candidate::option_view;
use crate::envelope::{revision, Reply, ResponseStatus};
#[allow(unused_imports)]
use crate::envelope::{revision_text, ReplyV};
use crate::error::ApiError;
#[allow(unused_imports)]
use crate::error::{refusal, ApiErrorV};
use crate::history::{tier_a_exact_history_action, TierAExactHistoryAction};
#[allow(unused_imports)]
use crate::history::{exact_action, outcome, stage_of};
use crate::json::Json;
#[allow(unused_imports)]
use crate::json::{alike, integer, items_view, object, optional_text, JsonV};
use crate::outside::{day, entry_ref, pretty_json, sha256_hex, uuid_format, uuid_parse};
#[allow(unused_imports)]
use crate::outside::{day_text, entry_ref_text, pretty_text, text_digest, uuid_text, uuid_value};
use crate::paths::{
    is_checkpoint_path, portable_path_key, validate_idempotency_key, validate_public_path,
    without_prefix,
};
#[allow(unused_imports)]
use crate::paths::{
    checkpoint_of_path, managed, path_key, printable, safe_path, unprefixed, MAX_KEY_BYTES,
};
#[allow(unused_imports)]
use crate::render::hash_text;
use crate::requests::{markdown_media_type, CaptureRequest, WriteRequest};
use crate::text::{cat, cat3, same, trim};
#[allow(unused_imports)]
use crate::text::trimmed;
use crate::write::{
    is_portable_checkpoint_import, rebase_imported_checkpoint_metadata, PreparedMarkdown,
};
#[allow(unused_imports)]
use crate::write::{imports_checkpoint, rebased};

verus! {

/// The entry that is there, in its current version.
#[derive(Debug)]
pub struct ExistingEntry {
    pub id: u128,
    pub kind: String,
    pub current_version: i64,
    pub deleted: bool,
    pub version_id: u128,
    pub content_sha256: String,
    pub metadata: Json,
}

/// How a change is called in the list of changes.
#[derive(Clone, Copy, Debug, PartialEq, Eq, Structural)]
pub enum WriteOperation {
    Create,
    Update,
}

impl WriteOperation {
    pub open spec fn name(self) -> Seq<char> {
        match self {
            WriteOperation::Create => "create"@,
            WriteOperation::Update => "update"@,
        }
    }

    pub fn as_str(self) -> (r: &'static str)
        ensures
            r@ == self.name(),
    {
        match self {
            WriteOperation::Create => "create",
            WriteOperation::Update => "update",
        }
    }
}

/// What a write does.
#[derive(Clone, Copy, Debug, PartialEq, Eq, Structural)]
pub enum UpsertAction {
    /// Nothing.
    Keep,
    /// The current version stays; its metadata is replaced, or the entry is brought
    /// back, or both.
    Amend { metadata: bool, restore: bool },
    /// A version is added.
    Append { entry_id: u128, version: i64, operation: WriteOperation },
}

pub open spec fn version_conflict(path: Seq<char>, expected: int, actual: int) -> ApiErrorV {
    ApiErrorV::Conflict(
        "entry_version_conflict"@,
        "the entry changed since it was read"@,
        object().with("path"@, JsonV::Text(path)).with("expected_version"@, integer(expected)).with(
            "actual_version"@,
            integer(actual),
        ),
    )
}

pub fn entry_version_conflict(path: &str, expected: i64, actual: i64) -> (r: ApiError)
    ensures
        r@ == version_conflict(path@, expected as int, actual as int),
{
    ApiError::conflict(
        "entry_version_conflict",
        "the entry changed since it was read",
        Json::object().with("path", Json::text(path)).with(
            "expected_version",
            Json::integer(expected),
        ).with("actual_version", Json::integer(actual)),
    )
}

/// The version an entry has: none is version zero.
pub open spec fn version_of(existing: Option<ExistingEntry>) -> int {
    match existing {
        Some(e) => e.current_version as int,
        None => 0,
    }
}

/// Whether a write meets the version it expects. An entry that was deleted counts
/// as absent as well.
pub open spec fn expected_here(
    expected: Option<i64>,
    existing: Option<ExistingEntry>,
) -> bool {
    match expected {
        None => true,
        Some(e) => e == version_of(existing) || (existing matches Some(row) && row.deleted && e
            == 0),
    }
}

/// Whether an import would change the metadata of the current version.
pub open spec fn amends_metadata(proposed: JsonV, current: JsonV) -> bool {
    (proposed.get("_brunn_import"@) is Some || proposed.get("portable"@) is Some) && !alike(
        current,
        proposed,
    )
}

/// What a write does to the entry that is there. Equal content is no new version,
/// unless it is asked for; a checkpoint never changes; and a write that expects
/// another version is refused.
pub open spec fn decided(
    p: PreparedMarkdown,
    existing: Option<ExistingEntry>,
    new_id: u128,
) -> Result<UpsertAction, ApiErrorV> {
    let matching = existing matches Some(row) && row.content_sha256@ == p.content_sha256@;
    let deleted = existing matches Some(row) && row.deleted;
    let exact = exact_action(
        p.tier_a_history_stage,
        match existing {
            Some(row) => Some(row.current_version),
            None => None,
        },
        matching,
        deleted,
        match existing {
            Some(row) => Some(row.metadata@),
            None => None,
        },
        p.metadata@,
    );
    if existing matches Some(row) && row.kind@ != "markdown"@ {
        Err(
            ApiErrorV::Conflict(
                "entry_kind_conflict"@,
                "a binary entry already uses this Markdown path"@,
                object().with("path"@, JsonV::Text(p.path@)),
            ),
        )
    } else if exact is Err {
        Err(exact->Err_0)
    } else if exact->Ok_0 == TierAExactHistoryAction::Idempotent {
        Ok(UpsertAction::Keep)
    } else if existing is Some && checkpoint_of_path(p.path@) is Some {
        if matching && !deleted {
            Ok(UpsertAction::Keep)
        } else {
            Err(
                ApiErrorV::Conflict(
                    "checkpoint_immutable"@,
                    "checkpoint entries are immutable; create a new checkpoint instead"@,
                    object().with("path"@, JsonV::Text(p.path@)),
                ),
            )
        }
    } else if matching && exact->Ok_0 != TierAExactHistoryAction::Append && !p.force_new_version {
        let metadata = amends_metadata(p.metadata@, existing->0.metadata@);
        if deleted || metadata {
            Ok(UpsertAction::Amend { metadata, restore: deleted })
        } else {
            Ok(UpsertAction::Keep)
        }
    } else if !expected_here(p.expected_version, existing) {
        Err(version_conflict(p.path@, p.expected_version->0 as int, version_of(existing)))
    } else {
        Ok(
            match existing {
                Some(row) => UpsertAction::Append {
                    entry_id: row.id,
                    version: (row.current_version + 1) as i64,
                    operation: WriteOperation::Update,
                },
                None => UpsertAction::Append {
                    entry_id: new_id,
                    version: 1,
                    operation: WriteOperation::Create,
                },
            },
        )
    }
}

/// What a write does to the entry that is there, `new_id` being the identity of a
/// new entry.
pub fn decide_upsert(
    prepared: &PreparedMarkdown,
    existing: &Option<ExistingEntry>,
    new_id: u128,
) -> (r: Result<UpsertAction, ApiError>)
    requires
        version_of(*existing) < i64::MAX,
    ensures
        outcome(r) == decided(*prepared, *existing, new_id),
{
    let row = match existing {
        Some(row) => row,
        None => {
            match tier_a_exact_history_action(
                prepared.tier_a_history_stage,
                None,
                false,
                false,
                None,
                &prepared.metadata,
            ) {
                Ok(_) => {},
                Err(e) => {
                    return Err(e);
                },
            }
            match prepared.expected_version {
                Some(expected) => {
                    if expected != 0 {
                        return Err(entry_version_conflict(prepared.path.as_str(), expected, 0));
                    }
                },
                None => {},
            }
            return Ok(
                UpsertAction::Append {
                    entry_id: new_id,
                    version: 1,
                    operation: WriteOperation::Create,
                },
            );
        },
    };
    if !same(row.kind.as_str(), "markdown") {
        return Err(
            ApiError::conflict(
                "entry_kind_conflict",
                "a binary entry already uses this Markdown path",
                Json::object().with("path", Json::text(prepared.path.as_str())),
            ),
        );
    }
    let matching = same(row.content_sha256.as_str(), prepared.content_sha256.as_str());
    let exact = match tier_a_exact_history_action(
        prepared.tier_a_history_stage,
        Some(row.current_version),
        matching,
        row.deleted,
        Some(&row.metadata),
        &prepared.metadata,
    ) {
        Ok(exact) => exact,
        Err(e) => {
            return Err(e);
        },
    };
    if exact == TierAExactHistoryAction::Idempotent {
        return Ok(UpsertAction::Keep);
    }
    if is_checkpoint_path(prepared.path.as_str()) {
        if matching && !row.deleted {
            return Ok(UpsertAction::Keep);
        }
        return Err(
            ApiError::conflict(
                "checkpoint_immutable",
                "checkpoint entries are immutable; create a new checkpoint instead",
                Json::object().with("path", Json::text(prepared.path.as_str())),
            ),
        );
    }
    if matching && exact != TierAExactHistoryAction::Append && !prepared.force_new_version {
        let metadata = (prepared.metadata.get("_brunn_import").is_some() || prepared.metadata.get(
            "portable",
        ).is_some()) && !row.metadata.same(&prepared.metadata);
        if row.deleted || metadata {
            return Ok(UpsertAction::Amend { metadata, restore: row.deleted });
        }
        return Ok(UpsertAction::Keep);
    }
    match prepared.expected_version {
        Some(expected) => {
            if row.current_version != expected && !(row.deleted && expected == 0) {
                return Err(
                    entry_version_conflict(
                        prepared.path.as_str(),
                        expected,
                        row.current_version,
                    ),
                );
            }
        },
        None => {},
    }
    Ok(
        UpsertAction::Append {
            entry_id: row.id,
            version: row.current_version + 1,
            operation: WriteOperation::Update,
        },
    )
}

/// What became of a write.
#[derive(Clone, Copy, Debug, PartialEq, Eq, Structural)]
pub struct MarkdownUpsertResult {
    pub entry_id: u128,
    pub version: i64,
    pub version_id: Option<u128>,
    pub generation: Option<i64>,
    pub no_op: bool,
    pub metadata_only: bool,
}

/// What became of a write.
pub open spec fn result_of(
    action: UpsertAction,
    existing: Option<ExistingEntry>,
    new_version_id: u128,
    generation: Option<i64>,
) -> MarkdownUpsertResult {
    match action {
        UpsertAction::Keep => MarkdownUpsertResult {
            entry_id: existing->0.id,
            version: existing->0.current_version,
            version_id: Some(existing->0.version_id),
            generation: None,
            no_op: true,
            metadata_only: false,
        },
        UpsertAction::Amend { metadata, restore } => MarkdownUpsertResult {
            entry_id: existing->0.id,
            version: existing->0.current_version,
            version_id: Some(existing->0.version_id),
            generation,
            no_op: false,
            metadata_only: metadata,
        },
        UpsertAction::Append { entry_id, version, operation } => MarkdownUpsertResult {
            entry_id,
            version,
            version_id: Some(new_version_id),
            generation,
            no_op: false,
            metadata_only: false,
        },
    }
}

/// What became of a write. `new_version_id` and `generation` are those of the
/// version and of the change that were written, where any were.
pub fn upsert_result(
    action: UpsertAction,
    existing: &Option<ExistingEntry>,
    new_version_id: u128,
    generation: Option<i64>,
) -> (r: MarkdownUpsertResult)
    requires
        !(action is Append) ==> existing is Some,
    ensures
        r == result_of(action, *existing, new_version_id, generation),
{
    match (action, existing) {
        (UpsertAction::Append { entry_id, version, operation: _ }, _) => MarkdownUpsertResult {
            entry_id,
            version,
            version_id: Some(new_version_id),
            generation,
            no_op: false,
            metadata_only: false,
        },
        (UpsertAction::Keep, Some(row)) => MarkdownUpsertResult {
            entry_id: row.id,
            version: row.current_version,
            version_id: Some(row.version_id),
            generation: None,
            no_op: true,
            metadata_only: false,
        },
        (UpsertAction::Amend { metadata, restore: _ }, Some(row)) => MarkdownUpsertResult {
            entry_id: row.id,
            version: row.current_version,
            version_id: Some(row.version_id),
            generation,
            no_op: false,
            metadata_only: metadata,
        },
        (_, None) => MarkdownUpsertResult {
            entry_id: 0,
            version: 0,
            version_id: None,
            generation: None,
            no_op: true,
            metadata_only: false,
        },
    }
}

/// The metadata that the current version has after a write, `generation` being that
/// of the change.
pub open spec fn metadata_after(
    p: PreparedMarkdown,
    existing: Option<ExistingEntry>,
    action: UpsertAction,
    generation: int,
) -> JsonV {
    match action {
        UpsertAction::Keep => existing->0.metadata@,
        UpsertAction::Amend { metadata, restore } => if metadata {
            p.metadata@
        } else {
            existing->0.metadata@
        },
        UpsertAction::Append { entry_id, version, operation } => if imports_checkpoint(
            p.path@,
            p.metadata@,
        ) {
            rebased(p.metadata@, generation)
        } else {
            p.metadata@
        },
    }
}

/// The metadata that the current version has after a write.
pub fn upserted_metadata(
    prepared: &PreparedMarkdown,
    existing: &Option<ExistingEntry>,
    action: UpsertAction,
    generation: i64,
) -> (r: Json)
    requires
        !(action is Append) ==> existing is Some,
        prepared.metadata@ is Object,
    ensures
        r@ == metadata_after(*prepared, *existing, action, generation as int),
{
    let current = match existing {
        Some(row) => row.metadata.copy(),
        None => Json::Null,
    };
    match action {
        UpsertAction::Keep => current,
        UpsertAction::Amend { metadata, restore: _ } => if metadata {
            prepared.metadata.copy()
        } else {
            current
        },
        UpsertAction::Append { .. } => if is_portable_checkpoint_import(
            prepared.path.as_str(),
            &prepared.metadata,
        ) {
            rebase_imported_checkpoint_metadata(prepared.metadata.copy(), generation)
        } else {
            prepared.metadata.copy()
        },
    }
}

/// Whether a document has a chunk that waits for its vector.
pub open spec fn awaits_vectors(embedded: Seq<bool>) -> bool {
    exists|i: int| 0 <= i < embedded.len() && !#[trigger] embedded[i]
}

/// Whether the chunks of a document are written.
pub open spec fn writes_chunks(action: UpsertAction) -> bool {
    match action {
        UpsertAction::Keep => false,
        UpsertAction::Amend { metadata, restore } => restore,
        UpsertAction::Append { .. } => true,
    }
}

/// Whether the vectors of a document are to be computed after a write: where its
/// chunks were written and some wait for a vector.
pub fn queues_embedding(prepared: &PreparedMarkdown, action: UpsertAction) -> (r: bool)
    ensures
        r == (awaits_vectors(prepared.embedded@) && writes_chunks(action)),
{
    let written = match action {
        UpsertAction::Keep => false,
        UpsertAction::Amend { metadata: _, restore } => restore,
        UpsertAction::Append { .. } => true,
    };
    if !written {
        return false;
    }
    let mut i: usize = 0;
    while i < prepared.embedded.len()
        invariant
            i <= prepared.embedded@.len(),
            action is Append || (action is Amend && action->restore),
            forall|k: int| 0 <= k < i ==> #[trigger] prepared.embedded@[k],
        decreases prepared.embedded@.len() - i,
    {
        if !prepared.embedded[i] {
            return true;
        }
        i = i + 1;
    }
    false
}

// ---------------------------------------------------------------------------
// Laws of writing
// ---------------------------------------------------------------------------

/// The entry as it is after a write that added a version.
pub open spec fn entry_after(
    p: PreparedMarkdown,
    existing: Option<ExistingEntry>,
    action: UpsertAction,
    generation: int,
    row: ExistingEntry,
) -> bool {
    &&& action matches UpsertAction::Append { entry_id, version, operation }
    &&& row.id == entry_id
    &&& row.kind@ == "markdown"@
    &&& row.current_version == version
    &&& !row.deleted
    &&& row.content_sha256@ == p.content_sha256@
    &&& row.metadata@ == metadata_after(p, existing, action, generation)
}

/// Writing again what was just written changes nothing, whatever version it
/// expects, unless every write of the document is to make a version.
pub proof fn lemma_repeated_write_is_kept(
    p: PreparedMarkdown,
    existing: Option<ExistingEntry>,
    new_id: u128,
    generation: int,
    row: ExistingEntry,
    next_id: u128,
)
    requires
        p.wf(),
        !p.force_new_version,
        version_of(existing) < i64::MAX,
        decided(p, existing, new_id) matches Ok(UpsertAction::Append { .. }),
        entry_after(p, existing, decided(p, existing, new_id)->Ok_0, generation, row),
    ensures
        decided(p, Some(row), next_id) == Ok::<UpsertAction, ApiErrorV>(UpsertAction::Keep),
{
    if !(checkpoint_of_path(p.path@) is Some) {
        assert(!imports_checkpoint(p.path@, p.metadata@));
        assert(row.metadata@ == p.metadata@);
    }
    let exact = exact_action(
        p.tier_a_history_stage,
        Some(row.current_version),
        true,
        false,
        Some(row.metadata@),
        p.metadata@,
    );
    match p.tier_a_history_stage {
        Some(stage) => {
            if stage.semantics
                == crate::history::TierAHistorySemantics::PreserveIntentionalExactBytesVersion {
                assert(existing is Some);
                if checkpoint_of_path(p.path@) is Some {
                    assert(decided(p, existing, new_id) == Ok::<UpsertAction, ApiErrorV>(
                        UpsertAction::Keep,
                    ) || decided(p, existing, new_id) is Err);
                }
                assert(stage_of(p.metadata@)->Ok_0 == p.tier_a_history_stage);
                assert(exact == Ok::<TierAExactHistoryAction, ApiErrorV>(
                    TierAExactHistoryAction::Idempotent,
                ));
            }
        },
        None => {},
    }
}

/// A write that is to make a version makes one wherever it is accepted, even where
/// the content is unchanged; only checkpoints and steps of a history go by rules of
/// their own.
pub proof fn lemma_forced_writes_make_versions(
    p: PreparedMarkdown,
    existing: Option<ExistingEntry>,
    new_id: u128,
)
    requires
        p.force_new_version,
        p.tier_a_history_stage is None,
        checkpoint_of_path(p.path@) is None,
    ensures
        decided(p, existing, new_id) is Ok ==> decided(p, existing, new_id)->Ok_0 is Append,
        decided(p, existing, new_id) is Ok <==> expected_here(p.expected_version, existing) && (
        existing matches Some(row) ==> row.kind@ == "markdown"@),
{
}

/// A checkpoint that is there is never changed: a write either finds it as it is or
/// is refused.
pub proof fn lemma_checkpoints_are_immutable(
    p: PreparedMarkdown,
    row: ExistingEntry,
    new_id: u128,
)
    requires
        checkpoint_of_path(p.path@) is Some,
    ensures
        match decided(p, Some(row), new_id) {
            Ok(action) => action == UpsertAction::Keep && !row.deleted && row.content_sha256@
                == p.content_sha256@,
            Err(_) => true,
        },
{
}

/// A version that is added is the next one, and the one that the write expects to
/// follow, unless it brings back a deleted entry.
pub proof fn lemma_versions_follow(
    p: PreparedMarkdown,
    existing: Option<ExistingEntry>,
    new_id: u128,
)
    requires
        version_of(existing) < i64::MAX,
        decided(p, existing, new_id) matches Ok(UpsertAction::Append { .. }),
    ensures
        decided(p, existing, new_id)->Ok_0->version == version_of(existing) + 1,
        p.expected_version matches Some(e) ==> decided(p, existing, new_id)->Ok_0->version == e + 1
            || (existing matches Some(row) && row.deleted && e == 0),
        existing matches Some(row) ==> decided(p, existing, new_id)->Ok_0->entry_id == row.id,
{
}

/// A step of a history that keeps the content makes exactly the version it targets,
/// or finds it there; it never amends one.
pub proof fn lemma_exact_history_makes_its_target(
    p: PreparedMarkdown,
    existing: Option<ExistingEntry>,
    new_id: u128,
)
    requires
        p.tier_a_history_stage is Some,
        p.tier_a_history_stage->0.semantics
            == crate::history::TierAHistorySemantics::PreserveIntentionalExactBytesVersion,
        version_of(existing) < i64::MAX,
        decided(p, existing, new_id) is Ok,
    ensures
        match decided(p, existing, new_id)->Ok_0 {
            UpsertAction::Keep => true,
            UpsertAction::Amend { .. } => false,
            UpsertAction::Append { entry_id, version, operation } => version
                == p.tier_a_history_stage->0.target_lineage_ordinal,
        },
{
}

// ---------------------------------------------------------------------------
// Receipts
// ---------------------------------------------------------------------------

pub open spec fn version_ref_text(id: u128) -> Seq<char> {
    "entry-version:"@ + uuid_text(id)
}

/// The reference of a version.
pub fn version_ref(id: u128) -> (r: String)
    ensures
        r@ == version_ref_text(id),
{
    cat("entry-version:", uuid_format(id).as_str())
}

pub open spec fn optional_version_ref(id: Option<u128>) -> JsonV {
    match id {
        Some(id) => JsonV::Text(version_ref_text(id)),
        None => JsonV::Null,
    }
}

/// What every receipt of a write says first.
pub open spec fn receipt_head(
    result: MarkdownUpsertResult,
    path: Seq<char>,
    sha256: Seq<char>,
    generation: int,
) -> JsonV {
    object().with("entry_ref"@, JsonV::Text(entry_ref_text(result.entry_id))).with(
        "version_ref"@,
        optional_version_ref(result.version_id),
    ).with("path"@, JsonV::Text(path)).with("version"@, integer(result.version as int)).with(
        "content_hash"@,
        JsonV::Text(hash_text(sha256)),
    ).with("workspace_generation"@, integer(generation))
}

fn write_receipt_head(
    result: &MarkdownUpsertResult,
    path: &str,
    sha256: &str,
    generation: i64,
) -> (r: Json)
    ensures
        r@ == receipt_head(*result, path@, sha256@, generation as int),
{
    let version = match result.version_id {
        Some(id) => Json::Text(version_ref(id)),
        None => Json::Null,
    };
    Json::object().with("entry_ref", Json::Text(entry_ref(result.entry_id))).with(
        "version_ref",
        version,
    ).with("path", Json::text(path)).with("version", Json::integer(result.version)).with(
        "content_hash",
        Json::Text(cat("sha256:", sha256)),
    ).with("workspace_generation", Json::integer(generation))
}

/// The receipt of a write.
pub open spec fn markdown_receipt_of(
    result: MarkdownUpsertResult,
    path: Seq<char>,
    sha256: Seq<char>,
    generation: int,
    warnings: Seq<JsonV>,
) -> JsonV {
    let receipt = receipt_head(result, path, sha256, generation).with(
        "search_status"@,
        JsonV::Text(
            if result.no_op {
                "unchanged"@
            } else if result.metadata_only {
                "content_unchanged"@
            } else {
                "lexical_ready_semantic_queued"@
            },
        ),
    ).with("metadata_only"@, JsonV::Bool(result.metadata_only)).with(
        "no_op"@,
        JsonV::Bool(result.no_op),
    );
    if warnings.len() == 0 {
        receipt
    } else {
        receipt.with("supersession_warnings"@, JsonV::Array(warnings))
    }
}

/// The receipt of a write, with what there is to warn of.
pub fn markdown_receipt(
    result: &MarkdownUpsertResult,
    path: &str,
    sha256: &str,
    generation: i64,
    warnings: Vec<Json>,
) -> (r: Json)
    ensures
        r@ == markdown_receipt_of(
            *result,
            path@,
            sha256@,
            generation as int,
            items_view(warnings@),
        ),
{
    let status = if result.no_op {
        "unchanged"
    } else if result.metadata_only {
        "content_unchanged"
    } else {
        "lexical_ready_semantic_queued"
    };
    let receipt = write_receipt_head(result, path, sha256, generation).with(
        "search_status",
        Json::text(status),
    ).with("metadata_only", Json::Bool(result.metadata_only)).with(
        "no_op",
        Json::Bool(result.no_op),
    );
    if warnings.len() == 0 {
        receipt
    } else {
        receipt.with("supersession_warnings", Json::array(warnings))
    }
}

/// The receipt of a write by a worker.
pub fn worker_receipt(
    result: &MarkdownUpsertResult,
    path: &str,
    sha256: &str,
    generation: i64,
) -> (r: Json)
    ensures
        r@ == receipt_head(*result, path@, sha256@, generation as int).with(
            "metadata_only"@,
            JsonV::Bool(result.metadata_only),
        ).with("no_op"@, JsonV::Bool(result.no_op)),
{
    write_receipt_head(result, path, sha256, generation).with(
        "metadata_only",
        Json::Bool(result.metadata_only),
    ).with("no_op", Json::Bool(result.no_op))
}

/// Whether a worker still writes: its guard entry, where it has one, must be in the
/// version the worker has seen. `current` is the version of the guard entry.
pub fn guard_holds(guard: Option<(u128, i64)>, current: Option<i64>) -> (r: bool)
    ensures
        r == match guard {
            Some((id, version)) => current == Some(version),
            None => true,
        },
{
    match guard {
        Some((_, version)) => match current {
            Some(current) => current == version,
            None => false,
        },
        None => true,
    }
}

/// Under what the entry of a path is locked while it is written.
pub open spec fn entry_lock_text(user: u128, path: Seq<char>) -> Seq<char> {
    "simple-entry:"@ + uuid_text(user) + (":"@ + path_key(path))
}

/// Under what the entry of a path is locked while it is written. Paths with the
/// same key share the lock.
pub fn entry_lock(user: u128, path: &str) -> (r: String)
    ensures
        r@ == entry_lock_text(user, path@),
{
    cat3(
        "simple-entry:",
        uuid_format(user).as_str(),
        cat(":", portable_path_key(path).as_str()).as_str(),
    )
}

// ---------------------------------------------------------------------------
// Captures
// ---------------------------------------------------------------------------

/// Where a capture is kept: with an idempotency key always at the same place,
/// without one under the date and an identity of its own.
pub open spec fn capture_path(
    user: u128,
    key: Option<Seq<char>>,
    date: Seq<char>,
    id: u128,
) -> Seq<char> {
    match key {
        Some(key) => "Inbox/Captures/Stable/"@ + text_digest(uuid_text(user) + "\0"@ + key)
            + ".md"@,
        None => "Inbox/Captures/"@ + date + ("/"@ + uuid_text(id) + ".md"@),
    }
}

/// What a capture says.
pub open spec fn capture_text(content: Seq<char>, source: Seq<char>) -> Seq<char> {
    "# Captured context\n\n"@ + trimmed(content) + ("\n\n## Source\n\n```json\n"@ + source
        + "\n```\n"@)
}

/// Why a capture is not kept that is made at a point in time.
pub open spec fn capture_refusal(request: CaptureRequest, now: i64) -> Option<ApiErrorV> {
    if trimmed(request.content@).len() == 0 {
        Some(ApiErrorV::Invalid("capture content is required"@))
    } else if request.idempotency_key is Some && !printable(
        request.idempotency_key->0@,
        MAX_KEY_BYTES as int,
    ) {
        Some(ApiErrorV::Invalid("idempotency_key must contain 1 to 256 printable characters"@))
    } else if request.idempotency_key is None && day_text(now) is None {
        Some(ApiErrorV::Internal("the time of a capture is out of range"@))
    } else {
        None
    }
}

/// The write that keeps a capture. `now` is when it is made, in microseconds since the
/// epoch, and `id` the identity of a capture without a key.
pub fn capture_write(user: u128, request: CaptureRequest, now: i64, id: u128) -> (r: Result<
    WriteRequest,
    ApiError,
>)
    ensures
        refusal(r) == capture_refusal(request, now),
        r matches Ok(w) ==> {
            &&& w.path@ == capture_path(
                user,
                option_view(request.idempotency_key),
                day_text(now)->0,
                id,
            )
            &&& w.content@ == capture_text(request.content@, pretty_text(request.source@))
            &&& w.media_type@ == "text/markdown"@
            &&& w.expected_version == if request.idempotency_key is Some {
                Some(0i64)
            } else {
                None
            }
            &&& w.idempotency_key == request.idempotency_key
            &&& w.metadata@ == object().with("kind"@, JsonV::Text("capture"@)).with(
                "intent"@,
                optional_text(option_view(request.intent)),
            )
        },
{
    let content = trim(request.content.as_str());
    if content.as_str().unicode_len() == 0 {
        return Err(ApiError::invalid("capture content is required"));
    }
    let path = match &request.idempotency_key {
        Some(key) => {
            match validate_idempotency_key(key.as_str()) {
                Ok(_) => {},
                Err(e) => {
                    return Err(e);
                },
            }
            let digest = sha256_hex(
                cat3(uuid_format(user).as_str(), "\0", key.as_str()).as_str(),
            );
            cat3("Inbox/Captures/Stable/", digest.as_str(), ".md")
        },
        None => {
            let date = match day(now) {
                Some(date) => date,
                None => {
                    return Err(ApiError::internal("the time of a capture is out of range"));
                },
            };
            cat3(
                "Inbox/Captures/",
                date.as_str(),
                cat3("/", uuid_format(id).as_str(), ".md").as_str(),
            )
        },
    };
    let source = pretty_json(&request.source);
    let text = cat3(
        "# Captured context\n\n",
        content.as_str(),
        cat3("\n\n## Source\n\n```json\n", source.as_str(), "\n```\n").as_str(),
    );
    let expected_version: Option<i64> = if request.idempotency_key.is_some() {
        Some(0)
    } else {
        None
    };
    let metadata = Json::object().with("kind", Json::text("capture")).with(
        "intent",
        Json::optional_text(&request.intent),
    );
    Ok(
        WriteRequest {
            path,
            content: text,
            media_type: markdown_media_type(),
            expected_version,
            idempotency_key: request.idempotency_key,
            metadata,
        },
    )
}

/// A capture with an idempotency key is kept at the same place whenever it is made.
pub proof fn lemma_capture_is_stable(
    user: u128,
    key: Seq<char>,
    first_date: Seq<char>,
    first_id: u128,
    second_date: Seq<char>,
    second_id: u128,
)
    ensures
        capture_path(user, Some(key), first_date, first_id) == capture_path(
            user,
            Some(key),
            second_date,
            second_id,
        ),
{
}

// ---------------------------------------------------------------------------
// Deletion
// ---------------------------------------------------------------------------

/// The entry that is to be deleted.
pub fn delete_target(reference: &str) -> (r: Result<u128, ApiError>)
    ensures
        match r {
            Ok(id) => uuid_value(unprefixed(reference@, "entry:"@)) == Some(id),
            Err(e) => uuid_value(unprefixed(reference@, "entry:"@)) is None && e@
                == ApiErrorV::Invalid("delete requires an entry:<uuid> reference"@),
        },
{
    let id = without_prefix(reference, "entry:");
    match uuid_parse(id.as_str()) {
        Some(id) => Ok(id),
        None => Err(ApiError::invalid("delete requires an entry:<uuid> reference")),
    }
}

/// An entry that is to be deleted, in its current version.
#[derive(Debug)]
pub struct DeletableEntry {
    pub path: String,
    pub kind: String,
    pub current_version: i64,
    pub deleted: bool,
    pub metadata: Json,
}

/// What a deletion does.
#[derive(Debug)]
pub enum DeleteAction {
    /// The entry is gone already.
    Keep,
    /// The entry goes, and with it the description under this path, where there is
    /// one.
    Remove { companion_path: Option<String> },
}

/// Why an entry is not deleted.
pub open spec fn delete_refusal(
    id: u128,
    row: DeletableEntry,
    expected: Option<i64>,
) -> Option<ApiErrorV> {
    if !safe_path(row.path@) {
        Some(ApiErrorV::Invalid("path must be a safe relative workspace path"@))
    } else if managed(row.path@) {
        Some(ApiErrorV::Invalid("the .brunn namespace is reserved for workspace-managed entries"@))
    } else if expected is Some && expected->0 != row.current_version {
        Some(
            ApiErrorV::Conflict(
                "entry_version_conflict"@,
                "the entry changed since it was read"@,
                object().with("entry_ref"@, JsonV::Text(entry_ref_text(id))).with(
                    "expected_version"@,
                    integer(expected->0 as int),
                ).with("actual_version"@, integer(row.current_version as int)),
            ),
        )
    } else {
        None
    }
}

/// The path of the description that a file takes along when it is deleted.
pub open spec fn taken_along(row: DeletableEntry) -> Option<Seq<char>> {
    if row.kind@ == "binary"@ {
        row.metadata@.get_text("companion_path"@)
    } else {
        None
    }
}

/// What a deletion does: a file takes its description along.
pub fn decide_delete(id: u128, row: &DeletableEntry, expected_version: Option<i64>) -> (r: Result<
    DeleteAction,
    ApiError,
>)
    ensures
        refusal(r) == delete_refusal(id, *row, expected_version),
        match r {
            Ok(DeleteAction::Keep) => row.deleted,
            Ok(DeleteAction::Remove { companion_path }) => !row.deleted && option_view(
                companion_path,
            ) == taken_along(*row),
            Err(_) => true,
        },
{
    match validate_public_path(row.path.as_str()) {
        Ok(_) => {},
        Err(e) => {
            return Err(e);
        },
    }
    match expected_version {
        Some(expected) => {
            if expected != row.current_version {
                return Err(
                    ApiError::conflict(
                        "entry_version_conflict",
                        "the entry changed since it was read",
                        Json::object().with("entry_ref", Json::Text(entry_ref(id))).with(
                            "expected_version",
                            Json::integer(expected),
                        ).with("actual_version", Json::integer(row.current_version)),
                    ),
                );
            }
        },
        None => {},
    }
    if row.deleted {
        return Ok(DeleteAction::Keep);
    }
    let companion_path: Option<String> = if same(row.kind.as_str(), "binary") {
        match row.metadata.get_text("companion_path") {
            Some(path) => Some(path.clone()),
            None => None,
        }
    } else {
        None
    };
    Ok(DeleteAction::Remove { companion_path })
}

/// The reply to a deletion: `generation` is that of the last change, where there was
/// one.
pub open spec fn delete_reply_of(
    id: u128,
    path: Seq<char>,
    version: int,
    generation: Option<i64>,
) -> ReplyV {
    let base = object().with("entry_ref"@, JsonV::Text(entry_ref_text(id))).with(
        "path"@,
        JsonV::Text(path),
    ).with("version"@, integer(version));
    match generation {
        Some(g) => ReplyV {
            session_id: None,
            corpus_revision: Some(revision_text(g as int)),
            status: ResponseStatus::Committed,
            data: base.with("workspace_generation"@, integer(g as int)).with(
                "no_op"@,
                JsonV::Bool(false),
            ),
            gaps: Seq::empty(),
        },
        None => ReplyV {
            session_id: None,
            corpus_revision: None,
            status: ResponseStatus::NoOp,
            data: base.with("no_op"@, JsonV::Bool(true)),
            gaps: Seq::empty(),
        },
    }
}

/// The reply to a deletion.
pub fn delete_reply(id: u128, path: &str, version: i64, generation: Option<i64>) -> (r: Reply)
    ensures
        r@ == delete_reply_of(id, path@, version as int, generation),
{
    let base = Json::object().with("entry_ref", Json::Text(entry_ref(id))).with(
        "path",
        Json::text(path),
    ).with("version", Json::integer(version));
    let gaps: Vec<Json> = Vec::new();
    assert(items_view(gaps@) =~= Seq::empty());
    match generation {
        Some(g) => Reply {
            session_id: None,
            corpus_revision: Some(revision(g)),
            status: ResponseStatus::Committed,
            data: base.with("workspace_generation", Json::integer(g)).with(
                "no_op",
                Json::Bool(false),
            ),
            gaps,
        },
        None => Reply {
            session_id: None,
            corpus_revision: None,
            status: ResponseStatus::NoOp,
            data: base.with("no_op", Json::Bool(true)),
            gaps,
        },
    }
}

/// Nothing that the workspace manages itself is ever deleted.
pub proof fn lemma_managed_entries_stay(id: u128, row: DeletableEntry, expected: Option<i64>)
    requires
        managed(row.path@),
    ensures
        delete_refusal(id, row, expected) is Some,
{
}

}
