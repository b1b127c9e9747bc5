//! Lists: changes, jobs, files, the manifest and the use of entries, page by page.
use vstd::prelude::*;

#[allow(unused_imports)]
use crate::candidate::option_view;
use crate::envelope::{revision, Reply, ResponseStatus};
#[allow(unused_imports)]
use crate::envelope::{revision_text, ReplyV};
use crate::error::ApiError;
#[allow(unused_imports)]
use crate::error::{refusal, ApiErrorV};
use crate::files::merge_binary_description_metadata;
#[allow(unused_imports)]
use crate::files::{binary_json, described};
use crate::json::Json;
#[allow(unused_imports)]
use crate::json::{integer, items_view, object, optional_integer, optional_text, JsonV};
use crate::outside::{entry_ref, uuid_format};
#[allow(unused_imports)]
use crate::outside::{entry_ref_text, uuid_text};
use crate::paths::entry_id_of_ref;
#[allow(unused_imports)]
use crate::paths::entry_of_ref;
use crate::read::EntryRow;
use crate::render::time_value;
#[allow(unused_imports)]
use crate::render::{hash_text, time_json};
use crate::requests::{
    BinaryListQuery, ChangesQuery, JobsQuery, ManifestQuery, UsageQuery,
};
use crate::text::{cat, same};
use crate::upsert::version_ref;
#[allow(unused_imports)]
use crate::upsert::version_ref_text;

verus! {

/// How many things a page has: as many as were asked for, within limits.
pub open spec fn page_size(asked: Option<usize>, default: int, most: int) -> int {
    match asked {
        Some(n) => if n < 1 {
            1
        } else if n > most {
            most
        } else {
            n as int
        },
        None => default,
    }
}

/// How many things a page has.
pub fn page_limit(asked: Option<usize>, default: u32, most: u32) -> (r: i64)
    requires
        1 <= most,
    ensures
        r == page_size(asked, default as int, most as int),
{
    match asked {
        Some(n) => if n < 1 {
            1
        } else if n as u64 > most as u64 {
            most as i64
        } else {
            n as i64
        },
        None => default as i64,
    }
}

/// How many things come before a page.
pub open spec fn page_start(asked: Option<usize>, most: int) -> int {
    match asked {
        Some(n) => if n > most {
            most
        } else {
            n as int
        },
        None => 0,
    }
}

/// How many things come before a page.
pub fn page_offset(asked: Option<usize>, most: u32) -> (r: i64)
    ensures
        r == page_start(asked, most as int),
{
    match asked {
        Some(n) => if n as u64 > most as u64 {
            most as i64
        } else {
            n as i64
        },
        None => 0,
    }
}

pub open spec fn optional_time(micros: Option<i64>) -> JsonV {
    match micros {
        Some(t) => time_json(t),
        None => JsonV::Null,
    }
}

fn write_time(micros: Option<i64>) -> (r: Json)
    ensures
        r@ == optional_time(micros),
{
    match micros {
        Some(t) => time_value(t),
        None => Json::Null,
    }
}

/// The first things of a list, at most `n` of them.
pub open spec fn first_rows<T>(rows: Seq<T>, n: int) -> Seq<T> {
    if rows.len() > n && n >= 0 {
        rows.take(n)
    } else {
        rows
    }
}

fn complete_reply(data: Json) -> (r: Reply)
    ensures
        r@ == (ReplyV {
            session_id: None,
            corpus_revision: None,
            status: ResponseStatus::Complete,
            data: data@,
            gaps: Seq::empty(),
        }),
{
    let gaps: Vec<Json> = Vec::new();
    assert(items_view(gaps@) =~= Seq::empty());
    Reply {
        session_id: None,
        corpus_revision: None,
        status: ResponseStatus::Complete,
        data,
        gaps,
    }
}

fn reply_at(data: Json, generation: i64) -> (r: Reply)
    ensures
        r@ == (ReplyV {
            session_id: None,
            corpus_revision: Some(revision_text(generation as int)),
            status: ResponseStatus::Complete,
            data: data@,
            gaps: Seq::empty(),
        }),
{
    let gaps: Vec<Json> = Vec::new();
    assert(items_view(gaps@) =~= Seq::empty());
    Reply {
        session_id: None,
        corpus_revision: Some(revision(generation)),
        status: ResponseStatus::Complete,
        data,
        gaps,
    }
}

// ---------------------------------------------------------------------------
// Changes
// ---------------------------------------------------------------------------

/// A change of the workspace.
#[derive(Clone, Debug)]
pub struct ChangeRow {
    pub generation: i64,
    pub operation: String,
    pub path: String,
    pub version: i64,
    pub content_sha256: String,
    pub recorded_at: i64,
}

pub open spec fn change_json(row: ChangeRow) -> JsonV {
    object().with("generation"@, integer(row.generation as int)).with(
        "operation"@,
        JsonV::Text(row.operation@),
    ).with("path"@, JsonV::Text(row.path@)).with("version"@, integer(row.version as int)).with(
        "content_hash"@,
        JsonV::Text(hash_text(row.content_sha256@)),
    ).with("recorded_at"@, time_json(row.recorded_at))
}

fn write_change(row: &ChangeRow) -> (r: Json)
    ensures
        r@ == change_json(*row),
{
    Json::object().with("generation", Json::integer(row.generation)).with(
        "operation",
        Json::text(row.operation.as_str()),
    ).with("path", Json::text(row.path.as_str())).with("version", Json::integer(row.version)).with(
        "content_hash",
        Json::Text(cat("sha256:", row.content_sha256.as_str())),
    ).with("recorded_at", time_value(row.recorded_at))
}

pub open spec fn changes_json(rows: Seq<ChangeRow>) -> Seq<JsonV> {
    Seq::new(rows.len(), |i: int| change_json(rows[i]))
}

/// A page of the changes.
#[derive(Debug)]
pub struct ChangePage {
    pub changes: Vec<Json>,
    pub truncated: bool,
    /// The generation behind which the next page begins, where there is one.
    pub next_generation: Option<i64>,
    pub workspace_generation: Option<i64>,
}

/// The generation behind which the next page of changes begins.
pub open spec fn next_change(rows: Seq<ChangeRow>, limit: int) -> Option<i64> {
    if rows.len() > limit && limit > 0 {
        Some(rows[limit - 1].generation)
    } else {
        None
    }
}

/// A page of the changes, by one change more than it has.
pub fn change_page(
    rows: &Vec<ChangeRow>,
    limit: usize,
    workspace_generation: Option<i64>,
) -> (r: ChangePage)
    ensures
        items_view(r.changes@) == changes_json(first_rows(rows@, limit as int)),
        r.truncated == (rows@.len() > limit),
        r.next_generation == next_change(rows@, limit as int),
        r.workspace_generation == workspace_generation,
{
    let truncated = rows.len() > limit;
    let n: usize = if truncated {
        limit
    } else {
        rows.len()
    };
    let ghost shown = first_rows(rows@, limit as int);
    let mut changes: Vec<Json> = Vec::new();
    let mut i: usize = 0;
    while i < n
        invariant
            i <= n <= rows@.len(),
            shown.len() == n,
            shown == first_rows(rows@, limit as int),
            items_view(changes@) == changes_json(shown).take(i as int),
        decreases n - i,
    {
        let ghost held = changes@;
        let change = write_change(&rows[i]);
        changes.push(change);
        proof {
            assert(shown[i as int] == rows@[i as int]);
            assert(items_view(changes@) =~= items_view(held).push(change@));
            assert(changes_json(shown).take(i + 1) =~= changes_json(shown).take(i as int).push(
                changes_json(shown)[i as int],
            ));
        }
        i = i + 1;
    }
    assert(changes_json(shown).take(n as int) =~= changes_json(shown));
    let next_generation: Option<i64> = if truncated && limit > 0 {
        Some(rows[limit - 1].generation)
    } else {
        None
    };
    ChangePage { changes, truncated, next_generation, workspace_generation }
}

/// Whether changes stand in the order in which they were made.
pub open spec fn in_order(rows: Seq<ChangeRow>) -> bool {
    forall|i: int, j: int|
        0 <= i < j < rows.len() ==> (#[trigger] rows[i]).generation < (
        #[trigger] rows[j]).generation
}

/// Asking again from where a page ended gives exactly the changes that the page did
/// not show.
pub proof fn lemma_pages_of_changes_join(rows: Seq<ChangeRow>, limit: int)
    requires
        in_order(rows),
        0 < limit < rows.len(),
    ensures
        next_change(rows, limit) is Some,
        rows.skip(limit) == rows.filter(|row: ChangeRow| row.generation > next_change(rows, limit)->0),
        first_rows(rows, limit) + rows.skip(limit) == rows,
{
    let next = next_change(rows, limit)->0;
    let later = |row: ChangeRow| row.generation > next;
    assert(first_rows(rows, limit) + rows.skip(limit) =~= rows);
    lemma_filter_behind(rows, limit, rows.len() as int, later);
    assert(rows.take(rows.len() as int) =~= rows);
}

proof fn lemma_filter_behind(
    rows: Seq<ChangeRow>,
    limit: int,
    n: int,
    later: spec_fn(ChangeRow) -> bool,
)
    requires
        in_order(rows),
        0 < limit < rows.len(),
        0 <= n <= rows.len(),
        forall|row: ChangeRow|
            #[trigger] later(row) == (row.generation > rows[limit - 1].generation),
    ensures
        rows.take(n).filter(later) == if n <= limit {
            Seq::<ChangeRow>::empty()
        } else {
            rows.subrange(limit, n)
        },
    decreases n,
{
    if n == 0 {
        crate::seqs::lemma_filter_empty(rows.take(0), later);
    } else {
        lemma_filter_behind(rows, limit, n - 1, later);
        crate::seqs::lemma_filter_take(rows, later, n - 1);
        let row = rows[n - 1];
        if n <= limit {
            assert(!later(row));
        } else {
            assert(later(row));
            assert(rows.subrange(limit, n) =~= (if n - 1 <= limit {
                Seq::<ChangeRow>::empty()
            } else {
                rows.subrange(limit, n - 1)
            }).push(row));
        }
    }
}

/// How many changes a request asks for.
pub fn changes_limit(query: &ChangesQuery) -> (r: i64)
    ensures
        r == page_size(query.limit, 200, 2000),
{
    page_limit(query.limit, 200, 2000)
}

pub open spec fn changes_data(
    since: int,
    generation: int,
    changes: Seq<JsonV>,
    truncated: bool,
    next: Option<i64>,
) -> JsonV {
    object().with("since_generation"@, integer(since)).with(
        "workspace_generation"@,
        integer(generation),
    ).with("changes"@, JsonV::Array(changes)).with("truncated"@, JsonV::Bool(truncated)).with(
        "next_generation"@,
        optional_integer(next),
    )
}

/// The reply to a request for changes.
pub fn changes_reply(since_generation: i64, generation: i64, page: ChangePage) -> (r: Reply)
    ensures
        r@ == (ReplyV {
            session_id: None,
            corpus_revision: Some(revision_text(generation as int)),
            status: ResponseStatus::Complete,
            data: changes_data(
                since_generation as int,
                generation as int,
                items_view(page.changes@),
                page.truncated,
                page.next_generation,
            ),
            gaps: Seq::empty(),
        }),
{
    reply_at(
        Json::object().with("since_generation", Json::integer(since_generation)).with(
            "workspace_generation",
            Json::integer(generation),
        ).with("changes", Json::array(page.changes)).with(
            "truncated",
            Json::Bool(page.truncated),
        ).with("next_generation", Json::optional_integer(page.next_generation)),
        generation,
    )
}

// ---------------------------------------------------------------------------
// Jobs
// ---------------------------------------------------------------------------

/// Work that is done in the background.
#[derive(Debug)]
pub struct JobRow {
    pub id: u128,
    pub kind: String,
    pub status: String,
    pub payload: Json,
    pub watermark: Option<i64>,
    pub attempts: i32,
    pub available_at: i64,
    pub started_at: Option<i64>,
    pub finished_at: Option<i64>,
    pub last_error: Option<String>,
    pub created_at: i64,
}

pub open spec fn job_json(row: JobRow) -> JsonV {
    object().with("job_ref"@, JsonV::Text("job:"@ + uuid_text(row.id))).with(
        "kind"@,
        JsonV::Text(row.kind@),
    ).with("status"@, JsonV::Text(row.status@)).with("payload"@, row.payload@).with(
        "watermark"@,
        optional_integer(row.watermark),
    ).with("attempts"@, integer(row.attempts as int)).with(
        "available_at"@,
        time_json(row.available_at),
    ).with("started_at"@, optional_time(row.started_at)).with(
        "finished_at"@,
        optional_time(row.finished_at),
    ).with("last_error"@, optional_text(option_view(row.last_error))).with(
        "created_at"@,
        time_json(row.created_at),
    )
}

fn write_job(row: &JobRow) -> (r: Json)
    ensures
        r@ == job_json(*row),
{
    Json::object().with("job_ref", Json::Text(cat("job:", uuid_format(row.id).as_str()))).with(
        "kind",
        Json::text(row.kind.as_str()),
    ).with("status", Json::text(row.status.as_str())).with("payload", row.payload.copy()).with(
        "watermark",
        Json::optional_integer(row.watermark),
    ).with("attempts", Json::integer(row.attempts as i64)).with(
        "available_at",
        time_value(row.available_at),
    ).with("started_at", write_time(row.started_at)).with(
        "finished_at",
        write_time(row.finished_at),
    ).with("last_error", Json::optional_text(&row.last_error)).with(
        "created_at",
        time_value(row.created_at),
    )
}

/// What page of the jobs is asked for: how many of them, and how many come before.
pub fn jobs_page(query: &JobsQuery) -> (r: Result<(i64, i64), ApiError>)
    ensures
        refusal(r) == match query.status {
            Some(s) => if s@ == "queued"@ || s@ == "running"@ || s@ == "complete"@ || s@
                == "failed"@ {
                None
            } else {
                Some(ApiErrorV::Invalid("unsupported job status"@))
            },
            None => None,
        },
        r is Ok ==> r->Ok_0.0 == page_size(query.limit, 100, 500) && r->Ok_0.1 == page_start(
            query.offset,
            100_000,
        ),
{
    match &query.status {
        Some(s) => {
            if !(same(s.as_str(), "queued") || same(s.as_str(), "running") || same(
                s.as_str(),
                "complete",
            ) || same(s.as_str(), "failed")) {
                return Err(ApiError::invalid("unsupported job status"));
            }
        },
        None => {},
    }
    Ok((page_limit(query.limit, 100, 500), page_offset(query.offset, 100_000)))
}

pub open spec fn jobs_json(rows: Seq<JobRow>) -> Seq<JsonV> {
    Seq::new(rows.len(), |i: int| job_json(rows[i]))
}

pub open spec fn jobs_data(rows: Seq<JobRow>, limit: int, offset: int) -> JsonV {
    object().with("jobs"@, JsonV::Array(jobs_json(rows))).with("offset"@, integer(offset)).with(
        "limit"@,
        integer(limit),
    ).with("truncated"@, JsonV::Bool(rows.len() == limit))
}

/// The reply to a request for jobs.
pub fn jobs_reply(rows: &Vec<JobRow>, limit: i64, offset: i64) -> (r: Reply)
    ensures
        r@ == (ReplyV {
            session_id: None,
            corpus_revision: None,
            status: ResponseStatus::Complete,
            data: jobs_data(rows@, limit as int, offset as int),
            gaps: Seq::empty(),
        }),
{
    let mut jobs: Vec<Json> = Vec::new();
    let mut i: usize = 0;
    while i < rows.len()
        invariant
            i <= rows@.len(),
            items_view(jobs@) == jobs_json(rows@).take(i as int),
        decreases rows@.len() - i,
    {
        let ghost held = jobs@;
        let job = write_job(&rows[i]);
        jobs.push(job);
        proof {
            assert(items_view(jobs@) =~= items_view(held).push(job@));
            assert(jobs_json(rows@).take(i + 1) =~= jobs_json(rows@).take(i as int).push(
                jobs_json(rows@)[i as int],
            ));
        }
        i = i + 1;
    }
    assert(jobs_json(rows@).take(i as int) =~= jobs_json(rows@));
    let truncated = limit >= 0 && rows.len() as u64 == limit as u64;
    complete_reply(
        Json::object().with("jobs", Json::array(jobs)).with("offset", Json::integer(offset)).with(
            "limit",
            Json::integer(limit),
        ).with("truncated", Json::Bool(truncated)),
    )
}

// ---------------------------------------------------------------------------
// Files
// ---------------------------------------------------------------------------

/// What page of the files is asked for.
pub fn binaries_page(query: &BinaryListQuery) -> (r: (i64, i64))
    ensures
        r.0 == page_size(query.limit, 100, 500),
        r.1 == page_start(query.offset, 100_000),
{
    (page_limit(query.limit, 100, 500), page_offset(query.offset, 100_000))
}

/// A file with the metadata of its description.
#[derive(Debug)]
pub struct BinaryRow {
    pub entry: EntryRow,
    pub companion_metadata: Option<Json>,
}

pub open spec fn binary_row_json(row: BinaryRow) -> JsonV {
    binary_json(
        row.entry,
        described(
            row.entry.metadata@,
            match row.companion_metadata {
                Some(c) => Some(c@),
                None => None,
            },
        ),
    )
}

fn write_binary(row: &BinaryRow) -> (r: Json)
    ensures
        r@ == binary_row_json(*row),
{
    let companion: Option<Json> = match &row.companion_metadata {
        Some(c) => Some(c.copy()),
        None => None,
    };
    let metadata = merge_binary_description_metadata(row.entry.metadata.copy(), companion);
    let reply = crate::files::binary_metadata_reply(&row.entry, metadata);
    reply.data
}

pub open spec fn binaries_json(rows: Seq<BinaryRow>) -> Seq<JsonV> {
    Seq::new(rows.len(), |i: int| binary_row_json(rows[i]))
}

/// The reply to a request for files.
pub fn binaries_reply(rows: &Vec<BinaryRow>) -> (r: Reply)
    ensures
        r@ == (ReplyV {
            session_id: None,
            corpus_revision: None,
            status: ResponseStatus::Complete,
            data: object().with("binaries"@, JsonV::Array(binaries_json(rows@))),
            gaps: Seq::empty(),
        }),
{
    let mut binaries: Vec<Json> = Vec::new();
    let mut i: usize = 0;
    while i < rows.len()
        invariant
            i <= rows@.len(),
            items_view(binaries@) == binaries_json(rows@).take(i as int),
        decreases rows@.len() - i,
    {
        let ghost held = binaries@;
        let binary = write_binary(&rows[i]);
        binaries.push(binary);
        proof {
            assert(items_view(binaries@) =~= items_view(held).push(binary@));
            assert(binaries_json(rows@).take(i + 1) =~= binaries_json(rows@).take(i as int).push(
                binaries_json(rows@)[i as int],
            ));
        }
        i = i + 1;
    }
    assert(binaries_json(rows@).take(i as int) =~= binaries_json(rows@));
    complete_reply(Json::object().with("binaries", Json::array(binaries)))
}

// ---------------------------------------------------------------------------
// The manifest
// ---------------------------------------------------------------------------

/// Where a page of the manifest begins: behind an entry, or behind one of its
/// versions.
#[derive(Clone, Debug)]
pub struct ManifestCursor {
    pub path: String,
    pub entry_id: u128,
    pub version: Option<i64>,
}

/// Which page of the manifest is asked for.
#[derive(Clone, Debug)]
pub struct ManifestPlan {
    pub limit: i64,
    pub offset: i64,
    pub history: bool,
    pub cursor: Option<ManifestCursor>,
}

/// Why no page of the manifest is given.
pub open spec fn manifest_refusal(query: ManifestQuery) -> Option<ApiErrorV> {
    let cursor = query.after_path is Some || query.after_entry_ref is Some
        || query.after_version is Some;
    if cursor && page_start(query.offset, 10_000_000) > 0 {
        Some(ApiErrorV::Invalid("manifest cursor and offset cannot be used together"@))
    } else if query.after_path is Some != query.after_entry_ref is Some {
        Some(ApiErrorV::Invalid("after_path and after_entry_ref must be provided together"@))
    } else if query.after_entry_ref is Some && entry_of_ref(query.after_entry_ref->0@) is None {
        Some(ApiErrorV::Invalid("after_entry_ref must be an entry:<uuid>"@))
    } else if query.history && (query.after_entry_ref is Some != query.after_version is Some) {
        Some(
            ApiErrorV::Invalid(
                "history cursors require after_path, after_entry_ref, and after_version"@,
            ),
        )
    } else if query.history && query.after_version is Some && query.after_version->0 <= 0 {
        Some(ApiErrorV::Invalid("after_version must be positive"@))
    } else if !query.history && query.after_version is Some {
        Some(ApiErrorV::Invalid("after_version is only valid for history manifests"@))
    } else {
        None
    }
}

/// Whether a query takes up behind an entry, or behind one of its versions, as the
/// cursor of a page says.
pub open spec fn continues_behind(query: ManifestQuery, id: u128) -> bool {
    &&& query.offset is None
    &&& query.after_path is Some
    &&& query.after_entry_ref is Some && query.after_entry_ref->0@ == entry_ref_text(id)
    &&& if query.history {
        query.after_version is Some && query.after_version->0 > 0
    } else {
        query.after_version is None
    }
}

/// Which page of the manifest is asked for. A cursor and an offset exclude each
/// other. The cursor that a page ends with is accepted, and the next page begins
/// behind the entry it names.
pub fn manifest_plan(query: &ManifestQuery) -> (r: Result<ManifestPlan, ApiError>)
    ensures
        refusal(r) == manifest_refusal(*query),
        r matches Ok(plan) ==> {
            &&& plan.limit == page_size(query.limit, 1000, 5000)
            &&& plan.offset == page_start(query.offset, 10_000_000)
            &&& plan.history == query.history
            &&& match plan.cursor {
                None => query.after_path is None && query.after_entry_ref is None,
                Some(cursor) => {
                    &&& query.after_path is Some && query.after_entry_ref is Some
                    &&& cursor.path@ == query.after_path->0@
                    &&& Some(cursor.entry_id) == entry_of_ref(query.after_entry_ref->0@)
                    &&& cursor.version == query.after_version
                    &&& plan.offset == 0
                },
            }
        },
        forall|id: u128| #[trigger]
            continues_behind(*query, id) ==> r is Ok && r->Ok_0.cursor is Some
                && r->Ok_0.cursor->0.entry_id == id,
{
    let limit = page_limit(query.limit, 1000, 5000);
    let offset = page_offset(query.offset, 10_000_000);
    let supplied = query.after_path.is_some() || query.after_entry_ref.is_some()
        || query.after_version.is_some();
    if supplied && offset > 0 {
        return Err(ApiError::invalid("manifest cursor and offset cannot be used together"));
    }
    let cursor: Option<ManifestCursor> = match (&query.after_path, &query.after_entry_ref) {
        (None, None) => None,
        (Some(path), Some(reference)) => match entry_id_of_ref(reference.as_str()) {
            Some(entry_id) => Some(
                ManifestCursor { path: path.clone(), entry_id, version: query.after_version },
            ),
            None => {
                return Err(ApiError::invalid("after_entry_ref must be an entry:<uuid>"));
            },
        },
        _ => {
            return Err(
                ApiError::invalid("after_path and after_entry_ref must be provided together"),
            );
        },
    };
    if query.history {
        if cursor.is_some() != query.after_version.is_some() {
            return Err(
                ApiError::invalid(
                    "history cursors require after_path, after_entry_ref, and after_version",
                ),
            );
        }
        match query.after_version {
            Some(version) => {
                if version <= 0 {
                    return Err(ApiError::invalid("after_version must be positive"));
                }
            },
            None => {},
        }
    } else if query.after_version.is_some() {
        return Err(ApiError::invalid("after_version is only valid for history manifests"));
    }
    Ok(ManifestPlan { limit, offset, history: query.history, cursor })
}

/// A version of an entry in the manifest.
#[derive(Debug)]
pub struct ManifestRow {
    pub id: u128,
    pub path: String,
    pub title: String,
    pub kind: String,
    pub media_type: String,
    pub current_version: i64,
    pub deleted: bool,
    pub version_id: u128,
    pub version: i64,
    pub content_sha256: String,
    pub size_bytes: i64,
    pub metadata: Json,
    pub created_at: i64,
}

pub open spec fn manifest_json(row: ManifestRow) -> JsonV {
    object().with("entry_ref"@, JsonV::Text(entry_ref_text(row.id))).with(
        "path"@,
        JsonV::Text(row.path@),
    ).with("title"@, JsonV::Text(row.title@)).with("kind"@, JsonV::Text(row.kind@)).with(
        "media_type"@,
        JsonV::Text(row.media_type@),
    ).with("version"@, integer(row.version as int)).with(
        "version_ref"@,
        JsonV::Text(version_ref_text(row.version_id)),
    ).with("current"@, JsonV::Bool(row.version == row.current_version)).with(
        "deleted"@,
        JsonV::Bool(row.deleted),
    ).with("content_hash"@, JsonV::Text(hash_text(row.content_sha256@))).with(
        "size_bytes"@,
        integer(row.size_bytes as int),
    ).with("metadata"@, row.metadata@).with("created_at"@, time_json(row.created_at))
}

fn write_manifest_row(row: &ManifestRow) -> (r: Json)
    ensures
        r@ == manifest_json(*row),
{
    Json::object().with("entry_ref", Json::Text(entry_ref(row.id))).with(
        "path",
        Json::text(row.path.as_str()),
    ).with("title", Json::text(row.title.as_str())).with("kind", Json::text(row.kind.as_str())).with(
        "media_type",
        Json::text(row.media_type.as_str()),
    ).with("version", Json::integer(row.version)).with(
        "version_ref",
        Json::Text(version_ref(row.version_id)),
    ).with("current", Json::Bool(row.version == row.current_version)).with(
        "deleted",
        Json::Bool(row.deleted),
    ).with("content_hash", Json::Text(cat("sha256:", row.content_sha256.as_str()))).with(
        "size_bytes",
        Json::integer(row.size_bytes),
    ).with("metadata", row.metadata.copy()).with("created_at", time_value(row.created_at))
}

pub open spec fn manifest_items(rows: Seq<ManifestRow>) -> Seq<JsonV> {
    Seq::new(rows.len(), |i: int| manifest_json(rows[i]))
}

/// Where the page behind a row begins.
pub open spec fn cursor_json(row: ManifestRow, history: bool) -> JsonV {
    let base = object().with("after_path"@, JsonV::Text(row.path@)).with(
        "after_entry_ref"@,
        JsonV::Text(entry_ref_text(row.id)),
    );
    if history {
        base.with("after_version"@, integer(row.version as int))
    } else {
        base
    }
}

/// Where the next page begins; nothing where this is the last one.
pub open spec fn next_page(rows: Seq<ManifestRow>, limit: int, history: bool) -> JsonV {
    if rows.len() > limit && limit > 0 {
        cursor_json(rows[limit - 1], history)
    } else {
        JsonV::Null
    }
}

pub open spec fn manifest_data(
    rows: Seq<ManifestRow>,
    generation: int,
    history: bool,
    offset: int,
    limit: int,
) -> JsonV {
    object().with("workspace_generation"@, integer(generation)).with(
        "entries"@,
        JsonV::Array(manifest_items(first_rows(rows, limit))),
    ).with("history"@, JsonV::Bool(history)).with("offset"@, integer(offset)).with(
        "limit"@,
        integer(limit),
    ).with("truncated"@, JsonV::Bool(rows.len() > limit)).with(
        "next"@,
        next_page(rows, limit, history),
    )
}

/// The reply to a request for the manifest, by one row more than its page has.
pub fn manifest_reply(rows: &Vec<ManifestRow>, generation: i64, plan: &ManifestPlan) -> (r: Reply)
    requires
        1 <= plan.limit <= 5000,
    ensures
        r@ == (ReplyV {
            session_id: None,
            corpus_revision: Some(revision_text(generation as int)),
            status: ResponseStatus::Complete,
            data: manifest_data(
                rows@,
                generation as int,
                plan.history,
                plan.offset as int,
                plan.limit as int,
            ),
            gaps: Seq::empty(),
        }),
{
    let limit: usize = plan.limit as usize;
    let truncated = rows.len() > limit;
    let n: usize = if truncated {
        limit
    } else {
        rows.len()
    };
    let ghost shown = first_rows(rows@, limit as int);
    let mut entries: Vec<Json> = Vec::new();
    let mut i: usize = 0;
    while i < n
        invariant
            i <= n <= rows@.len(),
            shown.len() == n,
            shown == first_rows(rows@, limit as int),
            items_view(entries@) == manifest_items(shown).take(i as int),
        decreases n - i,
    {
        let ghost held = entries@;
        let entry = write_manifest_row(&rows[i]);
        entries.push(entry);
        proof {
            assert(shown[i as int] == rows@[i as int]);
            assert(items_view(entries@) =~= items_view(held).push(entry@));
            assert(manifest_items(shown).take(i + 1) =~= manifest_items(shown).take(i as int).push(
                manifest_items(shown)[i as int],
            ));
        }
        i = i + 1;
    }
    assert(manifest_items(shown).take(n as int) =~= manifest_items(shown));
    let next = if truncated {
        let row = &rows[limit - 1];
        let cursor = Json::object().with("after_path", Json::text(row.path.as_str())).with(
            "after_entry_ref",
            Json::Text(entry_ref(row.id)),
        );
        if plan.history {
            cursor.with("after_version", Json::integer(row.version))
        } else {
            cursor
        }
    } else {
        Json::Null
    };
    reply_at(
        Json::object().with("workspace_generation", Json::integer(generation)).with(
            "entries",
            Json::array(entries),
        ).with("history", Json::Bool(plan.history)).with("offset", Json::integer(plan.offset)).with(
            "limit",
            Json::integer(plan.limit),
        ).with("truncated", Json::Bool(truncated)).with("next", next),
        generation,
    )
}

// ---------------------------------------------------------------------------
// Use
// ---------------------------------------------------------------------------

/// In which order the use of entries is listed.
#[derive(Clone, Copy, Debug, PartialEq, Eq, Structural)]
pub enum UsageSort {
    MostUsed,
    LeastUsed,
    LeastRecentlyUsed,
    MostRecentlyUsed,
}

impl UsageSort {
    pub open spec fn name(self) -> Seq<char> {
        match self {
            UsageSort::MostUsed => "most_used"@,
            UsageSort::LeastUsed => "least_used"@,
            UsageSort::LeastRecentlyUsed => "least_recently_used"@,
            UsageSort::MostRecentlyUsed => "most_recently_used"@,
        }
    }

    pub fn as_str(self) -> (r: &'static str)
        ensures
            r@ == self.name(),
    {
        match self {
            UsageSort::MostUsed => "most_used",
            UsageSort::LeastUsed => "least_used",
            UsageSort::LeastRecentlyUsed => "least_recently_used",
            UsageSort::MostRecentlyUsed => "most_recently_used",
        }
    }
}

/// The order by its name.
pub open spec fn sort_named(name: Option<Seq<char>>) -> Option<UsageSort> {
    match name {
        None => Some(UsageSort::MostUsed),
        Some(n) => if n == "most_used"@ {
            Some(UsageSort::MostUsed)
        } else if n == "least_used"@ {
            Some(UsageSort::LeastUsed)
        } else if n == "least_recently_used"@ {
            Some(UsageSort::LeastRecentlyUsed)
        } else if n == "most_recently_used"@ {
            Some(UsageSort::MostRecentlyUsed)
        } else {
            None
        },
    }
}

/// In which order, how many, and behind how many entries their use is listed.
pub fn usage_page(query: &UsageQuery) -> (r: Result<(UsageSort, i64, i64), ApiError>)
    ensures
        match r {
            Ok(page) => sort_named(option_view(query.sort)) == Some(page.0) && page.1 == page_size(
                query.limit,
                100,
                500,
            ) && page.2 == page_start(query.offset, 10_000_000),
            Err(e) => sort_named(option_view(query.sort)) is None && e@ == ApiErrorV::Invalid(
                "usage sort must be most_used, least_used, least_recently_used, or most_recently_used"@,
            ),
        },
{
    let sort = match &query.sort {
        None => UsageSort::MostUsed,
        Some(n) => if same(n.as_str(), "most_used") {
            UsageSort::MostUsed
        } else if same(n.as_str(), "least_used") {
            UsageSort::LeastUsed
        } else if same(n.as_str(), "least_recently_used") {
            UsageSort::LeastRecentlyUsed
        } else if same(n.as_str(), "most_recently_used") {
            UsageSort::MostRecentlyUsed
        } else {
            return Err(
                ApiError::invalid(
                    "usage sort must be most_used, least_used, least_recently_used, or most_recently_used",
                ),
            );
        },
    };
    Ok((sort, page_limit(query.limit, 100, 500), page_offset(query.offset, 10_000_000)))
}

/// How an entry was used.
#[derive(Clone, Debug)]
pub struct UsageRow {
    pub id: u128,
    pub path: String,
    pub title: String,
    pub kind: String,
    pub read_count: i64,
    pub search_count: i64,
    pub first_used_at: Option<i64>,
    pub last_used_at: Option<i64>,
    pub last_read_at: Option<i64>,
    pub last_search_at: Option<i64>,
}

/// A sum, kept within 64 bits.
pub open spec fn bounded_sum(a: int, b: int) -> int {
    if a + b > i64::MAX {
        i64::MAX as int
    } else if a + b < i64::MIN {
        i64::MIN as int
    } else {
        a + b
    }
}

fn sum_within(a: i64, b: i64) -> (r: i64)
    ensures
        r == bounded_sum(a as int, b as int),
{
    match a.checked_add(b) {
        Some(n) => n,
        None => if a > 0 {
            i64::MAX
        } else {
            i64::MIN
        },
    }
}

pub open spec fn usage_json(row: UsageRow) -> JsonV {
    object().with("entry_ref"@, JsonV::Text(entry_ref_text(row.id))).with(
        "path"@,
        JsonV::Text(row.path@),
    ).with("title"@, JsonV::Text(row.title@)).with("kind"@, JsonV::Text(row.kind@)).with(
        "read_count"@,
        integer(row.read_count as int),
    ).with("search_count"@, integer(row.search_count as int)).with(
        "total_uses"@,
        integer(bounded_sum(row.read_count as int, row.search_count as int)),
    ).with("first_used_at"@, optional_time(row.first_used_at)).with(
        "last_used_at"@,
        optional_time(row.last_used_at),
    ).with("last_read_at"@, optional_time(row.last_read_at)).with(
        "last_search_at"@,
        optional_time(row.last_search_at),
    )
}

fn write_usage(row: &UsageRow) -> (r: Json)
    ensures
        r@ == usage_json(*row),
{
    Json::object().with("entry_ref", Json::Text(entry_ref(row.id))).with(
        "path",
        Json::text(row.path.as_str()),
    ).with("title", Json::text(row.title.as_str())).with("kind", Json::text(row.kind.as_str())).with(
        "read_count",
        Json::integer(row.read_count),
    ).with("search_count", Json::integer(row.search_count)).with(
        "total_uses",
        Json::integer(sum_within(row.read_count, row.search_count)),
    ).with("first_used_at", write_time(row.first_used_at)).with(
        "last_used_at",
        write_time(row.last_used_at),
    ).with("last_read_at", write_time(row.last_read_at)).with(
        "last_search_at",
        write_time(row.last_search_at),
    )
}

pub open spec fn usages_json(rows: Seq<UsageRow>) -> Seq<JsonV> {
    Seq::new(rows.len(), |i: int| usage_json(rows[i]))
}

pub open spec fn usage_data(rows: Seq<UsageRow>, sort: UsageSort, limit: int, offset: int) -> JsonV {
    object().with("sort"@, JsonV::Text(sort.name())).with(
        "entries"@,
        JsonV::Array(usages_json(rows)),
    ).with("offset"@, integer(offset)).with("limit"@, integer(limit))
}

/// The reply to a request for the use of entries.
pub fn usage_reply(rows: &Vec<UsageRow>, sort: UsageSort, limit: i64, offset: i64) -> (r: Reply)
    ensures
        r@ == (ReplyV {
            session_id: None,
            corpus_revision: None,
            status: ResponseStatus::Complete,
            data: usage_data(rows@, sort, limit as int, offset as int),
            gaps: Seq::empty(),
        }),
{
    let mut entries: Vec<Json> = Vec::new();
    let mut i: usize = 0;
    while i < rows.len()
        invariant
            i <= rows@.len(),
            items_view(entries@) == usages_json(rows@).take(i as int),
        decreases rows@.len() - i,
    {
        let ghost held = entries@;
        let entry = write_usage(&rows[i]);
        entries.push(entry);
        proof {
            assert(items_view(entries@) =~= items_view(held).push(entry@));
            assert(usages_json(rows@).take(i + 1) =~= usages_json(rows@).take(i as int).push(
                usages_json(rows@)[i as int],
            ));
        }
        i = i + 1;
    }
    assert(usages_json(rows@).take(i as int) =~= usages_json(rows@));
    complete_reply(
        Json::object().with("sort", Json::text(sort.as_str())).with(
            "entries",
            Json::array(entries),
        ).with("offset", Json::integer(offset)).with("limit", Json::integer(limit)),
    )
}

}
