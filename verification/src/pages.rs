//! Laws of lists and pages: a page shows the first rows and all of each of them, it says
//! whether there are more, and the next page takes up where it ends.
use vstd::prelude::*;

#[allow(unused_imports)]
use crate::candidate::option_view;
#[allow(unused_imports)]
use crate::files::{binary_json, described};
#[allow(unused_imports)]
use crate::json::{integer, object, optional_integer, optional_text, JsonV};
#[allow(unused_imports)]
use crate::listing::{
    binaries_json, bounded_sum, change_json, changes_data, changes_json, cursor_json, first_rows, job_json, jobs_data, jobs_json, manifest_data, manifest_items, manifest_json,
    next_change, next_page, page_size, page_start, sort_named, usage_json,
    usage_data, usages_json, BinaryRow, ChangeRow, JobRow, ManifestRow, UsageRow, UsageSort,
};
#[allow(unused_imports)]
use crate::outside::{entry_ref_text, uuid_text};
#[allow(unused_imports)]
use crate::read::EntryRow;
#[allow(unused_imports)]
use crate::render::{hash_text, time_json};
#[allow(unused_imports)]
use crate::upsert::version_ref_text;

verus! {

// ---------------------------------------------------------------------------
// Pages
// ---------------------------------------------------------------------------

/// A page has as many rows as were asked for where that is allowed, the nearest number
/// that is where it is not, and the usual number where nothing was asked for.
pub proof fn lemma_page_sizes(asked: Option<usize>, default: int, most: int)
    requires
        1 <= default <= most,
    ensures
        1 <= page_size(asked, default, most) <= most,
        asked is None ==> page_size(asked, default, most) == default,
        asked matches Some(n) ==> {
            &&& 1 <= n <= most ==> page_size(asked, default, most) == n
            &&& n == 0 ==> page_size(asked, default, most) == 1
            &&& n > most ==> page_size(asked, default, most) == most
        },
{
}

/// A page begins where it was asked to, as far as that is allowed, and otherwise at the
/// beginning.
pub proof fn lemma_page_starts(asked: Option<usize>, most: int)
    requires
        0 <= most,
    ensures
        0 <= page_start(asked, most) <= most,
        asked is None ==> page_start(asked, most) == 0,
        asked matches Some(n) ==> {
            &&& n <= most ==> page_start(asked, most) == n
            &&& n > most ==> page_start(asked, most) == most
        },
{
}

/// A page shows the first rows in their order: all of them, or as many as it has room
/// for.
pub proof fn lemma_page_shows_the_first_rows<T>(rows: Seq<T>, n: int)
    requires
        0 <= n,
    ensures
        first_rows(rows, n).is_prefix_of(rows),
        first_rows(rows, n).len() <= n,
        first_rows(rows, n).len() == n || first_rows(rows, n) == rows,
{
    assert(first_rows(rows, n).is_prefix_of(rows));
}

// ---------------------------------------------------------------------------
// Rows
// ---------------------------------------------------------------------------

/// Every change is told: what was done to which entry, when, and what came of it.
pub proof fn lemma_changes_are_told(
    rows: Seq<ChangeRow>,
    i: int,
)
    requires
        0 <= i < rows.len(),
    ensures
        ({
            let v = changes_json(rows)[i];
            &&& v.get("generation"@) == Some(integer(rows[i].generation as int))
            &&& v.get("operation"@) == Some(JsonV::Text(rows[i].operation@))
            &&& v.get("path"@) == Some(JsonV::Text(rows[i].path@))
            &&& v.get("version"@) == Some(integer(rows[i].version as int))
            &&& v.get("content_hash"@) == Some(JsonV::Text(hash_text(rows[i].content_sha256@)))
            &&& v.get("recorded_at"@) == Some(time_json(rows[i].recorded_at))
            &&& changes_json(rows).len() == rows.len()
        }),
{
    reveal_strlit("generation");
    reveal_strlit("operation");
    reveal_strlit("path");
    reveal_strlit("version");
    reveal_strlit("content_hash");
    reveal_strlit("recorded_at");
    assert("generation"@.len() == 10 && "operation"@.len() == 9 && "path"@.len() == 4 && "version"@.len() == 7 && "content_hash"@.len() == 12 && "recorded_at"@.len() == 11);
}

/// Every job is told: what it is, how far it is, and when what happened to it.
pub proof fn lemma_jobs_are_told(
    rows: Seq<JobRow>,
    i: int,
)
    requires
        0 <= i < rows.len(),
    ensures
        ({
            let v = jobs_json(rows)[i];
            &&& v.get("job_ref"@) == Some(JsonV::Text("job:"@ + uuid_text(rows[i].id)))
            &&& v.get("kind"@) == Some(JsonV::Text(rows[i].kind@))
            &&& v.get("status"@) == Some(JsonV::Text(rows[i].status@))
            &&& v.get("payload"@) == Some(rows[i].payload@)
            &&& v.get("watermark"@) == Some(optional_integer(rows[i].watermark))
            &&& v.get("attempts"@) == Some(integer(rows[i].attempts as int))
            &&& v.get("available_at"@) == Some(time_json(rows[i].available_at))
            &&& v.get("started_at"@) == Some(match rows[i].started_at { Some(t) => time_json(t), None => JsonV::Null })
            &&& v.get("finished_at"@) == Some(match rows[i].finished_at { Some(t) => time_json(t), None => JsonV::Null })
            &&& v.get("last_error"@) == Some(optional_text(option_view(rows[i].last_error)))
            &&& v.get("created_at"@) == Some(time_json(rows[i].created_at))
            &&& jobs_json(rows).len() == rows.len()
        }),
{
    reveal_strlit("job_ref");
    reveal_strlit("kind");
    reveal_strlit("status");
    reveal_strlit("payload");
    reveal_strlit("watermark");
    reveal_strlit("attempts");
    reveal_strlit("available_at");
    reveal_strlit("started_at");
    reveal_strlit("finished_at");
    reveal_strlit("last_error");
    reveal_strlit("created_at");
    assert("job_ref"@.len() == 7 && "kind"@.len() == 4 && "status"@.len() == 6 && "payload"@.len() == 7 && "watermark"@.len() == 9 && "attempts"@.len() == 8 && "available_at"@.len() == 12 && "started_at"@.len() == 10 && "finished_at"@.len() == 11 && "last_error"@.len() == 10 && "created_at"@.len() == 10);
    assert("job_ref"@[0] != "payload"@[0]);
    assert("started_at"@[0] != "last_error"@[0]);
    assert("started_at"@[0] != "created_at"@[0]);
    assert("last_error"@[0] != "created_at"@[0]);
}

/// Every version of the manifest is told with all that is known of it; it is the current one
/// exactly where its entry says so.
pub proof fn lemma_manifest_rows_are_told(
    rows: Seq<ManifestRow>,
    i: int,
)
    requires
        0 <= i < rows.len(),
    ensures
        ({
            let v = manifest_items(rows)[i];
            &&& v.get("entry_ref"@) == Some(JsonV::Text(entry_ref_text(rows[i].id)))
            &&& v.get("path"@) == Some(JsonV::Text(rows[i].path@))
            &&& v.get("title"@) == Some(JsonV::Text(rows[i].title@))
            &&& v.get("kind"@) == Some(JsonV::Text(rows[i].kind@))
            &&& v.get("media_type"@) == Some(JsonV::Text(rows[i].media_type@))
            &&& v.get("version"@) == Some(integer(rows[i].version as int))
            &&& v.get("version_ref"@) == Some(JsonV::Text(version_ref_text(rows[i].version_id)))
            &&& v.get("current"@) == Some(JsonV::Bool(rows[i].version == rows[i].current_version))
            &&& v.get("deleted"@) == Some(JsonV::Bool(rows[i].deleted))
            &&& v.get("content_hash"@) == Some(JsonV::Text(hash_text(rows[i].content_sha256@)))
            &&& v.get("size_bytes"@) == Some(integer(rows[i].size_bytes as int))
            &&& v.get("metadata"@) == Some(rows[i].metadata@)
            &&& v.get("created_at"@) == Some(time_json(rows[i].created_at))
            &&& manifest_items(rows).len() == rows.len()
        }),
{
    reveal_strlit("entry_ref");
    reveal_strlit("path");
    reveal_strlit("title");
    reveal_strlit("kind");
    reveal_strlit("media_type");
    reveal_strlit("version");
    reveal_strlit("version_ref");
    reveal_strlit("current");
    reveal_strlit("deleted");
    reveal_strlit("content_hash");
    reveal_strlit("size_bytes");
    reveal_strlit("metadata");
    reveal_strlit("created_at");
    assert("entry_ref"@.len() == 9 && "path"@.len() == 4 && "title"@.len() == 5 && "kind"@.len() == 4 && "media_type"@.len() == 10 && "version"@.len() == 7 && "version_ref"@.len() == 11 && "current"@.len() == 7 && "deleted"@.len() == 7 && "content_hash"@.len() == 12 && "size_bytes"@.len() == 10 && "metadata"@.len() == 8 && "created_at"@.len() == 10);
    assert("path"@[0] != "kind"@[0]);
    assert("version"@[0] != "current"@[0]);
    assert("version"@[0] != "deleted"@[0]);
    assert("current"@[0] != "deleted"@[0]);
    assert("media_type"@[0] != "size_bytes"@[0]);
    assert("media_type"@[0] != "created_at"@[0]);
    assert("size_bytes"@[0] != "created_at"@[0]);
}

/// The uses of an entry are its reads and its finds together, as far as 64 bits go.
pub proof fn lemma_uses_are_added_up(a: int, b: int)
    ensures
        i64::MIN <= a + b <= i64::MAX ==> bounded_sum(a, b) == a + b,
        i64::MIN <= bounded_sum(a, b) <= i64::MAX,
        a + b > i64::MAX ==> bounded_sum(a, b) == i64::MAX,
        a + b < i64::MIN ==> bounded_sum(a, b) == i64::MIN,
{
}

/// Of every entry it is told how often it was read and found, and when.
pub proof fn lemma_uses_are_told(
    rows: Seq<UsageRow>,
    i: int,
)
    requires
        0 <= i < rows.len(),
    ensures
        ({
            let v = usages_json(rows)[i];
            &&& v.get("entry_ref"@) == Some(JsonV::Text(entry_ref_text(rows[i].id)))
            &&& v.get("path"@) == Some(JsonV::Text(rows[i].path@))
            &&& v.get("title"@) == Some(JsonV::Text(rows[i].title@))
            &&& v.get("kind"@) == Some(JsonV::Text(rows[i].kind@))
            &&& v.get("read_count"@) == Some(integer(rows[i].read_count as int))
            &&& v.get("search_count"@) == Some(integer(rows[i].search_count as int))
            &&& v.get("total_uses"@) == Some(integer(bounded_sum(rows[i].read_count as int, rows[i].search_count as int)))
            &&& v.get("first_used_at"@) == Some(match rows[i].first_used_at { Some(t) => time_json(t), None => JsonV::Null })
            &&& v.get("last_used_at"@) == Some(match rows[i].last_used_at { Some(t) => time_json(t), None => JsonV::Null })
            &&& v.get("last_read_at"@) == Some(match rows[i].last_read_at { Some(t) => time_json(t), None => JsonV::Null })
            &&& v.get("last_search_at"@) == Some(match rows[i].last_search_at { Some(t) => time_json(t), None => JsonV::Null })
            &&& usages_json(rows).len() == rows.len()
        }),
{
    reveal_strlit("entry_ref");
    reveal_strlit("path");
    reveal_strlit("title");
    reveal_strlit("kind");
    reveal_strlit("read_count");
    reveal_strlit("search_count");
    reveal_strlit("total_uses");
    reveal_strlit("first_used_at");
    reveal_strlit("last_used_at");
    reveal_strlit("last_read_at");
    reveal_strlit("last_search_at");
    assert("entry_ref"@.len() == 9 && "path"@.len() == 4 && "title"@.len() == 5 && "kind"@.len() == 4 && "read_count"@.len() == 10 && "search_count"@.len() == 12 && "total_uses"@.len() == 10 && "first_used_at"@.len() == 13 && "last_used_at"@.len() == 12 && "last_read_at"@.len() == 12 && "last_search_at"@.len() == 14);
    assert("path"@[0] != "kind"@[0]);
    assert("read_count"@[0] != "total_uses"@[0]);
    assert("search_count"@[0] != "last_used_at"@[0]);
    assert("search_count"@[0] != "last_read_at"@[0]);
    assert("last_used_at"@[5] != "last_read_at"@[5]);
}

/// Everything that is known of a file is told.
pub proof fn lemma_files_are_told(
    entry: EntryRow,
    metadata: JsonV,
)
    ensures
        ({
            let v = binary_json(entry, metadata);
            &&& v.get("entry_ref"@) == Some(JsonV::Text(entry_ref_text(entry.id)))
            &&& v.get("path"@) == Some(JsonV::Text(entry.path@))
            &&& v.get("title"@) == Some(JsonV::Text(entry.title@))
            &&& v.get("media_type"@) == Some(JsonV::Text(entry.media_type@))
            &&& v.get("version"@) == Some(integer(entry.version as int))
            &&& v.get("content_hash"@) == Some(JsonV::Text(hash_text(entry.content_sha256@)))
            &&& v.get("size_bytes"@) == Some(integer(entry.size_bytes as int))
            &&& v.get("metadata"@) == Some(metadata)
            &&& v.get("updated_at"@) == Some(time_json(entry.updated_at))
        }),
{
    reveal_strlit("entry_ref");
    reveal_strlit("path");
    reveal_strlit("title");
    reveal_strlit("media_type");
    reveal_strlit("version");
    reveal_strlit("content_hash");
    reveal_strlit("size_bytes");
    reveal_strlit("metadata");
    reveal_strlit("updated_at");
    assert("entry_ref"@.len() == 9 && "path"@.len() == 4 && "title"@.len() == 5 && "media_type"@.len() == 10 && "version"@.len() == 7 && "content_hash"@.len() == 12 && "size_bytes"@.len() == 10 && "metadata"@.len() == 8 && "updated_at"@.len() == 10);
    assert("media_type"@[0] != "size_bytes"@[0]);
    assert("media_type"@[0] != "updated_at"@[0]);
    assert("size_bytes"@[0] != "updated_at"@[0]);
}

/// What is said of a file stays when its description is put beside it, which is told whole
/// and says how it came to be.
pub proof fn lemma_descriptions_stand_beside(binary: JsonV, companion: JsonV, key: Seq<char>)
    requires
        binary is Object,
    ensures
        described(binary, None) == binary,
        described(binary, Some(companion)).get("description"@) == Some(companion),
        described(binary, Some(companion)).get("description_status"@) == match companion.get(
            "description_status"@,
        ) {
            Some(status) => Some(status),
            None => binary.get("description_status"@),
        },
        key != "description"@ && key != "description_status"@ ==> described(
            binary,
            Some(companion),
        ).get(key) == binary.get(key),
{
    reveal_strlit("description");
    reveal_strlit("description_status");
    assert("description"@.len() == 11 && "description_status"@.len() == 18);
}

/// Every file of a list is told, with what its description says of it.
pub proof fn lemma_listed_files_are_told(rows: Seq<BinaryRow>, i: int)
    requires
        0 <= i < rows.len(),
    ensures
        binaries_json(rows).len() == rows.len(),
        rows[i].companion_metadata is None ==> binaries_json(rows)[i] == binary_json(
            rows[i].entry,
            rows[i].entry.metadata@,
        ),
        rows[i].companion_metadata matches Some(c) ==> binaries_json(rows)[i] == binary_json(
            rows[i].entry,
            described(rows[i].entry.metadata@, Some(c@)),
        ),
{
}

// ---------------------------------------------------------------------------
// Replies
// ---------------------------------------------------------------------------

/// The reply to a request for changes says from where on it tells them and whether there
/// are more.
pub proof fn lemma_changes_reply_is_whole(
    since: int,
    generation: int,
    changes: Seq<JsonV>,
    truncated: bool,
    next: Option<i64>,
)
    ensures
        ({
            let v = changes_data(since, generation, changes, truncated, next);
            &&& v.get("since_generation"@) == Some(integer(since))
            &&& v.get("workspace_generation"@) == Some(integer(generation))
            &&& v.get("changes"@) == Some(JsonV::Array(changes))
            &&& v.get("truncated"@) == Some(JsonV::Bool(truncated))
            &&& v.get("next_generation"@) == Some(optional_integer(next))
        }),
{
    reveal_strlit("since_generation");
    reveal_strlit("workspace_generation");
    reveal_strlit("changes");
    reveal_strlit("truncated");
    reveal_strlit("next_generation");
    assert("since_generation"@.len() == 16 && "workspace_generation"@.len() == 20 && "changes"@.len() == 7 && "truncated"@.len() == 9 && "next_generation"@.len() == 15);
}

/// A page of changes that is not the last one says behind which of its changes the next
/// one begins: its own last.
pub proof fn lemma_changes_go_on_behind_the_last(rows: Seq<ChangeRow>, limit: int)
    requires
        0 < limit,
    ensures
        next_change(rows, limit) is Some <==> first_rows(rows, limit).len() < rows.len(),
        next_change(rows, limit) matches Some(g) ==> g == first_rows(rows, limit).last().generation,
{
}

/// The cursor behind a row names its entry, and in a history its version as well.
pub proof fn lemma_cursor_names_the_row(
    row: ManifestRow,
    history: bool,
)
    ensures
        ({
            let v = cursor_json(row, history);
            &&& v.get("after_path"@) == Some(JsonV::Text(row.path@))
            &&& v.get("after_entry_ref"@) == Some(JsonV::Text(entry_ref_text(row.id)))
            &&& v.get("after_version"@) == if history { Some(integer(row.version as int)) } else { None }
        }),
{
    reveal_strlit("after_path");
    reveal_strlit("after_entry_ref");
    reveal_strlit("after_version");
    assert("after_path"@.len() == 10 && "after_entry_ref"@.len() == 15 && "after_version"@.len() == 13);
}

/// A page of the manifest tells its rows in their order and what was asked for; it is cut
/// exactly where there are more rows, and the next page then begins behind its last row.
pub proof fn lemma_manifest_page_is_whole(
    rows: Seq<ManifestRow>,
    generation: int,
    history: bool,
    offset: int,
    limit: int,
)
    requires
        0 < limit,
    ensures
        ({
            let v = manifest_data(rows, generation, history, offset, limit);
            &&& v.get("workspace_generation"@) == Some(integer(generation))
            &&& v.get("entries"@) == Some(JsonV::Array(manifest_items(rows.take(if rows.len() <= limit { rows.len() as int } else { limit }))))
            &&& v.get("history"@) == Some(JsonV::Bool(history))
            &&& v.get("offset"@) == Some(integer(offset))
            &&& v.get("limit"@) == Some(integer(limit))
            &&& v.get("truncated"@) == Some(JsonV::Bool(rows.len() > limit))
            &&& v.get("next"@) == Some(if rows.len() > limit { cursor_json(rows[limit - 1], history) } else { JsonV::Null })
        }),
{
    reveal_strlit("workspace_generation");
    reveal_strlit("entries");
    reveal_strlit("history");
    reveal_strlit("offset");
    reveal_strlit("limit");
    reveal_strlit("truncated");
    reveal_strlit("next");
    assert("workspace_generation"@.len() == 20 && "entries"@.len() == 7 && "history"@.len() == 7 && "offset"@.len() == 6 && "limit"@.len() == 5 && "truncated"@.len() == 9 && "next"@.len() == 4);
    assert("entries"@[0] != "history"@[0]);
    assert(rows.take(rows.len() as int) =~= rows);
}

/// The orders of a list of uses have names of their own, by which they are found again;
/// without a name, what was used most comes first, and no other name is known.
pub proof fn lemma_usage_orders_are_named(sort: UsageSort, name: Seq<char>)
    ensures
        sort_named(Some(sort.name())) == Some(sort),
        sort_named(None) == Some(UsageSort::MostUsed),
        sort_named(Some(name)) matches Some(s) ==> s.name() == name,
{
    reveal_strlit("most_used");
    reveal_strlit("least_used");
    reveal_strlit("least_recently_used");
    reveal_strlit("most_recently_used");
    assert("most_used"@.len() == 9 && "least_used"@.len() == 10 && "least_recently_used"@.len() == 19 && "most_recently_used"@.len() == 18);
}

/// A page of jobs tells all of them in their order and what was asked for.
pub proof fn lemma_jobs_page_is_whole(
    rows: Seq<JobRow>,
    limit: int,
    offset: int,
)
    ensures
        ({
            let v = jobs_data(rows, limit, offset);
            &&& v.get("jobs"@) == Some(JsonV::Array(jobs_json(rows)))
            &&& v.get("offset"@) == Some(integer(offset))
            &&& v.get("limit"@) == Some(integer(limit))
            &&& v.get("truncated"@) == Some(JsonV::Bool(rows.len() == limit))
        }),
{
    reveal_strlit("jobs");
    reveal_strlit("offset");
    reveal_strlit("limit");
    reveal_strlit("truncated");
    assert("jobs"@.len() == 4 && "offset"@.len() == 6 && "limit"@.len() == 5 && "truncated"@.len() == 9);
}

/// A page of uses tells all of them in their order, and which order that is.
pub proof fn lemma_usage_page_is_whole(
    rows: Seq<UsageRow>,
    sort: UsageSort,
    limit: int,
    offset: int,
)
    ensures
        ({
            let v = usage_data(rows, sort, limit, offset);
            &&& v.get("sort"@) == Some(JsonV::Text(sort.name()))
            &&& v.get("entries"@) == Some(JsonV::Array(usages_json(rows)))
            &&& v.get("offset"@) == Some(integer(offset))
            &&& v.get("limit"@) == Some(integer(limit))
        }),
{
    reveal_strlit("sort");
    reveal_strlit("entries");
    reveal_strlit("offset");
    reveal_strlit("limit");
    assert("sort"@.len() == 4 && "entries"@.len() == 7 && "offset"@.len() == 6 && "limit"@.len() == 5);
}

/// A page of the manifest is given exactly where it begins at an offset or behind a cursor,
/// not both, and the cursor is whole: a path with a reference to its entry, in a history
/// with a version counted from one, and otherwise without any.
pub proof fn lemma_manifests_that_are_given(query: crate::requests::ManifestQuery)
    ensures
        crate::listing::manifest_refusal(query) is None <==> {
            let cursor = query.after_path is Some || query.after_entry_ref is Some
                || query.after_version is Some;
            &&& cursor ==> query.offset is None || query.offset == Some(0usize)
            &&& query.after_path is Some <==> query.after_entry_ref is Some
            &&& query.after_entry_ref matches Some(reference) ==> crate::paths::entry_of_ref(
                reference@,
            ) is Some
            &&& query.history ==> (query.after_version is Some <==> query.after_entry_ref is Some)
            &&& query.after_version matches Some(v) ==> query.history && v >= 1
        },
{
}

} // verus!
