//! Laws of going on from a checkpoint: what it pinned is read back, only genuine versions
//! are compared, every changed source is told of, and work goes on where it left off.
use vstd::prelude::*;

#[allow(unused_imports)]
use crate::deltas::{
    delta_json, delta_room, followed_paths, gathered, has_key, hash_refusal, pair_refusal,
    pointer_json, pointed_to, recent_paths, told, with_pair, with_pairs, with_text, BatchV,
    PairRow, PairV, MAX_CHANGED_PATHS, MAX_CONTINUATION_PATHS,
};
#[allow(unused_imports)]
use crate::hunks::{lemma_difference_can_be_applied, Hunk};
#[allow(unused_imports)]
use crate::json::{integer, object, optional_integer, JsonV};
#[allow(unused_imports)]
use crate::outside::{
    entry_ref_text, lemma_uuid_is_read_back, text_digest, uuid_text, uuid_value,
};
#[allow(unused_imports)]
use crate::paths::{lemma_behind, managed, path_key, unprefixed};
#[allow(unused_imports)]
use crate::read::EntryRow;
#[allow(unused_imports)]
use crate::receipts::{all_pinned, pinned_json, pinned_source_json};
#[allow(unused_imports)]
use crate::render::hash_text;
#[allow(unused_imports)]
use crate::resume::{
    changed_sources, is_changed, pinned_source, pinned_sources, source_values, PinnedV,
};
#[allow(unused_imports)]
use crate::seqs::lemma_filter_contains;
#[allow(unused_imports)]
use crate::showing::{begins, lemma_truncated_begins};
#[allow(unused_imports)]
use crate::text::{ascii_lower, behind, text_lines, truncated};

verus! {

// ---------------------------------------------------------------------------
// Pins
// ---------------------------------------------------------------------------

/// What a checkpoint keeps of a source is read back as it was: the entry, its path, its
/// version and its digest, which is in lower case.
pub proof fn lemma_pins_are_read_back(entry: EntryRow)
    requires
        ascii_lower(entry.content_sha256@) == entry.content_sha256@,
    ensures
        pinned_source(pinned_json(entry)) == Some(
            PinnedV {
                entry_id: entry.id,
                path: entry.path@,
                version: entry.version as int,
                sha256: entry.content_sha256@,
            },
        ),
{
    reveal_strlit("entry_ref");
    reveal_strlit("path");
    reveal_strlit("version");
    reveal_strlit("content_hash");
    reveal_strlit("pinned_sha256");
    assert("entry_ref"@.len() == 9 && "path"@.len() == 4 && "version"@.len() == 7 && "content_hash"@.len() == 12 && "pinned_sha256"@.len() == 13);
    let j = pinned_json(entry);
    assert(j.get("entry_ref"@) == Some(JsonV::Text(entry_ref_text(entry.id))));
    assert(j.get("path"@) == Some(JsonV::Text(entry.path@)));
    assert(j.get("version"@) == Some(integer(entry.version as int)));
    assert(j.get("content_hash"@) == Some(JsonV::Text(hash_text(entry.content_sha256@))));
    lemma_behind("entry:"@, uuid_text(entry.id));
    lemma_uuid_is_read_back(entry.id);
    lemma_behind("sha256:"@, entry.content_sha256@);
}

/// Every source that a checkpoint pinned is read back, in its order.
pub proof fn lemma_all_pins_are_read_back(entries: Seq<EntryRow>)
    requires
        forall|i: int|
            0 <= i < entries.len() ==> ascii_lower((#[trigger] entries[i]).content_sha256@)
                == entries[i].content_sha256@,
    ensures
        pinned_sources(all_pinned(entries)).len() == entries.len(),
        forall|i: int|
            0 <= i < entries.len() ==> {
                let p = #[trigger] pinned_sources(all_pinned(entries))[i];
                &&& p.entry_id == entries[i].id
                &&& p.path == entries[i].path@
                &&& p.version == entries[i].version
                &&& p.sha256 == entries[i].content_sha256@
            },
    decreases entries.len(),
{
    let all = all_pinned(entries);
    if entries.len() > 0 {
        lemma_all_pins_are_read_back(entries.drop_last());
        assert(all.drop_last() =~= all_pinned(entries.drop_last()));
        assert(entries[entries.len() - 1] == entries.last());
        lemma_pins_are_read_back(entries.last());
        assert(all.last() == pinned_json(entries.last()));
        let front = pinned_sources(all.drop_last());
        let ps = pinned_sources(all);
        assert forall|i: int| 0 <= i < entries.len() implies {
            let p = #[trigger] ps[i];
            &&& p.entry_id == entries[i].id
            &&& p.path == entries[i].path@
            &&& p.version == entries[i].version
            &&& p.sha256 == entries[i].content_sha256@
        } by {
            if i < entries.len() - 1 {
                assert(ps[i] == front[i]);
                assert(entries.drop_last()[i] == entries[i]);
            }
        }
    }
}

/// What is read as a pinned source is what the value says: nothing is made up.
pub proof fn lemma_pins_are_not_made_up(value: JsonV)
    requires
        pinned_source(value) is Some,
    ensures
        value.get_text("path"@) == Some(pinned_source(value)->0.path),
        value.get_integer("version"@) == Some(pinned_source(value)->0.version),
        value.get_text("entry_ref"@) is Some,
        behind(value.get_text("entry_ref"@)->0, "entry:"@) is Some,
        uuid_value(behind(value.get_text("entry_ref"@)->0, "entry:"@)->0) == Some(
            pinned_source(value)->0.entry_id,
        ),
{
}

/// A source counts as changed exactly where its path is among the changes, whatever the
/// case of its letters; and the changed ones stay in the order in which they are named.
pub proof fn lemma_changed_sources_are_those_that_changed(
    checkpoint: Option<JsonV>,
    changes: Seq<JsonV>,
    source: PinnedV,
)
    ensures
        changed_sources(checkpoint, changes).contains(source) <==> pinned_sources(
            source_values(checkpoint),
        ).contains(source) && exists|i: int|
            0 <= i < changes.len() && (#[trigger] changes[i]).get_text("path"@) is Some && path_key(
                changes[i].get_text("path"@)->0,
            ) == path_key(source.path),
{
    lemma_filter_contains(
        pinned_sources(source_values(checkpoint)),
        |s: PinnedV| is_changed(changes, s.path),
        source,
    );
}

// ---------------------------------------------------------------------------
// What is compared
// ---------------------------------------------------------------------------

/// Versions are compared exactly where they are genuine: the entry is there under the
/// same path, the pinned version has the digest that the checkpoint names, and each text
/// has the digest of its version.
pub proof fn lemma_compared_versions_are_genuine(source: PinnedV, row: PairRow)
    ensures
        pair_refusal(source, row) is None <==> {
            &&& row.path is Some && path_key(row.path->0@) == path_key(source.path)
            &&& row.pinned_sha256 is Some && row.pinned_sha256->0@ == source.sha256
            &&& row.before is Some ==> text_digest(row.before->0@) == source.sha256
            &&& row.current_version is Some && row.current_sha256 is Some
            &&& row.after is Some ==> text_digest(row.after->0@) == row.current_sha256->0@
        },
{
}

// ---------------------------------------------------------------------------
// What is told
// ---------------------------------------------------------------------------

/// Whether a value tells which source is compared, from which version to which.
pub open spec fn tells_versions(j: JsonV, pair: PairV) -> bool {
    &&& j.get("path"@) == Some(JsonV::Text(pair.source.path))
    &&& j.get("pinned_version"@) == Some(integer(pair.source.version))
    &&& j.get("pinned_sha256"@) == Some(JsonV::Text("sha256:"@ + pair.source.sha256))
    &&& j.get("current_version"@) == Some(integer(pair.current_version))
    &&& j.get("current_sha256"@) == Some(JsonV::Text("sha256:"@ + pair.current_sha256))
}

/// Whether a value tells what changed in a source: both texts whole, or the beginning of
/// a difference that turns the one into the other, with a note where it is cut.
pub open spec fn tells_change(j: JsonV, pair: PairV) -> bool {
    &&& pair.before is Some && pair.after is Some
    &&& tells_versions(j, pair)
    &&& {
        ||| {
            &&& j.get("mode"@) == Some(JsonV::Text("whole_pair"@))
            &&& j.get("before"@) == Some(JsonV::Text(pair.before->0))
            &&& j.get("after"@) == Some(JsonV::Text(pair.after->0))
            &&& j.get("diff"@) is None && j.get("truncated"@) is None
        }
        ||| {
            &&& j.get("mode"@) == Some(JsonV::Text("unified_diff"@))
            &&& j.get_text("diff"@) is Some
            &&& exists|hunk: Hunk| #[trigger]
                hunk.applies(text_lines(pair.before->0), text_lines(pair.after->0)) && begins(
                    j.get_text("diff"@)->0,
                    hunk.text(pair.source.path),
                ) && (j.get("truncated"@) is Some <==> j.get_text("diff"@)->0.len() < hunk.text(
                    pair.source.path,
                ).len())
        }
    }
}

/// Whether a value points to a source that is not compared, and says why.
pub open spec fn points_to(j: JsonV, pair: PairV) -> bool {
    &&& j.get("reference"@) == Some(JsonV::Text(entry_ref_text(pair.source.entry_id)))
    &&& j.get("path"@) == Some(JsonV::Text(pair.source.path))
    &&& j.get("version"@) == Some(integer(pair.current_version))
    &&& j.get_text("delta_omitted_reason"@) is Some
}

proof fn lemma_delta_members(
    pair: PairV,
    mode: Seq<char>,
    before: Option<Seq<char>>,
    after: Option<Seq<char>>,
    diff: Option<Seq<char>>,
    truncated: bool,
)
    ensures
        ({
            let j = delta_json(pair, mode, before, after, diff, truncated);
            &&& tells_versions(j, pair)
            &&& j.get("mode"@) == Some(JsonV::Text(mode))
            &&& j.get_text("before"@) == before
            &&& j.get_text("after"@) == after
            &&& j.get_text("diff"@) == diff
            &&& before is Some ==> j.get("before"@) == Some(JsonV::Text(before->0))
            &&& after is Some ==> j.get("after"@) == Some(JsonV::Text(after->0))
            &&& diff is None ==> j.get("diff"@) is None
            &&& j.get("truncated"@) is Some <==> truncated
        }),
{
    reveal_strlit("path");
    reveal_strlit("pinned_version");
    reveal_strlit("pinned_sha256");
    reveal_strlit("current_version");
    reveal_strlit("current_sha256");
    reveal_strlit("mode");
    reveal_strlit("before");
    reveal_strlit("after");
    reveal_strlit("diff");
    reveal_strlit("truncated");
    assert("path"@.len() == 4 && "pinned_version"@.len() == 14 && "pinned_sha256"@.len() == 13 && "current_version"@.len() == 15 && "current_sha256"@.len() == 14 && "mode"@.len() == 4 && "before"@.len() == 6 && "after"@.len() == 5 && "diff"@.len() == 4 && "truncated"@.len() == 9);
    assert("pinned_version"@[0] != "current_sha256"@[0]);
    assert("path"@[0] != "mode"@[0]);
    assert("path"@[0] != "diff"@[0]);
    assert("mode"@[0] != "diff"@[0]);
}

proof fn lemma_pointer_members(source: PinnedV, current: Option<i64>, reason: Seq<char>)
    ensures
        ({
            let j = pointer_json(source, current, reason);
            &&& j.get("reference"@) == Some(JsonV::Text(entry_ref_text(source.entry_id)))
            &&& j.get("path"@) == Some(JsonV::Text(source.path))
            &&& j.get("version"@) == Some(optional_integer(current))
            &&& j.get("delta_omitted_reason"@) == Some(JsonV::Text(reason))
        }),
{
    reveal_strlit("reference");
    reveal_strlit("path");
    reveal_strlit("version");
    reveal_strlit("annotation");
    reveal_strlit("delta_omitted_reason");
    assert("reference"@.len() == 9 && "path"@.len() == 4 && "version"@.len() == 7 && "annotation"@.len() == 10 && "delta_omitted_reason"@.len() == 20);
}

/// Whether a change is told of or pointed to.
pub open spec fn is_accounted_for(b: BatchV, pair: PairV) -> bool {
    ||| exists|k: int| 0 <= k < b.deltas.len() && tells_change(#[trigger] b.deltas[k], pair)
    ||| exists|k: int| 0 <= k < b.leads.len() && points_to(#[trigger] b.leads[k], pair)
}

proof fn lemma_one_more_pair(b: BatchV, pair: PairV)
    requires
        b.remaining >= 0,
        i64::MIN <= pair.current_version <= i64::MAX,
    ensures
        ({
            let n = with_pair(b, pair);
            &&& is_accounted_for(n, pair)
            &&& n.remaining >= 0
            &&& n.deltas.len() + n.leads.len() == b.deltas.len() + b.leads.len() + 1
            &&& forall|k: int| 0 <= k < b.deltas.len() ==> #[trigger] n.deltas[k] == b.deltas[k]
            &&& forall|k: int| 0 <= k < b.leads.len() ==> #[trigger] n.leads[k] == b.leads[k]
            &&& b.deltas.len() <= n.deltas.len() && b.leads.len() <= n.leads.len()
        }),
{
    let n = with_pair(b, pair);
    let current = Some(pair.current_version as i64);
    if n.leads.len() > b.leads.len() {
        let lead = n.leads.last();
        lemma_pointer_members(pair.source, current, "non-text pinned source"@);
        lemma_pointer_members(pair.source, current, "non-text current source"@);
        lemma_pointer_members(pair.source, current, "delta character budget"@);
        assert(points_to(lead, pair));
        assert(n.leads[n.leads.len() - 1] == lead);
    } else {
        let before = pair.before->0;
        let after = pair.after->0;
        let delta = n.deltas.last();
        assert(n.deltas[n.deltas.len() - 1] == delta);
        if before.len() <= crate::resume::RESUME_DELTA_WHOLE_PAIR_CHARS && after.len()
            <= crate::resume::RESUME_DELTA_WHOLE_PAIR_CHARS {
            lemma_delta_members(pair, "whole_pair"@, Some(before), Some(after), None, false);
            assert(tells_change(delta, pair));
        } else {
            let left = text_lines(before);
            let right = text_lines(after);
            let hunk = lemma_difference_can_be_applied(pair.source.path, left, right);
            let diff = hunk.text(pair.source.path);
            let cap = if crate::resume::RESUME_DELTA_SOURCE_CHARS < b.remaining {
                crate::resume::RESUME_DELTA_SOURCE_CHARS as int
            } else {
                b.remaining
            };
            let shown = truncated(diff, cap);
            lemma_truncated_begins(diff, cap);
            lemma_delta_members(pair, "unified_diff"@, None, None, Some(shown), diff.len() > cap);
            assert(hunk.applies(left, right));
            assert(tells_change(delta, pair));
        }
    }
}

/// Every changed source is told of: what changed in it, or where to look and why it is
/// not compared; and nothing else is told.
pub proof fn lemma_every_change_is_told(pairs: Seq<PairV>, evidence_chars: int)
    requires
        evidence_chars >= 0,
        forall|i: int|
            0 <= i < pairs.len() ==> i64::MIN <= (#[trigger] pairs[i]).current_version <= i64::MAX,
    ensures
        ({
            let b = with_pairs(pairs, evidence_chars);
            &&& b.deltas.len() + b.leads.len() == pairs.len()
            &&& b.remaining >= 0
            &&& forall|i: int| 0 <= i < pairs.len() ==> is_accounted_for(b, #[trigger] pairs[i])
        }),
    decreases pairs.len(),
{
    if pairs.len() > 0 {
        let front = pairs.drop_last();
        assert forall|i: int| 0 <= i < front.len() implies i64::MIN <= (
        #[trigger] front[i]).current_version <= i64::MAX by {
            assert(front[i] == pairs[i]);
        }
        lemma_every_change_is_told(front, evidence_chars);
        let b = with_pairs(front, evidence_chars);
        assert(pairs[pairs.len() - 1] == pairs.last());
        lemma_one_more_pair(b, pairs.last());
        let n = with_pairs(pairs, evidence_chars);
        assert forall|i: int| 0 <= i < pairs.len() implies is_accounted_for(
            n,
            #[trigger] pairs[i],
        ) by {
            if i < front.len() {
                assert(front[i] == pairs[i]);
                assert(is_accounted_for(b, front[i]));
                if exists|k: int|
                    0 <= k < b.deltas.len() && tells_change(#[trigger] b.deltas[k], front[i]) {
                    let k = choose|k: int|
                        0 <= k < b.deltas.len() && tells_change(#[trigger] b.deltas[k], front[i]);
                    assert(n.deltas[k] == b.deltas[k]);
                } else {
                    let k = choose|k: int|
                        0 <= k < b.leads.len() && points_to(#[trigger] b.leads[k], front[i]);
                    assert(n.leads[k] == b.leads[k]);
                }
            }
        }
    }
}

// ---------------------------------------------------------------------------
// Where work goes on
// ---------------------------------------------------------------------------

/// Paths are gathered from the first on: none is passed over that is not managed and
/// whose key is not there yet, until there are as many as wanted; and each comes from
/// the list.
pub proof fn lemma_paths_are_gathered_in_turn(
    list: Seq<Option<Seq<char>>>,
    i: int,
    paths: Seq<Seq<char>>,
    limit: int,
)
    requires
        0 <= i <= list.len(),
    ensures
        ({
            let g = gathered(list, i, paths, limit);
            &&& paths.len() <= g.len()
            &&& g.take(paths.len() as int) == paths
            &&& forall|k: int|
                paths.len() <= k < g.len() ==> list.contains(Some(#[trigger] g[k]))
            &&& forall|n: int|
                i <= n < list.len() && (#[trigger] list[n]) is Some && !managed(list[n]->0)
                    ==> g.len() >= limit || has_key(g, path_key(list[n]->0))
        }),
    decreases list.len() - i,
{
    let g = gathered(list, i, paths, limit);
    assert(paths.take(paths.len() as int) =~= paths);
    if i < list.len() && paths.len() < limit {
        match list[i] {
            Some(path) => {
                if managed(path) || has_key(paths, path_key(path)) {
                    lemma_paths_are_gathered_in_turn(list, i + 1, paths, limit);
                    if has_key(paths, path_key(path)) {
                        let k = choose|k: int|
                            0 <= k < paths.len() && path_key(#[trigger] paths[k]) == path_key(path);
                        assert(g.take(paths.len() as int)[k] == g[k]);
                        assert(path_key(g[k]) == path_key(path));
                        assert(has_key(g, path_key(path)));
                    }
                } else {
                    let more = paths.push(path);
                    lemma_paths_are_gathered_in_turn(list, i + 1, more, limit);
                    assert(g.take(more.len() as int)[paths.len() as int] == g[paths.len() as int]);
                    assert(g[paths.len() as int] == path);
                    assert(has_key(g, path_key(path)));
                    assert(g.take(paths.len() as int) =~= paths) by {
                        assert forall|k: int| 0 <= k < paths.len() implies #[trigger] g[k]
                            == paths[k] by {
                            assert(g.take(more.len() as int)[k] == g[k]);
                            assert(more[k] == paths[k]);
                        }
                    }
                    assert(list[i] == Some(path));
                    assert forall|k: int| paths.len() <= k < g.len() implies list.contains(
                        Some(#[trigger] g[k]),
                    ) by {
                        if k == paths.len() {
                            assert(list.contains(list[i]));
                        }
                    }
                }
            },
            None => {
                lemma_paths_are_gathered_in_turn(list, i + 1, paths, limit);
            },
        }
    }
}

}
