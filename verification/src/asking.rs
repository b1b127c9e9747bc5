//! Laws of searching and resuming: a search is carried out where it asks for something, its
//! reply leaves nothing out without need, and changes are told as fully as there is room.
use vstd::prelude::*;

#[allow(unused_imports)]
use crate::budget::{candidate_chars, cut_candidate, Cut};
#[allow(unused_imports)]
use crate::candidate::{option_view, CandidateV, SearchSort};
#[allow(unused_imports)]
use crate::deltas::{
    delta_room, diff_text, pair_refusal, with_pair, with_pairs, BatchV, PairRow, PairV,
};
#[allow(unused_imports)]
use crate::envelope::{revision_text, ResponseStatus};
#[allow(unused_imports)]
use crate::error::ApiErrorV;
#[allow(unused_imports)]
use crate::json::{integer, JsonV};
#[allow(unused_imports)]
use crate::lanes::later_generation;
#[allow(unused_imports)]
use crate::order::{lemma_sorted_in_order, lemma_sorted_permutes, sorted};
#[allow(unused_imports)]
use crate::outside::text_digest;
#[allow(unused_imports)]
use crate::paths::path_key;
#[allow(unused_imports)]
use crate::requests::{SearchQuery, SearchRequest};
#[allow(unused_imports)]
use crate::resume::PinnedV;
#[allow(unused_imports)]
use crate::search::{
    best_entries, cut_candidates, first_problem, latest_of, plain_results, query_order,
    query_problem, search_problem, search_reply_of, text_to_embed, with_plain, CompletedQuery,
    CompletedV, Results,
};
#[allow(unused_imports)]
use crate::sharing::{has_short_excerpts, lemma_nothing_is_cut_without_need};
#[allow(unused_imports)]
use crate::text::{text_lines, texts, trimmed, truncated};

verus! {

// ---------------------------------------------------------------------------
// Queries
// ---------------------------------------------------------------------------

/// Whether a query can be searched for: it says something, asks for lanes there are, and
/// for an order there is.
pub open spec fn is_askable(
    query: Seq<char>,
    modes: Seq<Seq<char>>,
    order: Option<Seq<char>>,
) -> bool {
    &&& trimmed(query).len() > 0
    &&& forall|i: int|
        0 <= i < modes.len() ==> #[trigger] modes[i] == "exact"@ || modes[i] == "lexical"@
            || modes[i] == "semantic"@
    &&& order matches Some(o) ==> o == "best_match"@ || o == "last_modified"@ || o == "title"@
}

proof fn lemma_first_problem(queries: Seq<SearchQuery>, i: int)
    requires
        0 <= i,
    ensures
        first_problem(queries, i) is None <==> forall|k: int|
            i <= k < queries.len() ==> is_askable(
                (#[trigger] queries[k]).query@,
                texts(queries[k].modes@),
                option_view(queries[k].sort),
            ),
    decreases queries.len() - i,
{
    if i < queries.len() {
        lemma_first_problem(queries, i + 1);
        let q = queries[i];
        assert(query_problem(q.query@, texts(q.modes@), option_view(q.sort)) is None <==> is_askable(
            q.query@,
            texts(q.modes@),
            option_view(q.sort),
        ));
        if first_problem(queries, i) is None {
            assert forall|k: int| i <= k < queries.len() implies is_askable(
                (#[trigger] queries[k]).query@,
                texts(queries[k].modes@),
                option_view(queries[k].sort),
            ) by {
                if k > i {
                    assert(is_askable(
                        queries[k].query@,
                        texts(queries[k].modes@),
                        option_view(queries[k].sort),
                    ));
                }
            }
        }
    }
}

/// A search is carried out exactly where it has from one to sixteen queries, or one text
/// without any, and each of them can be searched for.
pub proof fn lemma_searches_that_are_carried_out(request: SearchRequest)
    ensures
        request.queries@.len() == 0 ==> (search_problem(request) is None <==> request.query is Some
            && trimmed(request.query->0@).len() > 0),
        request.queries@.len() > 0 ==> (search_problem(request) is None <==> request.queries@.len()
            <= 16 && forall|k: int|
            0 <= k < request.queries@.len() ==> is_askable(
                (#[trigger] request.queries@[k]).query@,
                texts(request.queries@[k].modes@),
                option_view(request.queries@[k].sort),
            )),
{
    lemma_first_problem(request.queries@, 0);
}

/// The orders of a search have names of their own; without a name, the best match comes
/// first.
pub proof fn lemma_search_orders_are_named(name: Seq<char>)
    ensures
        crate::candidate::sort_named(None) == Some(SearchSort::BestMatch),
        crate::candidate::sort_named(Some("best_match"@)) == Some(SearchSort::BestMatch),
        crate::candidate::sort_named(Some("last_modified"@)) == Some(SearchSort::LastModified),
        crate::candidate::sort_named(Some("title"@)) == Some(SearchSort::Title),
        crate::candidate::sort_named(Some(name)) is Some ==> name == "best_match"@ || name
            == "last_modified"@ || name == "title"@,
{
    reveal_strlit("best_match");
    reveal_strlit("last_modified");
    reveal_strlit("title");
    assert("best_match"@.len() == 10 && "last_modified"@.len() == 13 && "title"@.len() == 5);
}

/// A query is embedded as it is written, exactly where it asks for the semantic lane or for
/// no lane in particular.
pub proof fn lemma_semantic_queries_are_embedded(q: SearchQuery)
    ensures
        text_to_embed(q) is Some <==> q.modes@.len() == 0 || exists|i: int|
            0 <= i < q.modes@.len() && (#[trigger] q.modes@[i])@ == "semantic"@,
        text_to_embed(q) matches Some(t) ==> t == q.query@,
{
    let modes = texts(q.modes@);
    if modes.contains("semantic"@) {
        let i = choose|i: int| 0 <= i < modes.len() && modes[i] == "semantic"@;
        assert(q.modes@[i]@ == "semantic"@);
    }
    if exists|i: int| 0 <= i < q.modes@.len() && (#[trigger] q.modes@[i])@ == "semantic"@ {
        let i = choose|i: int| 0 <= i < q.modes@.len() && (#[trigger] q.modes@[i])@ == "semantic"@;
        assert(modes[i] == "semantic"@);
    }
}

// ---------------------------------------------------------------------------
// Answers
// ---------------------------------------------------------------------------

proof fn lemma_query_order()
    ensures
        crate::order::is_order(query_order()),
{
}

/// The answers come in the order in which the queries were asked, and none is lost.
pub proof fn lemma_answers_come_in_order(completed: Seq<CompletedQuery>)
    ensures
        ({
            let told = sorted(query_order(), completed);
            &&& told.len() == completed.len()
            &&& forall|i: int, j: int|
                0 <= i < j < told.len() ==> (#[trigger] told[i]).index <= (
                #[trigger] told[j]).index
            &&& forall|c: CompletedQuery| #[trigger] told.contains(c) <==> completed.contains(c)
        }),
{
    broadcast use vstd::seq_lib::group_to_multiset_ensures;

    let first = query_order();
    let told = sorted(first, completed);
    lemma_query_order();
    lemma_sorted_in_order(first, completed);
    lemma_sorted_permutes(first, completed);
    assert forall|i: int, j: int| 0 <= i < j < told.len() implies (#[trigger] told[i]).index <= (
    #[trigger] told[j]).index by {
        assert(!first(told[j], told[i]));
    }
    assert forall|c: CompletedQuery| #[trigger] told.contains(c) <==> completed.contains(c) by {
        assert(told.to_multiset().count(c) == completed.to_multiset().count(c));
    }
}

/// Whether an entry is that of the best candidate of some query.
pub open spec fn is_best_of_some(sets: Seq<Seq<CandidateV>>, id: u128) -> bool {
    exists|q: int|
        0 <= q < sets.len() && (#[trigger] sets[q]).len() > 0 && sets[q][0].entry_id == id
}

/// The sources that are asked for are those of the best candidate of each query, all of
/// them, each once, and no others.
pub proof fn lemma_best_entries(sets: Seq<Seq<CandidateV>>)
    ensures
        forall|q: int|
            0 <= q < sets.len() && (#[trigger] sets[q]).len() > 0 ==> best_entries(sets).contains(
                sets[q][0].entry_id,
            ),
        forall|k: int|
            0 <= k < best_entries(sets).len() ==> is_best_of_some(
                sets,
                #[trigger] best_entries(sets)[k],
            ),
        best_entries(sets).no_duplicates(),
    decreases sets.len(),
{
    if sets.len() > 0 {
        let before = sets.drop_last();
        lemma_best_entries(before);
        let front = best_entries(before);
        let all = best_entries(sets);
        let last = sets.len() - 1;
        assert forall|q: int| 0 <= q < sets.len() && (#[trigger] sets[q]).len() > 0 implies
            all.contains(sets[q][0].entry_id) by {
            if q < last {
                assert(before[q] == sets[q]);
                assert(front.contains(before[q][0].entry_id));
                let k = choose|k: int| 0 <= k < front.len() && front[k] == sets[q][0].entry_id;
                assert(all[k] == front[k]);
            } else if !front.contains(sets[q][0].entry_id) {
                assert(all[front.len() as int] == sets[q][0].entry_id);
            }
        }
        assert forall|k: int| 0 <= k < all.len() implies is_best_of_some(sets, #[trigger] all[k]) by {
            if k < front.len() {
                assert(all[k] == front[k]);
                assert(is_best_of_some(before, front[k]));
                let q = choose|q: int|
                    0 <= q < before.len() && (#[trigger] before[q]).len() > 0
                        && before[q][0].entry_id == front[k];
                assert(sets[q] == before[q]);
            } else {
                assert(sets[last].len() > 0 && sets[last][0].entry_id == all[k]);
            }
        }
    }
}

/// The state that a search tells is the latest that any of its answers brought along.
pub proof fn lemma_latest_state_is_told(cs: Seq<CompletedV>)
    ensures
        latest_of(cs) is None <==> forall|i: int|
            0 <= i < cs.len() ==> (#[trigger] cs[i]).generation is None,
        latest_of(cs) matches Some(g) ==> exists|i: int|
            0 <= i < cs.len() && (#[trigger] cs[i]).generation == Some(g),
        forall|i: int|
            0 <= i < cs.len() && (#[trigger] cs[i]).generation is Some ==> latest_of(cs) is Some
                && cs[i].generation->0 <= latest_of(cs)->0,
    decreases cs.len(),
{
    if cs.len() > 0 {
        let before = cs.drop_last();
        lemma_latest_state_is_told(before);
        assert forall|i: int| 0 <= i < before.len() implies #[trigger] cs[i] == before[i] by {}
        assert(cs[cs.len() - 1] == cs.last());
        match latest_of(before) {
            Some(g) => {
                let i = choose|i: int|
                    0 <= i < before.len() && (#[trigger] before[i]).generation == Some(g);
                assert(cs[i].generation == Some(g));
            },
            None => {},
        }
        assert forall|i: int| 0 <= i < cs.len() && (#[trigger] cs[i]).generation is Some implies
            latest_of(cs) is Some && cs[i].generation->0 <= latest_of(cs)->0 by {
            if i < before.len() {
                assert(before[i] == cs[i]);
            }
        }
        if latest_of(cs) is None {
            assert forall|i: int| 0 <= i < cs.len() implies (
            #[trigger] cs[i]).generation is None by {}
        }
    }
}

/// The reply to a search holds its results and the state they are of; it says that it was cut
/// exactly where it was, and it is complete exactly where no lane of any query failed.
pub proof fn lemma_search_reply_is_whole(
    session: Option<Seq<char>>,
    generation: int,
    cs: Seq<CompletedV>,
    results: Seq<JsonV>,
    shows_any: bool,
    truncated: bool,
)
    ensures
        ({
            let v = search_reply_of(session, generation, cs, results, shows_any, truncated).data;
            &&& v.get("workspace_generation"@) == Some(integer(generation))
            &&& v.get("results"@) == Some(JsonV::Array(results))
            &&& truncated ==> v.get("response_truncated"@) == Some(JsonV::Bool(true))
            &&& !truncated ==> v.get("response_truncated"@) is None
            &&& search_reply_of(session, generation, cs, results, shows_any, truncated).session_id == session
            &&& search_reply_of(session, generation, cs, results, shows_any, truncated).corpus_revision == Some(revision_text(generation))
            &&& search_reply_of(session, generation, cs, results, shows_any, truncated).status == ResponseStatus::Complete <==> forall|i: int| 0 <= i < cs.len() ==> (#[trigger] cs[i]).failures.len() == 0
            &&& search_reply_of(session, generation, cs, results, shows_any, truncated).status == ResponseStatus::Degraded ==> !shows_any
        }),
{
    reveal_strlit("workspace_generation");
    reveal_strlit("results");
    reveal_strlit("response_truncated");
    assert("workspace_generation"@.len() == 20 && "results"@.len() == 7 && "response_truncated"@.len() == 18);
}

// ---------------------------------------------------------------------------
// Room
// ---------------------------------------------------------------------------

/// How many candidates were found for all queries.
pub open spec fn found_in_all(cs: Seq<CompletedV>) -> int
    decreases cs.len(),
{
    if cs.len() == 0 {
        0
    } else {
        found_in_all(cs.drop_last()) + cs.last().candidates.len()
    }
}

proof fn lemma_cut_in_turn(cs: Seq<CandidateV>, chars: int)
    requires
        chars >= 0,
    ensures
        ({
            let cut = cut_candidates(cs, chars);
            &&& cut.value.len() == cs.len()
            &&& 0 <= cut.remaining <= chars
            &&& cut.truncated && (forall|i: int|
                0 <= i < cs.len() ==> has_short_excerpts(#[trigger] cs[i])) ==> cut.remaining == 0
        }),
    decreases cs.len(),
{
    if cs.len() > 0 {
        let before = cs.drop_last();
        lemma_cut_in_turn(before, chars);
        let front = cut_candidates(before, chars);
        lemma_nothing_is_cut_without_need(cs.last(), front.remaining);
        crate::budget::lemma_cut_candidate_within_budget(cs.last(), front.remaining);
        if forall|i: int| 0 <= i < cs.len() ==> has_short_excerpts(#[trigger] cs[i]) {
            assert forall|i: int| 0 <= i < before.len() implies has_short_excerpts(
                #[trigger] before[i],
            ) by {
                assert(before[i] == cs[i]);
            }
            assert(has_short_excerpts(cs[cs.len() - 1]));
        }
    }
}

/// Whether no excerpt of a query's candidates is longer than an excerpt may be.
pub open spec fn has_short_candidates(c: CompletedV) -> bool {
    forall|k: int| 0 <= k < c.candidates.len() ==> has_short_excerpts(#[trigger] c.candidates[k])
}

/// A reply leaves nothing out without need: as long as there is room for a candidate, all
/// that were found are told, and where anything was cut, the room for candidates or for
/// their text is used up.
pub proof fn lemma_replies_use_their_room(cs: Seq<CompletedV>)
    ensures
        ({
            let r = plain_results(cs);
            &&& r.candidates_left >= 0 && r.chars_left >= 0
            &&& r.candidates_left > 0 ==> r.entries.len() == found_in_all(cs)
            &&& r.truncated && (forall|i: int|
                0 <= i < cs.len() ==> has_short_candidates(#[trigger] cs[i])) ==> r.candidates_left
                == 0 || r.chars_left == 0
        }),
    decreases cs.len(),
{
    if cs.len() > 0 {
        let before = cs.drop_last();
        let c = cs.last();
        lemma_replies_use_their_room(before);
        let s = plain_results(before);
        let kept = crate::seqs::first_of(c.candidates, s.candidates_left);
        lemma_cut_in_turn(kept, s.chars_left);
        if forall|i: int| 0 <= i < cs.len() ==> has_short_candidates(#[trigger] cs[i]) {
            assert forall|i: int| 0 <= i < before.len() implies has_short_candidates(
                #[trigger] before[i],
            ) by {
                assert(before[i] == cs[i]);
            }
            assert(has_short_candidates(cs[cs.len() - 1]));
            assert forall|i: int| 0 <= i < kept.len() implies has_short_excerpts(
                #[trigger] kept[i],
            ) by {
                assert(kept[i] == c.candidates[i]);
            }
        }
    }
}

// ---------------------------------------------------------------------------
// Changes
// ---------------------------------------------------------------------------

/// A source is compared exactly where its entry and both versions are there, under the
/// path and with the digest that the checkpoint says, and each text has the digest of its
/// version.
pub proof fn lemma_versions_that_are_compared(source: PinnedV, row: PairRow)
    ensures
        pair_refusal(source, row) is None <==> {
            &&& row.path is Some && path_key(row.path->0@) == path_key(source.path)
            &&& row.pinned_sha256 is Some && row.pinned_sha256->0@ == source.sha256
            &&& row.before matches Some(text) ==> text_digest(text@) == source.sha256
            &&& row.current_version is Some && row.current_sha256 is Some
            &&& row.after matches Some(text) ==> text_digest(text@) == row.current_sha256->0@
        },
{
}

/// Short texts are told whole where there is room for both, and of longer ones as much of
/// their difference as there is room for.
pub proof fn lemma_changes_are_told_as_fully_as_possible(b: BatchV, pair: PairV)
    requires
        b.remaining >= 0,
        pair.before is Some,
        pair.after is Some,
    ensures
        ({
            let before = pair.before->0;
            let after = pair.after->0;
            let short = before.len() <= 2400 && after.len() <= 2400;
            let r = with_pair(b, pair);
            &&& short && before.len() + after.len() <= b.remaining ==> {
                &&& r.deltas.len() == b.deltas.len() + 1
                &&& r.deltas.last().get("before"@) == Some(JsonV::Text(before))
                &&& r.deltas.last().get("after"@) == Some(JsonV::Text(after))
                &&& r.deltas.last().get("diff"@) is None
                &&& r.deltas.last().get("truncated"@) is None
            }
            &&& short && before.len() + after.len() > b.remaining ==> r.deltas == b.deltas
                && r.leads.len() == b.leads.len() + 1
            &&& !short && b.remaining > 0 ==> {
                let diff = diff_text(pair.source.path, text_lines(before), text_lines(after));
                &&& r.deltas.len() == b.deltas.len() + 1
                &&& r.deltas.last().get("diff"@) matches Some(JsonV::Text(shown))
                    && shown.is_prefix_of(diff) && (shown == diff || shown.len() == 2000
                    || shown.len() == b.remaining) && (r.deltas.last().get("truncated"@) == Some(
                    JsonV::Bool(true),
                ) <==> shown.len() < diff.len())
                &&& r.deltas.last().get("before"@) is None && r.deltas.last().get(
                    "after"@,
                ) is None
            }
            &&& !short && b.remaining == 0 ==> r.deltas == b.deltas && r.leads.len()
                == b.leads.len() + 1
        }),
{
    reveal_strlit("path");
    reveal_strlit("pinned_version");
    reveal_strlit("pinned_sha256");
    reveal_strlit("current_version");
    reveal_strlit("current_sha256");
    reveal_strlit("mode");
    reveal_strlit("before");
    reveal_strlit("after");
    reveal_strlit("diff");
    reveal_strlit("truncated");
    assert("path"@.len() == 4 && "pinned_version"@.len() == 14 && "pinned_sha256"@.len() == 13 && "current_version"@.len() == 15 && "current_sha256"@.len() == 14 && "mode"@.len() == 4 && "before"@.len() == 6 && "after"@.len() == 5 && "diff"@.len() == 4 && "truncated"@.len() == 9);
    assert("pinned_version"@[0] != "current_sha256"@[0]);
    assert("path"@[0] != "mode"@[0]);
    assert("path"@[0] != "diff"@[0]);
    assert("mode"@[0] != "diff"@[0]);
    let before = pair.before->0;
    let after = pair.after->0;
    let diff = diff_text(pair.source.path, text_lines(before), text_lines(after));
    let cap = if 2000 < b.remaining {
        2000
    } else {
        b.remaining
    };
    crate::showing::lemma_truncated_begins(diff, cap);
    assert(truncated(diff, cap).is_prefix_of(diff));
}

/// A source that is no text is pointed to, never compared.
pub proof fn lemma_other_sources_are_pointed_to(b: BatchV, pair: PairV)
    requires
        pair.before is None || pair.after is None,
    ensures
        with_pair(b, pair).deltas == b.deltas,
        with_pair(b, pair).leads.len() == b.leads.len() + 1,
        with_pair(b, pair).remaining == b.remaining,
{
}

/// All comparisons together have at most six thousand characters, and no more than there
/// is room for evidence.
pub proof fn lemma_room_for_changes(evidence_chars: int)
    requires
        evidence_chars >= 0,
    ensures
        delta_room(evidence_chars) <= evidence_chars,
        delta_room(evidence_chars) <= 6_000,
        evidence_chars <= 6_000 ==> delta_room(evidence_chars) == evidence_chars,
        evidence_chars > 6_000 ==> delta_room(evidence_chars) == 6_000,
{
}

/// A search tells that the semantic lane was deferred exactly where that of some query was.
pub proof fn lemma_deferred_lanes_are_told(
    session: Option<Seq<char>>,
    generation: int,
    cs: Seq<CompletedV>,
    results: Seq<JsonV>,
    shows_any: bool,
    truncated: bool,
)
    ensures
        ({
            let gaps = search_reply_of(
                session,
                generation,
                cs,
                results,
                shows_any,
                truncated,
            ).gaps;
            let deferred = exists|i: int, k: int|
                0 <= i < cs.len() && 0 <= k < cs[i].failures.len() && #[trigger] cs[i].failures[k]
                    == "semantic_deferred"@;
            &&& deferred ==> gaps.len() == 1 && gaps[0] == crate::lanes::deferred_gap()
            &&& !deferred ==> gaps.len() == 0
        }),
{
    if crate::search::any_deferred(cs) {
        let i = choose|i: int|
            0 <= i < cs.len() && (#[trigger] cs[i]).failures.contains("semantic_deferred"@);
        let k = choose|k: int|
            0 <= k < cs[i].failures.len() && cs[i].failures[k] == "semantic_deferred"@;
        assert(cs[i].failures[k] == "semantic_deferred"@);
    }
    if exists|i: int, k: int|
        0 <= i < cs.len() && 0 <= k < cs[i].failures.len() && #[trigger] cs[i].failures[k]
            == "semantic_deferred"@ {
        let (i, k) = choose|i: int, k: int|
            0 <= i < cs.len() && 0 <= k < cs[i].failures.len() && #[trigger] cs[i].failures[k]
                == "semantic_deferred"@;
        assert(cs[i].failures.contains("semantic_deferred"@));
    }
}

/// The paths of changes are those that they name.
pub proof fn lemma_paths_of_changes(values: Seq<JsonV>, i: int, path: Seq<char>)
    requires
        0 <= i < values.len(),
    ensures
        crate::deltas::paths_of(values).len() == values.len(),
        values[i].get("path"@) == Some(JsonV::Text(path)) ==> crate::deltas::paths_of(values)[i]
            == Some(path),
        values[i].get("path"@) is None ==> crate::deltas::paths_of(values)[i] is None,
{
}

} // verus!
