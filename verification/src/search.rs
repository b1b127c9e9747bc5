//! Searches: what a request asks, and what its response says.
use vstd::prelude::*;

use crate::budget::{
    truncate_candidate_evidence, SearchCandidateView, MAX_SEARCH_RESPONSE_CANDIDATES,
    MAX_SEARCH_RESPONSE_CHARS,
};
#[allow(unused_imports)]
use crate::budget::{
    all_shown_view, candidate_chars, cut_candidate, least, lemma_cut_candidate_within_budget,
    shown_view, Cut, ShownV,
};
use crate::candidate::{Candidate, SearchSort};
#[allow(unused_imports)]
use crate::candidate::{
    candidates_view, copy_candidates, has_text, option_view, sort_named, CandidateV,
};
use crate::envelope::{revision, Reply, ResponseStatus};
#[allow(unused_imports)]
use crate::envelope::{revision_text, ReplyV};
use crate::error::{ApiError, ApiErrorV};
use crate::json::Json;
#[allow(unused_imports)]
use crate::json::{integer, items_view, object, JsonV};
use crate::lanes::{
    latest_generation, retrieval_lane_selection, semantic_deferred_gap, RequestSemanticEmbeddings,
    SearchAnswer,
};
#[allow(unused_imports)]
use crate::lanes::{
    all_modes, deferred_gap, later_generation, queries_view, selected_lanes, RetrievalTimings,
};
use crate::order::{sort, Order};
#[allow(unused_imports)]
use crate::order::sorted;
use crate::render::{render_budgeted_search_candidate, render_search_candidate};
#[allow(unused_imports)]
use crate::render::{search_json, shown_json};
use crate::requests::{SearchQuery, SearchRequest};
#[allow(unused_imports)]
use crate::seqs::{first_of, lemma_map_push};
use crate::text::{cat, decimal_of_natural, trim};
#[allow(unused_imports)]
use crate::text::{decimal, texts, trimmed};
use crate::verbatim::MAX_VERBATIM_RESPONSE_CHARS;
#[allow(unused_imports)]
use crate::verbatim::{lemma_quoted_within_budget, quoted_matches};

verus! {

/// How many queries a search can have.
pub const MAX_SEARCH_QUERIES: usize = 16;

/// How many candidates one query can have.
pub const MAX_SEARCH_LIMIT: usize = 50;

/// How many candidates a query has where it does not say.
pub const DEFAULT_SEARCH_LIMIT: usize = 8;

// ---------------------------------------------------------------------------
// Requests
// ---------------------------------------------------------------------------

/// Why a query cannot be searched for.
pub open spec fn query_problem(
    query: Seq<char>,
    modes: Seq<Seq<char>>,
    order: Option<Seq<char>>,
) -> Option<ApiErrorV> {
    if trimmed(query).len() == 0 {
        Some(ApiErrorV::Invalid("search query is required"@))
    } else if !all_modes(modes) {
        Some(ApiErrorV::Invalid("search modes must be exact, lexical, or semantic"@))
    } else if sort_named(order) is None {
        Some(ApiErrorV::Invalid("search sort must be best_match, last_modified, or title"@))
    } else {
        None
    }
}

/// The first problem of some queries, from the `i`th on.
pub open spec fn first_problem(queries: Seq<SearchQuery>, i: int) -> Option<ApiErrorV>
    decreases queries.len() - i,
{
    if i < 0 || i >= queries.len() {
        None
    } else {
        let q = queries[i];
        match query_problem(q.query@, texts(q.modes@), option_view(q.sort)) {
            Some(e) => Some(e),
            None => first_problem(queries, i + 1),
        }
    }
}

/// Why a search cannot be carried out.
pub open spec fn search_problem(request: SearchRequest) -> Option<ApiErrorV> {
    if request.queries@.len() == 0 {
        match request.query {
            Some(q) => query_problem(q@, Seq::empty(), None),
            None => Some(ApiErrorV::Invalid("query is required"@)),
        }
    } else if request.queries@.len() > MAX_SEARCH_QUERIES {
        Some(ApiErrorV::Invalid("at most 16 queries may be batched"@))
    } else {
        first_problem(request.queries@, 0)
    }
}

/// Tests a query.
pub fn check_query(
    query: &str,
    modes: &Vec<String>,
    order: &Option<String>,
) -> (r: Result<(), ApiError>)
    ensures
        crate::error::refusal(r) == query_problem(query@, texts(modes@), option_view(*order)),
{
    if trim(query).as_str().unicode_len() == 0 {
        return Err(ApiError::invalid("search query is required"));
    }
    match retrieval_lane_selection(modes) {
        Ok(_) => {},
        Err(e) => {
            return Err(e);
        },
    }
    match SearchSort::parse(order) {
        Ok(_) => Ok(()),
        Err(e) => Err(e),
    }
}

/// The queries of a search: those it lists, or the one it states.
pub fn search_queries(request: SearchRequest) -> (r: Result<Vec<SearchQuery>, ApiError>)
    ensures
        match r {
            Ok(queries) => {
                &&& search_problem(request) is None
                &&& request.queries@.len() > 0 ==> queries@ == request.queries@
                &&& request.queries@.len() == 0 ==> {
                    &&& queries@.len() == 1
                    &&& option_view(queries@[0].id) == Some("q0"@)
                    &&& queries@[0].query@ == request.query->0@
                    &&& queries@[0].goal is None
                    &&& queries@[0].limit == request.limit
                    &&& queries@[0].sort is None
                    &&& queries@[0].modes@.len() == 0
                }
            },
            Err(e) => search_problem(request) == Some(e@),
        },
{
    if request.queries.len() == 0 {
        match request.query {
            None => Err(ApiError::invalid("query is required")),
            Some(query) => {
                let modes: Vec<String> = Vec::new();
                assert(texts(modes@) =~= Seq::empty());
                match check_query(query.as_str(), &modes, &None) {
                    Err(e) => Err(e),
                    Ok(()) => {
                        let mut queries: Vec<SearchQuery> = Vec::new();
                        queries.push(
                            SearchQuery {
                                id: Some("q0".to_owned()),
                                query,
                                goal: None,
                                limit: request.limit,
                                sort: None,
                                modes,
                            },
                        );
                        Ok(queries)
                    },
                }
            },
        }
    } else {
        if request.queries.len() > MAX_SEARCH_QUERIES {
            return Err(ApiError::invalid("at most 16 queries may be batched"));
        }
        let mut i: usize = 0;
        while i < request.queries.len()
            invariant
                0 < request.queries@.len() <= MAX_SEARCH_QUERIES,
                i <= request.queries@.len(),
                first_problem(request.queries@, 0) == first_problem(request.queries@, i as int),
            decreases request.queries@.len() - i,
        {
            let q = &request.queries[i];
            match check_query(q.query.as_str(), &q.modes, &q.sort) {
                Err(e) => {
                    return Err(e);
                },
                Ok(()) => {},
            }
            i = i + 1;
        }
        Ok(request.queries)
    }
}

/// How many candidates a query is answered with.
pub fn search_limit(requested: Option<usize>) -> (r: usize)
    ensures
        r == match requested {
            None => DEFAULT_SEARCH_LIMIT as int,
            Some(n) => if n == 0 {
                1
            } else {
                least(n as int, MAX_SEARCH_LIMIT as int)
            },
        },
        1 <= r <= MAX_SEARCH_LIMIT,
{
    match requested {
        None => DEFAULT_SEARCH_LIMIT,
        Some(n) => if n == 0 {
            1
        } else if n > MAX_SEARCH_LIMIT {
            MAX_SEARCH_LIMIT
        } else {
            n
        },
    }
}

/// The text to embed for a query: its own where it asks for the semantic lane.
pub open spec fn text_to_embed(q: SearchQuery) -> Option<Seq<char>> {
    if selected_lanes(texts(q.modes@)).semantic {
        Some(q.query@)
    } else {
        None
    }
}

/// The embeddings that the queries of a search need together; nothing where none is
/// needed or they are not shared.
pub fn semantic_batch(queries: &Vec<SearchQuery>, shared: bool) -> (r: Option<
    RequestSemanticEmbeddings,
>)
    requires
        first_problem(queries@, 0) is None,
    ensures
        match r {
            Some(batch) => {
                &&& shared
                &&& batch.well_formed()
                &&& queries_view(batch.queries@) == queries@.map_values(
                    |q: SearchQuery| text_to_embed(q),
                )
                &&& forall|i: int| 0 <= i < queries@.len() ==> !#[trigger] batch.taken@[i]
                &&& exists|i: int|
                    0 <= i < queries@.len() && text_to_embed(#[trigger] queries@[i]) is Some
            },
            None => !shared || forall|i: int|
                0 <= i < queries@.len() ==> text_to_embed(#[trigger] queries@[i]) is None,
        },
{
    if !shared {
        return None;
    }
    let ghost f = |q: SearchQuery| text_to_embed(q);
    let mut wanted: Vec<Option<String>> = Vec::new();
    let mut i: usize = 0;
    assert(queries_view(wanted@) =~= queries@.take(0).map_values(f));
    while i < queries.len()
        invariant
            i <= queries@.len(),
            f == (|q: SearchQuery| text_to_embed(q)),
            wanted@.len() == i,
            first_problem(queries@, i as int) is None,
            queries_view(wanted@) == queries@.take(i as int).map_values(f),
        decreases queries@.len() - i,
    {
        let ghost held = wanted@;
        let q = &queries[i];
        let text: Option<String> = match retrieval_lane_selection(&q.modes) {
            Ok(lanes) => if lanes.semantic {
                Some(q.query.clone())
            } else {
                None
            },
            Err(_) => None,
        };
        wanted.push(text);
        proof {
            crate::seqs::lemma_map_take(queries@, f, i as int);
            assert(queries_view(wanted@) =~= queries_view(held).push(option_view(text)));
        }
        i = i + 1;
    }
    assert(queries@.take(i as int) =~= queries@);
    let ghost all = queries_view(wanted@);
    proof {
        assert forall|k: int| 0 <= k < queries@.len() implies (text_to_embed(
            #[trigger] queries@[k],
        ) is Some <==> wanted@[k] is Some) by {
            assert(all[k] == f(queries@[k]));
            assert(all[k] == option_view(wanted@[k]));
        }
    }
    let r = RequestSemanticEmbeddings::new(wanted);
    proof {
        if r is Some {
            let k = choose|k: int| 0 <= k < wanted@.len() && (#[trigger] wanted@[k]) is Some;
            assert(text_to_embed(queries@[k]) is Some);
        } else {
            assert forall|k: int| 0 <= k < queries@.len() implies text_to_embed(
                #[trigger] queries@[k],
            ) is None by {
                assert(wanted@[k] is None);
            }
        }
    }
    r
}

// ---------------------------------------------------------------------------
// Answers
// ---------------------------------------------------------------------------

/// A query that was answered; its position among the queries of the search.
#[derive(Debug)]
pub struct CompletedQuery {
    pub index: usize,
    pub id: Option<String>,
    pub goal: Option<String>,
    pub answer: SearchAnswer,
}

#[verifier::ext_equal]
pub struct CompletedV {
    pub index: usize,
    pub id: Seq<char>,
    pub goal: Option<Seq<char>>,
    pub candidates: Seq<CandidateV>,
    pub failures: Seq<Seq<char>>,
    pub generation: Option<i64>,
    pub timings: RetrievalTimings,
    pub opportunistic_miss: bool,
}

impl View for CompletedQuery {
    type V = CompletedV;

    open spec fn view(&self) -> CompletedV {
        CompletedV {
            index: self.index,
            id: match self.id {
                Some(t) => t@,
                None => "q"@ + decimal(self.index as int),
            },
            goal: option_view(self.goal),
            candidates: candidates_view(self.answer.candidates@),
            failures: texts(self.answer.failures@),
            generation: self.answer.workspace_generation,
            timings: self.answer.timings,
            opportunistic_miss: self.answer.opportunistic_miss,
        }
    }
}

pub open spec fn completed_view(v: Seq<CompletedQuery>) -> Seq<CompletedV> {
    v.map_values(|c: CompletedQuery| c@)
}

pub open spec fn query_order() -> spec_fn(CompletedQuery, CompletedQuery) -> bool {
    |a: CompletedQuery, b: CompletedQuery| a.index < b.index
}

struct ByPosition;

impl Order<CompletedQuery> for ByPosition {
    open spec fn first(&self) -> spec_fn(CompletedQuery, CompletedQuery) -> bool {
        query_order()
    }

    fn is_first(&self, a: &CompletedQuery, b: &CompletedQuery) -> (r: bool) {
        a.index < b.index
    }
}

/// The answered queries in the order of the request, whatever order they were
/// answered in.
pub fn in_request_order(completed: Vec<CompletedQuery>) -> (r: Vec<CompletedQuery>)
    ensures
        r@ == sorted(query_order(), completed@),
        r@.len() == completed@.len(),
{
    sort(&ByPosition, completed)
}

/// The answered queries stand in the order of the request.
pub proof fn lemma_request_order(completed: Seq<CompletedQuery>)
    ensures
        crate::order::is_sorted(query_order(), sorted(query_order(), completed)),
        sorted(query_order(), completed).to_multiset() == completed.to_multiset(),
{
    crate::order::lemma_sorted_in_order(query_order(), completed);
    crate::order::lemma_sorted_permutes(query_order(), completed);
}

/// The candidates of the answered queries.
pub fn candidate_sets(completed: &Vec<CompletedQuery>) -> (r: Vec<Vec<Candidate>>)
    ensures
        crate::budget::sets_view(r@) == completed_view(completed@).map_values(
            |c: CompletedV| c.candidates,
        ),
{
    let ghost f = |c: CompletedV| c.candidates;
    let ghost all = completed_view(completed@);
    let mut out: Vec<Vec<Candidate>> = Vec::new();
    let mut i: usize = 0;
    assert(crate::budget::sets_view(out@) =~= all.take(0).map_values(f));
    while i < completed.len()
        invariant
            i <= completed@.len(),
            f == (|c: CompletedV| c.candidates),
            all == completed_view(completed@),
            crate::budget::sets_view(out@) == all.take(i as int).map_values(f),
        decreases completed@.len() - i,
    {
        let ghost held = out@;
        let v = &completed[i].answer.candidates;
        let set = copy_candidates(v, v.len());
        out.push(set);
        proof {
            assert(candidates_view(v@).take(v@.len() as int) =~= candidates_view(v@));
            crate::seqs::lemma_map_take(all, f, i as int);
            assert(all[i as int] == completed@[i as int]@);
            assert(crate::budget::sets_view(out@) =~= crate::budget::sets_view(held).push(
                candidates_view(set@),
            ));
        }
        i = i + 1;
    }
    assert(all.take(i as int) =~= all);
    out
}

/// The entries whose source is asked for: the best of each query, each once, in the
/// order of the queries.
pub open spec fn best_entries(sets: Seq<Seq<CandidateV>>) -> Seq<u128>
    decreases sets.len(),
{
    if sets.len() == 0 {
        Seq::empty()
    } else {
        let front = best_entries(sets.drop_last());
        let last = sets.last();
        if last.len() > 0 && !front.contains(last[0].entry_id) {
            front.push(last[0].entry_id)
        } else {
            front
        }
    }
}

/// The entries whose source is asked for.
pub fn top1_entry_ids(sets: &Vec<Vec<Candidate>>) -> (r: Vec<u128>)
    ensures
        r@ == best_entries(crate::budget::sets_view(sets@)),
{
    let ghost all = crate::budget::sets_view(sets@);
    let mut out: Vec<u128> = Vec::new();
    let mut i: usize = 0;
    assert(all.take(0) =~= Seq::<Seq<CandidateV>>::empty());
    while i < sets.len()
        invariant
            i <= sets@.len(),
            all == crate::budget::sets_view(sets@),
            out@ == best_entries(all.take(i as int)),
        decreases sets@.len() - i,
    {
        proof {
            assert(all.take(i + 1).drop_last() =~= all.take(i as int));
            assert(all.take(i + 1).last() == candidates_view(sets@[i as int]@));
        }
        if sets[i].len() > 0 {
            let id: u128 = sets[i][0].entry_id;
            assert(candidates_view(sets@[i as int]@)[0] == sets@[i as int]@[0]@);
            let mut known = false;
            let mut k: usize = 0;
            while k < out.len()
                invariant
                    k <= out@.len(),
                    known == exists|j: int| 0 <= j < k && #[trigger] out@[j] == id,
                decreases out@.len() - k,
            {
                if out[k] == id {
                    known = true;
                    assert(out@[k as int] == id);
                }
                k = k + 1;
            }
            assert(known == out@.contains(id));
            if !known {
                out.push(id);
            }
        }
        i = i + 1;
    }
    assert(all.take(i as int) =~= all);
    out
}

// ---------------------------------------------------------------------------
// Responses
// ---------------------------------------------------------------------------

pub open spec fn text_array(v: Seq<Seq<char>>) -> JsonV {
    JsonV::Array(v.map_values(|t: Seq<char>| JsonV::Text(t)))
}

/// The texts as an array.
pub fn write_texts(v: &Vec<String>) -> (r: Json)
    ensures
        r@ == text_array(texts(v@)),
{
    let ghost f = |t: Seq<char>| JsonV::Text(t);
    let mut out: Vec<Json> = Vec::new();
    let mut i: usize = 0;
    assert(items_view(out@) =~= texts(v@).take(0).map_values(f));
    while i < v.len()
        invariant
            i <= v@.len(),
            f == (|t: Seq<char>| JsonV::Text(t)),
            items_view(out@) == texts(v@).take(i as int).map_values(f),
        decreases v@.len() - i,
    {
        let ghost held = out@;
        let item = Json::text(v[i].as_str());
        out.push(item);
        proof {
            crate::seqs::lemma_map_take(texts(v@), f, i as int);
            assert(items_view(out@) =~= items_view(held).push(item@));
        }
        i = i + 1;
    }
    assert(texts(v@).take(i as int) =~= texts(v@));
    Json::array(out)
}

/// What a response says of one query.
pub open spec fn result_json(c: CompletedV, rendered: Seq<JsonV>) -> JsonV {
    let base = object().with("id"@, JsonV::Text(c.id)).with(
        "candidates"@,
        JsonV::Array(rendered),
    );
    let aimed = match c.goal {
        Some(goal) => base.with("goal"@, JsonV::Text(goal)),
        None => base,
    };
    if c.failures.len() > 0 {
        aimed.with("query_status"@, JsonV::Text("partial"@)).with(
            "lane_failures"@,
            text_array(c.failures),
        )
    } else {
        aimed
    }
}

fn write_result(c: &CompletedQuery, rendered: Vec<Json>) -> (r: Json)
    ensures
        r@ == result_json(c@, items_view(rendered@)),
{
    let id = match &c.id {
        Some(t) => t.clone(),
        None => cat("q", decimal_of_count(c.index).as_str()),
    };
    let mut r = Json::object().with("id", Json::Text(id)).with("candidates", Json::array(rendered));
    match &c.goal {
        Some(goal) => {
            r = r.with("goal", Json::text(goal.as_str()));
        },
        None => {},
    }
    if c.answer.failures.len() > 0 {
        r = r.with("query_status", Json::text("partial")).with(
            "lane_failures",
            write_texts(&c.answer.failures),
        );
    }
    r
}

/// A count in decimal notation.
pub fn decimal_of_count(n: usize) -> (r: String)
    ensures
        r@ == decimal(n as int),
{
    decimal_of_natural(n as u64)
}

/// What the results of a response have come to.
#[verifier::ext_equal]
pub struct Results {
    pub results: Seq<JsonV>,
    pub entries: Seq<u128>,
    pub candidates_left: int,
    pub chars_left: int,
    pub quotes_left: int,
    pub truncated: bool,
}

pub open spec fn no_results() -> Results {
    Results {
        results: Seq::empty(),
        entries: Seq::empty(),
        candidates_left: MAX_SEARCH_RESPONSE_CANDIDATES as int,
        chars_left: MAX_SEARCH_RESPONSE_CHARS as int,
        quotes_left: MAX_VERBATIM_RESPONSE_CHARS as int,
        truncated: false,
    }
}

/// Candidates cut to a budget, one after another.
pub open spec fn cut_candidates(cs: Seq<CandidateV>, chars: int) -> Cut<Seq<CandidateV>>
    decreases cs.len(),
{
    if cs.len() == 0 {
        Cut { value: cs, remaining: chars, truncated: false }
    } else {
        let front = cut_candidates(cs.drop_last(), chars);
        let last = cut_candidate(cs.last(), front.remaining);
        Cut {
            value: front.value.push(last.value),
            remaining: last.remaining,
            truncated: front.truncated || last.truncated,
        }
    }
}

/// Candidates written out, one after another; quoted lines are paid for.
pub open spec fn written_candidates(cs: Seq<CandidateV>, quotes: int) -> (Seq<JsonV>, int)
    decreases cs.len(),
{
    if cs.len() == 0 {
        (Seq::empty(), quotes)
    } else {
        let front = written_candidates(cs.drop_last(), quotes);
        let q = quoted_matches(cs.last().verbatim_matches, 0, front.1);
        (front.0.push(search_json(cs.last(), q.0)), q.1)
    }
}

/// Shown candidates written out, one after another; quoted lines are paid for.
pub open spec fn written_shown(v: Seq<ShownV>, quotes: int) -> (Seq<JsonV>, int)
    decreases v.len(),
{
    if v.len() == 0 {
        (Seq::empty(), quotes)
    } else {
        let front = written_shown(v.drop_last(), quotes);
        let q = quoted_matches(v.last().candidate.verbatim_matches, 0, front.1);
        (front.0.push(shown_json(v.last(), q.0)), q.1)
    }
}

/// The results with one query more, of which as much is shown as is left.
pub open spec fn with_plain(s: Results, c: CompletedV) -> Results {
    let kept = first_of(c.candidates, s.candidates_left);
    let cut = cut_candidates(kept, s.chars_left);
    let written = written_candidates(cut.value, s.quotes_left);
    Results {
        results: s.results.push(result_json(c, written.0)),
        entries: s.entries + cut.value.map_values(|x: CandidateV| x.entry_id),
        candidates_left: s.candidates_left - kept.len(),
        chars_left: cut.remaining,
        quotes_left: written.1,
        truncated: s.truncated || kept.len() < c.candidates.len() || cut.truncated,
    }
}

/// The results of a response without a plan: query after query, as much as is left.
pub open spec fn plain_results(cs: Seq<CompletedV>) -> Results
    decreases cs.len(),
{
    if cs.len() == 0 {
        no_results()
    } else {
        with_plain(plain_results(cs.drop_last()), cs.last())
    }
}

/// The number of characters that candidates are shown with.
pub open spec fn candidates_chars(cs: Seq<CandidateV>) -> int
    decreases cs.len(),
{
    if cs.len() == 0 {
        0
    } else {
        candidates_chars(cs.drop_last()) + candidate_chars(cs.last())
    }
}

/// The number of characters that the candidates of a response without a plan are
/// shown with.
pub open spec fn plain_chars(cs: Seq<CompletedV>) -> int
    decreases cs.len(),
{
    if cs.len() == 0 {
        0
    } else {
        let before = plain_results(cs.drop_last());
        plain_chars(cs.drop_last()) + candidates_chars(
            cut_candidates(
                first_of(cs.last().candidates, before.candidates_left),
                before.chars_left,
            ).value,
        )
    }
}

proof fn lemma_cut_candidates(cs: Seq<CandidateV>, chars: int)
    requires
        chars >= 0,
    ensures
        cut_candidates(cs, chars).value.len() == cs.len(),
        0 <= cut_candidates(cs, chars).remaining,
        candidates_chars(cut_candidates(cs, chars).value) <= chars - cut_candidates(
            cs,
            chars,
        ).remaining,
    decreases cs.len(),
{
    if cs.len() > 0 {
        lemma_cut_candidates(cs.drop_last(), chars);
        let front = cut_candidates(cs.drop_last(), chars);
        lemma_cut_candidate_within_budget(cs.last(), front.remaining);
        let all = cut_candidates(cs, chars).value;
        assert(all.drop_last() =~= front.value);
    }
}

proof fn lemma_written_candidates(cs: Seq<CandidateV>, quotes: int)
    requires
        quotes >= 0,
    ensures
        0 <= written_candidates(cs, quotes).1 <= quotes,
        written_candidates(cs, quotes).0.len() == cs.len(),
    decreases cs.len(),
{
    if cs.len() > 0 {
        lemma_written_candidates(cs.drop_last(), quotes);
        lemma_quoted_within_budget(
            cs.last().verbatim_matches,
            0,
            written_candidates(cs.drop_last(), quotes).1,
        );
    }
}

/// A response without a plan answers every query, and all its queries together stay
/// within the limits on candidates, on their text and on quoted lines.
pub proof fn lemma_plain_results_within_limits(cs: Seq<CompletedV>)
    ensures
        plain_results(cs).results.len() == cs.len(),
        plain_results(cs).entries.len() + plain_results(cs).candidates_left
            == MAX_SEARCH_RESPONSE_CANDIDATES,
        plain_results(cs).candidates_left >= 0,
        plain_chars(cs) + plain_results(cs).chars_left <= MAX_SEARCH_RESPONSE_CHARS,
        plain_results(cs).chars_left >= 0,
        0 <= plain_results(cs).quotes_left <= MAX_VERBATIM_RESPONSE_CHARS,
    decreases cs.len(),
{
    if cs.len() > 0 {
        let before = plain_results(cs.drop_last());
        lemma_plain_results_within_limits(cs.drop_last());
        let kept = first_of(cs.last().candidates, before.candidates_left);
        lemma_cut_candidates(kept, before.chars_left);
        lemma_written_candidates(cut_candidates(kept, before.chars_left).value, before.quotes_left);
    }
}

/// The results with one query more, shown as planned.
pub open spec fn with_planned(s: Results, c: CompletedV, shown: Seq<ShownV>) -> Results {
    let written = written_shown(shown, s.quotes_left);
    Results {
        results: s.results.push(result_json(c, written.0)),
        entries: s.entries + shown.map_values(|x: ShownV| x.candidate.entry_id),
        quotes_left: written.1,
        ..s
    }
}

/// The results of a planned response.
pub open spec fn planned_results(
    cs: Seq<CompletedV>,
    shown: Seq<Seq<ShownV>>,
    truncated: bool,
) -> Results
    decreases cs.len(),
{
    if cs.len() == 0 {
        Results { truncated, ..no_results() }
    } else {
        with_planned(
            planned_results(cs.drop_last(), shown, truncated),
            cs.last(),
            shown[cs.len() - 1],
        )
    }
}

/// The results of a response.
#[derive(Debug)]
pub struct SearchResults {
    pub results: Vec<Json>,
    /// The entries that are shown, in order.
    pub entries: Vec<u128>,
    pub truncated: bool,
}

fn write_candidates(cs: &Vec<Candidate>, quotes: usize) -> (r: (Vec<Json>, usize))
    ensures
        items_view(r.0@) == written_candidates(candidates_view(cs@), quotes as int).0,
        r.1 == written_candidates(candidates_view(cs@), quotes as int).1,
{
    let ghost all = candidates_view(cs@);
    let mut out: Vec<Json> = Vec::new();
    let mut left: usize = quotes;
    let mut i: usize = 0;
    assert(all.take(0) =~= Seq::<CandidateV>::empty());
    assert(items_view(out@) =~= Seq::<JsonV>::empty());
    while i < cs.len()
        invariant
            i <= cs@.len(),
            all == candidates_view(cs@),
            items_view(out@) == written_candidates(all.take(i as int), quotes as int).0,
            left == written_candidates(all.take(i as int), quotes as int).1,
        decreases cs@.len() - i,
    {
        let ghost held = out@;
        proof {
            assert(all.take(i + 1).drop_last() =~= all.take(i as int));
            assert(all.take(i + 1).last() == cs@[i as int]@);
        }
        let item = render_search_candidate(&cs[i], &mut left);
        out.push(item);
        assert(items_view(out@) =~= items_view(held).push(item@));
        i = i + 1;
    }
    assert(all.take(i as int) =~= all);
    (out, left)
}

fn write_shown(v: &Vec<SearchCandidateView>, quotes: usize) -> (r: (Vec<Json>, usize))
    ensures
        items_view(r.0@) == written_shown(shown_view(v@), quotes as int).0,
        r.1 == written_shown(shown_view(v@), quotes as int).1,
{
    let ghost all = shown_view(v@);
    let mut out: Vec<Json> = Vec::new();
    let mut left: usize = quotes;
    let mut i: usize = 0;
    assert(all.take(0) =~= Seq::<ShownV>::empty());
    assert(items_view(out@) =~= Seq::<JsonV>::empty());
    while i < v.len()
        invariant
            i <= v@.len(),
            all == shown_view(v@),
            items_view(out@) == written_shown(all.take(i as int), quotes as int).0,
            left == written_shown(all.take(i as int), quotes as int).1,
        decreases v@.len() - i,
    {
        let ghost held = out@;
        proof {
            assert(all.take(i + 1).drop_last() =~= all.take(i as int));
            assert(all.take(i + 1).last() == v@[i as int]@);
        }
        let item = render_budgeted_search_candidate(&v[i], &mut left);
        out.push(item);
        assert(items_view(out@) =~= items_view(held).push(item@));
        i = i + 1;
    }
    assert(all.take(i as int) =~= all);
    (out, left)
}

/// Cuts candidates to a budget.
fn cut_each(cs: Vec<Candidate>, chars: usize) -> (r: (Vec<Candidate>, usize, bool))
    ensures
        candidates_view(r.0@) == cut_candidates(candidates_view(cs@), chars as int).value,
        r.1 == cut_candidates(candidates_view(cs@), chars as int).remaining,
        r.2 == cut_candidates(candidates_view(cs@), chars as int).truncated,
{
    let mut rest = cs;
    let ghost all = rest@;
    let ghost v = candidates_view(all);
    let ghost f = |c: Candidate| c@;
    let mut out: Vec<Candidate> = Vec::new();
    let mut left: usize = chars;
    let mut short = false;
    let ghost mut i = 0int;
    assert(v.take(0) =~= Seq::<CandidateV>::empty());
    assert(candidates_view(out@) =~= v.take(0));
    while rest.len() > 0
        invariant
            f == (|c: Candidate| c@),
            0 <= i,
            i + rest@.len() == all.len(),
            rest@ == all.skip(i),
            v == candidates_view(all),
            candidates_view(out@) == cut_candidates(v.take(i), chars as int).value,
            left == cut_candidates(v.take(i), chars as int).remaining,
            short == cut_candidates(v.take(i), chars as int).truncated,
        decreases rest@.len(),
    {
        let ghost held = out@;
        let mut c = rest.remove(0);
        proof {
            assert(c == all[i]);
            assert(rest@ =~= all.skip(i + 1));
            assert(v.take(i + 1).drop_last() =~= v.take(i));
            assert(v.take(i + 1).last() == c@);
        }
        let cut = truncate_candidate_evidence(&mut c, &mut left);
        short = short || cut;
        out.push(c);
        proof {
            lemma_map_push(held, f, c);
            i = i + 1;
        }
    }
    assert(v.take(i) =~= v);
    (out, left, short)
}

/// The results of a response without a plan.
pub fn plain_search_results(completed: &Vec<CompletedQuery>) -> (r: SearchResults)
    ensures
        items_view(r.results@) == plain_results(completed_view(completed@)).results,
        r.entries@ == plain_results(completed_view(completed@)).entries,
        r.truncated == plain_results(completed_view(completed@)).truncated,
{
    let ghost all = completed_view(completed@);
    let mut results: Vec<Json> = Vec::new();
    let mut entries: Vec<u128> = Vec::new();
    let mut candidates_left: usize = MAX_SEARCH_RESPONSE_CANDIDATES;
    let mut chars_left: usize = MAX_SEARCH_RESPONSE_CHARS;
    let mut quotes_left: usize = MAX_VERBATIM_RESPONSE_CHARS;
    let mut short = false;
    let mut i: usize = 0;
    assert(all.take(0) =~= Seq::<CompletedV>::empty());
    assert(items_view(results@) =~= Seq::<JsonV>::empty());
    while i < completed.len()
        invariant
            i <= completed@.len(),
            all == completed_view(completed@),
            items_view(results@) == plain_results(all.take(i as int)).results,
            entries@ == plain_results(all.take(i as int)).entries,
            candidates_left == plain_results(all.take(i as int)).candidates_left,
            chars_left == plain_results(all.take(i as int)).chars_left,
            quotes_left == plain_results(all.take(i as int)).quotes_left,
            short == plain_results(all.take(i as int)).truncated,
        decreases completed@.len() - i,
    {
        let ghost s = plain_results(all.take(i as int));
        let c = &completed[i];
        proof {
            assert(all.take(i + 1).drop_last() =~= all.take(i as int));
            assert(all.take(i + 1).last() == c@);
        }
        let n: usize = c.answer.candidates.len();
        let kept: usize = if n > candidates_left {
            short = true;
            candidates_left
        } else {
            n
        };
        let part = copy_candidates(&c.answer.candidates, kept);
        proof {
            assert(candidates_view(part@) =~= first_of(c@.candidates, s.candidates_left));
        }
        let (cut, chars, was_cut) = cut_each(part, chars_left);
        let (rendered, quotes) = write_candidates(&cut, quotes_left);
        let ghost before = entries@;
        let ghost f = |x: CandidateV| x.entry_id;
        let mut k: usize = 0;
        while k < cut.len()
            invariant
                k <= cut@.len(),
                f == (|x: CandidateV| x.entry_id),
                entries@ == before + candidates_view(cut@).take(k as int).map_values(f),
            decreases cut@.len() - k,
        {
            let ghost held = entries@;
            entries.push(cut[k].entry_id);
            proof {
                crate::seqs::lemma_map_take(candidates_view(cut@), f, k as int);
                assert(candidates_view(cut@)[k as int] == cut@[k as int]@);
                assert(entries@ =~= before + candidates_view(cut@).take(k + 1).map_values(f));
            }
            k = k + 1;
        }
        assert(candidates_view(cut@).take(k as int) =~= candidates_view(cut@));
        let result = write_result(c, rendered);
        let ghost held = results@;
        results.push(result);
        assert(items_view(results@) =~= items_view(held).push(result@));
        candidates_left = candidates_left - kept;
        chars_left = chars;
        quotes_left = quotes;
        short = short || was_cut;
        i = i + 1;
    }
    assert(all.take(i as int) =~= all);
    SearchResults { results, entries, truncated: short }
}

/// The results of a planned response.
pub fn planned_search_results(
    completed: &Vec<CompletedQuery>,
    views: &Vec<Vec<SearchCandidateView>>,
    truncated: bool,
) -> (r: SearchResults)
    requires
        views@.len() == completed@.len(),
    ensures
        items_view(r.results@) == planned_results(
            completed_view(completed@),
            all_shown_view(views@),
            truncated,
        ).results,
        r.entries@ == planned_results(
            completed_view(completed@),
            all_shown_view(views@),
            truncated,
        ).entries,
        r.truncated == truncated,
{
    let ghost all = completed_view(completed@);
    let ghost shown = all_shown_view(views@);
    let mut results: Vec<Json> = Vec::new();
    let mut entries: Vec<u128> = Vec::new();
    let mut quotes_left: usize = MAX_VERBATIM_RESPONSE_CHARS;
    let mut i: usize = 0;
    assert(all.take(0) =~= Seq::<CompletedV>::empty());
    assert(items_view(results@) =~= Seq::<JsonV>::empty());
    while i < completed.len()
        invariant
            i <= completed@.len(),
            views@.len() == completed@.len(),
            all == completed_view(completed@),
            shown == all_shown_view(views@),
            items_view(results@) == planned_results(all.take(i as int), shown, truncated).results,
            entries@ == planned_results(all.take(i as int), shown, truncated).entries,
            quotes_left == planned_results(all.take(i as int), shown, truncated).quotes_left,
        decreases completed@.len() - i,
    {
        let c = &completed[i];
        let view = &views[i];
        proof {
            assert(all.take(i + 1).drop_last() =~= all.take(i as int));
            assert(all.take(i + 1).last() == c@);
            assert(shown[i as int] == shown_view(view@));
        }
        let (rendered, quotes) = write_shown(view, quotes_left);
        let ghost before = entries@;
        let ghost f = |x: ShownV| x.candidate.entry_id;
        let mut k: usize = 0;
        while k < view.len()
            invariant
                k <= view@.len(),
                f == (|x: ShownV| x.candidate.entry_id),
                entries@ == before + shown_view(view@).take(k as int).map_values(f),
            decreases view@.len() - k,
        {
            let ghost held = entries@;
            entries.push(view[k].candidate.entry_id);
            proof {
                crate::seqs::lemma_map_take(shown_view(view@), f, k as int);
                assert(shown_view(view@)[k as int] == view@[k as int]@);
                assert(entries@ =~= before + shown_view(view@).take(k + 1).map_values(f));
            }
            k = k + 1;
        }
        assert(shown_view(view@).take(k as int) =~= shown_view(view@));
        let result = write_result(c, rendered);
        let ghost held = results@;
        results.push(result);
        assert(items_view(results@) =~= items_view(held).push(result@));
        quotes_left = quotes;
        i = i + 1;
    }
    assert(all.take(i as int) =~= all);
    SearchResults { results, entries, truncated }
}

/// Whether any query was not answered by all its lanes.
pub open spec fn any_failed(cs: Seq<CompletedV>) -> bool {
    exists|i: int| 0 <= i < cs.len() && (#[trigger] cs[i]).failures.len() > 0
}

/// Whether the semantic lane of any query was deferred.
pub open spec fn any_deferred(cs: Seq<CompletedV>) -> bool {
    exists|i: int| 0 <= i < cs.len() && (#[trigger] cs[i]).failures.contains("semantic_deferred"@)
}

/// The latest generation that an answer brought along.
pub open spec fn latest_of(cs: Seq<CompletedV>) -> Option<i64>
    decreases cs.len(),
{
    if cs.len() == 0 {
        None
    } else {
        later_generation(latest_of(cs.drop_last()), cs.last().generation)
    }
}

/// The generation that the answers brought along.
pub fn piggyback_generation(completed: &Vec<CompletedQuery>) -> (r: Option<i64>)
    ensures
        r == latest_of(completed_view(completed@)),
{
    let ghost all = completed_view(completed@);
    let mut r: Option<i64> = None;
    let mut i: usize = 0;
    assert(all.take(0) =~= Seq::<CompletedV>::empty());
    while i < completed.len()
        invariant
            i <= completed@.len(),
            all == completed_view(completed@),
            r == latest_of(all.take(i as int)),
        decreases completed@.len() - i,
    {
        proof {
            assert(all.take(i + 1).drop_last() =~= all.take(i as int));
            assert(all.take(i + 1).last() == completed@[i as int]@);
        }
        r = latest_generation(r, completed[i].answer.workspace_generation);
        i = i + 1;
    }
    assert(all.take(i as int) =~= all);
    r
}

/// The reply to a search.
pub open spec fn search_reply_of(
    session: Option<Seq<char>>,
    generation: int,
    cs: Seq<CompletedV>,
    results: Seq<JsonV>,
    shows_any: bool,
    truncated: bool,
) -> ReplyV {
    let base = object().with("workspace_generation"@, integer(generation)).with(
        "results"@,
        JsonV::Array(results),
    );
    ReplyV {
        session_id: session,
        corpus_revision: Some(revision_text(generation)),
        status: if any_failed(cs) {
            if shows_any {
                ResponseStatus::Partial
            } else {
                ResponseStatus::Degraded
            }
        } else {
            ResponseStatus::Complete
        },
        data: if truncated {
            base.with("response_truncated"@, JsonV::Bool(true))
        } else {
            base
        },
        gaps: if any_deferred(cs) {
            seq![deferred_gap()]
        } else {
            Seq::empty()
        },
    }
}

/// The reply to a search: partial where a lane failed and something is shown,
/// degraded where nothing is.
pub fn search_reply(
    session_id: Option<String>,
    generation: i64,
    completed: &Vec<CompletedQuery>,
    results: SearchResults,
) -> (r: Reply)
    ensures
        r@ == search_reply_of(
            option_view(session_id),
            generation as int,
            completed_view(completed@),
            items_view(results.results@),
            results.entries@.len() > 0,
            results.truncated,
        ),
{
    let ghost all = completed_view(completed@);
    let mut failed = false;
    let mut deferred = false;
    let mut i: usize = 0;
    while i < completed.len()
        invariant
            i <= completed@.len(),
            all == completed_view(completed@),
            failed == exists|k: int| 0 <= k < i && (#[trigger] all[k]).failures.len() > 0,
            deferred == exists|k: int|
                0 <= k < i && (#[trigger] all[k]).failures.contains("semantic_deferred"@),
        decreases completed@.len() - i,
    {
        let ghost was_failed = failed;
        let ghost was_deferred = deferred;
        let c = &completed[i];
        assert(all[i as int] == c@);
        assert(c@.failures.len() == c.answer.failures@.len());
        if c.answer.failures.len() > 0 {
            failed = true;
        }
        if has_text(&c.answer.failures, "semantic_deferred") {
            deferred = true;
        }
        proof {
            if was_failed {
                let k = choose|k: int| 0 <= k < i && (#[trigger] all[k]).failures.len() > 0;
                assert(all[k].failures.len() > 0);
            }
            if was_deferred {
                let k = choose|k: int|
                    0 <= k < i && (#[trigger] all[k]).failures.contains("semantic_deferred"@);
                assert(all[k].failures.contains("semantic_deferred"@));
            }
        }
        i = i + 1;
    }
    let shows_any = results.entries.len() > 0;
    let mut data = Json::object().with("workspace_generation", Json::integer(generation)).with(
        "results",
        Json::array(results.results),
    );
    if results.truncated {
        data = data.with("response_truncated", Json::Bool(true));
    }
    let status = if failed {
        if shows_any {
            ResponseStatus::Partial
        } else {
            ResponseStatus::Degraded
        }
    } else {
        ResponseStatus::Complete
    };
    let mut gaps: Vec<Json> = Vec::new();
    if deferred {
        gaps.push(semantic_deferred_gap());
    }
    let r = Reply {
        session_id,
        corpus_revision: Some(revision(generation)),
        status,
        data,
        gaps,
    };
    assert(r@.gaps =~= if any_deferred(all) {
        seq![deferred_gap()]
    } else {
        Seq::empty()
    });
    r
}

}
