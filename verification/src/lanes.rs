//! The lanes of a retrieval: which ones a request asks for, how the semantic lane
//! goes on, and how the finds of all lanes become one answer.
use vstd::prelude::*;

use crate::candidate::{
    derived_penalty, merge_candidates, sort_candidates, supersession_penalty, Candidate,
    CandidateSection, SearchSort, SupersessionAnnotation,
};
#[allow(unused_imports)]
use crate::candidate::{
    annotation_view, candidate_order, candidates_view, derived_loss, distinct_entries, has_text,
    lemma_merge_keeps_entries, merged_all, option_view, AnnotationV, CandidateV,
    SectionV,
};
use crate::error::{ApiError, ApiErrorV};
use crate::json::Json;
#[allow(unused_imports)]
use crate::json::{billionths, object, JsonV};
use crate::lexical::{bounded_lexical_fallback_queries, lexical_candidate_bonus, search_anchors};
#[allow(unused_imports)]
use crate::lexical::{bonus, focused_queries, used_clues};
#[allow(unused_imports)]
use crate::order::sorted;
use crate::score::{add_scores, greater_score, subtract_scores, ONE, TWO};
#[allow(unused_imports)]
use crate::score::{greater, opposite, plus};
#[allow(unused_imports)]
use crate::seqs::{first_of, lemma_map_push, lemma_texts_push};
use crate::text::{cat, cat3, chars_of, join, same, string_of, truncate_chars};
#[allow(unused_imports)]
use crate::text::{joined, texts, truncated};
use crate::verbatim::extract_verbatim_matches;
#[allow(unused_imports)]
use crate::verbatim::{lines_of, matching_lines};

verus! {

/// How long a lane may take, in milliseconds.
pub const RETRIEVAL_LANE_TIMEOUT_MS: u64 = 2_500;

/// How long an excerpt is that a lane brings along, in characters.
pub const LANE_EXCERPT_CHARS: usize = 2_400;

// ---------------------------------------------------------------------------
// Selection
// ---------------------------------------------------------------------------

/// The lanes that a request asks for.
#[derive(Clone, Copy, Debug, PartialEq, Eq, Structural)]
pub struct RetrievalLaneSelection {
    pub exact: bool,
    pub lexical: bool,
    pub semantic: bool,
    pub semantic_only: bool,
}

pub open spec fn is_mode(t: Seq<char>) -> bool {
    t == "exact"@ || t == "lexical"@ || t == "semantic"@
}

pub open spec fn all_modes(modes: Seq<Seq<char>>) -> bool {
    forall|i: int| 0 <= i < modes.len() ==> is_mode(#[trigger] modes[i])
}

/// The lanes that modes ask for; no modes ask for all lanes.
pub open spec fn selected_lanes(modes: Seq<Seq<char>>) -> RetrievalLaneSelection {
    RetrievalLaneSelection {
        exact: modes.len() == 0 || modes.contains("exact"@),
        lexical: modes.len() == 0 || modes.contains("lexical"@),
        semantic: modes.len() == 0 || modes.contains("semantic"@),
        semantic_only: modes.len() > 0 && forall|i: int|
            0 <= i < modes.len() ==> #[trigger] modes[i] == "semantic"@,
    }
}

pub fn retrieval_lane_selection(requested_modes: &Vec<String>) -> (r: Result<
    RetrievalLaneSelection,
    ApiError,
>)
    ensures
        match r {
            Ok(lanes) => all_modes(texts(requested_modes@)) && lanes == selected_lanes(
                texts(requested_modes@),
            ),
            Err(e) => !all_modes(texts(requested_modes@)) && e@ == ApiErrorV::Invalid(
                "search modes must be exact, lexical, or semantic"@,
            ),
        },
{
    let ghost modes = texts(requested_modes@);
    let mut others = false;
    let mut i: usize = 0;
    while i < requested_modes.len()
        invariant
            i <= requested_modes@.len(),
            modes == texts(requested_modes@),
            forall|k: int| 0 <= k < i ==> is_mode(#[trigger] modes[k]),
            others == !(forall|k: int| 0 <= k < i ==> #[trigger] modes[k] == "semantic"@),
        decreases requested_modes@.len() - i,
    {
        let mode = requested_modes[i].as_str();
        assert(modes[i as int] == mode@);
        if same(mode, "semantic") {
        } else if same(mode, "exact") || same(mode, "lexical") {
            others = true;
        } else {
            return Err(ApiError::invalid("search modes must be exact, lexical, or semantic"));
        }
        i = i + 1;
    }
    let none = requested_modes.len() == 0;
    Ok(
        RetrievalLaneSelection {
            exact: none || has_text(requested_modes, "exact"),
            lexical: none || has_text(requested_modes, "lexical"),
            semantic: none || has_text(requested_modes, "semantic"),
            semantic_only: !none && !others,
        },
    )
}

/// Where only the semantic lane is asked for, it is asked for, and no other is.
pub proof fn lemma_semantic_only(modes: Seq<Seq<char>>)
    requires
        selected_lanes(modes).semantic_only,
    ensures
        selected_lanes(modes).semantic,
        !selected_lanes(modes).exact,
        !selected_lanes(modes).lexical,
{
    reveal_strlit("exact");
    reveal_strlit("lexical");
    reveal_strlit("semantic");
    assert("exact"@.len() == 5);
    assert("lexical"@.len() == 7);
    assert("semantic"@.len() == 8);
    assert(modes[0] == "semantic"@);
    assert(modes.contains("semantic"@));
}

// ---------------------------------------------------------------------------
// Embeddings
// ---------------------------------------------------------------------------

/// The semantic queries of one request. Their embeddings are prepared together; each
/// can be taken once.
#[derive(Debug)]
pub struct RequestSemanticEmbeddings {
    pub queries: Vec<Option<String>>,
    pub taken: Vec<bool>,
}

pub open spec fn queries_view(v: Seq<Option<String>>) -> Seq<Option<Seq<char>>> {
    Seq::new(v.len(), |i: int| option_view(v[i]))
}

/// How many of the first `n` queries are semantic.
pub open spec fn semantic_before(v: Seq<Option<Seq<char>>>, n: int) -> nat
    decreases n,
{
    if n <= 0 || n > v.len() {
        0
    } else {
        semantic_before(v, n - 1) + if v[n - 1] is Some {
            1nat
        } else {
            0nat
        }
    }
}

/// The texts of the semantic queries among the first `n`.
pub open spec fn semantic_texts(v: Seq<Option<Seq<char>>>, n: int) -> Seq<Seq<char>>
    decreases n,
{
    if n <= 0 || n > v.len() {
        Seq::empty()
    } else {
        match v[n - 1] {
            Some(t) => semantic_texts(v, n - 1).push(t),
            None => semantic_texts(v, n - 1),
        }
    }
}

/// The texts that are prepared are those of the semantic queries, each at the
/// position that its query is given.
pub proof fn lemma_semantic_texts(v: Seq<Option<Seq<char>>>, n: int, i: int)
    requires
        0 <= i < n <= v.len(),
        v[i] is Some,
    ensures
        semantic_before(v, i) < semantic_texts(v, n).len(),
        semantic_texts(v, n)[semantic_before(v, i) as int] == v[i]->0,
    decreases n,
{
    lemma_semantic_count(v, n - 1);
    if i < n - 1 {
        lemma_semantic_texts(v, n - 1, i);
    }
}

proof fn lemma_semantic_count(v: Seq<Option<Seq<char>>>, n: int)
    requires
        0 <= n <= v.len(),
    ensures
        semantic_texts(v, n).len() == semantic_before(v, n),
    decreases n,
{
    if n > 0 {
        lemma_semantic_count(v, n - 1);
    }
}

impl RequestSemanticEmbeddings {
    pub open spec fn well_formed(&self) -> bool {
        self.queries@.len() == self.taken@.len()
    }

    /// The queries, none taken; nothing where none is semantic.
    pub fn new(queries: Vec<Option<String>>) -> (r: Option<RequestSemanticEmbeddings>)
        ensures
            match r {
                Some(batch) => {
                    &&& batch.well_formed()
                    &&& batch.queries == queries
                    &&& forall|i: int| 0 <= i < queries@.len() ==> !#[trigger] batch.taken@[i]
                    &&& exists|i: int| 0 <= i < queries@.len() && (#[trigger] queries@[i]) is Some
                },
                None => forall|i: int|
                    0 <= i < queries@.len() ==> (#[trigger] queries@[i]) is None,
            },
    {
        let mut any = false;
        let mut taken: Vec<bool> = Vec::new();
        let mut i: usize = 0;
        while i < queries.len()
            invariant
                i <= queries@.len(),
                taken@.len() == i,
                forall|k: int| 0 <= k < i ==> !#[trigger] taken@[k],
                any == exists|k: int| 0 <= k < i && (#[trigger] queries@[k]) is Some,
            decreases queries@.len() - i,
        {
            let ghost was = any;
            if queries[i].is_some() {
                any = true;
                assert(queries@[i as int] is Some);
            }
            proof {
                if was {
                    let k = choose|k: int| 0 <= k < i && (#[trigger] queries@[k]) is Some;
                    assert(queries@[k] is Some);
                }
            }
            taken.push(false);
            i = i + 1;
        }
        if any {
            Some(RequestSemanticEmbeddings { queries, taken })
        } else {
            None
        }
    }

    /// The texts that are to be embedded, in order.
    pub fn inputs(&self) -> (r: Vec<String>)
        ensures
            texts(r@) == semantic_texts(queries_view(self.queries@), self.queries@.len() as int),
    {
        let mut out: Vec<String> = Vec::new();
        let ghost v = queries_view(self.queries@);
        let mut i: usize = 0;
        assert(texts(out@) =~= semantic_texts(v, 0));
        while i < self.queries.len()
            invariant
                i <= self.queries@.len(),
                v == queries_view(self.queries@),
                texts(out@) == semantic_texts(v, i as int),
            decreases self.queries@.len() - i,
        {
            let ghost held = out@;
            assert(v[i as int] == option_view(self.queries@[i as int]));
            match &self.queries[i] {
                Some(t) => {
                    let t = t.clone();
                    out.push(t);
                    proof {
                        lemma_texts_push(held, t);
                    }
                },
                None => {},
            }
            i = i + 1;
        }
        out
    }

    /// The position of a query's embedding among the prepared ones, the first time it
    /// is asked for; nothing for a query that is not semantic.
    pub fn take(&mut self, index: usize) -> (r: Option<usize>)
        requires
            old(self).well_formed(),
        ensures
            final(self).well_formed(),
            final(self).queries == old(self).queries,
            ({
                let given = index < old(self).queries@.len()
                    && old(self).queries@[index as int] is Some && !old(self).taken@[index as int];
                &&& given ==> r == Some(
                    semantic_before(queries_view(old(self).queries@), index as int) as usize,
                ) && final(self).taken@ == old(self).taken@.update(index as int, true)
                &&& !given ==> r is None && final(self).taken@ == old(self).taken@
            }),
    {
        if index >= self.queries.len() || self.taken[index] || self.queries[index].is_none() {
            return None;
        }
        let ghost v = queries_view(self.queries@);
        let mut n: usize = 0;
        let mut i: usize = 0;
        while i < index
            invariant
                i <= index < self.queries@.len(),
                v == queries_view(self.queries@),
                n == semantic_before(v, i as int),
                n <= i,
            decreases index - i,
        {
            assert(v[i as int] == option_view(self.queries@[i as int]));
            if self.queries[i].is_some() {
                n = n + 1;
            }
            i = i + 1;
        }
        self.taken.set(index, true);
        Some(n)
    }
}

// ---------------------------------------------------------------------------
// The semantic lane
// ---------------------------------------------------------------------------

/// What the semantic lane found, and how long it took to embed the query and to
/// search, in microseconds.
#[derive(Debug)]
pub struct SemanticCandidates {
    pub candidates: Vec<Candidate>,
    pub embed_us: u32,
    pub database_us: u32,
}

/// How the semantic lane ended.
#[derive(Debug)]
pub enum SemanticOutcome {
    NotRequested,
    Disabled,
    IndexUnavailable,
    ReadinessError,
    Success(SemanticCandidates),
    Failed,
    Deferred,
}

/// What the semantic lane does next.
#[derive(Debug)]
pub enum SemanticStep {
    /// Ask whether there is anything to search.
    Probe,
    /// Search.
    Retrieve,
    /// Nothing more.
    Done(SemanticOutcome),
}

/// What came of asking whether there is anything to search.
#[derive(Clone, Copy, Debug, PartialEq, Eq, Structural)]
pub enum SemanticReadiness {
    TimedOut,
    Error,
    Ready(bool),
}

/// What came of a search.
#[derive(Debug)]
pub enum SemanticRetrieval {
    Found(SemanticCandidates),
    Error,
    TimedOut,
}

/// The time a semantic lane has, in milliseconds: its own deadline, but never more
/// than any lane.
pub fn semantic_deadline_ms(configured: Option<u64>) -> (r: u64)
    ensures
        r == match configured {
            Some(ms) => if ms < RETRIEVAL_LANE_TIMEOUT_MS {
                ms
            } else {
                RETRIEVAL_LANE_TIMEOUT_MS
            },
            None => RETRIEVAL_LANE_TIMEOUT_MS,
        },
{
    match configured {
        Some(ms) => if ms < RETRIEVAL_LANE_TIMEOUT_MS {
            ms
        } else {
            RETRIEVAL_LANE_TIMEOUT_MS
        },
        None => RETRIEVAL_LANE_TIMEOUT_MS,
    }
}

/// How the semantic lane begins.
pub fn semantic_lane_start(lanes: RetrievalLaneSelection, enabled: bool) -> (r: SemanticStep)
    ensures
        r == if !lanes.semantic {
            SemanticStep::Done(SemanticOutcome::NotRequested)
        } else if !enabled {
            SemanticStep::Done(SemanticOutcome::Disabled)
        } else {
            SemanticStep::Probe
        },
{
    if !lanes.semantic {
        SemanticStep::Done(SemanticOutcome::NotRequested)
    } else if !enabled {
        SemanticStep::Done(SemanticOutcome::Disabled)
    } else {
        SemanticStep::Probe
    }
}

/// What follows the probe. A lane with a deadline of its own is deferred where
/// another has failed.
pub fn semantic_lane_probed(readiness: SemanticReadiness, has_deadline: bool) -> (r: SemanticStep)
    ensures
        r == match readiness {
            SemanticReadiness::TimedOut => SemanticStep::Done(
                if has_deadline {
                    SemanticOutcome::Deferred
                } else {
                    SemanticOutcome::Failed
                },
            ),
            SemanticReadiness::Error => SemanticStep::Done(SemanticOutcome::ReadinessError),
            SemanticReadiness::Ready(false) => SemanticStep::Done(
                SemanticOutcome::IndexUnavailable,
            ),
            SemanticReadiness::Ready(true) => SemanticStep::Retrieve,
        },
{
    match readiness {
        SemanticReadiness::TimedOut => SemanticStep::Done(
            if has_deadline {
                SemanticOutcome::Deferred
            } else {
                SemanticOutcome::Failed
            },
        ),
        SemanticReadiness::Error => SemanticStep::Done(SemanticOutcome::ReadinessError),
        SemanticReadiness::Ready(ready) => if ready {
            SemanticStep::Retrieve
        } else {
            SemanticStep::Done(SemanticOutcome::IndexUnavailable)
        },
    }
}

/// What a search makes of the lane.
pub fn semantic_lane_searched(retrieval: SemanticRetrieval, has_deadline: bool) -> (r:
    SemanticOutcome)
    ensures
        r == match retrieval {
            SemanticRetrieval::Found(found) => SemanticOutcome::Success(found),
            SemanticRetrieval::Error => SemanticOutcome::Failed,
            SemanticRetrieval::TimedOut => if has_deadline {
                SemanticOutcome::Deferred
            } else {
                SemanticOutcome::Failed
            },
        },
{
    match retrieval {
        SemanticRetrieval::Found(found) => SemanticOutcome::Success(found),
        SemanticRetrieval::Error => SemanticOutcome::Failed,
        SemanticRetrieval::TimedOut => if has_deadline {
            SemanticOutcome::Deferred
        } else {
            SemanticOutcome::Failed
        },
    }
}

/// The word under which an outcome counts as a failure, where it does; a lane that
/// never answered has failed.
pub open spec fn failure_word(outcome: Option<SemanticOutcome>) -> Option<Seq<char>> {
    match outcome {
        None => Some("semantic"@),
        Some(SemanticOutcome::NotRequested) => None,
        Some(SemanticOutcome::Disabled) => Some("semantic_disabled"@),
        Some(SemanticOutcome::IndexUnavailable) => Some("semantic_index_unavailable"@),
        Some(SemanticOutcome::ReadinessError) => Some("semantic_readiness_error"@),
        Some(SemanticOutcome::Success(_)) => None,
        Some(SemanticOutcome::Failed) => Some("semantic"@),
        Some(SemanticOutcome::Deferred) => Some("semantic_deferred"@),
    }
}

/// What the semantic lane found.
pub open spec fn semantic_finds(outcome: Option<SemanticOutcome>) -> Seq<CandidateV> {
    match outcome {
        Some(SemanticOutcome::Success(found)) => candidates_view(found.candidates@),
        _ => Seq::empty(),
    }
}

/// The failures with that of the semantic lane, which counts only where the lane is
/// required.
pub open spec fn with_failure(
    failures: Seq<Seq<char>>,
    outcome: Option<SemanticOutcome>,
    required: bool,
) -> Seq<Seq<char>> {
    match failure_word(outcome) {
        Some(word) => if required {
            failures.push(word)
        } else {
            failures
        },
        None => failures,
    }
}

fn note_failure(failures: &mut Vec<String>, word: &str, required: bool)
    ensures
        texts(final(failures)@) == if required {
            texts(old(failures)@).push(word@)
        } else {
            texts(old(failures)@)
        },
{
    if required {
        let ghost held = failures@;
        let t = word.to_owned();
        failures.push(t);
        proof {
            lemma_texts_push(held, t);
        }
    }
}

/// How the semantic lane ended, and how long it took: to find out whether there was
/// anything to search, and from there on, in microseconds.
#[derive(Debug)]
pub struct SemanticLaneReport {
    pub outcome: SemanticOutcome,
    pub ready_us: u32,
    pub lane_us: u32,
}

pub open spec fn reported(report: Option<SemanticLaneReport>) -> Option<SemanticOutcome> {
    match report {
        Some(r) => Some(r.outcome),
        None => None,
    }
}

/// How long the parts of a retrieval took, in microseconds.
#[derive(Clone, Copy, Debug, PartialEq, Eq, Structural)]
pub struct RetrievalTimings {
    pub exact: u32,
    pub lexical: u32,
    pub semantic_ready: u32,
    pub semantic: u32,
    pub embed: u32,
    pub semantic_db: u32,
    pub merge: u32,
    pub total: u32,
}

/// A time in milliseconds.
pub open spec fn millis(us: u32) -> JsonV {
    billionths(us as int * 1_000_000)
}

/// A time in milliseconds.
pub fn write_millis(us: u32) -> (r: Json)
    ensures
        r@ == millis(us),
{
    Json::billionths(us as i64 * 1_000_000)
}

pub open spec fn timings_json(t: RetrievalTimings) -> JsonV {
    object().with("exact"@, millis(t.exact)).with("lexical"@, millis(t.lexical)).with(
        "semantic_ready"@,
        millis(t.semantic_ready),
    ).with("semantic"@, millis(t.semantic)).with("embed"@, millis(t.embed)).with(
        "semantic_db"@,
        millis(t.semantic_db),
    ).with("merge"@, millis(t.merge)).with("total"@, millis(t.total))
}

impl RetrievalTimings {
    /// Nothing took any time yet.
    pub fn none() -> (r: RetrievalTimings)
        ensures
            r == (RetrievalTimings {
                exact: 0,
                lexical: 0,
                semantic_ready: 0,
                semantic: 0,
                embed: 0,
                semantic_db: 0,
                merge: 0,
                total: 0,
            }),
    {
        RetrievalTimings {
            exact: 0,
            lexical: 0,
            semantic_ready: 0,
            semantic: 0,
            embed: 0,
            semantic_db: 0,
            merge: 0,
            total: 0,
        }
    }

    /// The times as they are told, in milliseconds.
    pub fn as_value(&self) -> (r: Json)
        ensures
            r@ == timings_json(*self),
    {
        Json::object().with("exact", write_millis(self.exact)).with(
            "lexical",
            write_millis(self.lexical),
        ).with("semantic_ready", write_millis(self.semantic_ready)).with(
            "semantic",
            write_millis(self.semantic),
        ).with("embed", write_millis(self.embed)).with(
            "semantic_db",
            write_millis(self.semantic_db),
        ).with("merge", write_millis(self.merge)).with("total", write_millis(self.total))
    }
}

/// The times with those of the semantic lane: that of the search counts where there
/// was one.
pub open spec fn with_semantic(
    t: RetrievalTimings,
    report: Option<SemanticLaneReport>,
) -> RetrievalTimings {
    match report {
        Some(r) => match r.outcome {
            SemanticOutcome::Success(found) => RetrievalTimings {
                semantic_ready: r.ready_us,
                semantic: r.lane_us,
                embed: found.embed_us,
                semantic_db: found.database_us,
                ..t
            },
            SemanticOutcome::Failed | SemanticOutcome::Deferred => RetrievalTimings {
                semantic_ready: r.ready_us,
                semantic: r.lane_us,
                ..t
            },
            _ => RetrievalTimings { semantic_ready: r.ready_us, ..t },
        },
        None => t,
    }
}

/// Puts what the semantic lane found to the finds of the other lanes, which are kept
/// in any case. Tells whether the lane was still under way where it was not required.
pub fn apply_semantic_outcome(
    report: Option<SemanticLaneReport>,
    semantic_required: bool,
    merged: &mut Vec<Candidate>,
    failures: &mut Vec<String>,
    timings: &mut RetrievalTimings,
) -> (r: bool)
    ensures
        r == (report is None && !semantic_required),
        candidates_view(final(merged)@) == merged_all(
            candidates_view(old(merged)@),
            semantic_finds(reported(report)),
        ),
        texts(final(failures)@) == with_failure(
            texts(old(failures)@),
            reported(report),
            semantic_required,
        ),
        *final(timings) == with_semantic(*old(timings), report),
{
    assert(merged_all(candidates_view(merged@), Seq::empty()) == candidates_view(merged@));
    match report {
        None => {
            note_failure(failures, "semantic", semantic_required);
            !semantic_required
        },
        Some(report) => {
            timings.semantic_ready = report.ready_us;
            match report.outcome {
                SemanticOutcome::NotRequested => {},
                SemanticOutcome::Disabled => {
                    note_failure(failures, "semantic_disabled", semantic_required);
                },
                SemanticOutcome::IndexUnavailable => {
                    note_failure(failures, "semantic_index_unavailable", semantic_required);
                },
                SemanticOutcome::ReadinessError => {
                    note_failure(failures, "semantic_readiness_error", semantic_required);
                },
                SemanticOutcome::Success(found) => {
                    timings.semantic = report.lane_us;
                    timings.embed = found.embed_us;
                    timings.semantic_db = found.database_us;
                    merge_candidates(merged, found.candidates);
                },
                SemanticOutcome::Failed => {
                    timings.semantic = report.lane_us;
                    note_failure(failures, "semantic", semantic_required);
                },
                SemanticOutcome::Deferred => {
                    timings.semantic = report.lane_us;
                    note_failure(failures, "semantic_deferred", semantic_required);
                },
            }
            false
        },
    }
}

/// Whatever comes of the semantic lane, every entry that another lane found is kept,
/// and none is shown twice.
pub proof fn lemma_core_finds_are_kept(merged: Seq<CandidateV>, more: Seq<CandidateV>)
    requires
        distinct_entries(merged),
    ensures
        distinct_entries(merged_all(merged, more)),
        merged.len() <= merged_all(merged, more).len(),
        forall|i: int|
            0 <= i < merged.len() ==> merged_all(merged, more)[i].entry_id == (
            #[trigger] merged[i]).entry_id,
    decreases more.len(),
{
    if more.len() > 0 {
        lemma_core_finds_are_kept(merged, more.drop_last());
        let front = merged_all(merged, more.drop_last());
        lemma_merge_keeps_entries(front, more.last());
        assert forall|i: int| 0 <= i < merged.len() implies merged_all(merged, more)[i].entry_id
            == (#[trigger] merged[i]).entry_id by {
            assert(front[i].entry_id == merged[i].entry_id);
        }
    }
}

/// Where the semantic lane is not required, whatever comes of it is no failure; where
/// it is, everything but an answer of its own is one.
pub proof fn lemma_only_required_lanes_fail(
    failures: Seq<Seq<char>>,
    outcome: Option<SemanticOutcome>,
)
    ensures
        with_failure(failures, outcome, false) == failures,
        with_failure(failures, outcome, true) == failures <==> (outcome matches Some(o) && (o
            is Success || o is NotRequested)),
{
    if failure_word(outcome) is Some {
        assert(failures.push(failure_word(outcome)->0).len() == failures.len() + 1);
    }
}

/// How a response tells of a lane that failed.
pub open spec fn lane_gap(lane: Seq<char>) -> JsonV {
    let unavailable = object().with("kind"@, JsonV::Text("retrieval_lane_unavailable"@)).with(
        "lane"@,
        JsonV::Text("semantic"@),
    );
    let failed = object().with("kind"@, JsonV::Text("retrieval_lane_failed"@));
    let failed_message = JsonV::Text(
        "this lane failed; evidence from other lanes was retained"@,
    );
    if lane == "semantic_disabled"@ {
        unavailable.with("reason"@, JsonV::Text("policy_disabled"@)).with(
            "message"@,
            JsonV::Text(
                "semantic retrieval is disabled by policy; exact and lexical evidence was retained"@,
            ),
        )
    } else if lane == "semantic_index_unavailable"@ {
        unavailable.with("reason"@, JsonV::Text("index_unavailable"@)).with(
            "message"@,
            JsonV::Text(
                "semantic retrieval has no indexed evidence; exact and lexical evidence was retained"@,
            ),
        )
    } else if lane == "semantic_readiness_error"@ {
        unavailable.with("reason"@, JsonV::Text("dependency_error"@)).with(
            "message"@,
            JsonV::Text(
                "semantic retrieval could not inspect its index; exact and lexical evidence was retained"@,
            ),
        )
    } else if lane == "semantic_deferred"@ {
        deferred_gap()
    } else if lane == "semantic"@ {
        failed.with("lane"@, JsonV::Text("semantic"@)).with(
            "reason"@,
            JsonV::Text("dependency_error"@),
        ).with("message"@, failed_message)
    } else {
        failed.with("lane"@, JsonV::Text(lane)).with("message"@, failed_message)
    }
}

/// How a response tells that the semantic lane was deferred.
pub open spec fn deferred_gap() -> JsonV {
    object().with("kind"@, JsonV::Text("retrieval_lane_deferred"@)).with(
        "lane"@,
        JsonV::Text("semantic"@),
    ).with("reason"@, JsonV::Text("deadline_deferred"@)).with(
        "message"@,
        JsonV::Text(
            "semantic retrieval exceeded its accelerator deadline; exact and lexical evidence was retained"@,
        ),
    )
}

/// How a response tells that the semantic lane was deferred.
pub fn semantic_deferred_gap() -> (r: Json)
    ensures
        r@ == deferred_gap(),
{
    Json::object().with("kind", Json::text("retrieval_lane_deferred")).with(
        "lane",
        Json::text("semantic"),
    ).with("reason", Json::text("deadline_deferred")).with(
        "message",
        Json::text(
            "semantic retrieval exceeded its accelerator deadline; exact and lexical evidence was retained",
        ),
    )
}

/// How a response tells of a lane that failed.
pub fn retrieval_lane_gap(lane: &str) -> (r: Json)
    ensures
        r@ == lane_gap(lane@),
{
    let unavailable = Json::object().with("kind", Json::text("retrieval_lane_unavailable")).with(
        "lane",
        Json::text("semantic"),
    );
    let failed = Json::object().with("kind", Json::text("retrieval_lane_failed"));
    if same(lane, "semantic_disabled") {
        unavailable.with("reason", Json::text("policy_disabled")).with(
            "message",
            Json::text(
                "semantic retrieval is disabled by policy; exact and lexical evidence was retained",
            ),
        )
    } else if same(lane, "semantic_index_unavailable") {
        unavailable.with("reason", Json::text("index_unavailable")).with(
            "message",
            Json::text(
                "semantic retrieval has no indexed evidence; exact and lexical evidence was retained",
            ),
        )
    } else if same(lane, "semantic_readiness_error") {
        unavailable.with("reason", Json::text("dependency_error")).with(
            "message",
            Json::text(
                "semantic retrieval could not inspect its index; exact and lexical evidence was retained",
            ),
        )
    } else if same(lane, "semantic_deferred") {
        semantic_deferred_gap()
    } else if same(lane, "semantic") {
        failed.with("lane", Json::text("semantic")).with(
            "reason",
            Json::text("dependency_error"),
        ).with("message", Json::text("this lane failed; evidence from other lanes was retained"))
    } else {
        failed.with("lane", Json::text(lane)).with(
            "message",
            Json::text("this lane failed; evidence from other lanes was retained"),
        )
    }
}

/// Clients can tell the gaps of different failures apart.
pub proof fn lemma_gaps_are_distinct(a: Seq<char>, b: Seq<char>)
    requires
        a != b,
    ensures
        lane_gap(a) != lane_gap(b),
{
    reveal_strlit("kind");
    reveal_strlit("lane");
    reveal_strlit("reason");
    reveal_strlit("message");
    assert("kind"@[0] == 'k');
    assert("lane"@[0] == 'l');
    assert("reason"@[0] == 'r');
    assert("message"@[0] == 'm');
    reveal_strlit("retrieval_lane_unavailable");
    reveal_strlit("retrieval_lane_failed");
    reveal_strlit("retrieval_lane_deferred");
    assert("retrieval_lane_unavailable"@.len() == 26);
    assert("retrieval_lane_failed"@.len() == 21);
    assert("retrieval_lane_deferred"@.len() == 23);
    reveal_strlit("policy_disabled");
    reveal_strlit("index_unavailable");
    reveal_strlit("dependency_error");
    assert("policy_disabled"@.len() == 15);
    assert("index_unavailable"@.len() == 17);
    assert("dependency_error"@.len() == 16);
    assert(lane_gap(a).get_text("lane"@) is Some);
    assert(lane_gap(b).get_text("lane"@) is Some);
    assert(lane_gap(a).get_text("kind"@) == lane_gap(b).get_text("kind"@) && lane_gap(a).get_text(
        "lane"@,
    ) == lane_gap(b).get_text("lane"@) && lane_gap(a).get_text("reason"@) == lane_gap(b).get_text(
        "reason"@,
    ) ==> a == b);
}

/// What is said where a lane does not finish in time.
pub fn lane_timeout(lane: &str) -> (r: ApiError)
    ensures
        r@ == ApiErrorV::Public(
            503,
            "retrieval_lane_timeout"@,
            lane@ + " retrieval exceeded its bounded time budget"@,
        ),
{
    let message = cat(lane, " retrieval exceeded its bounded time budget");
    ApiError::public(503, "retrieval_lane_timeout", message.as_str())
}

// ---------------------------------------------------------------------------
// What a lane finds
// ---------------------------------------------------------------------------

/// What was found of an entry.
#[derive(Debug)]
pub struct FoundRow {
    pub entry_id: u128,
    pub path: String,
    pub title: String,
    pub version: i64,
    pub updated_at: i64,
    pub content_sha256: String,
    pub heading: String,
    pub content: String,
}

#[verifier::ext_equal]
pub struct FoundV {
    pub entry_id: u128,
    pub path: Seq<char>,
    pub title: Seq<char>,
    pub version: int,
    pub updated_at: i64,
    pub content_sha256: Seq<char>,
    pub heading: Seq<char>,
    pub content: Seq<char>,
}

impl View for FoundRow {
    type V = FoundV;

    open spec fn view(&self) -> FoundV {
        FoundV {
            entry_id: self.entry_id,
            path: self.path@,
            title: self.title@,
            version: self.version as int,
            updated_at: self.updated_at,
            content_sha256: self.content_sha256@,
            heading: self.heading@,
            content: self.content@,
        }
    }
}

/// The candidate that a lane makes of a row: one section, the beginning of what was
/// found.
pub open spec fn found_candidate(row: FoundV, score: int, lane: Seq<char>) -> CandidateV {
    let excerpt = truncated(row.content, LANE_EXCERPT_CHARS as int);
    CandidateV {
        entry_id: row.entry_id,
        path: row.path,
        title: row.title,
        version: row.version,
        updated_at: row.updated_at,
        content_sha256: row.content_sha256,
        heading: row.heading,
        excerpt,
        score,
        lanes: seq![lane],
        sections: seq![SectionV { heading: row.heading, excerpt, score }],
        verbatim_matches: Seq::empty(),
        superseded_by: None,
    }
}

fn make_candidate(row: FoundRow, score: i64, lane: &str) -> (r: Candidate)
    ensures
        r@ == found_candidate(row@, score as int, lane@),
{
    let ghost given = row@;
    let excerpt = truncate_chars(row.content.as_str(), LANE_EXCERPT_CHARS);
    let mut lanes: Vec<String> = Vec::new();
    lanes.push(lane.to_owned());
    let mut sections: Vec<CandidateSection> = Vec::new();
    sections.push(
        CandidateSection { heading: row.heading.clone(), excerpt: excerpt.clone(), score },
    );
    let r = Candidate {
        entry_id: row.entry_id,
        path: row.path,
        title: row.title,
        version: row.version,
        updated_at: row.updated_at,
        content_sha256: row.content_sha256,
        heading: row.heading,
        excerpt,
        score,
        lanes,
        sections,
        verbatim_matches: Vec::new(),
        superseded_by: None,
    };
    assert(r@ =~= found_candidate(given, score as int, lane@));
    r
}

/// The score of an entry that is found by its exact path: 10.
pub const EXACT_SCORE: i64 = 0x4024_0000_0000_0000;

/// What the exact lane makes of a row: the lines that hold a clue word for word are
/// quoted from its whole content.
pub fn exact_candidate(row: FoundRow, verbatim_terms: &Vec<String>) -> (r: Candidate)
    ensures
        r@ == (CandidateV {
            heading: Seq::empty(),
            sections: seq![
                SectionV {
                    heading: Seq::empty(),
                    excerpt: truncated(row.content@, LANE_EXCERPT_CHARS as int),
                    score: EXACT_SCORE as int,
                },
            ],
            verbatim_matches: matching_lines(
                lines_of(row.content@),
                texts(verbatim_terms@),
                row.version as int,
                row.content_sha256@,
                0,
                crate::candidate::MAX_VERBATIM_MATCHES_PER_CANDIDATE as int,
            ),
            ..found_candidate(row@, EXACT_SCORE as int, "exact"@)
        }),
{
    let matches = extract_verbatim_matches(
        row.content.as_str(),
        verbatim_terms,
        row.version,
        row.content_sha256.as_str(),
    );
    let plain = FoundRow { heading: String::new(), ..row };
    let mut r = make_candidate(plain, EXACT_SCORE, "exact");
    r.verbatim_matches = matches;
    r
}

/// The score of what a lane found: its base, what it was found with, what the terms
/// of the query add, and what is lost because the entry is derived or superseded, one
/// after the other.
pub open spec fn lane_score(
    base: int,
    found: int,
    query: Seq<char>,
    row: FoundV,
    penalty: int,
) -> int {
    let terms = bonus(
        query,
        row.path,
        row.title,
        row.heading,
        truncated(row.content, LANE_EXCERPT_CHARS as int),
    );
    plus(
        plus(plus(plus(base, found), terms), opposite(derived_loss(row.path))),
        opposite(penalty),
    )
}

fn compute_lane_score(
    base: i64,
    found: i64,
    query: &str,
    row: &FoundRow,
    penalty: i64,
) -> (r: i64)
    ensures
        r == lane_score(base as int, found as int, query@, row@, penalty as int),
{
    let excerpt = truncate_chars(row.content.as_str(), LANE_EXCERPT_CHARS);
    let terms = lexical_candidate_bonus(
        query,
        row.path.as_str(),
        row.title.as_str(),
        row.heading.as_str(),
        excerpt.as_str(),
    );
    let raised = add_scores(add_scores(base, found), terms);
    let lowered = subtract_scores(raised, derived_penalty(row.path.as_str()));
    subtract_scores(lowered, penalty)
}

/// The base score of what is found by its words: 3.
pub const LEXICAL_SCORE: i64 = 0x4008_0000_0000_0000;

/// What the lexical lane makes of a row that it found with a rank.
pub fn lexical_candidate(
    row: FoundRow,
    rank: i64,
    query: &str,
    superseded: bool,
    supersession_enabled: bool,
    supersession_weight: i64,
) -> (r: Candidate)
    ensures
        r@ == found_candidate(
            row@,
            lane_score(
                LEXICAL_SCORE as int,
                rank as int,
                query@,
                row@,
                if supersession_enabled && superseded {
                    supersession_weight as int
                } else {
                    0
                },
            ),
            "lexical"@,
        ),
{
    let penalty = supersession_penalty(superseded, supersession_enabled, supersession_weight);
    let score = compute_lane_score(LEXICAL_SCORE, rank, query, &row, penalty);
    make_candidate(row, score, "lexical")
}

/// How near a row is that was found at a distance: what is left of one, and not below
/// zero.
pub open spec fn nearness(distance: int) -> int {
    greater(plus(ONE as int, opposite(distance)), 0)
}

/// What the semantic lane makes of a row that it found at a distance.
pub fn semantic_candidate(
    row: FoundRow,
    distance: i64,
    query: &str,
    superseded: bool,
    supersession_enabled: bool,
    supersession_weight: i64,
) -> (r: Candidate)
    ensures
        r@ == found_candidate(
            row@,
            lane_score(
                TWO as int,
                nearness(distance as int),
                query@,
                row@,
                if supersession_enabled && superseded {
                    supersession_weight as int
                } else {
                    0
                },
            ),
            "semantic"@,
        ),
{
    let penalty = supersession_penalty(superseded, supersession_enabled, supersession_weight);
    let near = greater_score(subtract_scores(ONE, distance), 0);
    let score = compute_lane_score(TWO, near, query, &row, penalty);
    make_candidate(row, score, "semantic")
}

// ---------------------------------------------------------------------------
// Lexical queries
// ---------------------------------------------------------------------------

/// A clue as a quoted phrase; double quotes in it become blanks.
pub open spec fn phrase(clue: Seq<char>) -> Seq<char> {
    "\""@ + Seq::new(
        clue.len(),
        |i: int|
            if clue[i] == '"' {
                ' '
            } else {
                clue[i]
            },
    ) + "\""@
}

/// The queries by which the lexical lane looks for the clues of a query: one each, or
/// all in one.
pub open spec fn clue_queries(query: Seq<char>, single_scan: bool) -> Seq<Seq<char>> {
    let clues = used_clues(query);
    if single_scan && clues.len() > 0 {
        seq![joined(clues.map_values(|t: Seq<char>| phrase(t)), " OR "@)]
    } else {
        clues
    }
}

fn quote_phrase(clue: &str) -> (r: String)
    ensures
        r@ == phrase(clue@),
{
    let chars = chars_of(clue);
    let mut out: Vec<char> = Vec::new();
    let ghost goal = Seq::new(
        clue@.len(),
        |i: int|
            if clue@[i] == '"' {
                ' '
            } else {
                clue@[i]
            },
    );
    let mut i: usize = 0;
    while i < chars.len()
        invariant
            i <= chars@.len(),
            chars@ == clue@,
            goal == Seq::new(
                clue@.len(),
                |i: int|
                    if clue@[i] == '"' {
                        ' '
                    } else {
                        clue@[i]
                    },
            ),
            out@ == goal.take(i as int),
        decreases chars@.len() - i,
    {
        let c = if chars[i] == '"' {
            ' '
        } else {
            chars[i]
        };
        out.push(c);
        assert(goal.take(i + 1) =~= goal.take(i as int).push(c));
        i = i + 1;
    }
    assert(goal.take(i as int) =~= goal);
    let inner = string_of(&out);
    cat3("\"", inner.as_str(), "\"")
}

/// The queries by which the lexical lane looks for the clues of a query.
pub fn lexical_anchor_queries(query: &str, single_scan: bool) -> (r: Vec<String>)
    ensures
        texts(r@) == clue_queries(query@, single_scan),
{
    let anchors = search_anchors(query);
    let ghost clues = used_clues(query@);
    assert(texts(anchors@).len() == anchors@.len());
    if !single_scan || anchors.len() == 0 {
        return anchors;
    }
    let ghost f = |t: Seq<char>| phrase(t);
    let mut phrases: Vec<String> = Vec::new();
    let mut i: usize = 0;
    while i < anchors.len()
        invariant
            i <= anchors@.len(),
            clues == texts(anchors@),
            f == (|t: Seq<char>| phrase(t)),
            texts(phrases@) == clues.take(i as int).map_values(f),
        decreases anchors@.len() - i,
    {
        let ghost held = phrases@;
        let t = quote_phrase(anchors[i].as_str());
        phrases.push(t);
        proof {
            lemma_texts_push(held, t);
            crate::seqs::lemma_map_take(clues, f, i as int);
        }
        i = i + 1;
    }
    assert(clues.take(i as int) =~= clues);
    let one = join(&phrases, " OR ");
    let mut out: Vec<String> = Vec::new();
    out.push(one);
    assert(texts(out@) =~= clue_queries(query@, single_scan));
    out
}

/// The queries by which the lexical lane goes on: the focused ones where no clue was
/// found, none otherwise.
pub fn lexical_follow_up_queries(query: &str, anchor_hit: bool) -> (r: Vec<String>)
    ensures
        texts(r@) == if anchor_hit {
            Seq::empty()
        } else {
            focused_queries(query@)
        },
{
    if anchor_hit {
        let r: Vec<String> = Vec::new();
        assert(texts(r@) =~= Seq::empty());
        r
    } else {
        bounded_lexical_fallback_queries(query)
    }
}

// ---------------------------------------------------------------------------
// One answer
// ---------------------------------------------------------------------------

/// That the entry of a path is superseded.
#[derive(Debug)]
pub struct SupersededPath {
    pub path: String,
    pub annotation: SupersessionAnnotation,
}

/// The paths and notes of a table.
pub open spec fn table_view(v: Seq<SupersededPath>) -> Seq<(Seq<char>, AnnotationV)> {
    Seq::new(v.len(), |i: int| (v[i].path@, v[i].annotation@))
}

/// The note of a path, from the `i`th on.
pub open spec fn note_of(table: Seq<(Seq<char>, AnnotationV)>, path: Seq<char>, i: int) -> Option<
    AnnotationV,
>
    decreases table.len() - i,
{
    if i < 0 || i >= table.len() {
        None
    } else if table[i].0 == path {
        Some(table[i].1)
    } else {
        note_of(table, path, i + 1)
    }
}

/// The candidates with the notes of their paths, where notes are enabled and known.
pub open spec fn annotated(
    cs: Seq<CandidateV>,
    table: Option<Seq<(Seq<char>, AnnotationV)>>,
    enabled: bool,
) -> Seq<CandidateV> {
    match table {
        Some(t) => if enabled {
            Seq::new(
                cs.len(),
                |i: int| CandidateV { superseded_by: note_of(t, cs[i].path, 0), ..cs[i] },
            )
        } else {
            cs
        },
        None => cs,
    }
}

fn find_note(table: &Vec<SupersededPath>, path: &str) -> (r: Option<SupersessionAnnotation>)
    ensures
        annotation_view(r) == note_of(table_view(table@), path@, 0),
{
    let mut i: usize = 0;
    while i < table.len()
        invariant
            i <= table@.len(),
            note_of(table_view(table@), path@, 0) == note_of(
                table_view(table@),
                path@,
                i as int,
            ),
        decreases table@.len() - i,
    {
        assert(table_view(table@)[i as int] == (
            table@[i as int].path@,
            table@[i as int].annotation@,
        ));
        if same(table[i].path.as_str(), path) {
            return Some(table[i].annotation.copy());
        }
        i = i + 1;
    }
    None
}

pub open spec fn optional_table(t: Option<Vec<SupersededPath>>) -> Option<
    Seq<(Seq<char>, AnnotationV)>,
> {
    match t {
        Some(t) => Some(table_view(t@)),
        None => None,
    }
}

/// Puts to each candidate the note of its path.
pub fn annotate_candidates(
    candidates: &mut Vec<Candidate>,
    features: &Option<Vec<SupersededPath>>,
    enabled: bool,
)
    ensures
        candidates_view(final(candidates)@) == annotated(
            candidates_view(old(candidates)@),
            optional_table(*features),
            enabled,
        ),
{
    let ghost cs = candidates_view(candidates@);
    if !enabled {
        return ;
    }
    match features {
        None => {},
        Some(table) => {
            let ghost t = table_view(table@);
            let ghost goal = annotated(cs, Some(t), true);
            let ghost f = |c: Candidate| c@;
            let mut rest: Vec<Candidate> = Vec::new();
            std::mem::swap(candidates, &mut rest);
            let ghost all = rest@;
            let mut out: Vec<Candidate> = Vec::new();
            let ghost mut i = 0int;
            while rest.len() > 0
                invariant
                    0 <= i,
                    i + rest@.len() == all.len(),
                    rest@ == all.skip(i),
                    cs == candidates_view(all),
                    t == table_view(table@),
                    f == (|c: Candidate| c@),
                    goal == annotated(cs, Some(t), true),
                    candidates_view(out@) == goal.take(i),
                decreases rest@.len(),
            {
                let ghost held = out@;
                let mut c = rest.remove(0);
                proof {
                    assert(c == all[i]);
                    assert(cs[i] == c@);
                    assert(rest@ =~= all.skip(i + 1));
                }
                c.superseded_by = find_note(table, c.path.as_str());
                out.push(c);
                proof {
                    lemma_map_push(held, f, c);
                    assert(c@ =~= goal[i]);
                    assert(goal.take(i + 1) =~= goal.take(i).push(c@));
                    i = i + 1;
                }
            }
            assert(goal.take(i) =~= goal);
            *candidates = out;
        },
    }
}

/// The later of two generations, as far as they are known.
pub open spec fn later_generation(a: Option<i64>, b: Option<i64>) -> Option<i64> {
    match (a, b) {
        (Some(x), Some(y)) => if x >= y {
            Some(x)
        } else {
            Some(y)
        },
        (Some(x), None) => Some(x),
        (None, y) => y,
    }
}

pub fn latest_generation(a: Option<i64>, b: Option<i64>) -> (r: Option<i64>)
    ensures
        r == later_generation(a, b),
{
    match (a, b) {
        (Some(x), Some(y)) => if x >= y {
            Some(x)
        } else {
            Some(y)
        },
        (Some(x), None) => Some(x),
        (None, y) => y,
    }
}

/// What came of the exact or the lexical lane.
#[derive(Debug)]
pub enum LaneResult {
    Found { candidates: Vec<Candidate>, generation: Option<i64> },
    Failed,
}

pub open spec fn lane_finds(lane: LaneResult) -> Seq<CandidateV> {
    match lane {
        LaneResult::Found { candidates, .. } => candidates_view(candidates@),
        LaneResult::Failed => Seq::empty(),
    }
}

pub open spec fn lane_generation(lane: LaneResult) -> Option<i64> {
    match lane {
        LaneResult::Found { generation, .. } => generation,
        LaneResult::Failed => None,
    }
}

/// The failures of the exact and the lexical lane.
pub open spec fn core_failures(exact: LaneResult, lexical: LaneResult) -> Seq<Seq<char>> {
    (if exact is Failed {
        seq!["exact"@]
    } else {
        Seq::empty()
    }) + (if lexical is Failed {
        seq!["lexical"@]
    } else {
        Seq::empty()
    })
}

/// The answer to one query.
#[derive(Debug)]
pub struct SearchAnswer {
    pub candidates: Vec<Candidate>,
    pub failures: Vec<String>,
    pub workspace_generation: Option<i64>,
    pub timings: RetrievalTimings,
    /// That the semantic lane was not waited for.
    pub opportunistic_miss: bool,
}

/// The candidates of an answer: the finds of all lanes, one for each entry, with
/// notes, in order, the first ones.
pub open spec fn answer_candidates(
    exact: LaneResult,
    lexical: LaneResult,
    semantic: Option<SemanticOutcome>,
    table: Option<Seq<(Seq<char>, AnnotationV)>>,
    enabled: bool,
    order: SearchSort,
    limit: int,
) -> Seq<CandidateV> {
    let core = merged_all(merged_all(Seq::empty(), lane_finds(exact)), lane_finds(lexical));
    let all = merged_all(core, semantic_finds(semantic));
    first_of(sorted(candidate_order(order), annotated(all, table, enabled)), limit)
}

/// The times of the exact and of the lexical lane.
pub open spec fn core_times(times: (u32, u32)) -> RetrievalTimings {
    RetrievalTimings {
        exact: times.0,
        lexical: times.1,
        semantic_ready: 0,
        semantic: 0,
        embed: 0,
        semantic_db: 0,
        merge: 0,
        total: 0,
    }
}

/// Makes one answer of what the lanes found. The exact and the lexical lane took
/// `times`, in microseconds.
pub fn answer_query(
    exact: LaneResult,
    lexical: LaneResult,
    semantic: Option<SemanticLaneReport>,
    times: (u32, u32),
    lanes: RetrievalLaneSelection,
    features: &Option<Vec<SupersededPath>>,
    supersession_enabled: bool,
    order: SearchSort,
    limit: usize,
) -> (r: SearchAnswer)
    ensures
        candidates_view(r.candidates@) == answer_candidates(
            exact,
            lexical,
            reported(semantic),
            optional_table(*features),
            supersession_enabled,
            order,
            limit as int,
        ),
        texts(r.failures@) == with_failure(
            core_failures(exact, lexical),
            reported(semantic),
            lanes.semantic_only,
        ),
        r.workspace_generation == later_generation(
            lane_generation(exact),
            lane_generation(lexical),
        ),
        r.opportunistic_miss == (semantic is None && !lanes.semantic_only),
        r.timings == with_semantic(core_times(times), semantic),
{
    let mut merged: Vec<Candidate> = Vec::new();
    let mut failures: Vec<String> = Vec::new();
    let mut generation: Option<i64> = None;
    let ghost none = Seq::<CandidateV>::empty();
    assert(candidates_view(merged@) =~= none);
    assert(merged_all(none, none) == none);
    match exact {
        LaneResult::Found { candidates, generation: found } => {
            generation = latest_generation(generation, found);
            merge_candidates(&mut merged, candidates);
        },
        LaneResult::Failed => {
            failures.push("exact".to_owned());
        },
    }
    let ghost first = candidates_view(merged@);
    assert(merged_all(first, none) == first);
    assert(texts(failures@) =~= if exact is Failed {
        seq!["exact"@]
    } else {
        Seq::empty()
    });
    let ghost held = texts(failures@);
    match lexical {
        LaneResult::Found { candidates, generation: found } => {
            generation = latest_generation(generation, found);
            merge_candidates(&mut merged, candidates);
        },
        LaneResult::Failed => {
            failures.push("lexical".to_owned());
        },
    }
    assert(texts(failures@) =~= core_failures(exact, lexical));
    let mut timings = RetrievalTimings { exact: times.0, lexical: times.1, ..RetrievalTimings::none() };
    let miss = apply_semantic_outcome(
        semantic,
        lanes.semantic_only,
        &mut merged,
        &mut failures,
        &mut timings,
    );
    annotate_candidates(&mut merged, features, supersession_enabled);
    sort_candidates(&mut merged, order);
    let ghost full = candidates_view(merged@);
    merged.truncate(limit);
    assert(candidates_view(merged@) =~= first_of(full, limit as int));
    SearchAnswer {
        candidates: merged,
        failures,
        workspace_generation: generation,
        timings,
        opportunistic_miss: miss,
    }
}

}
