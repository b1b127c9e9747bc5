//! Opening the workspace for a task: what the client hints at, what it worked on
//! before, and what a search for the task finds become one answer.
use vstd::prelude::*;

use crate::budget::plan_tokens;
#[allow(unused_imports)]
use crate::budget::{fit, planned_tokens, MAX_TOKEN_BUDGET};
use crate::candidate::{
    copy_candidates, has_text, merge_candidates, sort_candidates, Candidate, CandidateSection,
    SearchSort, VerbatimMatch,
};
#[allow(unused_imports)]
use crate::candidate::{
    candidate_order, candidates_view, distinct_entries, merged_all, option_view, AnnotationV,
    CandidateV,
};
#[allow(unused_imports)]
use crate::deltas::{lemma_deltas_within_budget, shown_chars, with_pairs, PairV};
use crate::envelope::{put_some, revision, Reply, ResponseStatus};
#[allow(unused_imports)]
use crate::envelope::{revision_text, with_some, ReplyV};
use crate::error::ApiError;
#[allow(unused_imports)]
use crate::error::{refusal, ApiErrorV};
use crate::json::Json;
#[allow(unused_imports)]
use crate::json::{integer, items_view, object, optional_integer, optional_text, JsonV};
use crate::lanes::{annotate_candidates, retrieval_lane_gap, SupersededPath};
#[allow(unused_imports)]
use crate::lanes::{annotated, lane_gap, lemma_core_finds_are_kept, optional_table};
use crate::listing::ChangePage;
#[allow(unused_imports)]
use crate::order::{lemma_slot, slot, sorted};
use crate::outside::{entry_ref, uuid_parse};
#[allow(unused_imports)]
use crate::outside::{entry_ref_text, uuid_value};
use crate::paths::{portable_path_key, validate_path};
#[allow(unused_imports)]
use crate::paths::{path_key, safe_path};
use crate::read::{summary_lookup, EntryRow, LookupStep};
#[allow(unused_imports)]
use crate::read::{lookup_steps, steps_view, StepV};
use crate::render::render_evidence_lead;
#[allow(unused_imports)]
use crate::render::{
    checkpoint_cut, evidence_steps, lead_json, lemma_evidence_within_budget, optional_json,
    planned_chars, tokens_after, DocumentV,
};
use crate::requests::{OpenHints, OpenRequest};
#[allow(unused_imports)]
use crate::seqs::{
    first_of, lemma_filter_empty, lemma_filter_take, lemma_map_push, lemma_texts_push,
};
use crate::text::{lower, same, starts_with, trim};
#[allow(unused_imports)]
use crate::text::{has_prefix, texts, trimmed, lower_case};

verus! {

/// How many candidates an answer tells of.
pub const OPEN_CANDIDATE_LIMIT: usize = 32;

/// How many sources a client may hint at.
pub const MAX_OPEN_HINTS: usize = 32;

/// How many changes since a checkpoint an answer tells of.
pub const OPEN_CHANGES: i64 = 200;

/// The score of a source that the client hints at: 40.
pub const HINT_SCORE: i64 = 0x4044_0000_0000_0000;

/// The score of a source of the task that changed: 30.
pub const CHANGED_SCORE: i64 = 0x403e_0000_0000_0000;

/// The score of a source of the task that did not change: 20.
pub const CONTINUED_SCORE: i64 = 0x4034_0000_0000_0000;

/// For how many microseconds it is told where the owner is.
pub const PRESENCE_MICROS: i64 = 604_800_000_000;

// ---------------------------------------------------------------------------
// The request
// ---------------------------------------------------------------------------

/// Accepts a request; gives the tokens its answer is planned for.
pub fn open_budget(request: &OpenRequest) -> (r: Result<usize, ApiError>)
    ensures
        refusal(r) == if trimmed(request.task@).len() == 0 {
            Some(ApiErrorV::Invalid("task is required"@))
        } else {
            None
        },
        r is Ok ==> r->Ok_0 == planned_tokens(request.token_budget),
{
    let task = trim(request.task.as_str());
    if task.as_str().unicode_len() == 0 {
        return Err(ApiError::invalid("task is required"));
    }
    Ok(plan_tokens(request.token_budget))
}

/// The generation of the workspace at which a checkpoint was made.
pub fn checkpoint_generation(checkpoint: &Option<Json>) -> (r: Option<i64>)
    ensures
        match optional_json(*checkpoint) {
            Some(c) => match c.get_integer("workspace_generation"@) {
                Some(g) => r is Some && r->0 == g,
                None => r is None,
            },
            None => r is None,
        },
{
    match checkpoint {
        Some(c) => c.get_integer("workspace_generation"),
        None => None,
    }
}

/// Whether the generation of the workspace is looked up before anything else.
pub fn looks_up_generation(roundtrip: bool, demotion: bool, ledger: bool) -> (r: bool)
    ensures
        r == (!roundtrip || demotion || ledger),
{
    !roundtrip || demotion || ledger
}

/// The generation an answer tells: the one looked up at first, or else the one that
/// came with the sources.
pub fn open_generation(eager: Option<i64>, hydrated: Option<i64>) -> (r: Result<i64, ApiError>)
    ensures
        refusal(r) == if eager is None && hydrated is None {
            Some(
                ApiErrorV::Internal("read-path hydration did not return workspace generation"@),
            )
        } else {
            None
        },
        r is Ok ==> r->Ok_0 == match eager {
            Some(g) => g,
            None => hydrated->0,
        },
{
    match eager {
        Some(g) => Ok(g),
        None => match hydrated {
            Some(g) => Ok(g),
            None => Err(
                ApiError::internal("read-path hydration did not return workspace generation"),
            ),
        },
    }
}

/// The tokens that are left behind some characters, which take whole tokens.
pub open spec fn tokens_left(tokens: int, charged_chars: int) -> int {
    if tokens >= fit(charged_chars + 3) / 4 {
        tokens - fit(charged_chars + 3) / 4
    } else {
        0
    }
}

/// The tokens that are left for evidence behind what tells of changes.
pub fn tokens_behind_deltas(tokens: usize, charged_chars: usize) -> (r: usize)
    ensures
        r == tokens_left(tokens as int, charged_chars as int),
{
    let padded: usize = if charged_chars <= usize::MAX - 3 {
        charged_chars + 3
    } else {
        usize::MAX
    };
    let used: usize = padded / 4;
    if tokens >= used {
        tokens - used
    } else {
        0
    }
}

/// The characters of the text that a checkpoint is shown with.
pub open spec fn checkpoint_chars(checkpoint: Option<JsonV>) -> int {
    match checkpoint {
        Some(v) => match v.get_text("text"@) {
            Some(t) => t.len() as int,
            None => 0,
        },
        None => 0,
    }
}

/// The checkpoint, what tells of its changed sources, and the sources that are shown
/// share one budget: together they never have more characters than it.
pub proof fn lemma_answer_within_budget(
    checkpoint: Option<JsonV>,
    tokens: int,
    pairs: Seq<PairV>,
    cs: Seq<CandidateV>,
    docs: Seq<DocumentV>,
)
    requires
        0 <= tokens <= MAX_TOKEN_BUDGET,
    ensures
        ({
            let behind_checkpoint = tokens_after(checkpoint, tokens);
            let deltas = with_pairs(pairs, fit(4 * behind_checkpoint));
            let behind_deltas = tokens_left(behind_checkpoint, deltas.charged);
            checkpoint_chars(checkpoint_cut(checkpoint, tokens)) + shown_chars(deltas.deltas)
                + planned_chars(evidence_steps(cs, docs, 0, fit(4 * behind_deltas)), cs, docs) <= 4
                * tokens
        }),
{
    reveal_strlit("text");
    reveal_strlit("text_truncated");
    assert("text"@.len() == 4);
    assert("text_truncated"@.len() == 14);
    let behind_checkpoint = tokens_after(checkpoint, tokens);
    assert(4 * behind_checkpoint + checkpoint_chars(checkpoint_cut(checkpoint, tokens)) <= 4
        * tokens);
    lemma_deltas_within_budget(pairs, fit(4 * behind_checkpoint));
    let deltas = with_pairs(pairs, fit(4 * behind_checkpoint));
    let behind_deltas = tokens_left(behind_checkpoint, deltas.charged);
    lemma_evidence_within_budget(cs, docs, 0, fit(4 * behind_deltas));
}

// ---------------------------------------------------------------------------
// Hints
// ---------------------------------------------------------------------------

/// Whether a hint is there already, whatever the case of its letters.
pub open spec fn is_hinted(hints: Seq<Seq<char>>, hint: Seq<char>) -> bool {
    exists|k: int|
        0 <= k < hints.len() && lower_case(#[trigger] hints[k]) == lower_case(hint)
}

/// The hints without the space around them, each once, the empty ones left out.
pub open spec fn distinct_hints(hints: Seq<Seq<char>>) -> Seq<Seq<char>>
    decreases hints.len(),
{
    if hints.len() == 0 {
        Seq::empty()
    } else {
        let front = distinct_hints(hints.drop_last());
        let hint = trimmed(hints.last());
        if hint.len() == 0 || is_hinted(front, hint) {
            front
        } else {
            front.push(hint)
        }
    }
}

/// Everything that a client hints at, in its order.
pub open spec fn all_hints(hints: OpenHints) -> Seq<Seq<char>> {
    texts(hints.root_refs@) + texts(hints.open_object_refs@)
}

fn put_hint(requested: &mut Vec<String>, seen: &mut Vec<String>, raw: &str)
    requires
        texts(old(seen)@) == texts(old(requested)@).map_values(|t: Seq<char>| lower_case(t)),
    ensures
        texts(final(seen)@) == texts(final(requested)@).map_values(
            |t: Seq<char>| lower_case(t),
        ),
        texts(final(requested)@) == if trimmed(raw@).len() == 0 || is_hinted(
            texts(old(requested)@),
            trimmed(raw@),
        ) {
            texts(old(requested)@)
        } else {
            texts(old(requested)@).push(trimmed(raw@))
        },
{
    let ghost f = |t: Seq<char>| lower_case(t);
    let ghost held = requested@;
    let ghost kept = seen@;
    let hint = trim(raw);
    if hint.as_str().unicode_len() == 0 {
        return ;
    }
    let key = lower(hint.as_str());
    if has_text(seen, key.as_str()) {
        proof {
            let k = choose|k: int| 0 <= k < texts(kept).len() && texts(kept)[k] == key@;
            assert(lower_case(texts(held)[k]) == lower_case(hint@));
        }
        return ;
    }
    proof {
        if is_hinted(texts(held), hint@) {
            let k = choose|k: int|
                0 <= k < texts(held).len() && lower_case(#[trigger] texts(held)[k])
                    == lower_case(hint@);
            assert(texts(kept)[k] == key@);
        }
        lemma_texts_push(kept, key);
        lemma_texts_push(held, hint);
        lemma_map_push(texts(held), f, hint@);
    }
    seen.push(key);
    requested.push(hint);
}

/// The sources that a client hints at.
pub fn requested_hints(hints: &OpenHints) -> (r: Result<Vec<String>, ApiError>)
    ensures
        refusal(r) == if distinct_hints(all_hints(*hints)).len() > MAX_OPEN_HINTS {
            Some(
                ApiErrorV::Invalid(
                    "open hints are limited to 32 exact paths or entry references"@,
                ),
            )
        } else {
            None
        },
        r is Ok ==> texts(r->Ok_0@) == distinct_hints(all_hints(*hints)),
{
    let ghost roots = texts(hints.root_refs@);
    let ghost all = all_hints(*hints);
    let mut requested: Vec<String> = Vec::new();
    let mut seen: Vec<String> = Vec::new();
    let ghost f = |t: Seq<char>| lower_case(t);
    assert(texts(requested@) =~= distinct_hints(all.take(0)));
    assert(texts(seen@) =~= texts(requested@).map_values(f));
    let mut i: usize = 0;
    while i < hints.root_refs.len()
        invariant
            i <= hints.root_refs@.len(),
            all == all_hints(*hints),
            texts(requested@) == distinct_hints(all.take(i as int)),
            texts(seen@) == texts(requested@).map_values(|t: Seq<char>| lower_case(t)),
        decreases hints.root_refs@.len() - i,
    {
        proof {
            assert(all.take(i + 1).drop_last() =~= all.take(i as int));
            assert(all.take(i + 1).last() == hints.root_refs@[i as int]@);
        }
        put_hint(&mut requested, &mut seen, hints.root_refs[i].as_str());
        i = i + 1;
    }
    let mut j: usize = 0;
    while j < hints.open_object_refs.len()
        invariant
            j <= hints.open_object_refs@.len(),
            all == all_hints(*hints),
            texts(requested@) == distinct_hints(all.take(hints.root_refs@.len() + j)),
            texts(seen@) == texts(requested@).map_values(|t: Seq<char>| lower_case(t)),
        decreases hints.open_object_refs@.len() - j,
    {
        proof {
            let n = hints.root_refs@.len() + j;
            assert(all.take(n + 1).drop_last() =~= all.take(n));
            assert(all.take(n + 1).last() == hints.open_object_refs@[j as int]@);
        }
        put_hint(&mut requested, &mut seen, hints.open_object_refs[j].as_str());
        j = j + 1;
    }
    assert(all.take(hints.root_refs@.len() + j) =~= all);
    assert(texts(requested@).len() == requested@.len());
    if requested.len() > MAX_OPEN_HINTS {
        return Err(
            ApiError::invalid("open hints are limited to 32 exact paths or entry references"),
        );
    }
    Ok(requested)
}

/// Whether a hint names a source by a reference.
pub open spec fn is_reference(hint: Seq<char>) -> bool {
    has_prefix(hint, "entry:"@) || has_prefix(hint, "checkpoint:"@) || uuid_value(hint) is Some
}

/// How the source of a hint is looked up.
pub open spec fn hint_steps(hint: Seq<char>) -> Seq<StepV> {
    if is_reference(hint) {
        lookup_steps(None, Some(hint))
    } else {
        lookup_steps(Some(hint), None)
    }
}

/// Why a hint is not looked up.
pub open spec fn hint_refusal(hint: Seq<char>) -> Option<ApiErrorV> {
    if is_reference(hint) {
        if hint_steps(hint).len() == 0 {
            Some(ApiErrorV::Invalid("checkpoint sources require an exact path or entry ref"@))
        } else {
            None
        }
    } else if safe_path(hint) {
        None
    } else {
        Some(
            ApiErrorV::Invalid("open hints must be exact paths, entry refs, or checkpoint refs"@),
        )
    }
}

/// How the source of a hint is looked up: by its reference, or by its path.
pub fn hint_lookup(hint: &str) -> (r: Result<Vec<LookupStep>, ApiError>)
    ensures
        refusal(r) == hint_refusal(hint@),
        r is Ok ==> steps_view(r->Ok_0@) == hint_steps(hint@),
{
    let by_reference = starts_with(hint, "entry:") || starts_with(hint, "checkpoint:")
        || uuid_parse(hint).is_some();
    if by_reference {
        summary_lookup(&None, &Some(hint.to_owned()))
    } else if validate_path(hint).is_ok() {
        summary_lookup(&Some(hint.to_owned()), &None)
    } else {
        Err(ApiError::invalid("open hints must be exact paths, entry refs, or checkpoint refs"))
    }
}

/// What came of a hint.
#[derive(Debug)]
pub enum ResolvedHint {
    Found { entry: EntryRow },
    /// There is no such source.
    NotFound,
    /// The hint is not accepted, for a reason that clients are told.
    Refused { code: String, message: String },
    /// The lookup failed.
    Failed { error: ApiError },
}

/// What a hint finds.
pub open spec fn hint_candidate(entry: EntryRow) -> CandidateV {
    CandidateV {
        entry_id: entry.id,
        path: entry.path@,
        title: entry.title@,
        version: entry.version as int,
        updated_at: entry.updated_at,
        content_sha256: entry.content_sha256@,
        heading: Seq::empty(),
        excerpt: Seq::empty(),
        score: HINT_SCORE as int,
        lanes: seq!["hint"@],
        sections: Seq::empty(),
        verbatim_matches: Seq::empty(),
        superseded_by: None,
    }
}

fn make_hint_candidate(entry: EntryRow) -> (r: Candidate)
    ensures
        r@ == hint_candidate(entry),
{
    let mut lanes: Vec<String> = Vec::new();
    lanes.push("hint".to_owned());
    let sections: Vec<CandidateSection> = Vec::new();
    let verbatim_matches: Vec<VerbatimMatch> = Vec::new();
    let r = Candidate {
        entry_id: entry.id,
        path: entry.path,
        title: entry.title,
        version: entry.version,
        updated_at: entry.updated_at,
        content_sha256: entry.content_sha256,
        heading: String::new(),
        excerpt: String::new(),
        score: HINT_SCORE,
        lanes,
        sections,
        verbatim_matches,
        superseded_by: None,
    };
    proof {
        assert(r@.heading =~= Seq::empty());
        assert(r@.excerpt =~= Seq::empty());
        assert(r@ =~= hint_candidate(entry));
    }
    r
}

/// How it is told that a hint leads nowhere.
pub open spec fn hint_missing_gap(hint: Seq<char>) -> JsonV {
    object().with("kind"@, JsonV::Text("open_hint_not_found"@)).with(
        "hint"@,
        JsonV::Text(hint),
    ).with(
        "message"@,
        JsonV::Text("the exact hinted source was not found; other evidence was retained"@),
    )
}

/// How it is told that a hint was not accepted.
pub open spec fn hint_refused_gap(hint: Seq<char>, code: Seq<char>, message: Seq<char>) -> JsonV {
    object().with("kind"@, JsonV::Text("open_hint_invalid"@)).with("hint"@, JsonV::Text(hint)).with(
        "code"@,
        JsonV::Text(code),
    ).with("message"@, JsonV::Text(message))
}

/// What the hints found, in their order.
pub open spec fn hint_finds(results: Seq<(String, ResolvedHint)>) -> Seq<CandidateV>
    decreases results.len(),
{
    if results.len() == 0 {
        Seq::empty()
    } else {
        let front = hint_finds(results.drop_last());
        match results.last().1 {
            ResolvedHint::Found { entry } => front.push(hint_candidate(entry)),
            _ => front,
        }
    }
}

/// What is told of the hints that found nothing, in their order.
pub open spec fn hint_gaps(results: Seq<(String, ResolvedHint)>) -> Seq<JsonV>
    decreases results.len(),
{
    if results.len() == 0 {
        Seq::empty()
    } else {
        let front = hint_gaps(results.drop_last());
        let hint = results.last().0@;
        match results.last().1 {
            ResolvedHint::NotFound => front.push(hint_missing_gap(hint)),
            ResolvedHint::Refused { code, message } => front.push(
                hint_refused_gap(hint, code@, message@),
            ),
            _ => front,
        }
    }
}

/// The first failure among lookups.
pub open spec fn hint_failure(results: Seq<(String, ResolvedHint)>) -> Option<ApiErrorV>
    decreases results.len(),
{
    if results.len() == 0 {
        None
    } else {
        match results[0].1 {
            ResolvedHint::Failed { error } => Some(error@),
            _ => hint_failure(results.drop_first()),
        }
    }
}

/// Makes candidates of the hints that found a source, and tells of the others. A
/// lookup that failed fails the request.
pub fn hint_candidates(results: Vec<(String, ResolvedHint)>) -> (r: Result<
    (Vec<Candidate>, Vec<Json>),
    ApiError,
>)
    ensures
        refusal(r) == hint_failure(results@),
        r is Ok ==> candidates_view((r->Ok_0).0@) == hint_finds(results@) && items_view(
            (r->Ok_0).1@,
        ) == hint_gaps(results@),
{
    let ghost all = results@;
    let mut rest = results;
    let mut found: Vec<Candidate> = Vec::new();
    let mut gaps: Vec<Json> = Vec::new();
    let ghost mut i = 0int;
    assert(all.skip(0) =~= all);
    assert(candidates_view(found@) =~= hint_finds(all.take(0)));
    assert(items_view(gaps@) =~= hint_gaps(all.take(0)));
    while rest.len() > 0
        invariant
            0 <= i,
            i + rest@.len() == all.len(),
            all == results@,
            rest@ == all.skip(i),
            candidates_view(found@) == hint_finds(all.take(i)),
            items_view(gaps@) == hint_gaps(all.take(i)),
            hint_failure(all) == hint_failure(all.skip(i)),
        decreases rest@.len(),
    {
        let ghost held = found@;
        let ghost told = gaps@;
        let (hint, outcome) = rest.remove(0);
        proof {
            assert(all.skip(i)[0] == all[i]);
            assert((hint, outcome) == all[i]);
            assert(rest@ =~= all.skip(i + 1));
            assert(all.skip(i).drop_first() =~= all.skip(i + 1));
            assert(all.take(i + 1).drop_last() =~= all.take(i));
            assert(all.take(i + 1).last() == all[i]);
        }
        match outcome {
            ResolvedHint::Found { entry } => {
                let one = make_hint_candidate(entry);
                proof {
                    lemma_map_push(held, |c: Candidate| c@, one);
                }
                found.push(one);
            },
            ResolvedHint::NotFound => {
                let gap = Json::object().with("kind", Json::text("open_hint_not_found")).with(
                    "hint",
                    Json::Text(hint),
                ).with(
                    "message",
                    Json::text(
                        "the exact hinted source was not found; other evidence was retained",
                    ),
                );
                gaps.push(gap);
                assert(items_view(gaps@) =~= items_view(told).push(gap@));
            },
            ResolvedHint::Refused { code, message } => {
                let gap = Json::object().with("kind", Json::text("open_hint_invalid")).with(
                    "hint",
                    Json::Text(hint),
                ).with("code", Json::Text(code)).with("message", Json::Text(message));
                gaps.push(gap);
                assert(items_view(gaps@) =~= items_view(told).push(gap@));
            },
            ResolvedHint::Failed { error } => {
                return Err(error);
            },
        }
        proof {
            i = i + 1;
        }
    }
    assert(all.take(i) =~= all);
    Ok((found, gaps))
}

// ---------------------------------------------------------------------------
// Candidates
// ---------------------------------------------------------------------------

/// A source that the task goes on with.
pub open spec fn continued(c: CandidateV, changed: Seq<Seq<char>>) -> CandidateV {
    CandidateV {
        score: if changed.contains(path_key(c.path)) {
            CHANGED_SCORE as int
        } else {
            CONTINUED_SCORE as int
        },
        lanes: c.lanes.push("continuation"@),
        ..c
    }
}

pub open spec fn all_continued(cs: Seq<CandidateV>, changed: Seq<Seq<char>>) -> Seq<CandidateV> {
    Seq::new(cs.len(), |i: int| continued(cs[i], changed))
}

/// Scores the sources that the task goes on with: those that changed come first.
pub fn continuation_candidates(found: Vec<Candidate>, changed_keys: &Vec<String>) -> (r: Vec<
    Candidate,
>)
    ensures
        candidates_view(r@) == all_continued(candidates_view(found@), texts(changed_keys@)),
{
    let ghost all = found@;
    let ghost changed = texts(changed_keys@);
    let ghost goal = all_continued(candidates_view(all), changed);
    let mut rest = found;
    let mut out: Vec<Candidate> = Vec::new();
    let ghost mut i = 0int;
    assert(all.skip(0) =~= all);
    while rest.len() > 0
        invariant
            0 <= i,
            i + rest@.len() == all.len(),
            rest@ == all.skip(i),
            changed == texts(changed_keys@),
            goal == all_continued(candidates_view(all), changed),
            candidates_view(out@) == goal.take(i),
        decreases rest@.len(),
    {
        let ghost held = out@;
        let mut c = rest.remove(0);
        let ghost given = c@;
        proof {
            assert(all.skip(i)[0] == all[i]);
            assert(candidates_view(all)[i] == given);
            assert(rest@ =~= all.skip(i + 1));
        }
        let key = portable_path_key(c.path.as_str());
        let score: i64 = if has_text(changed_keys, key.as_str()) {
            CHANGED_SCORE
        } else {
            CONTINUED_SCORE
        };
        c.score = score;
        let ghost lanes = c.lanes@;
        let word = "continuation".to_owned();
        proof {
            lemma_texts_push(lanes, word);
        }
        c.lanes.push(word);
        proof {
            assert(c@ =~= continued(given, changed));
            lemma_map_push(held, |c: Candidate| c@, c);
            assert(goal.take(i + 1) =~= goal.take(i).push(goal[i]));
            i = i + 1;
        }
        out.push(c);
    }
    assert(goal.take(i) =~= goal);
    out
}

/// What a search for the task found.
#[derive(Debug)]
pub enum OpenSearch {
    Found { candidates: Vec<Candidate>, failures: Vec<String> },
    Failed,
}

pub open spec fn search_finds(search: OpenSearch) -> Seq<CandidateV> {
    match search {
        OpenSearch::Found { candidates, .. } => candidates_view(candidates@),
        OpenSearch::Failed => Seq::empty(),
    }
}

/// What failed: the lanes of the search or the search itself, then the lookup of
/// the sources that the task goes on with.
pub open spec fn open_failures(search: OpenSearch, continuation_failed: bool) -> Seq<Seq<char>> {
    let failed = match search {
        OpenSearch::Found { failures, .. } => texts(failures@),
        OpenSearch::Failed => seq!["search"@],
    };
    if continuation_failed {
        failed.push("continuation_exact"@)
    } else {
        failed
    }
}

/// The sources that the task goes on with, as far as they could be looked up.
pub open spec fn continuation_finds(continuation: Option<Vec<Candidate>>) -> Seq<CandidateV> {
    match continuation {
        Some(cs) => candidates_view(cs@),
        None => Seq::empty(),
    }
}

/// The candidates of an answer: one for each entry that was found in any way, with
/// notes, the best first, and no more than an answer tells of.
pub open spec fn open_choice(
    continuation: Seq<CandidateV>,
    hints: Seq<CandidateV>,
    search: Seq<CandidateV>,
    table: Option<Seq<(Seq<char>, AnnotationV)>>,
    enabled: bool,
) -> Seq<CandidateV> {
    let all = merged_all(merged_all(merged_all(Seq::empty(), continuation), hints), search);
    first_of(
        sorted(candidate_order(SearchSort::BestMatch), annotated(all, table, enabled)),
        OPEN_CANDIDATE_LIMIT as int,
    )
}

/// Makes one list of what was found: the sources that the task goes on with (`None`
/// where their lookup failed), the hints, and the finds of the search.
pub fn open_candidates(
    continuation: Option<Vec<Candidate>>,
    hints: Vec<Candidate>,
    search: OpenSearch,
    features: &Option<Vec<SupersededPath>>,
    supersession_enabled: bool,
) -> (r: (Vec<Candidate>, Vec<String>))
    ensures
        candidates_view(r.0@) == open_choice(
            continuation_finds(continuation),
            candidates_view(hints@),
            search_finds(search),
            optional_table(*features),
            supersession_enabled,
        ),
        texts(r.1@) == open_failures(search, continuation is None),
{
    let ghost followed = continuation_finds(continuation);
    let ghost hinted = candidates_view(hints@);
    let ghost none = Seq::<CandidateV>::empty();
    let continuation_failed = continuation.is_none();
    let mut merged: Vec<Candidate> = Vec::new();
    assert(candidates_view(merged@) =~= none);
    assert(merged_all(none, none) == none);
    match continuation {
        Some(cs) => {
            merge_candidates(&mut merged, cs);
        },
        None => {},
    }
    assert(candidates_view(merged@) == merged_all(none, followed));
    merge_candidates(&mut merged, hints);
    let ghost before_search = candidates_view(merged@);
    assert(merged_all(before_search, none) == before_search);
    let mut failures: Vec<String> = match search {
        OpenSearch::Found { candidates, failures } => {
            merge_candidates(&mut merged, candidates);
            failures
        },
        OpenSearch::Failed => {
            let mut failures: Vec<String> = Vec::new();
            failures.push("search".to_owned());
            assert(texts(failures@) =~= seq!["search"@]);
            failures
        },
    };
    if continuation_failed {
        let word = "continuation_exact".to_owned();
        proof {
            lemma_texts_push(failures@, word);
        }
        failures.push(word);
    }
    annotate_candidates(&mut merged, features, supersession_enabled);
    sort_candidates(&mut merged, SearchSort::BestMatch);
    let ghost full = candidates_view(merged@);
    merged.truncate(OPEN_CANDIDATE_LIMIT);
    assert(candidates_view(merged@) =~= first_of(full, OPEN_CANDIDATE_LIMIT as int));
    (merged, failures)
}

proof fn lemma_insert_distinct(v: Seq<CandidateV>, at: int, c: CandidateV)
    requires
        distinct_entries(v),
        0 <= at <= v.len(),
        forall|i: int| 0 <= i < v.len() ==> (#[trigger] v[i]).entry_id != c.entry_id,
    ensures
        distinct_entries(v.insert(at, c)),
{
    let w = v.insert(at, c);
    assert forall|i: int, j: int| 0 <= i < j < w.len() implies (#[trigger] w[i]).entry_id != (
    #[trigger] w[j]).entry_id by {
        if i != at {
            assert(w[i] == v[if i < at { i } else { i - 1 }]);
        }
        if j != at {
            assert(w[j] == v[if j < at { j } else { j - 1 }]);
        }
    }
}

proof fn lemma_sorted_distinct(first: spec_fn(CandidateV, CandidateV) -> bool, v: Seq<CandidateV>)
    requires
        distinct_entries(v),
    ensures
        distinct_entries(sorted(first, v)),
        forall|i: int|
            0 <= i < sorted(first, v).len() ==> v.contains(#[trigger] sorted(first, v)[i]),
        sorted(first, v).len() == v.len(),
    decreases v.len(),
{
    if v.len() > 0 {
        let front = sorted(first, v.drop_last());
        let c = v.last();
        lemma_sorted_distinct(first, v.drop_last());
        lemma_slot(first, front, c, front.len() as int);
        let at = slot(first, front, c, front.len() as int);
        assert forall|i: int| 0 <= i < front.len() implies (#[trigger] front[i]).entry_id
            != c.entry_id by {
            let k = choose|k: int| 0 <= k < v.drop_last().len() && v.drop_last()[k] == front[i];
            assert(v[k] == front[i]);
            assert(v[v.len() - 1] == c);
        }
        lemma_insert_distinct(front, at, c);
        let all = sorted(first, v);
        assert forall|i: int| 0 <= i < all.len() implies v.contains(#[trigger] all[i]) by {
            if i == at {
                assert(v[v.len() - 1] == c);
            } else {
                let m = if i < at { i } else { i - 1 };
                assert(all[i] == front[m]);
                let k = choose|k: int| 0 <= k < v.drop_last().len() && v.drop_last()[k] == front[m];
                assert(v[k] == front[m]);
            }
        }
    }
}

/// An answer tells of no more than so many entries, and of each of them once,
/// however it was found.
pub proof fn lemma_entries_are_told_once(
    continuation: Seq<CandidateV>,
    hints: Seq<CandidateV>,
    search: Seq<CandidateV>,
    table: Option<Seq<(Seq<char>, AnnotationV)>>,
    enabled: bool,
)
    ensures
        open_choice(continuation, hints, search, table, enabled).len() <= OPEN_CANDIDATE_LIMIT,
        distinct_entries(open_choice(continuation, hints, search, table, enabled)),
{
    let none = Seq::<CandidateV>::empty();
    let first = merged_all(none, continuation);
    let second = merged_all(first, hints);
    let all = merged_all(second, search);
    lemma_core_finds_are_kept(none, continuation);
    lemma_core_finds_are_kept(first, hints);
    lemma_core_finds_are_kept(second, search);
    let noted = annotated(all, table, enabled);
    assert(distinct_entries(noted)) by {
        assert forall|i: int, j: int| 0 <= i < j < noted.len() implies (#[trigger] noted[i]).entry_id
            != (#[trigger] noted[j]).entry_id by {
            assert(noted[i].entry_id == all[i].entry_id);
            assert(noted[j].entry_id == all[j].entry_id);
        }
    }
    lemma_sorted_distinct(candidate_order(SearchSort::BestMatch), noted);
}

// ---------------------------------------------------------------------------
// Evidence
// ---------------------------------------------------------------------------

/// Whether a candidate belongs to the task: it was hinted at, or the task goes on
/// with it.
pub open spec fn belongs(c: CandidateV) -> bool {
    c.lanes.contains("continuation"@) || c.lanes.contains("hint"@)
}

/// The candidates whose sources are shown: those that belong to the task, or all
/// where none does.
pub open spec fn evidence_choice(cs: Seq<CandidateV>) -> Seq<CandidateV> {
    let own = cs.filter(|c: CandidateV| belongs(c));
    if own.len() == 0 {
        cs
    } else {
        own
    }
}

/// The candidates whose sources are shown.
pub fn evidence_candidates(candidates: &Vec<Candidate>) -> (r: Vec<Candidate>)
    ensures
        candidates_view(r@) == evidence_choice(candidates_view(candidates@)),
{
    let ghost cs = candidates_view(candidates@);
    let ghost p = |c: CandidateV| belongs(c);
    let mut own: Vec<Candidate> = Vec::new();
    let mut i: usize = 0;
    proof {
        lemma_filter_empty(cs.take(0), p);
        assert(candidates_view(own@) =~= cs.take(0).filter(p));
    }
    while i < candidates.len()
        invariant
            i <= candidates@.len(),
            cs == candidates_view(candidates@),
            p == (|c: CandidateV| belongs(c)),
            candidates_view(own@) == cs.take(i as int).filter(p),
        decreases candidates@.len() - i,
    {
        let ghost held = own@;
        proof {
            lemma_filter_take(cs, p, i as int);
            assert(cs[i as int] == candidates@[i as int]@);
        }
        if has_text(&candidates[i].lanes, "continuation") || has_text(
            &candidates[i].lanes,
            "hint",
        ) {
            let one = candidates[i].copy();
            proof {
                lemma_map_push(held, |c: Candidate| c@, one);
            }
            own.push(one);
        }
        i = i + 1;
    }
    assert(cs.take(i as int) =~= cs);
    assert(candidates_view(own@).len() == own@.len());
    if own.len() == 0 {
        let all = copy_candidates(candidates, candidates.len());
        assert(cs.take(candidates@.len() as int) =~= cs);
        all
    } else {
        own
    }
}

/// Whether the evidence shows the source of an entry.
pub open spec fn is_shown(evidence: Seq<JsonV>, id: u128) -> bool {
    exists|k: int|
        0 <= k < evidence.len() && (#[trigger] evidence[k]).get_text("reference"@) == Some(
            entry_ref_text(id),
        )
}

/// The leads to the candidates whose sources are not shown.
pub open spec fn leads_of(cs: Seq<CandidateV>, evidence: Seq<JsonV>) -> Seq<JsonV>
    decreases cs.len(),
{
    if cs.len() == 0 {
        Seq::empty()
    } else {
        let front = leads_of(cs.drop_last(), evidence);
        if is_shown(evidence, cs.last().entry_id) {
            front
        } else {
            front.push(lead_json(cs.last()))
        }
    }
}

fn shows(evidence: &Vec<Json>, id: u128) -> (r: bool)
    ensures
        r == is_shown(items_view(evidence@), id),
{
    let ghost items = items_view(evidence@);
    let reference = entry_ref(id);
    let mut i: usize = 0;
    while i < evidence.len()
        invariant
            i <= evidence@.len(),
            items == items_view(evidence@),
            reference@ == entry_ref_text(id),
            forall|k: int|
                0 <= k < i ==> (#[trigger] items[k]).get_text("reference"@) != Some(
                    entry_ref_text(id),
                ),
        decreases evidence@.len() - i,
    {
        assert(items[i as int] == evidence@[i as int]@);
        match evidence[i].get_text("reference") {
            Some(t) => {
                if same(t.as_str(), reference.as_str()) {
                    return true;
                }
            },
            None => {},
        }
        i = i + 1;
    }
    false
}

/// Leads to the candidates whose sources are not shown, and behind them the leads
/// to what changed since a checkpoint.
pub fn evidence_leads(candidates: &Vec<Candidate>, evidence: &Vec<Json>, delta_leads: Vec<Json>) -> (r:
    Vec<Json>)
    ensures
        items_view(r@) == leads_of(candidates_view(candidates@), items_view(evidence@))
            + items_view(delta_leads@),
{
    let ghost cs = candidates_view(candidates@);
    let ghost items = items_view(evidence@);
    let ghost more = delta_leads@;
    let mut out: Vec<Json> = Vec::new();
    let mut i: usize = 0;
    assert(items_view(out@) =~= leads_of(cs.take(0), items));
    while i < candidates.len()
        invariant
            i <= candidates@.len(),
            cs == candidates_view(candidates@),
            items == items_view(evidence@),
            items_view(out@) == leads_of(cs.take(i as int), items),
        decreases candidates@.len() - i,
    {
        let ghost held = out@;
        proof {
            assert(cs[i as int] == candidates@[i as int]@);
            assert(cs.take(i + 1).drop_last() =~= cs.take(i as int));
            assert(cs.take(i + 1).last() == cs[i as int]);
        }
        if !shows(evidence, candidates[i].entry_id) {
            let lead = render_evidence_lead(&candidates[i]);
            out.push(lead);
            assert(items_view(out@) =~= items_view(held).push(lead@));
        }
        i = i + 1;
    }
    assert(cs.take(i as int) =~= cs);
    let ghost held = out@;
    let mut delta_leads = delta_leads;
    out.append(&mut delta_leads);
    assert(items_view(held + more) =~= items_view(held) + items_view(more));
    out
}

/// Nothing that was found is passed over: of every candidate either the source is
/// shown, or a lead to it is.
pub proof fn lemma_every_candidate_is_told(cs: Seq<CandidateV>, evidence: Seq<JsonV>, i: int)
    requires
        0 <= i < cs.len(),
    ensures
        is_shown(evidence, cs[i].entry_id) || leads_of(cs, evidence).contains(lead_json(cs[i])),
    decreases cs.len(),
{
    let front = leads_of(cs.drop_last(), evidence);
    if i < cs.len() - 1 {
        lemma_every_candidate_is_told(cs.drop_last(), evidence, i);
        assert(cs.drop_last()[i] == cs[i]);
        if front.contains(lead_json(cs[i])) {
            let k = choose|k: int| 0 <= k < front.len() && front[k] == lead_json(cs[i]);
            assert(leads_of(cs, evidence)[k] == front[k]);
        }
    } else if !is_shown(evidence, cs[i].entry_id) {
        assert(leads_of(cs, evidence)[front.len() as int] == lead_json(cs[i]));
    }
}

// ---------------------------------------------------------------------------
// Where the owner is
// ---------------------------------------------------------------------------

/// What is known of where the owner is.
#[derive(Clone, Copy, Debug)]
pub enum PresenceLookup {
    /// It was not asked.
    Off,
    Unknown,
    Failed,
    /// It was reported at this time, in microseconds since the epoch.
    Reported { reported_at: i64 },
}

/// Whether an answer tells where the owner is; where it does not, why.
#[derive(Clone, Copy, Debug, PartialEq, Eq, Structural)]
pub enum PresenceStep {
    Show,
    FlagOff,
    NoRow,
    LookupError,
    Stale,
}

/// Whether an answer that is given at a time tells where the owner is.
pub open spec fn presence_at(lookup: PresenceLookup, now: int) -> PresenceStep {
    match lookup {
        PresenceLookup::Off => PresenceStep::FlagOff,
        PresenceLookup::Unknown => PresenceStep::NoRow,
        PresenceLookup::Failed => PresenceStep::LookupError,
        PresenceLookup::Reported { reported_at } => if now - reported_at >= PRESENCE_MICROS {
            PresenceStep::Stale
        } else {
            PresenceStep::Show
        },
    }
}

/// Whether an answer tells where the owner is: only what was reported within the
/// last days counts.
pub fn presence_step(lookup: PresenceLookup, now: i64) -> (r: PresenceStep)
    ensures
        r == presence_at(lookup, now as int),
{
    match lookup {
        PresenceLookup::Off => PresenceStep::FlagOff,
        PresenceLookup::Unknown => PresenceStep::NoRow,
        PresenceLookup::Failed => PresenceStep::LookupError,
        PresenceLookup::Reported { reported_at } => {
            let age: i128 = now as i128 - reported_at as i128;
            if age >= PRESENCE_MICROS as i128 {
                PresenceStep::Stale
            } else {
                PresenceStep::Show
            }
        },
    }
}

/// The word by which an outcome is counted; `rendered` is whether what is shown
/// could be written out.
pub open spec fn presence_word(step: PresenceStep, rendered: bool) -> Seq<char> {
    match step {
        PresenceStep::FlagOff => "false:flag_off"@,
        PresenceStep::NoRow => "false:no_row"@,
        PresenceStep::LookupError => "false:lookup_error"@,
        PresenceStep::Stale => "false:stale"@,
        PresenceStep::Show => if rendered {
            "true"@
        } else {
            "false:render_error"@
        },
    }
}

/// The word by which an outcome is counted.
pub fn presence_label(step: PresenceStep, rendered: bool) -> (r: &'static str)
    ensures
        r@ == presence_word(step, rendered),
{
    match step {
        PresenceStep::FlagOff => "false:flag_off",
        PresenceStep::NoRow => "false:no_row",
        PresenceStep::LookupError => "false:lookup_error",
        PresenceStep::Stale => "false:stale",
        PresenceStep::Show => if rendered {
            "true"
        } else {
            "false:render_error"
        },
    }
}

// ---------------------------------------------------------------------------
// The answer
// ---------------------------------------------------------------------------

/// What an answer is made of.
#[derive(Debug)]
pub struct OpenAnswer {
    pub session_id: String,
    pub generation: i64,
    pub authorization_scope: Option<String>,
    pub evidence: Vec<Json>,
    pub leads: Vec<Json>,
    pub checkpoint: Option<Json>,
    pub checkpoint_text_truncated: bool,
    pub changes: ChangePage,
    /// Whether anything was found.
    pub found: bool,
    pub hint_gaps: Vec<Json>,
    pub failures: Vec<String>,
    pub owner_presence: Option<Json>,
    pub pending_intentions: Option<Vec<Json>>,
    pub resume_deltas: Option<Vec<Json>>,
}

/// How many sources are shown whole.
pub open spec fn complete_sources(evidence: Seq<JsonV>) -> nat
    decreases evidence.len(),
{
    if evidence.len() == 0 {
        0
    } else {
        complete_sources(evidence.drop_last()) + if evidence.last().get_text("representation"@)
            == Some("complete_source"@) {
            1nat
        } else {
            0
        }
    }
}

pub open spec fn optional_items(items: Option<Vec<Json>>) -> Option<JsonV> {
    match items {
        Some(v) => Some(JsonV::Array(items_view(v@))),
        None => None,
    }
}

pub open spec fn sufficiency_json(a: OpenAnswer) -> JsonV {
    object().with(
        "status"@,
        JsonV::Text(
            if a.found {
                "bounded_evidence"@
            } else {
                "no_evidence"@
            },
        ),
    ).with(
        "complete_source_count"@,
        integer(complete_sources(items_view(a.evidence@)) as int),
    ).with("selected_source_count"@, integer(a.evidence@.len() as int)).with(
        "pointer_source_count"@,
        integer(a.leads@.len() as int),
    )
}

/// What an answer holds.
pub open spec fn open_data(a: OpenAnswer) -> JsonV {
    let plain = object().with("workspace_generation"@, integer(a.generation as int)).with(
        "authorization_scope"@,
        optional_text(option_view(a.authorization_scope)),
    ).with("evidence"@, JsonV::Array(items_view(a.evidence@))).with(
        "evidence_leads"@,
        JsonV::Array(items_view(a.leads@)),
    ).with(
        "checkpoint"@,
        match a.checkpoint {
            Some(c) => c@,
            None => JsonV::Null,
        },
    ).with("changes_since_checkpoint"@, JsonV::Array(items_view(a.changes.changes@))).with(
        "changes_truncated"@,
        JsonV::Bool(a.changes.truncated),
    ).with("next_changes_generation"@, optional_integer(a.changes.next_generation)).with(
        "checkpoint_text_truncated"@,
        JsonV::Bool(a.checkpoint_text_truncated),
    ).with("retrieval_sufficiency"@, sufficiency_json(a));
    with_some(
        with_some(
            with_some(plain, "owner_presence"@, optional_json(a.owner_presence)),
            "pending_intentions"@,
            optional_items(a.pending_intentions),
        ),
        "resume_deltas"@,
        optional_items(a.resume_deltas),
    )
}

pub open spec fn checkpoint_gap() -> JsonV {
    object().with("kind"@, JsonV::Text("checkpoint_text_budget"@)).with(
        "message"@,
        JsonV::Text("checkpoint text was truncated to the requested open budget"@),
    )
}

/// What is missing from an answer apart from lanes that failed.
pub open spec fn plain_gaps(a: OpenAnswer) -> Seq<JsonV> {
    (if a.checkpoint_text_truncated {
        seq![checkpoint_gap()]
    } else {
        Seq::empty()
    }) + items_view(a.hint_gaps@)
}

pub open spec fn lane_gaps(lanes: Seq<Seq<char>>) -> Seq<JsonV> {
    Seq::new(lanes.len(), |i: int| lane_gap(lanes[i]))
}

/// How far a request was carried out: where a lane failed, by whether anything was
/// found all the same; otherwise, by whether anything is missing.
pub open spec fn open_status(a: OpenAnswer) -> ResponseStatus {
    if a.failures@.len() > 0 {
        if a.found {
            ResponseStatus::Partial
        } else {
            ResponseStatus::Degraded
        }
    } else if plain_gaps(a).len() > 0 {
        ResponseStatus::Partial
    } else {
        ResponseStatus::Complete
    }
}

pub open spec fn open_reply_of(a: OpenAnswer) -> ReplyV {
    ReplyV {
        session_id: Some(a.session_id@),
        corpus_revision: Some(revision_text(a.generation as int)),
        status: open_status(a),
        data: open_data(a),
        gaps: plain_gaps(a) + lane_gaps(texts(a.failures@)),
    }
}

fn count_complete(evidence: &Vec<Json>) -> (r: usize)
    ensures
        r == complete_sources(items_view(evidence@)),
{
    let ghost items = items_view(evidence@);
    let mut n: usize = 0;
    let mut i: usize = 0;
    assert(items.take(0) =~= Seq::<JsonV>::empty());
    while i < evidence.len()
        invariant
            i <= evidence@.len(),
            n <= i,
            items == items_view(evidence@),
            n == complete_sources(items.take(i as int)),
        decreases evidence@.len() - i,
    {
        proof {
            assert(items[i as int] == evidence@[i as int]@);
            assert(items.take(i + 1).drop_last() =~= items.take(i as int));
            assert(items.take(i + 1).last() == items[i as int]);
        }
        match evidence[i].get_text("representation") {
            Some(t) => {
                if same(t.as_str(), "complete_source") {
                    n = n + 1;
                }
            },
            None => {},
        }
        i = i + 1;
    }
    assert(items.take(i as int) =~= items);
    n
}

fn put_list(j: Json, key: &str, items: Option<Vec<Json>>) -> (r: Json)
    ensures
        r@ == with_some(j@, key@, optional_items(items)),
{
    match items {
        Some(v) => j.with(key, Json::array(v)),
        None => j,
    }
}

fn write_gaps(answer: &OpenAnswer) -> (r: Vec<Json>)
    ensures
        items_view(r@) == plain_gaps(*answer) + lane_gaps(texts(answer.failures@)),
{
    let mut gaps: Vec<Json> = Vec::new();
    if answer.checkpoint_text_truncated {
        gaps.push(
            Json::object().with("kind", Json::text("checkpoint_text_budget")).with(
                "message",
                Json::text("checkpoint text was truncated to the requested open budget"),
            ),
        );
    }
    let ghost first = items_view(gaps@);
    let ghost hinted = items_view(answer.hint_gaps@);
    assert(first + hinted =~= plain_gaps(*answer));
    let mut i: usize = 0;
    while i < answer.hint_gaps.len()
        invariant
            i <= answer.hint_gaps@.len(),
            hinted == items_view(answer.hint_gaps@),
            items_view(gaps@) =~= first + hinted.take(i as int),
        decreases answer.hint_gaps@.len() - i,
    {
        let ghost held = gaps@;
        let gap = answer.hint_gaps[i].copy();
        gaps.push(gap);
        proof {
            assert(hinted[i as int] == answer.hint_gaps@[i as int]@);
            assert(items_view(gaps@) =~= items_view(held).push(gap@));
            assert(hinted.take(i + 1) =~= hinted.take(i as int).push(gap@));
        }
        i = i + 1;
    }
    assert(hinted.take(i as int) =~= hinted);
    let ghost plain = items_view(gaps@);
    let ghost lanes = lane_gaps(texts(answer.failures@));
    let mut k: usize = 0;
    while k < answer.failures.len()
        invariant
            k <= answer.failures@.len(),
            lanes == lane_gaps(texts(answer.failures@)),
            items_view(gaps@) =~= plain + lanes.take(k as int),
        decreases answer.failures@.len() - k,
    {
        let ghost held = gaps@;
        let gap = retrieval_lane_gap(answer.failures[k].as_str());
        gaps.push(gap);
        proof {
            assert(lanes[k as int] == gap@);
            assert(items_view(gaps@) =~= items_view(held).push(gap@));
            assert(lanes.take(k + 1) =~= lanes.take(k as int).push(gap@));
        }
        k = k + 1;
    }
    assert(lanes.take(k as int) =~= lanes);
    gaps
}

/// The reply to a client that begins to work on a task.
pub fn open_reply(answer: OpenAnswer) -> (r: Reply)
    ensures
        r@ == open_reply_of(answer),
{
    let ghost given = answer;
    let gaps = write_gaps(&answer);
    let status = if answer.failures.len() > 0 {
        if answer.found {
            ResponseStatus::Partial
        } else {
            ResponseStatus::Degraded
        }
    } else if answer.checkpoint_text_truncated || answer.hint_gaps.len() > 0 {
        ResponseStatus::Partial
    } else {
        ResponseStatus::Complete
    };
    assert(items_view(answer.hint_gaps@).len() == answer.hint_gaps@.len());
    assert(status == open_status(given));
    let sufficiency = Json::object().with(
        "status",
        Json::text(
            if answer.found {
                "bounded_evidence"
            } else {
                "no_evidence"
            },
        ),
    ).with("complete_source_count", Json::count(count_complete(&answer.evidence))).with(
        "selected_source_count",
        Json::count(answer.evidence.len()),
    ).with("pointer_source_count", Json::count(answer.leads.len()));
    assert(sufficiency@ == sufficiency_json(given));
    let checkpoint = match answer.checkpoint {
        Some(c) => c,
        None => Json::Null,
    };
    let plain = Json::object().with("workspace_generation", Json::integer(answer.generation)).with(
        "authorization_scope",
        Json::optional_text(&answer.authorization_scope),
    ).with("evidence", Json::array(answer.evidence)).with(
        "evidence_leads",
        Json::array(answer.leads),
    ).with("checkpoint", checkpoint).with(
        "changes_since_checkpoint",
        Json::array(answer.changes.changes),
    ).with("changes_truncated", Json::Bool(answer.changes.truncated)).with(
        "next_changes_generation",
        Json::optional_integer(answer.changes.next_generation),
    ).with("checkpoint_text_truncated", Json::Bool(answer.checkpoint_text_truncated)).with(
        "retrieval_sufficiency",
        sufficiency,
    );
    let data = put_list(
        put_list(
            put_some(plain, "owner_presence", answer.owner_presence),
            "pending_intentions",
            answer.pending_intentions,
        ),
        "resume_deltas",
        answer.resume_deltas,
    );
    assert(data@ == open_data(given));
    Reply {
        session_id: Some(answer.session_id),
        corpus_revision: Some(revision(answer.generation)),
        status,
        data,
        gaps,
    }
}

/// An answer is complete exactly where nothing failed and nothing is missing, and
/// what is missing is told.
pub proof fn lemma_gaps_are_told(a: OpenAnswer)
    ensures
        open_status(a) == ResponseStatus::Complete <==> open_reply_of(a).gaps.len() == 0,
        open_status(a) == ResponseStatus::Degraded <==> a.failures@.len() > 0 && !a.found,
        forall|k: int|
            0 <= k < a.failures@.len() ==> open_reply_of(a).gaps.contains(
                #[trigger] lane_gap(texts(a.failures@)[k]),
            ),
{
    let lanes = lane_gaps(texts(a.failures@));
    assert forall|k: int| 0 <= k < a.failures@.len() implies open_reply_of(a).gaps.contains(
        #[trigger] lane_gap(texts(a.failures@)[k]),
    ) by {
        assert(open_reply_of(a).gaps[plain_gaps(a).len() + k] == lanes[k]);
    }
}

}
