//! Laws of opening the workspace: no hint is lost, the sources of the task go first, and
//! an answer says what was found.
use vstd::prelude::*;

#[allow(unused_imports)]
use crate::candidate::{option_view, CandidateV};
#[allow(unused_imports)]
use crate::error::ApiErrorV;
#[allow(unused_imports)]
use crate::json::{integer, items_view, optional_integer, optional_text, JsonV};
#[allow(unused_imports)]
use crate::open::{
    all_continued, belongs, complete_sources, continued, distinct_hints, evidence_choice,
    hint_candidate, hint_failure, hint_finds, hint_gaps, is_hinted, is_shown, leads_of, open_data,
    open_failures, presence_at, presence_word, sufficiency_json, OpenAnswer, OpenSearch,
    PresenceLookup, PresenceStep,
    ResolvedHint,
};
#[allow(unused_imports)]
use crate::outside::entry_ref_text;
#[allow(unused_imports)]
use crate::paths::path_key;
#[allow(unused_imports)]
use crate::read::EntryRow;
#[allow(unused_imports)]
use crate::render::{checkpoint_cut, checkpoint_is_cut, lead_json, tokens_after};
#[allow(unused_imports)]
use crate::seqs::lemma_filter_places;
#[allow(unused_imports)]
use crate::text::{lower_case, texts, trimmed, truncated};

verus! {

// ---------------------------------------------------------------------------
// Hints
// ---------------------------------------------------------------------------

/// What is asked for is what was hinted at, without the space around it: nothing of it is
/// empty, nothing is asked for twice under another case, and no hint is lost.
pub proof fn lemma_hints_are_asked_once(hints: Seq<Seq<char>>)
    ensures
        forall|k: int|
            0 <= k < distinct_hints(hints).len() ==> (#[trigger] distinct_hints(hints)[k]).len() > 0
                && exists|i: int|
                0 <= i < hints.len() && trimmed(#[trigger] hints[i]) == distinct_hints(hints)[k],
        forall|j: int, k: int|
            0 <= j < k < distinct_hints(hints).len() ==> lower_case(
                #[trigger] distinct_hints(hints)[j],
            ) != lower_case(#[trigger] distinct_hints(hints)[k]),
        forall|i: int|
            0 <= i < hints.len() && trimmed(#[trigger] hints[i]).len() > 0 ==> exists|k: int|
                0 <= k < distinct_hints(hints).len() && lower_case(
                    #[trigger] distinct_hints(hints)[k],
                ) == lower_case(trimmed(hints[i])),
    decreases hints.len(),
{
    if hints.len() > 0 {
        let before = hints.drop_last();
        lemma_hints_are_asked_once(before);
        let front = distinct_hints(before);
        let hint = trimmed(hints.last());
        let all = distinct_hints(hints);
        assert forall|k: int| 0 <= k < all.len() implies (#[trigger] all[k]).len() > 0 && exists|
            i: int,
        |
            0 <= i < hints.len() && trimmed(#[trigger] hints[i]) == all[k] by {
            if k < front.len() {
                assert(all[k] == front[k]);
                let i = choose|i: int|
                    0 <= i < before.len() && trimmed(#[trigger] before[i]) == front[k];
                assert(hints[i] == before[i]);
            } else {
                assert(trimmed(hints[hints.len() - 1]) == all[k]);
            }
        }
        assert forall|j: int, k: int| 0 <= j < k < all.len() implies lower_case(
            #[trigger] all[j],
        ) != lower_case(#[trigger] all[k]) by {
            assert(all[j] == front[j]);
            if k < front.len() {
                assert(all[k] == front[k]);
            }
        }
        assert forall|i: int|
            0 <= i < hints.len() && trimmed(#[trigger] hints[i]).len() > 0 implies exists|k: int|
            0 <= k < all.len() && lower_case(#[trigger] all[k]) == lower_case(
                trimmed(hints[i]),
            ) by {
            if i < before.len() {
                assert(hints[i] == before[i]);
                let k = choose|k: int|
                    0 <= k < front.len() && lower_case(#[trigger] front[k]) == lower_case(
                        trimmed(before[i]),
                    );
                assert(all[k] == front[k]);
            } else if is_hinted(front, hint) {
                let k = choose|k: int|
                    0 <= k < front.len() && lower_case(#[trigger] front[k]) == lower_case(hint);
                assert(all[k] == front[k]);
            } else {
                assert(all[front.len() as int] == hint);
            }
        }
    }
}

/// Whether a candidate is an entry, found by a hint.
pub open spec fn is_hinted_entry(c: CandidateV, entry: EntryRow) -> bool {
    &&& c.entry_id == entry.id
    &&& c.path == entry.path@
    &&& c.title == entry.title@
    &&& c.version == entry.version
    &&& c.updated_at == entry.updated_at
    &&& c.content_sha256 == entry.content_sha256@
    &&& c.lanes == seq!["hint"@]
    &&& c.superseded_by is None
}

/// Whether a gap tells that a hint leads nowhere.
pub open spec fn tells_missing(gap: JsonV, hint: Seq<char>) -> bool {
    &&& gap.get("kind"@) == Some(JsonV::Text("open_hint_not_found"@))
    &&& gap.get("hint"@) == Some(JsonV::Text(hint))
}

/// Whether a gap tells why a hint was not accepted.
pub open spec fn tells_refused(
    gap: JsonV,
    hint: Seq<char>,
    code: Seq<char>,
    message: Seq<char>,
) -> bool {
    &&& gap.get("kind"@) == Some(JsonV::Text("open_hint_invalid"@))
    &&& gap.get("hint"@) == Some(JsonV::Text(hint))
    &&& gap.get("code"@) == Some(JsonV::Text(code))
    &&& gap.get("message"@) == Some(JsonV::Text(message))
}

/// Whether it is told what became of a hint.
pub open spec fn is_hint_answered(
    result: (String, ResolvedHint),
    finds: Seq<CandidateV>,
    gaps: Seq<JsonV>,
) -> bool {
    match result.1 {
        ResolvedHint::Found { entry } => exists|k: int|
            0 <= k < finds.len() && is_hinted_entry(#[trigger] finds[k], entry),
        ResolvedHint::NotFound => exists|k: int|
            0 <= k < gaps.len() && tells_missing(#[trigger] gaps[k], result.0@),
        ResolvedHint::Refused { code, message } => exists|k: int|
            0 <= k < gaps.len() && tells_refused(
                #[trigger] gaps[k],
                result.0@,
                code@,
                message@,
            ),
        ResolvedHint::Failed { .. } => true,
    }
}

proof fn lemma_missing_gap(hint: Seq<char>)
    ensures
        tells_missing(crate::open::hint_missing_gap(hint), hint),
{
    reveal_strlit("kind");
    reveal_strlit("hint");
    reveal_strlit("message");
    assert("kind"@.len() == 4 && "hint"@.len() == 4 && "message"@.len() == 7);
    assert("kind"@[0] != "hint"@[0]);
}

proof fn lemma_refused_gap(hint: Seq<char>, code: Seq<char>, message: Seq<char>)
    ensures
        tells_refused(crate::open::hint_refused_gap(hint, code, message), hint, code, message),
{
    reveal_strlit("kind");
    reveal_strlit("hint");
    reveal_strlit("code");
    reveal_strlit("message");
    assert("kind"@.len() == 4 && "hint"@.len() == 4 && "code"@.len() == 4 && "message"@.len() == 7);
    assert("kind"@[0] != "hint"@[0]);
    assert("kind"@[0] != "code"@[0]);
    assert("hint"@[0] != "code"@[0]);
}

/// Of every hint it is told what became of it: the entry is among the finds, or a gap
/// says that there is none, or why the hint was not accepted.
pub proof fn lemma_every_hint_is_answered(results: Seq<(String, ResolvedHint)>, i: int)
    requires
        0 <= i < results.len(),
    ensures
        is_hint_answered(results[i], hint_finds(results), hint_gaps(results)),
    decreases results.len(),
{
    let before = results.drop_last();
    let finds = hint_finds(results);
    let gaps = hint_gaps(results);
    if i < before.len() {
        lemma_every_hint_is_answered(before, i);
        let f = hint_finds(before);
        let g = hint_gaps(before);
        assert(before[i] == results[i]);
        assert forall|k: int| 0 <= k < f.len() implies finds[k] == #[trigger] f[k] by {}
        assert forall|k: int| 0 <= k < g.len() implies gaps[k] == #[trigger] g[k] by {}
        match results[i].1 {
            ResolvedHint::Found { entry } => {
                let k = choose|k: int| 0 <= k < f.len() && is_hinted_entry(#[trigger] f[k], entry);
                assert(is_hinted_entry(finds[k], entry));
            },
            ResolvedHint::NotFound => {
                let k = choose|k: int|
                    0 <= k < g.len() && tells_missing(#[trigger] g[k], results[i].0@);
                assert(tells_missing(gaps[k], results[i].0@));
            },
            ResolvedHint::Refused { code, message } => {
                let k = choose|k: int|
                    0 <= k < g.len() && tells_refused(
                        #[trigger] g[k],
                        results[i].0@,
                        code@,
                        message@,
                    );
                assert(tells_refused(gaps[k], results[i].0@, code@, message@));
            },
            _ => {},
        }
    } else {
        match results[i].1 {
            ResolvedHint::Found { entry } => {
                assert(is_hinted_entry(finds[finds.len() - 1], entry));
            },
            ResolvedHint::NotFound => {
                lemma_missing_gap(results[i].0@);
                assert(tells_missing(gaps[gaps.len() - 1], results[i].0@));
            },
            ResolvedHint::Refused { code, message } => {
                lemma_refused_gap(results[i].0@, code@, message@);
                assert(tells_refused(gaps[gaps.len() - 1], results[i].0@, code@, message@));
            },
            _ => {},
        }
    }
}

/// Whether a result is that of a hint that found an entry.
pub open spec fn has_found(result: (String, ResolvedHint), c: CandidateV) -> bool {
    result.1 matches ResolvedHint::Found { entry } && is_hinted_entry(c, entry)
}

/// Nothing is found that no hint led to, the finds come in the order of the hints, and
/// with the gaps there are no more of them than hints.
pub proof fn lemma_finds_come_from_hints(results: Seq<(String, ResolvedHint)>) -> (places: Seq<int>)
    ensures
        places.len() == hint_finds(results).len(),
        forall|k: int|
            0 <= k < places.len() ==> 0 <= #[trigger] places[k] < results.len() && has_found(
                results[places[k]],
                hint_finds(results)[k],
            ),
        forall|j: int, k: int|
            0 <= j < k < places.len() ==> #[trigger] places[j] < #[trigger] places[k],
        hint_finds(results).len() + hint_gaps(results).len() <= results.len(),
        hint_failure(results) is None ==> hint_finds(results).len() + hint_gaps(results).len()
            == results.len(),
    decreases results.len(),
{
    if results.len() == 0 {
        Seq::empty()
    } else {
        let before = results.drop_last();
        let front = lemma_finds_come_from_hints(before);
        lemma_failure_of_front(results);
        let last = results.len() - 1;
        let finds = hint_finds(results);
        let places = if results.last().1 is Found {
            front.push(last)
        } else {
            front
        };
        assert forall|k: int| 0 <= k < places.len() implies 0 <= #[trigger] places[k]
            < results.len() && has_found(results[places[k]], finds[k]) by {
            if k < front.len() {
                assert(places[k] == front[k]);
                assert(results[front[k]] == before[front[k]]);
                assert(finds[k] == hint_finds(before)[k]);
            }
        }
        assert forall|j: int, k: int| 0 <= j < k < places.len() implies #[trigger] places[j]
            < #[trigger] places[k] by {
            assert(places[j] == front[j]);
            if k < front.len() {
                assert(places[k] == front[k]);
            }
        }
        places
    }
}

proof fn lemma_failure_of_front(results: Seq<(String, ResolvedHint)>)
    requires
        results.len() > 0,
    ensures
        hint_failure(results) is None ==> hint_failure(results.drop_last()) is None && !(
        results.last().1 is Failed),
    decreases results.len(),
{
    if results.len() > 1 {
        let rest = results.drop_first();
        lemma_failure_of_front(rest);
        assert(rest.drop_last() =~= results.drop_last().drop_first());
        assert(results.drop_last()[0] == results[0]);
    }
}

/// A lookup that fails fails the request, with the first of the failures; where none
/// failed, nothing does.
pub proof fn lemma_first_failure_is_told(results: Seq<(String, ResolvedHint)>)
    ensures
        hint_failure(results) is None <==> forall|i: int|
            0 <= i < results.len() ==> !((#[trigger] results[i]).1 is Failed),
        hint_failure(results) matches Some(told) ==> exists|i: int|
            0 <= i < results.len() && (#[trigger] results[i]).1 is Failed
                && (results[i].1->error)@ == told && forall|j: int|
                0 <= j < i ==> !((#[trigger] results[j]).1 is Failed),
    decreases results.len(),
{
    if results.len() > 0 {
        if results[0].1 is Failed {
            assert((results[0].1->error)@ == hint_failure(results)->0);
        } else {
            let rest = results.drop_first();
            lemma_first_failure_is_told(rest);
            assert forall|i: int| 0 <= i < rest.len() implies #[trigger] rest[i] == results[i
                + 1] by {}
            if hint_failure(rest) is None {
                assert forall|i: int| 0 <= i < results.len() implies !((
                #[trigger] results[i]).1 is Failed) by {
                    if i > 0 {
                        assert(rest[i - 1] == results[i]);
                    }
                }
            } else {
                let i = choose|i: int|
                    0 <= i < rest.len() && (#[trigger] rest[i]).1 is Failed && (
                    rest[i].1->error)@ == hint_failure(rest)->0 && forall|j: int|
                        0 <= j < i ==> !((#[trigger] rest[j]).1 is Failed);
                assert(results[i + 1].1 is Failed);
                assert forall|j: int| 0 <= j < i + 1 implies !((
                #[trigger] results[j]).1 is Failed) by {
                    if j > 0 {
                        assert(rest[j - 1] == results[j]);
                    }
                }
            }
        }
    }
}

// ---------------------------------------------------------------------------
// Candidates
// ---------------------------------------------------------------------------

/// The sources that the task goes on with keep what they are and are all told; one that
/// changed comes before one that did not, and one that was hinted at before both.
pub proof fn lemma_task_goes_on_with_its_sources(
    cs: Seq<CandidateV>,
    changed: Seq<Seq<char>>,
    entry: EntryRow,
    i: int,
)
    requires
        0 <= i < cs.len(),
    ensures
        all_continued(cs, changed).len() == cs.len(),
        ({
            let c = all_continued(cs, changed)[i];
            &&& c.entry_id == cs[i].entry_id && c.path == cs[i].path && c.title == cs[i].title
            &&& c.version == cs[i].version && c.content_sha256 == cs[i].content_sha256
            &&& c.updated_at == cs[i].updated_at && c.heading == cs[i].heading
            &&& c.excerpt == cs[i].excerpt && c.sections == cs[i].sections
            &&& c.verbatim_matches == cs[i].verbatim_matches
            &&& c.superseded_by == cs[i].superseded_by
            &&& c.lanes == cs[i].lanes.push("continuation"@)
            &&& c.score < hint_candidate(entry).score
        }),
        forall|j: int|
            0 <= j < cs.len() && changed.contains(path_key(cs[i].path)) && !changed.contains(
                path_key((#[trigger] cs[j]).path),
            ) ==> all_continued(cs, changed)[j].score < all_continued(cs, changed)[i].score,
{
}

/// Whether a candidate was hinted at or the task goes on with it.
pub open spec fn is_own(c: CandidateV) -> bool {
    exists|k: int|
        0 <= k < c.lanes.len() && (#[trigger] c.lanes[k] == "continuation"@ || c.lanes[k]
            == "hint"@)
}

/// The sources that are shown are those that belong to the task, all of them and no
/// other, in their order; where none does, they are those of all candidates.
pub proof fn lemma_own_sources_are_shown(cs: Seq<CandidateV>) -> (places: Seq<int>)
    ensures
        (forall|i: int| 0 <= i < cs.len() ==> !is_own(#[trigger] cs[i])) ==> evidence_choice(cs)
            == cs,
        (exists|i: int| 0 <= i < cs.len() && is_own(#[trigger] cs[i])) ==> {
            &&& places.len() == evidence_choice(cs).len()
            &&& forall|k: int|
                0 <= k < places.len() ==> 0 <= #[trigger] places[k] < cs.len() && is_own(
                    cs[places[k]],
                ) && evidence_choice(cs)[k] == cs[places[k]]
            &&& forall|j: int, k: int|
                0 <= j < k < places.len() ==> #[trigger] places[j] < #[trigger] places[k]
            &&& forall|i: int|
                0 <= i < cs.len() && is_own(#[trigger] cs[i]) ==> places.contains(i)
        },
{
    let p = |c: CandidateV| belongs(c);
    let own = cs.filter(p);
    assert forall|c: CandidateV| #[trigger] belongs(c) <==> is_own(c) by {
        if is_own(c) {
            let k = choose|k: int|
                0 <= k < c.lanes.len() && (#[trigger] c.lanes[k] == "continuation"@ || c.lanes[k]
                    == "hint"@);
            assert(c.lanes.contains(c.lanes[k]));
        }
        if c.lanes.contains("continuation"@) {
            let k = choose|k: int| 0 <= k < c.lanes.len() && c.lanes[k] == "continuation"@;
            assert(c.lanes[k] == "continuation"@);
        }
        if c.lanes.contains("hint"@) {
            let k = choose|k: int| 0 <= k < c.lanes.len() && c.lanes[k] == "hint"@;
            assert(c.lanes[k] == "hint"@);
        }
    }
    let places = lemma_filter_places(cs, p);
    if own.len() > 0 {
        assert(belongs(cs[places[0]]));
    }
    assert forall|i: int| 0 <= i < cs.len() && is_own(#[trigger] cs[i]) implies places.contains(
        i,
    ) by {
        assert(p(cs[i]));
    }
    assert forall|k: int| 0 <= k < places.len() implies is_own(cs[#[trigger] places[k]]) by {
        assert(belongs(cs[places[k]]));
    }
    if exists|i: int| 0 <= i < cs.len() && is_own(#[trigger] cs[i]) {
        let i = choose|i: int| 0 <= i < cs.len() && is_own(#[trigger] cs[i]);
        assert(places.contains(i));
    }
    places
}

/// Whether some piece of the evidence refers to an entry.
pub open spec fn refers_to(evidence: Seq<JsonV>, id: u128) -> bool {
    exists|k: int|
        0 <= k < evidence.len() && (#[trigger] evidence[k]).get("reference"@) == Some(
            JsonV::Text(entry_ref_text(id)),
        )
}

/// A lead is given to every candidate that the evidence does not refer to, in their
/// order, and to no other.
pub proof fn lemma_leads_are_to_the_rest(cs: Seq<CandidateV>, evidence: Seq<JsonV>) -> (places: Seq<
    int,
>)
    ensures
        places.len() == leads_of(cs, evidence).len(),
        forall|k: int|
            0 <= k < places.len() ==> 0 <= #[trigger] places[k] < cs.len() && !refers_to(
                evidence,
                cs[places[k]].entry_id,
            ) && leads_of(cs, evidence)[k] == lead_json(cs[places[k]]),
        forall|j: int, k: int|
            0 <= j < k < places.len() ==> #[trigger] places[j] < #[trigger] places[k],
        forall|i: int|
            0 <= i < cs.len() && !refers_to(evidence, (#[trigger] cs[i]).entry_id)
                ==> places.contains(i),
    decreases cs.len(),
{
    if cs.len() == 0 {
        Seq::empty()
    } else {
        let before = cs.drop_last();
        let front = lemma_leads_are_to_the_rest(before, evidence);
        let last = cs.len() - 1;
        lemma_shown_is_referred_to(evidence, cs[last].entry_id);
        let leads = leads_of(cs, evidence);
        let places = if is_shown(evidence, cs[last].entry_id) {
            front
        } else {
            front.push(last)
        };
        assert forall|k: int| 0 <= k < places.len() implies 0 <= #[trigger] places[k] < cs.len()
            && !refers_to(evidence, cs[places[k]].entry_id) && leads[k] == lead_json(
            cs[places[k]],
        ) by {
            if k < front.len() {
                assert(places[k] == front[k]);
                assert(cs[front[k]] == before[front[k]]);
            }
        }
        assert forall|j: int, k: int| 0 <= j < k < places.len() implies #[trigger] places[j]
            < #[trigger] places[k] by {
            assert(places[j] == front[j]);
            if k < front.len() {
                assert(places[k] == front[k]);
            }
        }
        assert forall|i: int|
            0 <= i < cs.len() && !refers_to(evidence, (#[trigger] cs[i]).entry_id) implies
            places.contains(i) by {
            if i < last {
                assert(cs[i] == before[i]);
                let k = choose|k: int| 0 <= k < front.len() && front[k] == i;
                assert(places[k] == i);
            } else {
                assert(places[front.len() as int] == i);
            }
        }
        places
    }
}

proof fn lemma_shown_is_referred_to(evidence: Seq<JsonV>, id: u128)
    ensures
        is_shown(evidence, id) <==> refers_to(evidence, id),
{
    if is_shown(evidence, id) {
        let k = choose|k: int|
            0 <= k < evidence.len() && (#[trigger] evidence[k]).get_text("reference"@) == Some(
                entry_ref_text(id),
            );
        assert(evidence[k].get("reference"@) == Some(JsonV::Text(entry_ref_text(id))));
    }
    if refers_to(evidence, id) {
        let k = choose|k: int|
            0 <= k < evidence.len() && (#[trigger] evidence[k]).get("reference"@) == Some(
                JsonV::Text(entry_ref_text(id)),
            );
        assert(evidence[k].get_text("reference"@) == Some(entry_ref_text(id)));
    }
}

/// Whatever failed is named: each lane of the search, or the search itself, and the
/// lookup of the sources that the task goes on with.
pub proof fn lemma_failures_are_named(search: OpenSearch, continuation_failed: bool)
    ensures
        ({
            let named = open_failures(search, continuation_failed);
            &&& search is Failed ==> named.contains("search"@)
            &&& search matches OpenSearch::Found { failures, .. } ==> forall|k: int|
                0 <= k < failures@.len() ==> named.contains((#[trigger] failures@[k])@)
            &&& continuation_failed ==> named.contains("continuation_exact"@)
            &&& named.len() == (if search is Failed {
                1int
            } else {
                (search->failures)@.len() as int
            }) + (if continuation_failed {
                1int
            } else {
                0
            })
        }),
{
    let named = open_failures(search, continuation_failed);
    if search is Failed {
        assert(named[0] == "search"@);
    } else {
        let failures = search->failures;
        assert forall|k: int| 0 <= k < failures@.len() implies named.contains(
            (#[trigger] failures@[k])@,
        ) by {
            assert(named[k] == failures@[k]@);
        }
    }
    if continuation_failed {
        assert(named[named.len() - 1] == "continuation_exact"@);
    }
}

// ---------------------------------------------------------------------------
// The answer
// ---------------------------------------------------------------------------

/// What is left of the text of a checkpoint is its beginning; it is all of it unless a cut
/// is told, and everything else that the checkpoint says stays.
pub proof fn lemma_checkpoint_is_cut_openly(checkpoint: JsonV, tokens: int, key: Seq<char>)
    requires
        0 <= tokens,
    ensures
        checkpoint_cut(None, tokens) is None && !checkpoint_is_cut(None, tokens),
        tokens_after(None, tokens) == tokens,
        checkpoint_cut(Some(checkpoint), tokens) is Some,
        ({
            let cut = checkpoint_cut(Some(checkpoint), tokens)->0;
            let told = checkpoint_is_cut(Some(checkpoint), tokens);
            &&& !told ==> cut == checkpoint
            &&& told ==> cut.get("text_truncated"@) == Some(JsonV::Bool(true))
            &&& key != "text"@ && key != "text_truncated"@ ==> cut.get(key) == checkpoint.get(key)
            &&& checkpoint.get_text("text"@) matches Some(all) ==> {
                &&& cut.get_text("text"@) matches Some(left) && left.is_prefix_of(all) && (told
                    <==> left.len() < all.len())
                &&& all.len() <= 4 * tokens && 4 * tokens <= usize::MAX ==> !told
                &&& told ==> tokens_after(Some(checkpoint), tokens) == 0
            }
        }),
{
    reveal_strlit("text");
    reveal_strlit("text_truncated");
    assert("text"@.len() == 4 && "text_truncated"@.len() == 14);
    if checkpoint.get_text("text"@) is Some {
        let all = checkpoint.get_text("text"@)->0;
        let n = crate::budget::fit(4 * tokens);
        assert(truncated(all, n).is_prefix_of(all));
    }
}

/// Where the owner is is told exactly where it is to be shown and could be written out;
/// otherwise the word says why not.
pub proof fn lemma_presence_is_counted(step: PresenceStep, rendered: bool, other: PresenceStep)
    ensures
        presence_word(step, rendered) == "true"@ <==> step is Show && rendered,
        presence_word(step, rendered) == presence_word(other, rendered) ==> step == other,
{
    reveal_strlit("true");
    reveal_strlit("false:flag_off");
    reveal_strlit("false:no_row");
    reveal_strlit("false:lookup_error");
    reveal_strlit("false:stale");
    reveal_strlit("false:render_error");
    assert("true"@.len() == 4 && "false:flag_off"@.len() == 14 && "false:no_row"@.len() == 12 && "false:lookup_error"@.len() == 18 && "false:stale"@.len() == 11 && "false:render_error"@.len() == 18);
    assert("false:lookup_error"@[6] != "false:render_error"@[6]);
}

/// An answer says whether anything was found, how many sources are shown and how many
/// are pointed to.
pub proof fn lemma_sufficiency_counts_the_sources(
    a: OpenAnswer,
)
    ensures
        ({
            let v = sufficiency_json(a);
            &&& v.get("status"@) == Some(JsonV::Text(if a.found { "bounded_evidence"@ } else { "no_evidence"@ }))
            &&& v.get("complete_source_count"@) == Some(integer(complete_sources(items_view(a.evidence@)) as int))
            &&& v.get("selected_source_count"@) == Some(integer(a.evidence@.len() as int))
            &&& v.get("pointer_source_count"@) == Some(integer(a.leads@.len() as int))
        }),
{
    reveal_strlit("status");
    reveal_strlit("complete_source_count");
    reveal_strlit("selected_source_count");
    reveal_strlit("pointer_source_count");
    assert("status"@.len() == 6 && "complete_source_count"@.len() == 21 && "selected_source_count"@.len() == 21 && "pointer_source_count"@.len() == 20);
    assert("complete_source_count"@[0] != "selected_source_count"@[0]);
}

/// An answer holds the evidence and the leads in their order, the checkpoint, what changed
/// since and whether there is more of it, and says whether anything was cut.
pub proof fn lemma_answer_holds_what_was_found(
    a: OpenAnswer,
)
    ensures
        ({
            let v = open_data(a);
            &&& v.get("workspace_generation"@) == Some(integer(a.generation as int))
            &&& v.get("authorization_scope"@) == Some(optional_text(option_view(a.authorization_scope)))
            &&& v.get("evidence"@) == Some(JsonV::Array(items_view(a.evidence@)))
            &&& v.get("evidence_leads"@) == Some(JsonV::Array(items_view(a.leads@)))
            &&& v.get("checkpoint"@) == Some(match a.checkpoint { Some(c) => c@, None => JsonV::Null })
            &&& v.get("changes_since_checkpoint"@) == Some(JsonV::Array(items_view(a.changes.changes@)))
            &&& v.get("changes_truncated"@) == Some(JsonV::Bool(a.changes.truncated))
            &&& v.get("next_changes_generation"@) == Some(optional_integer(a.changes.next_generation))
            &&& v.get("checkpoint_text_truncated"@) == Some(JsonV::Bool(a.checkpoint_text_truncated))
            &&& v.get("retrieval_sufficiency"@) == Some(sufficiency_json(a))
            &&& v.get("owner_presence"@) == match a.owner_presence { Some(p) => Some(p@), None => None }
            &&& v.get("pending_intentions"@) == match a.pending_intentions { Some(p) => Some(JsonV::Array(items_view(p@))), None => None }
            &&& v.get("resume_deltas"@) == match a.resume_deltas { Some(p) => Some(JsonV::Array(items_view(p@))), None => None }
        }),
{
    reveal_strlit("workspace_generation");
    reveal_strlit("authorization_scope");
    reveal_strlit("evidence");
    reveal_strlit("evidence_leads");
    reveal_strlit("checkpoint");
    reveal_strlit("changes_since_checkpoint");
    reveal_strlit("changes_truncated");
    reveal_strlit("next_changes_generation");
    reveal_strlit("checkpoint_text_truncated");
    reveal_strlit("retrieval_sufficiency");
    reveal_strlit("owner_presence");
    reveal_strlit("pending_intentions");
    reveal_strlit("resume_deltas");
    assert("workspace_generation"@.len() == 20 && "authorization_scope"@.len() == 19 && "evidence"@.len() == 8 && "evidence_leads"@.len() == 14 && "checkpoint"@.len() == 10 && "changes_since_checkpoint"@.len() == 24 && "changes_truncated"@.len() == 17 && "next_changes_generation"@.len() == 23 && "checkpoint_text_truncated"@.len() == 25 && "retrieval_sufficiency"@.len() == 21 && "owner_presence"@.len() == 14 && "pending_intentions"@.len() == 18 && "resume_deltas"@.len() == 13);
    assert("evidence_leads"@[0] != "owner_presence"@[0]);
}

/// The sources that are shown whole are counted one by one.
pub proof fn lemma_complete_sources_are_counted(evidence: Seq<JsonV>, more: JsonV)
    ensures
        complete_sources(Seq::<JsonV>::empty()) == 0,
        complete_sources(evidence.push(more)) == complete_sources(evidence) + (if more.get(
            "representation"@,
        ) == Some(JsonV::Text("complete_source"@)) {
            1nat
        } else {
            0
        }),
{
    assert(evidence.push(more).drop_last() =~= evidence);
}

/// Where the owner is is shown exactly where it was reported less than seven days ago.
pub proof fn lemma_recent_presence_is_shown(lookup: PresenceLookup, now: int)
    ensures
        presence_at(lookup, now) is Show <==> (lookup matches PresenceLookup::Reported {
            reported_at,
        } && now - reported_at < 7 * 24 * 3600 * 1_000_000),
        presence_at(lookup, now) is Stale ==> lookup is Reported,
        presence_at(lookup, now) is FlagOff <==> lookup is Off,
        presence_at(lookup, now) is NoRow <==> lookup is Unknown,
        presence_at(lookup, now) is LookupError <==> lookup is Failed,
{
}

} // verus!
