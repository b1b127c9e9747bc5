//! Laws of sharing a budget: nothing is cut without need, a cut is owned up to, and no
//! candidate is lost, changed or moved on the way into a response.
use vstd::prelude::*;

#[allow(unused_imports)]
use crate::budget::{
    all_budgeted, as_excerpts, assembled, behind_note, budgeted, candidate_chars, cut_candidate,
    cut_sections, desired_chars, excerpt_sets, is_shown, later_text, least, led_by_source,
    lemma_cut_candidate_within_budget, own_budgets, planned_tokens, section_chars, shared_budget,
    source_of, sum_to, with_source, with_sources, Cut, HydrationV, SearchBudgetOptions,
    SearchRepresentation, ShownV, MAX_EXCERPT_CHARS,
};
#[allow(unused_imports)]
use crate::candidate::{CandidateV, SectionV};
#[allow(unused_imports)]
use crate::showing::{begins, lemma_cut_keeps_beginnings, lemma_truncated_begins};
#[allow(unused_imports)]
use crate::text::truncated;

verus! {

/// A response is planned for as many tokens as were asked for where that is allowed, for
/// the nearest number that is where it is not, and for the usual one where nothing was
/// asked for.
pub proof fn lemma_token_budgets(requested: Option<usize>)
    ensures
        requested matches Some(n) ==> {
            &&& 1_000 <= n <= 64_000 ==> planned_tokens(requested) == n
            &&& n < 1_000 ==> planned_tokens(requested) == 1_000
            &&& n > 64_000 ==> planned_tokens(requested) == 64_000
        },
        requested is None ==> planned_tokens(requested) == 12_000,
{
}

// ---------------------------------------------------------------------------
// Selection
// ---------------------------------------------------------------------------

proof fn lemma_sum_grows(lens: Seq<int>, a: int, b: int)
    requires
        0 <= a <= b <= lens.len(),
        forall|i: int| 0 <= i < lens.len() ==> 0 <= #[trigger] lens[i],
    ensures
        sum_to(lens, a) <= sum_to(lens, b),
    decreases b - a,
{
    if a < b {
        lemma_sum_grows(lens, a, b - 1);
    }
}

/// Without fair shares the queries are served in turn: before a candidate of one is shown,
/// all candidates of the queries before it are, and all of its own better ones.
pub proof fn lemma_queries_are_served_in_turn(
    lens: Seq<int>,
    max: int,
    q: int,
    rank: int,
    other: int,
    place: int,
)
    requires
        forall|i: int| 0 <= i < lens.len() ==> 0 <= #[trigger] lens[i],
        is_shown(lens, false, max, q, rank),
        0 <= other < q && 0 <= place < lens[other] || other == q && 0 <= place < rank,
    ensures
        is_shown(lens, false, max, other, place),
{
    if other < q {
        lemma_sum_grows(lens, other + 1, q);
    }
}

// ---------------------------------------------------------------------------
// Cutting
// ---------------------------------------------------------------------------

proof fn lemma_sections_spend(s: Seq<SectionV>, remaining: int)
    requires
        remaining >= 0,
    ensures
        ({
            let cut = cut_sections(s, remaining);
            &&& 0 <= cut.remaining <= remaining
            &&& remaining - cut.remaining <= section_chars(s)
            &&& cut.truncated <==> remaining - cut.remaining < section_chars(s)
            &&& cut.truncated && (forall|i: int|
                0 <= i < s.len() ==> (#[trigger] s[i]).excerpt.len() <= MAX_EXCERPT_CHARS)
                ==> cut.remaining == 0
        }),
    decreases s.len(),
{
    if s.len() > 0 {
        let front = cut_sections(s.drop_last(), remaining);
        lemma_sections_spend(s.drop_last(), remaining);
        lemma_truncated_begins(s.last().excerpt, least(front.remaining, MAX_EXCERPT_CHARS as int));
        if forall|i: int| 0 <= i < s.len() ==> (#[trigger] s[i]).excerpt.len() <= MAX_EXCERPT_CHARS {
            assert forall|i: int| 0 <= i < s.drop_last().len() implies (
            #[trigger] s.drop_last()[i]).excerpt.len() <= MAX_EXCERPT_CHARS by {
                assert(s.drop_last()[i] == s[i]);
            }
            assert(s[s.len() - 1].excerpt.len() <= MAX_EXCERPT_CHARS);
        }
    }
}

/// Whether no excerpt of a candidate is longer than an excerpt may be.
pub open spec fn has_short_excerpts(c: CandidateV) -> bool {
    &&& c.excerpt.len() <= MAX_EXCERPT_CHARS
    &&& forall|i: int|
        1 <= i < c.sections.len() ==> (#[trigger] c.sections[i]).excerpt.len() <= MAX_EXCERPT_CHARS
}

/// A candidate is said to be cut exactly where it is shown with less text than it has, and
/// it is cut only where its room is used up or an excerpt is longer than any may be. So
/// where there is room for all of it, all of it is shown.
pub proof fn lemma_nothing_is_cut_without_need(c: CandidateV, remaining: int)
    requires
        remaining >= 0,
    ensures
        ({
            let cut = cut_candidate(c, remaining);
            &&& candidate_chars(cut.value) <= candidate_chars(c)
            &&& cut.truncated <==> candidate_chars(cut.value) < candidate_chars(c)
            &&& cut.truncated && has_short_excerpts(c) ==> cut.remaining == 0
            &&& has_short_excerpts(c) && candidate_chars(c) <= behind_note(
                c.superseded_by,
                remaining,
            ) ==> !cut.truncated && cut.value.excerpt == c.excerpt
            &&& c.superseded_by is None ==> behind_note(c.superseded_by, remaining) == remaining
        }),
{
    lemma_cut_candidate_within_budget(c, remaining);
    let start = behind_note(c.superseded_by, remaining);
    lemma_truncated_begins(c.excerpt, least(start, MAX_EXCERPT_CHARS as int));
    let excerpt = truncated(c.excerpt, least(start, MAX_EXCERPT_CHARS as int));
    if c.sections.len() > 0 {
        let rest = c.sections.skip(1);
        lemma_sections_spend(rest, start - excerpt.len());
        if has_short_excerpts(c) {
            assert forall|i: int| 0 <= i < rest.len() implies (#[trigger] rest[i]).excerpt.len()
                <= MAX_EXCERPT_CHARS by {
                assert(rest[i] == c.sections[i + 1]);
            }
        }
    }
    lemma_cut_keeps_beginnings(c, remaining);
}

/// Whether what is shown is a candidate, perhaps with less text: the same entry, found in
/// the same way, in a form of its own, with the beginning of its excerpt.
pub open spec fn is_form_of(v: ShownV, c: CandidateV) -> bool {
    &&& v.candidate == (CandidateV {
        excerpt: v.candidate.excerpt,
        sections: v.candidate.sections,
        ..c
    })
    &&& begins(v.candidate.excerpt, c.excerpt)
}

/// Whether one form of a candidate is another one cut to its room.
pub open spec fn is_cut_form(cut: ShownV, v: ShownV, whole: bool) -> bool {
    &&& is_form_of(cut, v.candidate)
    &&& cut.complete_text == v.complete_text
    &&& cut.demote_additional_sections == v.demote_additional_sections
    &&& v.representation != SearchRepresentation::Excerpt ==> cut == v
    &&& v.representation == SearchRepresentation::Excerpt ==> (cut.representation
        == SearchRepresentation::Excerpt && cut.candidate.excerpt.len() > 0) || (cut.representation
        == SearchRepresentation::PointerLead && cut.candidate.excerpt.len() == 0)
    &&& whole ==> cut.candidate.excerpt == v.candidate.excerpt
}

/// A candidate that is shown in its room stays what it is; it becomes a lead exactly where
/// none of its excerpt is left, and only an excerpt is ever cut. Where no cut is told, its
/// excerpt is whole.
pub proof fn lemma_budgets_cut_only_excerpts(v: ShownV, available: int)
    requires
        available >= 0,
    ensures
        is_cut_form(budgeted(v, available).value, v, !budgeted(v, available).truncated),
        0 <= budgeted(v, available).remaining <= available,
{
    if v.representation == SearchRepresentation::Excerpt {
        lemma_chars_natural(v.candidate);
        let start = least(available, desired_chars(v));
        if v.demote_additional_sections {
            lemma_truncated_begins(v.candidate.excerpt, least(start, MAX_EXCERPT_CHARS as int));
        } else {
            lemma_cut_keeps_beginnings(v.candidate, start);
            lemma_cut_candidate_within_budget(v.candidate, start);
        }
    } else {
        assert(v.candidate.excerpt.take(v.candidate.excerpt.len() as int)
            =~= v.candidate.excerpt);
    }
}

proof fn lemma_section_chars_natural(s: Seq<SectionV>)
    ensures
        section_chars(s) >= 0,
    decreases s.len(),
{
    if s.len() > 0 {
        lemma_section_chars_natural(s.drop_last());
    }
}

proof fn lemma_chars_natural(c: CandidateV)
    ensures
        candidate_chars(c) >= c.excerpt.len(),
{
    if c.sections.len() > 0 {
        lemma_section_chars_natural(c.sections.skip(1));
    }
}

/// The candidate of a plain excerpt that fits its room is shown whole, and what is left is
/// what it does not take.
pub proof fn lemma_what_fits_is_shown(v: ShownV, available: int)
    requires
        v.representation == SearchRepresentation::Excerpt,
        !v.demote_additional_sections,
        v.candidate.superseded_by is None,
        has_short_excerpts(v.candidate),
        candidate_chars(v.candidate) <= available,
        candidate_chars(v.candidate) <= usize::MAX,
    ensures
        !budgeted(v, available).truncated,
        budgeted(v, available).value.candidate.excerpt == v.candidate.excerpt,
        budgeted(v, available).remaining == available - candidate_chars(v.candidate),
{
    lemma_chars_natural(v.candidate);
    let start = candidate_chars(v.candidate);
    lemma_nothing_is_cut_without_need(v.candidate, start);
    lemma_cut_candidate_within_budget(v.candidate, start);
}

/// Whether the candidates of a query are those of another form of it, each in its place,
/// cut to its room.
pub open spec fn are_cut_forms(cut: Seq<ShownV>, v: Seq<ShownV>, whole: bool) -> bool {
    &&& cut.len() == v.len()
    &&& forall|k: int| 0 <= k < v.len() ==> is_cut_form(#[trigger] cut[k], v[k], whole)
}

/// The candidates of a query stay in their places, and each is cut to its room alone.
pub proof fn lemma_queries_keep_their_candidates(v: Seq<ShownV>, available: int)
    requires
        available >= 0,
    ensures
        are_cut_forms(
            all_budgeted(v, available).value,
            v,
            !all_budgeted(v, available).truncated,
        ),
        0 <= all_budgeted(v, available).remaining <= available,
    decreases v.len(),
{
    if v.len() > 0 {
        let before = v.drop_last();
        lemma_queries_keep_their_candidates(before, available);
        let front = all_budgeted(before, available);
        lemma_budgets_cut_only_excerpts(v.last(), front.remaining);
        let cut = all_budgeted(v, available);
        assert forall|k: int| 0 <= k < v.len() implies is_cut_form(
            #[trigger] cut.value[k],
            v[k],
            !cut.truncated,
        ) by {
            if k < before.len() {
                assert(cut.value[k] == front.value[k]);
                assert(before[k] == v[k]);
                assert(is_cut_form(front.value[k], before[k], !front.truncated));
            }
        }
    }
}

proof fn lemma_shared(v: Seq<Seq<ShownV>>, available: int)
    requires
        available >= 0,
    ensures
        ({
            let cut = shared_budget(v, available);
            &&& cut.value.len() == v.len()
            &&& 0 <= cut.remaining <= available
            &&& forall|i: int|
                0 <= i < v.len() ==> are_cut_forms(#[trigger] cut.value[i], v[i], !cut.truncated)
        }),
    decreases v.len(),
{
    if v.len() > 0 {
        let before = v.drop_last();
        lemma_shared(before, available);
        let front = shared_budget(before, available);
        lemma_queries_keep_their_candidates(v.last(), front.remaining);
        let cut = shared_budget(v, available);
        assert forall|i: int| 0 <= i < v.len() implies are_cut_forms(
            #[trigger] cut.value[i],
            v[i],
            !cut.truncated,
        ) by {
            if i < before.len() {
                assert(cut.value[i] == front.value[i]);
                assert(before[i] == v[i]);
                assert(are_cut_forms(front.value[i], before[i], !front.truncated));
                lemma_weaker(front.value[i], v[i], !front.truncated, !cut.truncated);
            }
        }
    }
}

proof fn lemma_weaker(cut: Seq<ShownV>, v: Seq<ShownV>, strong: bool, weak: bool)
    requires
        are_cut_forms(cut, v, strong),
        weak ==> strong,
    ensures
        are_cut_forms(cut, v, weak),
{
    assert forall|k: int| 0 <= k < v.len() implies is_cut_form(#[trigger] cut[k], v[k], weak) by {
        assert(is_cut_form(cut[k], v[k], strong));
    }
}

proof fn lemma_own(v: Seq<Seq<ShownV>>, quotas: Seq<int>)
    requires
        v.len() <= quotas.len(),
        forall|i: int| 0 <= i < quotas.len() ==> 0 <= #[trigger] quotas[i],
    ensures
        ({
            let cut = own_budgets(v, quotas);
            &&& cut.value.len() == v.len()
            &&& forall|i: int|
                0 <= i < v.len() ==> are_cut_forms(#[trigger] cut.value[i], v[i], !cut.truncated)
        }),
    decreases v.len(),
{
    if v.len() > 0 {
        let before = v.drop_last();
        lemma_own(before, quotas);
        let front = own_budgets(before, quotas);
        lemma_queries_keep_their_candidates(v.last(), quotas[v.len() - 1]);
        let cut = own_budgets(v, quotas);
        assert forall|i: int| 0 <= i < v.len() implies are_cut_forms(
            #[trigger] cut.value[i],
            v[i],
            !cut.truncated,
        ) by {
            if i < before.len() {
                assert(cut.value[i] == front.value[i]);
                assert(before[i] == v[i]);
                lemma_weaker(front.value[i], v[i], !front.truncated, !cut.truncated);
            }
        }
    }
}

// ---------------------------------------------------------------------------
// Responses
// ---------------------------------------------------------------------------

/// Whether a loaded source is that of an entry.
pub open spec fn is_loaded(loaded: Seq<HydrationV>, id: u128, text: Seq<char>) -> bool {
    exists|i: int|
        0 <= i < loaded.len() && (#[trigger] loaded[i]).entry_id == id && loaded[i].content == text
}

proof fn lemma_source_of(loaded: Seq<HydrationV>, id: u128, i: int)
    requires
        0 <= i,
    ensures
        source_of(loaded, id, i) matches Some(h) ==> is_loaded(loaded, id, h.content),
    decreases loaded.len() - i,
{
    if i < loaded.len() {
        if loaded[i].entry_id == id {
            assert(is_loaded(loaded, id, loaded[i].content));
        } else {
            lemma_source_of(loaded, id, i + 1);
        }
    }
}

/// Whether what is shown of a query is its candidates, each in its place, and a whole
/// source is shown only of the best and is the one that was loaded of it.
pub open spec fn shows_query(
    shown: Seq<ShownV>,
    set: Seq<CandidateV>,
    loaded: Seq<HydrationV>,
    whole: bool,
) -> bool {
    &&& shown.len() == set.len()
    &&& forall|k: int|
        0 <= k < set.len() ==> {
            &&& is_form_of(#[trigger] shown[k], set[k])
            &&& whole ==> shown[k].candidate.excerpt == set[k].excerpt
            &&& shown[k].representation == SearchRepresentation::CompleteSource ==> k == 0
                && shown[k].complete_text is Some && is_loaded(
                loaded,
                set[k].entry_id,
                shown[k].complete_text->0,
            )
            &&& shown[k].representation == SearchRepresentation::Excerpt
                ==> shown[k].candidate.excerpt.len() > 0 || !whole || set[k].excerpt.len() == 0
        }
}

proof fn lemma_excerpts_show(set: Seq<CandidateV>, top_n: Option<usize>, loaded: Seq<HydrationV>)
    ensures
        shows_query(as_excerpts(set, top_n), set, loaded, true),
{
    let v = as_excerpts(set, top_n);
    assert forall|k: int| 0 <= k < set.len() implies is_form_of(#[trigger] v[k], set[k]) by {
        assert(set[k].excerpt.take(set[k].excerpt.len() as int) =~= set[k].excerpt);
    }
}

proof fn lemma_with_source(
    v: Seq<ShownV>,
    set: Seq<CandidateV>,
    loaded: Seq<HydrationV>,
    remaining: int,
)
    requires
        shows_query(v, set, loaded, true),
        remaining >= 0,
    ensures
        shows_query(with_source(v, loaded, remaining).value, set, loaded, true),
        0 <= with_source(v, loaded, remaining).remaining,
{
    if v.len() > 0 {
        lemma_source_of(loaded, v[0].candidate.entry_id, 0);
        let w = with_source(v, loaded, remaining).value;
        assert(is_form_of(v[0], set[0]));
        assert forall|k: int| 0 <= k < set.len() implies {
            &&& is_form_of(#[trigger] w[k], set[k])
            &&& w[k].candidate.excerpt == set[k].excerpt
            &&& w[k].representation == SearchRepresentation::CompleteSource ==> k == 0
                && w[k].complete_text is Some && is_loaded(
                loaded,
                set[k].entry_id,
                w[k].complete_text->0,
            )
        } by {
            assert(is_form_of(v[k], set[k]));
        }
    }
}

proof fn lemma_with_sources(
    v: Seq<Seq<ShownV>>,
    sets: Seq<Seq<CandidateV>>,
    loaded: Seq<HydrationV>,
    remaining: int,
)
    requires
        v.len() == sets.len(),
        remaining >= 0,
        forall|i: int| 0 <= i < v.len() ==> shows_query(#[trigger] v[i], sets[i], loaded, true),
    ensures
        ({
            let w = with_sources(v, loaded, remaining);
            &&& w.value.len() == v.len()
            &&& 0 <= w.remaining
            &&& forall|i: int|
                0 <= i < v.len() ==> shows_query(#[trigger] w.value[i], sets[i], loaded, true)
        }),
    decreases v.len(),
{
    if v.len() > 0 {
        let before = v.drop_last();
        assert forall|i: int| 0 <= i < before.len() implies shows_query(
            #[trigger] before[i],
            sets.drop_last()[i],
            loaded,
            true,
        ) by {
            assert(shows_query(v[i], sets[i], loaded, true));
        }
        lemma_with_sources(before, sets.drop_last(), loaded, remaining);
        let front = with_sources(before, loaded, remaining);
        assert(shows_query(v[v.len() - 1], sets[v.len() - 1], loaded, true));
        lemma_with_source(v.last(), sets.last(), loaded, front.remaining);
        let w = with_sources(v, loaded, remaining);
        assert forall|i: int| 0 <= i < v.len() implies shows_query(
            #[trigger] w.value[i],
            sets[i],
            loaded,
            true,
        ) by {
            if i < before.len() {
                assert(w.value[i] == front.value[i]);
                assert(shows_query(front.value[i], sets.drop_last()[i], loaded, true));
            }
        }
    }
}

proof fn lemma_cut_query(
    cut: Seq<ShownV>,
    v: Seq<ShownV>,
    set: Seq<CandidateV>,
    loaded: Seq<HydrationV>,
    whole: bool,
)
    requires
        shows_query(v, set, loaded, true),
        are_cut_forms(cut, v, whole),
    ensures
        shows_query(cut, set, loaded, whole),
{
    assert forall|k: int| 0 <= k < set.len() implies {
        &&& is_form_of(#[trigger] cut[k], set[k])
        &&& whole ==> cut[k].candidate.excerpt == set[k].excerpt
        &&& cut[k].representation == SearchRepresentation::CompleteSource ==> k == 0
            && cut[k].complete_text is Some && is_loaded(
            loaded,
            set[k].entry_id,
            cut[k].complete_text->0,
        )
        &&& cut[k].representation == SearchRepresentation::Excerpt
            ==> cut[k].candidate.excerpt.len() > 0 || !whole || set[k].excerpt.len() == 0
    } by {
        assert(is_cut_form(cut[k], v[k], whole));
        assert(is_form_of(v[k], set[k]));
    }
}

/// A response shows every selected candidate of every query in its place, as what it is,
/// with the beginning of its excerpt; where no cut is told, with all of it. The whole source
/// is shown only of the best candidate of a query, and is the one loaded of its entry.
pub proof fn lemma_every_selected_candidate_is_shown(
    sets: Seq<Seq<CandidateV>>,
    loaded: Seq<HydrationV>,
    options: SearchBudgetOptions,
)
    ensures
        ({
            let r = assembled(sets, loaded, options);
            &&& r.value.len() == sets.len()
            &&& forall|i: int|
                0 <= i < sets.len() ==> shows_query(
                    #[trigger] r.value[i],
                    sets[i],
                    loaded,
                    !r.truncated,
                )
        }),
{
    let excerpts = excerpt_sets(sets, options.section_demotion_top_n);
    let max = options.max_chars as int;
    let r = assembled(sets, loaded, options);
    assert forall|i: int| 0 <= i < sets.len() implies shows_query(
        #[trigger] excerpts[i],
        sets[i],
        loaded,
        true,
    ) by {
        lemma_excerpts_show(sets[i], options.section_demotion_top_n, loaded);
    }
    let sourced = if options.top1_hydration {
        with_sources(excerpts, loaded, max)
    } else {
        Cut { value: excerpts, remaining: max, truncated: false }
    };
    if options.top1_hydration {
        lemma_with_sources(excerpts, sets, loaded, max);
    }
    let desired = crate::budget::desired_sums(sourced.value);
    let cut = if options.fair_share {
        own_budgets(sourced.value, crate::budget::fair_quotas(desired, sourced.remaining))
    } else {
        shared_budget(sourced.value, sourced.remaining)
    };
    if options.fair_share {
        assert forall|k: int| 0 <= k < desired.len() implies 0 <= #[trigger] desired[k] by {
            lemma_desire_natural(sourced.value[k]);
        }
        crate::budget::lemma_fair_quotas(desired, sourced.remaining);
        let quotas = crate::budget::fair_quotas(desired, sourced.remaining);
        assert forall|k: int| 0 <= k < quotas.len() implies 0 <= #[trigger] quotas[k] by {
            lemma_share_natural(sourced.remaining, desired.len() as int);
            assert(0 <= desired[k]);
        }
        lemma_own(sourced.value, quotas);
    } else {
        lemma_shared(sourced.value, sourced.remaining);
    }
    assert forall|i: int| 0 <= i < sets.len() implies shows_query(
        #[trigger] r.value[i],
        sets[i],
        loaded,
        !r.truncated,
    ) by {
        assert(shows_query(sourced.value[i], sets[i], loaded, true));
        assert(are_cut_forms(cut.value[i], sourced.value[i], !cut.truncated));
        lemma_weaker(cut.value[i], sourced.value[i], !cut.truncated, !r.truncated);
        lemma_cut_query(r.value[i], sourced.value[i], sets[i], loaded, !r.truncated);
    }
}

proof fn lemma_share_natural(max: int, n: int)
    requires
        max >= 0,
        n > 0,
    ensures
        max / n >= 0,
{
    assert(max / n >= 0) by (nonlinear_arith)
        requires
            max >= 0,
            n > 0,
    ;
}

proof fn lemma_desire_natural(v: Seq<ShownV>)
    ensures
        crate::budget::desired_sum(v) >= 0,
    decreases v.len(),
{
    if v.len() > 0 {
        lemma_desire_natural(v.drop_last());
        lemma_chars_natural(v.last().candidate);
    }
}

} // verus!
