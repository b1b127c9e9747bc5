//! Laws of what a search plans to show: every selected candidate in its place, whole
//! sources only of the entry they belong to, and cuts only with notice.
use vstd::prelude::*;

#[allow(unused_imports)]
use crate::budget::{
    all_budgeted, as_excerpts, assembled, budgeted, desired_chars, desired_sums, excerpt_sets,
    fair_quotas, fit, fits_whole, later_desire, later_text, least, led_by_source,
    lemma_cut_candidate_within_budget, lemma_fair_quotas, own_budgets, shared_budget, source_of,
    with_primary, with_source, with_sources, Cut, HydrationV, SearchBudgetOptions,
    SearchRepresentation, ShownV, MAX_EXCERPT_CHARS,
};
#[allow(unused_imports)]
use crate::candidate::CandidateV;
#[allow(unused_imports)]
use crate::render::{document_of, evidence_steps, DocumentV, EvidenceStep, HYDRATED_DOCUMENT_LIMIT};
#[allow(unused_imports)]
use crate::showing::{begins, is_cut_of, lemma_cut_keeps_beginnings, lemma_truncated_begins};
#[allow(unused_imports)]
use crate::text::truncated;

verus! {

/// Whether a planned candidate is another one after a cut: the same entry in the same
/// form, or a lead where no excerpt is left of it. Where no cut is told of, its excerpt
/// is whole.
pub open spec fn is_kept(w: ShownV, v: ShownV, whole: bool) -> bool {
    &&& is_cut_of(w.candidate, v.candidate)
    &&& w.complete_text == v.complete_text
    &&& w.demote_additional_sections == v.demote_additional_sections
    &&& v.representation != SearchRepresentation::Excerpt ==> w == v
    &&& v.representation == SearchRepresentation::Excerpt ==> w.representation
        == if w.candidate.excerpt.len() == 0 {
        SearchRepresentation::PointerLead
    } else {
        SearchRepresentation::Excerpt
    }
    &&& whole ==> w.candidate.excerpt == v.candidate.excerpt
}

proof fn lemma_cut_of_itself(c: CandidateV)
    ensures
        is_cut_of(c, c),
{
    assert(c.excerpt.take(c.excerpt.len() as int) =~= c.excerpt);
}

proof fn lemma_budgeted(v: ShownV, available: int)
    requires
        available >= 0,
    ensures
        is_kept(budgeted(v, available).value, v, !budgeted(v, available).truncated),
        0 <= budgeted(v, available).remaining <= available,
{
    lemma_cut_of_itself(v.candidate);
    if v.representation == SearchRepresentation::Excerpt {
        lemma_chars(v.candidate);
        let start = least(available, desired_chars(v));
        assert(start >= 0);
        if v.demote_additional_sections {
            lemma_truncated_begins(v.candidate.excerpt, least(start, MAX_EXCERPT_CHARS as int));
            let excerpt = truncated(v.candidate.excerpt, least(start, MAX_EXCERPT_CHARS as int));
            if excerpt.len() == v.candidate.excerpt.len() {
                assert(excerpt =~= v.candidate.excerpt);
            }
        } else {
            lemma_cut_keeps_beginnings(v.candidate, start);
            lemma_cut_candidate_within_budget(v.candidate, start);
        }
    }
}

/// Whether planned candidates are others after a cut, one by one.
pub open spec fn are_kept(w: Seq<ShownV>, v: Seq<ShownV>, whole: bool) -> bool {
    w.len() == v.len() && forall|r: int| 0 <= r < v.len() ==> is_kept(#[trigger] w[r], v[r], whole)
}

proof fn lemma_all_budgeted(v: Seq<ShownV>, available: int)
    requires
        available >= 0,
    ensures
        are_kept(all_budgeted(v, available).value, v, !all_budgeted(v, available).truncated),
        0 <= all_budgeted(v, available).remaining <= available,
    decreases v.len(),
{
    if v.len() > 0 {
        let front = all_budgeted(v.drop_last(), available);
        lemma_all_budgeted(v.drop_last(), available);
        lemma_budgeted(v.last(), front.remaining);
        let cut = all_budgeted(v, available);
        assert forall|r: int| 0 <= r < v.len() implies is_kept(
            #[trigger] cut.value[r],
            v[r],
            !cut.truncated,
        ) by {
            if r < v.len() - 1 {
                assert(cut.value[r] == front.value[r]);
                assert(v.drop_last()[r] == v[r]);
                assert(is_kept(front.value[r], v[r], !front.truncated));
            }
        }
    }
}

spec fn sets_kept(w: Seq<Seq<ShownV>>, v: Seq<Seq<ShownV>>, whole: bool) -> bool {
    w.len() == v.len() && forall|q: int| 0 <= q < v.len() ==> are_kept(#[trigger] w[q], v[q], whole)
}

proof fn lemma_weaker(w: Seq<ShownV>, v: Seq<ShownV>, whole: bool, weaker: bool)
    requires
        are_kept(w, v, whole),
        weaker ==> whole,
    ensures
        are_kept(w, v, weaker),
{
    assert forall|r: int| 0 <= r < v.len() implies is_kept(#[trigger] w[r], v[r], weaker) by {
        assert(is_kept(w[r], v[r], whole));
    }
}

proof fn lemma_shared(v: Seq<Seq<ShownV>>, available: int)
    requires
        available >= 0,
    ensures
        sets_kept(shared_budget(v, available).value, v, !shared_budget(v, available).truncated),
        0 <= shared_budget(v, available).remaining <= available,
    decreases v.len(),
{
    if v.len() > 0 {
        let front = shared_budget(v.drop_last(), available);
        lemma_shared(v.drop_last(), available);
        let last = all_budgeted(v.last(), front.remaining);
        lemma_all_budgeted(v.last(), front.remaining);
        let cut = shared_budget(v, available);
        assert forall|q: int| 0 <= q < v.len() implies are_kept(
            #[trigger] cut.value[q],
            v[q],
            !cut.truncated,
        ) by {
            if q < v.len() - 1 {
                assert(cut.value[q] == front.value[q]);
                assert(v.drop_last()[q] == v[q]);
                lemma_weaker(front.value[q], v[q], !front.truncated, !cut.truncated);
            } else {
                lemma_weaker(last.value, v[q], !last.truncated, !cut.truncated);
            }
        }
    }
}

proof fn lemma_own(v: Seq<Seq<ShownV>>, quotas: Seq<int>)
    requires
        v.len() <= quotas.len(),
        forall|q: int| 0 <= q < quotas.len() ==> 0 <= #[trigger] quotas[q],
    ensures
        sets_kept(own_budgets(v, quotas).value, v, !own_budgets(v, quotas).truncated),
    decreases v.len(),
{
    if v.len() > 0 {
        let front = own_budgets(v.drop_last(), quotas);
        lemma_own(v.drop_last(), quotas);
        assert(quotas[v.len() - 1] >= 0);
        let last = all_budgeted(v.last(), quotas[v.len() - 1]);
        lemma_all_budgeted(v.last(), quotas[v.len() - 1]);
        let cut = own_budgets(v, quotas);
        assert forall|q: int| 0 <= q < v.len() implies are_kept(
            #[trigger] cut.value[q],
            v[q],
            !cut.truncated,
        ) by {
            if q < v.len() - 1 {
                assert(cut.value[q] == front.value[q]);
                assert(v.drop_last()[q] == v[q]);
                lemma_weaker(front.value[q], v[q], !front.truncated, !cut.truncated);
            } else {
                lemma_weaker(last.value, v[q], !last.truncated, !cut.truncated);
            }
        }
    }
}

/// Whether a planned candidate shows its own entry, as an excerpt or a lead, or as the
/// source that was loaded for it.
pub open spec fn is_sourced(w: ShownV, c: CandidateV, loaded: Seq<HydrationV>) -> bool {
    &&& w.candidate == c
    &&& w.representation == SearchRepresentation::CompleteSource ==> exists|h: int|
        0 <= h < loaded.len() && (#[trigger] loaded[h]).entry_id == c.entry_id && w.complete_text
            == Some(loaded[h].content)
}

proof fn lemma_source(loaded: Seq<HydrationV>, id: u128, i: int)
    requires
        0 <= i,
    ensures
        source_of(loaded, id, i) is Some ==> exists|h: int|
            0 <= h < loaded.len() && (#[trigger] loaded[h]).entry_id == id && source_of(
                loaded,
                id,
                i,
            )->0 == loaded[h],
    decreases loaded.len() - i,
{
    if i < loaded.len() && loaded[i].entry_id != id {
        lemma_source(loaded, id, i + 1);
    }
}

proof fn lemma_with_source(
    set: Seq<CandidateV>,
    top_n: Option<usize>,
    loaded: Seq<HydrationV>,
    remaining: int,
)
    requires
        remaining >= 0,
    ensures
        ({
            let cut = with_source(as_excerpts(set, top_n), loaded, remaining);
            &&& cut.value.len() == set.len()
            &&& forall|r: int|
                0 <= r < set.len() ==> is_sourced(#[trigger] cut.value[r], set[r], loaded)
            &&& 0 <= cut.remaining <= remaining
        }),
{
    let v = as_excerpts(set, top_n);
    let cut = with_source(v, loaded, remaining);
    if v.len() > 0 {
        lemma_source(loaded, v[0].candidate.entry_id, 0);
        assert(v[0].candidate == set[0]);
    }
    assert forall|r: int| 0 <= r < set.len() implies is_sourced(
        #[trigger] cut.value[r],
        set[r],
        loaded,
    ) by {
        assert(v[r].candidate == set[r]);
    }
}

spec fn sets_sourced(
    w: Seq<Seq<ShownV>>,
    sets: Seq<Seq<CandidateV>>,
    loaded: Seq<HydrationV>,
) -> bool {
    w.len() == sets.len() && forall|q: int|
        0 <= q < sets.len() ==> set_sourced(#[trigger] w[q], sets[q], loaded)
}

spec fn set_sourced(w: Seq<ShownV>, set: Seq<CandidateV>, loaded: Seq<HydrationV>) -> bool {
    w.len() == set.len() && forall|r: int|
        0 <= r < set.len() ==> is_sourced(#[trigger] w[r], set[r], loaded)
}

proof fn lemma_with_sources(
    sets: Seq<Seq<CandidateV>>,
    top_n: Option<usize>,
    loaded: Seq<HydrationV>,
    remaining: int,
)
    requires
        remaining >= 0,
    ensures
        sets_sourced(
            with_sources(excerpt_sets(sets, top_n), loaded, remaining).value,
            sets,
            loaded,
        ),
        0 <= with_sources(excerpt_sets(sets, top_n), loaded, remaining).remaining <= remaining,
    decreases sets.len(),
{
    let v = excerpt_sets(sets, top_n);
    if sets.len() > 0 {
        lemma_with_sources(sets.drop_last(), top_n, loaded, remaining);
        assert(v.drop_last() =~= excerpt_sets(sets.drop_last(), top_n));
        assert(v.last() == as_excerpts(sets.last(), top_n));
        let front = with_sources(v.drop_last(), loaded, remaining);
        lemma_with_source(sets.last(), top_n, loaded, front.remaining);
        let cut = with_sources(v, loaded, remaining);
        assert forall|q: int| 0 <= q < sets.len() implies set_sourced(
            #[trigger] cut.value[q],
            sets[q],
            loaded,
        ) by {
            if q < sets.len() - 1 {
                assert(cut.value[q] == front.value[q]);
                assert(sets.drop_last()[q] == sets[q]);
            }
        }
    }
}

/// Whether what is planned for a candidate shows it: the same entry, with the beginning
/// of its excerpt, or the source that was loaded for that entry.
pub open spec fn is_planned(
    v: ShownV,
    c: CandidateV,
    loaded: Seq<HydrationV>,
    whole: bool,
) -> bool {
    &&& is_cut_of(v.candidate, c)
    &&& whole ==> v.candidate.excerpt == c.excerpt
    &&& v.representation == SearchRepresentation::Excerpt ==> v.candidate.excerpt.len() > 0
    &&& v.representation == SearchRepresentation::CompleteSource ==> exists|h: int|
        0 <= h < loaded.len() && (#[trigger] loaded[h]).entry_id == c.entry_id && v.complete_text
            == Some(loaded[h].content)
}

proof fn lemma_desires(v: Seq<Seq<ShownV>>)
    ensures
        forall|q: int| 0 <= q < v.len() ==> 0 <= #[trigger] desired_sums(v)[q],
{
    assert forall|q: int| 0 <= q < v.len() implies 0 <= #[trigger] desired_sums(v)[q] by {
        lemma_desire(v[q]);
    }
}

proof fn lemma_desire(v: Seq<ShownV>)
    ensures
        0 <= crate::budget::desired_sum(v),
    decreases v.len(),
{
    if v.len() > 0 {
        lemma_desire(v.drop_last());
        lemma_chars(v.last().candidate);
    }
}

proof fn lemma_chars(c: CandidateV)
    ensures
        0 <= crate::budget::candidate_chars(c),
{
    if c.sections.len() > 0 {
        lemma_section_chars(c.sections.skip(1));
    }
}

proof fn lemma_section_chars(s: Seq<crate::candidate::SectionV>)
    ensures
        0 <= crate::budget::section_chars(s),
    decreases s.len(),
{
    if s.len() > 0 {
        lemma_section_chars(s.drop_last());
    }
}

/// Every selected candidate is planned for, under its query and at its rank, and shows
/// its own entry: an excerpt that is cut only at its end, a lead, or the whole source
/// that was loaded for that entry. Where no cut is told of, every excerpt is whole.
pub proof fn lemma_every_candidate_is_planned(
    sets: Seq<Seq<CandidateV>>,
    loaded: Seq<HydrationV>,
    options: SearchBudgetOptions,
)
    ensures
        ({
            let a = assembled(sets, loaded, options);
            &&& a.value.len() == sets.len()
            &&& forall|q: int| 0 <= q < sets.len() ==> (#[trigger] a.value[q]).len() == sets[q].len()
            &&& forall|q: int, r: int|
                0 <= q < sets.len() && 0 <= r < sets[q].len() ==> is_planned(
                    #[trigger] a.value[q][r],
                    sets[q][r],
                    loaded,
                    !a.truncated,
                )
        }),
{
    let top_n = options.section_demotion_top_n;
    let excerpts = excerpt_sets(sets, top_n);
    let max = options.max_chars as int;
    let sourced = if options.top1_hydration {
        with_sources(excerpts, loaded, max)
    } else {
        Cut { value: excerpts, remaining: max, truncated: false }
    };
    lemma_with_sources(sets, top_n, loaded, max);
    assert(sets_sourced(sourced.value, sets, loaded)) by {
        if !options.top1_hydration {
            assert forall|q: int| 0 <= q < sets.len() implies set_sourced(
                #[trigger] excerpts[q],
                sets[q],
                loaded,
            ) by {
                assert(excerpts[q] == as_excerpts(sets[q], top_n));
            }
        }
    }
    lemma_desires(sourced.value);
    lemma_fair_quotas(desired_sums(sourced.value), sourced.remaining);
    let a = assembled(sets, loaded, options);
    if options.fair_share {
        let quotas = fair_quotas(desired_sums(sourced.value), sourced.remaining);
        assert forall|q: int| 0 <= q < quotas.len() implies 0 <= #[trigger] quotas[q] by {
            let d = desired_sums(sourced.value);
            assert(0 <= d[q]);
            assert(0 <= sourced.remaining / d.len() as int) by (nonlinear_arith)
                requires
                    0 <= sourced.remaining,
                    d.len() > 0,
            ;
        }
        lemma_own(sourced.value, quotas);
    } else {
        lemma_shared(sourced.value, sourced.remaining);
    }
    let cut_whole = if options.fair_share {
        !own_budgets(
            sourced.value,
            fair_quotas(desired_sums(sourced.value), sourced.remaining),
        ).truncated
    } else {
        !shared_budget(sourced.value, sourced.remaining).truncated
    };
    assert(sets_kept(a.value, sourced.value, cut_whole));
    assert forall|q: int| 0 <= q < sets.len() implies (#[trigger] a.value[q]).len()
        == sets[q].len() by {
        assert(are_kept(a.value[q], sourced.value[q], cut_whole));
        assert(set_sourced(sourced.value[q], sets[q], loaded));
    }
    assert forall|q: int, r: int| 0 <= q < sets.len() && 0 <= r < sets[q].len() implies is_planned(
        #[trigger] a.value[q][r],
        sets[q][r],
        loaded,
        !a.truncated,
    ) by {
        assert(are_kept(a.value[q], sourced.value[q], cut_whole));
        assert(set_sourced(sourced.value[q], sets[q], loaded));
        assert(is_kept(a.value[q][r], sourced.value[q][r], cut_whole));
        assert(is_sourced(sourced.value[q][r], sets[q][r], loaded));
    }
}

// ---------------------------------------------------------------------------
// Evidence
// ---------------------------------------------------------------------------

proof fn lemma_document(docs: Seq<DocumentV>, id: u128, i: int)
    requires
        0 <= i,
    ensures
        document_of(docs, id, i) is Some ==> exists|d: int|
            0 <= d < docs.len() && #[trigger] docs[d] == document_of(docs, id, i)->0
                && docs[d].entry_id == id,
    decreases docs.len() - i,
{
    if i < docs.len() && docs[i].entry_id != id {
        lemma_document(docs, id, i + 1);
    }
}

/// Evidence is taken from the candidates in their order, each at most once and only
/// where its source is known; a source is shown whole only where it fits into what is
/// left, and the document that is shown belongs to the entry.
pub proof fn lemma_evidence_follows_the_candidates(
    cs: Seq<CandidateV>,
    docs: Seq<DocumentV>,
    i: int,
    remaining: int,
)
    requires
        0 <= i,
        cs.len() <= usize::MAX,
    ensures
        ({
            let steps = evidence_steps(cs, docs, i, remaining);
            &&& forall|k: int|
                0 <= k < steps.len() ==> {
                    let d = document_of(docs, cs[(#[trigger] steps[k]).index as int].entry_id, 0);
                    &&& i <= steps[k].index < cs.len()
                    &&& steps[k].index < HYDRATED_DOCUMENT_LIMIT
                    &&& d is Some
                    &&& d->0.entry_id == cs[steps[k].index as int].entry_id
                    &&& steps[k].complete ==> d->0.size_bytes <= remaining
                    &&& !steps[k].complete ==> 0 < steps[k].excerpt_chars <= remaining
                }
            &&& forall|k: int, l: int|
                0 <= k < l < steps.len() ==> (#[trigger] steps[k]).index < (
                #[trigger] steps[l]).index
        }),
    decreases cs.len() - i,
{
    if i < cs.len() && i < HYDRATED_DOCUMENT_LIMIT {
        let left = crate::budget::behind_note(cs[i].superseded_by, remaining);
        let steps = evidence_steps(cs, docs, i, remaining);
        if left > 0 {
            lemma_document(docs, cs[i].entry_id, 0);
            match document_of(docs, cs[i].entry_id, 0) {
                None => {
                    lemma_evidence_follows_the_candidates(cs, docs, i + 1, left);
                },
                Some(d) => {
                    let spent = if d.size_bytes < 0 {
                        0
                    } else if d.size_bytes <= left && d.size_bytes
                        <= crate::budget::MAX_OPEN_COMPLETE_SOURCE_CHARS {
                        d.size_bytes
                    } else {
                        least(left, MAX_EXCERPT_CHARS as int)
                    };
                    lemma_evidence_follows_the_candidates(cs, docs, i + 1, left - spent);
                    let rest = evidence_steps(cs, docs, i + 1, left - spent);
                    if d.size_bytes >= 0 {
                        assert(steps.len() == rest.len() + 1);
                        assert forall|k: int| 0 < k < steps.len() implies #[trigger] steps[k]
                            == rest[k - 1] by {}
                        assert forall|k: int, l: int| 0 <= k < l < steps.len() implies (
                        #[trigger] steps[k]).index < (#[trigger] steps[l]).index by {
                            assert(steps[l] == rest[l - 1]);
                            if k > 0 {
                                assert(steps[k] == rest[k - 1]);
                            }
                        }
                    }
                },
            }
        }
    }
}

}
