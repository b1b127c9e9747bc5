//! Laws of the answer to a search: every find is accounted for, the best ones are
//! shown, and each is shown as it was found.
use vstd::prelude::*;

#[allow(unused_imports)]
use crate::candidate::{
    adds_lane, best_sections, candidate_before, candidate_order, candidates_view, distinct_entries,
    distinct_sections, first_matches, holds_section, lemma_best_sections, lemma_candidate_order,
    lemma_merge_keeps_entries, lemma_merge_keeps_score_and_lanes, lemma_position_of,
    lemma_section_order, lemma_with_lanes, match_order, merged_all, merged_with, normalized, position_of, same_place,
    section_order, united, with_lanes, without_repeats, CandidateV, MatchV, SearchSort, SectionV,
    LANE_BONUS,
};
#[allow(unused_imports)]
use crate::lanes::{
    annotated, answer_candidates, core_failures, failure_word, lane_finds, later_generation,
    note_of, semantic_finds, with_failure, LaneResult, SemanticOutcome,
};
#[allow(unused_imports)]
use crate::order::{
    is_order, is_sorted, lemma_sorted_in_order, lemma_sorted_permutes, sorted,
};
#[allow(unused_imports)]
use crate::candidate::AnnotationV;
#[allow(unused_imports)]
use crate::score::{greater, infinite, is_code, lemma_nearest, lemma_sum_is_at_least, plus, value, INFINITE};
#[allow(unused_imports)]
use crate::seqs::first_of;
#[allow(unused_imports)]
use crate::text::{lower_case, text_less};

verus! {

// ---------------------------------------------------------------------------
// What a candidate is made of
// ---------------------------------------------------------------------------

/// A candidate shows one of the finds of its entry, and says of the entry what that
/// find says.
pub open spec fn shows(c: CandidateV, find: CandidateV) -> bool {
    &&& c.entry_id == find.entry_id
    &&& c.path == find.path
    &&& c.title == find.title
    &&& c.version == find.version
    &&& c.updated_at == find.updated_at
    &&& c.content_sha256 == find.content_sha256
}

/// The score, the lanes, the sections and the quotes of a candidate are those of the
/// finds of its entry, and of no other.
#[verifier::opaque]
pub open spec fn gathers(c: CandidateV, finds: Seq<CandidateV>) -> bool {
    &&& exists|k: int| 0 <= k < finds.len() && shows(c, #[trigger] finds[k])
    &&& forall|k: int|
        0 <= k < finds.len() && only_find(finds, c.entry_id, k) ==> c.score == (
        #[trigger] finds[k]).score
    &&& forall|k: int, j: int|
        0 <= k < finds.len() && finds[k].entry_id == c.entry_id && 0 <= j < finds[k].lanes.len()
            ==> c.lanes.contains(#[trigger] finds[k].lanes[j])
    &&& forall|i: int|
        0 <= i < c.lanes.len() ==> lane_found(finds, c.entry_id, #[trigger] c.lanes[i])
    &&& forall|i: int|
        0 <= i < c.sections.len() ==> section_found(finds, c.entry_id, #[trigger] c.sections[i])
}

/// Whether an entry was found once.
pub open spec fn only_find(finds: Seq<CandidateV>, id: u128, k: int) -> bool {
    &&& finds[k].entry_id == id
    &&& forall|j: int| 0 <= j < finds.len() && j != k ==> (#[trigger] finds[j]).entry_id != id
}

pub open spec fn lane_found(finds: Seq<CandidateV>, id: u128, lane: Seq<char>) -> bool {
    exists|k: int|
        0 <= k < finds.len() && (#[trigger] finds[k]).entry_id == id && finds[k].lanes.contains(
            lane,
        )
}

pub open spec fn section_found(finds: Seq<CandidateV>, id: u128, section: SectionV) -> bool {
    exists|k: int|
        0 <= k < finds.len() && (#[trigger] finds[k]).entry_id == id && finds[k].sections.contains(
            section,
        )
}

proof fn lemma_gathers_more(c: CandidateV, finds: Seq<CandidateV>, find: CandidateV)
    requires
        gathers(c, finds),
        c.entry_id != find.entry_id,
    ensures
        gathers(c, finds.push(find)),
{
    reveal(gathers);
    let all = finds.push(find);
    let k = choose|k: int| 0 <= k < finds.len() && shows(c, #[trigger] finds[k]);
    assert(shows(c, all[k]));
    assert forall|k: int| 0 <= k < all.len() && only_find(all, c.entry_id, k) implies c.score == (
    #[trigger] all[k]).score by {
        assert(all[k] == finds[k]);
        assert forall|j: int| 0 <= j < finds.len() && j != k implies (
        #[trigger] finds[j]).entry_id != c.entry_id by {
            assert(all[j] == finds[j]);
        }
        assert(only_find(finds, c.entry_id, k));
    }
    assert forall|k: int, j: int|
        0 <= k < all.len() && all[k].entry_id == c.entry_id && 0 <= j
            < all[k].lanes.len() implies c.lanes.contains(#[trigger] all[k].lanes[j]) by {
        assert(all[k] == finds[k]);
        assert(c.lanes.contains(finds[k].lanes[j]));
    }
    assert forall|i: int| 0 <= i < c.lanes.len() implies lane_found(
        all,
        c.entry_id,
        #[trigger] c.lanes[i],
    ) by {
        assert(lane_found(finds, c.entry_id, c.lanes[i]));
        lemma_lane_found_more(finds, find, c.entry_id, c.lanes[i]);
    }
    assert forall|i: int| 0 <= i < c.sections.len() implies section_found(
        all,
        c.entry_id,
        #[trigger] c.sections[i],
    ) by {
        assert(section_found(finds, c.entry_id, c.sections[i]));
        lemma_section_found_more(finds, find, c.entry_id, c.sections[i]);
    }
}

proof fn lemma_lane_found_more(
    finds: Seq<CandidateV>,
    find: CandidateV,
    id: u128,
    lane: Seq<char>,
)
    ensures
        lane_found(finds, id, lane) ==> lane_found(finds.push(find), id, lane),
        find.entry_id == id && find.lanes.contains(lane) ==> lane_found(
            finds.push(find),
            id,
            lane,
        ),
{
    let all = finds.push(find);
    if lane_found(finds, id, lane) {
        let k = choose|k: int|
            0 <= k < finds.len() && (#[trigger] finds[k]).entry_id == id
                && finds[k].lanes.contains(lane);
        assert(all[k].entry_id == id && all[k].lanes.contains(lane));
    }
    assert(all[finds.len() as int] == find);
}

proof fn lemma_section_found_more(
    finds: Seq<CandidateV>,
    find: CandidateV,
    id: u128,
    section: SectionV,
)
    ensures
        section_found(finds, id, section) ==> section_found(finds.push(find), id, section),
        find.entry_id == id && find.sections.contains(section) ==> section_found(
            finds.push(find),
            id,
            section,
        ),
{
    let all = finds.push(find);
    if section_found(finds, id, section) {
        let k = choose|k: int|
            0 <= k < finds.len() && (#[trigger] finds[k]).entry_id == id
                && finds[k].sections.contains(section);
        assert(all[k].entry_id == id && all[k].sections.contains(section));
    }
    assert(all[finds.len() as int] == find);
}

proof fn lemma_first_gathers(finds: Seq<CandidateV>, find: CandidateV)
    requires
        forall|k: int| 0 <= k < finds.len() ==> (#[trigger] finds[k]).entry_id != find.entry_id,
    ensures
        gathers(normalized(find), finds.push(find)),
{
    reveal(gathers);
    let all = finds.push(find);
    let c = normalized(find);
    lemma_best_sections(find.sections);
    assert(shows(c, all[finds.len() as int]));
    assert forall|k: int| 0 <= k < all.len() && only_find(all, c.entry_id, k) implies c.score == (
    #[trigger] all[k]).score by {
        if k < finds.len() {
            assert(all[k] == finds[k]);
        }
    }
    assert forall|k: int, j: int|
        0 <= k < all.len() && all[k].entry_id == c.entry_id && 0 <= j
            < all[k].lanes.len() implies c.lanes.contains(#[trigger] all[k].lanes[j]) by {
        if k < finds.len() {
            assert(all[k] == finds[k]);
        }
    }
    assert forall|i: int| 0 <= i < c.lanes.len() implies lane_found(
        all,
        c.entry_id,
        #[trigger] c.lanes[i],
    ) by {
        lemma_lane_found_more(finds, find, c.entry_id, c.lanes[i]);
    }
    assert forall|i: int| 0 <= i < c.sections.len() implies section_found(
        all,
        c.entry_id,
        #[trigger] c.sections[i],
    ) by {
        lemma_section_found_more(finds, find, c.entry_id, c.sections[i]);
    }
}

proof fn lemma_further_gathers(a: CandidateV, finds: Seq<CandidateV>, find: CandidateV)
    requires
        gathers(a, finds),
        a.entry_id == find.entry_id,
    ensures
        gathers(united(a, normalized(find)), finds.push(find)),
{
    reveal(gathers);
    let all = finds.push(find);
    let b = normalized(find);
    let c = united(a, b);
    let id = a.entry_id;
    lemma_best_sections(find.sections);
    lemma_best_sections(a.sections + b.sections);
    let from = choose|k: int| 0 <= k < finds.len() && shows(a, #[trigger] finds[k]);
    assert(all[from] == finds[from]);
    assert(shows(c, all[from]));
    assert(all[finds.len() as int] == find);
    assert forall|k: int| 0 <= k < all.len() && only_find(all, c.entry_id, k) implies c.score == (
    #[trigger] all[k]).score by {
        if k == from {
            assert(all[finds.len() as int].entry_id == id);
        } else {
            assert(all[from].entry_id == id);
        }
    }
    assert forall|k: int, j: int|
        0 <= k < all.len() && all[k].entry_id == c.entry_id && 0 <= j
            < all[k].lanes.len() implies c.lanes.contains(#[trigger] all[k].lanes[j]) by {
        let lane = all[k].lanes[j];
        lemma_with_lanes(a.lanes, b.lanes, lane);
        if k < finds.len() {
            assert(all[k] == finds[k]);
            assert(a.lanes.contains(finds[k].lanes[j]));
        } else {
            assert(b.lanes[j] == lane);
        }
    }
    assert forall|i: int| 0 <= i < c.lanes.len() implies lane_found(
        all,
        c.entry_id,
        #[trigger] c.lanes[i],
    ) by {
        let lane = c.lanes[i];
        lemma_with_lanes(a.lanes, b.lanes, lane);
        assert(c.lanes.contains(lane));
        lemma_lane_found_more(finds, find, id, lane);
        if a.lanes.contains(lane) {
            let n = choose|n: int| 0 <= n < a.lanes.len() && a.lanes[n] == lane;
            assert(lane_found(finds, id, a.lanes[n]));
        }
    }
    assert forall|i: int| 0 <= i < c.sections.len() implies section_found(
        all,
        c.entry_id,
        #[trigger] c.sections[i],
    ) by {
        let section = c.sections[i];
        let both = a.sections + b.sections;
        lemma_section_found_more(finds, find, id, section);
        assert(both.contains(section));
        let n = choose|n: int| 0 <= n < both.len() && both[n] == section;
        if n < a.sections.len() {
            assert(section_found(finds, id, a.sections[n]));
        } else {
            assert(b.sections[n - a.sections.len()] == section);
        }
    }
}

// ---------------------------------------------------------------------------
// What becomes of a find
// ---------------------------------------------------------------------------

/// Whether a candidate stands for a find: it is of the same entry, and its score is
/// not below that of the find.
pub open spec fn counts(c: CandidateV, find: CandidateV) -> bool {
    &&& c.entry_id == find.entry_id
    &&& is_code(find.score) ==> is_code(c.score) && c.score >= find.score
}

spec fn counted(m: Seq<CandidateV>, find: CandidateV) -> bool {
    exists|i: int| 0 <= i < m.len() && counts(#[trigger] m[i], find)
}

#[verifier::opaque]
spec fn accounts(m: Seq<CandidateV>, finds: Seq<CandidateV>) -> bool {
    &&& distinct_entries(m)
    &&& forall|i: int| 0 <= i < m.len() ==> gathers(#[trigger] m[i], finds)
    &&& forall|k: int| 0 <= k < finds.len() ==> counted(m, #[trigger] finds[k])
}

proof fn lemma_bonus_is_a_number(a: int)
    requires
        is_code(a),
    ensures
        is_code(plus(a, LANE_BONUS as int)),
        plus(a, LANE_BONUS as int) >= a,
{
    lemma_sum_is_at_least(a, LANE_BONUS as int);
    lemma_nearest(value(a) + value(LANE_BONUS as int));
}

proof fn lemma_united_counts(a: CandidateV, b: CandidateV, find: CandidateV)
    requires
        counts(a, find) || counts(b, find),
        a.entry_id == b.entry_id,
    ensures
        counts(united(a, b), find),
{
    let best = greater(a.score, b.score);
    if is_code(find.score) {
        assert(is_code(best) && best >= find.score);
        lemma_bonus_is_a_number(best);
    }
}

proof fn lemma_one_more_find(m: Seq<CandidateV>, finds: Seq<CandidateV>, find: CandidateV)
    requires
        accounts(m, finds),
    ensures
        accounts(merged_with(m, find), finds.push(find)),
{
    reveal(accounts);
    let all = finds.push(find);
    let n = merged_with(m, find);
    let id = find.entry_id;
    lemma_merge_keeps_entries(m, find);
    lemma_position_of(m, id, 0);
    let at = position_of(m, id, 0);
    let b = normalized(find);
    if at < m.len() {
        assert(n[at] == united(m[at], b));
        assert forall|i: int| 0 <= i < n.len() implies gathers(#[trigger] n[i], all) by {
            assert(gathers(m[i], finds));
            if i == at {
                lemma_further_gathers(m[at], finds, find);
            } else {
                lemma_gathers_more(m[i], finds, find);
            }
        }
        assert forall|k: int| 0 <= k < all.len() implies counted(n, #[trigger] all[k]) by {
            if k < finds.len() {
                assert(counted(m, finds[k]));
                let i = choose|i: int| 0 <= i < m.len() && counts(#[trigger] m[i], finds[k]);
                if i == at {
                    lemma_united_counts(m[at], b, finds[k]);
                }
                assert(counts(n[i], all[k]));
            } else {
                lemma_united_counts(m[at], b, find);
                assert(counts(n[at], all[k]));
            }
        }
    } else {
        assert(n == m.push(b));
        assert forall|k: int| 0 <= k < finds.len() implies (#[trigger] finds[k]).entry_id
            != id by {
            assert(counted(m, finds[k]));
            let i = choose|i: int| 0 <= i < m.len() && counts(#[trigger] m[i], finds[k]);
        }
        assert forall|i: int| 0 <= i < n.len() implies gathers(#[trigger] n[i], all) by {
            if i < m.len() {
                assert(gathers(m[i], finds));
                lemma_gathers_more(m[i], finds, find);
            } else {
                lemma_first_gathers(finds, find);
            }
        }
        assert forall|k: int| 0 <= k < all.len() implies counted(n, #[trigger] all[k]) by {
            if k < finds.len() {
                assert(counted(m, finds[k]));
                let i = choose|i: int| 0 <= i < m.len() && counts(#[trigger] m[i], finds[k]);
                assert(counts(n[i], all[k]));
            } else {
                assert(counts(n[m.len() as int], all[k]));
            }
        }
    }
}

proof fn lemma_more_finds(m: Seq<CandidateV>, finds: Seq<CandidateV>, more: Seq<CandidateV>)
    requires
        accounts(m, finds),
    ensures
        accounts(merged_all(m, more), finds + more),
    decreases more.len(),
{
    if more.len() == 0 {
        assert(finds + more =~= finds);
    } else {
        lemma_more_finds(m, finds, more.drop_last());
        lemma_one_more_find(
            merged_all(m, more.drop_last()),
            finds + more.drop_last(),
            more.last(),
        );
        assert((finds + more.drop_last()).push(more.last()) =~= finds + more);
    }
}

// ---------------------------------------------------------------------------
// What is answered
// ---------------------------------------------------------------------------

/// Whether one candidate belongs before another: the better score, the later change
/// or the title that comes first; of equals the later change, or the better score
/// where changes decide; and in the end the path that comes first.
pub open spec fn outranks(order: SearchSort, a: CandidateV, b: CandidateV) -> bool {
    match order {
        SearchSort::BestMatch => {
            ||| a.score > b.score
            ||| a.score == b.score && a.updated_at > b.updated_at
            ||| a.score == b.score && a.updated_at == b.updated_at && text_less(a.path, b.path)
        },
        SearchSort::LastModified => {
            ||| a.updated_at > b.updated_at
            ||| a.updated_at == b.updated_at && a.score > b.score
            ||| a.updated_at == b.updated_at && a.score == b.score && text_less(a.path, b.path)
        },
        SearchSort::Title => {
            ||| text_less(lower_case(a.title), lower_case(b.title))
            ||| lower_case(a.title) == lower_case(b.title) && a.updated_at > b.updated_at
            ||| lower_case(a.title) == lower_case(b.title) && a.updated_at == b.updated_at
                && text_less(a.path, b.path)
        },
    }
}

/// What the lanes found, one lane behind the other.
pub open spec fn all_finds(
    exact: LaneResult,
    lexical: LaneResult,
    semantic: Option<SemanticOutcome>,
) -> Seq<CandidateV> {
    (match exact {
        LaneResult::Found { candidates, .. } => candidates_view(candidates@),
        LaneResult::Failed => Seq::empty(),
    }) + (match lexical {
        LaneResult::Found { candidates, .. } => candidates_view(candidates@),
        LaneResult::Failed => Seq::empty(),
    }) + (match semantic {
        Some(SemanticOutcome::Success(found)) => candidates_view(found.candidates@),
        _ => Seq::empty(),
    })
}

/// Whether a find is shown.
pub open spec fn is_shown(find: CandidateV, answer: Seq<CandidateV>) -> bool {
    exists|i: int| 0 <= i < answer.len() && counts(#[trigger] answer[i], find)
}

/// Whether a find is rightly left out: the answer is full, and nothing in it comes
/// behind the candidate that the finds of the entry make.
pub open spec fn is_beaten(
    find: CandidateV,
    answer: Seq<CandidateV>,
    finds: Seq<CandidateV>,
    order: SearchSort,
    limit: int,
) -> bool {
    &&& answer.len() == limit
    &&& exists|c: CandidateV| #[trigger]
        gathers(c, finds) && counts(c, find) && (forall|i: int|
            0 <= i < answer.len() ==> !outranks(order, c, #[trigger] answer[i]))
}

/// The note of a path in a table, the first one where there are several.
pub open spec fn is_note(
    note: Option<AnnotationV>,
    table: Seq<(Seq<char>, AnnotationV)>,
    path: Seq<char>,
) -> bool {
    match note {
        Some(n) => exists|t: int|
            0 <= t < table.len() && #[trigger] table[t] == (path, n) && (forall|u: int|
                0 <= u < t ==> (#[trigger] table[u]).0 != path),
        None => forall|t: int| 0 <= t < table.len() ==> (#[trigger] table[t]).0 != path,
    }
}

proof fn lemma_note(table: Seq<(Seq<char>, AnnotationV)>, path: Seq<char>, i: int)
    requires
        0 <= i <= table.len(),
        forall|u: int| 0 <= u < i ==> (#[trigger] table[u]).0 != path,
    ensures
        is_note(note_of(table, path, i), table, path),
    decreases table.len() - i,
{
    if i < table.len() {
        if table[i].0 == path {
            assert(table[i] == (path, table[i].1));
        } else {
            lemma_note(table, path, i + 1);
        }
    }
}

proof fn lemma_gathers_note(c: CandidateV, d: CandidateV, finds: Seq<CandidateV>)
    requires
        gathers(c, finds),
        d == (CandidateV { superseded_by: d.superseded_by, ..c }),
    ensures
        gathers(d, finds),
{
    reveal(gathers);
    let k = choose|k: int| 0 <= k < finds.len() && shows(c, #[trigger] finds[k]);
    assert(shows(d, finds[k]));
    assert(d.lanes == c.lanes && d.sections == c.sections && d.score == c.score);
    assert forall|i: int| 0 <= i < d.lanes.len() implies lane_found(
        finds,
        d.entry_id,
        #[trigger] d.lanes[i],
    ) by {
        assert(lane_found(finds, c.entry_id, c.lanes[i]));
    }
    assert forall|i: int| 0 <= i < d.sections.len() implies section_found(
        finds,
        d.entry_id,
        #[trigger] d.sections[i],
    ) by {
        assert(section_found(finds, c.entry_id, c.sections[i]));
    }
}

/// Whether candidates are the best of what was found: no more than asked for, no entry
/// twice, in order, each as it was found, and nothing left out that belongs before them.
pub open spec fn is_best(
    answer: Seq<CandidateV>,
    finds: Seq<CandidateV>,
    table: Option<Seq<(Seq<char>, AnnotationV)>>,
    enabled: bool,
    order: SearchSort,
    limit: int,
) -> bool {
    &&& answer.len() <= limit
    &&& forall|i: int, j: int|
        0 <= i < j < answer.len() ==> (#[trigger] answer[i]).entry_id != (
        #[trigger] answer[j]).entry_id && !outranks(order, answer[j], answer[i])
    &&& forall|i: int| 0 <= i < answer.len() ==> gathers(#[trigger] answer[i], finds)
    &&& forall|k: int|
        0 <= k < finds.len() ==> is_shown(#[trigger] finds[k], answer) || is_beaten(
            finds[k],
            answer,
            finds,
            order,
            limit,
        )
    &&& enabled && table is Some ==> forall|i: int|
        0 <= i < answer.len() ==> is_note(
            (#[trigger] answer[i]).superseded_by,
            table->0,
            answer[i].path,
        )
}

proof fn lemma_best_of(
    all: Seq<CandidateV>,
    finds: Seq<CandidateV>,
    table: Option<Seq<(Seq<char>, AnnotationV)>>,
    enabled: bool,
    order: SearchSort,
    limit: int,
)
    requires
        limit >= 0,
        accounts(all, finds),
    ensures
        is_best(
            first_of(sorted(candidate_order(order), annotated(all, table, enabled)), limit),
            finds,
            table,
            enabled,
            order,
            limit,
        ),
{
    broadcast use vstd::seq_lib::group_to_multiset_ensures;

    let noted = annotated(all, table, enabled);
    let first = candidate_order(order);
    let ranked = sorted(first, noted);
    let answer = first_of(ranked, limit);
    lemma_candidate_order(order);
    lemma_sorted_in_order(first, noted);
    lemma_sorted_permutes(first, noted);
    reveal(accounts);
    assert forall|i: int| 0 <= i < noted.len() implies gathers(#[trigger] noted[i], finds) by {
        assert(gathers(all[i], finds));
        lemma_gathers_note(all[i], noted[i], finds);
    }
    assert(noted.no_duplicates()) by {
        assert forall|i: int, j: int| 0 <= i < noted.len() && 0 <= j < noted.len() && i
            != j implies noted[i] != noted[j] by {
            assert(noted[i].entry_id == all[i].entry_id);
            assert(noted[j].entry_id == all[j].entry_id);
        }
    }
    noted.lemma_multiset_has_no_duplicates();
    ranked.lemma_multiset_has_no_duplicates_conv();
    assert forall|i: int| 0 <= i < ranked.len() implies noted.contains(#[trigger] ranked[i]) by {
        assert(ranked.to_multiset().count(ranked[i]) > 0);
        assert(noted.to_multiset().count(ranked[i]) > 0);
    }
    assert forall|i: int, j: int| 0 <= i < j < answer.len() implies (
    #[trigger] answer[i]).entry_id != (#[trigger] answer[j]).entry_id && !outranks(
        order,
        answer[j],
        answer[i],
    ) by {
        assert(answer[i] == ranked[i] && answer[j] == ranked[j]);
        assert(!first(ranked[j], ranked[i]));
        let a = choose|a: int| 0 <= a < noted.len() && noted[a] == ranked[i];
        let b = choose|b: int| 0 <= b < noted.len() && noted[b] == ranked[j];
        assert(noted.contains(ranked[i]) && noted.contains(ranked[j]));
        assert(a != b);
        assert(all[a].entry_id != all[b].entry_id);
    }
    assert forall|i: int| 0 <= i < answer.len() implies gathers(#[trigger] answer[i], finds) by {
        assert(noted.contains(ranked[i]));
        let a = choose|a: int| 0 <= a < noted.len() && noted[a] == ranked[i];
        assert(gathers(noted[a], finds));
    }
    assert forall|k: int| 0 <= k < finds.len() implies is_shown(#[trigger] finds[k], answer)
        || is_beaten(finds[k], answer, finds, order, limit) by {
        let find = finds[k];
        assert(counted(all, find));
        let a = choose|a: int| 0 <= a < all.len() && counts(#[trigger] all[a], find);
        let c = noted[a];
        assert(counts(c, find));
        assert(gathers(c, finds));
        assert(noted.to_multiset().count(c) > 0);
        assert(ranked.to_multiset().count(c) > 0);
        assert(ranked.contains(c));
        let r = choose|r: int| 0 <= r < ranked.len() && ranked[r] == c;
        if r < answer.len() {
            assert(counts(answer[r], find));
        } else {
            assert forall|i: int| 0 <= i < answer.len() implies !outranks(
                order,
                c,
                #[trigger] answer[i],
            ) by {
                assert(answer[i] == ranked[i]);
                assert(!first(ranked[r], ranked[i]));
            }
            assert(is_beaten(find, answer, finds, order, limit));
        }
    }
    if enabled && table is Some {
        assert forall|i: int| 0 <= i < answer.len() implies is_note(
            (#[trigger] answer[i]).superseded_by,
            table->0,
            answer[i].path,
        ) by {
            assert(noted.contains(ranked[i]));
            let a = choose|a: int| 0 <= a < noted.len() && noted[a] == ranked[i];
            lemma_note(table->0, all[a].path, 0);
        }
    }
}

/// The best finds are answered. No more than asked for are shown, no entry twice, in
/// the order asked for. Each says of its entry what a lane found of it. A find that is
/// not shown is left out only because the answer is full of candidates that do not come
/// behind it. The note that an entry is superseded is that of its path.
pub proof fn lemma_best_finds_are_answered(
    exact: LaneResult,
    lexical: LaneResult,
    semantic: Option<SemanticOutcome>,
    table: Option<Seq<(Seq<char>, AnnotationV)>>,
    enabled: bool,
    order: SearchSort,
    limit: int,
)
    requires
        limit >= 0,
    ensures
        is_best(
            answer_candidates(exact, lexical, semantic, table, enabled, order, limit),
            all_finds(exact, lexical, semantic),
            table,
            enabled,
            order,
            limit,
        ),
{
    let finds = all_finds(exact, lexical, semantic);
    let none = Seq::<CandidateV>::empty();
    assert(accounts(none, none)) by {
        reveal(accounts);
    }
    let one = merged_all(none, lane_finds(exact));
    let two = merged_all(one, lane_finds(lexical));
    let all = merged_all(two, semantic_finds(semantic));
    lemma_more_finds(none, none, lane_finds(exact));
    lemma_more_finds(one, none + lane_finds(exact), lane_finds(lexical));
    lemma_more_finds(two, none + lane_finds(exact) + lane_finds(lexical), semantic_finds(semantic));
    assert(none + lane_finds(exact) + lane_finds(lexical) + semantic_finds(semantic) =~= finds);
    assert(accounts(all, finds));
    lemma_best_of(all, finds, table, enabled, order, limit);
}

/// The generation of an answer is that of the lane that saw the later one.
pub proof fn lemma_generation_is_the_later(a: Option<i64>, b: Option<i64>)
    ensures
        later_generation(a, b) is None <==> a is None && b is None,
        a is Some ==> later_generation(a, b)->0 >= a->0,
        b is Some ==> later_generation(a, b)->0 >= b->0,
        later_generation(a, b) == a || later_generation(a, b) == b,
{
}

/// A search tells of the exact or the lexical lane exactly where that lane failed.
pub proof fn lemma_failed_lanes_are_told(exact: LaneResult, lexical: LaneResult)
    ensures
        core_failures(exact, lexical).contains("exact"@) <==> exact is Failed,
        core_failures(exact, lexical).contains("lexical"@) <==> lexical is Failed,
        core_failures(exact, lexical).len() <= 2,
{
    reveal_strlit("exact");
    reveal_strlit("lexical");
    assert("exact"@.len() == 5 && "lexical"@.len() == 7);
    let f = core_failures(exact, lexical);
    if exact is Failed {
        assert(f[0] == "exact"@);
    }
    if lexical is Failed {
        assert(f[f.len() - 1] == "lexical"@);
    }
}

/// The best of what was found for a task is told: what it goes on with, what was hinted
/// at and what a search found, in the order of their scores, and at most thirty-two
/// entries.
pub proof fn lemma_best_finds_are_opened(
    continuation: Seq<CandidateV>,
    hints: Seq<CandidateV>,
    search: Seq<CandidateV>,
    table: Option<Seq<(Seq<char>, AnnotationV)>>,
    enabled: bool,
)
    ensures
        is_best(
            crate::open::open_choice(continuation, hints, search, table, enabled),
            continuation + hints + search,
            table,
            enabled,
            SearchSort::BestMatch,
            32,
        ),
{
    let none = Seq::<CandidateV>::empty();
    assert(accounts(none, none)) by {
        reveal(accounts);
    }
    let one = merged_all(none, continuation);
    let two = merged_all(one, hints);
    lemma_more_finds(none, none, continuation);
    lemma_more_finds(one, none + continuation, hints);
    lemma_more_finds(two, none + continuation + hints, search);
    assert(none + continuation + hints + search =~= continuation + hints + search);
    lemma_best_of(
        merged_all(two, search),
        continuation + hints + search,
        table,
        enabled,
        SearchSort::BestMatch,
        32,
    );
}

}
