//! How much of what a search found is shown: which candidates, and how many
//! characters of each.
use vstd::prelude::*;

use crate::candidate::{
    copy_candidates, Candidate, CandidateSection, SupersessionAnnotation,
};
#[allow(unused_imports)]
use crate::candidate::{candidates_view, sections_view, AnnotationV, CandidateV, SectionV};
#[allow(unused_imports)]
use crate::seqs::lemma_map_push;
use crate::text::truncate_chars;
#[allow(unused_imports)]
use crate::text::truncated;

verus! {

/// How many tokens a response takes where the request does not say.
pub const DEFAULT_TOKEN_BUDGET: usize = 12_000;

/// The most tokens a request can ask for.
pub const MAX_TOKEN_BUDGET: usize = 64_000;

/// The fewest tokens a response is planned for.
pub const MIN_TOKEN_BUDGET: usize = 1_000;

/// How many characters stand for one token.
pub const CHARS_PER_TOKEN: usize = 4;

pub const MAX_SEARCH_RESPONSE_CANDIDATES: usize = 128;

pub const MAX_SEARCH_RESPONSE_CHARS: usize = 96_000;

/// The most characters of one excerpt.
pub const MAX_EXCERPT_CHARS: usize = 2_400;

/// The largest source that is shown whole, in bytes.
pub const MAX_OPEN_COMPLETE_SOURCE_CHARS: usize = 24_000;

pub open spec fn least(a: int, b: int) -> int {
    if a <= b {
        a
    } else {
        b
    }
}

/// What is left of a budget after something is spent, never less than nothing.
pub open spec fn left_of(budget: int, spent: int) -> int {
    if spent > budget {
        0
    } else {
        budget - spent
    }
}

/// The nearest number that a `usize` can hold.
pub open spec fn fit(n: int) -> int {
    least(n, usize::MAX as int)
}

/// The tokens a response is planned for.
pub open spec fn planned_tokens(requested: Option<usize>) -> int {
    let n: int = match requested {
        Some(n) => n as int,
        None => DEFAULT_TOKEN_BUDGET as int,
    };
    if n < MIN_TOKEN_BUDGET {
        MIN_TOKEN_BUDGET as int
    } else {
        least(n, MAX_TOKEN_BUDGET as int)
    }
}

/// The tokens a response is planned for.
pub fn plan_tokens(requested: Option<usize>) -> (r: usize)
    ensures
        r == planned_tokens(requested),
{
    let n: usize = match requested {
        Some(n) => n,
        None => DEFAULT_TOKEN_BUDGET,
    };
    if n < MIN_TOKEN_BUDGET {
        MIN_TOKEN_BUDGET
    } else if n > MAX_TOKEN_BUDGET {
        MAX_TOKEN_BUDGET
    } else {
        n
    }
}

/// What the service is set up to do with search responses.
#[derive(Clone, Copy, Debug)]
pub struct SearchConfig {
    pub search_fair_share: bool,
    pub search_top1_hydration: bool,
    pub search_char_cap: bool,
    pub search_section_demotion_top_n: Option<usize>,
}

/// How the budget of one search response is dealt out.
#[derive(Clone, Copy, Debug)]
pub struct SearchBudgetOptions {
    pub fair_share: bool,
    pub top1_hydration: bool,
    pub char_cap: bool,
    pub section_demotion_top_n: Option<usize>,
    pub max_chars: usize,
}

impl SearchBudgetOptions {
    /// The options for a request: the budget of the request counts, and sections are
    /// demoted, only where responses are capped.
    pub fn from_request(config: &SearchConfig, token_budget: Option<usize>) -> (r: Self)
        ensures
            r.fair_share == config.search_fair_share,
            r.top1_hydration == config.search_top1_hydration,
            r.char_cap == config.search_char_cap,
            r.section_demotion_top_n == if config.search_char_cap {
                config.search_section_demotion_top_n
            } else {
                None
            },
            r.max_chars == if config.search_char_cap {
                least(
                    planned_tokens(token_budget) * CHARS_PER_TOKEN,
                    MAX_SEARCH_RESPONSE_CHARS as int,
                )
            } else {
                MAX_SEARCH_RESPONSE_CHARS as int
            },
    {
        let max_chars: usize = if config.search_char_cap {
            let wanted: usize = plan_tokens(token_budget) * CHARS_PER_TOKEN;
            if wanted < MAX_SEARCH_RESPONSE_CHARS {
                wanted
            } else {
                MAX_SEARCH_RESPONSE_CHARS
            }
        } else {
            MAX_SEARCH_RESPONSE_CHARS
        };
        SearchBudgetOptions {
            fair_share: config.search_fair_share,
            top1_hydration: config.search_top1_hydration,
            char_cap: config.search_char_cap,
            section_demotion_top_n: if config.search_char_cap {
                config.search_section_demotion_top_n
            } else {
                None
            },
            max_chars,
        }
    }

    /// Whether anything is dealt out otherwise than in the order of the queries.
    pub fn active(self) -> (r: bool)
        ensures
            r == (self.fair_share || self.top1_hydration || self.char_cap),
    {
        self.fair_share || self.top1_hydration || self.char_cap
    }
}

// ---------------------------------------------------------------------------
// Which candidates are shown
// ---------------------------------------------------------------------------

/// How many candidates stand, rank by rank and in each rank query by query, before
/// the one at a rank of a query.
pub open spec fn standing_before(lens: Seq<int>, rank: int, query: int) -> int {
    standing_among(lens, rank, query, lens.len() as int)
}

/// The same, counting only the first `n` queries.
pub open spec fn standing_among(lens: Seq<int>, rank: int, query: int, n: int) -> int
    decreases n,
{
    if n <= 0 {
        0
    } else {
        standing_among(lens, rank, query, n - 1) + least(
            lens[n - 1],
            rank + if n - 1 < query {
                1int
            } else {
                0int
            },
        )
    }
}

/// How many candidates the queries before one have.
pub open spec fn sum_to(lens: Seq<int>, n: int) -> int
    decreases n,
{
    if n <= 0 {
        0
    } else {
        sum_to(lens, n - 1) + lens[n - 1]
    }
}

/// Whether the candidate at a rank of a query is shown. In fair shares, the best of
/// every query come first, then the second best, and so on; otherwise all of the
/// first query come first. The first `max` in that order are shown.
pub open spec fn is_shown(lens: Seq<int>, fair: bool, max: int, query: int, rank: int) -> bool {
    &&& 0 <= query < lens.len()
    &&& 0 <= rank < lens[query]
    &&& if fair {
        standing_before(lens, rank, query) < max
    } else {
        sum_to(lens, query) + rank < max
    }
}

pub open spec fn ints_of(v: Seq<usize>) -> Seq<int> {
    Seq::new(v.len(), |i: int| v[i] as int)
}

pub open spec fn lens_of(sets: Seq<Vec<Candidate>>) -> Seq<int> {
    Seq::new(sets.len(), |i: int| sets[i]@.len() as int)
}

/// What is shown of each query: its first candidates, as many as are shown.
pub open spec fn shows_first(
    sets: Seq<Vec<Candidate>>,
    fair: bool,
    max: int,
    r: Seq<Vec<Candidate>>,
) -> bool {
    &&& r.len() == sets.len()
    &&& forall|q: int|
        0 <= q < sets.len() ==> {
            &&& (#[trigger] r[q])@.len() <= sets[q]@.len()
            &&& candidates_view(r[q]@) == candidates_view(sets[q]@).take(r[q]@.len() as int)
        }
    &&& forall|q: int, rank: int|
        0 <= q < sets.len() ==> (rank < (#[trigger] r[q])@.len() && 0 <= rank <==> #[trigger] is_shown(
            lens_of(sets),
            fair,
            max,
            q,
            rank,
        ))
}

proof fn lemma_standing_step(lens: Seq<int>, rank: int, query: int, n: int)
    requires
        0 <= query < lens.len(),
        0 <= n <= lens.len(),
        rank >= 0,
        forall|i: int| 0 <= i < lens.len() ==> 0 <= #[trigger] lens[i],
    ensures
        standing_among(lens, rank, query + 1, n) == standing_among(lens, rank, query, n) + if query
            < n && rank < lens[query] {
            1int
        } else {
            0int
        },
    decreases n,
{
    if n > 0 {
        lemma_standing_step(lens, rank, query, n - 1);
    }
}

proof fn lemma_standing_wrap(lens: Seq<int>, rank: int, n: int)
    requires
        0 <= n <= lens.len(),
    ensures
        standing_among(lens, rank, lens.len() as int, n) == standing_among(lens, rank + 1, 0, n),
    decreases n,
{
    if n > 0 {
        lemma_standing_wrap(lens, rank, n - 1);
    }
}

proof fn lemma_standing_monotone(
    lens: Seq<int>,
    rank: int,
    query: int,
    rank2: int,
    query2: int,
    n: int,
)
    requires
        rank < rank2 || (rank == rank2 && query <= query2),
        0 <= n <= lens.len(),
    ensures
        standing_among(lens, rank, query, n) <= standing_among(lens, rank2, query2, n),
    decreases n,
{
    if n > 0 {
        lemma_standing_monotone(lens, rank, query, rank2, query2, n - 1);
    }
}

proof fn lemma_standing_zero(lens: Seq<int>, n: int)
    requires
        0 <= n <= lens.len(),
        forall|i: int| 0 <= i < lens.len() ==> 0 <= #[trigger] lens[i],
    ensures
        standing_among(lens, 0, 0, n) == 0,
    decreases n,
{
    if n > 0 {
        lemma_standing_zero(lens, n - 1);
    }
}

proof fn lemma_sum_in_turn(lens: Seq<int>, counts: Seq<int>, max: int, n: int)
    requires
        0 <= n <= lens.len(),
        counts.len() == lens.len(),
        max >= 0,
        forall|i: int| 0 <= i < lens.len() ==> 0 <= #[trigger] lens[i],
        forall|i: int|
            0 <= i < lens.len() ==> (#[trigger] counts[i]) == least(
                lens[i],
                left_of(max, sum_to(lens, i)),
            ),
    ensures
        sum_to(counts, n) == least(max, sum_to(lens, n)),
        sum_to(lens, n) >= 0,
    decreases n,
{
    if n > 0 {
        lemma_sum_in_turn(lens, counts, max, n - 1);
        assert(counts[n - 1] == least(lens[n - 1], left_of(max, sum_to(lens, n - 1))));
    }
}

proof fn lemma_sum_standing(lens: Seq<int>, counts: Seq<int>, rank: int, query: int, n: int)
    requires
        0 <= n <= lens.len(),
        counts.len() == lens.len(),
        forall|k: int|
            0 <= k < lens.len() ==> (#[trigger] counts[k]) == least(
                lens[k],
                rank + if k < query {
                    1int
                } else {
                    0int
                },
            ),
    ensures
        sum_to(counts, n) == standing_among(lens, rank, query, n),
    decreases n,
{
    if n > 0 {
        lemma_sum_standing(lens, counts, rank, query, n - 1);
        assert(counts[n - 1] == least(
            lens[n - 1],
            rank + if n - 1 < query {
                1int
            } else {
                0int
            },
        ));
    }
}

proof fn lemma_standing_bound(lens: Seq<int>, rank: int, query: int, n: int)
    requires
        0 <= n <= lens.len(),
    ensures
        standing_among(lens, rank, query, n) <= sum_to(lens, n),
    decreases n,
{
    if n > 0 {
        lemma_standing_bound(lens, rank, query, n - 1);
    }
}

proof fn lemma_standing_all(lens: Seq<int>, rank: int, n: int)
    requires
        0 <= n <= lens.len(),
        forall|i: int| 0 <= i < lens.len() ==> #[trigger] lens[i] <= rank,
    ensures
        standing_among(lens, rank, 0, n) == sum_to(lens, n),
    decreases n,
{
    if n > 0 {
        lemma_standing_all(lens, rank, n - 1);
    }
}

/// How many candidates of each query are shown.
fn shown_counts(lens: &Vec<usize>, fair: bool, max: usize) -> (r: Vec<usize>)
    ensures
        r@.len() == lens@.len(),
        forall|q: int| 0 <= q < lens@.len() ==> (#[trigger] r@[q]) <= lens@[q],
        forall|q: int, rank: int|
            0 <= q < lens@.len() ==> (0 <= rank < (#[trigger] r@[q]) <==> #[trigger] is_shown(
                ints_of(lens@),
                fair,
                max as int,
                q,
                rank,
            )),
        sum_to(ints_of(r@), lens@.len() as int) == least(
            max as int,
            sum_to(ints_of(lens@), lens@.len() as int),
        ),
{
    let ghost ints = ints_of(lens@);
    let mut counts: Vec<usize> = Vec::new();
    if !fair {
        let mut remaining: usize = max;
        let mut q: usize = 0;
        while q < lens.len()
            invariant
                q <= lens@.len(),
                counts@.len() == q,
                ints == ints_of(lens@),
                remaining == left_of(max as int, sum_to(ints, q as int)),
                sum_to(ints, q as int) >= 0,
                forall|i: int|
                    0 <= i < q ==> (#[trigger] counts@[i]) == least(
                        lens@[i] as int,
                        left_of(max as int, sum_to(ints, i)),
                    ),
            decreases lens@.len() - q,
        {
            let n: usize = if lens[q] <= remaining {
                lens[q]
            } else {
                remaining
            };
            counts.push(n);
            remaining = remaining - n;
            assert(ints[q as int] == lens@[q as int]);
            q = q + 1;
        }
        proof {
            lemma_sum_in_turn(ints, ints_of(counts@), max as int, lens@.len() as int);
        }
        return counts;
    }
    let mut max_rank: usize = 0;
    let mut i: usize = 0;
    while i < lens.len()
        invariant
            i <= lens@.len(),
            counts@.len() == i,
            forall|k: int| 0 <= k < i ==> #[trigger] counts@[k] == 0,
            forall|k: int| 0 <= k < i ==> #[trigger] lens@[k] <= max_rank,
        decreases lens@.len() - i,
    {
        counts.push(0);
        if lens[i] > max_rank {
            max_rank = lens[i];
        }
        i = i + 1;
    }
    let mut selected: usize = 0;
    let mut rank: usize = 0;
    proof {
        lemma_standing_zero(ints, ints.len() as int);
    }
    while rank < max_rank
        invariant
            fair,
            rank <= max_rank,
            counts@.len() == lens@.len(),
            ints == ints_of(lens@),
            forall|k: int| 0 <= k < lens@.len() ==> #[trigger] lens@[k] <= max_rank,
            forall|k: int|
                0 <= k < lens@.len() ==> (#[trigger] counts@[k]) == least(
                    lens@[k] as int,
                    rank as int,
                ),
            selected == standing_before(ints, rank as int, 0),
            selected <= max,
        decreases max_rank - rank,
    {
        let mut q: usize = 0;
        while q < lens.len()
            invariant
                fair,
                q <= lens@.len(),
                rank < max_rank,
                counts@.len() == lens@.len(),
                ints == ints_of(lens@),
                forall|k: int|
                    0 <= k < lens@.len() ==> (#[trigger] counts@[k]) == least(
                        lens@[k] as int,
                        rank + if k < q {
                            1int
                        } else {
                            0int
                        },
                    ),
                selected == standing_before(ints, rank as int, q as int),
                selected <= max,
            decreases lens@.len() - q,
        {
            if selected == max {
                proof {
                    assert forall|p: int, r: int| 0 <= p < lens@.len() implies (0 <= r < (
                    #[trigger] counts@[p]) <==> #[trigger] is_shown(ints, fair, max as int, p, r)) by {
                        assert(ints[p] == lens@[p]);
                        let n = ints.len() as int;
                        if 0 <= r < lens@[p] {
                            if r < rank || (r == rank && p < q) {
                                lemma_standing_monotone(ints, r, p + 1, rank as int, q as int, n);
                                lemma_standing_step(ints, r, p, n);
                            } else {
                                lemma_standing_monotone(ints, rank as int, q as int, r, p, n);
                            }
                        }
                    }
                    let n = ints.len() as int;
                    lemma_sum_standing(ints, ints_of(counts@), rank as int, q as int, n);
                    lemma_standing_bound(ints, rank as int, q as int, n);
                }
                return counts;
            }
            proof {
                lemma_standing_step(ints, rank as int, q as int, ints.len() as int);
                assert(ints[q as int] == lens@[q as int]);
            }
            if rank < lens[q] {
                let n: usize = counts[q];
                counts.set(q, n + 1);
                selected = selected + 1;
            }
            q = q + 1;
        }
        proof {
            lemma_standing_wrap(ints, rank as int, ints.len() as int);
        }
        rank = rank + 1;
    }
    proof {
        assert forall|p: int, r: int| 0 <= p < lens@.len() implies (0 <= r < (
        #[trigger] counts@[p]) <==> #[trigger] is_shown(ints, fair, max as int, p, r)) by {
            assert(ints[p] == lens@[p]);
            let n = ints.len() as int;
            if 0 <= r < lens@[p] {
                lemma_standing_monotone(ints, r, p + 1, rank as int, 0, n);
                lemma_standing_step(ints, r, p, n);
            }
        }
        let n = ints.len() as int;
        lemma_sum_standing(ints, ints_of(counts@), rank as int, 0, n);
        lemma_standing_all(ints, rank as int, n);
    }
    counts
}

/// Selects the candidates of a response, and tells whether any had to be left out.
pub fn select_search_candidate_sets(
    candidate_sets: &Vec<Vec<Candidate>>,
    fair_share: bool,
    max_candidates: usize,
) -> (r: (Vec<Vec<Candidate>>, bool))
    ensures
        shows_first(candidate_sets@, fair_share, max_candidates as int, r.0@),
        sum_to(lens_of(r.0@), r.0@.len() as int) == least(
            max_candidates as int,
            sum_to(lens_of(candidate_sets@), candidate_sets@.len() as int),
        ),
        r.1 == exists|q: int|
            0 <= q < candidate_sets@.len() && (#[trigger] r.0@[q])@.len()
                < candidate_sets@[q]@.len(),
{
    let mut lens: Vec<usize> = Vec::new();
    let mut i: usize = 0;
    while i < candidate_sets.len()
        invariant
            i <= candidate_sets@.len(),
            lens@.len() == i,
            forall|k: int| 0 <= k < i ==> (#[trigger] lens@[k]) == candidate_sets@[k]@.len(),
        decreases candidate_sets@.len() - i,
    {
        lens.push(candidate_sets[i].len());
        i = i + 1;
    }
    let counts = shown_counts(&lens, fair_share, max_candidates);
    assert(ints_of(lens@) =~= lens_of(candidate_sets@));
    let mut selected: Vec<Vec<Candidate>> = Vec::new();
    let mut left_out = false;
    let mut q: usize = 0;
    while q < candidate_sets.len()
        invariant
            q <= candidate_sets@.len(),
            counts@.len() == candidate_sets@.len(),
            selected@.len() == q,
            forall|k: int|
                0 <= k < candidate_sets@.len() ==> (#[trigger] counts@[k])
                    <= candidate_sets@[k]@.len(),
            forall|k: int|
                0 <= k < q ==> (#[trigger] selected@[k])@.len() == counts@[k] && candidates_view(
                    selected@[k]@,
                ) == candidates_view(candidate_sets@[k]@).take(counts@[k] as int),
            left_out == exists|k: int|
                0 <= k < q && (#[trigger] selected@[k])@.len() < candidate_sets@[k]@.len(),
        decreases candidate_sets@.len() - q,
    {
        let n: usize = counts[q];
        let part = copy_candidates(&candidate_sets[q], n);
        assert(candidates_view(part@).len() == part@.len());
        let short = n < candidate_sets[q].len();
        let ghost held = selected@;
        selected.push(part);
        proof {
            assert forall|k: int| 0 <= k < q implies selected@[k] == held[k] by {}
            if short {
                assert(selected@[q as int]@.len() < candidate_sets@[q as int]@.len());
            }
            if left_out {
                let k = choose|k: int|
                    0 <= k < q && (#[trigger] held[k])@.len() < candidate_sets@[k]@.len();
                assert(selected@[k]@.len() < candidate_sets@[k]@.len());
            }
        }
        left_out = left_out || short;
        q = q + 1;
    }
    proof {
        assert forall|p: int, rank: int| 0 <= p < candidate_sets@.len() implies (rank < (
        #[trigger] selected@[p])@.len() && 0 <= rank <==> #[trigger] is_shown(
            lens_of(candidate_sets@),
            fair_share,
            max_candidates as int,
            p,
            rank,
        )) by {
            assert(selected@[p]@.len() == counts@[p]);
        }
        assert(lens_of(selected@) =~= ints_of(counts@));
    }
    (selected, left_out)
}

/// In fair shares, no query is shown a further candidate while another still lacks
/// one of a better rank.
pub proof fn lemma_fair_share(lens: Seq<int>, max: int, q: int, rank: int, other: int, better: int)
    requires
        is_shown(lens, true, max, q, rank),
        0 <= other < lens.len(),
        0 <= better < rank,
        better < lens[other],
    ensures
        is_shown(lens, true, max, other, better),
{
    lemma_standing_monotone(lens, better, other, rank, q, lens.len() as int);
}

// ---------------------------------------------------------------------------
// How much of a candidate is shown
// ---------------------------------------------------------------------------

/// What is left of a budget, and whether anything had to be cut, when something is
/// cut to it.
#[verifier::ext_equal]
pub struct Cut<T> {
    pub value: T,
    pub remaining: int,
    pub truncated: bool,
}

/// Sections cut to a budget, one after another.
pub open spec fn cut_sections(s: Seq<SectionV>, remaining: int) -> Cut<Seq<SectionV>>
    decreases s.len(),
{
    if s.len() == 0 {
        Cut { value: s, remaining, truncated: false }
    } else {
        let front = cut_sections(s.drop_last(), remaining);
        let excerpt = truncated(s.last().excerpt, least(front.remaining, MAX_EXCERPT_CHARS as int));
        Cut {
            value: front.value.push(SectionV { excerpt, ..s.last() }),
            remaining: front.remaining - excerpt.len(),
            truncated: front.truncated || excerpt.len() < s.last().excerpt.len(),
        }
    }
}

pub open spec fn with_text(s: Seq<SectionV>) -> Seq<SectionV> {
    s.filter(|x: SectionV| x.excerpt.len() > 0)
}

/// What is left of a budget for the text of a candidate, once the note that it is
/// superseded is paid for.
pub open spec fn behind_note(note: Option<AnnotationV>, remaining: int) -> int {
    match note {
        Some(a) => left_of(remaining, a.chars() as int),
        None => remaining,
    }
}

/// The sections with the excerpt that the candidate is shown with in the first one.
pub open spec fn with_primary(s: Seq<SectionV>, excerpt: Seq<char>) -> Seq<SectionV> {
    if s.len() == 0 {
        s
    } else {
        s.update(0, SectionV { excerpt, ..s[0] })
    }
}

/// A candidate cut to a budget: its excerpt first, then its further sections; those
/// left without text are dropped.
pub open spec fn cut_candidate(c: CandidateV, remaining: int) -> Cut<CandidateV> {
    let start = behind_note(c.superseded_by, remaining);
    let excerpt = truncated(c.excerpt, least(start, MAX_EXCERPT_CHARS as int));
    let short = excerpt.len() < c.excerpt.len();
    if c.sections.len() == 0 {
        Cut {
            value: CandidateV { excerpt, ..c },
            remaining: start - excerpt.len(),
            truncated: short,
        }
    } else {
        let rest = cut_sections(c.sections.skip(1), start - excerpt.len());
        Cut {
            value: CandidateV {
                excerpt,
                sections: seq![SectionV { excerpt, ..c.sections[0] }] + with_text(rest.value),
                ..c
            },
            remaining: rest.remaining,
            truncated: short || rest.truncated,
        }
    }
}

/// The number of characters of the excerpts of some sections.
pub open spec fn section_chars(s: Seq<SectionV>) -> int
    decreases s.len(),
{
    if s.len() == 0 {
        0
    } else {
        section_chars(s.drop_last()) + s.last().excerpt.len()
    }
}

/// The number of characters that a candidate is shown with.
pub open spec fn candidate_chars(c: CandidateV) -> int {
    c.excerpt.len() + if c.sections.len() == 0 {
        0
    } else {
        section_chars(c.sections.skip(1))
    }
}

proof fn lemma_cut_sections(s: Seq<SectionV>, remaining: int)
    requires
        remaining >= 0,
    ensures
        cut_sections(s, remaining).value.len() == s.len(),
        section_chars(cut_sections(s, remaining).value) == remaining - cut_sections(
            s,
            remaining,
        ).remaining,
        0 <= cut_sections(s, remaining).remaining <= remaining,
        section_chars(with_text(cut_sections(s, remaining).value)) == section_chars(
            cut_sections(s, remaining).value,
        ),
    decreases s.len(),
{
    let p = |x: SectionV| x.excerpt.len() > 0;
    if s.len() == 0 {
        crate::seqs::lemma_filter_empty(s, p);
    } else {
        lemma_cut_sections(s.drop_last(), remaining);
        let front = cut_sections(s.drop_last(), remaining);
        let excerpt = truncated(s.last().excerpt, least(front.remaining, MAX_EXCERPT_CHARS as int));
        let x = SectionV { excerpt, ..s.last() };
        assert(front.value.push(x).drop_last() =~= front.value);
        crate::seqs::lemma_filter_push(front.value, p, x);
        if excerpt.len() > 0 {
            assert(with_text(front.value).push(x).drop_last() =~= with_text(front.value));
        }
    }
}

/// A cut candidate is shown with exactly as many characters as the cut has spent on
/// its text, and never with more than the budget.
pub proof fn lemma_cut_candidate_within_budget(c: CandidateV, remaining: int)
    requires
        remaining >= 0,
    ensures
        0 <= cut_candidate(c, remaining).remaining <= remaining,
        candidate_chars(cut_candidate(c, remaining).value) == behind_note(
            c.superseded_by,
            remaining,
        ) - cut_candidate(c, remaining).remaining,
        candidate_chars(cut_candidate(c, remaining).value) <= remaining - cut_candidate(
            c,
            remaining,
        ).remaining,
{
    let start = behind_note(c.superseded_by, remaining);
    let excerpt = truncated(c.excerpt, least(start, MAX_EXCERPT_CHARS as int));
    if c.sections.len() > 0 {
        lemma_cut_sections(c.sections.skip(1), start - excerpt.len());
        let rest = with_text(cut_sections(c.sections.skip(1), start - excerpt.len()).value);
        let all = seq![SectionV { excerpt, ..c.sections[0] }] + rest;
        assert(all.skip(1) =~= rest);
    }
}

/// The characters a number of sections have, as far as a `usize` can count them.
fn count_section_chars(sections: &Vec<CandidateSection>) -> (r: usize)
    ensures
        sections@.len() == 0 ==> r == 0,
        sections@.len() > 0 ==> r == fit(section_chars(sections_view(sections@).skip(1))),
{
    let mut sum: usize = 0;
    let mut i: usize = 1;
    let ghost all = sections_view(sections@);
    proof {
        if all.len() > 0 {
            assert(all.skip(1).take(0) =~= Seq::<SectionV>::empty());
        }
    }
    while i < sections.len()
        invariant
            all == sections_view(sections@),
            1 <= i,
            sections@.len() > 0 ==> i <= sections@.len(),
            sections@.len() == 0 ==> sum == 0,
            sections@.len() > 0 ==> sum == fit(section_chars(all.skip(1).take(i - 1))),
        decreases sections@.len() - i,
    {
        let ghost tail = all.skip(1);
        proof {
            assert(tail.take(i as int).drop_last() =~= tail.take(i - 1));
            assert(tail.take(i as int).last() == sections@[i as int]@);
            lemma_section_chars_natural(tail.take(i - 1));
        }
        sum = sum.saturating_add(sections[i].excerpt.as_str().unicode_len());
        i = i + 1;
    }
    proof {
        if all.len() > 0 {
            assert(all.skip(1).take(i - 1) =~= all.skip(1));
        }
    }
    sum
}

proof fn lemma_section_chars_natural(s: Seq<SectionV>)
    ensures
        section_chars(s) >= 0,
    decreases s.len(),
{
    if s.len() > 0 {
        lemma_section_chars_natural(s.drop_last());
    }
}

/// What is left of a budget after something is spent.
pub fn spend(budget: usize, spent: usize) -> (r: usize)
    ensures
        r == left_of(budget as int, spent as int),
{
    if spent > budget {
        0
    } else {
        budget - spent
    }
}

fn at_most(a: usize, b: usize) -> (r: usize)
    ensures
        r == least(a as int, b as int),
{
    if a <= b {
        a
    } else {
        b
    }
}

fn pay_for_note(note: &Option<SupersessionAnnotation>, remaining: usize) -> (r: usize)
    ensures
        r == behind_note(crate::candidate::annotation_view(*note), remaining as int),
{
    match note {
        Some(a) => spend(remaining, a.chars()),
        None => remaining,
    }
}

/// Cuts a candidate to a budget, which is reduced by what is spent; tells whether
/// anything was cut.
pub fn truncate_candidate_evidence(
    candidate: &mut Candidate,
    remaining_chars: &mut usize,
) -> (r: bool)
    ensures
        final(candidate)@ == cut_candidate(old(candidate)@, *old(remaining_chars) as int).value,
        *final(remaining_chars) == cut_candidate(
            old(candidate)@,
            *old(remaining_chars) as int,
        ).remaining,
        r == cut_candidate(old(candidate)@, *old(remaining_chars) as int).truncated,
{
    let ghost c = candidate@;
    let ghost total = *remaining_chars as int;
    let start = pay_for_note(&candidate.superseded_by, *remaining_chars);
    let original: usize = candidate.excerpt.as_str().unicode_len();
    let excerpt = truncate_chars(candidate.excerpt.as_str(), at_most(start, MAX_EXCERPT_CHARS));
    let kept: usize = excerpt.as_str().unicode_len();
    let mut left: usize = start - kept;
    let mut short = kept < original;
    let mut sections: Vec<CandidateSection> = Vec::new();
    std::mem::swap(&mut candidate.sections, &mut sections);
    let ghost given = sections_view(sections@);
    let mut out: Vec<CandidateSection> = Vec::new();
    let ghost f = |s: CandidateSection| s@;
    if sections.len() > 0 {
        let first = CandidateSection {
            heading: sections[0].heading.clone(),
            excerpt: excerpt.clone(),
            score: sections[0].score,
        };
        out.push(first);
        let ghost head = SectionV { excerpt: excerpt@, ..c.sections[0] };
        let ghost tail = c.sections.skip(1);
        let ghost first_left = left as int;
        let ghost p = |x: SectionV| x.excerpt.len() > 0;
        proof {
            assert(given[0] == sections@[0]@);
            assert(sections_view(out@) =~= seq![head]);
            assert(tail.take(0) =~= Seq::<SectionV>::empty());
            crate::seqs::lemma_filter_empty(tail.take(0), p);
            assert(sections_view(out@) =~= seq![head] + with_text(
                cut_sections(tail.take(0), first_left).value,
            ));
            lemma_cut_sections(tail.take(0), first_left);
        }
        let mut i: usize = 1;
        let ghost first_short = short;
        while i < sections.len()
            invariant
                1 <= i <= sections@.len(),
                given == sections_view(sections@),
                given == c.sections,
                tail == c.sections.skip(1),
                f == (|s: CandidateSection| s@),
                p == (|x: SectionV| x.excerpt.len() > 0),
                0 <= first_left,
                left == cut_sections(tail.take(i - 1), first_left).remaining,
                short == (first_short || cut_sections(tail.take(i - 1), first_left).truncated),
                sections_view(out@) == seq![head] + with_text(
                    cut_sections(tail.take(i - 1), first_left).value,
                ),
            decreases sections@.len() - i,
        {
            let ghost front = cut_sections(tail.take(i - 1), first_left);
            proof {
                assert(tail.take(i as int).drop_last() =~= tail.take(i - 1));
                assert(tail.take(i as int).last() == sections@[i as int]@);
            }
            let size: usize = sections[i].excerpt.as_str().unicode_len();
            let text = truncate_chars(
                sections[i].excerpt.as_str(),
                at_most(left, MAX_EXCERPT_CHARS),
            );
            let n: usize = text.as_str().unicode_len();
            left = left - n;
            if n < size {
                short = true;
            }
            let ghost held = out@;
            let section = CandidateSection {
                heading: sections[i].heading.clone(),
                excerpt: text,
                score: sections[i].score,
            };
            proof {
                crate::seqs::lemma_filter_push(front.value, p, section@);
                assert(cut_sections(tail.take(i as int), first_left).value == front.value.push(
                    section@,
                ));
            }
            if n > 0 {
                out.push(section);
                proof {
                    lemma_map_push(held, f, section);
                    assert(sections_view(out@) =~= seq![head] + with_text(
                        cut_sections(tail.take(i as int), first_left).value,
                    ));
                }
            }
            i = i + 1;
        }
        assert(tail.take(i - 1) =~= tail);
    }
    candidate.excerpt = excerpt;
    candidate.sections = out;
    *remaining_chars = left;
    proof {
        if c.sections.len() == 0 {
            assert(sections_view(out@) =~= c.sections);
        }
        assert(candidate@ =~= cut_candidate(c, total).value);
    }
    short
}

// ---------------------------------------------------------------------------
// How a candidate is shown
// ---------------------------------------------------------------------------

/// In what form a candidate is shown.
#[derive(Clone, Copy, Debug, PartialEq, Eq, Structural)]
pub enum SearchRepresentation {
    CompleteSource,
    Excerpt,
    PointerLead,
}

/// A candidate and the form it is shown in.
#[derive(Debug)]
pub struct SearchCandidateView {
    pub candidate: Candidate,
    pub representation: SearchRepresentation,
    pub complete_text: Option<String>,
    pub demote_additional_sections: bool,
}

/// The source of an entry as it was loaded.
#[derive(Debug)]
pub struct SearchHydration {
    pub entry_id: u128,
    pub size_bytes: usize,
    pub content: String,
}

#[verifier::ext_equal]
pub struct ShownV {
    pub candidate: CandidateV,
    pub representation: SearchRepresentation,
    pub complete_text: Option<Seq<char>>,
    pub demote_additional_sections: bool,
}

#[verifier::ext_equal]
pub struct HydrationV {
    pub entry_id: u128,
    pub size_bytes: int,
    pub content: Seq<char>,
}

impl View for SearchCandidateView {
    type V = ShownV;

    open spec fn view(&self) -> ShownV {
        ShownV {
            candidate: self.candidate@,
            representation: self.representation,
            complete_text: crate::candidate::option_view(self.complete_text),
            demote_additional_sections: self.demote_additional_sections,
        }
    }
}

impl View for SearchHydration {
    type V = HydrationV;

    open spec fn view(&self) -> HydrationV {
        HydrationV {
            entry_id: self.entry_id,
            size_bytes: self.size_bytes as int,
            content: self.content@,
        }
    }
}

pub open spec fn shown_view(v: Seq<SearchCandidateView>) -> Seq<ShownV> {
    v.map_values(|s: SearchCandidateView| s@)
}

pub open spec fn all_shown_view(v: Seq<Vec<SearchCandidateView>>) -> Seq<Seq<ShownV>> {
    Seq::new(v.len(), |i: int| shown_view(v[i]@))
}

pub open spec fn hydrations_view(v: Seq<SearchHydration>) -> Seq<HydrationV> {
    v.map_values(|h: SearchHydration| h@)
}

/// How many characters a candidate would be shown with as an excerpt; none where it
/// is shown in another form.
pub open spec fn desired_chars(v: ShownV) -> int {
    if v.representation != SearchRepresentation::Excerpt {
        0
    } else if v.demote_additional_sections {
        v.candidate.excerpt.len() as int
    } else {
        fit(candidate_chars(v.candidate))
    }
}

pub fn desired_search_evidence_chars(view: &SearchCandidateView) -> (r: usize)
    ensures
        r == desired_chars(view@),
{
    match view.representation {
        SearchRepresentation::Excerpt => {},
        _ => {
            return 0;
        },
    }
    let primary: usize = view.candidate.excerpt.as_str().unicode_len();
    if view.demote_additional_sections {
        primary
    } else {
        let rest = count_section_chars(&view.candidate.sections);
        proof {
            if view.candidate.sections@.len() > 0 {
                lemma_section_chars_natural(view@.candidate.sections.skip(1));
            }
        }
        primary.saturating_add(rest)
    }
}

pub open spec fn later_text(s: Seq<SectionV>) -> bool {
    exists|i: int| 1 <= i < s.len() && (#[trigger] s[i]).excerpt.len() > 0
}

/// A candidate cut to a budget. Where its further sections are demoted, only its
/// excerpt counts. One that is left without an excerpt becomes a lead.
pub open spec fn budgeted(v: ShownV, available: int) -> Cut<ShownV> {
    if v.representation != SearchRepresentation::Excerpt {
        Cut { value: v, remaining: available, truncated: false }
    } else {
        let start = least(available, desired_chars(v));
        let cut = if v.demote_additional_sections {
            let excerpt = truncated(v.candidate.excerpt, least(start, MAX_EXCERPT_CHARS as int));
            Cut {
                value: CandidateV {
                    excerpt,
                    sections: with_primary(v.candidate.sections, excerpt),
                    ..v.candidate
                },
                remaining: start - excerpt.len(),
                truncated: excerpt.len() < v.candidate.excerpt.len() || later_text(
                    v.candidate.sections,
                ),
            }
        } else {
            cut_candidate(v.candidate, start)
        };
        Cut {
            value: ShownV {
                candidate: cut.value,
                representation: if cut.value.excerpt.len() == 0 {
                    SearchRepresentation::PointerLead
                } else {
                    SearchRepresentation::Excerpt
                },
                ..v
            },
            remaining: available - (start - cut.remaining),
            truncated: cut.truncated,
        }
    }
}

fn any_later_text(sections: &Vec<CandidateSection>) -> (r: bool)
    ensures
        r == later_text(sections_view(sections@)),
{
    let mut i: usize = 1;
    while i < sections.len()
        invariant
            1 <= i,
            forall|k: int|
                1 <= k < i && k < sections@.len() ==> (#[trigger] sections_view(
                    sections@,
                )[k]).excerpt.len() == 0,
        decreases sections@.len() - i,
    {
        assert(sections_view(sections@)[i as int] == sections@[i as int]@);
        if sections[i].excerpt.as_str().unicode_len() > 0 {
            return true;
        }
        i = i + 1;
    }
    false
}

/// Cuts a shown candidate to a budget; gives the characters that were spent, and
/// whether anything was cut.
pub fn apply_search_view_budget(
    view: &mut SearchCandidateView,
    available_chars: usize,
) -> (r: (usize, bool))
    ensures
        final(view)@ == budgeted(old(view)@, available_chars as int).value,
        r.0 == available_chars - budgeted(old(view)@, available_chars as int).remaining,
        r.1 == budgeted(old(view)@, available_chars as int).truncated,
        r.0 <= available_chars,
{
    let ghost v = view@;
    match view.representation {
        SearchRepresentation::Excerpt => {},
        _ => {
            return (0, false);
        },
    }
    let original = desired_search_evidence_chars(view);
    let start = at_most(available_chars, original);
    let mut remaining: usize = start;
    let mut short = false;
    if view.demote_additional_sections {
        let size: usize = view.candidate.excerpt.as_str().unicode_len();
        let excerpt = truncate_chars(
            view.candidate.excerpt.as_str(),
            at_most(start, MAX_EXCERPT_CHARS),
        );
        let kept: usize = excerpt.as_str().unicode_len();
        remaining = start - kept;
        short = kept < size || any_later_text(&view.candidate.sections);
        let mut sections: Vec<CandidateSection> = Vec::new();
        std::mem::swap(&mut view.candidate.sections, &mut sections);
        if sections.len() > 0 {
            let ghost given = sections@;
            let first = CandidateSection {
                heading: sections[0].heading.clone(),
                excerpt: excerpt.clone(),
                score: sections[0].score,
            };
            sections.set(0, first);
            assert(sections_view(sections@) =~= with_primary(sections_view(given), excerpt@));
        }
        view.candidate.sections = sections;
        view.candidate.excerpt = excerpt;
        assert(view.candidate@ =~= CandidateV {
            excerpt: excerpt@,
            sections: with_primary(v.candidate.sections, excerpt@),
            ..v.candidate
        });
    } else {
        proof {
            lemma_cut_candidate_within_budget(v.candidate, start as int);
        }
        short = truncate_candidate_evidence(&mut view.candidate, &mut remaining);
    }
    if view.candidate.excerpt.as_str().unicode_len() == 0 {
        view.representation = SearchRepresentation::PointerLead;
    }
    assert(view@ =~= budgeted(v, available_chars as int).value);
    (start - remaining, short)
}

// ---------------------------------------------------------------------------
// Fair shares
// ---------------------------------------------------------------------------

pub open spec fn sum_of(s: Seq<int>) -> int {
    sum_to(s, s.len() as int)
}

/// What a query is granted in one round.
pub open spec fn grant(unmet: int, remaining: int) -> int {
    least(least(unmet, MAX_EXCERPT_CHARS as int), remaining)
}

/// One round: every query in turn, from the `i`th on, is granted a further part of
/// what it lacks. The quotas after it, and what remains.
pub open spec fn granted(
    desired: Seq<int>,
    quotas: Seq<int>,
    remaining: int,
    i: int,
) -> (Seq<int>, int)
    decreases desired.len() - i,
{
    if i < 0 || i >= desired.len() {
        (quotas, remaining)
    } else {
        let g = grant(desired[i] - quotas[i], remaining);
        granted(desired, quotas.update(i, quotas[i] + g), remaining - g, i + 1)
    }
}

/// Rounds until nothing remains or nothing is lacking.
pub open spec fn settled(desired: Seq<int>, quotas: Seq<int>, remaining: int) -> Seq<int>
    decreases remaining,
{
    let next = granted(desired, quotas, remaining, 0);
    if remaining <= 0 || next.1 >= remaining || next.1 < 0 {
        quotas
    } else {
        settled(desired, next.0, next.1)
    }
}

/// The quotas of the queries: each what it desires up to an equal share, and then
/// what is left over dealt out in rounds.
pub open spec fn fair_quotas(desired: Seq<int>, max: int) -> Seq<int> {
    if desired.len() == 0 {
        Seq::empty()
    } else {
        let floor = max / desired.len() as int;
        let quotas = Seq::new(desired.len(), |i: int| least(desired[i], floor));
        settled(desired, quotas, max - sum_of(quotas))
    }
}

proof fn lemma_sum_update(s: Seq<int>, i: int, x: int, n: int)
    requires
        0 <= i < s.len(),
        0 <= n <= s.len(),
    ensures
        sum_to(s.update(i, x), n) == sum_to(s, n) + if i < n {
            x - s[i]
        } else {
            0
        },
    decreases n,
{
    if n > 0 {
        lemma_sum_update(s, i, x, n - 1);
    }
}

proof fn lemma_granted(desired: Seq<int>, quotas: Seq<int>, remaining: int, i: int)
    requires
        0 <= i <= desired.len(),
        quotas.len() == desired.len(),
        remaining >= 0,
        forall|k: int| 0 <= k < desired.len() ==> #[trigger] quotas[k] <= desired[k],
    ensures
        ({
            let next = granted(desired, quotas, remaining, i);
            &&& next.0.len() == desired.len()
            &&& 0 <= next.1 <= remaining
            &&& sum_of(next.0) + next.1 == sum_of(quotas) + remaining
            &&& forall|k: int|
                0 <= k < desired.len() ==> quotas[k] <= #[trigger] next.0[k] <= desired[k]
            &&& next.1 == remaining ==> next.0 == quotas
            &&& next.1 == remaining && remaining > 0 ==> forall|k: int|
                i <= k < desired.len() ==> #[trigger] quotas[k] == desired[k]
        }),
    decreases desired.len() - i,
{
    if i < desired.len() {
        let g = grant(desired[i] - quotas[i], remaining);
        let q = quotas.update(i, quotas[i] + g);
        lemma_sum_update(quotas, i, quotas[i] + g, desired.len() as int);
        assert forall|k: int| 0 <= k < desired.len() implies #[trigger] q[k] <= desired[k] by {
            assert(quotas[k] <= desired[k]);
        }
        lemma_granted(desired, q, remaining - g, i + 1);
        let next = granted(desired, quotas, remaining, i);
        assert forall|k: int| 0 <= k < desired.len() implies quotas[k] <= #[trigger] next.0[k]
            <= desired[k] by {
            assert(q[k] <= next.0[k] <= desired[k]);
        }
        if next.1 == remaining {
            assert(g == 0);
            assert(q =~= quotas);
        }
    }
}

proof fn lemma_sum_equal(a: Seq<int>, b: Seq<int>, n: int)
    requires
        a.len() == b.len(),
        0 <= n <= a.len(),
        forall|k: int| 0 <= k < n ==> #[trigger] a[k] == b[k],
    ensures
        sum_to(a, n) == sum_to(b, n),
    decreases n,
{
    if n > 0 {
        lemma_sum_equal(a, b, n - 1);
        assert(a[n - 1] == b[n - 1]);
    }
}

proof fn lemma_sum_bounded(a: Seq<int>, b: Seq<int>, n: int)
    requires
        a.len() == b.len(),
        0 <= n <= a.len(),
        forall|k: int| 0 <= k < n ==> #[trigger] a[k] <= b[k],
    ensures
        sum_to(a, n) <= sum_to(b, n),
    decreases n,
{
    if n > 0 {
        lemma_sum_bounded(a, b, n - 1);
        assert(a[n - 1] <= b[n - 1]);
    }
}

proof fn lemma_settled(desired: Seq<int>, quotas: Seq<int>, remaining: int)
    requires
        quotas.len() == desired.len(),
        remaining >= 0,
        forall|k: int| 0 <= k < desired.len() ==> #[trigger] quotas[k] <= desired[k],
    ensures
        settled(desired, quotas, remaining).len() == desired.len(),
        forall|k: int|
            0 <= k < desired.len() ==> quotas[k] <= #[trigger] settled(
                desired,
                quotas,
                remaining,
            )[k] <= desired[k],
        sum_of(settled(desired, quotas, remaining)) == least(
            sum_of(quotas) + remaining,
            sum_of(desired),
        ),
    decreases remaining,
{
    lemma_granted(desired, quotas, remaining, 0);
    let next = granted(desired, quotas, remaining, 0);
    if remaining <= 0 || next.1 >= remaining || next.1 < 0 {
        if remaining > 0 {
            assert forall|k: int| 0 <= k < desired.len() implies #[trigger] quotas[k]
                == desired[k] by {}
            lemma_sum_equal(quotas, desired, desired.len() as int);
        } else {
            lemma_sum_bounded(quotas, desired, desired.len() as int);
        }
    } else {
        assert forall|k: int| 0 <= k < desired.len() implies #[trigger] next.0[k]
            <= desired[k] by {}
        lemma_settled(desired, next.0, next.1);
        let out = settled(desired, quotas, remaining);
        assert forall|k: int| 0 <= k < desired.len() implies quotas[k] <= #[trigger] out[k]
            <= desired[k] by {
            assert(quotas[k] <= next.0[k]);
        }
    }
}

proof fn lemma_floor(desired: Seq<int>, floor: int, n: int)
    requires
        0 <= n <= desired.len(),
        floor >= 0,
        forall|k: int| 0 <= k < desired.len() ==> 0 <= #[trigger] desired[k],
    ensures
        0 <= sum_to(Seq::new(desired.len(), |i: int| least(desired[i], floor)), n) <= n * floor,
    decreases n,
{
    if n > 0 {
        lemma_floor(desired, floor, n - 1);
        assert(n * floor == (n - 1) * floor + floor) by (nonlinear_arith);
    } else {
        assert(n * floor == 0) by (nonlinear_arith)
            requires
                n == 0,
        ;
    }
}

proof fn lemma_floor_total(max: int, n: int)
    requires
        max >= 0,
        n > 0,
    ensures
        0 <= n * (max / n) <= max,
        0 <= max / n,
{
    assert(0 <= n * (max / n) <= max && 0 <= max / n) by (nonlinear_arith)
        requires
            max >= 0,
            n > 0,
    ;
}

/// No query is granted more than it desires, none less than it desires up to an
/// equal share, and together they are granted all that they desire or all there is.
pub proof fn lemma_fair_quotas(desired: Seq<int>, max: int)
    requires
        max >= 0,
        forall|k: int| 0 <= k < desired.len() ==> 0 <= #[trigger] desired[k],
    ensures
        fair_quotas(desired, max).len() == desired.len(),
        forall|k: int|
            0 <= k < desired.len() ==> least(desired[k], max / desired.len() as int) <= (
            #[trigger] fair_quotas(desired, max)[k]) <= desired[k],
        sum_of(fair_quotas(desired, max)) == least(max, sum_of(desired)),
{
    if desired.len() > 0 {
        let n = desired.len() as int;
        let floor = max / n;
        let quotas = Seq::new(desired.len(), |i: int| least(desired[i], floor));
        lemma_floor_total(max, n);
        lemma_floor(desired, floor, n);
        assert forall|k: int| 0 <= k < desired.len() implies #[trigger] quotas[k]
            <= desired[k] by {}
        lemma_settled(desired, quotas, max - sum_of(quotas));
        assert forall|k: int| 0 <= k < desired.len() implies least(
            desired[k],
            max / desired.len() as int,
        ) <= (#[trigger] fair_quotas(desired, max)[k]) <= desired[k] by {
            assert(quotas[k] <= settled(desired, quotas, max - sum_of(quotas))[k]);
        }
    }
}

/// The characters that the candidates of a query desire, as far as a `usize` can
/// count them.
pub open spec fn desired_sum(v: Seq<ShownV>) -> int
    decreases v.len(),
{
    if v.len() == 0 {
        0
    } else {
        fit(desired_sum(v.drop_last()) + desired_chars(v.last()))
    }
}

pub open spec fn desired_sums(v: Seq<Seq<ShownV>>) -> Seq<int> {
    Seq::new(v.len(), |i: int| desired_sum(v[i]))
}

proof fn lemma_desired_sum(v: Seq<ShownV>)
    ensures
        0 <= desired_sum(v) <= usize::MAX,
    decreases v.len(),
{
    if v.len() > 0 {
        lemma_desired_sum(v.drop_last());
        let c = v.last().candidate;
        if c.sections.len() > 0 {
            lemma_section_chars_natural(c.sections.skip(1));
        }
    }
}

fn sum_desired(views: &Vec<SearchCandidateView>) -> (r: usize)
    ensures
        r == desired_sum(shown_view(views@)),
{
    let ghost all = shown_view(views@);
    let mut sum: usize = 0;
    let mut i: usize = 0;
    assert(all.take(0) =~= Seq::<ShownV>::empty());
    while i < views.len()
        invariant
            i <= views@.len(),
            all == shown_view(views@),
            sum == desired_sum(all.take(i as int)),
        decreases views@.len() - i,
    {
        proof {
            assert(all.take(i + 1).drop_last() =~= all.take(i as int));
            assert(all.take(i + 1).last() == views@[i as int]@);
        }
        sum = sum.saturating_add(desired_search_evidence_chars(&views[i]));
        i = i + 1;
    }
    assert(all.take(i as int) =~= all);
    sum
}

/// The quotas of the queries.
pub fn fair_search_char_quotas(views: &Vec<Vec<SearchCandidateView>>, max_chars: usize) -> (r: Vec<
    usize,
>)
    ensures
        ints_of(r@) == fair_quotas(desired_sums(all_shown_view(views@)), max_chars as int),
{
    let ghost d = desired_sums(all_shown_view(views@));
    let mut quotas: Vec<usize> = Vec::new();
    if views.len() == 0 {
        assert(ints_of(quotas@) =~= fair_quotas(d, max_chars as int));
        return quotas;
    }
    let floor: usize = max_chars / views.len();
    let ghost n = views@.len() as int;
    let mut desired: Vec<usize> = Vec::new();
    let mut remaining: usize = max_chars;
    let ghost first = Seq::new(d.len(), |i: int| least(d[i], floor as int));
    proof {
        assert forall|k: int| 0 <= k < d.len() implies 0 <= #[trigger] d[k] by {
            lemma_desired_sum(all_shown_view(views@)[k]);
        }
        lemma_floor_total(max_chars as int, n);
    }
    let mut i: usize = 0;
    while i < views.len()
        invariant
            i <= views@.len(),
            n == views@.len(),
            n == d.len(),
            d == desired_sums(all_shown_view(views@)),
            desired@.len() == i,
            quotas@.len() == i,
            floor >= 0,
            0 <= n * floor <= max_chars,
            first == Seq::new(d.len(), |i: int| least(d[i], floor as int)),
            forall|k: int| 0 <= k < d.len() ==> 0 <= #[trigger] d[k],
            forall|k: int| 0 <= k < i ==> (#[trigger] desired@[k]) == d[k],
            forall|k: int| 0 <= k < i ==> (#[trigger] quotas@[k]) == first[k],
            remaining == max_chars - sum_to(first, i as int),
        decreases views@.len() - i,
    {
        let want = sum_desired(&views[i]);
        assert(d[i as int] == want);
        let quota = at_most(want, floor);
        proof {
            lemma_floor(d, floor as int, i + 1);
            assert((i + 1) * floor <= n * floor) by (nonlinear_arith)
                requires
                    i + 1 <= n,
                    floor >= 0,
            ;
        }
        desired.push(want);
        quotas.push(quota);
        remaining = remaining - quota;
        i = i + 1;
    }
    proof {
        assert(ints_of(quotas@) =~= first);
        assert(ints_of(desired@) =~= d);
    }
    while remaining > 0
        invariant
            d == desired_sums(all_shown_view(views@)),
            desired@.len() == n,
            quotas@.len() == n,
            ints_of(desired@) == d,
            forall|k: int| 0 <= k < n ==> #[trigger] quotas@[k] <= desired@[k],
            settled(d, ints_of(quotas@), remaining as int) == fair_quotas(d, max_chars as int),
        decreases remaining,
    {
        let ghost q0 = ints_of(quotas@);
        let ghost r0 = remaining as int;
        let held_back: usize = remaining;
        proof {
            assert forall|k: int| 0 <= k < d.len() implies #[trigger] q0[k] <= d[k] by {
                assert(quotas@[k] <= desired@[k]);
                assert(d[k] == desired@[k]);
            }
            lemma_granted(d, q0, r0, 0);
        }
        let mut q: usize = 0;
        while q < desired.len()
            invariant
                q <= desired@.len(),
                desired@.len() == n,
                quotas@.len() == n,
                ints_of(desired@) == d,
                remaining <= r0,
                forall|k: int| 0 <= k < n ==> #[trigger] quotas@[k] <= desired@[k],
                granted(d, ints_of(quotas@), remaining as int, q as int) == granted(d, q0, r0, 0),
            decreases desired@.len() - q,
        {
            let have: usize = quotas[q];
            let unmet: usize = desired[q] - have;
            let add = at_most(at_most(unmet, MAX_EXCERPT_CHARS), remaining);
            let ghost held = ints_of(quotas@);
            assert(d[q as int] == desired@[q as int]);
            assert(held[q as int] == have);
            quotas.set(q, have + add);
            assert(ints_of(quotas@) =~= held.update(q as int, have + add));
            remaining = remaining - add;
            q = q + 1;
        }
        if remaining == held_back {
            return quotas;
        }
    }
    quotas
}

// ---------------------------------------------------------------------------
// Assembly
// ---------------------------------------------------------------------------

/// The candidates of a query as excerpts; those from a rank on have their further
/// sections demoted.
pub open spec fn as_excerpts(v: Seq<CandidateV>, top_n: Option<usize>) -> Seq<ShownV> {
    Seq::new(
        v.len(),
        |rank: int|
            ShownV {
                candidate: v[rank],
                representation: SearchRepresentation::Excerpt,
                complete_text: None,
                demote_additional_sections: match top_n {
                    Some(n) => rank >= n,
                    None => false,
                },
            },
    )
}

/// The first loaded source of an entry, from the `i`th on.
pub open spec fn source_of(loaded: Seq<HydrationV>, id: u128, i: int) -> Option<HydrationV>
    decreases loaded.len() - i,
{
    if i < 0 || i >= loaded.len() {
        None
    } else if loaded[i].entry_id == id {
        Some(loaded[i])
    } else {
        source_of(loaded, id, i + 1)
    }
}

pub open spec fn fits_whole(h: HydrationV, remaining: int) -> bool {
    h.size_bytes <= MAX_OPEN_COMPLETE_SOURCE_CHARS && h.size_bytes <= remaining && h.content.len()
        <= remaining
}

/// The candidates of a query where the best is shown as its whole source, and the
/// others as leads to theirs.
pub open spec fn led_by_source(v: Seq<ShownV>, text: Seq<char>) -> Seq<ShownV> {
    Seq::new(
        v.len(),
        |i: int|
            if i == 0 {
                ShownV {
                    representation: SearchRepresentation::CompleteSource,
                    complete_text: Some(text),
                    ..v[0]
                }
            } else {
                ShownV { representation: SearchRepresentation::PointerLead, ..v[i] }
            },
    )
}

pub open spec fn later_desire(v: Seq<ShownV>) -> bool {
    exists|i: int| 1 <= i < v.len() && desired_chars(#[trigger] v[i]) > 0
}

/// The candidates of a query, the best one with its whole source where that was
/// loaded and fits.
pub open spec fn with_source(v: Seq<ShownV>, loaded: Seq<HydrationV>, remaining: int) -> Cut<
    Seq<ShownV>,
> {
    if v.len() == 0 {
        Cut { value: v, remaining, truncated: false }
    } else {
        match source_of(loaded, v[0].candidate.entry_id, 0) {
            None => Cut { value: v, remaining, truncated: false },
            Some(h) => if fits_whole(h, remaining) {
                Cut {
                    value: led_by_source(v, h.content),
                    remaining: remaining - h.content.len(),
                    truncated: later_desire(v),
                }
            } else {
                Cut { value: v, remaining, truncated: false }
            },
        }
    }
}

/// The candidates of several queries with their sources, one query after another.
pub open spec fn with_sources(v: Seq<Seq<ShownV>>, loaded: Seq<HydrationV>, remaining: int) -> Cut<
    Seq<Seq<ShownV>>,
>
    decreases v.len(),
{
    if v.len() == 0 {
        Cut { value: v, remaining, truncated: false }
    } else {
        let front = with_sources(v.drop_last(), loaded, remaining);
        let last = with_source(v.last(), loaded, front.remaining);
        Cut {
            value: front.value.push(last.value),
            remaining: last.remaining,
            truncated: front.truncated || last.truncated,
        }
    }
}

/// The candidates of a query cut to a budget, one after another.
pub open spec fn all_budgeted(v: Seq<ShownV>, available: int) -> Cut<Seq<ShownV>>
    decreases v.len(),
{
    if v.len() == 0 {
        Cut { value: v, remaining: available, truncated: false }
    } else {
        let front = all_budgeted(v.drop_last(), available);
        let last = budgeted(v.last(), front.remaining);
        Cut {
            value: front.value.push(last.value),
            remaining: last.remaining,
            truncated: front.truncated || last.truncated,
        }
    }
}

/// The candidates of several queries cut to one budget, one query after another.
pub open spec fn shared_budget(v: Seq<Seq<ShownV>>, available: int) -> Cut<Seq<Seq<ShownV>>>
    decreases v.len(),
{
    if v.len() == 0 {
        Cut { value: v, remaining: available, truncated: false }
    } else {
        let front = shared_budget(v.drop_last(), available);
        let last = all_budgeted(v.last(), front.remaining);
        Cut {
            value: front.value.push(last.value),
            remaining: last.remaining,
            truncated: front.truncated || last.truncated,
        }
    }
}

/// The candidates of several queries, each query cut to a quota of its own.
pub open spec fn own_budgets(v: Seq<Seq<ShownV>>, quotas: Seq<int>) -> Cut<Seq<Seq<ShownV>>>
    decreases v.len(),
{
    if v.len() == 0 {
        Cut { value: v, remaining: 0, truncated: false }
    } else {
        let front = own_budgets(v.drop_last(), quotas);
        let last = all_budgeted(v.last(), quotas[v.len() - 1]);
        Cut {
            value: front.value.push(last.value),
            remaining: front.remaining + last.remaining,
            truncated: front.truncated || last.truncated,
        }
    }
}

pub open spec fn sets_view(v: Seq<Vec<Candidate>>) -> Seq<Seq<CandidateV>> {
    Seq::new(v.len(), |i: int| candidates_view(v[i]@))
}

pub open spec fn excerpt_sets(v: Seq<Seq<CandidateV>>, top_n: Option<usize>) -> Seq<Seq<ShownV>> {
    Seq::new(v.len(), |i: int| as_excerpts(v[i], top_n))
}

/// What a response shows of the selected candidates: sources first where they are
/// asked for, then excerpts, in fair shares or in turn.
pub open spec fn assembled(
    sets: Seq<Seq<CandidateV>>,
    loaded: Seq<HydrationV>,
    options: SearchBudgetOptions,
) -> Cut<Seq<Seq<ShownV>>> {
    let excerpts = excerpt_sets(sets, options.section_demotion_top_n);
    let sourced = if options.top1_hydration {
        with_sources(excerpts, loaded, options.max_chars as int)
    } else {
        Cut { value: excerpts, remaining: options.max_chars as int, truncated: false }
    };
    let cut = if options.fair_share {
        own_budgets(
            sourced.value,
            fair_quotas(desired_sums(sourced.value), sourced.remaining),
        )
    } else {
        shared_budget(sourced.value, sourced.remaining)
    };
    Cut {
        value: cut.value,
        remaining: cut.remaining,
        truncated: sourced.truncated || cut.truncated,
    }
}

fn excerpt_views(candidates: &Vec<Candidate>, top_n: Option<usize>) -> (r: Vec<
    SearchCandidateView,
>)
    ensures
        shown_view(r@) == as_excerpts(candidates_view(candidates@), top_n),
{
    let mut out: Vec<SearchCandidateView> = Vec::new();
    let ghost goal = as_excerpts(candidates_view(candidates@), top_n);
    let ghost f = |s: SearchCandidateView| s@;
    let mut rank: usize = 0;
    while rank < candidates.len()
        invariant
            rank <= candidates@.len(),
            goal == as_excerpts(candidates_view(candidates@), top_n),
            f == (|s: SearchCandidateView| s@),
            shown_view(out@) == goal.take(rank as int),
        decreases candidates@.len() - rank,
    {
        let ghost held = out@;
        let view = SearchCandidateView {
            candidate: candidates[rank].copy(),
            representation: SearchRepresentation::Excerpt,
            complete_text: None,
            demote_additional_sections: match top_n {
                Some(n) => rank >= n,
                None => false,
            },
        };
        out.push(view);
        proof {
            lemma_map_push(held, f, view);
            assert(candidates_view(candidates@)[rank as int] == candidates@[rank as int]@);
            assert(view@ =~= goal[rank as int]);
            assert(goal.take(rank + 1) =~= goal.take(rank as int).push(view@));
        }
        rank = rank + 1;
    }
    assert(goal.take(rank as int) =~= goal);
    out
}

fn find_source(loaded: &Vec<SearchHydration>, id: u128) -> (r: Option<&SearchHydration>)
    ensures
        match r {
            Some(h) => source_of(hydrations_view(loaded@), id, 0) == Some(h@),
            None => source_of(hydrations_view(loaded@), id, 0) is None,
        },
{
    let mut i: usize = 0;
    while i < loaded.len()
        invariant
            i <= loaded@.len(),
            source_of(hydrations_view(loaded@), id, 0) == source_of(
                hydrations_view(loaded@),
                id,
                i as int,
            ),
        decreases loaded@.len() - i,
    {
        assert(hydrations_view(loaded@)[i as int] == loaded@[i as int]@);
        if loaded[i].entry_id == id {
            return Some(&loaded[i]);
        }
        i = i + 1;
    }
    None
}

/// Shows the best candidate of a query as its whole source where that fits.
fn put_source(
    views: Vec<SearchCandidateView>,
    loaded: &Vec<SearchHydration>,
    remaining: usize,
) -> (r: (Vec<SearchCandidateView>, usize, bool))
    ensures
        shown_view(r.0@) == with_source(
            shown_view(views@),
            hydrations_view(loaded@),
            remaining as int,
        ).value,
        r.1 == with_source(
            shown_view(views@),
            hydrations_view(loaded@),
            remaining as int,
        ).remaining,
        r.2 == with_source(
            shown_view(views@),
            hydrations_view(loaded@),
            remaining as int,
        ).truncated,
{
    let ghost v = shown_view(views@);
    if views.len() == 0 {
        return (views, remaining, false);
    }
    assert(v[0] == views@[0]@);
    match find_source(loaded, views[0].candidate.entry_id) {
        None => (views, remaining, false),
        Some(h) => {
            let chars: usize = h.content.as_str().unicode_len();
            if h.size_bytes > MAX_OPEN_COMPLETE_SOURCE_CHARS || h.size_bytes > remaining || chars
                > remaining {
                return (views, remaining, false);
            }
            let mut rest = views;
            let mut out: Vec<SearchCandidateView> = Vec::new();
            let mut short = false;
            let ghost all = rest@;
            let ghost goal = led_by_source(v, h.content@);
            let ghost f = |s: SearchCandidateView| s@;
            let total: usize = rest.len();
            let mut i: usize = 0;
            while rest.len() > 0
                invariant
                    f == (|s: SearchCandidateView| s@),
                    total == all.len(),
                    i + rest@.len() == all.len(),
                    rest@ == all.skip(i as int),
                    v == shown_view(all),
                    goal == led_by_source(v, h.content@),
                    shown_view(out@) == goal.take(i as int),
                    short == exists|k: int| 1 <= k < i && desired_chars(#[trigger] v[k]) > 0,
                decreases rest@.len(),
            {
                let ghost held = out@;
                let ghost was = short;
                let mut view = rest.remove(0);
                proof {
                    assert(view == all[i as int]);
                    assert(v[i as int] == all[i as int]@);
                    assert(rest@ =~= all.skip(i + 1));
                }
                if i == 0 {
                    view.representation = SearchRepresentation::CompleteSource;
                    view.complete_text = Some(h.content.clone());
                } else {
                    let desire = desired_search_evidence_chars(&view);
                    if desire > 0 {
                        short = true;
                        assert(desired_chars(v[i as int]) > 0);
                    }
                    view.representation = SearchRepresentation::PointerLead;
                }
                proof {
                    if was {
                        let k = choose|k: int| 1 <= k < i && desired_chars(#[trigger] v[k]) > 0;
                        assert(desired_chars(v[k]) > 0);
                    }
                }
                out.push(view);
                proof {
                    lemma_map_push(held, f, view);
                    assert(view@ =~= goal[i as int]);
                    assert(goal.take(i + 1) =~= goal.take(i as int).push(view@));
                }
                i = i + 1;
            }
            assert(goal.take(i as int) =~= goal);
            (out, remaining - chars, short)
        },
    }
}

/// Cuts the candidates of a query to a budget.
fn cut_query(views: Vec<SearchCandidateView>, available: usize) -> (r: (
    Vec<SearchCandidateView>,
    usize,
    bool,
))
    ensures
        shown_view(r.0@) == all_budgeted(shown_view(views@), available as int).value,
        r.1 == all_budgeted(shown_view(views@), available as int).remaining,
        r.2 == all_budgeted(shown_view(views@), available as int).truncated,
{
    let mut rest = views;
    let ghost all = rest@;
    let ghost v = shown_view(all);
    let ghost f = |s: SearchCandidateView| s@;
    let mut out: Vec<SearchCandidateView> = Vec::new();
    let mut left: usize = available;
    let mut short = false;
    let ghost mut i = 0int;
    proof {
        assert(v.take(0) =~= Seq::<ShownV>::empty());
        assert(shown_view(out@) =~= v.take(0));
    }
    while rest.len() > 0
        invariant
            f == (|s: SearchCandidateView| s@),
            0 <= i,
            i + rest@.len() == all.len(),
            rest@ == all.skip(i),
            v == shown_view(all),
            shown_view(out@) == all_budgeted(v.take(i), available as int).value,
            left == all_budgeted(v.take(i), available as int).remaining,
            short == all_budgeted(v.take(i), available as int).truncated,
        decreases rest@.len(),
    {
        let ghost held = out@;
        let mut view = rest.remove(0);
        proof {
            assert(view == all[i]);
            assert(rest@ =~= all.skip(i + 1));
            assert(v.take(i + 1).drop_last() =~= v.take(i));
            assert(v.take(i + 1).last() == view@);
        }
        let (used, cut) = apply_search_view_budget(&mut view, left);
        left = left - used;
        short = short || cut;
        out.push(view);
        proof {
            lemma_map_push(held, f, view);
            i = i + 1;
        }
    }
    assert(v.take(i) =~= v);
    (out, left, short)
}

/// Assembles what a response shows of the selected candidates; tells whether
/// anything was cut.
pub fn assemble_search_candidate_views(
    candidate_sets: &Vec<Vec<Candidate>>,
    hydration: &Vec<SearchHydration>,
    options: SearchBudgetOptions,
) -> (r: (Vec<Vec<SearchCandidateView>>, bool))
    ensures
        all_shown_view(r.0@) == assembled(
            sets_view(candidate_sets@),
            hydrations_view(hydration@),
            options,
        ).value,
        r.1 == assembled(
            sets_view(candidate_sets@),
            hydrations_view(hydration@),
            options,
        ).truncated,
{
    let ghost sets = sets_view(candidate_sets@);
    let ghost loaded = hydrations_view(hydration@);
    let ghost excerpts = excerpt_sets(sets, options.section_demotion_top_n);
    let mut views: Vec<Vec<SearchCandidateView>> = Vec::new();
    let mut remaining: usize = options.max_chars;
    let mut short = false;
    let mut i: usize = 0;
    proof {
        assert(excerpts.take(0) =~= Seq::<Seq<ShownV>>::empty());
        assert(all_shown_view(views@) =~= excerpts.take(0));
    }
    while i < candidate_sets.len()
        invariant
            i <= candidate_sets@.len(),
            sets == sets_view(candidate_sets@),
            loaded == hydrations_view(hydration@),
            excerpts == excerpt_sets(sets, options.section_demotion_top_n),
            options.top1_hydration ==> all_shown_view(views@) == with_sources(
                excerpts.take(i as int),
                loaded,
                options.max_chars as int,
            ).value && remaining == with_sources(
                excerpts.take(i as int),
                loaded,
                options.max_chars as int,
            ).remaining && short == with_sources(
                excerpts.take(i as int),
                loaded,
                options.max_chars as int,
            ).truncated,
            !options.top1_hydration ==> all_shown_view(views@) == excerpts.take(i as int)
                && remaining == options.max_chars && !short,
        decreases candidate_sets@.len() - i,
    {
        let ghost held = views@;
        let query = excerpt_views(&candidate_sets[i], options.section_demotion_top_n);
        proof {
            assert(sets[i as int] == candidates_view(candidate_sets@[i as int]@));
            assert(excerpts[i as int] == shown_view(query@));
            assert(excerpts.take(i + 1).drop_last() =~= excerpts.take(i as int));
            assert(excerpts.take(i + 1).last() == shown_view(query@));
            assert(excerpts.take(i + 1) =~= excerpts.take(i as int).push(shown_view(query@)));
        }
        if options.top1_hydration {
            let (led, left, cut) = put_source(query, hydration, remaining);
            remaining = left;
            short = short || cut;
            views.push(led);
            assert(all_shown_view(views@) =~= all_shown_view(held).push(shown_view(led@)));
        } else {
            views.push(query);
            assert(all_shown_view(views@) =~= all_shown_view(held).push(shown_view(query@)));
        }
        i = i + 1;
    }
    assert(excerpts.take(i as int) =~= excerpts);
    let ghost sourced = all_shown_view(views@);
    let ghost sourced_left = remaining as int;
    let ghost sourced_short = short;
    let mut out: Vec<Vec<SearchCandidateView>> = Vec::new();
    let quotas = if options.fair_share {
        fair_search_char_quotas(&views, remaining)
    } else {
        Vec::new()
    };
    let ghost shares = fair_quotas(desired_sums(sourced), sourced_left);
    proof {
        assert forall|k: int| 0 <= k < sourced.len() implies 0 <= #[trigger] desired_sums(
            sourced,
        )[k] by {
            lemma_desired_sum(sourced[k]);
        }
        lemma_fair_quotas(desired_sums(sourced), sourced_left);
        if options.fair_share {
            assert(ints_of(quotas@).len() == quotas@.len());
        }
    }
    let mut rest = views;
    let ghost all = rest@;
    let total: usize = rest.len();
    let mut q: usize = 0;
    proof {
        assert(sourced.take(0) =~= Seq::<Seq<ShownV>>::empty());
        assert(all_shown_view(out@) =~= sourced.take(0));
    }
    while rest.len() > 0
        invariant
            total == all.len(),
            q + rest@.len() == all.len(),
            rest@ == all.skip(q as int),
            sourced == all_shown_view(all),
            options.fair_share ==> ints_of(quotas@) == shares && quotas@.len() == all.len(),
            options.fair_share ==> all_shown_view(out@) == own_budgets(
                sourced.take(q as int),
                shares,
            ).value && short == (sourced_short || own_budgets(
                sourced.take(q as int),
                shares,
            ).truncated),
            !options.fair_share ==> all_shown_view(out@) == shared_budget(
                sourced.take(q as int),
                sourced_left,
            ).value && remaining == shared_budget(
                sourced.take(q as int),
                sourced_left,
            ).remaining && short == (sourced_short || shared_budget(
                sourced.take(q as int),
                sourced_left,
            ).truncated),
        decreases rest@.len(),
    {
        let ghost held = out@;
        let query = rest.remove(0);
        proof {
            assert(query == all[q as int]);
            assert(rest@ =~= all.skip(q + 1));
            assert(sourced[q as int] == shown_view(query@));
            assert(sourced.take(q + 1).drop_last() =~= sourced.take(q as int));
            assert(sourced.take(q + 1).last() == shown_view(query@));
        }
        let available: usize = if options.fair_share {
            assert(shares[q as int] == quotas@[q as int]);
            quotas[q]
        } else {
            remaining
        };
        let (cut, left, was_cut) = cut_query(query, available);
        if !options.fair_share {
            remaining = left;
        }
        short = short || was_cut;
        out.push(cut);
        proof {
            assert(all_shown_view(out@) =~= all_shown_view(held).push(shown_view(cut@)));
        }
        q = q + 1;
    }
    assert(sourced.take(q as int) =~= sourced);
    (out, short)
}

/// The characters of excerpts that a candidate is shown with.
pub open spec fn excerpt_chars(v: ShownV) -> int {
    if v.representation != SearchRepresentation::Excerpt {
        0
    } else if v.demote_additional_sections {
        v.candidate.excerpt.len() as int
    } else {
        candidate_chars(v.candidate)
    }
}

/// The characters of a whole source that a candidate is shown with.
pub open spec fn source_chars(v: ShownV) -> int {
    match (v.representation, v.complete_text) {
        (SearchRepresentation::CompleteSource, Some(t)) => t.len() as int,
        _ => 0,
    }
}

/// The characters that the candidates of a query are shown with.
pub open spec fn query_chars(v: Seq<ShownV>) -> int
    decreases v.len(),
{
    if v.len() == 0 {
        0
    } else {
        query_chars(v.drop_last()) + excerpt_chars(v.last()) + source_chars(v.last())
    }
}

/// The characters that the candidates of a response are shown with.
pub open spec fn response_chars(v: Seq<Seq<ShownV>>) -> int
    decreases v.len(),
{
    if v.len() == 0 {
        0
    } else {
        response_chars(v.drop_last()) + query_chars(v.last())
    }
}

spec fn query_sources(v: Seq<ShownV>) -> int
    decreases v.len(),
{
    if v.len() == 0 {
        0
    } else {
        query_sources(v.drop_last()) + source_chars(v.last())
    }
}

spec fn response_sources(v: Seq<Seq<ShownV>>) -> int
    decreases v.len(),
{
    if v.len() == 0 {
        0
    } else {
        response_sources(v.drop_last()) + query_sources(v.last())
    }
}

proof fn lemma_budgeted(v: ShownV, available: int)
    requires
        available >= 0,
    ensures
        0 <= budgeted(v, available).remaining <= available,
        excerpt_chars(budgeted(v, available).value) <= available - budgeted(v, available).remaining,
        source_chars(budgeted(v, available).value) == source_chars(v),
{
    if v.representation == SearchRepresentation::Excerpt {
        if v.candidate.sections.len() > 0 {
            lemma_section_chars_natural(v.candidate.sections.skip(1));
        }
        let start = least(available, desired_chars(v));
        if !v.demote_additional_sections {
            lemma_cut_candidate_within_budget(v.candidate, start);
        }
    }
}

proof fn lemma_all_budgeted(v: Seq<ShownV>, available: int)
    requires
        available >= 0,
    ensures
        all_budgeted(v, available).value.len() == v.len(),
        0 <= all_budgeted(v, available).remaining <= available,
        query_chars(all_budgeted(v, available).value) <= available - all_budgeted(
            v,
            available,
        ).remaining + query_sources(v),
    decreases v.len(),
{
    if v.len() > 0 {
        lemma_all_budgeted(v.drop_last(), available);
        let front = all_budgeted(v.drop_last(), available);
        let last = budgeted(v.last(), front.remaining);
        lemma_budgeted(v.last(), front.remaining);
        assert(front.value.push(last.value).drop_last() =~= front.value);
    }
}

proof fn lemma_shared_budget(v: Seq<Seq<ShownV>>, available: int)
    requires
        available >= 0,
    ensures
        0 <= shared_budget(v, available).remaining <= available,
        response_chars(shared_budget(v, available).value) <= available - shared_budget(
            v,
            available,
        ).remaining + response_sources(v),
    decreases v.len(),
{
    if v.len() > 0 {
        lemma_shared_budget(v.drop_last(), available);
        let front = shared_budget(v.drop_last(), available);
        let last = all_budgeted(v.last(), front.remaining);
        lemma_all_budgeted(v.last(), front.remaining);
        assert(front.value.push(last.value).drop_last() =~= front.value);
    }
}

proof fn lemma_own_budgets(v: Seq<Seq<ShownV>>, quotas: Seq<int>)
    requires
        v.len() <= quotas.len(),
        forall|k: int| 0 <= k < quotas.len() ==> 0 <= #[trigger] quotas[k],
    ensures
        response_chars(own_budgets(v, quotas).value) <= sum_to(quotas, v.len() as int)
            + response_sources(v),
    decreases v.len(),
{
    if v.len() > 0 {
        lemma_own_budgets(v.drop_last(), quotas);
        let front = own_budgets(v.drop_last(), quotas);
        let last = all_budgeted(v.last(), quotas[v.len() - 1]);
        lemma_all_budgeted(v.last(), quotas[v.len() - 1]);
        assert(front.value.push(last.value).drop_last() =~= front.value);
    }
}

proof fn lemma_no_sources(v: Seq<ShownV>)
    requires
        forall|i: int|
            0 <= i < v.len() ==> (#[trigger] v[i]).representation
                != SearchRepresentation::CompleteSource,
    ensures
        query_sources(v) == 0,
    decreases v.len(),
{
    if v.len() > 0 {
        assert(v.last() == v[v.len() - 1]);
        assert forall|i: int| 0 <= i < v.drop_last().len() implies (
        #[trigger] v.drop_last()[i]).representation != SearchRepresentation::CompleteSource by {
            assert(v.drop_last()[i] == v[i]);
        }
        lemma_no_sources(v.drop_last());
    }
}

proof fn lemma_led_sources(v: Seq<ShownV>, n: int)
    requires
        0 < n <= v.len(),
        forall|i: int|
            1 <= i < v.len() ==> (#[trigger] v[i]).representation
                != SearchRepresentation::CompleteSource,
    ensures
        query_sources(v.take(n)) == source_chars(v[0]),
    decreases n,
{
    let t = v.take(n);
    if n == 1 {
        assert(t.drop_last() =~= Seq::<ShownV>::empty());
        assert(query_sources(t.drop_last()) == 0);
        assert(t.last() == v[0]);
    } else {
        lemma_led_sources(v, n - 1);
        assert(t.drop_last() =~= v.take(n - 1));
        assert(t.last() == v[n - 1]);
    }
}

proof fn lemma_with_sources(v: Seq<Seq<ShownV>>, loaded: Seq<HydrationV>, remaining: int)
    requires
        remaining >= 0,
        forall|q: int, i: int|
            0 <= q < v.len() && 0 <= i < v[q].len() ==> (#[trigger] v[q][i]).representation
                == SearchRepresentation::Excerpt,
    ensures
        with_sources(v, loaded, remaining).value.len() == v.len(),
        0 <= with_sources(v, loaded, remaining).remaining <= remaining,
        response_sources(with_sources(v, loaded, remaining).value) == remaining - with_sources(
            v,
            loaded,
            remaining,
        ).remaining,
    decreases v.len(),
{
    if v.len() > 0 {
        let front = with_sources(v.drop_last(), loaded, remaining);
        assert forall|q: int, i: int|
            0 <= q < v.drop_last().len() && 0 <= i < v.drop_last()[q].len() implies (
        #[trigger] v.drop_last()[q][i]).representation == SearchRepresentation::Excerpt by {
            assert(v.drop_last()[q][i] == v[q][i]);
        }
        lemma_with_sources(v.drop_last(), loaded, remaining);
        let last = with_source(v.last(), loaded, front.remaining);
        assert(front.value.push(last.value).drop_last() =~= front.value);
        let w = v.last();
        let k = v.len() - 1;
        assert(w == v[k]);
        assert forall|i: int| 0 <= i < w.len() implies (#[trigger] w[i]).representation
            != SearchRepresentation::CompleteSource by {
            assert(v[k][i].representation == SearchRepresentation::Excerpt);
        }
        lemma_no_sources(w);
        if w.len() > 0 {
            if let Some(h) = source_of(loaded, w[0].candidate.entry_id, 0) {
                if fits_whole(h, front.remaining) {
                    let led = led_by_source(w, h.content);
                    lemma_led_sources(led, led.len() as int);
                    assert(led.take(led.len() as int) =~= led);
                }
            }
        }
    }
}

/// A response never shows more characters of excerpts and sources together than its
/// budget has.
pub proof fn lemma_assembled_within_budget(
    sets: Seq<Seq<CandidateV>>,
    loaded: Seq<HydrationV>,
    options: SearchBudgetOptions,
)
    ensures
        response_chars(assembled(sets, loaded, options).value) <= options.max_chars,
{
    let max = options.max_chars as int;
    let excerpts = excerpt_sets(sets, options.section_demotion_top_n);
    assert forall|q: int, i: int| 0 <= q < excerpts.len() && 0 <= i < excerpts[q].len() implies (
    #[trigger] excerpts[q][i]).representation == SearchRepresentation::Excerpt by {}
    lemma_with_sources(excerpts, loaded, max);
    lemma_excerpts_have_no_sources(excerpts);
    let sourced = if options.top1_hydration {
        with_sources(excerpts, loaded, max)
    } else {
        Cut { value: excerpts, remaining: max, truncated: false }
    };
    assert(response_sources(sourced.value) == max - sourced.remaining);
    if options.fair_share {
        let desired = desired_sums(sourced.value);
        assert forall|k: int| 0 <= k < desired.len() implies 0 <= #[trigger] desired[k] by {
            lemma_desired_sum(sourced.value[k]);
        }
        lemma_fair_quotas(desired, sourced.remaining);
        let quotas = fair_quotas(desired, sourced.remaining);
        if desired.len() > 0 {
            lemma_floor_total(sourced.remaining, desired.len() as int);
        }
        assert forall|k: int| 0 <= k < quotas.len() implies 0 <= #[trigger] quotas[k] by {
            assert(0 <= desired[k]);
        }
        lemma_own_budgets(sourced.value, quotas);
    } else {
        lemma_shared_budget(sourced.value, sourced.remaining);
    }
}

proof fn lemma_excerpts_have_no_sources(v: Seq<Seq<ShownV>>)
    requires
        forall|q: int, i: int|
            0 <= q < v.len() && 0 <= i < v[q].len() ==> (#[trigger] v[q][i]).representation
                == SearchRepresentation::Excerpt,
    ensures
        response_sources(v) == 0,
    decreases v.len(),
{
    if v.len() > 0 {
        let k = v.len() - 1;
        assert forall|q: int, i: int|
            0 <= q < v.drop_last().len() && 0 <= i < v.drop_last()[q].len() implies (
        #[trigger] v.drop_last()[q][i]).representation == SearchRepresentation::Excerpt by {
            assert(v.drop_last()[q][i] == v[q][i]);
        }
        lemma_excerpts_have_no_sources(v.drop_last());
        assert forall|i: int| 0 <= i < v.last().len() implies (
        #[trigger] v.last()[i]).representation != SearchRepresentation::CompleteSource by {
            assert(v[k][i].representation == SearchRepresentation::Excerpt);
        }
        lemma_no_sources(v.last());
    }
}

}
