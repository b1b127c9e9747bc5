//! Laws of finding: what a query asks for is taken from its text and nothing of it is lost,
//! and what lanes find is kept by its merit.
use vstd::prelude::*;

#[allow(unused_imports)]
use crate::candidate::{
    best_sections, derived_loss, distinct_sections, first_matches, holds_section, lemma_section_order,
    match_order, normalized, section_order, united, without_repeats, CandidateV, MatchV, SectionV,
};
#[allow(unused_imports)]
use crate::json::{billionths, JsonV};
#[allow(unused_imports)]
use crate::lanes::{
    clue_queries, found_candidate, lane_gap, lane_score, millis, nearness, phrase, selected_lanes, timings_json,
    with_semantic, FoundV, RetrievalTimings, SemanticLaneReport, SemanticOutcome,
};
#[allow(unused_imports)]
use crate::lexical::{
    bare_clues, blanked, bonus, bonus_sum, can_be_term, clues, distinct_ignoring_case,
    focused_queries, holds_ignoring_case, holds_term, is_distinctive, is_noise, lemma_focus_is_order,
    occurrences, pair_count, pair_rank, pair_text, query_parts, query_terms, quoted, quoted_clues,
    quoted_from, ranked_pairs, term_bonus, term_parts, used_clues, PairRank,
};
#[allow(unused_imports)]
use crate::order::{is_sorted, lemma_sorted_in_order, lemma_sorted_permutes, sorted};
#[allow(unused_imports)]
use crate::score::{
    greater, infinite, is_code, lemma_sum_is_at_least, lemma_zero_adds_nothing, opposite, plus, ONE,
};
#[allow(unused_imports)]
use crate::seqs::{first_of, lemma_add_contains, lemma_filter_contains};
#[allow(unused_imports)]
use crate::text::{
    ascii_lower, equal_ignoring_case, first_from, has_any, joined, lemma_first_from, lower_case,
    occurs, occurs_at, trimmed, truncated, CharClass,
};
#[allow(unused_imports)]
use crate::verbatim::verbatim_terms;

verus! {

// ---------------------------------------------------------------------------
// Quotes
// ---------------------------------------------------------------------------

/// Whether a part of a text stands between two delimiters, of which an even number comes
/// before.
pub open spec fn is_quoted_part(
    s: Seq<char>,
    delimiter: char,
    part: Seq<char>,
    open: int,
    close: int,
) -> bool {
    &&& 0 <= open < close < s.len()
    &&& s[open] == delimiter && s[close] == delimiter
    &&& part == s.subrange(open + 1, close)
    &&& forall|i: int| open < i < close ==> #[trigger] s[i] != delimiter
    &&& occurrences(s, delimiter, open) % 2 == 0
}

/// Whether a part of a text is quoted there, not in front of a place.
pub open spec fn is_quoted(s: Seq<char>, delimiter: char, part: Seq<char>, start: int) -> bool {
    exists|open: int, close: int|
        start <= open && #[trigger] is_quoted_part(s, delimiter, part, open, close)
}

proof fn lemma_no_occurrences(s: Seq<char>, c: char, from: int, to: int)
    requires
        0 <= from <= to <= s.len(),
        forall|i: int| from <= i < to ==> #[trigger] s[i] != c,
    ensures
        occurrences(s, c, to) == occurrences(s, c, from),
    decreases to - from,
{
    if from < to {
        lemma_no_occurrences(s, c, from, to - 1);
        assert(s[to - 1] != c);
    }
}

proof fn lemma_quoted_from(s: Seq<char>, delimiter: char, start: int)
    requires
        0 <= start <= s.len(),
        occurrences(s, delimiter, start) % 2 == 0,
    ensures
        ({
            let parts = quoted_from(s, delimiter, start);
            &&& forall|k: int|
                0 <= k < parts.len() ==> is_quoted(s, delimiter, #[trigger] parts[k], start)
            &&& forall|open: int, close: int|
                start <= open && #[trigger] is_quoted_part(
                    s,
                    delimiter,
                    s.subrange(open + 1, close),
                    open,
                    close,
                ) ==> parts.contains(s.subrange(open + 1, close))
        }),
    decreases s.len() - start,
{
    let class = CharClass::Is(delimiter);
    let parts = quoted_from(s, delimiter, start);
    lemma_first_from(s, class, start);
    let a = first_from(s, class, start);
    assert forall|i: int| start <= i < a implies #[trigger] s[i] != delimiter by {
        assert(!class.has(s[i]));
    }
    lemma_no_occurrences(s, delimiter, start, a);
    if a < s.len() {
        lemma_first_from(s, class, a + 1);
        let b = first_from(s, class, a + 1);
        assert forall|i: int| a + 1 <= i < b implies #[trigger] s[i] != delimiter by {
            assert(!class.has(s[i]));
        }
        lemma_no_occurrences(s, delimiter, a + 1, b);
        assert(occurrences(s, delimiter, a + 1) == occurrences(s, delimiter, a) + 1);
        if b < s.len() {
            assert(occurrences(s, delimiter, b + 1) == occurrences(s, delimiter, b) + 1);
            lemma_quoted_from(s, delimiter, b + 1);
            let rest = quoted_from(s, delimiter, b + 1);
            assert(parts == seq![s.subrange(a + 1, b)] + rest);
            assert(is_quoted_part(s, delimiter, parts[0], a, b));
            assert forall|k: int| 0 <= k < parts.len() implies is_quoted(
                s,
                delimiter,
                #[trigger] parts[k],
                start,
            ) by {
                if k > 0 {
                    assert(parts[k] == rest[k - 1]);
                    assert(is_quoted(s, delimiter, rest[k - 1], b + 1));
                    let (open, close) = choose|open: int, close: int|
                        b + 1 <= open && #[trigger] is_quoted_part(
                            s,
                            delimiter,
                            rest[k - 1],
                            open,
                            close,
                        );
                    assert(is_quoted_part(s, delimiter, parts[k], open, close));
                }
            }
            assert forall|open: int, close: int|
                start <= open && #[trigger] is_quoted_part(
                    s,
                    delimiter,
                    s.subrange(open + 1, close),
                    open,
                    close,
                ) implies parts.contains(s.subrange(open + 1, close)) by {
                assert(open >= a);
                if open == a {
                    if close < b {
                        assert(s[close] != delimiter);
                    }
                    if b < close {
                        assert(s[b] != delimiter);
                    }
                    assert(parts[0] == s.subrange(open + 1, close));
                } else if open < b {
                    assert(s[open] != delimiter);
                } else if open == b {
                    assert(occurrences(s, delimiter, b) % 2 == 1);
                } else {
                    assert(rest.contains(s.subrange(open + 1, close)));
                    let k = choose|k: int|
                        0 <= k < rest.len() && rest[k] == s.subrange(open + 1, close);
                    assert(parts[k + 1] == rest[k]);
                }
            }
        } else {
            assert forall|open: int, close: int|
                start <= open && #[trigger] is_quoted_part(
                    s,
                    delimiter,
                    s.subrange(open + 1, close),
                    open,
                    close,
                ) implies parts.contains(s.subrange(open + 1, close)) by {
                if open < a {
                    assert(s[open] != delimiter);
                }
                assert(s[close] != delimiter);
            }
        }
    } else {
        assert forall|open: int, close: int|
            start <= open && #[trigger] is_quoted_part(
                s,
                delimiter,
                s.subrange(open + 1, close),
                open,
                close,
            ) implies parts.contains(s.subrange(open + 1, close)) by {
            assert(s[open] != delimiter);
        }
    }
}

/// What is quoted in a text is exactly what stands between a delimiter that opens and the
/// next one, which closes: all such parts, and nothing else.
pub proof fn lemma_quotes_are_what_is_quoted(s: Seq<char>, delimiter: char)
    ensures
        forall|k: int|
            0 <= k < quoted(s, delimiter).len() ==> is_quoted(
                s,
                delimiter,
                #[trigger] quoted(s, delimiter)[k],
                0,
            ),
        forall|open: int, close: int| #[trigger]
            is_quoted_part(s, delimiter, s.subrange(open + 1, close), open, close) ==> quoted(
                s,
                delimiter,
            ).contains(s.subrange(open + 1, close)),
{
    lemma_quoted_from(s, delimiter, 0);
}

/// What is made blank is what is quoted: no delimiter is left, the rest stays in its place,
/// and where there is no delimiter nothing changes.
pub proof fn lemma_only_quotes_are_blanked(s: Seq<char>, delimiter: char)
    requires
        delimiter != ' ',
    ensures
        blanked(s, delimiter).len() == s.len(),
        forall|i: int| 0 <= i < s.len() ==> #[trigger] blanked(s, delimiter)[i] != delimiter,
        forall|i: int|
            0 <= i < s.len() ==> #[trigger] blanked(s, delimiter)[i] == s[i] || blanked(
                s,
                delimiter,
            )[i] == ' ',
        forall|i: int|
            0 <= i < s.len() && s[i] != delimiter && occurrences(s, delimiter, i) % 2 == 0
                ==> #[trigger] blanked(s, delimiter)[i] == s[i],
        forall|i: int|
            0 <= i < s.len() && occurrences(s, delimiter, i) % 2 == 1 ==> #[trigger] blanked(
                s,
                delimiter,
            )[i] == ' ',
{
}

// ---------------------------------------------------------------------------
// Clues and terms
// ---------------------------------------------------------------------------

proof fn lemma_first_of_each(v: Seq<Seq<char>>)
    ensures
        ({
            let d = distinct_ignoring_case(v);
            &&& forall|k: int| 0 <= k < d.len() ==> v.contains(#[trigger] d[k])
            &&& forall|j: int, k: int|
                0 <= j < k < d.len() ==> ascii_lower(#[trigger] d[j]) != ascii_lower(
                    #[trigger] d[k],
                )
            &&& forall|i: int|
                0 <= i < v.len() ==> exists|k: int|
                    0 <= k < d.len() && ascii_lower(#[trigger] d[k]) == ascii_lower(
                        #[trigger] v[i],
                    )
        }),
    decreases v.len(),
{
    if v.len() > 0 {
        let before = v.drop_last();
        lemma_first_of_each(before);
        let front = distinct_ignoring_case(before);
        let d = distinct_ignoring_case(v);
        assert forall|k: int| 0 <= k < d.len() implies v.contains(#[trigger] d[k]) by {
            if k < front.len() {
                assert(d[k] == front[k]);
                let i = choose|i: int| 0 <= i < before.len() && before[i] == front[k];
                assert(v[i] == d[k]);
            } else {
                assert(v[v.len() - 1] == d[k]);
            }
        }
        assert forall|j: int, k: int| 0 <= j < k < d.len() implies ascii_lower(#[trigger] d[j])
            != ascii_lower(#[trigger] d[k]) by {
            assert(d[j] == front[j]);
            if k < front.len() {
                assert(d[k] == front[k]);
            } else {
                assert(!equal_ignoring_case(front[j], v.last()));
            }
        }
        assert forall|i: int| 0 <= i < v.len() implies exists|k: int|
            0 <= k < d.len() && ascii_lower(#[trigger] d[k]) == ascii_lower(#[trigger] v[i]) by {
            if i < before.len() {
                assert(v[i] == before[i]);
                let k = choose|k: int|
                    0 <= k < front.len() && ascii_lower(#[trigger] front[k]) == ascii_lower(
                        before[i],
                    );
                assert(d[k] == front[k]);
            } else if holds_ignoring_case(front, v.last()) {
                let k = choose|k: int|
                    0 <= k < front.len() && equal_ignoring_case(#[trigger] front[k], v.last());
                assert(d[k] == front[k]);
            } else {
                assert(d[front.len() as int] == v[i]);
            }
        }
    }
}

/// The clues that are used are clues of the query, no more than two, and none twice
/// whatever the case of its letters; where there are fewer than two, none is passed over.
pub proof fn lemma_clues_are_used_once(query: Seq<char>)
    ensures
        used_clues(query).len() <= 2,
        forall|k: int| 0 <= k < used_clues(query).len() ==> clues(query).contains(
            #[trigger] used_clues(query)[k],
        ),
        forall|j: int, k: int|
            0 <= j < k < used_clues(query).len() ==> ascii_lower(#[trigger] used_clues(query)[j])
                != ascii_lower(#[trigger] used_clues(query)[k]),
        used_clues(query).len() < 2 ==> forall|i: int|
            0 <= i < clues(query).len() ==> exists|k: int|
                0 <= k < used_clues(query).len() && ascii_lower(#[trigger] used_clues(query)[k])
                    == ascii_lower(#[trigger] clues(query)[i]),
        clues(query).len() > 0 ==> used_clues(query).len() > 0 && used_clues(query)[0] == clues(
            query,
        )[0],
{
    let all = clues(query);
    lemma_first_of_each(all);
    let d = distinct_ignoring_case(all);
    let u = used_clues(query);
    assert forall|k: int| 0 <= k < u.len() implies #[trigger] u[k] == d[k] by {}
    if u.len() < 2 {
        assert(u == d);
    }
    if all.len() > 0 {
        lemma_first_stays(all);
    }
}

proof fn lemma_first_stays(v: Seq<Seq<char>>)
    requires
        v.len() > 0,
    ensures
        distinct_ignoring_case(v).len() > 0,
        distinct_ignoring_case(v)[0] == v[0],
    decreases v.len(),
{
    if v.len() > 1 {
        lemma_first_stays(v.drop_last());
    } else {
        assert(distinct_ignoring_case(v.drop_last()).len() == 0);
        assert(!holds_ignoring_case(distinct_ignoring_case(v.drop_last()), v.last()));
    }
}

/// A clue is quoted or reads as one, has from three to 256 characters, and is not the
/// query itself.
pub proof fn lemma_clues_are_part_of_the_query(query: Seq<char>, clue: Seq<char>)
    requires
        clues(query).contains(clue),
    ensures
        3 <= clue.len() <= 256,
        ascii_lower(clue) != ascii_lower(trimmed(query)),
        quoted_clues(query, '`').contains(clue) || quoted_clues(query, '"').contains(clue)
            || bare_clues(query).contains(clue) && clue.len() >= 6,
{
    let p = |t: Seq<char>| !equal_ignoring_case(t, trimmed(query));
    let a = quoted_clues(query, '`');
    let b = quoted_clues(query, '"');
    let c = bare_clues(query);
    lemma_filter_contains(a + b + c, p, clue);
    lemma_add_contains(a + b, c, clue);
    lemma_add_contains(a, b, clue);
    let trim = |t: Seq<char>| crate::text::trim_class(t, CharClass::Whitespace);
    let shape = crate::lexical::clue_shape(3, false);
    lemma_filter_contains(quoted(query, '`').map_values(trim), shape, clue);
    lemma_filter_contains(quoted(query, '"').map_values(trim), shape, clue);
    lemma_filter_contains(
        crate::text::words(query).map_values(
            |t: Seq<char>| crate::text::trim_class(t, CharClass::BetweenTokens),
        ),
        crate::lexical::clue_shape(6, true),
        clue,
    );
}

/// What is looked for word for word are clues that are no paths, at most three of them,
/// and none of the clues in use that is no path is passed over.
pub proof fn lemma_verbatim_terms_are_clues(query: Seq<char>, term: Seq<char>)
    ensures
        verbatim_terms(query).contains(term) <==> used_clues(query).contains(term)
            && !crate::lexical::reads_as_path(term),
{
    let p = |t: Seq<char>| !crate::lexical::reads_as_path(t);
    lemma_filter_contains(used_clues(query), p, term);
    used_clues(query).lemma_filter_len(p);
}

/// A phrase is a clue between double quotes, in which there is none.
pub proof fn lemma_phrases_are_quoted(clue: Seq<char>)
    ensures
        phrase(clue).len() == clue.len() + 2,
        phrase(clue)[0] == '"' && phrase(clue).last() == '"',
        forall|i: int|
            0 <= i < clue.len() ==> #[trigger] phrase(clue)[i + 1] == (if clue[i] == '"' {
                ' '
            } else {
                clue[i]
            }),
{
    reveal_strlit("\"");
    assert("\""@.len() == 1 && "\""@[0] == '"');
}

/// Every part of a joined text occurs in it.
pub proof fn lemma_part_of_joined(parts: Seq<Seq<char>>, separator: Seq<char>, k: int)
    requires
        0 <= k < parts.len(),
    ensures
        occurs(joined(parts, separator), parts[k]),
    decreases parts.len(),
{
    let all = joined(parts, separator);
    if parts.len() == 1 {
        assert(all.subrange(0, parts[0].len() as int) =~= parts[0]);
        assert(occurs_at(all, parts[0], 0));
    } else if k == parts.len() - 1 {
        let at: int = joined(parts.drop_last(), separator).len() + separator.len() as int;
        assert(all.subrange(at, at + parts[k].len()) =~= parts[k]);
        assert(occurs_at(all, parts[k], at));
    } else {
        let before = parts.drop_last();
        lemma_part_of_joined(before, separator, k);
        let front = joined(before, separator);
        let at = choose|at: int| occurs_at(front, before[k], at);
        assert(all.subrange(at, at + parts[k].len()) =~= front.subrange(at, at + parts[k].len()));
        assert(occurs_at(all, parts[k], at));
    }
}

/// Every clue in use is looked for: by a query of its own, or as a phrase in the one query
/// for all.
pub proof fn lemma_every_clue_is_looked_for(query: Seq<char>, single_scan: bool, k: int)
    requires
        0 <= k < used_clues(query).len(),
    ensures
        !single_scan ==> clue_queries(query, single_scan) == used_clues(query),
        single_scan ==> clue_queries(query, single_scan).len() == 1 && occurs(
            clue_queries(query, single_scan)[0],
            phrase(used_clues(query)[k]),
        ),
{
    let phrases = used_clues(query).map_values(|t: Seq<char>| phrase(t));
    lemma_part_of_joined(phrases, " OR "@, k);
    assert(phrases[k] == phrase(used_clues(query)[k]));
}

/// Whether a part of a query says what is looked for: it is no single digit, it has a
/// digit or at least three characters, and it is no noise.
pub open spec fn says_something(raw: Seq<char>) -> bool {
    let term = lower_case(raw);
    let digit = exists|i: int| 0 <= i < term.len() && '0' <= #[trigger] term[i] <= '9';
    &&& raw.len() > 0
    &&& if digit {
        term.len() != 1
    } else {
        term.len() >= 3
    }
    &&& !is_noise(term)
}

proof fn lemma_says_something(raw: Seq<char>)
    ensures
        can_be_term(raw) <==> says_something(raw),
{
    let term = lower_case(raw);
    if has_any(term, CharClass::AsciiDigit) {
        let i = choose|i: int| 0 <= i < term.len() && CharClass::AsciiDigit.has(#[trigger] term[i]);
        assert('0' <= term[i] <= '9');
    }
    if exists|i: int| 0 <= i < term.len() && '0' <= #[trigger] term[i] <= '9' {
        let i = choose|i: int| 0 <= i < term.len() && '0' <= #[trigger] term[i] <= '9';
        assert(CharClass::AsciiDigit.has(term[i]));
    }
}

proof fn lemma_term_parts(parts: Seq<Seq<char>>)
    ensures
        ({
            let d = term_parts(parts);
            &&& forall|k: int|
                0 <= k < d.len() ==> parts.contains(#[trigger] d[k]) && says_something(d[k])
            &&& forall|j: int, k: int|
                0 <= j < k < d.len() ==> lower_case(#[trigger] d[j]) != lower_case(#[trigger] d[k])
            &&& forall|i: int|
                0 <= i < parts.len() && says_something(#[trigger] parts[i]) ==> exists|k: int|
                    0 <= k < d.len() && lower_case(#[trigger] d[k]) == lower_case(parts[i])
        }),
    decreases parts.len(),
{
    if parts.len() > 0 {
        let before = parts.drop_last();
        lemma_term_parts(before);
        lemma_says_something(parts.last());
        let front = term_parts(before);
        let d = term_parts(parts);
        assert forall|k: int| 0 <= k < d.len() implies parts.contains(#[trigger] d[k])
            && says_something(d[k]) by {
            if k < front.len() {
                assert(d[k] == front[k]);
                let i = choose|i: int| 0 <= i < before.len() && before[i] == front[k];
                assert(parts[i] == d[k]);
            } else {
                assert(parts[parts.len() - 1] == d[k]);
            }
        }
        assert forall|j: int, k: int| 0 <= j < k < d.len() implies lower_case(#[trigger] d[j])
            != lower_case(#[trigger] d[k]) by {
            assert(d[j] == front[j]);
            if k < front.len() {
                assert(d[k] == front[k]);
            }
        }
        assert forall|i: int| 0 <= i < parts.len() && says_something(#[trigger] parts[i]) implies
            exists|k: int|
            0 <= k < d.len() && lower_case(#[trigger] d[k]) == lower_case(parts[i]) by {
            if i < before.len() {
                assert(parts[i] == before[i]);
                let k = choose|k: int|
                    0 <= k < front.len() && lower_case(#[trigger] front[k]) == lower_case(
                        before[i],
                    );
                assert(d[k] == front[k]);
            } else if holds_term(front, lower_case(parts.last())) {
                let k = choose|k: int|
                    0 <= k < front.len() && lower_case(#[trigger] front[k]) == lower_case(
                        parts.last(),
                    );
                assert(d[k] == front[k]);
            } else {
                assert(d[front.len() as int] == parts[i]);
            }
        }
    }
}

/// Whether a term is one of the parts of a query that say something, in lower case.
pub open spec fn is_said(term: (Seq<char>, bool), parts: Seq<Seq<char>>) -> bool {
    exists|i: int|
        0 <= i < parts.len() && says_something(#[trigger] parts[i]) && term.0 == lower_case(
            parts[i],
        ) && term.1 == is_distinctive(parts[i])
}

/// Whether some term is a text in lower case.
pub open spec fn is_term(raw: Seq<char>, terms: Seq<(Seq<char>, bool)>) -> bool {
    exists|k: int| 0 <= k < terms.len() && (#[trigger] terms[k]).0 == lower_case(raw)
}

/// The terms of a query are its parts that say something, in lower case, and every part
/// that does has its term; those that tell documents apart come first.
pub proof fn lemma_terms_are_what_the_query_says(query: Seq<char>)
    ensures
        forall|k: int|
            0 <= k < query_terms(query).len() ==> is_said(
                #[trigger] query_terms(query)[k],
                query_parts(query),
            ),
        forall|i: int|
            0 <= i < query_parts(query).len() && says_something(#[trigger] query_parts(query)[i])
                ==> is_term(query_parts(query)[i], query_terms(query)),
        forall|j: int, k: int|
            0 <= j < k < query_terms(query).len() && (#[trigger] query_terms(query)[k]).1 ==> (
            #[trigger] query_terms(query)[j]).1,
{
    let parts = query_parts(query);
    let d = term_parts(parts);
    lemma_term_parts(parts);
    let p = |raw: Seq<char>| is_distinctive(raw);
    let n = |raw: Seq<char>| !is_distinctive(raw);
    let front = d.filter(p);
    let back = d.filter(n);
    let terms = query_terms(query);
    assert(terms == front.map_values(|raw: Seq<char>| (lower_case(raw), true)) + back.map_values(
        |raw: Seq<char>| (lower_case(raw), false),
    ));
    assert forall|k: int| 0 <= k < terms.len() implies is_said(#[trigger] terms[k], parts) by {
        if k < front.len() {
            lemma_kept_part(d, p, k);
            lemma_part_is_said(parts, d, front[k], terms[k]);
        } else {
            lemma_kept_part(d, n, k - front.len());
            lemma_part_is_said(parts, d, back[k - front.len()], terms[k]);
        }
    }
    assert forall|i: int| 0 <= i < parts.len() && says_something(#[trigger] parts[i]) implies
        is_term(parts[i], terms) by {
        let m = choose|m: int|
            0 <= m < d.len() && lower_case(#[trigger] d[m]) == lower_case(parts[i]);
        assert(d.contains(d[m]));
        if is_distinctive(d[m]) {
            lemma_filter_contains(d, p, d[m]);
            let k = choose|k: int| 0 <= k < front.len() && front[k] == d[m];
            assert(terms[k].0 == lower_case(d[m]));
        } else {
            lemma_filter_contains(d, n, d[m]);
            let k = choose|k: int| 0 <= k < back.len() && back[k] == d[m];
            assert(terms[front.len() + k].0 == lower_case(d[m]));
        }
    }
}

proof fn lemma_kept_part(d: Seq<Seq<char>>, p: spec_fn(Seq<char>) -> bool, k: int)
    requires
        0 <= k < d.filter(p).len(),
    ensures
        d.contains(d.filter(p)[k]),
        p(d.filter(p)[k]),
{
    assert(d.filter(p).contains(d.filter(p)[k]));
    lemma_filter_contains(d, p, d.filter(p)[k]);
}

proof fn lemma_part_is_said(
    parts: Seq<Seq<char>>,
    d: Seq<Seq<char>>,
    raw: Seq<char>,
    term: (Seq<char>, bool),
)
    requires
        d.contains(raw),
        forall|k: int| 0 <= k < d.len() ==> parts.contains(#[trigger] d[k]) && says_something(d[k]),
        term == (lower_case(raw), is_distinctive(raw)),
    ensures
        is_said(term, parts),
{
    let m = choose|m: int| 0 <= m < d.len() && d[m] == raw;
    assert(parts.contains(d[m]));
    let i = choose|i: int| 0 <= i < parts.len() && parts[i] == raw;
    assert(says_something(parts[i]));
}

// ---------------------------------------------------------------------------
// Sections and matches
// ---------------------------------------------------------------------------

/// Whether a list holds a section with the same heading and excerpt and no lower score.
pub open spec fn is_kept_as_well(s: SectionV, list: Seq<SectionV>) -> bool {
    exists|k: int|
        0 <= k < list.len() && (#[trigger] list[k]).heading == s.heading && list[k].excerpt
            == s.excerpt && list[k].score >= s.score
}

/// Whether scores fall from each section to the next.
pub open spec fn falls(v: Seq<SectionV>) -> bool {
    forall|i: int, j: int| 0 <= i < j < v.len() ==> (#[trigger] v[i]).score >= (
    #[trigger] v[j]).score
}

proof fn lemma_distinct_falls(v: Seq<SectionV>)
    requires
        falls(v),
    ensures
        falls(distinct_sections(v)),
        forall|k: int| 0 <= k < distinct_sections(v).len() ==> v.contains(
            #[trigger] distinct_sections(v)[k],
        ),
        forall|i: int| 0 <= i < v.len() ==> is_kept_as_well(
            #[trigger] v[i],
            distinct_sections(v),
        ),
    decreases v.len(),
{
    if v.len() > 0 {
        let before = v.drop_last();
        let front = distinct_sections(before);
        let d = distinct_sections(v);
        assert forall|i: int, j: int| 0 <= i < j < before.len() implies (
        #[trigger] before[i]).score >= (#[trigger] before[j]).score by {
            assert(v[i].score >= v[j].score);
        }
        lemma_distinct_falls(before);
        assert forall|k: int| 0 <= k < d.len() implies v.contains(#[trigger] d[k]) by {
            if k < front.len() {
                assert(before.contains(front[k]));
                let i = choose|i: int| 0 <= i < before.len() && before[i] == front[k];
                assert(v[i] == d[k]);
            } else {
                assert(v[v.len() - 1] == d[k]);
            }
        }
        assert forall|k: int| 0 <= k < front.len() implies (#[trigger] front[k]).score
            >= v.last().score by {
            assert(before.contains(front[k]));
            let i = choose|i: int| 0 <= i < before.len() && before[i] == front[k];
            assert(v[i].score >= v[v.len() - 1].score);
        }
        assert forall|i: int, j: int| 0 <= i < j < d.len() implies (#[trigger] d[i]).score >= (
        #[trigger] d[j]).score by {
            assert(d[i] == front[i]);
            if j < front.len() {
                assert(d[j] == front[j]);
            }
        }
        assert forall|i: int| 0 <= i < v.len() implies is_kept_as_well(#[trigger] v[i], d) by {
            if i < before.len() {
                assert(v[i] == before[i]);
                assert(is_kept_as_well(before[i], front));
                let k = choose|k: int|
                    0 <= k < front.len() && (#[trigger] front[k]).heading == before[i].heading
                        && front[k].excerpt == before[i].excerpt && front[k].score
                        >= before[i].score;
                assert(d[k] == front[k]);
            } else if holds_section(front, v.last()) {
                let k = choose|k: int|
                    0 <= k < front.len() && (#[trigger] front[k]).heading == v.last().heading
                        && front[k].excerpt == v.last().excerpt;
                assert(d[k] == front[k]);
            } else {
                assert(d[front.len() as int] == v[i]);
            }
        }
    }
}

/// A candidate keeps its best sections: the better a section, the earlier it stands, and
/// one that is not kept says the same as one that is and is no better, or three others are
/// no worse.
pub proof fn lemma_best_sections_are_kept(v: Seq<SectionV>)
    ensures
        falls(best_sections(v)),
        best_sections(v).len() <= 3,
        forall|k: int| 0 <= k < best_sections(v).len() ==> v.contains(#[trigger] best_sections(v)[k]),
        forall|i: int|
            0 <= i < v.len() ==> is_kept_as_well(#[trigger] v[i], best_sections(v)) || (
            best_sections(v).len() == 3 && forall|k: int|
                0 <= k < 3 ==> (#[trigger] best_sections(v)[k]).score >= v[i].score),
{
    broadcast use vstd::seq_lib::group_to_multiset_ensures;

    let first = section_order();
    let all = sorted(first, v);
    lemma_section_order();
    lemma_sorted_in_order(first, v);
    lemma_sorted_permutes(first, v);
    assert forall|i: int, j: int| 0 <= i < j < all.len() implies (#[trigger] all[i]).score >= (
    #[trigger] all[j]).score by {
        assert(!first(all[j], all[i]));
    }
    lemma_distinct_falls(all);
    let d = distinct_sections(all);
    let b = best_sections(v);
    assert forall|k: int| 0 <= k < b.len() implies v.contains(#[trigger] b[k]) by {
        assert(b[k] == d[k]);
        assert(all.contains(d[k]));
        assert(all.to_multiset().count(b[k]) > 0);
    }
    assert forall|i: int, j: int| 0 <= i < j < b.len() implies (#[trigger] b[i]).score >= (
    #[trigger] b[j]).score by {
        assert(b[i] == d[i] && b[j] == d[j]);
    }
    assert forall|i: int| 0 <= i < v.len() implies is_kept_as_well(#[trigger] v[i], b) || (
    b.len() == 3 && forall|k: int| 0 <= k < 3 ==> (#[trigger] b[k]).score >= v[i].score) by {
        assert(v.contains(v[i]));
        assert(v.to_multiset().count(v[i]) > 0);
        assert(all.contains(v[i]));
        let m = choose|m: int| 0 <= m < all.len() && all[m] == v[i];
        assert(is_kept_as_well(all[m], d));
        let k = choose|k: int|
            0 <= k < d.len() && (#[trigger] d[k]).heading == v[i].heading && d[k].excerpt
                == v[i].excerpt && d[k].score >= v[i].score;
        if k < b.len() {
            assert(b[k] == d[k]);
        } else {
            assert forall|j: int| 0 <= j < 3 implies (#[trigger] b[j]).score >= v[i].score by {
                assert(b[j] == d[j]);
                assert(d[j].score >= d[k].score);
            }
        }
    }
}

/// A candidate is shown with its best section, and is otherwise what it was.
pub proof fn lemma_candidates_are_shown_with_their_best(c: CandidateV)
    ensures
        normalized(c) == (CandidateV {
            heading: normalized(c).heading,
            excerpt: normalized(c).excerpt,
            sections: normalized(c).sections,
            ..c
        }),
        c.sections.len() == 0 ==> normalized(c).heading == c.heading && normalized(c).excerpt
            == c.excerpt,
        c.sections.len() > 0 ==> exists|k: int|
            0 <= k < c.sections.len() && (#[trigger] c.sections[k]).heading == normalized(c).heading
                && c.sections[k].excerpt == normalized(c).excerpt && forall|i: int|
                0 <= i < c.sections.len() ==> (#[trigger] c.sections[i]).score
                    <= c.sections[k].score,
{
    let v = c.sections;
    let b = best_sections(v);
    lemma_best_sections_are_kept(v);
    if v.len() > 0 {
        assert(is_kept_as_well(v[0], b) || b.len() == 3);
        assert(b.len() > 0);
        assert(v.contains(b[0]));
        let k = choose|k: int| 0 <= k < v.len() && v[k] == b[0];
        assert forall|i: int| 0 <= i < v.len() implies (#[trigger] v[i]).score <= v[k].score by {
            if is_kept_as_well(v[i], b) {
                let m = choose|m: int|
                    0 <= m < b.len() && (#[trigger] b[m]).heading == v[i].heading && b[m].excerpt
                        == v[i].excerpt && b[m].score >= v[i].score;
                if m > 0 {
                    assert(b[0].score >= b[m].score);
                }
            } else {
                assert(b[0].score >= v[i].score);
            }
        }
    } else {
        assert(sorted(section_order(), v).len() == 0);
        assert(b.len() == 0);
    }
}

/// Whether a list holds a match at the same place.
pub open spec fn is_placed(m: MatchV, list: Seq<MatchV>) -> bool {
    exists|k: int|
        0 <= k < list.len() && (#[trigger] list[k]).line_no == m.line_no && list[k].byte_start
            == m.byte_start && list[k].byte_end == m.byte_end
}

/// Whether matches stand in the order of their lines.
pub open spec fn goes_down(v: Seq<MatchV>) -> bool {
    forall|i: int, j: int| 0 <= i < j < v.len() ==> (#[trigger] v[i]).line_no <= (
    #[trigger] v[j]).line_no
}

proof fn lemma_repeats(v: Seq<MatchV>)
    requires
        goes_down(v),
    ensures
        goes_down(without_repeats(v)),
        forall|k: int| 0 <= k < without_repeats(v).len() ==> v.contains(
            #[trigger] without_repeats(v)[k],
        ),
        forall|i: int| 0 <= i < v.len() ==> is_placed(#[trigger] v[i], without_repeats(v)),
    decreases v.len(),
{
    if v.len() > 0 {
        let before = v.drop_last();
        let front = without_repeats(before);
        let d = without_repeats(v);
        assert forall|i: int, j: int| 0 <= i < j < before.len() implies (
        #[trigger] before[i]).line_no <= (#[trigger] before[j]).line_no by {
            assert(v[i].line_no <= v[j].line_no);
        }
        lemma_repeats(before);
        assert forall|k: int| 0 <= k < d.len() implies v.contains(#[trigger] d[k]) by {
            if k < front.len() {
                assert(before.contains(front[k]));
                let i = choose|i: int| 0 <= i < before.len() && before[i] == front[k];
                assert(v[i] == d[k]);
            } else {
                assert(v[v.len() - 1] == d[k]);
            }
        }
        assert forall|k: int| 0 <= k < front.len() implies (#[trigger] front[k]).line_no
            <= v.last().line_no by {
            assert(before.contains(front[k]));
            let i = choose|i: int| 0 <= i < before.len() && before[i] == front[k];
            assert(v[i].line_no <= v[v.len() - 1].line_no);
        }
        assert forall|i: int, j: int| 0 <= i < j < d.len() implies (#[trigger] d[i]).line_no <= (
        #[trigger] d[j]).line_no by {
            assert(d[i] == front[i]);
            if j < front.len() {
                assert(d[j] == front[j]);
            }
        }
        assert forall|i: int| 0 <= i < v.len() implies is_placed(#[trigger] v[i], d) by {
            if i < before.len() {
                assert(v[i] == before[i]);
                assert(is_placed(before[i], front));
                let k = choose|k: int|
                    0 <= k < front.len() && (#[trigger] front[k]).line_no == before[i].line_no
                        && front[k].byte_start == before[i].byte_start && front[k].byte_end
                        == before[i].byte_end;
                assert(d[k] == front[k]);
            } else {
                assert(d[d.len() - 1].line_no == v[i].line_no);
            }
        }
    }
}

proof fn lemma_match_order()
    ensures
        crate::order::is_order(match_order()),
{
}

/// Of the matching lines a candidate keeps the first ones, in their order: one that is not
/// kept is at the place of one that is, or three others do not come behind it.
pub proof fn lemma_first_matches_are_kept(v: Seq<MatchV>)
    ensures
        goes_down(first_matches(v)),
        first_matches(v).len() <= 3,
        forall|k: int| 0 <= k < first_matches(v).len() ==> v.contains(#[trigger] first_matches(v)[k]),
        forall|i: int|
            0 <= i < v.len() ==> is_placed(#[trigger] v[i], first_matches(v)) || (first_matches(
                v,
            ).len() == 3 && forall|k: int|
                0 <= k < 3 ==> (#[trigger] first_matches(v)[k]).line_no <= v[i].line_no),
{
    broadcast use vstd::seq_lib::group_to_multiset_ensures;

    let first = match_order();
    let all = sorted(first, v);
    lemma_match_order();
    lemma_sorted_in_order(first, v);
    lemma_sorted_permutes(first, v);
    assert forall|i: int, j: int| 0 <= i < j < all.len() implies (#[trigger] all[i]).line_no <= (
    #[trigger] all[j]).line_no by {
        assert(!first(all[j], all[i]));
    }
    lemma_repeats(all);
    let d = without_repeats(all);
    let b = first_matches(v);
    assert forall|k: int| 0 <= k < b.len() implies v.contains(#[trigger] b[k]) by {
        assert(b[k] == d[k]);
        assert(all.contains(d[k]));
        assert(all.to_multiset().count(b[k]) > 0);
    }
    assert forall|i: int, j: int| 0 <= i < j < b.len() implies (#[trigger] b[i]).line_no <= (
    #[trigger] b[j]).line_no by {
        assert(b[i] == d[i] && b[j] == d[j]);
    }
    assert forall|i: int| 0 <= i < v.len() implies is_placed(#[trigger] v[i], b) || (b.len() == 3
        && forall|k: int| 0 <= k < 3 ==> (#[trigger] b[k]).line_no <= v[i].line_no) by {
        assert(v.contains(v[i]));
        assert(v.to_multiset().count(v[i]) > 0);
        assert(all.contains(v[i]));
        let m = choose|m: int| 0 <= m < all.len() && all[m] == v[i];
        assert(is_placed(all[m], d));
        let k = choose|k: int|
            0 <= k < d.len() && (#[trigger] d[k]).line_no == v[i].line_no && d[k].byte_start
                == v[i].byte_start && d[k].byte_end == v[i].byte_end;
        if k < b.len() {
            assert(b[k] == d[k]);
        } else {
            assert forall|j: int| 0 <= j < 3 implies (#[trigger] b[j]).line_no <= v[i].line_no by {
                assert(b[j] == d[j]);
                assert(d[j].line_no <= d[k].line_no);
            }
        }
    }
}

// ---------------------------------------------------------------------------
// Lanes
// ---------------------------------------------------------------------------

/// What a lane finds is the entry of the row, found in that lane, with the beginning of
/// what was found.
pub proof fn lemma_lanes_tell_the_row(row: FoundV, score: int, lane: Seq<char>)
    ensures
        ({
            let c = found_candidate(row, score, lane);
            &&& c.entry_id == row.entry_id && c.path == row.path && c.title == row.title
            &&& c.version == row.version && c.updated_at == row.updated_at
            &&& c.content_sha256 == row.content_sha256 && c.heading == row.heading
            &&& c.score == score && c.lanes == seq![lane]
            &&& c.excerpt.is_prefix_of(row.content)
            &&& c.excerpt.len() == row.content.len() || c.excerpt.len() == 2_400
            &&& c.sections.len() == 1 && c.sections[0].heading == c.heading
                && c.sections[0].excerpt == c.excerpt && c.sections[0].score == score
            &&& c.superseded_by is None && c.verbatim_matches.len() == 0
        }),
{
    crate::showing::lemma_truncated_begins(row.content, 2_400);
    assert(truncated(row.content, 2_400).is_prefix_of(row.content));
}

/// The nearer a row the better: at no distance it counts in full, from a distance of one
/// on not at all, and never below nothing.
pub proof fn lemma_nearness(distance: int)
    ensures
        nearness(distance) >= 0,
        distance == 0 ==> nearness(distance) == ONE,
        distance == ONE ==> nearness(distance) == 0,
{
    if distance == 0 {
        lemma_zero_adds_nothing(ONE as int);
    }
    if distance == ONE {
        crate::score::lemma_nearest(0);
        assert(crate::score::value(ONE as int) + crate::score::value(-(ONE as int)) == 0);
        lemma_zero_adds_nothing(0);
        assert(crate::score::value(0) == 0);
    }
}

/// The lanes that are searched are those that are named, and all where none is.
pub proof fn lemma_named_lanes_are_searched(modes: Seq<Seq<char>>)
    ensures
        modes.len() == 0 ==> selected_lanes(modes).exact && selected_lanes(modes).lexical
            && selected_lanes(modes).semantic && !selected_lanes(modes).semantic_only,
        modes.len() > 0 ==> {
            &&& selected_lanes(modes).exact <==> exists|i: int|
                0 <= i < modes.len() && #[trigger] modes[i] == "exact"@
            &&& selected_lanes(modes).lexical <==> exists|i: int|
                0 <= i < modes.len() && #[trigger] modes[i] == "lexical"@
            &&& selected_lanes(modes).semantic <==> exists|i: int|
                0 <= i < modes.len() && #[trigger] modes[i] == "semantic"@
        },
{
}

/// The time of each lane and of each of its steps is told under its own name.
pub proof fn lemma_times_are_told(
    t: RetrievalTimings,
)
    ensures
        ({
            let v = timings_json(t);
            &&& v.get("exact"@) == Some(millis(t.exact))
            &&& v.get("lexical"@) == Some(millis(t.lexical))
            &&& v.get("semantic_ready"@) == Some(millis(t.semantic_ready))
            &&& v.get("semantic"@) == Some(millis(t.semantic))
            &&& v.get("embed"@) == Some(millis(t.embed))
            &&& v.get("semantic_db"@) == Some(millis(t.semantic_db))
            &&& v.get("merge"@) == Some(millis(t.merge))
            &&& v.get("total"@) == Some(millis(t.total))
        }),
{
    reveal_strlit("exact");
    reveal_strlit("lexical");
    reveal_strlit("semantic_ready");
    reveal_strlit("semantic");
    reveal_strlit("embed");
    reveal_strlit("semantic_db");
    reveal_strlit("merge");
    reveal_strlit("total");
    assert("exact"@.len() == 5 && "lexical"@.len() == 7 && "semantic_ready"@.len() == 14 && "semantic"@.len() == 8 && "embed"@.len() == 5 && "semantic_db"@.len() == 11 && "merge"@.len() == 5 && "total"@.len() == 5);
    assert("exact"@[1] != "embed"@[1]);
    assert("exact"@[0] != "merge"@[0]);
    assert("embed"@[0] != "merge"@[0]);
    assert("exact"@[0] != "total"@[0]);
    assert("embed"@[0] != "total"@[0]);
    assert("merge"@[0] != "total"@[0]);
}

/// The times of the lanes are those that were measured: the semantic lane adds its own and
/// changes none of the others.
pub proof fn lemma_times_are_those_measured(t: RetrievalTimings, report: SemanticLaneReport)
    ensures
        with_semantic(t, None) == t,
        ({
            let r = with_semantic(t, Some(report));
            &&& r.exact == t.exact && r.lexical == t.lexical && r.merge == t.merge && r.total
                == t.total
            &&& r.semantic_ready == report.ready_us
            &&& report.outcome matches SemanticOutcome::Success(found) ==> r.semantic
                == report.lane_us && r.embed == found.embed_us && r.semantic_db == found.database_us
            &&& report.outcome is Failed || report.outcome is Deferred ==> r.semantic
                == report.lane_us && r.embed == t.embed && r.semantic_db == t.semantic_db
            &&& !(report.outcome is Success || report.outcome is Failed
                || report.outcome is Deferred) ==> r.semantic == t.semantic && r.embed == t.embed
                && r.semantic_db == t.semantic_db
        }),
{
}

// ---------------------------------------------------------------------------
// Merit
// ---------------------------------------------------------------------------

/// A term that is found adds to a score and one that is not adds nothing; it adds most
/// where it is found in the path or the title, less in the heading, and least in the
/// excerpt.
pub proof fn lemma_terms_add_by_place(
    term: Seq<char>,
    path_title: Seq<char>,
    heading: Seq<char>,
    excerpt: Seq<char>,
)
    ensures
        ({
            let found = |text: Seq<char>|
                crate::lexical::finds(
                    crate::lexical::search_words(text),
                    crate::lexical::search_letters(text),
                    term,
                );
            let b = term_bonus(term, path_title, heading, excerpt);
            &&& b > 0 <==> found(path_title) || found(heading) || found(excerpt)
            &&& b >= 0
            &&& found(path_title) ==> b > term_bonus(term, Seq::empty(), heading, excerpt) || found(
                Seq::empty(),
            )
            &&& !found(path_title) && found(heading) ==> b > term_bonus(
                term,
                path_title,
                Seq::empty(),
                excerpt,
            ) || found(Seq::empty())
        }),
{
}

proof fn lemma_bonus_sum(
    terms: Seq<Seq<char>>,
    path_title: Seq<char>,
    heading: Seq<char>,
    excerpt: Seq<char>,
)
    ensures
        is_code(bonus_sum(terms, path_title, heading, excerpt)),
        bonus_sum(terms, path_title, heading, excerpt) >= 0,
        (forall|k: int|
            0 <= k < terms.len() ==> term_bonus(
                #[trigger] terms[k],
                path_title,
                heading,
                excerpt,
            ) == 0) ==> bonus_sum(terms, path_title, heading, excerpt) == 0,
        forall|k: int|
            0 <= k < terms.len() ==> bonus_sum(terms, path_title, heading, excerpt) >= term_bonus(
                #[trigger] terms[k],
                path_title,
                heading,
                excerpt,
            ),
    decreases terms.len(),
{
    if terms.len() > 0 {
        let before = terms.drop_last();
        lemma_bonus_sum(before, path_title, heading, excerpt);
        let a = bonus_sum(before, path_title, heading, excerpt);
        let b = term_bonus(terms.last(), path_title, heading, excerpt);
        lemma_terms_add_by_place(terms.last(), path_title, heading, excerpt);
        lemma_sum_is_at_least(a, b);
        lemma_sum_turns(a, b);
        lemma_sum_is_at_least(b, a);
        if !infinite(a) && !infinite(b) {
            crate::score::lemma_nearest(crate::score::value(a) + crate::score::value(b));
        }
        if forall|k: int|
            0 <= k < terms.len() ==> term_bonus(
                #[trigger] terms[k],
                path_title,
                heading,
                excerpt,
            ) == 0 {
            assert forall|k: int| 0 <= k < before.len() implies term_bonus(
                #[trigger] before[k],
                path_title,
                heading,
                excerpt,
            ) == 0 by {
                assert(before[k] == terms[k]);
            }
            assert(terms[terms.len() - 1] == terms.last());
            lemma_zero_adds_nothing(a);
        }
        assert forall|k: int| 0 <= k < terms.len() implies bonus_sum(
            terms,
            path_title,
            heading,
            excerpt,
        ) >= term_bonus(#[trigger] terms[k], path_title, heading, excerpt) by {
            if k < before.len() {
                assert(before[k] == terms[k]);
            }
        }
    }
}

proof fn lemma_sum_turns(a: int, b: int)
    requires
        is_code(a),
        is_code(b),
        a >= 0,
        b >= 0,
    ensures
        plus(a, b) == plus(b, a),
{
}

/// What the terms of a query add to a score is never less than nothing, and never more
/// than eight.
pub proof fn lemma_bonus_is_bounded(
    query: Seq<char>,
    path: Seq<char>,
    title: Seq<char>,
    heading: Seq<char>,
    excerpt: Seq<char>,
)
    ensures
        0 <= bonus(query, path, title, heading, excerpt) <= 0x4020_0000_0000_0000,
{
    let terms = first_of(query_terms(query), crate::lexical::MAX_BONUS_TERMS as int).map_values(
        |t: (Seq<char>, bool)| t.0,
    );
    lemma_bonus_sum(terms, path + " "@ + title, heading, excerpt);
}

proof fn lemma_loss_is_no_gain(a: int, b: int)
    requires
        is_code(a),
        is_code(b),
        b >= 0,
    ensures
        plus(a, opposite(b)) <= a || infinite(b),
        plus(a, opposite(0)) == a,
{
    lemma_zero_adds_nothing(a);
    if !infinite(a) && !infinite(b) {
        let number = crate::score::value(a) + crate::score::value(-b);
        let sum = crate::score::nearest(number);
        crate::score::lemma_nearest(number);
        assert(crate::score::magnitude(0) == 0);
        if b > 0 {
            crate::score::lemma_value_order(0, b);
            assert(crate::score::value(-b) == -crate::score::value(b));
        }
        if sum > a {
            crate::score::lemma_value_order(a, sum);
            assert(is_code(a));
        }
    }
}

/// An entry that the workspace derived itself loses by it, a proposal most; no other does.
pub proof fn lemma_derived_entries_lose(path: Seq<char>)
    ensures
        ({
            let proposal = ".brunn/proposals/"@.is_prefix_of(path);
            let derived = ".brunn/derived/"@.is_prefix_of(path) || ".brunn/dreams/"@.is_prefix_of(
                path,
            );
            &&& proposal ==> derived_loss(path) == crate::score::TWO
            &&& !proposal && derived ==> derived_loss(path) == ONE
            &&& !proposal && !derived ==> derived_loss(path) == 0
        }),
{
}

/// What is lost because an entry is derived or superseded never raises a score; an entry
/// that is neither has the score of what it was found with, and at least the base of its
/// lane.
pub proof fn lemma_losses_never_raise(
    base: int,
    found: int,
    query: Seq<char>,
    row: FoundV,
    penalty: int,
)
    requires
        is_code(base) && !infinite(base),
        is_code(found) && !infinite(found),
        found >= 0,
        is_code(penalty) && !infinite(penalty),
        penalty >= 0,
    ensures
        derived_loss(row.path) == 0 && penalty == 0 ==> lane_score(base, found, query, row, penalty)
            >= base,
        derived_loss(row.path) == 0 ==> lane_score(base, found, query, row, penalty) <= lane_score(
            base,
            found,
            query,
            row,
            0,
        ),
{
    let excerpt = truncated(row.content, crate::lanes::LANE_EXCERPT_CHARS as int);
    let terms = bonus(query, row.path, row.title, row.heading, excerpt);
    lemma_bonus_is_bounded(query, row.path, row.title, row.heading, excerpt);
    lemma_sum_is_at_least(base, found);
    crate::score::lemma_nearest(crate::score::value(base) + crate::score::value(found));
    let a = plus(base, found);
    lemma_sum_is_at_least(a, terms);
    if !infinite(a) {
        crate::score::lemma_nearest(crate::score::value(a) + crate::score::value(terms));
    }
    let b = plus(a, terms);
    lemma_loss_is_no_gain(b, 0);
    lemma_loss_is_no_gain(b, penalty);
}

// ---------------------------------------------------------------------------
// Focused queries
// ---------------------------------------------------------------------------

/// Whether a query is that of two neighbouring terms.
pub open spec fn is_pair(text: Seq<char>, terms: Seq<(Seq<char>, bool)>) -> bool {
    exists|i: int|
        0 <= i < terms.len() - 1 && text == (#[trigger] terms[i]).0 + " "@ + terms[i + 1].0
}

/// A focused query is made of two neighbouring terms of the query, or is its only term;
/// there are at most four, and there is one wherever there is a term.
pub proof fn lemma_focused_queries_are_pairs(query: Seq<char>)
    ensures
        focused_queries(query).len() <= 4,
        query_terms(query).len() == 0 ==> focused_queries(query).len() == 0,
        query_terms(query).len() == 1 ==> focused_queries(query) == seq![query_terms(query)[0].0],
        query_terms(query).len() > 1 ==> focused_queries(query).len() == (if query_terms(
            query,
        ).len() < 5 {
            query_terms(query).len() - 1
        } else {
            4
        }),
        query_terms(query).len() > 1 ==> forall|k: int|
            0 <= k < focused_queries(query).len() ==> is_pair(
                #[trigger] focused_queries(query)[k],
                query_terms(query),
            ),
{
    broadcast use vstd::seq_lib::group_to_multiset_ensures;

    let all = query_terms(query);
    let terms = first_of(all, crate::lexical::MAX_PAIR_TERMS as int);
    let n = pair_count(terms);
    let ranks = Seq::new(n, |i: int| pair_rank(terms, i));
    let order = sorted(crate::lexical::focus(), ranks);
    lemma_sorted_permutes(crate::lexical::focus(), ranks);
    let pairs = ranked_pairs(query);
    assert(pairs.len() == n);
    let f = focused_queries(query);
    if all.len() > 1 {
        assert forall|k: int| 0 <= k < f.len() implies is_pair(#[trigger] f[k], all) by {
            assert(f[k] == pairs[k]);
            assert(order.contains(order[k]));
            assert(order.to_multiset().count(order[k]) > 0);
            assert(ranks.contains(order[k]));
            let i = choose|i: int| 0 <= i < ranks.len() && ranks[i] == order[k];
            assert(order[k].index == i);
            assert(terms[i] == all[i] && terms[i + 1] == all[i + 1]);
            assert(f[k] == pair_text(terms, i));
        }
    } else if all.len() == 1 {
        assert(f =~= seq![all[0].0]);
    }
}

/// A find raises the score of its entry only where it comes from a lane that did not find
/// it before; otherwise the better score stays.
pub proof fn lemma_new_lanes_raise_scores(a: CandidateV, b: CandidateV)
    ensures
        (forall|i: int| 0 <= i < b.lanes.len() ==> a.lanes.contains(#[trigger] b.lanes[i]))
            ==> united(a, b).score == greater(a.score, b.score),
        (exists|i: int| 0 <= i < b.lanes.len() && !a.lanes.contains(#[trigger] b.lanes[i]))
            ==> united(a, b).score == plus(
            greater(a.score, b.score),
            crate::candidate::LANE_BONUS as int,
        ),
{
}

/// A gap names the lane that failed and what kind of failure it was, and the semantic lane
/// its reason as well.
pub proof fn lemma_gaps_name_the_lane(lane: Seq<char>)
    ensures
        ({
            let v = lane_gap(lane);
            let other = lane != "semantic_disabled"@ && lane != "semantic_index_unavailable"@ && lane
                != "semantic_readiness_error"@ && lane != "semantic_deferred"@;
            &&& other ==> v.get("lane"@) == Some(JsonV::Text(lane)) && v.get("kind"@) == Some(
                JsonV::Text("retrieval_lane_failed"@),
            )
            &&& !other ==> v.get("lane"@) == Some(JsonV::Text("semantic"@))
            &&& lane == "semantic_disabled"@ ==> v.get("reason"@) == Some(
                JsonV::Text("policy_disabled"@),
            )
            &&& lane == "semantic_index_unavailable"@ ==> v.get("reason"@) == Some(
                JsonV::Text("index_unavailable"@),
            )
            &&& lane == "semantic_readiness_error"@ ==> v.get("reason"@) == Some(
                JsonV::Text("dependency_error"@),
            )
            &&& lane == "semantic_deferred"@ ==> v.get("reason"@) == Some(
                JsonV::Text("deadline_deferred"@),
            ) && v.get("kind"@) == Some(JsonV::Text("retrieval_lane_deferred"@))
            &&& lane == "semantic_disabled"@ || lane == "semantic_index_unavailable"@ || lane
                == "semantic_readiness_error"@ ==> v.get("kind"@) == Some(
                JsonV::Text("retrieval_lane_unavailable"@),
            )
        }),
{
    reveal_strlit("kind");
    reveal_strlit("lane");
    reveal_strlit("reason");
    reveal_strlit("message");
    assert("kind"@.len() == 4 && "lane"@.len() == 4 && "reason"@.len() == 6 && "message"@.len() == 7);
    assert("kind"@[0] != "lane"@[0]);
    reveal_strlit("semantic_disabled");
    reveal_strlit("semantic_index_unavailable");
    reveal_strlit("semantic_readiness_error");
    reveal_strlit("semantic_deferred");
    reveal_strlit("semantic");
    assert("semantic_disabled"@.len() == 17 && "semantic_index_unavailable"@.len() == 26 && "semantic_readiness_error"@.len() == 24 && "semantic_deferred"@.len() == 17 && "semantic"@.len() == 8);
    assert("semantic_disabled"@[10] != "semantic_deferred"@[10]);
}

} // verus!
