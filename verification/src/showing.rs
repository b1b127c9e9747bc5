//! Laws of what a search shows: candidates as they were found, cut only at the end and
//! only with notice, and quotes word for word.
use vstd::prelude::*;

#[allow(unused_imports)]
use crate::budget::{
    behind_note, cut_candidate, cut_sections, fit, least, left_of, with_text, Cut,
    SearchRepresentation, ShownV, MAX_EXCERPT_CHARS,
};
#[allow(unused_imports)]
use crate::candidate::{CandidateV, MatchV, SectionV};
#[allow(unused_imports)]
use crate::json::{integer, object, JsonV};
#[allow(unused_imports)]
use crate::outside::entry_ref_text;
#[allow(unused_imports)]
use crate::render::{
    candidate_head, demoted_json, document_of, evidence_items, evidence_json, evidence_steps,
    excerpt_of, further_sections, hash_text, is_written, lead_json, score_json, search_json,
    section_json, shown_json, step_text, time_json, with_heading, with_items, with_note,
    written_section, written_sections, DocumentV, EvidenceStep,
};
#[allow(unused_imports)]
use crate::search::{
    cut_candidates, no_results, plain_results, planned_results, result_json, with_plain,
    with_planned, written_candidates, written_shown, CompletedV, Results,
};
#[allow(unused_imports)]
use crate::seqs::{first_of, lemma_filter_contains};
#[allow(unused_imports)]
use crate::text::{occurs, truncated};
#[allow(unused_imports)]
use crate::verbatim::{
    bytes_of, holds_any, line_match, line_start, match_json, matching_lines, quoted_matches,
};

verus! {

// ---------------------------------------------------------------------------
// Cutting
// ---------------------------------------------------------------------------

/// Whether a text is the beginning of another.
pub open spec fn begins(front: Seq<char>, whole: Seq<char>) -> bool {
    front.len() <= whole.len() && front == whole.take(front.len() as int)
}

/// A text that is cut is its beginning, as long as allowed.
pub proof fn lemma_truncated_begins(s: Seq<char>, limit: int)
    requires
        limit >= 0,
    ensures
        begins(truncated(s, limit), s),
        truncated(s, limit).len() <= limit,
        s.len() > limit ==> truncated(s, limit).len() == limit,
        s.len() <= limit ==> truncated(s, limit) == s,
{
    assert(s.take(s.len() as int) =~= s);
}

proof fn lemma_cut_sections(s: Seq<SectionV>, remaining: int)
    requires
        remaining >= 0,
    ensures
        ({
            let cut = cut_sections(s, remaining);
            &&& 0 <= cut.remaining <= remaining
            &&& cut.value.len() == s.len()
            &&& forall|i: int|
                0 <= i < s.len() ==> {
                    &&& begins((#[trigger] cut.value[i]).excerpt, s[i].excerpt)
                    &&& cut.value[i].heading == s[i].heading
                    &&& cut.value[i].score == s[i].score
                }
            &&& !cut.truncated ==> cut.value == s
        }),
    decreases s.len(),
{
    if s.len() > 0 {
        let front = cut_sections(s.drop_last(), remaining);
        lemma_cut_sections(s.drop_last(), remaining);
        lemma_truncated_begins(s.last().excerpt, least(front.remaining, MAX_EXCERPT_CHARS as int));
        let cut = cut_sections(s, remaining);
        assert forall|i: int| 0 <= i < s.len() implies {
            &&& begins((#[trigger] cut.value[i]).excerpt, s[i].excerpt)
            &&& cut.value[i].heading == s[i].heading
            &&& cut.value[i].score == s[i].score
        } by {
            if i < s.len() - 1 {
                assert(cut.value[i] == front.value[i]);
                assert(s.drop_last()[i] == s[i]);
            }
        }
        if !cut.truncated {
            assert(s.last().excerpt =~= cut.value.last().excerpt);
            assert(cut.value =~= s.drop_last().push(s.last()));
            assert(s.drop_last().push(s.last()) =~= s);
        }
    }
}

/// A candidate that is cut to a budget stays what it is: only the ends of its excerpts
/// are cut, and sections left without text are dropped. Where no cut is told of, all of
/// its excerpts are shown whole.
pub proof fn lemma_cut_keeps_beginnings(c: CandidateV, remaining: int)
    requires
        remaining >= 0,
    ensures
        ({
            let cut = cut_candidate(c, remaining);
            let v = cut.value;
            &&& v == (CandidateV { excerpt: v.excerpt, sections: v.sections, ..c })
            &&& begins(v.excerpt, c.excerpt)
            &&& !cut.truncated ==> v.excerpt == c.excerpt
            &&& c.sections.len() == 0 ==> v.sections.len() == 0
            &&& c.sections.len() > 0 ==> v.sections.len() > 0 && v.sections[0].heading
                == c.sections[0].heading
            &&& forall|i: int|
                1 <= i < v.sections.len() ==> comes_from(#[trigger] v.sections[i], c.sections)
            &&& !cut.truncated && c.sections.len() > 0 ==> v.sections.skip(1) == c.sections.skip(
                1,
            ).filter(|x: SectionV| x.excerpt.len() > 0)
        }),
{
    let start = behind_note(c.superseded_by, remaining);
    lemma_truncated_begins(c.excerpt, least(start, MAX_EXCERPT_CHARS as int));
    let cut = cut_candidate(c, remaining);
    let v = cut.value;
    if !cut.truncated {
        assert(v.excerpt =~= c.excerpt);
    }
    if c.sections.len() > 0 {
        let further = c.sections.skip(1);
        let rest = cut_sections(further, start - v.excerpt.len());
        lemma_cut_sections(further, start - v.excerpt.len());
        let p = |x: SectionV| x.excerpt.len() > 0;
        let kept = rest.value.filter(p);
        assert(v.sections.skip(1) =~= kept);
        assert forall|i: int| 1 <= i < v.sections.len() implies comes_from(
            #[trigger] v.sections[i],
            c.sections,
        ) by {
            assert(v.sections[i] == kept[i - 1]);
            assert(kept.contains(kept[i - 1]));
            lemma_filter_contains(rest.value, p, kept[i - 1]);
            let k = choose|k: int| 0 <= k < rest.value.len() && rest.value[k] == kept[i - 1];
            assert(further[k] == c.sections[k + 1]);
            assert(begins(rest.value[k].excerpt, further[k].excerpt));
        }
    }
}

/// Whether a section is one of a list, cut at its end at most.
pub open spec fn comes_from(section: SectionV, list: Seq<SectionV>) -> bool {
    exists|k: int|
        0 <= k < list.len() && (#[trigger] list[k]).heading == section.heading && begins(
            section.excerpt,
            list[k].excerpt,
        )
}

// ---------------------------------------------------------------------------
// Quotes
// ---------------------------------------------------------------------------

/// Whether a match quotes a line of a text.
pub open spec fn quotes_line(
    m: MatchV,
    lines: Seq<Seq<char>>,
    terms: Seq<Seq<char>>,
    version: int,
    sha256: Seq<char>,
) -> bool {
    &&& 1 <= m.line_no <= lines.len()
    &&& exists|t: int| 0 <= t < terms.len() && occurs(lines[m.line_no - 1], #[trigger] terms[t])
    &&& begins(m.text, lines[m.line_no - 1])
    &&& m.version == version
    &&& m.content_hash == "sha256:"@ + sha256
}

/// The matches of a text are its first lines that hold a term, in their order and none
/// passed over, each with the version and the digest of the text.
pub proof fn lemma_matches_are_the_first_lines(
    lines: Seq<Seq<char>>,
    terms: Seq<Seq<char>>,
    version: int,
    sha256: Seq<char>,
    i: int,
    limit: int,
)
    requires
        0 <= i <= lines.len(),
        limit >= 0,
    ensures
        ({
            let ms = matching_lines(lines, terms, version, sha256, i, limit);
            &&& ms.len() <= limit
            &&& forall|k: int|
                0 <= k < ms.len() ==> quotes_line(#[trigger] ms[k], lines, terms, version, sha256)
                    && ms[k].line_no > i
            &&& forall|k: int, l: int|
                0 <= k < l < ms.len() ==> (#[trigger] ms[k]).line_no < (#[trigger] ms[l]).line_no
            &&& forall|n: int|
                i <= n < lines.len() && holds_any(#[trigger] lines[n], terms) ==> ms.len() == limit
                    || is_quoted(ms, n + 1)
            &&& forall|n: int|
                i <= n < lines.len() && holds_any(#[trigger] lines[n], terms) && !is_quoted(
                    ms,
                    n + 1,
                ) ==> forall|k: int| 0 <= k < ms.len() ==> (#[trigger] ms[k]).line_no <= n
        }),
    decreases lines.len() - i,
{
    let ms = matching_lines(lines, terms, version, sha256, i, limit);
    if i < lines.len() && limit > 0 {
        if holds_any(lines[i], terms) {
            lemma_matches_are_the_first_lines(lines, terms, version, sha256, i + 1, limit - 1);
            let rest = matching_lines(lines, terms, version, sha256, i + 1, limit - 1);
            let m = line_match(lines, i, version, sha256);
            lemma_truncated_begins(
                lines[i],
                crate::verbatim::MAX_VERBATIM_LINE_CHARS as int,
            );
            assert(ms == seq![m] + rest);
            assert forall|k: int| 0 <= k < ms.len() implies quotes_line(
                #[trigger] ms[k],
                lines,
                terms,
                version,
                sha256,
            ) && ms[k].line_no > i by {
                if k > 0 {
                    assert(ms[k] == rest[k - 1]);
                }
            }
            assert forall|k: int, l: int| 0 <= k < l < ms.len() implies (#[trigger] ms[k]).line_no
                < (#[trigger] ms[l]).line_no by {
                assert(ms[l] == rest[l - 1]);
                if k > 0 {
                    assert(ms[k] == rest[k - 1]);
                }
            }
            assert(ms[0].line_no == i + 1);
            assert(is_quoted(ms, i + 1));
            assert forall|n: int| i <= n < lines.len() && holds_any(
                #[trigger] lines[n],
                terms,
            ) implies ms.len() == limit || is_quoted(ms, n + 1) by {
                if n > i && is_quoted(rest, n + 1) {
                    let k = choose|k: int|
                        0 <= k < rest.len() && (#[trigger] rest[k]).line_no == n + 1;
                    assert(ms[k + 1].line_no == n + 1);
                }
            }
            assert forall|n: int| i <= n < lines.len() && holds_any(#[trigger] lines[n], terms)
                && !is_quoted(ms, n + 1) implies forall|k: int|
                0 <= k < ms.len() ==> (#[trigger] ms[k]).line_no <= n by {
                if is_quoted(rest, n + 1) {
                    let k = choose|k: int|
                        0 <= k < rest.len() && (#[trigger] rest[k]).line_no == n + 1;
                    assert(ms[k + 1].line_no == n + 1);
                }
                assert forall|k: int| 0 <= k < ms.len() implies (#[trigger] ms[k]).line_no
                    <= n by {
                    if k > 0 {
                        assert(ms[k] == rest[k - 1]);
                    }
                }
            }
        } else {
            lemma_matches_are_the_first_lines(lines, terms, version, sha256, i + 1, limit);
        }
    }
}

/// Whether a line is among the matches.
pub open spec fn is_quoted(ms: Seq<MatchV>, line_no: int) -> bool {
    exists|k: int| 0 <= k < ms.len() && (#[trigger] ms[k]).line_no == line_no
}

proof fn lemma_match_members(m: MatchV, text: Seq<char>)
    ensures
        match_json(m, text).get("line_no"@) == Some(integer(m.line_no)),
        match_json(m, text).get("byte_start"@) == Some(integer(m.byte_start)),
        match_json(m, text).get("text"@) == Some(JsonV::Text(text)),
        match_json(m, text).get("version"@) == Some(integer(m.version)),
        match_json(m, text).get("content_hash"@) == Some(JsonV::Text(m.content_hash)),
        match_json(m, text).get("truncated"@) is Some <==> m.truncated || bytes_of(text)
            < bytes_of(m.text),
{
    reveal_strlit("line_no");
    reveal_strlit("byte_start");
    reveal_strlit("byte_end");
    reveal_strlit("text");
    reveal_strlit("version");
    reveal_strlit("content_hash");
    reveal_strlit("truncated");
    assert("line_no"@.len() == 7 && "byte_start"@.len() == 10 && "byte_end"@.len() == 8 && "text"@.len() == 4 && "version"@.len() == 7 && "content_hash"@.len() == 12 && "truncated"@.len() == 9);
    assert("line_no"@[0] != "version"@[0]);
}

/// Whether a quote tells a match: where it stands, in which version, and the beginning
/// of its text, with a note where that is not all of the line.
pub open spec fn tells_match(j: JsonV, m: MatchV) -> bool {
    &&& j.get("line_no"@) == Some(integer(m.line_no))
    &&& j.get("byte_start"@) == Some(integer(m.byte_start))
    &&& j.get("version"@) == Some(integer(m.version))
    &&& j.get("content_hash"@) == Some(JsonV::Text(m.content_hash))
    &&& j.get_text("text"@) is Some
    &&& begins(j.get_text("text"@)->0, m.text)
    &&& j.get("truncated"@) is Some <==> m.truncated || bytes_of(j.get_text("text"@)->0)
        < bytes_of(m.text)
}

/// Quotes are the matches in their order, from the first on. A match is left out only
/// where the characters for quotes are used up by those before it.
pub proof fn lemma_quotes_are_the_matches(ms: Seq<MatchV>, i: int, remaining: int)
    requires
        0 <= i <= ms.len(),
        remaining >= 0,
        forall|k: int| 0 <= k < ms.len() ==> (#[trigger] ms[k]).text.len() > 0,
    ensures
        ({
            let q = quoted_matches(ms, i, remaining);
            &&& q.0.len() <= ms.len() - i
            &&& forall|k: int| 0 <= k < q.0.len() ==> tells_match(#[trigger] q.0[k], ms[i + k])
            &&& q.0.len() < ms.len() - i ==> q.1 == 0
        }),
    decreases ms.len() - i,
{
    if i < ms.len() && remaining > 0 {
        let n = least(remaining, crate::verbatim::MAX_VERBATIM_LINE_CHARS as int);
        let text = truncated(ms[i].text, n);
        lemma_truncated_begins(ms[i].text, n);
        lemma_match_members(ms[i], text);
        let q = quoted_matches(ms, i, remaining);
        let rest = quoted_matches(ms, i + 1, remaining - text.len());
        assert(ms[i].text.len() > 0);
        lemma_quotes_are_the_matches(ms, i + 1, remaining - text.len());
        assert(q.0 == seq![match_json(ms[i], text)] + rest.0);
        assert forall|k: int| 0 <= k < q.0.len() implies tells_match(
            #[trigger] q.0[k],
            ms[i + k],
        ) by {
            if k > 0 {
                assert(q.0[k] == rest.0[k - 1]);
                assert(tells_match(rest.0[k - 1], ms[i + 1 + (k - 1)]));
            }
        }
    }
}

// ---------------------------------------------------------------------------
// Candidates
// ---------------------------------------------------------------------------

/// Whether a value tells which entry a candidate is: reference, path, title, version,
/// the time of its last change, its heading if it has one, and what supersedes it.
pub open spec fn tells_entry(j: JsonV, c: CandidateV) -> bool {
    &&& j.get("reference"@) == Some(JsonV::Text(entry_ref_text(c.entry_id)))
    &&& j.get("path"@) == Some(JsonV::Text(c.path))
    &&& j.get("title"@) == Some(JsonV::Text(c.title))
    &&& j.get("version"@) == Some(integer(c.version))
    &&& j.get("heading"@) == if c.heading.len() > 0 {
        Some(JsonV::Text(c.heading))
    } else {
        None
    }
    &&& j.get("superseded_by"@) == match c.superseded_by {
        Some(note) => Some(note.value),
        None => None,
    }
}

/// What is told under a key where there is something to tell.
pub open spec fn list_of(items: Seq<JsonV>) -> Option<JsonV> {
    if items.len() == 0 {
        None
    } else {
        Some(JsonV::Array(items))
    }
}

/// Whether a value tells a section.
pub open spec fn tells_section(j: JsonV, s: SectionV) -> bool {
    &&& j.get("excerpt"@) == Some(JsonV::Text(s.excerpt))
    &&& j.get("heading"@) == if s.heading.len() > 0 {
        Some(JsonV::Text(s.heading))
    } else {
        None
    }
}

proof fn lemma_section_members(s: SectionV)
    ensures
        tells_section(section_json(s), s),
{
    reveal_strlit("excerpt");
    reveal_strlit("heading");
    assert("excerpt"@[0] != "heading"@[0]);
}

/// A candidate in a search is told as it was found: which entry it is, its excerpt, its
/// further sections one by one, its quotes and what supersedes it.
pub proof fn lemma_search_tells_the_candidate(c: CandidateV, quotes: Seq<JsonV>)
    ensures
        ({
            let j = search_json(c, quotes);
            &&& tells_entry(j, c)
            &&& j.get("updated_at"@) == Some(time_json(c.updated_at))
            &&& j.get("excerpt"@) == Some(JsonV::Text(c.excerpt))
            &&& j.get("verbatim_matches"@) == list_of(quotes)
            &&& c.sections.len() <= 1 ==> j.get("additional_sections"@) is None
            &&& c.sections.len() > 1 ==> {
                &&& j.get("additional_sections"@) is Some
                &&& j.get("additional_sections"@)->0 is Array
                &&& j.get("additional_sections"@)->0->Array_0.len() == c.sections.len() - 1
                &&& forall|i: int|
                    1 <= i < c.sections.len() ==> tells_section(
                        #[trigger] j.get("additional_sections"@)->0->Array_0[i - 1],
                        c.sections[i],
                    )
            }
        }),
{
    reveal_strlit("reference");
    reveal_strlit("path");
    reveal_strlit("title");
    reveal_strlit("version");
    reveal_strlit("updated_at");
    reveal_strlit("heading");
    reveal_strlit("excerpt");
    reveal_strlit("additional_sections");
    reveal_strlit("verbatim_matches");
    reveal_strlit("superseded_by");
    reveal_strlit("representation");
    reveal_strlit("content_hash");
    reveal_strlit("text");
    reveal_strlit("score");
    assert("reference"@.len() == 9 && "path"@.len() == 4 && "title"@.len() == 5 && "version"@.len() == 7 && "updated_at"@.len() == 10 && "heading"@.len() == 7 && "excerpt"@.len() == 7 && "additional_sections"@.len() == 19 && "verbatim_matches"@.len() == 16 && "superseded_by"@.len() == 13 && "representation"@.len() == 14 && "content_hash"@.len() == 12 && "text"@.len() == 4 && "score"@.len() == 5);
    assert("version"@[0] != "heading"@[0]);
    assert("version"@[0] != "excerpt"@[0]);
    assert("heading"@[0] != "excerpt"@[0]);
    assert("path"@[0] != "text"@[0]);
    assert("title"@[0] != "score"@[0]);
    let further = further_sections(c.sections);
    if c.sections.len() > 1 {
        assert forall|i: int| 1 <= i < c.sections.len() implies tells_section(
            #[trigger] further[i - 1],
            c.sections[i],
        ) by {
            assert(c.sections.skip(1)[i - 1] == c.sections[i]);
            lemma_section_members(c.sections[i]);
        }
    }
}

/// A candidate in a planned search says in which form it is shown, and shows in that
/// form what it holds: the whole source with its digest, an excerpt, or a lead with the
/// digest and the score.
pub proof fn lemma_shown_tells_the_candidate(v: ShownV, quotes: Seq<JsonV>)
    ensures
        ({
            let j = shown_json(v, quotes);
            let c = v.candidate;
            &&& tells_entry(j, c)
            &&& j.get("updated_at"@) == Some(time_json(c.updated_at))
            &&& j.get("verbatim_matches"@) == list_of(quotes)
            &&& match v.representation {
                SearchRepresentation::CompleteSource => {
                    &&& j.get("representation"@) == Some(JsonV::Text("complete_source"@))
                    &&& j.get("content_hash"@) == Some(JsonV::Text("sha256:"@ + c.content_sha256))
                    &&& j.get("excerpt"@) is None
                    &&& v.complete_text is Some ==> j.get("text"@) == Some(
                        JsonV::Text(v.complete_text->0),
                    )
                },
                SearchRepresentation::Excerpt => {
                    &&& j.get("representation"@) == Some(JsonV::Text("excerpt"@))
                    &&& j.get("excerpt"@) == Some(JsonV::Text(c.excerpt))
                    &&& j.get("text"@) is None
                },
                SearchRepresentation::PointerLead => {
                    &&& j.get("representation"@) == Some(JsonV::Text("pointer_lead"@))
                    &&& j.get("content_hash"@) == Some(JsonV::Text("sha256:"@ + c.content_sha256))
                    &&& j.get("score"@) == Some(score_json(c.score))
                    &&& j.get("text"@) is None && j.get("excerpt"@) is None
                },
            }
        }),
{
    reveal_strlit("reference");
    reveal_strlit("path");
    reveal_strlit("title");
    reveal_strlit("version");
    reveal_strlit("updated_at");
    reveal_strlit("heading");
    reveal_strlit("excerpt");
    reveal_strlit("additional_sections");
    reveal_strlit("verbatim_matches");
    reveal_strlit("superseded_by");
    reveal_strlit("representation");
    reveal_strlit("content_hash");
    reveal_strlit("text");
    reveal_strlit("score");
    assert("reference"@.len() == 9 && "path"@.len() == 4 && "title"@.len() == 5 && "version"@.len() == 7 && "updated_at"@.len() == 10 && "heading"@.len() == 7 && "excerpt"@.len() == 7 && "additional_sections"@.len() == 19 && "verbatim_matches"@.len() == 16 && "superseded_by"@.len() == 13 && "representation"@.len() == 14 && "content_hash"@.len() == 12 && "text"@.len() == 4 && "score"@.len() == 5);
    assert("version"@[0] != "heading"@[0]);
    assert("version"@[0] != "excerpt"@[0]);
    assert("heading"@[0] != "excerpt"@[0]);
    assert("path"@[0] != "text"@[0]);
    assert("title"@[0] != "score"@[0]);
}

/// A lead tells which entry it leads to, and evidence tells the text that is shown of
/// it and whether that is the whole source.
pub proof fn lemma_leads_and_evidence_tell_the_entry(
    step: EvidenceStep,
    c: CandidateV,
    text: Seq<char>,
)
    ensures
        tells_entry(lead_json(c), c),
        lead_json(c).get("text"@) is None,
        tells_entry(evidence_json(step, c, text), c),
        evidence_json(step, c, text).get("text"@) == Some(JsonV::Text(text)),
        evidence_json(step, c, text).get("representation"@) == Some(
            JsonV::Text(
                if step.complete {
                    "complete_source"@
                } else {
                    "source_excerpt"@
                },
            ),
        ),
{
    reveal_strlit("reference");
    reveal_strlit("path");
    reveal_strlit("title");
    reveal_strlit("version");
    reveal_strlit("updated_at");
    reveal_strlit("heading");
    reveal_strlit("excerpt");
    reveal_strlit("additional_sections");
    reveal_strlit("verbatim_matches");
    reveal_strlit("superseded_by");
    reveal_strlit("representation");
    reveal_strlit("content_hash");
    reveal_strlit("text");
    reveal_strlit("score");
    assert("reference"@.len() == 9 && "path"@.len() == 4 && "title"@.len() == 5 && "version"@.len() == 7 && "updated_at"@.len() == 10 && "heading"@.len() == 7 && "excerpt"@.len() == 7 && "additional_sections"@.len() == 19 && "verbatim_matches"@.len() == 16 && "superseded_by"@.len() == 13 && "representation"@.len() == 14 && "content_hash"@.len() == 12 && "text"@.len() == 4 && "score"@.len() == 5);
    assert("version"@[0] != "heading"@[0]);
    assert("version"@[0] != "excerpt"@[0]);
    assert("heading"@[0] != "excerpt"@[0]);
    assert("path"@[0] != "text"@[0]);
    assert("title"@[0] != "score"@[0]);
}

// ---------------------------------------------------------------------------
// Results
// ---------------------------------------------------------------------------

proof fn lemma_cut_all(cs: Seq<CandidateV>, chars: int)
    requires
        chars >= 0,
    ensures
        ({
            let cut = cut_candidates(cs, chars);
            &&& 0 <= cut.remaining <= chars
            &&& cut.value.len() == cs.len()
            &&& forall|k: int|
                0 <= k < cs.len() ==> is_cut_of(#[trigger] cut.value[k], cs[k])
            &&& !cut.truncated ==> forall|k: int|
                0 <= k < cs.len() ==> (#[trigger] cut.value[k]).excerpt == cs[k].excerpt
        }),
    decreases cs.len(),
{
    if cs.len() > 0 {
        let front = cut_candidates(cs.drop_last(), chars);
        lemma_cut_all(cs.drop_last(), chars);
        lemma_cut_keeps_beginnings(cs.last(), front.remaining);
        crate::budget::lemma_cut_candidate_within_budget(cs.last(), front.remaining);
        let cut = cut_candidates(cs, chars);
        assert forall|k: int| 0 <= k < cs.len() implies is_cut_of(
            #[trigger] cut.value[k],
            cs[k],
        ) by {
            if k < cs.len() - 1 {
                assert(cut.value[k] == front.value[k]);
                assert(cs.drop_last()[k] == cs[k]);
            }
        }
        if !cut.truncated {
            assert forall|k: int| 0 <= k < cs.len() implies (#[trigger] cut.value[k]).excerpt
                == cs[k].excerpt by {
                if k < cs.len() - 1 {
                    assert(cut.value[k] == front.value[k]);
                    assert(cs.drop_last()[k] == cs[k]);
                }
            }
        }
    }
}

/// Whether a candidate is another one, cut at the ends of its excerpts at most.
pub open spec fn is_cut_of(v: CandidateV, c: CandidateV) -> bool {
    &&& v == (CandidateV { excerpt: v.excerpt, sections: v.sections, ..c })
    &&& begins(v.excerpt, c.excerpt)
}

proof fn lemma_written(cs: Seq<CandidateV>, quotes: int)
    ensures
        written_candidates(cs, quotes).0.len() == cs.len(),
        forall|k: int|
            0 <= k < cs.len() ==> tells_entry(
                #[trigger] written_candidates(cs, quotes).0[k],
                cs[k],
            ) && written_candidates(cs, quotes).0[k].get("excerpt"@) == Some(
                JsonV::Text(cs[k].excerpt),
            ),
    decreases cs.len(),
{
    if cs.len() > 0 {
        lemma_written(cs.drop_last(), quotes);
        let front = written_candidates(cs.drop_last(), quotes);
        let q = quoted_matches(cs.last().verbatim_matches, 0, front.1);
        lemma_search_tells_the_candidate(cs.last(), q.0);
        let all = written_candidates(cs, quotes).0;
        assert forall|k: int| 0 <= k < cs.len() implies tells_entry(#[trigger] all[k], cs[k])
            && all[k].get("excerpt"@) == Some(JsonV::Text(cs[k].excerpt)) by {
            if k < cs.len() - 1 {
                assert(all[k] == front.0[k]);
                assert(cs.drop_last()[k] == cs[k]);
            }
        }
    }
}

proof fn lemma_result_members(c: CompletedV, rendered: Seq<JsonV>)
    ensures
        ({
            let j = result_json(c, rendered);
            &&& j.get("id"@) == Some(JsonV::Text(c.id))
            &&& j.get("candidates"@) == Some(JsonV::Array(rendered))
            &&& j.get("goal"@) == match c.goal {
                Some(goal) => Some(JsonV::Text(goal)),
                None => None,
            }
            &&& j.get("query_status"@) == if c.failures.len() > 0 {
                Some(JsonV::Text("partial"@))
            } else {
                None
            }
            &&& j.get("lane_failures"@) is Some <==> c.failures.len() > 0
        }),
{
    reveal_strlit("id");
    reveal_strlit("candidates");
    reveal_strlit("goal");
    reveal_strlit("query_status");
    reveal_strlit("lane_failures");
    assert("id"@.len() == 2 && "candidates"@.len() == 10 && "goal"@.len() == 4 && "query_status"@.len() == 12 && "lane_failures"@.len() == 13);
}

/// Whether a result answers a query without a plan: under the id of the query, its first
/// candidates in their order, each with the beginning of its excerpt.
pub open spec fn answers_query(j: JsonV, c: CompletedV, whole: bool) -> bool {
    &&& j.get("id"@) == Some(JsonV::Text(c.id))
    &&& j.get("goal"@) == match c.goal {
        Some(goal) => Some(JsonV::Text(goal)),
        None => None,
    }
    &&& j.get("query_status"@) is Some <==> c.failures.len() > 0
    &&& j.get("candidates"@) is Some
    &&& j.get("candidates"@)->0 is Array
    &&& j.get("candidates"@)->0->Array_0.len() <= c.candidates.len()
    &&& whole ==> j.get("candidates"@)->0->Array_0.len() == c.candidates.len()
    &&& forall|k: int|
        0 <= k < j.get("candidates"@)->0->Array_0.len() ==> tells_find(
            #[trigger] j.get("candidates"@)->0->Array_0[k],
            c.candidates[k],
            whole,
        )
}

/// Whether a value tells a candidate, with its excerpt or the beginning of it.
pub open spec fn tells_find(j: JsonV, c: CandidateV, whole: bool) -> bool {
    &&& tells_entry(j, c)
    &&& j.get_text("excerpt"@) is Some
    &&& begins(j.get_text("excerpt"@)->0, c.excerpt)
    &&& whole ==> j.get_text("excerpt"@)->0 == c.excerpt
}

/// A search without a plan answers every query in its turn, under its id, with its first
/// candidates in their order. Where the response is not marked as cut, every candidate
/// of every query is there with its whole excerpt.
pub proof fn lemma_every_query_is_answered(cs: Seq<CompletedV>)
    ensures
        ({
            let r = plain_results(cs);
            &&& r.results.len() == cs.len()
            &&& r.candidates_left >= 0 && r.chars_left >= 0
            &&& forall|i: int|
                0 <= i < cs.len() ==> answers_query(#[trigger] r.results[i], cs[i], !r.truncated)
        }),
    decreases cs.len(),
{
    if cs.len() > 0 {
        lemma_every_query_is_answered(cs.drop_last());
        let s = plain_results(cs.drop_last());
        let c = cs.last();
        let kept = first_of(c.candidates, s.candidates_left);
        let cut = cut_candidates(kept, s.chars_left);
        let written = written_candidates(cut.value, s.quotes_left);
        lemma_cut_all(kept, s.chars_left);
        lemma_written(cut.value, s.quotes_left);
        lemma_result_members(c, written.0);
        let r = plain_results(cs);
        let j = result_json(c, written.0);
        assert(r.results.last() == j);
        assert(answers_query(j, c, !r.truncated)) by {
            assert forall|k: int| 0 <= k < written.0.len() implies tells_find(
                #[trigger] written.0[k],
                c.candidates[k],
                !r.truncated,
            ) by {
                assert(kept[k] == c.candidates[k]);
                assert(is_cut_of(cut.value[k], kept[k]));
                assert(tells_entry(written.0[k], cut.value[k]));
            }
        }
        assert forall|i: int| 0 <= i < cs.len() implies answers_query(
            #[trigger] r.results[i],
            cs[i],
            !r.truncated,
        ) by {
            if i < cs.len() - 1 {
                assert(r.results[i] == s.results[i]);
                assert(cs.drop_last()[i] == cs[i]);
                assert(answers_query(s.results[i], cs[i], !s.truncated));
                if !r.truncated {
                    assert(!s.truncated);
                } else {
                    let arr = s.results[i].get("candidates"@)->0->Array_0;
                    assert forall|k: int| 0 <= k < arr.len() implies tells_find(
                        #[trigger] arr[k],
                        cs[i].candidates[k],
                        false,
                    ) by {
                        assert(tells_find(arr[k], cs[i].candidates[k], !s.truncated));
                    }
                }
            }
        }
    }
}

proof fn lemma_written_shown(v: Seq<ShownV>, quotes: int)
    ensures
        written_shown(v, quotes).0.len() == v.len(),
        forall|k: int|
            0 <= k < v.len() ==> tells_shown(#[trigger] written_shown(v, quotes).0[k], v[k]),
    decreases v.len(),
{
    if v.len() > 0 {
        lemma_written_shown(v.drop_last(), quotes);
        let front = written_shown(v.drop_last(), quotes);
        let q = quoted_matches(v.last().candidate.verbatim_matches, 0, front.1);
        lemma_shown_tells_the_candidate(v.last(), q.0);
        let all = written_shown(v, quotes).0;
        assert forall|k: int| 0 <= k < v.len() implies tells_shown(#[trigger] all[k], v[k]) by {
            if k < v.len() - 1 {
                assert(all[k] == front.0[k]);
                assert(v.drop_last()[k] == v[k]);
            }
        }
    }
}

/// Whether a value tells a planned candidate in its form.
pub open spec fn tells_shown(j: JsonV, v: ShownV) -> bool {
    &&& tells_entry(j, v.candidate)
    &&& match v.representation {
        SearchRepresentation::CompleteSource => v.complete_text is Some ==> j.get("text"@) == Some(
            JsonV::Text(v.complete_text->0),
        ),
        SearchRepresentation::Excerpt => j.get("excerpt"@) == Some(
            JsonV::Text(v.candidate.excerpt),
        ),
        SearchRepresentation::PointerLead => j.get("text"@) is None && j.get("excerpt"@) is None,
    }
}

/// Whether a result shows what was planned for a query.
pub open spec fn shows_plan(j: JsonV, c: CompletedV, plan: Seq<ShownV>) -> bool {
    &&& j.get("id"@) == Some(JsonV::Text(c.id))
    &&& j.get("candidates"@) is Some
    &&& j.get("candidates"@)->0 is Array
    &&& j.get("candidates"@)->0->Array_0.len() == plan.len()
    &&& forall|k: int|
        0 <= k < plan.len() ==> tells_shown(
            #[trigger] j.get("candidates"@)->0->Array_0[k],
            plan[k],
        )
}

/// A planned search shows for every query, in its turn and under its id, every planned
/// candidate in its order and its form.
pub proof fn lemma_plans_are_shown(cs: Seq<CompletedV>, shown: Seq<Seq<ShownV>>, truncated: bool)
    requires
        cs.len() <= shown.len(),
    ensures
        ({
            let r = planned_results(cs, shown, truncated);
            &&& r.results.len() == cs.len()
            &&& r.truncated == truncated
            &&& forall|i: int|
                0 <= i < cs.len() ==> shows_plan(#[trigger] r.results[i], cs[i], shown[i])
        }),
    decreases cs.len(),
{
    if cs.len() > 0 {
        lemma_plans_are_shown(cs.drop_last(), shown, truncated);
        let s = planned_results(cs.drop_last(), shown, truncated);
        let c = cs.last();
        let plan = shown[cs.len() - 1];
        let written = written_shown(plan, s.quotes_left);
        lemma_written_shown(plan, s.quotes_left);
        lemma_result_members(c, written.0);
        let r = planned_results(cs, shown, truncated);
        assert(shows_plan(r.results.last(), c, plan));
        assert forall|i: int| 0 <= i < cs.len() implies shows_plan(
            #[trigger] r.results[i],
            cs[i],
            shown[i],
        ) by {
            if i < cs.len() - 1 {
                assert(r.results[i] == s.results[i]);
                assert(cs.drop_last()[i] == cs[i]);
            }
        }
    }
}

}
