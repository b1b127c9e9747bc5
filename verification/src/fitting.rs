//! Laws of shape and measure: how much is read, what is left of a text between its edges,
//! which sections are written, and what counts as found.
use vstd::prelude::*;

#[allow(unused_imports)]
use crate::budget::{
    candidate_chars, desired_chars, fit, grant, later_text, SearchRepresentation, ShownV,
};
#[allow(unused_imports)]
use crate::candidate::{option_view, CandidateV, SectionV};
#[allow(unused_imports)]
use crate::finding::{is_quoted_part, lemma_quotes_are_what_is_quoted};
#[allow(unused_imports)]
use crate::json::{integer, JsonV};
#[allow(unused_imports)]
use crate::lexical::{
    bare_clues, blanked, finds, named_paths, query_parts, quoted, reads_as_path, search_letters,
    search_words,
};
#[allow(unused_imports)]
use crate::paths::link_refusal;
#[allow(unused_imports)]
use crate::read::{
    lookup_steps, read_chars, read_limit, read_refusal, room, view_name, EntryRow,
};
#[allow(unused_imports)]
use crate::render::{
    demoted_json, excerpt_of, excerpt_texts, is_written, section_json, written_section,
    written_sections,
};
#[allow(unused_imports)]
use crate::requests::ReadItem;
#[allow(unused_imports)]
use crate::seqs::{lemma_add_contains, lemma_filter_contains};
#[allow(unused_imports)]
use crate::text::{
    has_any, joined, occurs, split, trim_back, trim_class, trim_front, truncated, words, CharClass,
};
#[allow(unused_imports)]
use crate::verbatim::lines_of;

verus! {

// ---------------------------------------------------------------------------
// Reads
// ---------------------------------------------------------------------------

/// A read returns as many characters as were asked for, from one on, or 256,000 where none
/// were, but no more than the entry allows or there is room for.
pub proof fn lemma_how_much_is_read(item: ReadItem, limit: int, left: int)
    requires
        1 <= limit,
        0 <= left,
    ensures
        0 <= read_chars(item, limit, left) <= left,
        item.max_chars is None ==> read_chars(item, limit, left) == (if 256_000 < left {
            256_000
        } else {
            left
        }),
        item.max_chars matches Some(n) ==> {
            &&& 1 <= n <= limit && n <= left ==> read_chars(item, limit, left) == n
            &&& n == 0 && left >= 1 ==> read_chars(item, limit, left) == 1
            &&& n > limit && limit <= left ==> read_chars(item, limit, left) == limit
            &&& n > left && limit > left ==> read_chars(item, limit, left) == left
        },
{
}

/// An entry is read up to four mebibytes, and up to twelve exactly where it is a
/// conversation of no more than that, read on its own and in full.
pub proof fn lemma_conversations_are_read_on_their_own(
    count: int,
    item: ReadItem,
    entry: EntryRow,
    conversation: bool,
)
    ensures
        read_limit(count, item, entry, conversation) == 12 * 1024 * 1024 <==> {
            &&& count == 1
            &&& conversation
            &&& item.view is None || item.view->0@ == "full"@
            &&& entry.kind@ == "markdown"@ && entry.media_type@ == "text/markdown"@
            &&& 0 <= entry.size_bytes <= 12 * 1024 * 1024
            &&& entry.content is Some
        },
        read_limit(count, item, entry, conversation) == 12 * 1024 * 1024 || read_limit(
            count,
            item,
            entry,
            conversation,
        ) == 4 * 1024 * 1024,
        room(1, read_limit(1, item, entry, conversation), 0) == read_limit(
            1,
            item,
            entry,
            conversation,
        ),
        count > 1 ==> forall|limit: int, left: int| #[trigger] room(count, limit, left) == left,
{
}

/// A read is carried out exactly where it names an entry, by a path or a reference, in a
/// version counted from one where it names one, or by a link and nothing else.
pub proof fn lemma_reads_that_are_carried_out(item: ReadItem)
    ensures
        item.link_target is None ==> (read_refusal(item) is None <==> (item.version matches Some(v)
            ==> v >= 1) && lookup_steps(option_view(item.path), option_view(item.reference)).len()
            > 0),
        item.link_target matches Some(target) ==> (read_refusal(item) is None <==> item.path is None
            && item.reference is None && item.version is None && link_refusal(target@) is None),
{
}

// ---------------------------------------------------------------------------
// Edges
// ---------------------------------------------------------------------------

proof fn lemma_front_edge(s: Seq<char>, class: CharClass) -> (a: int)
    ensures
        0 <= a <= s.len(),
        trim_front(s, class) == s.skip(a),
        forall|i: int| 0 <= i < a ==> class.has(#[trigger] s[i]),
        a < s.len() ==> !class.has(s[a]),
    decreases s.len(),
{
    if s.len() > 0 && class.has(s[0]) {
        let t = s.drop_first();
        let a = lemma_front_edge(t, class);
        assert(t.skip(a) =~= s.skip(a + 1));
        assert forall|i: int| 0 <= i < a + 1 implies class.has(#[trigger] s[i]) by {
            if i > 0 {
                assert(t[i - 1] == s[i]);
            }
        }
        a + 1
    } else {
        assert(s.skip(0) =~= s);
        0
    }
}

proof fn lemma_back_edge(s: Seq<char>, class: CharClass) -> (b: int)
    ensures
        0 <= b <= s.len(),
        trim_back(s, class) == s.take(b),
        forall|i: int| b <= i < s.len() ==> class.has(#[trigger] s[i]),
        b > 0 ==> !class.has(s[b - 1]),
    decreases s.len(),
{
    if s.len() > 0 && class.has(s.last()) {
        let t = s.drop_last();
        let b = lemma_back_edge(t, class);
        assert(t.take(b) =~= s.take(b));
        assert forall|i: int| b <= i < s.len() implies class.has(#[trigger] s[i]) by {
            if i < t.len() {
                assert(t[i] == s[i]);
            }
        }
        b
    } else {
        assert(s.take(s.len() as int) =~= s);
        s.len() as int
    }
}

/// A text without the characters of a class at its ends is the part between them: what is
/// taken away belongs to the class, and what is left neither begins nor ends with it.
pub proof fn lemma_edges_are_trimmed(s: Seq<char>, class: CharClass) -> (ends: (int, int))
    ensures
        0 <= ends.0 <= ends.1 <= s.len(),
        trim_class(s, class) == s.subrange(ends.0, ends.1),
        forall|i: int| 0 <= i < ends.0 || ends.1 <= i < s.len() ==> class.has(#[trigger] s[i]),
        ends.0 < ends.1 ==> !class.has(s[ends.0]) && !class.has(s[ends.1 - 1]),
{
    let a = lemma_front_edge(s, class);
    let t = s.skip(a);
    let n = lemma_back_edge(t, class);
    assert(t.take(n) =~= s.subrange(a, a + n));
    assert forall|i: int| 0 <= i < a || a + n <= i < s.len() implies class.has(
        #[trigger] s[i],
    ) by {
        if i >= a {
            assert(t[i - a] == s[i]);
        }
    }
    (a, a + n)
}

/// A part of a query neither begins nor ends with anything but a letter or a digit.
pub proof fn lemma_parts_of_queries(query: Seq<char>, k: int)
    requires
        0 <= k < query_parts(query).len(),
    ensures
        query_parts(query)[k].len() > 0 ==> crate::text::alphanumeric(query_parts(query)[k][0])
            && crate::text::alphanumeric(query_parts(query)[k].last()),
{
    let class = CharClass::NotAlphanumeric;
    let raw = split(query, CharClass::BetweenTokens)[k];
    let (a, b) = lemma_edges_are_trimmed(raw, class);
    assert(query_parts(query)[k] == trim_class(raw, class));
    if a < b {
        assert(!class.has(raw[a]) && !class.has(raw[b - 1]));
    }
}

/// A bare clue begins and ends with a letter, a digit or a joiner, and reads as a clue.
pub proof fn lemma_bare_clues(query: Seq<char>, clue: Seq<char>)
    requires
        bare_clues(query).contains(clue),
    ensures
        6 <= clue.len() <= 256,
        crate::lexical::reads_as_clue(clue),
        crate::text::alphanumeric(clue[0]) || crate::text::is_joiner(clue[0]),
        crate::text::alphanumeric(clue.last()) || crate::text::is_joiner(clue.last()),
{
    let class = CharClass::BetweenTokens;
    let trim = |t: Seq<char>| trim_class(t, class);
    let all = words(query).map_values(trim);
    lemma_filter_contains(all, crate::lexical::clue_shape(6, true), clue);
    let k = choose|k: int| 0 <= k < all.len() && all[k] == clue;
    let raw = words(query)[k];
    assert(all[k] == trim_class(raw, class));
    let (a, b) = lemma_edges_are_trimmed(raw, class);
    assert(!class.has(raw[a]) && !class.has(raw[b - 1]));
    assert(clue[0] == raw[a] && clue.last() == raw[b - 1]);
}

// ---------------------------------------------------------------------------
// Paths of a query
// ---------------------------------------------------------------------------

/// What a query names as a path reads as one; every quoted text that does is named, and so
/// is every word outside quotes that does, what stands around a path left away.
pub proof fn lemma_named_paths(query: Seq<char>, path: Seq<char>)
    ensures
        named_paths(query).contains(path) ==> reads_as_path(path),
        reads_as_path(path) && (quoted(query, '`').contains(path) || quoted(query, '"').contains(
            path,
        )) ==> named_paths(query).contains(path),
        forall|k: int|
            0 <= k < words(blanked(blanked(query, '`'), '"')).len() && reads_as_path(
                trim_class(
                    #[trigger] words(blanked(blanked(query, '`'), '"'))[k],
                    CharClass::AroundPath,
                ),
            ) ==> named_paths(query).contains(
                trim_class(words(blanked(blanked(query, '`'), '"'))[k], CharClass::AroundPath),
            ),
{
    let p = |t: Seq<char>| reads_as_path(t);
    let bare = words(blanked(blanked(query, '`'), '"'));
    let trim = |t: Seq<char>| trim_class(t, CharClass::AroundPath);
    let a = quoted(query, '`');
    let b = quoted(query, '"');
    let c = bare.map_values(trim);
    lemma_filter_contains(a + b + c, p, path);
    lemma_add_contains(a + b, c, path);
    lemma_add_contains(a, b, path);
    assert forall|k: int|
        0 <= k < bare.len() && reads_as_path(
            trim_class(#[trigger] bare[k], CharClass::AroundPath),
        ) implies named_paths(query).contains(trim_class(bare[k], CharClass::AroundPath)) by {
        let t = trim_class(bare[k], CharClass::AroundPath);
        assert(c[k] == t);
        assert(c.contains(t));
        lemma_filter_contains(a + b + c, p, t);
        lemma_add_contains(a + b, c, t);
    }
}

/// A term is found in a text where its words stand there as whole words; within words it
/// is found only where it has at least five letters.
pub proof fn lemma_what_is_found(words: Seq<char>, letters: Seq<char>, term: Seq<char>)
    ensures
        occurs(words, search_words(term)) ==> finds(words, letters, term),
        search_letters(term).len() >= 5 && occurs(letters, search_letters(term)) ==> finds(
            words,
            letters,
            term,
        ),
        search_letters(term).len() < 5 ==> (finds(words, letters, term) <==> occurs(
            words,
            search_words(term),
        )),
        !occurs(letters, search_letters(term)) ==> (finds(words, letters, term) <==> occurs(
            words,
            search_words(term),
        )),
{
}

// ---------------------------------------------------------------------------
// Lines
// ---------------------------------------------------------------------------

/// The lines of a source with line feeds between them are the source, but for a line feed
/// at its end, and none of them holds one.
pub proof fn lemma_lines_of_a_source(content: Seq<char>)
    ensures
        content.len() > 0 && content.last() == '\n' ==> joined(lines_of(content), seq!['\n']).push(
            '\n',
        ) == content,
        content.len() > 0 && content.last() != '\n' ==> joined(lines_of(content), seq!['\n'])
            == content,
        content.len() == 0 ==> lines_of(content).len() == 0,
        forall|i: int|
            0 <= i < lines_of(content).len() ==> !has_any(
                #[trigger] lines_of(content)[i],
                CharClass::Is('\n'),
            ),
{
    let pieces = split(content, CharClass::Is('\n'));
    crate::hunks::lemma_pieces_make_the_text(content, '\n');
    crate::text::lemma_first_from(content, CharClass::Is('\n'), 0);
    assert(pieces.len() > 0);
    let last = pieces.last();
    let lines = lines_of(content);
    assert forall|i: int| 0 <= i < lines.len() implies #[trigger] lines[i] == pieces[i] by {}
    if pieces.len() > 1 {
        let front = joined(pieces.drop_last(), seq!['\n']);
        assert(content == front + seq!['\n'] + last);
        if last.len() > 0 {
            assert(content.last() == last.last());
            assert(!has_any(pieces[pieces.len() - 1], CharClass::Is('\n')));
            assert(!CharClass::Is('\n').has(last[last.len() - 1]));
        } else {
            assert(content.last() == '\n');
            assert(joined(lines, seq!['\n']).push('\n') =~= content);
        }
    } else {
        assert(content == pieces[0]);
        assert(!has_any(pieces[0], CharClass::Is('\n')));
        if content.len() > 0 {
            assert(!CharClass::Is('\n').has(content[content.len() - 1]));
        }
    }
}

// ---------------------------------------------------------------------------
// Sections
// ---------------------------------------------------------------------------

/// Whether a section is among those written out: by its excerpt, with its heading where it
/// has one, or, where it is demoted, as a lead by its heading.
pub open spec fn tells_further(j: JsonV, s: SectionV, c: CandidateV, demoted: bool) -> bool {
    if demoted {
        &&& j.get("representation"@) == Some(JsonV::Text("heading_lead"@))
        &&& j.get("heading"@) == Some(JsonV::Text(s.heading))
        &&& j.get("path"@) == Some(JsonV::Text(c.path))
        &&& j.get("version"@) == Some(integer(c.version))
        &&& j.get("excerpt"@) is None
    } else {
        &&& j.get("excerpt"@) == Some(JsonV::Text(s.excerpt))
        &&& j.get("heading"@) == if s.heading.len() > 0 {
            Some(JsonV::Text(s.heading))
        } else {
            None
        }
    }
}

proof fn lemma_written_section(s: SectionV, c: CandidateV, demoted: bool)
    ensures
        tells_further(written_section(s, c, demoted), s, c, demoted),
{
    reveal_strlit("representation");
    reveal_strlit("heading");
    reveal_strlit("path");
    reveal_strlit("version");
    reveal_strlit("excerpt");
    assert("representation"@.len() == 14 && "heading"@.len() == 7 && "path"@.len() == 4 && "version"@.len() == 7 && "excerpt"@.len() == 7);
    assert("heading"@[0] != "version"@[0]);
    assert("heading"@[0] != "excerpt"@[0]);
    assert("version"@[0] != "excerpt"@[0]);
}

/// The further sections of a shown candidate are written out in their order: where they
/// are demoted, those with a heading, and otherwise those with text; no others.
pub proof fn lemma_further_sections_are_told(s: Seq<SectionV>, c: CandidateV, demoted: bool) -> (
    places: Seq<int>)
    ensures
        places.len() == written_sections(s, c, demoted).len(),
        forall|k: int|
            0 <= k < places.len() ==> 0 <= #[trigger] places[k] < s.len() && tells_further(
                written_sections(s, c, demoted)[k],
                s[places[k]],
                c,
                demoted,
            ),
        forall|j: int, k: int|
            0 <= j < k < places.len() ==> #[trigger] places[j] < #[trigger] places[k],
        forall|i: int|
            0 <= i < s.len() ==> (places.contains(i) <==> if demoted {
                (#[trigger] s[i]).heading.len() > 0
            } else {
                s[i].excerpt.len() > 0
            }),
    decreases s.len(),
{
    if s.len() == 0 {
        Seq::empty()
    } else {
        let before = s.drop_last();
        let front = lemma_further_sections_are_told(before, c, demoted);
        let last = s.len() - 1;
        lemma_written_section(s.last(), c, demoted);
        let all = written_sections(s, c, demoted);
        let kept = if demoted {
            s.last().heading.len() > 0
        } else {
            s.last().excerpt.len() > 0
        };
        let places = if kept {
            front.push(last)
        } else {
            front
        };
        assert forall|k: int| 0 <= k < places.len() implies 0 <= #[trigger] places[k] < s.len()
            && tells_further(all[k], s[places[k]], c, demoted) by {
            if k < front.len() {
                assert(places[k] == front[k]);
                assert(s[front[k]] == before[front[k]]);
            }
        }
        assert forall|j: int, k: int| 0 <= j < k < places.len() implies #[trigger] places[j]
            < #[trigger] places[k] by {
            assert(places[j] == front[j]);
            if k < front.len() {
                assert(places[k] == front[k]);
            }
        }
        assert forall|i: int| 0 <= i < s.len() implies (places.contains(i) <==> if demoted {
            (#[trigger] s[i]).heading.len() > 0
        } else {
            s[i].excerpt.len() > 0
        }) by {
            crate::seqs::lemma_push_contains(front, last, i);
            if i < last {
                assert(s[i] == before[i]);
                assert(front.contains(i) <==> if demoted {
                    before[i].heading.len() > 0
                } else {
                    before[i].excerpt.len() > 0
                });
            } else if front.contains(i) {
                let k = choose|k: int| 0 <= k < front.len() && front[k] == i;
                assert(front[k] < before.len());
            }
        }
        places
    }
}

proof fn lemma_excerpt_texts(s: Seq<SectionV>, i: int)
    requires
        0 <= i < s.len(),
        s[i].excerpt.len() > 0,
    ensures
        excerpt_texts(s).contains(s[i].excerpt),
    decreases s.len(),
{
    let front = excerpt_texts(s.drop_last());
    crate::seqs::lemma_push_contains(front, s.last().excerpt, s[i].excerpt);
    if i < s.len() - 1 {
        lemma_excerpt_texts(s.drop_last(), i);
    }
}

proof fn lemma_no_texts(s: Seq<SectionV>)
    requires
        forall|i: int| 0 <= i < s.len() ==> (#[trigger] s[i]).excerpt.len() == 0,
    ensures
        excerpt_texts(s).len() == 0,
    decreases s.len(),
{
    if s.len() > 0 {
        let before = s.drop_last();
        assert forall|i: int| 0 <= i < before.len() implies (
        #[trigger] before[i]).excerpt.len() == 0 by {
            assert(before[i] == s[i]);
        }
        lemma_no_texts(before);
        assert(s[s.len() - 1].excerpt.len() == 0);
    }
}

/// What is shown of a candidate whose source is not shown whole holds the text of every
/// section, as far as there is room; where no section has text, it is the excerpt.
pub proof fn lemma_excerpts_hold_the_sections(c: CandidateV, max: int, i: int)
    requires
        max >= 0,
    ensures
        excerpt_of(c, max).len() <= max,
        0 <= i < c.sections.len() && c.sections[i].excerpt.len() > 0 && joined(
            excerpt_texts(c.sections),
            "\n\n"@,
        ).len() <= max ==> occurs(excerpt_of(c, max), c.sections[i].excerpt),
        (forall|k: int| 0 <= k < c.sections.len() ==> (#[trigger] c.sections[k]).excerpt.len() == 0)
            ==> excerpt_of(c, max) == truncated(c.excerpt, max),
{
    let parts = excerpt_texts(c.sections);
    let combined = joined(parts, "\n\n"@);
    if 0 <= i < c.sections.len() && c.sections[i].excerpt.len() > 0 {
        lemma_excerpt_texts(c.sections, i);
        let k = choose|k: int| 0 <= k < parts.len() && parts[k] == c.sections[i].excerpt;
        crate::finding::lemma_part_of_joined(parts, "\n\n"@, k);
        let at = choose|at: int| crate::text::occurs_at(combined, parts[k], at);
        assert(combined.len() > 0);
    }
    if forall|k: int| 0 <= k < c.sections.len() ==> (#[trigger] c.sections[k]).excerpt.len() == 0 {
        lemma_no_texts(c.sections);
    }
    crate::showing::lemma_truncated_begins(combined, max);
    crate::showing::lemma_truncated_begins(c.excerpt, max);
}

// ---------------------------------------------------------------------------
// Shares
// ---------------------------------------------------------------------------

/// A candidate that is not shown as an excerpt desires no room; one whose further sections
/// are demoted desires that of its excerpt, and any other that of all its text.
pub proof fn lemma_desires(v: ShownV)
    requires
        candidate_chars(v.candidate) <= usize::MAX,
    ensures
        v.representation != SearchRepresentation::Excerpt ==> desired_chars(v) == 0,
        v.representation == SearchRepresentation::Excerpt && v.demote_additional_sections
            ==> desired_chars(v) == v.candidate.excerpt.len(),
        v.representation == SearchRepresentation::Excerpt && !v.demote_additional_sections
            ==> desired_chars(v) == candidate_chars(v.candidate),
{
}

/// In one round a query is granted what it lacks, up to 2,400 characters and to what is
/// left.
pub proof fn lemma_grants(unmet: int, remaining: int)
    requires
        unmet >= 0,
        remaining >= 0,
    ensures
        0 <= grant(unmet, remaining) <= unmet,
        grant(unmet, remaining) <= remaining,
        grant(unmet, remaining) <= 2_400,
        grant(unmet, remaining) == unmet || grant(unmet, remaining) == remaining || grant(
            unmet,
            remaining,
        ) == 2_400,
{
}

/// Text is left behind with the further sections exactly where one of them has any.
pub proof fn lemma_later_texts(s: Seq<SectionV>)
    ensures
        s.len() <= 1 ==> !later_text(s),
        later_text(s) <==> exists|i: int| 0 < i < s.len() && (#[trigger] s[i]).excerpt.len() != 0,
{
    if exists|i: int| 0 < i < s.len() && (#[trigger] s[i]).excerpt.len() != 0 {
        let i = choose|i: int| 0 < i < s.len() && (#[trigger] s[i]).excerpt.len() != 0;
        assert(1 <= i && s[i].excerpt.len() > 0);
    }
}

/// The candidates of a query are shown as excerpts in their order; from the given rank on
/// their further sections are demoted, and nowhere where none is given.
pub proof fn lemma_later_ranks_are_demoted(v: Seq<CandidateV>, top_n: Option<usize>, rank: int)
    requires
        0 <= rank < v.len(),
    ensures
        crate::budget::as_excerpts(v, top_n).len() == v.len(),
        ({
            let shown = crate::budget::as_excerpts(v, top_n)[rank];
            &&& shown.candidate == v[rank]
            &&& shown.representation == SearchRepresentation::Excerpt
            &&& shown.complete_text is None
            &&& top_n is None ==> !shown.demote_additional_sections
            &&& top_n matches Some(n) ==> (shown.demote_additional_sections <==> n <= rank)
        }),
{
}

/// A match is the beginning of its line, and says so exactly where it is not all of it.
pub proof fn lemma_cut_lines_say_so(
    lines: Seq<Seq<char>>,
    i: int,
    version: int,
    sha256: Seq<char>,
)
    requires
        0 <= i < lines.len(),
    ensures
        ({
            let m = crate::verbatim::line_match(lines, i, version, sha256);
            &&& m.text.is_prefix_of(lines[i])
            &&& m.truncated <==> m.text.len() < lines[i].len()
            &&& m.line_no == i + 1
            &&& m.version == version
        }),
{
    let max = crate::verbatim::MAX_VERBATIM_LINE_CHARS as int;
    let line = lines[i];
    let text = truncated(line, max);
    crate::showing::lemma_truncated_begins(line, max);
    assert(text.is_prefix_of(line));
    if line.len() > max {
        let rest = line.skip(max);
        assert(line =~= text + rest);
        crate::verbatim::lemma_bytes_add(text, rest);
        lemma_some_bytes(rest);
    }
}

proof fn lemma_some_bytes(s: Seq<char>)
    requires
        s.len() > 0,
    ensures
        crate::verbatim::bytes_of(s) > 0,
{
    reveal_with_fuel(vstd::utf8::encode_utf8, 2);
}

// ---------------------------------------------------------------------------
// Places
// ---------------------------------------------------------------------------

proof fn lemma_between(front: Seq<char>, a: Seq<char>, b: Seq<char>, back: Seq<char>)
    requires
        front + a + back == front + b + back,
    ensures
        a == b,
{
    let x = front + a + back;
    let y = front + b + back;
    assert(x.len() == y.len());
    let n = front.len() as int;
    assert(a =~= x.subrange(n, n + a.len()));
    assert(b =~= y.subrange(n, n + b.len()));
}

/// Captures under keys share a place only where user and key have the same digest, and
/// captures without a key that were made on one day only where they are the same.
pub proof fn lemma_captures_have_places_of_their_own(
    user: u128,
    key: Seq<char>,
    other_user: u128,
    other_key: Seq<char>,
    day: Seq<char>,
    id: u128,
    other_id: u128,
)
    ensures
        crate::upsert::capture_path(user, Some(key), day, id) == crate::upsert::capture_path(
            other_user,
            Some(other_key),
            day,
            other_id,
        ) ==> crate::outside::text_digest(crate::outside::uuid_text(user) + "\0"@ + key)
            == crate::outside::text_digest(crate::outside::uuid_text(other_user) + "\0"@ + other_key),
        crate::upsert::capture_path(user, None, day, id) == crate::upsert::capture_path(
            user,
            None,
            day,
            other_id,
        ) ==> id == other_id,
{
    let a = crate::outside::text_digest(crate::outside::uuid_text(user) + "\0"@ + key);
    let b = crate::outside::text_digest(
        crate::outside::uuid_text(other_user) + "\0"@ + other_key,
    );
    let front = "Inbox/Captures/Stable/"@;
    let back = ".md"@;
    assert(crate::upsert::capture_path(user, Some(key), day, id) =~= front + a + back);
    assert(crate::upsert::capture_path(other_user, Some(other_key), day, other_id) =~= front + b
        + back);
    if front + a + back == front + b + back {
        lemma_between(front, a, b, back);
    }
    let u = crate::outside::uuid_text(id);
    let w = crate::outside::uuid_text(other_id);
    let head = "Inbox/Captures/"@ + day + "/"@;
    assert(crate::upsert::capture_path(user, None, day, id) =~= head + u + back);
    assert(crate::upsert::capture_path(user, None, day, other_id) =~= head + w + back);
    if head + u + back == head + w + back {
        lemma_between(head, u, w, back);
        crate::outside::lemma_uuid_is_read_back(id);
        crate::outside::lemma_uuid_is_read_back(other_id);
    }
}

/// The checkpoints of a user wait for each other exactly where their keys have the same
/// digest.
pub proof fn lemma_checkpoints_lock_by_key(user: u128, a: Seq<char>, b: Seq<char>)
    ensures
        crate::checkpoint::checkpoint_lock_text(user, a) == crate::checkpoint::checkpoint_lock_text(
            user,
            b,
        ) <==> crate::outside::text_digest(a) == crate::outside::text_digest(b),
{
    let front = "simple-idempotency:"@ + crate::outside::uuid_text(user) + ":checkpoint:"@;
    let none = Seq::<char>::empty();
    let x = crate::outside::text_digest(a);
    let y = crate::outside::text_digest(b);
    assert(crate::checkpoint::checkpoint_lock_text(user, a) =~= front + x + none);
    assert(crate::checkpoint::checkpoint_lock_text(user, b) =~= front + y + none);
    if front + x + none == front + y + none {
        lemma_between(front, x, y, none);
    }
}

/// A checkpoint without a key is made under one that no request can bring along.
pub proof fn lemma_implicit_keys_are_reserved(request: crate::requests::CheckpointRequest)
    ensures
        crate::checkpoint::reserved_key(crate::checkpoint::implicit_key(request)),
        request.idempotency_key is None ==> crate::checkpoint::reserved_key(
            crate::checkpoint::key_of(request),
        ),
        request.idempotency_key matches Some(key) ==> crate::checkpoint::key_of(request) == key@,
{
    let id = crate::checkpoint::checkpoint_id_of(request) as u128;
    crate::outside::lemma_uuid_is_read_back(id);
    crate::paths::lemma_behind("implicit:"@, crate::outside::uuid_text(id));
}

/// An index can be searched exactly and by words at once; by meaning as far as it is said.
pub proof fn lemma_index_status_is_told(semantic: Seq<char>)
    ensures
        ({
            let v = crate::evaluation::index_status(semantic);
            &&& v.get("exact"@) == Some(JsonV::Text("ready"@))
            &&& v.get("lexical"@) == Some(JsonV::Text("ready"@))
            &&& v.get("semantic"@) == Some(JsonV::Text(semantic))
        }),
{
    reveal_strlit("exact");
    reveal_strlit("lexical");
    reveal_strlit("semantic");
    assert("exact"@.len() == 5 && "lexical"@.len() == 7 && "semantic"@.len() == 8);
}

/// A derived or superseded entry loses its loss and its penalty from the score it was found
/// with, one after the other.
pub proof fn lemma_losses_are_taken_off(
    base: int,
    found: int,
    query: Seq<char>,
    row: crate::lanes::FoundV,
    penalty: int,
)
    ensures
        ({
            let excerpt = truncated(row.content, 2_400);
            let whole = crate::score::plus(
                crate::score::plus(base, found),
                crate::lexical::bonus(query, row.path, row.title, row.heading, excerpt),
            );
            let loss = crate::candidate::derived_loss(row.path);
            crate::lanes::lane_score(base, found, query, row, penalty) == crate::score::plus(
                crate::score::plus(whole, crate::score::opposite(loss)),
                crate::score::opposite(penalty),
            )
        }),
{
}

/// How many reads were left out for want of room is told.
pub proof fn lemma_skipped_reads_are_told(
    skipped: int,
)
    ensures
        ({
            let v = crate::read::read_budget_gap(skipped);
            &&& v.get("kind"@) == Some(JsonV::Text("read_response_budget"@))
            &&& v.get("skipped_requests"@) == Some(integer(skipped))
        }),
{
    reveal_strlit("kind");
    reveal_strlit("skipped_requests");
    reveal_strlit("message");
    assert("kind"@.len() == 4 && "skipped_requests"@.len() == 16 && "message"@.len() == 7);
}

/// How many entries were not found is told.
pub proof fn lemma_missing_reads_are_told(
    missing: int,
)
    ensures
        ({
            let v = crate::read::read_missing_gap(missing);
            &&& v.get("kind"@) == Some(JsonV::Text("read_entries_not_found"@))
            &&& v.get("missing_requests"@) == Some(integer(missing))
        }),
{
    reveal_strlit("kind");
    reveal_strlit("missing_requests");
    reveal_strlit("message");
    assert("kind"@.len() == 4 && "missing_requests"@.len() == 16 && "message"@.len() == 7);
}

/// The sources that work is resumed with are those that the checkpoint kept.
pub proof fn lemma_resumed_sources(checkpoint: JsonV, sources: Seq<JsonV>)
    ensures
        checkpoint.get("source_entries"@) == Some(JsonV::Array(sources))
            ==> crate::resume::source_values(Some(checkpoint)) == sources,
        checkpoint.get("source_entries"@) is None ==> crate::resume::source_values(
            Some(checkpoint),
        ).len() == 0,
        crate::resume::source_values(None).len() == 0,
{
}

/// The evidence is that of the planned steps that show any text, in their order: all of
/// them and nothing else.
pub proof fn lemma_evidence_is_what_steps_show(
    steps: Seq<crate::render::EvidenceStep>,
    cs: Seq<CandidateV>,
    docs: Seq<crate::render::DocumentV>,
) -> (places: Seq<int>)
    ensures
        ({
            let items = crate::render::evidence_items(steps, cs, docs);
            let text = |k: int|
                crate::render::step_text(steps[k], cs[steps[k].index as int], docs);
            &&& places.len() == items.len()
            &&& forall|k: int|
                0 <= k < places.len() ==> 0 <= #[trigger] places[k] < steps.len() && text(
                    places[k],
                ).len() > 0 && items[k] == crate::render::evidence_json(
                    steps[places[k]],
                    cs[steps[places[k]].index as int],
                    text(places[k]),
                )
            &&& forall|j: int, k: int|
                0 <= j < k < places.len() ==> #[trigger] places[j] < #[trigger] places[k]
            &&& forall|i: int|
                0 <= i < steps.len() && crate::render::step_text(
                    #[trigger] steps[i],
                    cs[steps[i].index as int],
                    docs,
                ).len() > 0 ==> places.contains(i)
        }),
    decreases steps.len(),
{
    if steps.len() == 0 {
        Seq::empty()
    } else {
        let before = steps.drop_last();
        let front = lemma_evidence_is_what_steps_show(before, cs, docs);
        let last = steps.len() - 1;
        let items = crate::render::evidence_items(steps, cs, docs);
        let held = crate::render::evidence_items(before, cs, docs);
        let shown = crate::render::step_text(steps[last], cs[steps[last].index as int], docs);
        let places = if shown.len() > 0 {
            front.push(last)
        } else {
            front
        };
        let text = |k: int| crate::render::step_text(steps[k], cs[steps[k].index as int], docs);
        assert forall|k: int| 0 <= k < places.len() implies 0 <= #[trigger] places[k] < steps.len()
            && text(places[k]).len() > 0 && items[k] == crate::render::evidence_json(
            steps[places[k]],
            cs[steps[places[k]].index as int],
            text(places[k]),
        ) by {
            if k < front.len() {
                assert(places[k] == front[k]);
                assert(steps[front[k]] == before[front[k]]);
                assert(items[k] == held[k]);
            }
        }
        assert forall|j: int, k: int| 0 <= j < k < places.len() implies #[trigger] places[j]
            < #[trigger] places[k] by {
            assert(places[j] == front[j]);
            if k < front.len() {
                assert(places[k] == front[k]);
            }
        }
        assert forall|i: int|
            0 <= i < steps.len() && crate::render::step_text(
                #[trigger] steps[i],
                cs[steps[i].index as int],
                docs,
            ).len() > 0 implies places.contains(i) by {
            if i < last {
                assert(before[i] == steps[i]);
                let k = choose|k: int| 0 <= k < front.len() && front[k] == i;
                assert(places[k] == i);
            } else {
                assert(places[front.len() as int] == i);
            }
        }
        places
    }
}

} // verus!
