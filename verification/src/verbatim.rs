//! Lines that are quoted word for word.
use vstd::prelude::*;
#[allow(unused_imports)]
use vstd::utf8::encode_utf8;

use crate::candidate::{Candidate, VerbatimMatch, MAX_VERBATIM_MATCHES_PER_CANDIDATE};
#[allow(unused_imports)]
use crate::candidate::{matches_view, MatchV};
use crate::json::Json;
#[allow(unused_imports)]
use crate::json::{integer, items_view, object, JsonV};
use crate::lexical::{looks_like_path, search_anchors};
#[allow(unused_imports)]
use crate::lexical::{reads_as_path, used_clues};
#[allow(unused_imports)]
use crate::seqs::{
    first_of, lemma_filter_empty, lemma_filter_take, lemma_map_push, lemma_texts_push,
};
use crate::text::{byte_len, cat, contains, split_at, truncate_chars, CharClass};
#[allow(unused_imports)]
use crate::text::{first_from, lemma_first_from, occurs, split, split_from, texts, truncated};

verus! {

/// The most characters of a line that are quoted.
pub const MAX_VERBATIM_LINE_CHARS: usize = 2_400;

/// The most characters of quoted lines in one response.
pub const MAX_VERBATIM_RESPONSE_CHARS: usize = 9_600;

/// Whether a flag is off; flags that are off are not written out.
pub fn is_false(value: &bool) -> (r: bool)
    ensures
        r == !*value,
{
    !*value
}

/// The terms that are looked for word for word: the clues of the query that are no
/// paths.
pub open spec fn verbatim_terms(query: Seq<char>) -> Seq<Seq<char>> {
    first_of(
        used_clues(query).filter(|t: Seq<char>| !reads_as_path(t)),
        MAX_VERBATIM_MATCHES_PER_CANDIDATE as int,
    )
}

pub fn verbatim_match_terms(query: &str) -> (r: Vec<String>)
    ensures
        texts(r@) == verbatim_terms(query@),
{
    let anchors = search_anchors(query);
    let ghost all = texts(anchors@);
    let ghost p = |t: Seq<char>| !reads_as_path(t);
    let mut out: Vec<String> = Vec::new();
    let mut i: usize = 0;
    proof {
        lemma_filter_empty(all.take(0), p);
        assert(texts(out@) =~= all.take(0).filter(p));
    }
    while i < anchors.len()
        invariant
            i <= anchors@.len(),
            all == texts(anchors@),
            p == (|t: Seq<char>| !reads_as_path(t)),
            texts(out@) == all.take(i as int).filter(p),
        decreases anchors@.len() - i,
    {
        let ghost held = out@;
        proof {
            lemma_filter_take(all, p, i as int);
        }
        if !looks_like_path(anchors[i].as_str()) {
            let t = anchors[i].clone();
            out.push(t);
            proof {
                lemma_texts_push(held, t);
            }
        }
        i = i + 1;
    }
    assert(all.take(i as int) =~= all);
    let ghost full = texts(out@);
    out.truncate(MAX_VERBATIM_MATCHES_PER_CANDIDATE);
    assert(texts(out@) =~= first_of(full, MAX_VERBATIM_MATCHES_PER_CANDIDATE as int));
    out
}

// ---------------------------------------------------------------------------
// Lines and their places
// ---------------------------------------------------------------------------

/// The number of bytes of a text in UTF-8.
pub open spec fn bytes_of(s: Seq<char>) -> int {
    encode_utf8(s).len() as int
}

pub proof fn lemma_bytes_add(a: Seq<char>, b: Seq<char>)
    ensures
        bytes_of(a + b) == bytes_of(a) + bytes_of(b),
    decreases a.len(),
{
    if a.len() == 0 {
        assert(a + b =~= b);
        assert(encode_utf8(a) =~= Seq::<u8>::empty());
    } else {
        assert((a + b).drop_first() =~= a.drop_first() + b);
        assert((a + b)[0] == a[0]);
        lemma_bytes_add(a.drop_first(), b);
    }
}

/// The lines of a text. A line break at the end begins no further line.
pub open spec fn lines_of(content: Seq<char>) -> Seq<Seq<char>> {
    let pieces = split(content, CharClass::Is('\n'));
    if pieces.len() > 0 && pieces.last().len() == 0 {
        pieces.drop_last()
    } else {
        pieces
    }
}

/// The byte at which a line begins.
pub open spec fn line_start(lines: Seq<Seq<char>>, i: int) -> int
    decreases i,
{
    if i <= 0 {
        0
    } else {
        line_start(lines, i - 1) + bytes_of(lines[i - 1]) + 1
    }
}

/// Whether a line holds one of the terms.
pub open spec fn holds_any(line: Seq<char>, terms: Seq<Seq<char>>) -> bool {
    exists|i: int| 0 <= i < terms.len() && occurs(line, #[trigger] terms[i])
}

/// A line as a match.
pub open spec fn line_match(
    lines: Seq<Seq<char>>,
    i: int,
    version: int,
    sha256: Seq<char>,
) -> MatchV {
    let text = truncated(lines[i], MAX_VERBATIM_LINE_CHARS as int);
    MatchV {
        line_no: i + 1,
        byte_start: line_start(lines, i),
        byte_end: line_start(lines, i) + bytes_of(text),
        text,
        version,
        content_hash: "sha256:"@ + sha256,
        truncated: bytes_of(text) < bytes_of(lines[i]),
    }
}

/// The matching lines from the `i`th on, at most `limit` of them.
pub open spec fn matching_lines(
    lines: Seq<Seq<char>>,
    terms: Seq<Seq<char>>,
    version: int,
    sha256: Seq<char>,
    i: int,
    limit: int,
) -> Seq<MatchV>
    decreases lines.len() - i,
{
    if i < 0 || i >= lines.len() || limit <= 0 {
        Seq::empty()
    } else if holds_any(lines[i], terms) {
        seq![line_match(lines, i, version, sha256)] + matching_lines(
            lines,
            terms,
            version,
            sha256,
            i + 1,
            limit - 1,
        )
    } else {
        matching_lines(lines, terms, version, sha256, i + 1, limit)
    }
}

fn holds_term(line: &str, terms: &Vec<String>) -> (r: bool)
    ensures
        r == holds_any(line@, texts(terms@)),
{
    let mut i: usize = 0;
    while i < terms.len()
        invariant
            i <= terms@.len(),
            forall|k: int| 0 <= k < i ==> !occurs(line@, #[trigger] texts(terms@)[k]),
        decreases terms@.len() - i,
    {
        if contains(line, terms[i].as_str()) {
            assert(occurs(line@, texts(terms@)[i as int]));
            return true;
        }
        i = i + 1;
    }
    false
}

spec fn pieces_bytes(pieces: Seq<Seq<char>>) -> int
    decreases pieces.len(),
{
    if pieces.len() == 0 {
        -1
    } else {
        bytes_of(pieces[0]) + 1 + pieces_bytes(pieces.drop_first())
    }
}

proof fn lemma_split_bytes(s: Seq<char>, class: CharClass, start: int)
    requires
        0 <= start <= s.len(),
        class == CharClass::Is('\n'),
    ensures
        split_from(s, class, start).len() > 0,
        pieces_bytes(split_from(s, class, start)) == bytes_of(s.subrange(start, s.len() as int)),
    decreases s.len() - start,
{
    lemma_first_from(s, class, start);
    let end = first_from(s, class, start);
    let all = split_from(s, class, start);
    if end >= s.len() {
        assert(all.drop_first() =~= Seq::<Seq<char>>::empty());
        assert(pieces_bytes(all.drop_first()) == -1);
    } else {
        lemma_split_bytes(s, class, end + 1);
        assert(all.drop_first() =~= split_from(s, class, end + 1));
        let head = s.subrange(start, end);
        let rest = s.subrange(end + 1, s.len() as int);
        assert(s.subrange(start, s.len() as int) =~= head + (seq!['\n'] + rest));
        lemma_bytes_add(head, seq!['\n'] + rest);
        lemma_bytes_add(seq!['\n'], rest);
        lemma_newline_byte();
    }
}

proof fn lemma_newline_byte()
    ensures
        bytes_of(seq!['\n']) == 1,
{
    vstd::utf8::is_ascii_chars_encode_utf8(seq!['\n']);
}

proof fn lemma_line_start_bound(pieces: Seq<Seq<char>>, i: int)
    requires
        0 <= i <= pieces.len(),
    ensures
        line_start(pieces, i) + pieces_bytes(pieces.skip(i)) == pieces_bytes(pieces),
        line_start(pieces, i) >= 0,
        pieces_bytes(pieces.skip(i)) >= -1,
    decreases i,
{
    lemma_pieces_bytes_natural(pieces.skip(i));
    if i > 0 {
        lemma_line_start_bound(pieces, i - 1);
        assert(pieces.skip(i - 1).drop_first() =~= pieces.skip(i));
        assert(pieces.skip(i - 1)[0] == pieces[i - 1]);
    } else {
        assert(pieces.skip(0) =~= pieces);
    }
}

proof fn lemma_pieces_bytes_natural(pieces: Seq<Seq<char>>)
    ensures
        pieces_bytes(pieces) >= -1,
        pieces.len() > 0 ==> pieces_bytes(pieces) >= bytes_of(pieces[0]),
    decreases pieces.len(),
{
    if pieces.len() > 0 {
        lemma_pieces_bytes_natural(pieces.drop_first());
    }
}

proof fn lemma_line_start_prefix(pieces: Seq<Seq<char>>, i: int)
    requires
        0 <= i < pieces.len(),
    ensures
        line_start(pieces.drop_last(), i) == line_start(pieces, i),
    decreases i,
{
    if i > 0 {
        lemma_line_start_prefix(pieces, i - 1);
        assert(pieces.drop_last()[i - 1] == pieces[i - 1]);
    }
}

proof fn lemma_truncated_bytes(s: Seq<char>, limit: int)
    requires
        limit >= 0,
    ensures
        0 <= bytes_of(truncated(s, limit)) <= bytes_of(s),
{
    if s.len() > limit {
        assert(s =~= s.take(limit) + s.skip(limit));
        lemma_bytes_add(s.take(limit), s.skip(limit));
    }
}

pub proof fn lemma_encode_add(a: Seq<char>, b: Seq<char>)
    ensures
        encode_utf8(a + b) == encode_utf8(a) + encode_utf8(b),
    decreases a.len(),
{
    if a.len() == 0 {
        assert(a + b =~= b);
        assert(encode_utf8(a) + encode_utf8(b) =~= encode_utf8(b));
    } else {
        assert((a + b).drop_first() =~= a.drop_first() + b);
        assert((a + b)[0] == a[0]);
        lemma_encode_add(a.drop_first(), b);
        assert(encode_utf8(a + b) =~= encode_utf8(a) + encode_utf8(b));
    }
}

/// The character at which a line begins.
spec fn char_start(lines: Seq<Seq<char>>, i: int) -> int
    decreases i,
{
    if i <= 0 {
        0
    } else {
        char_start(lines, i - 1) + lines[i - 1].len() + 1
    }
}

proof fn lemma_starts_shift(p: Seq<Seq<char>>, i: int)
    requires
        0 < i < p.len(),
    ensures
        char_start(p, i) == p[0].len() + 1 + char_start(p.drop_first(), i - 1),
        line_start(p, i) == bytes_of(p[0]) + 1 + line_start(p.drop_first(), i - 1),
    decreases i,
{
    if i > 1 {
        lemma_starts_shift(p, i - 1);
        assert(p.drop_first()[i - 2] == p[i - 1]);
    } else {
        assert(char_start(p, 0) == 0);
        assert(line_start(p, 0) == 0);
    }
}

proof fn lemma_piece_at(s: Seq<char>, start: int, i: int)
    requires
        0 <= start <= s.len(),
        0 <= i < split_from(s, CharClass::Is('\n'), start).len(),
    ensures
        ({
            let p = split_from(s, CharClass::Is('\n'), start);
            let at = start + char_start(p, i);
            &&& start <= at
            &&& at + p[i].len() <= s.len()
            &&& s.subrange(at, at + p[i].len()) == p[i]
            &&& bytes_of(s.subrange(start, at)) == line_start(p, i)
        }),
    decreases i,
{
    let class = CharClass::Is('\n');
    let p = split_from(s, class, start);
    lemma_first_from(s, class, start);
    let end = first_from(s, class, start);
    if i == 0 {
        assert(s.subrange(start, start) =~= Seq::<char>::empty());
        assert(bytes_of(s.subrange(start, start)) == 0);
    } else {
        let rest = split_from(s, class, end + 1);
        assert(p.drop_first() =~= rest);
        lemma_piece_at(s, end + 1, i - 1);
        lemma_starts_shift(p, i);
        let at = start + char_start(p, i);
        assert(at == end + 1 + char_start(rest, i - 1));
        let head = s.subrange(start, end);
        let tail = s.subrange(end + 1, at);
        assert(s.subrange(start, at) =~= head + (seq!['\n'] + tail));
        lemma_bytes_add(head, seq!['\n'] + tail);
        lemma_bytes_add(seq!['\n'], tail);
        lemma_newline_byte();
    }
}

proof fn lemma_match_place(content: Seq<char>, i: int)
    requires
        0 <= i < lines_of(content).len(),
    ensures
        ({
            let start = line_start(lines_of(content), i);
            let text = truncated(lines_of(content)[i], MAX_VERBATIM_LINE_CHARS as int);
            &&& 0 <= start
            &&& start + bytes_of(text) <= bytes_of(content)
            &&& encode_utf8(content).subrange(start, start + bytes_of(text)) == encode_utf8(text)
        }),
{
    let pieces = split(content, CharClass::Is('\n'));
    lemma_piece_at(content, 0, i);
    if lines_of(content) != pieces {
        lemma_line_start_prefix(pieces, i);
    }
    let line = pieces[i];
    let text = truncated(line, MAX_VERBATIM_LINE_CHARS as int);
    let at = char_start(pieces, i);
    let front = content.subrange(0, at);
    let rest = content.subrange(at + text.len(), content.len() as int);
    assert(text =~= content.subrange(at, at + text.len()));
    assert(content =~= front + (text + rest));
    lemma_encode_add(front, text + rest);
    lemma_encode_add(text, rest);
    let start = bytes_of(front);
    assert(encode_utf8(content).subrange(start, start + bytes_of(text)) =~= encode_utf8(text));
}

/// Every match quotes the source word for word: the bytes between its two places are
/// the bytes of its text.
pub proof fn lemma_match_is_verbatim(
    content: Seq<char>,
    terms: Seq<Seq<char>>,
    version: int,
    sha256: Seq<char>,
    i: int,
    limit: int,
    k: int,
)
    requires
        0 <= i,
        0 <= k < matching_lines(lines_of(content), terms, version, sha256, i, limit).len(),
    ensures
        ({
            let m = matching_lines(lines_of(content), terms, version, sha256, i, limit)[k];
            &&& 0 <= m.byte_start <= m.byte_end <= bytes_of(content)
            &&& encode_utf8(content).subrange(m.byte_start, m.byte_end) == encode_utf8(m.text)
        }),
    decreases lines_of(content).len() - i,
{
    let lines = lines_of(content);
    let all = matching_lines(lines, terms, version, sha256, i, limit);
    if holds_any(lines[i], terms) {
        if k == 0 {
            lemma_match_place(content, i);
        } else {
            lemma_match_is_verbatim(content, terms, version, sha256, i + 1, limit - 1, k - 1);
            assert(all[k] == matching_lines(
                lines,
                terms,
                version,
                sha256,
                i + 1,
                limit - 1,
            )[k - 1]);
        }
    } else {
        lemma_match_is_verbatim(content, terms, version, sha256, i + 1, limit, k);
    }
}

/// The first lines of a source that hold one of the terms word for word, each with
/// its place in the source.
pub fn extract_verbatim_matches(
    content: &str,
    terms: &Vec<String>,
    version: i64,
    content_sha256: &str,
) -> (r: Vec<VerbatimMatch>)
    ensures
        matches_view(r@) == matching_lines(
            lines_of(content@),
            texts(terms@),
            version as int,
            content_sha256@,
            0,
            MAX_VERBATIM_MATCHES_PER_CANDIDATE as int,
        ),
{
    let mut out: Vec<VerbatimMatch> = Vec::new();
    let ghost wanted = texts(terms@);
    let mut pieces = split_at(content, CharClass::Is('\n'));
    let ghost every = texts(pieces@);
    let total = byte_len(content);
    proof {
        lemma_split_bytes(content@, CharClass::Is('\n'), 0);
        assert(content@.subrange(0, content@.len() as int) =~= content@);
        assert(pieces_bytes(every) == total);
    }
    let n: usize = pieces.len();
    if n > 0 && pieces[n - 1].as_str().unicode_len() == 0 {
        assert(every.last() == pieces@[n - 1]@);
        let _ = pieces.pop();
        assert(texts(pieces@) =~= every.drop_last());
    } else {
        assert(n > 0 ==> every.last() == pieces@[n - 1]@);
    }
    let ghost lines = lines_of(content@);
    assert(texts(pieces@) =~= lines);
    let ghost f = |m: VerbatimMatch| m@;
    let ghost goal = matching_lines(
        lines,
        wanted,
        version as int,
        content_sha256@,
        0,
        MAX_VERBATIM_MATCHES_PER_CANDIDATE as int,
    );
    let mut byte_start: usize = 0;
    let mut i: usize = 0;
    assert(matches_view(out@) + goal =~= goal);
    while i < pieces.len() && out.len() < MAX_VERBATIM_MATCHES_PER_CANDIDATE
        invariant
            i <= pieces@.len(),
            wanted == texts(terms@),
            texts(pieces@) == lines,
            lines == every || (every.len() > 0 && lines == every.drop_last()
                && every.last().len() == 0),
            pieces_bytes(every) == total,
            i < pieces@.len() ==> byte_start == line_start(lines, i as int),
            out@.len() <= MAX_VERBATIM_MATCHES_PER_CANDIDATE,
            f == (|m: VerbatimMatch| m@),
            matches_view(out@) + matching_lines(
                lines,
                wanted,
                version as int,
                content_sha256@,
                i as int,
                MAX_VERBATIM_MATCHES_PER_CANDIDATE - out@.len(),
            ) == goal,
        decreases pieces@.len() - i,
    {
        let ghost held = out@;
        let line = pieces[i].as_str();
        assert(lines[i as int] == line@);
        assert(every[i as int] == line@);
        let size = byte_len(line);
        proof {
            lemma_line_start_bound(every, i as int);
            lemma_pieces_bytes_natural(every.skip(i as int));
            assert(every.skip(i as int)[0] == every[i as int]);
            if lines != every {
                lemma_line_start_prefix(every, i as int);
            }
        }
        if holds_term(line, terms) {
            let text = truncate_chars(line, MAX_VERBATIM_LINE_CHARS);
            let kept = byte_len(text.as_str());
            proof {
                lemma_truncated_bytes(line@, MAX_VERBATIM_LINE_CHARS as int);
            }
            let m = VerbatimMatch {
                line_no: i + 1,
                byte_start,
                byte_end: byte_start + kept,
                text,
                version,
                content_hash: cat("sha256:", content_sha256),
                truncated: kept < size,
            };
            out.push(m);
            proof {
                lemma_map_push(held, f, m);
                assert(m@ =~= line_match(lines, i as int, version as int, content_sha256@));
                assert(matches_view(out@) + matching_lines(
                    lines,
                    wanted,
                    version as int,
                    content_sha256@,
                    i + 1,
                    MAX_VERBATIM_MATCHES_PER_CANDIDATE - out@.len(),
                ) =~= goal);
            }
        }
        i = i + 1;
        if i < pieces.len() {
            proof {
                lemma_line_start_bound(every, i as int);
                lemma_pieces_bytes_natural(every.skip(i as int));
                if lines != every {
                    lemma_line_start_prefix(every, i as int);
                }
            }
            byte_start = byte_start + size + 1;
        }
    }
    assert(matches_view(out@) =~= goal);
    out
}

// ---------------------------------------------------------------------------
// Quoting
// ---------------------------------------------------------------------------

/// A match cut to some characters, written out.
pub open spec fn match_json(m: MatchV, text: Seq<char>) -> JsonV {
    let end = crate::budget::fit(m.byte_start + bytes_of(text));
    let base = object().with("line_no"@, integer(m.line_no)).with(
        "byte_start"@,
        integer(m.byte_start),
    ).with("byte_end"@, integer(end)).with("text"@, JsonV::Text(text)).with(
        "version"@,
        integer(m.version),
    ).with("content_hash"@, JsonV::Text(m.content_hash));
    if m.truncated || bytes_of(text) < bytes_of(m.text) {
        base.with("truncated"@, JsonV::Bool(true))
    } else {
        base
    }
}

/// The matches from the `i`th on as far as a budget of characters reaches, and what
/// is left of it.
pub open spec fn quoted_matches(ms: Seq<MatchV>, i: int, remaining: int) -> (Seq<JsonV>, int)
    decreases ms.len() - i,
{
    if i < 0 || i >= ms.len() || remaining <= 0 {
        (Seq::empty(), remaining)
    } else {
        let text = truncated(
            ms[i].text,
            crate::budget::least(remaining, MAX_VERBATIM_LINE_CHARS as int),
        );
        if text.len() == 0 {
            (Seq::empty(), remaining)
        } else {
            let rest = quoted_matches(ms, i + 1, remaining - text.len());
            (seq![match_json(ms[i], text)] + rest.0, rest.1)
        }
    }
}

/// The characters that quotes hold.
pub open spec fn quoted_chars(quotes: Seq<JsonV>) -> int
    decreases quotes.len(),
{
    if quotes.len() == 0 {
        0
    } else {
        quoted_chars(quotes.drop_first()) + match quotes[0].get_text("text"@) {
            Some(t) => t.len() as int,
            None => 0,
        }
    }
}

proof fn lemma_match_text(m: MatchV, text: Seq<char>)
    ensures
        match_json(m, text).get_text("text"@) == Some(text),
{
    reveal_strlit("text");
    reveal_strlit("version");
    reveal_strlit("content_hash");
    reveal_strlit("truncated");
    assert("text"@.len() == 4);
    assert("version"@.len() == 7);
    assert("content_hash"@.len() == 12);
    assert("truncated"@.len() == 9);
}

/// Quoting spends exactly the characters it quotes, never more than there are.
pub proof fn lemma_quoted_within_budget(ms: Seq<MatchV>, i: int, remaining: int)
    requires
        remaining >= 0,
    ensures
        0 <= quoted_matches(ms, i, remaining).1 <= remaining,
        quoted_chars(quoted_matches(ms, i, remaining).0) == remaining - quoted_matches(
            ms,
            i,
            remaining,
        ).1,
    decreases ms.len() - i,
{
    if 0 <= i < ms.len() && remaining > 0 {
        let text = truncated(
            ms[i].text,
            crate::budget::least(remaining, MAX_VERBATIM_LINE_CHARS as int),
        );
        if text.len() > 0 {
            lemma_quoted_within_budget(ms, i + 1, remaining - text.len());
            lemma_match_text(ms[i], text);
            let quotes = quoted_matches(ms, i, remaining).0;
            assert(quotes.drop_first() =~= quoted_matches(ms, i + 1, remaining - text.len()).0);
        }
    }
}

/// The matches of a candidate, written out as far as a budget of characters reaches.
pub fn render_verbatim_matches(candidate: &Candidate, remaining_chars: &mut usize) -> (r: Vec<Json>)
    ensures
        items_view(r@) == quoted_matches(
            candidate@.verbatim_matches,
            0,
            *old(remaining_chars) as int,
        ).0,
        *final(remaining_chars) == quoted_matches(
            candidate@.verbatim_matches,
            0,
            *old(remaining_chars) as int,
        ).1,
{
    let ghost ms = candidate@.verbatim_matches;
    let ghost start = *remaining_chars as int;
    let ghost goal = quoted_matches(ms, 0, start);
    let mut out: Vec<Json> = Vec::new();
    let mut left: usize = *remaining_chars;
    let mut i: usize = 0;
    assert(items_view(out@) + goal.0 =~= goal.0);
    while i < candidate.verbatim_matches.len() && left > 0
        invariant
            i <= candidate.verbatim_matches@.len(),
            ms == candidate@.verbatim_matches,
            start == *old(remaining_chars),
            goal == quoted_matches(ms, 0, start),
            items_view(out@) + quoted_matches(ms, i as int, left as int).0 == goal.0,
            quoted_matches(ms, i as int, left as int).1 == goal.1,
        decreases candidate.verbatim_matches@.len() - i,
    {
        let m = &candidate.verbatim_matches[i];
        assert(ms[i as int] == m@);
        let limit: usize = if left < MAX_VERBATIM_LINE_CHARS {
            left
        } else {
            MAX_VERBATIM_LINE_CHARS
        };
        let text = truncate_chars(m.text.as_str(), limit);
        let n: usize = text.as_str().unicode_len();
        if n == 0 {
            *remaining_chars = left;
            assert(items_view(out@) =~= goal.0);
            return out;
        }
        let kept = byte_len(text.as_str());
        let cut = m.truncated || kept < byte_len(m.text.as_str());
        let end: usize = m.byte_start.saturating_add(kept);
        let mut item = Json::object().with("line_no", Json::count(m.line_no)).with(
            "byte_start",
            Json::count(m.byte_start),
        ).with("byte_end", Json::count(end)).with("text", Json::text(text.as_str())).with(
            "version",
            Json::integer(m.version),
        ).with("content_hash", Json::text(m.content_hash.as_str()));
        if !is_false(&cut) {
            item = item.with("truncated", Json::Bool(true));
        }
        let ghost held = out@;
        out.push(item);
        proof {
            assert(item@ == match_json(ms[i as int], text@));
            assert(items_view(out@) =~= items_view(held).push(item@));
            assert(items_view(out@) + quoted_matches(ms, i + 1, left - n).0 =~= items_view(held)
                + quoted_matches(ms, i as int, left as int).0);
        }
        left = left - n;
        i = i + 1;
    }
    *remaining_chars = left;
    assert(items_view(out@) =~= goal.0);
    out
}

}
