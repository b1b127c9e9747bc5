//! What a query says: the paths it names, the clues it quotes, and the terms that
//! are worth searching for.
use vstd::prelude::*;

use crate::order::{sort, sorted, Order};
use crate::score::add_scores;
#[allow(unused_imports)]
use crate::score::plus;
#[allow(unused_imports)]
use crate::seqs::{
    first_of, lemma_add_contains, lemma_filter_contains, lemma_filter_push, lemma_map_push,
    lemma_map_take, lemma_push_contains, lemma_texts_push,
};
use crate::text::{
    any, cat3, chars_of, contains, count, ends_with, find_from, lower, lower_char, piece, same,
    same_ignoring_case, split_at, split_words, starts_with, trim, trim_of, CharClass,
};
#[allow(unused_imports)]
use crate::text::{
    equal_ignoring_case, first_from, has_any, has_prefix, has_suffix,
    lemma_text_less_asymmetric, lemma_text_less_irreflexive, lemma_text_less_total,
    lemma_text_less_transitive, nonempty, occurs, only, split, split_from, text_less, texts,
    trim_class, trimmed, lower_case, lower_case_char, upper_case, words,
};

verus! {

/// How many of the paths that a query names are looked up.
pub const MAX_PATH_HINTS: usize = 16;

/// How many of the clues of a query are used.
pub const MAX_SEARCH_ANCHORS: usize = 2;

// ---------------------------------------------------------------------------
// Quoted parts
// ---------------------------------------------------------------------------

/// The parts of the text, from `start` on, between one occurrence of the
/// delimiter and the next; each occurrence opens or closes one part.
pub open spec fn quoted_from(s: Seq<char>, delimiter: char, start: int) -> Seq<Seq<char>>
    decreases s.len() - start,
{
    let open = first_from(s, CharClass::Is(delimiter), start);
    let close = first_from(s, CharClass::Is(delimiter), open + 1);
    if start < 0 || open < start || open >= s.len() || close <= open || close >= s.len() {
        Seq::empty()
    } else {
        seq![s.subrange(open + 1, close)] + quoted_from(s, delimiter, close + 1)
    }
}

pub open spec fn quoted(s: Seq<char>, delimiter: char) -> Seq<Seq<char>> {
    quoted_from(s, delimiter, 0)
}

/// The quoted parts of the text.
fn quoted_parts(text: &str, delimiter: char) -> (r: Vec<String>)
    ensures
        texts(r@) == quoted(text@, delimiter),
{
    let chars = chars_of(text);
    let class = CharClass::Is(delimiter);
    let mut out: Vec<String> = Vec::new();
    let mut start: usize = 0;
    assert(texts(out@) + quoted_from(text@, delimiter, 0) =~= quoted(text@, delimiter));
    loop
        invariant
            chars@ == text@,
            class == CharClass::Is(delimiter),
            start <= chars@.len(),
            texts(out@) + quoted_from(text@, delimiter, start as int) == quoted(text@, delimiter),
        decreases chars@.len() - start,
    {
        let open = find_from(&chars, class, start);
        if open >= chars.len() {
            assert(texts(out@) =~= quoted(text@, delimiter));
            return out;
        }
        let close = find_from(&chars, class, open + 1);
        if close >= chars.len() {
            assert(texts(out@) =~= quoted(text@, delimiter));
            return out;
        }
        let ghost before = out@;
        out.push(piece(&chars, open + 1, close));
        proof {
            let part = text@.subrange(open + 1, close as int);
            assert(texts(out@) =~= texts(before).push(part));
            assert(texts(out@) + quoted_from(text@, delimiter, close + 1) =~= texts(before)
                + quoted_from(text@, delimiter, start as int));
        }
        start = close + 1;
    }
}

/// How often the character occurs among the first `n` of the text.
pub open spec fn occurrences(s: Seq<char>, c: char, n: int) -> nat
    decreases n,
{
    if n <= 0 || n > s.len() {
        0
    } else {
        occurrences(s, c, n - 1) + if s[n - 1] == c {
            1nat
        } else {
            0nat
        }
    }
}

/// The text with its quoted parts, and the delimiters, made blank. A part that is
/// opened and not closed is blank to the end.
pub open spec fn blanked(s: Seq<char>, delimiter: char) -> Seq<char> {
    Seq::new(
        s.len(),
        |i: int|
            if s[i] == delimiter || occurrences(s, delimiter, i) % 2 == 1 {
                ' '
            } else {
                s[i]
            },
    )
}

fn blank_quoted(text: &str, delimiter: char) -> (r: String)
    ensures
        r@ == blanked(text@, delimiter),
{
    let chars = chars_of(text);
    let mut out = String::new();
    let mut inside = false;
    let mut i: usize = 0;
    while i < chars.len()
        invariant
            chars@ == text@,
            i <= chars@.len(),
            inside == (occurrences(text@, delimiter, i as int) % 2 == 1),
            out@ == blanked(text@, delimiter).take(i as int),
        decreases chars@.len() - i,
    {
        let c = chars[i];
        let ghost kept = out@;
        if c == delimiter {
            inside = !inside;
            out.push(' ');
        } else if inside {
            out.push(' ');
        } else {
            out.push(c);
        }
        assert(blanked(text@, delimiter).take(i + 1) =~= kept.push(
            blanked(text@, delimiter)[i as int],
        ));
        i = i + 1;
    }
    assert(blanked(text@, delimiter).take(i as int) =~= blanked(text@, delimiter));
    out
}

// ---------------------------------------------------------------------------
// Paths
// ---------------------------------------------------------------------------

/// Whether the text reads as the relative path of a document: it has a slash, does
/// not begin with one, and ends in the extension of a document.
pub open spec fn reads_as_path(s: Seq<char>) -> bool {
    &&& has_any(s, CharClass::Is('/'))
    &&& !has_prefix(s, "/"@)
    &&& (has_suffix(s, ".md"@) || has_suffix(s, ".txt"@) || has_suffix(s, ".sql"@) || has_suffix(
        s,
        ".json"@,
    ) || has_suffix(s, ".jsonl"@) || has_suffix(s, ".csv"@))
}

pub fn looks_like_path(value: &str) -> (r: bool)
    ensures
        r == reads_as_path(value@),
{
    any(value, CharClass::Is('/')) && !starts_with(value, "/") && (ends_with(value, ".md")
        || ends_with(value, ".txt") || ends_with(value, ".sql") || ends_with(value, ".json")
        || ends_with(value, ".jsonl") || ends_with(value, ".csv"))
}

/// Every path that the query names: in backquotes, in double quotes, or as a word
/// of its own outside both.
pub open spec fn named_paths(query: Seq<char>) -> Seq<Seq<char>> {
    let p = |t: Seq<char>| reads_as_path(t);
    let bare = words(blanked(blanked(query, '`'), '"'));
    (quoted(query, '`') + quoted(query, '"') + bare.map_values(
        |t: Seq<char>| trim_class(t, CharClass::AroundPath),
    )).filter(p)
}

pub open spec fn strictly_ascending(v: Seq<Seq<char>>) -> bool {
    forall|i: int, j: int| 0 <= i < j < v.len() ==> text_less(#[trigger] v[i], #[trigger] v[j])
}

/// The least `limit` texts of `all`, each once, in ascending order.
pub open spec fn least_distinct(v: Seq<Seq<char>>, all: Seq<Seq<char>>, limit: int) -> bool {
    &&& strictly_ascending(v)
    &&& v.len() <= limit
    &&& forall|i: int| 0 <= i < v.len() ==> all.contains(#[trigger] v[i])
    &&& forall|t: Seq<char>| #[trigger]
        all.contains(t) ==> v.contains(t) || (v.len() == limit && limit > 0 && text_less(
            v[limit - 1],
            t,
        ))
}

/// The least texts of a list are settled by the list.
pub proof fn lemma_least_distinct_unique(
    v: Seq<Seq<char>>,
    w: Seq<Seq<char>>,
    all: Seq<Seq<char>>,
    limit: int,
)
    requires
        least_distinct(v, all, limit),
        least_distinct(w, all, limit),
    ensures
        v == w,
{
    let n = if v.len() < w.len() {
        v.len() as int
    } else {
        w.len() as int
    };
    lemma_least_agree(v, w, all, limit, n);
    lemma_least_no_more(v, w, all, limit);
    assert forall|i: int| 0 <= i < w.len() && i < v.len() implies w[i] == #[trigger] v[i] by {}
    lemma_least_no_more(w, v, all, limit);
    assert(v =~= w);
}

proof fn lemma_least_no_more(
    v: Seq<Seq<char>>,
    w: Seq<Seq<char>>,
    all: Seq<Seq<char>>,
    limit: int,
)
    requires
        least_distinct(v, all, limit),
        least_distinct(w, all, limit),
        forall|i: int| 0 <= i < v.len() && i < w.len() ==> v[i] == #[trigger] w[i],
    ensures
        w.len() <= v.len(),
{
    if v.len() < w.len() {
        let t = w[v.len() as int];
        assert(all.contains(t));
        let k = choose|k: int| 0 <= k < v.len() && v[k] == t;
        assert(w[k] == t);
        lemma_text_less_irreflexive(t);
    }
}

/// The next text of `v` is not less than that of `w`.
proof fn lemma_least_step(
    v: Seq<Seq<char>>,
    w: Seq<Seq<char>>,
    all: Seq<Seq<char>>,
    limit: int,
    n: int,
)
    requires
        least_distinct(v, all, limit),
        least_distinct(w, all, limit),
        0 <= n < v.len(),
        n < w.len(),
        forall|i: int| 0 <= i < n ==> v[i] == #[trigger] w[i],
    ensures
        !text_less(v[n], w[n]),
{
    if text_less(v[n], w[n]) {
        let t = v[n];
        assert(all.contains(t));
        if w.contains(t) {
            let k = choose|k: int| 0 <= k < w.len() && w[k] == t;
            if k < n {
                assert(v[k] == t);
                lemma_text_less_irreflexive(t);
            } else if k == n {
                lemma_text_less_irreflexive(t);
            } else {
                lemma_text_less_asymmetric(w[n], w[k]);
            }
        } else {
            let last = w[limit - 1];
            if limit - 1 > n {
                lemma_text_less_transitive(t, w[n], last);
            }
            lemma_text_less_asymmetric(last, t);
        }
    }
}

proof fn lemma_least_agree(
    v: Seq<Seq<char>>,
    w: Seq<Seq<char>>,
    all: Seq<Seq<char>>,
    limit: int,
    n: int,
)
    requires
        least_distinct(v, all, limit),
        least_distinct(w, all, limit),
        0 <= n <= v.len(),
        n <= w.len(),
    ensures
        forall|i: int| 0 <= i < n ==> v[i] == #[trigger] w[i],
    decreases n,
{
    if n > 0 {
        lemma_least_agree(v, w, all, limit, n - 1);
        assert forall|i: int| 0 <= i < n - 1 implies w[i] == #[trigger] v[i] by {}
        lemma_least_step(v, w, all, limit, n - 1);
        lemma_least_step(w, v, all, limit, n - 1);
        lemma_text_less_total(v[n - 1], w[n - 1]);
    }
}

/// The paths that a query names, as far as they are looked up.
pub open spec fn hints_of(query: Seq<char>) -> Seq<Seq<char>> {
    choose|v: Seq<Seq<char>>| #[trigger]
        least_distinct(v, named_paths(query), MAX_PATH_HINTS as int)
}

/// Puts a text into an ascending list, unless it is there.
pub(crate) fn put_ascending(list: &mut Vec<String>, text: String)
    requires
        strictly_ascending(texts(old(list)@)),
    ensures
        strictly_ascending(texts(final(list)@)),
        forall|t: Seq<char>| #[trigger]
            texts(final(list)@).contains(t) <==> t == text@ || texts(old(list)@).contains(t),
{
    let ghost all = texts(list@);
    let mut at: usize = 0;
    while at < list.len() && crate::text::before(list[at].as_str(), text.as_str())
        invariant
            at <= list@.len(),
            list@ == old(list)@,
            all == texts(list@),
            forall|i: int| 0 <= i < at ==> text_less(#[trigger] all[i], text@),
        decreases list@.len() - at,
    {
        assert(all[at as int] == list@[at as int]@);
        at = at + 1;
    }
    if at < list.len() && list[at] == text {
        proof {
            assert(all[at as int] == text@);
            assert(all.contains(text@));
        }
        return ;
    }
    list.insert(at, text);
    proof {
        let new = texts(list@);
        assert(new =~= all.insert(at as int, text@));
        if at < all.len() {
            assert(all[at as int] == old(list)@[at as int]@);
            lemma_text_less_total(all[at as int], text@);
            assert(text_less(text@, all[at as int]));
        }
        assert forall|i: int, j: int| 0 <= i < j < new.len() implies text_less(
            #[trigger] new[i],
            #[trigger] new[j],
        ) by {
            if j == at {
                assert(new[i] == all[i]);
            } else if i == at {
                assert(new[j] == all[j - 1]);
                if j - 1 > at {
                    lemma_text_less_transitive(text@, all[at as int], all[j - 1]);
                }
            } else {
                let a = if i < at { i } else { i - 1 };
                let b = if j < at { j } else { j - 1 };
                assert(new[i] == all[a]);
                assert(new[j] == all[b]);
            }
        }
        assert forall|t: Seq<char>| #[trigger]
            new.contains(t) <==> t == text@ || all.contains(t) by {
            assert(new[at as int] == text@);
            if all.contains(t) {
                let k = choose|k: int| 0 <= k < all.len() && all[k] == t;
                if k < at {
                    assert(new[k] == t);
                } else {
                    assert(new[k + 1] == t);
                }
            }
            if new.contains(t) {
                let k = choose|k: int| 0 <= k < new.len() && new[k] == t;
                if k < at {
                    assert(all[k] == t);
                } else if k > at {
                    assert(all[k - 1] == t);
                }
            }
        }
    }
}

/// Puts every text of `items` that reads as a path into an ascending list.
fn put_paths(list: &mut Vec<String>, items: Vec<String>)
    requires
        strictly_ascending(texts(old(list)@)),
    ensures
        strictly_ascending(texts(final(list)@)),
        forall|t: Seq<char>| #[trigger]
            texts(final(list)@).contains(t) <==> texts(old(list)@).contains(t) || (reads_as_path(t)
                && texts(items@).contains(t)),
{
    let mut i: usize = 0;
    let ghost all = texts(items@);
    while i < items.len()
        invariant
            i <= items@.len(),
            all == texts(items@),
            strictly_ascending(texts(list@)),
            forall|t: Seq<char>| #[trigger]
                texts(list@).contains(t) <==> texts(old(list)@).contains(t) || (reads_as_path(t)
                    && all.take(i as int).contains(t)),
        decreases items@.len() - i,
    {
        let ghost held = texts(list@);
        let ghost item = items@[i as int]@;
        if looks_like_path(items[i].as_str()) {
            put_ascending(list, items[i].clone());
        }
        proof {
            assert(all.take(i + 1) =~= all.take(i as int).push(item));
            assert forall|t: Seq<char>| #[trigger]
                texts(list@).contains(t) <==> texts(old(list)@).contains(t) || (reads_as_path(t)
                    && all.take(i + 1).contains(t)) by {
                assert(held.contains(t) <==> texts(old(list)@).contains(t) || (reads_as_path(t)
                    && all.take(i as int).contains(t)));
                lemma_push_contains(all.take(i as int), item, t);
            }
        }
        i = i + 1;
    }
    assert(all.take(i as int) =~= all);
}

/// The texts, each trimmed of the characters of the class.
fn trim_each(items: Vec<String>, class: CharClass) -> (r: Vec<String>)
    ensures
        texts(r@) == texts(items@).map_values(|t: Seq<char>| trim_class(t, class)),
{
    let mut out: Vec<String> = Vec::new();
    let ghost f = |t: Seq<char>| trim_class(t, class);
    let mut i: usize = 0;
    while i < items.len()
        invariant
            i <= items@.len(),
            f == (|t: Seq<char>| trim_class(t, class)),
            texts(out@) == texts(items@).take(i as int).map_values(f),
        decreases items@.len() - i,
    {
        let ghost held = out@;
        let item = trim_of(items[i].as_str(), class);
        out.push(item);
        proof {
            lemma_texts_push(held, item);
            lemma_map_take(texts(items@), f, i as int);
        }
        i = i + 1;
    }
    assert(texts(items@).take(i as int) =~= texts(items@));
    out
}

/// The paths that the query names, each once, in ascending order, at most
/// `MAX_PATH_HINTS` of them.
pub fn path_hints(query: &str) -> (r: Vec<String>)
    ensures
        least_distinct(texts(r@), named_paths(query@), MAX_PATH_HINTS as int),
        texts(r@) == hints_of(query@),
{
    let backquoted = quoted_parts(query, '`');
    let double_quoted = quoted_parts(query, '"');
    let bare = blank_quoted(blank_quoted(query, '`').as_str(), '"');
    let tokens = trim_each(split_words(bare.as_str()), CharClass::AroundPath);
    let ghost a = texts(backquoted@);
    let ghost b = texts(double_quoted@);
    let ghost c = texts(tokens@);
    let mut list: Vec<String> = Vec::new();
    put_paths(&mut list, backquoted);
    put_paths(&mut list, double_quoted);
    put_paths(&mut list, tokens);
    let ghost all = named_paths(query@);
    let ghost full = texts(list@);
    proof {
        let p = |t: Seq<char>| reads_as_path(t);
        assert forall|t: Seq<char>| #[trigger] all.contains(t) <==> full.contains(t) by {
            lemma_filter_contains(a + b + c, p, t);
            lemma_add_contains(a + b, c, t);
            lemma_add_contains(a, b, t);
        }
    }
    list.truncate(MAX_PATH_HINTS);
    proof {
        let v = texts(list@);
        assert(v =~= full.take(v.len() as int));
        assert forall|t: Seq<char>| #[trigger] all.contains(t) implies v.contains(t) || (v.len()
            == MAX_PATH_HINTS && text_less(v[MAX_PATH_HINTS - 1], t)) by {
            assert(full.contains(t));
            let k = choose|k: int| 0 <= k < full.len() && full[k] == t;
            if k < v.len() {
                assert(v[k] == t);
            } else {
                assert(full[MAX_PATH_HINTS - 1] == v[MAX_PATH_HINTS - 1]);
            }
        }
        assert forall|i: int| 0 <= i < v.len() implies all.contains(#[trigger] v[i]) by {
            assert(full[i] == v[i]);
            assert(full.contains(v[i]));
        }
        assert(least_distinct(v, all, MAX_PATH_HINTS as int));
        lemma_least_distinct_unique(v, hints_of(query@), all, MAX_PATH_HINTS as int);
    }
    list
}

// ---------------------------------------------------------------------------
// Clues
// ---------------------------------------------------------------------------

/// Whether a bare word is a clue by its shape: it has an underscore, or a digit
/// and a dash or slash.
pub open spec fn reads_as_clue(s: Seq<char>) -> bool {
    has_any(s, CharClass::Is('_')) || (has_any(s, CharClass::AsciiDigit) && has_any(
        s,
        CharClass::DashOrSlash,
    ))
}

pub fn looks_like_unquoted_search_anchor(value: &str) -> (r: bool)
    ensures
        r == reads_as_clue(value@),
{
    any(value, CharClass::Is('_')) || (any(value, CharClass::AsciiDigit) && any(
        value,
        CharClass::DashOrSlash,
    ))
}

/// Which texts can be clues: those of at least `least` and at most 256 characters,
/// and of bare words only those that read as one.
pub open spec fn clue_shape(least: int, bare: bool) -> spec_fn(Seq<char>) -> bool {
    |t: Seq<char>| least <= t.len() <= 256 && (bare ==> reads_as_clue(t))
}

/// The quoted clues of a query: what stands between two delimiters, trimmed, if it
/// has 3 to 256 characters.
pub open spec fn quoted_clues(query: Seq<char>, delimiter: char) -> Seq<Seq<char>> {
    quoted(query, delimiter).map_values(
        |t: Seq<char>| trim_class(t, CharClass::Whitespace),
    ).filter(clue_shape(3, false))
}

/// The bare clues of a query: its words of 6 to 256 characters that read as one.
pub open spec fn bare_clues(query: Seq<char>) -> Seq<Seq<char>> {
    words(query).map_values(|t: Seq<char>| trim_class(t, CharClass::BetweenTokens)).filter(
        clue_shape(6, true),
    )
}

/// The clues of a query that are not the whole query, in their order.
pub open spec fn clues(query: Seq<char>) -> Seq<Seq<char>> {
    (quoted_clues(query, '`') + quoted_clues(query, '"') + bare_clues(query)).filter(
        |t: Seq<char>| !equal_ignoring_case(t, trimmed(query)),
    )
}

pub open spec fn holds_ignoring_case(v: Seq<Seq<char>>, t: Seq<char>) -> bool {
    exists|i: int| 0 <= i < v.len() && equal_ignoring_case(#[trigger] v[i], t)
}

/// The texts without those that repeat an earlier one up to ASCII case.
pub open spec fn distinct_ignoring_case(v: Seq<Seq<char>>) -> Seq<Seq<char>>
    decreases v.len(),
{
    if v.len() == 0 {
        v
    } else {
        let front = distinct_ignoring_case(v.drop_last());
        if holds_ignoring_case(front, v.last()) {
            front
        } else {
            front.push(v.last())
        }
    }
}

/// The clues that are used: the first ones, each once up to ASCII case.
pub open spec fn used_clues(query: Seq<char>) -> Seq<Seq<char>> {
    first_of(distinct_ignoring_case(clues(query)), MAX_SEARCH_ANCHORS as int)
}

/// The texts of a length between two bounds; of bare words only those that read as
/// a clue.
fn keep_clues(items: Vec<String>, least: usize, bare: bool) -> (r: Vec<String>)
    ensures
        texts(r@) == texts(items@).filter(clue_shape(least as int, bare)),
{
    let ghost p = clue_shape(least as int, bare);
    let ghost all = texts(items@);
    let mut out: Vec<String> = Vec::new();
    let mut i: usize = 0;
    proof {
        reveal(Seq::filter);
        assert(all.take(0) =~= Seq::<Seq<char>>::empty());
        assert(texts(out@) =~= all.take(0).filter(p));
    }
    while i < items.len()
        invariant
            i <= items@.len(),
            all == texts(items@),
            p == clue_shape(least as int, bare),
            texts(out@) == all.take(i as int).filter(p),
        decreases items@.len() - i,
    {
        let ghost held = out@;
        proof {
            reveal(Seq::filter);
            assert(all.take(i + 1).drop_last() =~= all.take(i as int));
            assert(all.take(i + 1).last() == items@[i as int]@);
        }
        let n: usize = items[i].as_str().unicode_len();
        if least <= n && n <= 256 && (!bare || looks_like_unquoted_search_anchor(
            items[i].as_str(),
        )) {
            out.push(items[i].clone());
            assert(texts(out@) =~= texts(held).push(items@[i as int]@));
        }
        i = i + 1;
    }
    assert(all.take(i as int) =~= all);
    out
}

fn repeats(list: &Vec<String>, text: &str) -> (r: bool)
    ensures
        r == holds_ignoring_case(texts(list@), text@),
{
    let mut i: usize = 0;
    while i < list.len()
        invariant
            i <= list@.len(),
            forall|k: int| 0 <= k < i ==> !equal_ignoring_case(#[trigger] texts(list@)[k], text@),
        decreases list@.len() - i,
    {
        if same_ignoring_case(list[i].as_str(), text) {
            assert(equal_ignoring_case(texts(list@)[i as int], text@));
            return true;
        }
        i = i + 1;
    }
    false
}

/// The clues of the query that a search anchors on: quoted ones first, then words
/// shaped like an identifier; never the query as a whole, none twice, at most
/// `MAX_SEARCH_ANCHORS`.
pub fn search_anchors(query: &str) -> (r: Vec<String>)
    ensures
        texts(r@) == used_clues(query@),
{
    let mut all = keep_clues(
        trim_each(quoted_parts(query, '`'), CharClass::Whitespace),
        3,
        false,
    );
    let mut double_quoted = keep_clues(
        trim_each(quoted_parts(query, '"'), CharClass::Whitespace),
        3,
        false,
    );
    let mut bare = keep_clues(
        trim_each(split_words(query), CharClass::BetweenTokens),
        6,
        true,
    );
    let ghost a = texts(all@);
    let ghost b = texts(double_quoted@);
    let ghost c = texts(bare@);
    all.append(&mut double_quoted);
    all.append(&mut bare);
    let ghost every = texts(all@);
    assert(every =~= a + b + c);
    let whole = trim(query);
    let ghost p = |t: Seq<char>| !equal_ignoring_case(t, trimmed(query@));
    let mut out: Vec<String> = Vec::new();
    let mut i: usize = 0;
    proof {
        reveal(Seq::filter);
        assert(every.take(0) =~= Seq::<Seq<char>>::empty());
        assert(texts(out@) =~= distinct_ignoring_case(every.take(0).filter(p)));
    }
    while i < all.len()
        invariant
            i <= all@.len(),
            every == texts(all@),
            whole@ == trimmed(query@),
            p == (|t: Seq<char>| !equal_ignoring_case(t, trimmed(query@))),
            texts(out@) == distinct_ignoring_case(every.take(i as int).filter(p)),
        decreases all@.len() - i,
    {
        let ghost held = out@;
        let ghost kept = every.take(i as int).filter(p);
        let ghost item = all@[i as int]@;
        proof {
            reveal(Seq::filter);
            assert(every.take(i + 1).drop_last() =~= every.take(i as int));
            assert(every.take(i + 1).last() == item);
        }
        if !same_ignoring_case(all[i].as_str(), whole.as_str()) {
            assert(every.take(i + 1).filter(p) =~= kept.push(item));
            assert(kept.push(item).drop_last() =~= kept);
            if !repeats(&out, all[i].as_str()) {
                out.push(all[i].clone());
                assert(texts(out@) =~= texts(held).push(item));
            }
        }
        i = i + 1;
    }
    assert(every.take(i as int) =~= every);
    let ghost full = texts(out@);
    out.truncate(MAX_SEARCH_ANCHORS);
    assert(texts(out@) =~= first_of(full, MAX_SEARCH_ANCHORS as int));
    out
}

// ---------------------------------------------------------------------------
// Search text
// ---------------------------------------------------------------------------

/// The characters of the text in lower case, one character at a time.
pub open spec fn lower_chars(s: Seq<char>) -> Seq<char>
    decreases s.len(),
{
    if s.len() == 0 {
        s
    } else {
        lower_chars(s.drop_last()) + lower_case_char(s.last())
    }
}

fn lower_each(text: &str) -> (r: Vec<char>)
    ensures
        r@ == lower_chars(text@),
{
    let chars = chars_of(text);
    let mut out: Vec<char> = Vec::new();
    let mut i: usize = 0;
    while i < chars.len()
        invariant
            chars@ == text@,
            i <= chars@.len(),
            out@ == lower_chars(text@.take(i as int)),
        decreases chars@.len() - i,
    {
        proof {
            assert(text@.take(i + 1).drop_last() =~= text@.take(i as int));
            assert(text@.take(i + 1).last() == text@[i as int]);
        }
        let mut lowered = lower_char(chars[i]);
        out.append(&mut lowered);
        i = i + 1;
    }
    assert(text@.take(i as int) =~= text@);
    out
}

/// The words one behind the other, each followed by a space.
pub open spec fn spaced(ws: Seq<Seq<char>>) -> Seq<char>
    decreases ws.len(),
{
    if ws.len() == 0 {
        Seq::empty()
    } else {
        ws[0].push(' ') + spaced(ws.drop_first())
    }
}

/// The alphanumeric words of the text in lower case, each between single spaces.
pub open spec fn search_words(s: Seq<char>) -> Seq<char> {
    seq![' '] + spaced(nonempty(split(lower_chars(s), CharClass::NotAlphanumeric)))
}

/// The alphanumeric characters of the text in lower case, without anything between.
pub open spec fn search_letters(s: Seq<char>) -> Seq<char> {
    only(lower_chars(s), CharClass::Alphanumeric)
}

/// A piece in front of others counts among the words where it is not empty.
pub proof fn lemma_nonempty_front(piece: Seq<char>, rest: Seq<Seq<char>>)
    ensures
        nonempty(seq![piece] + rest) == if piece.len() > 0 {
            seq![piece] + nonempty(rest)
        } else {
            nonempty(rest)
        },
        piece.len() > 0 ==> spaced(nonempty(seq![piece] + rest)) == piece.push(' ') + spaced(
            nonempty(rest),
        ),
{
    let p = |t: Seq<char>| t.len() > 0;
    Seq::filter_distributes_over_add(seq![piece], rest, p);
    reveal(Seq::filter);
    assert(seq![piece].drop_last() =~= Seq::<Seq<char>>::empty());
    assert(Seq::<Seq<char>>::empty().filter(p) =~= Seq::<Seq<char>>::empty());
    if piece.len() > 0 {
        assert(seq![piece].filter(p) =~= seq![piece]);
        assert((seq![piece] + nonempty(rest)).drop_first() =~= nonempty(rest));
    } else {
        assert(seq![piece].filter(p) =~= Seq::<Seq<char>>::empty());
        assert(nonempty(seq![piece] + rest) =~= nonempty(rest));
    }
}

pub fn normalized_search_words(value: &str) -> (r: String)
    ensures
        r@ == search_words(value@),
{
    let chars = lower_each(value);
    let ghost s = lower_chars(value@);
    let class = CharClass::NotAlphanumeric;
    let mut out = String::new();
    out.push(' ');
    let mut start: usize = 0;
    assert(out@ + spaced(nonempty(split_from(s, class, 0))) =~= search_words(value@));
    loop
        invariant
            chars@ == s,
            class == CharClass::NotAlphanumeric,
            start <= chars@.len(),
            out@ + spaced(nonempty(split_from(s, class, start as int))) == search_words(value@),
        decreases chars@.len() - start,
    {
        let end = find_from(&chars, class, start);
        let ghost held = out@;
        let word = piece(&chars, start, end);
        proof {
            let rest = if end >= s.len() {
                Seq::<Seq<char>>::empty()
            } else {
                split_from(s, class, end + 1)
            };
            assert(split_from(s, class, start as int) =~= seq![word@] + rest);
            lemma_nonempty_front(word@, rest);
        }
        if end > start {
            out.append(word.as_str());
            out.push(' ');
            assert(out@ =~= held + word@.push(' '));
        }
        if end >= chars.len() {
            proof {
                reveal(Seq::filter);
                assert(nonempty(Seq::<Seq<char>>::empty()) =~= Seq::<Seq<char>>::empty());
                assert(out@ =~= search_words(value@));
            }
            return out;
        }
        assert(out@ + spaced(nonempty(split_from(s, class, end + 1))) =~= search_words(value@));
        start = end + 1;
    }
}

pub fn collapsed_search_text(value: &str) -> (r: String)
    ensures
        r@ == search_letters(value@),
{
    let chars = lower_each(value);
    let ghost s = lower_chars(value@);
    let ghost p = |c: char| CharClass::Alphanumeric.has(c);
    let mut out = String::new();
    let mut i: usize = 0;
    proof {
        reveal(Seq::filter);
        assert(s.take(0) =~= Seq::<char>::empty());
        assert(out@ =~= s.take(0).filter(p));
    }
    while i < chars.len()
        invariant
            chars@ == s,
            i <= chars@.len(),
            p == (|c: char| CharClass::Alphanumeric.has(c)),
            out@ == s.take(i as int).filter(p),
        decreases chars@.len() - i,
    {
        proof {
            reveal(Seq::filter);
            assert(s.take(i + 1).drop_last() =~= s.take(i as int));
            assert(s.take(i + 1).last() == s[i as int]);
        }
        if CharClass::Alphanumeric.test(chars[i]) {
            out.push(chars[i]);
        }
        i = i + 1;
    }
    assert(s.take(i as int) =~= s);
    out
}

/// Whether a term is found in a text of which the words and the letters are given:
/// as whole words, or, where it has at least five letters, anywhere in the letters.
pub open spec fn finds(words: Seq<char>, letters: Seq<char>, term: Seq<char>) -> bool {
    occurs(words, search_words(term)) || (search_letters(term).len() >= 5 && occurs(
        letters,
        search_letters(term),
    ))
}

pub fn search_text_contains(words: &str, collapsed: &str, term: &str) -> (r: bool)
    ensures
        r == finds(words@, collapsed@, term@),
{
    let normalized_term = normalized_search_words(term);
    let collapsed_term = collapsed_search_text(term);
    contains(words, normalized_term.as_str()) || (collapsed_term.as_str().unicode_len() >= 5
        && contains(collapsed, collapsed_term.as_str()))
}

// ---------------------------------------------------------------------------
// Terms
// ---------------------------------------------------------------------------

/// The words that say nothing about what is searched for.
pub open spec fn is_noise(term: Seq<char>) -> bool {
        term == "and"@
        || term == "are"@
        || term == "about"@
        || term == "after"@
        || term == "against"@
        || term == "also"@
        || term == "before"@
        || term == "being"@
        || term == "between"@
        || term == "could"@
        || term == "current"@
        || term == "does"@
        || term == "each"@
        || term == "for"@
        || term == "inspect"@
        || term == "explain"@
        || term == "from"@
        || term == "give"@
        || term == "handle"@
        || term == "have"@
        || term == "identify"@
        || term == "into"@
        || term == "leave"@
        || term == "needed"@
        || term == "only"@
        || term == "please"@
        || term == "reconcile"@
        || term == "report"@
        || term == "request"@
        || term == "resume"@
        || term == "should"@
        || term == "state"@
        || term == "task"@
        || term == "that"@
        || term == "the"@
        || term == "their"@
        || term == "them"@
        || term == "then"@
        || term == "there"@
        || term == "these"@
        || term == "this"@
        || term == "through"@
        || term == "using"@
        || term == "was"@
        || term == "were"@
        || term == "what"@
        || term == "when"@
        || term == "where"@
        || term == "whether"@
        || term == "which"@
        || term == "while"@
        || term == "with"@
        || term == "without"@
        || term == "would"@
        || term == "will"@
        || term == "work"@
}

pub fn is_lexical_noise(term: &str) -> (r: bool)
    ensures
        r == is_noise(term@),
{
        same(term, "and")
        || same(term, "are")
        || same(term, "about")
        || same(term, "after")
        || same(term, "against")
        || same(term, "also")
        || same(term, "before")
        || same(term, "being")
        || same(term, "between")
        || same(term, "could")
        || same(term, "current")
        || same(term, "does")
        || same(term, "each")
        || same(term, "for")
        || same(term, "inspect")
        || same(term, "explain")
        || same(term, "from")
        || same(term, "give")
        || same(term, "handle")
        || same(term, "have")
        || same(term, "identify")
        || same(term, "into")
        || same(term, "leave")
        || same(term, "needed")
        || same(term, "only")
        || same(term, "please")
        || same(term, "reconcile")
        || same(term, "report")
        || same(term, "request")
        || same(term, "resume")
        || same(term, "should")
        || same(term, "state")
        || same(term, "task")
        || same(term, "that")
        || same(term, "the")
        || same(term, "their")
        || same(term, "them")
        || same(term, "then")
        || same(term, "there")
        || same(term, "these")
        || same(term, "this")
        || same(term, "through")
        || same(term, "using")
        || same(term, "was")
        || same(term, "were")
        || same(term, "what")
        || same(term, "when")
        || same(term, "where")
        || same(term, "whether")
        || same(term, "which")
        || same(term, "while")
        || same(term, "with")
        || same(term, "without")
        || same(term, "would")
        || same(term, "will")
        || same(term, "work")
}

/// Whether a part of the query can be a term: not a single digit, of at least three
/// characters unless it has a digit, and no noise.
pub open spec fn can_be_term(raw: Seq<char>) -> bool {
    let term = lower_case(raw);
    let digit = has_any(term, CharClass::AsciiDigit);
    &&& raw.len() > 0
    &&& !(term.len() == 1 && digit)
    &&& (digit || term.len() >= 3)
    &&& !is_noise(term)
}

/// Whether at least two letters, and at least half of the letters, are upper case.
pub open spec fn is_acronym(raw: Seq<char>) -> bool {
    let letters = only(raw, CharClass::Alphabetic);
    let upper = letters.filter(|c: char| upper_case(c)).len();
    upper >= 2 && upper * 2 >= letters.len()
}

/// Whether a term tells documents apart: it has a digit, is an acronym, or joins
/// several parts.
pub open spec fn is_distinctive(raw: Seq<char>) -> bool {
    has_any(lower_case(raw), CharClass::AsciiDigit) || is_acronym(raw) || has_any(
        raw,
        CharClass::Joiner,
    )
}

pub open spec fn holds_term(v: Seq<Seq<char>>, term: Seq<char>) -> bool {
    exists|i: int| 0 <= i < v.len() && lower_case(#[trigger] v[i]) == term
}

/// The parts of the query that are terms, each once up to case, in their order.
pub open spec fn term_parts(parts: Seq<Seq<char>>) -> Seq<Seq<char>>
    decreases parts.len(),
{
    if parts.len() == 0 {
        parts
    } else {
        let front = term_parts(parts.drop_last());
        let raw = parts.last();
        if can_be_term(raw) && !holds_term(front, lower_case(raw)) {
            front.push(raw)
        } else {
            front
        }
    }
}

/// The parts of a query between which it is cut into terms.
pub open spec fn query_parts(query: Seq<char>) -> Seq<Seq<char>> {
    split(query, CharClass::BetweenTokens).map_values(
        |t: Seq<char>| trim_class(t, CharClass::NotAlphanumeric),
    )
}

/// The terms of a query, distinctive ones first, each group in its order: for each
/// its text in lower case, and whether it is distinctive.
pub open spec fn query_terms(query: Seq<char>) -> Seq<(Seq<char>, bool)> {
    let parts = term_parts(query_parts(query));
    parts.filter(|raw: Seq<char>| is_distinctive(raw)).map_values(
        |raw: Seq<char>| (lower_case(raw), true),
    ) + parts.filter(|raw: Seq<char>| !is_distinctive(raw)).map_values(
        |raw: Seq<char>| (lower_case(raw), false),
    )
}

/// A term of a query.
#[derive(Debug)]
pub struct LexicalTerm {
    pub text: String,
    pub distinctive: bool,
}

pub open spec fn terms_view(v: Seq<LexicalTerm>) -> Seq<(Seq<char>, bool)> {
    Seq::new(v.len(), |i: int| (v[i].text@, v[i].distinctive))
}

fn is_acronym_text(raw: &str) -> (r: bool)
    ensures
        r == is_acronym(raw@),
{
    let chars = chars_of(raw);
    let ghost s = raw@;
    let ghost p = |c: char| CharClass::Alphabetic.has(c);
    let ghost u = |c: char| upper_case(c);
    let mut letters: usize = 0;
    let mut upper: usize = 0;
    let mut i: usize = 0;
    proof {
        reveal(Seq::filter);
        assert(s.take(0) =~= Seq::<char>::empty());
    }
    while i < chars.len()
        invariant
            chars@ == s,
            i <= chars@.len(),
            p == (|c: char| CharClass::Alphabetic.has(c)),
            u == (|c: char| upper_case(c)),
            letters == s.take(i as int).filter(p).len(),
            upper == s.take(i as int).filter(p).filter(u).len(),
            upper <= letters <= i,
        decreases chars@.len() - i,
    {
        let ghost kept = s.take(i as int).filter(p);
        proof {
            reveal(Seq::filter);
            assert(s.take(i + 1).drop_last() =~= s.take(i as int));
            assert(s.take(i + 1).last() == s[i as int]);
        }
        if CharClass::Alphabetic.test(chars[i]) {
            letters = letters + 1;
            assert(s.take(i + 1).filter(p) =~= kept.push(s[i as int]));
            assert(kept.push(s[i as int]).drop_last() =~= kept);
            if chars[i].is_uppercase() {
                upper = upper + 1;
            }
        }
        i = i + 1;
    }
    assert(s.take(i as int) =~= s);
    upper >= 2 && upper >= letters - upper
}

fn holds_text(list: &Vec<String>, text: &str) -> (r: bool)
    ensures
        r == texts(list@).contains(text@),
{
    let mut i: usize = 0;
    while i < list.len()
        invariant
            i <= list@.len(),
            forall|k: int| 0 <= k < i ==> #[trigger] texts(list@)[k] != text@,
        decreases list@.len() - i,
    {
        if same(list[i].as_str(), text) {
            assert(texts(list@)[i as int] == text@);
            return true;
        }
        i = i + 1;
    }
    false
}

proof fn lemma_holds_term(v: Seq<Seq<char>>, lowered: Seq<Seq<char>>, term: Seq<char>)
    requires
        lowered == v.map_values(|raw: Seq<char>| lower_case(raw)),
    ensures
        lowered.contains(term) <==> holds_term(v, term),
{
    if lowered.contains(term) {
        let k = choose|k: int| 0 <= k < lowered.len() && lowered[k] == term;
        assert(lower_case(v[k]) == term);
    }
    if holds_term(v, term) {
        let k = choose|k: int| 0 <= k < v.len() && lower_case(#[trigger] v[k]) == term;
        assert(lowered[k] == term);
    }
}

/// The first `limit` terms of the query.
pub fn lexical_term_candidates(query: &str, limit: usize) -> (r: Vec<LexicalTerm>)
    ensures
        terms_view(r@) == first_of(query_terms(query@), limit as int),
{
    let parts = trim_each(split_at(query, CharClass::BetweenTokens), CharClass::NotAlphanumeric);
    let ghost all = query_parts(query@);
    assert(texts(parts@) =~= all);
    let mut distinctive: Vec<LexicalTerm> = Vec::new();
    let mut ordinary: Vec<LexicalTerm> = Vec::new();
    let mut seen: Vec<String> = Vec::new();
    let ghost low = |raw: Seq<char>| lower_case(raw);
    let ghost p = |raw: Seq<char>| is_distinctive(raw);
    let ghost q = |raw: Seq<char>| !is_distinctive(raw);
    let ghost f = |raw: Seq<char>| (lower_case(raw), true);
    let ghost g = |raw: Seq<char>| (lower_case(raw), false);
    let mut i: usize = 0;
    proof {
        reveal(Seq::filter);
        assert(all.take(0) =~= Seq::<Seq<char>>::empty());
        assert(term_parts(all.take(0)) =~= Seq::<Seq<char>>::empty());
        assert(terms_view(distinctive@) =~= term_parts(all.take(0)).filter(p).map_values(f));
        assert(terms_view(ordinary@) =~= term_parts(all.take(0)).filter(q).map_values(g));
        assert(texts(seen@) =~= term_parts(all.take(0)).map_values(low));
    }
    while i < parts.len()
        invariant
            i <= parts@.len(),
            texts(parts@) == all,
            low == (|raw: Seq<char>| lower_case(raw)),
            p == (|raw: Seq<char>| is_distinctive(raw)),
            q == (|raw: Seq<char>| !is_distinctive(raw)),
            f == (|raw: Seq<char>| (lower_case(raw), true)),
            g == (|raw: Seq<char>| (lower_case(raw), false)),
            terms_view(distinctive@) == term_parts(all.take(i as int)).filter(p).map_values(f),
            terms_view(ordinary@) == term_parts(all.take(i as int)).filter(q).map_values(g),
            texts(seen@) == term_parts(all.take(i as int)).map_values(low),
        decreases parts@.len() - i,
    {
        let ghost front = term_parts(all.take(i as int));
        let ghost d0 = distinctive@;
        let ghost o0 = ordinary@;
        let ghost s0 = seen@;
        let raw = parts[i].as_str();
        proof {
            assert(all.take(i + 1).drop_last() =~= all.take(i as int));
            assert(all.take(i + 1).last() == raw@);
        }
        if raw.unicode_len() > 0 {
            let term = lower(raw);
            let has_digit = any(term.as_str(), CharClass::AsciiDigit);
            let size: usize = term.as_str().unicode_len();
            let known = holds_text(&seen, term.as_str());
            proof {
                lemma_holds_term(front, texts(s0), term@);
            }
            if !(size == 1 && has_digit) && (has_digit || size >= 3) && !is_lexical_noise(
                term.as_str(),
            ) && !known {
                let kind = has_digit || is_acronym_text(raw) || any(raw, CharClass::Joiner);
                assert(term_parts(all.take(i + 1)) == front.push(raw@));
                let copy = term.clone();
                seen.push(copy);
                proof {
                    lemma_texts_push(s0, copy);
                    lemma_map_push(front, low, raw@);
                }
                if kind {
                    distinctive.push(LexicalTerm { text: term, distinctive: true });
                    proof {
                        lemma_filter_push(front, p, raw@);
                        lemma_filter_push(front, q, raw@);
                        lemma_map_push(front.filter(p), f, raw@);
                        assert(terms_view(distinctive@) =~= terms_view(d0).push(f(raw@)));
                    }
                } else {
                    ordinary.push(LexicalTerm { text: term, distinctive: false });
                    proof {
                        lemma_filter_push(front, p, raw@);
                        lemma_filter_push(front, q, raw@);
                        lemma_map_push(front.filter(q), g, raw@);
                        assert(terms_view(ordinary@) =~= terms_view(o0).push(g(raw@)));
                    }
                }
            }
        }
        i = i + 1;
    }
    assert(all.take(i as int) =~= all);
    let ghost d = terms_view(distinctive@);
    let ghost o = terms_view(ordinary@);
    distinctive.append(&mut ordinary);
    assert(terms_view(distinctive@) =~= d + o);
    let ghost full = terms_view(distinctive@);
    distinctive.truncate(limit);
    assert(terms_view(distinctive@) =~= first_of(full, limit as int));
    distinctive
}

pub fn lexical_terms(query: &str, limit: usize) -> (r: Vec<String>)
    ensures
        texts(r@) == first_of(query_terms(query@), limit as int).map_values(
            |t: (Seq<char>, bool)| t.0,
        ),
{
    let terms = lexical_term_candidates(query, limit);
    let mut out: Vec<String> = Vec::new();
    let ghost all = terms_view(terms@);
    let ghost f = |t: (Seq<char>, bool)| t.0;
    let mut i: usize = 0;
    while i < terms.len()
        invariant
            i <= terms@.len(),
            all == terms_view(terms@),
            f == (|t: (Seq<char>, bool)| t.0),
            texts(out@) == all.take(i as int).map_values(f),
        decreases terms@.len() - i,
    {
        let ghost held = out@;
        let text = terms[i].text.clone();
        out.push(text);
        proof {
            lemma_texts_push(held, text);
            lemma_map_take(all, f, i as int);
        }
        i = i + 1;
    }
    assert(all.take(i as int) =~= all);
    out
}

// ---------------------------------------------------------------------------
// Focused queries
// ---------------------------------------------------------------------------

/// How a pair of neighbouring terms ranks among the others.
#[derive(Clone, Copy, Debug, PartialEq, Eq, Structural)]
pub struct PairRank {
    /// How many of the two terms are distinctive.
    pub distinctive: usize,
    /// How many alphanumeric characters the pair has.
    pub length: usize,
    /// The position of the pair's first term.
    pub index: usize,
}

/// The order of pairs: more distinctive terms first; pairs with some by position,
/// pairs with none by length and then position.
pub struct ByFocus;

pub open spec fn focus() -> spec_fn(PairRank, PairRank) -> bool {
    |a: PairRank, b: PairRank|
        a.distinctive > b.distinctive || (a.distinctive == b.distinctive && (if a.distinctive > 0 {
            a.index < b.index
        } else {
            a.length > b.length || (a.length == b.length && a.index < b.index)
        }))
}

impl Order<PairRank> for ByFocus {
    open spec fn first(&self) -> spec_fn(PairRank, PairRank) -> bool {
        focus()
    }

    fn is_first(&self, a: &PairRank, b: &PairRank) -> (r: bool) {
        a.distinctive > b.distinctive || (a.distinctive == b.distinctive && (if a.distinctive > 0 {
            a.index < b.index
        } else {
            a.length > b.length || (a.length == b.length && a.index < b.index)
        }))
    }
}

/// Pairs are ranked by an order, so that the ranking has a meaning of its own.
pub proof fn lemma_focus_is_order()
    ensures
        crate::order::is_order(focus()),
{
}

/// How many pairs of terms are ranked.
pub const MAX_RANKED_PAIRS: usize = 8;

/// How many terms of a query the pairs are made of.
pub const MAX_PAIR_TERMS: usize = 16;

/// How many focused queries are tried.
pub const MAX_FOCUSED_QUERIES: usize = 4;

/// The pair that begins at a term.
pub open spec fn pair_text(terms: Seq<(Seq<char>, bool)>, index: int) -> Seq<char> {
    terms[index].0 + " "@ + terms[index + 1].0
}

pub open spec fn pair_rank(terms: Seq<(Seq<char>, bool)>, index: int) -> PairRank {
    PairRank {
        distinctive: ((if terms[index].1 { 1int } else { 0int }) + (if terms[index + 1].1 {
            1int
        } else {
            0int
        })) as usize,
        length: only(pair_text(terms, index), CharClass::Alphanumeric).len() as usize,
        index: index as usize,
    }
}

pub open spec fn pair_count(terms: Seq<(Seq<char>, bool)>) -> nat {
    if terms.len() == 0 {
        0
    } else if terms.len() - 1 > MAX_RANKED_PAIRS {
        MAX_RANKED_PAIRS as nat
    } else {
        (terms.len() - 1) as nat
    }
}

/// The pairs of neighbouring terms, in the order of their focus.
pub open spec fn ranked_pairs(query: Seq<char>) -> Seq<Seq<char>> {
    let terms = first_of(query_terms(query), MAX_PAIR_TERMS as int);
    sorted(focus(), Seq::new(pair_count(terms), |i: int| pair_rank(terms, i))).map_values(
        |rank: PairRank| pair_text(terms, rank.index as int),
    )
}

/// The focused queries for a query: its best pairs of terms, or its one term.
pub open spec fn focused_queries(query: Seq<char>) -> Seq<Seq<char>> {
    let pairs = ranked_pairs(query);
    if pairs.len() == 0 {
        first_of(query_terms(query), 1).map_values(|t: (Seq<char>, bool)| t.0)
    } else {
        first_of(pairs, MAX_FOCUSED_QUERIES as int)
    }
}

proof fn lemma_ranks_index(all: Seq<PairRank>, n: int)
    requires
        forall|i: int| 0 <= i < all.len() ==> (#[trigger] all[i]).index < n,
    ensures
        sorted(focus(), all).len() == all.len(),
        forall|k: int|
            0 <= k < all.len() ==> (#[trigger] sorted(focus(), all)[k]).index < n,
{
    let out = sorted(focus(), all);
    crate::order::lemma_sorted_permutes(focus(), all);
    assert forall|k: int| 0 <= k < out.len() implies (#[trigger] out[k]).index < n by {
        broadcast use vstd::seq_lib::group_to_multiset_ensures;

        assert(out.contains(out[k]));
        assert(out.to_multiset().count(out[k]) > 0);
        assert(all.to_multiset().count(out[k]) > 0);
        assert(all.contains(out[k]));
    }
}

pub fn ranked_lexical_fallback_queries(query: &str) -> (r: Vec<String>)
    ensures
        texts(r@) == ranked_pairs(query@),
{
    let terms = lexical_term_candidates(query, MAX_PAIR_TERMS);
    let ghost view = first_of(query_terms(query@), MAX_PAIR_TERMS as int);
    let ghost f = |i: int| pair_rank(view, i);
    let mut pairs: Vec<String> = Vec::new();
    let mut ranks: Vec<PairRank> = Vec::new();
    let mut i: usize = 0;
    while i + 1 < terms.len() && i < MAX_RANKED_PAIRS
        invariant
            terms_view(terms@) == view,
            i <= pair_count(view),
            i <= MAX_RANKED_PAIRS,
            terms@.len() > 0 ==> i < terms@.len(),
            f == (|i: int| pair_rank(view, i)),
            ranks@ == Seq::new(i as nat, f),
            texts(pairs@) == Seq::new(i as nat, |k: int| pair_text(view, k)),
        decreases MAX_RANKED_PAIRS - i,
    {
        let pair = cat3(terms[i].text.as_str(), " ", terms[i + 1].text.as_str());
        proof {
            assert(view[i as int] == (terms@[i as int].text@, terms@[i as int].distinctive));
            assert(view[i + 1] == (terms@[i + 1].text@, terms@[i + 1].distinctive));
        }
        let length = count(pair.as_str(), CharClass::Alphanumeric);
        let mut distinctive: usize = 0;
        if terms[i].distinctive {
            distinctive = distinctive + 1;
        }
        if terms[i + 1].distinctive {
            distinctive = distinctive + 1;
        }
        ranks.push(PairRank { distinctive, length, index: i });
        let ghost held = pairs@;
        pairs.push(pair);
        proof {
            lemma_texts_push(held, pair);
            assert(ranks@ =~= Seq::new((i + 1) as nat, f));
            assert(pair@ == pair_text(view, i as int));
            assert(texts(pairs@) =~= Seq::new((i + 1) as nat, |k: int| pair_text(view, k)));
        }
        i = i + 1;
    }
    assert(i == pair_count(view));
    proof {
        lemma_ranks_index(ranks@, i as int);
    }
    let ranked = sort(&ByFocus, ranks);
    let mut out: Vec<String> = Vec::new();
    let ghost g = |rank: PairRank| pair_text(view, rank.index as int);
    let ghost n = i as int;
    let mut k: usize = 0;
    while k < ranked.len()
        invariant
            k <= ranked@.len(),
            n == pairs@.len(),
            forall|j: int| 0 <= j < ranked@.len() ==> (#[trigger] ranked@[j]).index < n,
            texts(pairs@) == Seq::new(n as nat, |k: int| pair_text(view, k)),
            g == (|rank: PairRank| pair_text(view, rank.index as int)),
            texts(out@) == ranked@.take(k as int).map_values(g),
        decreases ranked@.len() - k,
    {
        let at = ranked[k].index;
        assert(ranked@[k as int].index < n);
        assert(texts(pairs@)[at as int] == pairs@[at as int]@);
        let ghost held = out@;
        let pair = pairs[at].clone();
        out.push(pair);
        proof {
            lemma_texts_push(held, pair);
            lemma_map_take(ranked@, g, k as int);
        }
        k = k + 1;
    }
    assert(ranked@.take(k as int) =~= ranked@);
    out
}

/// The focused queries that are tried where no clue of the query was found.
pub fn bounded_lexical_fallback_queries(query: &str) -> (r: Vec<String>)
    ensures
        texts(r@) == focused_queries(query@),
{
    let mut fallbacks = ranked_lexical_fallback_queries(query);
    if fallbacks.len() == 0 {
        return lexical_terms(query, 1);
    }
    let ghost full = texts(fallbacks@);
    fallbacks.truncate(MAX_FOCUSED_QUERIES);
    assert(texts(fallbacks@) =~= first_of(full, MAX_FOCUSED_QUERIES as int));
    fallbacks
}

// ---------------------------------------------------------------------------
// Bonus
// ---------------------------------------------------------------------------

/// How many terms of a query count towards the bonus of a candidate.
pub const MAX_BONUS_TERMS: usize = 32;

/// The most that the terms of a query add to a score: 8.
pub const MAX_BONUS: i64 = 0x4020_0000_0000_0000;

/// 0.8 times 1.4.
pub const PATH_HEAVY: i64 = 0x3ff1_eb85_1eb8_51eb;

/// 0.8 times 1.0.
pub const PATH_PLAIN: i64 = 0x3fe9_9999_9999_999a;

/// 0.8 times 0.7.
pub const PATH_LIGHT: i64 = 0x3fe1_eb85_1eb8_51eb;

/// 0.45 times 1.4.
pub const HEADING_HEAVY: i64 = 0x3fe4_28f5_c28f_5c29;

/// 0.45 times 1.0.
pub const HEADING_PLAIN: i64 = 0x3fdc_cccc_cccc_cccd;

/// 0.45 times 0.7.
pub const HEADING_LIGHT: i64 = 0x3fd4_28f5_c28f_5c29;

/// 0.1 times 1.4.
pub const EXCERPT_HEAVY: i64 = 0x3fc1_eb85_1eb8_51eb;

/// 0.1 times 1.0.
pub const EXCERPT_PLAIN: i64 = 0x3fb9_9999_9999_999a;

/// 0.1 times 0.7.
pub const EXCERPT_LIGHT: i64 = 0x3fb1_eb85_1eb8_51eb;

/// What one term adds to the score of a candidate: by where it is found (path and
/// title, heading, excerpt), and by its weight (a digit or ten characters, six
/// characters, less).
pub open spec fn term_bonus(
    term: Seq<char>,
    path_title: Seq<char>,
    heading: Seq<char>,
    excerpt: Seq<char>,
) -> int {
    let heavy = has_any(term, CharClass::AsciiDigit) || term.len() >= 10;
    let plain = term.len() >= 6;
    if finds(search_words(path_title), search_letters(path_title), term) {
        by_weight(heavy, plain, PATH_HEAVY as int, PATH_PLAIN as int, PATH_LIGHT as int)
    } else if finds(search_words(heading), search_letters(heading), term) {
        by_weight(heavy, plain, HEADING_HEAVY as int, HEADING_PLAIN as int, HEADING_LIGHT as int)
    } else if finds(search_words(excerpt), search_letters(excerpt), term) {
        by_weight(heavy, plain, EXCERPT_HEAVY as int, EXCERPT_PLAIN as int, EXCERPT_LIGHT as int)
    } else {
        0
    }
}

pub open spec fn by_weight(heavy: bool, plain: bool, most: int, middle: int, least: int) -> int {
    if heavy {
        most
    } else if plain {
        middle
    } else {
        least
    }
}

fn choose_weight(heavy: bool, plain: bool, most: i64, middle: i64, least: i64) -> (r: i64)
    ensures
        r == by_weight(heavy, plain, most as int, middle as int, least as int),
{
    if heavy {
        most
    } else if plain {
        middle
    } else {
        least
    }
}

pub open spec fn bonus_sum(
    terms: Seq<Seq<char>>,
    path_title: Seq<char>,
    heading: Seq<char>,
    excerpt: Seq<char>,
) -> int
    decreases terms.len(),
{
    if terms.len() == 0 {
        0
    } else {
        plus(
            bonus_sum(terms.drop_last(), path_title, heading, excerpt),
            term_bonus(terms.last(), path_title, heading, excerpt),
        )
    }
}

pub open spec fn bonus(
    query: Seq<char>,
    path: Seq<char>,
    title: Seq<char>,
    heading: Seq<char>,
    excerpt: Seq<char>,
) -> int {
    let terms = first_of(query_terms(query), MAX_BONUS_TERMS as int).map_values(
        |t: (Seq<char>, bool)| t.0,
    );
    let sum = bonus_sum(terms, path + " "@ + title, heading, excerpt);
    if sum > MAX_BONUS {
        MAX_BONUS as int
    } else {
        sum
    }
}

/// What the terms of the query add to the score of a candidate.
pub fn lexical_candidate_bonus(
    query: &str,
    path: &str,
    title: &str,
    heading: &str,
    excerpt: &str,
) -> (r: i64)
    ensures
        r == bonus(query@, path@, title@, heading@, excerpt@),
{
    let path_title = cat3(path, " ", title);
    let path_title_words = normalized_search_words(path_title.as_str());
    let path_title_collapsed = collapsed_search_text(path_title.as_str());
    let heading_words = normalized_search_words(heading);
    let heading_collapsed = collapsed_search_text(heading);
    let excerpt_words = normalized_search_words(excerpt);
    let excerpt_collapsed = collapsed_search_text(excerpt);
    let terms = lexical_terms(query, MAX_BONUS_TERMS);
    let ghost all = texts(terms@);
    let ghost pt = path@ + " "@ + title@;
    let mut sum: i64 = 0;
    let mut i: usize = 0;
    assert(all.take(0) =~= Seq::<Seq<char>>::empty());
    while i < terms.len()
        invariant
            i <= terms@.len(),
            all == texts(terms@),
            path_title_words@ == search_words(pt),
            path_title_collapsed@ == search_letters(pt),
            heading_words@ == search_words(heading@),
            heading_collapsed@ == search_letters(heading@),
            excerpt_words@ == search_words(excerpt@),
            excerpt_collapsed@ == search_letters(excerpt@),
            sum == bonus_sum(all.take(i as int), pt, heading@, excerpt@),
        decreases terms@.len() - i,
    {
        proof {
            assert(all.take(i + 1).drop_last() =~= all.take(i as int));
            assert(all.take(i + 1).last() == terms@[i as int]@);
        }
        let term = terms[i].as_str();
        let size: usize = term.unicode_len();
        let heavy = any(term, CharClass::AsciiDigit) || size >= 10;
        let plain = size >= 6;
        let add: i64 = if search_text_contains(
            path_title_words.as_str(),
            path_title_collapsed.as_str(),
            term,
        ) {
            choose_weight(heavy, plain, PATH_HEAVY, PATH_PLAIN, PATH_LIGHT)
        } else if search_text_contains(heading_words.as_str(), heading_collapsed.as_str(), term) {
            choose_weight(heavy, plain, HEADING_HEAVY, HEADING_PLAIN, HEADING_LIGHT)
        } else if search_text_contains(excerpt_words.as_str(), excerpt_collapsed.as_str(), term) {
            choose_weight(heavy, plain, EXCERPT_HEAVY, EXCERPT_PLAIN, EXCERPT_LIGHT)
        } else {
            0
        };
        sum = add_scores(sum, add);
        i = i + 1;
    }
    assert(all.take(i as int) =~= all);
    if sum > MAX_BONUS {
        MAX_BONUS
    } else {
        sum
    }
}

}
