//! Laws of search text: the words of a text and its letters.
use vstd::prelude::*;

#[allow(unused_imports)]
use crate::lexical::{lemma_nonempty_front, lower_chars, search_letters, search_words, spaced};
#[allow(unused_imports)]
use crate::seqs::{lemma_filter_empty, lemma_filter_push};
#[allow(unused_imports)]
use crate::text::{
    all_ascii, alphanumeric, ascii_lower_char, first_from, is_ascii_char, lemma_first_from,
    lower_case_char, nonempty, only, split, split_from, CharClass,
};

verus! {

/// The text is made of alphanumeric words, each between single spaces: a space at
/// each end, and no two next to each other.
pub open spec fn well_spaced(s: Seq<char>) -> bool {
    &&& s.len() > 0
    &&& s[0] == ' '
    &&& s.last() == ' '
    &&& forall|i: int| 0 <= i < s.len() ==> #[trigger] s[i] == ' ' || alphanumeric(s[i])
    &&& forall|i: int, j: int|
        0 <= i && j == i + 1 && j < s.len() ==> !(#[trigger] s[i] == ' ' && #[trigger] s[j] == ' ')
}

/// The words are not empty and hold alphanumeric characters alone.
spec fn plain_words(ws: Seq<Seq<char>>) -> bool {
    forall|k: int| 0 <= k < ws.len() ==> plain_word(#[trigger] ws[k])
}

spec fn plain_word(w: Seq<char>) -> bool {
    w.len() > 0 && word_is_plain(w)
}

spec fn word_is_plain(w: Seq<char>) -> bool {
    forall|i: int| 0 <= i < w.len() ==> alphanumeric(#[trigger] w[i])
}

/// The text with its spaces taken out.
pub open spec fn without_spaces(s: Seq<char>) -> Seq<char> {
    s.filter(|c: char| c != ' ')
}

proof fn lemma_filter_one(c: char, p: spec_fn(char) -> bool)
    ensures
        seq![c].filter(p) == if p(c) {
            seq![c]
        } else {
            Seq::empty()
        },
{
    lemma_filter_empty(Seq::<char>::empty(), p);
    assert(seq![c] =~= Seq::<char>::empty().push(c));
    lemma_filter_push(Seq::<char>::empty(), p, c);
}

proof fn lemma_filter_all(s: Seq<char>, p: spec_fn(char) -> bool)
    requires
        forall|i: int| 0 <= i < s.len() ==> p(#[trigger] s[i]),
    ensures
        s.filter(p) == s,
    decreases s.len(),
{
    reveal(Seq::filter);
    if s.len() > 0 {
        lemma_filter_all(s.drop_last(), p);
        assert(s.drop_last().push(s.last()) =~= s);
    }
}

proof fn lemma_without_spaces(w: Seq<char>, rest: Seq<char>)
    requires
        word_is_plain(w),
    ensures
        without_spaces(w.push(' ') + rest) == w + without_spaces(rest),
        without_spaces(seq![' '] + rest) == without_spaces(rest),
        without_spaces(Seq::<char>::empty()) == Seq::<char>::empty(),
{
    let q = |c: char| c != ' ';
    lemma_filter_all(w, q);
    lemma_filter_push(w, q, ' ');
    Seq::filter_distributes_over_add(w.push(' '), rest, q);
    Seq::filter_distributes_over_add(seq![' '], rest, q);
    lemma_filter_one(' ', q);
    lemma_filter_empty(Seq::<char>::empty(), q);
    assert(Seq::<char>::empty() + rest.filter(q) =~= rest.filter(q));
}

proof fn lemma_only_letters(w: Seq<char>, c: char, rest: Seq<char>)
    requires
        word_is_plain(w),
        !alphanumeric(c),
    ensures
        only(w, CharClass::Alphanumeric) == w,
        only(w + (seq![c] + rest), CharClass::Alphanumeric) == w + only(
            rest,
            CharClass::Alphanumeric,
        ),
{
    let p = |d: char| CharClass::Alphanumeric.has(d);
    lemma_filter_all(w, p);
    Seq::filter_distributes_over_add(w, seq![c] + rest, p);
    Seq::filter_distributes_over_add(seq![c], rest, p);
    lemma_filter_one(c, p);
    assert(Seq::<char>::empty() + rest.filter(p) =~= rest.filter(p));
}

proof fn lemma_no_pieces()
    ensures
        nonempty(Seq::<Seq<char>>::empty()) == Seq::<Seq<char>>::empty(),
{
    lemma_filter_empty(Seq::<Seq<char>>::empty(), |t: Seq<char>| t.len() > 0);
}

proof fn lemma_word_in_front(word: Seq<char>, rest: Seq<Seq<char>>)
    requires
        word_is_plain(word),
        plain_words(nonempty(rest)),
    ensures
        plain_words(nonempty(seq![word] + rest)),
        without_spaces(spaced(nonempty(seq![word] + rest))) == word + without_spaces(
            spaced(nonempty(rest)),
        ),
{
    lemma_nonempty_front(word, rest);
    let others = nonempty(rest);
    if word.len() == 0 {
        assert(word + without_spaces(spaced(others)) =~= without_spaces(spaced(others)));
    } else {
        lemma_without_spaces(word, spaced(others));
        let ws = seq![word] + others;
        assert forall|k: int| 0 <= k < ws.len() implies plain_word(#[trigger] ws[k]) by {
            if k > 0 {
                assert(ws[k] == others[k - 1]);
            }
        }
    }
}

proof fn lemma_first_piece(s: Seq<char>, start: int) -> (end: int)
    requires
        0 <= start <= s.len(),
    ensures
        start <= end <= s.len(),
        word_is_plain(s.subrange(start, end)),
        end < s.len() ==> !alphanumeric(s[end]) && split_from(s, CharClass::NotAlphanumeric, start)
            == seq![s.subrange(start, end)] + split_from(s, CharClass::NotAlphanumeric, end + 1),
        end == s.len() ==> split_from(s, CharClass::NotAlphanumeric, start) == seq![
            s.subrange(start, end),
        ] + Seq::<Seq<char>>::empty(),
{
    let class = CharClass::NotAlphanumeric;
    lemma_first_from(s, class, start);
    let end = first_from(s, class, start);
    let word = s.subrange(start, end);
    assert forall|i: int| 0 <= i < word.len() implies alphanumeric(#[trigger] word[i]) by {
        assert(!class.has(s[start + i]));
    }
    assert(seq![word] + Seq::<Seq<char>>::empty() =~= seq![word]);
    end
}

/// The pieces that are not empty are words, and hold the letters of the text.
#[verifier::opaque]
spec fn hold_letters(pieces: Seq<Seq<char>>, text: Seq<char>) -> bool {
    &&& plain_words(nonempty(pieces))
    &&& without_spaces(spaced(nonempty(pieces))) == only(text, CharClass::Alphanumeric)
}

proof fn lemma_last_piece(word: Seq<char>)
    requires
        word_is_plain(word),
    ensures
        hold_letters(seq![word] + Seq::<Seq<char>>::empty(), word),
{
    reveal(hold_letters);
    lemma_no_pieces();
    lemma_word_in_front(word, Seq::empty());
    lemma_without_spaces(word, Seq::empty());
    lemma_only_letters(word, ' ', Seq::empty());
    assert(word + Seq::<char>::empty() =~= word);
}

proof fn lemma_next_piece(word: Seq<char>, c: char, after: Seq<char>, rest: Seq<Seq<char>>)
    requires
        word_is_plain(word),
        !alphanumeric(c),
        hold_letters(rest, after),
    ensures
        hold_letters(seq![word] + rest, word + (seq![c] + after)),
{
    reveal(hold_letters);
    lemma_word_in_front(word, rest);
    lemma_only_letters(word, c, after);
}

proof fn lemma_pieces(s: Seq<char>, start: int)
    requires
        0 <= start <= s.len(),
    ensures
        hold_letters(
            split_from(s, CharClass::NotAlphanumeric, start),
            s.subrange(start, s.len() as int),
        ),
    decreases s.len() - start,
{
    let end = lemma_first_piece(s, start);
    let word = s.subrange(start, end);
    if end == s.len() {
        lemma_last_piece(word);
    } else {
        let rest = split_from(s, CharClass::NotAlphanumeric, end + 1);
        let after = s.subrange(end + 1, s.len() as int);
        lemma_pieces(s, end + 1);
        lemma_next_piece(word, s[end], after, rest);
        assert(s.subrange(start, s.len() as int) =~= word + (seq![s[end]] + after));
    }
}

proof fn lemma_shape_step(w: Seq<char>, t: Seq<char>)
    requires
        plain_word(w),
        well_spaced(t),
    ensures
        well_spaced(seq![' '] + w + t),
{
    let s = seq![' '] + w + t;
    let n = 1 + w.len() as int;
    assert forall|i: int| 0 <= i < s.len() implies #[trigger] s[i] == ' ' || alphanumeric(
        s[i],
    ) by {
        if i >= n {
            assert(s[i] == t[i - n]);
        } else if i > 0 {
            assert(s[i] == w[i - 1]);
        }
    }
    assert forall|i: int, j: int| 0 <= i && j == i + 1 && j < s.len() implies !(#[trigger] s[i]
        == ' ' && #[trigger] s[j] == ' ') by {
        if i >= n {
            assert(s[i] == t[i - n] && s[j] == t[j - n]);
        } else if i > 0 {
            assert(s[i] == w[i - 1]);
            assert(alphanumeric(w[i - 1]));
        } else {
            assert(s[j] == w[0]);
            assert(alphanumeric(w[0]));
        }
    }
    assert(s.last() == t.last());
}

proof fn lemma_spaced_shape(ws: Seq<Seq<char>>)
    requires
        plain_words(ws),
    ensures
        well_spaced(seq![' '] + spaced(ws)),
    decreases ws.len(),
{
    if ws.len() > 0 {
        let w = ws[0];
        let rest = ws.drop_first();
        assert(plain_word(w));
        assert(plain_words(rest)) by {
            assert forall|k: int| 0 <= k < rest.len() implies plain_word(#[trigger] rest[k]) by {
                assert(rest[k] == ws[k + 1]);
            }
        }
        lemma_spaced_shape(rest);
        let t = seq![' '] + spaced(rest);
        lemma_shape_step(w, t);
        assert(seq![' '] + (w.push(' ') + spaced(rest)) =~= seq![' '] + w + t);
    }
}

proof fn lemma_first_word(front: Seq<char>, w: Seq<char>, tail: Seq<char>)
    requires
        plain_word(w),
    ensures
        split_from(
            front + (w.push(' ') + tail),
            CharClass::NotAlphanumeric,
            front.len() as int,
        ) == seq![w] + split_from(
            front + (w.push(' ') + tail),
            CharClass::NotAlphanumeric,
            (front.len() + w.len() + 1) as int,
        ),
{
    let s = front + (w.push(' ') + tail);
    let start = front.len() as int;
    let end = lemma_first_piece(s, start);
    let word = s.subrange(start, end);
    assert(s[start + w.len()] == ' ');
    if end < start + w.len() {
        assert(s[end] == w[end - start]);
        assert(alphanumeric(w[end - start]));
    } else if end > start + w.len() {
        assert(word[w.len() as int] == ' ');
    }
    assert(word =~= w);
}

proof fn lemma_spaced_is_split_back(front: Seq<char>, ws: Seq<Seq<char>>)
    requires
        plain_words(ws),
    ensures
        nonempty(split_from(front + spaced(ws), CharClass::NotAlphanumeric, front.len() as int))
            == ws,
    decreases ws.len(),
{
    if ws.len() == 0 {
        let s = front + spaced(ws);
        let end = lemma_first_piece(s, front.len() as int);
        lemma_no_pieces();
        lemma_nonempty_front(s.subrange(front.len() as int, end), Seq::empty());
        assert(ws =~= Seq::<Seq<char>>::empty());
    } else {
        let w = ws[0];
        let rest = ws.drop_first();
        let tail = spaced(rest);
        assert(plain_word(w));
        assert(plain_words(rest)) by {
            assert forall|k: int| 0 <= k < rest.len() implies plain_word(#[trigger] rest[k]) by {
                assert(rest[k] == ws[k + 1]);
            }
        }
        let longer = front + w.push(' ');
        lemma_spaced_is_split_back(longer, rest);
        lemma_first_word(front, w, tail);
        assert(front + (w.push(' ') + tail) =~= longer + tail);
        lemma_nonempty_front(
            w,
            split_from(longer + tail, CharClass::NotAlphanumeric, longer.len() as int),
        );
        assert(seq![w] + rest =~= ws);
    }
}

/// The character is its own lower case.
#[verifier::opaque]
pub open spec fn is_lower(c: char) -> bool {
    lower_case_char(c) == seq![c]
}

/// Every character is its own lower case.
pub open spec fn in_lower_case(s: Seq<char>) -> bool {
    forall|i: int| 0 <= i < s.len() ==> is_lower(#[trigger] s[i])
}

proof fn lemma_lower_char(c: char)
    ensures
        is_lower(c) <==> lower_case_char(c) == seq![c],
        is_lower(' '),
        is_ascii_char(c) ==> exists|d: char| lower_case_char(c) == seq![d] && is_lower(d),
{
    reveal(is_lower);
    if is_ascii_char(c) {
        let d = ascii_lower_char(c);
        assert(lower_case_char(c) == seq![d] && is_lower(d));
    }
}

spec fn all_in_lower_case(ws: Seq<Seq<char>>) -> bool {
    forall|k: int| 0 <= k < ws.len() ==> in_lower_case(#[trigger] ws[k])
}

proof fn lemma_word_in_lower_case(w: Seq<char>, rest: Seq<char>)
    requires
        in_lower_case(w),
        in_lower_case(rest),
    ensures
        in_lower_case(w.push(' ') + rest),
{
    let all = w.push(' ') + rest;
    lemma_lower_char(' ');
    assert forall|i: int| 0 <= i < all.len() implies is_lower(#[trigger] all[i]) by {
        if i < w.len() {
            assert(all[i] == w[i]);
        } else if i > w.len() {
            assert(all[i] == rest[i - w.len() - 1]);
        }
    }
}

proof fn lemma_spaced_in_lower_case(ws: Seq<Seq<char>>)
    requires
        all_in_lower_case(ws),
    ensures
        in_lower_case(spaced(ws)),
    decreases ws.len(),
{
    if ws.len() > 0 {
        let rest = ws.drop_first();
        assert forall|k: int| 0 <= k < rest.len() implies in_lower_case(#[trigger] rest[k]) by {
            assert(rest[k] == ws[k + 1]);
        }
        lemma_spaced_in_lower_case(rest);
        lemma_word_in_lower_case(ws[0], spaced(rest));
    }
}

proof fn lemma_pieces_in_lower_case(s: Seq<char>, start: int)
    requires
        0 <= start <= s.len(),
        in_lower_case(s),
    ensures
        all_in_lower_case(nonempty(split_from(s, CharClass::NotAlphanumeric, start))),
    decreases s.len() - start,
{
    let end = lemma_first_piece(s, start);
    let word = s.subrange(start, end);
    assert forall|i: int| 0 <= i < word.len() implies is_lower(#[trigger] word[i]) by {
        assert(word[i] == s[start + i]);
    }
    let rest = if end < s.len() {
        split_from(s, CharClass::NotAlphanumeric, end + 1)
    } else {
        Seq::empty()
    };
    if end < s.len() {
        lemma_pieces_in_lower_case(s, end + 1);
    } else {
        lemma_no_pieces();
    }
    lemma_nonempty_front(word, rest);
    let others = nonempty(rest);
    let ws = seq![word] + others;
    assert forall|k: int| 0 <= k < ws.len() implies in_lower_case(#[trigger] ws[k]) by {
        if k > 0 {
            assert(ws[k] == others[k - 1]);
        }
    }
}

proof fn lemma_lower_chars_of_lower(s: Seq<char>)
    requires
        in_lower_case(s),
    ensures
        lower_chars(s) == s,
    decreases s.len(),
{
    if s.len() > 0 {
        let front = s.drop_last();
        assert forall|i: int| 0 <= i < front.len() implies is_lower(#[trigger] front[i]) by {
            assert(front[i] == s[i]);
        }
        lemma_lower_chars_of_lower(front);
        lemma_lower_char(s.last());
        assert(front + seq![s.last()] =~= s);
    }
}

proof fn lemma_ascii_lower_chars(s: Seq<char>)
    requires
        all_ascii(s),
    ensures
        in_lower_case(lower_chars(s)),
    decreases s.len(),
{
    if s.len() > 0 {
        let front = s.drop_last();
        assert forall|i: int| 0 <= i < front.len() implies is_ascii_char(#[trigger] front[i]) by {
            assert(front[i] == s[i]);
        }
        lemma_ascii_lower_chars(front);
        lemma_lower_char(s.last());
        assert(is_ascii_char(s[s.len() - 1]));
        let d = choose|d: char| lower_case_char(s.last()) == seq![d] && is_lower(d);
        let low = lower_chars(front);
        assert(lower_chars(s) == low + seq![d]);
        assert forall|i: int| 0 <= i < lower_chars(s).len() implies is_lower(
            #[trigger] lower_chars(s)[i],
        ) by {
            if i < low.len() {
                assert(lower_chars(s)[i] == low[i]);
            }
        }
    }
}

/// The words of a text stand between single spaces, a space at each end, and hold
/// alphanumeric characters alone.
pub proof fn lemma_words_are_well_spaced(s: Seq<char>)
    ensures
        well_spaced(search_words(s)),
{
    lemma_pieces(lower_chars(s), 0);
    reveal(hold_letters);
    lemma_spaced_shape(nonempty(split(lower_chars(s), CharClass::NotAlphanumeric)));
}

proof fn lemma_words_again(s: Seq<char>)
    requires
        in_lower_case(lower_chars(s)),
    ensures
        search_words(search_words(s)) == search_words(s),
{
    let class = CharClass::NotAlphanumeric;
    let low = lower_chars(s);
    let ws = nonempty(split(low, class));
    let w = search_words(s);
    lemma_pieces(low, 0);
    reveal(hold_letters);
    lemma_pieces_in_lower_case(low, 0);
    lemma_spaced_in_lower_case(ws);
    let none = Seq::<char>::empty();
    lemma_word_in_lower_case(none, spaced(ws));
    assert(none.push(' ') =~= seq![' ']);
    lemma_lower_chars_of_lower(w);
    lemma_spaced_is_split_back(seq![' '], ws);
    let end = lemma_first_piece(w, 0);
    if end > 0 {
        assert(w.subrange(0, end)[0] == ' ');
    }
    lemma_nonempty_front(w.subrange(0, 0), split_from(w, class, 1));
}

/// To take the words of words changes nothing, wherever lower case has no other lower
/// case of its own; so it is of every ASCII text.
pub proof fn lemma_words_of_words(s: Seq<char>)
    ensures
        in_lower_case(lower_chars(s)) ==> search_words(search_words(s)) == search_words(s),
        all_ascii(s) ==> search_words(search_words(s)) == search_words(s),
{
    if all_ascii(s) {
        lemma_ascii_lower_chars(s);
    }
    if in_lower_case(lower_chars(s)) {
        lemma_words_again(s);
    }
}

/// The letters of a text are its words with the spaces taken out.
pub proof fn lemma_letters_are_words_without_spaces(s: Seq<char>)
    ensures
        search_letters(s) == without_spaces(search_words(s)),
{
    let low = lower_chars(s);
    lemma_pieces(low, 0);
    reveal(hold_letters);
    assert(low.subrange(0, low.len() as int) =~= low);
    lemma_without_spaces(
        Seq::empty(),
        spaced(nonempty(split(low, CharClass::NotAlphanumeric))),
    );
}

}
