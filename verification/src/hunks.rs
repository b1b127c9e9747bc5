//! Laws of texts that are told line by line: the lines are those of the text, and a
//! difference can be applied.
use vstd::prelude::*;

#[allow(unused_imports)]
use crate::deltas::{
    context_end, context_start, diff_text, lemma_diff_leaves_out_only_common_lines, marked,
    same_back, same_front,
};
#[allow(unused_imports)]
use crate::text::{
    decimal, first_from, has_any, joined, lemma_first_from, split, split_from, text_lines,
    without_return, CharClass,
};

verus! {

// ---------------------------------------------------------------------------
// Differences
// ---------------------------------------------------------------------------

/// What a line of a difference is: part of both texts, of the old one or of the new
/// one.
pub enum Mark {
    Kept,
    Removed,
    Added,
}

/// A line of a difference as it is written: a blank, a minus or a plus in front.
pub open spec fn written_line(line: (Mark, Seq<char>)) -> Seq<char> {
    (match line.0 {
        Mark::Kept => seq![' '],
        Mark::Removed => seq!['-'],
        Mark::Added => seq!['+'],
    }) + line.1 + seq!['\n']
}

pub open spec fn written(hunk: Seq<(Mark, Seq<char>)>) -> Seq<char>
    decreases hunk.len(),
{
    if hunk.len() == 0 {
        Seq::empty()
    } else {
        written(hunk.drop_last()) + written_line(hunk.last())
    }
}

/// The lines of the old text in a difference.
pub open spec fn old_lines(hunk: Seq<(Mark, Seq<char>)>) -> Seq<Seq<char>>
    decreases hunk.len(),
{
    if hunk.len() == 0 {
        Seq::empty()
    } else if hunk.last().0 is Added {
        old_lines(hunk.drop_last())
    } else {
        old_lines(hunk.drop_last()).push(hunk.last().1)
    }
}

/// The lines of the new text in a difference.
pub open spec fn new_lines(hunk: Seq<(Mark, Seq<char>)>) -> Seq<Seq<char>>
    decreases hunk.len(),
{
    if hunk.len() == 0 {
        Seq::empty()
    } else if hunk.last().0 is Removed {
        new_lines(hunk.drop_last())
    } else {
        new_lines(hunk.drop_last()).push(hunk.last().1)
    }
}

pub open spec fn all_marked(lines: Seq<Seq<char>>, mark: Mark) -> Seq<(Mark, Seq<char>)> {
    Seq::new(lines.len(), |i: int| (mark, lines[i]))
}

proof fn lemma_parts_add(a: Seq<(Mark, Seq<char>)>, b: Seq<(Mark, Seq<char>)>)
    ensures
        written(a + b) == written(a) + written(b),
        old_lines(a + b) == old_lines(a) + old_lines(b),
        new_lines(a + b) == new_lines(a) + new_lines(b),
    decreases b.len(),
{
    if b.len() == 0 {
        assert(a + b =~= a);
        assert(written(a) + written(b) =~= written(a));
        assert(old_lines(a) + old_lines(b) =~= old_lines(a));
        assert(new_lines(a) + new_lines(b) =~= new_lines(a));
    } else {
        lemma_parts_add(a, b.drop_last());
        assert((a + b).drop_last() =~= a + b.drop_last());
        assert((a + b).last() == b.last());
        assert(written(a + b) =~= written(a) + written(b));
        assert(old_lines(a + b) =~= old_lines(a) + old_lines(b));
        assert(new_lines(a + b) =~= new_lines(a) + new_lines(b));
    }
}

proof fn lemma_all_marked(lines: Seq<Seq<char>>, mark: Mark)
    ensures
        written(all_marked(lines, mark)) == marked(
            match mark {
                Mark::Kept => " "@,
                Mark::Removed => "-"@,
                Mark::Added => "+"@,
            },
            lines,
        ),
        old_lines(all_marked(lines, mark)) == if mark is Added {
            Seq::empty()
        } else {
            lines
        },
        new_lines(all_marked(lines, mark)) == if mark is Removed {
            Seq::empty()
        } else {
            lines
        },
    decreases lines.len(),
{
    reveal_strlit(" ");
    reveal_strlit("-");
    reveal_strlit("+");
    reveal_strlit("\n");
    assert(" "@ =~= seq![' '] && "-"@ =~= seq!['-'] && "+"@ =~= seq!['+'] && "\n"@ =~= seq!['\n']);
    let all = all_marked(lines, mark);
    if lines.len() > 0 {
        lemma_all_marked(lines.drop_last(), mark);
        assert(all.drop_last() =~= all_marked(lines.drop_last(), mark));
        assert(all.last() == (mark, lines.last()));
        assert(lines.drop_last().push(lines.last()) =~= lines);
    } else {
        assert(all =~= Seq::<(Mark, Seq<char>)>::empty());
        assert(lines =~= Seq::<Seq<char>>::empty());
    }
}

/// What a difference says, apart from how it is written: from which line on, and what
/// became of each line. A few kept lines stand around all that was removed and added.
pub struct Hunk {
    pub start: int,
    pub before: Seq<Seq<char>>,
    pub removed: Seq<Seq<char>>,
    pub added: Seq<Seq<char>>,
    pub behind: Seq<Seq<char>>,
}

impl Hunk {
    pub open spec fn lines(self) -> Seq<(Mark, Seq<char>)> {
        all_marked(self.before, Mark::Kept) + all_marked(self.removed, Mark::Removed)
            + all_marked(self.added, Mark::Added) + all_marked(self.behind, Mark::Kept)
    }

    /// The difference as text: where it is of which file, and its lines.
    pub open spec fn text(self, path: Seq<char>) -> Seq<char> {
        "--- a/"@ + path + "\n+++ b/"@ + path + "\n@@ -"@ + decimal(self.start + 1) + ","@
            + decimal(old_lines(self.lines()).len() as int) + " +"@ + decimal(self.start + 1)
            + ","@ + decimal(new_lines(self.lines()).len() as int) + " @@\n"@ + written(
            self.lines(),
        )
    }

    /// Taking the old lines out of the old text and putting the new ones in their
    /// place gives the new text.
    pub open spec fn applies(self, old_text: Seq<Seq<char>>, new_text: Seq<Seq<char>>) -> bool {
        let removed = old_lines(self.lines());
        let added = new_lines(self.lines());
        &&& 0 <= self.start
        &&& self.start + removed.len() <= old_text.len()
        &&& self.start + added.len() <= new_text.len()
        &&& old_text.subrange(self.start, self.start + removed.len()) == removed
        &&& new_text == old_text.take(self.start) + added + old_text.skip(
            self.start + removed.len(),
        )
    }

    /// No more is told than needed: what is removed and what is added begin and end
    /// differently, and at most three lines stand around them, fewer only where the
    /// text begins or ends.
    pub open spec fn is_short(self, old_text: Seq<Seq<char>>) -> bool {
        &&& self.removed.len() > 0 && self.added.len() > 0 ==> self.removed[0] != self.added[0]
            && self.removed.last() != self.added.last()
        &&& self.before.len() <= 3 && self.behind.len() <= 3
        &&& self.before.len() < 3 ==> self.start == 0
        &&& self.behind.len() < 3 ==> self.start + old_lines(self.lines()).len() == old_text.len()
    }
}

proof fn lemma_front_ends(a: Seq<Seq<char>>, b: Seq<Seq<char>>, i: int)
    requires
        0 <= i <= a.len(),
        i <= b.len(),
    ensures
        same_front(a, b, i) < a.len() && same_front(a, b, i) < b.len() ==> a[same_front(a, b, i)]
            != b[same_front(a, b, i)],
    decreases a.len() - i,
{
    if i < a.len() && i < b.len() && a[i] == b[i] {
        lemma_front_ends(a, b, i + 1);
    }
}

proof fn lemma_back_ends(a: Seq<Seq<char>>, b: Seq<Seq<char>>, p: int, k: int)
    requires
        0 <= p,
        0 <= k,
        p + k <= a.len(),
        p + k <= b.len(),
    ensures
        p + same_back(a, b, p, k) < a.len() && p + same_back(a, b, p, k) < b.len() ==> a[a.len() - 1
            - same_back(a, b, p, k)] != b[b.len() - 1 - same_back(a, b, p, k)],
    decreases a.len() - k,
{
    if p + k < a.len() && p + k < b.len() && a[a.len() - 1 - k] == b[b.len() - 1 - k] {
        lemma_back_ends(a, b, p, k + 1);
    }
}

proof fn lemma_hunk_parts(hunk: Hunk)
    ensures
        written(hunk.lines()) == marked(" "@, hunk.before) + marked("-"@, hunk.removed) + marked(
            "+"@,
            hunk.added,
        ) + marked(" "@, hunk.behind),
        old_lines(hunk.lines()) == hunk.before + hunk.removed + hunk.behind,
        new_lines(hunk.lines()) == hunk.before + hunk.added + hunk.behind,
{
    let a = all_marked(hunk.before, Mark::Kept);
    let b = all_marked(hunk.removed, Mark::Removed);
    let c = all_marked(hunk.added, Mark::Added);
    let d = all_marked(hunk.behind, Mark::Kept);
    lemma_all_marked(hunk.before, Mark::Kept);
    lemma_all_marked(hunk.removed, Mark::Removed);
    lemma_all_marked(hunk.added, Mark::Added);
    lemma_all_marked(hunk.behind, Mark::Kept);
    lemma_parts_add(a, b);
    lemma_parts_add(a + b, c);
    lemma_parts_add(a + b + c, d);
    let none = Seq::<Seq<char>>::empty();
    assert(hunk.before + hunk.removed + none + hunk.behind =~= hunk.before + hunk.removed
        + hunk.behind);
    assert(hunk.before + none + hunk.added + hunk.behind =~= hunk.before + hunk.added
        + hunk.behind);
}

proof fn lemma_joined_parts(
    head: Seq<char>,
    a: Seq<char>,
    b: Seq<char>,
    c: Seq<char>,
    d: Seq<char>,
)
    ensures
        head + (a + b + c + d) == head + a + b + c + d,
{
    assert(head + (a + b + c + d) =~= head + a + b + c + d);
}

proof fn lemma_sides(
    left: Seq<Seq<char>>,
    right: Seq<Seq<char>>,
    start: int,
    prefix: int,
    suffix: int,
    left_end: int,
    right_end: int,
    hunk: Hunk,
)
    requires
        0 <= start <= prefix,
        0 <= suffix,
        prefix + suffix <= left.len(),
        prefix + suffix <= right.len(),
        left.take(prefix) == right.take(prefix),
        left.skip(left.len() - suffix) == right.skip(right.len() - suffix),
        left.len() - suffix <= left_end <= left.len(),
        left_end - (left.len() - suffix) == right_end - (right.len() - suffix),
        hunk.before == left.subrange(start, prefix),
        hunk.removed == left.subrange(prefix, left.len() - suffix),
        hunk.added == right.subrange(prefix, right.len() - suffix),
        hunk.behind == right.subrange(right.len() - suffix, right_end),
    ensures
        hunk.before + hunk.removed + hunk.behind == left.subrange(start, left_end),
        hunk.before + hunk.added + hunk.behind == right.subrange(start, right_end),
        right == left.take(start) + right.subrange(start, right_end) + left.skip(left_end),
{
    let x = left.skip(left.len() - suffix);
    let y = right.skip(right.len() - suffix);
    let tail = left.subrange(left.len() - suffix, left_end);
    assert forall|i: int| 0 <= i < tail.len() implies hunk.behind[i] == #[trigger] tail[i] by {
        assert(x[i] == y[i]);
    }
    assert(hunk.behind =~= tail);
    assert(hunk.before + hunk.removed + hunk.behind =~= left.subrange(start, left_end));
    let front = right.subrange(start, prefix);
    assert forall|i: int| 0 <= i < front.len() implies hunk.before[i] == #[trigger] front[i] by {
        assert(left.take(prefix)[start + i] == right.take(prefix)[start + i]);
    }
    assert(hunk.before =~= front);
    assert(hunk.before + hunk.added + hunk.behind =~= right.subrange(start, right_end));
    let built = left.take(start) + right.subrange(start, right_end) + left.skip(left_end);
    assert forall|i: int| 0 <= i < right.len() implies built[i] == #[trigger] right[i] by {
        if i < start {
            assert(left.take(prefix)[i] == right.take(prefix)[i]);
        } else if i >= right_end {
            let k = i - (right.len() - suffix);
            assert(x[k] == y[k]);
        }
    }
    assert(built =~= right);
}

/// A difference can be applied: the lines marked as kept or removed are, in their
/// order, the old lines that its head counts, and with those marked as kept or added in
/// their place the old text becomes the new one. It tells no more than is needed.
pub proof fn lemma_difference_can_be_applied(
    path: Seq<char>,
    left: Seq<Seq<char>>,
    right: Seq<Seq<char>>,
) -> (hunk: Hunk)
    ensures
        diff_text(path, left, right) == hunk.text(path),
        hunk.applies(left, right),
        hunk.is_short(left),
        left == right ==> hunk.removed.len() == 0 && hunk.added.len() == 0,
{
    lemma_diff_leaves_out_only_common_lines(left, right);
    let prefix = same_front(left, right, 0);
    let suffix = same_back(left, right, prefix, 0);
    lemma_front_ends(left, right, 0);
    lemma_back_ends(left, right, prefix, 0);
    let start = context_start(prefix);
    let left_changed = left.len() - suffix;
    let right_changed = right.len() - suffix;
    let left_end = context_end(left_changed, left.len() as int);
    let right_end = context_end(right_changed, right.len() as int);
    let hunk = Hunk {
        start,
        before: left.subrange(start, prefix),
        removed: left.subrange(prefix, left_changed),
        added: right.subrange(prefix, right_changed),
        behind: right.subrange(right_changed, right_end),
    };
    lemma_hunk_parts(hunk);
    lemma_sides(left, right, start, prefix, suffix, left_end, right_end, hunk);
    lemma_joined_parts(
        "--- a/"@ + path + "\n+++ b/"@ + path + "\n@@ -"@ + decimal(start + 1) + ","@ + decimal(
            left_end - start,
        ) + " +"@ + decimal(start + 1) + ","@ + decimal(right_end - start) + " @@\n"@,
        marked(" "@, hunk.before),
        marked("-"@, hunk.removed),
        marked("+"@, hunk.added),
        marked(" "@, hunk.behind),
    );
    hunk
}

// ---------------------------------------------------------------------------
// Lines
// ---------------------------------------------------------------------------

proof fn lemma_joined_front(first: Seq<char>, rest: Seq<Seq<char>>, separator: Seq<char>)
    requires
        rest.len() > 0,
    ensures
        joined(seq![first] + rest, separator) == first + separator + joined(rest, separator),
    decreases rest.len(),
{
    let all = seq![first] + rest;
    if rest.len() == 1 {
        assert(all.drop_last() =~= seq![first]);
        assert(all.last() == rest[0]);
        assert(joined(seq![first], separator) == first);
        assert(joined(rest, separator) == rest[0]);
    } else {
        lemma_joined_front(first, rest.drop_last(), separator);
        assert(all.drop_last() =~= seq![first] + rest.drop_last());
        assert(all.last() == rest.last());
        assert(joined(all, separator) =~= first + separator + joined(rest, separator));
    }
}

proof fn lemma_pieces_join(s: Seq<char>, c: char, start: int)
    requires
        0 <= start <= s.len(),
    ensures
        split_from(s, CharClass::Is(c), start).len() > 0,
        joined(split_from(s, CharClass::Is(c), start), seq![c]) == s.subrange(
            start,
            s.len() as int,
        ),
        forall|i: int|
            0 <= i < split_from(s, CharClass::Is(c), start).len() ==> !has_any(
                #[trigger] split_from(s, CharClass::Is(c), start)[i],
                CharClass::Is(c),
            ),
    decreases s.len() - start,
{
    let class = CharClass::Is(c);
    lemma_first_from(s, class, start);
    let end = first_from(s, class, start);
    let piece = s.subrange(start, end);
    assert forall|i: int| 0 <= i < piece.len() implies !class.has(#[trigger] piece[i]) by {
        assert(!class.has(s[start + i]));
    }
    let pieces = split_from(s, class, start);
    if end >= s.len() {
        assert(pieces =~= seq![piece]);
    } else {
        lemma_pieces_join(s, c, end + 1);
        let rest = split_from(s, class, end + 1);
        assert(pieces =~= seq![piece] + rest);
        lemma_joined_front(piece, rest, seq![c]);
        assert(s.subrange(start, s.len() as int) =~= piece + seq![c] + s.subrange(
            end + 1,
            s.len() as int,
        ));
        assert forall|i: int| 0 <= i < pieces.len() implies !has_any(
            #[trigger] pieces[i],
            class,
        ) by {
            if i > 0 {
                assert(pieces[i] == rest[i - 1]);
            }
        }
    }
}

/// A text that is cut at a character is its pieces with that character between them,
/// and no piece holds it.
pub proof fn lemma_pieces_make_the_text(s: Seq<char>, c: char)
    ensures
        joined(split(s, CharClass::Is(c)), seq![c]) == s,
        forall|i: int|
            0 <= i < split(s, CharClass::Is(c)).len() ==> !has_any(
                #[trigger] split(s, CharClass::Is(c))[i],
                CharClass::Is(c),
            ),
{
    lemma_pieces_join(s, c, 0);
    assert(s.subrange(0, s.len() as int) =~= s);
}

/// The lines of a text hold no line feed. Put together with line feeds between them,
/// and one behind them where the text ends with one, they are the text, if it has no
/// carriage returns.
pub proof fn lemma_lines_make_the_text(s: Seq<char>)
    ensures
        forall|i: int|
            0 <= i < text_lines(s).len() ==> !has_any(
                #[trigger] text_lines(s)[i],
                CharClass::Is('\n'),
            ),
        !has_any(s, CharClass::Is('\r')) ==> s == joined(text_lines(s), seq!['\n']) || s
            == joined(text_lines(s), seq!['\n']).push('\n'),
{
    let feed = CharClass::Is('\n');
    let pieces = split(s, feed);
    lemma_pieces_join(s, '\n', 0);
    assert(s.subrange(0, s.len() as int) =~= s);
    let lines = text_lines(s);
    assert forall|i: int| 0 <= i < lines.len() implies !has_any(#[trigger] lines[i], feed) by {
        let piece = pieces[i];
        assert(!has_any(piece, feed));
        assert forall|k: int| 0 <= k < lines[i].len() implies !feed.has(
            #[trigger] lines[i][k],
        ) by {
            assert(lines[i][k] == piece[k]);
        }
    }
    if !has_any(s, CharClass::Is('\r')) {
        lemma_no_returns(s, 0);
        let ended = pieces.drop_last().map_values(|line: Seq<char>| without_return(line));
        assert forall|i: int| 0 <= i < ended.len() implies ended[i] == #[trigger] pieces[i] by {
            assert(!has_any(pieces[i], CharClass::Is('\r')));
            if pieces[i].len() > 0 {
                assert(!CharClass::Is('\r').has(pieces[i][pieces[i].len() - 1]));
            }
        }
        assert(ended =~= pieces.drop_last());
        if pieces.last().len() == 0 {
            assert(lines == pieces.drop_last());
            if pieces.len() == 1 {
                assert(pieces[0] =~= Seq::<char>::empty());
                assert(lines =~= Seq::<Seq<char>>::empty());
                assert(joined(pieces, seq!['\n']) == pieces[0]);
            } else {
                assert(joined(pieces, seq!['\n']) == joined(pieces.drop_last(), seq!['\n']) + seq![
                    '\n',
                ] + pieces.last());
                assert(s =~= joined(lines, seq!['\n']).push('\n'));
            }
        } else {
            assert(ended.push(pieces.last()) =~= pieces);
        }
    }
}

proof fn lemma_no_returns(s: Seq<char>, start: int)
    requires
        0 <= start <= s.len(),
        !has_any(s, CharClass::Is('\r')),
    ensures
        forall|i: int|
            0 <= i < split_from(s, CharClass::Is('\n'), start).len() ==> !has_any(
                #[trigger] split_from(s, CharClass::Is('\n'), start)[i],
                CharClass::Is('\r'),
            ),
    decreases s.len() - start,
{
    let class = CharClass::Is('\n');
    let back = CharClass::Is('\r');
    lemma_first_from(s, class, start);
    let end = first_from(s, class, start);
    let piece = s.subrange(start, end);
    assert forall|i: int| 0 <= i < piece.len() implies !back.has(#[trigger] piece[i]) by {
        assert(!back.has(s[start + i]));
    }
    let pieces = split_from(s, class, start);
    if end >= s.len() {
        assert(pieces =~= seq![piece]);
    } else {
        lemma_no_returns(s, end + 1);
        let rest = split_from(s, class, end + 1);
        assert(pieces =~= seq![piece] + rest);
        assert forall|i: int| 0 <= i < pieces.len() implies !has_any(
            #[trigger] pieces[i],
            back,
        ) by {
            if i > 0 {
                assert(pieces[i] == rest[i - 1]);
            }
        }
    }
}

}
