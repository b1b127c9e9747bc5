//! Laws of how things are written: numbers, references, paths and digests are read back as
//! what they were written for.
use vstd::prelude::*;

#[allow(unused_imports)]
use crate::evaluation::{import_id, user_of_import};
#[allow(unused_imports)]
use crate::files::{description_path, file_name};
#[allow(unused_imports)]
use crate::outside::{entry_ref_text, lemma_uuid_is_read_back, uuid_text, uuid_value};
#[allow(unused_imports)]
use crate::paths::{
    checkpoint_of_path, checkpoint_of_ref, checkpoint_path_text, checkpoint_ref_text, entry_of_ref,
    lemma_behind, managed, safe_path, unprefixed, unsafe_part, utf8_len,
};
#[allow(unused_imports)]
use crate::text::{
    all_digits, behind, decimal, digit_char, digits, digits_value, first_from, has_any, has_prefix,
    in_front_of, integer_value, is_control_char, lemma_first_from, natural_value, split,
    split_from, text_less, trimmed, CharClass,
};
#[allow(unused_imports)]
use crate::write::bare_digest;

verus! {

// ---------------------------------------------------------------------------
// Numbers
// ---------------------------------------------------------------------------

proof fn lemma_digit(n: nat)
    requires
        n < 10,
    ensures
        '0' <= digit_char(n) <= '9',
        digit_char(n) as u32 - '0' as u32 == n,
        n > 0 ==> digit_char(n) != '0',
{
}

proof fn lemma_digits(n: nat)
    ensures
        all_digits(digits(n)),
        digits_value(digits(n)) == n,
        digits(n)[0] == '0' ==> n == 0,
        n == 0 ==> digits(n).len() == 1,
    decreases n,
{
    lemma_digit(n % 10);
    let d = digits(n);
    if n < 10 {
        assert(d.drop_last() =~= Seq::<char>::empty());
        assert(digits_value(d.drop_last()) == 0);
        assert(d.last() == digit_char(n));
    } else {
        lemma_digits(n / 10);
        assert(d.drop_last() =~= digits(n / 10));
        assert(d.last() == digit_char(n % 10));
        assert(d[0] == digits(n / 10)[0]);
    }
}

/// A number is read back from its decimal notation, which has no zero in front but that of
/// zero itself.
pub proof fn lemma_numbers_are_read_back(n: int, max: int)
    ensures
        0 <= n <= max ==> natural_value(decimal(n), max) == Some(n),
        i64::MIN <= n <= i64::MAX ==> integer_value(decimal(n)) == Some(n),
        n > max >= 0 ==> natural_value(decimal(n), max) is None,
        n > 0 ==> decimal(n)[0] != '0',
        n == 0 ==> decimal(n) == "0"@,
        n < 0 ==> decimal(n)[0] == '-' && decimal(n).skip(1) == decimal(-n),
{
    if n < 0 {
        let d = digits((-n) as nat);
        lemma_digits((-n) as nat);
        assert(decimal(n).skip(1) =~= d);
    } else {
        lemma_digits(n as nat);
        let d = digits(n as nat);
        assert(d[0] != '+' && d[0] != '-');
        reveal_strlit("0");
        if n == 0 {
            assert(d =~= "0"@);
        }
    }
}

// ---------------------------------------------------------------------------
// References
// ---------------------------------------------------------------------------

proof fn lemma_front(rest: Seq<char>, suffix: Seq<char>)
    ensures
        in_front_of(rest + suffix, suffix) == Some(rest),
{
    let all = rest + suffix;
    assert(all.skip(all.len() - suffix.len()) =~= suffix);
    assert(suffix.is_suffix_of(all));
    assert(all.take(all.len() - suffix.len()) =~= rest);
}

/// A checkpoint, an entry and an import are found by their references, and a checkpoint by
/// its path, which lies in the managed part of the workspace.
pub proof fn lemma_references_are_read_back(id: u128)
    ensures
        checkpoint_of_path(checkpoint_path_text(id)) == Some(id),
        checkpoint_of_ref(checkpoint_ref_text(id)) == Some(id),
        entry_of_ref(entry_ref_text(id)) == Some(id),
        user_of_import(import_id(id)) == Some(id),
        managed(checkpoint_path_text(id)),
{
    lemma_uuid_is_read_back(id);
    let u = uuid_text(id);
    lemma_behind("entry:"@, u);
    lemma_behind("checkpoint:"@, u);
    lemma_behind("simple-import:"@, u);
    let path = checkpoint_path_text(id);
    assert(path =~= ".brunn/checkpoints/"@ + (u + ".md"@));
    lemma_behind(".brunn/checkpoints/"@, u + ".md"@);
    lemma_front(u, ".md"@);
    reveal_strlit(".brunn/");
    reveal_strlit(".brunn/checkpoints/");
    let prefix = ".brunn/"@;
    assert(prefix.len() == 7);
    assert(".brunn/checkpoints/"@.len() == 19);
    assert(path.take(7) =~= prefix);
    assert(prefix.is_prefix_of(path));
}

/// Different checkpoints have different paths and references, and different entries too.
pub proof fn lemma_references_differ(a: u128, b: u128)
    requires
        a != b,
    ensures
        checkpoint_path_text(a) != checkpoint_path_text(b),
        checkpoint_ref_text(a) != checkpoint_ref_text(b),
        entry_ref_text(a) != entry_ref_text(b),
        import_id(a) != import_id(b),
{
    lemma_references_are_read_back(a);
    lemma_references_are_read_back(b);
}

/// The description of a file lies in the managed part of the workspace.
pub proof fn lemma_descriptions_are_managed(path: Seq<char>)
    ensures
        managed(description_path(path)),
{
    let all = description_path(path);
    reveal_strlit(".brunn/");
    reveal_strlit(".brunn/binaries/");
    let prefix = ".brunn/"@;
    assert(prefix.len() == 7);
    assert(".brunn/binaries/"@.len() == 16);
    assert(all.take(7) =~= prefix);
    assert(prefix.is_prefix_of(all));
}

/// A digest without its name has no such name in front, and is the end of the text it
/// was taken from; a text without the name stays as it is.
pub proof fn lemma_digests_are_bare(s: Seq<char>)
    ensures
        !has_prefix(bare_digest(s), "sha256:"@),
        bare_digest(s).is_suffix_of(s),
        !has_prefix(s, "sha256:"@) ==> bare_digest(s) == s,
        bare_digest("sha256:"@ + s) == bare_digest(s),
    decreases s.len(),
{
    reveal_strlit("sha256:");
    let name = "sha256:"@;
    assert(name.len() == 7);
    lemma_behind(name, s);
    assert((name + s).len() > s.len());
    match behind(s, name) {
        Some(rest) => {
            lemma_digests_are_bare(rest);
            let bare = bare_digest(rest);
            assert(rest == s.skip(7));
            assert(s.skip(s.len() - bare.len()) =~= rest.skip(rest.len() - bare.len()));
        },
        None => {
            assert(s.skip(0) =~= s);
        },
    }
}

// ---------------------------------------------------------------------------
// Paths
// ---------------------------------------------------------------------------

/// Whether the characters from one place to another are a whole part of a path: there is
/// no slash among them, and one on either side, or the end of the path.
pub open spec fn is_part(path: Seq<char>, from: int, to: int) -> bool {
    &&& 0 <= from <= to <= path.len()
    &&& from == 0 || path[from - 1] == '/'
    &&& to == path.len() || path[to] == '/'
    &&& forall|i: int| from <= i < to ==> #[trigger] path[i] != '/'
}

proof fn lemma_part_is_piece(path: Seq<char>, start: int, from: int, to: int)
    requires
        0 <= start <= from,
        start == 0 || path[start - 1] == '/',
        is_part(path, from, to),
    ensures
        split_from(path, CharClass::Is('/'), start).contains(path.subrange(from, to)),
    decreases path.len() - start,
{
    let class = CharClass::Is('/');
    let pieces = split_from(path, class, start);
    lemma_first_from(path, class, start);
    let end = first_from(path, class, start);
    if from == start {
        if end < to {
            assert(path[end] != '/');
        }
        if to < end {
            assert(!class.has(path[to]));
        }
        assert(end == to);
        assert(pieces[0] == path.subrange(from, to));
    } else {
        if end >= path.len() || from <= end {
            assert(!class.has(path[from - 1]));
        }
        lemma_part_is_piece(path, end + 1, from, to);
        let rest = split_from(path, class, end + 1);
        let k = choose|k: int| 0 <= k < rest.len() && rest[k] == path.subrange(from, to);
        assert(pieces[k + 1] == rest[k]);
    }
}

proof fn lemma_piece_is_part(path: Seq<char>, start: int, k: int) -> (place: (int, int))
    requires
        0 <= start <= path.len(),
        start == 0 || path[start - 1] == '/',
        0 <= k < split_from(path, CharClass::Is('/'), start).len(),
    ensures
        is_part(path, place.0, place.1),
        split_from(path, CharClass::Is('/'), start)[k] == path.subrange(place.0, place.1),
        k == split_from(path, CharClass::Is('/'), start).len() - 1 ==> place.1 == path.len(),
    decreases path.len() - start,
{
    let class = CharClass::Is('/');
    lemma_first_from(path, class, start);
    let end = first_from(path, class, start);
    assert forall|i: int| start <= i < end implies #[trigger] path[i] != '/' by {
        assert(!class.has(path[i]));
    }
    if end >= path.len() {
        (start, path.len() as int)
    } else if k == 0 {
        lemma_has_piece(path, end + 1);
        (start, end)
    } else {
        lemma_piece_is_part(path, end + 1, k - 1)
    }
}

proof fn lemma_has_piece(path: Seq<char>, start: int)
    requires
        0 <= start <= path.len(),
    ensures
        split_from(path, CharClass::Is('/'), start).len() > 0,
    decreases path.len() - start,
{
    lemma_first_from(path, CharClass::Is('/'), start);
}

/// A path is safe exactly where it is neither empty nor too long, holds no control
/// character and no backslash, and no whole part of it is empty or made of one or two
/// dots alone.
pub proof fn lemma_safe_paths(path: Seq<char>)
    ensures
        safe_path(path) <==> {
            &&& 0 < path.len()
            &&& utf8_len(path) <= 1024
            &&& forall|i: int| 0 <= i < path.len() ==> !is_control_char(#[trigger] path[i])
            &&& forall|i: int| 0 <= i < path.len() ==> #[trigger] path[i] != '\\'
            &&& forall|from: int, to: int| #[trigger]
                is_part(path, from, to) ==> from < to && path.subrange(from, to) != "."@
                    && path.subrange(from, to) != ".."@
        },
{
    let class = CharClass::Is('/');
    let pieces = split(path, class);
    if safe_path(path) {
        assert forall|from: int, to: int| #[trigger] is_part(path, from, to) implies from < to
            && path.subrange(from, to) != "."@ && path.subrange(from, to) != ".."@ by {
            lemma_part_is_piece(path, 0, from, to);
            let k = choose|k: int| 0 <= k < pieces.len() && pieces[k] == path.subrange(from, to);
            assert(!unsafe_part(pieces[k]));
        }
        assert forall|i: int| 0 <= i < path.len() implies !is_control_char(#[trigger] path[i]) by {
            assert(!CharClass::Control.has(path[i]));
        }
        assert forall|i: int| 0 <= i < path.len() implies #[trigger] path[i] != '\\' by {
            assert(!CharClass::Is('\\').has(path[i]));
        }
    }
    if {
        &&& 0 < path.len()
        &&& utf8_len(path) <= 1024
        &&& forall|i: int| 0 <= i < path.len() ==> !is_control_char(#[trigger] path[i])
        &&& forall|i: int| 0 <= i < path.len() ==> #[trigger] path[i] != '\\'
        &&& forall|from: int, to: int| #[trigger]
            is_part(path, from, to) ==> from < to && path.subrange(from, to) != "."@
                && path.subrange(from, to) != ".."@
    } {
        reveal_strlit("/");
        assert("/"@.len() == 1 && "/"@[0] == '/');
        if has_prefix(path, "/"@) {
            assert(path[0] == "/"@[0]);
            assert(is_part(path, 0, 0));
        }
        assert forall|k: int| 0 <= k < pieces.len() implies !unsafe_part(#[trigger] pieces[k]) by {
            let (from, to) = lemma_piece_is_part(path, 0, k);
            assert(is_part(path, from, to));
        }
    }
}

/// The name of a file is the last part of its path: it holds no slash, and what is in front
/// of it ends with one.
pub proof fn lemma_file_names(path: Seq<char>) -> (from: int)
    ensures
        is_part(path, from, path.len() as int),
        file_name(path) == path.subrange(from, path.len() as int),
{
    lemma_has_piece(path, 0);
    let pieces = split(path, CharClass::Is('/'));
    let (from, to) = lemma_piece_is_part(path, 0, pieces.len() - 1);
    from
}

/// Of two texts the one that has the lesser character at the first place where they differ
/// is the lesser; where there is no such place, the shorter one is.
pub proof fn lemma_order_of_texts(a: Seq<char>, b: Seq<char>)
    ensures
        text_less(a, b) <==> exists|k: int| #[trigger]
            a.take(k) == b.take(k) && 0 <= k <= a.len() && k < b.len() && (k == a.len() || a[k]
                < b[k]),
    decreases b.len(),
{
    if b.len() > 0 && a.len() > 0 && a[0] == b[0] {
        let x = a.drop_first();
        let y = b.drop_first();
        lemma_order_of_texts(x, y);
        if text_less(x, y) {
            let k = choose|k: int| #[trigger]
                x.take(k) == y.take(k) && 0 <= k <= x.len() && k < y.len() && (k == x.len() || x[k]
                    < y[k]);
            assert(a.take(k + 1) =~= seq![a[0]] + x.take(k));
            assert(b.take(k + 1) =~= seq![b[0]] + y.take(k));
            assert(a.take(k + 1) == b.take(k + 1));
        }
        if exists|k: int| #[trigger]
            a.take(k) == b.take(k) && 0 <= k <= a.len() && k < b.len() && (k == a.len() || a[k]
                < b[k]) {
            let k = choose|k: int| #[trigger]
                a.take(k) == b.take(k) && 0 <= k <= a.len() && k < b.len() && (k == a.len() || a[k]
                    < b[k]);
            assert(k > 0);
            assert(x.take(k - 1) =~= a.take(k).drop_first());
            assert(y.take(k - 1) =~= b.take(k).drop_first());
            assert(x.take(k - 1) == y.take(k - 1));
        }
    } else {
        assert(a.take(0) =~= b.take(0));
        if exists|k: int| #[trigger]
            a.take(k) == b.take(k) && 0 <= k <= a.len() && k < b.len() && (k == a.len() || a[k]
                < b[k]) {
            let k = choose|k: int| #[trigger]
                a.take(k) == b.take(k) && 0 <= k <= a.len() && k < b.len() && (k == a.len() || a[k]
                    < b[k]);
            if k > 0 {
                assert(a.take(k)[0] == a[0] && b.take(k)[0] == b[0]);
            }
        }
    }
}

} // verus!
