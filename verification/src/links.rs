//! Laws of the targets of links: neither a heading behind the name of a note nor the
//! folders in front of it change what is looked up.
use vstd::prelude::*;

#[allow(unused_imports)]
use crate::outside::nfc_text;
#[allow(unused_imports)]
use crate::paths::{
    file_stem, front_bytes, link_keys, link_name, link_refusal, link_stem, path_key, utf8_len,
};
#[allow(unused_imports)]
use crate::text::{
    all_ascii, ascii_lower, ascii_lower_char, first_from, has_any, has_suffix, lemma_first_from, lower_case, split,
    split_from, trim_back, trim_front, trimmed, unicode_whitespace, CharClass,
};

verus! {

// ---------------------------------------------------------------------------
// Trimming
// ---------------------------------------------------------------------------

spec fn blank(s: Seq<char>) -> bool {
    forall|i: int| 0 <= i < s.len() ==> unicode_whitespace(#[trigger] s[i])
}

proof fn lemma_back_end(s: Seq<char>) -> (b: int)
    ensures
        0 <= b <= s.len(),
        trim_back(s, CharClass::Whitespace) == s.take(b),
        blank(s.subrange(b, s.len() as int)),
        b > 0 ==> !unicode_whitespace(s[b - 1]),
    decreases s.len(),
{
    if s.len() > 0 && unicode_whitespace(s.last()) {
        let t = s.drop_last();
        let b = lemma_back_end(t);
        assert(t.take(b) =~= s.take(b));
        assert(s.subrange(b, s.len() as int) =~= t.subrange(b, t.len() as int).push(s.last()));
        b
    } else {
        assert(s.take(s.len() as int) =~= s);
        s.len() as int
    }
}

proof fn lemma_front_end(s: Seq<char>) -> (a: int)
    ensures
        0 <= a <= s.len(),
        trim_front(s, CharClass::Whitespace) == s.skip(a),
        blank(s.subrange(0, a)),
        a < s.len() ==> !unicode_whitespace(s[a]),
    decreases s.len(),
{
    if s.len() > 0 && unicode_whitespace(s[0]) {
        let t = s.drop_first();
        let a = lemma_front_end(t);
        assert(t.skip(a) =~= s.skip(a + 1));
        assert(s.subrange(0, a + 1) =~= seq![s[0]] + t.subrange(0, a));
        a + 1
    } else {
        assert(s.skip(0) =~= s);
        0
    }
}

/// A trimmed text is the part of the text that begins and ends where the whitespace at
/// its two ends does.
pub proof fn lemma_trim_ends(s: Seq<char>) -> (ends: (int, int))
    ensures
        0 <= ends.0 <= ends.1 <= s.len(),
        trimmed(s) == s.subrange(ends.0, ends.1),
        forall|i: int| 0 <= i < ends.0 ==> unicode_whitespace(#[trigger] s[i]),
        forall|i: int| ends.1 <= i < s.len() ==> unicode_whitespace(#[trigger] s[i]),
        ends.0 < ends.1 ==> !unicode_whitespace(s[ends.0]) && !unicode_whitespace(s[ends.1 - 1]),
{
    let a = lemma_front_end(s);
    let t = s.skip(a);
    let n = lemma_back_end(t);
    let b = a + n;
    assert(t.take(n) =~= s.subrange(a, b));
    assert forall|i: int| 0 <= i < a implies unicode_whitespace(#[trigger] s[i]) by {
        assert(s.subrange(0, a)[i] == s[i]);
    }
    assert forall|i: int| b <= i < s.len() implies unicode_whitespace(#[trigger] s[i]) by {
        assert(t.subrange(n, t.len() as int)[i - b] == s[i]);
    }
    (a, b)
}

/// Whitespace at the ends does not show in what is trimmed.
proof fn lemma_trim_inner(s: Seq<char>, a: int, b: int)
    requires
        0 <= a <= b <= s.len(),
        forall|i: int| 0 <= i < a ==> unicode_whitespace(#[trigger] s[i]),
        forall|i: int| b <= i < s.len() ==> unicode_whitespace(#[trigger] s[i]),
    ensures
        trimmed(s.subrange(a, b)) == trimmed(s),
{
    let v = s.subrange(a, b);
    let (c, d) = lemma_trim_ends(s);
    let (e, f) = lemma_trim_ends(v);
    if c < d {
        assert(a <= c && d <= b);
        assert(v[c - a] == s[c]);
        assert(v[d - 1 - a] == s[d - 1]);
        assert(e <= c - a && d - a <= f);
        assert(v[e] == s[e + a]);
        assert(v[f - 1] == s[f - 1 + a]);
        assert(e + a == c && f + a == d);
        assert(v.subrange(e, f) =~= s.subrange(c, d));
    } else {
        if e < f {
            assert(v[e] == s[e + a]);
            assert(unicode_whitespace(s[e + a]));
        }
        assert(v.subrange(e, f) =~= s.subrange(c, d));
    }
}

// ---------------------------------------------------------------------------
// The name in a target
// ---------------------------------------------------------------------------

spec fn is_stop(c: char) -> bool {
    CharClass::LinkStop.has(c)
}

/// The text in front of `e` holds no stop, and one stands there or the text ends.
spec fn is_head(s: Seq<char>, e: int) -> bool {
    &&& 0 <= e <= s.len()
    &&& forall|i: int| 0 <= i < e ==> !is_stop(#[trigger] s[i])
    &&& e < s.len() ==> is_stop(s[e])
}

/// The last slash stands in front of `k`, or there is none and `k` is the start.
spec fn is_name_start(s: Seq<char>, k: int) -> bool {
    &&& 0 <= k <= s.len()
    &&& k > 0 ==> s[k - 1] == '/'
    &&& forall|i: int| k <= i < s.len() ==> #[trigger] s[i] != '/'
}

proof fn lemma_head_exists(s: Seq<char>) -> (e: int)
    ensures
        is_head(s, e),
{
    lemma_first_from(s, CharClass::LinkStop, 0);
    first_from(s, CharClass::LinkStop, 0)
}

proof fn lemma_name_start_exists(s: Seq<char>) -> (k: int)
    ensures
        is_name_start(s, k),
    decreases s.len(),
{
    if s.len() == 0 || s.last() == '/' {
        s.len() as int
    } else {
        let t = s.drop_last();
        let k = lemma_name_start_exists(t);
        assert forall|i: int| k <= i < s.len() implies #[trigger] s[i] != '/' by {
            if i < t.len() {
                assert(t[i] == s[i]);
            }
        }
        k
    }
}

proof fn lemma_head_piece(s: Seq<char>, e: int)
    requires
        is_head(s, e),
    ensures
        split(s, CharClass::LinkStop)[0] == s.subrange(0, e),
{
    let class = CharClass::LinkStop;
    lemma_first_from(s, class, 0);
    let f = first_from(s, class, 0);
    if f < e {
        assert(!is_stop(s[f]));
    } else if e < f {
        assert(!class.has(s[e]));
    }
}

proof fn lemma_last_part(s: Seq<char>, start: int, k: int)
    requires
        is_name_start(s, k),
        0 <= start <= s.len(),
    ensures
        split_from(s, CharClass::Is('/'), start).len() > 0,
        split_from(s, CharClass::Is('/'), start).last() == s.subrange(
            if start < k {
                k
            } else {
                start
            },
            s.len() as int,
        ),
    decreases s.len() - start,
{
    let class = CharClass::Is('/');
    lemma_first_from(s, class, start);
    let end = first_from(s, class, start);
    if end < s.len() {
        assert(s[end] == '/');
        lemma_last_part(s, end + 1, k);
        let rest = split_from(s, class, end + 1);
        assert((seq![s.subrange(start, end)] + rest).last() == rest.last());
    } else if start < k {
        assert(!class.has(s[k - 1]));
    }
}

proof fn lemma_name(s: Seq<char>, e: int, k: int)
    requires
        is_head(s, e),
        is_name_start(s.subrange(0, e), k),
    ensures
        link_name(s) == trimmed(s.subrange(k, e)),
{
    let u = s.subrange(0, e);
    lemma_head_piece(s, e);
    let (a, b) = lemma_trim_ends(u);
    let v = u.subrange(a, b);
    let w = u.subrange(k, e);
    assert(w =~= s.subrange(k, e));
    if k > 0 {
        assert(u[k - 1] == '/');
        assert(a < k <= b);
        let m = k - a;
        assert(v[m - 1] == u[k - 1]);
        assert forall|i: int| m <= i < v.len() implies #[trigger] v[i] != '/' by {
            assert(v[i] == u[i + a]);
        }
        lemma_last_part(v, 0, m);
        assert(v.subrange(m, v.len() as int) =~= w.subrange(0, b - k));
        assert forall|i: int| b - k <= i < w.len() implies unicode_whitespace(#[trigger] w[i]) by {
            assert(w[i] == u[i + k]);
        }
        lemma_trim_inner(w, 0, b - k);
    } else {
        assert forall|i: int| 0 <= i < v.len() implies #[trigger] v[i] != '/' by {
            assert(v[i] == u[i + a]);
        }
        lemma_last_part(v, 0, 0);
        assert(v.subrange(0, v.len() as int) =~= v);
        lemma_trim_inner(u, a, b);
        assert(w =~= u);
    }
}

proof fn lemma_name_of_trimmed(s: Seq<char>, e: int, k: int)
    requires
        is_head(s, e),
        is_name_start(s.subrange(0, e), k),
    ensures
        link_name(trimmed(s)) == trimmed(s.subrange(k, e)),
{
    let (a, b) = lemma_trim_ends(s);
    let t = s.subrange(a, b);
    let u = s.subrange(0, e);
    if e < s.len() {
        assert(is_stop(s[e]));
        assert(a <= e < b);
    }
    let f = if e < s.len() {
        e - a
    } else {
        b - a
    };
    assert forall|i: int| 0 <= i < f implies !is_stop(#[trigger] t[i]) by {
        assert(t[i] == s[i + a]);
    }
    if k > 0 {
        assert(u[k - 1] == '/');
        assert(s[k - 1] == '/');
        assert(a < k <= b);
    }
    let m = if k > 0 {
        k - a
    } else {
        0
    };
    let h = t.subrange(0, f);
    if k > 0 {
        assert(h[m - 1] == s[k - 1]);
    }
    assert forall|i: int| m <= i < h.len() implies #[trigger] h[i] != '/' by {
        assert(h[i] == s[i + a]);
        assert(u[i + a] == s[i + a]);
    }
    lemma_name(t, f, m);
    let w = s.subrange(k, e);
    let from = m + a - k;
    let to = f + a - k;
    assert(t.subrange(m, f) =~= w.subrange(from, to));
    assert forall|i: int| 0 <= i < from implies unicode_whitespace(#[trigger] w[i]) by {
        assert(w[i] == s[i + k]);
    }
    assert forall|i: int| to <= i < w.len() implies unicode_whitespace(#[trigger] w[i]) by {
        assert(w[i] == s[i + k]);
    }
    lemma_trim_inner(w, from, to);
}

proof fn lemma_same_name_with_heading(t: Seq<char>, h: Seq<char>)
    ensures
        link_name(trimmed(t + "#"@ + h)) == link_name(trimmed(t)),
{
    reveal_strlit("#");
    let s = t + "#"@ + h;
    let e = lemma_head_exists(t);
    let k = lemma_name_start_exists(t.subrange(0, e));
    assert forall|i: int| 0 <= i < e implies !is_stop(#[trigger] s[i]) by {
        assert(s[i] == t[i]);
    }
    if e < t.len() {
        assert(s[e] == t[e]);
    } else {
        assert(s[e] == '#');
    }
    assert(s.subrange(0, e) =~= t.subrange(0, e));
    assert(s.subrange(k, e) =~= t.subrange(k, e));
    lemma_name_of_trimmed(t, e, k);
    lemma_name_of_trimmed(s, e, k);
}

proof fn lemma_same_name_in_folder(d: Seq<char>, t: Seq<char>)
    requires
        !has_any(d, CharClass::LinkStop),
    ensures
        link_name(trimmed(d + "/"@ + t)) == link_name(trimmed(t)),
{
    reveal_strlit("/");
    let s = d + "/"@ + t;
    let n = d.len() + 1;
    let e = lemma_head_exists(t);
    let u = t.subrange(0, e);
    let k = lemma_name_start_exists(u);
    assert forall|i: int| 0 <= i < e + n implies !is_stop(#[trigger] s[i]) by {
        if i < d.len() {
            assert(s[i] == d[i]);
        } else if i >= n {
            assert(s[i] == t[i - n]);
        }
    }
    if e < t.len() {
        assert(s[e + n] == t[e]);
    }
    let v = s.subrange(0, e + n);
    assert(v[n - 1] == '/');
    if k > 0 {
        assert(v[k + n - 1] == u[k - 1]);
    }
    assert forall|i: int| k + n <= i < v.len() implies #[trigger] v[i] != '/' by {
        assert(v[i] == u[i - n]);
    }
    assert(s.subrange(k + n, e + n) =~= t.subrange(k, e));
    lemma_name_of_trimmed(t, e, k);
    lemma_name_of_trimmed(s, e + n, k + n);
}

// ---------------------------------------------------------------------------
// What is accepted
// ---------------------------------------------------------------------------

proof fn lemma_utf8_len_take(s: Seq<char>, n: int)
    requires
        0 <= n <= s.len(),
    ensures
        utf8_len(s.subrange(0, n)) <= utf8_len(s),
    decreases s.len(),
{
    if n > 0 {
        let t = s.drop_first();
        lemma_utf8_len_take(t, n - 1);
        assert(s.subrange(0, n).drop_first() =~= t.subrange(0, n - 1));
    }
}

proof fn lemma_utf8_len_inner(s: Seq<char>, a: int, b: int)
    requires
        0 <= a <= b <= s.len(),
    ensures
        utf8_len(s.subrange(a, b)) <= utf8_len(s),
    decreases s.len(),
{
    if a > 0 {
        let t = s.drop_first();
        lemma_utf8_len_inner(t, a - 1, b - 1);
        assert(t.subrange(a - 1, b - 1) =~= s.subrange(a, b));
    } else {
        lemma_utf8_len_take(s, b);
    }
}

proof fn lemma_no_stem()
    ensures
        link_stem(Seq::<char>::empty()) == Seq::<char>::empty(),
{
    let none = Seq::<char>::empty();
    lemma_name(none, 0, 0);
    assert(none.subrange(0, 0) =~= none);
    assert(trimmed(none) == none);
    assert(link_name(none) == none);
    reveal(lower_case);
    assert(ascii_lower(none) =~= none);
    assert(lower_case(none) == none);
    reveal_strlit(".markdown");
    reveal_strlit(".md");
    assert(!has_suffix(none, ".markdown"@));
    assert(!has_suffix(none, ".md"@));
}

/// Of a text without control characters and of at most the bytes that a target may
/// have, the stem alone decides whether it is looked up.
proof fn lemma_stem_decides(s: Seq<char>)
    requires
        !has_any(s, CharClass::Control),
        utf8_len(s) <= 1024,
    ensures
        link_refusal(s) is None <==> !crate::paths::unsafe_part(link_stem(trimmed(s))),
{
    let (a, b) = lemma_trim_ends(s);
    let t = trimmed(s);
    lemma_utf8_len_inner(s, a, b);
    assert forall|i: int| 0 <= i < t.len() implies !CharClass::Control.has(#[trigger] t[i]) by {
        assert(t[i] == s[i + a]);
    }
    assert(!has_any(t, CharClass::Control));
    if t.len() == 0 {
        assert(t =~= Seq::<char>::empty());
        lemma_no_stem();
    }
}

proof fn lemma_part_has_none(a: Seq<char>, b: Seq<char>, class: CharClass)
    ensures
        has_any(a + b, class) == (has_any(a, class) || has_any(b, class)),
{
    let s = a + b;
    if has_any(a, class) {
        let i = choose|i: int| 0 <= i < a.len() && class.has(a[i]);
        assert(s[i] == a[i]);
    }
    if has_any(b, class) {
        let i = choose|i: int| 0 <= i < b.len() && class.has(b[i]);
        assert(s[i + a.len()] == b[i]);
    }
    if has_any(s, class) {
        let i = choose|i: int| 0 <= i < s.len() && class.has(s[i]);
        if i < a.len() {
            assert(a[i] == s[i]);
        } else {
            assert(b[i - a.len()] == s[i]);
        }
    }
}

/// A heading behind the target of a link changes neither whether the target is
/// looked up nor the keys it is looked up by, as long as the whole is a text that a
/// target may be.
pub proof fn lemma_heading_is_ignored(target: Seq<char>, heading: Seq<char>)
    requires
        !has_any(target + "#"@ + heading, CharClass::Control),
        utf8_len(target + "#"@ + heading) <= 1024,
    ensures
        link_refusal(target + "#"@ + heading) is None <==> link_refusal(target) is None,
        link_keys(target + "#"@ + heading) == link_keys(target),
{
    let s = target + "#"@ + heading;
    lemma_part_has_none(target + "#"@, heading, CharClass::Control);
    lemma_part_has_none(target, "#"@, CharClass::Control);
    lemma_utf8_len_inner(s, 0, target.len() as int);
    assert(s.subrange(0, target.len() as int) =~= target);
    lemma_stem_decides(s);
    lemma_stem_decides(target);
    lemma_same_name_with_heading(target, heading);
}

/// The folders in front of the target of a link change neither whether the target is
/// looked up nor the keys it is looked up by, as long as the whole is a text that a
/// target may be.
pub proof fn lemma_folders_are_ignored(folders: Seq<char>, target: Seq<char>)
    requires
        !has_any(folders, CharClass::LinkStop),
        !has_any(folders + "/"@ + target, CharClass::Control),
        utf8_len(folders + "/"@ + target) <= 1024,
    ensures
        link_refusal(folders + "/"@ + target) is None <==> link_refusal(target) is None,
        link_keys(folders + "/"@ + target) == link_keys(target),
{
    let s = folders + "/"@ + target;
    lemma_part_has_none(folders + "/"@, target, CharClass::Control);
    lemma_utf8_len_inner(s, s.len() - target.len(), s.len() as int);
    assert(s.subrange(s.len() - target.len(), s.len() as int) =~= target);
    lemma_stem_decides(s);
    lemma_stem_decides(target);
    lemma_same_name_in_folder(folders, target);
}

proof fn lemma_front_bytes(s: Seq<char>, bytes: int) -> (n: int)
    ensures
        0 <= n <= s.len(),
        front_bytes(s, bytes) == s.subrange(0, n),
    decreases s.len(),
{
    if s.len() == 0 || utf8_len(s) <= bytes {
        assert(s.subrange(0, s.len() as int) =~= s);
        s.len() as int
    } else {
        let n = lemma_front_bytes(s.drop_last(), bytes);
        assert(s.drop_last().subrange(0, n) =~= s.subrange(0, n));
        n
    }
}

proof fn lemma_no_slash_inside(s: Seq<char>, a: int, b: int)
    requires
        0 <= a <= b <= s.len(),
        !has_any(s, CharClass::Is('/')),
    ensures
        !has_any(s.subrange(a, b), CharClass::Is('/')),
{
    let t = s.subrange(a, b);
    assert forall|i: int| 0 <= i < t.len() implies !CharClass::Is('/').has(#[trigger] t[i]) by {
        assert(t[i] == s[i + a]);
    }
}

proof fn lemma_name_has_no_slash(t: Seq<char>)
    ensures
        !has_any(link_name(t), CharClass::Is('/')),
{
    let e = lemma_head_exists(t);
    let u = t.subrange(0, e);
    let k = lemma_name_start_exists(u);
    lemma_name(t, e, k);
    let w = t.subrange(k, e);
    assert forall|i: int| 0 <= i < w.len() implies !CharClass::Is('/').has(#[trigger] w[i]) by {
        assert(w[i] == u[i + k]);
    }
    let (a, b) = lemma_trim_ends(w);
    lemma_no_slash_inside(w, a, b);
}

proof fn lemma_stem_has_no_slash(name: Seq<char>)
    requires
        !has_any(name, CharClass::Is('/')),
    ensures
        !has_any(file_stem(name), CharClass::Is('/')),
{
    let m = lemma_front_bytes(name, utf8_len(name) - 9);
    let n = lemma_front_bytes(name, utf8_len(name) - 3);
    lemma_no_slash_inside(name, 0, m);
    lemma_no_slash_inside(name, 0, n);
    let stem = if has_suffix(lower_case(name), ".markdown"@) {
        name.subrange(0, m)
    } else if has_suffix(lower_case(name), ".md"@) {
        name.subrange(0, n)
    } else {
        name
    };
    let (c, d) = lemma_trim_ends(stem);
    lemma_no_slash_inside(stem, c, d);
}

proof fn lemma_ascii_key(stem: Seq<char>)
    requires
        all_ascii(stem),
        !has_any(stem, CharClass::Is('/')),
    ensures
        path_key(stem).len() == stem.len(),
        !has_any(path_key(stem), CharClass::Is('/')),
{
    reveal(nfc_text);
    reveal(lower_case);
    let key = path_key(stem);
    assert(key == ascii_lower(stem));
    assert forall|i: int| 0 <= i < key.len() implies !CharClass::Is('/').has(#[trigger] key[i]) by {
        assert(!CharClass::Is('/').has(stem[i]));
        assert(key[i] == ascii_lower_char(stem[i]));
    }
}

/// A target that is looked up names a file in no folder: its stem is not empty and
/// holds no slash. It is looked up by the key of that stem, bare and with the two
/// extensions of a note. Of a stem in ASCII, the key is not empty and holds no slash
/// either.
pub proof fn lemma_link_names_a_file(target: Seq<char>)
    requires
        link_refusal(target) is None,
    ensures
        link_stem(trimmed(target)).len() > 0,
        !has_any(link_stem(trimmed(target)), CharClass::Is('/')),
        link_keys(target) == seq![
            path_key(link_stem(trimmed(target))),
            path_key(link_stem(trimmed(target))) + ".md"@,
            path_key(link_stem(trimmed(target))) + ".markdown"@,
        ],
        all_ascii(link_stem(trimmed(target))) ==> path_key(link_stem(trimmed(target))).len() > 0
            && !has_any(path_key(link_stem(trimmed(target))), CharClass::Is('/')),
{
    lemma_name_has_no_slash(trimmed(target));
    lemma_stem_has_no_slash(link_name(trimmed(target)));
    let stem = link_stem(trimmed(target));
    if all_ascii(stem) {
        lemma_ascii_key(stem);
    }
}

}
