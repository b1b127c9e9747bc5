//! Text as a sequence of characters: the operations the rest of the library is
//! written with, each stated over `Seq<char>`.
use vstd::prelude::*;
#[allow(unused_imports)]
use vstd::utf8::{encode_utf8, valid_utf8};

verus! {

// ---------------------------------------------------------------------------
// What the standard library says of characters and strings
// ---------------------------------------------------------------------------

/// Whether the character has the Unicode property `White_Space`.
pub open spec fn unicode_whitespace(c: char) -> bool {
    let n = c as u32;
    ||| 0x9 <= n <= 0xd
    ||| n == 0x20
    ||| n == 0x85
    ||| n == 0xa0
    ||| n == 0x1680
    ||| 0x2000 <= n <= 0x200a
    ||| n == 0x2028
    ||| n == 0x2029
    ||| n == 0x202f
    ||| n == 0x205f
    ||| n == 0x3000
}

pub open spec fn is_ascii_char(c: char) -> bool {
    c as u32 <= 0x7f
}

/// Whether every character of a text is one of ASCII.
pub open spec fn all_ascii(s: Seq<char>) -> bool {
    forall|i: int| 0 <= i < s.len() ==> is_ascii_char(#[trigger] s[i])
}

pub open spec fn is_ascii_upper_char(c: char) -> bool {
    'A' <= c <= 'Z'
}

pub open spec fn is_ascii_letter_char(c: char) -> bool {
    'a' <= c <= 'z' || is_ascii_upper_char(c)
}

/// What `char::is_alphanumeric` says of a character.
pub uninterp spec fn unicode_alphanumeric(c: char) -> bool;

/// Whether a character is a letter or a number in Unicode's sense. Of ASCII, these
/// are the letters and the digits.
pub open spec fn alphanumeric(c: char) -> bool {
    if is_ascii_char(c) {
        is_ascii_letter_char(c) || is_ascii_digit_char(c)
    } else {
        unicode_alphanumeric(c)
    }
}

/// What `char::is_alphabetic` says of a character.
pub uninterp spec fn unicode_alphabetic(c: char) -> bool;

/// Whether a character has the Unicode property `Alphabetic`. Of ASCII, these are
/// the letters.
pub open spec fn alphabetic(c: char) -> bool {
    if is_ascii_char(c) {
        is_ascii_letter_char(c)
    } else {
        unicode_alphabetic(c)
    }
}

/// What `char::is_uppercase` says of a character.
pub uninterp spec fn unicode_uppercase(c: char) -> bool;

/// Whether a character has the Unicode property `Uppercase`. Of ASCII, these are the
/// letters from `A` to `Z`.
pub open spec fn upper_case(c: char) -> bool {
    if is_ascii_char(c) {
        is_ascii_upper_char(c)
    } else {
        unicode_uppercase(c)
    }
}

/// What `char::to_lowercase` gives of a character.
pub uninterp spec fn unicode_lower_char(c: char) -> Seq<char>;

/// The lower case of one character, which may be several. One of ASCII is replaced
/// by the letter that goes with it, where it is an upper-case letter.
pub open spec fn lower_case_char(c: char) -> Seq<char> {
    if is_ascii_char(c) {
        seq![ascii_lower_char(c)]
    } else {
        unicode_lower_char(c)
    }
}

/// What `str::to_lowercase` gives of a text.
pub uninterp spec fn unicode_lower(text: Seq<char>) -> Seq<char>;

/// The lower case of a text. It depends on more than the single characters, since a
/// final sigma is told apart; in ASCII it does not.
#[verifier::opaque]
pub open spec fn lower_case(text: Seq<char>) -> Seq<char> {
    if all_ascii(text) {
        ascii_lower(text)
    } else {
        unicode_lower(text)
    }
}

/// `char::is_whitespace`: the Unicode property `White_Space`, which holds of the
/// characters listed and of no other.
pub assume_specification[ char::is_whitespace ](c: char) -> (b: bool)
    ensures
        b == unicode_whitespace(c),
;

/// `char::is_alphanumeric`: stated of ASCII, by the name given to its result otherwise.
pub assume_specification[ char::is_alphanumeric ](c: char) -> (b: bool)
    ensures
        b == if is_ascii_char(c) {
            is_ascii_letter_char(c) || is_ascii_digit_char(c)
        } else {
            unicode_alphanumeric(c)
        },
;

/// `char::is_alphabetic`: stated of ASCII, by the name given to its result otherwise.
pub assume_specification[ char::is_alphabetic ](c: char) -> (b: bool)
    ensures
        b == if is_ascii_char(c) {
            is_ascii_letter_char(c)
        } else {
            unicode_alphabetic(c)
        },
;

/// `char::is_uppercase`: stated of ASCII, by the name given to its result otherwise.
pub assume_specification[ char::is_uppercase ](c: char) -> (b: bool)
    ensures
        b == if is_ascii_char(c) {
            is_ascii_upper_char(c)
        } else {
            unicode_uppercase(c)
        },
;

/// `char::is_control`: the general category `Cc`, which Unicode fixes as
/// U+0000 to U+001F and U+007F to U+009F.
pub assume_specification[ char::is_control ](c: char) -> (b: bool)
    ensures
        b == is_control_char(c),
;

/// `String::push` appends one character.
pub assume_specification[ String::push ](s: &mut String, c: char)
    ensures
        final(s)@ == old(s)@.push(c),
;

/// `char::to_lowercase`, its characters collected: stated of ASCII, by the name given
/// to its result otherwise.
#[verifier::external_body]
pub(crate) fn lower_char(c: char) -> (r: Vec<char>)
    ensures
        r@ == if is_ascii_char(c) {
            seq![ascii_lower_char(c)]
        } else {
            unicode_lower_char(c)
        },
{
    c.to_lowercase().collect()
}

/// `str::to_lowercase`: stated of texts in ASCII, by the name given to its result
/// otherwise.
#[verifier::external_body]
fn std_lower(text: &str) -> (r: String)
    ensures
        all_ascii(text@) ==> r@ == ascii_lower(text@),
        !all_ascii(text@) ==> r@ == unicode_lower(text@),
{
    text.to_lowercase()
}

/// The text in lower case.
pub(crate) fn lower(text: &str) -> (r: String)
    ensures
        r@ == lower_case(text@),
{
    reveal(lower_case);
    std_lower(text)
}

/// `String::from_utf8`: the text that some bytes encode; nothing where they are not
/// valid UTF-8.
#[verifier::external_body]
pub(crate) fn utf8_text(bytes: &Vec<u8>) -> (r: Option<String>)
    ensures
        match r {
            Some(t) => encode_utf8(t@) == bytes@,
            None => !valid_utf8(bytes@),
        },
{
    String::from_utf8(bytes.clone()).ok()
}

pub open spec fn is_control_char(c: char) -> bool {
    c as u32 <= 0x1f || 0x7f <= c as u32 <= 0x9f
}

// ---------------------------------------------------------------------------
// Classes of characters
// ---------------------------------------------------------------------------

/// A set of characters by which text is searched, cut and trimmed.
#[derive(Clone, Copy, Debug)]
pub enum CharClass {
    /// One character.
    Is(char),
    Whitespace,
    Control,
    AsciiDigit,
    Alphabetic,
    Alphanumeric,
    NotAlphanumeric,
    /// `-`, `_`, `/` and `.`, which join the parts of an identifier.
    Joiner,
    /// `-` and `/`.
    DashOrSlash,
    /// What stands between identifiers: neither alphanumeric nor a joiner.
    BetweenTokens,
    /// Punctuation that surrounds a path in running text.
    AroundPath,
    /// What ends the name in the target of a link: `#`, `?`, `^` and `|`.
    LinkStop,
    NotWhitespace,
    /// What is no hexadecimal digit.
    NotHexDigit,
}

pub open spec fn is_ascii_digit_char(c: char) -> bool {
    '0' <= c <= '9'
}

pub open spec fn is_hex_digit_char(c: char) -> bool {
    '0' <= c <= '9' || 'a' <= c <= 'f' || 'A' <= c <= 'F'
}

pub open spec fn is_joiner(c: char) -> bool {
    c == '-' || c == '_' || c == '/' || c == '.'
}

impl CharClass {
    pub open spec fn has(self, c: char) -> bool {
        match self {
            CharClass::Is(d) => c == d,
            CharClass::Whitespace => unicode_whitespace(c),
            CharClass::Control => is_control_char(c),
            CharClass::AsciiDigit => is_ascii_digit_char(c),
            CharClass::Alphabetic => alphabetic(c),
            CharClass::Alphanumeric => alphanumeric(c),
            CharClass::NotAlphanumeric => !alphanumeric(c),
            CharClass::Joiner => is_joiner(c),
            CharClass::DashOrSlash => c == '-' || c == '/',
            CharClass::BetweenTokens => !alphanumeric(c) && !is_joiner(c),
            CharClass::AroundPath => c == '`' || c == '"' || c == '\'' || c == ',' || c == ';' || c
                == ':' || c == '(' || c == ')' || c == '[' || c == ']',
            CharClass::LinkStop => c == '#' || c == '?' || c == '^' || c == '|',
            CharClass::NotWhitespace => !unicode_whitespace(c),
            CharClass::NotHexDigit => !is_hex_digit_char(c),
        }
    }

    /// Whether the character belongs to the class.
    pub fn test(self, c: char) -> (r: bool)
        ensures
            r == self.has(c),
    {
        match self {
            CharClass::Is(d) => c == d,
            CharClass::Whitespace => c.is_whitespace(),
            CharClass::Control => c.is_control(),
            CharClass::AsciiDigit => '0' <= c && c <= '9',
            CharClass::Alphabetic => c.is_alphabetic(),
            CharClass::Alphanumeric => c.is_alphanumeric(),
            CharClass::NotAlphanumeric => !c.is_alphanumeric(),
            CharClass::Joiner => c == '-' || c == '_' || c == '/' || c == '.',
            CharClass::DashOrSlash => c == '-' || c == '/',
            CharClass::BetweenTokens => !c.is_alphanumeric() && !(c == '-' || c == '_' || c == '/'
                || c == '.'),
            CharClass::AroundPath => c == '`' || c == '"' || c == '\'' || c == ',' || c == ';' || c
                == ':' || c == '(' || c == ')' || c == '[' || c == ']',
            CharClass::LinkStop => c == '#' || c == '?' || c == '^' || c == '|',
            CharClass::NotWhitespace => !c.is_whitespace(),
            CharClass::NotHexDigit => !(('0' <= c && c <= '9') || ('a' <= c && c <= 'f') || ('A'
                <= c && c <= 'F')),
        }
    }
}

/// The position of the first character of a class at or after `start`; the
/// length where there is none.
pub open spec fn first_from(s: Seq<char>, class: CharClass, start: int) -> int
    decreases s.len() - start,
{
    if start < 0 || start >= s.len() {
        s.len() as int
    } else if class.has(s[start]) {
        start
    } else {
        first_from(s, class, start + 1)
    }
}

pub proof fn lemma_first_from(s: Seq<char>, class: CharClass, start: int)
    requires
        0 <= start <= s.len(),
    ensures
        start <= first_from(s, class, start) <= s.len(),
        first_from(s, class, start) < s.len() ==> class.has(s[first_from(s, class, start)]),
        forall|i: int|
            start <= i < first_from(s, class, start) ==> !class.has(#[trigger] s[i]),
    decreases s.len() - start,
{
    if start < s.len() && !class.has(s[start]) {
        lemma_first_from(s, class, start + 1);
    }
}

/// Whether the text holds a character of the class.
pub open spec fn has_any(s: Seq<char>, class: CharClass) -> bool {
    exists|i: int| 0 <= i < s.len() && class.has(#[trigger] s[i])
}

/// The characters of the text that belong to the class, in their order.
pub open spec fn only(s: Seq<char>, class: CharClass) -> Seq<char> {
    s.filter(|c: char| class.has(c))
}

/// The pieces of the text from `start` on, cut at every character of the class.
pub open spec fn split_from(s: Seq<char>, class: CharClass, start: int) -> Seq<Seq<char>>
    decreases s.len() - start,
{
    if start < 0 || start > s.len() {
        Seq::empty()
    } else {
        let end = first_from(s, class, start);
        if end >= s.len() {
            seq![s.subrange(start, s.len() as int)]
        } else if end < start {
            Seq::empty()
        } else {
            seq![s.subrange(start, end)] + split_from(s, class, end + 1)
        }
    }
}

/// The pieces of the text, cut at every character of the class: one more than
/// there are such characters.
pub open spec fn split(s: Seq<char>, class: CharClass) -> Seq<Seq<char>> {
    split_from(s, class, 0)
}

pub open spec fn nonempty(pieces: Seq<Seq<char>>) -> Seq<Seq<char>> {
    pieces.filter(|piece: Seq<char>| piece.len() > 0)
}

/// The words of the text: its nonempty pieces between whitespace.
pub open spec fn words(s: Seq<char>) -> Seq<Seq<char>> {
    nonempty(split(s, CharClass::Whitespace))
}

pub open spec fn trim_front(s: Seq<char>, class: CharClass) -> Seq<char>
    decreases s.len(),
{
    if s.len() > 0 && class.has(s[0]) {
        trim_front(s.drop_first(), class)
    } else {
        s
    }
}

pub open spec fn trim_back(s: Seq<char>, class: CharClass) -> Seq<char>
    decreases s.len(),
{
    if s.len() > 0 && class.has(s.last()) {
        trim_back(s.drop_last(), class)
    } else {
        s
    }
}

/// The text without the characters of the class at its two ends.
pub open spec fn trim_class(s: Seq<char>, class: CharClass) -> Seq<char> {
    trim_back(trim_front(s, class), class)
}

/// The text without surrounding whitespace.
pub open spec fn trimmed(s: Seq<char>) -> Seq<char> {
    trim_class(s, CharClass::Whitespace)
}

/// The first `limit` characters of the text.
pub open spec fn truncated(s: Seq<char>, limit: int) -> Seq<char> {
    if s.len() <= limit {
        s
    } else {
        s.take(limit)
    }
}

pub open spec fn occurs_at(s: Seq<char>, needle: Seq<char>, at: int) -> bool {
    &&& 0 <= at
    &&& at + needle.len() <= s.len()
    &&& s.subrange(at, at + needle.len()) == needle
}

/// Whether the needle occurs in the text.
pub open spec fn occurs(s: Seq<char>, needle: Seq<char>) -> bool {
    exists|at: int| occurs_at(s, needle, at)
}

pub open spec fn has_prefix(s: Seq<char>, prefix: Seq<char>) -> bool {
    prefix.is_prefix_of(s)
}

pub open spec fn has_suffix(s: Seq<char>, suffix: Seq<char>) -> bool {
    suffix.is_suffix_of(s)
}

/// The rest of the text behind a prefix, where it has it.
pub open spec fn behind(s: Seq<char>, prefix: Seq<char>) -> Option<Seq<char>> {
    if has_prefix(s, prefix) {
        Some(s.skip(prefix.len() as int))
    } else {
        None
    }
}

/// The text in front of a suffix, where it has it.
pub open spec fn in_front_of(s: Seq<char>, suffix: Seq<char>) -> Option<Seq<char>> {
    if has_suffix(s, suffix) {
        Some(s.take(s.len() - suffix.len()))
    } else {
        None
    }
}

/// One ASCII letter in lower case; any other character as it is.
pub open spec fn ascii_lower_char(c: char) -> char {
    if 'A' <= c <= 'Z' {
        ((c as u32 + 32) as u32) as char
    } else {
        c
    }
}

/// The text with its ASCII letters in lower case.
pub open spec fn ascii_lower(s: Seq<char>) -> Seq<char> {
    Seq::new(s.len(), |i: int| ascii_lower_char(s[i]))
}

/// Whether the texts are equal up to the case of ASCII letters.
pub open spec fn equal_ignoring_case(a: Seq<char>, b: Seq<char>) -> bool {
    ascii_lower(a) == ascii_lower(b)
}

/// The views of a sequence of strings.
pub open spec fn texts(v: Seq<String>) -> Seq<Seq<char>> {
    Seq::new(v.len(), |i: int| v[i]@)
}

/// The texts joined with a separator between them.
pub open spec fn joined(parts: Seq<Seq<char>>, separator: Seq<char>) -> Seq<char>
    decreases parts.len(),
{
    if parts.len() == 0 {
        Seq::empty()
    } else if parts.len() == 1 {
        parts[0]
    } else {
        joined(parts.drop_last(), separator) + separator + parts.last()
    }
}

/// The decimal digits of a natural number.
pub open spec fn digits(n: nat) -> Seq<char>
    decreases n,
{
    if n < 10 {
        seq![digit_char(n)]
    } else {
        digits(n / 10).push(digit_char(n % 10))
    }
}

pub open spec fn digit_char(n: nat) -> char {
    (('0' as u32 + n) as u32) as char
}

/// An integer in decimal notation.
pub open spec fn decimal(n: int) -> Seq<char> {
    if n < 0 {
        seq!['-'] + digits((-n) as nat)
    } else {
        digits(n as nat)
    }
}

/// The digits of a fraction of which `places` decimal places are given, without the
/// zeros at its end but for one in front.
pub open spec fn fraction_digits(n: nat, places: nat) -> Seq<char>
    decreases places,
{
    if places <= 1 {
        seq![digit_char(n % 10)]
    } else if n % 10 == 0 {
        fraction_digits(n / 10, (places - 1) as nat)
    } else {
        padded_digits(n, places)
    }
}

/// The last `places` digits of a number, with zeros in front.
pub open spec fn padded_digits(n: nat, places: nat) -> Seq<char>
    decreases places,
{
    if places == 0 {
        Seq::empty()
    } else {
        padded_digits(n / 10, (places - 1) as nat).push(digit_char(n % 10))
    }
}

/// A number of billionths as a decimal fraction, with at least one digit on each side
/// of the point and no other zero at its end.
pub open spec fn fixed_text(n: int) -> Seq<char> {
    if n < 0 {
        seq!['-'] + fixed_text_of_natural((-n) as nat)
    } else {
        fixed_text_of_natural(n as nat)
    }
}

pub open spec fn fixed_text_of_natural(n: nat) -> Seq<char> {
    decimal((n / 1_000_000_000) as int) + "."@ + fraction_digits(n % 1_000_000_000, 9)
}

/// The order of texts: by code points, the first difference counts, and a prefix
/// comes before what it begins.
pub open spec fn text_less(a: Seq<char>, b: Seq<char>) -> bool
    decreases b.len(),
{
    if b.len() == 0 {
        false
    } else if a.len() == 0 {
        true
    } else if a[0] != b[0] {
        a[0] < b[0]
    } else {
        text_less(a.drop_first(), b.drop_first())
    }
}

pub proof fn lemma_text_less_irreflexive(a: Seq<char>)
    ensures
        !text_less(a, a),
    decreases a.len(),
{
    if a.len() > 0 {
        lemma_text_less_irreflexive(a.drop_first());
    }
}

/// Of two different texts one is before the other.
pub proof fn lemma_text_less_total(a: Seq<char>, b: Seq<char>)
    ensures
        a == b || text_less(a, b) || text_less(b, a),
    decreases a.len(),
{
    if a.len() > 0 && b.len() > 0 && a[0] == b[0] {
        lemma_text_less_total(a.drop_first(), b.drop_first());
        if a.drop_first() == b.drop_first() {
            assert(a =~= seq![a[0]] + a.drop_first());
            assert(b =~= seq![b[0]] + b.drop_first());
        }
    } else if a.len() == 0 && b.len() == 0 {
        assert(a =~= b);
    }
}

pub proof fn lemma_text_less_transitive(a: Seq<char>, b: Seq<char>, c: Seq<char>)
    requires
        text_less(a, b),
        text_less(b, c),
    ensures
        text_less(a, c),
    decreases a.len(),
{
    if a.len() > 0 && a[0] == b[0] && b[0] == c[0] {
        lemma_text_less_transitive(a.drop_first(), b.drop_first(), c.drop_first());
    }
}

pub proof fn lemma_text_less_asymmetric(a: Seq<char>, b: Seq<char>)
    requires
        text_less(a, b),
    ensures
        !text_less(b, a),
{
    if text_less(b, a) {
        lemma_text_less_transitive(a, b, a);
        lemma_text_less_irreflexive(a);
    }
}

// ---------------------------------------------------------------------------
// Executable operations
// ---------------------------------------------------------------------------

/// The characters of a text.
pub fn chars_of(text: &str) -> (r: Vec<char>)
    ensures
        r@ == text@,
{
    let mut out: Vec<char> = Vec::new();
    for c in it: text.chars()
        invariant
            out@ == text@.take(it.index()),
            it.seq() == text@,
    {
        out.push(c);
        assert(text@.take(it.index() + 1) =~= text@.take(it.index()).push(text@[it.index() as int]));
    }
    assert(text@.take(text@.len() as int) =~= text@);
    out
}

/// The text of the characters from `from` to `to`.
pub fn piece(chars: &Vec<char>, from: usize, to: usize) -> (r: String)
    requires
        from <= to <= chars@.len(),
    ensures
        r@ == chars@.subrange(from as int, to as int),
{
    let mut out = String::new();
    let mut i: usize = from;
    while i < to
        invariant
            from <= i <= to <= chars@.len(),
            out@ == chars@.subrange(from as int, i as int),
        decreases to - i,
    {
        out.push(chars[i]);
        assert(chars@.subrange(from as int, i + 1) =~= chars@.subrange(from as int, i as int).push(
            chars@[i as int],
        ));
        i = i + 1;
    }
    out
}

/// The text of some characters.
pub fn string_of(chars: &Vec<char>) -> (r: String)
    ensures
        r@ == chars@,
{
    let r = piece(chars, 0, chars.len());
    assert(chars@.subrange(0, chars@.len() as int) =~= chars@);
    r
}

/// Whether two texts are equal.
pub fn same(a: &str, b: &str) -> (r: bool)
    ensures
        r == (a@ == b@),
{
    a.to_owned() == b.to_owned()
}

/// The number of bytes of the text in UTF-8.
pub fn byte_len(text: &str) -> (r: usize)
    ensures
        r == vstd::utf8::encode_utf8(text@).len(),
{
    text.as_bytes().len()
}

/// Two texts one behind the other.
pub fn cat(a: &str, b: &str) -> (r: String)
    ensures
        r@ == a@ + b@,
{
    let mut out = a.to_owned();
    out.append(b);
    out
}

/// Three texts one behind the other.
pub fn cat3(a: &str, b: &str, c: &str) -> (r: String)
    ensures
        r@ == a@ + b@ + c@,
{
    let mut out = a.to_owned();
    out.append(b);
    out.append(c);
    out
}

/// The position of the first character of the class at or after `start`.
pub fn find_from(chars: &Vec<char>, class: CharClass, start: usize) -> (r: usize)
    requires
        start <= chars@.len(),
    ensures
        r == first_from(chars@, class, start as int),
        start <= r <= chars@.len(),
{
    let mut i: usize = start;
    while i < chars.len()
        invariant
            start <= i <= chars@.len(),
            first_from(chars@, class, start as int) == first_from(chars@, class, i as int),
        decreases chars@.len() - i,
    {
        if class.test(chars[i]) {
            return i;
        }
        i = i + 1;
    }
    i
}

/// Whether the text holds a character of the class.
pub fn any(text: &str, class: CharClass) -> (r: bool)
    ensures
        r == has_any(text@, class),
{
    let chars = chars_of(text);
    let at = find_from(&chars, class, 0);
    proof {
        lemma_first_from(text@, class, 0);
        if at < text@.len() {
            assert(class.has(text@[at as int]));
        }
    }
    at < chars.len()
}

/// The number of characters of the class.
pub fn count(text: &str, class: CharClass) -> (r: usize)
    ensures
        r == only(text@, class).len(),
{
    let chars = chars_of(text);
    let mut n: usize = 0;
    let mut i: usize = 0;
    let ghost p = |c: char| class.has(c);
    assert(text@.take(0) =~= Seq::<char>::empty());
    proof {
        reveal(Seq::filter);
    }
    while i < chars.len()
        invariant
            i <= chars@.len(),
            chars@ == text@,
            p == (|c: char| class.has(c)),
            n == text@.take(i as int).filter(p).len(),
            n <= i,
        decreases chars@.len() - i,
    {
        proof {
            reveal(Seq::filter);
            assert(text@.take(i + 1).drop_last() =~= text@.take(i as int));
            assert(text@.take(i + 1).last() == text@[i as int]);
        }
        if class.test(chars[i]) {
            n = n + 1;
        }
        i = i + 1;
    }
    assert(text@.take(i as int) =~= text@);
    n
}

/// The pieces of the text, cut at every character of the class.
pub fn split_at(text: &str, class: CharClass) -> (r: Vec<String>)
    ensures
        texts(r@) == split(text@, class),
{
    let chars = chars_of(text);
    let mut out: Vec<String> = Vec::new();
    let mut start: usize = 0;
    proof {
        assert(texts(out@) + split_from(text@, class, 0) =~= split(text@, class));
    }
    loop
        invariant
            chars@ == text@,
            start <= chars@.len(),
            texts(out@) + split_from(text@, class, start as int) == split(text@, class),
        decreases chars@.len() - start,
    {
        let end = find_from(&chars, class, start);
        let ghost before = out@;
        out.push(piece(&chars, start, end));
        proof {
            assert(texts(out@) =~= texts(before).push(text@.subrange(start as int, end as int)));
        }
        if end >= chars.len() {
            proof {
                assert(texts(out@) =~= texts(before) + split_from(text@, class, start as int));
            }
            return out;
        }
        proof {
            assert(texts(out@) + split_from(text@, class, end + 1) =~= texts(before) + split_from(
                text@,
                class,
                start as int,
            ));
        }
        start = end + 1;
    }
}

proof fn lemma_trim_front(s: Seq<char>, class: CharClass, k: int)
    requires
        0 <= k <= s.len(),
        forall|i: int| 0 <= i < k ==> class.has(#[trigger] s[i]),
        k < s.len() ==> !class.has(s[k]),
    ensures
        trim_front(s, class) == s.skip(k),
    decreases k,
{
    if k > 0 {
        let t = s.drop_first();
        assert(class.has(s[0]));
        assert forall|i: int| 0 <= i < k - 1 implies class.has(#[trigger] t[i]) by {
            assert(t[i] == s[i + 1]);
        }
        lemma_trim_front(t, class, k - 1);
        assert(t.skip(k - 1) =~= s.skip(k));
    } else {
        assert(s.skip(0) =~= s);
    }
}

proof fn lemma_trim_back(s: Seq<char>, class: CharClass, k: int)
    requires
        0 <= k <= s.len(),
        forall|i: int| k <= i < s.len() ==> class.has(#[trigger] s[i]),
        k > 0 ==> !class.has(s[k - 1]),
    ensures
        trim_back(s, class) == s.take(k),
    decreases s.len() - k,
{
    if k < s.len() {
        let t = s.drop_last();
        assert(class.has(s[s.len() - 1]));
        assert forall|i: int| k <= i < t.len() implies class.has(#[trigger] t[i]) by {
            assert(t[i] == s[i]);
        }
        lemma_trim_back(t, class, k);
        assert(t.take(k) =~= s.take(k));
    } else {
        assert(s.take(k) =~= s);
    }
}

/// The text without the characters of the class at its two ends.
pub fn trim_of(text: &str, class: CharClass) -> (r: String)
    ensures
        r@ == trim_class(text@, class),
{
    let chars = chars_of(text);
    let mut from: usize = 0;
    while from < chars.len() && class.test(chars[from])
        invariant
            chars@ == text@,
            from <= chars@.len(),
            forall|i: int| 0 <= i < from ==> class.has(#[trigger] text@[i]),
        decreases chars@.len() - from,
    {
        from = from + 1;
    }
    let mut to: usize = chars.len();
    while to > from && class.test(chars[to - 1])
        invariant
            chars@ == text@,
            from <= to <= chars@.len(),
            forall|i: int| to <= i < chars@.len() ==> class.has(#[trigger] text@[i]),
        decreases to,
    {
        to = to - 1;
    }
    proof {
        lemma_trim_front(text@, class, from as int);
        let t = text@.skip(from as int);
        let k = to - from;
        assert forall|i: int| k <= i < t.len() implies class.has(#[trigger] t[i]) by {
            assert(t[i] == text@[i + from]);
        }
        if k > 0 {
            assert(t[k - 1] == text@[to - 1]);
        }
        lemma_trim_back(t, class, k);
        assert(t.take(k) =~= text@.subrange(from as int, to as int));
    }
    piece(&chars, from, to)
}

/// The text without surrounding whitespace.
pub fn trim(text: &str) -> (r: String)
    ensures
        r@ == trimmed(text@),
{
    trim_of(text, CharClass::Whitespace)
}

/// The words of the text.
pub fn split_words(text: &str) -> (r: Vec<String>)
    ensures
        texts(r@) == words(text@),
{
    let pieces = split_at(text, CharClass::Whitespace);
    let mut out: Vec<String> = Vec::new();
    let ghost all = split(text@, CharClass::Whitespace);
    let ghost p = |piece: Seq<char>| piece.len() > 0;
    proof {
        reveal(Seq::filter);
        assert(all.take(0) =~= Seq::<Seq<char>>::empty());
        assert(texts(out@) =~= all.take(0).filter(p));
    }
    let mut i: usize = 0;
    while i < pieces.len()
        invariant
            i <= pieces@.len(),
            texts(pieces@) == all,
            p == (|piece: Seq<char>| piece.len() > 0),
            texts(out@) == all.take(i as int).filter(p),
        decreases pieces@.len() - i,
    {
        let ghost before = out@;
        proof {
            reveal(Seq::filter);
            assert(all.take(i + 1).drop_last() =~= all.take(i as int));
            assert(all.take(i + 1).last() == pieces@[i as int]@);
        }
        if pieces[i].as_str().unicode_len() > 0 {
            out.push(pieces[i].clone());
            assert(texts(out@) =~= texts(before).push(pieces@[i as int]@));
        }
        i = i + 1;
    }
    assert(all.take(i as int) =~= all);
    out
}

/// The first `limit` characters of the text.
pub fn truncate_chars(text: &str, limit: usize) -> (r: String)
    ensures
        r@ == truncated(text@, limit as int),
{
    if text.unicode_len() <= limit {
        return text.to_owned();
    }
    let chars = chars_of(text);
    assert(text@.take(limit as int) =~= text@.subrange(0, limit as int));
    piece(&chars, 0, limit)
}

/// Whether the needle stands at a position.
fn stands_at(chars: &Vec<char>, needle: &Vec<char>, at: usize) -> (r: bool)
    requires
        at + needle@.len() <= chars@.len(),
    ensures
        r == occurs_at(chars@, needle@, at as int),
{
    let n: usize = chars.len();
    let mut i: usize = 0;
    while i < needle.len()
        invariant
            i <= needle@.len(),
            n == chars@.len(),
            at + needle@.len() <= chars@.len(),
            forall|k: int| 0 <= k < i ==> chars@[at + k] == #[trigger] needle@[k],
        decreases needle@.len() - i,
    {
        if chars[at + i] != needle[i] {
            proof {
                let part = chars@.subrange(at as int, at + needle@.len());
                assert(part[i as int] != needle@[i as int]);
            }
            return false;
        }
        i = i + 1;
    }
    assert(chars@.subrange(at as int, at + needle@.len()) =~= needle@);
    true
}

/// Whether the needle occurs in the text.
pub fn contains(text: &str, needle: &str) -> (r: bool)
    ensures
        r == occurs(text@, needle@),
{
    let chars = chars_of(text);
    let wanted = chars_of(needle);
    if wanted.len() > chars.len() {
        return false;
    }
    let last: usize = chars.len() - wanted.len();
    let mut at: usize = 0;
    while at <= last
        invariant
            chars@ == text@,
            wanted@ == needle@,
            last + wanted@.len() == chars@.len(),
            at <= last + 1,
            forall|i: int| 0 <= i < at ==> !occurs_at(text@, needle@, i),
        decreases last + 1 - at,
    {
        if stands_at(&chars, &wanted, at) {
            return true;
        }
        if at == last {
            return false;
        }
        at = at + 1;
    }
    false
}

/// Whether the text begins with the prefix.
pub fn starts_with(text: &str, prefix: &str) -> (r: bool)
    ensures
        r == has_prefix(text@, prefix@),
{
    let chars = chars_of(text);
    let wanted = chars_of(prefix);
    if wanted.len() > chars.len() {
        return false;
    }
    let r = stands_at(&chars, &wanted, 0);
    proof {
        assert(0 + prefix@.len() == prefix@.len());
    }
    r
}

/// Whether the text ends with the suffix.
pub fn ends_with(text: &str, suffix: &str) -> (r: bool)
    ensures
        r == has_suffix(text@, suffix@),
{
    let chars = chars_of(text);
    let wanted = chars_of(suffix);
    if wanted.len() > chars.len() {
        return false;
    }
    stands_at(&chars, &wanted, chars.len() - wanted.len())
}

/// The rest of the text behind a prefix.
pub fn strip_prefix(text: &str, prefix: &str) -> (r: Option<String>)
    ensures
        match r {
            Some(t) => behind(text@, prefix@) == Some(t@),
            None => behind(text@, prefix@) is None,
        },
{
    if starts_with(text, prefix) {
        let chars = chars_of(text);
        let n: usize = prefix.unicode_len();
        assert(text@.skip(n as int) =~= text@.subrange(n as int, text@.len() as int));
        Some(piece(&chars, n, chars.len()))
    } else {
        None
    }
}

/// The text in front of a suffix.
pub fn strip_suffix(text: &str, suffix: &str) -> (r: Option<String>)
    ensures
        match r {
            Some(t) => in_front_of(text@, suffix@) == Some(t@),
            None => in_front_of(text@, suffix@) is None,
        },
{
    if ends_with(text, suffix) {
        let chars = chars_of(text);
        let n: usize = chars.len() - suffix.unicode_len();
        assert(text@.take(n as int) =~= text@.subrange(0, n as int));
        Some(piece(&chars, 0, n))
    } else {
        None
    }
}

/// Whether the first text comes before the second.
pub fn before(a: &str, b: &str) -> (r: bool)
    ensures
        r == text_less(a@, b@),
{
    let x = chars_of(a);
    let y = chars_of(b);
    let mut i: usize = 0;
    assert(a@.skip(0) =~= a@);
    assert(b@.skip(0) =~= b@);
    while i < x.len() && i < y.len()
        invariant
            x@ == a@,
            y@ == b@,
            i <= x@.len(),
            i <= y@.len(),
            text_less(a@, b@) == text_less(a@.skip(i as int), b@.skip(i as int)),
        decreases x@.len() - i,
    {
        proof {
            assert(a@.skip(i as int)[0] == a@[i as int]);
            assert(b@.skip(i as int)[0] == b@[i as int]);
            assert(a@.skip(i as int).drop_first() =~= a@.skip(i + 1));
            assert(b@.skip(i as int).drop_first() =~= b@.skip(i + 1));
        }
        if x[i] != y[i] {
            return x[i] < y[i];
        }
        i = i + 1;
    }
    i < y.len()
}

/// One ASCII letter in lower case.
fn lower_ascii_char(c: char) -> (r: char)
    ensures
        r == ascii_lower_char(c),
{
    if 'A' <= c && c <= 'Z' {
        ((c as u8) + 32) as char
    } else {
        c
    }
}

/// The text with its ASCII letters in lower case.
pub fn lower_ascii(text: &str) -> (r: String)
    ensures
        r@ == ascii_lower(text@),
{
    let chars = chars_of(text);
    let mut out = String::new();
    let mut i: usize = 0;
    while i < chars.len()
        invariant
            chars@ == text@,
            i <= chars@.len(),
            out@ == ascii_lower(text@.take(i as int)),
        decreases chars@.len() - i,
    {
        out.push(lower_ascii_char(chars[i]));
        assert(ascii_lower(text@.take(i + 1)) =~= ascii_lower(text@.take(i as int)).push(
            ascii_lower_char(text@[i as int]),
        ));
        i = i + 1;
    }
    assert(text@.take(i as int) =~= text@);
    out
}

/// Whether the texts are equal up to the case of ASCII letters.
pub fn same_ignoring_case(a: &str, b: &str) -> (r: bool)
    ensures
        r == equal_ignoring_case(a@, b@),
{
    lower_ascii(a) == lower_ascii(b)
}

/// An integer in decimal notation.
pub fn decimal_of(n: i64) -> (r: String)
    ensures
        r@ == decimal(n as int),
{
    let mut rest: u64 = if n >= 0 {
        n as u64
    } else {
        (-(n as i128)) as u64
    };
    let ghost whole = rest as nat;
    let mut back: Vec<char> = Vec::new();
    back.push(((rest % 10) as u8 + 48) as char);
    rest = rest / 10;
    proof {
        assert(whole < 10 ==> digits(whole) =~= seq![digit_char(whole)]);
        assert(back@.reverse() =~= seq![digit_char(whole % 10)]);
        if whole >= 10 {
            assert(digits(whole) =~= digits(rest as nat) + back@.reverse());
        }
    }
    while rest > 0
        invariant
            rest == 0 ==> digits(whole) == back@.reverse(),
            rest > 0 ==> digits(whole) == digits(rest as nat) + back@.reverse(),
        decreases rest,
    {
        let ghost tail = back@;
        let ghost now = rest as nat;
        back.push(((rest % 10) as u8 + 48) as char);
        rest = rest / 10;
        proof {
            let d = digit_char(now % 10);
            assert(back@.reverse() =~= seq![d] + tail.reverse());
            if now < 10 {
                assert(digits(now) =~= seq![d]);
                assert(digits(whole) =~= back@.reverse());
            } else {
                assert(digits(now) =~= digits(rest as nat).push(d));
                assert(digits(whole) =~= digits(rest as nat) + back@.reverse());
            }
        }
    }
    let mut out = String::new();
    if n < 0 {
        out.push('-');
    }
    let ghost sign = out@;
    let mut i: usize = back.len();
    while i > 0
        invariant
            i <= back@.len(),
            out@ == sign + back@.reverse().take(back@.len() - i),
        decreases i,
    {
        i = i - 1;
        out.push(back[i]);
        assert(back@.reverse().take(back@.len() - i) =~= back@.reverse().take(
            back@.len() - i - 1,
        ).push(back@[i as int]));
    }
    assert(back@.reverse().take(back@.len() as int) =~= back@.reverse());
    assert(out@ =~= decimal(n as int));
    out
}

/// A natural number of 64 bits in decimal notation.
pub fn decimal_of_natural(n: u64) -> (r: String)
    ensures
        r@ == decimal(n as int),
{
    if n <= 0x7fff_ffff_ffff_ffffu64 {
        return decimal_of(n as i64);
    }
    let tens = decimal_of((n / 10) as i64);
    let last: u8 = (n % 10) as u8;
    let mut out = tens;
    out.push((last + 48) as char);
    assert(out@ =~= decimal(n as int));
    out
}

/// The last `places` digits of a number, with zeros in front.
fn write_padded_digits(n: u64, places: u8) -> (r: String)
    ensures
        r@ == padded_digits(n as nat, places as nat),
    decreases places,
{
    if places == 0 {
        return String::new();
    }
    let mut out = write_padded_digits(n / 10, places - 1);
    out.push(((n % 10) as u8 + 48) as char);
    out
}

fn write_fraction_digits(n: u64, places: u8) -> (r: String)
    ensures
        r@ == fraction_digits(n as nat, places as nat),
    decreases places,
{
    if places <= 1 {
        let mut out = String::new();
        out.push(((n % 10) as u8 + 48) as char);
        assert(out@ =~= seq![digit_char(n as nat % 10)]);
        out
    } else if n % 10 == 0 {
        write_fraction_digits(n / 10, places - 1)
    } else {
        write_padded_digits(n, places)
    }
}

/// A number of billionths as a decimal fraction.
pub fn fixed_point(n: i64) -> (r: String)
    ensures
        r@ == fixed_text(n as int),
{
    let magnitude: u64 = if n >= 0 {
        n as u64
    } else {
        (-(n + 1)) as u64 + 1
    };
    let whole = decimal_of_natural(magnitude / 1_000_000_000);
    let rest = write_fraction_digits(magnitude % 1_000_000_000, 9);
    let text = cat3(whole.as_str(), ".", rest.as_str());
    if n >= 0 {
        text
    } else {
        let r = cat("-", text.as_str());
        proof {
            reveal_strlit("-");
            assert("-"@ =~= seq!['-']);
        }
        r
    }
}

/// The texts joined with a separator between them.
pub fn join(parts: &Vec<String>, separator: &str) -> (r: String)
    ensures
        r@ == joined(texts(parts@), separator@),
{
    let mut out = String::new();
    let ghost all = texts(parts@);
    let mut i: usize = 0;
    assert(all.take(0) =~= Seq::<Seq<char>>::empty());
    while i < parts.len()
        invariant
            i <= parts@.len(),
            all == texts(parts@),
            out@ == joined(all.take(i as int), separator@),
        decreases parts@.len() - i,
    {
        proof {
            assert(all.take(i + 1).drop_last() =~= all.take(i as int));
            assert(all.take(i + 1).last() == parts@[i as int]@);
        }
        if i > 0 {
            out.append(separator);
        }
        out.append(parts[i].as_str());
        proof {
            if i == 0 {
                assert(out@ =~= all.take(1)[0]);
            }
        }
        i = i + 1;
    }
    assert(all.take(i as int) =~= all);
    out
}


// ---------------------------------------------------------------------------
// Lines
// ---------------------------------------------------------------------------

/// A line that was ended by a line feed, without the carriage return in front of it.
pub open spec fn without_return(line: Seq<char>) -> Seq<char> {
    if line.len() > 0 && line.last() == '\r' {
        line.drop_last()
    } else {
        line
    }
}

/// The lines of a text. A carriage return in front of a line feed belongs to the
/// end of the line; what follows the last line feed is a line only if it is not
/// empty.
pub open spec fn text_lines(s: Seq<char>) -> Seq<Seq<char>> {
    let pieces = split(s, CharClass::Is('\n'));
    let ended = pieces.drop_last().map_values(|line: Seq<char>| without_return(line));
    if pieces.last().len() == 0 {
        ended
    } else {
        ended.push(pieces.last())
    }
}

fn drop_return(line: &str) -> (r: String)
    ensures
        r@ == without_return(line@),
{
    let chars = chars_of(line);
    let n: usize = chars.len();
    if n > 0 && chars[n - 1] == '\r' {
        let r = piece(&chars, 0, n - 1);
        assert(line@.subrange(0, n - 1) =~= line@.drop_last());
        r
    } else {
        line.to_owned()
    }
}

/// The lines of a text.
pub fn lines(text: &str) -> (r: Vec<String>)
    ensures
        texts(r@) == text_lines(text@),
{
    let pieces = split_at(text, CharClass::Is('\n'));
    let ghost all = split(text@, CharClass::Is('\n'));
    let ghost f = |line: Seq<char>| without_return(line);
    proof {
        lemma_first_from(text@, CharClass::Is('\n'), 0);
        assert(all.len() > 0);
    }
    let last: usize = pieces.len() - 1;
    let mut out: Vec<String> = Vec::new();
    let mut i: usize = 0;
    assert(texts(out@) =~= all.drop_last().take(0).map_values(f));
    while i < last
        invariant
            i <= last,
            last == pieces@.len() - 1,
            all == texts(pieces@),
            f == (|line: Seq<char>| without_return(line)),
            texts(out@) == all.drop_last().take(i as int).map_values(f),
        decreases last - i,
    {
        let ghost held = out@;
        let line = drop_return(pieces[i].as_str());
        out.push(line);
        proof {
            crate::seqs::lemma_texts_push(held, line);
            crate::seqs::lemma_map_take(all.drop_last(), f, i as int);
            assert(all.drop_last()[i as int] == pieces@[i as int]@);
        }
        i = i + 1;
    }
    assert(all.drop_last().take(i as int) =~= all.drop_last());
    assert(all.last() == pieces@[last as int]@);
    if pieces[last].as_str().unicode_len() > 0 {
        let ghost held = out@;
        out.push(pieces[last].clone());
        proof {
            crate::seqs::lemma_texts_push(held, out@[held.len() as int]);
        }
    }
    out
}


// ---------------------------------------------------------------------------
// Numbers in a text
// ---------------------------------------------------------------------------

/// Whether a text is one or more decimal digits.
pub open spec fn all_digits(s: Seq<char>) -> bool {
    s.len() > 0 && forall|i: int| 0 <= i < s.len() ==> is_ascii_digit_char(#[trigger] s[i])
}

/// The number that decimal digits denote.
pub open spec fn digits_value(s: Seq<char>) -> int
    decreases s.len(),
{
    if s.len() == 0 {
        0
    } else {
        digits_value(s.drop_last()) * 10 + (s.last() as u32 - '0' as u32)
    }
}

/// The natural number that a text denotes, a plus sign in front being allowed;
/// nothing where it is above `max`.
pub open spec fn natural_value(s: Seq<char>, max: int) -> Option<int> {
    let d = if s.len() > 0 && s[0] == '+' {
        s.skip(1)
    } else {
        s
    };
    if all_digits(d) && digits_value(d) <= max {
        Some(digits_value(d))
    } else {
        None
    }
}

/// The integer of 64 bits that a text denotes.
pub open spec fn integer_value(s: Seq<char>) -> Option<int> {
    if s.len() > 0 && s[0] == '-' {
        if all_digits(s.skip(1)) && -digits_value(s.skip(1)) >= i64::MIN {
            Some(-digits_value(s.skip(1)))
        } else {
            None
        }
    } else {
        natural_value(s, i64::MAX as int)
    }
}

/// The number that the characters from `from` on denote, any number above 64 bits
/// standing for those that are too large.
fn magnitude(chars: &Vec<char>, from: usize) -> (r: Option<u128>)
    requires
        from <= chars@.len(),
    ensures
        match r {
            Some(v) => all_digits(chars@.skip(from as int)) && (v == digits_value(
                chars@.skip(from as int),
            ) || (v > u64::MAX && digits_value(chars@.skip(from as int)) > u64::MAX)),
            None => !all_digits(chars@.skip(from as int)),
        },
{
    let ghost rest = chars@.skip(from as int);
    if from == chars.len() {
        return None;
    }
    let mut v: u128 = 0;
    let mut i: usize = from;
    assert(rest.take(0) =~= Seq::<char>::empty());
    while i < chars.len()
        invariant
            from <= i <= chars@.len(),
            rest == chars@.skip(from as int),
            v <= u64::MAX as u128 * 10 + 9,
            v == digits_value(rest.take(i - from)) || (v > u64::MAX && digits_value(
                rest.take(i - from),
            ) > u64::MAX),
            forall|k: int| 0 <= k < i - from ==> is_ascii_digit_char(#[trigger] rest[k]),
        decreases chars@.len() - i,
    {
        let c = chars[i];
        assert(rest[i - from] == c);
        if !('0' <= c && c <= '9') {
            return None;
        }
        proof {
            assert(rest.take(i - from + 1).drop_last() =~= rest.take(i - from));
            assert(rest.take(i - from + 1).last() == c);
        }
        if v <= 0xffff_ffff_ffff_ffffu128 {
            v = v * 10 + (c as u32 - '0' as u32) as u128;
        }
        i = i + 1;
    }
    assert(rest.take(i - from) =~= rest);
    Some(v)
}

/// Reads a natural number of 32 bits.
pub fn parse_natural(text: &str) -> (r: Option<u32>)
    ensures
        match r {
            Some(n) => natural_value(text@, u32::MAX as int) == Some(n as int),
            None => natural_value(text@, u32::MAX as int) is None,
        },
{
    let chars = chars_of(text);
    let from: usize = if chars.len() > 0 && chars[0] == '+' {
        1
    } else {
        0
    };
    assert(text@.skip(0) =~= text@);
    match magnitude(&chars, from) {
        Some(v) => if v <= 0xffff_ffffu128 {
            Some(v as u32)
        } else {
            None
        },
        None => None,
    }
}

/// Reads an integer of 64 bits.
pub fn parse_integer(text: &str) -> (r: Option<i64>)
    ensures
        match r {
            Some(n) => integer_value(text@) == Some(n as int),
            None => integer_value(text@) is None,
        },
{
    let chars = chars_of(text);
    assert(text@.skip(0) =~= text@);
    if chars.len() > 0 && chars[0] == '-' {
        return match magnitude(&chars, 1) {
            Some(v) => if v <= 0x8000_0000_0000_0000u128 {
                Some((-(v as i128)) as i64)
            } else {
                None
            },
            None => None,
        };
    }
    let from: usize = if chars.len() > 0 && chars[0] == '+' {
        1
    } else {
        0
    };
    match magnitude(&chars, from) {
        Some(v) => if v <= 0x7fff_ffff_ffff_ffffu128 {
            Some(v as i64)
        } else {
            None
        },
        None => None,
    }
}

}
