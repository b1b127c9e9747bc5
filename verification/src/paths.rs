//! Paths, keys and digests: which ones are accepted, and by what a path is found
//! again.
use vstd::prelude::*;

use crate::error::ApiError;
#[allow(unused_imports)]
use crate::error::{refusal, ApiErrorV};
use crate::outside::{nfc, uuid_format, uuid_parse};
#[allow(unused_imports)]
use crate::outside::{nfc_text, uuid_text, uuid_value};
use crate::text::{
    any, byte_len, cat, cat3, chars_of, ends_with, lower, lower_ascii, same, split_at, starts_with,
    string_of, strip_prefix, strip_suffix, trim, CharClass,
};
#[allow(unused_imports)]
use crate::text::{
    ascii_lower, ascii_lower_char, behind, has_any, has_prefix, has_suffix, in_front_of,
    is_hex_digit_char, split, texts, trimmed, lower_case,
};

verus! {

/// The most bytes a path or the target of a link has.
pub const MAX_PATH_BYTES: usize = 1024;

/// The most bytes an idempotency key has.
pub const MAX_KEY_BYTES: usize = 256;

/// The number of bytes of a text in UTF-8.
pub open spec fn utf8_len(s: Seq<char>) -> int {
    vstd::utf8::encode_utf8(s).len() as int
}

/// Whether a text has from one to `limit` bytes and no control character.
pub open spec fn printable(s: Seq<char>, limit: int) -> bool {
    0 < s.len() && utf8_len(s) <= limit && !has_any(s, CharClass::Control)
}

/// Whether a text has from one to `limit` bytes and no control character.
pub fn is_printable(text: &str, limit: usize) -> (r: bool)
    ensures
        r == printable(text@, limit as int),
{
    text.unicode_len() > 0 && byte_len(text) <= limit && !any(text, CharClass::Control)
}

// ---------------------------------------------------------------------------
// Paths
// ---------------------------------------------------------------------------

/// A part of a path that does not stay where it is.
pub open spec fn unsafe_part(part: Seq<char>) -> bool {
    part.len() == 0 || part == "."@ || part == ".."@
}

/// Whether a text is a relative path inside the workspace: no part of it is empty
/// or goes up, and it is written with slashes and printable characters.
pub open spec fn safe_path(path: Seq<char>) -> bool {
    &&& printable(path, MAX_PATH_BYTES as int)
    &&& !has_prefix(path, "/"@)
    &&& !has_any(path, CharClass::Is('\\'))
    &&& forall|i: int|
        0 <= i < split(path, CharClass::Is('/')).len() ==> !unsafe_part(
            #[trigger] split(path, CharClass::Is('/'))[i],
        )
}

fn is_unsafe_part(part: &str) -> (r: bool)
    ensures
        r == unsafe_part(part@),
{
    part.unicode_len() == 0 || same(part, ".") || same(part, "..")
}

/// Accepts a relative path inside the workspace.
pub fn validate_path(path: &str) -> (r: Result<(), ApiError>)
    ensures
        refusal(r) == if safe_path(path@) {
            None
        } else {
            Some(ApiErrorV::Invalid("path must be a safe relative workspace path"@))
        },
{
    let mut safe = is_printable(path, MAX_PATH_BYTES) && !starts_with(path, "/") && !any(
        path,
        CharClass::Is('\\'),
    );
    let parts = split_at(path, CharClass::Is('/'));
    let ghost pieces = split(path@, CharClass::Is('/'));
    let mut i: usize = 0;
    while i < parts.len()
        invariant
            i <= parts@.len(),
            pieces == texts(parts@),
            pieces == split(path@, CharClass::Is('/')),
            safe == ((printable(path@, MAX_PATH_BYTES as int) && !has_prefix(path@, "/"@)
                && !has_any(path@, CharClass::Is('\\'))) && forall|k: int|
                0 <= k < i ==> !unsafe_part(#[trigger] pieces[k])),
        decreases parts@.len() - i,
    {
        assert(pieces[i as int] == parts@[i as int]@);
        if is_unsafe_part(parts[i].as_str()) {
            safe = false;
        }
        i = i + 1;
    }
    if safe {
        Ok(())
    } else {
        Err(ApiError::invalid("path must be a safe relative workspace path"))
    }
}

/// Whether a path lies in the part of the workspace that the workspace manages
/// itself.
pub open spec fn managed(path: Seq<char>) -> bool {
    has_prefix(path, ".brunn/"@)
}

pub fn is_managed(path: &str) -> (r: bool)
    ensures
        r == managed(path@),
{
    starts_with(path, ".brunn/")
}

/// Accepts a relative path outside the managed part of the workspace.
pub fn validate_public_path(path: &str) -> (r: Result<(), ApiError>)
    ensures
        refusal(r) == if !safe_path(path@) {
            Some(ApiErrorV::Invalid("path must be a safe relative workspace path"@))
        } else if managed(path@) {
            Some(
                ApiErrorV::Invalid(
                    "the .brunn namespace is reserved for workspace-managed entries"@,
                ),
            )
        } else {
            None
        },
{
    match validate_path(path) {
        Ok(_) => {},
        Err(e) => {
            return Err(e);
        },
    }
    if is_managed(path) {
        return Err(
            ApiError::invalid("the .brunn namespace is reserved for workspace-managed entries"),
        );
    }
    Ok(())
}

/// What two paths share that name the same entry on every platform: the
/// normalized text in lower case.
pub open spec fn path_key(path: Seq<char>) -> Seq<char> {
    lower_case(nfc_text(path))
}

/// The key by which a path is found whatever its case and its composition.
pub fn portable_path_key(path: &str) -> (r: String)
    ensures
        r@ == path_key(path@),
{
    lower(nfc(path).as_str())
}

// ---------------------------------------------------------------------------
// Keys and digests
// ---------------------------------------------------------------------------

/// Accepts an idempotency key.
pub fn validate_idempotency_key(key: &str) -> (r: Result<(), ApiError>)
    ensures
        refusal(r) == if printable(key@, MAX_KEY_BYTES as int) {
            None
        } else {
            Some(
                ApiErrorV::Invalid("idempotency_key must contain 1 to 256 printable characters"@),
            )
        },
{
    if is_printable(key, MAX_KEY_BYTES) {
        Ok(())
    } else {
        Err(ApiError::invalid("idempotency_key must contain 1 to 256 printable characters"))
    }
}

/// What stands behind a prefix, or the whole text where it has no such prefix.
pub open spec fn unprefixed(s: Seq<char>, prefix: Seq<char>) -> Seq<char> {
    match behind(s, prefix) {
        Some(rest) => rest,
        None => s,
    }
}

/// What stands behind a prefix, or the whole text.
pub fn without_prefix(text: &str, prefix: &str) -> (r: String)
    ensures
        r@ == unprefixed(text@, prefix@),
{
    match strip_prefix(text, prefix) {
        Some(rest) => rest,
        None => text.to_owned(),
    }
}

/// The 64 hexadecimal digits, in lower case, of a SHA-256 value that may be
/// surrounded by whitespace and may carry its name in front.
pub open spec fn digest_value(value: Seq<char>) -> Option<Seq<char>> {
    let digits = unprefixed(trimmed(value), "sha256:"@);
    if digits.len() == 64 && !has_any(digits, CharClass::NotHexDigit) {
        Some(ascii_lower(digits))
    } else {
        None
    }
}

/// Reads a SHA-256 value.
pub fn validate_sha256(value: &str) -> (r: Result<String, ApiError>)
    ensures
        match r {
            Ok(digest) => digest_value(value@) == Some(digest@),
            Err(e) => digest_value(value@) is None && e@ == ApiErrorV::Invalid(
                "expected_content_hash must be a SHA-256 value"@,
            ),
        },
{
    let digits = without_prefix(trim(value).as_str(), "sha256:");
    if digits.as_str().unicode_len() == 64 && !any(digits.as_str(), CharClass::NotHexDigit) {
        Ok(lower_ascii(digits.as_str()))
    } else {
        Err(ApiError::invalid("expected_content_hash must be a SHA-256 value"))
    }
}

// ---------------------------------------------------------------------------
// The paths of checkpoints
// ---------------------------------------------------------------------------

/// The path under which a checkpoint is kept.
pub open spec fn checkpoint_path_text(id: u128) -> Seq<char> {
    ".brunn/checkpoints/"@ + uuid_text(id) + ".md"@
}

/// The path under which a checkpoint is kept.
pub fn checkpoint_path(id: u128) -> (r: String)
    ensures
        r@ == checkpoint_path_text(id),
{
    cat3(".brunn/checkpoints/", uuid_format(id).as_str(), ".md")
}

/// The reference of a checkpoint.
pub open spec fn checkpoint_ref_text(id: u128) -> Seq<char> {
    "checkpoint:"@ + uuid_text(id)
}

/// The reference of a checkpoint.
pub fn checkpoint_ref(id: u128) -> (r: String)
    ensures
        r@ == checkpoint_ref_text(id),
{
    cat("checkpoint:", uuid_format(id).as_str())
}

/// The checkpoint that a path belongs to.
pub open spec fn checkpoint_of_path(path: Seq<char>) -> Option<u128> {
    match behind(path, ".brunn/checkpoints/"@) {
        Some(rest) => match in_front_of(rest, ".md"@) {
            Some(id) => uuid_value(id),
            None => None,
        },
        None => None,
    }
}

/// What is put behind a prefix is found behind it.
pub proof fn lemma_behind(prefix: Seq<char>, rest: Seq<char>)
    ensures
        behind(prefix + rest, prefix) == Some(rest),
{
    assert((prefix + rest).take(prefix.len() as int) =~= prefix);
    assert((prefix + rest).subrange(0, prefix.len() as int) =~= prefix);
    assert((prefix + rest).skip(prefix.len() as int) =~= rest);
    assert((prefix + rest).subrange(prefix.len() as int, (prefix + rest).len() as int) =~= rest);
}

proof fn lemma_in_front_of(front: Seq<char>, suffix: Seq<char>)
    ensures
        in_front_of(front + suffix, suffix) == Some(front),
{
    let s = front + suffix;
    assert(s.skip(front.len() as int) =~= suffix);
    assert(s.subrange(front.len() as int, s.len() as int) =~= suffix);
    assert(s.take(front.len() as int) =~= front);
    assert(s.subrange(0, front.len() as int) =~= front);
}

/// The checkpoint that a path belongs to. The path under which a checkpoint is
/// kept belongs to it.
pub fn checkpoint_id_of_path(path: &str) -> (r: Option<u128>)
    ensures
        r == checkpoint_of_path(path@),
        forall|id: u128| path@ == #[trigger] checkpoint_path_text(id) ==> r == Some(id),
{
    let ghost start = ".brunn/checkpoints/"@;
    proof {
        assert forall|id: u128| path@ == #[trigger] checkpoint_path_text(id) implies behind(
            path@,
            start,
        ) == Some(uuid_text(id) + ".md"@) && in_front_of(uuid_text(id) + ".md"@, ".md"@) == Some(
            uuid_text(id),
        ) by {
            assert(checkpoint_path_text(id) =~= start + (uuid_text(id) + ".md"@));
            lemma_behind(start, uuid_text(id) + ".md"@);
            lemma_in_front_of(uuid_text(id), ".md"@);
        }
    }
    match strip_prefix(path, ".brunn/checkpoints/") {
        Some(rest) => match strip_suffix(rest.as_str(), ".md") {
            Some(id) => uuid_parse(id.as_str()),
            None => None,
        },
        None => None,
    }
}

/// Whether a path is that of a checkpoint.
pub fn is_checkpoint_path(path: &str) -> (r: bool)
    ensures
        r == (checkpoint_of_path(path@) is Some),
{
    checkpoint_id_of_path(path).is_some()
}

/// The checkpoint that a reference names.
pub open spec fn checkpoint_of_ref(reference: Seq<char>) -> Option<u128> {
    match behind(reference, "checkpoint:"@) {
        Some(id) => uuid_value(id),
        None => None,
    }
}

/// The checkpoint that a reference names. The reference of a checkpoint names it.
pub fn checkpoint_id_of_ref(reference: &str) -> (r: Option<u128>)
    ensures
        r == checkpoint_of_ref(reference@),
        forall|id: u128| reference@ == #[trigger] checkpoint_ref_text(id) ==> r == Some(id),
{
    proof {
        assert forall|id: u128| reference@ == #[trigger] checkpoint_ref_text(id) implies behind(
            reference@,
            "checkpoint:"@,
        ) == Some(uuid_text(id)) by {
            lemma_behind("checkpoint:"@, uuid_text(id));
        }
    }
    match strip_prefix(reference, "checkpoint:") {
        Some(id) => uuid_parse(id.as_str()),
        None => None,
    }
}

/// The entry that a reference names: `entry:` and its UUID, or the UUID alone.
pub open spec fn entry_of_ref(reference: Seq<char>) -> Option<u128> {
    uuid_value(unprefixed(reference, "entry:"@))
}

/// The entry that a reference names. The reference of an entry names it.
pub fn entry_id_of_ref(reference: &str) -> (r: Option<u128>)
    ensures
        r == entry_of_ref(reference@),
        forall|id: u128|
            reference@ == #[trigger] crate::outside::entry_ref_text(id) ==> r == Some(id),
{
    proof {
        assert forall|id: u128|
            reference@ == #[trigger] crate::outside::entry_ref_text(id) implies unprefixed(
            reference@,
            "entry:"@,
        ) == uuid_text(id) by {
            lemma_behind("entry:"@, uuid_text(id));
        }
    }
    let id = without_prefix(reference, "entry:");
    uuid_parse(id.as_str())
}

// ---------------------------------------------------------------------------
// Links
// ---------------------------------------------------------------------------

/// The front of a text: as many of its characters as fit into `bytes` bytes.
pub open spec fn front_bytes(s: Seq<char>, bytes: int) -> Seq<char>
    decreases s.len(),
{
    if s.len() == 0 || utf8_len(s) <= bytes {
        s
    } else {
        front_bytes(s.drop_last(), bytes)
    }
}

/// A text without its last `bytes` bytes.
fn without_last_bytes(text: &str, bytes: usize) -> (r: String)
    ensures
        r@ == front_bytes(text@, utf8_len(text@) - bytes),
{
    let total = byte_len(text);
    if total < bytes {
        proof {
            lemma_front_none(text@, total - bytes);
        }
        return String::new();
    }
    let kept: usize = total - bytes;
    let mut chars = chars_of(text);
    let mut out = text.to_owned();
    while chars.len() > 0 && byte_len(out.as_str()) > kept
        invariant
            out@ == chars@,
            front_bytes(text@, kept as int) == front_bytes(chars@, kept as int),
        decreases chars@.len(),
    {
        let ghost before = chars@;
        let _ = chars.pop();
        assert(chars@ =~= before.drop_last());
        out = string_of(&chars);
    }
    out
}

proof fn lemma_front_none(s: Seq<char>, bytes: int)
    requires
        bytes < 0,
    ensures
        front_bytes(s, bytes) == Seq::<char>::empty(),
    decreases s.len(),
{
    if s.len() > 0 {
        lemma_front_none(s.drop_last(), bytes);
    } else {
        assert(s =~= Seq::<char>::empty());
    }
}

/// The name of a note in the target of a link: what comes before a heading, a
/// query, a block or an alias, without the directories and the extension.
pub open spec fn link_stem(target: Seq<char>) -> Seq<char> {
    file_stem(link_name(target))
}

/// The last part of the path in front of a heading, a query, a block or an alias.
pub open spec fn link_name(target: Seq<char>) -> Seq<char> {
    let head = trimmed(split(target, CharClass::LinkStop)[0]);
    trimmed(split(head, CharClass::Is('/')).last())
}

/// A file name without the extension of a note.
pub open spec fn file_stem(name: Seq<char>) -> Seq<char> {
    let stem = if has_suffix(lower_case(name), ".markdown"@) {
        front_bytes(name, utf8_len(name) - 9)
    } else if has_suffix(lower_case(name), ".md"@) {
        front_bytes(name, utf8_len(name) - 3)
    } else {
        name
    };
    trimmed(stem)
}

proof fn lemma_split_nonempty(s: Seq<char>, class: CharClass)
    ensures
        split(s, class).len() > 0,
{
    crate::text::lemma_first_from(s, class, 0);
}

fn stem_of_link(target: &str) -> (r: String)
    ensures
        r@ == link_stem(target@),
{
    proof {
        lemma_split_nonempty(target@, CharClass::LinkStop);
    }
    let pieces = split_at(target, CharClass::LinkStop);
    assert(texts(pieces@)[0] == pieces@[0]@);
    let head = trim(pieces[0].as_str());
    proof {
        lemma_split_nonempty(head@, CharClass::Is('/'));
    }
    let parts = split_at(head.as_str(), CharClass::Is('/'));
    let last: usize = parts.len() - 1;
    assert(texts(parts@).last() == parts@[last as int]@);
    let name = trim(parts[last].as_str());
    let lowered = lower(name.as_str());
    if ends_with(lowered.as_str(), ".markdown") {
        trim(without_last_bytes(name.as_str(), 9).as_str())
    } else if ends_with(lowered.as_str(), ".md") {
        trim(without_last_bytes(name.as_str(), 3).as_str())
    } else {
        trim(name.as_str())
    }
}

/// The keys of the file names that a link may mean.
pub open spec fn link_keys(target: Seq<char>) -> Seq<Seq<char>> {
    let key = path_key(link_stem(trimmed(target)));
    seq![key, key + ".md"@, key + ".markdown"@]
}

/// Why the target of a link is not looked up.
pub open spec fn link_refusal(target: Seq<char>) -> Option<ApiErrorV> {
    if !printable(trimmed(target), MAX_PATH_BYTES as int) {
        Some(ApiErrorV::Invalid("link_target must contain 1 to 1024 printable characters"@))
    } else if unsafe_part(link_stem(trimmed(target))) {
        Some(ApiErrorV::Invalid("link_target must name an entry"@))
    } else {
        None
    }
}

/// The keys of the file names that a link may mean: without an extension and with
/// the two of Markdown.
pub fn entry_link_lookup_keys(raw_target: &str) -> (r: Result<Vec<String>, ApiError>)
    ensures
        refusal(r) == link_refusal(raw_target@),
        r is Ok ==> texts(r->Ok_0@) == link_keys(raw_target@),
{
    let target = trim(raw_target);
    if !is_printable(target.as_str(), MAX_PATH_BYTES) {
        return Err(ApiError::invalid("link_target must contain 1 to 1024 printable characters"));
    }
    let stem = stem_of_link(target.as_str());
    if is_unsafe_part(stem.as_str()) {
        return Err(ApiError::invalid("link_target must name an entry"));
    }
    let key = portable_path_key(stem.as_str());
    let mut keys: Vec<String> = Vec::new();
    let second = cat(key.as_str(), ".md");
    let third = cat(key.as_str(), ".markdown");
    keys.push(key);
    keys.push(second);
    keys.push(third);
    assert(texts(keys@) =~= link_keys(raw_target@));
    Ok(keys)
}

// ---------------------------------------------------------------------------
// Laws
// ---------------------------------------------------------------------------

/// An accepted path has a first character, which is no slash, and names neither its
/// directory nor the one above.
pub proof fn lemma_safe_path(path: Seq<char>)
    requires
        safe_path(path),
    ensures
        path.len() > 0,
        path[0] != '/',
        path != "."@,
        path != ".."@,
{
    reveal_strlit("/");
    if path[0] == '/' {
        assert(path.take(1) =~= "/"@);
        assert(path.subrange(0, 1) =~= "/"@);
    }
    let class = CharClass::Is('/');
    if path == "."@ || path == ".."@ {
        reveal_strlit(".");
        reveal_strlit("..");
        crate::text::lemma_first_from(path, class, 0);
        assert(crate::text::first_from(path, class, 0) == path.len());
        assert(split(path, class)[0] =~= path);
        assert(unsafe_part(split(path, class)[0]));
    }
}

proof fn lemma_trim_none(s: Seq<char>)
    requires
        s.len() > 0,
        is_hex_digit_char(s[0]),
        is_hex_digit_char(s.last()),
    ensures
        trimmed(s) == s,
{
}

/// Two texts that differ at most in the case of ASCII letters.
pub open spec fn same_but_for_case(a: Seq<char>, b: Seq<char>) -> bool {
    ascii_lower(a) == ascii_lower(b)
}

proof fn lemma_digits_in_any_case(d: Seq<char>, u: Seq<char>)
    requires
        d.len() == 64,
        !has_any(d, CharClass::NotHexDigit),
        ascii_lower(d) == d,
        same_but_for_case(u, d),
    ensures
        digest_value(u) == Some(d),
{
    assert(u.len() == ascii_lower(u).len());
    assert forall|i: int| 0 <= i < u.len() implies !CharClass::NotHexDigit.has(#[trigger] u[i]) by {
        assert(ascii_lower(u)[i] == ascii_lower_char(u[i]));
        assert(!CharClass::NotHexDigit.has(d[i]));
    }
    assert(!CharClass::NotHexDigit.has(u[0]));
    assert(!CharClass::NotHexDigit.has(u[63]));
    assert(!has_any(u, CharClass::NotHexDigit));
    lemma_trim_none(u);
    reveal_strlit("sha256:");
    if has_prefix(u, "sha256:"@) {
        assert(u.take(7)[0] == u[0]);
        assert(u.subrange(0, 7)[0] == u[0]);
        assert(u[0] == 's');
    }
}

/// A digest that was read is a text of 64 hexadecimal digits in lower case, and
/// reading it again, in any case of its letters or with its name in front, gives the
/// same digest.
pub proof fn lemma_digest_is_stable(value: Seq<char>)
    requires
        digest_value(value) is Some,
    ensures
        forall|other: Seq<char>| #[trigger]
            same_but_for_case(other, digest_value(value)->0) ==> digest_value(other)
                == digest_value(value),
        digest_value(value)->0.len() == 64,
        !has_any(digest_value(value)->0, CharClass::NotHexDigit),
        digest_value(digest_value(value)->0) == digest_value(value),
        digest_value("sha256:"@ + digest_value(value)->0) == digest_value(value),
{
    let digits = unprefixed(trimmed(value), "sha256:"@);
    let d = ascii_lower(digits);
    assert forall|i: int| 0 <= i < d.len() implies is_hex_digit_char(#[trigger] d[i])
        && ascii_lower_char(d[i]) == d[i] by {
        assert(!CharClass::NotHexDigit.has(digits[i]));
    }
    assert(!has_any(d, CharClass::NotHexDigit));
    assert(ascii_lower(d) =~= d);
    lemma_trim_none(d);
    let prefix = "sha256:"@;
    reveal_strlit("sha256:");
    assert(behind(d, prefix) is None) by {
        if has_prefix(d, prefix) {
            assert(d.take(7)[0] == d[0]);
            assert(d.subrange(0, 7)[0] == d[0]);
            assert(d[0] == 's');
        }
    }
    let named = prefix + d;
    assert(named[0] == 's');
    assert(named.last() == d.last());
    assert(trimmed(named) == named);
    lemma_behind(prefix, d);
    assert forall|other: Seq<char>| #[trigger] same_but_for_case(other, d) implies digest_value(
        other,
    ) == Some(d) by {
        lemma_digits_in_any_case(d, other);
    }
}

}
