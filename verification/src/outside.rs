//! The functions of other crates that the library calls, each with what is known of
//! it.
use vstd::prelude::*;

use base64::engine::general_purpose::URL_SAFE_NO_PAD;
use base64::Engine;
use bytes::Buf;
use chrono::{DateTime, SecondsFormat, Utc};
use hmac::{Hmac, Mac};
use serde_json::Value;
use sha2::{Digest, Sha256};
use unicode_normalization::UnicodeNormalization;
use uuid::Uuid;

#[allow(unused_imports)]
use crate::json::JsonV;
use crate::json::{Json, Number};
#[allow(unused_imports)]
use crate::text::{all_ascii, equal_ignoring_case, has_any, CharClass};

verus! {

/// How many bytes a digest or a code has at most that is written as text.
pub const MAX_CODE_BYTES: usize = 64;

/// A hexadecimal digit in lower case.
pub open spec fn hex_char(n: nat) -> char {
    if n < 10 {
        (('0' as u32 + n) as u32) as char
    } else {
        (('a' as u32 + n - 10) as u32) as char
    }
}

/// The last `width` hexadecimal digits of a number.
pub open spec fn hex_digits(n: nat, width: nat) -> Seq<char>
    decreases width,
{
    if width == 0 {
        Seq::empty()
    } else {
        hex_digits(n / 16, (width - 1) as nat).push(hex_char(n % 16))
    }
}

/// Bytes in hexadecimal notation: two digits each, in lower case.
pub open spec fn hex_text(bytes: Seq<u8>) -> Seq<char> {
    Seq::new(
        2 * bytes.len(),
        |i: int|
            if i % 2 == 0 {
                hex_char((bytes[i / 2] / 16) as nat)
            } else {
                hex_char((bytes[i / 2] % 16) as nat)
            },
    )
}

pub open spec fn is_lower_hex_char(c: char) -> bool {
    '0' <= c <= '9' || 'a' <= c <= 'f'
}

/// Hexadecimal notation is made of digits and the first letters in lower case.
pub proof fn lemma_hex_text(bytes: Seq<u8>)
    ensures
        hex_text(bytes).len() == 2 * bytes.len(),
        forall|i: int|
            0 <= i < hex_text(bytes).len() ==> is_lower_hex_char(#[trigger] hex_text(bytes)[i]),
{
    assert forall|i: int| 0 <= i < hex_text(bytes).len() implies is_lower_hex_char(
        #[trigger] hex_text(bytes)[i],
    ) by {
        let b = bytes[i / 2];
        assert(b / 16 < 16 && b % 16 < 16);
    }
}

/// `hex::encode`: every byte becomes two hexadecimal digits in lower case, the
/// upper half first.
#[verifier::external_body]
pub(crate) fn hex_encode(bytes: &Vec<u8>) -> (r: String)
    requires
        bytes@.len() <= MAX_CODE_BYTES,
    ensures
        r@ == hex_text(bytes@),
{
    hex::encode(bytes)
}

/// The SHA-256 digest of some bytes.
pub uninterp spec fn sha256_digest(bytes: Seq<u8>) -> Seq<u8>;

/// `sha2::Sha256::digest`: the digest by the name given to it, which has 32 bytes.
#[verifier::external_body]
pub(crate) fn sha256(bytes: &[u8]) -> (r: Vec<u8>)
    ensures
        r@ == sha256_digest(bytes@),
        r@.len() == 32,
{
    Sha256::digest(bytes).to_vec()
}

/// A SHA-256 digest in the making: `sha2::Sha256`, fed with one piece after another.
#[verifier::external_body]
pub struct StreamDigest {
    state: Sha256,
}

/// The bytes that a digest in the making was fed with.
pub uninterp spec fn digested(d: StreamDigest) -> Seq<u8>;

/// `sha2::Sha256::new`: nothing was fed yet.
#[verifier::external_body]
pub(crate) fn digest_new() -> (r: StreamDigest)
    ensures
        digested(r) == Seq::<u8>::empty(),
{
    StreamDigest { state: Sha256::new() }
}

/// `sha2::Sha256::update`: the piece is put behind what was fed before.
#[verifier::external_body]
pub(crate) fn digest_update(d: &mut StreamDigest, chunk: &[u8])
    ensures
        digested(*final(d)) == digested(*old(d)) + chunk@,
{
    d.state.update(chunk);
}

/// `sha2::Sha256::finalize`: the digest of all that was fed, which has 32 bytes.
#[verifier::external_body]
pub(crate) fn digest_finalize(d: StreamDigest) -> (r: Vec<u8>)
    ensures
        r@ == sha256_digest(digested(d)),
        r@.len() == 32,
{
    d.state.finalize().to_vec()
}

/// The HMAC-SHA256 code of a message under a key.
pub uninterp spec fn hmac_sha256_code(key: Seq<u8>, message: Seq<u8>) -> Seq<u8>;

/// `hmac::Hmac<Sha256>`: the code of the message under the key, which is accepted at
/// any length; it has 32 bytes.
#[verifier::external_body]
pub(crate) fn hmac_sha256(key: &[u8], message: &[u8]) -> (r: Option<Vec<u8>>)
    ensures
        r is Some,
        r->0@ == hmac_sha256_code(key@, message@),
        r->0@.len() == 32,
{
    let mut mac = Hmac::<Sha256>::new_from_slice(key).ok()?;
    mac.update(message);
    Some(mac.finalize().into_bytes().to_vec())
}

/// The character for a number below 64 in the base64 alphabet for URLs.
pub open spec fn base64_char(n: nat) -> char {
    if n < 26 {
        (('A' as u32 + n) as u32) as char
    } else if n < 52 {
        (('a' as u32 + n - 26) as u32) as char
    } else if n < 62 {
        (('0' as u32 + n - 52) as u32) as char
    } else if n == 62 {
        '-'
    } else {
        '_'
    }
}

/// The `i`th group of six bits of some bytes, zero bits behind the last one.
pub open spec fn six_bits(bytes: Seq<u8>, i: int) -> nat {
    let k = 6 * i / 8;
    let pair = bytes[k] * 256 + if k + 1 < bytes.len() {
        bytes[k + 1] as int
    } else {
        0
    };
    let bit = 6 * i % 8;
    let below: int = if bit == 0 {
        1024
    } else if bit == 2 {
        256
    } else if bit == 4 {
        64
    } else {
        16
    };
    ((pair / below) % 64) as nat
}

/// Bytes in the base64 alphabet for URLs, without padding.
pub open spec fn base64_url(bytes: Seq<u8>) -> Seq<char> {
    Seq::new(((8 * bytes.len() + 5) / 6) as nat, |i: int| base64_char(six_bits(bytes, i)))
}

/// `base64`'s engine `URL_SAFE_NO_PAD`: one character for every six bits, from the
/// upper end of the first byte on, the last group filled up with zero bits.
#[verifier::external_body]
pub(crate) fn base64_encode(bytes: &Vec<u8>) -> (r: String)
    requires
        bytes@.len() <= MAX_CODE_BYTES,
    ensures
        r@ == base64_url(bytes@),
{
    URL_SAFE_NO_PAD.encode(bytes)
}

/// What `unicode_normalization`'s `nfc` makes of a text.
pub uninterp spec fn nfc_form(text: Seq<char>) -> Seq<char>;

/// A text in Unicode normalization form C. One in ASCII has that form.
#[verifier::opaque]
pub open spec fn nfc_text(text: Seq<char>) -> Seq<char> {
    if all_ascii(text) {
        text
    } else {
        nfc_form(text)
    }
}

/// `unicode_normalization`'s `nfc`, its characters collected: a text in ASCII is left
/// as it is, since no character of ASCII is decomposed and none composes with one
/// before it; of others, by the name given to the result.
#[verifier::external_body]
fn composed(text: &str) -> (r: String)
    ensures
        all_ascii(text@) ==> r@ == text@,
        !all_ascii(text@) ==> r@ == nfc_form(text@),
{
    text.nfc().collect::<String>()
}

/// The text in normalization form C.
pub(crate) fn nfc(text: &str) -> (r: String)
    ensures
        r@ == nfc_text(text@),
{
    reveal(nfc_text);
    composed(text)
}

/// The hyphenated form of a UUID: 32 hexadecimal digits in lower case, in groups of
/// 8, 4, 4, 4 and 12.
pub open spec fn uuid_text(id: u128) -> Seq<char> {
    let h = hex_digits(id as nat, 32);
    h.subrange(0, 8) + seq!['-'] + h.subrange(8, 12) + seq!['-'] + h.subrange(12, 16) + seq!['-']
        + h.subrange(16, 20) + seq!['-'] + h.subrange(20, 32)
}

/// `uuid::Uuid` written as text: the hyphenated form, in lower case.
#[verifier::external_body]
pub(crate) fn uuid_format(id: u128) -> (r: String)
    ensures
        r@ == uuid_text(id),
{
    Uuid::from_u128(id).to_string()
}

/// The number that a hexadecimal digit stands for, in either case.
pub open spec fn hex_digit_value(c: char) -> nat {
    if '0' <= c <= '9' {
        (c as u32 - '0' as u32) as nat
    } else if 'a' <= c <= 'f' {
        (c as u32 - 'a' as u32 + 10) as nat
    } else {
        (c as u32 - 'A' as u32 + 10) as nat
    }
}

/// The number that hexadecimal digits write.
pub open spec fn hex_value(digits: Seq<char>) -> nat
    decreases digits.len(),
{
    if digits.len() == 0 {
        0
    } else {
        hex_value(digits.drop_last()) * 16 + hex_digit_value(digits.last())
    }
}

/// The UUID that 32 hexadecimal digits write.
pub open spec fn plain_uuid(s: Seq<char>) -> Option<u128> {
    if s.len() == 32 && !has_any(s, CharClass::NotHexDigit) {
        Some(hex_value(s) as u128)
    } else {
        None
    }
}

/// The UUID that 32 hexadecimal digits in groups of 8, 4, 4, 4 and 12 write.
pub open spec fn grouped_uuid(s: Seq<char>) -> Option<u128> {
    if s.len() == 36 && s[8] == '-' && s[13] == '-' && s[18] == '-' && s[23] == '-' {
        plain_uuid(
            s.subrange(0, 8) + s.subrange(9, 13) + s.subrange(14, 18) + s.subrange(19, 23)
                + s.subrange(24, 36),
        )
    } else {
        None
    }
}

/// The UUID that a text denotes: as digits alone, in groups, in groups between
/// braces, or in groups behind `urn:uuid:` in any case.
#[verifier::opaque]
pub open spec fn uuid_value(text: Seq<char>) -> Option<u128> {
    if text.len() == 32 {
        plain_uuid(text)
    } else if text.len() == 36 {
        grouped_uuid(text)
    } else if text.len() == 38 && text[0] == '{' && text[37] == '}' {
        grouped_uuid(text.subrange(1, 37))
    } else if text.len() == 45 && equal_ignoring_case(text.take(9), "urn:uuid:"@) {
        grouped_uuid(text.skip(9))
    } else {
        None
    }
}

/// `uuid::Uuid::parse_str`: the UUID in any of the four forms that are read.
#[verifier::external_body]
fn parse_uuid(text: &str) -> (r: Option<u128>)
    ensures
        r == uuid_value(text@),
{
    Uuid::parse_str(text).ok().map(|id| id.as_u128())
}

pub open spec fn pow16(n: nat) -> nat
    decreases n,
{
    if n == 0 {
        1
    } else {
        pow16((n - 1) as nat) * 16
    }
}

proof fn lemma_hex_digits(n: nat, width: nat)
    requires
        n < pow16(width),
    ensures
        hex_digits(n, width).len() == width,
        !has_any(hex_digits(n, width), CharClass::NotHexDigit),
        hex_value(hex_digits(n, width)) == n,
    decreases width,
{
    if width > 0 {
        let rest = (width - 1) as nat;
        assert(n / 16 < pow16(rest)) by (nonlinear_arith)
            requires
                n < pow16(rest) * 16,
        ;
        lemma_hex_digits(n / 16, rest);
        let front = hex_digits(n / 16, rest);
        let digits = hex_digits(n, width);
        let last = hex_char(n % 16);
        assert(digits.drop_last() =~= front);
        assert(digits.last() == last);
        assert(hex_digit_value(last) == n % 16 && !CharClass::NotHexDigit.has(last));
        assert forall|i: int| 0 <= i < digits.len() implies !CharClass::NotHexDigit.has(
            #[trigger] digits[i],
        ) by {
            if i < front.len() {
                assert(digits[i] == front[i]);
            }
        }
    }
}

/// The hyphenated form of a UUID denotes that UUID.
pub proof fn lemma_uuid_is_read_back(id: u128)
    ensures
        uuid_value(uuid_text(id)) == Some(id),
{
    reveal(uuid_value);
    assert(pow16(32) == 0x1_0000_0000_0000_0000_0000_0000_0000_0000) by {
        reveal_with_fuel(pow16, 33);
    }
    lemma_hex_digits(id as nat, 32);
    let h = hex_digits(id as nat, 32);
    let s = uuid_text(id);
    assert(s.len() == 36);
    assert(s.subrange(0, 8) + s.subrange(9, 13) + s.subrange(14, 18) + s.subrange(19, 23)
        + s.subrange(24, 36) =~= h);
}

/// The UUID that a text denotes.
pub(crate) fn uuid_parse(text: &str) -> (r: Option<u128>)
    ensures
        r == uuid_value(text@),
        forall|id: u128| text@ == #[trigger] uuid_text(id) ==> r == Some(id),
{
    proof {
        assert forall|id: u128| text@ == #[trigger] uuid_text(id) implies uuid_value(text@) == Some(
            id,
        ) by {
            lemma_uuid_is_read_back(id);
        }
    }
    parse_uuid(text)
}

/// The number that sixteen bytes are, the first one counting most.
pub open spec fn big_endian(bytes: Seq<u8>) -> nat
    decreases bytes.len(),
{
    if bytes.len() == 0 {
        0
    } else {
        big_endian(bytes.drop_last()) * 256 + bytes.last() as nat
    }
}

/// A point in time, in microseconds since the epoch, as RFC 3339 writes it; nothing
/// where the year cannot be represented.
pub uninterp spec fn rfc3339_text(micros: i64) -> Option<Seq<char>>;

/// `chrono::DateTime::to_rfc3339_opts` with as many digits of the second as are
/// needed and with `Z`, by the name given to what it writes.
#[verifier::external_body]
pub(crate) fn rfc3339(micros: i64) -> (r: Option<String>)
    ensures
        match r {
            Some(t) => rfc3339_text(micros) == Some(t@),
            None => rfc3339_text(micros) is None,
        },
{
    let at = DateTime::<Utc>::from_timestamp_micros(micros)?;
    Some(at.to_rfc3339_opts(SecondsFormat::AutoSi, true))
}

/// The day of a point in time, in microseconds since the epoch, as year, month and
/// day with slashes between; nothing where the year cannot be represented.
pub uninterp spec fn day_text(micros: i64) -> Option<Seq<char>>;

/// `chrono::DateTime::format` with `%Y/%m/%d`, by the name given to what it writes.
#[verifier::external_body]
pub(crate) fn day(micros: i64) -> (r: Option<String>)
    ensures
        match r {
            Some(t) => day_text(micros) == Some(t@),
            None => day_text(micros) is None,
        },
{
    let at = DateTime::<Utc>::from_timestamp_micros(micros)?;
    Some(at.format("%Y/%m/%d").to_string())
}

/// `serde_json::Value`: a JSON value as that crate holds it.
#[verifier::external_type_specification]
#[verifier::external_body]
pub struct ExternalValue(serde_json::Value);

/// A JSON value as `serde_json` holds it: the members of an object in the order of
/// their keys.
pub uninterp spec fn outside_of(value: JsonV) -> serde_json::Value;

/// The variants of `serde_json::Value`, one for each kind of value, by the name given
/// to what is made. Where a key stands twice in an object its first value is put in
/// last, so that it counts. A numeral is read as the nearest binary64 number; one that
/// is no finite number becomes `null`.
#[verifier::external_body]
pub(crate) fn outside_value(json: &Json) -> (r: serde_json::Value)
    ensures
        r == outside_of(json@),
{
    match json {
        Json::Null => Value::Null,
        Json::Bool(b) => Value::Bool(*b),
        Json::Number(Number::Natural(n)) => Value::from(*n),
        Json::Number(Number::Negative(n)) => Value::from(*n),
        Json::Number(Number::Decimal(t)) => {
            Value::from(t.parse().ok().and_then(serde_json::Number::from_f64))
        },
        Json::Text(t) => Value::from(t.as_str()),
        Json::Array(items) => items.iter().map(outside_value).collect(),
        Json::Object(m) => m.iter().rev().map(|e| (e.0.clone(), outside_value(&e.1))).collect(),
    }
}

/// A JSON value on one line.
pub uninterp spec fn compact_form(value: serde_json::Value) -> Seq<char>;

/// `serde_json::Value::to_string`, by the name given to what it writes.
#[verifier::external_body]
pub(crate) fn write_compact(value: &serde_json::Value) -> (r: String)
    ensures
        r@ == compact_form(*value),
{
    value.to_string()
}

/// A JSON value on as many lines as it has members and items.
pub uninterp spec fn pretty_form(value: serde_json::Value) -> Seq<char>;

/// `serde_json::to_string_pretty`, by the name given to what it writes. It fails where
/// a value refuses to be written or a key is no text, which a `Value` does not and has
/// not.
#[verifier::external_body]
pub(crate) fn write_pretty(value: &serde_json::Value) -> (r: Option<String>)
    ensures
        r is Some,
        r->0@ == pretty_form(*value),
{
    serde_json::to_string_pretty(value).ok()
}

/// The numeral of the binary64 number that has the bits; nothing for infinity and for
/// what is no number.
pub uninterp spec fn numeral_text(bits: u64) -> Option<Seq<char>>;

/// `serde_json::Number::from_f64`, written out, of the number that `bytes::Buf::get_f64`
/// reads from the bits, by the name given to it.
#[verifier::external_body]
pub(crate) fn numeral(bits: u64) -> (r: Option<String>)
    ensures
        match r {
            Some(t) => numeral_text(bits) == Some(t@),
            None => numeral_text(bits) is None,
        },
{
    let number = serde_json::Number::from_f64(bits.to_be_bytes().as_slice().get_f64())?;
    Some(number.to_string())
}

/// The media type that goes with the extension of a path.
pub uninterp spec fn path_media_type(path: Seq<char>) -> Seq<char>;

/// `mime_guess::from_path`, the first guess or `application/octet-stream`, by the
/// name given to it.
#[verifier::external_body]
pub(crate) fn guess_media_type(path: &str) -> (r: String)
    ensures
        r@ == path_media_type(path@),
{
    mime_guess::from_path(path).first_or_octet_stream().essence_str().to_owned()
}

/// How a character stands in a JSON string: the quotation mark, the backslash and the
/// characters below the blank are escaped.
pub open spec fn json_char(c: char) -> Seq<char> {
    if c == '"' || c == '\\' {
        seq!['\\', c]
    } else if c == '\u{8}' {
        seq!['\\', 'b']
    } else if c == '\t' {
        seq!['\\', 't']
    } else if c == '\n' {
        seq!['\\', 'n']
    } else if c == '\u{c}' {
        seq!['\\', 'f']
    } else if c == '\r' {
        seq!['\\', 'r']
    } else if !(' ' <= c) {
        seq!['\\', 'u', '0', '0', hex_char(c as nat / 16), hex_char(c as nat % 16)]
    } else {
        seq![c]
    }
}

/// A text as a JSON string: quoted and escaped.
pub open spec fn json_string(text: Seq<char>) -> Seq<char> {
    seq!['"'] + text.map_values(|c: char| json_char(c)).flatten() + seq!['"']
}

/// `serde_json::to_string` on a text: the text as a JSON string. It fails only where a
/// type decides to fail or has keys that are no text, so never here.
#[verifier::external_body]
pub(crate) fn json_quote(text: &str) -> (r: Option<String>)
    ensures
        r is Some,
        r->0@ == json_string(text@),
{
    serde_json::to_string(text).ok()
}

// ---------------------------------------------------------------------------
// What is made of them
// ---------------------------------------------------------------------------

/// The SHA-256 digest of a text's UTF-8 bytes, in hexadecimal notation.
pub open spec fn text_digest(text: Seq<char>) -> Seq<char> {
    hex_text(sha256_digest(vstd::utf8::encode_utf8(text)))
}

/// The SHA-256 digest of a text, in hexadecimal notation.
pub fn sha256_hex(text: &str) -> (r: String)
    ensures
        r@ == text_digest(text@),
        r@.len() == 64,
{
    let digest = sha256(text.as_bytes());
    hex_encode(&digest)
}

/// A JSON value as text on one line.
pub open spec fn json_text(value: JsonV) -> Seq<char> {
    compact_form(outside_of(value))
}

/// A JSON value as text on one line.
pub fn compact_json(json: &Json) -> (r: String)
    ensures
        r@ == json_text(json@),
{
    write_compact(&outside_value(json))
}

/// A JSON value as text on several lines.
pub open spec fn pretty_text(value: JsonV) -> Seq<char> {
    pretty_form(outside_of(value))
}

/// A JSON value as text on several lines.
pub fn pretty_json(json: &Json) -> (r: String)
    ensures
        r@ == pretty_text(json@),
{
    match write_pretty(&outside_value(json)) {
        Some(t) => t,
        None => String::new(),
    }
}

/// A text that denotes an entry: `entry:` and its UUID.
pub open spec fn entry_ref_text(id: u128) -> Seq<char> {
    "entry:"@ + uuid_text(id)
}

/// The reference of an entry.
pub fn entry_ref(id: u128) -> (r: String)
    ensures
        r@ == entry_ref_text(id),
{
    crate::text::cat("entry:", uuid_format(id).as_str())
}

}
