//! Encodings and digests, from the `hex`, `base64`, `md5` and `mime_guess` crates, and
//! the lower case of the standard library.
use vstd::prelude::*;
use vstd::utf8::is_ascii_chars;

use crate::text::ascii_lower;

verus! {

/// The hexadecimal digit of a number below 16, in lower case.
pub open spec fn lower_digit(n: int) -> char {
    if n < 10 {
        (n + 48) as char
    } else {
        (n + 87) as char
    }
}

/// Bytes as pairs of hexadecimal digits in lower case.
pub open spec fn hex_encoded(bytes: Seq<u8>) -> Seq<char>
    decreases bytes.len(),
{
    if bytes.len() == 0 {
        Seq::empty()
    } else {
        seq![lower_digit(bytes[0] as int / 16), lower_digit(bytes[0] as int % 16)] + hex_encoded(
            bytes.skip(1),
        )
    }
}

/// The value of a hexadecimal digit in either case, or -1.
pub open spec fn digit_value(c: char) -> int {
    if '0' <= c && c <= '9' {
        c as int - 48
    } else if 'a' <= c && c <= 'f' {
        c as int - 87
    } else if 'A' <= c && c <= 'F' {
        c as int - 55
    } else {
        -1
    }
}

/// The bytes that pairs of hexadecimal digits stand for; `None` where a digit is
/// missing or a character is no digit.
pub open spec fn hex_decoded(s: Seq<char>) -> Option<Seq<u8>>
    decreases s.len(),
{
    if s.len() == 0 {
        Some(Seq::empty())
    } else if s.len() == 1 || digit_value(s[0]) < 0 || digit_value(s[1]) < 0 {
        None
    } else {
        match hex_decoded(s.skip(2)) {
            Some(rest) => Some(
                seq![(16 * digit_value(s[0]) + digit_value(s[1])) as u8] + rest,
            ),
            None => None,
        }
    }
}

/// The bytes of an optional vector.
pub open spec fn bytes_opt(r: Option<Vec<u8>>) -> Option<Seq<u8>> {
    match r {
        Some(v) => Some(v@),
        None => None,
    }
}

/// `hex::encode`: two lower case digits for each byte.
#[verifier::external_body]
pub(crate) fn encode_hex(bytes: &[u8]) -> (r: String)
    ensures
        r@ == hex_encoded(bytes@),
{
    hex::encode(bytes)
}

/// `hex::decode`: a byte for each pair of digits, in either case; an error where the
/// number of digits is odd or a character is no digit.
#[verifier::external_body]
pub(crate) fn decode_hex(text: &str) -> (r: Option<Vec<u8>>)
    ensures
        bytes_opt(r) == hex_decoded(text@),
{
    hex::decode(text).ok()
}

/// The character of a number below 64 in standard Base64.
pub open spec fn base64_char(n: int) -> char {
    if n < 26 {
        (n + 65) as char
    } else if n < 52 {
        (n + 71) as char
    } else if n < 62 {
        (n - 4) as char
    } else if n == 62 {
        '+'
    } else {
        '/'
    }
}

/// Bytes in standard Base64: four characters for three bytes, padded with `=`.
pub open spec fn base64_encoded(bytes: Seq<u8>) -> Seq<char>
    decreases bytes.len(),
{
    if bytes.len() == 0 {
        Seq::empty()
    } else {
        let a = bytes[0] as int;
        let b = if bytes.len() > 1 { bytes[1] as int } else { 0 };
        let c = if bytes.len() > 2 { bytes[2] as int } else { 0 };
        let third = if bytes.len() > 1 { base64_char((b % 16) * 4 + c / 64) } else { '=' };
        let fourth = if bytes.len() > 2 { base64_char(c % 64) } else { '=' };
        let group = seq![base64_char(a / 4), base64_char((a % 4) * 16 + b / 16), third, fourth];
        if bytes.len() > 3 {
            group + base64_encoded(bytes.skip(3))
        } else {
            group
        }
    }
}

/// `Engine::encode` of the standard Base64 engine: the standard alphabet, with padding.
#[verifier::external_body]
pub(crate) fn encode_base64(bytes: &[u8]) -> (r: String)
    ensures
        r@ == base64_encoded(bytes@),
{
    base64::Engine::encode(&base64::engine::general_purpose::STANDARD, bytes)
}

/// The MD5 digest of a text's UTF-8 form, in lower case hexadecimal.
pub uninterp spec fn md5_text(text: Seq<char>) -> Seq<char>;

/// `md5::compute`, in lower case hexadecimal: a function of the text.
#[verifier::external_body]
pub(crate) fn md5_hex(text: &str) -> (r: String)
    ensures
        r@ == md5_text(text@),
{
    format!("{:x}", md5::compute(text))
}

/// The media type that `mime_guess` finds for the extension of a path.
pub uninterp spec fn media_type_of(path: Seq<char>) -> Seq<char>;

/// `mime_guess::from_path` and `MimeGuess::first_or_octet_stream`: a function of the
/// path.
#[verifier::external_body]
pub(crate) fn guess_media_type(path: &str) -> (r: String)
    ensures
        r@ == media_type_of(path@),
{
    mime_guess::from_path(path).first_or_octet_stream().to_string()
}

/// What `str::to_lowercase` makes of a text.
pub uninterp spec fn lowercase(text: Seq<char>) -> Seq<char>;

/// `str::to_lowercase`: a function of the text. In an ASCII text the ASCII letters
/// become lower case and everything else stays.
#[verifier::external_body]
pub(crate) fn to_lower(text: &str) -> (r: String)
    ensures
        r@ == lowercase(text@),
        is_ascii_chars(text@) ==> r@ == ascii_lower(text@),
{
    text.to_lowercase()
}

} // verus!
