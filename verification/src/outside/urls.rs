//! Addresses, from the `url` and `urlencoding` crates.
use vstd::prelude::*;
use vstd::utf8::encode_utf8;

use crate::text::{ascii_lower, chars_of, lowered, same_text, slice_of, string_of, view_opt};

verus! {

/// The address that `Url::join` makes of a base and a reference to it; `None` where
/// one of them is not an address.
pub uninterp spec fn url_joined(base: Seq<char>, reference: Seq<char>) -> Option<Seq<char>>;

/// The origin of an address, as `Origin::ascii_serialization` writes it; `None` where
/// the text is not an address.
pub uninterp spec fn url_origin(base: Seq<char>) -> Option<Seq<char>>;

/// Whether an address parser drops `c` wherever it stands.
pub open spec fn is_dropped(c: char) -> bool {
    c == '\t' || c == '\n' || c == '\r'
}

/// `s` without the characters that an address parser drops.
pub open spec fn undropped(s: Seq<char>) -> Seq<char>
    decreases s.len(),
{
    if s.len() == 0 {
        s
    } else if is_dropped(s[0]) {
        undropped(s.skip(1))
    } else {
        seq![s[0]] + undropped(s.skip(1))
    }
}

/// How many addresses of the scheme `blob` a text begins with, each within the one before.
pub open spec fn leading_blobs(s: Seq<char>) -> nat
    decreases s.len(),
{
    if s.len() == 0 {
        0
    } else if s[0] <= ' ' {
        leading_blobs(s.skip(1))
    } else if s.len() >= 5 && ascii_lower(s.take(5)) == "blob:"@ {
        1 + leading_blobs(s.skip(5))
    } else {
        0
    }
}

/// How deep addresses of the scheme `blob` may be nested: the origin of one is found on the
/// stack, one frame for each.
pub const BLOB_LIMIT: usize = 1000;

/// Whether the origin of an address can be found.
pub open spec fn is_shallow(base: Seq<char>) -> bool {
    leading_blobs(undropped(base)) <= BLOB_LIMIT
}

/// The origin of an address; `None` where the text is not an address, or one of which the
/// origin cannot be found.
pub open spec fn origin_in(base: Seq<char>) -> Option<Seq<char>> {
    if is_shallow(base) {
        url_origin(base)
    } else {
        None
    }
}

/// `Url::parse` of the base, then `Url::join`, as text: a function of both texts.
#[verifier::external_body]
pub(crate) fn join_url(base: &str, reference: &str) -> (r: Option<String>)
    ensures
        view_opt(r) == url_joined(base@, reference@),
{
    let base = url::Url::parse(base).ok()?;
    base.join(reference).ok().map(|u| u.to_string())
}

/// `Url::parse`, then `Url::origin`, as text: a function of the text. Deeply nested
/// addresses, which exhaust the stack, are left out.
#[verifier::external_body]
fn origin_of(base: &str) -> (r: Option<String>)
    requires
        is_shallow(base@),
    ensures
        view_opt(r) == url_origin(base@),
{
    url::Url::parse(base).ok().map(|u| u.origin().ascii_serialization())
}

/// `s` without the characters that an address parser drops.
pub(crate) fn drop_ignored(s: &[char]) -> (r: Vec<char>)
    ensures
        r@ == undropped(s@),
{
    let mut out: Vec<char> = Vec::new();
    let mut i: usize = 0;
    proof {
        assert(s@.skip(0) =~= s@);
        assert(Seq::<char>::empty() + undropped(s@) =~= undropped(s@));
    }
    while i < s.len()
        invariant
            i <= s@.len(),
            undropped(s@) == out@ + undropped(s@.skip(i as int)),
        decreases s@.len() - i,
    {
        let c: char = s[i];
        let ghost rest = s@.skip(i as int);
        let ghost before = out@;
        proof {
            assert(rest.skip(1) =~= s@.skip(i + 1));
        }
        if !(c == '\t' || c == '\n' || c == '\r') {
            out.push(c);
            proof {
                assert(before + (seq![c] + undropped(rest.skip(1))) =~= out@ + undropped(
                    rest.skip(1),
                ));
            }
        }
        i = i + 1;
    }
    proof {
        assert(s@.skip(i as int) =~= Seq::<char>::empty());
        assert(out@ + Seq::<char>::empty() =~= out@);
    }
    out
}

/// Whether the origin of an address can be found.
fn fits_stack(base: &str) -> (r: bool)
    ensures
        r == is_shallow(base@),
{
    let chars = drop_ignored(chars_of(base).as_slice());
    let mut i: usize = 0;
    let mut depth: usize = 0;
    proof {
        assert(chars@.skip(0) =~= chars@);
    }
    while i < chars.len()
        invariant
            i <= chars@.len(),
            chars@ == undropped(base@),
            depth <= i,
            leading_blobs(chars@) == depth + leading_blobs(chars@.skip(i as int)),
        decreases chars@.len() - i,
    {
        let ghost rest = chars@.skip(i as int);
        if chars[i] <= ' ' {
            proof {
                assert(rest.skip(1) =~= chars@.skip(i + 1));
            }
            i = i + 1;
        } else {
            if chars.len() - i < 5 {
                return depth <= BLOB_LIMIT;
            }
            let scheme = string_of(&slice_of(&chars, i, i + 5));
            proof {
                assert(scheme@ =~= rest.take(5));
                assert(rest.skip(5) =~= chars@.skip(i + 5));
            }
            if !same_text(lowered(scheme.as_str()).as_str(), "blob:") {
                return depth <= BLOB_LIMIT;
            }
            depth = depth + 1;
            i = i + 5;
        }
    }
    depth <= BLOB_LIMIT
}

/// The origin of an address.
pub(crate) fn find_origin(base: &str) -> (r: Option<String>)
    ensures
        view_opt(r) == origin_in(base@),
{
    if fits_stack(base) {
        origin_of(base)
    } else {
        None
    }
}

/// Whether a byte stands for itself in percent encoding: an ASCII letter or digit, or
/// one of `-`, `_`, `.` and `~`.
pub open spec fn is_unreserved(b: u8) -> bool {
    ||| 0x30 <= b <= 0x39
    ||| 0x41 <= b <= 0x5a
    ||| 0x61 <= b <= 0x7a
    ||| b == 0x2d
    ||| b == 0x2e
    ||| b == 0x5f
    ||| b == 0x7e
}

/// The hexadecimal digit of a number below 16, in upper case.
pub open spec fn upper_digit(n: int) -> char {
    if n < 10 {
        (n + 48) as char
    } else {
        (n + 55) as char
    }
}

/// Bytes in percent encoding.
pub open spec fn percent_encoded(bytes: Seq<u8>) -> Seq<char>
    decreases bytes.len(),
{
    if bytes.len() == 0 {
        Seq::empty()
    } else {
        let b = bytes[0];
        let first = if is_unreserved(b) {
            seq![b as char]
        } else {
            seq!['%', upper_digit(b as int / 16), upper_digit(b as int % 16)]
        };
        first + percent_encoded(bytes.skip(1))
    }
}

/// A text in percent encoding, byte by byte of its UTF-8 form.
pub open spec fn encoded_text(s: Seq<char>) -> Seq<char> {
    percent_encoded(encode_utf8(s))
}

/// `urlencoding::encode`: every byte but letters, digits, `-`, `_`, `.` and `~` becomes
/// a percent sign and two upper case digits.
#[verifier::external_body]
pub(crate) fn encode_text(text: &str) -> (r: String)
    ensures
        r@ == encoded_text(text@),
{
    urlencoding::encode(text).into_owned()
}

} // verus!
