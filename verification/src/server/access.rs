//! Where the server listens, and whom it lets in.
use vstd::prelude::*;
use vstd::utf8::encode_utf8;

use crate::outside::codec::{base64_encoded, encode_base64};
use crate::text::{
    chars_of, concat, same_text, slice_of, starts_with, strip_prefix, trim_start, trimmed_start,
    CharClass,
};

verus! {

/// The header that lets in whoever knows `auth`.
pub open spec fn expected_header(auth: Seq<char>) -> Seq<char> {
    "Basic "@ + base64_encoded(encode_utf8(auth))
}

/// The header that lets in whoever knows `auth`.
pub fn expected_auth(auth: &str) -> (r: String)
    ensures
        r@ == expected_header(auth@),
{
    concat("Basic ", encode_base64(auth.as_bytes()).as_str())
}

/// Whether a request with the header `given` is let in.
pub fn is_authorized(expected: &Option<String>, given: &Option<String>) -> (r: bool)
    ensures
        r == (match *expected {
            Some(e) => *given matches Some(g) && g@ == e@,
            None => true,
        }),
{
    match expected {
        Some(e) => match given {
            Some(g) => same_text(g.as_str(), e.as_str()),
            None => false,
        },
        None => true,
    }
}

/// `s` without `prefix`, as often as it stands at the beginning.
pub open spec fn without_prefixes(s: Seq<char>, prefix: Seq<char>) -> Seq<char>
    decreases s.len(),
{
    if prefix.len() > 0 && prefix.is_prefix_of(s) {
        without_prefixes(s.skip(prefix.len() as int), prefix)
    } else {
        s
    }
}

/// Where the server listens: at a socket of the machine, or at an address.
#[derive(Clone, Debug, PartialEq, Eq)]
pub enum Listen {
    Unix(String),
    Tcp(String),
}

/// Where the server listens.
pub fn read_listen(listen: &str) -> (r: Listen)
    ensures
        match r {
            Listen::Unix(path) => "unix:"@.is_prefix_of(listen@) && path@ == without_prefixes(
                listen@,
                "unix:"@,
            ),
            Listen::Tcp(address) => !"unix:"@.is_prefix_of(listen@) && address@ == listen@,
        },
{
    proof {
        reveal_strlit("unix:");
    }
    if !starts_with(listen, "unix:") {
        return Listen::Tcp(String::from_str(listen));
    }
    let mut path = String::from_str(listen);
    let mut going: bool = true;
    while going
        invariant
            "unix:"@.len() == 5,
            without_prefixes(listen@, "unix:"@) == without_prefixes(path@, "unix:"@),
            !going ==> !"unix:"@.is_prefix_of(path@),
        decreases path@.len(), going as int,
    {
        match strip_prefix(path.as_str(), "unix:") {
            Some(rest) => {
                path = rest;
            },
            None => {
                going = false;
            },
        }
    }
    Listen::Unix(path)
}

/// The value of octal digits; `None` where a character is no such digit.
pub open spec fn octal(digits: Seq<char>) -> Option<nat>
    decreases digits.len(),
{
    if digits.len() == 0 {
        Some(0)
    } else {
        match octal(digits.drop_last()) {
            Some(high) => if '0' <= digits.last() && digits.last() <= '7' {
                Some(high * 8 + (digits.last() as nat - 48) as nat)
            } else {
                None
            },
            None => None,
        }
    }
}

/// The mode that the permissions of a socket give: octal digits, maybe with a sign before
/// them, once the zeros at the beginning are gone.
pub open spec fn socket_mode(permissions: Seq<char>) -> Option<nat> {
    let text = trim_start(permissions, CharClass::Zero);
    let digits = if text.len() > 0 && text[0] == '+' {
        text.skip(1)
    } else {
        text
    };
    if digits.len() == 0 {
        None
    } else {
        match octal(digits) {
            Some(mode) => if mode <= u32::MAX {
                Some(mode)
            } else {
                None
            },
            None => None,
        }
    }
}

proof fn lemma_octal_grows(digits: Seq<char>, i: int)
    requires
        0 <= i <= digits.len(),
    ensures
        octal(digits.take(i)) is None ==> octal(digits) is None,
        octal(digits) matches Some(all) ==> octal(digits.take(i)).unwrap() <= all,
    decreases digits.len() - i,
{
    if i < digits.len() {
        assert(digits.take(i + 1).drop_last() =~= digits.take(i));
        lemma_octal_grows(digits, i + 1);
    } else {
        assert(digits.take(i) =~= digits);
    }
}

/// The mode that the permissions of a socket give.
pub fn unix_mode(permissions: &str) -> (r: Option<u32>)
    ensures
        match r {
            Some(mode) => socket_mode(permissions@) == Some(mode as nat),
            None => socket_mode(permissions@) is None,
        },
{
    let text = trimmed_start(&chars_of(permissions), CharClass::Zero);
    let from: usize = if text.len() > 0 && text[0] == '+' {
        1
    } else {
        0
    };
    let digits = slice_of(&text, from, text.len());
    let ghost all = if text@.len() > 0 && text@[0] == '+' {
        text@.skip(1)
    } else {
        text@
    };
    proof {
        assert(digits@ =~= all);
    }
    if digits.len() == 0 {
        return None;
    }
    let mut mode: u32 = 0;
    let mut i: usize = 0;
    while i < digits.len()
        invariant
            i <= digits@.len(),
            digits@.len() > 0,
            socket_mode(permissions@) == (match octal(digits@) {
                Some(mode) => if mode <= u32::MAX {
                    Some(mode)
                } else {
                    None
                },
                None => None,
            }),
            octal(digits@.take(i as int)) == Some(mode as nat),
        decreases digits@.len() - i,
    {
        let c = digits[i];
        proof {
            assert(digits@.take(i + 1).drop_last() =~= digits@.take(i as int));
            assert(digits@.take(i + 1).last() == c);
            lemma_octal_grows(digits@, i + 1);
        }
        if !('0' <= c && c <= '7') {
            return None;
        }
        let wide: u64 = mode as u64 * 8 + (c as u64 - 48);
        if wide > 0xffff_ffff {
            return None;
        }
        mode = wide as u32;
        i = i + 1;
    }
    proof {
        assert(digits@.take(i as int) =~= digits@);
    }
    Some(mode)
}

} // verus!
