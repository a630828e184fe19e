//! Regular expressions, from the `regex` crate.
use vstd::prelude::*;
use vstd::utf8::is_ascii_chars;

use crate::text::{contains, is_white_space, position_of, views};

verus! {

/// A magnet link within a text.
pub const MAGNET_PATTERN: &'static str = "magnet:\\?[^\\s\"'<>]+";

/// A web address within a text.
pub const URL_PATTERN: &'static str = "https?://[^\\s\"'<>]+";

/// A tag of a markup language.
pub const TAG_PATTERN: &'static str = "(?is)<[^>]+>";

/// A page number within the address of a search.
pub const PAGE_PATTERN: &'static str = "\\{\\{page:(\\d+)\\}\\}";

/// Whether `c` can stand within a link.
pub open spec fn in_link(c: char) -> bool {
    !is_white_space(c) && c != '"' && c != '\'' && c != '<' && c != '>'
}

/// The number of characters at the beginning of `s` that can stand within a link.
pub open spec fn link_run(s: Seq<char>) -> int
    decreases s.len(),
{
    if s.len() > 0 && in_link(s[0]) {
        1 + link_run(s.skip(1))
    } else {
        0
    }
}

/// The length of the head of a link at the beginning of `s`, or 0: `magnet:?` for the
/// magnet pattern, `http://` or `https://` for the other.
pub open spec fn link_head(pattern: Seq<char>, s: Seq<char>) -> int {
    if pattern == MAGNET_PATTERN@ {
        if "magnet:?"@.is_prefix_of(s) {
            "magnet:?"@.len() as int
        } else {
            0
        }
    } else if "http://"@.is_prefix_of(s) {
        "http://"@.len() as int
    } else if "https://"@.is_prefix_of(s) {
        "https://"@.len() as int
    } else {
        0
    }
}

/// The links of `s`, from the left and without overlap: a head, and behind it the
/// longest run of link characters, at least one.
pub open spec fn link_runs(pattern: Seq<char>, s: Seq<char>) -> Seq<Seq<char>>
    decreases s.len(),
{
    if s.len() == 0 {
        Seq::empty()
    } else {
        let head = link_head(pattern, s);
        let run = link_run(s.skip(head));
        if head > 0 && run > 0 && head + run <= s.len() {
            seq![s.take(head + run)] + link_runs(pattern, s.skip(head + run))
        } else {
            link_runs(pattern, s.skip(1))
        }
    }
}

/// The length of the tag at the beginning of `s`, or 0: `<`, then at least one
/// character other than `>`, then the first `>`.
pub open spec fn tag_len(s: Seq<char>) -> int {
    if s.len() > 0 && s[0] == '<' {
        let close = position_of(s.skip(1), '>');
        if 0 < close < s.len() - 1 {
            close + 2
        } else {
            0
        }
    } else {
        0
    }
}

/// `s` with a blank in place of every tag.
pub open spec fn without_tags(s: Seq<char>) -> Seq<char>
    decreases s.len(),
{
    if s.len() == 0 {
        s
    } else if tag_len(s) > 0 {
        seq![' '] + without_tags(s.skip(tag_len(s)))
    } else {
        seq![s[0]] + without_tags(s.skip(1))
    }
}

/// The number of ASCII digits at the beginning of `s`.
pub open spec fn digit_run(s: Seq<char>) -> int
    decreases s.len(),
{
    if s.len() > 0 && '0' <= s[0] && s[0] <= '9' {
        1 + digit_run(s.skip(1))
    } else {
        0
    }
}

/// The length of the page number at the beginning of an ASCII text, or 0: `{{page:`, then
/// at least one digit, then `}}`.
pub open spec fn page_len(s: Seq<char>) -> int {
    let digits = digit_run(s.skip(7));
    if "{{page:"@.is_prefix_of(s) && digits > 0 && "}}"@.is_prefix_of(s.skip(7 + digits)) {
        digits + 9
    } else {
        0
    }
}

/// An ASCII text with the digits in place of every page number.
pub open spec fn with_pages(s: Seq<char>) -> Seq<char>
    decreases s.len(),
{
    if s.len() == 0 {
        s
    } else if 0 < page_len(s) <= s.len() {
        s.subrange(7, page_len(s) - 2) + with_pages(s.skip(page_len(s)))
    } else {
        seq![s[0]] + with_pages(s.skip(1))
    }
}

/// What `Regex::replace_all` returns for a pattern, a text and a replacement.
pub uninterp spec fn regex_replaced(
    pattern: Seq<char>,
    text: Seq<char>,
    replacement: Seq<char>,
) -> Seq<char>;

/// The first group of the leftmost match of a pattern in a text: `None` where the
/// pattern is not valid, `Some(None)` where it does not match, and within a match the
/// group, if it takes part.
pub uninterp spec fn regex_group(pattern: Seq<char>, text: Seq<char>) -> Option<
    Option<Option<Seq<char>>>,
>;

/// `Regex::find_iter` with the magnet pattern or the address pattern: the leftmost
/// matches without overlap. Both patterns are valid. `\s` is Unicode white space, a
/// negated class matches every other character, and `+` takes as many as it can.
#[verifier::external_body]
pub(crate) fn find_links(pattern: &str, text: &str) -> (r: Vec<String>)
    requires
        pattern@ == MAGNET_PATTERN@ || pattern@ == URL_PATTERN@,
    ensures
        views(r@) == link_runs(pattern@, text@),
{
    let re = regex::Regex::new(pattern).unwrap();
    re.find_iter(text).map(|m| m.as_str().to_string()).collect()
}

/// `Regex::replace_all` with the tag pattern or the page pattern, both valid. The
/// result depends on the three arguments alone. With the tag pattern and a blank every
/// tag becomes a blank. With the page pattern and its group every page number of an ASCII
/// text becomes its digits, and a text without the beginning of a page number is left as it
/// is. In another text `\d` also matches the digits of other scripts.
#[verifier::external_body]
pub(crate) fn replace_matches(pattern: &str, text: &str, replacement: &str) -> (r: String)
    requires
        pattern@ == TAG_PATTERN@ || pattern@ == PAGE_PATTERN@,
    ensures
        r@ == regex_replaced(pattern@, text@, replacement@),
        pattern@ == TAG_PATTERN@ && replacement@ == " "@ ==> r@ == without_tags(text@),
        pattern@ == PAGE_PATTERN@ && replacement@ == "$1"@ && is_ascii_chars(text@) ==> r@
            == with_pages(text@),
        pattern@ == PAGE_PATTERN@ && !contains(text@, "{{page:"@) ==> r@ == text@,
{
    let re = regex::Regex::new(pattern).unwrap();
    re.replace_all(text, replacement).into_owned()
}

/// The view of what `first_group` returns.
pub open spec fn group_view(r: Option<Option<Option<String>>>) -> Option<
    Option<Option<Seq<char>>>,
> {
    match r {
        None => None,
        Some(None) => Some(None),
        Some(Some(None)) => Some(Some(None)),
        Some(Some(Some(s))) => Some(Some(Some(s@))),
    }
}

/// `Regex::new` and `Regex::captures`: the first group of the leftmost match. The
/// result depends on the pattern and the text alone.
#[verifier::external_body]
pub(crate) fn first_group(pattern: &str, text: &str) -> (r: Option<Option<Option<String>>>)
    ensures
        group_view(r) == regex_group(pattern@, text@),
{
    let re = regex::Regex::new(pattern).ok()?;
    Some(re.captures(text).map(|c| c.get(1).map(|m| m.as_str().to_string())))
}

} // verus!
