//! Links within the texts of a feed.
use vstd::prelude::*;

use crate::outside::patterns::{
    find_links, link_runs, replace_matches, without_tags, MAGNET_PATTERN, TAG_PATTERN, URL_PATTERN,
};
use crate::outside::urls::{find_origin, join_url, origin_in, url_joined};
use crate::text::{
    ascii_lower, chars_of, concat, contains, has_text, lowered, replace, replaced, same_text,
    squeeze, squeezed, starts_with, string_of, trim, trim_both, trim_end, trimmed_both, trimmed_end,
    view_opt, views, CharClass,
};

verus! {

/// A link of a feed item, with its relation and its media type.
pub struct LinkCandidate {
    pub url: String,
    pub rel: String,
    pub mime: String,
}

/// The texts of a link.
pub struct LinkView {
    pub url: Seq<char>,
    pub rel: Seq<char>,
    pub mime: Seq<char>,
}

impl View for LinkCandidate {
    type V = LinkView;

    open spec fn view(&self) -> LinkView {
        LinkView { url: self.url@, rel: self.rel@, mime: self.mime@ }
    }
}

/// `s` with its character entities resolved, one kind after the other.
pub open spec fn decoded(s: Seq<char>) -> Seq<char> {
    let a = replace(s, "&amp;"@, "&"@);
    let b = replace(a, "&lt;"@, "<"@);
    let c = replace(b, "&gt;"@, ">"@);
    let d = replace(c, "&quot;"@, "\""@);
    let e = replace(d, "&#39;"@, "'"@);
    replace(e, "&#x27;"@, "'"@)
}

/// `s` with its entities resolved, and without white space, then quotes, then closing
/// punctuation around it.
pub open spec fn normalized(s: Seq<char>) -> Seq<char> {
    trim_end(trim_both(trim(decoded(s)), CharClass::Quote), CharClass::Closing)
}

/// `s` without tags, with its entities resolved and its white space squeezed.
pub open spec fn cleaned(s: Seq<char>) -> Seq<char> {
    squeeze(decoded(trim(without_tags(s))), false)
}

/// Whether `s` begins with `http://` or `https://`.
pub open spec fn is_web(s: Seq<char>) -> bool {
    "http://"@.is_prefix_of(s) || "https://"@.is_prefix_of(s)
}

/// Whether a link says by itself where it leads.
pub open spec fn stands_alone(text: Seq<char>) -> bool {
    text.len() == 0 || "magnet:"@.is_prefix_of(text) || is_web(text)
}

/// The address that `raw` stands for, where `joined` is what becomes of it in the document
/// that it stands in.
pub open spec fn resolved_with(raw: Seq<char>, joined: Option<Seq<char>>) -> Seq<char> {
    let text = normalized(raw);
    if text.len() > 0 && "magnet:"@.is_prefix_of(text) {
        normalized(text)
    } else if stands_alone(text) {
        text
    } else {
        match joined {
            Some(url) => url,
            None => text,
        }
    }
}

/// The address that `raw` stands for in a document found at `base`.
pub open spec fn resolved(raw: Seq<char>, base: Option<Seq<char>>) -> Seq<char> {
    resolved_with(
        raw,
        match base {
            Some(b) => url_joined(b, normalized(raw)),
            None => None,
        },
    )
}

/// `text` with its entities resolved, and with `origin` before the links that begin with
/// a slash.
pub open spec fn blob_with_origin(text: Seq<char>, origin: Option<Seq<char>>) -> Seq<char> {
    match origin {
        Some(o) => replace(
            replace(decoded(text), "href=\"/"@, "href=\""@ + o + "/"@),
            "src=\"/"@,
            "src=\""@ + o + "/"@,
        ),
        None => decoded(text),
    }
}

/// `text` with its entities resolved, and with the origin of `base` before the links
/// that begin with a slash.
pub open spec fn blob_resolved(text: Seq<char>, base: Option<Seq<char>>) -> Seq<char> {
    blob_with_origin(
        text,
        match base {
            Some(b) => origin_in(b),
            None => None,
        },
    )
}

/// The first magnet link in a text.
pub open spec fn magnet_in(text: Seq<char>) -> Option<Seq<char>> {
    let runs = link_runs(MAGNET_PATTERN@, decoded(text));
    if runs.len() == 0 {
        None
    } else {
        Some(normalized(runs[0]))
    }
}

/// The first of some addresses that names a torrent file.
pub open spec fn first_torrent(runs: Seq<Seq<char>>) -> Option<Seq<char>>
    decreases runs.len(),
{
    if runs.len() == 0 {
        None
    } else if contains(ascii_lower(resolved(runs[0], None)), ".torrent"@) {
        Some(resolved(runs[0], None))
    } else {
        first_torrent(runs.skip(1))
    }
}

/// The first address of a torrent file in a text.
pub open spec fn torrent_in(text: Seq<char>) -> Option<Seq<char>> {
    first_torrent(link_runs(URL_PATTERN@, decoded(text)))
}

/// Whether a link leads to a torrent file: a web link whose address, media type or
/// relation says so.
pub open spec fn is_torrent_link(c: LinkView) -> bool {
    "http"@.is_prefix_of(c.url) && (contains(ascii_lower(c.url), ".torrent"@) || contains(
        c.mime,
        "bittorrent"@,
    ) || c.rel == "enclosure"@)
}

/// Whether a link leads to something that can be loaded.
pub open spec fn is_load_link(c: LinkView) -> bool {
    "magnet:"@.is_prefix_of(c.url) || is_torrent_link(c)
}

proof fn lemma_entities_nonempty()
    ensures
        "&amp;"@.len() > 0,
        "&lt;"@.len() > 0,
        "&gt;"@.len() > 0,
        "&quot;"@.len() > 0,
        "&#39;"@.len() > 0,
        "&#x27;"@.len() > 0,
        "href=\"/"@.len() > 0,
        "src=\"/"@.len() > 0,
{
    reveal_strlit("&amp;");
    reveal_strlit("&lt;");
    reveal_strlit("&gt;");
    reveal_strlit("&quot;");
    reveal_strlit("&#39;");
    reveal_strlit("&#x27;");
    reveal_strlit("href=\"/");
    reveal_strlit("src=\"/");
}

fn decode_chars(text: &[char]) -> (r: Vec<char>)
    ensures
        r@ == decoded(text@),
{
    proof {
        lemma_entities_nonempty();
    }
    let a = replaced(text, &chars_of("&amp;"), &chars_of("&"));
    let b = replaced(&a, &chars_of("&lt;"), &chars_of("<"));
    let c = replaced(&b, &chars_of("&gt;"), &chars_of(">"));
    let d = replaced(&c, &chars_of("&quot;"), &chars_of("\""));
    let e = replaced(&d, &chars_of("&#39;"), &chars_of("'"));
    replaced(&e, &chars_of("&#x27;"), &chars_of("'"))
}

/// Resolves the character entities of a text.
pub fn decode_entities(text: &str) -> (r: String)
    ensures
        r@ == decoded(text@),
{
    string_of(&decode_chars(&chars_of(text)))
}

/// Removes tags and surplus white space from a text.
pub fn clean_text(text: &str) -> (r: String)
    ensures
        r@ == cleaned(text@),
{
    let stripped = replace_matches(TAG_PATTERN, text, " ");
    let inner = trimmed_both(&chars_of(stripped.as_str()), CharClass::Space);
    string_of(&squeezed(&decode_chars(&inner)))
}

/// Brings a magnet link into its plain form.
pub fn normalize_magnet(text: &str) -> (r: String)
    ensures
        r@ == normalized(text@),
{
    let plain = decode_chars(&chars_of(text));
    let inner = trimmed_both(&plain, CharClass::Space);
    let bare = trimmed_both(&inner, CharClass::Quote);
    string_of(&trimmed_end(&bare, CharClass::Closing))
}

/// The address that a raw link stands for, where `joined` is what becomes of it in the
/// document that it stands in.
pub fn resolve_with(raw: &str, joined: Option<String>) -> (r: String)
    ensures
        r@ == resolved_with(raw@, view_opt(joined)),
{
    let text = normalize_magnet(raw);
    if text.as_str().is_empty() {
        return text;
    }
    if starts_with(text.as_str(), "magnet:") {
        return normalize_magnet(text.as_str());
    }
    if starts_with(text.as_str(), "http://") || starts_with(text.as_str(), "https://") {
        return text;
    }
    match joined {
        Some(url) => url,
        None => text,
    }
}

/// The address that a raw link stands for in a document found at `base`.
pub fn resolve_url(raw: &str, base: Option<&str>) -> (r: String)
    ensures
        r@ == resolved(raw@, match base {
            Some(b) => Some(b@),
            None => None,
        }),
{
    let joined = match base {
        Some(b) => join_url(b, normalize_magnet(raw).as_str()),
        None => None,
    };
    resolve_with(raw, joined)
}

/// Resolves the entities of a text, and puts `origin` before its links that begin with a
/// slash.
pub fn resolve_blob_with(text: &str, origin: Option<String>) -> (r: String)
    ensures
        r@ == blob_with_origin(text@, view_opt(origin)),
{
    let plain = decode_chars(&chars_of(text));
    proof {
        lemma_entities_nonempty();
    }
    match origin {
        Some(o) => {
            let href = concat(concat("href=\"", o.as_str()).as_str(), "/");
            let src = concat(concat("src=\"", o.as_str()).as_str(), "/");
            let first = replaced(&plain, &chars_of("href=\"/"), &chars_of(href.as_str()));
            let second = replaced(&first, &chars_of("src=\"/"), &chars_of(src.as_str()));
            string_of(&second)
        },
        None => string_of(&plain),
    }
}

/// Resolves the entities of a text, and its links that begin with a slash.
pub fn resolve_blob_text(text: &str, base: Option<&str>) -> (r: String)
    ensures
        r@ == blob_resolved(text@, match base {
            Some(b) => Some(b@),
            None => None,
        }),
{
    let origin = match base {
        Some(b) => find_origin(b),
        None => None,
    };
    resolve_blob_with(text, origin)
}

/// The first magnet link in a text.
pub fn extract_magnet(text: &str) -> (r: Option<String>)
    ensures
        view_opt(r) == magnet_in(text@),
{
    let plain = decode_entities(text);
    let found = find_links(MAGNET_PATTERN, plain.as_str());
    proof {
        assert(views(found@).len() == found@.len());
    }
    if found.len() == 0 {
        return None;
    }
    proof {
        assert(views(found@)[0] == found@[0]@);
    }
    Some(normalize_magnet(found[0].as_str()))
}

/// The first address of a torrent file in a text.
pub fn extract_torrent_url(text: &str) -> (r: Option<String>)
    ensures
        view_opt(r) == torrent_in(text@),
{
    let plain = decode_entities(text);
    let found = find_links(URL_PATTERN, plain.as_str());
    let mut i: usize = 0;
    proof {
        assert(views(found@).skip(0) =~= views(found@));
        lemma_patterns_differ();
    }
    while i < found.len()
        invariant
            i <= found@.len(),
            views(found@) == link_runs(URL_PATTERN@, decoded(text@)),
            torrent_in(text@) == first_torrent(views(found@).skip(i as int)),
        decreases found@.len() - i,
    {
        proof {
            assert(views(found@).skip(i as int)[0] == found@[i as int]@);
            assert(views(found@).skip(i as int).skip(1) =~= views(found@).skip(i + 1));
        }
        let url = resolve_url(found[i].as_str(), None);
        if has_text(lowered(url.as_str()).as_str(), ".torrent") {
            return Some(url);
        }
        i = i + 1;
    }
    None
}

proof fn lemma_patterns_differ()
    ensures
        MAGNET_PATTERN@ != URL_PATTERN@,
{
    reveal_strlit("magnet:\\?[^\\s\"'<>]+");
    reveal_strlit("https?://[^\\s\"'<>]+");
    assert(MAGNET_PATTERN@[0] == 'm');
    assert(URL_PATTERN@[0] == 'h');
}

/// Whether a link leads to a torrent file.
pub fn is_torrent_candidate(candidate: &LinkCandidate) -> (r: bool)
    ensures
        r == is_torrent_link(candidate@),
{
    starts_with(candidate.url.as_str(), "http") && (has_text(
        lowered(candidate.url.as_str()).as_str(),
        ".torrent",
    ) || has_text(candidate.mime.as_str(), "bittorrent") || same_text(
        candidate.rel.as_str(),
        "enclosure",
    ))
}

/// Whether a link leads to something that can be loaded.
pub fn is_likely_load_link(candidate: &LinkCandidate) -> (r: bool)
    ensures
        r == is_load_link(candidate@),
{
    starts_with(candidate.url.as_str(), "magnet:") || is_torrent_candidate(candidate)
}

} // verus!
