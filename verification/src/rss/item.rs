//! The items of a feed.
use vstd::prelude::*;
use vstd::utf8::is_ascii_chars;

use crate::outside::codec::{md5_hex, md5_text, to_lower};
use crate::outside::dates::{
    format_utc, naive_day, naive_time, parse_naive_day, parse_naive_time, parse_rfc2822,
    parse_rfc3339, rfc2822_time, rfc3339_time, utc_text, PUBLISHED_FORMAT,
};
use crate::outside::magnets::{is_lower_hex, magnet_view, read_magnet};
use crate::rss::links::{
    clean_text, cleaned, extract_magnet, extract_torrent_url, is_likely_load_link, is_load_link,
    is_torrent_candidate, is_torrent_link, magnet_in, normalize_magnet, normalized, torrent_in,
    LinkCandidate, LinkView,
};
use crate::text::{
    ascii_lower, concat, signed_decimal, signed_decimal_of, starts_with, trim, trimmed, view_opt,
    views,
};

verus! {

/// What has been read of an item so far.
pub struct PartialFeedItem {
    pub title: String,
    pub guid: String,
    pub published_raw: String,
    pub links: Vec<LinkCandidate>,
    pub blobs: Vec<String>,
}

/// The texts of an unfinished item.
pub struct PartialView {
    pub title: Seq<char>,
    pub guid: Seq<char>,
    pub published_raw: Seq<char>,
    pub links: Seq<LinkView>,
    pub blobs: Seq<Seq<char>>,
}

/// The texts of links.
pub open spec fn link_views(links: Seq<LinkCandidate>) -> Seq<LinkView> {
    links.map_values(|c: LinkCandidate| c@)
}

impl View for PartialFeedItem {
    type V = PartialView;

    open spec fn view(&self) -> PartialView {
        PartialView {
            title: self.title@,
            guid: self.guid@,
            published_raw: self.published_raw@,
            links: link_views(self.links@),
            blobs: views(self.blobs@),
        }
    }
}

/// The item of which nothing has been read.
pub open spec fn blank_item() -> PartialView {
    PartialView {
        title: Seq::empty(),
        guid: Seq::empty(),
        published_raw: Seq::empty(),
        links: Seq::empty(),
        blobs: Seq::empty(),
    }
}

impl PartialFeedItem {
    /// The item of which nothing has been read.
    pub fn new() -> (r: PartialFeedItem)
        ensures
            r@ == blank_item(),
    {
        let r = PartialFeedItem {
            title: String::new(),
            guid: String::new(),
            published_raw: String::new(),
            links: Vec::new(),
            blobs: Vec::new(),
        };
        proof {
            assert(link_views(r.links@) =~= Seq::empty());
            assert(views(r.blobs@) =~= Seq::empty());
        }
        r
    }
}

/// An item that can be loaded.
pub struct ParsedFeedItem {
    pub title: String,
    pub guid: String,
    pub link: String,
    pub load_url: String,
    pub published: String,
    pub published_ts: i64,
    pub info_hash: Option<String>,
}

/// The values of an item.
pub struct ParsedView {
    pub title: Seq<char>,
    pub guid: Seq<char>,
    pub link: Seq<char>,
    pub load_url: Seq<char>,
    pub published: Seq<char>,
    pub published_ts: i64,
    pub info_hash: Option<Seq<char>>,
}

impl View for ParsedFeedItem {
    type V = ParsedView;

    open spec fn view(&self) -> ParsedView {
        ParsedView {
            title: self.title@,
            guid: self.guid@,
            link: self.link@,
            load_url: self.load_url@,
            published: self.published@,
            published_ts: self.published_ts,
            info_hash: view_opt(self.info_hash),
        }
    }
}

/// The values of an optional item.
pub open spec fn parsed_opt(item: Option<ParsedFeedItem>) -> Option<ParsedView> {
    match item {
        Some(i) => Some(i@),
        None => None,
    }
}

/// The Unix time that a text gives by one format, with or without a time of day.
pub open spec fn time_in_format(value: Seq<char>, format: Seq<char>) -> Option<i64> {
    match naive_time(value, format) {
        Some(t) => Some(t),
        None => naive_day(value, format),
    }
}

/// The Unix time that a text gives by the first format that fits it.
pub open spec fn time_in_formats(value: Seq<char>, formats: Seq<Seq<char>>) -> Option<i64>
    decreases formats.len(),
{
    if formats.len() == 0 {
        None
    } else {
        match time_in_format(value, formats[0]) {
            Some(t) => Some(t),
            None => time_in_formats(value, formats.skip(1)),
        }
    }
}

/// The formats of dates that follow neither standard.
pub open spec fn loose_formats() -> Seq<Seq<char>> {
    seq![
        "%Y-%m-%d %H:%M:%S"@,
        "%Y-%m-%d %H:%M"@,
        "%Y-%m-%d"@,
        "%a, %d %b %Y %H:%M:%S %Z"@,
        "%a, %d %b %Y %H:%M:%S %z"@,
    ]
}

/// The first of the times that a date gives by the two standards and by other formats, or
/// 0.
pub open spec fn first_of_times(
    rfc3339: Option<i64>,
    rfc2822: Option<i64>,
    loose: Option<i64>,
) -> i64 {
    match rfc3339 {
        Some(t) => t,
        None => match rfc2822 {
            Some(t) => t,
            None => match loose {
                Some(t) => t,
                None => 0,
            },
        },
    }
}

/// The Unix time of a date in a feed, or 0 where it cannot be read.
pub open spec fn published_time(raw: Seq<char>) -> i64 {
    let value = trim(raw);
    if value.len() == 0 {
        0
    } else {
        first_of_times(
            rfc3339_time(value),
            rfc2822_time(value),
            time_in_formats(value, loose_formats()),
        )
    }
}

/// How a date is shown: the time where it is known and can be written, else the text that
/// was given.
pub open spec fn published_with(
    raw: Seq<char>,
    timestamp: i64,
    written: Option<Seq<char>>,
) -> Seq<char> {
    if timestamp > 0 && written is Some {
        written.unwrap()
    } else {
        cleaned(raw)
    }
}

/// How a date is shown.
pub open spec fn published_text(raw: Seq<char>, timestamp: i64) -> Seq<char> {
    published_with(raw, timestamp, utc_text(timestamp as int, PUBLISHED_FORMAT@))
}

/// The info hash of a magnet link.
pub open spec fn hash_of(load_url: Seq<char>) -> Option<Seq<char>> {
    if "magnet:"@.is_prefix_of(load_url) {
        match magnet_view(load_url) {
            Some((hash, _)) => hash,
            None => None,
        }
    } else {
        None
    }
}

/// What a link offers to load, or nothing.
pub open spec fn offered(c: LinkView) -> Seq<char> {
    if "magnet:"@.is_prefix_of(c.url) {
        normalized(c.url)
    } else if is_torrent_link(c) {
        c.url
    } else {
        Seq::empty()
    }
}

/// What the first link that offers anything offers to load.
pub open spec fn offered_by_links(links: Seq<LinkView>) -> Seq<char>
    decreases links.len(),
{
    if links.len() == 0 {
        Seq::empty()
    } else if offered_by_links(links.drop_last()).len() > 0 {
        offered_by_links(links.drop_last())
    } else {
        offered(links.last())
    }
}

/// The first web link that is there to be read rather than loaded.
pub open spec fn page_of_links(links: Seq<LinkView>) -> Seq<char>
    decreases links.len(),
{
    if links.len() == 0 {
        Seq::empty()
    } else if page_of_links(links.drop_last()).len() > 0 {
        page_of_links(links.drop_last())
    } else if "http"@.is_prefix_of(links.last().url) && !is_load_link(links.last()) {
        links.last().url
    } else {
        Seq::empty()
    }
}

/// The first magnet link in some texts.
pub open spec fn magnet_in_blobs(blobs: Seq<Seq<char>>) -> Seq<char>
    decreases blobs.len(),
{
    if blobs.len() == 0 {
        Seq::empty()
    } else {
        match magnet_in(blobs[0]) {
            Some(url) => url,
            None => magnet_in_blobs(blobs.skip(1)),
        }
    }
}

/// The first address of a torrent file in some texts.
pub open spec fn torrent_in_blobs(blobs: Seq<Seq<char>>) -> Seq<char>
    decreases blobs.len(),
{
    if blobs.len() == 0 {
        Seq::empty()
    } else {
        match torrent_in(blobs[0]) {
            Some(url) => url,
            None => torrent_in_blobs(blobs.skip(1)),
        }
    }
}

/// What is loaded for an item: what its links offer, else a magnet link in its texts,
/// else a torrent file named there.
pub open spec fn load_of(item: PartialView) -> Seq<char> {
    if offered_by_links(item.links).len() > 0 {
        offered_by_links(item.links)
    } else if magnet_in_blobs(item.blobs).len() > 0 {
        magnet_in_blobs(item.blobs)
    } else {
        torrent_in_blobs(item.blobs)
    }
}

/// The finished item, if it can be loaded, with the time and hash that were found for it.
pub open spec fn finished(
    item: PartialView,
    published_ts: i64,
    published: Seq<char>,
    info_hash: Option<Seq<char>>,
) -> Option<ParsedView> {
    let load_url = load_of(item);
    let page = page_of_links(item.links);
    if load_url.len() == 0 {
        None
    } else {
        Some(
            ParsedView {
                title: if item.title.len() == 0 {
                    "Untitled RSS item"@
                } else {
                    item.title
                },
                guid: item.guid,
                link: if page.len() == 0 && "http"@.is_prefix_of(load_url) {
                    load_url
                } else {
                    page
                },
                load_url,
                published,
                published_ts,
                info_hash,
            },
        )
    }
}

/// The finished item, if it can be loaded.
pub open spec fn finalized(item: PartialView) -> Option<ParsedView> {
    let published_ts = published_time(item.published_raw);
    finished(
        item,
        published_ts,
        published_text(item.published_raw, published_ts),
        hash_of(load_of(item)),
    )
}

/// What the identity of an item without an info hash is a digest of: its guid, its link,
/// or all that is known of it, behind the address of the feed.
pub open spec fn digested(source: Seq<char>, item: ParsedView) -> Seq<char> {
    if item.guid.len() > 0 {
        source + "|"@ + trim(item.guid)
    } else if item.link.len() > 0 {
        source + "|"@ + trim(item.link)
    } else {
        source + "|"@ + item.title + "|"@ + signed_decimal(item.published_ts as int) + "|"@
            + item.load_url
    }
}

/// The identity of an item: its info hash, else the digest, each behind its kind.
pub open spec fn key_with(item: ParsedView, digest: Seq<char>) -> Seq<char> {
    match item.info_hash {
        Some(hash) => "ih:"@ + hash,
        None => if item.guid.len() > 0 {
            "guid:"@ + digest
        } else if item.link.len() > 0 {
            "link:"@ + digest
        } else {
            "item:"@ + digest
        },
    }
}

/// The identity of an item of the feed at `source`.
pub open spec fn key_of(source: Seq<char>, item: ParsedView) -> Seq<char> {
    key_with(item, md5_text(digested(source, item)))
}

fn read_by_format(value: &str, format: &str) -> (r: Option<i64>)
    ensures
        r == time_in_format(value@, format@),
{
    match parse_naive_time(value, format) {
        Some(t) => Some(t),
        None => parse_naive_day(value, format),
    }
}

/// The Unix time that a text gives by the first of the loose formats that fits it.
fn read_loosely(value: &str) -> (r: Option<i64>)
    ensures
        r == time_in_formats(value@, loose_formats()),
{
    proof {
        reveal_with_fuel(time_in_formats, 6);
        let all = loose_formats();
        assert(all.skip(1)[0] == all[1]);
        assert(all.skip(1).skip(1) =~= all.skip(2));
        assert(all.skip(2).skip(1) =~= all.skip(3));
        assert(all.skip(3).skip(1) =~= all.skip(4));
        assert(all.skip(4).skip(1) =~= all.skip(5));
    }
    if let Some(t) = read_by_format(value, "%Y-%m-%d %H:%M:%S") {
        return Some(t);
    }
    if let Some(t) = read_by_format(value, "%Y-%m-%d %H:%M") {
        return Some(t);
    }
    if let Some(t) = read_by_format(value, "%Y-%m-%d") {
        return Some(t);
    }
    if let Some(t) = read_by_format(value, "%a, %d %b %Y %H:%M:%S %Z") {
        return Some(t);
    }
    read_by_format(value, "%a, %d %b %Y %H:%M:%S %z")
}

/// The first of the times that a date gives by the two standards and by other formats, or
/// 0.
pub fn first_time(rfc3339: Option<i64>, rfc2822: Option<i64>, loose: Option<i64>) -> (r: i64)
    ensures
        r == first_of_times(rfc3339, rfc2822, loose),
{
    match rfc3339 {
        Some(t) => t,
        None => match rfc2822 {
            Some(t) => t,
            None => match loose {
                Some(t) => t,
                None => 0,
            },
        },
    }
}

/// The Unix time of a date in a feed, or 0 where it cannot be read.
pub fn parse_published_ts(value: &str) -> (r: i64)
    ensures
        r == published_time(value@),
{
    let text = trimmed(value);
    let value = text.as_str();
    if value.is_empty() {
        return 0;
    }
    first_time(parse_rfc3339(value), parse_rfc2822(value), read_loosely(value))
}

/// How a date is shown, where `written` is its time in writing.
pub fn show_published(raw: &str, timestamp: i64, written: Option<String>) -> (r: String)
    ensures
        r@ == published_with(raw@, timestamp, view_opt(written)),
{
    if timestamp > 0 {
        if let Some(text) = written {
            return text;
        }
    }
    clean_text(raw)
}

/// How a date is shown.
pub fn format_published(raw: &str, timestamp: i64) -> (r: String)
    ensures
        r@ == published_text(raw@, timestamp),
{
    show_published(raw, timestamp, format_utc(timestamp, PUBLISHED_FORMAT))
}

proof fn lemma_lower_hex_is_ascii(hash: Seq<char>)
    requires
        is_lower_hex(hash),
    ensures
        is_ascii_chars(hash),
        ascii_lower(hash) == hash,
{
    assert(ascii_lower(hash) =~= hash);
}

/// The info hash of a magnet link, in lower case.
pub fn magnet_info_hash(load_url: &str) -> (r: Option<String>)
    ensures
        view_opt(r) == hash_of(load_url@),
{
    if !starts_with(load_url, "magnet:") {
        return None;
    }
    match read_magnet(load_url) {
        Some(fields) => match fields.info_hash {
            Some(hash) => {
                proof {
                    lemma_lower_hex_is_ascii(hash@);
                }
                Some(to_lower(hash.as_str()))
            },
            None => None,
        },
        None => None,
    }
}

/// What the links of an item offer to load, and the page among them.
fn choose_links(links: &Vec<LinkCandidate>) -> (r: (String, String))
    ensures
        r.0@ == offered_by_links(link_views(links@)),
        r.1@ == page_of_links(link_views(links@)),
{
    let mut load_url = String::new();
    let mut link = String::new();
    let mut i: usize = 0;
    proof {
        assert(link_views(links@).take(0) =~= Seq::empty());
    }
    while i < links.len()
        invariant
            i <= links@.len(),
            load_url@ == offered_by_links(link_views(links@).take(i as int)),
            link@ == page_of_links(link_views(links@).take(i as int)),
        decreases links@.len() - i,
    {
        let candidate = &links[i];
        proof {
            let next = link_views(links@).take(i + 1);
            assert(next.drop_last() =~= link_views(links@).take(i as int));
            assert(next.last() == candidate@);
        }
        if load_url.as_str().is_empty() {
            if starts_with(candidate.url.as_str(), "magnet:") {
                load_url = normalize_magnet(candidate.url.as_str());
            } else if is_torrent_candidate(candidate) {
                load_url = candidate.url.clone();
            } else {
                proof {
                    assert(load_url@ =~= Seq::<char>::empty());
                }
            }
        }
        if link.as_str().is_empty() {
            if starts_with(candidate.url.as_str(), "http") && !is_likely_load_link(candidate) {
                link = candidate.url.clone();
            } else {
                proof {
                    assert(link@ =~= Seq::<char>::empty());
                }
            }
        }
        i = i + 1;
    }
    proof {
        assert(link_views(links@).take(i as int) =~= link_views(links@));
    }
    (load_url, link)
}

fn magnet_of_blobs(blobs: &Vec<String>) -> (r: String)
    ensures
        r@ == magnet_in_blobs(views(blobs@)),
{
    let mut i: usize = 0;
    proof {
        assert(views(blobs@).skip(0) =~= views(blobs@));
    }
    while i < blobs.len()
        invariant
            i <= blobs@.len(),
            magnet_in_blobs(views(blobs@)) == magnet_in_blobs(views(blobs@).skip(i as int)),
        decreases blobs@.len() - i,
    {
        proof {
            assert(views(blobs@).skip(i as int)[0] == blobs@[i as int]@);
            assert(views(blobs@).skip(i as int).skip(1) =~= views(blobs@).skip(i + 1));
        }
        if let Some(url) = extract_magnet(blobs[i].as_str()) {
            return url;
        }
        i = i + 1;
    }
    String::new()
}

fn torrent_of_blobs(blobs: &Vec<String>) -> (r: String)
    ensures
        r@ == torrent_in_blobs(views(blobs@)),
{
    let mut i: usize = 0;
    proof {
        assert(views(blobs@).skip(0) =~= views(blobs@));
    }
    while i < blobs.len()
        invariant
            i <= blobs@.len(),
            torrent_in_blobs(views(blobs@)) == torrent_in_blobs(views(blobs@).skip(i as int)),
        decreases blobs@.len() - i,
    {
        proof {
            assert(views(blobs@).skip(i as int)[0] == blobs@[i as int]@);
            assert(views(blobs@).skip(i as int).skip(1) =~= views(blobs@).skip(i + 1));
        }
        if let Some(url) = extract_torrent_url(blobs[i].as_str()) {
            return url;
        }
        i = i + 1;
    }
    String::new()
}

/// What is loaded for an item.
fn choose_load(item: &PartialFeedItem) -> (r: String)
    ensures
        r@ == load_of(item@),
{
    let (mut load_url, _) = choose_links(&item.links);
    if load_url.as_str().is_empty() {
        load_url = magnet_of_blobs(&item.blobs);
    }
    if load_url.as_str().is_empty() {
        load_url = torrent_of_blobs(&item.blobs);
    }
    proof {
        assert(load_url@ =~= load_of(item@));
    }
    load_url
}

/// Finishes an item with the time and hash that were found for it: what it loads, and
/// where it leads. An item that offers nothing to load is dropped.
pub fn finish_item(
    item: PartialFeedItem,
    published_ts: i64,
    published: String,
    info_hash: Option<String>,
) -> (r: Option<ParsedFeedItem>)
    ensures
        parsed_opt(r) == finished(item@, published_ts, published@, view_opt(info_hash)),
{
    let load_url = choose_load(&item);
    if load_url.as_str().is_empty() {
        return None;
    }
    let (_, mut link) = choose_links(&item.links);
    if link.as_str().is_empty() && starts_with(load_url.as_str(), "http") {
        link = load_url.clone();
    }
    let title = if item.title.as_str().is_empty() {
        String::from_str("Untitled RSS item")
    } else {
        item.title
    };
    Some(
        ParsedFeedItem {
            title,
            guid: item.guid,
            link,
            load_url,
            published,
            published_ts,
            info_hash,
        },
    )
}

/// Finishes an item: what it loads, where it leads, and when it was published. An item
/// that offers nothing to load is dropped.
pub fn finalize_item(item: PartialFeedItem) -> (r: Option<ParsedFeedItem>)
    ensures
        parsed_opt(r) == finalized(item@),
{
    let published_ts = parse_published_ts(item.published_raw.as_str());
    let published = format_published(item.published_raw.as_str(), published_ts);
    let info_hash = magnet_info_hash(choose_load(&item).as_str());
    finish_item(item, published_ts, published, info_hash)
}

/// What the identity of an item without an info hash is a digest of.
pub fn digest_source(source_url: &str, item: &ParsedFeedItem) -> (r: String)
    ensures
        r@ == digested(source_url@, item@),
{
    let mut all = concat(source_url, "|");
    if !item.guid.as_str().is_empty() {
        all.append(trimmed(item.guid.as_str()).as_str());
        return all;
    }
    if !item.link.as_str().is_empty() {
        all.append(trimmed(item.link.as_str()).as_str());
        return all;
    }
    all.append(item.title.as_str());
    all.append("|");
    all.append(signed_decimal_of(item.published_ts).as_str());
    all.append("|");
    all.append(item.load_url.as_str());
    all
}

/// The identity of an item, where `digest` is that of what it is a digest of.
pub fn key_from_digest(item: &ParsedFeedItem, digest: &str) -> (r: String)
    ensures
        r@ == key_with(item@, digest@),
{
    if let Some(hash) = &item.info_hash {
        return concat("ih:", hash.as_str());
    }
    if !item.guid.as_str().is_empty() {
        return concat("guid:", digest);
    }
    if !item.link.as_str().is_empty() {
        return concat("link:", digest);
    }
    concat("item:", digest)
}

/// The identity of an item of the feed at `source_url`.
pub fn item_key(source_url: &str, item: &ParsedFeedItem) -> (r: String)
    ensures
        r@ == key_of(source_url@, item@),
{
    key_from_digest(item, md5_hex(digest_source(source_url, item).as_str()).as_str())
}

/// Items with the same info hash have the same identity, in whatever feeds they stand.
pub proof fn law_hash_is_identity(a: Seq<char>, b: Seq<char>, x: ParsedView, y: ParsedView)
    requires
        x.info_hash is Some,
        x.info_hash == y.info_hash,
    ensures
        key_of(a, x) == key_of(b, y),
{
}

/// Items with different info hashes have different identities.
pub proof fn law_identity_tells_hashes_apart(
    a: Seq<char>,
    b: Seq<char>,
    x: ParsedView,
    y: ParsedView,
)
    requires
        x.info_hash is Some,
        y.info_hash is Some,
        key_of(a, x) == key_of(b, y),
    ensures
        x.info_hash == y.info_hash,
{
    let p = "ih:"@;
    let s = x.info_hash.unwrap();
    let t = y.info_hash.unwrap();
    assert((p + s).skip(p.len() as int) =~= s);
    assert((p + t).skip(p.len() as int) =~= t);
}

} // verus!
