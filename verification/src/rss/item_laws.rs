//! What an item of a feed is loaded from, and what else is kept of it.
use vstd::prelude::*;

use crate::outside::codec::md5_text;
use crate::outside::dates::{
    naive_day, naive_time, rfc2822_time, rfc3339_time, utc_text, PUBLISHED_FORMAT,
};
use crate::outside::magnets::magnet_view;
use crate::outside::patterns::{link_runs, MAGNET_PATTERN, URL_PATTERN};
use crate::rss::item::{
    finalized, key_of, law_identity_tells_hashes_apart, loose_formats, magnet_in_blobs, offered_by_links, page_of_links,
    published_time, time_in_formats, torrent_in_blobs, ParsedView, PartialView,
};
use crate::rss::links::{
    cleaned, decoded, first_torrent, magnet_in, normalized, torrent_in, LinkView,
};
use crate::rss::loads::{begins_right, lemma_links_begin, lemma_normalized_prefix};
use crate::text::{ascii_lower, contains, signed_decimal, trim};

verus! {

/// Whether a link offers something to load: it is a magnet link, or a web link whose address,
/// media type or relation speaks of a torrent file.
pub open spec fn offers(c: LinkView) -> bool {
    ||| "magnet:"@.is_prefix_of(c.url)
    ||| "http"@.is_prefix_of(c.url) && {
        ||| contains(ascii_lower(c.url), ".torrent"@)
        ||| contains(c.mime, "bittorrent"@)
        ||| c.rel == "enclosure"@
    }
}

/// Whether a link leads to a page: it is a web link that offers nothing to load.
pub open spec fn leads_to_page(c: LinkView) -> bool {
    "http"@.is_prefix_of(c.url) && !offers(c)
}

proof fn lemma_offer_not_empty(c: LinkView)
    requires
        offers(c),
    ensures
        "magnet:"@.is_prefix_of(c.url) ==> normalized(c.url).len() > 0,
        !"magnet:"@.is_prefix_of(c.url) ==> c.url.len() > 0,
{
    reveal_strlit("magnet:");
    reveal_strlit("http");
    if "magnet:"@.is_prefix_of(c.url) {
        lemma_normalized_prefix(c.url, "magnet:"@);
    }
}

proof fn lemma_no_offer(links: Seq<LinkView>)
    requires
        forall|k: int| 0 <= k < links.len() ==> !offers(#[trigger] links[k]),
    ensures
        offered_by_links(links).len() == 0,
    decreases links.len(),
{
    if links.len() > 0 {
        let front = links.drop_last();
        assert forall|k: int| 0 <= k < front.len() implies !offers(#[trigger] front[k]) by {
            assert(front[k] == links[k]);
        }
        lemma_no_offer(front);
        assert(!offers(links[links.len() - 1]));
    }
}

proof fn lemma_first_offer(links: Seq<LinkView>, i: int)
    requires
        0 <= i < links.len(),
        offers(links[i]),
        forall|k: int| 0 <= k < i ==> !offers(#[trigger] links[k]),
    ensures
        offered_by_links(links) == (if "magnet:"@.is_prefix_of(links[i].url) {
            normalized(links[i].url)
        } else {
            links[i].url
        }),
        offered_by_links(links).len() > 0,
    decreases links.len(),
{
    let front = links.drop_last();
    assert forall|k: int| 0 <= k < i implies !offers(#[trigger] front[k]) by {
        assert(front[k] == links[k]);
    }
    lemma_offer_not_empty(links[i]);
    if i < front.len() {
        assert(front[i] == links[i]);
        lemma_first_offer(front, i);
    } else {
        lemma_no_offer(front);
    }
}

/// What an item is loaded from is what the first of its links offers that offers anything: a
/// magnet link in its plain form, or the address of a torrent file as it is. An item with
/// such a link is never left out.
pub proof fn law_first_offer_is_loaded(item: PartialView, i: int)
    requires
        0 <= i < item.links.len(),
        offers(item.links[i]),
        forall|k: int| 0 <= k < i ==> !offers(#[trigger] item.links[k]),
    ensures
        finalized(item) matches Some(parsed) && parsed.load_url == (if "magnet:"@.is_prefix_of(
            item.links[i].url,
        ) {
            normalized(item.links[i].url)
        } else {
            item.links[i].url
        }),
{
    lemma_first_offer(item.links, i);
}

proof fn lemma_magnet_found(text: Seq<char>)
    ensures
        magnet_in(text) matches Some(url) ==> url.len() > 0 && "magnet:"@.is_prefix_of(url),
{
    let runs = link_runs(MAGNET_PATTERN@, decoded(text));
    lemma_links_begin(MAGNET_PATTERN@, decoded(text));
    if runs.len() > 0 {
        assert(begins_right(MAGNET_PATTERN@, runs[0]));
        lemma_normalized_prefix(runs[0], "magnet:"@);
        reveal_strlit("magnet:");
    }
}

proof fn lemma_first_torrent_found(runs: Seq<Seq<char>>)
    ensures
        first_torrent(runs) matches Some(url) ==> contains(ascii_lower(url), ".torrent"@),
    decreases runs.len(),
{
    if runs.len() > 0 {
        lemma_first_torrent_found(runs.skip(1));
    }
}

proof fn lemma_torrent_found(text: Seq<char>)
    ensures
        torrent_in(text) matches Some(url) ==> url.len() > 0,
{
    lemma_first_torrent_found(link_runs(URL_PATTERN@, decoded(text)));
    if let Some(url) = torrent_in(text) {
        reveal_strlit(".torrent");
        assert(contains(ascii_lower(url), ".torrent"@));
    }
}

proof fn lemma_first_magnet(blobs: Seq<Seq<char>>, i: int)
    requires
        0 <= i < blobs.len(),
        magnet_in(blobs[i]) is Some,
        forall|k: int| 0 <= k < i ==> magnet_in(#[trigger] blobs[k]) is None,
    ensures
        Some(magnet_in_blobs(blobs)) == magnet_in(blobs[i]),
        magnet_in_blobs(blobs).len() > 0,
    decreases blobs.len(),
{
    lemma_magnet_found(blobs[i]);
    if i > 0 {
        let rest = blobs.skip(1);
        assert forall|k: int| 0 <= k < i - 1 implies magnet_in(#[trigger] rest[k]) is None by {
            assert(rest[k] == blobs[k + 1]);
        }
        assert(magnet_in(blobs[0]) is None);
        assert(rest[i - 1] == blobs[i]);
        lemma_first_magnet(rest, i - 1);
    }
}

proof fn lemma_no_magnet(blobs: Seq<Seq<char>>)
    requires
        forall|k: int| 0 <= k < blobs.len() ==> magnet_in(#[trigger] blobs[k]) is None,
    ensures
        magnet_in_blobs(blobs).len() == 0,
    decreases blobs.len(),
{
    if blobs.len() > 0 {
        let rest = blobs.skip(1);
        assert forall|k: int| 0 <= k < rest.len() implies magnet_in(#[trigger] rest[k]) is None by {
            assert(rest[k] == blobs[k + 1]);
        }
        assert(magnet_in(blobs[0]) is None);
        lemma_no_magnet(rest);
    }
}

proof fn lemma_first_file(blobs: Seq<Seq<char>>, i: int)
    requires
        0 <= i < blobs.len(),
        torrent_in(blobs[i]) is Some,
        forall|k: int| 0 <= k < i ==> torrent_in(#[trigger] blobs[k]) is None,
    ensures
        Some(torrent_in_blobs(blobs)) == torrent_in(blobs[i]),
        torrent_in_blobs(blobs).len() > 0,
    decreases blobs.len(),
{
    lemma_torrent_found(blobs[i]);
    if i > 0 {
        let rest = blobs.skip(1);
        assert forall|k: int| 0 <= k < i - 1 implies torrent_in(#[trigger] rest[k]) is None by {
            assert(rest[k] == blobs[k + 1]);
        }
        assert(torrent_in(blobs[0]) is None);
        assert(rest[i - 1] == blobs[i]);
        lemma_first_file(rest, i - 1);
    }
}

proof fn lemma_no_file(blobs: Seq<Seq<char>>)
    requires
        forall|k: int| 0 <= k < blobs.len() ==> torrent_in(#[trigger] blobs[k]) is None,
    ensures
        torrent_in_blobs(blobs).len() == 0,
    decreases blobs.len(),
{
    if blobs.len() > 0 {
        let rest = blobs.skip(1);
        assert forall|k: int| 0 <= k < rest.len() implies torrent_in(#[trigger] rest[k]) is None by {
            assert(rest[k] == blobs[k + 1]);
        }
        assert(torrent_in(blobs[0]) is None);
        lemma_no_file(rest);
    }
}

/// An item whose links offer nothing is loaded from the first magnet link in its texts.
pub proof fn law_magnet_in_text_is_loaded(item: PartialView, i: int)
    requires
        forall|k: int| 0 <= k < item.links.len() ==> !offers(#[trigger] item.links[k]),
        0 <= i < item.blobs.len(),
        magnet_in(item.blobs[i]) is Some,
        forall|k: int| 0 <= k < i ==> magnet_in(#[trigger] item.blobs[k]) is None,
    ensures
        finalized(item) matches Some(parsed) && Some(parsed.load_url) == magnet_in(item.blobs[i]),
{
    lemma_no_offer(item.links);
    lemma_first_magnet(item.blobs, i);
}

/// An item whose links offer nothing, and whose texts hold no magnet link, is loaded from the
/// first torrent file that its texts name.
pub proof fn law_file_in_text_is_loaded(item: PartialView, i: int)
    requires
        forall|k: int| 0 <= k < item.links.len() ==> !offers(#[trigger] item.links[k]),
        forall|k: int| 0 <= k < item.blobs.len() ==> magnet_in(#[trigger] item.blobs[k]) is None,
        0 <= i < item.blobs.len(),
        torrent_in(item.blobs[i]) is Some,
        forall|k: int| 0 <= k < i ==> torrent_in(#[trigger] item.blobs[k]) is None,
    ensures
        finalized(item) matches Some(parsed) && Some(parsed.load_url) == torrent_in(item.blobs[i]),
{
    lemma_no_offer(item.links);
    lemma_no_magnet(item.blobs);
    lemma_first_file(item.blobs, i);
}

/// Only an item that offers nothing at all is left out.
pub proof fn law_only_empty_is_left_out(item: PartialView)
    ensures
        finalized(item) is None <==> {
            &&& forall|k: int| 0 <= k < item.links.len() ==> !offers(#[trigger] item.links[k])
            &&& forall|k: int|
                0 <= k < item.blobs.len() ==> magnet_in(#[trigger] item.blobs[k]) is None
            &&& forall|k: int|
                0 <= k < item.blobs.len() ==> torrent_in(#[trigger] item.blobs[k]) is None
        },
{
    let no_links = forall|k: int| 0 <= k < item.links.len() ==> !offers(#[trigger] item.links[k]);
    let no_magnets = forall|k: int|
        0 <= k < item.blobs.len() ==> magnet_in(#[trigger] item.blobs[k]) is None;
    let no_files = forall|k: int|
        0 <= k < item.blobs.len() ==> torrent_in(#[trigger] item.blobs[k]) is None;
    if no_links {
        lemma_no_offer(item.links);
        if no_magnets {
            lemma_no_magnet(item.blobs);
            if no_files {
                lemma_no_file(item.blobs);
            } else {
                let any = choose|k: int|
                    0 <= k < item.blobs.len() && torrent_in(#[trigger] item.blobs[k]) is Some;
                let i = lemma_least(|k: int| torrent_in(item.blobs[k]) is Some, any);
                assert forall|k: int| 0 <= k < i implies torrent_in(
                    #[trigger] item.blobs[k],
                ) is None by {
                    assert(!(|k: int| torrent_in(item.blobs[k]) is Some)(k));
                }
                law_file_in_text_is_loaded(item, i);
            }
        } else {
            let any = choose|k: int|
                0 <= k < item.blobs.len() && magnet_in(#[trigger] item.blobs[k]) is Some;
            let i = lemma_least(|k: int| magnet_in(item.blobs[k]) is Some, any);
            assert forall|k: int| 0 <= k < i implies magnet_in(#[trigger] item.blobs[k]) is None by {
                assert(!(|k: int| magnet_in(item.blobs[k]) is Some)(k));
            }
            law_magnet_in_text_is_loaded(item, i);
        }
    } else {
        let any = choose|k: int| 0 <= k < item.links.len() && offers(#[trigger] item.links[k]);
        let i = lemma_least(|k: int| offers(item.links[k]), any);
        assert forall|k: int| 0 <= k < i implies !offers(#[trigger] item.links[k]) by {
            assert(!(|k: int| offers(item.links[k]))(k));
        }
        law_first_offer_is_loaded(item, i);
    }
}

/// The least number up to `any` of which something holds that holds of `any`.
proof fn lemma_least(holds: spec_fn(int) -> bool, any: int) -> (least: int)
    requires
        0 <= any,
        holds(any),
    ensures
        0 <= least <= any,
        holds(least),
        forall|k: int| 0 <= k < least ==> !#[trigger] holds(k),
    decreases any,
{
    if exists|k: int| 0 <= k < any && #[trigger] holds(k) {
        let k = choose|k: int| 0 <= k < any && #[trigger] holds(k);
        lemma_least(holds, k)
    } else {
        any
    }
}

proof fn lemma_no_page(links: Seq<LinkView>)
    requires
        forall|k: int| 0 <= k < links.len() ==> !leads_to_page(#[trigger] links[k]),
    ensures
        page_of_links(links).len() == 0,
    decreases links.len(),
{
    if links.len() > 0 {
        let front = links.drop_last();
        assert forall|k: int| 0 <= k < front.len() implies !leads_to_page(#[trigger] front[k]) by {
            assert(front[k] == links[k]);
        }
        lemma_no_page(front);
        assert(!leads_to_page(links[links.len() - 1]));
    }
}

proof fn lemma_first_page(links: Seq<LinkView>, i: int)
    requires
        0 <= i < links.len(),
        leads_to_page(links[i]),
        forall|k: int| 0 <= k < i ==> !leads_to_page(#[trigger] links[k]),
    ensures
        page_of_links(links) == links[i].url,
        links[i].url.len() > 0,
    decreases links.len(),
{
    reveal_strlit("http");
    let front = links.drop_last();
    assert forall|k: int| 0 <= k < i implies !leads_to_page(#[trigger] front[k]) by {
        assert(front[k] == links[k]);
    }
    if i < front.len() {
        assert(front[i] == links[i]);
        lemma_first_page(front, i);
    } else {
        lemma_no_page(front);
    }
}

/// An item leads to the first page that its links name.
pub proof fn law_first_page_is_shown(item: PartialView, i: int)
    requires
        0 <= i < item.links.len(),
        leads_to_page(item.links[i]),
        forall|k: int| 0 <= k < i ==> !leads_to_page(#[trigger] item.links[k]),
    ensures
        finalized(item) matches Some(parsed) ==> parsed.link == item.links[i].url,
{
    lemma_first_page(item.links, i);
}

/// An item whose links name no page leads to what it is loaded from, where that is on the
/// web, and else nowhere.
pub proof fn law_item_without_page(item: PartialView)
    requires
        forall|k: int| 0 <= k < item.links.len() ==> !leads_to_page(#[trigger] item.links[k]),
    ensures
        finalized(item) matches Some(parsed) ==> if "http"@.is_prefix_of(parsed.load_url) {
            parsed.link == parsed.load_url
        } else {
            parsed.link.len() == 0
        },
{
    lemma_no_page(item.links);
}

/// A finished item has the title and the identity that were read, a title of its own where
/// none was, and the info hash of the magnet link that it is loaded from.
pub proof fn law_finished_item(item: PartialView)
    ensures
        finalized(item) matches Some(parsed) ==> {
            &&& item.title.len() > 0 ==> parsed.title == item.title
            &&& item.title.len() == 0 ==> parsed.title == "Untitled RSS item"@
            &&& parsed.guid == item.guid
            &&& !"magnet:"@.is_prefix_of(parsed.load_url) ==> parsed.info_hash is None
            &&& "magnet:"@.is_prefix_of(parsed.load_url) ==> parsed.info_hash == (match magnet_view(
                parsed.load_url,
            ) {
                Some((hash, _)) => hash,
                None => None,
            })
        },
{
}

/// The date of an item: where it follows one of the two standards it is read by that, before
/// all other forms; where nothing reads it the time is 0.
pub proof fn law_published_time(raw: Seq<char>)
    ensures
        trim(raw).len() > 0 ==> {
            &&& rfc3339_time(trim(raw)) matches Some(t) ==> published_time(raw) == t
            &&& rfc3339_time(trim(raw)) is None ==> (rfc2822_time(trim(raw)) matches Some(t)
                ==> published_time(raw) == t)
        },
        trim(raw).len() == 0 ==> published_time(raw) == 0,
{
}

/// Whether a format reads a date, with or without a time of day.
pub open spec fn reads(value: Seq<char>, format: Seq<char>) -> bool {
    naive_time(value, format) is Some || naive_day(value, format) is Some
}

/// The time that a format reads in a date.
pub open spec fn read_by(value: Seq<char>, format: Seq<char>) -> i64 {
    if naive_time(value, format) is Some {
        naive_time(value, format).unwrap()
    } else {
        naive_day(value, format).unwrap()
    }
}

/// A date that follows neither standard is read by the first of five forms that reads it.
pub proof fn law_loose_dates(raw: Seq<char>)
    requires
        trim(raw).len() > 0,
        rfc3339_time(trim(raw)) is None,
        rfc2822_time(trim(raw)) is None,
    ensures
        ({
            let value = trim(raw);
            let a = "%Y-%m-%d %H:%M:%S"@;
            let b = "%Y-%m-%d %H:%M"@;
            let c = "%Y-%m-%d"@;
            let d = "%a, %d %b %Y %H:%M:%S %Z"@;
            let e = "%a, %d %b %Y %H:%M:%S %z"@;
            &&& reads(value, a) ==> published_time(raw) == read_by(value, a)
            &&& !reads(value, a) && reads(value, b) ==> published_time(raw) == read_by(value, b)
            &&& !reads(value, a) && !reads(value, b) && reads(value, c) ==> published_time(raw)
                == read_by(value, c)
            &&& !reads(value, a) && !reads(value, b) && !reads(value, c) && reads(value, d)
                ==> published_time(raw) == read_by(value, d)
            &&& !reads(value, a) && !reads(value, b) && !reads(value, c) && !reads(value, d)
                && reads(value, e) ==> published_time(raw) == read_by(value, e)
            &&& !reads(value, a) && !reads(value, b) && !reads(value, c) && !reads(value, d)
                && !reads(value, e) ==> published_time(raw) == 0
        }),
{
    reveal_with_fuel(time_in_formats, 6);
    let all = loose_formats();
    assert(all.skip(1)[0] == all[1]);
    assert(all.skip(1).skip(1) =~= all.skip(2));
    assert(all.skip(2).skip(1) =~= all.skip(3));
    assert(all.skip(3).skip(1) =~= all.skip(4));
    assert(all.skip(4).skip(1) =~= all.skip(5));
}

/// A finished item shows its date: a time that is known and can be written is written, else
/// the text stands as it was given, cleaned.
pub proof fn law_shown_date(item: PartialView)
    ensures
        finalized(item) matches Some(parsed) ==> {
            &&& parsed.published_ts == published_time(item.published_raw)
            &&& parsed.published_ts <= 0 ==> parsed.published == cleaned(item.published_raw)
            &&& parsed.published_ts > 0 ==> (utc_text(
                parsed.published_ts as int,
                PUBLISHED_FORMAT@,
            ) matches Some(text) ==> parsed.published == text)
        },
{
}

/// An item whose identity is that of one with an info hash has that info hash: no identity of
/// one kind is one of another.
pub proof fn law_identity_shows_the_hash(a: Seq<char>, b: Seq<char>, x: ParsedView, y: ParsedView)
    requires
        x.info_hash is Some,
        key_of(a, x) == key_of(b, y),
    ensures
        y.info_hash == x.info_hash,
{
    reveal_strlit("ih:");
    reveal_strlit("guid:");
    reveal_strlit("link:");
    reveal_strlit("item:");
    assert(key_of(a, x)[0] == 'i');
    assert(key_of(a, x)[1] == 'h');
    if y.info_hash is None {
        if y.guid.len() > 0 {
            assert(key_of(b, y)[0] == 'g');
        } else if y.link.len() > 0 {
            assert(key_of(b, y)[0] == 'l');
        } else {
            assert(key_of(b, y)[1] == 't');
        }
    } else {
        law_identity_tells_hashes_apart(a, b, x, y);
    }
}

/// Items of one feed without info hashes are the same where they name the same identity,
/// whatever else they say; where they name none, where they lead to the same page; and else
/// where title, date and what they are loaded from are the same.
pub proof fn law_same_item_same_identity(source: Seq<char>, x: ParsedView, y: ParsedView)
    requires
        x.info_hash is None,
        y.info_hash is None,
    ensures
        x.guid.len() > 0 && x.guid == y.guid ==> key_of(source, x) == key_of(source, y),
        x.guid.len() == 0 && y.guid.len() == 0 && x.link.len() > 0 && x.link == y.link ==> key_of(
            source,
            x,
        ) == key_of(source, y),
        x.guid.len() == 0 && y.guid.len() == 0 && x.link.len() == 0 && y.link.len() == 0 && x.title
            == y.title && x.published_ts == y.published_ts && x.load_url == y.load_url ==> key_of(
            source,
            x,
        ) == key_of(source, y),
{
}

/// The identity of an item without info hash is a digest of the address of its feed and of
/// what tells it apart there: the identity that it names, the page that it leads to, or all
/// that is known of it.
pub proof fn law_identity_is_a_digest(source: Seq<char>, item: ParsedView)
    requires
        item.info_hash is None,
    ensures
        item.guid.len() > 0 ==> key_of(source, item) == "guid:"@ + md5_text(
            source + "|"@ + trim(item.guid),
        ),
        item.guid.len() == 0 && item.link.len() > 0 ==> key_of(source, item) == "link:"@ + md5_text(
            source + "|"@ + trim(item.link),
        ),
        item.guid.len() == 0 && item.link.len() == 0 ==> key_of(source, item) == "item:"@
            + md5_text(
            source + "|"@ + item.title + "|"@ + signed_decimal(item.published_ts as int) + "|"@
                + item.load_url,
        ),
{
}

} // verus!
