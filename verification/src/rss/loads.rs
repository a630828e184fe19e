//! What the items of a feed have to be loaded from.
use vstd::prelude::*;

use crate::outside::markup::XmlEventView;
use crate::outside::patterns::{link_head, link_run, link_runs, MAGNET_PATTERN, URL_PATTERN};
use crate::rss::feed::{after_capture, after_event, after_events, feed_of, feed_start, FeedView};
use crate::rss::item::{
    finalized, magnet_in_blobs, offered_by_links, torrent_in_blobs, ParsedView, PartialView,
};
use crate::rss::links::{decoded, first_torrent, normalized, resolved, LinkView};
use crate::rss::service::{
    begun, closed_feed, loads_next, open_weight, settled, taken, wanted_load, OpenView, RunView,
};
use crate::text::{in_class, replace, trim, trim_both, trim_end, trim_start, CharClass};

verus! {

/// Whether a text is a magnet link or a web address, rather than a command.
pub open spec fn is_loadable(url: Seq<char>) -> bool {
    "magnet:"@.is_prefix_of(url) || "http"@.is_prefix_of(url)
}

proof fn lemma_replace_prefix(s: Seq<char>, from: Seq<char>, to: Seq<char>, p: Seq<char>)
    requires
        p.is_prefix_of(s),
        from.len() > 0,
        !p.contains(from[0]),
    ensures
        p.is_prefix_of(replace(s, from, to)),
    decreases s.len(),
{
    if p.len() > 0 && s.len() > 0 {
        assert(s[0] == p[0]);
        assert(p.contains(p[0]));
        if from.is_prefix_of(s) {
            assert(s[0] == from[0]);
        }
        let tail = p.skip(1);
        let rest = s.skip(1);
        assert(tail =~= rest.take(tail.len() as int)) by {
            assert forall|i: int| 0 <= i < tail.len() implies tail[i] == rest[i] by {
                assert(p[i + 1] == s[i + 1]);
            }
        }
        assert(!tail.contains(from[0])) by {
            if tail.contains(from[0]) {
                let k = choose|k: int| 0 <= k < tail.len() && tail[k] == from[0];
                assert(p[k + 1] == from[0]);
            }
        }
        lemma_replace_prefix(rest, from, to, tail);
        let inner = replace(rest, from, to);
        let r = replace(s, from, to);
        assert(r =~= seq![s[0]] + inner);
        assert forall|i: int| 0 <= i < p.len() implies p[i] == r[i] by {
            if i > 0 {
                assert(p[i] == tail[i - 1]);
                assert(tail[i - 1] == inner[i - 1]);
            }
        }
        assert(p =~= r.take(p.len() as int));
    } else {
        assert(p =~= replace(s, from, to).take(0));
    }
}

proof fn lemma_trim_end_prefix(s: Seq<char>, class: CharClass, p: Seq<char>)
    requires
        p.is_prefix_of(s),
        p.len() > 0,
        !in_class(class, p.last()),
    ensures
        p.is_prefix_of(trim_end(s, class)),
    decreases s.len(),
{
    if s.len() > 0 && in_class(class, s.last()) {
        if s.len() == p.len() {
            assert(s.last() == p.last());
        }
        assert(p =~= s.drop_last().take(p.len() as int));
        lemma_trim_end_prefix(s.drop_last(), class, p);
    }
}

proof fn lemma_trim_both_prefix(s: Seq<char>, class: CharClass, p: Seq<char>)
    requires
        p.is_prefix_of(s),
        p.len() > 0,
        !in_class(class, p[0]),
        !in_class(class, p.last()),
    ensures
        p.is_prefix_of(trim_both(s, class)),
{
    assert(s[0] == p[0]);
    assert(trim_start(s, class) == s);
    lemma_trim_end_prefix(s, class, p);
}

/// A beginning out of plain characters stays when a link is put in order.
pub proof fn lemma_normalized_prefix(s: Seq<char>, p: Seq<char>)
    requires
        p.is_prefix_of(s),
        p == "magnet:"@ || p == "http"@,
    ensures
        p.is_prefix_of(normalized(s)),
{
    reveal_strlit("magnet:");
    reveal_strlit("http");
    reveal_strlit("&amp;");
    reveal_strlit("&lt;");
    reveal_strlit("&gt;");
    reveal_strlit("&quot;");
    reveal_strlit("&#39;");
    reveal_strlit("&#x27;");
    assert(!p.contains('&'));
    let a = replace(s, "&amp;"@, "&"@);
    lemma_replace_prefix(s, "&amp;"@, "&"@, p);
    let b = replace(a, "&lt;"@, "<"@);
    lemma_replace_prefix(a, "&lt;"@, "<"@, p);
    let c = replace(b, "&gt;"@, ">"@);
    lemma_replace_prefix(b, "&gt;"@, ">"@, p);
    let d = replace(c, "&quot;"@, "\""@);
    lemma_replace_prefix(c, "&quot;"@, "\""@, p);
    let e = replace(d, "&#39;"@, "'"@);
    lemma_replace_prefix(d, "&#39;"@, "'"@, p);
    lemma_replace_prefix(e, "&#x27;"@, "'"@, p);
    let f = decoded(s);
    assert(p[0] == 'm' || p[0] == 'h');
    assert(p.last() == ':' || p.last() == 'p');
    lemma_trim_both_prefix(f, CharClass::Space, p);
    lemma_trim_both_prefix(trim(f), CharClass::Quote, p);
    lemma_trim_end_prefix(trim_both(trim(f), CharClass::Quote), CharClass::Closing, p);
}

/// Whether a link has the beginning that its pattern asks for.
pub open spec fn begins_right(pattern: Seq<char>, run: Seq<char>) -> bool {
    if pattern == MAGNET_PATTERN@ {
        "magnet:"@.is_prefix_of(run)
    } else {
        "http"@.is_prefix_of(run)
    }
}

/// Every link that is found in a text has the beginning that its pattern asks for.
pub proof fn lemma_links_begin(pattern: Seq<char>, s: Seq<char>)
    ensures
        forall|i: int|
            0 <= i < link_runs(pattern, s).len() ==> begins_right(
                pattern,
                #[trigger] link_runs(pattern, s)[i],
            ),
    decreases s.len(),
{
    if s.len() > 0 {
        let head = link_head(pattern, s);
        let run = link_run(s.skip(head));
        let all = link_runs(pattern, s);
        if head > 0 && run > 0 && head + run <= s.len() {
            let first = s.take(head + run);
            let rest = link_runs(pattern, s.skip(head + run));
            lemma_links_begin(pattern, s.skip(head + run));
            reveal_strlit("magnet:");
            reveal_strlit("magnet:?");
            reveal_strlit("http");
            reveal_strlit("http://");
            reveal_strlit("https://");
            if pattern == MAGNET_PATTERN@ {
                assert("magnet:"@ =~= "magnet:?"@.take(7));
                assert("magnet:"@ =~= first.take(7)) by {
                    assert(s.take(8) =~= "magnet:?"@);
                    assert(first.take(7) =~= s.take(8).take(7));
                }
            } else {
                assert("http"@ =~= first.take(4)) by {
                    if "http://"@.is_prefix_of(s) {
                        assert(s.take(7) =~= "http://"@);
                        assert(first.take(4) =~= s.take(7).take(4));
                    } else {
                        assert(s.take(8) =~= "https://"@);
                        assert(first.take(4) =~= s.take(8).take(4));
                    }
                }
            }
            assert(begins_right(pattern, first));
            assert forall|i: int| 0 <= i < all.len() implies begins_right(
                pattern,
                #[trigger] all[i],
            ) by {
                if i > 0 {
                    assert(all[i] == rest[i - 1]);
                } else {
                    assert(all[0] == first);
                }
            }
        } else {
            let rest = link_runs(pattern, s.skip(1));
            lemma_links_begin(pattern, s.skip(1));
            assert(all == rest);
            assert forall|i: int| 0 <= i < all.len() implies begins_right(
                pattern,
                #[trigger] all[i],
            ) by {
                assert(all[i] == rest[i]);
            }
        }
    }
}

proof fn lemma_first_torrent(runs: Seq<Seq<char>>)
    requires
        forall|i: int| 0 <= i < runs.len() ==> "http"@.is_prefix_of(#[trigger] runs[i]),
    ensures
        first_torrent(runs) matches Some(url) ==> "http"@.is_prefix_of(url),
    decreases runs.len(),
{
    if runs.len() > 0 {
        assert("http"@.is_prefix_of(runs[0]));
        lemma_normalized_prefix(runs[0], "http"@);
        let text = normalized(runs[0]);
        reveal_strlit("http");
        reveal_strlit("magnet:");
        assert("http"@ =~= text.take(4));
        assert(text.take(4)[0] == text[0]);
        if "magnet:"@.is_prefix_of(text) {
            assert("magnet:"@ =~= text.take(7));
            assert(text.take(7)[0] == text[0]);
        }
        assert(resolved(runs[0], None) == text);
        let rest = runs.skip(1);
        assert forall|i: int| 0 <= i < rest.len() implies "http"@.is_prefix_of(
            #[trigger] rest[i],
        ) by {
            assert(rest[i] == runs[i + 1]);
        }
        lemma_first_torrent(rest);
    }
}

proof fn lemma_blobs_loadable(blobs: Seq<Seq<char>>)
    ensures
        magnet_in_blobs(blobs).len() > 0 ==> is_loadable(magnet_in_blobs(blobs)),
        torrent_in_blobs(blobs).len() > 0 ==> is_loadable(torrent_in_blobs(blobs)),
    decreases blobs.len(),
{
    if blobs.len() > 0 {
        lemma_blobs_loadable(blobs.skip(1));
        let text = decoded(blobs[0]);
        let magnets = link_runs(MAGNET_PATTERN@, text);
        lemma_links_begin(MAGNET_PATTERN@, text);
        if magnets.len() > 0 {
            assert(begins_right(MAGNET_PATTERN@, magnets[0]));
            lemma_normalized_prefix(magnets[0], "magnet:"@);
        }
        let urls = link_runs(URL_PATTERN@, text);
        lemma_links_begin(URL_PATTERN@, text);
        assert(URL_PATTERN@ != MAGNET_PATTERN@) by {
            reveal_strlit("magnet:\\?[^\\s\"'<>]+");
            reveal_strlit("https?://[^\\s\"'<>]+");
            assert(URL_PATTERN@[0] == 'h');
            assert(MAGNET_PATTERN@[0] == 'm');
        }
        assert forall|i: int| 0 <= i < urls.len() implies "http"@.is_prefix_of(
            #[trigger] urls[i],
        ) by {
            assert(begins_right(URL_PATTERN@, urls[i]));
        }
        lemma_first_torrent(urls);
    }
}

proof fn lemma_links_loadable(links: Seq<LinkView>)
    ensures
        offered_by_links(links).len() > 0 ==> is_loadable(offered_by_links(links)),
    decreases links.len(),
{
    if links.len() > 0 {
        lemma_links_loadable(links.drop_last());
        let last = links.last();
        if "magnet:"@.is_prefix_of(last.url) {
            lemma_normalized_prefix(last.url, "magnet:"@);
        }
    }
}

/// An item that can be loaded has a magnet link or a web address to load from.
pub proof fn law_item_is_loadable(item: PartialView)
    ensures
        finalized(item) matches Some(parsed) ==> parsed.load_url.len() > 0 && is_loadable(
            parsed.load_url,
        ),
{
    lemma_links_loadable(item.links);
    lemma_blobs_loadable(item.blobs);
}

/// Whether every item has a magnet link or a web address to load from.
pub open spec fn all_loadable(items: Seq<ParsedView>) -> bool {
    forall|i: int| 0 <= i < items.len() ==> is_loadable((#[trigger] items[i]).load_url)
}

proof fn lemma_event_loadable(state: FeedView, base: Option<Seq<char>>, event: XmlEventView)
    requires
        all_loadable(state.items),
    ensures
        all_loadable(after_event(state, base, event).items),
{
    if let XmlEventView::End(name) = event {
        let taken = match state.capture {
            Some(c) => if c.depth == state.depth {
                after_capture(state, base)
            } else {
                state
            },
            None => state,
        };
        assert(taken.items == state.items);
        if let Some(item) = taken.item {
            law_item_is_loadable(item);
        }
    }
}

proof fn lemma_events_loadable(
    state: FeedView,
    base: Option<Seq<char>>,
    events: Seq<XmlEventView>,
)
    requires
        all_loadable(state.items),
    ensures
        after_events(state, base, events) matches Ok(end) ==> all_loadable(end.items),
    decreases events.len(),
{
    if events.len() > 0 {
        lemma_event_loadable(state, base, events[0]);
        lemma_events_loadable(after_event(state, base, events[0]), base, events.skip(1));
    }
}

/// Every item of a feed has a magnet link or a web address to load from, whatever the
/// document holds.
pub proof fn law_feed_is_loadable(source_url: Seq<char>, events: Seq<XmlEventView>)
    ensures
        feed_of(source_url, events) matches Ok((title, items)) ==> all_loadable(items),
{
    lemma_events_loadable(feed_start(), Some(source_url), events);
}

/// Whether all that a refresh may yet load is a magnet link or a web address.
pub open spec fn loadable_run(run: RunView) -> bool {
    &&& forall|i: int|
        0 <= i < run.todo.len() ==> ((#[trigger] run.todo[i]).result matches Ok((title, items))
            ==> all_loadable(items))
    &&& run.open matches Some(open) ==> all_loadable(open.rest)
}

/// A refresh of such feeds asks for nothing but magnet links and web addresses, however
/// far it goes on.
pub proof fn law_refresh_is_loadable(run: RunView)
    requires
        loadable_run(run),
    ensures
        loadable_run(settled(run)),
        wanted_load(settled(run)) matches Some(url) ==> is_loadable(url),
    decreases run.todo.len(), open_weight(run.open),
{
    match run.open {
        Some(open) => {
            if open.rest.len() == 0 {
                law_refresh_is_loadable(closed_feed(run, open));
            } else if loads_next(run, open) {
                assert(is_loadable(open.rest[0].load_url));
            } else {
                law_taken_is_loadable(run, open, None);
                law_refresh_is_loadable(taken(run, open, None));
            }
        },
        None => {
            if run.todo.len() > 0 {
                let next = begun(run);
                assert(run.todo[0].result matches Ok((title, items)) ==> all_loadable(items));
                assert forall|i: int| 0 <= i < next.todo.len() implies ((
                #[trigger] next.todo[i]).result matches Ok((title, items)) ==> all_loadable(
                    items,
                )) by {
                    assert(next.todo[i] == run.todo[i + 1]);
                }
                law_refresh_is_loadable(next);
            }
        },
    }
}

/// Taking an item leaves nothing else to be loaded, whatever came of loading it.
pub proof fn law_taken_is_loadable(
    run: RunView,
    open: OpenView,
    answer: Option<Result<(), Seq<char>>>,
)
    requires
        loadable_run(run),
        run.open == Some(open),
        open.rest.len() > 0,
    ensures
        loadable_run(taken(run, open, answer)),
{
    let rest = open.rest.skip(1);
    assert forall|i: int| 0 <= i < rest.len() implies is_loadable(
        (#[trigger] rest[i]).load_url,
    ) by {
        assert(rest[i] == open.rest[i + 1]);
    }
    let next = taken(run, open, answer);
    assert forall|i: int| 0 <= i < next.todo.len() implies ((
    #[trigger] next.todo[i]).result matches Ok((title, items)) ==> all_loadable(items)) by {
        assert(next.todo[i] == run.todo[i]);
    }
}

} // verus!
