//! What a refresh owes to every item of every feed.
use vstd::prelude::*;

use crate::common::{item_before, law_item_order, RssItem, RssItemView};
use crate::order::{
    law_sort_is_ordered, law_sort_is_permutation, lemma_sort_contains, rank_of, stable_sorted,
};
use crate::rss::item::{key_of, ParsedView};
use crate::rss::item_laws::law_identity_shows_the_hash;
use crate::rss::known::{knows, law_remembered, time_of};
use crate::rss::laws::{
    keeps, law_failed_feed, law_settled, law_taken, law_with_feed, lemma_closed_feed, sound_run,
};
use crate::rss::service::{
    answer_view, begun, closed_feed, feed_at, loads_next, open_weight, refreshed, retained,
    settled, taken, wanted_load, with_feed, FetchedFeed, FetchedView, OpenView, RunView,
};
use crate::rss::state::{snapshot_of, EntryView, KeptFeedView, RSS_MAX_ITEMS_PER_FEED};
use crate::text::join;

verus! {

/// Whether an item of the feed at `url` is known to a refresh: it was seen, it was loaded, or
/// its torrent is there.
pub open spec fn is_known(run: RunView, url: Seq<char>, item: ParsedView) -> bool {
    ||| knows(run.working.seen_items, key_of(url, item))
    ||| knows(run.working.loaded_items, key_of(url, item))
    ||| item.info_hash is Some && run.existing.contains(item.info_hash.unwrap())
}

/// Whether what was fetched is a feed at `url` that holds an item.
pub open spec fn brings(fetched: FetchedView, url: Seq<char>, item: ParsedView) -> bool {
    fetched.url == url && (fetched.result matches Ok((title, items)) && items.contains(item))
}

/// Whether an item of the feed at `url` is yet to come in a refresh.
pub open spec fn is_ahead(run: RunView, url: Seq<char>, item: ParsedView) -> bool {
    ||| run.open is Some && run.open.unwrap().url == url && run.open.unwrap().rest.contains(item)
    ||| exists|i: int|
        0 <= i < run.todo.len() && brings(#[trigger] run.todo[i], url, item)
}

/// Once the state is initialized, a refresh waits for the next item of the feed that it goes
/// through exactly if that item is not known, however many feeds are still to come, and what
/// it asks for is what the item is loaded from.
pub proof fn law_new_item_is_asked_for(run: RunView, open: OpenView)
    requires
        run.open == Some(open),
        open.rest.len() > 0,
    ensures
        run.working.initialized && !is_known(run, open.url, open.rest[0]) ==> wanted_load(run)
            == Some(open.rest[0].load_url) && settled(run) == run,
        !run.working.initialized || is_known(run, open.url, open.rest[0]) ==> wanted_load(run)
            is None && settled(run) == settled(taken(run, open, None)),
{
}

/// Taking an item puts it, with all that was read of it, behind those of its feed that were
/// taken before, and leaves those behind it for later. It is new if the state is initialized
/// and it was not seen, and loaded if it counted as loaded or was loaded now.
pub proof fn law_taken_is_listed(
    run: RunView,
    open: OpenView,
    answer: Option<Result<(), Seq<char>>>,
)
    requires
        open.rest.len() > 0,
    ensures
        taken(run, open, answer).open matches Some(next) && {
            let item = open.rest[0];
            let shown = next.done.last();
            &&& next.url == open.url
            &&& next.title == open.title
            &&& next.done.len() == open.done.len() + 1
            &&& forall|k: int| 0 <= k < open.done.len() ==> #[trigger] next.done[k] == open.done[k]
            &&& next.rest == open.rest.skip(1)
            &&& describes(open.url, open.title, item, shown)
            &&& shown.is_new <==> run.working.initialized && !knows(
                run.working.seen_items,
                key_of(open.url, item),
            )
            &&& shown.loaded <==> {
                ||| knows(run.working.loaded_items, key_of(open.url, item))
                ||| item.info_hash is Some && run.existing.contains(item.info_hash.unwrap())
                ||| answer is Some && answer.unwrap() is Ok
            }
        },
        taken(run, open, answer).todo == run.todo,
        taken(run, open, answer).now == run.now,
        taken(run, open, answer).any_success == run.any_success,
        taken(run, open, answer).before == run.before,
{
}

/// Whether a listed item is the item of the feed at `url` with the title `title`.
pub open spec fn describes(
    url: Seq<char>,
    title: Seq<char>,
    item: ParsedView,
    shown: RssItemView,
) -> bool {
    &&& shown.id == key_of(url, item)
    &&& shown.title == item.title
    &&& shown.link == item.link
    &&& shown.load_url == item.load_url
    &&& shown.published == item.published
    &&& shown.published_ts == item.published_ts
    &&& shown.source_url == url
    &&& title.len() > 0 ==> shown.source_title == title
    &&& title.len() == 0 ==> shown.source_title == url
}

/// What came of loading an item is remembered: a success counts as loaded and seen now, and
/// its torrent as being there; a failure is told with the feed and the item, and nothing else
/// changes. An item that was not asked for is remembered as seen, and as loaded where it
/// counts as loaded.
pub proof fn law_answer_is_remembered(
    run: RunView,
    open: OpenView,
    answer: Option<Result<(), Seq<char>>>,
)
    requires
        sound_run(run),
        run.open == Some(open),
        open.rest.len() > 0,
        answer is Some <==> wanted_load(run) is Some,
    ensures
        ({
            let item = open.rest[0];
            let id = key_of(open.url, item);
            let next = taken(run, open, answer);
            match answer {
                Some(Ok(_)) => {
                    &&& time_of(next.working.loaded_items, id) == Some(run.now)
                    &&& time_of(next.working.seen_items, id) == Some(run.now)
                    &&& item.info_hash matches Some(hash) ==> next.existing.contains(hash)
                    &&& next.errors == run.errors
                    &&& is_known(next, open.url, item)
                },
                Some(Err(error)) => {
                    &&& next.working.loaded_items == run.working.loaded_items
                    &&& next.working.seen_items == run.working.seen_items
                    &&& next.existing == run.existing
                    &&& next.errors == run.errors.push(
                        open.url + ": failed to load '"@ + item.title + "' ("@ + error + ")"@,
                    )
                    &&& !is_known(next, open.url, item)
                },
                None => {
                    &&& time_of(next.working.seen_items, id) == Some(run.now)
                    &&& next.existing == run.existing
                    &&& next.errors == run.errors
                    &&& knows(run.working.loaded_items, id) || (item.info_hash is Some
                        && run.existing.contains(item.info_hash.unwrap())) ==> time_of(
                        next.working.loaded_items,
                        id,
                    ) == Some(run.now)
                    &&& !knows(run.working.loaded_items, id) && !(item.info_hash is Some
                        && run.existing.contains(item.info_hash.unwrap()))
                        ==> next.working.loaded_items == run.working.loaded_items
                },
            }
        }),
        forall|other: Seq<char>|
            other != key_of(open.url, open.rest[0]) ==> #[trigger] time_of(
                taken(run, open, answer).working.seen_items,
                other,
            ) == time_of(run.working.seen_items, other),
        forall|other: Seq<char>|
            other != key_of(open.url, open.rest[0]) ==> #[trigger] time_of(
                taken(run, open, answer).working.loaded_items,
                other,
            ) == time_of(run.working.loaded_items, other),
{
    let item = open.rest[0];
    let id = key_of(open.url, item);
    law_remembered(run.working.seen_items, id, run.now);
    law_remembered(run.working.loaded_items, id, run.now);
    if let Some(hash) = item.info_hash {
        let more = run.existing.push(hash);
        assert(more[run.existing.len() as int] == hash);
    }
}

/// A feed is kept with the first of its items in the order of the list: all of them where
/// they are not too many, else none that would stand before one that was kept. Of the other
/// feeds nothing changes.
pub proof fn law_closed_feed_is_kept(run: RunView, open: OpenView)
    requires
        sound_run(run),
    ensures
        ({
            let kept = feed_at(closed_feed(run, open).working.feeds, open.url);
            &&& kept.title == open.title
            &&& kept.last_updated == run.now
            &&& kept.last_error == ""@
            &&& kept.items.len() == (if open.done.len() <= RSS_MAX_ITEMS_PER_FEED {
                open.done.len()
            } else {
                RSS_MAX_ITEMS_PER_FEED as nat
            })
            &&& forall|i: int, j: int|
                0 <= i < j < kept.items.len() ==> !item_before(
                    #[trigger] kept.items[j],
                    #[trigger] kept.items[i],
                )
            &&& forall|i: int|
                0 <= i < kept.items.len() ==> open.done.contains(#[trigger] kept.items[i])
            &&& forall|x: RssItemView, i: int|
                #![trigger open.done.contains(x), kept.items[i]]
                open.done.contains(x) && 0 <= i < kept.items.len() ==> kept.items.contains(x)
                    || !item_before(x, kept.items[i])
            &&& open.done.len() <= RSS_MAX_ITEMS_PER_FEED ==> forall|x: RssItemView|
                open.done.contains(x) ==> #[trigger] kept.items.contains(x)
        }),
        forall|other: Seq<char>|
            other != open.url ==> #[trigger] feed_at(
                closed_feed(run, open).working.feeds,
                other,
            ) == feed_at(run.working.feeds, other),
        closed_feed(run, open).open is None,
        closed_feed(run, open).todo == run.todo,
        closed_feed(run, open).errors == run.errors,
        closed_feed(run, open).working.seen_items == run.working.seen_items,
        closed_feed(run, open).working.loaded_items == run.working.loaded_items,
        closed_feed(run, open).working.initialized == run.working.initialized,
{
    let before = rank_of::<RssItem>();
    let sorted = stable_sorted(open.done, before);
    let next = closed_feed(run, open).working.feeds;
    let limit = RSS_MAX_ITEMS_PER_FEED as int;
    law_sort_is_permutation(open.done, before);
    law_item_order();
    law_sort_is_ordered(open.done, before);
    let items = if sorted.len() <= limit {
        sorted
    } else {
        sorted.take(limit)
    };
    let feed = KeptFeedView { title: open.title, items, last_updated: run.now, last_error: ""@ };
    law_with_feed(run.working.feeds, open.url, feed);
    let kept = feed_at(next, open.url);
    assert(kept == feed);
    assert forall|i: int, j: int| 0 <= i < j < kept.items.len() implies !item_before(
        #[trigger] kept.items[j],
        #[trigger] kept.items[i],
    ) by {
        assert(kept.items[i] == sorted[i] && kept.items[j] == sorted[j]);
        assert(!before(sorted[j], sorted[i]));
    }
    assert forall|i: int| 0 <= i < kept.items.len() implies open.done.contains(
        #[trigger] kept.items[i],
    ) by {
        assert(kept.items[i] == sorted[i]);
        lemma_sort_contains(open.done, before, sorted[i]);
    }
    assert forall|x: RssItemView, i: int|
        #![trigger open.done.contains(x), kept.items[i]]
        open.done.contains(x) && 0 <= i < kept.items.len() implies kept.items.contains(x)
        || !item_before(x, kept.items[i]) by {
        lemma_sort_contains(open.done, before, x);
        let k = choose|k: int| 0 <= k < sorted.len() && sorted[k] == x;
        assert(kept.items[i] == sorted[i]);
        if k < kept.items.len() {
            assert(kept.items[k] == x);
        } else {
            assert(!before(sorted[k], sorted[i]));
        }
    }
    if open.done.len() <= RSS_MAX_ITEMS_PER_FEED {
        assert forall|x: RssItemView| open.done.contains(x) implies #[trigger] kept.items.contains(
            x,
        ) by {
            lemma_sort_contains(open.done, before, x);
        }
    }
}

/// Going on with an item that is not asked for makes no other item known.
proof fn lemma_passing_makes_nothing_known(
    run: RunView,
    open: OpenView,
    url: Seq<char>,
    item: ParsedView,
)
    requires
        sound_run(run),
        run.working.initialized,
        run.open == Some(open),
        open.rest.len() > 0,
        wanted_load(run) is None,
        is_known(taken(run, open, None), url, item),
    ensures
        is_known(run, url, item),
        is_known(run, open.url, open.rest[0]),
{
    let id = key_of(open.url, open.rest[0]);
    law_remembered(run.working.seen_items, id, run.now);
    law_remembered(run.working.loaded_items, id, run.now);
    if key_of(url, item) == id && open.rest[0].info_hash is Some {
        law_identity_shows_the_hash(open.url, url, open.rest[0], item);
    }
}

proof fn lemma_taken_ahead(
    run: RunView,
    open: OpenView,
    answer: Option<Result<(), Seq<char>>>,
    url: Seq<char>,
    item: ParsedView,
)
    requires
        run.open == Some(open),
        open.rest.len() > 0,
        is_ahead(run, url, item),
    ensures
        is_ahead(taken(run, open, answer), url, item) || (url == open.url && item == open.rest[0]),
{
    let next = taken(run, open, answer);
    if open.url == url && open.rest.contains(item) {
        let k = choose|k: int| 0 <= k < open.rest.len() && open.rest[k] == item;
        if k > 0 {
            assert(open.rest.skip(1)[k - 1] == item);
        }
    } else {
        let i = choose|i: int|
            0 <= i < run.todo.len() && brings(#[trigger] run.todo[i], url, item);
        assert(next.todo[i] == run.todo[i]);
    }
}

proof fn lemma_begun_ahead(run: RunView, url: Seq<char>, item: ParsedView)
    requires
        run.open is None,
        run.todo.len() > 0,
        is_ahead(run, url, item),
    ensures
        is_ahead(begun(run), url, item),
{
    let next = begun(run);
    let i = choose|i: int|
        0 <= i < run.todo.len() && brings(#[trigger] run.todo[i], url, item);
    if i > 0 {
        assert(next.todo[i - 1] == run.todo[i]);
    }
}

proof fn lemma_closed_ahead(run: RunView, open: OpenView, url: Seq<char>, item: ParsedView)
    requires
        run.open == Some(open),
        open.rest.len() == 0,
        is_ahead(run, url, item),
    ensures
        is_ahead(closed_feed(run, open), url, item),
{
    let next = closed_feed(run, open);
    let i = choose|i: int|
        0 <= i < run.todo.len() && brings(#[trigger] run.todo[i], url, item);
    assert(next.todo[i] == run.todo[i]);
}

/// A refresh of an initialized state that ends without asking for anything passed by nothing
/// new: every item of every feed that it went through was known before. So an item that is
/// not known, in whichever feed, makes the refresh ask for something.
pub proof fn law_nothing_new_is_passed_by(run: RunView, url: Seq<char>, item: ParsedView)
    requires
        sound_run(run),
        run.working.initialized,
        is_ahead(run, url, item),
    ensures
        wanted_load(settled(run)) is None ==> is_known(run, url, item),
        !is_known(run, url, item) ==> wanted_load(settled(run)) is Some,
    decreases run.todo.len(), open_weight(run.open),
{
    match run.open {
        Some(open) => {
            if open.rest.len() == 0 {
                lemma_closed_feed(run, open);
                lemma_closed_ahead(run, open, url, item);
                law_nothing_new_is_passed_by(closed_feed(run, open), url, item);
            } else if wanted_load(run) is None {
                let next = taken(run, open, None);
                law_taken(run, open, None);
                lemma_taken_ahead(run, open, None, url, item);
                if is_ahead(next, url, item) {
                    law_nothing_new_is_passed_by(next, url, item);
                    if is_known(next, url, item) {
                        lemma_passing_makes_nothing_known(run, open, url, item);
                    }
                }
            }
        },
        None => {
            if run.todo.len() > 0 {
                if run.todo[0].result is Err {
                    law_failed_feed(run);
                }
                lemma_begun_ahead(run, url, item);
                law_nothing_new_is_passed_by(begun(run), url, item);
            }
        },
    }
}

/// A refresh that ends has taken note of every item of every feed that was read: each is
/// remembered as seen.
pub proof fn law_every_item_is_noted(run: RunView, url: Seq<char>, item: ParsedView)
    requires
        sound_run(run),
        is_ahead(run, url, item),
        wanted_load(settled(run)) is None,
    ensures
        knows(settled(run).working.seen_items, key_of(url, item)),
    decreases run.todo.len(), open_weight(run.open),
{
    match run.open {
        Some(open) => {
            if open.rest.len() == 0 {
                lemma_closed_feed(run, open);
                lemma_closed_ahead(run, open, url, item);
                law_every_item_is_noted(closed_feed(run, open), url, item);
            } else {
                let next = taken(run, open, None);
                law_taken(run, open, None);
                lemma_taken_ahead(run, open, None, url, item);
                if is_ahead(next, url, item) {
                    law_every_item_is_noted(next, url, item);
                } else {
                    law_remembered(
                        run.working.seen_items,
                        key_of(open.url, open.rest[0]),
                        run.now,
                    );
                    law_settled(next);
                    assert(knows(next.working.seen_items, key_of(url, item)));
                }
            }
        },
        None => {
            if run.todo.len() > 0 {
                if run.todo[0].result is Err {
                    law_failed_feed(run);
                }
                lemma_begun_ahead(run, url, item);
                law_every_item_is_noted(begun(run), url, item);
            }
        },
    }
}

/// A refresh tells of every feed that could not be read, and forgets no error that was noted
/// before; it has succeeded as soon as one feed could be read.
pub proof fn law_every_feed_counts(run: RunView, i: int)
    requires
        sound_run(run),
        0 <= i < run.todo.len(),
        wanted_load(settled(run)) is None,
    ensures
        run.todo[i].result matches Err(error) ==> settled(run).errors.contains(
            run.todo[i].url + ": "@ + error,
        ),
        run.todo[i].result is Ok ==> settled(run).any_success,
    decreases run.todo.len(), open_weight(run.open),
{
    match run.open {
        Some(open) => {
            if open.rest.len() == 0 {
                lemma_closed_feed(run, open);
                law_every_feed_counts(closed_feed(run, open), i);
            } else {
                law_taken(run, open, None);
                law_every_feed_counts(taken(run, open, None), i);
            }
        },
        None => {
            let next = begun(run);
            if run.todo[0].result is Err {
                law_failed_feed(run);
            }
            if i > 0 {
                assert(next.todo[i - 1] == run.todo[i]);
                law_every_feed_counts(next, i - 1);
            } else {
                law_errors_stay(next);
                if let Err(error) = run.todo[0].result {
                    let told = run.todo[0].url + ": "@ + error;
                    let at = run.errors.len() as int;
                    assert(next.errors[at] == told);
                    assert(settled(next).errors[at] == told);
                }
            }
        },
    }
}

/// Going on forgets no error and no success, and changes neither the time of the refresh nor
/// what was shown before it.
pub proof fn law_errors_stay(run: RunView)
    requires
        sound_run(run),
    ensures
        run.errors.len() <= settled(run).errors.len(),
        forall|k: int| 0 <= k < run.errors.len() ==> #[trigger] settled(run).errors[k]
            == run.errors[k],
        run.any_success ==> settled(run).any_success,
        settled(run).now == run.now,
        settled(run).before == run.before,
    decreases run.todo.len(), open_weight(run.open),
{
    match run.open {
        Some(open) => {
            if open.rest.len() == 0 {
                lemma_closed_feed(run, open);
                law_errors_stay(closed_feed(run, open));
            } else if !loads_next(run, open) {
                law_taken(run, open, None);
                law_errors_stay(taken(run, open, None));
            }
        },
        None => {
            if run.todo.len() > 0 {
                if run.todo[0].result is Err {
                    law_failed_feed(run);
                }
                law_errors_stay(begun(run));
                assert forall|k: int| 0 <= k < run.errors.len() implies
                    #[trigger] settled(run).errors[k] == run.errors[k] by {
                    assert(settled(begun(run)).errors[k] == begun(run).errors[k]);
                }
            }
        },
    }
}

/// What a finished refresh leaves: it is dated now if a feed could be read, and as before if
/// none could; its error is that of all that went wrong; and of every feed of the settings it
/// keeps just what the refresh kept.
pub proof fn law_refreshed_state(run: RunView, urls: Seq<Seq<char>>, url: Seq<char>)
    requires
        sound_run(run),
    ensures
        run.any_success ==> refreshed(run, urls).last_updated == run.now,
        !run.any_success ==> refreshed(run, urls).last_updated == run.working.last_updated,
        refreshed(run, urls).last_error == join(run.errors, "\n"@),
        run.errors.len() == 0 ==> refreshed(run, urls).last_error.len() == 0,
        run.errors.len() == 1 ==> refreshed(run, urls).last_error == run.errors[0],
        urls.contains(url) ==> feed_at(refreshed(run, urls).feeds, url) == feed_at(
            run.working.feeds,
            url,
        ),
{
    if urls.contains(url) {
        lemma_retained_feed(run.working.feeds, urls, url);
    }
    if run.errors.len() == 1 {
        reveal_with_fuel(join, 2);
        assert(join(run.errors, "\n"@) =~= run.errors[0]);
    }
}

proof fn lemma_feed_at_push(feeds: Seq<EntryView>, entry: EntryView, url: Seq<char>)
    ensures
        feed_at(feeds.push(entry), url) == (if keeps(feeds, url) {
            feed_at(feeds, url)
        } else if entry.url == url {
            entry.feed
        } else {
            feed_at(feeds, url)
        }),
    decreases feeds.len(),
{
    let all = feeds.push(entry);
    if feeds.len() == 0 {
        assert(all.skip(1) =~= feeds);
        assert(all[0] == entry);
        assert(!keeps(feeds, url));
    } else {
        let rest = feeds.skip(1);
        assert(all.skip(1) =~= rest.push(entry));
        assert(all[0] == feeds[0]);
        lemma_feed_at_push(rest, entry, url);
        if feeds[0].url == url {
            assert(keeps(feeds, url));
        } else {
            if keeps(feeds, url) {
                let k = choose|k: int| 0 <= k < feeds.len() && (#[trigger] feeds[k]).url == url;
                assert(rest[k - 1].url == url);
            }
            if keeps(rest, url) {
                let k = choose|k: int| 0 <= k < rest.len() && (#[trigger] rest[k]).url == url;
                assert(feeds[k + 1].url == url);
            }
        }
    }
}

proof fn lemma_retained_feed(feeds: Seq<EntryView>, urls: Seq<Seq<char>>, url: Seq<char>)
    requires
        urls.contains(url),
    ensures
        feed_at(retained(feeds, urls), url) == feed_at(feeds, url),
        keeps(retained(feeds, urls), url) == keeps(feeds, url),
    decreases feeds.len(),
{
    if feeds.len() > 0 {
        let front = feeds.drop_last();
        let last = feeds.last();
        let kept = retained(front, urls);
        lemma_retained_feed(front, urls, url);
        assert(front.push(last) =~= feeds);
        lemma_feed_at_push(front, last, url);
        lemma_feed_at_push(kept, last, url);
        assert(keeps(feeds, url) <==> keeps(front, url) || last.url == url) by {
            if keeps(feeds, url) {
                let k = choose|k: int| 0 <= k < feeds.len() && (#[trigger] feeds[k]).url == url;
                if k < front.len() {
                    assert(front[k].url == url);
                }
            }
            if keeps(front, url) {
                let k = choose|k: int| 0 <= k < front.len() && (#[trigger] front[k]).url == url;
                assert(feeds[k].url == url);
            }
            assert(feeds[feeds.len() - 1] == last);
        }
        if urls.contains(last.url) {
            let all = kept.push(last);
            assert(keeps(all, url) <==> keeps(kept, url) || last.url == url) by {
                if keeps(all, url) {
                    let k = choose|k: int| 0 <= k < all.len() && (#[trigger] all[k]).url == url;
                    if k < kept.len() {
                        assert(kept[k].url == url);
                    }
                }
                if keeps(kept, url) {
                    let k = choose|k: int| 0 <= k < kept.len() && (#[trigger] kept[k]).url == url;
                    assert(all[k].url == url);
                }
                assert(all[kept.len() as int] == last);
            }
        }
    }
}

/// Whether listed items are those of a feed, one for one and in its order.
pub open spec fn lists(
    url: Seq<char>,
    title: Seq<char>,
    items: Seq<ParsedView>,
    shown: Seq<RssItemView>,
) -> bool {
    &&& shown.len() == items.len()
    &&& forall|k: int|
        0 <= k < items.len() ==> describes(url, title, #[trigger] items[k], shown[k])
}

/// Where nothing is asked for, going on takes all items of the open feed and closes it.
proof fn lemma_open_is_done(run: RunView, open: OpenView, items: Seq<ParsedView>) -> (last: (
    RunView,
    OpenView,
))
    requires
        sound_run(run),
        run.open == Some(open),
        open.done.len() + open.rest.len() == items.len(),
        open.rest == items.skip(open.done.len() as int),
        lists(open.url, open.title, items.take(open.done.len() as int), open.done),
        wanted_load(settled(run)) is None,
    ensures
        sound_run(last.0),
        last.0.open == Some(last.1),
        last.0.todo == run.todo,
        last.0.now == run.now,
        last.0.working.feeds == run.working.feeds,
        last.1.url == open.url,
        last.1.title == open.title,
        last.1.rest.len() == 0,
        lists(open.url, open.title, items, last.1.done),
        settled(run) == settled(closed_feed(last.0, last.1)),
    decreases open.rest.len(),
{
    let n = open.done.len() as int;
    if open.rest.len() == 0 {
        assert(items.take(n) =~= items);
        (run, open)
    } else {
        let next = taken(run, open, None);
        let more = next.open.unwrap();
        law_taken(run, open, None);
        law_taken_is_listed(run, open, None);
        assert(open.rest[0] == items[n]);
        assert(more.rest =~= items.skip(n + 1));
        assert forall|k: int| 0 <= k < items.take(n + 1).len() implies describes(
            open.url,
            open.title,
            #[trigger] items.take(n + 1)[k],
            more.done[k],
        ) by {
            if k < n {
                assert(items.take(n)[k] == items[k]);
                assert(more.done[k] == open.done[k]);
            }
        }
        lemma_open_is_done(next, more, items)
    }
}

/// Whether the feed that a refresh was given for `url` is the one at `i`: no later one is
/// at the same address.
pub open spec fn is_last_for(run: RunView, i: int) -> bool {
    &&& 0 <= i < run.todo.len()
    &&& forall|k: int| i < k < run.todo.len() ==> (#[trigger] run.todo[k]).url != run.todo[i].url
}

/// What is kept of a feed does not change where the refresh has nothing more for it.
proof fn lemma_feed_stays(run: RunView, url: Seq<char>)
    requires
        sound_run(run),
        run.open is Some ==> run.open.unwrap().url != url,
        forall|k: int| 0 <= k < run.todo.len() ==> (#[trigger] run.todo[k]).url != url,
    ensures
        feed_at(settled(run).working.feeds, url) == feed_at(run.working.feeds, url),
    decreases run.todo.len(), open_weight(run.open),
{
    match run.open {
        Some(open) => {
            if open.rest.len() == 0 {
                lemma_closed_feed(run, open);
                law_closed_feed_is_kept(run, open);
                lemma_feed_stays(closed_feed(run, open), url);
            } else if wanted_load(run) is None {
                law_taken(run, open, None);
                lemma_feed_stays(taken(run, open, None), url);
            }
        },
        None => {
            if run.todo.len() > 0 {
                let next = begun(run);
                if run.todo[0].result is Err {
                    law_failed_feed(run);
                }
                assert(run.todo[0].url != url);
                assert forall|k: int| 0 <= k < next.todo.len() implies (
                #[trigger] next.todo[k]).url != url by {
                    assert(next.todo[k] == run.todo[k + 1]);
                }
                lemma_feed_stays(next, url);
            }
        },
    }
}

/// Whether what is kept of the feed at `url` is what was read of it at `now`: its title, and
/// the first of its items in the order of the list, each as it was read; all of them, where
/// they are not too many.
pub open spec fn holds_feed(
    kept: KeptFeedView,
    url: Seq<char>,
    title: Seq<char>,
    items: Seq<ParsedView>,
    now: i64,
) -> bool {
    &&& kept.title == title
    &&& kept.last_updated == now
    &&& kept.last_error == ""@
    &&& kept.items.len() == (if items.len() <= RSS_MAX_ITEMS_PER_FEED {
        items.len()
    } else {
        RSS_MAX_ITEMS_PER_FEED as nat
    })
    &&& forall|i: int, j: int|
        0 <= i < j < kept.items.len() ==> !item_before(
            #[trigger] kept.items[j],
            #[trigger] kept.items[i],
        )
    &&& forall|m: int|
        0 <= m < kept.items.len() ==> exists|k: int|
            0 <= k < items.len() && describes(
                url,
                title,
                #[trigger] items[k],
                #[trigger] kept.items[m],
            )
    &&& items.len() <= RSS_MAX_ITEMS_PER_FEED ==> forall|k: int|
        0 <= k < items.len() ==> exists|m: int|
            0 <= m < kept.items.len() && describes(
                url,
                title,
                #[trigger] items[k],
                #[trigger] kept.items[m],
            )
}

/// A feed that was read is kept, once the refresh is done, with its title and with the first
/// of its items in the order of the list, each as it was read; all of them, where they are
/// not too many.
pub proof fn law_read_feed_is_kept(run: RunView, i: int, title: Seq<char>, items: Seq<ParsedView>)
    requires
        sound_run(run),
        is_last_for(run, i),
        run.todo[i].result == Ok::<(Seq<char>, Seq<ParsedView>), Seq<char>>((title, items)),
        wanted_load(settled(run)) is None,
    ensures
        holds_feed(
            feed_at(settled(run).working.feeds, run.todo[i].url),
            run.todo[i].url,
            title,
            items,
            run.now,
        ),
    decreases run.todo.len(), open_weight(run.open),
{
    let url = run.todo[i].url;
    match run.open {
        Some(open) => {
            if open.rest.len() == 0 {
                lemma_closed_feed(run, open);
                law_read_feed_is_kept(closed_feed(run, open), i, title, items);
            } else {
                law_taken(run, open, None);
                law_read_feed_is_kept(taken(run, open, None), i, title, items);
            }
        },
        None => {
            let next = begun(run);
            if run.todo[0].result is Err {
                law_failed_feed(run);
            }
            if i > 0 {
                assert(next.todo[i - 1] == run.todo[i]);
                assert forall|k: int| i - 1 < k < next.todo.len() implies (
                #[trigger] next.todo[k]).url != url by {
                    assert(next.todo[k] == run.todo[k + 1]);
                }
                law_read_feed_is_kept(next, i - 1, title, items);
            } else {
                let open = next.open.unwrap();
                assert(items.skip(0) =~= items);
                assert(items.take(0) =~= Seq::empty());
                let last = lemma_open_is_done(next, open, items);
                let end = closed_feed(last.0, last.1);
                lemma_closed_feed(last.0, last.1);
                law_closed_feed_is_kept(last.0, last.1);
                assert forall|k: int| 0 <= k < end.todo.len() implies (#[trigger] end.todo[k]).url
                    != url by {
                    assert(end.todo[k] == run.todo[k + 1]);
                }
                lemma_feed_stays(end, url);
                let kept = feed_at(end.working.feeds, url);
                let done = last.1.done;
                assert forall|m: int| 0 <= m < kept.items.len() implies exists|k: int|
                    0 <= k < items.len() && describes(
                        url,
                        title,
                        #[trigger] items[k],
                        #[trigger] kept.items[m],
                    ) by {
                    assert(done.contains(kept.items[m]));
                    let k = choose|k: int| 0 <= k < done.len() && done[k] == kept.items[m];
                    assert(describes(url, title, items[k], kept.items[m]));
                }
                if items.len() <= RSS_MAX_ITEMS_PER_FEED {
                    assert forall|k: int| 0 <= k < items.len() implies exists|m: int|
                        0 <= m < kept.items.len() && describes(
                            url,
                            title,
                            #[trigger] items[k],
                            #[trigger] kept.items[m],
                        ) by {
                        assert(done.contains(done[k]));
                        assert(kept.items.contains(done[k]));
                        let m = choose|m: int|
                            0 <= m < kept.items.len() && kept.items[m] == done[k];
                        assert(describes(url, title, items[k], kept.items[m]));
                    }
                }
            }
        },
    }
}

/// The addresses of kept feeds, in their order.
pub open spec fn urls_of(feeds: Seq<EntryView>) -> Seq<Seq<char>> {
    feeds.map_values(|e: EntryView| e.url)
}

/// A feed that is kept anew keeps its place; one that was not kept comes last.
pub proof fn law_feeds_keep_their_places(
    feeds: Seq<EntryView>,
    url: Seq<char>,
    feed: KeptFeedView,
)
    ensures
        urls_of(feeds).contains(url) ==> urls_of(with_feed(feeds, url, feed)) == urls_of(feeds),
        !urls_of(feeds).contains(url) ==> with_feed(feeds, url, feed) == feeds.push(
            EntryView { url, feed },
        ),
    decreases feeds.len(),
{
    let r = with_feed(feeds, url, feed);
    if feeds.len() == 0 {
        assert(r =~= feeds.push(EntryView { url, feed }));
    } else if feeds[0].url == url {
        assert(urls_of(feeds)[0] == url);
        assert(urls_of(r) =~= urls_of(feeds));
    } else {
        let rest = feeds.skip(1);
        law_feeds_keep_their_places(rest, url, feed);
        let inner = with_feed(rest, url, feed);
        assert(urls_of(feeds) =~= seq![feeds[0].url] + urls_of(rest));
        assert(urls_of(r) =~= seq![feeds[0].url] + urls_of(inner));
        if urls_of(feeds).contains(url) {
            let k = choose|k: int| 0 <= k < urls_of(feeds).len() && urls_of(feeds)[k] == url;
            assert(urls_of(rest)[k - 1] == url);
        } else {
            if urls_of(rest).contains(url) {
                let k = choose|k: int| 0 <= k < urls_of(rest).len() && urls_of(rest)[k] == url;
                assert(urls_of(feeds)[k + 1] == url);
            }
            assert(r =~= feeds.push(EntryView { url, feed }));
        }
    }
}

/// The mark of the latest item is the identity of the first item that is shown; where nothing
/// is shown there is no mark.
pub proof fn law_latest_is_the_first_shown(
    run: RunView,
    urls: Seq<Seq<char>>,
    feed_count: usize,
)
    requires
        sound_run(run),
    ensures
        ({
            let shown = snapshot_of(refreshed(run, urls), feed_count).items;
            &&& shown.len() > 0 ==> refreshed(run, urls).latest_guid == shown[0].id
            &&& shown.len() == 0 ==> refreshed(run, urls).latest_guid == ""@
        }),
{
}

/// What came of loading an item is a success or a failure as it was told, and so is what came
/// of a feed that was asked for.
pub proof fn law_answers_are_understood(error: String, fetched: FetchedFeed)
    ensures
        answer_view(Err(error)) == Err::<(), Seq<char>>(error@),
        answer_view(Ok(())) is Ok,
        fetched@.url == fetched.url@,
        match fetched.result {
            Ok(feed) => fetched@.result matches Ok((title, items)) && title == feed.title@
                && items.len() == feed.items@.len() && forall|i: int|
                0 <= i < items.len() ==> #[trigger] items[i] == feed.items@[i]@,
            Err(message) => fetched@.result == Err::<(Seq<char>, Seq<ParsedView>), Seq<char>>(
                message@,
            ),
        },
{
}

} // verus!
