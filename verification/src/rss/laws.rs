//! What holds of the feeds whatever is read and loaded.
use vstd::prelude::*;

use crate::common::{law_item_order, RssItem, RssItemView};
use crate::order::{
    distinct_keys, in_order, law_sort_is_ordered, law_sort_is_permutation, lemma_sort_contains,
    lemma_sort_keys, rank_of, stable_sorted,
};
use crate::rss::item::key_of;
use crate::rss::known::{knows, law_pruned, law_pruned_once, law_remembered, remembered};
use crate::rss::service::{
    begun, cleared, closed_feed, feed_at, first_id, loads_next, open_weight, refreshed, retained,
    settled, started, taken, wanted_load, with_feed, FetchedView, OpenView, RunView,
};
use crate::rss::state::{
    all_items, at_most, distinct_urls, feed_urls, first_of_each, ids_of, is_feed_url, listed,
    marked_feeds, marked_items, marked_loaded, pruned_state, snapshot_of, sound, EntryView,
    KeptFeedView, StateView, RSS_MAX_ITEMS_PER_FEED, RSS_MAX_ITEMS_TOTAL, RSS_MAX_SEEN_ITEMS,
};
use crate::text::{
    join, lemma_split_joined, lemma_split_pieces, lemma_trim, split, trim, trimmed_lines,
    without_empty,
};

verus! {

/// The identity of an item as a key.
pub open spec fn id_key() -> spec_fn(RssItemView) -> Seq<char> {
    |i: RssItemView| i.id
}

proof fn lemma_first_of_each(items: Seq<RssItemView>)
    ensures
        distinct_keys(first_of_each(items), id_key()),
        forall|i: int|
            0 <= i < first_of_each(items).len() ==> items.contains(
                #[trigger] first_of_each(items)[i],
            ),
        forall|id: Seq<char>|
            ids_of(items).contains(id) ==> #[trigger] ids_of(first_of_each(items)).contains(id),
    decreases items.len(),
{
    if items.len() > 0 {
        let front = items.drop_last();
        let last = items.last();
        let found = first_of_each(front);
        let r = first_of_each(items);
        lemma_first_of_each(front);
        assert forall|i: int| 0 <= i < r.len() implies items.contains(#[trigger] r[i]) by {
            if i < found.len() {
                assert(r[i] == found[i]);
                let k = choose|k: int| 0 <= k < front.len() && front[k] == found[i];
                assert(items[k] == r[i]);
            } else {
                assert(items[items.len() - 1] == r[i]);
            }
        }
        assert forall|i: int, j: int| 0 <= i < j < r.len() implies id_key()(#[trigger] r[i])
            != id_key()(#[trigger] r[j]) by {
            assert(r[i] == found[i]);
            if j == found.len() {
                assert(ids_of(found)[i] == r[i].id);
            } else {
                assert(r[j] == found[j]);
            }
        }
        assert forall|id: Seq<char>| ids_of(items).contains(id) implies #[trigger] ids_of(
            r,
        ).contains(id) by {
            let k = choose|k: int| 0 <= k < ids_of(items).len() && ids_of(items)[k] == id;
            if k < front.len() {
                assert(ids_of(front)[k] == id);
                assert(ids_of(found).contains(id));
                let m = choose|m: int| 0 <= m < ids_of(found).len() && ids_of(found)[m] == id;
                assert(ids_of(r)[m] == id);
            } else if ids_of(found).contains(last.id) {
            } else {
                assert(ids_of(r)[found.len() as int] == id);
            }
        }
    }
}

/// What is shown: no more than the limit, in the order of the list, no identity twice,
/// only items of the feeds, and an item for every identity in the feeds unless the limit
/// is reached.
pub proof fn law_snapshot(state: StateView, feed_count: usize)
    ensures
        snapshot_of(state, feed_count).items.len() <= RSS_MAX_ITEMS_TOTAL,
        in_order(snapshot_of(state, feed_count).items, rank_of::<RssItem>()),
        distinct_keys(snapshot_of(state, feed_count).items, id_key()),
        forall|i: int|
            0 <= i < snapshot_of(state, feed_count).items.len() ==> all_items(state.feeds).contains(
                #[trigger] snapshot_of(state, feed_count).items[i],
            ),
        snapshot_of(state, feed_count).items.len() < RSS_MAX_ITEMS_TOTAL ==> forall|id: Seq<char>|
            ids_of(all_items(state.feeds)).contains(id) ==> #[trigger] ids_of(
                snapshot_of(state, feed_count).items,
            ).contains(id),
{
    let all = all_items(state.feeds);
    let found = first_of_each(all);
    let before = rank_of::<RssItem>();
    let sorted = stable_sorted(found, before);
    let shown = snapshot_of(state, feed_count).items;
    lemma_first_of_each(all);
    law_item_order();
    law_sort_is_ordered(found, before);
    law_sort_is_permutation(found, before);
    lemma_sort_keys(found, before, id_key());
    assert forall|i: int| 0 <= i < shown.len() implies all.contains(#[trigger] shown[i]) by {
        assert(shown[i] == sorted[i]);
        assert(sorted.contains(sorted[i]));
        lemma_sort_contains(found, before, sorted[i]);
        let k = choose|k: int| 0 <= k < found.len() && found[k] == sorted[i];
        assert(all.contains(found[k]));
    }
    if shown.len() < RSS_MAX_ITEMS_TOTAL {
        assert forall|id: Seq<char>| ids_of(all).contains(id) implies #[trigger] ids_of(
            shown,
        ).contains(id) by {
            assert(ids_of(found).contains(id));
            let k = choose|k: int| 0 <= k < ids_of(found).len() && ids_of(found)[k] == id;
            assert(found.contains(found[k]));
            lemma_sort_contains(found, before, found[k]);
            let m = choose|m: int| 0 <= m < sorted.len() && sorted[m] == found[k];
            assert(ids_of(shown)[m] == id);
        }
    }
}

proof fn lemma_marked_all(feeds: Seq<EntryView>, id: Seq<char>)
    ensures
        all_items(marked_feeds(feeds, id)) == marked_items(all_items(feeds), id),
    decreases feeds.len(),
{
    let marked = marked_feeds(feeds, id);
    if feeds.len() > 0 {
        lemma_marked_all(feeds.drop_last(), id);
        assert(marked.drop_last() =~= marked_feeds(feeds.drop_last(), id));
        assert(marked_items(all_items(feeds), id) =~= marked_items(
            all_items(feeds.drop_last()),
            id,
        ) + marked_items(feeds.last().feed.items, id));
    } else {
        assert(marked =~= Seq::empty());
        assert(marked_items(all_items(feeds), id) =~= Seq::empty());
    }
}

/// Marking an item as loaded: every item with the identity is loaded and not new, every
/// other item stays as it was, and an item of a feed is remembered as seen and as loaded.
/// The state stays sound, and marking once more changes no item.
pub proof fn law_marked_loaded(state: StateView, id: Seq<char>, now: i64)
    requires
        sound(state),
    ensures
        sound(marked_loaded(state, id, now)),
        all_items(marked_loaded(state, id, now).feeds) == marked_items(all_items(state.feeds), id),
        forall|i: int|
            0 <= i < all_items(state.feeds).len() ==> ({
                let item = #[trigger] all_items(marked_loaded(state, id, now).feeds)[i];
                if all_items(state.feeds)[i].id == id {
                    item.loaded && !item.is_new && item.id == id
                } else {
                    item == all_items(state.feeds)[i]
                }
            }),
        ids_of(all_items(state.feeds)).contains(id) ==> knows(
            marked_loaded(state, id, now).loaded_items,
            id,
        ) && knows(marked_loaded(state, id, now).seen_items, id),
        marked_feeds(marked_loaded(state, id, now).feeds, id) == marked_loaded(
            state,
            id,
            now,
        ).feeds,
{
    let feeds = marked_feeds(state.feeds, id);
    lemma_marked_all(state.feeds, id);
    law_remembered(state.seen_items, id, now);
    law_remembered(state.loaded_items, id, now);
    let marked = StateView {
        feeds,
        seen_items: remembered(state.seen_items, id, now),
        loaded_items: remembered(state.loaded_items, id, now),
        ..state
    };
    lemma_pruned_sound(marked);
    assert(ids_of(all_items(feeds)) =~= ids_of(all_items(state.feeds)));
    let again = marked_feeds(feeds, id);
    assert forall|i: int| 0 <= i < feeds.len() implies #[trigger] again[i] == feeds[i] by {
        assert(again[i].feed.items =~= feeds[i].feed.items);
    }
    assert(again =~= feeds);
}

proof fn lemma_pruned_sound(state: StateView)
    requires
        sound(state),
    ensures
        sound(pruned_state(state)),
        forall|id: Seq<char>|
            #![trigger knows(pruned_state(state).seen_items, id)]
            ids_of(all_items(state.feeds)).contains(id) && knows(state.seen_items, id) ==> knows(
                pruned_state(state).seen_items,
                id,
            ),
        forall|id: Seq<char>|
            #![trigger knows(pruned_state(state).loaded_items, id)]
            ids_of(all_items(state.feeds)).contains(id) && knows(state.loaded_items, id) ==> knows(
                pruned_state(state).loaded_items,
                id,
            ),
{
    let ids = ids_of(all_items(state.feeds));
    law_pruned(state.seen_items, ids, RSS_MAX_SEEN_ITEMS as nat);
    law_pruned(state.loaded_items, ids, RSS_MAX_SEEN_ITEMS as nat);
}

/// The addresses that are asked for are the lines that are such, each once.
pub proof fn law_feed_urls(lines: Seq<Seq<char>>)
    ensures
        feed_urls(lines).no_duplicates(),
        forall|url: Seq<char>|
            #[trigger] feed_urls(lines).contains(url) <==> lines.contains(url) && is_feed_url(url),
    decreases lines.len(),
{
    if lines.len() > 0 {
        let front = lines.drop_last();
        let last = lines.last();
        law_feed_urls(front);
        let found = feed_urls(front);
        let r = feed_urls(lines);
        assert forall|url: Seq<char>| #[trigger] r.contains(url) <==> lines.contains(url)
            && is_feed_url(url) by {
            if r.contains(url) {
                let k = choose|k: int| 0 <= k < r.len() && r[k] == url;
                if k < found.len() {
                    assert(found[k] == url);
                    assert(found.contains(url));
                    let m = choose|m: int| 0 <= m < front.len() && front[m] == url;
                    assert(lines[m] == url);
                } else {
                    assert(lines[lines.len() - 1] == url);
                }
            }
            if lines.contains(url) && is_feed_url(url) {
                let m = choose|m: int| 0 <= m < lines.len() && lines[m] == url;
                if m < front.len() {
                    assert(front[m] == url);
                    assert(found.contains(url));
                }
                if found.contains(url) {
                    let k = choose|k: int| 0 <= k < found.len() && found[k] == url;
                    assert(r[k] == url);
                } else {
                    assert(r[found.len() as int] == url);
                }
            }
        }
    }
}

/// The addresses, put one to a line, are read again as the same addresses.
pub proof fn law_feed_urls_are_read_again(config: Seq<char>)
    ensures
        ({
            let urls = feed_urls(trimmed_lines(config));
            feed_urls(trimmed_lines(join(urls, seq!['\n']))) == urls
        }),
{
    let cut = |t: Seq<char>| trim(t);
    let nonempty = |t: Seq<char>| t.len() > 0;
    let pieces = split(config, '\n');
    let lines = trimmed_lines(config);
    let urls = feed_urls(lines);
    let text = join(urls, seq!['\n']);
    law_feed_urls(lines);
    lemma_split_pieces(config, '\n');
    assert forall|i: int| 0 <= i < urls.len() implies trim(#[trigger] urls[i]) == urls[i]
        && !urls[i].contains('\n') && urls[i].len() > 0 && is_feed_url(urls[i]) by {
        assert(urls.contains(urls[i]));
        pieces.map_values(cut).lemma_filter_contains_rev(nonempty, urls[i]);
        let k = choose|k: int|
            0 <= k < pieces.map_values(cut).len() && pieces.map_values(cut)[k] == urls[i];
        assert(urls[i] == trim(pieces[k]));
        assert(!pieces[k].contains('\n'));
        lemma_trim(pieces[k]);
        reveal_strlit("http://");
        reveal_strlit("https://");
    }
    if urls.len() == 0 {
        reveal(Seq::filter);
        assert(text =~= Seq::empty());
        assert(split(text, '\n') =~= seq![text]);
        assert(trim(text) == text);
        assert(split(text, '\n').map_values(cut) =~= seq![text]);
        assert(seq![text].drop_last() =~= Seq::<Seq<char>>::empty());
        assert(Seq::<Seq<char>>::empty().filter(nonempty) =~= Seq::<Seq<char>>::empty());
        assert(seq![text].filter(nonempty) =~= Seq::<Seq<char>>::empty());
        assert(trimmed_lines(text) =~= Seq::<Seq<char>>::empty());
        assert(urls =~= Seq::<Seq<char>>::empty());
    } else {
        lemma_split_joined(urls, '\n');
        assert(urls.map_values(cut) =~= urls);
        lemma_nothing_empty(urls);
        lemma_addresses_stay(urls);
    }
}

proof fn lemma_nothing_empty(items: Seq<Seq<char>>)
    requires
        forall|i: int| 0 <= i < items.len() ==> (#[trigger] items[i]).len() > 0,
    ensures
        without_empty(items) == items,
    decreases items.len(),
{
    reveal(Seq::filter);
    if items.len() > 0 {
        let front = items.drop_last();
        assert forall|i: int| 0 <= i < front.len() implies (#[trigger] front[i]).len() > 0 by {
            assert(front[i] == items[i]);
        }
        lemma_nothing_empty(front);
        assert(items[items.len() - 1].len() > 0);
        assert(items =~= front.push(items.last()));
    }
}

proof fn lemma_addresses_stay(urls: Seq<Seq<char>>)
    requires
        urls.no_duplicates(),
        forall|i: int| 0 <= i < urls.len() ==> is_feed_url(#[trigger] urls[i]),
    ensures
        feed_urls(urls) == urls,
    decreases urls.len(),
{
    if urls.len() > 0 {
        let front = urls.drop_last();
        assert forall|i: int| 0 <= i < front.len() implies is_feed_url(#[trigger] front[i]) by {
            assert(front[i] == urls[i]);
        }
        lemma_addresses_stay(front);
        assert(is_feed_url(urls[urls.len() - 1]));
        if front.contains(urls.last()) {
            let k = choose|k: int| 0 <= k < front.len() && front[k] == urls.last();
            assert(urls[k] == urls[urls.len() - 1]);
        }
        assert(urls =~= front.push(urls.last()));
    }
}

/// Pruning a state that was pruned changes nothing.
pub proof fn law_state_pruned_once(state: StateView)
    requires
        sound(state),
    ensures
        pruned_state(pruned_state(state)) == pruned_state(state),
{
    let ids = ids_of(all_items(state.feeds));
    law_pruned_once(state.seen_items, ids, RSS_MAX_SEEN_ITEMS as nat);
    law_pruned_once(state.loaded_items, ids, RSS_MAX_SEEN_ITEMS as nat);
}

/// Whether something is kept under `url`.
pub open spec fn keeps(feeds: Seq<EntryView>, url: Seq<char>) -> bool {
    exists|i: int| 0 <= i < feeds.len() && (#[trigger] feeds[i]).url == url
}

/// Whether every kept feed holds no more items than it may, in the order of the list.
pub open spec fn bounded_feeds(feeds: Seq<EntryView>) -> bool {
    forall|i: int|
        0 <= i < feeds.len() ==> (#[trigger] feeds[i]).feed.items.len() <= RSS_MAX_ITEMS_PER_FEED
            && in_order(feeds[i].feed.items, rank_of::<RssItem>())
}

/// Keeping a feed under an address: that feed is kept there, every other stays as it was.
pub proof fn law_with_feed(
    feeds: Seq<EntryView>,
    url: Seq<char>,
    feed: KeptFeedView,
)
    requires
        distinct_urls(feeds),
    ensures
        distinct_urls(with_feed(feeds, url, feed)),
        feed_at(with_feed(feeds, url, feed), url) == feed,
        forall|other: Seq<char>|
            other != url ==> #[trigger] feed_at(with_feed(feeds, url, feed), other) == feed_at(
                feeds,
                other,
            ),
        forall|other: Seq<char>| #[trigger]
            keeps(with_feed(feeds, url, feed), other) <==> keeps(feeds, other) || other == url,
        forall|i: int|
            0 <= i < with_feed(feeds, url, feed).len() ==> (#[trigger] with_feed(
                feeds,
                url,
                feed,
            )[i] == (EntryView { url, feed }) || feeds.contains(with_feed(feeds, url, feed)[i])),
    decreases feeds.len(),
{
    let r = with_feed(feeds, url, feed);
    let entry = EntryView { url, feed };
    if feeds.len() == 0 {
        assert(r[0] == entry);
        assert(r.skip(1) =~= feeds);
        assert forall|other: Seq<char>| other != url implies #[trigger] feed_at(r, other)
            == feed_at(feeds, other) by {
            assert(feed_at(r.skip(1), other) == feed_at(feeds, other));
        }
    } else if feeds[0].url == url {
        let rest = feeds.skip(1);
        assert(r[0] == entry);
        assert(r.skip(1) =~= rest);
        assert forall|other: Seq<char>| other != url implies #[trigger] feed_at(r, other)
            == feed_at(feeds, other) by {
            assert(feed_at(r.skip(1), other) == feed_at(rest, other));
        }
        assert forall|i: int| 0 <= i < r.len() implies (#[trigger] r[i] == entry || feeds.contains(
            r[i],
        )) by {
            if i > 0 {
                assert(r[i] == feeds[i]);
            }
        }
        assert forall|i: int, j: int| 0 <= i < j < r.len() implies (#[trigger] r[i]).url
            != (#[trigger] r[j]).url by {
            assert(r[j] == feeds[j]);
            assert(feeds[i].url != feeds[j].url);
        }
        assert forall|other: Seq<char>| #[trigger] keeps(r, other) <==> keeps(feeds, other) || other
            == url by {
            if keeps(r, other) {
                let k = choose|k: int| 0 <= k < r.len() && (#[trigger] r[k]).url == other;
                assert(feeds[k].url == other);
            }
            if keeps(feeds, other) {
                let k = choose|k: int| 0 <= k < feeds.len() && (#[trigger] feeds[k]).url == other;
                assert(r[k].url == other);
            }
            if other == url {
                assert(r[0].url == url);
            }
        }
    } else {
        let rest = feeds.skip(1);
        let inner = with_feed(rest, url, feed);
        assert(distinct_urls(rest)) by {
            assert forall|i: int, j: int| 0 <= i < j < rest.len() implies (#[trigger] rest[i]).url
                != (#[trigger] rest[j]).url by {
                assert(feeds[i + 1].url != feeds[j + 1].url);
            }
        }
        law_with_feed(rest, url, feed);
        assert(r[0] == feeds[0]);
        assert(r.skip(1) =~= inner);
        assert forall|other: Seq<char>| other != url implies #[trigger] feed_at(r, other)
            == feed_at(feeds, other) by {
            assert(feed_at(r.skip(1), other) == feed_at(rest, other));
        }
        assert forall|i: int| 0 <= i < r.len() implies (#[trigger] r[i] == entry || feeds.contains(
            r[i],
        )) by {
            if i > 0 {
                assert(r[i] == inner[i - 1]);
                if inner[i - 1] != entry {
                    let k = choose|k: int| 0 <= k < rest.len() && rest[k] == inner[i - 1];
                    assert(feeds[k + 1] == r[i]);
                }
            } else {
                assert(feeds[0] == r[0]);
            }
        }
        assert forall|i: int, j: int| 0 <= i < j < r.len() implies (#[trigger] r[i]).url
            != (#[trigger] r[j]).url by {
            assert(r[j] == inner[j - 1]);
            if i == 0 {
                if inner[j - 1] != entry {
                    let k = choose|k: int| 0 <= k < rest.len() && rest[k] == inner[j - 1];
                    assert(feeds[0].url != feeds[k + 1].url);
                }
            } else {
                assert(r[i] == inner[i - 1]);
            }
        }
        assert forall|other: Seq<char>| #[trigger] keeps(r, other) <==> keeps(feeds, other) || other
            == url by {
            if keeps(r, other) {
                let k = choose|k: int| 0 <= k < r.len() && (#[trigger] r[k]).url == other;
                if k == 0 {
                    assert(feeds[0].url == other);
                } else {
                    assert(inner[k - 1].url == other);
                    assert(keeps(inner, other));
                    if other != url {
                        let m = choose|m: int|
                            0 <= m < rest.len() && (#[trigger] rest[m]).url == other;
                        assert(feeds[m + 1].url == other);
                    }
                }
            }
            if keeps(feeds, other) || other == url {
                if other != url && feeds[0].url == other {
                    assert(r[0].url == other);
                } else {
                    if other != url {
                        let m = choose|m: int|
                            0 <= m < feeds.len() && (#[trigger] feeds[m]).url == other;
                        assert(rest[m - 1].url == other);
                        assert(keeps(rest, other));
                    }
                    assert(keeps(inner, other));
                    let k = choose|k: int|
                        0 <= k < inner.len() && (#[trigger] inner[k]).url == other;
                    assert(r[k + 1].url == other);
                }
            }
        }
    }
}

/// A refresh that keeps a sound state, in which every kept feed is within its bounds.
pub open spec fn sound_run(run: RunView) -> bool {
    sound(run.working) && bounded_feeds(run.working.feeds)
}

/// Taking an item changes no kept feed, keeps the refresh sound and forgets no identity.
/// An item that was loaded is remembered as seen and as loaded; one whose loading failed
/// is remembered as neither, so that it is tried again.
pub proof fn law_taken(run: RunView, open: OpenView, answer: Option<Result<(), Seq<char>>>)
    requires
        sound_run(run),
        open.rest.len() > 0,
    ensures
        sound_run(taken(run, open, answer)),
        taken(run, open, answer).working.feeds == run.working.feeds,
        taken(run, open, answer).working.initialized == run.working.initialized,
        forall|id: Seq<char>| #[trigger]
            knows(run.working.seen_items, id) ==> knows(
                taken(run, open, answer).working.seen_items,
                id,
            ),
        forall|id: Seq<char>| #[trigger]
            knows(run.working.loaded_items, id) ==> knows(
                taken(run, open, answer).working.loaded_items,
                id,
            ),
        answer matches Some(Ok(_)) ==> knows(
            taken(run, open, answer).working.seen_items,
            key_of(open.url, open.rest[0]),
        ) && knows(
            taken(run, open, answer).working.loaded_items,
            key_of(open.url, open.rest[0]),
        ),
        loads_next(run, open) && (answer matches Some(Err(_))) ==> !knows(
            taken(run, open, answer).working.seen_items,
            key_of(open.url, open.rest[0]),
        ) && !knows(
            taken(run, open, answer).working.loaded_items,
            key_of(open.url, open.rest[0]),
        ),
{
    let id = key_of(open.url, open.rest[0]);
    law_remembered(run.working.seen_items, id, run.now);
    law_remembered(run.working.loaded_items, id, run.now);
}

/// Closing a feed keeps the refresh sound, and that feed beside the others.
pub proof fn lemma_closed_feed(run: RunView, open: OpenView)
    requires
        sound_run(run),
    ensures
        sound_run(closed_feed(run, open)),
        forall|url: Seq<char>| #[trigger]
            keeps(closed_feed(run, open).working.feeds, url) <==> keeps(run.working.feeds, url)
                || url == open.url,
{
    let before = rank_of::<RssItem>();
    let next = closed_feed(run, open);
    let feed = KeptFeedView {
        title: open.title,
        items: at_most(listed(open.done), RSS_MAX_ITEMS_PER_FEED as int),
        last_updated: run.now,
        last_error: ""@,
    };
    law_item_order();
    law_sort_is_ordered(open.done, before);
    law_with_feed(run.working.feeds, open.url, feed);
    assert forall|i: int| 0 <= i < next.working.feeds.len() implies (
    #[trigger] next.working.feeds[i]).feed.items.len() <= RSS_MAX_ITEMS_PER_FEED && in_order(
        next.working.feeds[i].feed.items,
        before,
    ) by {
        if next.working.feeds[i] != (EntryView { url: open.url, feed }) {
            let k = choose|k: int|
                0 <= k < run.working.feeds.len() && run.working.feeds[k] == next.working.feeds[i];
            assert(run.working.feeds[k].feed.items.len() <= RSS_MAX_ITEMS_PER_FEED);
        }
    }
}

proof fn lemma_feed_at(feeds: Seq<EntryView>, url: Seq<char>)
    ensures
        keeps(feeds, url) ==> exists|i: int|
            0 <= i < feeds.len() && (#[trigger] feeds[i]).feed == feed_at(feeds, url)
                && feeds[i].url == url,
        !keeps(feeds, url) ==> feed_at(feeds, url).items.len() == 0,
    decreases feeds.len(),
{
    if feeds.len() > 0 {
        let rest = feeds.skip(1);
        lemma_feed_at(rest, url);
        if feeds[0].url == url {
            assert(feeds[0].feed == feed_at(feeds, url));
        } else {
            if keeps(feeds, url) {
                let m = choose|m: int| 0 <= m < feeds.len() && (#[trigger] feeds[m]).url == url;
                assert(rest[m - 1].url == url);
                let k = choose|k: int|
                    0 <= k < rest.len() && (#[trigger] rest[k]).feed == feed_at(rest, url)
                        && rest[k].url == url;
                assert(feeds[k + 1].feed == feed_at(feeds, url));
            }
            if keeps(rest, url) {
                let m = choose|m: int| 0 <= m < rest.len() && (#[trigger] rest[m]).url == url;
                assert(feeds[m + 1].url == url);
            }
        }
    }
}

/// A feed that could not be read keeps its title and items; only the error is noted, with
/// it and for the list. No other feed changes.
pub proof fn law_failed_feed(run: RunView)
    requires
        sound_run(run),
        run.todo.len() > 0,
        run.todo[0].result is Err,
    ensures
        sound_run(begun(run)),
        feed_at(begun(run).working.feeds, run.todo[0].url) == (
        KeptFeedView {
            last_error: run.todo[0].result->Err_0,
            ..feed_at(run.working.feeds, run.todo[0].url)
        }),
        forall|other: Seq<char>|
            other != run.todo[0].url ==> #[trigger] feed_at(begun(run).working.feeds, other)
                == feed_at(run.working.feeds, other),
        forall|url: Seq<char>| #[trigger]
            keeps(begun(run).working.feeds, url) <==> keeps(run.working.feeds, url) || url
                == run.todo[0].url,
        begun(run).errors == run.errors.push(run.todo[0].url + ": "@ + run.todo[0].result->Err_0),
        begun(run).working.seen_items == run.working.seen_items,
        begun(run).working.loaded_items == run.working.loaded_items,
{
    let url = run.todo[0].url;
    let feeds = run.working.feeds;
    let next = begun(run);
    let feed = KeptFeedView {
        last_error: run.todo[0].result->Err_0,
        ..feed_at(feeds, url)
    };
    law_with_feed(feeds, url, feed);
    lemma_feed_at(feeds, url);
    let before = rank_of::<RssItem>();
    assert forall|i: int| 0 <= i < next.working.feeds.len() implies (
    #[trigger] next.working.feeds[i]).feed.items.len() <= RSS_MAX_ITEMS_PER_FEED && in_order(
        next.working.feeds[i].feed.items,
        before,
    ) by {
        if next.working.feeds[i] != (EntryView { url, feed }) {
            let k = choose|k: int| 0 <= k < feeds.len() && feeds[k] == next.working.feeds[i];
            assert(feeds[k].feed.items.len() <= RSS_MAX_ITEMS_PER_FEED);
        } else if keeps(feeds, url) {
            let k = choose|k: int|
                0 <= k < feeds.len() && (#[trigger] feeds[k]).feed == feed_at(feeds, url)
                    && feeds[k].url == url;
            assert(feeds[k].feed.items.len() <= RSS_MAX_ITEMS_PER_FEED);
        }
    }
}

/// Going on keeps the refresh sound and forgets nothing that was seen or loaded. It ends
/// with an item to load, or with nothing left to do.
pub proof fn law_settled(run: RunView)
    requires
        sound_run(run),
    ensures
        sound_run(settled(run)),
        settled(run).working.initialized == run.working.initialized,
        forall|id: Seq<char>| #[trigger]
            knows(run.working.seen_items, id) ==> knows(settled(run).working.seen_items, id),
        forall|id: Seq<char>| #[trigger]
            knows(run.working.loaded_items, id) ==> knows(settled(run).working.loaded_items, id),
        wanted_load(settled(run)) is None ==> settled(run).open is None && settled(run).todo.len()
            == 0,
    decreases run.todo.len(), open_weight(run.open),
{
    match run.open {
        Some(open) => {
            if open.rest.len() == 0 {
                lemma_closed_feed(run, open);
                law_settled(closed_feed(run, open));
            } else if !loads_next(run, open) {
                law_taken(run, open, None);
                let next = taken(run, open, None);
                law_settled(next);
                assert forall|id: Seq<char>| #[trigger]
                    knows(run.working.seen_items, id) implies knows(
                    settled(run).working.seen_items,
                    id,
                ) by {
                    assert(knows(next.working.seen_items, id));
                }
                assert forall|id: Seq<char>| #[trigger]
                    knows(run.working.loaded_items, id) implies knows(
                    settled(run).working.loaded_items,
                    id,
                ) by {
                    assert(knows(next.working.loaded_items, id));
                }
            }
        },
        None => {
            if run.todo.len() > 0 {
                if run.todo[0].result is Err {
                    law_failed_feed(run);
                }
                law_settled(begun(run));
            }
        },
    }
}

/// The first refresh loads nothing: it only takes note of what is there.
pub proof fn law_first_refresh_loads_nothing(run: RunView)
    requires
        sound_run(run),
        !run.working.initialized,
    ensures
        wanted_load(settled(run)) is None,
{
    law_settled(run);
}

/// The identity of the item that a refresh waits for.
pub open spec fn wanted_id(run: RunView) -> Seq<char> {
    key_of(run.open.unwrap().url, run.open.unwrap().rest[0])
}

/// An item that was seen, or that counts as loaded, is never asked for, however far a
/// refresh goes on.
pub proof fn law_seen_is_not_loaded(run: RunView, id: Seq<char>)
    requires
        sound_run(run),
        knows(run.working.seen_items, id) || knows(run.working.loaded_items, id),
        wanted_load(settled(run)) is Some,
    ensures
        wanted_id(settled(run)) != id,
{
    law_settled(run);
}

/// A torrent that is there already is never asked for.
pub proof fn law_existing_is_not_loaded(run: RunView)
    requires
        wanted_load(run) is Some,
        run.open.unwrap().rest[0].info_hash is Some,
    ensures
        !run.existing.contains(run.open.unwrap().rest[0].info_hash.unwrap()),
{
}

/// Whether `url` is kept, or will be once the refresh has gone through all.
pub open spec fn will_keep(run: RunView, url: Seq<char>) -> bool {
    ||| keeps(run.working.feeds, url)
    ||| run.open is Some && run.open.unwrap().url == url
    ||| exists|i: int| 0 <= i < run.todo.len() && (#[trigger] run.todo[i]).url == url
}

proof fn lemma_begun_keeps(run: RunView, url: Seq<char>)
    requires
        sound_run(run),
        run.open is None,
        run.todo.len() > 0,
        will_keep(run, url),
    ensures
        will_keep(begun(run), url),
{
    let next = begun(run);
    if run.todo[0].result is Err {
        law_failed_feed(run);
    }
    if !keeps(run.working.feeds, url) {
        let i = choose|i: int| 0 <= i < run.todo.len() && (#[trigger] run.todo[i]).url == url;
        if i > 0 {
            assert(next.todo[i - 1].url == url);
        }
    }
}

/// Every feed that was asked for is kept in the end, read or not.
pub proof fn law_asked_is_kept(run: RunView, url: Seq<char>)
    requires
        sound_run(run),
        will_keep(run, url),
    ensures
        will_keep(settled(run), url),
        wanted_load(settled(run)) is None ==> keeps(settled(run).working.feeds, url),
    decreases run.todo.len(), open_weight(run.open),
{
    law_settled(run);
    match run.open {
        Some(open) => {
            if open.rest.len() == 0 {
                lemma_closed_feed(run, open);
                let next = closed_feed(run, open);
                if !keeps(run.working.feeds, url) && open.url != url {
                    let i = choose|i: int|
                        0 <= i < run.todo.len() && (#[trigger] run.todo[i]).url == url;
                    assert(next.todo[i].url == url);
                }
                law_asked_is_kept(next, url);
            } else if !loads_next(run, open) {
                law_taken(run, open, None);
                let next = taken(run, open, None);
                if !keeps(run.working.feeds, url) && open.url != url {
                    let i = choose|i: int|
                        0 <= i < run.todo.len() && (#[trigger] run.todo[i]).url == url;
                    assert(next.todo[i].url == url);
                }
                law_asked_is_kept(next, url);
            }
        },
        None => {
            if run.todo.len() > 0 {
                if run.todo[0].result is Err {
                    law_failed_feed(run);
                }
                lemma_begun_keeps(run, url);
                law_asked_is_kept(begun(run), url);
            }
        },
    }
}

/// The feeds that stay are those at the given addresses, each as it was.
pub proof fn lemma_retained(feeds: Seq<EntryView>, urls: Seq<Seq<char>>)
    requires
        distinct_urls(feeds),
    ensures
        distinct_urls(retained(feeds, urls)),
        forall|i: int|
            0 <= i < retained(feeds, urls).len() ==> feeds.contains(
                #[trigger] retained(feeds, urls)[i],
            ) && urls.contains(retained(feeds, urls)[i].url),
        forall|i: int|
            0 <= i < feeds.len() && urls.contains((#[trigger] feeds[i]).url) ==> retained(
                feeds,
                urls,
            ).contains(feeds[i]),
    decreases feeds.len(),
{
    if feeds.len() > 0 {
        let front = feeds.drop_last();
        let kept = retained(front, urls);
        let r = retained(feeds, urls);
        lemma_retained(front, urls);
        assert forall|i: int| 0 <= i < r.len() implies feeds.contains(#[trigger] r[i])
            && urls.contains(r[i].url) by {
            if i < kept.len() {
                assert(r[i] == kept[i]);
                let k = choose|k: int| 0 <= k < front.len() && front[k] == kept[i];
                assert(feeds[k] == r[i]);
            } else {
                assert(feeds[feeds.len() - 1] == r[i]);
            }
        }
        assert forall|i: int, j: int| 0 <= i < j < r.len() implies (#[trigger] r[i]).url
            != (#[trigger] r[j]).url by {
            assert(r[i] == kept[i]);
            if j < kept.len() {
                assert(r[j] == kept[j]);
            } else {
                let k = choose|k: int| 0 <= k < front.len() && front[k] == kept[i];
                assert(feeds[k].url != feeds[feeds.len() - 1].url);
            }
        }
        assert forall|i: int|
            0 <= i < feeds.len() && urls.contains((#[trigger] feeds[i]).url) implies r.contains(
            feeds[i],
        ) by {
            if i < front.len() {
                assert(front[i] == feeds[i]);
                assert(kept.contains(front[i]));
                let k = choose|k: int| 0 <= k < kept.len() && kept[k] == front[i];
                assert(r[k] == feeds[i]);
            } else {
                assert(r[r.len() - 1] == feeds[i]);
            }
        }
    }
}

/// What a finished refresh leaves is sound; it holds the feeds of the settings and no
/// others, each within its bounds; the mark of the latest item is the first item shown;
/// and an item of a feed that was seen or loaded is still remembered.
pub proof fn law_refreshed(run: RunView, urls: Seq<Seq<char>>, feed_count: usize)
    requires
        sound_run(run),
    ensures
        sound(refreshed(run, urls)),
        bounded_feeds(refreshed(run, urls).feeds),
        forall|url: Seq<char>| #[trigger]
            keeps(refreshed(run, urls).feeds, url) <==> keeps(run.working.feeds, url)
                && urls.contains(url),
        refreshed(run, urls).latest_guid == first_id(
            snapshot_of(refreshed(run, urls), feed_count).items,
        ),
        refreshed(run, urls).initialized == (run.working.initialized || run.any_success),
        forall|id: Seq<char>|
            ids_of(all_items(refreshed(run, urls).feeds)).contains(id) && #[trigger] knows(
                run.working.seen_items,
                id,
            ) ==> knows(refreshed(run, urls).seen_items, id),
        forall|id: Seq<char>|
            ids_of(all_items(refreshed(run, urls).feeds)).contains(id) && #[trigger] knows(
                run.working.loaded_items,
                id,
            ) ==> knows(refreshed(run, urls).loaded_items, id),
{
    let feeds = run.working.feeds;
    let kept = retained(feeds, urls);
    let r = refreshed(run, urls);
    lemma_retained(feeds, urls);
    let state = StateView {
        feeds: kept,
        last_error: r.last_error,
        last_updated: r.last_updated,
        latest_guid: r.latest_guid,
        initialized: r.initialized,
        ..run.working
    };
    assert(r == pruned_state(state));
    lemma_pruned_sound(state);
    assert forall|i: int| 0 <= i < kept.len() implies (#[trigger] kept[i]).feed.items.len()
        <= RSS_MAX_ITEMS_PER_FEED && in_order(kept[i].feed.items, rank_of::<RssItem>()) by {
        let k = choose|k: int| 0 <= k < feeds.len() && feeds[k] == kept[i];
        assert(feeds[k].feed.items.len() <= RSS_MAX_ITEMS_PER_FEED);
    }
    assert forall|url: Seq<char>| #[trigger] keeps(kept, url) <==> keeps(feeds, url)
        && urls.contains(url) by {
        if keeps(kept, url) {
            let i = choose|i: int| 0 <= i < kept.len() && (#[trigger] kept[i]).url == url;
            let k = choose|k: int| 0 <= k < feeds.len() && feeds[k] == kept[i];
            assert(feeds[k].url == url);
        }
        if keeps(feeds, url) && urls.contains(url) {
            let k = choose|k: int| 0 <= k < feeds.len() && (#[trigger] feeds[k]).url == url;
            assert(kept.contains(feeds[k]));
            let i = choose|i: int| 0 <= i < kept.len() && kept[i] == feeds[k];
            assert(kept[i].url == url);
        }
    }
}

/// An item of a feed that was seen in one refresh, or loaded in it, is not asked for in
/// the next.
pub proof fn law_not_loaded_again(
    run: RunView,
    urls: Seq<Seq<char>>,
    fetched: Seq<FetchedView>,
    existing: Seq<Seq<char>>,
    now: i64,
    id: Seq<char>,
)
    requires
        sound_run(run),
        knows(run.working.seen_items, id) || knows(run.working.loaded_items, id),
        ids_of(all_items(refreshed(run, urls).feeds)).contains(id),
        wanted_load(settled(started(refreshed(run, urls), fetched, existing, now))) is Some,
    ensures
        wanted_id(settled(started(refreshed(run, urls), fetched, existing, now))) != id,
{
    law_refreshed(run, urls, 0);
    law_seen_is_not_loaded(started(refreshed(run, urls), fetched, existing, now), id);
}

/// Without addresses nothing is kept, remembered or shown.
pub proof fn law_cleared(state: StateView)
    ensures
        sound(cleared(state)),
        all_items(cleared(state).feeds).len() == 0,
        snapshot_of(cleared(state), 0).items.len() == 0,
        snapshot_of(cleared(state), 0).last_error == ""@,
        snapshot_of(cleared(state), 0).latest_guid == ""@,
        cleared(state).last_updated == 0,
        cleared(state).seen_items.len() == 0,
        cleared(state).loaded_items.len() == 0,
        cleared(state).initialized == state.initialized,
{
    let all = all_items(cleared(state).feeds);
    assert(first_of_each(all).len() == 0);
    law_sort_is_permutation(first_of_each(all), rank_of::<RssItem>());
}

} // verus!
