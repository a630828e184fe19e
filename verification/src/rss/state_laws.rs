//! What is shown and remembered of the feeds.
use vstd::prelude::*;

use crate::common::{item_before, law_item_order, RssItem, RssItemView};
use crate::order::{
    law_sort_is_ordered, law_sort_is_permutation, lemma_sort_contains, rank_of, stable_sorted,
};
use crate::rss::known::{
    distinct_ids, knows, law_pruned, law_remembered, lemma_time_of, remembered, time_of,
    KnownView,
};
use crate::rss::laws::{
    law_marked_loaded, law_refreshed, law_state_pruned_once, lemma_retained, sound_run,
};
use crate::rss::service::{refreshed, started, FetchedView, RunView};
use crate::rss::state::{
    all_items, feed_urls, first_of_each, ids_of, is_feed_url, marked_feeds, marked_items,
    marked_loaded, pruned_state, snapshot_of, sound, EntryView, StateView, RSS_MAX_ITEMS_PER_FEED,
    RSS_MAX_ITEMS_TOTAL, RSS_MAX_SEEN_ITEMS, RSS_REFRESH_INTERVAL_SECS,
};

verus! {

/// The items of feeds are those of the first ones and, behind them, those of the last; so
/// every item of every feed is among them.
pub proof fn law_all_items(feeds: Seq<EntryView>, more: EntryView, i: int, k: int)
    ensures
        all_items(Seq::empty()).len() == 0,
        all_items(feeds.push(more)) == all_items(feeds) + more.feed.items,
        0 <= i < feeds.len() && 0 <= k < feeds[i].feed.items.len() ==> all_items(feeds).contains(
            feeds[i].feed.items[k],
        ),
    decreases feeds.len(),
{
    assert(feeds.push(more).drop_last() =~= feeds);
    if 0 <= i < feeds.len() && 0 <= k < feeds[i].feed.items.len() {
        let front = feeds.drop_last();
        let all = all_items(feeds);
        if i < front.len() {
            law_all_items(front, more, i, k);
            let m = choose|m: int|
                0 <= m < all_items(front).len() && all_items(front)[m] == feeds[i].feed.items[k];
            assert(all[m] == feeds[i].feed.items[k]);
        } else {
            assert(all[all_items(front).len() + k] == feeds[i].feed.items[k]);
        }
    }
}

/// Whether the item at `k` is the first with its identity.
pub open spec fn is_first(items: Seq<RssItemView>, k: int) -> bool {
    &&& 0 <= k < items.len()
    &&& forall|j: int| 0 <= j < k ==> (#[trigger] items[j]).id != items[k].id
}

proof fn lemma_firsts(items: Seq<RssItemView>)
    ensures
        forall|k: int| #[trigger]
            is_first(items, k) ==> first_of_each(items).contains(items[k]),
        forall|m: int|
            0 <= m < first_of_each(items).len() ==> exists|k: int| #[trigger]
                is_first(items, k) && items[k] == #[trigger] first_of_each(items)[m],
        forall|k: int|
            0 <= k < items.len() ==> ids_of(first_of_each(items)).contains((#[trigger] items[k]).id),
    decreases items.len(),
{
    if items.len() > 0 {
        let front = items.drop_last();
        let last = items.last();
        let found = first_of_each(front);
        let r = first_of_each(items);
        lemma_firsts(front);
        let n = front.len() as int;
        assert(is_first(items, n) <==> !ids_of(found).contains(last.id)) by {
            if ids_of(found).contains(last.id) {
                let m = choose|m: int| 0 <= m < ids_of(found).len() && ids_of(found)[m] == last.id;
                let k = choose|k: int| #[trigger] is_first(front, k) && front[k] == found[m];
                assert(items[k].id == last.id);
            } else {
                assert forall|j: int| 0 <= j < n implies (#[trigger] items[j]).id != items[n].id by {
                    assert(front[j] == items[j]);
                    assert(ids_of(found).contains(front[j].id));
                }
            }
        }
        assert forall|k: int| #[trigger] is_first(items, k) implies r.contains(items[k]) by {
            if k < n {
                assert(front[k] == items[k]);
                assert forall|j: int| 0 <= j < k implies (#[trigger] front[j]).id != front[k].id by {
                    assert(items[j].id != items[k].id);
                }
                assert(is_first(front, k));
                let m = choose|m: int| 0 <= m < found.len() && found[m] == front[k];
                assert(r[m] == items[k]);
            } else {
                assert(r[r.len() - 1] == items[k]);
            }
        }
        assert forall|m: int| 0 <= m < r.len() implies exists|k: int| #[trigger]
            is_first(items, k) && items[k] == #[trigger] r[m] by {
            if m < found.len() {
                assert(r[m] == found[m]);
                let k = choose|k: int| #[trigger] is_first(front, k) && front[k] == found[m];
                assert forall|j: int| 0 <= j < k implies (#[trigger] items[j]).id
                    != items[k].id by {
                    assert(front[j].id != front[k].id);
                }
                assert(is_first(items, k));
            } else {
                assert(is_first(items, n));
            }
        }
        assert forall|k: int| 0 <= k < items.len() implies ids_of(r).contains(
            (#[trigger] items[k]).id,
        ) by {
            if k < n {
                assert(front[k] == items[k]);
                assert(ids_of(found).contains(front[k].id));
                let m = choose|m: int|
                    0 <= m < ids_of(found).len() && ids_of(found)[m] == front[k].id;
                assert(ids_of(r)[m] == items[k].id);
            } else if ids_of(found).contains(last.id) {
                let m = choose|m: int| 0 <= m < ids_of(found).len() && ids_of(found)[m] == last.id;
                assert(ids_of(r)[m] == last.id);
            } else {
                assert(ids_of(r)[r.len() - 1] == last.id);
            }
        }
    }
}

/// Of every identity the first item is shown, and no other: all of them, or where they are
/// too many as many as may be shown, of which none stands behind one that is left out. The
/// rest of what is shown is that of the state.
pub proof fn law_first_items_are_shown(state: StateView, feed_count: usize)
    ensures
        ({
            let all = all_items(state.feeds);
            let shown = snapshot_of(state, feed_count).items;
            &&& forall|k: int| #[trigger]
                is_first(all, k) ==> shown.contains(all[k]) || (shown.len() == RSS_MAX_ITEMS_TOTAL
                    && forall|m: int|
                    0 <= m < shown.len() ==> !item_before(all[k], #[trigger] shown[m]))
            &&& forall|m: int|
                0 <= m < shown.len() ==> exists|k: int| #[trigger]
                    is_first(all, k) && all[k] == #[trigger] shown[m]
        }),
        snapshot_of(state, feed_count).latest_guid == state.latest_guid,
        snapshot_of(state, feed_count).last_updated == state.last_updated,
        snapshot_of(state, feed_count).last_error == state.last_error,
        snapshot_of(state, feed_count).feed_count == feed_count,
{
    let all = all_items(state.feeds);
    let found = first_of_each(all);
    let before = rank_of::<RssItem>();
    let sorted = stable_sorted(found, before);
    let shown = snapshot_of(state, feed_count).items;
    let limit = RSS_MAX_ITEMS_TOTAL as int;
    lemma_firsts(all);
    law_item_order();
    law_sort_is_ordered(found, before);
    law_sort_is_permutation(found, before);
    assert forall|k: int| #[trigger] is_first(all, k) implies shown.contains(all[k]) || (shown.len()
        == RSS_MAX_ITEMS_TOTAL && forall|m: int|
        0 <= m < shown.len() ==> !item_before(all[k], #[trigger] shown[m])) by {
        assert(found.contains(all[k]));
        lemma_sort_contains(found, before, all[k]);
        let j = choose|j: int| 0 <= j < sorted.len() && sorted[j] == all[k];
        if j < shown.len() {
            assert(shown[j] == all[k]);
        } else {
            assert forall|m: int| 0 <= m < shown.len() implies !item_before(
                all[k],
                #[trigger] shown[m],
            ) by {
                assert(shown[m] == sorted[m]);
                assert(!before(sorted[j], sorted[m]));
            }
        }
    }
    assert forall|m: int| 0 <= m < shown.len() implies exists|k: int| #[trigger]
        is_first(all, k) && all[k] == #[trigger] shown[m] by {
        assert(shown[m] == sorted[m]);
        lemma_sort_contains(found, before, sorted[m]);
        let j = choose|j: int| 0 <= j < found.len() && found[j] == sorted[m];
        let k = choose|k: int| #[trigger] is_first(all, k) && all[k] == found[j];
        assert(is_first(all, k));
    }
}

/// The addresses that are asked for stand in the order in which they first occur.
pub proof fn law_feed_urls_keep_their_order(lines: Seq<Seq<char>>, i: int, j: int)
    requires
        0 <= i < j < feed_urls(lines).len(),
    ensures
        exists|p: int|
            0 <= p < lines.len() && #[trigger] lines[p] == feed_urls(lines)[i] && forall|q: int|
                0 <= q <= p ==> #[trigger] lines[q] != feed_urls(lines)[j],
    decreases lines.len(),
{
    let front = lines.drop_last();
    let found = feed_urls(front);
    let r = feed_urls(lines);
    if j < found.len() {
        law_feed_urls_keep_their_order(front, i, j);
        let p = choose|p: int|
            0 <= p < front.len() && #[trigger] front[p] == found[i] && forall|q: int|
                0 <= q <= p ==> #[trigger] front[q] != found[j];
        assert(lines[p] == r[i]);
        assert forall|q: int| 0 <= q <= p implies #[trigger] lines[q] != r[j] by {
            assert(front[q] != found[j]);
        }
    } else {
        assert(r[i] == found[i]);
        lemma_urls_come_from(front);
        assert(found.contains(found[i]));
        let p = choose|p: int| 0 <= p < front.len() && front[p] == found[i];
        assert(lines[p] == r[i]);
        assert forall|q: int| 0 <= q <= p implies #[trigger] lines[q] != r[j] by {
            assert(front[q] == lines[q]);
            if front[q] == r[j] {
                assert(is_feed_url(front[q]));
                assert(found.contains(front[q]));
            }
        }
    }
}

proof fn lemma_urls_come_from(lines: Seq<Seq<char>>)
    ensures
        forall|url: Seq<char>| #[trigger]
            feed_urls(lines).contains(url) ==> exists|p: int|
                0 <= p < lines.len() && #[trigger] lines[p] == url,
        forall|p: int|
            0 <= p < lines.len() && is_feed_url(#[trigger] lines[p]) ==> feed_urls(lines).contains(
                lines[p],
            ),
    decreases lines.len(),
{
    if lines.len() > 0 {
        let front = lines.drop_last();
        let found = feed_urls(front);
        let r = feed_urls(lines);
        lemma_urls_come_from(front);
        assert forall|url: Seq<char>| #[trigger] r.contains(url) implies exists|p: int|
            0 <= p < lines.len() && #[trigger] lines[p] == url by {
            let k = choose|k: int| 0 <= k < r.len() && r[k] == url;
            if k < found.len() {
                assert(found[k] == url);
                assert(found.contains(url));
                let p = choose|p: int| 0 <= p < front.len() && #[trigger] front[p] == url;
                assert(lines[p] == url);
            } else {
                assert(lines[lines.len() - 1] == url);
            }
        }
        assert forall|p: int| 0 <= p < lines.len() && is_feed_url(#[trigger] lines[p]) implies r.contains(
            lines[p],
        ) by {
            if p < front.len() {
                assert(front[p] == lines[p]);
                assert(found.contains(front[p]));
                let k = choose|k: int| 0 <= k < found.len() && found[k] == front[p];
                assert(r[k] == lines[p]);
            } else if found.contains(lines[p]) {
                let k = choose|k: int| 0 <= k < found.len() && found[k] == lines[p];
                assert(r[k] == lines[p]);
            } else {
                assert(r[r.len() - 1] == lines[p]);
            }
        }
    }
}

/// Marking an item as loaded changes nothing of it but that, and that it is new no more. An
/// item of a feed is remembered as seen and loaded at that time. Feeds keep their addresses,
/// titles, dates and errors, and the state all else.
pub proof fn law_marked_only_as_loaded(state: StateView, id: Seq<char>, now: i64)
    requires
        sound(state),
    ensures
        forall|i: int|
            0 <= i < all_items(state.feeds).len() && all_items(state.feeds)[i].id == id
                ==> #[trigger] all_items(marked_loaded(state, id, now).feeds)[i] == (RssItemView {
                loaded: true,
                is_new: false,
                ..all_items(state.feeds)[i]
            }),
        ids_of(all_items(state.feeds)).contains(id) ==> time_of(
            marked_loaded(state, id, now).loaded_items,
            id,
        ) == Some(now) && time_of(marked_loaded(state, id, now).seen_items, id) == Some(now),
        marked_loaded(state, id, now).feeds.len() == state.feeds.len(),
        forall|i: int|
            0 <= i < state.feeds.len() ==> {
                let entry = #[trigger] marked_loaded(state, id, now).feeds[i];
                &&& entry.url == state.feeds[i].url
                &&& entry.feed.title == state.feeds[i].feed.title
                &&& entry.feed.last_updated == state.feeds[i].feed.last_updated
                &&& entry.feed.last_error == state.feeds[i].feed.last_error
                &&& entry.feed.items.len() == state.feeds[i].feed.items.len()
            },
        marked_loaded(state, id, now).last_error == state.last_error,
        marked_loaded(state, id, now).last_updated == state.last_updated,
        marked_loaded(state, id, now).latest_guid == state.latest_guid,
        marked_loaded(state, id, now).initialized == state.initialized,
{
    let all = all_items(state.feeds);
    let r = marked_loaded(state, id, now);
    law_marked_loaded(state, id, now);
    law_remembered(state.seen_items, id, now);
    law_remembered(state.loaded_items, id, now);
    let seen = remembered(state.seen_items, id, now);
    let loaded = remembered(state.loaded_items, id, now);
    let ids = ids_of(all_items(marked_feeds(state.feeds, id)));
    law_pruned(seen, ids, RSS_MAX_SEEN_ITEMS as nat);
    law_pruned(loaded, ids, RSS_MAX_SEEN_ITEMS as nat);
    assert(marked_items(all, id).len() == all.len());
}

/// Forgetting what need not be remembered touches nothing that is kept or shown.
pub proof fn law_forgetting_changes_nothing_else(state: StateView)
    ensures
        pruned_state(state).feeds == state.feeds,
        pruned_state(state).last_error == state.last_error,
        pruned_state(state).last_updated == state.last_updated,
        pruned_state(state).latest_guid == state.latest_guid,
        pruned_state(state).initialized == state.initialized,
{
}

/// Nothing that is remembered is forgotten as long as it is not too much: what is seen and
/// what is loaded each for itself.
pub proof fn law_little_is_all_remembered(state: StateView, id: Seq<char>)
    requires
        sound(state),
    ensures
        state.seen_items.len() <= RSS_MAX_SEEN_ITEMS ==> time_of(
            pruned_state(state).seen_items,
            id,
        ) == time_of(state.seen_items, id),
        state.loaded_items.len() <= RSS_MAX_SEEN_ITEMS ==> time_of(
            pruned_state(state).loaded_items,
            id,
        ) == time_of(state.loaded_items, id),
{
    lemma_little(state, id);
}

/// A refresh begins with the state as it is and with all that was fetched ahead of it, without
/// errors and without success, and knows what was shown before it.
pub proof fn law_refresh_begins(
    state: StateView,
    fetched: Seq<FetchedView>,
    existing: Seq<Seq<char>>,
    now: i64,
)
    ensures
        ({
            let run = started(state, fetched, existing, now);
            &&& run.working == state
            &&& run.todo == fetched
            &&& run.open is None
            &&& run.existing == existing
            &&& run.now == now
            &&& run.errors.len() == 0
            &&& !run.any_success
            &&& state.feeds.len() <= usize::MAX ==> run.before.feed_count == state.feeds.len()
            &&& run.before.items == snapshot_of(state, 0).items
            &&& run.before.last_error == state.last_error
            &&& run.before.latest_guid == state.latest_guid
            &&& run.before.last_updated == state.last_updated
        }),
{
}

/// What is remembered stays remembered when an item is marked, as long as it is not too much:
/// only the time of that item changes.
pub proof fn law_marking_forgets_nothing(
    state: StateView,
    id: Seq<char>,
    now: i64,
    other: Seq<char>,
)
    requires
        sound(state),
        other != id,
    ensures
        state.seen_items.len() < RSS_MAX_SEEN_ITEMS ==> time_of(
            marked_loaded(state, id, now).seen_items,
            other,
        ) == time_of(state.seen_items, other),
        state.loaded_items.len() < RSS_MAX_SEEN_ITEMS ==> time_of(
            marked_loaded(state, id, now).loaded_items,
            other,
        ) == time_of(state.loaded_items, other),
{
    law_remembered(state.seen_items, id, now);
    law_remembered(state.loaded_items, id, now);
    let marked = StateView {
        feeds: marked_feeds(state.feeds, id),
        seen_items: remembered(state.seen_items, id, now),
        loaded_items: remembered(state.loaded_items, id, now),
        ..state
    };
    law_pruned(
        marked.seen_items,
        ids_of(all_items(marked.feeds)),
        RSS_MAX_SEEN_ITEMS as nat,
    );
    law_pruned(
        marked.loaded_items,
        ids_of(all_items(marked.feeds)),
        RSS_MAX_SEEN_ITEMS as nat,
    );
    lemma_little(marked, other);
}

proof fn lemma_little(state: StateView, id: Seq<char>)
    requires
        distinct_ids(state.seen_items),
        distinct_ids(state.loaded_items),
    ensures
        state.seen_items.len() <= RSS_MAX_SEEN_ITEMS ==> time_of(
            pruned_state(state).seen_items,
            id,
        ) == time_of(state.seen_items, id),
        state.loaded_items.len() <= RSS_MAX_SEEN_ITEMS ==> time_of(
            pruned_state(state).loaded_items,
            id,
        ) == time_of(state.loaded_items, id),
{
    let ids = ids_of(all_items(state.feeds));
    law_pruned(state.seen_items, ids, RSS_MAX_SEEN_ITEMS as nat);
    law_pruned(state.loaded_items, ids, RSS_MAX_SEEN_ITEMS as nat);
    lemma_time_of(state.seen_items, id);
    lemma_time_of(state.loaded_items, id);
    lemma_time_of(pruned_state(state).seen_items, id);
    lemma_time_of(pruned_state(state).loaded_items, id);
    assert(knows(pruned_state(state).seen_items, id) ==> time_of(
        pruned_state(state).seen_items,
        id,
    ) == time_of(state.seen_items, id));
    assert(knows(pruned_state(state).loaded_items, id) ==> time_of(
        pruned_state(state).loaded_items,
        id,
    ) == time_of(state.loaded_items, id));
}

/// A refresh that is done forgets nothing that was seen or loaded, as long as that is not too
/// much, and leaves nothing that need not be remembered.
pub proof fn law_refresh_forgets_nothing(run: RunView, urls: Seq<Seq<char>>, id: Seq<char>)
    requires
        sound_run(run),
    ensures
        run.working.seen_items.len() <= RSS_MAX_SEEN_ITEMS ==> time_of(
            refreshed(run, urls).seen_items,
            id,
        ) == time_of(run.working.seen_items, id),
        run.working.loaded_items.len() <= RSS_MAX_SEEN_ITEMS ==> time_of(
            refreshed(run, urls).loaded_items,
            id,
        ) == time_of(run.working.loaded_items, id),
        pruned_state(refreshed(run, urls)) == refreshed(run, urls),
{
    let r = refreshed(run, urls);
    law_refreshed(run, urls, 0);
    lemma_retained(run.working.feeds, urls);
    let state = StateView {
        feeds: r.feeds,
        last_error: r.last_error,
        last_updated: r.last_updated,
        latest_guid: r.latest_guid,
        initialized: r.initialized,
        ..run.working
    };
    assert(r == pruned_state(state));
    lemma_little(state, id);
    law_state_pruned_once(state);
}

/// How much is kept, shown and remembered: a hundred items of each feed, three hundred in all,
/// and five thousand identities. The feeds are refreshed every five minutes.
pub proof fn law_limits()
    ensures
        RSS_MAX_ITEMS_PER_FEED == 100,
        RSS_MAX_ITEMS_TOTAL == 300,
        RSS_MAX_SEEN_ITEMS == 5000,
        RSS_REFRESH_INTERVAL_SECS == 5 * 60,
{
}

/// The address of a feed is a web address.
pub proof fn law_feed_url(line: Seq<char>)
    ensures
        is_feed_url(line) <==> "http://"@.is_prefix_of(line) || "https://"@.is_prefix_of(line),
{
}

/// Every remembered identity is known, and no other.
pub proof fn law_knows(items: Seq<KnownView>, id: Seq<char>, i: int)
    ensures
        0 <= i < items.len() ==> knows(items, items[i].0),
        (forall|k: int| 0 <= k < items.len() ==> (#[trigger] items[k]).0 != id) ==> !knows(
            items,
            id,
        ),
{
}

/// An item that a finished refresh keeps stays known: what was seen or loaded of it is
/// remembered with its time, however much else there is.
pub proof fn law_kept_item_stays_known(run: RunView, urls: Seq<Seq<char>>, i: int, k: int)
    requires
        sound_run(run),
        0 <= i < refreshed(run, urls).feeds.len(),
        0 <= k < refreshed(run, urls).feeds[i].feed.items.len(),
    ensures
        ({
            let id = refreshed(run, urls).feeds[i].feed.items[k].id;
            &&& knows(run.working.seen_items, id) ==> time_of(refreshed(run, urls).seen_items, id)
                == time_of(run.working.seen_items, id)
            &&& knows(run.working.loaded_items, id) ==> time_of(
                refreshed(run, urls).loaded_items,
                id,
            ) == time_of(run.working.loaded_items, id)
        }),
{
    let r = refreshed(run, urls);
    let item = r.feeds[i].feed.items[k];
    let all = all_items(r.feeds);
    law_all_items(r.feeds, r.feeds[i], i, k);
    let m = choose|m: int| 0 <= m < all.len() && all[m] == item;
    assert(ids_of(all)[m] == item.id);
    law_pruned(run.working.seen_items, ids_of(all), RSS_MAX_SEEN_ITEMS as nat);
    law_pruned(run.working.loaded_items, ids_of(all), RSS_MAX_SEEN_ITEMS as nat);
}

} // verus!
