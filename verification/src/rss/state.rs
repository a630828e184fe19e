//! What is kept of the feeds, and what is shown of it.
use vstd::prelude::*;

use crate::common::{RssItem, RssItemView, RssSnapshot, SnapshotView};
use crate::order::{rank_of, sort_by_rank, stable_sorted, values};
use crate::outside::clock::unix_seconds;
use crate::rss::known::{distinct_ids, pruned, remembered, KnownItems, KnownView};
use crate::text::{among, nonempty_lines, starts_with, trimmed_lines, views};

verus! {

/// How many items of one feed are kept.
pub const RSS_MAX_ITEMS_PER_FEED: usize = 100;

/// How many items are shown.
pub const RSS_MAX_ITEMS_TOTAL: usize = 300;

/// How many items are remembered beyond those of the feeds.
pub const RSS_MAX_SEEN_ITEMS: usize = 5000;

/// How many seconds lie between two refreshes.
pub const RSS_REFRESH_INTERVAL_SECS: u64 = 300;

/// What is kept of a feed.
pub struct PersistedRssFeed {
    pub title: String,
    pub items: Vec<RssItem>,
    pub last_updated: i64,
    pub last_error: String,
}

/// The values of a kept feed.
pub struct KeptFeedView {
    pub title: Seq<char>,
    pub items: Seq<RssItemView>,
    pub last_updated: i64,
    pub last_error: Seq<char>,
}

impl View for PersistedRssFeed {
    type V = KeptFeedView;

    open spec fn view(&self) -> KeptFeedView {
        KeptFeedView {
            title: self.title@,
            items: values(self.items@),
            last_updated: self.last_updated,
            last_error: self.last_error@,
        }
    }
}

/// A kept feed under the address that it is read from.
pub struct FeedEntry {
    pub url: String,
    pub feed: PersistedRssFeed,
}

/// The values of a kept feed under its address.
pub struct EntryView {
    pub url: Seq<char>,
    pub feed: KeptFeedView,
}

impl View for FeedEntry {
    type V = EntryView;

    open spec fn view(&self) -> EntryView {
        EntryView { url: self.url@, feed: self.feed@ }
    }
}

/// All that is kept of the feeds.
pub struct PersistedRssState {
    pub feeds: Vec<FeedEntry>,
    pub last_error: String,
    pub last_updated: i64,
    pub latest_guid: String,
    pub seen_items: KnownItems,
    pub loaded_items: KnownItems,
    pub initialized: bool,
}

/// The values of all that is kept.
pub struct StateView {
    pub feeds: Seq<EntryView>,
    pub last_error: Seq<char>,
    pub last_updated: i64,
    pub latest_guid: Seq<char>,
    pub seen_items: Seq<KnownView>,
    pub loaded_items: Seq<KnownView>,
    pub initialized: bool,
}

impl View for PersistedRssState {
    type V = StateView;

    open spec fn view(&self) -> StateView {
        StateView {
            feeds: values(self.feeds@),
            last_error: self.last_error@,
            last_updated: self.last_updated,
            latest_guid: self.latest_guid@,
            seen_items: self.seen_items@,
            loaded_items: self.loaded_items@,
            initialized: self.initialized,
        }
    }
}

/// The state before anything was read.
pub open spec fn blank_state() -> StateView {
    StateView {
        feeds: Seq::empty(),
        last_error: ""@,
        last_updated: 0,
        latest_guid: ""@,
        seen_items: Seq::empty(),
        loaded_items: Seq::empty(),
        initialized: false,
    }
}

/// Whether no address occurs twice.
pub open spec fn distinct_urls(feeds: Seq<EntryView>) -> bool {
    forall|i: int, j: int|
        0 <= i < j < feeds.len() ==> (#[trigger] feeds[i]).url != (#[trigger] feeds[j]).url
}

/// A sound state: no address and no remembered identity occurs twice.
pub open spec fn sound(state: StateView) -> bool {
    &&& distinct_urls(state.feeds)
    &&& distinct_ids(state.seen_items)
    &&& distinct_ids(state.loaded_items)
}

/// The items of all feeds.
pub open spec fn all_items(feeds: Seq<EntryView>) -> Seq<RssItemView>
    decreases feeds.len(),
{
    if feeds.len() == 0 {
        Seq::empty()
    } else {
        all_items(feeds.drop_last()) + feeds.last().feed.items
    }
}

/// The identities of items.
pub open spec fn ids_of(items: Seq<RssItemView>) -> Seq<Seq<char>> {
    items.map_values(|i: RssItemView| i.id)
}

/// The items that are the first with their identity.
pub open spec fn first_of_each(items: Seq<RssItemView>) -> Seq<RssItemView>
    decreases items.len(),
{
    if items.len() == 0 {
        items
    } else {
        let front = first_of_each(items.drop_last());
        if ids_of(front).contains(items.last().id) {
            front
        } else {
            front.push(items.last())
        }
    }
}

/// At most the first `limit`.
pub open spec fn at_most<T>(items: Seq<T>, limit: int) -> Seq<T> {
    if items.len() <= limit {
        items
    } else {
        items.take(limit)
    }
}

/// The items in the order of the list.
pub open spec fn listed(items: Seq<RssItemView>) -> Seq<RssItemView> {
    stable_sorted(items, rank_of::<RssItem>())
}

/// The items that are shown.
pub open spec fn shown_items(feeds: Seq<EntryView>) -> Seq<RssItemView> {
    at_most(listed(first_of_each(all_items(feeds))), RSS_MAX_ITEMS_TOTAL as int)
}

/// What is shown of `state`.
pub open spec fn snapshot_of(state: StateView, feed_count: usize) -> SnapshotView {
    SnapshotView {
        items: shown_items(state.feeds),
        latest_guid: state.latest_guid,
        last_updated: state.last_updated,
        last_error: state.last_error,
        feed_count,
    }
}

/// `state` without what need not be remembered.
pub open spec fn pruned_state(state: StateView) -> StateView {
    let ids = ids_of(all_items(state.feeds));
    StateView {
        seen_items: pruned(state.seen_items, ids, RSS_MAX_SEEN_ITEMS as nat),
        loaded_items: pruned(state.loaded_items, ids, RSS_MAX_SEEN_ITEMS as nat),
        ..state
    }
}

/// The item, told to be loaded if it has the identity.
pub open spec fn marked_item(item: RssItemView, id: Seq<char>) -> RssItemView {
    if item.id == id {
        RssItemView { loaded: true, is_new: false, ..item }
    } else {
        item
    }
}

/// The items, those with the identity told to be loaded.
pub open spec fn marked_items(items: Seq<RssItemView>, id: Seq<char>) -> Seq<RssItemView> {
    items.map_values(|i: RssItemView| marked_item(i, id))
}

/// The feeds, their items with the identity told to be loaded.
pub open spec fn marked_feeds(feeds: Seq<EntryView>, id: Seq<char>) -> Seq<EntryView> {
    feeds.map_values(
        |e: EntryView|
            EntryView {
                url: e.url,
                feed: KeptFeedView { items: marked_items(e.feed.items, id), ..e.feed },
            },
    )
}

/// `state` after the item with the identity was loaded at `now`.
pub open spec fn marked_loaded(state: StateView, id: Seq<char>, now: i64) -> StateView {
    pruned_state(
        StateView {
            feeds: marked_feeds(state.feeds, id),
            seen_items: remembered(state.seen_items, id, now),
            loaded_items: remembered(state.loaded_items, id, now),
            ..state
        },
    )
}

/// Seconds since the epoch as a time stamp; 0 where the clock stands before the epoch.
pub fn time_stamp(seconds: Option<u64>) -> (r: i64)
    ensures
        seconds is None ==> r == 0,
        seconds matches Some(s) ==> r == s as i64,
{
    match seconds {
        Some(s) => s as i64,
        None => 0,
    }
}

/// The present time stamp.
pub fn now_ts() -> i64 {
    time_stamp(unix_seconds())
}

/// The identities of the items of all feeds.
fn feed_ids(feeds: &Vec<FeedEntry>) -> (r: Vec<String>)
    ensures
        views(r@) == ids_of(all_items(values(feeds@))),
{
    let ghost entries = values(feeds@);
    let mut ids: Vec<String> = Vec::new();
    let mut i: usize = 0;
    proof {
        assert(entries.take(0) =~= Seq::empty());
        assert(views(ids@) =~= ids_of(all_items(entries.take(0))));
    }
    while i < feeds.len()
        invariant
            i <= feeds@.len(),
            entries == values(feeds@),
            views(ids@) == ids_of(all_items(entries.take(i as int))),
        decreases feeds@.len() - i,
    {
        let items = &feeds[i].feed.items;
        let ghost done = all_items(entries.take(i as int));
        let ghost here = values(items@);
        let mut j: usize = 0;
        proof {
            assert(done + here.take(0) =~= done);
        }
        while j < items.len()
            invariant
                j <= items@.len(),
                here == values(items@),
                views(ids@) == ids_of(done + here.take(j as int)),
            decreases items@.len() - j,
        {
            let ghost before = views(ids@);
            ids.push(items[j].id.clone());
            j = j + 1;
            proof {
                assert(views(ids@) =~= before.push(here[j - 1].id));
                assert(done + here.take(j as int) =~= (done + here.take(j - 1)).push(here[j - 1]));
                assert(ids_of(done + here.take(j as int)) =~= before.push(here[j - 1].id));
            }
        }
        i = i + 1;
        proof {
            assert(here.take(j as int) =~= here);
            assert(entries.take(i as int).drop_last() =~= entries.take(i - 1));
            assert(entries.take(i as int).last().feed.items == here);
        }
    }
    proof {
        assert(entries.take(i as int) =~= entries);
    }
    ids
}

/// Whether an identity is among those of `items`.
fn has_id(items: &Vec<RssItem>, id: &String) -> (r: bool)
    ensures
        r == ids_of(values(items@)).contains(id@),
{
    let mut i: usize = 0;
    while i < items.len()
        invariant
            i <= items@.len(),
            forall|k: int| 0 <= k < i ==> (#[trigger] values(items@)[k]).id != id@,
        decreases items@.len() - i,
    {
        if items[i].id == *id {
            proof {
                assert(ids_of(values(items@))[i as int] == id@);
            }
            return true;
        }
        i = i + 1;
    }
    proof {
        if ids_of(values(items@)).contains(id@) {
            let k = choose|k: int|
                0 <= k < ids_of(values(items@)).len() && ids_of(values(items@))[k] == id@;
            assert(values(items@)[k].id == id@);
        }
    }
    false
}

/// The items that are the first with their identity, over all feeds.
fn distinct_items(feeds: &Vec<FeedEntry>) -> (r: Vec<RssItem>)
    ensures
        values(r@) == first_of_each(all_items(values(feeds@))),
{
    let ghost entries = values(feeds@);
    let mut found: Vec<RssItem> = Vec::new();
    let mut i: usize = 0;
    proof {
        assert(entries.take(0) =~= Seq::empty());
        assert(values(found@) =~= Seq::empty());
    }
    while i < feeds.len()
        invariant
            i <= feeds@.len(),
            entries == values(feeds@),
            values(found@) == first_of_each(all_items(entries.take(i as int))),
        decreases feeds@.len() - i,
    {
        let items = &feeds[i].feed.items;
        let ghost done = all_items(entries.take(i as int));
        let ghost here = values(items@);
        let mut j: usize = 0;
        proof {
            assert(done + here.take(0) =~= done);
        }
        while j < items.len()
            invariant
                j <= items@.len(),
                here == values(items@),
                values(found@) == first_of_each(done + here.take(j as int)),
            decreases items@.len() - j,
        {
            let ghost before = values(found@);
            proof {
                let next = done + here.take(j + 1);
                assert(next.drop_last() =~= done + here.take(j as int));
                assert(next.last() == items@[j as int]@);
            }
            if !has_id(&found, &items[j].id) {
                found.push(items[j].copy());
                proof {
                    assert(values(found@) =~= before.push(items@[j as int]@));
                }
            }
            j = j + 1;
        }
        i = i + 1;
        proof {
            assert(here.take(j as int) =~= here);
            assert(entries.take(i as int).drop_last() =~= entries.take(i - 1));
            assert(entries.take(i as int).last().feed.items == here);
        }
    }
    proof {
        assert(entries.take(i as int) =~= entries);
    }
    found
}

/// At most the first `limit` items.
pub(crate) fn truncated(items: Vec<RssItem>, limit: usize) -> (r: Vec<RssItem>)
    ensures
        values(r@) == at_most(values(items@), limit as int),
{
    let mut kept = items;
    if kept.len() > limit {
        let ghost all = values(kept@);
        kept.truncate(limit);
        proof {
            assert(values(kept@) =~= all.take(limit as int));
        }
    }
    kept
}

/// What is shown of `state`.
pub fn snapshot_from_state(state: &PersistedRssState, feed_count: usize) -> (r: RssSnapshot)
    ensures
        r@ == snapshot_of(state@, feed_count),
{
    let items = truncated(sort_by_rank(distinct_items(&state.feeds)), RSS_MAX_ITEMS_TOTAL);
    RssSnapshot {
        items,
        latest_guid: state.latest_guid.clone(),
        last_updated: state.last_updated,
        last_error: state.last_error.clone(),
        feed_count,
    }
}

/// Forgets what need not be remembered.
pub fn prune_tracked_items(state: &mut PersistedRssState)
    ensures
        final(state)@ == pruned_state(old(state)@),
{
    let ids = feed_ids(&state.feeds);
    state.seen_items.prune(&ids, RSS_MAX_SEEN_ITEMS);
    state.loaded_items.prune(&ids, RSS_MAX_SEEN_ITEMS);
}

/// Tells the items with the identity to be loaded.
fn mark_items(items: &mut Vec<RssItem>, id: &String)
    ensures
        values(final(items)@) == marked_items(values(old(items)@), id@),
{
    let ghost all = values(items@);
    let mut i: usize = 0;
    while i < items.len()
        invariant
            i <= items@.len(),
            items@.len() == all.len(),
            forall|k: int|
                0 <= k < items@.len() ==> (#[trigger] items@[k])@ == (if k < i {
                    marked_item(all[k], id@)
                } else {
                    all[k]
                }),
        decreases items@.len() - i,
    {
        if items[i].id == *id {
            let mut item = items[i].copy();
            item.loaded = true;
            item.is_new = false;
            items.set(i, item);
        }
        i = i + 1;
    }
    proof {
        assert(values(items@) =~= marked_items(all, id@));
    }
}

/// Tells the items with the identity to be loaded, in all feeds.
pub(crate) fn mark_feeds(feeds: &mut Vec<FeedEntry>, id: &String)
    ensures
        values(final(feeds)@) == marked_feeds(values(old(feeds)@), id@),
{
    let ghost all = values(feeds@);
    let mut rest: Vec<FeedEntry> = Vec::new();
    std::mem::swap(&mut rest, feeds);
    let ghost given = rest@;
    for entry in it: rest
        invariant
            it.seq() == given,
            all == values(given),
            values(feeds@) == marked_feeds(all, id@).take(it.index()),
    {
        let ghost before = values(feeds@);
        let mut entry = entry;
        mark_items(&mut entry.feed.items, id);
        let ghost marked = entry@;
        feeds.push(entry);
        proof {
            assert(values(feeds@) =~= before.push(marked));
            assert(marked == marked_feeds(all, id@)[it.index()]);
            assert(marked_feeds(all, id@).take(it.index() + 1) =~= before.push(marked));
        }
    }
    proof {
        assert(marked_feeds(all, id@).take(all.len() as int) =~= marked_feeds(all, id@));
    }
}

impl PersistedRssState {
    /// The same state once more.
    pub fn copy(&self) -> (r: PersistedRssState)
        ensures
            r@ == self@,
    {
        let mut feeds: Vec<FeedEntry> = Vec::new();
        let mut i: usize = 0;
        while i < self.feeds.len()
            invariant
                i <= self.feeds@.len(),
                values(feeds@) == values(self.feeds@).take(i as int),
            decreases self.feeds@.len() - i,
        {
            let ghost before = values(feeds@);
            let entry = self.feeds[i].copy();
            let ghost copied = entry@;
            feeds.push(entry);
            i = i + 1;
            proof {
                assert(values(feeds@) =~= before.push(copied));
                assert(values(self.feeds@).take(i as int) =~= before.push(copied));
            }
        }
        proof {
            assert(values(self.feeds@).take(i as int) =~= values(self.feeds@));
        }
        PersistedRssState {
            feeds,
            last_error: self.last_error.clone(),
            last_updated: self.last_updated,
            latest_guid: self.latest_guid.clone(),
            seen_items: self.seen_items.copy(),
            loaded_items: self.loaded_items.copy(),
            initialized: self.initialized,
        }
    }
}

impl FeedEntry {
    /// The same feed once more.
    pub fn copy(&self) -> (r: FeedEntry)
        ensures
            r@ == self@,
    {
        let mut items: Vec<RssItem> = Vec::new();
        let mut i: usize = 0;
        while i < self.feed.items.len()
            invariant
                i <= self.feed.items@.len(),
                values(items@) == values(self.feed.items@).take(i as int),
            decreases self.feed.items@.len() - i,
        {
            let ghost before = values(items@);
            items.push(self.feed.items[i].copy());
            i = i + 1;
            proof {
                let copied = self.feed.items@[i - 1]@;
                assert(values(items@) =~= before.push(copied));
                assert(values(self.feed.items@).take(i as int) =~= before.push(copied));
            }
        }
        proof {
            assert(values(self.feed.items@).take(i as int) =~= values(self.feed.items@));
        }
        FeedEntry {
            url: self.url.clone(),
            feed: PersistedRssFeed {
                title: self.feed.title.clone(),
                items,
                last_updated: self.feed.last_updated,
                last_error: self.feed.last_error.clone(),
            },
        }
    }
}

impl Default for PersistedRssState {
    /// The state before anything was read.
    fn default() -> (r: PersistedRssState)
        ensures
            r@ == blank_state(),
    {
        let r = PersistedRssState {
            feeds: Vec::new(),
            last_error: String::from_str(""),
            last_updated: 0,
            latest_guid: String::from_str(""),
            seen_items: KnownItems::new(),
            loaded_items: KnownItems::new(),
            initialized: false,
        };
        proof {
            assert(values(r.feeds@) =~= Seq::empty());
        }
        r
    }
}

/// Whether a line of the settings is the address of a feed.
pub open spec fn is_feed_url(line: Seq<char>) -> bool {
    "http://"@.is_prefix_of(line) || "https://"@.is_prefix_of(line)
}

/// The addresses among `lines`, each where it first occurs.
pub open spec fn feed_urls(lines: Seq<Seq<char>>) -> Seq<Seq<char>>
    decreases lines.len(),
{
    if lines.len() == 0 {
        lines
    } else {
        let front = feed_urls(lines.drop_last());
        if is_feed_url(lines.last()) && !front.contains(lines.last()) {
            front.push(lines.last())
        } else {
            front
        }
    }
}

/// The addresses of the feeds that the settings name, one to a line.
pub fn configured_rss_urls(config: &str) -> (r: Vec<String>)
    ensures
        views(r@) == feed_urls(trimmed_lines(config@)),
{
    let lines = nonempty_lines(config);
    let ghost all = views(lines@);
    let mut urls: Vec<String> = Vec::new();
    let mut i: usize = 0;
    proof {
        assert(all.take(0) =~= Seq::empty());
        assert(views(urls@) =~= Seq::empty());
    }
    while i < lines.len()
        invariant
            i <= lines@.len(),
            all == views(lines@),
            views(urls@) == feed_urls(all.take(i as int)),
        decreases lines@.len() - i,
    {
        let line = &lines[i];
        let ghost before = views(urls@);
        proof {
            assert(all.take(i + 1).drop_last() =~= all.take(i as int));
            assert(all.take(i + 1).last() == line@);
        }
        if (starts_with(line.as_str(), "http://") || starts_with(line.as_str(), "https://"))
            && !among(&urls, line) {
            urls.push(line.clone());
            proof {
                assert(views(urls@) =~= before.push(line@));
            }
        }
        i = i + 1;
    }
    proof {
        assert(all.take(i as int) =~= all);
    }
    urls
}

} // verus!
