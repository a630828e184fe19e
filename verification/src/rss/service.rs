//! Keeping the feeds up to date.
use vstd::prelude::*;
use vstd::utf8::is_ascii_chars;

use crate::common::{RssItem, RssItemView, RssSnapshot, SnapshotView};
use crate::order::{sort_by_rank, values};
use crate::outside::codec::{lowercase, to_lower};
use crate::rss::feed::{feed_view, item_views, ParsedFeed};
use crate::rss::item::{item_key, key_of, ParsedFeedItem, ParsedView};
use crate::rss::known::{knows, remembered};
use crate::rss::state::{
    at_most, listed, mark_feeds, marked_loaded, prune_tracked_items, pruned_state,
    shown_items, snapshot_from_state, snapshot_of, truncated, EntryView, FeedEntry, KeptFeedView,
    PersistedRssFeed, PersistedRssState, StateView, RSS_MAX_ITEMS_PER_FEED,
};
use crate::text::{among, ascii_lower, concat, join, joined, view_opt, views};

verus! {

/// A feed that was asked for, and what came of it.
pub struct FetchedFeed {
    pub url: String,
    pub result: Result<ParsedFeed, String>,
}

/// The values of a feed that was asked for.
pub struct FetchedView {
    pub url: Seq<char>,
    pub result: Result<(Seq<char>, Seq<ParsedView>), Seq<char>>,
}

impl View for FetchedFeed {
    type V = FetchedView;

    open spec fn view(&self) -> FetchedView {
        FetchedView { url: self.url@, result: feed_view(self.result) }
    }
}

/// A feed whose items are being gone through.
pub struct OpenFeed {
    pub url: String,
    pub title: String,
    pub done: Vec<RssItem>,
    pub rest: Vec<ParsedFeedItem>,
}

/// The values of a feed whose items are being gone through.
pub struct OpenView {
    pub url: Seq<char>,
    pub title: Seq<char>,
    pub done: Seq<RssItemView>,
    pub rest: Seq<ParsedView>,
}

impl View for OpenFeed {
    type V = OpenView;

    open spec fn view(&self) -> OpenView {
        OpenView {
            url: self.url@,
            title: self.title@,
            done: values(self.done@),
            rest: item_views(self.rest@),
        }
    }
}

/// A refresh under way.
pub struct RefreshRun {
    pub working: PersistedRssState,
    pub existing: Vec<String>,
    pub now: i64,
    pub any_success: bool,
    pub errors: Vec<String>,
    pub todo: Vec<FetchedFeed>,
    pub open: Option<OpenFeed>,
    pub before: RssSnapshot,
}

/// The values of a refresh under way.
pub struct RunView {
    pub working: StateView,
    pub existing: Seq<Seq<char>>,
    pub now: i64,
    pub any_success: bool,
    pub errors: Seq<Seq<char>>,
    pub todo: Seq<FetchedView>,
    pub open: Option<OpenView>,
    pub before: SnapshotView,
}

/// The values of an optional open feed.
pub open spec fn open_view(open: Option<OpenFeed>) -> Option<OpenView> {
    match open {
        Some(o) => Some(o@),
        None => None,
    }
}

impl View for RefreshRun {
    type V = RunView;

    open spec fn view(&self) -> RunView {
        RunView {
            working: self.working@,
            existing: views(self.existing@),
            now: self.now,
            any_success: self.any_success,
            errors: views(self.errors@),
            todo: values(self.todo@),
            open: open_view(self.open),
            before: self.before@,
        }
    }
}

/// What a refresh gave.
pub struct RssRefreshOutcome {
    pub snapshot: RssSnapshot,
    pub changed: bool,
}

/// Whether an item counts as loaded already.
pub open spec fn already_loaded(run: RunView, id: Seq<char>, item: ParsedView) -> bool {
    knows(run.working.loaded_items, id) || (item.info_hash matches Some(hash)
        && run.existing.contains(hash))
}

/// Whether an item counts as new.
pub open spec fn counts_as_new(run: RunView, id: Seq<char>) -> bool {
    run.working.initialized && !knows(run.working.seen_items, id)
}

/// Whether the next item of `open` is to be loaded.
pub open spec fn loads_next(run: RunView, open: OpenView) -> bool {
    open.rest.len() > 0 && ({
        let id = key_of(open.url, open.rest[0]);
        counts_as_new(run, id) && !already_loaded(run, id, open.rest[0])
    })
}

/// What the refresh waits for: the loading of the next item.
pub open spec fn wanted_load(run: RunView) -> Option<Seq<char>> {
    match run.open {
        Some(open) => if loads_next(run, open) {
            Some(open.rest[0].load_url)
        } else {
            None
        },
        None => None,
    }
}

/// The message on an item that could not be loaded.
pub open spec fn load_error(url: Seq<char>, title: Seq<char>, error: Seq<char>) -> Seq<char> {
    url + ": failed to load '"@ + title + "' ("@ + error + ")"@
}

/// The item as it is kept.
pub open spec fn kept_item(
    url: Seq<char>,
    title: Seq<char>,
    item: ParsedView,
    is_new: bool,
    loaded: bool,
) -> RssItemView {
    RssItemView {
        id: key_of(url, item),
        title: item.title,
        link: item.link,
        load_url: item.load_url,
        source_title: if title.len() == 0 {
            url
        } else {
            title
        },
        source_url: url,
        published: item.published,
        published_ts: item.published_ts,
        is_new,
        loaded,
    }
}

/// `run` after the next item of `open` was taken. `answer` is what came of loading it,
/// where it was loaded.
pub open spec fn taken(
    run: RunView,
    open: OpenView,
    answer: Option<Result<(), Seq<char>>>,
) -> RunView {
    let item = open.rest[0];
    let id = key_of(open.url, item);
    let is_new = counts_as_new(run, id);
    let succeeded = answer matches Some(Ok(_));
    let loaded = already_loaded(run, id, item) || succeeded;
    let seen = knows(run.working.seen_items, id) || !run.working.initialized || loaded;
    RunView {
        working: StateView {
            loaded_items: if loaded {
                remembered(run.working.loaded_items, id, run.now)
            } else {
                run.working.loaded_items
            },
            seen_items: if seen {
                remembered(run.working.seen_items, id, run.now)
            } else {
                run.working.seen_items
            },
            ..run.working
        },
        existing: match item.info_hash {
            Some(hash) => if succeeded {
                run.existing.push(hash)
            } else {
                run.existing
            },
            None => run.existing,
        },
        errors: match answer {
            Some(Err(error)) => run.errors.push(load_error(open.url, item.title, error)),
            _ => run.errors,
        },
        open: Some(
            OpenView {
                done: open.done.push(kept_item(open.url, open.title, item, is_new, loaded)),
                rest: open.rest.skip(1),
                ..open
            },
        ),
        ..run
    }
}

/// The feeds, with `feed` kept under `url` in place of what was kept there.
pub open spec fn with_feed(feeds: Seq<EntryView>, url: Seq<char>, feed: KeptFeedView) -> Seq<
    EntryView,
>
    decreases feeds.len(),
{
    if feeds.len() == 0 {
        seq![EntryView { url, feed }]
    } else if feeds[0].url == url {
        seq![EntryView { url, feed }] + feeds.skip(1)
    } else {
        seq![feeds[0]] + with_feed(feeds.skip(1), url, feed)
    }
}

/// What is kept under `url`; a blank feed where nothing is.
pub open spec fn feed_at(feeds: Seq<EntryView>, url: Seq<char>) -> KeptFeedView
    decreases feeds.len(),
{
    if feeds.len() == 0 {
        KeptFeedView { title: ""@, items: Seq::empty(), last_updated: 0, last_error: ""@ }
    } else if feeds[0].url == url {
        feeds[0].feed
    } else {
        feed_at(feeds.skip(1), url)
    }
}

/// `run` after all items of `open` were taken: the feed is kept with the first of them.
pub open spec fn closed_feed(run: RunView, open: OpenView) -> RunView {
    RunView {
        working: StateView {
            feeds: with_feed(
                run.working.feeds,
                open.url,
                KeptFeedView {
                    title: open.title,
                    items: at_most(listed(open.done), RSS_MAX_ITEMS_PER_FEED as int),
                    last_updated: run.now,
                    last_error: ""@,
                },
            ),
            ..run.working
        },
        open: None,
        ..run
    }
}

/// `run` after the next feed was begun: it is gone through if it was read, else the error
/// is noted with what is kept of it.
pub open spec fn begun(run: RunView) -> RunView {
    let next = run.todo[0];
    let rest = run.todo.skip(1);
    match next.result {
        Ok((title, items)) => RunView {
            any_success: true,
            todo: rest,
            open: Some(OpenView { url: next.url, title, done: Seq::empty(), rest: items }),
            ..run
        },
        Err(error) => RunView {
            working: StateView {
                feeds: with_feed(
                    run.working.feeds,
                    next.url,
                    KeptFeedView { last_error: error, ..feed_at(run.working.feeds, next.url) },
                ),
                ..run.working
            },
            errors: run.errors.push(next.url + ": "@ + error),
            todo: rest,
            ..run
        },
    }
}

/// How far the open feed is from being closed.
pub open spec fn open_weight(open: Option<OpenView>) -> nat {
    match open {
        Some(o) => o.rest.len() + 1,
        None => 0,
    }
}

/// `run`, gone on until an item is to be loaded or nothing is left to do.
pub open spec fn settled(run: RunView) -> RunView
    decreases run.todo.len(), open_weight(run.open),
{
    match run.open {
        Some(open) => if open.rest.len() == 0 {
            settled(closed_feed(run, open))
        } else if loads_next(run, open) {
            run
        } else {
            settled(taken(run, open, None))
        },
        None => if run.todo.len() == 0 {
            run
        } else {
            settled(begun(run))
        },
    }
}

/// The feeds whose address is among `urls`.
pub open spec fn retained(feeds: Seq<EntryView>, urls: Seq<Seq<char>>) -> Seq<EntryView>
    decreases feeds.len(),
{
    if feeds.len() == 0 {
        feeds
    } else {
        let front = retained(feeds.drop_last(), urls);
        if urls.contains(feeds.last().url) {
            front.push(feeds.last())
        } else {
            front
        }
    }
}

/// The identity of the first item; nothing where there is none.
pub open spec fn first_id(items: Seq<RssItemView>) -> Seq<char> {
    if items.len() > 0 {
        items[0].id
    } else {
        ""@
    }
}

/// The state that a finished refresh leaves, where the settings name `urls`.
pub open spec fn refreshed(run: RunView, urls: Seq<Seq<char>>) -> StateView {
    let feeds = retained(run.working.feeds, urls);
    pruned_state(
        StateView {
            feeds,
            last_error: join(run.errors, "\n"@),
            last_updated: if run.any_success {
                run.now
            } else {
                run.working.last_updated
            },
            latest_guid: first_id(shown_items(feeds)),
            initialized: run.working.initialized || run.any_success,
            ..run.working
        },
    )
}

/// The state without feeds, where the settings name none.
pub open spec fn cleared(state: StateView) -> StateView {
    StateView {
        feeds: Seq::empty(),
        last_error: ""@,
        last_updated: 0,
        latest_guid: ""@,
        seen_items: Seq::empty(),
        loaded_items: Seq::empty(),
        initialized: state.initialized,
    }
}

/// A refresh that has just begun.
pub open spec fn started(
    state: StateView,
    fetched: Seq<FetchedView>,
    existing: Seq<Seq<char>>,
    now: i64,
) -> RunView {
    RunView {
        working: state,
        existing,
        now,
        any_success: false,
        errors: Seq::empty(),
        todo: fetched,
        open: None,
        before: snapshot_of(state, state.feeds.len() as usize),
    }
}

/// What came of loading an item, in values.
pub open spec fn answer_view(answer: Result<(), String>) -> Result<(), Seq<char>> {
    match answer {
        Ok(u) => Ok(u),
        Err(error) => Err(error@),
    }
}

/// The info hashes in lower case.
pub open spec fn lowered_hashes(hashes: Seq<Seq<char>>) -> Seq<Seq<char>> {
    hashes.map_values(|h: Seq<char>| lowercase(h))
}

/// The info hashes of the torrents that are there, in lower case.
pub fn existing_info_hashes(hashes: &Vec<String>) -> (r: Vec<String>)
    ensures
        views(r@) == lowered_hashes(views(hashes@)),
        forall|i: int|
            0 <= i < hashes@.len() && is_ascii_chars((#[trigger] hashes@[i])@) ==> r@[i]@
                == ascii_lower(hashes@[i]@),
{
    let mut lowered: Vec<String> = Vec::new();
    let mut i: usize = 0;
    while i < hashes.len()
        invariant
            i <= hashes@.len(),
            lowered@.len() == i,
            views(lowered@) == lowered_hashes(views(hashes@)).take(i as int),
            forall|k: int|
                0 <= k < i && is_ascii_chars((#[trigger] hashes@[k])@) ==> lowered@[k]@
                    == ascii_lower(hashes@[k]@),
        decreases hashes@.len() - i,
    {
        let ghost before = views(lowered@);
        let hash = to_lower(hashes[i].as_str());
        let ghost seen = hash@;
        lowered.push(hash);
        i = i + 1;
        proof {
            assert(views(lowered@) =~= before.push(seen));
            assert(lowered_hashes(views(hashes@)).take(i as int) =~= before.push(seen));
        }
    }
    proof {
        assert(lowered_hashes(views(hashes@)).take(i as int) =~= lowered_hashes(views(hashes@)));
    }
    lowered
}

/// Keeps `feed` under `url` in place of what was kept there.
fn put_feed(feeds: &mut Vec<FeedEntry>, url: String, feed: PersistedRssFeed)
    ensures
        values(final(feeds)@) == with_feed(values(old(feeds)@), url@, feed@),
{
    let ghost all = values(feeds@);
    let ghost name = url@;
    let ghost kept = feed@;
    let n: usize = feeds.len();
    let mut i: usize = 0;
    proof {
        assert(all.skip(0) =~= all);
        assert(all.take(0) + with_feed(all, name, kept) =~= with_feed(all, name, kept));
    }
    while i < n && !(feeds[i].url == url)
        invariant
            i <= n,
            n == feeds@.len(),
            values(feeds@) == all,
            name == url@,
            with_feed(all, name, kept) == all.take(i as int) + with_feed(
                all.skip(i as int),
                name,
                kept,
            ),
        decreases n - i,
    {
        proof {
            let rest = all.skip(i as int);
            assert(rest[0] == feeds@[i as int]@);
            assert(rest.skip(1) =~= all.skip(i + 1));
            assert(all.take(i + 1) + with_feed(rest.skip(1), name, kept) =~= all.take(i as int) + (
            seq![rest[0]] + with_feed(rest.skip(1), name, kept)));
        }
        i = i + 1;
    }
    proof {
        let rest = all.skip(i as int);
        if i < n {
            assert(rest[0] == feeds@[i as int]@);
        } else {
            assert(rest =~= Seq::empty());
        }
    }
    let entry = FeedEntry { url, feed };
    let ghost seen = entry@;
    if i < n {
        feeds.set(i, entry);
        proof {
            assert(values(feeds@) =~= all.take(i as int) + (seq![seen] + all.skip(i as int).skip(
                1,
            )));
        }
    } else {
        feeds.push(entry);
        proof {
            assert(values(feeds@) =~= all.take(i as int) + seq![seen]);
        }
    }
}

/// What is kept under `url`; a blank feed where nothing is.
fn get_feed(feeds: &Vec<FeedEntry>, url: &String) -> (r: PersistedRssFeed)
    ensures
        r@ == feed_at(values(feeds@), url@),
{
    let ghost all = values(feeds@);
    let mut i: usize = 0;
    proof {
        assert(all.skip(0) =~= all);
    }
    while i < feeds.len()
        invariant
            i <= feeds@.len(),
            all == values(feeds@),
            feed_at(all, url@) == feed_at(all.skip(i as int), url@),
        decreases feeds@.len() - i,
    {
        proof {
            let rest = all.skip(i as int);
            assert(rest[0] == feeds@[i as int]@);
            assert(rest.skip(1) =~= all.skip(i + 1));
        }
        if feeds[i].url == *url {
            return feeds[i].copy().feed;
        }
        i = i + 1;
    }
    let blank = PersistedRssFeed {
        title: String::from_str(""),
        items: Vec::new(),
        last_updated: 0,
        last_error: String::from_str(""),
    };
    proof {
        assert(values(blank.items@) =~= Seq::empty());
    }
    blank
}

/// The message on an item that could not be loaded.
fn load_message(url: &String, title: &String, error: &String) -> (r: String)
    ensures
        r@ == load_error(url@, title@, error@),
{
    let mut all = concat(url.as_str(), ": failed to load '");
    all.append(title.as_str());
    all.append("' (");
    all.append(error.as_str());
    all.append(")");
    all
}

impl RefreshRun {
    /// Whether an item counts as loaded already.
    fn is_loaded(&self, id: &String, item: &ParsedFeedItem) -> (r: bool)
        ensures
            r == already_loaded(self@, id@, item@),
    {
        if self.working.loaded_items.contains(id) {
            return true;
        }
        match &item.info_hash {
            Some(hash) => among(&self.existing, hash),
            None => false,
        }
    }

    /// What the refresh waits for: the loading of the next item.
    pub fn wanted(&self) -> (r: Option<String>)
        ensures
            view_opt(r) == wanted_load(self@),
    {
        match &self.open {
            Some(open) => {
                if open.rest.len() == 0 {
                    return None;
                }
                proof {
                    assert(open@.rest[0] == open.rest@[0]@);
                }
                let item = &open.rest[0];
                let id = item_key(open.url.as_str(), item);
                if self.working.initialized && !self.working.seen_items.contains(&id)
                    && !self.is_loaded(&id, item) {
                    Some(item.load_url.clone())
                } else {
                    None
                }
            },
            None => None,
        }
    }

    /// Takes the next item of the open feed.
    fn take_next(&mut self, answer: Option<Result<(), String>>)
        requires
            old(self).open matches Some(open) && open.rest@.len() > 0,
        ensures
            final(self)@ == taken(
                old(self)@,
                old(self)@.open.unwrap(),
                match answer {
                    Some(a) => Some(answer_view(a)),
                    None => None,
                },
            ),
    {
        let ghost run = self@;
        let mut slot: Option<OpenFeed> = None;
        std::mem::swap(&mut slot, &mut self.open);
        if let Some(mut open) = slot {
            let ghost was = open@;
            let item = open.rest.remove(0);
            proof {
                assert(was.rest[0] == item@);
                assert(item_views(open.rest@) =~= was.rest.skip(1));
            }
            let id = item_key(open.url.as_str(), &item);
            let seen_before = self.working.seen_items.contains(&id);
            let is_new = self.working.initialized && !seen_before;
            let mut loaded = self.is_loaded(&id, &item);
            let mut existing = Vec::new();
            std::mem::swap(&mut existing, &mut self.existing);
            match answer {
                Some(Ok(_)) => {
                    loaded = true;
                    if let Some(hash) = &item.info_hash {
                        existing.push(hash.clone());
                        proof {
                            assert(views(existing@) =~= run.existing.push(hash@));
                        }
                    }
                },
                Some(Err(error)) => {
                    let message = load_message(&open.url, &item.title, &error);
                    let ghost told = message@;
                    self.errors.push(message);
                    proof {
                        assert(views(self.errors@) =~= run.errors.push(told));
                    }
                },
                None => {},
            }
            self.existing = existing;
            if loaded {
                self.working.loaded_items.insert(&id, self.now);
            }
            if seen_before || !self.working.initialized || loaded {
                self.working.seen_items.insert(&id, self.now);
            }
            let source_title = if open.title.as_str().is_empty() {
                open.url.clone()
            } else {
                open.title.clone()
            };
            let kept = RssItem {
                id,
                title: item.title,
                link: item.link,
                load_url: item.load_url,
                source_title,
                source_url: open.url.clone(),
                published: item.published,
                published_ts: item.published_ts,
                is_new,
                loaded,
            };
            let ghost shown = kept@;
            open.done.push(kept);
            proof {
                assert(values(open.done@) =~= was.done.push(shown));
            }
            self.open = Some(open);
        }
    }

    /// Keeps the open feed.
    fn close_feed(&mut self)
        requires
            old(self).open is Some,
        ensures
            final(self)@ == closed_feed(old(self)@, old(self)@.open.unwrap()),
    {
        let mut slot: Option<OpenFeed> = None;
        std::mem::swap(&mut slot, &mut self.open);
        if let Some(open) = slot {
            let items = truncated(sort_by_rank(open.done), RSS_MAX_ITEMS_PER_FEED);
            let feed = PersistedRssFeed {
                title: open.title,
                items,
                last_updated: self.now,
                last_error: String::from_str(""),
            };
            put_feed(&mut self.working.feeds, open.url, feed);
        }
    }

    /// Begins the next feed.
    fn begin_feed(&mut self)
        requires
            old(self).open is None,
            old(self).todo@.len() > 0,
        ensures
            final(self)@ == begun(old(self)@),
    {
        let ghost run = self@;
        let next = self.todo.remove(0);
        proof {
            assert(run.todo[0] == next@);
            assert(values(self.todo@) =~= run.todo.skip(1));
        }
        match next.result {
            Ok(parsed) => {
                self.any_success = true;
                let open = OpenFeed {
                    url: next.url,
                    title: parsed.title,
                    done: Vec::new(),
                    rest: parsed.items,
                };
                proof {
                    assert(values(open.done@) =~= Seq::empty());
                }
                self.open = Some(open);
            },
            Err(error) => {
                let mut message = concat(next.url.as_str(), ": ");
                message.append(error.as_str());
                let ghost told = message@;
                self.errors.push(message);
                proof {
                    assert(views(self.errors@) =~= run.errors.push(told));
                }
                let mut feed = get_feed(&self.working.feeds, &next.url);
                feed.last_error = error;
                put_feed(&mut self.working.feeds, next.url, feed);
            },
        }
    }

    /// Goes on until an item is to be loaded, and gives what to load; `None` where
    /// nothing is left to do.
    pub fn advance(&mut self) -> (r: Option<String>)
        ensures
            final(self)@ == settled(old(self)@),
            view_opt(r) == wanted_load(final(self)@),
    {
        let ghost goal = settled(self@);
        let mut wanted: Option<String> = None;
        let mut going: bool = true;
        while going
            invariant
                settled(self@) == goal,
                !going ==> self@ == goal && view_opt(wanted) == wanted_load(self@),
            decreases self@.todo.len(), open_weight(self@.open), going as int,
        {
            wanted = self.wanted();
            if wanted.is_some() {
                going = false;
            } else if let Some(open) = &self.open {
                if open.rest.len() == 0 {
                    self.close_feed();
                } else {
                    self.take_next(None);
                }
            } else if self.todo.len() == 0 {
                going = false;
            } else {
                self.begin_feed();
            }
        }
        wanted
    }

    /// Notes what came of the loading that the refresh waits for; nothing changes where
    /// it waits for none.
    pub fn answer(&mut self, result: Result<(), String>)
        ensures
            final(self)@ == (if wanted_load(old(self)@) is Some {
                taken(old(self)@, old(self)@.open.unwrap(), Some(answer_view(result)))
            } else {
                old(self)@
            }),
    {
        if self.wanted().is_some() {
            self.take_next(Some(result));
        }
    }
}

/// Keeps only the feeds whose address is among `urls`.
fn retain_feeds(feeds: &mut Vec<FeedEntry>, urls: &Vec<String>)
    ensures
        values(final(feeds)@) == retained(values(old(feeds)@), views(urls@)),
{
    let ghost all = values(feeds@);
    let mut given: Vec<FeedEntry> = Vec::new();
    std::mem::swap(&mut given, feeds);
    let ghost entries = given@;
    proof {
        assert(all.take(0) =~= Seq::empty());
        assert(values(feeds@) =~= Seq::empty());
    }
    for entry in it: given
        invariant
            it.seq() == entries,
            all == values(entries),
            values(feeds@) == retained(all.take(it.index()), views(urls@)),
    {
        let ghost before = values(feeds@);
        proof {
            assert(all.take(it.index() + 1).drop_last() =~= all.take(it.index()));
            assert(all.take(it.index() + 1).last() == entry@);
        }
        if among(urls, &entry.url) {
            let ghost kept = entry@;
            feeds.push(entry);
            proof {
                assert(values(feeds@) =~= before.push(kept));
            }
        }
    }
    proof {
        assert(all.take(all.len() as int) =~= all);
    }
}

/// Whether two items are the same.
fn same_item(a: &RssItem, b: &RssItem) -> (r: bool)
    ensures
        r == (a@ == b@),
{
    a.id == b.id && a.title == b.title && a.link == b.link && a.load_url == b.load_url
        && a.source_title == b.source_title && a.source_url == b.source_url && a.published
        == b.published && a.published_ts == b.published_ts && a.is_new == b.is_new && a.loaded
        == b.loaded
}

/// Whether two snapshots show the same.
pub fn same_snapshot(a: &RssSnapshot, b: &RssSnapshot) -> (r: bool)
    ensures
        r == (a@ == b@),
{
    if a.items.len() != b.items.len() {
        proof {
            assert(a@.items.len() != b@.items.len());
        }
        return false;
    }
    let mut i: usize = 0;
    while i < a.items.len()
        invariant
            i <= a.items@.len(),
            a.items@.len() == b.items@.len(),
            forall|k: int| 0 <= k < i ==> (#[trigger] a.items@[k])@ == b.items@[k]@,
        decreases a.items@.len() - i,
    {
        if !same_item(&a.items[i], &b.items[i]) {
            proof {
                assert(a@.items[i as int] != b@.items[i as int]);
            }
            return false;
        }
        i = i + 1;
    }
    proof {
        assert(a@.items =~= b@.items);
    }
    a.latest_guid == b.latest_guid && a.last_updated == b.last_updated && a.last_error
        == b.last_error && a.feed_count == b.feed_count
}

/// The feeds and what is known of them.
pub struct RssService {
    pub state: PersistedRssState,
}

/// A refresh that was asked for.
pub enum Refresh {
    Done(RssRefreshOutcome),
    Running(RefreshRun),
}

impl RssService {
    /// The service over a stored state.
    pub fn new(initial: PersistedRssState) -> (r: RssService)
        ensures
            r.state == initial,
    {
        RssService { state: initial }
    }

    /// What is shown.
    pub fn snapshot(&self) -> (r: RssSnapshot)
        ensures
            r@ == snapshot_of(self.state@, self.state@.feeds.len() as usize),
    {
        snapshot_from_state(&self.state, self.state.feeds.len())
    }

    /// Notes that the item with the identity was loaded at `now`; what is shown then.
    pub fn mark_item_loaded(&mut self, item_id: &String, now: i64) -> (r: RssSnapshot)
        ensures
            final(self).state@ == marked_loaded(old(self).state@, item_id@, now),
            r@ == snapshot_of(final(self).state@, final(self).state@.feeds.len() as usize),
    {
        self.state.seen_items.insert(item_id, now);
        self.state.loaded_items.insert(item_id, now);
        mark_feeds(&mut self.state.feeds, item_id);
        prune_tracked_items(&mut self.state);
        snapshot_from_state(&self.state, self.state.feeds.len())
    }

    /// Begins a refresh of the feeds at `urls`, of which `fetched` came, while the torrents
    /// with the hashes `existing` are there. Without addresses everything is forgotten and
    /// the refresh is over at once.
    pub fn refresh(
        &mut self,
        urls: &Vec<String>,
        fetched: Vec<FetchedFeed>,
        existing: Vec<String>,
        now: i64,
    ) -> (r: Refresh)
        ensures
            urls@.len() == 0 ==> {
                &&& final(self).state@ == cleared(old(self).state@)
                &&& r matches Refresh::Done(outcome)
                &&& outcome.snapshot@ == snapshot_of(final(self).state@, 0)
                &&& outcome.changed == (outcome.snapshot@ != snapshot_of(
                    old(self).state@,
                    old(self).state@.feeds.len() as usize,
                ))
            },
            urls@.len() > 0 ==> {
                &&& *final(self) == *old(self)
                &&& r matches Refresh::Running(run)
                &&& run@ == started(old(self).state@, values(fetched@), views(existing@), now)
            },
    {
        let before = self.snapshot();
        if urls.len() == 0 {
            let initialized = self.state.initialized;
            let mut state = PersistedRssState::default();
            state.initialized = initialized;
            self.state = state;
            let snapshot = snapshot_from_state(&self.state, 0);
            let changed = !same_snapshot(&snapshot, &before);
            return Refresh::Done(RssRefreshOutcome { snapshot, changed });
        }
        let run = RefreshRun {
            working: self.state.copy(),
            existing,
            now,
            any_success: false,
            errors: Vec::new(),
            todo: fetched,
            open: None,
            before,
        };
        proof {
            assert(views(run.errors@) =~= Seq::empty());
        }
        Refresh::Running(run)
    }

    /// Ends a refresh of the feeds at `urls`.
    pub fn finish_refresh(&mut self, run: RefreshRun, urls: &Vec<String>) -> (r: RssRefreshOutcome)
        ensures
            final(self).state@ == refreshed(run@, views(urls@)),
            r.snapshot@ == snapshot_of(final(self).state@, urls@.len() as usize),
            r.changed == (r.snapshot@ != run.before@),
    {
        let mut working = run.working;
        retain_feeds(&mut working.feeds, urls);
        if run.any_success {
            working.initialized = true;
            working.last_updated = run.now;
        }
        working.last_error = joined(&run.errors, "\n");
        let preview = snapshot_from_state(&working, urls.len());
        working.latest_guid = if preview.items.len() > 0 {
            proof {
                assert(preview@.items[0] == preview.items@[0]@);
            }
            preview.items[0].id.clone()
        } else {
            String::from_str("")
        };
        prune_tracked_items(&mut working);
        self.state = working;
        let snapshot = snapshot_from_state(&self.state, urls.len());
        let changed = !same_snapshot(&snapshot, &run.before);
        RssRefreshOutcome { snapshot, changed }
    }
}

} // verus!
