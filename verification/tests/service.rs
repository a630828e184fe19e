use cloud_torrent::common::{sort_items_desc, Config, RssItem, RssSnapshot};
use cloud_torrent::rss::feed::ParsedFeed;
use cloud_torrent::rss::item::ParsedFeedItem;
use cloud_torrent::rss::known::KnownItems;
use cloud_torrent::rss::service::{
    existing_info_hashes, same_snapshot, FetchedFeed, Refresh, RefreshRun, RssService,
};
use cloud_torrent::rss::state::{
    configured_rss_urls, prune_tracked_items, snapshot_from_state, time_stamp, FeedEntry,
    PersistedRssFeed, PersistedRssState, RSS_MAX_ITEMS_PER_FEED, RSS_MAX_ITEMS_TOTAL,
    RSS_MAX_SEEN_ITEMS, RSS_REFRESH_INTERVAL_SECS,
};
use std::cmp::Ordering;

fn item(id: &str, title: &str, ts: i64) -> RssItem {
    RssItem {
        id: id.to_string(),
        title: title.to_string(),
        link: String::new(),
        load_url: "magnet:?x".to_string(),
        source_title: String::new(),
        source_url: String::new(),
        published: String::new(),
        published_ts: ts,
        is_new: true,
        loaded: false,
    }
}

fn entry(url: &str, items: Vec<RssItem>) -> FeedEntry {
    FeedEntry {
        url: url.to_string(),
        feed: PersistedRssFeed {
            title: "T".to_string(),
            items,
            last_updated: 1,
            last_error: String::new(),
        },
    }
}

fn parsed(guid: &str, hash: Option<&str>, ts: i64) -> ParsedFeedItem {
    ParsedFeedItem {
        title: format!("title {}", guid),
        guid: guid.to_string(),
        link: String::new(),
        load_url: format!("magnet:?{}", guid),
        published: String::new(),
        published_ts: ts,
        info_hash: hash.map(|h| h.to_string()),
    }
}

fn fetched(url: &str, title: &str, items: Vec<ParsedFeedItem>) -> FetchedFeed {
    FetchedFeed {
        url: url.to_string(),
        result: Ok(ParsedFeed { title: title.to_string(), items }),
    }
}

fn begin(
    service: &mut RssService,
    urls: &Vec<String>,
    feeds: Vec<FetchedFeed>,
    existing: Vec<String>,
    now: i64,
) -> RefreshRun {
    match service.refresh(urls, feeds, existing, now) {
        Refresh::Running(run) => run,
        Refresh::Done(_) => panic!("no addresses"),
    }
}

fn ids(snapshot: &RssSnapshot) -> Vec<String> {
    snapshot.items.iter().map(|i| i.id.clone()).collect()
}

#[test]
fn items_are_ordered_by_time_title_and_identity() {
    assert_eq!(sort_items_desc(&item("a", "t", 2), &item("b", "t", 1)), Ordering::Less);
    assert_eq!(sort_items_desc(&item("a", "t", 1), &item("b", "t", 2)), Ordering::Greater);
    assert_eq!(sort_items_desc(&item("a", "u", 1), &item("b", "t", 1)), Ordering::Greater);
    assert_eq!(sort_items_desc(&item("a", "t", 1), &item("b", "t", 1)), Ordering::Less);
    assert_eq!(sort_items_desc(&item("a", "t", 1), &item("a", "t", 1)), Ordering::Equal);
}

#[test]
fn limits_of_the_feeds() {
    assert_eq!(RSS_MAX_ITEMS_PER_FEED, 100);
    assert_eq!(RSS_MAX_ITEMS_TOTAL, 300);
    assert_eq!(RSS_MAX_SEEN_ITEMS, 5000);
    assert_eq!(RSS_REFRESH_INTERVAL_SECS, 300);
}

#[test]
fn addresses_are_taken_from_the_settings() {
    let urls = configured_rss_urls(" https://a/1 \r\n\nftp://b\nhttp://c\nhttps://a/1\n# no");
    assert_eq!(urls, vec!["https://a/1".to_string(), "http://c".to_string()]);
    assert!(configured_rss_urls("").is_empty());
    assert_eq!(configured_rss_urls(&urls.join("\n")), urls);
}

#[test]
fn a_snapshot_shows_each_identity_once() {
    let mut state = PersistedRssState::default();
    state.feeds.push(entry("u", vec![item("1", "a", 5), item("2", "b", 9)]));
    state.feeds.push(entry("v", vec![item("1", "z", 100), item("3", "c", 9)]));
    let snapshot = snapshot_from_state(&state, 2);
    assert_eq!(ids(&snapshot), vec!["2", "3", "1"]);
    assert_eq!(snapshot.items[2].title, "a");
    assert_eq!(snapshot.feed_count, 2);
}

#[test]
fn a_snapshot_is_limited() {
    let mut state = PersistedRssState::default();
    let many: Vec<RssItem> = (0..400).map(|i| item(&format!("{}", i), "t", i)).collect();
    state.feeds.push(entry("u", many));
    let snapshot = snapshot_from_state(&state, 1);
    assert_eq!(snapshot.items.len(), 300);
    assert_eq!(snapshot.items[0].published_ts, 399);
    assert_eq!(snapshot.items[299].published_ts, 100);
}

#[test]
fn known_items_are_kept_by_identity() {
    let mut known = KnownItems::new();
    known.insert(&"a".to_string(), 1);
    known.insert(&"b".to_string(), 2);
    known.insert(&"a".to_string(), 3);
    assert_eq!(known.entries.len(), 2);
    assert_eq!(known.get(&"a".to_string()), Some(3));
    assert_eq!(known.get(&"c".to_string()), None);
    assert!(known.contains(&"b".to_string()));
    assert_eq!(known.copy().get(&"b".to_string()), Some(2));
}

#[test]
fn pruning_keeps_items_of_feeds_and_the_latest() {
    let mut known = KnownItems::new();
    for i in 0..6 {
        known.insert(&format!("{}", i), i);
    }
    known.prune(&vec!["0".to_string(), "9".to_string()], 3);
    let mut left: Vec<String> = known.entries.iter().map(|e| e.id.clone()).collect();
    left.sort();
    assert_eq!(left, vec!["0", "4", "5"]);
    let before: Vec<(String, i64)> =
        known.entries.iter().map(|e| (e.id.clone(), e.seconds)).collect();
    known.prune(&vec!["0".to_string(), "9".to_string()], 3);
    let after: Vec<(String, i64)> =
        known.entries.iter().map(|e| (e.id.clone(), e.seconds)).collect();
    assert_eq!(before, after);

    let mut known = KnownItems::new();
    for i in 0..4 {
        known.insert(&format!("{}", i), i);
    }
    known.prune(&vec!["0".to_string(), "1".to_string(), "2".to_string()], 2);
    assert_eq!(known.entries.len(), 3);
}

#[test]
fn little_is_never_pruned() {
    let mut state = PersistedRssState::default();
    for i in 0..10 {
        state.seen_items.insert(&format!("{}", i), i);
        state.loaded_items.insert(&format!("{}", i), i);
    }
    prune_tracked_items(&mut state);
    assert_eq!(state.seen_items.entries.len(), 10);
    assert_eq!(state.loaded_items.entries.len(), 10);
}

#[test]
fn marking_an_item_touches_it_everywhere_and_nothing_else() {
    let mut state = PersistedRssState::default();
    state.feeds.push(entry("u", vec![item("1", "a", 5), item("2", "b", 9)]));
    state.feeds.push(entry("v", vec![item("1", "z", 100)]));
    let mut service = RssService::new(state);
    let snapshot = service.mark_item_loaded(&"1".to_string(), 77);
    assert!(service.state.feeds[0].feed.items[0].loaded);
    assert!(!service.state.feeds[0].feed.items[0].is_new);
    assert!(service.state.feeds[1].feed.items[0].loaded);
    assert_eq!(service.state.feeds[0].feed.items[1], item("2", "b", 9));
    assert_eq!(service.state.seen_items.get(&"1".to_string()), Some(77));
    assert_eq!(service.state.loaded_items.get(&"1".to_string()), Some(77));
    assert_eq!(snapshot.feed_count, 2);
    assert!(same_snapshot(&snapshot, &service.snapshot()));
}

#[test]
fn snapshots_are_compared() {
    let mut state = PersistedRssState::default();
    state.feeds.push(entry("u", vec![item("1", "a", 5)]));
    let a = snapshot_from_state(&state, 1);
    let mut b = snapshot_from_state(&state, 1);
    assert!(same_snapshot(&a, &b));
    b.items[0].loaded = true;
    assert!(!same_snapshot(&a, &b));
    let c = snapshot_from_state(&state, 2);
    assert!(!same_snapshot(&a, &c));
}

#[test]
fn the_first_refresh_loads_nothing() {
    let mut service = RssService::new(PersistedRssState::default());
    let urls = vec!["https://f".to_string()];
    let feeds = vec![fetched("https://f", "", vec![parsed("1", Some("h1"), 1), parsed("2", None, 2)])];
    let mut run = begin(&mut service, &urls, feeds, vec![], 10);
    assert_eq!(run.advance(), None);
    let outcome = service.finish_refresh(run, &urls);
    assert!(outcome.changed);
    assert_eq!(outcome.snapshot.items.len(), 2);
    assert_eq!(outcome.snapshot.items[0].title, "title 2");
    assert_eq!(outcome.snapshot.items[0].source_title, "https://f");
    assert!(!outcome.snapshot.items[0].is_new);
    assert_eq!(outcome.snapshot.latest_guid, outcome.snapshot.items[0].id);
    assert_eq!(outcome.snapshot.last_updated, 10);
    assert!(service.state.initialized);
    assert_eq!(service.state.seen_items.entries.len(), 2);
    assert_eq!(service.state.loaded_items.entries.len(), 0);
}

#[test]
fn later_refreshes_load_what_is_new_once() {
    let mut service = RssService::new(PersistedRssState::default());
    let urls = vec!["https://f".to_string()];
    let first = vec![fetched("https://f", "F", vec![parsed("1", Some("h1"), 1)])];
    let mut run = begin(&mut service, &urls, first, vec![], 10);
    assert_eq!(run.advance(), None);
    service.finish_refresh(run, &urls);

    let items = vec![
        parsed("1", Some("h1"), 1),
        parsed("2", Some("h2"), 2),
        parsed("3", Some("h3"), 3),
        parsed("4", Some("h4"), 4),
    ];
    let second = vec![fetched("https://f", "F", items)];
    let mut run = begin(&mut service, &urls, second, vec!["h4".to_string()], 20);
    assert_eq!(run.advance().as_deref(), Some("magnet:?2"));
    run.answer(Ok(()));
    assert_eq!(run.advance().as_deref(), Some("magnet:?3"));
    run.answer(Err("no room".to_string()));
    assert_eq!(run.advance(), None);
    run.answer(Ok(()));
    let outcome = service.finish_refresh(run, &urls);
    assert_eq!(ids(&outcome.snapshot), vec!["ih:h4", "ih:h3", "ih:h2", "ih:h1"]);
    assert_eq!(
        outcome.snapshot.last_error,
        "https://f: failed to load 'title 3' (no room)"
    );
    let shown: Vec<(bool, bool)> =
        outcome.snapshot.items.iter().map(|i| (i.is_new, i.loaded)).collect();
    assert_eq!(shown, vec![(true, true), (true, false), (true, true), (false, false)]);

    // What was loaded is not asked for again, what failed is.
    let again = vec![fetched("https://f", "F", vec![
        parsed("2", Some("h2"), 2),
        parsed("3", Some("h3"), 3),
    ])];
    let mut run = begin(&mut service, &urls, again, vec![], 30);
    assert_eq!(run.advance().as_deref(), Some("magnet:?3"));
    run.answer(Ok(()));
    assert_eq!(run.advance(), None);
    service.finish_refresh(run, &urls);
    assert!(service.state.loaded_items.contains(&"ih:h3".to_string()));
}

#[test]
fn a_feed_that_fails_keeps_its_items() {
    let mut service = RssService::new(PersistedRssState::default());
    let urls = vec!["https://f".to_string(), "https://g".to_string()];
    let first = vec![
        fetched("https://f", "F", vec![parsed("1", None, 1)]),
        fetched("https://g", "G", vec![]),
    ];
    let mut run = begin(&mut service, &urls, first, vec![], 10);
    assert_eq!(run.advance(), None);
    service.finish_refresh(run, &urls);
    let second = vec![
        FetchedFeed { url: "https://f".to_string(), result: Err("HTTP 500".to_string()) },
        FetchedFeed { url: "https://g".to_string(), result: Err("gone".to_string()) },
    ];
    let mut run = begin(&mut service, &urls, second, vec![], 20);
    assert_eq!(run.advance(), None);
    let outcome = service.finish_refresh(run, &urls);
    assert_eq!(outcome.snapshot.items.len(), 1);
    assert_eq!(outcome.snapshot.last_error, "https://f: HTTP 500\nhttps://g: gone");
    assert_eq!(outcome.snapshot.last_updated, 10);
    assert_eq!(service.state.feeds[0].feed.last_error, "HTTP 500");
    assert_eq!(service.state.feeds[0].feed.title, "F");
}

#[test]
fn feeds_that_are_no_longer_named_go() {
    let mut service = RssService::new(PersistedRssState::default());
    let both = vec!["https://f".to_string(), "https://g".to_string()];
    let feeds = vec![
        fetched("https://f", "F", vec![parsed("1", None, 1)]),
        fetched("https://g", "G", vec![parsed("2", None, 2)]),
    ];
    let mut run = begin(&mut service, &both, feeds, vec![], 10);
    assert_eq!(run.advance(), None);
    service.finish_refresh(run, &both);
    let one = vec!["https://g".to_string()];
    let feeds = vec![fetched("https://g", "G", vec![parsed("2", None, 2)])];
    let mut run = begin(&mut service, &one, feeds, vec![], 20);
    assert_eq!(run.advance(), None);
    let outcome = service.finish_refresh(run, &one);
    assert_eq!(outcome.snapshot.items.len(), 1);
    assert_eq!(service.state.feeds.len(), 1);
    assert_eq!(service.state.feeds[0].url, "https://g");
}

#[test]
fn a_feed_keeps_its_first_hundred_items() {
    let mut service = RssService::new(PersistedRssState::default());
    let urls = vec!["https://f".to_string()];
    let many: Vec<ParsedFeedItem> = (0..150).map(|i| parsed(&format!("{}", i), None, i)).collect();
    let mut run = begin(&mut service, &urls, vec![fetched("https://f", "F", many)], vec![], 10);
    assert_eq!(run.advance(), None);
    service.finish_refresh(run, &urls);
    assert_eq!(service.state.feeds[0].feed.items.len(), 100);
    assert_eq!(service.state.feeds[0].feed.items[0].published_ts, 149);
}

#[test]
fn without_addresses_everything_is_forgotten() {
    let mut state = PersistedRssState::default();
    state.feeds.push(entry("u", vec![item("1", "a", 5)]));
    state.seen_items.insert(&"1".to_string(), 1);
    state.latest_guid = "1".to_string();
    state.initialized = true;
    let mut service = RssService::new(state);
    match service.refresh(&vec![], vec![], vec![], 10) {
        Refresh::Done(outcome) => {
            assert!(outcome.changed);
            assert!(outcome.snapshot.items.is_empty());
            assert_eq!(outcome.snapshot.latest_guid, "");
            assert_eq!(outcome.snapshot.feed_count, 0);
        }
        Refresh::Running(_) => panic!("nothing to refresh"),
    }
    assert!(service.state.initialized);
    assert!(service.state.seen_items.entries.is_empty());
    match service.refresh(&vec![], vec![], vec![], 10) {
        Refresh::Done(outcome) => assert!(!outcome.changed),
        Refresh::Running(_) => panic!("nothing to refresh"),
    }
}

#[test]
fn hashes_are_compared_in_lower_case() {
    assert_eq!(existing_info_hashes(&vec!["AbC".to_string()]), vec!["abc".to_string()]);
}

#[test]
fn time_stamps() {
    assert_eq!(time_stamp(Some(5)), 5);
    assert_eq!(time_stamp(None), 0);
}

#[test]
fn states_are_copied() {
    let mut state = PersistedRssState::default();
    state.feeds.push(entry("u", vec![item("1", "a", 5)]));
    state.last_error = "e".to_string();
    let copy = state.copy();
    assert_eq!(copy.feeds[0].feed.items[0], item("1", "a", 5));
    assert_eq!(copy.last_error, "e");
}

#[test]
fn the_settings_of_a_new_installation() {
    let config = Config::default();
    assert!(config.auto_start);
    assert_eq!(config.incoming_port, 50007);
    assert_eq!(config.download_directory, "downloads");
    assert_eq!(config.seed_time, "0s");
    assert!(config.tracker_list.starts_with("remote:https://"));
    assert!(config.allow_runtime_configure);
}
