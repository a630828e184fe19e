//! The values that the server shows.
use vstd::prelude::*;

use crate::order::{
    is_order, law_text_order_irreflexive, law_text_order_total, law_text_order_transitive, rank_of,
    stands_before, text_before, values, Ranked,
};

verus! {

/// How many nodes the distributed hash table knows.
#[derive(Clone, Debug, PartialEq, Eq)]
pub struct DhtStats {
    pub nodes4: usize,
    pub nodes6: usize,
}

/// How much was sent and received.
#[derive(Clone, Debug, PartialEq, Eq)]
pub struct ConnStat {
    pub bytes_written_data: u64,
    pub bytes_read_useful_data: u64,
}

/// An item of a feed.
#[derive(Clone, Debug, PartialEq, Eq)]
pub struct RssItem {
    pub id: String,
    pub title: String,
    pub link: String,
    pub load_url: String,
    pub source_title: String,
    pub source_url: String,
    pub published: String,
    pub published_ts: i64,
    pub is_new: bool,
    pub loaded: bool,
}

/// The values of an item.
pub struct RssItemView {
    pub id: Seq<char>,
    pub title: Seq<char>,
    pub link: Seq<char>,
    pub load_url: Seq<char>,
    pub source_title: Seq<char>,
    pub source_url: Seq<char>,
    pub published: Seq<char>,
    pub published_ts: i64,
    pub is_new: bool,
    pub loaded: bool,
}

impl View for RssItem {
    type V = RssItemView;

    open spec fn view(&self) -> RssItemView {
        RssItemView {
            id: self.id@,
            title: self.title@,
            link: self.link@,
            load_url: self.load_url@,
            source_title: self.source_title@,
            source_url: self.source_url@,
            published: self.published@,
            published_ts: self.published_ts,
            is_new: self.is_new,
            loaded: self.loaded,
        }
    }
}

/// Whether item `a` is listed before item `b`: the later first, then by title, then by
/// identity.
pub open spec fn item_before(a: RssItemView, b: RssItemView) -> bool {
    a.published_ts > b.published_ts || (a.published_ts == b.published_ts && (text_before(
        a.title,
        b.title,
    ) || (a.title == b.title && text_before(a.id, b.id))))
}

/// Compares two items for the list: the later first, then by title, then by identity.
pub fn sort_items_desc(left: &RssItem, right: &RssItem) -> (r: std::cmp::Ordering)
    ensures
        r == std::cmp::Ordering::Less <==> item_before(left@, right@),
        r == std::cmp::Ordering::Greater <==> item_before(right@, left@),
        r == std::cmp::Ordering::Equal <==> left.published_ts == right.published_ts && left.title@
            == right.title@ && left.id@ == right.id@,
{
    proof {
        law_text_order_irreflexive(left.title@);
        law_text_order_irreflexive(left.id@);
        law_text_order_total(left.title@, right.title@);
        law_text_order_total(left.id@, right.id@);
        if text_before(left.title@, right.title@) && text_before(right.title@, left.title@) {
            law_text_order_transitive(left.title@, right.title@, left.title@);
        }
        if text_before(left.id@, right.id@) && text_before(right.id@, left.id@) {
            law_text_order_transitive(left.id@, right.id@, left.id@);
        }
    }
    if right.published_ts < left.published_ts {
        std::cmp::Ordering::Less
    } else if left.published_ts < right.published_ts {
        std::cmp::Ordering::Greater
    } else if stands_before(left.title.as_str(), right.title.as_str()) {
        std::cmp::Ordering::Less
    } else if stands_before(right.title.as_str(), left.title.as_str()) {
        std::cmp::Ordering::Greater
    } else if stands_before(left.id.as_str(), right.id.as_str()) {
        std::cmp::Ordering::Less
    } else if stands_before(right.id.as_str(), left.id.as_str()) {
        std::cmp::Ordering::Greater
    } else {
        std::cmp::Ordering::Equal
    }
}

impl Ranked for RssItem {
    open spec fn ranks_before(a: RssItemView, b: RssItemView) -> bool {
        item_before(a, b)
    }

    fn before(&self, other: &RssItem) -> (r: bool) {
        match sort_items_desc(self, other) {
            std::cmp::Ordering::Less => true,
            std::cmp::Ordering::Equal => false,
            std::cmp::Ordering::Greater => false,
        }
    }
}

/// The order of the list of items is an order.
pub proof fn law_item_order()
    ensures
        is_order(rank_of::<RssItem>()),
{
    let before = rank_of::<RssItem>();
    assert forall|a: RssItemView| !#[trigger] before(a, a) by {
        law_text_order_irreflexive(a.title);
        law_text_order_irreflexive(a.id);
    }
    assert forall|a: RssItemView, b: RssItemView, c: RssItemView|
        #[trigger] before(a, b) && #[trigger] before(b, c) implies before(a, c) by {
        lemma_item_before_transitive(a, b, c);
    }
    assert forall|a: RssItemView, b: RssItemView, c: RssItemView|
        !(#[trigger] before(a, b)) && !(#[trigger] before(b, c)) implies !before(a, c) by {
        if item_before(a, c) {
            lemma_item_before_total(a, b);
            lemma_item_before_total(b, c);
            if item_before(b, a) {
                lemma_item_before_transitive(b, a, c);
            } else if item_before(c, b) {
                lemma_item_before_transitive(a, c, b);
            }
        }
    }
}

/// Of two items the later stands first, of two of the same time the one whose title comes
/// first, and of two with the same title the one whose identity does.
pub proof fn law_item_rank(a: RssItemView, b: RssItemView)
    ensures
        a.published_ts > b.published_ts ==> rank_of::<RssItem>()(a, b),
        a.published_ts < b.published_ts ==> !rank_of::<RssItem>()(a, b),
        a.published_ts == b.published_ts && text_before(a.title, b.title) ==> rank_of::<RssItem>()(
            a,
            b,
        ),
        a.published_ts == b.published_ts && text_before(b.title, a.title) ==> !rank_of::<RssItem>()(
            a,
            b,
        ),
        a.published_ts == b.published_ts && a.title == b.title ==> (rank_of::<RssItem>()(a, b)
            <==> text_before(a.id, b.id)),
{
    law_text_order_irreflexive(a.title);
    if text_before(b.title, a.title) && text_before(a.title, b.title) {
        law_text_order_transitive(a.title, b.title, a.title);
    }
}

proof fn lemma_item_before_transitive(a: RssItemView, b: RssItemView, c: RssItemView)
    requires
        item_before(a, b),
        item_before(b, c),
    ensures
        item_before(a, c),
{
    if text_before(a.title, b.title) && text_before(b.title, c.title) {
        law_text_order_transitive(a.title, b.title, c.title);
    }
    if text_before(a.id, b.id) && text_before(b.id, c.id) {
        law_text_order_transitive(a.id, b.id, c.id);
    }
}

proof fn lemma_item_before_total(a: RssItemView, b: RssItemView)
    ensures
        item_before(a, b) || item_before(b, a) || (a.published_ts == b.published_ts && a.title
            == b.title && a.id == b.id),
{
    law_text_order_total(a.title, b.title);
    law_text_order_total(a.id, b.id);
}

impl RssItem {
    /// The same item once more.
    pub fn copy(&self) -> (r: RssItem)
        ensures
            r == *self,
    {
        RssItem {
            id: self.id.clone(),
            title: self.title.clone(),
            link: self.link.clone(),
            load_url: self.load_url.clone(),
            source_title: self.source_title.clone(),
            source_url: self.source_url.clone(),
            published: self.published.clone(),
            published_ts: self.published_ts,
            is_new: self.is_new,
            loaded: self.loaded,
        }
    }
}

/// What the server shows of all feeds.
#[derive(Clone, Debug, PartialEq, Eq)]
pub struct RssSnapshot {
    pub items: Vec<RssItem>,
    pub latest_guid: String,
    pub last_updated: i64,
    pub last_error: String,
    pub feed_count: usize,
}

/// The values of a snapshot.
pub struct SnapshotView {
    pub items: Seq<RssItemView>,
    pub latest_guid: Seq<char>,
    pub last_updated: i64,
    pub last_error: Seq<char>,
    pub feed_count: usize,
}

impl View for RssSnapshot {
    type V = SnapshotView;

    open spec fn view(&self) -> SnapshotView {
        SnapshotView {
            items: values(self.items@),
            latest_guid: self.latest_guid@,
            last_updated: self.last_updated,
            last_error: self.last_error@,
            feed_count: self.feed_count,
        }
    }
}

/// A result of a search.
#[derive(Clone, Debug, PartialEq, Eq)]
pub struct SearchResult {
    pub name: String,
    pub magnet: String,
    pub size: String,
    pub seeds: String,
    pub peers: String,
}

/// What the user can set. The ratio at which seeding ends is kept beside it.
#[derive(Clone, Debug, PartialEq, Eq)]
pub struct Config {
    pub auto_start: bool,
    pub engine_debug: bool,
    pub mute_engine_log: bool,
    pub obfs_preferred: bool,
    pub obfs_require_preferred: bool,
    pub disable_trackers: bool,
    pub disable_ipv6: bool,
    pub no_default_port_forwarding: bool,
    pub disable_utp: bool,
    pub download_directory: String,
    pub watch_directory: String,
    pub cache_directory: String,
    pub trash_directory: String,
    pub enable_upload: bool,
    pub enable_seeding: bool,
    pub incoming_port: i32,
    pub done_cmd: String,
    pub seed_time: String,
    pub upload_rate: String,
    pub download_rate: String,
    pub max_active_torrents: i32,
    pub max_concurrent_task: i32,
    pub always_add_trackers: bool,
    pub tracker_list: String,
    pub scraper_url: String,
    pub rss_url: String,
    pub allow_runtime_configure: bool,
}

impl Default for Config {
    /// The settings of a new installation.
    fn default() -> (r: Config)
        ensures
            r.auto_start,
            !r.engine_debug,
            !r.mute_engine_log,
            !r.obfs_preferred,
            !r.obfs_require_preferred,
            !r.disable_trackers,
            !r.disable_ipv6,
            !r.no_default_port_forwarding,
            !r.disable_utp,
            r.download_directory@ == "downloads"@,
            r.watch_directory@ == "torrents"@,
            r.cache_directory@ == "cache"@,
            r.trash_directory@ == "trash"@,
            r.enable_upload,
            r.enable_seeding,
            r.incoming_port == 50007,
            r.done_cmd@ == ""@,
            r.seed_time@ == "0s"@,
            r.upload_rate@ == ""@,
            r.download_rate@ == ""@,
            r.max_active_torrents == 0,
            r.max_concurrent_task == 0,
            !r.always_add_trackers,
            r.tracker_list@
                == "remote:https://raw.githubusercontent.com/ngosang/trackerslist/master/trackers_best.txt"@,
            r.scraper_url@
                == "https://raw.githubusercontent.com/OctopusTakopi/cloud-torrent-rs/master/scraper-config.json"@,
            r.rss_url@ == ""@,
            r.allow_runtime_configure,
    {
        Config {
            auto_start: true,
            engine_debug: false,
            mute_engine_log: false,
            obfs_preferred: false,
            obfs_require_preferred: false,
            disable_trackers: false,
            disable_ipv6: false,
            no_default_port_forwarding: false,
            disable_utp: false,
            download_directory: String::from_str("downloads"),
            watch_directory: String::from_str("torrents"),
            cache_directory: String::from_str("cache"),
            trash_directory: String::from_str("trash"),
            enable_upload: true,
            enable_seeding: true,
            incoming_port: 50007,
            done_cmd: String::from_str(""),
            seed_time: String::from_str("0s"),
            upload_rate: String::from_str(""),
            download_rate: String::from_str(""),
            max_active_torrents: 0,
            max_concurrent_task: 0,
            always_add_trackers: false,
            tracker_list: String::from_str(
                "remote:https://raw.githubusercontent.com/ngosang/trackerslist/master/trackers_best.txt",
            ),
            scraper_url: String::from_str(
                "https://raw.githubusercontent.com/OctopusTakopi/cloud-torrent-rs/master/scraper-config.json",
            ),
            rss_url: String::from_str(""),
            allow_runtime_configure: true,
        }
    }
}

} // verus!
