use cloud_torrent::common::Config;
use cloud_torrent::engine::adding::{announces, AddAction, AddEvent, AddRun, AddSource, AddStage};
use cloud_torrent::engine::commands::{
    add_command, admission, find_torrent, link_file_name, read_command, torrent_file_name, Command,
    Effect,
};
use cloud_torrent::engine::listing::{name_pending, SessionTorrent};
use cloud_torrent::engine::manager::{Limits, ManagerPass, TorrentFacts};
use cloud_torrent::engine::restore::{restore, restored_info, source_of_bytes, Restoration};
use cloud_torrent::engine::settings::session_settings;
use cloud_torrent::engine::space::{
    active_download_reservation, active_tasks, available_download_budget, available_space,
    available_start_budget, disk_of_directory, ensure_disk_space_for_download, DiskFacts, Transfer,
};
use cloud_torrent::engine::trackers::{
    cached_list, complete_link, fetched_list, file_trackers, list_to_cache, merge_trackers, needs_trackers,
    tracker_sources, TrackerSource, TRACKER_CACHE_TTL,
};
use cloud_torrent::engine::types::{
    added_at_of, default_added_at, CachedTrackers, EngineError, EngineState, Failure, TorrentRecord,
};
use cloud_torrent::engine::utils::{
    format_ago, format_ago_at, format_bytes_for_error, format_storage_error, parse_rate,
    rate_limits, read_limit, read_rate, remaining_download_bytes, DISK_SPACE_RESERVE_BYTES,
};
use cloud_torrent::outside::magnets::{read_magnet, MagnetFields};
use cloud_torrent::textmap::TextMap;

const HASH: &str = "0123456789abcdef0123456789abcdef01234567";

fn state() -> EngineState {
    EngineState {
        config: Config::default(),
        torrent_info: TextMap::new(),
        pending_magnets: TextMap::new(),
    }
}

fn record(source: &str) -> TorrentRecord {
    TorrentRecord { magnet_or_url: source.to_string(), started: true, added_at: 5 }
}

fn rate(text: &str) -> Option<u32> {
    let r = parse_rate(text)?;
    let n: f64 = r.number.parse().ok()?;
    Some((n * r.multiplier as f64) as u32)
}

#[test]
fn rates_are_read() {
    assert_eq!(rate("850k"), Some(870400));
    assert_eq!(rate("720kb"), Some(737280));
    assert_eq!(rate("2.85MB"), Some(2988441));
    assert_eq!(rate("1 MB/s"), Some(1048576));
    assert_eq!(rate("100"), Some(100));
    assert_eq!(rate("2Gbps"), None);
    assert_eq!(rate("2Gps"), Some(2147483648));
    assert_eq!(rate(""), None);
    assert_eq!(rate("0"), None);
    for word in ["unlimited", "Unlimited", "UNLIMITED"] {
        assert_eq!(parse_rate(word), None);
    }
    assert_eq!(rate("Low"), Some(51200));
    assert_eq!(rate("low"), Some(51200));
    assert_eq!(rate("Medium"), Some(512000));
    assert_eq!(rate("High"), Some(1536000));
    assert_eq!(rate("HIGH"), Some(1536000));
    assert_eq!(rate("lowest"), None);
    let r = parse_rate("Medium").unwrap();
    assert_eq!((r.number.as_str(), r.multiplier), ("500", 1024));
    let r = read_limit("high").unwrap();
    assert_eq!((r.number.as_str(), r.multiplier), ("1500", 1024));
    assert_eq!(read_limit(""), None);
    assert_eq!(read_limit("0"), None);
    let r = read_rate("1.5 kb/s");
    assert_eq!((r.number.as_str(), r.multiplier), ("1.5", 1024));
}

#[test]
fn units_of_rates_can_be_written_in_many_ways() {
    for (unit, multiplier) in [("", 1u32), ("k", 1024), ("m", 1048576), ("g", 1073741824)] {
        for suffix in ["", "b", "/s", "b/s"] {
            let text = format!("3{}{}", unit, suffix);
            for rate in [text.clone(), text.to_uppercase()] {
                let r = parse_rate(&rate).unwrap();
                assert_eq!((r.number.as_str(), r.multiplier), ("3", multiplier), "{}", rate);
            }
        }
    }
}

#[test]
fn limits_on_rates() {
    assert_eq!(rate_limits(Some(5), Some(7), true), (Some(5), Some(7)));
    assert_eq!(rate_limits(Some(0), Some(0), true), (None, None));
    assert_eq!(rate_limits(None, Some(7), false), (None, Some(1)));
}

#[test]
fn ages_are_told() {
    assert_eq!(format_ago_at(0, 100).as_deref(), Some(""));
    assert_eq!(format_ago_at(100, 100).as_deref(), Some("just now"));
    assert_eq!(format_ago_at(200, 100).as_deref(), Some("just now"));
    assert_eq!(format_ago_at(100, 159).as_deref(), Some("59 seconds ago"));
    assert_eq!(format_ago_at(100, 160).as_deref(), Some("1 minutes ago"));
    assert_eq!(format_ago_at(1, 3601).as_deref(), Some("1 hours ago"));
    assert_eq!(format_ago_at(1, 86401).as_deref(), Some("1 days ago"));
    assert_eq!(format_ago_at(1, 86400 * 400).as_deref(), Some("399 days ago"));
    assert_eq!(format_ago_at(i64::MIN, 1), None);
    assert_eq!(format_ago(0).as_deref(), Some(""));
    assert!(format_ago(1).unwrap().ends_with(" days ago"));
}

#[test]
fn the_present_time_is_after_the_epoch() {
    assert!(default_added_at().unwrap() > 1_700_000_000);
    assert_eq!(added_at_of(Some(3)), Some(3));
    assert_eq!(added_at_of(None), None);
}

#[test]
fn what_is_left_to_download() {
    assert_eq!(remaining_download_bytes(0, 0), None);
    assert_eq!(remaining_download_bytes(10, 10), None);
    assert_eq!(remaining_download_bytes(10, 11), None);
    assert_eq!(remaining_download_bytes(10, 4), Some(6));
}

fn by_floats(bytes: u64) -> String {
    if bytes == 0 {
        return "0 B".to_string();
    }
    let units = ["B", "KB", "MB", "GB", "TB"];
    let mut value = bytes as f64;
    let mut unit = 0usize;
    while value >= 1024.0 && unit < units.len() - 1 {
        value /= 1024.0;
        unit += 1;
    }
    format!("{value:.2} {}", units[unit])
}

#[test]
fn sizes_are_written_as_floating_point_numbers_are() {
    assert_eq!(format_bytes_for_error(0), "0 B");
    assert_eq!(format_bytes_for_error(1536), "1.50 KB");
    let mut n: u64 = 1;
    for i in 0..200_000u64 {
        n = n.wrapping_mul(6364136223846793005).wrapping_add(1442695040888963407);
        let bytes = n >> (i % 64);
        assert_eq!(format_bytes_for_error(bytes), by_floats(bytes), "{}", bytes);
    }
    for shift in 0..64 {
        for around in 0..3u64 {
            let bytes = (1u64 << shift).wrapping_sub(1).wrapping_add(around);
            assert_eq!(format_bytes_for_error(bytes), by_floats(bytes), "{}", bytes);
        }
    }
    for bytes in 0..20_000u64 {
        assert_eq!(format_bytes_for_error(bytes), by_floats(bytes), "{}", bytes);
    }
    for tie in 0..4096u64 {
        let bytes = (1u64 << 54) + tie;
        assert_eq!(format_bytes_for_error(bytes), by_floats(bytes), "{}", bytes);
    }
    assert_eq!(format_bytes_for_error(u64::MAX), by_floats(u64::MAX));
}

#[test]
fn lack_of_room_is_told() {
    assert_eq!(
        format_storage_error(2048, 0),
        "Need 2.00 KB free for this download, but only 0 B is available in the download directory."
    );
}

#[test]
fn errors_have_messages() {
    let m = || "m".to_string();
    assert_eq!(EngineError::Database(m()).message(), "Database error: m");
    assert_eq!(EngineError::Serialization(m()).message(), "Serialization error: m");
    assert_eq!(EngineError::Io(m()).message(), "IO error: m");
    assert_eq!(EngineError::Torrent(m()).message(), "Torrent error: m");
    assert_eq!(EngineError::Internal(m()).message(), "Internal error: m");
    assert_eq!(EngineError::InsufficientStorage(m()).message(), "Insufficient storage: m");
}

fn disk(covers: bool, mount_len: usize, is_root: bool, available: u64) -> DiskFacts {
    DiskFacts { covers, mount_len, is_root, available }
}

#[test]
fn the_disk_with_the_longest_mount_point_holds_the_directory() {
    let disks = vec![disk(true, 1, true, 10), disk(true, 5, false, 20), disk(true, 5, false, 30)];
    assert_eq!(disk_of_directory(&disks), Some(1));
    assert_eq!(available_space(&disks), 20);
    let disks = vec![disk(false, 9, false, 10), disk(false, 1, true, 40)];
    assert_eq!(available_space(&disks), 40);
    assert_eq!(available_space(&vec![disk(false, 9, false, 10)]), 0);
}

#[test]
fn room_for_downloads() {
    assert_eq!(available_download_budget(DISK_SPACE_RESERVE_BYTES + 5), 5);
    assert_eq!(available_download_budget(5), 0);
    let transfers = vec![
        Transfer { paused: false, total_bytes: 10, progress_bytes: 4 },
        Transfer { paused: true, total_bytes: 10, progress_bytes: 0 },
        Transfer { paused: false, total_bytes: 3, progress_bytes: 3 },
    ];
    assert_eq!(active_download_reservation(&transfers), Some(6));
    let full = Transfer { paused: false, total_bytes: u64::MAX, progress_bytes: 0 };
    assert_eq!(active_download_reservation(&vec![full, full]), None);
    assert_eq!(available_start_budget(DISK_SPACE_RESERVE_BYTES + 10, 6), 4);
    assert_eq!(available_start_budget(DISK_SPACE_RESERVE_BYTES + 10, 60), 0);
    assert!(ensure_disk_space_for_download(10, 4, 6).is_ok());
    assert_eq!(
        ensure_disk_space_for_download(10, 4, 5),
        Err(EngineError::InsufficientStorage(format_storage_error(6, 5)))
    );
    assert!(ensure_disk_space_for_download(10, 10, 0).is_ok());
    assert_eq!(active_tasks(&vec![true, false, false]), 2);
}

fn running(total: u64, progress: u64) -> TorrentFacts {
    TorrentFacts {
        finished: progress >= total,
        paused: false,
        ratio_reached: false,
        started: true,
        total_bytes: total,
        progress_bytes: progress,
    }
}

fn waiting(total: u64) -> TorrentFacts {
    TorrentFacts { paused: true, ..running(total, 0) }
}

fn pass(limits: &Limits, budget: u64, torrents: &[TorrentFacts]) -> (Vec<bool>, Vec<usize>) {
    let mut p = ManagerPass::new(budget);
    let paused = torrents
        .iter()
        .enumerate()
        .map(|(i, t)| p.observe(limits, t, i))
        .collect();
    (paused, p.start_queued(limits))
}

const FREE: Limits =
    Limits { enable_seeding: true, max_active_torrents: 0, max_concurrent_task: 0 };

#[test]
fn queued_torrents_start_within_the_budget() {
    let (paused, started) = pass(&FREE, 100, &[running(50, 10), waiting(70), waiting(60), waiting(1)]);
    assert_eq!(paused, vec![false; 4]);
    assert_eq!(started, vec![2]);
    let (paused, started) = pass(&FREE, 30, &[running(50, 10), waiting(30)]);
    assert_eq!(paused, vec![true, false]);
    assert_eq!(started, vec![1]);
}

#[test]
fn limits_hold_for_what_runs_and_what_starts() {
    let limits = Limits { max_active_torrents: 2, ..FREE };
    let (paused, started) = pass(&limits, 100, &[running(1, 1), running(2, 0), running(3, 0), waiting(1)]);
    assert_eq!(paused, vec![false, false, true, false]);
    assert!(started.is_empty());
    let limits = Limits { max_concurrent_task: 2, ..FREE };
    let (paused, started) = pass(&limits, 100, &[running(1, 1), running(2, 0), waiting(3), waiting(1)]);
    assert_eq!(paused, vec![false; 4]);
    assert_eq!(started, vec![2]);
    let limits = Limits { max_concurrent_task: -1, ..FREE };
    let (_, started) = pass(&limits, 100, &[waiting(3)]);
    assert!(started.is_empty());
}

#[test]
fn a_torrent_over_the_limit_still_takes_of_the_budget() {
    let limits = Limits { max_concurrent_task: 1, ..FREE };
    let torrents = [running(10, 0), running(90, 0), running(10, 5)];
    let (paused, _) = pass(&limits, 100, &torrents);
    assert_eq!(paused, vec![false, true, true]);
}

#[test]
fn seeding_ends_by_settings_and_by_ratio() {
    let limits = Limits { enable_seeding: false, ..FREE };
    assert_eq!(pass(&limits, 9, &[running(1, 1)]).0, vec![true]);
    let reached = TorrentFacts { ratio_reached: true, ..running(1, 1) };
    assert_eq!(pass(&FREE, 9, &[reached]).0, vec![true]);
    assert_eq!(pass(&FREE, 9, &[TorrentFacts { paused: true, ..reached }]).0, vec![false]);
    assert_eq!(pass(&FREE, 9, &[running(1, 1)]).0, vec![false]);
}

#[test]
fn unwanted_torrents_are_not_started() {
    let stopped = TorrentFacts { started: false, ..waiting(1) };
    assert!(pass(&FREE, 9, &[stopped]).1.is_empty());
}

#[test]
fn cached_trackers_are_good_for_a_day() {
    let cached = || {
        Some(CachedTrackers { list: vec!["t".to_string()], updated_at: 100 })
    };
    assert_eq!(cached_list(false, cached(), 100 + TRACKER_CACHE_TTL - 1), Some(vec!["t".to_string()]));
    assert_eq!(cached_list(false, cached(), 100 + TRACKER_CACHE_TTL), None);
    assert_eq!(cached_list(true, cached(), 100), None);
    assert_eq!(cached_list(false, None, 100), None);
}

#[test]
fn tracker_lists_are_read() {
    let list = fetched_list(" udp://a \n\nudp://b\r\n");
    assert_eq!(list, vec!["udp://a".to_string(), "udp://b".to_string()]);
    assert_eq!(
        list_to_cache(&list, 7),
        Some(CachedTrackers { list: list.clone(), updated_at: 7 })
    );
    assert_eq!(list_to_cache(&vec![], 7), None);
    assert_eq!(
        tracker_sources("remote:https://x\n udp://a "),
        vec![
            TrackerSource::Remote("https://x".to_string()),
            TrackerSource::Listed("udp://a".to_string())
        ]
    );
    let merged = merge_trackers(vec!["b".to_string(), "a".to_string(), "b".to_string()]);
    assert_eq!(merged, vec!["a".to_string(), "b".to_string()]);
}

#[test]
fn magnet_links_are_given_trackers() {
    let trackers = vec!["udp://a:1/x".to_string(), "udp://b".to_string()];
    let full = complete_link("magnet:?x", false, &trackers);
    assert_eq!(full, "magnet:?x&tr=udp%3A%2F%2Fa%3A1%2Fx&tr=udp%3A%2F%2Fb");
    assert_eq!(complete_link(&full, true, &trackers), full);
    assert_eq!(complete_link("magnet:?x&tr=y", false, &trackers), "magnet:?x&tr=y");
    assert!(complete_link("magnet:?x&tr=y", true, &trackers).ends_with("udp%3A%2F%2Fb"));
    assert_eq!(complete_link("http://x", true, &trackers), "http://x");
    assert!(needs_trackers("magnet:?x", false));
    assert!(!needs_trackers("magnet:?x&tr=y", false));
}

#[test]
fn torrents_are_brought_back() {
    let bytes = vec![0u8, 255, 16, 7];
    let source = source_of_bytes(&bytes);
    assert_eq!(source, "torrent_bytes:00ff1007");
    assert_eq!(restore(&source, false, &vec![]), Restoration::Bytes(bytes));
    assert_eq!(restore("torrent_bytes:0g", false, &vec![]), Restoration::Nothing);
    assert_eq!(restore("torrent_bytes:0", false, &vec![]), Restoration::Nothing);
    assert_eq!(
        restore("magnet:?x", false, &vec!["udp".to_string()]),
        Restoration::Link("magnet:?x&tr=udp".to_string())
    );
    let info = restored_info(&record("magnet:?x"));
    assert!(info.started);
    assert_eq!((info.added_at, info.magnet.as_str()), (5, "magnet:?x"));
}

#[test]
fn commands_are_told_from_links() {
    let s = |t: &str| t.to_string();
    assert_eq!(read_command("start:ab"), Command::Start(s("ab")));
    assert_eq!(read_command("stop:ab"), Command::Stop(s("ab")));
    assert_eq!(read_command("delete:ab"), Command::Delete(s("ab")));
    assert_eq!(read_command("https://a/x"), Command::Fetch(s("https://a/x")));
    assert_eq!(read_command("http://a/x"), Command::Fetch(s("http://a/x")));
    assert_eq!(read_command(HASH), Command::Add(s(HASH), None));
    let link = format!("magnet:?xt=urn:btih:{}&dn=N", HASH.to_uppercase());
    assert_eq!(read_command(&link), Command::Add(link.clone(), Some(s(HASH))));
    assert_eq!(
        add_command(s("l"), Some(MagnetFields { info_hash: Some(s("h")), name: None })),
        Command::Add(s("l"), Some(s("h")))
    );
    assert_eq!(add_command(s("l"), None), Command::Add(s("l"), None));
}

#[test]
fn magnet_links_are_read() {
    let fields = read_magnet(&format!("magnet:?xt=urn:btih:{}&dn=A%20b", HASH)).unwrap();
    assert_eq!(fields.info_hash.as_deref(), Some(HASH));
    assert_eq!(fields.name.as_deref(), Some("A b"));
    let wide = read_magnet(&format!("magnet:?xt=urn:btih:{}&so=0-99999999999", HASH)).unwrap();
    assert_eq!(wide.info_hash.as_deref(), Some(HASH));
    // Base32 in blocks of eight, each with its own padding, 32 bytes in all.
    let with_second = |hash: &str| {
        let link = format!("magnet:?xt=urn:btih:{}&xt=urn:btmh:1220{}", HASH, hash);
        read_magnet(&link).and_then(|f| f.info_hash)
    };
    let full = "AAAAAAAA";
    for second in [
        format!("{}AAAA====", full.repeat(6)),
        format!("AAAA===={}", full.repeat(6)),
        format!("{}{}", "AAAAAAA=".repeat(3), full.repeat(4)),
        format!("AAAAA===AAAAAAA={}", full.repeat(5)),
        "ab".repeat(32),
    ] {
        assert_eq!(with_second(&second).as_deref(), Some(HASH), "{}", second);
    }
    for second in [
        full.repeat(7),
        format!("{}AAAAAAA=", full.repeat(6)),
        format!("{}AA======", full.repeat(6)),
        format!("{}AAA=====", full.repeat(6)),
        format!("{}AAAA====", full.repeat(5)),
    ] {
        assert_eq!(with_second(&second), None, "{}", second);
    }
    assert!(read_magnet(&format!("magnet:?xt=urn:btih:{}=", "A".repeat(31))).is_none());
    assert!(read_magnet("https://a").is_none());
}

#[test]
fn torrents_are_found_by_hash() {
    let hashes = vec!["a".to_string(), "b".to_string(), "b".to_string()];
    assert_eq!(find_torrent(&hashes, &"b".to_string()), Some(1));
    assert_eq!(find_torrent(&hashes, &"c".to_string()), None);
}

#[test]
fn starting_and_stopping_touch_one_torrent() {
    let mut s = state();
    let (a, b) = ("a".to_string(), "b".to_string());
    s.take_in(&a, &TorrentRecord { started: false, ..record("m") });
    s.take_in(&b, &record("n"));
    let effects = s.start_torrent(&a, Some((10, 0)), 10, 99).unwrap();
    let saved = TorrentRecord { magnet_or_url: "m".to_string(), started: true, added_at: 99 };
    assert_eq!(effects, vec![Effect::Resume, Effect::Save(saved)]);
    assert!(s.is_started("a"));
    assert_eq!(s.torrent_info.get("b").unwrap().added_at, 5);
    let effects = s.stop_torrent(&a, true);
    let saved = TorrentRecord { magnet_or_url: "m".to_string(), started: false, added_at: 0 };
    assert_eq!(effects, vec![Effect::Pause, Effect::Save(saved)]);
    assert!(!s.is_started("a"));
    assert!(s.is_started("b"));
    assert!(s.is_started("unknown"));
    assert!(s.stop_torrent(&a, false).is_empty());
    assert!(s.start_torrent(&a, None, 0, 1).unwrap().is_empty());
    assert_eq!(s.start_torrent(&"c".to_string(), Some((1, 0)), 9, 1).unwrap(), vec![Effect::Resume]);
}

#[test]
fn a_start_without_room_changes_nothing() {
    let mut s = state();
    let a = "a".to_string();
    s.take_in(&a, &TorrentRecord { started: false, ..record("m") });
    let r = s.start_torrent(&a, Some((10, 0)), 9, 99);
    assert_eq!(r, Err(EngineError::InsufficientStorage(format_storage_error(10, 9))));
    assert!(!s.is_started("a"));
}

#[test]
fn deleting_removes_a_torrent_or_gives_up_a_link() {
    let mut s = state();
    let a = "a".to_string();
    assert_eq!(
        s.delete_torrent(&a, true),
        vec![Effect::Forget, Effect::Discard("_CLDAUTOSAVED_a.info".to_string()), Effect::Remove]
    );
    s.begin_pending(&a, &"magnet:?x".to_string(), 3, 42);
    assert_eq!(s.delete_torrent(&a, false), vec![Effect::Cancel(42)]);
    assert!(s.delete_torrent(&a, false).is_empty());
    s.begin_pending(&a, &"magnet:?x".to_string(), 3, 43);
    s.end_pending(&a);
    assert!(s.pending_magnets.get("a").is_none());
}

#[test]
fn torrents_come_in_only_with_room() {
    let source = "magnet:?x".to_string();
    let r = admission(&source, true, (10, 0), 10, 99).unwrap();
    assert_eq!(r, TorrentRecord { magnet_or_url: source.clone(), started: true, added_at: 99 });
    let r = admission(&source, false, (10, 0), 0, 99).unwrap();
    assert_eq!(r, TorrentRecord { magnet_or_url: source.clone(), started: false, added_at: 0 });
    assert_eq!(
        admission(&source, true, (10, 0), 9, 99),
        Err(EngineError::InsufficientStorage(format_storage_error(10, 9)))
    );
}

#[test]
fn names_of_kept_files() {
    assert_eq!(link_file_name("h"), "_CLDAUTOSAVED_h.info");
    assert_eq!(torrent_file_name("h"), "_CLDAUTOSAVED_h.torrent");
}

fn seen(hash: &str, name: Option<&str>) -> SessionTorrent {
    SessionTorrent {
        info_hash: hash.to_string(),
        name: name.map(|n| n.to_string()),
        loaded: true,
        finished: false,
        paused: true,
        status: "Paused".to_string(),
        total_bytes: 10,
        progress_bytes: 4,
        uploaded_bytes: 2,
    }
}

#[test]
fn torrents_are_listed() {
    let mut s = state();
    s.take_in(&"a".to_string(), &TorrentRecord { added_at: 50, ..record("torrent_bytes:00") });
    s.take_in(&"b".to_string(), &TorrentRecord { added_at: 70, ..record("magnet:?b") });
    s.begin_pending(&HASH.to_string(), &format!("magnet:?xt=urn:btih:{}&dn=N", HASH), 60, 1);
    let rows = s
        .list_torrents(&vec![seen("a", Some("A b")), seen("b", None), seen("c", None)], 100)
        .unwrap();
    let order: Vec<&str> = rows.iter().map(|r| r.info_hash.as_str()).collect();
    assert_eq!(order, vec!["c", "b", HASH, "a"]);
    assert_eq!(rows[0].added_at, "just now");
    assert_eq!(rows[0].magnet, "magnet:?xt=urn:btih:c&dn=c");
    assert_eq!(rows[1].magnet, "magnet:?b");
    assert_eq!(rows[1].slot, Some(1));
    assert_eq!(rows[2].slot, None);
    assert_eq!(rows[2].name, "N");
    assert_eq!(rows[2].status, "Resolving");
    assert!(rows[2].started && !rows[2].loaded);
    assert_eq!(rows[3].magnet, "magnet:?xt=urn:btih:a&dn=A%20b");
    assert_eq!((rows[3].size, rows[3].downloaded, rows[3].uploaded), (10, 4, 2));
    assert!(!rows[3].started);
    assert_eq!(rows[3].added_at, "50 seconds ago");
}

#[test]
fn a_time_too_far_away_cannot_be_listed() {
    let mut s = state();
    s.take_in(&"a".to_string(), &TorrentRecord { added_at: i64::MIN, ..record("m") });
    assert!(s.list_torrents(&vec![], 100).is_some());
    assert!(s.list_torrents(&vec![seen("a", None)], 100).is_none());
}

#[test]
fn links_being_resolved_have_names() {
    let hash = "h".to_string();
    let named = MagnetFields { info_hash: None, name: Some("n".to_string()) };
    assert_eq!(name_pending(Some(named), &hash), "n");
    assert_eq!(name_pending(Some(MagnetFields { info_hash: None, name: None }), &hash), "h");
    assert_eq!(name_pending(None, &hash), "h");
}

#[test]
fn values_are_kept_under_names() {
    let mut map: TextMap<String> = TextMap::new();
    map.insert("a".to_string(), "1".to_string());
    map.insert("b".to_string(), "2".to_string());
    map.insert("a".to_string(), "3".to_string());
    assert_eq!(map.get("a").unwrap(), "3");
    assert_eq!(map.entries.len(), 2);
    assert_eq!(map.remove("a").unwrap(), "3");
    assert!(map.get("a").is_none());
    assert_eq!(map.get("b").unwrap(), "2");
    assert!(map.remove("a").is_none());
}

#[test]
fn the_session_follows_the_settings() {
    let mut config = Config::default();
    let settings = session_settings(&config);
    assert!(settings.use_dht);
    assert!(settings.announce);
    assert!(settings.use_utp);
    assert!(!settings.ipv4_only);
    assert_eq!(settings.port, 50007);
    config.disable_trackers = true;
    config.disable_ipv6 = true;
    config.disable_utp = true;
    config.incoming_port = 65536 + 7;
    let settings = session_settings(&config);
    assert!(settings.use_dht);
    assert!(!settings.announce);
    assert!(!settings.use_utp);
    assert!(settings.ipv4_only);
    assert_eq!(settings.port, 7);
}

fn added(found: (u64, u64), free: u64) -> AddEvent {
    AddEvent::Added { hash: HASH.to_string(), found, free, now: 7 }
}

#[test]
fn a_link_is_added_step_by_step() {
    let mut engine = state();
    let link = format!("magnet:?xt=urn:btih:{}", HASH);
    let hash = HASH.to_string();
    assert_eq!(engine.begin_pending(&hash, &link, 5, 3), None);
    let source = AddSource::Link(link.clone());
    let (mut run, action) = AddRun::begin(source, Some(hash.clone()), false, true);
    assert_eq!(action, AddAction::FindTrackers);
    let (action, _) = engine.add_step(&mut run, AddEvent::Started);
    assert_eq!(action, AddAction::Wait);
    let (action, _) = engine.add_step(&mut run, AddEvent::Trackers(vec!["udp".to_string()]));
    assert_eq!(action, AddAction::AddLink(format!("{}&tr=udp", link)));
    let (action, _) = engine.add_step(&mut run, added((10, 4), 6));
    let record = TorrentRecord { magnet_or_url: link.clone(), started: true, added_at: 7 };
    assert_eq!(action, AddAction::Store(hash.clone(), record));
    assert!(engine.torrent_info.get(HASH).is_none());
    let (action, _) = engine.add_step(&mut run, AddEvent::Stored(Ok(())));
    assert_eq!(action, AddAction::Write(format!("_CLDAUTOSAVED_{}.info", HASH)));
    assert_eq!(engine.torrent_info.get(HASH).map(|i| i.added_at), Some(7));
    let (action, _) = engine.add_step(&mut run, AddEvent::Written(Ok(())));
    assert_eq!(action, AddAction::Start);
    assert!(engine.pending_magnets.get(HASH).is_some());
    let (action, stopped) = engine.add_step(&mut run, AddEvent::Started);
    assert_eq!(action, AddAction::Finish(Ok(())));
    assert_eq!(stopped, Some(3));
    assert!(engine.pending_magnets.get(HASH).is_none());
    assert_eq!(run.stage, AddStage::End);
    assert_eq!(engine.add_step(&mut run, AddEvent::Cancelled), (AddAction::Wait, None));
}

#[test]
fn a_file_is_added_step_by_step() {
    let mut engine = state();
    let source = AddSource::Bytes { bytes: vec![0xab], has_trackers: true };
    let (mut run, action) = AddRun::begin(source, None, false, false);
    assert_eq!(action, AddAction::AddBytes(vec![]));
    let (action, _) = engine.add_step(&mut run, added((10, 0), 0));
    let record =
        TorrentRecord { magnet_or_url: "torrent_bytes:ab".to_string(), started: false, added_at: 0 };
    assert_eq!(action, AddAction::Store(HASH.to_string(), record));
    let (action, _) = engine.add_step(&mut run, AddEvent::Stored(Ok(())));
    assert_eq!(action, AddAction::Write(format!("_CLDAUTOSAVED_{}.torrent", HASH)));
    let written = AddEvent::Written(Err("full".to_string()));
    assert_eq!(engine.add_step(&mut run, written), (AddAction::Finish(Ok(())), None));
}

#[test]
fn files_are_given_trackers() {
    let given = vec!["udp://a".to_string(), "udp://b".to_string()];
    for (has_trackers, always_add) in [(false, false), (false, true), (true, true)] {
        let mut engine = state();
        let source = AddSource::Bytes { bytes: vec![1], has_trackers };
        let (mut run, action) = AddRun::begin(source, None, always_add, false);
        assert_eq!(action, AddAction::FindTrackers);
        let (action, _) = engine.add_step(&mut run, AddEvent::Trackers(given.clone()));
        assert_eq!(action, AddAction::AddBytes(given.clone()));
        assert_eq!(run.stage, AddStage::Session);
        assert_eq!(file_trackers(has_trackers, always_add, &given), given);
    }
    assert!(file_trackers(true, false, &given).is_empty());
}

#[test]
fn the_end_of_adding_is_announced() {
    let link = AddSource::Link("other:link".to_string());
    let (shown, _) = AddRun::begin(link.clone(), Some(HASH.to_string()), false, false);
    let (unseen, _) = AddRun::begin(link, None, false, false);
    assert!(announces(&shown, true) && announces(&shown, false));
    assert!(announces(&unseen, false) && !announces(&unseen, true));
}

#[test]
fn adding_can_fail() {
    let mut engine = state();
    let link = AddSource::Link("other:link".to_string());
    let begin = |auto_start| AddRun::begin(link.clone(), None, true, auto_start);
    let other = |m: &str| AddAction::Finish(Err(Failure::Other(m.to_string())));

    let (mut run, action) = begin(true);
    assert_eq!(action, AddAction::AddLink("other:link".to_string()));
    assert_eq!(engine.add_step(&mut run, AddEvent::NotAdded("no".to_string())).0, other("no"));

    let (mut run, _) = begin(true);
    assert_eq!(engine.add_step(&mut run, AddEvent::Cancelled).0, other("magnet add was cancelled"));

    let (mut run, _) = begin(true);
    assert_eq!(engine.add_step(&mut run, added((10, 4), 5)).0, AddAction::Remove);
    let full = EngineError::InsufficientStorage(format_storage_error(6, 5));
    let refused = AddAction::Finish(Err(Failure::Engine(full)));
    assert_eq!(engine.add_step(&mut run, AddEvent::Removed).0, refused);
    assert_eq!(engine.torrent_info.entries.len(), 0);

    let (mut run, _) = begin(false);
    engine.add_step(&mut run, added((10, 4), 5));
    let lost = EngineError::Database("lost".to_string());
    let unstored = AddAction::Finish(Err(Failure::Engine(lost.clone())));
    assert_eq!(engine.add_step(&mut run, AddEvent::Stored(Err(lost))).0, unstored);
    assert_eq!(engine.torrent_info.entries.len(), 0);

    let (mut run, _) = begin(false);
    engine.add_step(&mut run, added((10, 4), 5));
    engine.add_step(&mut run, AddEvent::Stored(Ok(())));
    let written = AddEvent::Written(Err("full".to_string()));
    assert_eq!(engine.add_step(&mut run, written).0, other("full"));
}

#[test]
fn a_link_that_comes_twice_stops_the_first_task() {
    let mut engine = state();
    let (hash, link) = (HASH.to_string(), "l".to_string());
    assert_eq!(engine.begin_pending(&hash, &link, 1, 8), None);
    assert_eq!(engine.begin_pending(&hash, &link, 2, 9), Some(8));
    assert_eq!(engine.end_pending(&hash), Some(9));
    assert_eq!(engine.end_pending(&hash), None);
}
