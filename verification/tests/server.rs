use cloud_torrent::engine::types::{EngineError, Failure};
use cloud_torrent::server::access::{expected_auth, is_authorized, read_listen, unix_mode, Listen};
use cloud_torrent::server::assets::{asset_media_type, Assets};
use cloud_torrent::server::files::{
    archive_disposition, directory_node, download_path, file_node, how_served, is_hidden, modified_text,
    Served,
};
use cloud_torrent::server::types::{
    first_failure, magnet_lines, map_engine_error, AppError,
};
use cloud_torrent::ui::{
    child_path, controls, delete_command, download_link, parse_omni, peers_colour, start_command,
    stop_command, submit_omni, sync_address, toggle_files, toggle_panel, OmniMode, UiRequest,
};
use cloud_torrent::textmap::TextMap;

#[test]
fn failures_are_answered() {
    let m = || "m".to_string();
    let full = map_engine_error(&Failure::Engine(EngineError::InsufficientStorage(m())));
    assert_eq!(full, AppError::InsufficientStorage(m()));
    assert_eq!((full.status(), full.error_text().as_str()), (507, "m"));
    assert_eq!(full.message(), "Insufficient Storage: m");
    let db = map_engine_error(&Failure::Engine(EngineError::Database(m())));
    assert_eq!(db, AppError::Internal("Database error: m".to_string()));
    assert_eq!((db.status(), db.error_text().as_str()), (500, "Database error: m"));
    let other = map_engine_error(&Failure::Other(m()));
    assert_eq!(other.message(), "Internal Server Error: m");
    let none = AppError::NotFound(m());
    assert_eq!((none.status(), none.message().as_str()), (404, "Not Found: m"));
    assert_eq!(none.error_text(), "m");
}

#[test]
fn the_first_failure_counts() {
    assert_eq!(first_failure(&vec![]), Ok(()));
    let failures = vec![Failure::Other("a".to_string()), Failure::Other("b".to_string())];
    assert_eq!(first_failure(&failures), Err(AppError::Internal("a".to_string())));
    assert_eq!(magnet_lines(" a \n\n b"), vec!["a".to_string(), "b".to_string()]);
}

#[test]
fn headers_let_in_whoever_knows() {
    let expected = expected_auth("user:password");
    assert_eq!(expected, "Basic dXNlcjpwYXNzd29yZA==");
    assert_eq!(expected_auth("a"), "Basic YQ==");
    assert_eq!(expected_auth("ab:"), "Basic YWI6");
    let given = Some(expected.clone());
    assert!(is_authorized(&Some(expected.clone()), &given));
    assert!(!is_authorized(&Some(expected.clone()), &Some("Basic x".to_string())));
    assert!(!is_authorized(&Some(expected), &None));
    assert!(is_authorized(&None, &None));
}

#[test]
fn the_place_to_listen_is_read() {
    assert_eq!(read_listen("0.0.0.0:3000"), Listen::Tcp("0.0.0.0:3000".to_string()));
    assert_eq!(read_listen("unix:/run/x"), Listen::Unix("/run/x".to_string()));
    assert_eq!(read_listen("unix:unix:/run/x"), Listen::Unix("/run/x".to_string()));
}

#[test]
fn modes_are_octal() {
    assert_eq!(unix_mode("0666"), Some(0o666));
    assert_eq!(unix_mode("644"), Some(0o644));
    assert_eq!(unix_mode("0+7"), Some(7));
    for text in ["", "0", "0000", "8", "-7", "+", "0x1", "40000000000"] {
        let trimmed = text.trim_start_matches('0');
        assert_eq!(unix_mode(text), u32::from_str_radix(trimmed, 8).ok());
        assert_eq!(unix_mode(text), None);
    }
    assert_eq!(unix_mode("37777777777"), Some(u32::MAX));
}

#[test]
fn directories_are_as_large_as_what_is_in_them() {
    let file = |n: &str, size: u64| file_node(n.to_string(), size, String::new());
    let dir = directory_node("d".to_string(), String::new(), vec![file("a", 2), file("b", 3)]).unwrap();
    assert_eq!(dir.size, 5);
    let top = directory_node("t".to_string(), String::new(), vec![dir, file("c", 4)]).unwrap();
    assert_eq!(top.size, 9);
    assert_eq!(top.children.unwrap().len(), 2);
    assert!(file("a", 2).children.is_none());
    let huge = vec![file("a", u64::MAX), file("b", 1)];
    assert!(directory_node("d".to_string(), String::new(), huge).is_none());
    assert!(is_hidden(".cache"));
    assert!(!is_hidden("a.b"));
}

#[test]
fn downloads_are_named() {
    assert_eq!(download_path("//a/b"), "a/b");
    assert_eq!(download_path("a/b/"), "a/b/");
    assert_eq!(archive_disposition("d"), "attachment; filename=\"d.zip\"");
}

#[test]
fn assets_are_routed() {
    let assets = Assets {
        names: vec!["app.js".to_string(), "index.html".to_string(), "x/y.css".to_string()],
    };
    assert_eq!(assets.route("/"), Some(1));
    assert_eq!(assets.route("/index.html"), Some(1));
    assert_eq!(assets.route("/x/y.css"), Some(2));
    assert_eq!(assets.route("/no/such"), Some(1));
    assert_eq!(Assets { names: vec![] }.route("/"), None);
    assert_eq!(asset_media_type("index.html"), "text/html");
    assert_eq!(asset_media_type("x/y.css"), "text/css");
    assert_eq!(asset_media_type("noextension"), "application/octet-stream");
}

#[test]
fn the_bar_knows_what_it_holds() {
    assert_eq!(parse_omni("magnet:?x"), OmniMode::Magnet);
    assert_eq!(parse_omni("0123456789abcdef0123456789abcdef01234567"), OmniMode::Magnet);
    assert_eq!(parse_omni("http://a/x.torrent"), OmniMode::Torrent);
    assert_eq!(parse_omni("http://a/x"), OmniMode::Search);
    assert_eq!(parse_omni("linux iso"), OmniMode::Search);
    assert_eq!(submit_omni(OmniMode::Search, "", "p"), None);
    assert_eq!(
        submit_omni(OmniMode::Search, "q", "p"),
        Some(UiRequest::Search("/api/search?query=q&provider=p".to_string()))
    );
    assert_eq!(
        submit_omni(OmniMode::Torrent, "t", "p"),
        Some(UiRequest::Magnet("t".to_string()))
    );
}

#[test]
fn commands_of_the_buttons() {
    assert_eq!(start_command("h"), "start:h");
    assert_eq!(stop_command("h"), "stop:h");
    assert_eq!(delete_command("h"), "delete:h");
    let c = controls(true, false);
    assert!(c.start && c.start_enabled && !c.stop && c.remove);
    let c = controls(true, true);
    assert!(c.start && !c.start_enabled && c.stop && !c.remove);
    let c = controls(false, true);
    assert!(!c.start && !c.stop && c.remove);
}

#[test]
fn toggling_opens_and_closes() {
    let mut open = vec!["a".to_string()];
    toggle_files(&mut open, "b".to_string());
    assert_eq!(open, vec!["a".to_string(), "b".to_string()]);
    toggle_files(&mut open, "a".to_string());
    assert_eq!(open, vec!["b".to_string()]);
    let mut panels: TextMap<String> = TextMap::new();
    toggle_panel(&mut panels, "h".to_string(), "Peers".to_string());
    toggle_panel(&mut panels, "h".to_string(), "Ratio".to_string());
    assert_eq!(panels.get("h").unwrap(), "Ratio");
    toggle_panel(&mut panels, "h".to_string(), "Ratio".to_string());
    assert!(panels.get("h").is_none());
}

#[test]
fn links_of_the_interface() {
    assert_eq!(child_path("", "a"), "a");
    assert_eq!(child_path("d", "a"), "d/a");
    assert_eq!(download_link("d/a"), "/download/d/a");
    assert_eq!(sync_address("https:", "h:1"), "wss://h:1/sync/ws");
    assert_eq!(sync_address("http:", "h"), "ws://h/sync/ws");
    assert_eq!(peers_colour(1, 2), "green");
    assert_eq!(peers_colour(0, 2), "yellow");
    assert_eq!(peers_colour(0, 0), "");
}

#[test]
fn directories_are_served_as_archives() {
    assert_eq!(how_served(false, true), Served::Missing);
    assert_eq!(how_served(true, true), Served::Archive);
    assert_eq!(how_served(true, false), Served::File);
}

#[test]
fn the_time_of_a_file() {
    assert_eq!(modified_text(false, 0, 0).as_deref(), Some("1970-01-01T00:00:00+00:00"));
    assert_eq!(
        modified_text(false, 1700000000, 500000000).as_deref(),
        Some("2023-11-14T22:13:20.500+00:00")
    );
    assert_eq!(modified_text(true, 1, 0).as_deref(), Some("1969-12-31T23:59:59+00:00"));
    assert_eq!(modified_text(true, 0, 1000).as_deref(), Some("1969-12-31T23:59:59.999999+00:00"));
    assert_eq!(modified_text(false, u64::MAX, 0), None);
    assert_eq!(modified_text(false, i64::MAX as u64, 0), None);
    assert_eq!(modified_text(false, 0, 1000000000), None);
}
