use cloud_torrent::rss::feed::parse_feed_document;
use cloud_torrent::rss::item::{
    digest_source, finalize_item, finish_item, first_time, format_published, item_key,
    key_from_digest, magnet_info_hash, parse_published_ts, show_published, ParsedFeedItem,
    PartialFeedItem,
};
use cloud_torrent::rss::links::{
    clean_text, decode_entities, extract_magnet, extract_torrent_url, is_likely_load_link,
    is_torrent_candidate, normalize_magnet, resolve_blob_text, resolve_blob_with, resolve_url,
    resolve_with, LinkCandidate,
};

const HASH: &str = "0123456789abcdef0123456789abcdef01234567";

#[test]
fn parses_rss_with_magnet_enclosure() {
    let xml = r#"
            <rss version="2.0">
              <channel>
                <title>Episodes</title>
                <item>
                  <title><![CDATA[Episode 1]]></title>
                  <guid>episode-1</guid>
                  <pubDate>Tue, 17 Mar 2026 10:00:00 GMT</pubDate>
                  <link>https://example.com/episode-1</link>
                  <enclosure url="magnet:?xt=urn:btih:0123456789ABCDEF0123456789ABCDEF01234567&amp;dn=Episode+1" type="application/x-bittorrent" />
                </item>
              </channel>
            </rss>
        "#;

    let feed = parse_feed_document("https://example.com/feed.xml", xml).unwrap();
    assert_eq!(feed.title, "Episodes");
    assert_eq!(feed.items.len(), 1);
    assert_eq!(feed.items[0].title, "Episode 1");
    assert_eq!(feed.items[0].link, "https://example.com/episode-1");
    assert!(feed.items[0]
        .load_url
        .starts_with("magnet:?xt=urn:btih:0123456789ABCDEF"));
    assert_eq!(feed.items[0].guid, "episode-1");
    assert_eq!(feed.items[0].published_ts, 1773741600);
    assert_eq!(feed.items[0].info_hash.as_deref(), Some(HASH));
}

#[test]
fn parses_atom_with_magnet_in_content() {
    let xml = r#"
            <feed xmlns="http://www.w3.org/2005/Atom">
              <title>Nightlies</title>
              <entry>
                <title>Build 42</title>
                <id>tag:example.com,2026:42</id>
                <updated>2026-03-17T11:30:00Z</updated>
                <link rel="alternate" href="https://example.com/build-42" />
                <content type="html"><![CDATA[
                  <p><a href="magnet:?xt=urn:btih:89ABCDEF0123456789ABCDEF0123456789ABCDEF&amp;dn=Build+42">Download</a></p>
                ]]></content>
              </entry>
            </feed>
        "#;

    let feed = parse_feed_document("https://example.com/atom.xml", xml).unwrap();
    assert_eq!(feed.title, "Nightlies");
    assert_eq!(feed.items.len(), 1);
    assert_eq!(feed.items[0].title, "Build 42");
    assert_eq!(feed.items[0].link, "https://example.com/build-42");
    assert!(feed.items[0]
        .load_url
        .starts_with("magnet:?xt=urn:btih:89ABCDEF"));
    assert_eq!(feed.items[0].published_ts, 1773747000);
}

#[test]
fn items_without_anything_to_load_are_dropped() {
    let xml = "<rss><channel><title>T</title><item><title>No</title><link>https://a.b/page</link></item>\
        <item><title>Yes</title><link>https://a.b/x.torrent</link></item></channel></rss>";
    let feed = parse_feed_document("https://a.b/feed", xml).unwrap();
    assert_eq!(feed.items.len(), 1);
    assert_eq!(feed.items[0].title, "Yes");
    assert_eq!(feed.items[0].load_url, "https://a.b/x.torrent");
    assert_eq!(feed.items[0].link, "https://a.b/x.torrent");
    assert_eq!(feed.items[0].info_hash, None);
}

#[test]
fn relative_links_are_resolved_against_the_feed() {
    let xml = "<rss><channel><item><title>A</title><enclosure url=\"/dl/a.torrent\"/></item></channel></rss>";
    let feed = parse_feed_document("https://a.b/feed/rss.xml", xml).unwrap();
    assert_eq!(feed.items[0].load_url, "https://a.b/dl/a.torrent");
}

#[test]
fn a_broken_document_is_an_error() {
    let r = parse_feed_document("https://a.b/feed", "<rss><channel></item></rss>");
    assert!(matches!(r, Err(message) if message.starts_with("XML parse error: ")));
}

#[test]
fn an_empty_document_has_no_items() {
    let feed = parse_feed_document("https://a.b/feed", "").unwrap();
    assert_eq!(feed.title, "");
    assert_eq!(feed.items.len(), 0);
}

#[test]
fn entities_are_decoded_one_after_the_other() {
    assert_eq!(decode_entities("a &amp;lt; b &quot;c&#39;&#x27;"), "a < b \"c''");
    assert_eq!(clean_text("  <b>x</b>\n y&amp;z  "), "x y&z");
}

#[test]
fn magnets_are_normalized() {
    assert_eq!(normalize_magnet("  \"magnet:?xt=a&amp;b=c\").  "), "magnet:?xt=a&b=c\"");
    assert_eq!(normalize_magnet("'magnet:?x'"), "magnet:?x");
    assert_eq!(normalize_magnet("magnet:?x];"), "magnet:?x");
}

#[test]
fn links_are_resolved() {
    let base = Some("https://a.b/c/d");
    assert_eq!(resolve_url("e.torrent", base), "https://a.b/c/e.torrent");
    assert_eq!(resolve_url("https://x.y/z", base), "https://x.y/z");
    assert_eq!(resolve_url("magnet:?x", base), "magnet:?x");
    assert_eq!(resolve_url("e", Some("no address")), "e");
    assert_eq!(resolve_url("e", None), "e");
    assert_eq!(resolve_url("  ", base), "");
    assert_eq!(resolve_with("e", Some("https://q/e".to_string())), "https://q/e");
    assert_eq!(resolve_with("e", None), "e");
}

#[test]
fn texts_get_the_origin_of_the_feed() {
    let text = "<a href=\"/x\"><img src=\"/y\">&amp;";
    assert_eq!(
        resolve_blob_text(text, Some("https://a.b:8080/c/d")),
        "<a href=\"https://a.b:8080/x\"><img src=\"https://a.b:8080/y\">&"
    );
    assert_eq!(resolve_blob_text(text, None), "<a href=\"/x\"><img src=\"/y\">&");
    let nested = |depth: usize| format!("{}https://a.b/c", "Blob:".repeat(depth));
    for depth in [1, 2, 1000] {
        assert_eq!(
            resolve_blob_text(text, Some(&nested(depth))),
            "<a href=\"https://a.b/x\"><img src=\"https://a.b/y\">&"
        );
    }
    assert_eq!(
        resolve_blob_text(text, Some(&nested(100000))),
        "<a href=\"/x\"><img src=\"/y\">&"
    );
    assert_eq!(
        resolve_blob_with("href=\"/x\"", Some("o".to_string())),
        "href=\"o/x\""
    );
}

#[test]
fn links_are_found_in_texts() {
    let text = "see magnet:?xt=urn:btih:AA, or <a href='https://a.b/x.TORRENT'>";
    assert_eq!(extract_magnet(text).as_deref(), Some("magnet:?xt=urn:btih:AA"));
    assert_eq!(extract_torrent_url(text).as_deref(), Some("https://a.b/x.TORRENT"));
    assert_eq!(extract_magnet("magnet:"), None);
    assert_eq!(extract_torrent_url("https://a.b/x"), None);
    assert_eq!(
        extract_torrent_url("https://a.b/x https://a.b/y.torrent").as_deref(),
        Some("https://a.b/y.torrent")
    );
}

fn candidate(url: &str, rel: &str, mime: &str) -> LinkCandidate {
    LinkCandidate { url: url.to_string(), rel: rel.to_string(), mime: mime.to_string() }
}

#[test]
fn torrent_links_are_told_from_pages() {
    assert!(is_torrent_candidate(&candidate("https://a/x.torrent", "", "")));
    assert!(is_torrent_candidate(&candidate("https://a/x", "enclosure", "")));
    assert!(is_torrent_candidate(&candidate("https://a/x", "", "application/x-bittorrent")));
    assert!(!is_torrent_candidate(&candidate("https://a/x", "alternate", "text/html")));
    assert!(!is_torrent_candidate(&candidate("ftp://a/x.torrent", "", "")));
    assert!(is_likely_load_link(&candidate("magnet:?x", "", "")));
    assert!(!is_likely_load_link(&candidate("https://a/x", "", "")));
}

#[test]
fn dates_are_read_in_many_formats() {
    assert_eq!(parse_published_ts("2026-03-17T11:30:00Z"), 1773747000);
    assert_eq!(parse_published_ts(" Tue, 17 Mar 2026 10:00:00 GMT "), 1773741600);
    assert_eq!(parse_published_ts("2026-03-17 11:30:00"), 1773747000);
    assert_eq!(parse_published_ts("2026-03-17 11:30"), 1773747000);
    assert_eq!(parse_published_ts("2026-03-17"), 1773705600);
    assert_eq!(parse_published_ts("soon"), 0);
    assert_eq!(parse_published_ts(""), 0);
    assert_eq!(first_time(None, Some(2), Some(3)), 2);
    assert_eq!(first_time(Some(1), Some(2), None), 1);
    assert_eq!(first_time(None, None, Some(3)), 3);
    assert_eq!(first_time(None, None, None), 0);
}

#[test]
fn dates_are_shown() {
    let shown = format_published("whatever", 1773747000);
    assert!(shown.contains("2026"));
    assert!(!shown.contains("whatever"));
    assert_eq!(format_published(" <i>soon</i> ", 0), "soon");
    assert_eq!(show_published("x", 5, Some("five".to_string())), "five");
    assert_eq!(show_published("x", 0, Some("five".to_string())), "x");
    assert_eq!(show_published("x", 5, None), "x");
}

#[test]
fn hashes_of_magnet_links_are_read() {
    let link = "magnet:?xt=urn:btih:0123456789ABCDEF0123456789ABCDEF01234567&dn=x";
    assert_eq!(magnet_info_hash(link).as_deref(), Some(HASH));
    assert_eq!(magnet_info_hash("https://a.b/x.torrent"), None);
    assert_eq!(magnet_info_hash("magnet:?dn=x"), None);
    assert_eq!(magnet_info_hash("magnet:?xt=urn:btih:0123"), None);
}

fn parsed(guid: &str, link: &str, hash: Option<&str>) -> ParsedFeedItem {
    ParsedFeedItem {
        title: "t".to_string(),
        guid: guid.to_string(),
        link: link.to_string(),
        load_url: "https://a/x.torrent".to_string(),
        published: String::new(),
        published_ts: 7,
        info_hash: hash.map(|h| h.to_string()),
    }
}

#[test]
fn items_have_identities() {
    assert_eq!(item_key("https://f", &parsed("g", "l", Some("abc"))), "ih:abc");
    assert_eq!(
        item_key("https://other", &parsed("h", "m", Some("abc"))),
        item_key("https://f", &parsed("g", "l", Some("abc")))
    );
    assert_eq!(digest_source("https://f", &parsed(" g ", "l", None)), "https://f|g");
    assert_eq!(digest_source("https://f", &parsed("", "l", None)), "https://f|l");
    assert_eq!(
        digest_source("https://f", &parsed("", "", None)),
        "https://f|t|7|https://a/x.torrent"
    );
    assert_eq!(key_from_digest(&parsed("g", "l", None), "d"), "guid:d");
    assert_eq!(key_from_digest(&parsed("", "l", None), "d"), "link:d");
    assert_eq!(key_from_digest(&parsed("", "", None), "d"), "item:d");
    // The digest of "https://f|g".
    assert_eq!(
        item_key("https://f", &parsed("g", "l", None)),
        format!("guid:{:x}", md5::compute("https://f|g"))
    );
    assert_ne!(
        item_key("https://f", &parsed("g", "l", None)),
        item_key("https://e", &parsed("g", "l", None))
    );
}

#[test]
fn items_are_finished() {
    let mut item = PartialFeedItem::new();
    item.links.push(candidate("https://a/page", "", ""));
    item.blobs.push("get magnet:?xt=urn:btih:0123456789ABCDEF0123456789ABCDEF01234567 now".to_string());
    let done = finalize_item(item).unwrap();
    assert_eq!(done.title, "Untitled RSS item");
    assert_eq!(done.link, "https://a/page");
    assert_eq!(
        done.load_url,
        "magnet:?xt=urn:btih:0123456789ABCDEF0123456789ABCDEF01234567"
    );
    assert_eq!(done.info_hash.as_deref(), Some(HASH));

    let mut item = PartialFeedItem::new();
    item.links.push(candidate("https://a/x.torrent", "", ""));
    let done = finish_item(item, 9, "nine".to_string(), None).unwrap();
    assert_eq!(done.link, "https://a/x.torrent");
    assert_eq!(done.published, "nine");
    assert_eq!(done.published_ts, 9);

    assert!(finalize_item(PartialFeedItem::new()).is_none());
}

#[test]
fn an_item_never_loads_from_a_command() {
    let xml = "<rss><channel><item><title>A</title><enclosure url=\"delete:abc\" type=\"application/x-bittorrent\"/>\
        <description>start:abc https://a.b/y.torrent</description></item></channel></rss>";
    let feed = parse_feed_document("no address", xml).unwrap();
    assert_eq!(feed.items.len(), 1);
    assert_eq!(feed.items[0].load_url, "https://a.b/y.torrent");
}
