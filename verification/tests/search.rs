use cloud_torrent::outside::pages::{all_flat, PageElement, PAGE_DEPTH_LIMIT};
use cloud_torrent::server::scraper::{
    choose_magnet, config_source, find_magnet, finish_interface_result, finish_page_result, follow_up,
    follow_ups, gather_results, html_results, is_provider_key, item_address, json_results, provider_or_default,
    providers_to_ask, search_address, set_magnet, take_detail, take_group, take_group_of_row,
    take_part, Column, ConfigSource, FieldValue, FollowUp, ResultRule, RuleValue,
};
use cloud_torrent::textmap::TextMap;

fn s(t: &str) -> String {
    t.to_string()
}

fn fields(pairs: &[(&str, FieldValue)]) -> TextMap<FieldValue> {
    let mut map = TextMap::new();
    for (name, value) in pairs {
        map.insert(s(name), value.copy());
    }
    map
}

fn text(t: &str) -> FieldValue {
    FieldValue::Text(s(t))
}

fn rule(key: &str, value: RuleValue) -> ResultRule {
    ResultRule { key: s(key), value }
}

fn plain(key: &str, selector: &str) -> ResultRule {
    rule(key, RuleValue::Text(s(selector)))
}

fn listed(key: &str, selector: &str, part: &str) -> ResultRule {
    rule(key, RuleValue::List(vec![Some(s(selector)), Some(s(part))]))
}

fn shown(map: &TextMap<FieldValue>, name: &str) -> Option<String> {
    match map.get(name) {
        Some(FieldValue::Text(t)) => Some(t.clone()),
        Some(FieldValue::Raw(t)) => Some(format!("raw {}", t)),
        None => None,
    }
}

#[test]
fn providers_are_chosen() {
    let keys = vec![s("a"), s("a/item"), s("b"), s("a/items")];
    assert_eq!(providers_to_ask(&keys, None), vec![s("a"), s("b")]);
    assert_eq!(providers_to_ask(&keys, Some(s("b"))), vec![s("b")]);
    assert_eq!(providers_to_ask(&keys, Some(s("a/item"))), vec![s("a/item")]);
    assert!(providers_to_ask(&keys, Some(s("c"))).is_empty());
    assert!(is_provider_key("a/items"));
    assert!(!is_provider_key("a/item"));
    assert_eq!(provider_or_default(None), "thepiratebay");
    assert_eq!(provider_or_default(Some(s("x"))), "x");
}

#[test]
fn addresses_are_filled_in() {
    assert_eq!(
        search_address("https://a/?q={{query}}&p={{page:1}}", "x y&z"),
        "https://a/?q=x%20y%26z&p=1"
    );
    assert_eq!(search_address("https://a/{{query}}", "q"), "https://a/q");
    assert_eq!(search_address("", "q"), "");
    assert_eq!(item_address("https://a{{item}}", "/x/1"), "https://a/x/1");
}

#[test]
fn interfaces_give_results() {
    let items = vec![
        fields(&[("title", text("A")), ("hash", text("ff")), ("n", FieldValue::Raw(s("7")))]),
        fields(&[("other", text("B"))]),
        fields(&[("title", text("C"))]),
    ];
    let rules = vec![
        plain("name", "title"),
        plain("info_hash", "hash"),
        plain("seeds", "n"),
        rule("x", RuleValue::Other),
        listed("y", "title", "z"),
    ];
    let results = json_results(&items, &rules, "p");
    assert_eq!(results.len(), 2);
    assert_eq!(shown(&results[0], "name").as_deref(), Some("A"));
    assert_eq!(shown(&results[0], "magnet").as_deref(), Some("magnet:?xt=urn:btih:ff"));
    assert_eq!(shown(&results[0], "seeds").as_deref(), Some("raw 7"));
    assert_eq!(shown(&results[0], "provider").as_deref(), Some("p"));
    assert_eq!(shown(&results[0], "y"), None);
    assert_eq!(shown(&results[1], "magnet").as_deref(), Some(""));
}

const PAGE: &str = "<html><body><table>\
    <tr class=r><td class=n><a href='/t/1'>One <b>1</b></a></td><td class=s> 5 seeds </td></tr>\
    <tr class=r><td class=n><a href='/t/2'>Two</a></td><td class=s>none</td></tr>\
    <tr class=r></tr></table></body></html>";

#[test]
fn pages_give_results() {
    let rules = vec![
        plain("name", "td.n a"),
        listed("url", "td.n a", "@href"),
        listed("seeds", "td.s", "/(\\d+) seeds/"),
        listed("row", "", "/(T\\w+)/"),
        listed("title", "td.n a", "other"),
        plain("bad", ":::"),
    ];
    let results = html_results(PAGE, "tr.r", &rules, "p");
    assert_eq!(results.len(), 2);
    assert_eq!(shown(&results[0], "name").as_deref(), Some("One  1"));
    assert_eq!(shown(&results[0], "url").as_deref(), Some("/t/1"));
    assert_eq!(shown(&results[0], "seeds").as_deref(), Some("5"));
    assert_eq!(shown(&results[0], "row"), None);
    assert_eq!(shown(&results[0], "bad"), None);
    assert_eq!(shown(&results[0], "peers").as_deref(), Some("0"));
    assert_eq!(shown(&results[0], "magnet").as_deref(), Some(""));
    assert_eq!(shown(&results[0], "provider").as_deref(), Some("p"));
    assert_eq!(shown(&results[1], "seeds").as_deref(), Some(""));
    assert_eq!(shown(&results[1], "row").as_deref(), Some("Two"));
    assert_eq!(shown(&results[1], "title").as_deref(), Some("Two"));
    assert!(html_results(PAGE, ":::", &rules, "p").is_empty());
    assert!(html_results(PAGE, "tr.r", &vec![], "p").is_empty());
}

#[test]
fn results_are_completed() {
    let mut r = fields(&[("infohash", FieldValue::Raw(s("1"))), ("info_hash", text("ff"))]);
    finish_interface_result(&mut r, "p");
    assert_eq!(shown(&r, "magnet").as_deref(), Some(""));
    assert_eq!(shown(&r, "peers"), None);
    let mut r = fields(&[("magnet", text("m")), ("peers", text("3"))]);
    finish_page_result(&mut r, "p");
    assert_eq!(shown(&r, "magnet").as_deref(), Some("m"));
    assert_eq!(shown(&r, "peers").as_deref(), Some("3"));
    assert_eq!(shown(&r, "seeds").as_deref(), Some("0"));
}

fn element(texts: &[&str], attribute: Option<&str>) -> PageElement {
    PageElement { texts: texts.iter().map(|t| s(t)).collect(), attribute: attribute.map(s) }
}

#[test]
fn parts_are_taken_of_elements() {
    let e = element(&[" a ", "12"], Some("v"));
    assert_eq!(take_part(&e, &None), "a  12");
    assert_eq!(take_part(&e, &Some(s("@href"))), "v");
    assert_eq!(take_part(&element(&[], None), &Some(s("@href"))), "");
    assert_eq!(take_part(&e, &Some(s("/(\\d+)/"))), "12");
    assert_eq!(take_part(&e, &Some(s("/x/"))), "");
    assert_eq!(take_part(&e, &Some(s("/(/"))), " a  12");
    assert_eq!(take_group(None, s("t")), "t");
    assert_eq!(take_group(Some(Some(None)), s("t")), "");
    assert_eq!(take_group(Some(Some(Some(s("g")))), s("t")), "g");
    assert_eq!(take_group(Some(None), s("t")), "");
    assert_eq!(take_group_of_row(Some(Some(None))), Some(s("")));
    assert_eq!(take_group_of_row(Some(None)), None);
    assert_eq!(take_group_of_row(None), None);
    assert_eq!(take_group_of_row(Some(Some(Some(s("g"))))), Some(s("g")));
    assert_eq!(take_detail(&e, &Some(s("x"))), "v");
    assert_eq!(take_detail(&e, &None), "a  12");
    assert_eq!(take_detail(&element(&["t"], None), &Some(s("x"))), "");
}

#[test]
fn missing_magnets_are_asked_for() {
    let asked = follow_up(&fields(&[("magnet", text("")), ("url", text("/x")), ("provider", text("p"))]));
    assert_eq!(asked, Some(FollowUp { key: s("p/item"), path: s("/x") }));
    let asked = follow_up(&fields(&[("path", text("/y")), ("provider", text("p"))]));
    assert_eq!(asked, Some(FollowUp { key: s("p/item"), path: s("/y") }));
    assert_eq!(follow_up(&fields(&[("magnet", text("m")), ("url", text("/x")), ("provider", text("p"))])), None);
    assert_eq!(follow_up(&fields(&[("url", text("/x"))])), None);
    assert_eq!(follow_up(&fields(&[("provider", text("p"))])), None);
    let raw = FieldValue::Raw(s("1"));
    assert_eq!(follow_up(&fields(&[("url", raw), ("path", text("/y")), ("provider", text("p"))])), None);
}

#[test]
fn questions_are_numbered_by_their_results() {
    let missing = |p: &str, path: &str| fields(&[("path", text(path)), ("provider", text(p))]);
    let found = fields(&[("magnet", text("m")), ("path", text("/x")), ("provider", text("p"))]);
    let results = vec![missing("q", "/a"), missing("p", "/b"), found, missing("p", "/c")];
    let asked = follow_ups(&results, &vec![s("p"), s("p/item"), s("q")]);
    let question = |path: &str| FollowUp { key: s("p/item"), path: s(path) };
    assert_eq!(asked, vec![(1, question("/b")), (3, question("/c"))]);
    assert!(follow_ups(&results, &vec![]).is_empty());
}

fn nested(depth: usize, inner: &str) -> String {
    format!("{}{}{}", ":is(".repeat(depth), inner, ")".repeat(depth))
}

#[test]
fn deeply_nested_selectors_select_nothing() {
    let page = "<html><a id=m href='magnet:?x'>Get</a></html>";
    let rule = |depth: usize| vec![plain("magnet", &nested(depth, "#m"))];
    assert_eq!(find_magnet(page, &rule(20)).as_deref(), Some("Get"));
    assert_eq!(find_magnet(page, &rule(64)).as_deref(), Some("Get"));
    assert_eq!(find_magnet(page, &rule(100000)), None);
    assert!(html_results(page, &nested(100000, "#m"), &rule(1), "p").is_empty());
    assert!(html_results(page, "html", &rule(100000), "p").is_empty());
    assert_eq!(html_results(page, "html", &rule(1), "p").len(), 1);
    // Brackets that close nothing do not hide how deep the others are.
    for trick in ["[)],", "')',", "\")\",", "/*)*/", "\\),", "url()),"] {
        let deep = format!("{}#m{}", format!(":is({}", trick).repeat(5000), ")".repeat(5000));
        assert_eq!(find_magnet(page, &vec![plain("magnet", &deep)]), None, "{}", trick);
    }
}

#[test]
fn brackets_beside_one_another_are_read() {
    let page = "<html><a id=m title='((((' href='magnet:?x'>Get</a></html>";
    let beside = format!("a{}", ":is(#m)".repeat(300));
    assert_eq!(find_magnet(page, &vec![plain("magnet", &beside)]).as_deref(), Some("Get"));
    let listed = format!("{}#m", "p:not(.x),".repeat(300));
    assert_eq!(find_magnet(page, &vec![plain("magnet", &listed)]).as_deref(), Some("Get"));
    let quoted = format!("#m:not([title=\"{}\"])", "(".repeat(300));
    assert_eq!(find_magnet(page, &vec![plain("magnet", &quoted)]).as_deref(), Some("Get"));
}

#[test]
fn selectors_with_too_many_joints_select_nothing() {
    let page = "<b>x</b>".repeat(30000);
    let chain = |n: usize| vec!["b"; n].join("+");
    let found = |n: usize| find_magnet(&page, &vec![plain("magnet", &chain(n))]);
    assert_eq!(found(513).as_deref(), Some("x"));
    assert_eq!(found(30000), None);
}

#[test]
fn pages_too_deep_to_look_into_give_nothing() {
    let page = |depth: usize| format!("<p>x</p>{}<u>y</u>", "<div>".repeat(depth));
    let found = |depth: usize, selector: &str| {
        find_magnet(&page(depth), &vec![plain("magnet", selector)])
    };
    assert_eq!(found(500, "p:not(:has(u))").as_deref(), Some("x"));
    assert!(found(500, "body:has(u)").is_some());
    assert_eq!(found(5000, "body:has(u)"), None);
    assert_eq!(found(5000, "body:HAS(u)"), None);
    assert_eq!(found(5000, "body:h\\61s(u)"), None);
    assert_eq!(found(5000, "p").as_deref(), Some("x"));
    assert!(all_flat(&vec![0, 1, PAGE_DEPTH_LIMIT]));
    assert!(!all_flat(&vec![0, PAGE_DEPTH_LIMIT + 1, 1]));
    // The depth of what was taken out of the page again counts too.
    let removed = format!("{}<frameset></frameset>", "<div>".repeat(5000));
    assert_eq!(find_magnet(&removed, &vec![plain("magnet", "html:has(u)")]), None);
}

#[test]
fn the_stack_holds_all_limits_at_once() {
    let deep = format!("<article>{}</article>", "<div>".repeat(500));
    let page = format!("<section>{}{}</section>", deep, "<article>x</article>".repeat(510));
    let selector = nested(62, &format!("article:not(:has(u)){}", "+article".repeat(510)));
    assert_eq!(find_magnet(&page, &vec![plain("magnet", &selector)]).as_deref(), Some("x"));
    let selector = nested(62, &format!("article:has(div){}", "+article".repeat(510)));
    assert_eq!(find_magnet(&page, &vec![plain("magnet", &selector)]).as_deref(), Some("x"));
}

#[test]
fn pages_of_results_give_magnets() {
    let page = "<html><a id=m href='magnet:?x'>Get</a><p class=h> ff </p></html>";
    assert_eq!(find_magnet(page, &vec![listed("magnet", "#m", "@href")]).as_deref(), Some("magnet:?x"));
    assert_eq!(find_magnet(page, &vec![listed("magnet", "#m", "href")]).as_deref(), Some("magnet:?x"));
    assert_eq!(find_magnet(page, &vec![plain("magnet", "#m")]).as_deref(), Some("Get"));
    assert_eq!(
        find_magnet(page, &vec![plain("infohash", "p.h"), plain("magnet", "#none")]).as_deref(),
        Some("magnet:?xt=urn:btih:ff")
    );
    assert_eq!(find_magnet(page, &vec![plain("name", "#m")]), None);
    assert_eq!(choose_magnet(None, Some(s("ff"))).as_deref(), Some("magnet:?xt=urn:btih:ff"));
    assert_eq!(choose_magnet(Some(s("m")), Some(s("ff"))).as_deref(), Some("m"));
    assert_eq!(choose_magnet(None, None), None);
    let mut results = vec![fields(&[("magnet", text(""))]), fields(&[])];
    set_magnet(&mut results, 0, s("m"));
    set_magnet(&mut results, 7, s("n"));
    assert_eq!(shown(&results[0], "magnet").as_deref(), Some("m"));
    assert_eq!(shown(&results[1], "magnet"), None);
}

#[test]
fn page_numbers_stand_for_themselves() {
    assert_eq!(search_address("{{page:12}}/{{page:}}/{{page:x}}/{{page:3}", "q"), "12/{{page:}}/{{page:x}}/{{page:3}");
    assert_eq!(search_address("{{{page:7}}}{{query}}", "{{page:8}}"), "{7}%7B%7Bpage%3A8%7D%7D");
}

#[test]
fn columns_give_results() {
    let columns = vec![
        Column { key: s("name"), texts: vec![Some(s("a")), None, Some(s("c"))] },
        Column { key: s("infohash"), texts: vec![None, None, Some(s("ff"))] },
        Column { key: s("name"), texts: vec![None, None, Some(s("d"))] },
    ];
    let results = gather_results(&columns, 3, "p");
    assert_eq!(results.len(), 2);
    assert_eq!(results[0].get("name"), Some(&text("a")));
    assert_eq!(results[0].get("magnet"), Some(&text("")));
    assert_eq!(results[1].get("name"), Some(&text("d")));
    assert_eq!(results[1].get("magnet"), Some(&text("magnet:?xt=urn:btih:ff")));
    assert_eq!(results[1].get("provider"), Some(&text("p")));
    assert_eq!(gather_results(&columns, 0, "p").len(), 0);
}

#[test]
fn the_nearest_configuration_is_taken() {
    assert_eq!(config_source(true, true, true), ConfigSource::Local);
    assert_eq!(config_source(false, true, true), ConfigSource::Remote);
    assert_eq!(config_source(false, false, true), ConfigSource::Nowhere);
    assert_eq!(config_source(false, false, false), ConfigSource::Embedded);
}
