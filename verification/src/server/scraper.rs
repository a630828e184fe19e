//! Searching with the pages and interfaces of others.
use vstd::prelude::*;
use vstd::utf8::is_ascii_chars;

use crate::outside::pages::{
    cells_in, cells_view, element_in, element_opt, find_cells, find_first, find_rows, rows_in,
    rows_view, ElementView, PageElement,
};
use crate::outside::patterns::{
    first_group, group_view, regex_group, regex_replaced, replace_matches, with_pages,
    PAGE_PATTERN,
};
use crate::outside::urls::{encode_text, encoded_text};
use crate::text::{
    among, chars_of, concat, contains, ends_with, has_text, join, joined, replace, replaced, same_text,
    starts_with, string_of, strip_prefix, trim, trim_both, trimmed, trimmed_both, view_opt, views,
    CharClass,
};
use crate::textmap::{distinct_names, law_with_value, value_at, with_value, TextMap};

verus! {

/// A value of a search result: a text, or another value as JSON.
#[derive(Clone, Debug, PartialEq, Eq)]
pub enum FieldValue {
    Text(String),
    Raw(String),
}

/// A value of a search result in values.
pub enum FieldView {
    Text(Seq<char>),
    Raw(Seq<char>),
}

impl View for FieldValue {
    type V = FieldView;

    open spec fn view(&self) -> FieldView {
        match self {
            FieldValue::Text(t) => FieldView::Text(t@),
            FieldValue::Raw(t) => FieldView::Raw(t@),
        }
    }
}

impl FieldValue {
    /// The same value once more.
    pub fn copy(&self) -> (r: FieldValue)
        ensures
            r@ == self@,
    {
        match self {
            FieldValue::Text(t) => FieldValue::Text(t.clone()),
            FieldValue::Raw(t) => FieldValue::Raw(t.clone()),
        }
    }
}

/// The values of a search result under their names.
pub type Fields = Seq<(Seq<char>, FieldView)>;

/// What the configuration of a provider says of a value: a text, or a list of which some
/// entries are texts, or something that means nothing.
#[derive(Clone, Debug, PartialEq, Eq)]
pub enum RuleValue {
    Text(String),
    List(Vec<Option<String>>),
    Other,
}

/// How a value of the results of a provider is found.
#[derive(Clone, Debug, PartialEq, Eq)]
pub struct ResultRule {
    pub key: String,
    pub value: RuleValue,
}

/// A rule in values: the name of the value, the text of the rule if it is one, the
/// selector, and what is taken of the selected element.
pub struct RuleView {
    pub key: Seq<char>,
    pub text: Option<Seq<char>>,
    pub selector: Seq<char>,
    pub part: Option<Seq<char>>,
}

/// The entry of a list, where it is a text.
pub open spec fn entry_of(list: Seq<Option<String>>, i: int) -> Option<Seq<char>> {
    if i < list.len() {
        view_opt(list[i])
    } else {
        None
    }
}

impl View for ResultRule {
    type V = RuleView;

    open spec fn view(&self) -> RuleView {
        RuleView {
            key: self.key@,
            text: match self.value {
                RuleValue::Text(t) => Some(t@),
                _ => None,
            },
            selector: match self.value {
                RuleValue::Text(t) => t@,
                RuleValue::List(list) => match entry_of(list@, 0) {
                    Some(s) => s,
                    None => ""@,
                },
                RuleValue::Other => ""@,
            },
            part: match self.value {
                RuleValue::List(list) => entry_of(list@, 1),
                _ => None,
            },
        }
    }
}

/// Rules in values.
pub open spec fn rule_views(rules: Seq<ResultRule>) -> Seq<RuleView> {
    rules.map_values(|r: ResultRule| r@)
}

impl ResultRule {
    /// The selector of the rule.
    fn selector(&self) -> (r: String)
        ensures
            r@ == self@.selector,
    {
        match &self.value {
            RuleValue::Text(t) => t.clone(),
            RuleValue::List(list) => {
                if list.len() > 0 {
                    if let Some(s) = &list[0] {
                        return s.clone();
                    }
                }
                String::from_str("")
            },
            RuleValue::Other => String::from_str(""),
        }
    }

    /// What the rule takes of the selected element.
    fn part(&self) -> (r: Option<String>)
        ensures
            view_opt(r) == self@.part,
    {
        match &self.value {
            RuleValue::List(list) => {
                if list.len() > 1 {
                    if let Some(s) = &list[1] {
                        return Some(s.clone());
                    }
                }
                None
            },
            _ => None,
        }
    }
}

/// Whether the key of a configuration names a provider rather than a page of one.
pub open spec fn names_provider(key: Seq<char>) -> bool {
    !contains(key, "/item"@)
}

/// The providers that are asked: the given one, where there is such, else all.
pub open spec fn asked_providers(keys: Seq<Seq<char>>, provider: Option<Seq<char>>) -> Seq<
    Seq<char>,
> {
    match provider {
        Some(p) => if keys.contains(p) {
            seq![p]
        } else {
            Seq::empty()
        },
        None => keys.filter(|k: Seq<char>| names_provider(k)),
    }
}

/// The providers that are asked: the given one, where there is such, else all.
pub fn providers_to_ask(keys: &Vec<String>, provider: Option<String>) -> (r: Vec<String>)
    ensures
        views(r@) == asked_providers(views(keys@), view_opt(provider)),
{
    let ghost all = views(keys@);
    let ghost keep = |k: Seq<char>| names_provider(k);
    let mut out: Vec<String> = Vec::new();
    match provider {
        Some(p) => {
            if among(keys, &p) {
                let ghost name = p@;
                out.push(p);
                proof {
                    assert(views(out@) =~= seq![name]);
                }
            } else {
                proof {
                    assert(views(out@) =~= Seq::empty());
                }
            }
        },
        None => {
            let mut i: usize = 0;
            proof {
                reveal(Seq::filter);
                assert(all.take(0).filter(keep) =~= Seq::empty());
                assert(views(out@) =~= Seq::empty());
            }
            while i < keys.len()
                invariant
                    i <= keys@.len(),
                    all == views(keys@),
                    keep == (|k: Seq<char>| names_provider(k)),
                    views(out@) == all.take(i as int).filter(keep),
                decreases keys@.len() - i,
            {
                let ghost before = views(out@);
                proof {
                    reveal(Seq::filter);
                    assert(all.take(i + 1).drop_last() =~= all.take(i as int));
                    assert(all.take(i + 1).last() == keys@[i as int]@);
                }
                if !has_text(keys[i].as_str(), "/item") {
                    out.push(keys[i].clone());
                    proof {
                        assert(views(out@) =~= before.push(keys@[i as int]@));
                    }
                }
                i = i + 1;
            }
            proof {
                assert(all.take(i as int) =~= all);
            }
        },
    }
    out
}

/// Whether a key is shown as a provider.
pub fn is_provider_key(key: &str) -> (r: bool)
    ensures
        r == !"/item"@.is_suffix_of(key@),
{
    !ends_with(key, "/item")
}

/// The provider that is asked where none is given.
pub fn provider_or_default(provider: Option<String>) -> (r: String)
    ensures
        r@ == (match provider {
            Some(p) => p@,
            None => "thepiratebay"@,
        }),
{
    match provider {
        Some(p) => p,
        None => String::from_str("thepiratebay"),
    }
}

/// Where the configuration of the providers comes from.
#[derive(Clone, Copy, Debug, PartialEq, Eq, Structural)]
pub enum ConfigSource {
    Local,
    Remote,
    Embedded,
    Nowhere,
}

/// Where the configuration of the providers comes from: a local file before a remote one,
/// where they can be read, and then the embedded one, unless none is wanted then.
pub fn config_source(local: bool, remote: bool, empty_if_fail: bool) -> (r: ConfigSource)
    ensures
        r == (if local {
            ConfigSource::Local
        } else if remote {
            ConfigSource::Remote
        } else if empty_if_fail {
            ConfigSource::Nowhere
        } else {
            ConfigSource::Embedded
        }),
{
    if local {
        ConfigSource::Local
    } else if remote {
        ConfigSource::Remote
    } else if empty_if_fail {
        ConfigSource::Nowhere
    } else {
        ConfigSource::Embedded
    }
}

/// The address that a provider is asked at.
pub open spec fn address_of(template: Seq<char>, query: Seq<char>) -> Seq<char> {
    regex_replaced(PAGE_PATTERN@, replace(template, "{{query}}"@, encoded_text(query)), "$1"@)
}

/// A text with every occurrence of `from` replaced by `to`.
fn replace_text(text: &str, from: &str, to: &str) -> (r: String)
    requires
        from@.len() > 0,
    ensures
        r@ == replace(text@, from@, to@),
{
    let chars = replaced(&chars_of(text), &chars_of(from), &chars_of(to));
    string_of(&chars)
}

/// The address that a provider is asked at; the template is empty where there is none.
pub fn search_address(template: &str, query: &str) -> (r: String)
    ensures
        r@ == address_of(template@, query@),
        is_ascii_chars(replace(template@, "{{query}}"@, encoded_text(query@))) ==> r@
            == with_pages(replace(template@, "{{query}}"@, encoded_text(query@))),
        !contains(replace(template@, "{{query}}"@, encoded_text(query@)), "{{page:"@) ==> r@
            == replace(template@, "{{query}}"@, encoded_text(query@)),
{
    proof {
        reveal_strlit("{{query}}");
    }
    let asked = replace_text(template, "{{query}}", encode_text(query).as_str());
    replace_matches(PAGE_PATTERN, asked.as_str(), "$1")
}

/// The address of the page of a result.
pub fn item_address(template: &str, path: &str) -> (r: String)
    ensures
        r@ == replace(template@, "{{item}}"@, path@),
{
    proof {
        reveal_strlit("{{item}}");
    }
    replace_text(template, "{{item}}", path)
}

/// A value as a text, where it is one.
pub open spec fn as_text(value: Option<FieldView>) -> Option<Seq<char>> {
    match value {
        Some(FieldView::Text(t)) => Some(t),
        _ => None,
    }
}

/// The text under a name; nothing where there is none.
pub open spec fn text_at(fields: Fields, name: Seq<char>) -> Seq<char> {
    match as_text(value_at(fields, name)) {
        Some(t) => t,
        None => ""@,
    }
}

/// The value under the first of two names that has one.
pub open spec fn either_at(fields: Fields, first: Seq<char>, second: Seq<char>) -> Option<
    FieldView,
> {
    match value_at(fields, first) {
        Some(v) => Some(v),
        None => value_at(fields, second),
    }
}

/// The magnet link of an info hash.
pub open spec fn magnet_of(hash: Seq<char>) -> Seq<char> {
    "magnet:?xt=urn:btih:"@ + hash
}

/// A result with a magnet link: its own, else that of its hash, else an empty one.
pub open spec fn with_magnet(fields: Fields) -> Fields {
    if value_at(fields, "magnet"@) is Some {
        fields
    } else {
        match as_text(either_at(fields, "infohash"@, "info_hash"@)) {
            Some(hash) => with_value(fields, "magnet"@, FieldView::Text(magnet_of(hash))),
            None => with_value(fields, "magnet"@, FieldView::Text(""@)),
        }
    }
}

/// A result with a text under `name`, where nothing is there.
pub open spec fn with_default(fields: Fields, name: Seq<char>, text: Seq<char>) -> Fields {
    if value_at(fields, name) is Some {
        fields
    } else {
        with_value(fields, name, FieldView::Text(text))
    }
}

/// A result that is told its provider.
pub open spec fn with_provider(fields: Fields, provider: Seq<char>) -> Fields {
    with_value(fields, "provider"@, FieldView::Text(provider))
}

/// The text under a name, where there is one.
fn text_in(fields: &TextMap<FieldValue>, name: &str) -> (r: Option<String>)
    ensures
        view_opt(r) == as_text(value_at(fields@, name@)),
{
    match fields.get(name) {
        Some(FieldValue::Text(t)) => Some(t.clone()),
        _ => None,
    }
}

/// Gives a result a magnet link.
fn fill_magnet(fields: &mut TextMap<FieldValue>)
    ensures
        final(fields)@ == with_magnet(old(fields)@),
{
    if fields.get("magnet").is_some() {
        return;
    }
    let hash = if fields.get("infohash").is_some() {
        text_in(fields, "infohash")
    } else {
        text_in(fields, "info_hash")
    };
    let magnet = match hash {
        Some(h) => concat("magnet:?xt=urn:btih:", h.as_str()),
        None => String::from_str(""),
    };
    fields.insert(String::from_str("magnet"), FieldValue::Text(magnet));
}

/// Gives a result a text under `name`, where nothing is there.
fn fill_default(fields: &mut TextMap<FieldValue>, name: &str, text: &str)
    ensures
        final(fields)@ == with_default(old(fields)@, name@, text@),
{
    if fields.get(name).is_none() {
        fields.insert(String::from_str(name), FieldValue::Text(String::from_str(text)));
    }
}

/// Tells a result its provider.
fn set_provider(fields: &mut TextMap<FieldValue>, provider: &str)
    ensures
        final(fields)@ == with_provider(old(fields)@, provider@),
{
    fields.insert(String::from_str("provider"), FieldValue::Text(String::from_str(provider)));
}

/// What the rules take of an item of an interface.
pub open spec fn mapped(item: Fields, rules: Seq<RuleView>) -> Fields
    decreases rules.len(),
{
    if rules.len() == 0 {
        Seq::empty()
    } else {
        let front = mapped(item, rules.drop_last());
        match rules.last().text {
            Some(name) => match value_at(item, name) {
                Some(value) => with_value(front, rules.last().key, value),
                None => front,
            },
            None => front,
        }
    }
}

/// A finished result of an interface.
pub open spec fn interface_result(fields: Fields, provider: Seq<char>) -> Fields {
    with_provider(with_magnet(fields), provider)
}

/// The results of an interface: what the rules take of its items, without those of which
/// they take nothing.
pub open spec fn interface_results(
    items: Seq<Fields>,
    rules: Seq<RuleView>,
    provider: Seq<char>,
) -> Seq<Fields>
    decreases items.len(),
{
    if items.len() == 0 {
        Seq::empty()
    } else {
        let front = interface_results(items.drop_last(), rules, provider);
        let found = mapped(items.last(), rules);
        if found.len() == 0 {
            front
        } else {
            front.push(interface_result(found, provider))
        }
    }
}

/// Results in values.
pub open spec fn result_views(results: Seq<TextMap<FieldValue>>) -> Seq<Fields> {
    results.map_values(|r: TextMap<FieldValue>| r@)
}

/// Finishes a result of an interface.
pub fn finish_interface_result(fields: &mut TextMap<FieldValue>, provider: &str)
    ensures
        final(fields)@ == interface_result(old(fields)@, provider@),
{
    fill_magnet(fields);
    set_provider(fields, provider);
}

/// What the rules take of an item of an interface.
fn map_item(item: &TextMap<FieldValue>, rules: &Vec<ResultRule>) -> (r: TextMap<FieldValue>)
    ensures
        r@ == mapped(item@, rule_views(rules@)),
{
    let ghost all = rule_views(rules@);
    let mut out: TextMap<FieldValue> = TextMap::new();
    let mut i: usize = 0;
    proof {
        assert(all.take(0) =~= Seq::empty());
    }
    while i < rules.len()
        invariant
            i <= rules@.len(),
            all == rule_views(rules@),
            out@ == mapped(item@, all.take(i as int)),
        decreases rules@.len() - i,
    {
        proof {
            assert(all.take(i + 1).drop_last() =~= all.take(i as int));
            assert(all.take(i + 1).last() == rules@[i as int]@);
        }
        if let RuleValue::Text(name) = &rules[i].value {
            if let Some(value) = item.get(name.as_str()) {
                out.insert(rules[i].key.clone(), value.copy());
            }
        }
        i = i + 1;
    }
    proof {
        assert(all.take(i as int) =~= all);
    }
    out
}

/// The results of an interface that gave `items`.
pub fn json_results(
    items: &Vec<TextMap<FieldValue>>,
    rules: &Vec<ResultRule>,
    provider: &str,
) -> (r: Vec<TextMap<FieldValue>>)
    ensures
        result_views(r@) == interface_results(
            result_views(items@),
            rule_views(rules@),
            provider@,
        ),
{
    let ghost all = result_views(items@);
    let ghost how = rule_views(rules@);
    let mut out: Vec<TextMap<FieldValue>> = Vec::new();
    let mut i: usize = 0;
    proof {
        assert(all.take(0) =~= Seq::empty());
        assert(result_views(out@) =~= Seq::empty());
    }
    while i < items.len()
        invariant
            i <= items@.len(),
            all == result_views(items@),
            how == rule_views(rules@),
            result_views(out@) == interface_results(all.take(i as int), how, provider@),
        decreases items@.len() - i,
    {
        let ghost before = result_views(out@);
        proof {
            assert(all.take(i + 1).drop_last() =~= all.take(i as int));
            assert(all.take(i + 1).last() == items@[i as int]@);
        }
        let mut found = map_item(&items[i], rules);
        proof {
            assert(found@.len() == found.entries@.len());
        }
        if found.entries.len() > 0 {
            finish_interface_result(&mut found, provider);
            let ghost told = found@;
            out.push(found);
            proof {
                assert(result_views(out@) =~= before.push(told));
            }
        }
        i = i + 1;
    }
    proof {
        assert(all.take(i as int) =~= all);
    }
    out
}

/// The text of an element.
pub open spec fn element_text(element: ElementView) -> Seq<char> {
    join(element.0, " "@)
}

/// What is taken of a text in which a pattern found `found`: the group, nothing where it
/// did not match, and the whole text where it is no pattern.
pub open spec fn group_or(found: Option<Option<Option<Seq<char>>>>, text: Seq<char>) -> Seq<char> {
    match found {
        None => text,
        Some(Some(Some(group))) => group,
        Some(_) => ""@,
    }
}

/// What a pattern between slashes takes of a text.
pub open spec fn pattern_text(part: Seq<char>, text: Seq<char>) -> Seq<char> {
    group_or(regex_group(trim_both(part, CharClass::Slash), text), text)
}

/// What a pattern that found `found` takes of a row: the group, and nothing at all where
/// it did not match.
pub open spec fn group_of_row(found: Option<Option<Option<Seq<char>>>>) -> Option<Seq<char>> {
    match found {
        Some(Some(Some(group))) => Some(group),
        Some(Some(None)) => Some(""@),
        _ => None,
    }
}

/// The name of the attribute that a part asks for; none where it asks for something else.
pub open spec fn attribute_name(part: Option<Seq<char>>) -> Seq<char> {
    match part {
        Some(p) => if "@"@.is_prefix_of(p) {
            p.skip(1)
        } else {
            ""@
        },
        None => ""@,
    }
}

/// What a part takes of an element: an attribute, what a pattern finds in its text, or
/// its text.
pub open spec fn part_text(element: ElementView, part: Option<Seq<char>>) -> Seq<char> {
    match part {
        Some(p) => if "@"@.is_prefix_of(p) {
            match element.1 {
                Some(value) => value,
                None => ""@,
            }
        } else if "/"@.is_prefix_of(p) {
            pattern_text(p, element_text(element))
        } else {
            trim(element_text(element))
        },
        None => trim(element_text(element)),
    }
}

/// What a rule takes of the row at `i` of a page. Without a selector it is what a pattern
/// finds in the text of the row.
pub open spec fn cell_text(page: Seq<char>, list: Seq<char>, rule: RuleView, i: int) -> Option<
    Seq<char>,
> {
    if rule.selector.len() == 0 {
        match rule.part {
            Some(p) => if "/"@.is_prefix_of(p) {
                group_of_row(
                    regex_group(
                        trim_both(p, CharClass::Slash),
                        join(rows_in(page, list).unwrap()[i], " "@),
                    ),
                )
            } else {
                None
            },
            None => None,
        }
    } else {
        match cells_in(page, list, rule.selector, attribute_name(rule.part)) {
            Some(cells) => match cells[i] {
                Some(element) => Some(part_text(element, rule.part)),
                None => None,
            },
            None => None,
        }
    }
}

/// What a rule takes of each row of a page.
#[derive(Clone, Debug, PartialEq, Eq)]
pub struct Column {
    pub key: String,
    pub texts: Vec<Option<String>>,
}

/// What a rule takes of each row, under the name of the value.
pub type ColumnView = (Seq<char>, Seq<Option<Seq<char>>>);

impl View for Column {
    type V = ColumnView;

    open spec fn view(&self) -> ColumnView {
        (self.key@, self.texts@.map_values(|t: Option<String>| view_opt(t)))
    }
}

/// Columns in values.
pub open spec fn column_views(columns: Seq<Column>) -> Seq<ColumnView> {
    columns.map_values(|c: Column| c@)
}

/// What a rule takes of each of the `n` rows of a page.
pub open spec fn column_of(page: Seq<char>, list: Seq<char>, rule: RuleView, n: nat) -> ColumnView {
    (rule.key, Seq::new(n, |i: int| cell_text(page, list, rule, i)))
}

/// What the rules take of each of the `n` rows of a page.
pub open spec fn columns_of(
    page: Seq<char>,
    list: Seq<char>,
    rules: Seq<RuleView>,
    n: nat,
) -> Seq<ColumnView> {
    rules.map_values(|r: RuleView| column_of(page, list, r, n))
}

/// The values that columns hold in the row at `i`.
pub open spec fn row_fields(columns: Seq<ColumnView>, i: int) -> Fields
    decreases columns.len(),
{
    if columns.len() == 0 {
        Seq::empty()
    } else {
        let front = row_fields(columns.drop_last(), i);
        match columns.last().1[i] {
            Some(text) => with_value(front, columns.last().0, FieldView::Text(text)),
            None => front,
        }
    }
}

/// A finished result of a page.
pub open spec fn page_result(fields: Fields, provider: Seq<char>) -> Fields {
    with_provider(
        with_default(with_default(with_magnet(fields), "peers"@, "0"@), "seeds"@, "0"@),
        provider,
    )
}

/// The results in the first `n` rows of columns, without the rows that hold nothing.
pub open spec fn column_results(
    columns: Seq<ColumnView>,
    provider: Seq<char>,
    n: nat,
) -> Seq<Fields>
    decreases n,
{
    if n == 0 {
        Seq::empty()
    } else {
        let front = column_results(columns, provider, (n - 1) as nat);
        let found = row_fields(columns, n - 1);
        if found.len() == 0 {
            front
        } else {
            front.push(page_result(found, provider))
        }
    }
}

/// The results of a page; none where the selector of its rows is not valid.
pub open spec fn all_page_results(
    page: Seq<char>,
    list: Seq<char>,
    rules: Seq<RuleView>,
    provider: Seq<char>,
) -> Seq<Fields> {
    match rows_in(page, list) {
        Some(rows) => column_results(
            columns_of(page, list, rules, rows.len()),
            provider,
            rows.len(),
        ),
        None => Seq::empty(),
    }
}

/// A pattern without the slashes around it.
fn without_slashes(part: &str) -> (r: String)
    ensures
        r@ == trim_both(part@, CharClass::Slash),
{
    string_of(&trimmed_both(&chars_of(part), CharClass::Slash))
}

/// The name of the attribute that a part asks for.
fn attribute_to_ask(part: &Option<String>) -> (r: String)
    ensures
        r@ == attribute_name(view_opt(*part)),
{
    proof {
        reveal_strlit("@");
    }
    match part {
        Some(p) => match strip_prefix(p.as_str(), "@") {
            Some(name) => name,
            None => String::from_str(""),
        },
        None => String::from_str(""),
    }
}

/// What is taken of a text in which a pattern found `found`.
pub fn take_group(found: Option<Option<Option<String>>>, text: String) -> (r: String)
    ensures
        r@ == group_or(group_view(found), text@),
{
    match found {
        None => text,
        Some(None) => String::from_str(""),
        Some(Some(None)) => String::from_str(""),
        Some(Some(Some(group))) => group,
    }
}

/// What a pattern that found `found` takes of a row.
pub fn take_group_of_row(found: Option<Option<Option<String>>>) -> (r: Option<String>)
    ensures
        view_opt(r) == group_of_row(group_view(found)),
{
    match found {
        None => None,
        Some(None) => None,
        Some(Some(None)) => Some(String::from_str("")),
        Some(Some(Some(group))) => Some(group),
    }
}

/// What a part takes of an element.
pub fn take_part(element: &PageElement, part: &Option<String>) -> (r: String)
    ensures
        r@ == part_text(element@, view_opt(*part)),
{
    let text = joined(&element.texts, " ");
    match part {
        Some(p) => {
            if starts_with(p.as_str(), "@") {
                return match &element.attribute {
                    Some(value) => value.clone(),
                    None => String::from_str(""),
                };
            }
            if starts_with(p.as_str(), "/") {
                let found = first_group(without_slashes(p.as_str()).as_str(), text.as_str());
                return take_group(found, text);
            }
            trimmed(text.as_str())
        },
        None => trimmed(text.as_str()),
    }
}

/// What a pattern between slashes finds in the text of a row, for a rule without a
/// selector; nothing for any other part.
fn take_of_row(row: &Vec<String>, part: &Option<String>) -> (r: Option<String>)
    ensures
        view_opt(r) == (match view_opt(*part) {
            Some(p) => if "/"@.is_prefix_of(p) {
                group_of_row(
                    regex_group(trim_both(p, CharClass::Slash), join(views(row@), " "@)),
                )
            } else {
                None
            },
            None => None,
        }),
{
    if let Some(p) = part {
        if starts_with(p.as_str(), "/") {
            let text = joined(row, " ");
            return take_group_of_row(
                first_group(without_slashes(p.as_str()).as_str(), text.as_str()),
            );
        }
    }
    None
}

/// What a rule takes of each row of a page.
fn take_column(page: &str, list: &str, rows: &Vec<Vec<String>>, rule: &ResultRule) -> (r: Vec<
    Option<String>,
>)
    requires
        rows_in(page@, list@) == Some(rows_view(rows@)),
    ensures
        r@.len() == rows@.len(),
        forall|i: int|
            0 <= i < rows@.len() ==> view_opt(#[trigger] r@[i]) == cell_text(
                page@,
                list@,
                rule@,
                i,
            ),
{
    let selector = rule.selector();
    let part = rule.part();
    let mut out: Vec<Option<String>> = Vec::new();
    let mut i: usize = 0;
    if selector.as_str().is_empty() {
        while i < rows.len()
            invariant
                i <= rows@.len(),
                out@.len() == i,
                rows_in(page@, list@) == Some(rows_view(rows@)),
                rule@.selector.len() == 0,
                view_opt(part) == rule@.part,
                forall|k: int|
                    0 <= k < i ==> view_opt(#[trigger] out@[k]) == cell_text(
                        page@,
                        list@,
                        rule@,
                        k,
                    ),
            decreases rows@.len() - i,
        {
            proof {
                assert(rows_view(rows@)[i as int] == views(rows@[i as int]@));
            }
            out.push(take_of_row(&rows[i], &part));
            i = i + 1;
        }
        return out;
    }
    let attribute = attribute_to_ask(&part);
    let cells = find_cells(page, list, selector.as_str(), attribute.as_str());
    while i < rows.len()
        invariant
            i <= rows@.len(),
            out@.len() == i,
            rows_in(page@, list@) == Some(rows_view(rows@)),
            rule@.selector.len() > 0,
            view_opt(part) == rule@.part,
            match cells {
                Some(c) => cells_in(
                    page@,
                    list@,
                    rule@.selector,
                    attribute_name(rule@.part),
                ) == Some(cells_view(c@)) && c@.len() == rows@.len(),
                None => cells_in(page@, list@, rule@.selector, attribute_name(rule@.part)) is None,
            },
            forall|k: int|
                0 <= k < i ==> view_opt(#[trigger] out@[k]) == cell_text(page@, list@, rule@, k),
        decreases rows@.len() - i,
    {
        let text = match &cells {
            Some(c) => {
                proof {
                    assert(cells_view(c@)[i as int] == element_opt(c@[i as int]));
                }
                match &c[i] {
                    Some(element) => Some(take_part(element, &part)),
                    None => None,
                }
            },
            None => None,
        };
        out.push(text);
        i = i + 1;
    }
    out
}

/// What the rules take of each row of a page.
fn take_columns(page: &str, list: &str, rows: &Vec<Vec<String>>, rules: &Vec<ResultRule>) -> (r:
    Vec<Column>)
    requires
        rows_in(page@, list@) == Some(rows_view(rows@)),
    ensures
        column_views(r@) == columns_of(page@, list@, rule_views(rules@), rows@.len()),
        forall|k: int| 0 <= k < r@.len() ==> (#[trigger] r@[k]).texts@.len() == rows@.len(),
{
    let ghost goal = columns_of(page@, list@, rule_views(rules@), rows@.len());
    let mut out: Vec<Column> = Vec::new();
    let mut k: usize = 0;
    while k < rules.len()
        invariant
            k <= rules@.len(),
            rows_in(page@, list@) == Some(rows_view(rows@)),
            goal == columns_of(page@, list@, rule_views(rules@), rows@.len()),
            column_views(out@) == goal.take(k as int),
            forall|j: int| 0 <= j < out@.len() ==> (#[trigger] out@[j]).texts@.len() == rows@.len(),
        decreases rules@.len() - k,
    {
        let ghost before = column_views(out@);
        let texts = take_column(page, list, rows, &rules[k]);
        let column = Column { key: rules[k].key.clone(), texts };
        let ghost told = column@;
        out.push(column);
        proof {
            assert(rule_views(rules@)[k as int] == rules@[k as int]@);
            assert(told.1 =~= goal[k as int].1);
            assert(column_views(out@) =~= before.push(told));
            assert(goal.take(k + 1) =~= before.push(told));
        }
        k = k + 1;
    }
    proof {
        assert(goal.take(k as int) =~= goal);
    }
    out
}

/// The values that columns hold in the row at `i`.
fn gather_row(columns: &Vec<Column>, i: usize) -> (r: TextMap<FieldValue>)
    requires
        forall|k: int| 0 <= k < columns@.len() ==> i < (#[trigger] columns@[k]).texts@.len(),
    ensures
        r@ == row_fields(column_views(columns@), i as int),
{
    let ghost all = column_views(columns@);
    let mut row: TextMap<FieldValue> = TextMap::new();
    let mut k: usize = 0;
    proof {
        assert(all.take(0) =~= Seq::empty());
    }
    while k < columns.len()
        invariant
            k <= columns@.len(),
            all == column_views(columns@),
            forall|j: int| 0 <= j < columns@.len() ==> i < (#[trigger] columns@[j]).texts@.len(),
            row@ == row_fields(all.take(k as int), i as int),
        decreases columns@.len() - k,
    {
        let column = &columns[k];
        proof {
            assert(all.take(k + 1).drop_last() =~= all.take(k as int));
            assert(all.take(k + 1).last() == column@);
            assert(column@.1[i as int] == view_opt(column.texts@[i as int]));
        }
        if let Some(text) = &column.texts[i] {
            row.insert(column.key.clone(), FieldValue::Text(text.clone()));
        }
        k = k + 1;
    }
    proof {
        assert(all.take(k as int) =~= all);
    }
    row
}

/// The results in the first `total` rows of columns.
pub fn gather_results(columns: &Vec<Column>, total: usize, provider: &str) -> (r: Vec<
    TextMap<FieldValue>,
>)
    requires
        forall|k: int| 0 <= k < columns@.len() ==> total <= (#[trigger] columns@[k]).texts@.len(),
    ensures
        result_views(r@) == column_results(column_views(columns@), provider@, total as nat),
{
    let mut out: Vec<TextMap<FieldValue>> = Vec::new();
    let mut i: usize = 0;
    proof {
        assert(result_views(out@) =~= Seq::empty());
    }
    while i < total
        invariant
            i <= total,
            forall|k: int|
                0 <= k < columns@.len() ==> total <= (#[trigger] columns@[k]).texts@.len(),
            result_views(out@) == column_results(column_views(columns@), provider@, i as nat),
        decreases total - i,
    {
        let ghost before = result_views(out@);
        let mut row = gather_row(columns, i);
        proof {
            assert(row@.len() == row.entries@.len());
        }
        if row.entries.len() > 0 {
            finish_page_result(&mut row, provider);
            let ghost told = row@;
            out.push(row);
            proof {
                assert(result_views(out@) =~= before.push(told));
            }
        }
        i = i + 1;
    }
    out
}

/// Finishes a result of a page.
pub fn finish_page_result(fields: &mut TextMap<FieldValue>, provider: &str)
    ensures
        final(fields)@ == page_result(old(fields)@, provider@),
{
    fill_magnet(fields);
    fill_default(fields, "peers", "0");
    fill_default(fields, "seeds", "0");
    set_provider(fields, provider);
}

/// The results of a page.
pub fn html_results(page: &str, list: &str, rules: &Vec<ResultRule>, provider: &str) -> (r: Vec<
    TextMap<FieldValue>,
>)
    ensures
        result_views(r@) == all_page_results(page@, list@, rule_views(rules@), provider@),
{
    match find_rows(page, list) {
        Some(rows) => {
            let columns = take_columns(page, list, &rows, rules);
            gather_results(&columns, rows.len(), provider)
        },
        None => {
            let none: Vec<TextMap<FieldValue>> = Vec::new();
            proof {
                assert(result_views(none@) =~= Seq::empty());
            }
            none
        },
    }
}

/// What is still to be asked for a result without a magnet link: the key of the page of
/// its provider, and its path.
pub open spec fn follow_up_of(fields: Fields) -> Option<(Seq<char>, Seq<char>)> {
    let magnet = text_at(fields, "magnet"@);
    let path = match as_text(either_at(fields, "url"@, "path"@)) {
        Some(t) => t,
        None => ""@,
    };
    let provider = text_at(fields, "provider"@);
    if magnet.len() == 0 && path.len() > 0 && provider.len() > 0 {
        Some((provider + "/item"@, path))
    } else {
        None
    }
}

/// What is still to be asked for a result.
#[derive(Clone, Debug, PartialEq, Eq)]
pub struct FollowUp {
    pub key: String,
    pub path: String,
}

/// A question in values.
pub open spec fn follow_up_view(f: Option<FollowUp>) -> Option<(Seq<char>, Seq<char>)> {
    match f {
        Some(q) => Some((q.key@, q.path@)),
        None => None,
    }
}

/// What is still to be asked for a result.
pub fn follow_up(fields: &TextMap<FieldValue>) -> (r: Option<FollowUp>)
    ensures
        follow_up_view(r) == follow_up_of(fields@),
{
    proof {
        reveal_strlit("");
    }
    if let Some(magnet) = text_in(fields, "magnet") {
        if !magnet.as_str().is_empty() {
            return None;
        }
    }
    let path = if fields.get("url").is_some() {
        text_in(fields, "url")
    } else {
        text_in(fields, "path")
    };
    let path = match path {
        Some(p) => p,
        None => {
            return None;
        },
    };
    let provider = match text_in(fields, "provider") {
        Some(p) => p,
        None => {
            return None;
        },
    };
    if path.as_str().is_empty() || provider.as_str().is_empty() {
        return None;
    }
    Some(FollowUp { key: concat(provider.as_str(), "/item"), path })
}

/// Whether something is still to be asked for a result of a provider whose pages have a
/// configuration; `keys` are the keys of all configurations.
pub open spec fn is_asked_for(fields: Fields, keys: Seq<Seq<char>>) -> bool {
    follow_up_of(fields) matches Some(q) && keys.contains(q.0)
}

/// What is still to be asked, with the place of the result that it is asked for, in the order
/// of the results.
pub fn follow_ups(results: &Vec<TextMap<FieldValue>>, keys: &Vec<String>) -> (r: Vec<
    (usize, FollowUp),
>)
    ensures
        forall|k: int|
            0 <= k < r@.len() ==> (#[trigger] r@[k]).0 < results@.len() && is_asked_for(
                results@[r@[k].0 as int]@,
                views(keys@),
            ) && follow_up_of(results@[r@[k].0 as int]@) == Some((r@[k].1.key@, r@[k].1.path@)),
        forall|j: int, k: int|
            0 <= j < k < r@.len() ==> (#[trigger] r@[j]).0 < (#[trigger] r@[k]).0,
        forall|i: int|
            0 <= i < results@.len() && is_asked_for((#[trigger] results@[i])@, views(keys@))
                ==> exists|k: int| 0 <= k < r@.len() && (#[trigger] r@[k]).0 == i,
{
    let mut out: Vec<(usize, FollowUp)> = Vec::new();
    let mut i: usize = 0;
    while i < results.len()
        invariant
            i <= results@.len(),
            forall|k: int|
                0 <= k < out@.len() ==> (#[trigger] out@[k]).0 < i && is_asked_for(
                    results@[out@[k].0 as int]@,
                    views(keys@),
                ) && follow_up_of(results@[out@[k].0 as int]@) == Some(
                    (out@[k].1.key@, out@[k].1.path@),
                ),
            forall|j: int, k: int|
                0 <= j < k < out@.len() ==> (#[trigger] out@[j]).0 < (#[trigger] out@[k]).0,
            forall|n: int|
                0 <= n < i && is_asked_for((#[trigger] results@[n])@, views(keys@)) ==> exists|
                    k: int,
                | 0 <= k < out@.len() && (#[trigger] out@[k]).0 == n,
        decreases results@.len() - i,
    {
        let ghost before = out@;
        if let Some(asked) = follow_up(&results[i]) {
            if among(keys, &asked.key) {
                out.push((i, asked));
            }
        }
        proof {
            assert forall|n: int|
                0 <= n < i + 1 && is_asked_for((#[trigger] results@[n])@, views(keys@)) implies exists|
                    k: int,
                | 0 <= k < out@.len() && (#[trigger] out@[k]).0 == n by {
                if n < i {
                    let k = choose|k: int| 0 <= k < before.len() && (#[trigger] before[k]).0 == n;
                    assert(out@[k] == before[k]);
                } else {
                    assert(out@[before.len() as int].0 == n);
                }
            }
        }
        i = i + 1;
    }
    out
}

/// The name of the attribute that a part asks for on the page of a result: the part,
/// without the sign before it.
pub open spec fn plain_attribute(part: Option<Seq<char>>) -> Seq<char> {
    match part {
        Some(p) => if "@"@.is_prefix_of(p) {
            p.skip(1)
        } else {
            p
        },
        None => ""@,
    }
}

/// What a rule takes of the page of a result: an attribute, or a text.
pub open spec fn detail_text(page: Seq<char>, rule: RuleView) -> Option<Seq<char>> {
    match element_in(page, rule.selector, plain_attribute(rule.part)) {
        Some(element) => Some(detail_of(element, rule.part)),
        None => None,
    }
}

/// What is taken of an element of the page of a result.
pub open spec fn detail_of(element: ElementView, part: Option<Seq<char>>) -> Seq<char> {
    match part {
        Some(_) => match element.1 {
            Some(value) => value,
            None => ""@,
        },
        None => trim(element_text(element)),
    }
}

/// The text that the last rule for `key` to find something finds on the page of a result.
pub open spec fn detail_at(page: Seq<char>, rules: Seq<RuleView>, key: Seq<char>) -> Option<
    Seq<char>,
>
    decreases rules.len(),
{
    if rules.len() == 0 {
        None
    } else if rules.last().key == key && detail_text(page, rules.last()) is Some {
        detail_text(page, rules.last())
    } else {
        detail_at(page, rules.drop_last(), key)
    }
}

/// The magnet link of a result whose page gives these: its own, else that of its hash.
pub open spec fn magnet_or_hash(magnet: Option<Seq<char>>, hash: Option<Seq<char>>) -> Option<
    Seq<char>,
> {
    match magnet {
        Some(m) => Some(m),
        None => match hash {
            Some(h) => Some(magnet_of(h)),
            None => None,
        },
    }
}

/// The magnet link that the page of a result gives.
pub open spec fn page_magnet(page: Seq<char>, rules: Seq<RuleView>) -> Option<Seq<char>> {
    magnet_or_hash(detail_at(page, rules, "magnet"@), detail_at(page, rules, "infohash"@))
}

/// What is taken of an element of the page of a result.
pub fn take_detail(element: &PageElement, part: &Option<String>) -> (r: String)
    ensures
        r@ == detail_of(element@, view_opt(*part)),
{
    match part {
        Some(_) => match &element.attribute {
            Some(value) => value.clone(),
            None => String::from_str(""),
        },
        None => trimmed(joined(&element.texts, " ").as_str()),
    }
}

/// What a rule takes of the page of a result.
fn find_detail(page: &str, rule: &ResultRule) -> (r: Option<String>)
    ensures
        view_opt(r) == detail_text(page@, rule@),
{
    proof {
        reveal_strlit("@");
    }
    let selector = rule.selector();
    let part = rule.part();
    let attribute = match &part {
        Some(p) => match strip_prefix(p.as_str(), "@") {
            Some(name) => name,
            None => p.clone(),
        },
        None => String::from_str(""),
    };
    match find_first(page, selector.as_str(), attribute.as_str()) {
        Some(element) => Some(take_detail(&element, &part)),
        None => None,
    }
}

/// The text that the last rule for `key` to find something finds on the page of a result.
fn find_last(page: &str, rules: &Vec<ResultRule>, key: &str) -> (r: Option<String>)
    ensures
        view_opt(r) == detail_at(page@, rule_views(rules@), key@),
{
    let ghost all = rule_views(rules@);
    let mut n: usize = rules.len();
    proof {
        assert(all.take(n as int) =~= all);
    }
    while n > 0
        invariant
            n <= rules@.len(),
            all == rule_views(rules@),
            detail_at(page@, all, key@) == detail_at(page@, all.take(n as int), key@),
        decreases n,
    {
        proof {
            assert(all.take(n as int).drop_last() =~= all.take(n - 1));
            assert(all.take(n as int).last() == rules@[n - 1]@);
        }
        if same_text(rules[n - 1].key.as_str(), key) {
            let found = find_detail(page, &rules[n - 1]);
            if found.is_some() {
                return found;
            }
        }
        n = n - 1;
    }
    None
}

/// The magnet link that the page of a result gives.
pub fn find_magnet(page: &str, rules: &Vec<ResultRule>) -> (r: Option<String>)
    ensures
        view_opt(r) == page_magnet(page@, rule_views(rules@)),
{
    choose_magnet(find_last(page, rules, "magnet"), find_last(page, rules, "infohash"))
}

/// The magnet link of a result whose page gives these.
pub fn choose_magnet(magnet: Option<String>, hash: Option<String>) -> (r: Option<String>)
    ensures
        view_opt(r) == magnet_or_hash(view_opt(magnet), view_opt(hash)),
{
    match magnet {
        Some(m) => Some(m),
        None => match hash {
            Some(h) => Some(concat("magnet:?xt=urn:btih:", h.as_str())),
            None => None,
        },
    }
}

/// Gives the result at `at` a magnet link; nothing changes where there is none.
pub fn set_magnet(results: &mut Vec<TextMap<FieldValue>>, at: usize, magnet: String)
    ensures
        at >= old(results)@.len() ==> final(results)@ == old(results)@,
        at < old(results)@.len() ==> result_views(final(results)@) == result_views(
            old(results)@,
        ).update(
            at as int,
            with_value(
                old(results)@[at as int]@,
                "magnet"@,
                FieldView::Text(magnet@),
            ),
        ),
{
    if at < results.len() {
        let ghost all = result_views(results@);
        let mut row: TextMap<FieldValue> = TextMap::new();
        results.set_and_swap(at, &mut row);
        row.insert(String::from_str("magnet"), FieldValue::Text(magnet));
        results.set_and_swap(at, &mut row);
        proof {
            assert(result_views(results@) =~= all.update(
                at as int,
                with_value(old(results)@[at as int]@, "magnet"@, FieldView::Text(magnet@)),
            ));
        }
    }
}

/// Every result names its provider and has a magnet link, be it an empty one; one of a
/// page also has numbers of peers and seeds. A magnet link that was found stays.
pub proof fn law_results_are_complete(fields: Fields, provider: Seq<char>)
    requires
        distinct_names(fields),
    ensures
        value_at(interface_result(fields, provider), "provider"@) == Some(
            FieldView::Text(provider),
        ),
        value_at(interface_result(fields, provider), "magnet"@) is Some,
        value_at(page_result(fields, provider), "provider"@) == Some(FieldView::Text(provider)),
        value_at(page_result(fields, provider), "magnet"@) is Some,
        value_at(page_result(fields, provider), "peers"@) is Some,
        value_at(page_result(fields, provider), "seeds"@) is Some,
        value_at(fields, "magnet"@) is Some ==> value_at(
            interface_result(fields, provider),
            "magnet"@,
        ) == value_at(fields, "magnet"@) && value_at(page_result(fields, provider), "magnet"@)
            == value_at(fields, "magnet"@),
        distinct_names(interface_result(fields, provider)),
        distinct_names(page_result(fields, provider)),
{
    reveal_strlit("magnet");
    reveal_strlit("provider");
    reveal_strlit("peers");
    reveal_strlit("seeds");
    assert("magnet"@.len() == 6 && "provider"@.len() == 8);
    assert("peers"@[0] == 'p' && "seeds"@[0] == 's');
    let magnet = match as_text(either_at(fields, "infohash"@, "info_hash"@)) {
        Some(hash) => FieldView::Text(magnet_of(hash)),
        None => FieldView::Text(""@),
    };
    law_with_value(fields, "magnet"@, magnet);
    let a = with_magnet(fields);
    law_with_value(a, "provider"@, FieldView::Text(provider));
    law_with_value(a, "peers"@, FieldView::Text("0"@));
    let b = with_default(a, "peers"@, "0"@);
    law_with_value(b, "seeds"@, FieldView::Text("0"@));
    let c = with_default(b, "seeds"@, "0"@);
    law_with_value(c, "provider"@, FieldView::Text(provider));
}

/// A result that has a magnet link is not asked for again.
pub proof fn law_found_magnet_is_kept(fields: Fields)
    requires
        text_at(fields, "magnet"@).len() > 0,
    ensures
        follow_up_of(fields) is None,
{
}

} // verus!
