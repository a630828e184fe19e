//! The values that contracts speak of, and what they are the values of: nothing is left out of
//! them, nothing comes to them, and all stands in its place.
use vstd::prelude::*;

use crate::engine::commands::{effect_views, Effect, EffectView};
use crate::engine::manager::{slots, Queued};
use crate::engine::trackers::{source_view, TrackerSource};
use crate::order::values;
use crate::rss::feed::item_views;
use crate::rss::item::{link_views, ParsedFeedItem};
use crate::rss::links::LinkCandidate;
use crate::server::scraper::{result_views, rule_views, FieldValue, ResultRule, RuleValue};
use crate::text::{view_opt, views};
use crate::textmap::{value_at, TextMap};
use crate::ui::{request_view, RequestView, UiRequest};

verus! {

/// Texts stand for the strings that hold them, one for one.
pub proof fn law_texts(items: Seq<String>, s: String)
    ensures
        views(items).len() == items.len(),
        forall|i: int| 0 <= i < items.len() ==> #[trigger] views(items)[i] == items[i]@,
        view_opt(Some(s)) == Some(s@),
        view_opt(None) is None,
{
}

/// Values stand for what has them, one for one.
pub proof fn law_values<T: View>(items: Seq<T>)
    ensures
        values(items).len() == items.len(),
        forall|i: int| 0 <= i < items.len() ==> #[trigger] values(items)[i] == items[i]@,
{
}

/// The items and the links of a feed stand for themselves, one for one.
pub proof fn law_items_and_links(items: Seq<ParsedFeedItem>, links: Seq<LinkCandidate>)
    ensures
        item_views(items).len() == items.len(),
        forall|i: int| 0 <= i < items.len() ==> #[trigger] item_views(items)[i] == items[i]@,
        link_views(links).len() == links.len(),
        forall|i: int| 0 <= i < links.len() ==> #[trigger] link_views(links)[i] == links[i]@,
{
}

/// Rules and results stand for themselves, one for one.
pub proof fn law_rules_and_results(rules: Seq<ResultRule>, results: Seq<TextMap<FieldValue>>)
    ensures
        rule_views(rules).len() == rules.len(),
        forall|i: int| 0 <= i < rules.len() ==> #[trigger] rule_views(rules)[i] == rules[i]@,
        result_views(results).len() == results.len(),
        forall|i: int| 0 <= i < results.len() ==> #[trigger] result_views(results)[i] == results[i]@,
{
}

/// A rule that is a text names that and selects by it; one that is a list selects by its first
/// entry, where there is one, and takes the part that the second names; any other selects
/// nothing.
pub proof fn law_rule(rule: ResultRule)
    ensures
        rule@.key == rule.key@,
        match rule.value {
            RuleValue::Text(t) => rule@.text == Some(t@) && rule@.selector == t@ && rule@.part
                is None,
            RuleValue::List(list) => {
                &&& rule@.text is None
                &&& list@.len() > 0 && list@[0] is Some ==> rule@.selector == list@[0].unwrap()@
                &&& list@.len() == 0 || list@[0] is None ==> rule@.selector == ""@
                &&& list@.len() > 1 ==> rule@.part == view_opt(list@[1])
                &&& list@.len() <= 1 ==> rule@.part is None
            },
            RuleValue::Other => rule@.text is None && rule@.selector == ""@ && rule@.part is None,
        },
{
}

/// What is to be done with a torrent is told for what it is, in its order.
pub proof fn law_effects(effects: Seq<Effect>, i: int)
    requires
        0 <= i < effects.len(),
    ensures
        effect_views(effects).len() == effects.len(),
        match effects[i] {
            Effect::Resume => effect_views(effects)[i] is Resume,
            Effect::Pause => effect_views(effects)[i] is Pause,
            Effect::Save(record) => effect_views(effects)[i] == EffectView::Save(record@),
            Effect::Forget => effect_views(effects)[i] is Forget,
            Effect::Discard(name) => effect_views(effects)[i] == EffectView::Discard(name@),
            Effect::Remove => effect_views(effects)[i] is Remove,
            Effect::Cancel(token) => effect_views(effects)[i] == EffectView::Cancel(token),
        },
{
}

/// The places of queued torrents are theirs, in their order.
pub proof fn law_slots(queue: Seq<Queued>)
    ensures
        slots(queue).len() == queue.len(),
        forall|i: int| 0 <= i < queue.len() ==> #[trigger] slots(queue)[i] == queue[i].slot,
{
}

/// A source of trackers is the address or the tracker that it names.
pub proof fn law_sources(text: String)
    ensures
        source_view(TrackerSource::Remote(text)) == (true, text@),
        source_view(TrackerSource::Listed(text)) == (false, text@),
{
}

/// A request is for what it says.
pub proof fn law_requests(text: String)
    ensures
        request_view(Some(UiRequest::Magnet(text))) == Some(RequestView::Magnet(text@)),
        request_view(Some(UiRequest::Search(text))) == Some(RequestView::Search(text@)),
        request_view(None) is None,
{
}

/// A map holds what its entries hold, under their names and in their order.
pub proof fn law_map_entries<T: View>(map: TextMap<T>)
    ensures
        map@.len() == map.entries@.len(),
        forall|i: int|
            0 <= i < map@.len() ==> #[trigger] map@[i] == (
                map.entries@[i].name@,
                map.entries@[i].value@,
            ),
        map@.len() > 0 ==> value_at(map@, map.entries@[0].name@) == Some(map.entries@[0].value@),
{
}

} // verus!
