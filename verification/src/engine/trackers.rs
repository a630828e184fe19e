//! The trackers that torrents are given.
use vstd::prelude::*;

use crate::engine::types::CachedTrackers;
use crate::order::{
    in_order, law_sort_is_ordered, law_text_order_irreflexive, law_text_order_total,
    law_text_order_transitive, lemma_sort_contains, lemma_text_rank_is_order, rank_of,
    sort_by_rank, strictly_increasing, text_before, values,
};
use crate::outside::urls::{encode_text, encoded_text};
use crate::text::{
    contains, found_at, has_text, nonempty_lines, starts_with, strip_prefix, trimmed_lines, views,
};

verus! {

/// How many seconds a list of trackers is good for.
pub const TRACKER_CACHE_TTL: u64 = 86400;

/// The stored list, where it may be used: no fresh one is asked for, and it is good still.
pub fn cached_list(force_refresh: bool, cached: Option<CachedTrackers>, now: u64) -> (r: Option<
    Vec<String>,
>)
    requires
        !force_refresh ==> (cached matches Some(c) ==> c.updated_at <= now),
    ensures
        r == (match cached {
            Some(c) => if !force_refresh && now - c.updated_at < TRACKER_CACHE_TTL {
                Some(c.list)
            } else {
                None
            },
            None => None,
        }),
{
    if force_refresh {
        return None;
    }
    match cached {
        Some(c) => if now - c.updated_at < TRACKER_CACHE_TTL {
            Some(c.list)
        } else {
            None
        },
        None => None,
    }
}

/// The trackers in a fetched list, one to a line.
pub fn fetched_list(text: &str) -> (r: Vec<String>)
    ensures
        views(r@) == trimmed_lines(text@),
{
    nonempty_lines(text)
}

/// A copy of texts.
fn copied(list: &Vec<String>) -> (r: Vec<String>)
    ensures
        views(r@) == views(list@),
{
    let mut out: Vec<String> = Vec::new();
    let mut i: usize = 0;
    while i < list.len()
        invariant
            i <= list@.len(),
            views(out@) == views(list@).take(i as int),
        decreases list@.len() - i,
    {
        let ghost before = views(out@);
        out.push(list[i].clone());
        i = i + 1;
        proof {
            assert(views(out@) =~= before.push(list@[i - 1]@));
            assert(views(list@).take(i as int) =~= before.push(list@[i - 1]@));
        }
    }
    proof {
        assert(views(list@).take(i as int) =~= views(list@));
    }
    out
}

/// What is stored of a list fetched at `now`: the list, unless it is empty.
pub fn list_to_cache(list: &Vec<String>, now: u64) -> (r: Option<CachedTrackers>)
    ensures
        r is None <==> list@.len() == 0,
        r matches Some(c) ==> views(c.list@) == views(list@) && c.updated_at == now,
{
    if list.len() == 0 {
        None
    } else {
        Some(CachedTrackers { list: copied(list), updated_at: now })
    }
}

/// Where trackers come from: a list at an address, or a line of the settings.
#[derive(Clone, Debug, PartialEq, Eq)]
pub enum TrackerSource {
    Remote(String),
    Listed(String),
}

/// The text of a source, and whether it is an address.
pub open spec fn source_view(s: TrackerSource) -> (bool, Seq<char>) {
    match s {
        TrackerSource::Remote(url) => (true, url@),
        TrackerSource::Listed(tracker) => (false, tracker@),
    }
}

/// What a line of the settings names.
pub open spec fn source_of(line: Seq<char>) -> (bool, Seq<char>) {
    if "remote:"@.is_prefix_of(line) {
        (true, line.skip("remote:"@.len() as int))
    } else {
        (false, line)
    }
}

/// The sources of trackers that the settings name.
pub fn tracker_sources(tracker_list: &str) -> (r: Vec<TrackerSource>)
    ensures
        r@.map_values(|s: TrackerSource| source_view(s)) == trimmed_lines(
            tracker_list@,
        ).map_values(|l: Seq<char>| source_of(l)),
{
    let lines = nonempty_lines(tracker_list);
    let ghost all = trimmed_lines(tracker_list@);
    let ghost show = |s: TrackerSource| source_view(s);
    let ghost read = |l: Seq<char>| source_of(l);
    let mut out: Vec<TrackerSource> = Vec::new();
    let mut i: usize = 0;
    while i < lines.len()
        invariant
            i <= lines@.len(),
            all == views(lines@),
            show == (|s: TrackerSource| source_view(s)),
            read == (|l: Seq<char>| source_of(l)),
            out@.map_values(show) == all.map_values(read).take(i as int),
        decreases lines@.len() - i,
    {
        let ghost before = out@.map_values(show);
        let source = match strip_prefix(lines[i].as_str(), "remote:") {
            Some(url) => TrackerSource::Remote(url),
            None => TrackerSource::Listed(lines[i].clone()),
        };
        let ghost told = source_view(source);
        out.push(source);
        proof {
            assert(all[i as int] == lines@[i as int]@);
            assert(out@.map_values(show) =~= before.push(told));
            assert(all.map_values(read).take(i + 1) =~= before.push(told));
        }
        i = i + 1;
    }
    proof {
        assert(all.map_values(read).take(i as int) =~= all.map_values(read));
    }
    out
}

/// The trackers in order, none twice.
pub fn merge_trackers(trackers: Vec<String>) -> (r: Vec<String>)
    ensures
        strictly_increasing(views(r@)),
        forall|t: Seq<char>| #[trigger] views(r@).contains(t) <==> views(trackers@).contains(t),
{
    let ghost given = views(trackers@);
    let ghost before = rank_of::<String>();
    proof {
        assert(values(trackers@) =~= given);
        lemma_text_rank_is_order();
        law_sort_is_ordered(given, before);
    }
    let sorted = sort_by_rank(trackers);
    let ghost all = views(sorted@);
    proof {
        assert(values(sorted@) =~= all);
    }
    let mut out: Vec<String> = Vec::new();
    let mut i: usize = 0;
    while i < sorted.len()
        invariant
            i <= sorted@.len(),
            all == views(sorted@),
            before == rank_of::<String>(),
            in_order(all, before),
            strictly_increasing(views(out@)),
            out@.len() == 0 <==> i == 0,
            i > 0 ==> views(out@).last() == all[i - 1],
            forall|t: Seq<char>| #[trigger]
                views(out@).contains(t) <==> all.take(i as int).contains(t),
        decreases sorted@.len() - i,
    {
        let ghost was = views(out@);
        let ghost x = all[i as int];
        let n: usize = out.len();
        let is_new = n == 0 || !(out[n - 1] == sorted[i]);
        proof {
            if n > 0 {
                assert(was.last() == out@[n - 1]@);
            }
            assert(all.take(i + 1) =~= all.take(i as int).push(x));
            assert forall|t: Seq<char>| #[trigger] all.take(i + 1).contains(t) <==> all.take(
                i as int,
            ).contains(t) || t == x by {
                if all.take(i as int).contains(t) {
                    let k = choose|k: int| 0 <= k < i && all.take(i as int)[k] == t;
                    assert(all.take(i + 1)[k] == t);
                }
                if t == x {
                    assert(all.take(i + 1)[i as int] == t);
                }
            }
        }
        if is_new {
            out.push(sorted[i].clone());
            proof {
                let now = views(out@);
                assert(now =~= was.push(x));
                if n > 0 {
                    let last = all[i - 1];
                    assert(!before(all[i as int], all[i - 1]));
                    law_text_order_total(last, x);
                    assert(text_before(last, x));
                    assert forall|a: int, b: int| 0 <= a < b < now.len() implies text_before(
                        #[trigger] now[a],
                        #[trigger] now[b],
                    ) by {
                        if b == n {
                            if a < n - 1 {
                                assert(text_before(was[a], was[n - 1]));
                                law_text_order_transitive(was[a], last, x);
                            }
                        } else {
                            assert(text_before(was[a], was[b]));
                        }
                    }
                }
                assert forall|t: Seq<char>| #[trigger] now.contains(t) <==> all.take(i + 1).contains(
                    t,
                ) by {
                    if now.contains(t) {
                        let k = choose|k: int| 0 <= k < now.len() && now[k] == t;
                        if k < was.len() {
                            assert(was[k] == t);
                            assert(was.contains(t));
                        }
                    }
                    if was.contains(t) {
                        let k = choose|k: int| 0 <= k < was.len() && was[k] == t;
                        assert(now[k] == t);
                    }
                    if t == x {
                        assert(now[n as int] == x);
                    }
                }
            }
        } else {
            proof {
                assert(was.contains(was.last()));
            }
        }
        i = i + 1;
    }
    proof {
        assert(all.take(i as int) =~= all);
        assert forall|t: Seq<char>| #[trigger] views(out@).contains(t) <==> given.contains(t) by {
            lemma_sort_contains(given, before, t);
        }
    }
    out
}

/// Two lists in order with the same trackers are the same list.
pub proof fn law_merged_list_is_unique(a: Seq<Seq<char>>, b: Seq<Seq<char>>)
    requires
        strictly_increasing(a),
        strictly_increasing(b),
        forall|t: Seq<char>| #[trigger] a.contains(t) <==> b.contains(t),
    ensures
        a == b,
    decreases a.len(),
{
    if a.len() == 0 {
        if b.len() > 0 {
            assert(b.contains(b[0]));
            assert(a.contains(b[0]));
        }
        assert(a =~= b);
    } else {
        let x = a.last();
        assert(a.contains(a[a.len() - 1]));
        assert(b.contains(x));
        assert(b.contains(b[b.len() - 1]));
        let y = b.last();
        assert(a.contains(y));
        let i = choose|i: int| 0 <= i < a.len() && a[i] == y;
        let j = choose|j: int| 0 <= j < b.len() && b[j] == x;
        if x != y {
            assert(text_before(a[i], a[a.len() - 1]));
            assert(text_before(b[j], b[b.len() - 1]));
            law_text_order_transitive(x, y, x);
            law_text_order_irreflexive(x);
        }
        let c = a.drop_last();
        let d = b.drop_last();
        assert(strictly_increasing(c));
        assert(strictly_increasing(d));
        assert forall|t: Seq<char>| #[trigger] c.contains(t) <==> d.contains(t) by {
            if c.contains(t) {
                let k = choose|k: int| 0 <= k < c.len() && c[k] == t;
                assert(text_before(a[k], a[a.len() - 1]));
                law_text_order_irreflexive(x);
                assert(a.contains(t));
                let m = choose|m: int| 0 <= m < b.len() && b[m] == t;
                assert(d[m] == t);
            }
            if d.contains(t) {
                let k = choose|k: int| 0 <= k < d.len() && d[k] == t;
                assert(text_before(b[k], b[b.len() - 1]));
                law_text_order_irreflexive(x);
                assert(b[k] == t);
                assert(b.contains(t));
                assert(a.contains(t));
                let m = choose|m: int| 0 <= m < a.len() && a[m] == t;
                assert(c[m] == t);
            }
        }
        law_merged_list_is_unique(c, d);
        assert(a =~= c.push(x));
        assert(b =~= d.push(x));
    }
}

/// `link` with a tracker, unless it stands in it already.
pub open spec fn with_tracker(link: Seq<char>, tracker: Seq<char>) -> Seq<char> {
    if contains(link, encoded_text(tracker)) {
        link
    } else {
        link + "&tr="@ + encoded_text(tracker)
    }
}

/// `link` with trackers, those left out that stand in it already.
pub open spec fn with_trackers(link: Seq<char>, trackers: Seq<Seq<char>>) -> Seq<char>
    decreases trackers.len(),
{
    if trackers.len() == 0 {
        link
    } else {
        with_tracker(with_trackers(link, trackers.drop_last()), trackers.last())
    }
}

/// Whether a link is to be given trackers: it is a magnet link, and either it has none or
/// all are to have them.
pub open spec fn wants_trackers(link: Seq<char>, always_add: bool) -> bool {
    "magnet:"@.is_prefix_of(link) && (always_add || !contains(link, "&tr="@))
}

/// Whether a torrent file is to be given trackers: either it names none, or all are to have
/// them.
pub open spec fn file_wants_trackers(has_trackers: bool, always_add: bool) -> bool {
    always_add || !has_trackers
}

/// The trackers that a torrent file is given.
pub open spec fn trackers_for_file(
    has_trackers: bool,
    always_add: bool,
    trackers: Seq<Seq<char>>,
) -> Seq<Seq<char>> {
    if file_wants_trackers(has_trackers, always_add) {
        trackers
    } else {
        Seq::empty()
    }
}

/// The trackers that a torrent file is given; `has_trackers` tells whether it names some.
pub fn file_trackers(has_trackers: bool, always_add: bool, trackers: &Vec<String>) -> (r: Vec<
    String,
>)
    ensures
        views(r@) == trackers_for_file(has_trackers, always_add, views(trackers@)),
{
    if always_add || !has_trackers {
        copied(trackers)
    } else {
        let none: Vec<String> = Vec::new();
        proof {
            assert(views(none@) =~= Seq::empty());
        }
        none
    }
}

/// The link that is resolved in place of `link`.
pub open spec fn completed(link: Seq<char>, always_add: bool, trackers: Seq<Seq<char>>) -> Seq<
    char,
> {
    if wants_trackers(link, always_add) {
        with_trackers(link, trackers)
    } else {
        link
    }
}

/// Whether a link is to be given trackers.
pub fn needs_trackers(link: &str, always_add: bool) -> (r: bool)
    ensures
        r == wants_trackers(link@, always_add),
{
    starts_with(link, "magnet:") && (always_add || !has_text(link, "&tr="))
}

/// `link` with trackers, those left out that stand in it already.
pub fn add_trackers(link: String, trackers: &Vec<String>) -> (r: String)
    ensures
        r@ == with_trackers(link@, views(trackers@)),
{
    let ghost all = views(trackers@);
    let ghost given = link@;
    let mut out = link;
    let mut i: usize = 0;
    proof {
        assert(all.take(0) =~= Seq::empty());
    }
    while i < trackers.len()
        invariant
            i <= trackers@.len(),
            all == views(trackers@),
            out@ == with_trackers(given, all.take(i as int)),
        decreases trackers@.len() - i,
    {
        proof {
            assert(all.take(i + 1).drop_last() =~= all.take(i as int));
            assert(all.take(i + 1).last() == trackers@[i as int]@);
        }
        let encoded = encode_text(trackers[i].as_str());
        if !has_text(out.as_str(), encoded.as_str()) {
            out.append("&tr=");
            out.append(encoded.as_str());
        }
        i = i + 1;
    }
    proof {
        assert(all.take(i as int) =~= all);
    }
    out
}

/// The link that is resolved in place of `link`.
pub fn complete_link(link: &str, always_add: bool, trackers: &Vec<String>) -> (r: String)
    ensures
        r@ == completed(link@, always_add, views(trackers@)),
{
    if needs_trackers(link, always_add) {
        add_trackers(String::from_str(link), trackers)
    } else {
        String::from_str(link)
    }
}

proof fn lemma_contains_in_prefix(s: Seq<char>, t: Seq<char>, part: Seq<char>)
    requires
        s.is_prefix_of(t),
        contains(s, part),
    ensures
        contains(t, part),
{
    let at = choose|at: int| #[trigger] found_at(s, part, at);
    assert(s =~= t.take(s.len() as int));
    assert(t.subrange(at, at + part.len()) =~= s.subrange(at, at + part.len()));
    assert(found_at(t, part, at));
}

/// Giving a link trackers keeps it as its beginning, and every tracker stands in it then.
pub proof fn law_trackers_are_added(link: Seq<char>, trackers: Seq<Seq<char>>)
    ensures
        link.is_prefix_of(with_trackers(link, trackers)),
        forall|i: int|
            0 <= i < trackers.len() ==> contains(
                with_trackers(link, trackers),
                encoded_text(#[trigger] trackers[i]),
            ),
    decreases trackers.len(),
{
    let r = with_trackers(link, trackers);
    if trackers.len() == 0 {
        assert(link =~= r.take(link.len() as int));
    } else {
        let front = trackers.drop_last();
        let inner = with_trackers(link, front);
        let last = encoded_text(trackers.last());
        law_trackers_are_added(link, front);
        assert(inner =~= r.take(inner.len() as int));
        assert(inner.is_prefix_of(r));
        assert(link =~= inner.take(link.len() as int));
        assert(link =~= r.take(link.len() as int));
        if !contains(inner, last) {
            let at = (r.len() - last.len()) as int;
            assert(r.subrange(at, at + last.len()) =~= last);
            assert(found_at(r, last, at));
        }
        assert forall|i: int| 0 <= i < trackers.len() implies contains(
            r,
            encoded_text(#[trigger] trackers[i]),
        ) by {
            if i < front.len() {
                assert(front[i] == trackers[i]);
                lemma_contains_in_prefix(inner, r, encoded_text(front[i]));
            }
        }
    }
}

proof fn lemma_no_more_trackers(link: Seq<char>, trackers: Seq<Seq<char>>)
    requires
        forall|i: int|
            0 <= i < trackers.len() ==> contains(link, encoded_text(#[trigger] trackers[i])),
    ensures
        with_trackers(link, trackers) == link,
    decreases trackers.len(),
{
    if trackers.len() > 0 {
        let front = trackers.drop_last();
        assert forall|i: int| 0 <= i < front.len() implies contains(
            link,
            encoded_text(#[trigger] front[i]),
        ) by {
            assert(front[i] == trackers[i]);
        }
        lemma_no_more_trackers(link, front);
        assert(contains(link, encoded_text(trackers[trackers.len() - 1])));
    }
}

/// Giving a link the same trackers once more changes nothing.
pub proof fn law_trackers_are_added_once(link: Seq<char>, trackers: Seq<Seq<char>>)
    ensures
        with_trackers(with_trackers(link, trackers), trackers) == with_trackers(link, trackers),
{
    law_trackers_are_added(link, trackers);
    lemma_no_more_trackers(with_trackers(link, trackers), trackers);
}

} // verus!
