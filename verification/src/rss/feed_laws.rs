//! What holds of the reading of a feed, whatever its document holds.
use vstd::prelude::*;
use vstd::utf8::{decode_utf8, valid_utf8};

use crate::outside::markup::XmlEventView;
use crate::rss::feed::{
    after_event, after_events, carries_link, feed_of, feed_start, has_href, item_capture,
    link_attributes, local_part, with_link, with_text, CaptureKind, CaptureView, FeedView,
};
use crate::rss::item::{finalized, ParsedView, PartialView};
use crate::rss::links::{blob_resolved, cleaned, decoded, resolved, LinkView};
use crate::text::{ascii_lower, split, trim};
use crate::text_laws::law_split_at;

verus! {

/// The attributes of a tag, by their names.
pub type Attributes = Seq<(Seq<u8>, Seq<char>)>;

/// Whether an event ends the reading of a document.
pub open spec fn ends_reading(event: XmlEventView) -> bool {
    event is Eof || event is Failed
}

/// Whether no event ends the reading.
pub open spec fn goes_on(events: Seq<XmlEventView>) -> bool {
    forall|i: int| 0 <= i < events.len() ==> !ends_reading(#[trigger] events[i])
}

/// The name of a tag for the element that it holds an item in.
pub open spec fn is_item_tag(name: Seq<u8>) -> bool {
    local_part(name) == "item"@ || local_part(name) == "entry"@
}

/// Whether an event begins or ends an item.
pub open spec fn bounds_item(event: XmlEventView) -> bool {
    match event {
        XmlEventView::Start(name, _) => is_item_tag(name),
        XmlEventView::End(name) => is_item_tag(name),
        _ => false,
    }
}

/// Whether the reading stands between two elements of an item: nothing is being collected.
pub open spec fn between_elements(state: FeedView) -> bool {
    state.capture is None && state.item is Some
}

/// Reading on loses no item: whatever comes, the items that were found stay in front, at most
/// one comes behind them, and only the end of an item brings one.
pub proof fn law_items_stay(state: FeedView, base: Option<Seq<char>>, event: XmlEventView)
    ensures
        state.items.is_prefix_of(after_event(state, base, event).items),
        after_event(state, base, event).items.len() <= state.items.len() + 1,
        !(event is End && bounds_item(event)) ==> after_event(state, base, event).items
            == state.items,
{
    let next = after_event(state, base, event);
    assert(state.items =~= next.items.take(state.items.len() as int));
}

/// The end of an item that offers something to load puts it behind the items that were found
/// before it; one that offers nothing is left out. Either way the item is done.
pub proof fn law_item_ends(
    state: FeedView,
    base: Option<Seq<char>>,
    name: Seq<u8>,
    item: PartialView,
)
    requires
        state.item == Some(item),
        state.capture matches Some(c) ==> c.depth != state.depth,
        is_item_tag(name),
    ensures
        finalized(item) matches Some(parsed) ==> after_event(
            state,
            base,
            XmlEventView::End(name),
        ).items == state.items.push(parsed),
        finalized(item) is None ==> after_event(state, base, XmlEventView::End(name)).items
            == state.items,
        after_event(state, base, XmlEventView::End(name)).item is None,
{
}

/// The beginning of an item forgets what was read of an unfinished one.
pub proof fn law_item_begins(
    state: FeedView,
    base: Option<Seq<char>>,
    name: Seq<u8>,
    attributes: Seq<(Seq<u8>, Seq<char>)>,
)
    requires
        is_item_tag(name),
    ensures
        ({
            let next = after_event(state, base, XmlEventView::Start(name, attributes));
            &&& next.items == state.items
            &&& next.feed_title == state.feed_title
            &&& next.capture == state.capture
            &&& next.depth == state.depth + 1
            &&& next.item matches Some(item)
            &&& item.title.len() == 0
            &&& item.guid.len() == 0
            &&& item.published_raw.len() == 0
            &&& item.links.len() == 0
            &&& item.blobs.len() == 0
        }),
{
}

/// Whether `later` holds all that was read of an item: links and texts only come behind those
/// that were found, and a title, an identity or a date that was found stays.
pub open spec fn has_grown(item: PartialView, later: PartialView) -> bool {
    &&& item.links.is_prefix_of(later.links)
    &&& item.blobs.is_prefix_of(later.blobs)
    &&& item.title.len() > 0 ==> later.title == item.title
    &&& item.guid.len() > 0 ==> later.guid == item.guid
    &&& item.published_raw.len() > 0 ==> later.published_raw == item.published_raw
}

proof fn lemma_link_grows(
    item: PartialView,
    attributes: Seq<(Seq<u8>, Seq<char>)>,
    base: Option<Seq<char>>,
)
    ensures
        has_grown(item, with_link(item, attributes, base)),
        has_grown(item, item),
{
    let later = with_link(item, attributes, base);
    assert(item.links =~= later.links.take(item.links.len() as int));
    assert(item.blobs =~= item.blobs.take(item.blobs.len() as int));
    assert(item.links =~= item.links.take(item.links.len() as int));
}

proof fn lemma_text_grows(
    item: PartialView,
    kind: CaptureKind,
    text: Seq<char>,
    base: Option<Seq<char>>,
)
    ensures
        has_grown(item, with_text(item, kind, text, base)),
{
    let later = with_text(item, kind, text, base);
    assert(item.links =~= later.links.take(item.links.len() as int));
    assert(item.blobs =~= later.blobs.take(item.blobs.len() as int));
}

/// Reading on loses nothing of an item.
pub proof fn law_item_only_grows(state: FeedView, base: Option<Seq<char>>, event: XmlEventView)
    requires
        state.item is Some,
        !bounds_item(event),
    ensures
        after_event(state, base, event).item matches Some(later) && has_grown(
            state.item.unwrap(),
            later,
        ),
{
    let item = state.item.unwrap();
    lemma_link_grows(item, Seq::empty(), base);
    match event {
        XmlEventView::Start(name, attributes) => {
            lemma_link_grows(item, attributes, base);
        },
        XmlEventView::Empty(name, attributes) => {
            lemma_link_grows(item, attributes, base);
        },
        XmlEventView::End(name) => {
            if let Some(c) = state.capture {
                lemma_text_grows(item, c.kind, trim(c.text), base);
            }
        },
        _ => {},
    }
}

/// Reading on loses no item, however long the document goes on.
pub proof fn law_all_items_stay(
    state: FeedView,
    base: Option<Seq<char>>,
    events: Seq<XmlEventView>,
)
    ensures
        after_events(state, base, events) matches Ok(end) ==> state.items.is_prefix_of(end.items),
    decreases events.len(),
{
    if events.len() > 0 && !ends_reading(events[0]) {
        let next = after_event(state, base, events[0]);
        law_items_stay(state, base, events[0]);
        law_all_items_stay(next, base, events.skip(1));
        if let Ok(end) = after_events(state, base, events) {
            assert(next.items =~= end.items.take(next.items.len() as int));
            assert(state.items =~= next.items.take(state.items.len() as int));
            assert(state.items =~= end.items.take(state.items.len() as int));
        }
    } else if events.len() == 0 || events[0] is Eof {
        assert(state.items =~= state.items.take(state.items.len() as int));
    }
}

/// A document that goes on is read piece by piece.
pub proof fn law_read_in_pieces(
    state: FeedView,
    base: Option<Seq<char>>,
    a: Seq<XmlEventView>,
    b: Seq<XmlEventView>,
)
    requires
        goes_on(a),
    ensures
        after_events(state, base, a) matches Ok(middle) && after_events(state, base, a + b)
            == after_events(middle, base, b),
    decreases a.len(),
{
    if a.len() == 0 {
        assert(a + b =~= b);
    } else {
        assert(!ends_reading(a[0]));
        let rest = a.skip(1);
        assert((a + b)[0] == a[0]);
        assert((a + b).skip(1) =~= rest + b);
        assert forall|i: int| 0 <= i < rest.len() implies !ends_reading(#[trigger] rest[i]) by {
            assert(rest[i] == a[i + 1]);
        }
        law_read_in_pieces(after_event(state, base, a[0]), base, rest, b);
    }
}

/// Whether a piece of a document between items holds exactly the items `found`: reading it
/// puts them behind those that were found before, and changes nothing else.
pub open spec fn holds_items(
    base: Option<Seq<char>>,
    piece: Seq<XmlEventView>,
    found: Seq<ParsedView>,
) -> bool {
    forall|state: FeedView|
        state.item is None && state.capture is None ==> #[trigger] after_events(state, base, piece)
            == Ok::<FeedView, Seq<char>>(FeedView { items: state.items + found, ..state })
}

/// The items of two pieces of a document come one behind the other.
pub proof fn law_items_in_order(
    base: Option<Seq<char>>,
    a: Seq<XmlEventView>,
    x: Seq<ParsedView>,
    b: Seq<XmlEventView>,
    y: Seq<ParsedView>,
)
    requires
        goes_on(a),
        holds_items(base, a, x),
        holds_items(base, b, y),
    ensures
        holds_items(base, a + b, x + y),
{
    assert forall|state: FeedView| state.item is None && state.capture is None implies
        #[trigger] after_events(state, base, a + b) == Ok::<FeedView, Seq<char>>(
        FeedView { items: state.items + (x + y), ..state },
    ) by {
        law_read_in_pieces(state, base, a, b);
        let middle = FeedView { items: state.items + x, ..state };
        assert(after_events(state, base, a) == Ok::<FeedView, Seq<char>>(middle));
        assert(after_events(middle, base, b) == Ok::<FeedView, Seq<char>>(
            FeedView { items: middle.items + y, ..middle },
        ));
        assert(middle.items + y =~= state.items + (x + y));
    }
}

/// The pieces of a document, one behind the other.
pub open spec fn all_pieces(pieces: Seq<Seq<XmlEventView>>) -> Seq<XmlEventView>
    decreases pieces.len(),
{
    if pieces.len() == 0 {
        Seq::empty()
    } else {
        pieces[0] + all_pieces(pieces.skip(1))
    }
}

/// A document made of pieces that hold one item each gives as many items as there are
/// pieces, in their order.
pub proof fn law_as_many_items(
    base: Option<Seq<char>>,
    pieces: Seq<Seq<XmlEventView>>,
    found: Seq<ParsedView>,
)
    requires
        pieces.len() == found.len(),
        forall|i: int|
            0 <= i < pieces.len() ==> goes_on(#[trigger] pieces[i]) && holds_items(
                base,
                pieces[i],
                seq![found[i]],
            ),
    ensures
        holds_items(base, all_pieces(pieces), found),
    decreases pieces.len(),
{
    if pieces.len() == 0 {
        assert forall|state: FeedView| state.item is None && state.capture is None implies
            #[trigger] after_events(state, base, all_pieces(pieces)) == Ok::<FeedView, Seq<char>>(
            FeedView { items: state.items + found, ..state },
        ) by {
            assert(state.items + found =~= state.items);
        }
    } else {
        let rest = pieces.skip(1);
        let more = found.skip(1);
        assert forall|i: int| 0 <= i < rest.len() implies goes_on(#[trigger] rest[i])
            && holds_items(base, rest[i], seq![more[i]]) by {
            assert(rest[i] == pieces[i + 1]);
        }
        law_as_many_items(base, rest, more);
        assert(goes_on(pieces[0]));
        law_items_in_order(base, pieces[0], seq![found[0]], all_pieces(rest), more);
        assert(seq![found[0]] + more =~= found);
    }
}

/// What a feed found at `source_url` holds, where its document is made of pieces that hold
/// one item each: those items, in their order.
pub proof fn law_feed_holds_its_items(
    source_url: Seq<char>,
    pieces: Seq<Seq<XmlEventView>>,
    found: Seq<ParsedView>,
)
    requires
        pieces.len() == found.len(),
        forall|i: int|
            0 <= i < pieces.len() ==> goes_on(#[trigger] pieces[i]) && holds_items(
                Some(source_url),
                pieces[i],
                seq![found[i]],
            ),
    ensures
        feed_of(source_url, all_pieces(pieces)) matches Ok((title, items)) && items == found,
{
    law_as_many_items(Some(source_url), pieces, found);
    let start = feed_start();
    assert(after_events(start, Some(source_url), all_pieces(pieces)) is Ok);
    assert(start.items + found =~= found);
}

/// A document in which something is wrong gives no feed but the message, and one that ends
/// is read up to its end.
pub proof fn law_reading_ends(
    source_url: Seq<char>,
    events: Seq<XmlEventView>,
    message: Seq<char>,
    more: Seq<XmlEventView>,
)
    requires
        goes_on(events),
    ensures
        feed_of(source_url, events + seq![XmlEventView::Failed(message)] + more) == Err::<
            (Seq<char>, Seq<ParsedView>),
            Seq<char>,
        >("XML parse error: "@ + message),
        feed_of(source_url, events + seq![XmlEventView::Eof] + more) == feed_of(
            source_url,
            events,
        ),
{
    let base = Some(source_url);
    let failed = seq![XmlEventView::Failed(message)] + more;
    let eof = seq![XmlEventView::Eof] + more;
    law_read_in_pieces(feed_start(), base, events, failed);
    law_read_in_pieces(feed_start(), base, events, eof);
    law_read_in_pieces(feed_start(), base, events, Seq::empty());
    assert(events + seq![XmlEventView::Failed(message)] + more =~= events + failed);
    assert(events + seq![XmlEventView::Eof] + more =~= events + eof);
    assert(events + Seq::<XmlEventView>::empty() =~= events);
    assert(failed[0] == XmlEventView::Failed(message));
    assert(eof[0] == XmlEventView::Eof);
}

/// What is read behind an element that holds nothing but a text.
#[verifier::opaque]
pub open spec fn after_element(
    state: FeedView,
    base: Option<Seq<char>>,
    name: Seq<u8>,
    attributes: Attributes,
    text: XmlEventView,
) -> FeedView {
    after_event(
        after_event(
            after_event(state, base, XmlEventView::Start(name, attributes)),
            base,
            text,
        ),
        base,
        XmlEventView::End(name),
    )
}

/// The text that an event brings: entities are resolved, but not within quoted data.
pub open spec fn brought_text(event: XmlEventView) -> Seq<char> {
    match event {
        XmlEventView::Text(text) => decoded(text),
        XmlEventView::CData(text) => text,
        _ => Seq::empty(),
    }
}

/// A name that stands for the date of an item.
pub open spec fn names_date(name: Seq<char>) -> bool {
    name == "pubDate"@ || name == "published"@ || name == "updated"@ || name == "date"@
}

/// A name that stands for a text of an item in which links are looked for.
pub open spec fn names_blob(name: Seq<char>) -> bool {
    name == "description"@ || name == "summary"@ || name == "content"@ || name == "encoded"@
}

proof fn lemma_tag_names()
    ensures
        "title"@ != "item"@,
        "title"@ != "entry"@,
        "title"@ != "guid"@,
        "title"@ != "id"@,
        !names_date("title"@),
        !names_blob("title"@),
        "title"@ != "link"@,
        "guid"@ != "item"@,
        "guid"@ != "entry"@,
        !names_date("guid"@),
        !names_blob("guid"@),
        "guid"@ != "link"@,
        "id"@ != "item"@,
        "id"@ != "entry"@,
        !names_date("id"@),
        !names_blob("id"@),
        "id"@ != "link"@,
        "link"@ != "item"@,
        "link"@ != "entry"@,
        !names_date("link"@),
        !names_blob("link"@),
        !names_date("item"@),
        !names_date("entry"@),
        !names_blob("item"@),
        !names_blob("entry"@),
        forall|s: Seq<char>| #[trigger] names_date(s) ==> !names_blob(s),
{
    reveal_strlit("title");
    reveal_strlit("item");
    reveal_strlit("entry");
    reveal_strlit("guid");
    reveal_strlit("id");
    reveal_strlit("link");
    reveal_strlit("pubDate");
    reveal_strlit("published");
    reveal_strlit("updated");
    reveal_strlit("date");
    reveal_strlit("description");
    reveal_strlit("summary");
    reveal_strlit("content");
    reveal_strlit("encoded");
    assert("title"@[0] == 't');
    assert("item"@[0] == 'i');
    assert("entry"@[0] == 'e');
    assert("entry"@.len() == 5);
    assert("guid"@[0] == 'g');
    assert("id"@.len() == 2);
    assert("link"@[0] == 'l');
    assert("pubDate"@[0] == 'p');
    assert("published"@[0] == 'p');
    assert("updated"@[0] == 'u');
    assert("date"@.len() == 4);
    assert("date"@[0] == 'd');
    assert("description"@.len() == 11);
    assert("description"@[0] == 'd');
    assert("summary"@[0] == 's');
    assert("content"@[0] == 'c');
    assert("encoded"@[0] == 'e');
    assert("encoded"@.len() == 7);
}

/// The title of an item is the first that it has, cleaned; a later one changes nothing.
pub proof fn law_title_is_read(
    state: FeedView,
    base: Option<Seq<char>>,
    name: Seq<u8>,
    attributes: Attributes,
    text: XmlEventView,
)
    requires
        between_elements(state),
        text is Text || text is CData,
        local_part(name) == "title"@,
    ensures
        after_element(state, base, name, attributes, text) == (if state.item.unwrap().title.len() == 0 && trim(
            brought_text(text),
        ).len() > 0 {
            FeedView {
                item: Some(
                    PartialView {
                        title: cleaned(trim(brought_text(text))),
                        ..state.item.unwrap()
                    },
                ),
                ..state
            }
        } else {
            state
        }),
{
    let item = state.item.unwrap();
    lemma_item_capture(item, local_part(name), attributes, CaptureKind::ItemTitle);
    if item.title.len() == 0 {
        lemma_captured(state, base, name, attributes, text, CaptureKind::ItemTitle);
    } else {
        lemma_not_captured(state, base, name, attributes, text);
    }
}

/// The identity of an item is the first that it names, cleaned; a later one changes nothing.
pub proof fn law_guid_is_read(
    state: FeedView,
    base: Option<Seq<char>>,
    name: Seq<u8>,
    attributes: Attributes,
    text: XmlEventView,
)
    requires
        between_elements(state),
        text is Text || text is CData,
        local_part(name) == "guid"@ || local_part(name) == "id"@,
    ensures
        after_element(state, base, name, attributes, text) == (if state.item.unwrap().guid.len() == 0 && trim(
            brought_text(text),
        ).len() > 0 {
            FeedView {
                item: Some(
                    PartialView {
                        guid: cleaned(trim(brought_text(text))),
                        ..state.item.unwrap()
                    },
                ),
                ..state
            }
        } else {
            state
        }),
{
    let item = state.item.unwrap();
    lemma_item_capture(item, local_part(name), attributes, CaptureKind::Guid);
    if item.guid.len() == 0 {
        lemma_captured(state, base, name, attributes, text, CaptureKind::Guid);
    } else {
        lemma_not_captured(state, base, name, attributes, text);
    }
}

/// The date of an item is the first that it names, cleaned; a later one changes nothing.
pub proof fn law_date_is_read(
    state: FeedView,
    base: Option<Seq<char>>,
    name: Seq<u8>,
    attributes: Attributes,
    text: XmlEventView,
)
    requires
        between_elements(state),
        text is Text || text is CData,
        names_date(local_part(name)),
    ensures
        after_element(state, base, name, attributes, text) == (if state.item.unwrap().published_raw.len() == 0
            && trim(brought_text(text)).len() > 0 {
            FeedView {
                item: Some(
                    PartialView {
                        published_raw: cleaned(trim(brought_text(text))),
                        ..state.item.unwrap()
                    },
                ),
                ..state
            }
        } else {
            state
        }),
{
    let item = state.item.unwrap();
    lemma_item_capture(item, local_part(name), attributes, CaptureKind::Published);
    if item.published_raw.len() == 0 {
        lemma_captured(state, base, name, attributes, text, CaptureKind::Published);
    } else {
        lemma_not_captured(state, base, name, attributes, text);
    }
}

/// Every text of an item is kept, behind those before it.
pub proof fn law_blob_is_read(
    state: FeedView,
    base: Option<Seq<char>>,
    name: Seq<u8>,
    attributes: Attributes,
    text: XmlEventView,
)
    requires
        between_elements(state),
        text is Text || text is CData,
        forall|k: int|
            0 <= k < attributes.len() ==> !names_address(local_part((#[trigger] attributes[k]).0)),
        names_blob(local_part(name)),
    ensures
        after_element(state, base, name, attributes, text) == (if trim(brought_text(text)).len() > 0 {
            FeedView {
                item: Some(
                    PartialView {
                        blobs: state.item.unwrap().blobs.push(
                            blob_resolved(trim(brought_text(text)), base),
                        ),
                        ..state.item.unwrap()
                    },
                ),
                ..state
            }
        } else {
            state
        }),
{
    let item = state.item.unwrap();
    law_missing_attribute(attributes, base);
    assert(!has_href(attributes));
    lemma_item_capture(item, local_part(name), attributes, CaptureKind::Blob);
    lemma_captured(state, base, name, attributes, text, CaptureKind::Blob);
}

/// Every link of an item that stands as a text is kept, behind those before it.
pub proof fn law_link_is_read(
    state: FeedView,
    base: Option<Seq<char>>,
    name: Seq<u8>,
    attributes: Attributes,
    text: XmlEventView,
)
    requires
        between_elements(state),
        text is Text || text is CData,
        forall|k: int|
            0 <= k < attributes.len() ==> !names_address(local_part((#[trigger] attributes[k]).0)),
        local_part(name) == "link"@,
    ensures
        after_element(state, base, name, attributes, text) == (if trim(brought_text(text)).len() > 0
            && resolved(trim(brought_text(text)), base).len() > 0 {
            FeedView {
                item: Some(
                    PartialView {
                        links: state.item.unwrap().links.push(
                            LinkView {
                                url: resolved(trim(brought_text(text)), base),
                                rel: Seq::empty(),
                                mime: Seq::empty(),
                            },
                        ),
                        ..state.item.unwrap()
                    },
                ),
                ..state
            }
        } else {
            state
        }),
{
    let item = state.item.unwrap();
    law_missing_attribute(attributes, base);
    assert(!has_href(attributes));
    lemma_item_capture(item, local_part(name), attributes, CaptureKind::LinkText);
    lemma_captured(state, base, name, attributes, text, CaptureKind::LinkText);
}

/// The title of a feed is the first that stands outside of an item, cleaned.
pub proof fn law_feed_title_is_read(
    state: FeedView,
    base: Option<Seq<char>>,
    name: Seq<u8>,
    attributes: Attributes,
    text: XmlEventView,
)
    requires
        state.item is None,
        state.capture is None,
        text is Text || text is CData,
        local_part(name) == "title"@,
    ensures
        after_element(state, base, name, attributes, text) == (if state.feed_title.len() == 0 && trim(
            brought_text(text),
        ).len() > 0 {
            FeedView { feed_title: cleaned(trim(brought_text(text))), ..state }
        } else {
            state
        }),
{
    reveal(after_element);
    lemma_tag_names();
    assert(Seq::<char>::empty() + brought_text(text) =~= brought_text(text));
}

/// An element of an item whose text is collected, and that brings no link.
proof fn lemma_captured(
    state: FeedView,
    base: Option<Seq<char>>,
    name: Seq<u8>,
    attributes: Attributes,
    text: XmlEventView,
    kind: CaptureKind,
)
    requires
        between_elements(state),
        text is Text || text is CData,
        !is_item_tag(name),
        !carries_link(local_part(name)) || link_attributes(attributes, base).0 is None,
        item_capture(state.item.unwrap(), local_part(name), attributes) == Some(kind),
        kind != CaptureKind::FeedTitle,
    ensures
        after_element(state, base, name, attributes, text) == (if trim(brought_text(text)).len()
            > 0 {
            FeedView {
                item: Some(with_text(state.item.unwrap(), kind, trim(brought_text(text)), base)),
                ..state
            }
        } else {
            state
        }),
{
    reveal(after_element);
    let item = state.item.unwrap();
    let begun = FeedView {
        depth: state.depth + 1,
        capture: Some(CaptureView { kind, depth: state.depth + 1, text: Seq::empty() }),
        ..state
    };
    assert(after_event(state, base, XmlEventView::Start(name, attributes)) == begun);
    assert(Seq::<char>::empty() + brought_text(text) =~= brought_text(text));
    let collected = FeedView {
        capture: Some(CaptureView { kind, depth: state.depth + 1, text: brought_text(text) }),
        ..begun
    };
    assert(after_event(begun, base, text) == collected);
}

/// An element of an item whose text is not collected, and that brings no link.
proof fn lemma_not_captured(
    state: FeedView,
    base: Option<Seq<char>>,
    name: Seq<u8>,
    attributes: Attributes,
    text: XmlEventView,
)
    requires
        between_elements(state),
        text is Text || text is CData,
        !is_item_tag(name),
        !carries_link(local_part(name)) || link_attributes(attributes, base).0 is None,
        item_capture(state.item.unwrap(), local_part(name), attributes) is None,
    ensures
        after_element(state, base, name, attributes, text) == state,
{
    reveal(after_element);
    let begun = FeedView { depth: state.depth + 1, ..state };
    assert(after_event(state, base, XmlEventView::Start(name, attributes)) == begun);
    assert(after_event(begun, base, text) == begun);
}

/// Which names stand for what in an item.
proof fn lemma_item_capture(
    item: PartialView,
    name: Seq<char>,
    attributes: Attributes,
    kind: CaptureKind,
)
    requires
        ({
            ||| kind == CaptureKind::ItemTitle && name == "title"@
            ||| kind == CaptureKind::Guid && (name == "guid"@ || name == "id"@)
            ||| kind == CaptureKind::Published && names_date(name)
            ||| kind == CaptureKind::Blob && names_blob(name)
            ||| kind == CaptureKind::LinkText && name == "link"@ && !has_href(attributes)
        }),
    ensures
        name != "item"@,
        name != "entry"@,
        kind != CaptureKind::Blob && kind != CaptureKind::LinkText ==> !carries_link(name),
        kind == CaptureKind::ItemTitle ==> item_capture(item, name, attributes) == (if item.title.len()
            == 0 {
            Some(kind)
        } else {
            None
        }),
        kind == CaptureKind::Guid ==> item_capture(item, name, attributes) == (if item.guid.len()
            == 0 {
            Some(kind)
        } else {
            None
        }),
        kind == CaptureKind::Published ==> item_capture(item, name, attributes) == (
        if item.published_raw.len() == 0 {
            Some(kind)
        } else {
            None
        }),
        kind == CaptureKind::Blob || kind == CaptureKind::LinkText ==> item_capture(
            item,
            name,
            attributes,
        ) == Some(kind),
{
    lemma_tag_names();
    lemma_names_without_links();
    assert(names_date(name) ==> !names_blob(name));
}

proof fn lemma_names_without_links()
    ensures
        !carries_link("title"@),
        !carries_link("guid"@),
        !carries_link("id"@),
        forall|s: Seq<char>| #[trigger] names_date(s) ==> !carries_link(s),
{
    reveal_strlit("title");
    reveal_strlit("guid");
    reveal_strlit("id");
    reveal_strlit("pubDate");
    reveal_strlit("published");
    reveal_strlit("updated");
    reveal_strlit("date");
    reveal_strlit("a");
    reveal_strlit("link");
    reveal_strlit("enclosure");
    reveal_strlit("content");
    assert("a"@[0] == 'a');
    assert("link"@[0] == 'l');
    assert("enclosure"@[0] == 'e');
    assert("content"@[0] == 'c');
    assert("title"@[0] == 't');
    assert("guid"@[0] == 'g');
    assert("id"@[0] == 'i');
    assert("pubDate"@[0] == 'p');
    assert("published"@[0] == 'p');
    assert("updated"@[0] == 'u');
    assert("date"@[0] == 'd');
}

/// Of the attributes of a tag that name an address, a relation or a media type the last
/// counts: the address is resolved, the others are taken in lower case. Without such an
/// attribute there is no address.
pub proof fn law_last_attribute_counts(
    attributes: Seq<(Seq<u8>, Seq<char>)>,
    base: Option<Seq<char>>,
    i: int,
)
    requires
        0 <= i < attributes.len(),
    ensures
        names_address(local_part(attributes[i].0)) && (forall|k: int|
            i < k < attributes.len() ==> !names_address(local_part((#[trigger] attributes[k]).0)))
            ==> link_attributes(attributes, base).0 == Some(
            resolved(trim(decoded(attributes[i].1)), base),
        ),
        local_part(attributes[i].0) == "rel"@ && (forall|k: int|
            i < k < attributes.len() ==> local_part((#[trigger] attributes[k]).0) != "rel"@)
            ==> link_attributes(attributes, base).1 == ascii_lower(trim(decoded(attributes[i].1))),
        local_part(attributes[i].0) == "type"@ && (forall|k: int|
            i < k < attributes.len() ==> local_part((#[trigger] attributes[k]).0) != "type"@)
            ==> link_attributes(attributes, base).2 == ascii_lower(trim(decoded(attributes[i].1))),
    decreases attributes.len(),
{
    lemma_attribute_names();
    let front = attributes.drop_last();
    if i < front.len() {
        law_last_attribute_counts(front, base, i);
        assert(front[i] == attributes[i]);
        let last = attributes[attributes.len() - 1];
        assert forall|k: int| i < k < front.len() implies front[k] == attributes[k] by {}
        if forall|k: int|
            i < k < attributes.len() ==> !names_address(local_part((#[trigger] attributes[k]).0)) {
            assert(!names_address(local_part(last.0)));
            assert forall|k: int| i < k < front.len() implies !names_address(
                local_part((#[trigger] front[k]).0),
            ) by {
                assert(front[k] == attributes[k]);
            }
        }
        if forall|k: int|
            i < k < attributes.len() ==> local_part((#[trigger] attributes[k]).0) != "rel"@ {
            assert(local_part(last.0) != "rel"@);
            assert forall|k: int| i < k < front.len() implies local_part((#[trigger] front[k]).0)
                != "rel"@ by {
                assert(front[k] == attributes[k]);
            }
        }
        if forall|k: int|
            i < k < attributes.len() ==> local_part((#[trigger] attributes[k]).0) != "type"@ {
            assert(local_part(last.0) != "type"@);
            assert forall|k: int| i < k < front.len() implies local_part((#[trigger] front[k]).0)
                != "type"@ by {
                assert(front[k] == attributes[k]);
            }
        }
    }
}

/// Without an attribute that names an address there is none, without one that names a
/// relation or a media type that is empty.
pub proof fn law_missing_attribute(
    attributes: Seq<(Seq<u8>, Seq<char>)>,
    base: Option<Seq<char>>,
)
    ensures
        (forall|k: int|
            0 <= k < attributes.len() ==> !names_address(local_part((#[trigger] attributes[k]).0)))
            ==> link_attributes(attributes, base).0 is None,
        (forall|k: int|
            0 <= k < attributes.len() ==> local_part((#[trigger] attributes[k]).0) != "rel"@)
            ==> link_attributes(attributes, base).1.len() == 0,
        (forall|k: int|
            0 <= k < attributes.len() ==> local_part((#[trigger] attributes[k]).0) != "type"@)
            ==> link_attributes(attributes, base).2.len() == 0,
    decreases attributes.len(),
{
    if attributes.len() > 0 {
        let front = attributes.drop_last();
        let last = attributes[attributes.len() - 1];
        law_missing_attribute(front, base);
        if forall|k: int|
            0 <= k < attributes.len() ==> !names_address(local_part((#[trigger] attributes[k]).0)) {
            assert(!names_address(local_part(last.0)));
            assert forall|k: int| 0 <= k < front.len() implies !names_address(
                local_part((#[trigger] front[k]).0),
            ) by {
                assert(front[k] == attributes[k]);
            }
        }
        if forall|k: int|
            0 <= k < attributes.len() ==> local_part((#[trigger] attributes[k]).0) != "rel"@ {
            assert(local_part(last.0) != "rel"@);
            assert forall|k: int| 0 <= k < front.len() implies local_part((#[trigger] front[k]).0)
                != "rel"@ by {
                assert(front[k] == attributes[k]);
            }
        }
        if forall|k: int|
            0 <= k < attributes.len() ==> local_part((#[trigger] attributes[k]).0) != "type"@ {
            assert(local_part(last.0) != "type"@);
            assert forall|k: int| 0 <= k < front.len() implies local_part((#[trigger] front[k]).0)
                != "type"@ by {
                assert(front[k] == attributes[k]);
            }
        }
    }
}

/// A name that stands for an address.
pub open spec fn names_address(name: Seq<char>) -> bool {
    name == "href"@ || name == "url"@ || name == "src"@
}

proof fn lemma_attribute_names()
    ensures
        !names_address("rel"@),
        !names_address("type"@),
        "rel"@ != "type"@,
{
    reveal_strlit("href");
    reveal_strlit("url");
    reveal_strlit("src");
    reveal_strlit("rel");
    reveal_strlit("type");
    assert("href"@[0] == 'h');
    assert("url"@[0] == 'u');
    assert("src"@[0] == 's');
    assert("rel"@[0] == 'r');
    assert("type"@[0] == 't');
}

/// A tag within an item that can carry a link adds the link that its attributes give behind
/// those before it, be it empty or not; without an address it adds none.
pub proof fn law_tag_brings_a_link(
    state: FeedView,
    base: Option<Seq<char>>,
    name: Seq<u8>,
    attributes: Seq<(Seq<u8>, Seq<char>)>,
)
    requires
        state.item is Some,
        local_part(name) == "a"@ || local_part(name) == "link"@ || local_part(name) == "enclosure"@
            || local_part(name) == "content"@,
    ensures
        ({
            let (url, rel, mime) = link_attributes(attributes, base);
            let links = if url is Some && url.unwrap().len() > 0 {
                state.item.unwrap().links.push(LinkView { url: url.unwrap(), rel, mime })
            } else {
                state.item.unwrap().links
            };
            let empty = after_event(state, base, XmlEventView::Empty(name, attributes));
            let start = after_event(state, base, XmlEventView::Start(name, attributes));
            &&& empty.item == Some(PartialView { links, ..state.item.unwrap() })
            &&& start.item == empty.item
            &&& empty == FeedView { item: empty.item, ..state }
        }),
{
    reveal_strlit("item");
    reveal_strlit("entry");
    reveal_strlit("a");
    reveal_strlit("link");
    reveal_strlit("enclosure");
    reveal_strlit("content");
    assert("item"@[0] == 'i');
    assert("entry"@.len() == 5);
    assert("link"@[0] == 'l');
    assert("enclosure"@.len() == 9);
    assert("content"@.len() == 7);
}

/// An item as it stands in a document: a title and a link, each a text.
pub open spec fn item_element(
    item: Seq<u8>,
    title: Seq<u8>,
    title_text: Seq<char>,
    link: Seq<u8>,
    link_text: Seq<char>,
) -> Seq<XmlEventView> {
    seq![
        XmlEventView::Start(item, Seq::empty()),
        XmlEventView::Start(title, Seq::empty()),
        XmlEventView::Text(title_text),
        XmlEventView::End(title),
        XmlEventView::Start(link, Seq::empty()),
        XmlEventView::Text(link_text),
        XmlEventView::End(link),
        XmlEventView::End(item),
    ]
}

/// An item with a title and a link that can be loaded is one item of the feed, whatever the
/// two texts are: the one that is finished with just these.
pub proof fn law_item_element_is_an_item(
    base: Option<Seq<char>>,
    item: Seq<u8>,
    title: Seq<u8>,
    title_text: Seq<char>,
    link: Seq<u8>,
    link_text: Seq<char>,
    parsed: ParsedView,
)
    requires
        is_item_tag(item),
        local_part(title) == "title"@,
        local_part(link) == "link"@,
        trim(decoded(title_text)).len() > 0,
        trim(decoded(link_text)).len() > 0,
        resolved(trim(decoded(link_text)), base).len() > 0,
        finalized(titled_item(base, title_text, link_text)) == Some(parsed),
    ensures
        goes_on(item_element(item, title, title_text, link, link_text)),
        holds_items(base, item_element(item, title, title_text, link, link_text), seq![parsed]),
{
    let all = item_element(item, title, title_text, link, link_text);
    let inner = titled_item(base, title_text, link_text);
    assert forall|state: FeedView| state.item is None && state.capture is None implies
        #[trigger] after_events(state, base, all) == Ok::<FeedView, Seq<char>>(
        FeedView { items: state.items + seq![parsed], ..state },
    ) by {
        let c = FeedView { depth: state.depth + 1, item: Some(inner), ..state };
        lemma_item_inside(state, base, item, title, title_text, link, link_text);
        lemma_item_ends_with(c, base, item, inner, parsed);
        assert(state.items.push(parsed) =~= state.items + seq![parsed]);
    }
}

/// What is read of an item with a title and a link before it ends.
pub open spec fn titled_item(
    base: Option<Seq<char>>,
    title_text: Seq<char>,
    link_text: Seq<char>,
) -> PartialView {
    PartialView {
        title: cleaned(trim(decoded(title_text))),
        guid: Seq::empty(),
        published_raw: Seq::empty(),
        links: seq![
            LinkView {
                url: resolved(trim(decoded(link_text)), base),
                rel: Seq::empty(),
                mime: Seq::empty(),
            },
        ],
        blobs: Seq::empty(),
    }
}

proof fn lemma_item_ends_with(
    state: FeedView,
    base: Option<Seq<char>>,
    name: Seq<u8>,
    item: PartialView,
    parsed: ParsedView,
)
    requires
        state.item == Some(item),
        state.capture is None,
        state.depth > 0,
        is_item_tag(name),
        finalized(item) == Some(parsed),
    ensures
        after_events(state, base, seq![XmlEventView::End(name)]) == Ok::<FeedView, Seq<char>>(
            FeedView {
                depth: (state.depth - 1) as nat,
                item: None,
                items: state.items.push(parsed),
                ..state
            },
        ),
{
    let last = seq![XmlEventView::End(name)];
    law_item_ends(state, base, name, item);
    let end = after_event(state, base, last[0]);
    assert(last.skip(1) =~= Seq::empty());
    assert(after_events(end, base, last.skip(1)) == Ok::<FeedView, Seq<char>>(end));
}

proof fn lemma_item_inside(
    state: FeedView,
    base: Option<Seq<char>>,
    item: Seq<u8>,
    title: Seq<u8>,
    title_text: Seq<char>,
    link: Seq<u8>,
    link_text: Seq<char>,
)
    requires
        state.item is None,
        state.capture is None,
        is_item_tag(item),
        local_part(title) == "title"@,
        local_part(link) == "link"@,
        trim(decoded(title_text)).len() > 0,
        trim(decoded(link_text)).len() > 0,
        resolved(trim(decoded(link_text)), base).len() > 0,
    ensures
        after_events(
            state,
            base,
            item_element(item, title, title_text, link, link_text),
        ) == after_events(
            FeedView {
                depth: state.depth + 1,
                item: Some(titled_item(base, title_text, link_text)),
                ..state
            },
            base,
            seq![XmlEventView::End(item)],
        ),
{
    let all = item_element(item, title, title_text, link, link_text);
    let a = after_event(state, base, all[0]);
    law_item_begins(state, base, item, Seq::empty());
    let blank = a.item.unwrap();
    assert(blank.title =~= Seq::empty());
    assert(blank.guid =~= Seq::empty());
    assert(blank.published_raw =~= Seq::empty());
    assert(blank.blobs =~= Seq::empty());
    let b = after_element(a, base, title, Seq::empty(), all[2]);
    law_title_is_read(a, base, title, Seq::empty(), all[2]);
    let c = after_element(b, base, link, Seq::empty(), all[5]);
    law_link_is_read(b, base, link, Seq::empty(), all[5]);
    assert(c.item.unwrap().links =~= titled_item(base, title_text, link_text).links);
    let last = seq![all[7]];
    let linked = seq![all[4], all[5], all[6]] + last;
    let titled = seq![all[1], all[2], all[3]] + linked;
    assert(all.skip(1) =~= titled);
    lemma_element_events(a, base, title, all[2], linked);
    lemma_element_events(b, base, link, all[5], last);
    assert(c == FeedView {
        depth: state.depth + 1,
        item: Some(titled_item(base, title_text, link_text)),
        ..state
    });
}

#[verifier::rlimit(30)]
proof fn lemma_element_events(
    state: FeedView,
    base: Option<Seq<char>>,
    name: Seq<u8>,
    text: XmlEventView,
    more: Seq<XmlEventView>,
)
    requires
        text is Text || text is CData,
    ensures
        after_events(
            state,
            base,
            seq![XmlEventView::Start(name, Seq::empty()), text, XmlEventView::End(name)] + more,
        ) == after_events(after_element(state, base, name, Seq::empty(), text), base, more),
{
    reveal(after_element);
    let start = XmlEventView::Start(name, Seq::empty());
    let end = XmlEventView::End(name);
    let all = seq![start, text, end] + more;
    let a = after_event(state, base, start);
    let b = after_event(a, base, text);
    assert(all[0] == start);
    assert(all.skip(1)[0] == text);
    assert(all.skip(1).skip(1)[0] == end);
    assert(all.skip(1).skip(1).skip(1) =~= more);
    assert(after_events(state, base, all) == after_events(a, base, all.skip(1)));
    assert(after_events(a, base, all.skip(1)) == after_events(b, base, all.skip(1).skip(1)));
}

/// What a feed holds is what was read up to the end of its document: its items, and its title
/// cleaned.
pub proof fn law_feed_is_what_was_read(
    source_url: Seq<char>,
    events: Seq<XmlEventView>,
    end: FeedView,
)
    requires
        after_events(feed_start(), Some(source_url), events) == Ok::<FeedView, Seq<char>>(end),
    ensures
        feed_of(source_url, events) == Ok::<(Seq<char>, Seq<ParsedView>), Seq<char>>(
            (cleaned(end.feed_title), end.items),
        ),
{
}

/// The text of an element goes on through the elements within it: while it is collected,
/// theirs comes behind it, and they change nothing else of what is collected.
pub proof fn law_text_goes_on_through_elements(
    state: FeedView,
    base: Option<Seq<char>>,
    name: Seq<u8>,
    attributes: Attributes,
    text: XmlEventView,
)
    requires
        state.capture is Some,
        state.capture.unwrap().depth <= state.depth,
        text is Text || text is CData,
        !is_item_tag(name),
    ensures
        after_element(state, base, name, attributes, text).capture == Some(
            CaptureView {
                text: state.capture.unwrap().text + brought_text(text),
                ..state.capture.unwrap()
            },
        ),
        after_element(state, base, name, attributes, text).depth == state.depth,
        after_element(state, base, name, attributes, text).items == state.items,
        after_element(state, base, name, attributes, text).feed_title == state.feed_title,
{
    reveal(after_element);
}

/// The name of a tag is what stands behind its last colon, and all of it where it has none;
/// a name that is no text is none.
pub proof fn law_local_part(name: Seq<u8>, a: Seq<char>, b: Seq<char>)
    requires
        !b.contains(':'),
    ensures
        valid_utf8(name) && decode_utf8(name) == a + seq![':'] + b ==> local_part(name) == b,
        valid_utf8(name) && decode_utf8(name) == b ==> local_part(name) == b,
        !valid_utf8(name) ==> local_part(name).len() == 0,
{
    law_split_at(a, b, ':');
    law_split_at(b, Seq::empty(), ':');
    assert((split(a, ':') + split(b, ':')).last() == b);
}

/// A link with an address among its attributes is that address; its text is not looked at.
pub proof fn law_link_with_address_is_read(
    state: FeedView,
    base: Option<Seq<char>>,
    name: Seq<u8>,
    attributes: Attributes,
    text: XmlEventView,
    i: int,
)
    requires
        between_elements(state),
        text is Text || text is CData,
        local_part(name) == "link"@,
        0 <= i < attributes.len(),
        local_part(attributes[i].0) == "href"@,
    ensures
        ({
            let (url, rel, mime) = link_attributes(attributes, base);
            let links = if url is Some && url.unwrap().len() > 0 {
                state.item.unwrap().links.push(LinkView { url: url.unwrap(), rel, mime })
            } else {
                state.item.unwrap().links
            };
            after_element(state, base, name, attributes, text) == FeedView {
                item: Some(PartialView { links, ..state.item.unwrap() }),
                ..state
            }
        }),
{
    reveal(after_element);
    lemma_tag_names();
    law_tag_brings_a_link(state, base, name, attributes);
    assert(has_href(attributes));
}

/// Text is collected piece by piece for the element that it is collected for; where nothing is
/// collected it is passed over.
pub proof fn law_text_is_collected(state: FeedView, base: Option<Seq<char>>, text: Seq<char>)
    ensures
        state.capture is None ==> after_event(state, base, XmlEventView::Text(text)) == state
            && after_event(state, base, XmlEventView::CData(text)) == state,
        state.capture matches Some(c) ==> {
            &&& after_event(state, base, XmlEventView::Text(text)) == FeedView {
                capture: Some(CaptureView { text: c.text + decoded(text), ..c }),
                ..state
            }
            &&& after_event(state, base, XmlEventView::CData(text)) == FeedView {
                capture: Some(CaptureView { text: c.text + text, ..c }),
                ..state
            }
        },
        after_event(state, base, XmlEventView::Other) == state,
{
}

} // verus!
