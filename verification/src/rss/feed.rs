//! Reading a feed, event by event.
use vstd::prelude::*;
use vstd::utf8::{decode_utf8, valid_utf8};

use crate::outside::markup::{
    attributes_view, document_events, events_of, next_event, open_document, pending_events,
    read_event, XmlAttribute, XmlEvent, XmlEventView,
};
use crate::rss::item::{
    blank_item, finalize_item, finalized, link_views, ParsedFeedItem, ParsedView, PartialFeedItem,
    PartialView,
};
use crate::rss::links::{
    blob_resolved, clean_text, cleaned, decode_entities, decoded, resolve_blob_text, resolve_url,
    resolved, LinkCandidate, LinkView,
};
use crate::text::{
    ascii_lower, chars_of, concat, lowered, piece_views, same_text, split, split_chars, string_of,
    trim, trimmed, view_opt, views,
};

verus! {

/// A feed as it was read.
pub struct ParsedFeed {
    pub title: String,
    pub items: Vec<ParsedFeedItem>,
}

/// The part of a feed that a text belongs to.
#[derive(Clone, Copy, PartialEq, Eq, Structural)]
pub enum CaptureKind {
    FeedTitle,
    ItemTitle,
    Guid,
    Published,
    Blob,
    LinkText,
}

/// A text being collected, and the depth of the element that it is collected for.
pub struct CaptureState {
    pub kind: CaptureKind,
    pub depth: usize,
    pub text: String,
}

/// The values of a text being collected.
pub struct CaptureView {
    pub kind: CaptureKind,
    pub depth: nat,
    pub text: Seq<char>,
}

/// Where the reading of a feed stands.
pub struct FeedParser {
    pub depth: usize,
    pub feed_title: String,
    pub capture: Option<CaptureState>,
    pub item: Option<PartialFeedItem>,
    pub items: Vec<ParsedFeedItem>,
}

/// The values of the reading of a feed.
pub struct FeedView {
    pub depth: nat,
    pub feed_title: Seq<char>,
    pub capture: Option<CaptureView>,
    pub item: Option<PartialView>,
    pub items: Seq<ParsedView>,
}

/// The values of items.
pub open spec fn item_views(items: Seq<ParsedFeedItem>) -> Seq<ParsedView> {
    items.map_values(|i: ParsedFeedItem| i@)
}

/// The values of an optional text being collected.
pub open spec fn capture_opt(c: Option<CaptureState>) -> Option<CaptureView> {
    match c {
        Some(s) => Some(CaptureView { kind: s.kind, depth: s.depth as nat, text: s.text@ }),
        None => None,
    }
}

/// The values of an optional unfinished item.
pub open spec fn partial_opt(i: Option<PartialFeedItem>) -> Option<PartialView> {
    match i {
        Some(p) => Some(p@),
        None => None,
    }
}

impl View for FeedParser {
    type V = FeedView;

    open spec fn view(&self) -> FeedView {
        FeedView {
            depth: self.depth as nat,
            feed_title: self.feed_title@,
            capture: capture_opt(self.capture),
            item: partial_opt(self.item),
            items: item_views(self.items@),
        }
    }
}

/// The reading of a feed at its beginning.
pub open spec fn feed_start() -> FeedView {
    FeedView {
        depth: 0,
        feed_title: Seq::empty(),
        capture: None,
        item: None,
        items: Seq::empty(),
    }
}

/// The part of a name behind its last colon; nothing where the name is not a text.
pub open spec fn local_part(name: Seq<u8>) -> Seq<char> {
    if valid_utf8(name) {
        split(decode_utf8(name), ':').last()
    } else {
        Seq::empty()
    }
}

/// The address, relation and media type that the attributes of a tag give. Of several
/// attributes for one of them the last counts.
pub open spec fn link_attributes(
    attributes: Seq<(Seq<u8>, Seq<char>)>,
    base: Option<Seq<char>>,
) -> (Option<Seq<char>>, Seq<char>, Seq<char>)
    decreases attributes.len(),
{
    if attributes.len() == 0 {
        (None, Seq::empty(), Seq::empty())
    } else {
        let (url, rel, mime) = link_attributes(attributes.drop_last(), base);
        let key = local_part(attributes.last().0);
        let value = trim(decoded(attributes.last().1));
        if key == "href"@ || key == "url"@ || key == "src"@ {
            (Some(resolved(value, base)), rel, mime)
        } else if key == "rel"@ {
            (url, ascii_lower(value), mime)
        } else if key == "type"@ {
            (url, rel, ascii_lower(value))
        } else {
            (url, rel, mime)
        }
    }
}

/// An item with the link that a tag gives, if it gives one.
pub open spec fn with_link(
    item: PartialView,
    attributes: Seq<(Seq<u8>, Seq<char>)>,
    base: Option<Seq<char>>,
) -> PartialView {
    let (url, rel, mime) = link_attributes(attributes, base);
    match url {
        Some(u) => if u.len() > 0 {
            PartialView { links: item.links.push(LinkView { url: u, rel, mime }), ..item }
        } else {
            item
        },
        None => item,
    }
}

/// Whether a tag can carry a link.
pub open spec fn carries_link(name: Seq<char>) -> bool {
    name == "a"@ || name == "link"@ || name == "enclosure"@ || name == "content"@
}

/// Whether a tag holds an item.
pub open spec fn holds_item(name: Seq<char>) -> bool {
    name == "item"@ || name == "entry"@
}

/// Whether a tag has an address among its attributes.
pub open spec fn has_href(attributes: Seq<(Seq<u8>, Seq<char>)>) -> bool {
    exists|i: int|
        0 <= i < attributes.len() && local_part((#[trigger] attributes[i]).0) == "href"@
}

/// What the text of a tag within an item is collected for, if it is.
pub open spec fn item_capture(
    item: PartialView,
    name: Seq<char>,
    attributes: Seq<(Seq<u8>, Seq<char>)>,
) -> Option<CaptureKind> {
    if name == "title"@ && item.title.len() == 0 {
        Some(CaptureKind::ItemTitle)
    } else if (name == "guid"@ || name == "id"@) && item.guid.len() == 0 {
        Some(CaptureKind::Guid)
    } else if (name == "pubDate"@ || name == "published"@ || name == "updated"@ || name == "date"@)
        && item.published_raw.len() == 0 {
        Some(CaptureKind::Published)
    } else if name == "description"@ || name == "summary"@ || name == "content"@ || name
        == "encoded"@ {
        Some(CaptureKind::Blob)
    } else if name == "link"@ && !has_href(attributes) {
        Some(CaptureKind::LinkText)
    } else {
        None
    }
}

/// The reading of a feed behind the beginning of an element.
pub open spec fn after_start(
    state: FeedView,
    base: Option<Seq<char>>,
    name: Seq<char>,
    attributes: Seq<(Seq<u8>, Seq<char>)>,
) -> FeedView {
    let depth = state.depth + 1;
    let linked = after_empty(state, base, name, attributes).item;
    if holds_item(name) {
        FeedView { depth, item: Some(blank_item()), ..state }
    } else {
        let kind = match linked {
            Some(item) => item_capture(item, name, attributes),
            None => if state.feed_title.len() == 0 && name == "title"@ {
                Some(CaptureKind::FeedTitle)
            } else {
                None
            },
        };
        let capture = match (state.capture, kind) {
            (None, Some(k)) => Some(CaptureView { kind: k, depth, text: Seq::empty() }),
            _ => state.capture,
        };
        FeedView { depth, item: linked, capture, ..state }
    }
}

/// The reading of a feed behind an element without content.
pub open spec fn after_empty(
    state: FeedView,
    base: Option<Seq<char>>,
    name: Seq<char>,
    attributes: Seq<(Seq<u8>, Seq<char>)>,
) -> FeedView {
    match state.item {
        Some(item) => if carries_link(name) {
            FeedView { item: Some(with_link(item, attributes, base)), ..state }
        } else {
            state
        },
        None => state,
    }
}

/// The reading of a feed behind some text.
pub open spec fn after_text(state: FeedView, text: Seq<char>) -> FeedView {
    match state.capture {
        Some(c) => FeedView { capture: Some(CaptureView { text: c.text + text, ..c }), ..state },
        None => state,
    }
}

/// An item with a collected text put where it belongs.
pub open spec fn with_text(
    item: PartialView,
    kind: CaptureKind,
    text: Seq<char>,
    base: Option<Seq<char>>,
) -> PartialView {
    match kind {
        CaptureKind::FeedTitle => item,
        CaptureKind::ItemTitle => if item.title.len() == 0 {
            PartialView { title: cleaned(text), ..item }
        } else {
            item
        },
        CaptureKind::Guid => if item.guid.len() == 0 {
            PartialView { guid: cleaned(text), ..item }
        } else {
            item
        },
        CaptureKind::Published => if item.published_raw.len() == 0 {
            PartialView { published_raw: cleaned(text), ..item }
        } else {
            item
        },
        CaptureKind::Blob => PartialView {
            blobs: item.blobs.push(blob_resolved(text, base)),
            ..item
        },
        CaptureKind::LinkText => if resolved(text, base).len() > 0 {
            PartialView {
                links: item.links.push(
                    LinkView {
                        url: resolved(text, base),
                        rel: Seq::empty(),
                        mime: Seq::empty(),
                    },
                ),
                ..item
            }
        } else {
            item
        },
    }
}

/// The reading of a feed with the collected text put where it belongs.
pub open spec fn after_capture(state: FeedView, base: Option<Seq<char>>) -> FeedView {
    match state.capture {
        Some(c) => {
            let text = trim(c.text);
            let done = FeedView { capture: None, ..state };
            if text.len() == 0 {
                done
            } else if c.kind == CaptureKind::FeedTitle {
                if state.feed_title.len() == 0 {
                    FeedView { feed_title: cleaned(text), ..done }
                } else {
                    done
                }
            } else {
                match state.item {
                    Some(item) => FeedView {
                        item: Some(with_text(item, c.kind, text, base)),
                        ..done
                    },
                    None => done,
                }
            }
        },
        None => state,
    }
}

/// The reading of a feed behind the end of an element.
pub open spec fn after_end(state: FeedView, base: Option<Seq<char>>, name: Seq<char>) -> FeedView {
    let taken = match state.capture {
        Some(c) => if c.depth == state.depth {
            after_capture(state, base)
        } else {
            state
        },
        None => state,
    };
    let closed = match taken.item {
        Some(item) => if holds_item(name) {
            FeedView {
                item: None,
                items: match finalized(item) {
                    Some(parsed) => taken.items.push(parsed),
                    None => taken.items,
                },
                ..taken
            }
        } else {
            taken
        },
        None => taken,
    };
    FeedView {
        depth: if closed.depth > 0 {
            (closed.depth - 1) as nat
        } else {
            0
        },
        ..closed
    }
}

/// The reading of a feed behind an event.
pub open spec fn after_event(
    state: FeedView,
    base: Option<Seq<char>>,
    event: XmlEventView,
) -> FeedView {
    match event {
        XmlEventView::Start(name, attributes) => after_start(
            state,
            base,
            local_part(name),
            attributes,
        ),
        XmlEventView::Empty(name, attributes) => after_empty(
            state,
            base,
            local_part(name),
            attributes,
        ),
        XmlEventView::Text(text) => after_text(state, decoded(text)),
        XmlEventView::CData(text) => after_text(state, text),
        XmlEventView::End(name) => after_end(state, base, local_part(name)),
        _ => state,
    }
}

/// The reading of a feed behind all of some events, or what is wrong with the document.
pub open spec fn after_events(
    state: FeedView,
    base: Option<Seq<char>>,
    events: Seq<XmlEventView>,
) -> Result<FeedView, Seq<char>>
    decreases events.len(),
{
    if events.len() == 0 {
        Ok(state)
    } else {
        match events[0] {
            XmlEventView::Eof => Ok(state),
            XmlEventView::Failed(message) => Err(message),
            event => after_events(after_event(state, base, event), base, events.skip(1)),
        }
    }
}

/// `std::str::from_utf8`: the text of bytes, where they are valid UTF-8.
#[verifier::external_body]
fn utf8_text(bytes: &[u8]) -> (r: Option<String>)
    ensures
        r is Some <==> valid_utf8(bytes@),
        r matches Some(s) ==> s@ == decode_utf8(bytes@),
{
    std::str::from_utf8(bytes).ok().map(String::from)
}

/// The part of a name behind its last colon; nothing where the name is not a text.
pub fn local_name(bytes: &[u8]) -> (r: String)
    ensures
        r@ == local_part(bytes@),
{
    match utf8_text(bytes) {
        Some(name) => {
            let pieces = split_chars(&chars_of(name.as_str()), ':');
            proof {
                assert(piece_views(pieces@).len() == pieces@.len());
                assert(split(name@, ':').len() > 0);
                assert(piece_views(pieces@).last() == pieces@[pieces@.len() - 1]@);
            }
            string_of(&pieces[pieces.len() - 1])
        },
        None => String::new(),
    }
}

/// Whether a tag can carry a link.
fn can_carry_link(name: &str) -> (r: bool)
    ensures
        r == carries_link(name@),
{
    same_text(name, "a") || same_text(name, "link") || same_text(name, "enclosure") || same_text(
        name,
        "content",
    )
}

/// Whether a tag holds an item.
fn can_hold_item(name: &str) -> (r: bool)
    ensures
        r == holds_item(name@),
{
    same_text(name, "item") || same_text(name, "entry")
}

/// The text of an optional base.
pub open spec fn base_view(base: Option<&str>) -> Option<Seq<char>> {
    match base {
        Some(b) => Some(b@),
        None => None,
    }
}

/// Adds the link that a tag gives to an item.
pub fn collect_link_candidate(
    attributes: &Vec<XmlAttribute>,
    base: Option<&str>,
    item: &mut PartialFeedItem,
)
    ensures
        final(item)@ == with_link(old(item)@, attributes_view(attributes@), base_view(base)),
{
    let mut url: Option<String> = None;
    let mut rel = String::new();
    let mut mime = String::new();
    let mut i: usize = 0;
    proof {
        assert(attributes_view(attributes@).take(0) =~= Seq::empty());
    }
    while i < attributes.len()
        invariant
            i <= attributes@.len(),
            (view_opt(url), rel@, mime@) == link_attributes(
                attributes_view(attributes@).take(i as int),
                base_view(base),
            ),
        decreases attributes@.len() - i,
    {
        let attribute = &attributes[i];
        proof {
            let next = attributes_view(attributes@).take(i + 1);
            assert(next.drop_last() =~= attributes_view(attributes@).take(i as int));
            assert(next.last() == (attribute.0@, attribute.1@));
        }
        let key = local_name(attribute.0.as_slice());
        let value = trimmed(decode_entities(attribute.1.as_str()).as_str());
        if same_text(key.as_str(), "href") || same_text(key.as_str(), "url") || same_text(
            key.as_str(),
            "src",
        ) {
            url = Some(resolve_url(value.as_str(), base));
        } else if same_text(key.as_str(), "rel") {
            rel = lowered(value.as_str());
        } else if same_text(key.as_str(), "type") {
            mime = lowered(value.as_str());
        }
        i = i + 1;
    }
    proof {
        assert(attributes_view(attributes@).take(i as int) =~= attributes_view(attributes@));
    }
    if let Some(url) = url {
        if !url.as_str().is_empty() {
            let ghost before = item.links@;
            let candidate = LinkCandidate { url, rel, mime };
            item.links.push(candidate);
            proof {
                assert(link_views(item.links@) =~= link_views(before).push(candidate@));
            }
        }
    }
}

/// Whether a tag has an address among its attributes.
fn names_href(attributes: &Vec<XmlAttribute>) -> (r: bool)
    ensures
        r == has_href(attributes_view(attributes@)),
{
    let mut i: usize = 0;
    while i < attributes.len()
        invariant
            i <= attributes@.len(),
            forall|j: int|
                0 <= j < i ==> local_part((#[trigger] attributes_view(attributes@)[j]).0)
                    != "href"@,
        decreases attributes@.len() - i,
    {
        proof {
            assert(attributes_view(attributes@)[i as int].0 == attributes@[i as int].0@);
        }
        if same_text(local_name(attributes[i].0.as_slice()).as_str(), "href") {
            return true;
        }
        i = i + 1;
    }
    false
}

/// What the text of a tag within an item is collected for, if it is.
fn capture_for(item: &PartialFeedItem, name: &str, attributes: &Vec<XmlAttribute>) -> (r: Option<
    CaptureKind,
>)
    ensures
        r == item_capture(item@, name@, attributes_view(attributes@)),
{
    if same_text(name, "title") && item.title.as_str().is_empty() {
        Some(CaptureKind::ItemTitle)
    } else if (same_text(name, "guid") || same_text(name, "id")) && item.guid.as_str().is_empty() {
        Some(CaptureKind::Guid)
    } else if (same_text(name, "pubDate") || same_text(name, "published") || same_text(
        name,
        "updated",
    ) || same_text(name, "date")) && item.published_raw.as_str().is_empty() {
        Some(CaptureKind::Published)
    } else if same_text(name, "description") || same_text(name, "summary") || same_text(
        name,
        "content",
    ) || same_text(name, "encoded") {
        Some(CaptureKind::Blob)
    } else if same_text(name, "link") && !names_href(attributes) {
        Some(CaptureKind::LinkText)
    } else {
        None
    }
}

/// Puts a collected text where it belongs.
pub fn finalize_capture(
    capture: CaptureState,
    feed_title: &mut String,
    item: &mut Option<PartialFeedItem>,
    base: Option<&str>,
)
    ensures
        ({
            let before = FeedView {
                depth: 0,
                feed_title: old(feed_title)@,
                capture: capture_opt(Some(capture)),
                item: partial_opt(*old(item)),
                items: Seq::empty(),
            };
            let after = after_capture(before, base_view(base));
            &&& final(feed_title)@ == after.feed_title
            &&& partial_opt(*final(item)) == after.item
        }),
{
    let text = trimmed(capture.text.as_str());
    if text.as_str().is_empty() {
        return;
    }
    if capture.kind == CaptureKind::FeedTitle {
        if feed_title.as_str().is_empty() {
            *feed_title = clean_text(text.as_str());
        }
        return;
    }
    let taken = item.take();
    match taken {
        Some(mut part) => {
            match capture.kind {
                CaptureKind::FeedTitle => {},
                CaptureKind::ItemTitle => {
                    if part.title.as_str().is_empty() {
                        part.title = clean_text(text.as_str());
                    }
                },
                CaptureKind::Guid => {
                    if part.guid.as_str().is_empty() {
                        part.guid = clean_text(text.as_str());
                    }
                },
                CaptureKind::Published => {
                    if part.published_raw.as_str().is_empty() {
                        part.published_raw = clean_text(text.as_str());
                    }
                },
                CaptureKind::Blob => {
                    let ghost before = part.blobs@;
                    let blob = resolve_blob_text(text.as_str(), base);
                    part.blobs.push(blob);
                    proof {
                        assert(views(part.blobs@) =~= views(before).push(blob@));
                    }
                },
                CaptureKind::LinkText => {
                    let url = resolve_url(text.as_str(), base);
                    if !url.as_str().is_empty() {
                        let ghost before = part.links@;
                        let candidate = LinkCandidate {
                            url,
                            rel: String::new(),
                            mime: String::new(),
                        };
                        part.links.push(candidate);
                        proof {
                            assert(link_views(part.links@) =~= link_views(before).push(
                                candidate@,
                            ));
                        }
                    }
                },
            }
            *item = Some(part);
        },
        None => {},
    }
}

impl FeedParser {
    /// The reading of a feed at its beginning.
    pub fn new() -> (r: FeedParser)
        ensures
            r@ == feed_start(),
    {
        let r = FeedParser {
            depth: 0,
            feed_title: String::new(),
            capture: None,
            item: None,
            items: Vec::new(),
        };
        proof {
            assert(item_views(r.items@) =~= Seq::empty());
        }
        r
    }

    fn empty_element(&mut self, base: Option<&str>, name: &str, attributes: &Vec<XmlAttribute>)
        ensures
            final(self)@ == after_empty(
                old(self)@,
                base_view(base),
                name@,
                attributes_view(attributes@),
            ),
            final(self).depth == old(self).depth,
    {
        if can_carry_link(name) {
            let taken = self.item.take();
            match taken {
                Some(mut part) => {
                    collect_link_candidate(attributes, base, &mut part);
                    self.item = Some(part);
                },
                None => {},
            }
        }
    }

    fn start_element(&mut self, base: Option<&str>, name: &str, attributes: &Vec<XmlAttribute>)
        requires
            old(self).depth < usize::MAX,
        ensures
            final(self)@ == after_start(
                old(self)@,
                base_view(base),
                name@,
                attributes_view(attributes@),
            ),
    {
        let ghost before = self@;
        self.empty_element(base, name, attributes);
        self.depth = self.depth + 1;
        if can_hold_item(name) {
            self.item = Some(PartialFeedItem::new());
            proof {
                assert(!carries_link(name@)) by {
                    lemma_item_tags_carry_no_link(name@);
                }
            }
            return;
        }
        let kind: Option<CaptureKind> = match &self.item {
            Some(part) => capture_for(part, name, attributes),
            None => if self.feed_title.as_str().is_empty() && same_text(name, "title") {
                Some(CaptureKind::FeedTitle)
            } else {
                None
            },
        };
        if self.capture.is_none() {
            if let Some(k) = kind {
                let text = String::new();
                proof {
                    assert(text@ =~= Seq::<char>::empty());
                }
                self.capture = Some(CaptureState { kind: k, depth: self.depth, text });
            }
        }
    }

    fn end_element(&mut self, base: Option<&str>, name: &str)
        ensures
            final(self)@ == after_end(old(self)@, base_view(base), name@),
    {
        let ghost before = self@;
        let due: bool = match &self.capture {
            Some(c) => c.depth == self.depth,
            None => false,
        };
        if due {
            let finished = self.capture.take();
            if let Some(capture) = finished {
                finalize_capture(capture, &mut self.feed_title, &mut self.item, base);
            }
        }
        let ghost taken = self@;
        if can_hold_item(name) {
            let closed = self.item.take();
            if let Some(item) = closed {
                let ghost items = self.items@;
                if let Some(parsed) = finalize_item(item) {
                    self.items.push(parsed);
                    proof {
                        assert(item_views(self.items@) =~= item_views(items).push(parsed@));
                    }
                }
            }
        }
        if self.depth > 0 {
            self.depth = self.depth - 1;
        }
    }

    fn collect_text(&mut self, text: &str)
        ensures
            final(self)@ == after_text(old(self)@, text@),
            final(self).depth == old(self).depth,
    {
        let taken = self.capture.take();
        match taken {
            Some(mut active) => {
                active.text.append(text);
                self.capture = Some(active);
            },
            None => {},
        }
    }

    /// Takes in one event of a document found at `base`.
    pub fn handle(&mut self, base: Option<&str>, event: &XmlEvent)
        requires
            old(self).depth < usize::MAX,
        ensures
            final(self)@ == after_event(old(self)@, base_view(base), event@),
            final(self).depth <= old(self).depth + 1,
    {
        match event {
            XmlEvent::Start(name, attributes) => {
                let name = local_name(name.as_slice());
                self.start_element(base, name.as_str(), attributes);
            },
            XmlEvent::Empty(name, attributes) => {
                let name = local_name(name.as_slice());
                self.empty_element(base, name.as_str(), attributes);
            },
            XmlEvent::Text(text) => {
                let text = decode_entities(text.as_str());
                self.collect_text(text.as_str());
            },
            XmlEvent::CData(text) => {
                self.collect_text(text.as_str());
            },
            XmlEvent::End(name) => {
                let name = local_name(name.as_slice());
                self.end_element(base, name.as_str());
            },
            XmlEvent::Other => {},
            XmlEvent::Failed(_) => {},
            XmlEvent::Eof => {},
        }
    }
}

proof fn lemma_item_tags_carry_no_link(name: Seq<char>)
    requires
        holds_item(name),
    ensures
        !carries_link(name),
{
    reveal_strlit("item");
    reveal_strlit("entry");
    reveal_strlit("a");
    reveal_strlit("link");
    reveal_strlit("enclosure");
    reveal_strlit("content");
    assert("item"@[0] == 'i');
    assert("entry"@.len() == 5);
    assert("link"@[0] == 'l');
    assert("enclosure"@.len() == 9);
    assert("content"@.len() == 7);
}

/// What a feed found at `source_url` holds, by the events of its document.
pub open spec fn feed_of(source_url: Seq<char>, events: Seq<XmlEventView>) -> Result<
    (Seq<char>, Seq<ParsedView>),
    Seq<char>,
> {
    match after_events(feed_start(), Some(source_url), events) {
        Ok(state) => Ok((cleaned(state.feed_title), state.items)),
        Err(message) => Err("XML parse error: "@ + message),
    }
}

/// The values of a feed, or the message of the error.
pub open spec fn feed_view(r: Result<ParsedFeed, String>) -> Result<
    (Seq<char>, Seq<ParsedView>),
    Seq<char>,
> {
    match r {
        Ok(feed) => Ok((feed.title@, item_views(feed.items@))),
        Err(message) => Err(message@),
    }
}

/// Reads the feed in a document found at `source_url`.
pub fn parse_feed_document(source_url: &str, xml: &str) -> (r: Result<ParsedFeed, String>)
    ensures
        feed_view(r) == feed_of(source_url@, events_of(document_events(xml@, true))),
{
    let mut reader = open_document(xml, true);
    let mut parser = FeedParser::new();
    let limit: usize = xml.len();
    let ghost all = events_of(document_events(xml@, true));
    let mut going: bool = true;
    while going
        invariant
            all == events_of(document_events(xml@, true)),
            parser.depth + pending_events(reader).len() <= limit,
            going ==> after_events(feed_start(), Some(source_url@), all) == after_events(
                parser@,
                Some(source_url@),
                events_of(pending_events(reader)),
            ),
            !going ==> after_events(feed_start(), Some(source_url@), all) == Ok::<
                FeedView,
                Seq<char>,
            >(parser@),
        decreases pending_events(reader).len(), going as int,
    {
        let ghost before = pending_events(reader);
        let event = read_event(next_event(&mut reader));
        proof {
            if before.len() > 0 {
                assert(events_of(before)[0] == event@);
                assert(events_of(before).skip(1) =~= events_of(before.skip(1)));
            }
        }
        match event {
            XmlEvent::Eof => {
                going = false;
            },
            XmlEvent::Failed(message) => {
                return Err(concat("XML parse error: ", message.as_str()));
            },
            event => {
                parser.handle(Some(source_url), &event);
            },
        }
    }
    Ok(ParsedFeed { title: clean_text(parser.feed_title.as_str()), items: parser.items })
}

} // verus!
