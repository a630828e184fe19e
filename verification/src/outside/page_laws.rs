//! What is read of pages and documents.
use vstd::prelude::*;

use crate::outside::markup::{
    attributes_of, event_of, events_of, lossy_utf8, RawEventView, XmlEventView,
};
use crate::outside::pages::{
    brackets, cells_in, deepest, element_in, is_readable, joints, page_cells, page_element,
    page_rows, rows_in,
};
use crate::outside::urls::{leading_blobs, origin_in, undropped, url_origin};
use crate::text::{ascii_lower, contains, found_at};

verus! {

/// Whether a selector is an ordinary one: it holds no round brackets and no escapes, and is
/// not longer than the joints that it may have.
pub open spec fn is_ordinary(selector: Seq<char>) -> bool {
    &&& !selector.contains('(')
    &&& !selector.contains('\\')
    &&& selector.len() <= 512
}

proof fn lemma_no_brackets(s: Seq<char>)
    requires
        !s.contains('('),
    ensures
        brackets(s) == 0,
    decreases s.len(),
{
    if s.len() > 0 {
        let front = s.drop_last();
        assert(s.contains(s[s.len() - 1]));
        assert(!front.contains('(')) by {
            if front.contains('(') {
                let k = choose|k: int| 0 <= k < front.len() && front[k] == '(';
                assert(s[k] == '(');
            }
        }
        lemma_no_brackets(front);
    }
}

proof fn lemma_not_deep(s: Seq<char>, quote: Option<char>, open: Seq<char>)
    requires
        !s.contains('('),
        !open.contains('('),
    ensures
        deepest(s, quote, open) == 0,
    decreases s.len(),
{
    if s.len() > 0 {
        let c = s[0];
        let rest = s.skip(1);
        assert(s.contains(c));
        assert(!rest.contains('(')) by {
            if rest.contains('(') {
                let k = choose|k: int| 0 <= k < rest.len() && rest[k] == '(';
                assert(s[k + 1] == '(');
            }
        }
        let more = open.push(c);
        assert(!more.contains('(')) by {
            if more.contains('(') {
                let k = choose|k: int| 0 <= k < more.len() && more[k] == '(';
                if k < open.len() {
                    assert(open[k] == '(');
                }
            }
        }
        lemma_no_brackets(more);
        lemma_not_deep(rest, None, more);
        lemma_not_deep(rest, None, open);
        lemma_not_deep(rest, Some(c), open);
        lemma_not_deep(rest, quote, open);
        if open.len() > 0 {
            let fewer = open.drop_last();
            assert(!fewer.contains('(')) by {
                if fewer.contains('(') {
                    let k = choose|k: int| 0 <= k < fewer.len() && fewer[k] == '(';
                    assert(open[k] == '(');
                }
            }
            lemma_not_deep(rest, None, fewer);
        }
    }
}

proof fn lemma_few_joints(s: Seq<char>)
    ensures
        joints(s) <= s.len(),
    decreases s.len(),
{
    if s.len() > 0 {
        lemma_few_joints(s.drop_last());
    }
}

/// An ordinary selector is read on every page, whatever the page holds.
pub proof fn law_ordinary_selector_is_read(page: Seq<char>, selector: Seq<char>)
    requires
        is_ordinary(selector),
    ensures
        is_readable(page, selector),
{
    lemma_no_brackets(selector);
    lemma_not_deep(selector, None, Seq::empty());
    lemma_few_joints(selector);
    reveal_strlit("has(");
    reveal_strlit("\\");
    if contains(selector, "\\"@) {
        let at = choose|at: int| #[trigger] found_at(selector, "\\"@, at);
        assert(selector.subrange(at, at + 1)[0] == selector[at]);
        assert(selector.contains(selector[at]));
    }
    let lower = ascii_lower(selector);
    if contains(lower, "has("@) {
        let at = choose|at: int| #[trigger] found_at(lower, "has("@, at);
        assert(lower.subrange(at, at + 4)[3] == lower[at + 3]);
        assert(selector[at + 3] == '(');
        assert(selector.contains(selector[at + 3]));
    }
}

/// What ordinary selectors select on a page is all taken.
pub proof fn law_page_is_read(
    page: Seq<char>,
    list: Seq<char>,
    selector: Seq<char>,
    attribute: Seq<char>,
)
    requires
        is_ordinary(list),
        is_ordinary(selector),
    ensures
        rows_in(page, list) == page_rows(page, list),
        cells_in(page, list, selector, attribute) == page_cells(page, list, selector, attribute),
        element_in(page, selector, attribute) == page_element(page, selector, attribute),
{
    law_ordinary_selector_is_read(page, list);
    law_ordinary_selector_is_read(page, selector);
}

/// Every event of a document is read, in its order and for what it is: tags by their names and
/// attributes, texts as texts, failures with their messages.
pub proof fn law_events_are_read(raw: Seq<RawEventView>, i: int)
    requires
        0 <= i < raw.len(),
    ensures
        events_of(raw).len() == raw.len(),
        match raw[i] {
            RawEventView::Start(tag, n) => events_of(raw)[i] == XmlEventView::Start(
                tag.take(n as int),
                attributes_of(tag, n),
            ),
            RawEventView::Empty(tag, n) => events_of(raw)[i] == XmlEventView::Empty(
                tag.take(n as int),
                attributes_of(tag, n),
            ),
            RawEventView::End(name) => events_of(raw)[i] == XmlEventView::End(name),
            RawEventView::Text(text) => events_of(raw)[i] == XmlEventView::Text(lossy_utf8(text)),
            RawEventView::CData(text) => events_of(raw)[i] == XmlEventView::CData(lossy_utf8(text)),
            RawEventView::Other => events_of(raw)[i] is Other,
            RawEventView::Failed(message) => events_of(raw)[i] == XmlEventView::Failed(message),
            RawEventView::Eof => events_of(raw)[i] is Eof,
        },
{
    assert(events_of(raw)[i] == event_of(raw[i]));
}

proof fn lemma_blobs_are_few(s: Seq<char>)
    ensures
        5 * leading_blobs(s) <= s.len(),
    decreases s.len(),
{
    if s.len() > 0 {
        lemma_blobs_are_few(s.skip(1));
        if s.len() >= 5 {
            lemma_blobs_are_few(s.skip(5));
        }
    }
}

proof fn lemma_undropped_is_shorter(s: Seq<char>)
    ensures
        undropped(s).len() <= s.len(),
    decreases s.len(),
{
    if s.len() > 0 {
        lemma_undropped_is_shorter(s.skip(1));
    }
}

/// The origin of every address that is not very long is found.
pub proof fn law_origin_is_found(base: Seq<char>)
    requires
        base.len() <= 5000,
    ensures
        origin_in(base) == url_origin(base),
{
    lemma_undropped_is_shorter(base);
    lemma_blobs_are_few(undropped(base));
}

} // verus!
