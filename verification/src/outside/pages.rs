//! Elements of HTML pages, from the `scraper` crate.
use scraper::{Html, Selector};
use vstd::prelude::*;

use crate::text::{
    ascii_lower, chars_of, contains, has_text, lowered, view_opt, views,
};

verus! {

/// An element of a page: its pieces of text, and the value of one attribute.
pub struct PageElement {
    pub texts: Vec<String>,
    pub attribute: Option<String>,
}

/// The values of an element.
pub type ElementView = (Seq<Seq<char>>, Option<Seq<char>>);

impl View for PageElement {
    type V = ElementView;

    open spec fn view(&self) -> ElementView {
        (views(self.texts@), view_opt(self.attribute))
    }
}

/// The values of an optional element.
pub open spec fn element_opt(e: Option<PageElement>) -> Option<ElementView> {
    match e {
        Some(element) => Some(element@),
        None => None,
    }
}

/// The values of optional elements, one for each row.
pub open spec fn cells_view(cells: Seq<Option<PageElement>>) -> Seq<Option<ElementView>> {
    cells.map_values(|c: Option<PageElement>| element_opt(c))
}

/// The pieces of text of each row.
pub open spec fn rows_view(rows: Seq<Vec<String>>) -> Seq<Seq<Seq<char>>> {
    rows.map_values(|r: Vec<String>| views(r@))
}

/// The pieces of text of each element of a page that a selector selects; `None` where
/// the selector is not valid.
pub uninterp spec fn page_rows(page: Seq<char>, list: Seq<char>) -> Option<Seq<Seq<Seq<char>>>>;

/// For each element that the first selector selects, the first element within it that
/// the second selects, with the attribute of the given name; `None` where a selector is
/// not valid.
pub uninterp spec fn page_cells(
    page: Seq<char>,
    list: Seq<char>,
    selector: Seq<char>,
    attribute: Seq<char>,
) -> Option<Seq<Option<ElementView>>>;

/// The first element of a page that a selector selects, with the attribute of the given
/// name; `None` where there is none or the selector is not valid.
pub uninterp spec fn page_element(
    page: Seq<char>,
    selector: Seq<char>,
    attribute: Seq<char>,
) -> Option<ElementView>;

/// For each node of a page, how many nodes stand around it.
pub uninterp spec fn page_depths(page: Seq<char>) -> Seq<usize>;

/// How many round brackets are among opening ones.
pub open spec fn brackets(open: Seq<char>) -> nat
    decreases open.len(),
{
    if open.len() == 0 {
        0
    } else {
        brackets(open.drop_last()) + (if open.last() == '(' {
            1nat
        } else {
            0nat
        })
    }
}

/// Whether the bracket `close` closes the bracket `open`.
pub open spec fn closes(open: char, close: char) -> bool {
    (open == '(' && close == ')') || (open == '[' && close == ']') || (open == '{' && close == '}')
}

/// The larger of two numbers.
pub open spec fn larger(a: nat, b: nat) -> nat {
    if a < b {
        b
    } else {
        a
    }
}

/// How deep round brackets stand within one another in `s`, where the brackets of `open` are
/// open before it, and a text in quotes where there is a `quote`.
pub open spec fn deepest(s: Seq<char>, quote: Option<char>, open: Seq<char>) -> nat
    decreases s.len(),
{
    if s.len() == 0 {
        0
    } else {
        let c = s[0];
        let rest = s.skip(1);
        match quote {
            Some(q) => deepest(
                rest,
                if c == q {
                    None
                } else {
                    quote
                },
                open,
            ),
            None => if c == '"' || c == '\'' {
                deepest(rest, Some(c), open)
            } else if c == '(' || c == '[' || c == '{' {
                larger(brackets(open.push(c)), deepest(rest, None, open.push(c)))
            } else if open.len() > 0 && closes(open.last(), c) {
                deepest(rest, None, open.drop_last())
            } else {
                deepest(rest, None, open)
            },
        }
    }
}

/// Whether every bracket outside quotes opens or closes something: there are no escapes, no
/// comments, no addresses, and no quotes that a line break could end.
pub open spec fn is_plain_selector(s: Seq<char>) -> bool {
    &&& !contains(s, "\\"@)
    &&& !contains(s, "/*"@)
    &&& !contains(ascii_lower(s), "url("@)
    &&& !((contains(s, "\""@) || contains(s, "'"@)) && (contains(s, "\n"@) || contains(s, "\r"@)
        || contains(s, "\x0c"@)))
}

/// How deep the selectors in a selector stand within one another, or more.
pub open spec fn selector_depth(s: Seq<char>) -> nat {
    if is_plain_selector(s) {
        deepest(s, None, Seq::empty())
    } else {
        brackets(s)
    }
}

/// Whether a character joins two parts of a selector.
pub open spec fn is_combinator(c: char) -> bool {
    c == ' ' || c == '\t' || c == '\n' || c == '\r' || c == '\x0c' || c == '>' || c == '+' || c
        == '~'
}

/// How many joints there are between the parts of a selector, or more: the runs of characters
/// that join.
pub open spec fn joints(s: Seq<char>) -> nat
    decreases s.len(),
{
    if s.len() == 0 {
        0
    } else {
        let front = s.drop_last();
        joints(front) + (if is_combinator(s.last()) && (front.len() == 0 || !is_combinator(
            front.last(),
        )) {
            1nat
        } else {
            0nat
        })
    }
}

/// Whether a selector may ask for what an element has in it.
pub open spec fn may_look_inside(s: Seq<char>) -> bool {
    contains(ascii_lower(s), "has("@) || contains(s, "\\"@)
}

/// How deep selectors may stand within one another.
pub const SELECTOR_DEPTH_LIMIT: usize = 64;

/// How many joints a selector may have.
pub const JOINT_LIMIT: usize = 512;

/// How deep the elements of a page may stand within one another.
pub const PAGE_DEPTH_LIMIT: usize = 512;

/// Whether no node of a page has more than the allowed number of nodes above it.
pub open spec fn is_flat(depths: Seq<usize>) -> bool {
    forall|i: int| 0 <= i < depths.len() ==> #[trigger] depths[i] <= PAGE_DEPTH_LIMIT
}

/// Whether the stack holds what a selector takes on a page: some frames for each selector
/// within another, one for each joint, and one for each element around another where the
/// selector asks for what an element has in it. All limits reached at once stay within the two
/// megabytes that a thread has by default.
pub open spec fn is_readable(page: Seq<char>, selector: Seq<char>) -> bool {
    &&& selector_depth(selector) <= SELECTOR_DEPTH_LIMIT
    &&& joints(selector) <= JOINT_LIMIT
    &&& may_look_inside(selector) ==> is_flat(page_depths(page))
}

/// The pieces of text of each element that a selector selects; `None` where the selector is
/// not valid or cannot be read.
pub open spec fn rows_in(page: Seq<char>, list: Seq<char>) -> Option<Seq<Seq<Seq<char>>>> {
    if is_readable(page, list) {
        page_rows(page, list)
    } else {
        None
    }
}

/// The first element within each row that a selector selects; `None` where a selector is
/// not valid or cannot be read.
pub open spec fn cells_in(
    page: Seq<char>,
    list: Seq<char>,
    selector: Seq<char>,
    attribute: Seq<char>,
) -> Option<Seq<Option<ElementView>>> {
    if is_readable(page, list) && is_readable(page, selector) {
        page_cells(page, list, selector, attribute)
    } else {
        None
    }
}

/// The first element that a selector selects; `None` where there is none, or the selector is
/// not valid or cannot be read.
pub open spec fn element_in(page: Seq<char>, selector: Seq<char>, attribute: Seq<char>) -> Option<
    ElementView,
> {
    if is_readable(page, selector) {
        page_element(page, selector, attribute)
    } else {
        None
    }
}

/// `Html::parse_document`, `Selector::parse` and `Html::select`, with the text of each
/// element: a function of the page and the selector. What exhausts the stack is left out.
#[verifier::external_body]
fn select_rows(page: &str, list: &str) -> (r: Option<Vec<Vec<String>>>)
    requires
        is_readable(page@, list@),
    ensures
        r is Some <==> page_rows(page@, list@) is Some,
        r matches Some(rows) ==> rows_view(rows@) == page_rows(page@, list@).unwrap(),
{
    let list = Selector::parse(list).ok()?;
    let page = Html::parse_document(page);
    Some(page.select(&list).map(|e| e.text().map(String::from).collect()).collect())
}

/// `Html::select`, then `ElementRef::select` within each element, with the text and one
/// attribute of the first match: a function of the four texts. There is one entry for
/// each element that `select_rows` finds with the same page and list. What exhausts the stack
/// is left out.
#[verifier::external_body]
fn select_cells(page: &str, list: &str, selector: &str, attribute: &str) -> (r: Option<
    Vec<Option<PageElement>>,
>)
    requires
        is_readable(page@, list@),
        is_readable(page@, selector@),
    ensures
        r is Some <==> page_cells(page@, list@, selector@, attribute@) is Some,
        r matches Some(cells) ==> cells_view(cells@) == page_cells(
            page@,
            list@,
            selector@,
            attribute@,
        ).unwrap(),
        r matches Some(cells) ==> page_rows(page@, list@) is Some && cells@.len() == page_rows(
            page@,
            list@,
        ).unwrap().len(),
{
    let list = Selector::parse(list).ok()?;
    let selector = Selector::parse(selector).ok()?;
    let page = Html::parse_document(page);
    let cell = |e: scraper::ElementRef| PageElement {
        texts: e.text().map(String::from).collect(),
        attribute: e.value().attr(attribute).map(String::from),
    };
    Some(page.select(&list).map(|row| row.select(&selector).next().map(cell)).collect())
}

/// `Html::select` on the whole page, with the text and one attribute of the first match:
/// a function of the three texts. What exhausts the stack is left out.
#[verifier::external_body]
fn select_first(page: &str, selector: &str, attribute: &str) -> (r: Option<PageElement>)
    requires
        is_readable(page@, selector@),
    ensures
        element_opt(r) == page_element(page@, selector@, attribute@),
{
    let selector = Selector::parse(selector).ok()?;
    let page = Html::parse_document(page);
    let found = page.select(&selector).next()?;
    Some(PageElement {
        texts: found.text().map(String::from).collect(),
        attribute: found.value().attr(attribute).map(String::from),
    })
}

/// `Html::parse_document`, then `NodeRef::ancestors` of each node of the tree, counted: a
/// function of the page. Neither needs more of the stack for a deeper page.
#[verifier::external_body]
fn node_depths(page: &str) -> (r: Vec<usize>)
    ensures
        r@ == page_depths(page@),
{
    Html::parse_document(page).tree.nodes().map(|n| n.ancestors().count()).collect()
}

/// Whether no node has more than the allowed number of nodes above it.
pub fn all_flat(depths: &Vec<usize>) -> (r: bool)
    ensures
        r == is_flat(depths@),
{
    let mut i: usize = 0;
    while i < depths.len()
        invariant
            i <= depths@.len(),
            forall|k: int| 0 <= k < i ==> #[trigger] depths@[k] <= PAGE_DEPTH_LIMIT,
        decreases depths@.len() - i,
    {
        if depths[i] > PAGE_DEPTH_LIMIT {
            return false;
        }
        i = i + 1;
    }
    true
}

/// How many round brackets a text opens.
fn count_brackets(s: &[char]) -> (r: usize)
    ensures
        r == brackets(s@),
{
    let mut count: usize = 0;
    let mut i: usize = 0;
    while i < s.len()
        invariant
            i <= s@.len(),
            count <= i,
            count == brackets(s@.take(i as int)),
        decreases s@.len() - i,
    {
        proof {
            assert(s@.take(i + 1).drop_last() =~= s@.take(i as int));
        }
        if s[i] == '(' {
            count = count + 1;
        }
        i = i + 1;
    }
    proof {
        assert(s@.take(i as int) =~= s@);
    }
    count
}

/// How deep round brackets stand within one another.
fn find_deepest(s: &[char]) -> (r: usize)
    ensures
        r == deepest(s@, None, Seq::empty()),
{
    let mut quote: Option<char> = None;
    let mut open: Vec<char> = Vec::new();
    let mut level: usize = 0;
    let mut best: usize = 0;
    let mut i: usize = 0;
    proof {
        assert(s@.skip(0) =~= s@);
        assert(open@ =~= Seq::empty());
    }
    while i < s.len()
        invariant
            i <= s@.len(),
            level == brackets(open@),
            level <= i,
            deepest(s@, None, Seq::empty()) == larger(
                best as nat,
                deepest(s@.skip(i as int), quote, open@),
            ),
        decreases s@.len() - i,
    {
        let c: char = s[i];
        let ghost rest = s@.skip(i as int);
        let ghost before = open@;
        proof {
            assert(rest.skip(1) =~= s@.skip(i + 1));
        }
        match quote {
            Some(q) => {
                if c == q {
                    quote = None;
                }
            },
            None => {
                let n: usize = open.len();
                if c == '"' || c == '\'' {
                    quote = Some(c);
                } else if c == '(' || c == '[' || c == '{' {
                    open.push(c);
                    proof {
                        assert(open@.drop_last() =~= before);
                    }
                    if c == '(' {
                        level = level + 1;
                    }
                    if level > best {
                        best = level;
                    }
                } else if n > 0 && ((open[n - 1] == '(' && c == ')') || (open[n - 1] == '[' && c
                    == ']') || (open[n - 1] == '{' && c == '}')) {
                    open.pop();
                    if c == ')' {
                        level = level - 1;
                    }
                }
            },
        }
        i = i + 1;
    }
    best
}

/// Whether every bracket outside quotes opens or closes something.
fn plain_selector(s: &str) -> (r: bool)
    ensures
        r == is_plain_selector(s@),
{
    let quoted = has_text(s, "\"") || has_text(s, "'");
    let broken = has_text(s, "\n") || has_text(s, "\r") || has_text(s, "\x0c");
    !has_text(s, "\\") && !has_text(s, "/*") && !has_text(lowered(s).as_str(), "url(") && !(quoted
        && broken)
}

/// Whether a character joins two parts of a selector.
fn joins(c: char) -> (r: bool)
    ensures
        r == is_combinator(c),
{
    c == ' ' || c == '\t' || c == '\n' || c == '\r' || c == '\x0c' || c == '>' || c == '+' || c
        == '~'
}

/// How many joints there are between the parts of a selector, or more.
fn count_joints(s: &[char]) -> (r: usize)
    ensures
        r == joints(s@),
{
    let mut count: usize = 0;
    let mut i: usize = 0;
    while i < s.len()
        invariant
            i <= s@.len(),
            count <= i,
            count == joints(s@.take(i as int)),
        decreases s@.len() - i,
    {
        proof {
            assert(s@.take(i + 1).drop_last() =~= s@.take(i as int));
        }
        if joins(s[i]) && (i == 0 || !joins(s[i - 1])) {
            count = count + 1;
        }
        i = i + 1;
    }
    proof {
        assert(s@.take(i as int) =~= s@);
    }
    count
}

/// Whether the stack holds what a selector takes on a page.
fn can_read(page: &str, selector: &str) -> (r: bool)
    ensures
        r == is_readable(page@, selector@),
{
    let chars = chars_of(selector);
    let depth: usize = if plain_selector(selector) {
        find_deepest(&chars)
    } else {
        count_brackets(&chars)
    };
    if depth > SELECTOR_DEPTH_LIMIT || count_joints(&chars) > JOINT_LIMIT {
        return false;
    }
    if has_text(lowered(selector).as_str(), "has(") || has_text(selector, "\\") {
        all_flat(&node_depths(page))
    } else {
        true
    }
}

/// The pieces of text of each element that a selector selects.
pub(crate) fn find_rows(page: &str, list: &str) -> (r: Option<Vec<Vec<String>>>)
    ensures
        match r {
            Some(rows) => rows_in(page@, list@) == Some(rows_view(rows@)),
            None => rows_in(page@, list@) is None,
        },
{
    if can_read(page, list) {
        select_rows(page, list)
    } else {
        None
    }
}

/// The first element within each row that a selector selects, one entry for each row that
/// `find_rows` finds.
pub(crate) fn find_cells(page: &str, list: &str, selector: &str, attribute: &str) -> (r: Option<
    Vec<Option<PageElement>>,
>)
    ensures
        match r {
            Some(cells) => {
                &&& cells_in(page@, list@, selector@, attribute@) == Some(cells_view(cells@))
                &&& rows_in(page@, list@) matches Some(rows) && cells@.len() == rows.len()
            },
            None => cells_in(page@, list@, selector@, attribute@) is None,
        },
{
    if can_read(page, list) && can_read(page, selector) {
        select_cells(page, list, selector, attribute)
    } else {
        None
    }
}

/// The first element that a selector selects.
pub(crate) fn find_first(page: &str, selector: &str, attribute: &str) -> (r: Option<PageElement>)
    ensures
        element_opt(r) == element_in(page@, selector@, attribute@),
{
    if can_read(page, selector) {
        select_first(page, selector, attribute)
    } else {
        None
    }
}

} // verus!
