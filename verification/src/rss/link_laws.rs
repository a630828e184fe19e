//! What becomes of links and texts of a feed, whatever they hold.
use vstd::prelude::*;

use crate::outside::patterns::{link_runs, without_tags, MAGNET_PATTERN};
use crate::outside::urls::{origin_in, url_joined};
use crate::rss::links::{
    blob_resolved, cleaned, decoded, first_torrent, magnet_in, normalized, resolved,
};
use crate::text::{
    ascii_lower, contains, found_at, in_class, lemma_trim, replace, squeeze, trim, trim_both, trim_end,
    trim_start, CharClass,
};
use crate::text_laws::{
    law_first_is_replaced, law_nothing_to_replace, law_trimmed, lemma_trim_end_bound,
};

verus! {

proof fn lemma_begins_with(s: Seq<char>, part: Seq<char>, at: int)
    requires
        found_at(s, part, at),
        part.len() > 0,
    ensures
        0 <= at < s.len(),
        forall|k: int| 0 <= k < part.len() ==> s[at + k] == #[trigger] part[k],
{
    assert forall|k: int| 0 <= k < part.len() implies s[at + k] == #[trigger] part[k] by {
        assert(s.subrange(at, at + part.len())[k] == s[at + k]);
    }
}

proof fn lemma_no_mark(s: Seq<char>, from: Seq<char>, to: Seq<char>)
    requires
        from.len() > 0,
        !s.contains(from[0]),
    ensures
        replace(s, from, to) == s,
{
    assert(!contains(s, from)) by {
        if contains(s, from) {
            let at = choose|at: int| #[trigger] found_at(s, from, at);
            lemma_begins_with(s, from, at);
            assert(s[at + 0] == from[0]);
            assert(s.contains(s[at]));
        }
    }
    law_nothing_to_replace(s, from, to);
}

proof fn lemma_entities()
    ensures
        "&amp;"@ == seq!['&', 'a', 'm', 'p', ';'],
        "&lt;"@ == seq!['&', 'l', 't', ';'],
        "&gt;"@ == seq!['&', 'g', 't', ';'],
        "&quot;"@ == seq!['&', 'q', 'u', 'o', 't', ';'],
        "&#39;"@ == seq!['&', '#', '3', '9', ';'],
        "&#x27;"@ == seq!['&', '#', 'x', '2', '7', ';'],
        "&"@ == seq!['&'],
        "<"@ == seq!['<'],
        ">"@ == seq!['>'],
        "\""@ == seq!['"'],
        "'"@ == seq!['\''],
{
    reveal_strlit("&amp;");
    reveal_strlit("&lt;");
    reveal_strlit("&gt;");
    reveal_strlit("&quot;");
    reveal_strlit("&#39;");
    reveal_strlit("&#x27;");
    reveal_strlit("&");
    reveal_strlit("<");
    reveal_strlit(">");
    reveal_strlit("\"");
    reveal_strlit("'");
    assert("&amp;"@ =~= seq!['&', 'a', 'm', 'p', ';']);
    assert("&lt;"@ =~= seq!['&', 'l', 't', ';']);
    assert("&gt;"@ =~= seq!['&', 'g', 't', ';']);
    assert("&quot;"@ =~= seq!['&', 'q', 'u', 'o', 't', ';']);
    assert("&#39;"@ =~= seq!['&', '#', '3', '9', ';']);
    assert("&#x27;"@ =~= seq!['&', '#', 'x', '2', '7', ';']);
    assert("&"@ =~= seq!['&']);
    assert("<"@ =~= seq!['<']);
    assert(">"@ =~= seq!['>']);
    assert("\""@ =~= seq!['"']);
    assert("'"@ =~= seq!['\'']);
}

/// A text without an ampersand holds no entity, and stays as it is.
pub proof fn law_plain_text_stays(s: Seq<char>)
    requires
        !s.contains('&'),
    ensures
        decoded(s) == s,
{
    lemma_entities();
    lemma_no_mark(s, "&amp;"@, "&"@);
    lemma_no_mark(s, "&lt;"@, "<"@);
    lemma_no_mark(s, "&gt;"@, ">"@);
    lemma_no_mark(s, "&quot;"@, "\""@);
    lemma_no_mark(s, "&#39;"@, "'"@);
    lemma_no_mark(s, "&#x27;"@, "'"@);
}

/// Replacing begins behind what holds no beginning of what is replaced.
proof fn lemma_replace_behind(x: Seq<char>, b: Seq<char>, from: Seq<char>, to: Seq<char>)
    requires
        from.len() > 0,
        forall|p: int| 0 <= p < x.len() ==> !#[trigger] found_at(x + b, from, p),
    ensures
        replace(x + b, from, to) == x + replace(b, from, to),
    decreases x.len(),
{
    if x.len() == 0 {
        assert(x + b =~= b);
        assert(x + replace(b, from, to) =~= replace(b, from, to));
    } else {
        let s = x + b;
        let rest = x.skip(1);
        assert(s.skip(1) =~= rest + b);
        assert(!found_at(s, from, 0));
        assert(!from.is_prefix_of(s)) by {
            if from.is_prefix_of(s) {
                assert(s.subrange(0, from.len() as int) =~= from);
            }
        }
        assert forall|p: int| 0 <= p < rest.len() implies !#[trigger] found_at(
            rest + b,
            from,
            p,
        ) by {
            if found_at(rest + b, from, p) {
                assert((rest + b).subrange(p, p + from.len()) =~= s.subrange(
                    p + 1,
                    p + 1 + from.len(),
                ));
                assert(found_at(s, from, p + 1));
            }
        }
        lemma_replace_behind(rest, b, from, to);
        assert(seq![s[0]] + (rest + replace(b, from, to)) =~= x + replace(b, from, to));
    }
}

/// Another entity than the one that stands in a text is looked for behind it.
proof fn lemma_other_entity(
    a: Seq<char>,
    entity: Seq<char>,
    b: Seq<char>,
    from: Seq<char>,
    to: Seq<char>,
    k: int,
)
    requires
        !a.contains('&'),
        entity.len() > 0,
        from.len() > 0,
        entity[0] == '&',
        from[0] == '&',
        forall|i: int| 0 < i < entity.len() ==> #[trigger] entity[i] != '&',
        0 < k < entity.len(),
        k < from.len(),
        entity[k] != from[k],
    ensures
        replace(a + entity + b, from, to) == a + entity + replace(b, from, to),
{
    let x = a + entity;
    let s = x + b;
    assert forall|p: int| 0 <= p < x.len() implies !#[trigger] found_at(s, from, p) by {
        if found_at(s, from, p) {
            lemma_begins_with(s, from, p);
            assert(s[p + 0] == from[0]);
            if p < a.len() {
                assert(a[p] == '&');
                assert(a.contains(a[p]));
            } else if p > a.len() {
                assert(entity[p - a.len()] == '&');
            }
            assert(s[p + k] == from[k]);
            assert(s[a.len() + k] == entity[k]);
        }
    }
    lemma_replace_behind(x, b, from, to);
}

/// The entity that stands in a text is replaced, and looked for behind it.
proof fn lemma_this_entity(a: Seq<char>, entity: Seq<char>, b: Seq<char>, to: Seq<char>)
    requires
        !a.contains('&'),
        entity.len() > 0,
        entity[0] == '&',
    ensures
        replace(a + entity + b, entity, to) == a + to + replace(b, entity, to),
{
    let s = a + entity + b;
    let at = a.len() as int;
    assert(s.subrange(at, at + entity.len()) =~= entity);
    assert forall|k: int| 0 <= k < at implies !#[trigger] found_at(s, entity, k) by {
        if found_at(s, entity, k) {
            lemma_begins_with(s, entity, k);
            assert(s[k + 0] == entity[0]);
            assert(a[k] == '&');
            assert(a.contains(a[k]));
        }
    }
    law_first_is_replaced(s, entity, to, at);
    assert(s.take(at) =~= a);
    assert(s.skip(at + entity.len()) =~= b);
}

/// What an entity stood for is no beginning of another.
proof fn lemma_behind_char(a: Seq<char>, c: char, b: Seq<char>, from: Seq<char>, to: Seq<char>)
    requires
        !a.contains('&'),
        c != '&',
        from.len() > 0,
        from[0] == '&',
    ensures
        replace(a + seq![c] + b, from, to) == a + seq![c] + replace(b, from, to),
{
    let x = a + seq![c];
    let s = x + b;
    assert forall|p: int| 0 <= p < x.len() implies !#[trigger] found_at(s, from, p) by {
        if found_at(s, from, p) {
            lemma_begins_with(s, from, p);
            assert(s[p + 0] == from[0]);
            if p < a.len() {
                assert(a[p] == '&');
                assert(a.contains(a[p]));
            }
        }
    }
    lemma_replace_behind(x, b, from, to);
}

/// The character that an entity stands for.
pub open spec fn entity_char(entity: Seq<char>) -> Option<char> {
    if entity == "&lt;"@ {
        Some('<')
    } else if entity == "&gt;"@ {
        Some('>')
    } else if entity == "&quot;"@ {
        Some('"')
    } else if entity == "&#39;"@ || entity == "&#x27;"@ {
        Some('\'')
    } else {
        None
    }
}

/// An entity in a text stands for its character; the text before it stays, and that behind it
/// is resolved in the same way.
pub proof fn law_entity_is_resolved(a: Seq<char>, entity: Seq<char>, b: Seq<char>)
    requires
        !a.contains('&'),
        entity_char(entity) is Some,
    ensures
        decoded(a + entity + b) == a + seq![entity_char(entity).unwrap()] + decoded(b),
{
    lemma_entities();
    let c = entity_char(entity).unwrap();
    let b1 = replace(b, "&amp;"@, "&"@);
    let b2 = replace(b1, "&lt;"@, "<"@);
    let b3 = replace(b2, "&gt;"@, ">"@);
    let b4 = replace(b3, "&quot;"@, "\""@);
    let b5 = replace(b4, "&#39;"@, "'"@);
    lemma_other_entity(a, entity, b, "&amp;"@, "&"@, 1);
    if entity == "&lt;"@ {
        lemma_this_entity(a, entity, b1, "<"@);
        lemma_behind_char(a, c, b2, "&gt;"@, ">"@);
        lemma_behind_char(a, c, b3, "&quot;"@, "\""@);
        lemma_behind_char(a, c, b4, "&#39;"@, "'"@);
        lemma_behind_char(a, c, b5, "&#x27;"@, "'"@);
    } else {
        lemma_other_entity(a, entity, b1, "&lt;"@, "<"@, 1);
        if entity == "&gt;"@ {
            lemma_this_entity(a, entity, b2, ">"@);
            lemma_behind_char(a, c, b3, "&quot;"@, "\""@);
            lemma_behind_char(a, c, b4, "&#39;"@, "'"@);
            lemma_behind_char(a, c, b5, "&#x27;"@, "'"@);
        } else {
            lemma_other_entity(a, entity, b2, "&gt;"@, ">"@, 1);
            if entity == "&quot;"@ {
                lemma_this_entity(a, entity, b3, "\""@);
                lemma_behind_char(a, c, b4, "&#39;"@, "'"@);
                lemma_behind_char(a, c, b5, "&#x27;"@, "'"@);
            } else {
                lemma_other_entity(a, entity, b3, "&quot;"@, "\""@, 1);
                if entity == "&#39;"@ {
                    lemma_this_entity(a, entity, b4, "'"@);
                    lemma_behind_char(a, c, b5, "&#x27;"@, "'"@);
                } else {
                    lemma_other_entity(a, entity, b4, "&#39;"@, "'"@, 2);
                    lemma_this_entity(a, entity, b5, "'"@);
                }
            }
        }
    }
}

/// The entity of the ampersand stands for it, where what follows does not make an entity of
/// it again.
pub proof fn law_ampersand_is_resolved(a: Seq<char>, b: Seq<char>)
    requires
        !a.contains('&'),
        !b.contains('&'),
        !b.contains(';'),
    ensures
        decoded(a + "&amp;"@ + b) == a + "&"@ + b,
{
    lemma_entities();
    lemma_this_entity(a, "&amp;"@, b, "&"@);
    lemma_no_mark(b, "&amp;"@, "&"@);
    lemma_lone_ampersand(a, b, "&lt;"@, "<"@);
    lemma_lone_ampersand(a, b, "&gt;"@, ">"@);
    lemma_lone_ampersand(a, b, "&quot;"@, "\""@);
    lemma_lone_ampersand(a, b, "&#39;"@, "'"@);
    lemma_lone_ampersand(a, b, "&#x27;"@, "'"@);
}

proof fn lemma_lone_ampersand(a: Seq<char>, b: Seq<char>, from: Seq<char>, to: Seq<char>)
    requires
        !a.contains('&'),
        !b.contains('&'),
        !b.contains(';'),
        from.len() > 1,
        from[0] == '&',
        from.last() == ';',
    ensures
        replace(a + "&"@ + b, from, to) == a + "&"@ + b,
{
    lemma_entities();
    let s = a + "&"@ + b;
    assert(!contains(s, from)) by {
        if contains(s, from) {
            let at = choose|at: int| #[trigger] found_at(s, from, at);
            lemma_begins_with(s, from, at);
            assert(s[at + 0] == from[0]);
            if at < a.len() {
                assert(a.contains(a[at]));
            } else if at > a.len() {
                assert(b.contains(b[at - a.len() - 1]));
            }
            let last = from.len() - 1;
            assert(s[at + last] == from[last]);
            assert(b[at + last - a.len() - 1] == ';');
            assert(b.contains(b[at + last - a.len() - 1]));
        }
    }
    law_nothing_to_replace(s, from, to);
}

/// Whether a link is written plainly: without entities to resolve, and without white space,
/// quotes or closing punctuation around it.
pub open spec fn is_plain(link: Seq<char>) -> bool {
    &&& link.len() > 0
    &&& decoded(link) == link
    &&& !in_class(CharClass::Space, link[0]) && !in_class(CharClass::Quote, link[0])
    &&& !in_class(CharClass::Space, link.last()) && !in_class(CharClass::Quote, link.last())
    &&& !in_class(CharClass::Closing, link.last())
}

/// A plain link is taken as it stands.
pub proof fn law_plain_link_stays(link: Seq<char>)
    requires
        is_plain(link),
    ensures
        normalized(link) == link,
{
}

/// A plain link is taken out of what surrounds it: white space or a quote before it, and one
/// of these or closing punctuation behind it.
pub proof fn law_link_is_unwrapped(link: Seq<char>, open: char, close: char)
    requires
        is_plain(link),
        decoded(seq![open] + link + seq![close]) == seq![open] + link + seq![close],
        in_class(CharClass::Space, open) || in_class(CharClass::Quote, open),
        in_class(CharClass::Space, close) || in_class(CharClass::Quote, close) || in_class(
            CharClass::Closing,
            close,
        ),
    ensures
        normalized(seq![open] + link + seq![close]) == link,
{
    let s = seq![open] + link + seq![close];
    let front = link + seq![close];
    let back = seq![open] + link;
    assert(s.skip(1) =~= front);
    assert(s.drop_last() =~= back);
    assert(front.drop_last() =~= link);
    assert(back.skip(1) =~= link);
    assert(front[0] == link[0]);
    assert(back.last() == link.last());
    lemma_peel(link, open, close, CharClass::Space);
    lemma_peel(link, open, close, CharClass::Quote);
    lemma_peel(link, open, close, CharClass::Closing);
}

/// What trimming one class leaves of a link between two characters.
proof fn lemma_peel(link: Seq<char>, open: char, close: char, class: CharClass)
    requires
        link.len() > 0,
        class != CharClass::Closing ==> !in_class(class, link[0]),
        !in_class(class, link.last()),
    ensures
        class != CharClass::Closing ==> {
            &&& trim_both(link, class) == link
            &&& trim_both(link + seq![close], class) == (if in_class(class, close) {
                link
            } else {
                link + seq![close]
            })
            &&& trim_both(seq![open] + link, class) == (if in_class(class, open) {
                link
            } else {
                seq![open] + link
            })
            &&& trim_both(seq![open] + link + seq![close], class) == (if in_class(class, open) {
                if in_class(class, close) {
                    link
                } else {
                    link + seq![close]
                }
            } else if in_class(class, close) {
                seq![open] + link
            } else {
                seq![open] + link + seq![close]
            })
        },
        trim_end(link, class) == link,
        trim_end(link + seq![close], class) == (if in_class(class, close) {
            link
        } else {
            link + seq![close]
        }),
{
    reveal_with_fuel(trim_start, 2);
    reveal_with_fuel(trim_end, 2);
    let s = seq![open] + link + seq![close];
    let front = link + seq![close];
    let back = seq![open] + link;
    assert(s.skip(1) =~= front);
    assert(s.drop_last() =~= back);
    assert(front.drop_last() =~= link);
    assert(back.skip(1) =~= link);
    assert(front[0] == link[0]);
    assert(back.last() == link.last());
    assert(s.last() == close);
    assert(front.last() == close);
}

/// A link is put in order in four steps: its entities are resolved, then white space around it
/// is taken off, then quotes, then closing punctuation behind it; each time all there is, and
/// nothing else.
pub proof fn law_link_is_put_in_order(s: Seq<char>) -> (bounds: ((int, int), (int, int), int))
    ensures
        ({
            let ((a, b), (c, d), e) = bounds;
            let text = decoded(s);
            &&& 0 <= a <= c <= e <= d <= b <= text.len()
            &&& normalized(s) == text.subrange(c, e)
            &&& forall|i: int| 0 <= i < a ==> in_class(CharClass::Space, #[trigger] text[i])
            &&& forall|i: int| b <= i < text.len() ==> in_class(
                CharClass::Space,
                #[trigger] text[i],
            )
            &&& a < b ==> !in_class(CharClass::Space, text[a]) && !in_class(
                CharClass::Space,
                text[b - 1],
            )
            &&& forall|i: int| a <= i < c ==> in_class(CharClass::Quote, #[trigger] text[i])
            &&& forall|i: int| d <= i < b ==> in_class(CharClass::Quote, #[trigger] text[i])
            &&& c < d ==> !in_class(CharClass::Quote, text[c]) && !in_class(
                CharClass::Quote,
                text[d - 1],
            )
            &&& forall|i: int| e <= i < d ==> in_class(CharClass::Closing, #[trigger] text[i])
            &&& c < e ==> !in_class(CharClass::Closing, text[e - 1])
        }),
{
    let text = decoded(s);
    let (a, b) = law_trimmed(text, CharClass::Space);
    let bare = text.subrange(a, b);
    let (p, q) = law_trimmed(bare, CharClass::Quote);
    let inner = bare.subrange(p, q);
    let r = lemma_trim_end_bound(inner, CharClass::Closing);
    assert(inner.take(r) =~= text.subrange(a + p, a + p + r));
    assert forall|i: int| a <= i < a + p implies in_class(CharClass::Quote, #[trigger] text[i]) by {
        assert(bare[i - a] == text[i]);
    }
    assert forall|i: int| a + q <= i < b implies in_class(CharClass::Quote, #[trigger] text[i]) by {
        assert(bare[i - a] == text[i]);
    }
    assert forall|i: int| a + p + r <= i < a + q implies in_class(
        CharClass::Closing,
        #[trigger] text[i],
    ) by {
        assert(inner[i - a - p] == text[i]);
    }
    if p < q {
        assert(bare[p] == text[a + p]);
        assert(bare[q - 1] == text[a + q - 1]);
    }
    if r > 0 {
        assert(inner[r - 1] == text[a + p + r - 1]);
    }
    ((a, b), (a + p, a + q), a + p + r)
}

/// A web address stands for itself once it is in order, and so does a magnet link, which is
/// put in order once more. Any other link stands for what becomes of it in its document, where
/// that is an address, and an empty one for nothing.
pub proof fn law_link_is_resolved(raw: Seq<char>, base: Option<Seq<char>>)
    ensures
        ({
            let link = normalized(raw);
            &&& link.len() == 0 ==> resolved(raw, base).len() == 0
            &&& "http://"@.is_prefix_of(link) || "https://"@.is_prefix_of(link) ==> resolved(
                raw,
                base,
            ) == link
            &&& "magnet:"@.is_prefix_of(link) ==> resolved(raw, base) == normalized(link)
            &&& link.len() > 0 && !("magnet:"@.is_prefix_of(link) || "http://"@.is_prefix_of(link)
                || "https://"@.is_prefix_of(link)) ==> resolved(raw, base) == (match base {
                Some(b) => match url_joined(b, link) {
                    Some(url) => url,
                    None => link,
                },
                None => link,
            })
        }),
        is_plain(raw) && "magnet:"@.is_prefix_of(raw) ==> resolved(raw, base) == raw,
{
    reveal_strlit("magnet:");
    reveal_strlit("http://");
    reveal_strlit("https://");
    let link = normalized(raw);
    if "magnet:"@.is_prefix_of(link) {
        assert(link[0] == "magnet:"@[0]);
        if "http://"@.is_prefix_of(link) {
            assert(link[0] == "http://"@[0]);
        }
        if "https://"@.is_prefix_of(link) {
            assert(link[0] == "https://"@[0]);
        }
    }
    if is_plain(raw) {
        law_plain_link_stays(raw);
    }
}

/// A text without tags and entities is cleaned of surplus white space alone.
pub proof fn law_plain_text_is_cleaned(s: Seq<char>)
    requires
        !s.contains('&'),
        !s.contains('<'),
    ensures
        cleaned(s) == squeeze(trim(s), false),
{
    lemma_no_tags(s);
    lemma_trim(s);
    law_plain_text_stays(trim(s));
}

proof fn lemma_no_tags(s: Seq<char>)
    requires
        !s.contains('<'),
    ensures
        without_tags(s) == s,
    decreases s.len(),
{
    if s.len() > 0 {
        let rest = s.skip(1);
        assert(s.contains(s[0]));
        assert(!rest.contains('<')) by {
            if rest.contains('<') {
                let k = choose|k: int| 0 <= k < rest.len() && rest[k] == '<';
                assert(s[k + 1] == '<');
            }
        }
        lemma_no_tags(rest);
        assert(seq![s[0]] + rest =~= s);
    }
}

/// Whether an address speaks of a torrent file.
pub open spec fn names_torrent(run: Seq<char>) -> bool {
    contains(ascii_lower(resolved(run, None)), ".torrent"@)
}

/// The first of some addresses that speaks of a torrent file is taken; where none does,
/// nothing is.
pub proof fn law_first_torrent_is_taken(runs: Seq<Seq<char>>)
    ensures
        forall|i: int|
            0 <= i < runs.len() && names_torrent(#[trigger] runs[i]) && (forall|k: int|
                0 <= k < i ==> !names_torrent(#[trigger] runs[k])) ==> first_torrent(runs) == Some(
                resolved(runs[i], None),
            ),
        (forall|i: int| 0 <= i < runs.len() ==> !names_torrent(#[trigger] runs[i]))
            ==> first_torrent(runs) is None,
    decreases runs.len(),
{
    if runs.len() > 0 {
        let rest = runs.skip(1);
        law_first_torrent_is_taken(rest);
        assert forall|i: int|
            0 <= i < runs.len() && names_torrent(#[trigger] runs[i]) && (forall|k: int|
                0 <= k < i ==> !names_torrent(#[trigger] runs[k])) implies first_torrent(runs)
            == Some(resolved(runs[i], None)) by {
            if i > 0 {
                assert(!names_torrent(runs[0]));
                assert(rest[i - 1] == runs[i]);
                assert forall|k: int| 0 <= k < i - 1 implies !names_torrent(#[trigger] rest[k]) by {
                    assert(rest[k] == runs[k + 1]);
                }
            }
        }
        if forall|i: int| 0 <= i < runs.len() ==> !names_torrent(#[trigger] runs[i]) {
            assert(!names_torrent(runs[0]));
            assert forall|i: int| 0 <= i < rest.len() implies !names_torrent(#[trigger] rest[i]) by {
                assert(rest[i] == runs[i + 1]);
            }
        }
    }
}

/// The magnet link of a text is the first that stands in it once entities are resolved, in
/// its plain form; a text without one gives none.
pub proof fn law_first_magnet_is_taken(text: Seq<char>)
    ensures
        magnet_in(text) is Some <==> link_runs(MAGNET_PATTERN@, decoded(text)).len() > 0,
        magnet_in(text) matches Some(url) ==> url == normalized(
            link_runs(MAGNET_PATTERN@, decoded(text))[0],
        ),
{
}

/// A text of a feed without an address, or without links that begin with a slash, only has
/// its entities resolved.
pub proof fn law_text_without_local_links(text: Seq<char>, base: Option<Seq<char>>)
    requires
        base is None || origin_in(base.unwrap()) is None || (!contains(decoded(text), "href=\"/"@)
            && !contains(decoded(text), "src=\"/"@)),
    ensures
        blob_resolved(text, base) == decoded(text),
{
    reveal_strlit("href=\"/");
    reveal_strlit("src=\"/");
    if base is Some && origin_in(base.unwrap()) is Some {
        let o = origin_in(base.unwrap()).unwrap();
        law_nothing_to_replace(decoded(text), "href=\"/"@, "href=\""@ + o + "/"@);
        law_nothing_to_replace(decoded(text), "src=\"/"@, "src=\""@ + o + "/"@);
    }
}

/// A link of a text that begins with a slash is given the origin of the feed; what stands
/// around it stays.
pub proof fn law_local_link_is_completed(
    text: Seq<char>,
    base: Seq<char>,
    origin: Seq<char>,
    a: Seq<char>,
    b: Seq<char>,
)
    requires
        origin_in(base) == Some(origin),
        decoded(text) == a + "href=\"/"@ + b,
        !contains(b, "href=\"/"@),
        forall|k: int|
            0 <= k < a.len() ==> !#[trigger] found_at(a + "href=\"/"@ + b, "href=\"/"@, k),
        !contains(a + ("href=\""@ + origin + "/"@) + b, "src=\"/"@),
    ensures
        blob_resolved(text, Some(base)) == a + ("href=\""@ + origin + "/"@) + b,
{
    reveal_strlit("href=\"/");
    reveal_strlit("src=\"/");
    let mark = "href=\"/"@;
    let to = "href=\""@ + origin + "/"@;
    let s = a + mark + b;
    let at = a.len() as int;
    assert(s.subrange(at, at + mark.len()) =~= mark);
    law_first_is_replaced(s, mark, to, at);
    assert(s.take(at) =~= a);
    assert(s.skip(at + mark.len()) =~= b);
    law_nothing_to_replace(b, mark, to);
    law_nothing_to_replace(a + to + b, "src=\"/"@, "src=\""@ + origin + "/"@);
}

/// An image or the like of a text whose address begins with a slash is given the origin of
/// the feed; what stands around it stays.
pub proof fn law_local_source_is_completed(
    text: Seq<char>,
    base: Seq<char>,
    origin: Seq<char>,
    a: Seq<char>,
    b: Seq<char>,
)
    requires
        origin_in(base) == Some(origin),
        decoded(text) == a + "src=\"/"@ + b,
        !contains(a + "src=\"/"@ + b, "href=\"/"@),
        !contains(b, "src=\"/"@),
        forall|k: int| 0 <= k < a.len() ==> !#[trigger] found_at(a + "src=\"/"@ + b, "src=\"/"@, k),
    ensures
        blob_resolved(text, Some(base)) == a + ("src=\""@ + origin + "/"@) + b,
{
    reveal_strlit("href=\"/");
    reveal_strlit("src=\"/");
    let mark = "src=\"/"@;
    let to = "src=\""@ + origin + "/"@;
    let s = a + mark + b;
    let at = a.len() as int;
    law_nothing_to_replace(s, "href=\"/"@, "href=\""@ + origin + "/"@);
    assert(s.subrange(at, at + mark.len()) =~= mark);
    law_first_is_replaced(s, mark, to, at);
    assert(s.take(at) =~= a);
    assert(s.skip(at + mark.len()) =~= b);
    law_nothing_to_replace(b, mark, to);
}

/// Tags are taken out of a text before its entities are resolved, so that what an entity
/// stands for is never taken for a tag.
pub proof fn law_tags_are_taken_out(s: Seq<char>)
    ensures
        cleaned(s) == squeeze(decoded(trim(without_tags(s))), false),
        !without_tags(s).contains('&') ==> cleaned(s) == squeeze(trim(without_tags(s)), false),
{
    if !without_tags(s).contains('&') {
        lemma_trim(without_tags(s));
        law_plain_text_stays(trim(without_tags(s)));
    }
}

/// All links of a text that begin with a slash are given the origin of the feed, those of
/// other documents first, then those of images and the like.
pub proof fn law_local_links_are_completed(
    text: Seq<char>,
    base: Seq<char>,
    origin: Seq<char>,
)
    requires
        origin_in(base) == Some(origin),
    ensures
        blob_resolved(text, Some(base)) == replace(
            replace(decoded(text), "href=\"/"@, "href=\""@ + origin + "/"@),
            "src=\"/"@,
            "src=\""@ + origin + "/"@,
        ),
{
}

} // verus!
