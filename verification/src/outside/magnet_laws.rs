//! What is read in a magnet link.
use vstd::prelude::*;

use crate::outside::codec::digit_value;
use crate::outside::magnets::{
    is_malformed_hash, is_selection, magnet_view, pair_key, pair_value, parsed_magnet,
    query_decoded, query_pieces, query_start, without_selection,
};
use crate::outside::urls::undropped;
use crate::text::{contains, found_at, join, lemma_position_of, position_of, split};

verus! {

/// Whether a character of a query stands for itself.
pub open spec fn is_literal(c: char) -> bool {
    c != '+' && c != '%' && c != '=' && c > ' '
}

/// Whether all characters of a text stand for themselves.
pub open spec fn is_literal_text(s: Seq<char>) -> bool {
    forall|i: int| 0 <= i < s.len() ==> is_literal(#[trigger] s[i])
}

proof fn lemma_literal(s: Seq<char>)
    requires
        is_literal_text(s),
    ensures
        query_decoded(s) == s,
        undropped(s) == s,
    decreases s.len(),
{
    if s.len() > 0 {
        let rest = s.skip(1);
        assert forall|i: int| 0 <= i < rest.len() implies is_literal(#[trigger] rest[i]) by {
            assert(rest[i] == s[i + 1]);
        }
        lemma_literal(rest);
        assert(is_literal(s[0]));
        assert(seq![s[0]] + rest =~= s);
    } else {
        assert(query_decoded(s) =~= s);
    }
}

proof fn lemma_undropped_pair(key: Seq<char>, value: Seq<char>)
    requires
        is_literal_text(key),
        is_literal_text(value),
    ensures
        undropped(key + seq!['='] + value) == key + seq!['='] + value,
        position_of(key + seq!['='] + value, '=') == key.len(),
    decreases key.len(),
{
    let s = key + seq!['='] + value;
    if key.len() == 0 {
        lemma_literal(value);
        assert(s.skip(1) =~= value);
        assert(s[0] == '=');
        assert(seq!['='] + value =~= s);
    } else {
        let rest = key.skip(1);
        assert forall|i: int| 0 <= i < rest.len() implies is_literal(#[trigger] rest[i]) by {
            assert(rest[i] == key[i + 1]);
        }
        lemma_undropped_pair(rest, value);
        assert(is_literal(key[0]));
        assert(s[0] == key[0]);
        assert(s.skip(1) =~= rest + seq!['='] + value);
        assert(seq![s[0]] + s.skip(1) =~= s);
    }
}

/// A pair of a query whose characters stand for themselves is read as it stands: what is
/// before the sign is the key, what is behind it the value.
pub proof fn law_pair_is_read(key: Seq<char>, value: Seq<char>)
    requires
        is_literal_text(key),
        is_literal_text(value),
    ensures
        pair_key(key + seq!['='] + value) == key,
        pair_value(key + seq!['='] + value) == value,
        is_selection(key + seq!['='] + value) <==> key == "so"@,
{
    let s = key + seq!['='] + value;
    lemma_undropped_pair(key, value);
    lemma_literal(key);
    lemma_literal(value);
    assert(s.take(key.len() as int) =~= key);
    assert(s.skip(key.len() as int + 1) =~= value);
}

/// A plus sign stands for a blank, and a percent sign with two digits for the character with
/// that code.
pub proof fn law_query_is_decoded(rest: Seq<char>, high: char, low: char)
    requires
        0 <= digit_value(high) < 8,
        0 <= digit_value(low) < 16,
    ensures
        query_decoded(seq!['+'] + rest) == seq![' '] + query_decoded(rest),
        query_decoded(seq!['%', high, low] + rest) == seq![
            (16 * digit_value(high) + digit_value(low)) as char,
        ] + query_decoded(rest),
{
    let a = seq!['+'] + rest;
    let b = seq!['%', high, low] + rest;
    assert(a.skip(1) =~= rest);
    assert(b.skip(3) =~= rest);
}

/// Only a pair that names an info hash can be malformed, and of the first version only one
/// with padding.
pub proof fn law_malformed_hash(key: Seq<char>, value: Seq<char>)
    requires
        is_literal_text(key),
        is_literal_text(value),
    ensures
        key != "xt"@ ==> !is_malformed_hash(key + seq!['='] + value),
        "urn:btih:"@.is_prefix_of(value) ==> !is_malformed_hash(key + seq!['='] + value),
        !"urn:btih:"@.is_prefix_of(value) && !"urn:btmh:1220"@.is_prefix_of(value)
            ==> !is_malformed_hash(key + seq!['='] + value),
{
    law_pair_is_read(key, value);
    reveal_strlit("=");
    assert(!contains(value, "="@)) by {
        if contains(value, "="@) {
            let at = choose|at: int| #[trigger] found_at(value, "="@, at);
            assert(value.subrange(at, at + 1)[0] == value[at]);
            assert(is_literal(value[at]));
        }
    }
}

proof fn lemma_join_cons(first: Seq<char>, rest: Seq<Seq<char>>, sep: Seq<char>)
    requires
        rest.len() > 0,
    ensures
        join(seq![first] + rest, sep) == first + sep + join(rest, sep),
    decreases rest.len(),
{
    reveal_with_fuel(join, 2);
    let all = seq![first] + rest;
    assert(all.last() == rest.last());
    if rest.len() == 1 {
        assert(all.drop_last() =~= seq![first]);
        assert(rest[0] == rest.last());
    } else {
        lemma_join_cons(first, rest.drop_last(), sep);
        assert(all.drop_last() =~= seq![first] + rest.drop_last());
        assert(first + sep + join(rest.drop_last(), sep) + sep + rest.last() =~= first + sep + (join(
            rest.drop_last(),
            sep,
        ) + sep + rest.last()));
    }
}

/// Joining the pieces of a text gives the text back.
pub proof fn law_split_and_join(s: Seq<char>, sep: char)
    ensures
        join(split(s, sep), seq![sep]) == s,
        split(s, sep).len() > 0,
    decreases s.len(),
{
    reveal_with_fuel(join, 2);
    lemma_position_of(s, sep);
    let at = position_of(s, sep);
    if at < s.len() {
        let rest = s.skip(at + 1);
        law_split_and_join(rest, sep);
        lemma_join_cons(s.take(at), split(rest, sep), seq![sep]);
        assert(s.take(at) + seq![sep] + rest =~= s);
    } else {
        assert(split(s, sep) =~= seq![s]);
    }
}

/// An address without pairs that select files stays as it is.
pub proof fn law_nothing_selected(link: Seq<char>)
    requires
        forall|i: int| 0 <= i < query_pieces(link).len() ==> !is_selection(
            #[trigger] query_pieces(link)[i],
        ),
    ensures
        without_selection(link) == link,
{
    reveal_strlit("&");
    assert("&"@ =~= seq!['&']);
    lemma_position_of(link, '?');
    let start = query_start(link);
    let body = link.skip(start);
    let end = position_of(body, '#');
    lemma_position_of(body, '#');
    let kept = query_pieces(link).map_values(
        |p: Seq<char>|
            if is_selection(p) {
                Seq::<char>::empty()
            } else {
                p
            },
    );
    assert(kept =~= query_pieces(link));
    law_split_and_join(body.take(end), '&');
    assert(link.take(start) + body.take(end) + body.skip(end) =~= link);
}

/// A link that selects no files and names no impossible hash is read as it stands.
pub proof fn law_plain_magnet_is_read(link: Seq<char>)
    requires
        forall|i: int|
            0 <= i < query_pieces(link).len() ==> !is_selection(#[trigger] query_pieces(link)[i])
                && !is_malformed_hash(query_pieces(link)[i]),
    ensures
        magnet_view(link) == parsed_magnet(link),
{
    law_nothing_selected(link);
}

} // verus!
