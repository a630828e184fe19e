//! What holds of all texts that are trimmed, split, joined, replaced and written.
use vstd::prelude::*;

use crate::order::text_before;
use crate::text::{
    ascii_lower, contains, decimal, found_at, in_class, is_white_space, join, lemma_position_of,
    position_of, replace, signed_decimal, split, squeeze, squeeze_word, trim, trim_both, trim_end,
    trim_start, trimmed_lines, CharClass,
};
use crate::textmap::{distinct_names, value_at, with_value, without_value};

verus! {

/// White space is what Unicode calls so: six characters of ASCII, nineteen others, and nothing
/// that is seen.
pub proof fn law_white_space(c: char)
    ensures
        is_white_space(c) <==> {
            ||| c == ' ' || c == '\t' || c == '\n' || c == '\u{b}' || c == '\u{c}' || c == '\r'
            ||| c == '\u{85}' || c == '\u{a0}' || c == '\u{1680}'
            ||| '\u{2000}' <= c && c <= '\u{200a}'
            ||| c == '\u{2028}' || c == '\u{2029}' || c == '\u{202f}' || c == '\u{205f}'
            ||| c == '\u{3000}'
        },
        '!' <= c && c <= '~' ==> !is_white_space(c),
{
}

/// What is taken off the ends of links, paths and numbers.
pub proof fn law_classes(c: char)
    ensures
        in_class(CharClass::Space, c) <==> is_white_space(c),
        in_class(CharClass::Quote, c) <==> seq!['"', '\'', '<', '>'].contains(c),
        in_class(CharClass::Closing, c) <==> seq!['.', ',', ';', ')', ']'].contains(c),
        in_class(CharClass::Slash, c) <==> c == '/',
        in_class(CharClass::Zero, c) <==> c == '0',
{
    let quotes = seq!['"', '\'', '<', '>'];
    let closing = seq!['.', ',', ';', ')', ']'];
    assert(quotes[0] == '"' && quotes[1] == '\'' && quotes[2] == '<' && quotes[3] == '>');
    assert(closing[0] == '.' && closing[1] == ',' && closing[2] == ';' && closing[3] == ')'
        && closing[4] == ']');
}

/// A text holds every part of it, and only such.
pub proof fn law_contains(a: Seq<char>, part: Seq<char>, b: Seq<char>, s: Seq<char>)
    ensures
        contains(a + part + b, part),
        contains(s, part) ==> exists|at: int|
            0 <= at && at + part.len() <= s.len() && #[trigger] s.subrange(at, at + part.len())
                == part,
{
    let at = a.len() as int;
    assert((a + part + b).subrange(at, at + part.len()) =~= part);
    assert(found_at(a + part + b, part, at));
    if contains(s, part) {
        let at = choose|at: int| #[trigger] found_at(s, part, at);
        assert(s.subrange(at, at + part.len()) == part);
    }
}

proof fn lemma_trim_start_bound(s: Seq<char>, class: CharClass) -> (from: int)
    ensures
        0 <= from <= s.len(),
        trim_start(s, class) == s.skip(from),
        forall|i: int| 0 <= i < from ==> in_class(class, #[trigger] s[i]),
        from < s.len() ==> !in_class(class, s[from]),
    decreases s.len(),
{
    if s.len() > 0 && in_class(class, s[0]) {
        let rest = s.skip(1);
        let from = lemma_trim_start_bound(rest, class);
        assert(rest.skip(from) =~= s.skip(from + 1));
        assert forall|i: int| 0 <= i < from + 1 implies in_class(class, #[trigger] s[i]) by {
            if i > 0 {
                assert(rest[i - 1] == s[i]);
            }
        }
        from + 1
    } else {
        assert(s.skip(0) =~= s);
        0
    }
}

/// Where a text ends once the characters of a class are taken off its end.
pub proof fn lemma_trim_end_bound(s: Seq<char>, class: CharClass) -> (to: int)
    ensures
        0 <= to <= s.len(),
        trim_end(s, class) == s.take(to),
        forall|i: int| to <= i < s.len() ==> in_class(class, #[trigger] s[i]),
        to > 0 ==> !in_class(class, s[to - 1]),
    decreases s.len(),
{
    if s.len() > 0 && in_class(class, s.last()) {
        let front = s.drop_last();
        let to = lemma_trim_end_bound(front, class);
        assert(front.take(to) =~= s.take(to));
        assert forall|i: int| to <= i < s.len() implies in_class(class, #[trigger] s[i]) by {
            if i < front.len() {
                assert(front[i] == s[i]);
            }
        }
        to
    } else {
        assert(s.take(s.len() as int) =~= s);
        s.len() as int
    }
}

/// Trimming takes characters of the class from both ends, all of them, and nothing else.
pub proof fn law_trimmed(s: Seq<char>, class: CharClass) -> (bounds: (int, int))
    ensures
        0 <= bounds.0 <= bounds.1 <= s.len(),
        trim_both(s, class) == s.subrange(bounds.0, bounds.1),
        forall|i: int| 0 <= i < bounds.0 ==> in_class(class, #[trigger] s[i]),
        forall|i: int| bounds.1 <= i < s.len() ==> in_class(class, #[trigger] s[i]),
        bounds.0 < bounds.1 ==> !in_class(class, s[bounds.0]) && !in_class(class, s[bounds.1 - 1]),
{
    let from = lemma_trim_start_bound(s, class);
    let rest = s.skip(from);
    let to = lemma_trim_end_bound(rest, class);
    assert(rest.take(to) =~= s.subrange(from, from + to));
    assert forall|i: int| from + to <= i < s.len() implies in_class(class, #[trigger] s[i]) by {
        assert(rest[i - from] == s[i]);
    }
    if to > 0 {
        assert(rest[to - 1] == s[from + to - 1]);
    }
    (from, from + to)
}

/// A text without white space at its ends is what it is when trimmed.
pub proof fn law_trim_of_trimmed(s: Seq<char>)
    requires
        s.len() > 0 ==> !is_white_space(s[0]) && !is_white_space(s.last()),
    ensures
        trim(s) == s,
{
}

/// Splitting at a separator splits what stands before it and what stands behind it.
pub proof fn law_split_at(a: Seq<char>, b: Seq<char>, sep: char)
    ensures
        split(a + seq![sep] + b, sep) == split(a, sep) + split(b, sep),
        !a.contains(sep) ==> split(a, sep) == seq![a],
    decreases a.len(),
{
    let s = a + seq![sep] + b;
    let at = position_of(a, sep);
    let found = position_of(s, sep);
    lemma_position_of(a, sep);
    lemma_position_of(s, sep);
    assert(s[a.len() as int] == sep);
    if at >= a.len() {
        assert forall|k: int| 0 <= k < a.len() implies s[k] != sep by {
            assert(s[k] == a[k]);
        }
        assert(found == a.len());
        assert(s.take(found) =~= a);
        assert(s.skip(found + 1) =~= b);
        assert(split(s, sep) =~= split(a, sep) + split(b, sep));
    } else {
        assert(a.contains(a[at]));
        assert forall|k: int| 0 <= k < at implies s[k] != sep by {
            assert(s[k] == a[k]);
        }
        assert(s[at] == a[at]);
        assert(found == at);
        assert(s.take(at) =~= a.take(at));
        assert(s.skip(at + 1) =~= a.skip(at + 1) + seq![sep] + b);
        law_split_at(a.skip(at + 1), b, sep);
        assert(split(s, sep) =~= split(a, sep) + split(b, sep));
    }
}

/// The lines of a text are those before the end of a line and those behind it; a single line
/// is taken trimmed, and left out where nothing is left of it.
pub proof fn law_lines(a: Seq<char>, b: Seq<char>)
    ensures
        trimmed_lines(a + seq!['\n'] + b) == trimmed_lines(a) + trimmed_lines(b),
        !a.contains('\n') ==> trimmed_lines(a) == (if trim(a).len() > 0 {
            seq![trim(a)]
        } else {
            Seq::empty()
        }),
{
    let f = |t: Seq<char>| trim(t);
    let keep = |t: Seq<char>| t.len() > 0;
    law_split_at(a, b, '\n');
    let x = split(a, '\n');
    let y = split(b, '\n');
    assert((x + y).map_values(f) =~= x.map_values(f) + y.map_values(f));
    Seq::filter_distributes_over_add(x.map_values(f), y.map_values(f), keep);
    if !a.contains('\n') {
        reveal(Seq::filter);
        let line = x.map_values(f);
        assert(line =~= seq![trim(a)]);
        assert(line.drop_last() =~= Seq::empty());
        assert(line.drop_last().filter(keep) =~= Seq::empty());
        assert(line.filter(keep) =~= trimmed_lines(a));
    }
}

/// Joining texts puts the separator between them, and nothing before the first or behind the
/// last.
pub proof fn law_join(items: Seq<Seq<char>>, more: Seq<char>, sep: Seq<char>)
    ensures
        join(Seq::empty(), sep).len() == 0,
        join(seq![more], sep) == more,
        items.len() > 0 ==> join(items.push(more), sep) == join(items, sep) + sep + more,
{
    reveal_with_fuel(join, 2);
    assert(items.push(more).drop_last() =~= items);
}

proof fn lemma_prefix_is_found(s: Seq<char>, part: Seq<char>)
    ensures
        part.is_prefix_of(s) <==> found_at(s, part, 0),
{
    if part.is_prefix_of(s) {
        assert(s.subrange(0, part.len() as int) =~= part);
    }
    if found_at(s, part, 0) {
        assert(s.subrange(0, part.len() as int) =~= s.take(part.len() as int));
    }
}

proof fn lemma_found_in_rest(s: Seq<char>, part: Seq<char>, at: int)
    requires
        s.len() > 0,
        at >= 0,
    ensures
        found_at(s.skip(1), part, at) <==> found_at(s, part, at + 1),
{
    if at + part.len() < s.len() {
        assert(s.skip(1).subrange(at, at + part.len()) =~= s.subrange(at + 1, at + 1 + part.len()));
    }
}

/// A text without an occurrence of what is to be replaced stays as it is.
pub proof fn law_nothing_to_replace(s: Seq<char>, from: Seq<char>, to: Seq<char>)
    requires
        from.len() > 0,
        !contains(s, from),
    ensures
        replace(s, from, to) == s,
    decreases s.len(),
{
    if s.len() > 0 {
        let rest = s.skip(1);
        lemma_prefix_is_found(s, from);
        assert(!found_at(s, from, 0));
        assert(!contains(rest, from)) by {
            if contains(rest, from) {
                let at = choose|at: int| #[trigger] found_at(rest, from, at);
                lemma_found_in_rest(s, from, at);
                assert(found_at(s, from, at + 1));
            }
        }
        law_nothing_to_replace(rest, from, to);
        assert(seq![s[0]] + rest =~= s);
    }
}

/// Replacing replaces the first occurrence, keeps what stands before it, and goes on behind
/// it.
pub proof fn law_first_is_replaced(s: Seq<char>, from: Seq<char>, to: Seq<char>, at: int)
    requires
        from.len() > 0,
        found_at(s, from, at),
        forall|k: int| 0 <= k < at ==> !#[trigger] found_at(s, from, k),
    ensures
        replace(s, from, to) == s.take(at) + to + replace(s.skip(at + from.len()), from, to),
    decreases s.len(),
{
    lemma_prefix_is_found(s, from);
    let tail = replace(s.skip(at + from.len()), from, to);
    if at == 0 {
        assert(s.take(0) + to + tail =~= to + tail);
    } else {
        let rest = s.skip(1);
        assert(!found_at(s, from, 0));
        lemma_found_in_rest(s, from, at - 1);
        assert forall|k: int| 0 <= k < at - 1 implies !#[trigger] found_at(rest, from, k) by {
            lemma_found_in_rest(s, from, k);
            assert(!found_at(s, from, k + 1));
        }
        law_first_is_replaced(rest, from, to, at - 1);
        assert(rest.skip(at - 1 + from.len()) =~= s.skip(at + from.len()));
        assert(seq![s[0]] + (rest.take(at - 1) + to + tail) =~= s.take(at) + to + tail);
    }
}

proof fn lemma_gap(s: Seq<char>)
    ensures
        squeeze(s, true) == (if squeeze(s, false).len() > 0 {
            seq![' '] + squeeze(s, false)
        } else {
            Seq::empty()
        }),
    decreases s.len(),
{
    if s.len() > 0 {
        if is_white_space(s[0]) {
            lemma_gap(s.skip(1));
        } else {
            assert(seq![' '] + seq![s[0]] + squeeze_word(s.skip(1)) =~= seq![' '] + (Seq::empty()
                + seq![s[0]] + squeeze_word(s.skip(1))));
        }
    }
}

proof fn lemma_squeeze_word(a: Seq<char>, w: char, b: Seq<char>)
    requires
        is_white_space(w),
    ensures
        squeeze_word(a + seq![w] + b) == squeeze_word(a) + squeeze(b, true),
    decreases a.len(),
{
    let s = a + seq![w] + b;
    if a.len() == 0 {
        assert(s.skip(1) =~= b);
        assert(s[0] == w);
        assert(squeeze_word(a) + squeeze(b, true) =~= squeeze(b, true));
    } else {
        assert(s[0] == a[0]);
        assert(s.skip(1) =~= a.skip(1) + seq![w] + b);
        if is_white_space(a[0]) {
            lemma_squeeze_parts(a.skip(1), w, b, true);
            lemma_gap(a.skip(1));
            lemma_gap(b);
            if squeeze(a.skip(1), true).len() == 0 {
                assert(squeeze(a.skip(1), true) + squeeze(b, true) =~= squeeze(b, true));
            }
        } else {
            lemma_squeeze_word(a.skip(1), w, b);
            assert(seq![a[0]] + (squeeze_word(a.skip(1)) + squeeze(b, true)) =~= seq![a[0]]
                + squeeze_word(a.skip(1)) + squeeze(b, true));
        }
    }
}

proof fn lemma_squeeze_parts(a: Seq<char>, w: char, b: Seq<char>, gap: bool)
    requires
        is_white_space(w),
    ensures
        squeeze(a + seq![w] + b, gap) == (if squeeze(a, gap).len() == 0 {
            squeeze(b, gap)
        } else {
            squeeze(a, gap) + squeeze(b, true)
        }),
    decreases a.len(),
{
    let s = a + seq![w] + b;
    if a.len() == 0 {
        assert(s[0] == w);
        assert(s.skip(1) =~= b);
    } else {
        assert(s[0] == a[0]);
        assert(s.skip(1) =~= a.skip(1) + seq![w] + b);
        if is_white_space(a[0]) {
            lemma_squeeze_parts(a.skip(1), w, b, gap);
        } else {
            lemma_squeeze_word(a.skip(1), w, b);
            let blank = if gap {
                seq![' ']
            } else {
                Seq::<char>::empty()
            };
            assert(blank + seq![a[0]] + (squeeze_word(a.skip(1)) + squeeze(b, true)) =~= blank
                + seq![a[0]] + squeeze_word(a.skip(1)) + squeeze(b, true));
        }
    }
}

proof fn lemma_one_word(s: Seq<char>)
    requires
        forall|i: int| 0 <= i < s.len() ==> !is_white_space(#[trigger] s[i]),
    ensures
        squeeze_word(s) == s,
    decreases s.len(),
{
    if s.len() > 0 {
        let rest = s.skip(1);
        assert forall|i: int| 0 <= i < rest.len() implies !is_white_space(#[trigger] rest[i]) by {
            assert(rest[i] == s[i + 1]);
        }
        lemma_one_word(rest);
        assert(!is_white_space(s[0]));
        assert(seq![s[0]] + rest =~= s);
    } else {
        assert(squeeze_word(s) =~= s);
    }
}

/// Squeezing keeps a word as it is, and puts one blank between what stands before and what
/// stands behind white space, where there are words on both sides.
pub proof fn law_squeezed(a: Seq<char>, w: char, b: Seq<char>)
    requires
        is_white_space(w),
    ensures
        (forall|i: int| 0 <= i < a.len() ==> !is_white_space(#[trigger] a[i])) ==> squeeze(a, false)
            == a,
        squeeze(a + seq![w] + b, false) == (if squeeze(a, false).len() == 0 {
            squeeze(b, false)
        } else if squeeze(b, false).len() == 0 {
            squeeze(a, false)
        } else {
            squeeze(a, false) + seq![' '] + squeeze(b, false)
        }),
{
    lemma_squeeze_parts(a, w, b, false);
    lemma_gap(b);
    if squeeze(b, false).len() == 0 {
        assert(squeeze(a, false) + Seq::<char>::empty() =~= squeeze(a, false));
    } else {
        assert(squeeze(a, false) + (seq![' '] + squeeze(b, false)) =~= squeeze(a, false) + seq![' ']
            + squeeze(b, false));
    }
    if forall|i: int| 0 <= i < a.len() ==> !is_white_space(#[trigger] a[i]) {
        if a.len() > 0 {
            let rest = a.skip(1);
            assert forall|i: int| 0 <= i < rest.len() implies !is_white_space(
                #[trigger] rest[i],
            ) by {
                assert(rest[i] == a[i + 1]);
            }
            lemma_one_word(rest);
            assert(!is_white_space(a[0]));
            assert(Seq::<char>::empty() + seq![a[0]] + rest =~= a);
        } else {
            assert(squeeze(a, false) =~= a);
        }
    }
}

/// Lower case changes capital letters of ASCII, to the small letter 32 places on, and nothing
/// else.
pub proof fn law_ascii_lower(s: Seq<char>, i: int)
    requires
        0 <= i < s.len(),
    ensures
        ascii_lower(s).len() == s.len(),
        'A' <= s[i] && s[i] <= 'Z' ==> ascii_lower(s)[i] as u32 == s[i] as u32 + 32,
        !('A' <= s[i] && s[i] <= 'Z') ==> ascii_lower(s)[i] == s[i],
{
}

/// The number that decimal digits stand for.
pub open spec fn digits_value(digits: Seq<char>) -> int
    decreases digits.len(),
{
    if digits.len() == 0 {
        0
    } else {
        10 * digits_value(digits.drop_last()) + (digits.last() as int - '0' as int)
    }
}

/// A number is written in digits that stand for it, without a 0 before them.
pub proof fn law_decimal(n: nat)
    ensures
        digits_value(decimal(n)) == n,
        decimal(n).len() > 0,
        forall|i: int| 0 <= i < decimal(n).len() ==> '0' <= #[trigger] decimal(n)[i] && decimal(
            n,
        )[i] <= '9',
        n > 0 ==> decimal(n)[0] != '0',
    decreases n,
{
    let digit = (n % 10 + 48) as char;
    reveal_with_fuel(digits_value, 2);
    if n < 10 {
        assert(decimal(n) =~= seq![digit]);
        assert(decimal(n).drop_last() =~= Seq::empty());
    } else {
        law_decimal(n / 10);
        assert(decimal(n).drop_last() =~= decimal(n / 10));
        assert(decimal(n).last() == digit);
        assert forall|i: int| 0 <= i < decimal(n).len() implies '0' <= #[trigger] decimal(n)[i]
            && decimal(n)[i] <= '9' by {
            if i < decimal(n / 10).len() {
                assert(decimal(n)[i] == decimal(n / 10)[i]);
            }
        }
        assert(decimal(n)[0] == decimal(n / 10)[0]);
    }
}

/// A number below 0 is written with a minus sign, and no other is.
pub proof fn law_signed_decimal(n: int)
    ensures
        n < 0 ==> signed_decimal(n) == seq!['-'] + decimal((-n) as nat),
        n >= 0 ==> signed_decimal(n) == decimal(n as nat) && signed_decimal(n)[0] != '-',
{
    if n >= 0 {
        law_decimal(n as nat);
    }
}

/// Texts are ordered by the first character in which they differ, and a text stands before
/// one that goes on behind it.
pub proof fn law_text_order(
    same: Seq<char>,
    c: char,
    d: char,
    x: Seq<char>,
    y: Seq<char>,
)
    requires
        c < d,
    ensures
        text_before(same + seq![c] + x, same + seq![d] + y),
        !text_before(same + seq![d] + y, same + seq![c] + x),
        text_before(same, same + seq![c] + x),
        !text_before(same + seq![c] + x, same),
    decreases same.len(),
{
    let a = same + seq![c] + x;
    let b = same + seq![d] + y;
    if same.len() == 0 {
        assert(a[0] == c && b[0] == d);
    } else {
        let rest = same.skip(1);
        law_text_order(rest, c, d, x, y);
        assert(a[0] == same[0] && b[0] == same[0]);
        assert(a.skip(1) =~= rest + seq![c] + x);
        assert(b.skip(1) =~= rest + seq![d] + y);
    }
}

/// The names of a map, in its order.
pub open spec fn names_of<V>(map: Seq<(Seq<char>, V)>) -> Seq<Seq<char>> {
    map.map_values(|e: (Seq<char>, V)| e.0)
}

/// Putting a value under a name that is there leaves all names in their places; a new name
/// comes last.
pub proof fn law_names_keep_their_places<V>(
    map: Seq<(Seq<char>, V)>,
    name: Seq<char>,
    value: V,
)
    ensures
        names_of(map).contains(name) ==> names_of(with_value(map, name, value)) == names_of(map),
        !names_of(map).contains(name) ==> names_of(with_value(map, name, value)) == names_of(
            map,
        ).push(name),
    decreases map.len(),
{
    let r = with_value(map, name, value);
    if map.len() == 0 {
        assert(names_of(r) =~= names_of(map).push(name));
    } else if map[0].0 == name {
        assert(names_of(map)[0] == name);
        assert(names_of(r) =~= names_of(map));
    } else {
        let rest = map.skip(1);
        law_names_keep_their_places(rest, name, value);
        assert(names_of(r) =~= seq![map[0].0] + names_of(with_value(rest, name, value)));
        assert(names_of(map) =~= seq![map[0].0] + names_of(rest));
        if names_of(map).contains(name) {
            let k = choose|k: int| 0 <= k < names_of(map).len() && names_of(map)[k] == name;
            assert(names_of(rest)[k - 1] == name);
        } else {
            if names_of(rest).contains(name) {
                let k = choose|k: int| 0 <= k < names_of(rest).len() && names_of(rest)[k] == name;
                assert(names_of(map)[k + 1] == name);
            }
            assert(names_of(r) =~= names_of(map).push(name));
        }
    }
}

/// Taking a name out leaves the others in their order.
pub proof fn law_names_close_up<V>(map: Seq<(Seq<char>, V)>, k: int)
    requires
        distinct_names(map),
        0 <= k < map.len(),
    ensures
        without_value(map, map[k].0) == map.remove(k),
        value_at(map, map[k].0) == Some(map[k].1),
    decreases map.len(),
{
    if k == 0 {
        assert(map.remove(0) =~= map.skip(1));
    } else {
        let rest = map.skip(1);
        assert(map[0].0 != map[k].0);
        assert forall|i: int, j: int| 0 <= i < j < rest.len() implies (#[trigger] rest[i]).0 != (
        #[trigger] rest[j]).0 by {
            assert(map[i + 1].0 != map[j + 1].0);
        }
        assert(rest[k - 1] == map[k]);
        law_names_close_up(rest, k - 1);
        assert(seq![map[0]] + rest.remove(k - 1) =~= map.remove(k));
    }
}

/// Taking out a name that is not there changes nothing.
pub proof fn law_missing_name<V>(map: Seq<(Seq<char>, V)>, name: Seq<char>)
    requires
        value_at(map, name) is None,
    ensures
        without_value(map, name) == map,
    decreases map.len(),
{
    if map.len() > 0 {
        law_missing_name(map.skip(1), name);
        assert(seq![map[0]] + map.skip(1) =~= map);
    }
}

} // verus!
