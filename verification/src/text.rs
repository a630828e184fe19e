//! Text as sequences of characters: searching, trimming, splitting, replacing.
use vstd::prelude::*;

verus! {

/// A set of characters that can be trimmed from the ends of a text.
#[derive(Clone, Copy, PartialEq, Eq, Structural)]
pub enum CharClass {
    /// Unicode white space.
    Space,
    /// Quotes and angle brackets around a link.
    Quote,
    /// Punctuation that closes a sentence behind a link.
    Closing,
    /// The slash of a path.
    Slash,
    /// The digit zero.
    Zero,
}

/// The characters with the Unicode property White_Space.
pub open spec fn is_white_space(c: char) -> bool {
    let u = c as u32;
    ||| 0x9 <= u <= 0xd
    ||| u == 0x20
    ||| u == 0x85
    ||| u == 0xa0
    ||| u == 0x1680
    ||| 0x2000 <= u <= 0x200a
    ||| u == 0x2028
    ||| u == 0x2029
    ||| u == 0x202f
    ||| u == 0x205f
    ||| u == 0x3000
}

/// Whether `c` belongs to `class`.
pub open spec fn in_class(class: CharClass, c: char) -> bool {
    match class {
        CharClass::Space => is_white_space(c),
        CharClass::Quote => c == '"' || c == '\'' || c == '<' || c == '>',
        CharClass::Closing => c == '.' || c == ',' || c == ';' || c == ')' || c == ']',
        CharClass::Slash => c == '/',
        CharClass::Zero => c == '0',
    }
}

/// `s` without the leading characters of `class`.
pub open spec fn trim_start(s: Seq<char>, class: CharClass) -> Seq<char>
    decreases s.len(),
{
    if s.len() > 0 && in_class(class, s[0]) {
        trim_start(s.skip(1), class)
    } else {
        s
    }
}

/// `s` without the trailing characters of `class`.
pub open spec fn trim_end(s: Seq<char>, class: CharClass) -> Seq<char>
    decreases s.len(),
{
    if s.len() > 0 && in_class(class, s.last()) {
        trim_end(s.drop_last(), class)
    } else {
        s
    }
}

/// `s` without the characters of `class` at both ends.
pub open spec fn trim_both(s: Seq<char>, class: CharClass) -> Seq<char> {
    trim_end(trim_start(s, class), class)
}

/// `s` without white space at both ends.
pub open spec fn trim(s: Seq<char>) -> Seq<char> {
    trim_both(s, CharClass::Space)
}

/// Whether `part` stands in `s` at position `at`.
pub open spec fn found_at(s: Seq<char>, part: Seq<char>, at: int) -> bool {
    0 <= at && at + part.len() <= s.len() && s.subrange(at, at + part.len()) == part
}

/// Whether `part` stands anywhere in `s`.
pub open spec fn contains(s: Seq<char>, part: Seq<char>) -> bool {
    exists|at: int| #[trigger] found_at(s, part, at)
}

/// `s` with every occurrence of `from`, taken from the left and without overlap,
/// replaced by `to`. `from` is not empty.
pub open spec fn replace(s: Seq<char>, from: Seq<char>, to: Seq<char>) -> Seq<char>
    decreases s.len(),
{
    if s.len() == 0 || from.len() == 0 {
        s
    } else if from.is_prefix_of(s) {
        to + replace(s.skip(from.len() as int), from, to)
    } else {
        seq![s[0]] + replace(s.skip(1), from, to)
    }
}

/// The position of the first `c` in `s`, or the length of `s`.
pub open spec fn position_of(s: Seq<char>, c: char) -> int
    decreases s.len(),
{
    if s.len() == 0 || s[0] == c {
        0
    } else {
        1 + position_of(s.skip(1), c)
    }
}

/// The pieces of `s` between the occurrences of `sep`.
pub open spec fn split(s: Seq<char>, sep: char) -> Seq<Seq<char>>
    decreases s.len(),
    via split_decreases
{
    let at = position_of(s, sep);
    if at >= s.len() {
        seq![s]
    } else {
        seq![s.take(at)] + split(s.skip(at + 1), sep)
    }
}

#[via_fn]
proof fn split_decreases(s: Seq<char>, sep: char) {
    lemma_position_of(s, sep);
}

/// `items` without the empty texts.
pub open spec fn without_empty(items: Seq<Seq<char>>) -> Seq<Seq<char>> {
    items.filter(|t: Seq<char>| t.len() > 0)
}

/// The lines of `s`, each trimmed, without the empty ones.
pub open spec fn trimmed_lines(s: Seq<char>) -> Seq<Seq<char>> {
    without_empty(split(s, '\n').map_values(|t: Seq<char>| trim(t)))
}

/// The words of `s`, each run of white space replaced by one blank and none at the
/// ends. `gap` says whether a blank is due before the next word.
pub open spec fn squeeze(s: Seq<char>, gap: bool) -> Seq<char>
    decreases s.len(),
{
    if s.len() == 0 {
        Seq::empty()
    } else if is_white_space(s[0]) {
        squeeze(s.skip(1), gap)
    } else {
        let blank = if gap { seq![' '] } else { Seq::<char>::empty() };
        blank + seq![s[0]] + squeeze_word(s.skip(1))
    }
}

/// The rest of a word and the words behind it.
pub open spec fn squeeze_word(s: Seq<char>) -> Seq<char>
    decreases s.len(),
{
    if s.len() == 0 {
        Seq::empty()
    } else if is_white_space(s[0]) {
        squeeze(s.skip(1), true)
    } else {
        seq![s[0]] + squeeze_word(s.skip(1))
    }
}

/// The lower case of an ASCII letter; every other character as it is.
pub open spec fn lower_char(c: char) -> char {
    if 'A' <= c && c <= 'Z' {
        (c as u32 + 32) as char
    } else {
        c
    }
}

/// `s` with its ASCII letters in lower case.
pub open spec fn ascii_lower(s: Seq<char>) -> Seq<char> {
    s.map_values(|c: char| lower_char(c))
}

/// `items` joined by `sep`.
pub open spec fn join(items: Seq<Seq<char>>, sep: Seq<char>) -> Seq<char>
    decreases items.len(),
{
    if items.len() == 0 {
        Seq::empty()
    } else if items.len() == 1 {
        items[0]
    } else {
        join(items.drop_last(), sep) + sep + items.last()
    }
}

/// The texts of a sequence of strings.
pub open spec fn views(items: Seq<String>) -> Seq<Seq<char>> {
    items.map_values(|t: String| t@)
}

/// The text of an optional string.
pub open spec fn view_opt(s: Option<String>) -> Option<Seq<char>> {
    match s {
        Some(t) => Some(t@),
        None => None,
    }
}

/// The first occurrence of a character: it stands there, and not before.
pub proof fn lemma_position_of(s: Seq<char>, c: char)
    ensures
        0 <= position_of(s, c) <= s.len(),
        position_of(s, c) < s.len() ==> s[position_of(s, c)] == c,
        forall|i: int| 0 <= i < position_of(s, c) ==> s[i] != c,
    decreases s.len(),
{
    if s.len() > 0 && s[0] != c {
        lemma_position_of(s.skip(1), c);
        assert forall|i: int| 0 <= i < position_of(s, c) implies s[i] != c by {
            if i > 0 {
                assert(s.skip(1)[i - 1] == s[i]);
            }
        }
    }
}

/// No piece between separators holds one.
pub proof fn lemma_split_pieces(s: Seq<char>, sep: char)
    ensures
        forall|i: int|
            0 <= i < split(s, sep).len() ==> !(#[trigger] split(s, sep)[i]).contains(sep),
    decreases s.len(),
{
    lemma_position_of(s, sep);
    let at = position_of(s, sep);
    if at >= s.len() {
        assert(!s.contains(sep));
    } else {
        let rest = s.skip(at + 1);
        lemma_split_pieces(rest, sep);
        assert forall|i: int| 0 <= i < split(s, sep).len() implies !(#[trigger] split(
            s,
            sep,
        )[i]).contains(sep) by {
            if i == 0 {
                assert(split(s, sep)[0] == s.take(at));
                assert(!s.take(at).contains(sep)) by {
                    assert forall|k: int| 0 <= k < at implies s.take(at)[k] != sep by {
                        assert(s.take(at)[k] == s[k]);
                    }
                }
            } else {
                assert(split(s, sep)[i] == split(rest, sep)[i - 1]);
            }
        }
    }
}

/// What stands behind the last separator is the last piece.
proof fn lemma_split_last(a: Seq<char>, b: Seq<char>, sep: char)
    requires
        !b.contains(sep),
    ensures
        split(a + seq![sep] + b, sep) == split(a, sep).push(b),
    decreases a.len(),
{
    let s = a + seq![sep] + b;
    let at = position_of(a, sep);
    let found = position_of(s, sep);
    lemma_position_of(a, sep);
    lemma_position_of(s, sep);
    assert(s[a.len() as int] == sep);
    if at >= a.len() {
        assert forall|k: int| 0 <= k < a.len() implies s[k] != sep by {
            assert(s[k] == a[k]);
        }
        assert(found == a.len());
        assert(s.take(found) =~= a);
        assert(s.skip(found + 1) =~= b);
        lemma_position_of(b, sep);
        if position_of(b, sep) < b.len() {
            assert(b.contains(b[position_of(b, sep)]));
        }
        assert(split(b, sep) =~= seq![b]);
        assert(split(s, sep) =~= split(a, sep).push(b));
    } else {
        assert forall|k: int| 0 <= k < at implies s[k] != sep by {
            assert(s[k] == a[k]);
        }
        assert(s[at] == a[at]);
        assert(found == at);
        assert(s.take(at) =~= a.take(at));
        assert(s.skip(at + 1) =~= a.skip(at + 1) + seq![sep] + b);
        lemma_split_last(a.skip(at + 1), b, sep);
        assert(split(s, sep) =~= split(a, sep).push(b));
    }
}

/// Splitting what was joined gives the pieces back, where none of them holds the separator.
pub proof fn lemma_split_joined(items: Seq<Seq<char>>, sep: char)
    requires
        items.len() > 0,
        forall|i: int| 0 <= i < items.len() ==> !(#[trigger] items[i]).contains(sep),
    ensures
        split(join(items, seq![sep]), sep) == items,
    decreases items.len(),
{
    let front = items.drop_last();
    let last = items.last();
    assert(!items[items.len() - 1].contains(sep));
    if items.len() == 1 {
        lemma_position_of(last, sep);
        if position_of(last, sep) < last.len() {
            assert(last.contains(last[position_of(last, sep)]));
        }
        assert(items =~= seq![last]);
    } else {
        assert forall|i: int| 0 <= i < front.len() implies !(#[trigger] front[i]).contains(
            sep,
        ) by {
            assert(front[i] == items[i]);
        }
        lemma_split_joined(front, sep);
        lemma_split_last(join(front, seq![sep]), last, sep);
        assert(items =~= front.push(last));
    }
}

proof fn lemma_trim_start(s: Seq<char>, class: CharClass)
    ensures
        trim_start(s, class).len() > 0 ==> !in_class(class, trim_start(s, class)[0]),
        forall|c: char| #[trigger] trim_start(s, class).contains(c) ==> s.contains(c),
    decreases s.len(),
{
    if s.len() > 0 && in_class(class, s[0]) {
        let rest = s.skip(1);
        lemma_trim_start(rest, class);
        assert forall|c: char| #[trigger] trim_start(s, class).contains(c) implies s.contains(
            c,
        ) by {
            let k = choose|k: int| 0 <= k < rest.len() && rest[k] == c;
            assert(s[k + 1] == c);
        }
    }
}

proof fn lemma_trim_end(s: Seq<char>, class: CharClass)
    ensures
        trim_end(s, class).len() > 0 ==> !in_class(class, trim_end(s, class).last()),
        trim_end(s, class).len() > 0 ==> trim_end(s, class)[0] == s[0],
        trim_end(s, class).len() <= s.len(),
        forall|c: char| #[trigger] trim_end(s, class).contains(c) ==> s.contains(c),
    decreases s.len(),
{
    if s.len() > 0 && in_class(class, s.last()) {
        let front = s.drop_last();
        lemma_trim_end(front, class);
        assert forall|c: char| #[trigger] trim_end(s, class).contains(c) implies s.contains(c) by {
            let k = choose|k: int| 0 <= k < front.len() && front[k] == c;
            assert(s[k] == c);
        }
    }
}

/// Trimming invents no character, and what was trimmed stays as it is.
pub proof fn lemma_trim(s: Seq<char>)
    ensures
        trim(trim(s)) == trim(s),
        forall|c: char| #[trigger] trim(s).contains(c) ==> s.contains(c),
{
    let started = trim_start(s, CharClass::Space);
    lemma_trim_start(s, CharClass::Space);
    lemma_trim_end(started, CharClass::Space);
}

/// The characters of a string, one by one.
pub fn chars_of(s: &str) -> (r: Vec<char>)
    ensures
        r@ == s@,
{
    let mut r: Vec<char> = Vec::new();
    for c in it: s.chars()
        invariant
            it.seq() == s@,
            r@ == s@.take(it.index()),
    {
        proof {
            assert(s@.take(it.index() + 1) =~= s@.take(it.index()).push(c));
        }
        r.push(c);
    }
    proof {
        assert(s@.take(s@.len() as int) =~= s@);
    }
    r
}

/// Collects characters into a string with `String::from_iter`: the string holds the
/// characters of the slice, in their order.
#[verifier::external_body]
pub(crate) fn string_of(chars: &[char]) -> (r: String)
    ensures
        r@ == chars@,
{
    chars.iter().collect()
}

/// Whether `c` is white space.
pub fn white_space(c: char) -> (r: bool)
    ensures
        r == is_white_space(c),
{
    let u: u32 = c as u32;
    (0x9 <= u && u <= 0xd) || u == 0x20 || u == 0x85 || u == 0xa0 || u == 0x1680 || (0x2000 <= u
        && u <= 0x200a) || u == 0x2028 || u == 0x2029 || u == 0x202f || u == 0x205f || u == 0x3000
}

/// Whether `c` belongs to `class`.
pub fn belongs(class: CharClass, c: char) -> (r: bool)
    ensures
        r == in_class(class, c),
{
    match class {
        CharClass::Space => white_space(c),
        CharClass::Quote => c == '"' || c == '\'' || c == '<' || c == '>',
        CharClass::Closing => c == '.' || c == ',' || c == ';' || c == ')' || c == ']',
        CharClass::Slash => c == '/',
        CharClass::Zero => c == '0',
    }
}

/// The characters of `s` from `from` up to `to`.
pub fn slice_of(s: &[char], from: usize, to: usize) -> (r: Vec<char>)
    requires
        from <= to <= s@.len(),
    ensures
        r@ == s@.subrange(from as int, to as int),
{
    let mut r: Vec<char> = Vec::new();
    let mut i: usize = from;
    while i < to
        invariant
            from <= i <= to <= s@.len(),
            r@ == s@.subrange(from as int, i as int),
        decreases to - i,
    {
        r.push(s[i]);
        i = i + 1;
        proof {
            assert(s@.subrange(from as int, i as int) =~= s@.subrange(
                from as int,
                i - 1,
            ).push(s@[i - 1]));
        }
    }
    r
}

/// Appends the characters of `more` to `out`.
pub fn push_all(out: &mut Vec<char>, more: &[char])
    ensures
        final(out)@ == old(out)@ + more@,
{
    let mut i: usize = 0;
    while i < more.len()
        invariant
            i <= more@.len(),
            out@ == old(out)@ + more@.take(i as int),
        decreases more@.len() - i,
    {
        out.push(more[i]);
        i = i + 1;
        proof {
            assert(more@.take(i as int) =~= more@.take(i - 1).push(more@[i - 1]));
        }
    }
    proof {
        assert(more@.take(i as int) =~= more@);
    }
}

/// `s` without the leading characters of `class`.
pub fn trimmed_start(s: &[char], class: CharClass) -> (r: Vec<char>)
    ensures
        r@ == trim_start(s@, class),
{
    let mut i: usize = 0;
    proof {
        assert(s@.skip(0) =~= s@);
    }
    while i < s.len() && belongs(class, s[i])
        invariant
            i <= s@.len(),
            trim_start(s@, class) == trim_start(s@.skip(i as int), class),
        decreases s@.len() - i,
    {
        proof {
            assert(s@.skip(i as int).skip(1) =~= s@.skip(i + 1));
        }
        i = i + 1;
    }
    proof {
        assert(s@.skip(i as int) =~= s@.subrange(i as int, s@.len() as int));
    }
    slice_of(s, i, s.len())
}

/// `s` without the trailing characters of `class`.
pub fn trimmed_end(s: &[char], class: CharClass) -> (r: Vec<char>)
    ensures
        r@ == trim_end(s@, class),
{
    let mut n: usize = s.len();
    proof {
        assert(s@.take(n as int) =~= s@);
    }
    while n > 0 && belongs(class, s[n - 1])
        invariant
            n <= s@.len(),
            trim_end(s@, class) == trim_end(s@.take(n as int), class),
        decreases n,
    {
        proof {
            assert(s@.take(n as int).drop_last() =~= s@.take(n - 1));
        }
        n = n - 1;
    }
    proof {
        assert(s@.take(n as int) =~= s@.subrange(0, n as int));
    }
    slice_of(s, 0, n)
}

/// `s` without the characters of `class` at both ends.
pub fn trimmed_both(s: &[char], class: CharClass) -> (r: Vec<char>)
    ensures
        r@ == trim_both(s@, class),
{
    let front = trimmed_start(s, class);
    trimmed_end(&front, class)
}

/// Whether `part` stands in `s` at position `at`.
pub fn stands_at(s: &[char], part: &[char], at: usize) -> (r: bool)
    requires
        at <= s@.len(),
    ensures
        r == found_at(s@, part@, at as int),
        r == part@.is_prefix_of(s@.skip(at as int)),
{
    let n: usize = s.len();
    if n - at < part.len() {
        return false;
    }
    let mut i: usize = 0;
    while i < part.len()
        invariant
            i <= part@.len(),
            n == s@.len(),
            at + part@.len() <= n,
            forall|j: int| 0 <= j < i ==> s@[at + j] == part@[j],
        decreases part@.len() - i,
    {
        if s[at + i] != part[i] {
            proof {
                assert(s@.subrange(at as int, at + part@.len())[i as int] == s@[at + i]);
                assert(s@.skip(at as int)[i as int] == s@[at + i]);
            }
            return false;
        }
        i = i + 1;
    }
    proof {
        assert(s@.subrange(at as int, at + part@.len()) =~= part@);
        assert(s@.skip(at as int).take(part@.len() as int) =~= part@);
    }
    true
}

/// Whether `part` stands anywhere in `s`.
pub fn has_part(s: &[char], part: &[char]) -> (r: bool)
    ensures
        r == contains(s@, part@),
{
    let mut at: usize = 0;
    while at < s.len()
        invariant
            at <= s@.len(),
            forall|j: int| 0 <= j < at ==> !found_at(s@, part@, j),
        decreases s@.len() - at,
    {
        if stands_at(s, part, at) {
            return true;
        }
        at = at + 1;
    }
    stands_at(s, part, at)
}

/// Whether `s` and `t` are the same text.
pub fn same_chars(s: &[char], t: &[char]) -> (r: bool)
    ensures
        r == (s@ == t@),
{
    if s.len() != t.len() {
        return false;
    }
    proof {
        assert(s@.subrange(0, s@.len() as int) =~= s@);
    }
    stands_at(s, t, 0)
}

/// `s` with every occurrence of `from` replaced by `to`.
pub fn replaced(s: &[char], from: &[char], to: &[char]) -> (r: Vec<char>)
    requires
        from@.len() > 0,
    ensures
        r@ == replace(s@, from@, to@),
{
    let mut out: Vec<char> = Vec::new();
    let mut i: usize = 0;
    proof {
        assert(s@.skip(0) =~= s@);
        assert(Seq::<char>::empty() + replace(s@, from@, to@) =~= replace(s@, from@, to@));
    }
    while i < s.len()
        invariant
            i <= s@.len(),
            from@.len() > 0,
            replace(s@, from@, to@) == out@ + replace(s@.skip(i as int), from@, to@),
        decreases s@.len() - i,
    {
        let ghost rest = s@.skip(i as int);
        let ghost before = out@;
        if stands_at(s, from, i) {
            push_all(&mut out, to);
            proof {
                assert(rest.skip(from@.len() as int) =~= s@.skip(i + from@.len()));
                assert(before + (to@ + replace(rest.skip(from@.len() as int), from@, to@)) =~= (
                before + to@) + replace(rest.skip(from@.len() as int), from@, to@));
            }
            i = i + from.len();
        } else {
            out.push(s[i]);
            proof {
                assert(rest.skip(1) =~= s@.skip(i + 1));
                assert(before + (seq![rest[0]] + replace(rest.skip(1), from@, to@)) =~= before.push(
                    s@[i as int],
                ) + replace(rest.skip(1), from@, to@));
            }
            i = i + 1;
        }
    }
    proof {
        assert(s@.skip(i as int) =~= Seq::<char>::empty());
        assert(out@ + Seq::<char>::empty() =~= out@);
    }
    out
}

/// Whether `s` begins with `prefix`.
pub fn starts_with(s: &str, prefix: &str) -> (r: bool)
    ensures
        r == prefix@.is_prefix_of(s@),
{
    let chars = chars_of(s);
    let head = chars_of(prefix);
    proof {
        assert(s@.skip(0) =~= s@);
    }
    stands_at(&chars, &head, 0)
}

/// Whether `s` ends with `suffix`.
pub fn ends_with(s: &str, suffix: &str) -> (r: bool)
    ensures
        r == suffix@.is_suffix_of(s@),
{
    let chars = chars_of(s);
    let tail = chars_of(suffix);
    if chars.len() < tail.len() {
        return false;
    }
    stands_at(&chars, &tail, chars.len() - tail.len())
}

/// What stands in `s` behind `prefix`, if `s` begins with it.
pub fn strip_prefix(s: &str, prefix: &str) -> (r: Option<String>)
    ensures
        r is Some <==> prefix@.is_prefix_of(s@),
        r matches Some(t) ==> t@ == s@.skip(prefix@.len() as int),
{
    let chars = chars_of(s);
    let head = chars_of(prefix);
    proof {
        assert(s@.skip(0) =~= s@);
    }
    if !stands_at(&chars, &head, 0) {
        return None;
    }
    let rest = slice_of(&chars, head.len(), chars.len());
    proof {
        assert(rest@ =~= s@.skip(prefix@.len() as int));
    }
    Some(string_of(&rest))
}

/// Whether `part` stands anywhere in `s`.
pub fn has_text(s: &str, part: &str) -> (r: bool)
    ensures
        r == contains(s@, part@),
{
    has_part(&chars_of(s), &chars_of(part))
}

/// Whether `s` and `t` are the same text.
pub fn same_text(s: &str, t: &str) -> (r: bool)
    ensures
        r == (s@ == t@),
{
    same_chars(&chars_of(s), &chars_of(t))
}

/// `s` without white space at both ends.
pub fn trimmed(s: &str) -> (r: String)
    ensures
        r@ == trim(s@),
{
    string_of(&trimmed_both(&chars_of(s), CharClass::Space))
}

/// `a` followed by `b`.
pub fn concat(a: &str, b: &str) -> (r: String)
    ensures
        r@ == a@ + b@,
{
    let mut r = String::from_str(a);
    r.append(b);
    r
}

/// The words of `s`, each run of white space replaced by one blank.
pub fn squeezed(s: &[char]) -> (r: Vec<char>)
    ensures
        r@ == squeeze(s@, false),
{
    let mut out: Vec<char> = Vec::new();
    let mut gap: bool = false;
    let mut in_word: bool = false;
    let mut i: usize = 0;
    proof {
        assert(s@.skip(0) =~= s@);
        assert(Seq::<char>::empty() + squeeze(s@, false) =~= squeeze(s@, false));
    }
    while i < s.len()
        invariant
            i <= s@.len(),
            squeeze(s@, false) == out@ + (if in_word {
                squeeze_word(s@.skip(i as int))
            } else {
                squeeze(s@.skip(i as int), gap)
            }),
        decreases s@.len() - i,
    {
        let ghost rest = s@.skip(i as int);
        let ghost before = out@;
        let c: char = s[i];
        proof {
            assert(rest.skip(1) =~= s@.skip(i + 1));
        }
        if white_space(c) {
            if in_word {
                gap = true;
                in_word = false;
            }
        } else {
            if !in_word && gap {
                out.push(' ');
            }
            out.push(c);
            proof {
                if in_word {
                    assert(before + (seq![c] + squeeze_word(rest.skip(1))) =~= out@ + squeeze_word(
                        rest.skip(1),
                    ));
                } else if gap {
                    assert(before + (seq![' '] + seq![c] + squeeze_word(rest.skip(1))) =~= out@
                        + squeeze_word(rest.skip(1)));
                } else {
                    assert(before + (Seq::<char>::empty() + seq![c] + squeeze_word(rest.skip(1)))
                        =~= out@ + squeeze_word(rest.skip(1)));
                }
            }
            in_word = true;
        }
        i = i + 1;
    }
    proof {
        assert(s@.skip(i as int) =~= Seq::<char>::empty());
        assert(out@ + Seq::<char>::empty() =~= out@);
    }
    out
}

/// `s` with its ASCII letters in lower case.
pub fn lowered(s: &str) -> (r: String)
    ensures
        r@ == ascii_lower(s@),
{
    let chars = chars_of(s);
    let mut out: Vec<char> = Vec::new();
    let mut i: usize = 0;
    while i < chars.len()
        invariant
            i <= chars@.len(),
            chars@ == s@,
            out@ == ascii_lower(s@).take(i as int),
        decreases chars@.len() - i,
    {
        let c: char = chars[i];
        let low: char = if 'A' <= c && c <= 'Z' {
            lower_letter(c)
        } else {
            c
        };
        out.push(low);
        i = i + 1;
        proof {
            assert(ascii_lower(s@).take(i as int) =~= ascii_lower(s@).take(i - 1).push(low));
        }
    }
    proof {
        assert(ascii_lower(s@).take(i as int) =~= ascii_lower(s@));
    }
    string_of(&out)
}

/// The lower case of an ASCII capital.
fn lower_letter(c: char) -> (r: char)
    requires
        'A' <= c && c <= 'Z',
    ensures
        r == lower_char(c),
{
    let b: u8 = c as u8;
    (b + 32) as char
}

/// The lines of `s`, each trimmed, without the empty ones.
pub fn nonempty_lines(s: &str) -> (r: Vec<String>)
    ensures
        views(r@) == trimmed_lines(s@),
{
    let chars = chars_of(s);
    let mut out: Vec<String> = Vec::new();
    let mut start: usize = 0;
    let mut more: bool = true;
    proof {
        assert(s@.skip(0) =~= s@);
        assert(views(out@) + trimmed_lines(s@) =~= trimmed_lines(s@));
    }
    while more
        invariant
            chars@ == s@,
            start <= s@.len(),
            more ==> trimmed_lines(s@) == views(out@) + trimmed_lines(s@.skip(start as int)),
            !more ==> trimmed_lines(s@) == views(out@),
        decreases s@.len() - start, more as int,
    {
        let ghost rest = s@.skip(start as int);
        let mut end: usize = start;
        proof {
            assert(rest.skip(0) =~= rest);
        }
        while end < chars.len() && chars[end] != '\n'
            invariant
                start <= end <= chars@.len(),
                chars@ == s@,
                rest == s@.skip(start as int),
                position_of(rest, '\n') == (end - start) + position_of(
                    rest.skip(end - start),
                    '\n',
                ),
            decreases chars@.len() - end,
        {
            proof {
                assert(rest.skip(end - start).skip(1) =~= rest.skip(end + 1 - start));
            }
            end = end + 1;
        }
        let piece = slice_of(&chars, start, end);
        let line = trimmed_both(&piece, CharClass::Space);
        let ghost before = views(out@);
        proof {
            if end < chars@.len() {
                assert(rest.skip(end - start)[0] == '\n');
            } else {
                assert(rest.skip(end - start).len() == 0);
            }
            assert(position_of(rest, '\n') == end - start);
            assert(rest.take(end - start) =~= piece@);
            lemma_trimmed_lines_step(rest);
        }
        let last: bool = end >= chars.len();
        if line.len() > 0 {
            let text = string_of(&line);
            out.push(text);
            proof {
                assert(views(out@) =~= before.push(line@));
            }
        }
        proof {
            if end >= chars@.len() {
                assert(rest.take(end - start) =~= rest);
                if line@.len() > 0 {
                    assert(before + seq![line@] =~= before.push(line@));
                } else {
                    assert(before + Seq::<Seq<char>>::empty() =~= before);
                }
            } else {
                let tail = trimmed_lines(rest.skip(end - start + 1));
                assert(rest.skip(end - start + 1) =~= s@.skip(end + 1));
                if line@.len() > 0 {
                    assert(before + (seq![line@] + tail) =~= before.push(line@) + tail);
                } else {
                    assert(before + (Seq::<Seq<char>>::empty() + tail) =~= before + tail);
                }
            }
        }
        if last {
            more = false;
        } else {
            start = end + 1;
        }
    }
    out
}

/// One line at a time: the first line, then the lines behind it.
proof fn lemma_trimmed_lines_step(s: Seq<char>)
    ensures
        ({
            let at = position_of(s, '\n');
            let first = trim(s.take(at));
            let head = if first.len() > 0 { seq![first] } else { Seq::empty() };
            &&& 0 <= at <= s.len()
            &&& at >= s.len() ==> trimmed_lines(s) == head
            &&& at < s.len() ==> trimmed_lines(s) == head + trimmed_lines(s.skip(at + 1))
        }),
{
    lemma_position_of(s, '\n');
    let at = position_of(s, '\n');
    let keep = |t: Seq<char>| t.len() > 0;
    let cut = |t: Seq<char>| trim(t);
    let first = trim(s.take(at));
    let tail = if at >= s.len() {
        Seq::<Seq<char>>::empty()
    } else {
        split(s.skip(at + 1), '\n')
    };
    if at >= s.len() {
        assert(s.take(at) =~= s);
    }
    assert(split(s, '\n') =~= seq![s.take(at)] + tail);
    let lines = split(s, '\n').map_values(cut);
    assert(lines =~= seq![first] + tail.map_values(cut));
    lemma_filter_cons(first, tail.map_values(cut), keep);
    if at >= s.len() {
        assert(tail.map_values(cut) =~= Seq::empty());
        reveal(Seq::filter);
        assert(tail.map_values(cut).filter(keep) =~= Seq::empty());
        let head = if first.len() > 0 { seq![first] } else { Seq::<Seq<char>>::empty() };
        assert(head + Seq::<Seq<char>>::empty() =~= head);
    }
}

/// Filtering a sequence filters its first item and the rest.
pub proof fn lemma_filter_cons<T>(x: T, rest: Seq<T>, keep: spec_fn(T) -> bool)
    ensures
        (seq![x] + rest).filter(keep) == (if keep(x) {
            seq![x]
        } else {
            Seq::empty()
        }) + rest.filter(keep),
    decreases rest.len(),
{
    reveal(Seq::filter);
    let all = seq![x] + rest;
    if rest.len() == 0 {
        assert(all.drop_last() =~= Seq::<T>::empty());
        assert(all.drop_last().filter(keep) =~= Seq::<T>::empty());
        assert(rest.filter(keep) =~= Seq::<T>::empty());
        assert(all.last() == x);
        assert(all.filter(keep) =~= (if keep(x) {
            seq![x]
        } else {
            Seq::empty()
        }) + rest.filter(keep));
    } else {
        lemma_filter_cons(x, rest.drop_last(), keep);
        assert(all.drop_last() =~= seq![x] + rest.drop_last());
        assert(all.last() == rest.last());
        let head = if keep(x) { seq![x] } else { Seq::<T>::empty() };
        if keep(rest.last()) {
            assert((head + rest.drop_last().filter(keep)).push(rest.last()) =~= head
                + rest.drop_last().filter(keep).push(rest.last()));
        }
    }
}

/// `items` joined by `sep`.
pub fn joined(items: &Vec<String>, sep: &str) -> (r: String)
    ensures
        r@ == join(views(items@), sep@),
{
    let mut r = String::new();
    let mut i: usize = 0;
    while i < items.len()
        invariant
            i <= items@.len(),
            r@ == join(views(items@).take(i as int), sep@),
        decreases items@.len() - i,
    {
        let ghost all = views(items@);
        if i > 0 {
            r.append(sep);
        }
        r.append(items[i].as_str());
        proof {
            assert(all.take(i + 1).drop_last() =~= all.take(i as int));
            assert(all.take(i + 1).last() == items@[i as int]@);
            if i == 0 {
                assert(all.take(0) =~= Seq::empty());
                assert(Seq::<char>::empty() + items@[0]@ =~= items@[0]@);
            }
        }
        i = i + 1;
    }
    proof {
        assert(views(items@).take(i as int) =~= views(items@));
    }
    r
}

/// The decimal digits of `n`, without leading zeros.
pub open spec fn decimal(n: nat) -> Seq<char>
    decreases n,
{
    let digit = (n % 10 + 48) as char;
    if n < 10 {
        seq![digit]
    } else {
        decimal(n / 10).push(digit)
    }
}

/// The decimal digits of `n`, with a minus sign before them where `n` is negative.
pub open spec fn signed_decimal(n: int) -> Seq<char> {
    if n < 0 {
        seq!['-'] + decimal((-n) as nat)
    } else {
        decimal(n as nat)
    }
}

/// The decimal digits of `n`.
pub fn decimal_of(n: u64) -> (r: String)
    ensures
        r@ == decimal(n as nat),
{
    string_of(&decimal_digits(n))
}

fn decimal_digits(n: u64) -> (r: Vec<char>)
    ensures
        r@ == decimal(n as nat),
    decreases n,
{
    let digit: char = ((n % 10) as u8 + 48) as char;
    if n < 10 {
        let mut r: Vec<char> = Vec::new();
        r.push(digit);
        r
    } else {
        let mut r = decimal_digits(n / 10);
        r.push(digit);
        r
    }
}

/// The decimal digits of `n`, with its sign.
pub fn signed_decimal_of(n: i64) -> (r: String)
    ensures
        r@ == signed_decimal(n as int),
{
    if n < 0 {
        let magnitude: u64 = if n == i64::MIN {
            0x8000_0000_0000_0000
        } else {
            (-n) as u64
        };
        let digits = decimal_digits(magnitude);
        let mut out: Vec<char> = Vec::new();
        out.push('-');
        push_all(&mut out, &digits);
        proof {
            assert(out@ =~= seq!['-'] + decimal((-n) as nat));
        }
        string_of(&out)
    } else {
        decimal_of(n as u64)
    }
}

/// The texts of pieces.
pub open spec fn piece_views(pieces: Seq<Vec<char>>) -> Seq<Seq<char>> {
    pieces.map_values(|p: Vec<char>| p@)
}

/// The position of the first `c` in `s`, or the length of `s`.
pub fn find_char(s: &[char], c: char) -> (r: usize)
    ensures
        r == position_of(s@, c),
        r <= s@.len(),
{
    let mut i: usize = 0;
    proof {
        assert(s@.skip(0) =~= s@);
        lemma_position_of(s@, c);
    }
    while i < s.len() && s[i] != c
        invariant
            i <= s@.len(),
            position_of(s@, c) == i + position_of(s@.skip(i as int), c),
        decreases s@.len() - i,
    {
        proof {
            assert(s@.skip(i as int).skip(1) =~= s@.skip(i + 1));
        }
        i = i + 1;
    }
    proof {
        if i < s@.len() {
            assert(s@.skip(i as int)[0] == c);
        } else {
            assert(s@.skip(i as int).len() == 0);
        }
    }
    i
}

/// The pieces of `s` between the occurrences of `sep`.
pub fn split_chars(s: &[char], sep: char) -> (r: Vec<Vec<char>>)
    ensures
        piece_views(r@) == split(s@, sep),
{
    let mut out: Vec<Vec<char>> = Vec::new();
    let mut rest: Vec<char> = slice_of(s, 0, s.len());
    proof {
        assert(rest@ =~= s@);
        assert(piece_views(out@) + split(s@, sep) =~= split(s@, sep));
    }
    loop
        invariant_except_break
            split(s@, sep) == piece_views(out@) + split(rest@, sep),
        ensures
            piece_views(out@) == split(s@, sep),
        decreases rest@.len(),
    {
        let at = find_char(&rest, sep);
        let piece = slice_of(&rest, 0, at);
        let ghost before = piece_views(out@);
        out.push(piece);
        proof {
            assert(piece@ =~= rest@.take(at as int));
            assert(piece_views(out@) =~= before.push(piece@));
        }
        if at >= rest.len() {
            proof {
                assert(rest@.take(at as int) =~= rest@);
                assert(before + seq![rest@] =~= before.push(rest@));
            }
            break;
        }
        let next = slice_of(&rest, at + 1, rest.len());
        proof {
            assert(next@ =~= rest@.skip(at + 1));
            assert(before + (seq![piece@] + split(next@, sep)) =~= before.push(piece@) + split(
                next@,
                sep,
            ));
        }
        rest = next;
    }
    out
}

/// `pieces` joined by `sep`.
pub fn join_chars(pieces: &Vec<Vec<char>>, sep: &[char]) -> (r: Vec<char>)
    ensures
        r@ == join(piece_views(pieces@), sep@),
{
    let mut r: Vec<char> = Vec::new();
    let mut i: usize = 0;
    while i < pieces.len()
        invariant
            i <= pieces@.len(),
            r@ == join(piece_views(pieces@).take(i as int), sep@),
        decreases pieces@.len() - i,
    {
        let ghost all = piece_views(pieces@);
        if i > 0 {
            push_all(&mut r, sep);
        }
        push_all(&mut r, &pieces[i]);
        proof {
            assert(all.take(i + 1).drop_last() =~= all.take(i as int));
            assert(all.take(i + 1).last() == pieces@[i as int]@);
            if i == 0 {
                assert(all.take(0) =~= Seq::empty());
                assert(Seq::<char>::empty() + pieces@[0]@ =~= pieces@[0]@);
            }
        }
        i = i + 1;
    }
    proof {
        assert(piece_views(pieces@).take(i as int) =~= piece_views(pieces@));
    }
    r
}

/// Whether a text is among `items`.
pub fn among(items: &Vec<String>, s: &String) -> (r: bool)
    ensures
        r == views(items@).contains(s@),
{
    let mut i: usize = 0;
    while i < items.len()
        invariant
            i <= items@.len(),
            forall|k: int| 0 <= k < i ==> #[trigger] views(items@)[k] != s@,
        decreases items@.len() - i,
    {
        if items[i] == *s {
            proof {
                assert(views(items@)[i as int] == s@);
            }
            return true;
        }
        i = i + 1;
    }
    false
}

} // verus!
