//! Magnet links, from the `librqbit` crate.
use vstd::prelude::*;

use crate::outside::codec::digit_value;
use crate::outside::urls::{drop_ignored, undropped};
use crate::text::{
    chars_of, contains, find_char, has_part, join, join_chars, piece_views, position_of, push_all,
    same_chars, slice_of, split, split_chars, stands_at, string_of, view_opt,
};

verus! {

/// What the library reads in a magnet link.
pub struct MagnetFields {
    /// The version 1 info hash, in lower case hexadecimal.
    pub info_hash: Option<String>,
    /// The display name.
    pub name: Option<String>,
}

/// The info hash and the name of a magnet link.
pub type MagnetView = (Option<Seq<char>>, Option<Seq<char>>);

impl View for MagnetFields {
    type V = MagnetView;

    open spec fn view(&self) -> MagnetView {
        (view_opt(self.info_hash), view_opt(self.name))
    }
}

/// The view of optional fields.
pub open spec fn fields_opt(r: Option<MagnetFields>) -> Option<MagnetView> {
    match r {
        Some(fields) => Some(fields@),
        None => None,
    }
}

/// A part of a query with its percent sequences and plus signs resolved; a byte
/// outside ASCII becomes the replacement character.
pub open spec fn query_decoded(s: Seq<char>) -> Seq<char>
    decreases s.len(),
{
    if s.len() == 0 {
        Seq::empty()
    } else if s[0] == '+' {
        seq![' '] + query_decoded(s.skip(1))
    } else if s[0] == '%' && s.len() >= 3 && digit_value(s[1]) >= 0 && digit_value(s[2]) >= 0 {
        let byte = 16 * digit_value(s[1]) + digit_value(s[2]);
        let c = if byte < 128 { byte as char } else { '\u{fffd}' };
        seq![c] + query_decoded(s.skip(3))
    } else {
        seq![s[0]] + query_decoded(s.skip(1))
    }
}

/// The key of a pair of a query.
pub open spec fn pair_key(piece: Seq<char>) -> Seq<char> {
    let p = undropped(piece);
    query_decoded(p.take(position_of(p, '=')))
}

/// The value of a pair of a query.
pub open spec fn pair_value(piece: Seq<char>) -> Seq<char> {
    let p = undropped(piece);
    let at = position_of(p, '=');
    if at < p.len() {
        query_decoded(p.skip(at + 1))
    } else {
        Seq::empty()
    }
}

/// `s` without the blanks and control characters at its end.
pub open spec fn without_tail(s: Seq<char>) -> Seq<char>
    decreases s.len(),
{
    if s.len() > 0 && s.last() <= ' ' {
        without_tail(s.drop_last())
    } else {
        s
    }
}

/// Whether a pair selects files of the torrent.
pub open spec fn is_selection(piece: Seq<char>) -> bool {
    pair_key(piece) == "so"@
}

/// How many signs of padding end `s`.
pub open spec fn padding(s: Seq<char>) -> nat
    decreases s.len(),
{
    if s.len() > 0 && s.last() == '=' {
        1 + padding(s.drop_last())
    } else {
        0
    }
}

/// How many bytes a block of eight Base32 characters holds that ends in `pad` signs of
/// padding; `None` where no block ends so.
pub open spec fn block_bytes(pad: nat) -> Option<nat> {
    if pad == 0 {
        Some(5)
    } else if pad == 1 {
        Some(4)
    } else if pad == 3 {
        Some(3)
    } else if pad == 4 {
        Some(2)
    } else if pad == 6 {
        Some(1)
    } else {
        None
    }
}

/// How many bytes Base32 characters hold, each block of eight by its own padding; `None`
/// where they are no such blocks.
pub open spec fn base32_bytes(s: Seq<char>) -> Option<nat>
    decreases s.len(),
{
    if s.len() == 0 {
        Some(0)
    } else if s.len() < 8 {
        None
    } else {
        match (block_bytes(padding(s.take(8))), base32_bytes(s.skip(8))) {
            (Some(first), Some(rest)) => Some(first + rest),
            _ => None,
        }
    }
}

/// Whether a pair names an info hash that no digest can have: a version 1 hash with
/// padding, or a version 2 hash of Base32 length whose blocks do not hold 32 bytes.
pub open spec fn is_malformed_hash(piece: Seq<char>) -> bool {
    let value = pair_value(piece);
    pair_key(piece) == "xt"@ && if "urn:btih:"@.is_prefix_of(value) {
        contains(value, "="@)
    } else if "urn:btmh:1220"@.is_prefix_of(value) {
        let hash = without_tail(value.skip("urn:btmh:1220"@.len() as int));
        hash.len() == 56 && base32_bytes(hash) != Some(32nat)
    } else {
        false
    }
}

/// The position behind the question mark of an address.
pub open spec fn query_start(s: Seq<char>) -> int {
    if position_of(s, '?') < s.len() {
        position_of(s, '?') + 1
    } else {
        s.len() as int
    }
}

/// The pairs of the query of an address.
pub open spec fn query_pieces(s: Seq<char>) -> Seq<Seq<char>> {
    let body = s.skip(query_start(s));
    split(body.take(position_of(body, '#')), '&')
}

/// An address without the pairs that select files.
pub open spec fn without_selection(s: Seq<char>) -> Seq<char> {
    let body = s.skip(query_start(s));
    let kept = query_pieces(s).map_values(
        |p: Seq<char>|
            if is_selection(p) {
                Seq::<char>::empty()
            } else {
                p
            },
    );
    s.take(query_start(s)) + join(kept, "&"@) + body.skip(position_of(body, '#'))
}

/// Whether no pair of the query selects files or names an impossible hash.
pub open spec fn is_plain_link(s: Seq<char>) -> bool {
    forall|i: int|
        0 <= i < query_pieces(s).len() ==> !is_selection(#[trigger] query_pieces(s)[i])
            && !is_malformed_hash(query_pieces(s)[i])
}

/// What `Magnet::parse` reads in a link: its version 1 info hash, as `Id20::as_string`
/// writes it, and its name; `None` where the link is not a magnet link.
pub uninterp spec fn parsed_magnet(link: Seq<char>) -> Option<MagnetView>;

/// What the library reads in a link. Which files a link selects is not read, and a link
/// with an impossible hash is not a magnet link.
pub open spec fn magnet_view(link: Seq<char>) -> Option<MagnetView> {
    if is_plain_link(without_selection(link)) {
        parsed_magnet(without_selection(link))
    } else {
        None
    }
}

/// Whether `s` holds only lower case hexadecimal digits.
pub open spec fn is_lower_hex(s: Seq<char>) -> bool {
    forall|i: int| 0 <= i < s.len() ==> ('0' <= #[trigger] s[i] && s[i] <= '9') || ('a' <= s[i]
        && s[i] <= 'f')
}

/// `Magnet::parse`, `Magnet::as_id20` and `Id20::as_string`: functions of the link. The
/// hash of twenty bytes has forty lower case digits. Links that select files, where a
/// wide range of files exhausts the memory, and hashes of the wrong length, on which the
/// parser panics, are left out.
#[verifier::external_body]
fn parse_magnet(link: &str) -> (r: Option<MagnetFields>)
    requires
        is_plain_link(link@),
    ensures
        fields_opt(r) == parsed_magnet(link@),
        r matches Some(f) ==> (f.info_hash matches Some(h) ==> h@.len() == 40 && is_lower_hex(h@)),
{
    let magnet = librqbit::Magnet::parse(link).ok()?;
    let info_hash = magnet.as_id20().map(|id| id.as_string());
    Some(MagnetFields { info_hash, name: magnet.name })
}

/// The value of a hexadecimal digit in either case, or 16.
fn nibble(c: char) -> (r: u8)
    ensures
        digit_value(c) >= 0 ==> r == digit_value(c),
        digit_value(c) < 0 ==> r == 16,
        r <= 16,
{
    if '0' <= c && c <= '9' {
        c as u8 - 48
    } else if 'a' <= c && c <= 'f' {
        c as u8 - 87
    } else if 'A' <= c && c <= 'F' {
        c as u8 - 55
    } else {
        16
    }
}

fn decode_query(s: &[char]) -> (r: Vec<char>)
    ensures
        r@ == query_decoded(s@),
{
    let mut out: Vec<char> = Vec::new();
    let mut i: usize = 0;
    proof {
        assert(s@.skip(0) =~= s@);
        assert(Seq::<char>::empty() + query_decoded(s@) =~= query_decoded(s@));
    }
    while i < s.len()
        invariant
            i <= s@.len(),
            query_decoded(s@) == out@ + query_decoded(s@.skip(i as int)),
        decreases s@.len() - i,
    {
        let ghost rest = s@.skip(i as int);
        let ghost before = out@;
        let mut c: char = s[i];
        let mut step: usize = 1;
        if c == '+' {
            c = ' ';
        } else if c == '%' && s.len() - i >= 3 {
            let high: u8 = nibble(s[i + 1]);
            let low: u8 = nibble(s[i + 2]);
            proof {
                assert(rest[1] == s@[i + 1]);
                assert(rest[2] == s@[i + 2]);
            }
            if high < 16 && low < 16 {
                let byte: u8 = 16 * high + low;
                c = if byte < 128 {
                    byte as char
                } else {
                    '\u{fffd}'
                };
                step = 3;
            }
        }
        out.push(c);
        proof {
            assert(rest.skip(step as int) =~= s@.skip(i + step));
            assert(query_decoded(rest) == seq![c] + query_decoded(rest.skip(step as int)));
            assert(before + (seq![c] + query_decoded(rest.skip(step as int))) =~= out@
                + query_decoded(rest.skip(step as int)));
        }
        i = i + step;
    }
    proof {
        assert(s@.skip(i as int) =~= Seq::<char>::empty());
        assert(out@ + Seq::<char>::empty() =~= out@);
    }
    out
}

/// The key and the value of a pair of a query.
fn read_pair(piece: &[char]) -> (r: (Vec<char>, Vec<char>))
    ensures
        r.0@ == pair_key(piece@),
        r.1@ == pair_value(piece@),
{
    let p = drop_ignored(piece);
    let at = find_char(&p, '=');
    let head = slice_of(&p, 0, at);
    proof {
        assert(head@ =~= p@.take(at as int));
    }
    let key = decode_query(&head);
    if at < p.len() {
        let tail = slice_of(&p, at + 1, p.len());
        proof {
            assert(tail@ =~= p@.skip(at + 1));
        }
        (key, decode_query(&tail))
    } else {
        (key, Vec::new())
    }
}

fn cut_tail(s: &[char]) -> (r: Vec<char>)
    ensures
        r@ == without_tail(s@),
{
    let mut n: usize = s.len();
    proof {
        assert(s@.take(n as int) =~= s@);
    }
    while n > 0 && s[n - 1] <= ' '
        invariant
            n <= s@.len(),
            without_tail(s@) == without_tail(s@.take(n as int)),
        decreases n,
    {
        proof {
            assert(s@.take(n as int).drop_last() =~= s@.take(n - 1));
        }
        n = n - 1;
    }
    proof {
        assert(s@.take(n as int) =~= s@.subrange(0, n as int));
    }
    slice_of(s, 0, n)
}

fn selects_files(piece: &[char]) -> (r: bool)
    ensures
        r == is_selection(piece@),
{
    let (key, _) = read_pair(piece);
    same_chars(&key, &chars_of("so"))
}

/// How many signs of padding end the part of `s` from `start` up to `end`.
fn count_padding(s: &[char], start: usize, end: usize) -> (r: usize)
    requires
        start <= end <= s@.len(),
    ensures
        r == padding(s@.subrange(start as int, end as int)),
        r <= end - start,
{
    let mut n: usize = end;
    let ghost block = s@.subrange(start as int, end as int);
    proof {
        assert(block.take(end - start) =~= block);
    }
    while n > start && s[n - 1] == '='
        invariant
            start <= n <= end <= s@.len(),
            block == s@.subrange(start as int, end as int),
            padding(block) == (end - n) + padding(block.take(n - start)),
        decreases n,
    {
        proof {
            assert(block.take(n - start).drop_last() =~= block.take(n - start - 1));
        }
        n = n - 1;
    }
    end - n
}

/// How many bytes Base32 characters hold, each block of eight by its own padding.
fn count_base32(s: &[char]) -> (r: Option<usize>)
    ensures
        match r {
            Some(bytes) => base32_bytes(s@) == Some(bytes as nat),
            None => base32_bytes(s@) is None,
        },
{
    let mut i: usize = 0;
    let mut sum: usize = 0;
    proof {
        assert(s@.skip(0) =~= s@);
    }
    while i < s.len()
        invariant
            i <= s@.len(),
            sum <= i,
            base32_bytes(s@) == (match base32_bytes(s@.skip(i as int)) {
                Some(rest) => Some((sum + rest) as nat),
                None => None,
            }),
        decreases s@.len() - i,
    {
        let ghost rest = s@.skip(i as int);
        if s.len() - i < 8 {
            return None;
        }
        let pad: usize = count_padding(s, i, i + 8);
        proof {
            assert(rest.take(8) =~= s@.subrange(i as int, i + 8));
            assert(rest.skip(8) =~= s@.skip(i + 8));
        }
        let held: usize = match pad {
            0 => 5,
            1 => 4,
            3 => 3,
            4 => 2,
            6 => 1,
            _ => {
                return None;
            },
        };
        sum = sum + held;
        i = i + 8;
    }
    proof {
        assert(s@.skip(i as int) =~= Seq::<char>::empty());
    }
    Some(sum)
}

fn has_malformed_hash(piece: &[char]) -> (r: bool)
    ensures
        r == is_malformed_hash(piece@),
{
    let (key, value) = read_pair(piece);
    if !same_chars(&key, &chars_of("xt")) {
        return false;
    }
    let first = chars_of("urn:btih:");
    let second = chars_of("urn:btmh:1220");
    proof {
        assert(value@.skip(0) =~= value@);
    }
    if stands_at(&value, &first, 0) {
        has_part(&value, &chars_of("="))
    } else if stands_at(&value, &second, 0) {
        let rest = slice_of(&value, second.len(), value.len());
        proof {
            assert(rest@ =~= value@.skip(second@.len() as int));
        }
        let hash = cut_tail(&rest);
        hash.len() == 56 && count_base32(&hash) != Some(32)
    } else {
        false
    }
}

/// The parts of an address: up to its query, the query, and the rest.
fn address_parts(s: &[char]) -> (r: (Vec<char>, Vec<Vec<char>>, Vec<char>))
    ensures
        r.0@ == s@.take(query_start(s@)),
        piece_views(r.1@) == query_pieces(s@),
        r.2@ == s@.skip(query_start(s@)).skip(position_of(s@.skip(query_start(s@)), '#')),
{
    let mark = find_char(s, '?');
    let start: usize = if mark < s.len() {
        mark + 1
    } else {
        s.len()
    };
    let head = slice_of(s, 0, start);
    let body = slice_of(s, start, s.len());
    proof {
        assert(head@ =~= s@.take(query_start(s@)));
        assert(body@ =~= s@.skip(query_start(s@)));
    }
    let end = find_char(&body, '#');
    let query = slice_of(&body, 0, end);
    let tail = slice_of(&body, end, body.len());
    proof {
        assert(query@ =~= body@.take(end as int));
        assert(tail@ =~= body@.skip(end as int));
    }
    (head, split_chars(&query, '&'), tail)
}

fn drop_selection(s: &[char]) -> (r: Vec<char>)
    ensures
        r@ == without_selection(s@),
{
    let (head, pieces, tail) = address_parts(s);
    let ghost keep = |p: Seq<char>|
        if is_selection(p) {
            Seq::<char>::empty()
        } else {
            p
        };
    let mut kept: Vec<Vec<char>> = Vec::new();
    let mut i: usize = 0;
    while i < pieces.len()
        invariant
            i <= pieces@.len(),
            piece_views(pieces@) == query_pieces(s@),
            keep == (|p: Seq<char>|
                if is_selection(p) {
                    Seq::<char>::empty()
                } else {
                    p
                }),
            piece_views(kept@) == query_pieces(s@).map_values(keep).take(i as int),
        decreases pieces@.len() - i,
    {
        let ghost before = piece_views(kept@);
        let piece = &pieces[i];
        proof {
            assert(piece_views(pieces@)[i as int] == piece@);
        }
        if selects_files(piece) {
            kept.push(Vec::new());
        } else {
            kept.push(slice_of(piece, 0, piece.len()));
            proof {
                assert(piece@.subrange(0, piece@.len() as int) =~= piece@);
            }
        }
        proof {
            assert(kept@.last()@ =~= keep(piece@));
            assert(piece_views(kept@) =~= before.push(keep(piece@)));
            assert(query_pieces(s@).map_values(keep).take(i + 1) =~= before.push(keep(piece@)));
        }
        i = i + 1;
    }
    proof {
        assert(query_pieces(s@).map_values(keep).take(i as int) =~= query_pieces(s@).map_values(
            keep,
        ));
    }
    let query = join_chars(&kept, &chars_of("&"));
    let mut out = head;
    push_all(&mut out, &query);
    push_all(&mut out, &tail);
    out
}

fn plain_link(s: &[char]) -> (r: bool)
    ensures
        r == is_plain_link(s@),
{
    let (_, pieces, _) = address_parts(s);
    let mut i: usize = 0;
    while i < pieces.len()
        invariant
            i <= pieces@.len(),
            piece_views(pieces@) == query_pieces(s@),
            forall|j: int|
                0 <= j < i ==> !is_selection(#[trigger] query_pieces(s@)[j])
                    && !is_malformed_hash(query_pieces(s@)[j]),
        decreases pieces@.len() - i,
    {
        proof {
            assert(query_pieces(s@)[i as int] == pieces@[i as int]@);
        }
        if selects_files(&pieces[i]) || has_malformed_hash(&pieces[i]) {
            return false;
        }
        i = i + 1;
    }
    true
}

/// The info hash and the name of a magnet link.
pub fn read_magnet(link: &str) -> (r: Option<MagnetFields>)
    ensures
        fields_opt(r) == magnet_view(link@),
        r matches Some(f) ==> (f.info_hash matches Some(h) ==> h@.len() == 40 && is_lower_hex(h@)),
{
    let plain = drop_selection(&chars_of(link));
    if !plain_link(&plain) {
        return None;
    }
    parse_magnet(string_of(&plain).as_str())
}

} // verus!
