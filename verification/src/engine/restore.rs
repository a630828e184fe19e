//! Torrents that are stored and restored.
use vstd::prelude::*;

use crate::engine::trackers::{complete_link, completed};
use crate::engine::types::{TorrentInfo, TorrentRecord};
use crate::outside::codec::{
    decode_hex, digit_value, encode_hex, hex_decoded, hex_encoded, lower_digit,
};
use crate::text::{concat, strip_prefix, views};

verus! {

/// How a stored torrent is brought back.
#[derive(Clone, Debug, PartialEq, Eq)]
pub enum Restoration {
    /// Out of the bytes of a torrent file.
    Bytes(Vec<u8>),
    /// From a link.
    Link(String),
    /// Not at all: what is stored are no bytes.
    Nothing,
}

/// How a stored torrent is brought back, in values.
pub enum RestorationView {
    Bytes(Seq<u8>),
    Link(Seq<char>),
    Nothing,
}

impl View for Restoration {
    type V = RestorationView;

    open spec fn view(&self) -> RestorationView {
        match self {
            Restoration::Bytes(b) => RestorationView::Bytes(b@),
            Restoration::Link(l) => RestorationView::Link(l@),
            Restoration::Nothing => RestorationView::Nothing,
        }
    }
}

/// How a torrent stored as `source` is brought back.
pub open spec fn restored(
    source: Seq<char>,
    always_add: bool,
    trackers: Seq<Seq<char>>,
) -> RestorationView {
    if "torrent_bytes:"@.is_prefix_of(source) {
        match hex_decoded(source.skip("torrent_bytes:"@.len() as int)) {
            Some(bytes) => RestorationView::Bytes(bytes),
            None => RestorationView::Nothing,
        }
    } else {
        RestorationView::Link(completed(source, always_add, trackers))
    }
}

/// How a torrent stored as `source` is brought back.
pub fn restore(source: &str, always_add: bool, trackers: &Vec<String>) -> (r: Restoration)
    ensures
        r@ == restored(source@, always_add, views(trackers@)),
{
    match strip_prefix(source, "torrent_bytes:") {
        Some(digits) => match decode_hex(digits.as_str()) {
            Some(bytes) => Restoration::Bytes(bytes),
            None => Restoration::Nothing,
        },
        None => Restoration::Link(complete_link(source, always_add, trackers)),
    }
}

/// What the bytes of a torrent file are stored as.
pub open spec fn stored_bytes(bytes: Seq<u8>) -> Seq<char> {
    "torrent_bytes:"@ + hex_encoded(bytes)
}

/// What the bytes of a torrent file are stored as.
pub fn source_of_bytes(bytes: &[u8]) -> (r: String)
    ensures
        r@ == stored_bytes(bytes@),
{
    concat("torrent_bytes:", encode_hex(bytes).as_str())
}

proof fn lemma_digits(n: int)
    requires
        0 <= n < 16,
    ensures
        digit_value(lower_digit(n)) == n,
{
}

/// The digits of bytes give the bytes back.
pub proof fn law_hex_round_trip(bytes: Seq<u8>)
    ensures
        hex_decoded(hex_encoded(bytes)) == Some(bytes),
    decreases bytes.len(),
{
    let s = hex_encoded(bytes);
    if bytes.len() == 0 {
        assert(hex_decoded(s) == Some(Seq::<u8>::empty()));
        assert(bytes =~= Seq::empty());
    } else {
        let b = bytes[0] as int;
        law_hex_round_trip(bytes.skip(1));
        assert(s.skip(2) =~= hex_encoded(bytes.skip(1)));
        assert(0 <= b / 16 < 16 && 0 <= b % 16 < 16);
        lemma_digits(b / 16);
        lemma_digits(b % 16);
        assert(s[0] == lower_digit(b / 16));
        assert(s[1] == lower_digit(b % 16));
        assert(16 * (b / 16) + b % 16 == b);
        assert(bytes =~= seq![bytes[0]] + bytes.skip(1));
    }
}

/// A torrent that was added as a file is brought back out of the same bytes.
pub proof fn law_stored_bytes_are_restored(
    bytes: Seq<u8>,
    always_add: bool,
    trackers: Seq<Seq<char>>,
)
    ensures
        restored(stored_bytes(bytes), always_add, trackers) == RestorationView::Bytes(bytes),
{
    let source = stored_bytes(bytes);
    let mark = "torrent_bytes:"@;
    law_hex_round_trip(bytes);
    assert(mark =~= source.take(mark.len() as int));
    assert(source.skip(mark.len() as int) =~= hex_encoded(bytes));
}

/// What is known of a torrent by what is stored of it.
pub fn restored_info(record: &TorrentRecord) -> (r: TorrentInfo)
    ensures
        r.started == record.started,
        r.added_at == record.added_at,
        r.magnet@ == record.magnet_or_url@,
{
    TorrentInfo {
        started: record.started,
        added_at: record.added_at,
        magnet: record.magnet_or_url.clone(),
    }
}

} // verus!
