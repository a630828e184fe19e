//! What is asked of the engine, what is shown of it, and what is brought back.
use vstd::prelude::*;

use crate::engine::commands::{
    command_of, lacks_room, pending_token, room_message, switch_record, CommandView, EffectView,
    EngineView,
};
use crate::engine::listing::{
    law_list_is_complete, listed_torrents, pending_rows, session_rows, RowView, SessionView,
};
use crate::engine::restore::{restored, RestorationView};
use crate::engine::trackers::{law_trackers_are_added, source_of};
use crate::engine::types::RecordView;
use crate::engine::utils::{ago_at, bytes_text};
use crate::outside::magnets::magnet_view;
use crate::outside::urls::encoded_text;
use crate::text::contains;
use crate::textmap::value_at;

verus! {

proof fn lemma_not_a_prefix(s: Seq<char>, p: Seq<char>, q: Seq<char>)
    requires
        p.len() > 0,
        q.len() > 0,
        p.is_prefix_of(s),
        p[0] != q[0],
    ensures
        !q.is_prefix_of(s),
{
    assert(s[0] == p[0]);
    if q.is_prefix_of(s) {
        assert(s[0] == q[0]);
    }
}

/// A web address is fetched as it stands.
pub proof fn law_address_is_fetched(text: Seq<char>)
    requires
        "http://"@.is_prefix_of(text) || "https://"@.is_prefix_of(text),
    ensures
        command_of(text) == CommandView::Fetch(text),
{
    reveal_strlit("http://");
    reveal_strlit("https://");
    reveal_strlit("start:");
    reveal_strlit("stop:");
    reveal_strlit("delete:");
    let p = if "http://"@.is_prefix_of(text) {
        "http://"@
    } else {
        "https://"@
    };
    lemma_not_a_prefix(text, p, "start:"@);
    lemma_not_a_prefix(text, p, "stop:"@);
    lemma_not_a_prefix(text, p, "delete:"@);
}

/// A magnet link is added as it stands, and shown meanwhile under the hash that it names.
pub proof fn law_magnet_is_added(text: Seq<char>)
    requires
        "magnet:"@.is_prefix_of(text),
    ensures
        command_of(text) == CommandView::Add(
            text,
            match magnet_view(text) {
                Some((hash, _)) => hash,
                None => None,
            },
        ),
{
    reveal_strlit("magnet:");
    reveal_strlit("http://");
    reveal_strlit("https://");
    reveal_strlit("start:");
    reveal_strlit("stop:");
    reveal_strlit("delete:");
    lemma_not_a_prefix(text, "magnet:"@, "start:"@);
    lemma_not_a_prefix(text, "magnet:"@, "stop:"@);
    lemma_not_a_prefix(text, "magnet:"@, "delete:"@);
    lemma_not_a_prefix(text, "magnet:"@, "http://"@);
    lemma_not_a_prefix(text, "magnet:"@, "https://"@);
}

/// Whatever else is asked for is added as it stands, and shown under no hash.
pub proof fn law_anything_else_is_added(text: Seq<char>)
    requires
        !"start:"@.is_prefix_of(text),
        !"stop:"@.is_prefix_of(text),
        !"delete:"@.is_prefix_of(text),
        !"http://"@.is_prefix_of(text),
        !"https://"@.is_prefix_of(text),
        !"magnet:"@.is_prefix_of(text),
    ensures
        command_of(text) == CommandView::Add(text, None),
{
}

/// Of a known torrent that is started or stopped just that is stored, with its link; of one
/// that is not known nothing is.
pub proof fn law_switch_is_stored(
    state: EngineView,
    hash: Seq<char>,
    started: bool,
    added_at: i64,
)
    ensures
        value_at(state.torrents, hash) matches Some(info) ==> switch_record(
            state,
            hash,
            started,
            added_at,
        ) == seq![
            EffectView::Save(RecordView { magnet_or_url: info.magnet, started, added_at }),
        ],
        value_at(state.torrents, hash) is None ==> switch_record(
            state,
            hash,
            started,
            added_at,
        ).len() == 0,
{
}

/// There is no room for a torrent exactly if more of it is missing than is free, and then the
/// user is told both numbers.
pub proof fn law_room_is_lacking(total: u64, progress: u64, free: u64)
    ensures
        lacks_room((total, progress), free) <==> total > progress + free,
        lacks_room((total, progress), free) ==> room_message((total, progress), free) == "Need "@
            + bytes_text((total - progress) as u64)
            + " free for this download, but only "@ + bytes_text(free)
            + " is available in the download directory."@,
{
}

/// What stops the task of a pending link is what was noted with it.
pub proof fn law_token_is_that_of_the_link(state: EngineView, hash: Seq<char>)
    ensures
        value_at(state.pending, hash) matches Some(pending) ==> pending_token(state, hash)
            == pending.cancel,
        value_at(state.pending, hash) is None ==> pending_token(state, hash) is None,
{
}

/// Whether a line shows a torrent of the session that came by `source` at `added`.
pub open spec fn shows_torrent(
    row: RowView,
    t: SessionView,
    source: Seq<char>,
    added: i64,
    now: i64,
) -> bool {
    let name = if t.name is Some {
        t.name.unwrap()
    } else {
        t.info_hash
    };
    &&& row.info_hash == t.info_hash
    &&& row.name == name
    &&& row.loaded == t.loaded
    &&& row.downloaded == t.progress_bytes as i64
    &&& row.uploaded == t.uploaded_bytes as i64
    &&& row.size == t.total_bytes as i64
    &&& row.status == t.status
    &&& row.is_seeding == t.finished
    &&& row.started == !t.paused
    &&& row.added_at_ts == added
    &&& row.added_at == ago_at(added, now)
    &&& row.magnet == (if source.len() > 0 && !"torrent_bytes:"@.is_prefix_of(source)
        && !"http://"@.is_prefix_of(source) && !"https://"@.is_prefix_of(source) {
        source
    } else {
        "magnet:?xt=urn:btih:"@ + t.info_hash + "&dn="@ + encoded_text(name)
    })
}

/// Every torrent of the session has a line of its own, found by its place; it shows what is
/// seen of the torrent, since when it is there, and a link by which it can be had. One of
/// which nothing is known counts as added now.
pub proof fn law_torrent_is_shown(
    state: EngineView,
    torrents: Seq<SessionView>,
    now: i64,
    i: int,
)
    requires
        0 <= i < torrents.len() <= usize::MAX,
    ensures
        exists|k: int|
            0 <= k < listed_torrents(state, torrents, now).len() && {
                let row = #[trigger] listed_torrents(state, torrents, now)[k];
                &&& row.slot == Some(i as usize)
                &&& match value_at(state.torrents, torrents[i].info_hash) {
                    Some(info) => shows_torrent(row, torrents[i], info.magnet, info.added_at, now),
                    None => shows_torrent(row, torrents[i], Seq::empty(), now, now),
                }
            },
        listed_torrents(state, torrents, now).len() == torrents.len() + state.pending.len(),
{
    reveal_strlit("");
    assert(""@ =~= Seq::<char>::empty());
    law_list_is_complete(state, torrents, now);
    let list = listed_torrents(state, torrents, now);
    let row = session_rows(state, torrents, now)[i];
    assert(list.contains(row));
    let k = choose|k: int| 0 <= k < list.len() && list[k] == row;
    assert(list[k].slot == Some(i as usize));
}

/// Every link that is being resolved has a line: under its hash, with its own name where it
/// has one, as started and not loaded, without a place in the session.
pub proof fn law_pending_is_shown(
    state: EngineView,
    torrents: Seq<SessionView>,
    now: i64,
    i: int,
)
    requires
        0 <= i < state.pending.len(),
    ensures
        exists|k: int|
            0 <= k < listed_torrents(state, torrents, now).len() && {
                let row = #[trigger] listed_torrents(state, torrents, now)[k];
                let hash = state.pending[i].0;
                let pending = state.pending[i].1;
                &&& row.slot is None
                &&& row.info_hash == hash
                &&& row.magnet == pending.magnet_url
                &&& match magnet_view(pending.magnet_url) {
                    Some((_, Some(name))) => row.name == name,
                    _ => row.name == hash,
                }
                &&& !row.loaded
                &&& row.started
                &&& !row.is_seeding
                &&& row.downloaded == 0 && row.uploaded == 0 && row.size == 0
                &&& row.status == "Resolving"@
                &&& row.added_at_ts == pending.added_at
                &&& row.added_at == ago_at(pending.added_at, now)
            },
{
    law_list_is_complete(state, torrents, now);
    let list = listed_torrents(state, torrents, now);
    let row = pending_rows(state.pending, now)[i];
    assert(list.contains(row));
    let k = choose|k: int| 0 <= k < list.len() && list[k] == row;
    assert(list[k].slot is None);
}

/// A torrent that was stored as a link is brought back from that link: with each of the
/// trackers behind it where it is a magnet link and names none, or where every torrent is
/// given some, and else as it stands.
pub proof fn law_link_is_restored(
    source: Seq<char>,
    always_add: bool,
    trackers: Seq<Seq<char>>,
)
    requires
        !"torrent_bytes:"@.is_prefix_of(source),
    ensures
        restored(source, always_add, trackers) matches RestorationView::Link(link) && {
            &&& source.is_prefix_of(link)
            &&& if "magnet:"@.is_prefix_of(source) && (always_add || !contains(source, "&tr="@)) {
                forall|i: int|
                    0 <= i < trackers.len() ==> contains(link, encoded_text(#[trigger] trackers[i]))
            } else {
                link == source
            }
        },
{
    law_trackers_are_added(source, trackers);
    assert(source =~= source.take(source.len() as int));
}

/// A line of the settings that begins with `remote:` names the address behind that; every
/// other is a tracker.
pub proof fn law_source_of_trackers(address: Seq<char>, line: Seq<char>)
    ensures
        source_of("remote:"@ + address) == (true, address),
        !"remote:"@.is_prefix_of(line) ==> source_of(line) == (false, line),
{
    reveal_strlit("remote:");
    let s = "remote:"@ + address;
    assert("remote:"@ =~= s.take(7));
    assert(s.skip(7) =~= address);
}

} // verus!
