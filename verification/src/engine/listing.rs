//! The list of torrents that is shown.
use vstd::prelude::*;

use crate::engine::commands::EngineView;
use crate::engine::types::{EngineState, InfoView, PendingView};
use crate::engine::utils::{ago_at, format_ago_at};
use crate::order::{
    is_order, law_sort_is_ordered, law_sort_is_permutation, lemma_sort_contains, rank_of,
    sort_by_rank, stable_sorted, values, Ranked,
};
use crate::outside::magnets::{fields_opt, magnet_view, read_magnet, MagnetFields, MagnetView};
use crate::outside::urls::{encode_text, encoded_text};
use crate::text::{concat, starts_with, view_opt};
use crate::textmap::value_at;

verus! {

/// A torrent of the session as it is seen.
#[derive(Clone, Debug, PartialEq, Eq)]
pub struct SessionTorrent {
    pub info_hash: String,
    pub name: Option<String>,
    pub loaded: bool,
    pub finished: bool,
    pub paused: bool,
    pub status: String,
    pub total_bytes: u64,
    pub progress_bytes: u64,
    pub uploaded_bytes: u64,
}

/// The values of a torrent of the session.
pub struct SessionView {
    pub info_hash: Seq<char>,
    pub name: Option<Seq<char>>,
    pub loaded: bool,
    pub finished: bool,
    pub paused: bool,
    pub status: Seq<char>,
    pub total_bytes: u64,
    pub progress_bytes: u64,
    pub uploaded_bytes: u64,
}

impl View for SessionTorrent {
    type V = SessionView;

    open spec fn view(&self) -> SessionView {
        SessionView {
            info_hash: self.info_hash@,
            name: view_opt(self.name),
            loaded: self.loaded,
            finished: self.finished,
            paused: self.paused,
            status: self.status@,
            total_bytes: self.total_bytes,
            progress_bytes: self.progress_bytes,
            uploaded_bytes: self.uploaded_bytes,
        }
    }
}

/// A line of the list. `slot` is the place of the torrent in the session, by which its
/// rates and files are found; a link that is being resolved has none.
#[derive(Clone, Debug, PartialEq, Eq)]
pub struct TorrentRow {
    pub slot: Option<usize>,
    pub info_hash: String,
    pub name: String,
    pub magnet: String,
    pub loaded: bool,
    pub downloaded: i64,
    pub uploaded: i64,
    pub size: i64,
    pub status: String,
    pub is_seeding: bool,
    pub started: bool,
    pub added_at: String,
    pub added_at_ts: i64,
}

/// The values of a line.
pub struct RowView {
    pub slot: Option<usize>,
    pub info_hash: Seq<char>,
    pub name: Seq<char>,
    pub magnet: Seq<char>,
    pub loaded: bool,
    pub downloaded: i64,
    pub uploaded: i64,
    pub size: i64,
    pub status: Seq<char>,
    pub is_seeding: bool,
    pub started: bool,
    pub added_at: Seq<char>,
    pub added_at_ts: i64,
}

impl View for TorrentRow {
    type V = RowView;

    open spec fn view(&self) -> RowView {
        RowView {
            slot: self.slot,
            info_hash: self.info_hash@,
            name: self.name@,
            magnet: self.magnet@,
            loaded: self.loaded,
            downloaded: self.downloaded,
            uploaded: self.uploaded,
            size: self.size,
            status: self.status@,
            is_seeding: self.is_seeding,
            started: self.started,
            added_at: self.added_at@,
            added_at_ts: self.added_at_ts,
        }
    }
}

impl Ranked for TorrentRow {
    open spec fn ranks_before(a: RowView, b: RowView) -> bool {
        a.added_at_ts > b.added_at_ts
    }

    fn before(&self, other: &TorrentRow) -> (r: bool) {
        self.added_at_ts > other.added_at_ts
    }
}

/// Whether a torrent came by something that cannot be handed on as a magnet link.
pub open spec fn lacks_magnet(source: Seq<char>) -> bool {
    ||| "torrent_bytes:"@.is_prefix_of(source)
    ||| "http://"@.is_prefix_of(source)
    ||| "https://"@.is_prefix_of(source)
    ||| source.len() == 0
}

/// The magnet link that is shown for a torrent that came by `source`.
pub open spec fn shown_magnet(source: Seq<char>, hash: Seq<char>, name: Seq<char>) -> Seq<char> {
    if lacks_magnet(source) {
        "magnet:?xt=urn:btih:"@ + hash + "&dn="@ + encoded_text(name)
    } else {
        source
    }
}

/// The name that is shown.
pub open spec fn shown_name(name: Option<Seq<char>>, hash: Seq<char>) -> Seq<char> {
    match name {
        Some(n) => n,
        None => hash,
    }
}

/// The line of a torrent of the session at `now`. One of which nothing is known counts as
/// added now.
pub open spec fn session_row(
    info: Option<InfoView>,
    t: SessionView,
    slot: usize,
    now: i64,
) -> RowView {
    let added = match info {
        Some(i) => i.added_at,
        None => now,
    };
    let source = match info {
        Some(i) => i.magnet,
        None => ""@,
    };
    let name = shown_name(t.name, t.info_hash);
    RowView {
        slot: Some(slot),
        info_hash: t.info_hash,
        name,
        magnet: shown_magnet(source, t.info_hash, name),
        loaded: t.loaded,
        downloaded: t.progress_bytes as i64,
        uploaded: t.uploaded_bytes as i64,
        size: t.total_bytes as i64,
        status: t.status,
        is_seeding: t.finished,
        started: !t.paused,
        added_at: ago_at(added, now),
        added_at_ts: added,
    }
}

/// The name of a link that is being resolved, in which `fields` were read.
pub open spec fn pending_name(fields: Option<MagnetView>, hash: Seq<char>) -> Seq<char> {
    match fields {
        Some((_, name)) => shown_name(name, hash),
        None => hash,
    }
}

/// The line of a link that is being resolved, at `now`.
pub open spec fn pending_row(hash: Seq<char>, pending: PendingView, now: i64) -> RowView {
    RowView {
        slot: None,
        info_hash: hash,
        name: pending_name(magnet_view(pending.magnet_url), hash),
        magnet: pending.magnet_url,
        loaded: false,
        downloaded: 0,
        uploaded: 0,
        size: 0,
        status: "Resolving"@,
        is_seeding: false,
        started: true,
        added_at: ago_at(pending.added_at, now),
        added_at_ts: pending.added_at,
    }
}

/// The lines of the torrents of the session.
pub open spec fn session_rows(state: EngineView, torrents: Seq<SessionView>, now: i64) -> Seq<
    RowView,
> {
    Seq::new(
        torrents.len(),
        |i: int|
            session_row(
                value_at(state.torrents, torrents[i].info_hash),
                torrents[i],
                i as usize,
                now,
            ),
    )
}

/// The lines of the links that are being resolved.
pub open spec fn pending_rows(pending: Seq<(Seq<char>, PendingView)>, now: i64) -> Seq<RowView> {
    Seq::new(pending.len(), |i: int| pending_row(pending[i].0, pending[i].1, now))
}

/// The list: the torrents of the session and the links that are being resolved, the one
/// added last first.
pub open spec fn listed_torrents(
    state: EngineView,
    torrents: Seq<SessionView>,
    now: i64,
) -> Seq<RowView> {
    stable_sorted(
        session_rows(state, torrents, now) + pending_rows(state.pending, now),
        rank_of::<TorrentRow>(),
    )
}

/// Whether it can be told at `now` how long ago a time was.
pub open spec fn time_fits(timestamp: i64, now: i64) -> bool {
    timestamp == 0 || i64::MIN <= now - timestamp <= i64::MAX
}

/// Whether that can be told of all lines.
pub open spec fn times_fit(rows: Seq<RowView>, now: i64) -> bool {
    forall|i: int| 0 <= i < rows.len() ==> time_fits((#[trigger] rows[i]).added_at_ts, now)
}

/// The magnet link that is shown for a torrent that came by `source`.
fn magnet_to_show(source: &str, hash: &String, name: &String) -> (r: String)
    ensures
        r@ == shown_magnet(source@, hash@, name@),
{
    if starts_with(source, "torrent_bytes:") || starts_with(source, "http://") || starts_with(
        source,
        "https://",
    ) || source.is_empty() {
        let mut link = concat("magnet:?xt=urn:btih:", hash.as_str());
        link.append("&dn=");
        link.append(encode_text(name.as_str()).as_str());
        link
    } else {
        String::from_str(source)
    }
}

/// The name of a link that is being resolved, in which `fields` were read.
pub fn name_pending(fields: Option<MagnetFields>, hash: &String) -> (r: String)
    ensures
        r@ == pending_name(fields_opt(fields), hash@),
{
    match fields {
        Some(f) => match f.name {
            Some(n) => n,
            None => hash.clone(),
        },
        None => hash.clone(),
    }
}

impl EngineState {
    /// The line of a torrent of the session.
    fn row_of(&self, t: &SessionTorrent, slot: usize, now: i64) -> (r: Option<TorrentRow>)
        ensures
            ({
                let row = session_row(value_at(self@.torrents, t.info_hash@), t@, slot, now);
                match r {
                    Some(shown) => shown@ == row && time_fits(row.added_at_ts, now),
                    None => !time_fits(row.added_at_ts, now),
                }
            }),
    {
        let name = match &t.name {
            Some(n) => n.clone(),
            None => t.info_hash.clone(),
        };
        let (added, magnet) = match self.torrent_info.get(t.info_hash.as_str()) {
            Some(info) => (
                info.added_at,
                magnet_to_show(info.magnet.as_str(), &t.info_hash, &name),
            ),
            None => (now, magnet_to_show("", &t.info_hash, &name)),
        };
        let added_at = match format_ago_at(added, now) {
            Some(text) => text,
            None => {
                return None;
            },
        };
        Some(TorrentRow {
            slot: Some(slot),
            info_hash: t.info_hash.clone(),
            name,
            magnet,
            loaded: t.loaded,
            downloaded: t.progress_bytes as i64,
            uploaded: t.uploaded_bytes as i64,
            size: t.total_bytes as i64,
            status: t.status.clone(),
            is_seeding: t.finished,
            started: !t.paused,
            added_at,
            added_at_ts: added,
        })
    }

    /// The list at `now`: the torrents of the session and the links that are being
    /// resolved, the one added last first; `None` where the time of one is too far from
    /// `now` to be told.
    pub fn list_torrents(&self, torrents: &Vec<SessionTorrent>, now: i64) -> (r: Option<
        Vec<TorrentRow>,
    >)
        ensures
            r is Some <==> times_fit(session_rows(self@, values(torrents@), now), now)
                && times_fit(pending_rows(self@.pending, now), now),
            r matches Some(rows) ==> values(rows@) == listed_torrents(
                self@,
                values(torrents@),
                now,
            ),
    {
        let ghost given = values(torrents@);
        let ghost first = session_rows(self@, given, now);
        let ghost second = pending_rows(self@.pending, now);
        let mut rows: Vec<TorrentRow> = Vec::new();
        let mut i: usize = 0;
        while i < torrents.len()
            invariant
                i <= torrents@.len(),
                given == values(torrents@),
                first == session_rows(self@, given, now),
                times_fit(first.take(i as int), now),
                values(rows@) == first.take(i as int),
            decreases torrents@.len() - i,
        {
            let ghost before = values(rows@);
            proof {
                assert(given[i as int] == torrents@[i as int]@);
                assert(first[i as int] == session_row(
                    value_at(self@.torrents, given[i as int].info_hash),
                    given[i as int],
                    i,
                    now,
                ));
            }
            let row = match self.row_of(&torrents[i], i, now) {
                Some(row) => row,
                None => {
                    return None;
                },
            };
            let ghost shown = row@;
            rows.push(row);
            proof {
                assert(values(rows@) =~= before.push(shown));
                assert(first.take(i + 1) =~= before.push(shown));
            }
            i = i + 1;
        }
        proof {
            assert(first.take(i as int) =~= first);
            assert(values(rows@) =~= first + second.take(0));
        }
        let mut j: usize = 0;
        while j < self.pending_magnets.entries.len()
            invariant
                j <= self.pending_magnets.entries@.len(),
                second == pending_rows(self@.pending, now),
                times_fit(second.take(j as int), now),
                values(rows@) == first + second.take(j as int),
            decreases self.pending_magnets.entries@.len() - j,
        {
            let ghost before = values(rows@);
            let hash = &self.pending_magnets.entries[j].name;
            let pending = &self.pending_magnets.entries[j].value;
            proof {
                assert(self@.pending[j as int] == (hash@, pending@));
                assert(second[j as int] == pending_row(hash@, pending@, now));
            }
            let added_at = match format_ago_at(pending.added_at, now) {
                Some(text) => text,
                None => {
                    return None;
                },
            };
            let name = name_pending(read_magnet(pending.magnet_url.as_str()), hash);
            let row = TorrentRow {
                slot: None,
                info_hash: hash.clone(),
                name,
                magnet: pending.magnet_url.clone(),
                loaded: false,
                downloaded: 0,
                uploaded: 0,
                size: 0,
                status: String::from_str("Resolving"),
                is_seeding: false,
                started: true,
                added_at,
                added_at_ts: pending.added_at,
            };
            let ghost shown = row@;
            rows.push(row);
            proof {
                assert(shown == second[j as int]);
                assert(values(rows@) =~= before.push(shown));
                assert(first + second.take(j + 1) =~= before.push(shown));
            }
            j = j + 1;
        }
        proof {
            assert(second.take(j as int) =~= second);
        }
        Some(sort_by_rank(rows))
    }
}

/// The list holds every torrent of the session and every link that is being resolved,
/// nothing else, and no line stands behind one that was added earlier.
pub proof fn law_list_is_complete(state: EngineView, torrents: Seq<SessionView>, now: i64)
    ensures
        listed_torrents(state, torrents, now).len() == torrents.len() + state.pending.len(),
        forall|i: int|
            0 <= i < torrents.len() ==> listed_torrents(state, torrents, now).contains(
                #[trigger] session_rows(state, torrents, now)[i],
            ),
        forall|i: int|
            0 <= i < state.pending.len() ==> listed_torrents(state, torrents, now).contains(
                #[trigger] pending_rows(state.pending, now)[i],
            ),
        forall|i: int, j: int|
            0 <= i < j < listed_torrents(state, torrents, now).len() ==> (
            #[trigger] listed_torrents(state, torrents, now)[i]).added_at_ts >= (
            #[trigger] listed_torrents(state, torrents, now)[j]).added_at_ts,
{
    let first = session_rows(state, torrents, now);
    let second = pending_rows(state.pending, now);
    let all = first + second;
    let before = rank_of::<TorrentRow>();
    let sorted = stable_sorted(all, before);
    assert(is_order(before));
    law_sort_is_ordered(all, before);
    law_sort_is_permutation(all, before);
    assert forall|i: int| 0 <= i < torrents.len() implies sorted.contains(#[trigger] first[i]) by {
        assert(all[i] == first[i]);
        lemma_sort_contains(all, before, first[i]);
    }
    assert forall|i: int| 0 <= i < state.pending.len() implies sorted.contains(
        #[trigger] second[i],
    ) by {
        assert(all[first.len() + i] == second[i]);
        lemma_sort_contains(all, before, second[i]);
    }
    assert forall|i: int, j: int| 0 <= i < j < sorted.len() implies (
    #[trigger] sorted[i]).added_at_ts >= (#[trigger] sorted[j]).added_at_ts by {
        assert(!before(sorted[j], sorted[i]));
    }
}

/// What is shown as the link of a torrent is a magnet link, where it came by one, by a
/// torrent file or by the address of one.
pub proof fn law_shown_magnet(source: Seq<char>, hash: Seq<char>, name: Seq<char>)
    requires
        lacks_magnet(source) || "magnet:"@.is_prefix_of(source),
    ensures
        "magnet:"@.is_prefix_of(shown_magnet(source, hash, name)),
{
    if lacks_magnet(source) {
        let r = shown_magnet(source, hash, name);
        reveal_strlit("magnet:");
        reveal_strlit("magnet:?xt=urn:btih:");
        assert("magnet:"@ =~= r.take(7));
    }
}

} // verus!
