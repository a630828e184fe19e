//! What the user asks of the engine.
use vstd::prelude::*;

use crate::engine::restore::restored_info;
use crate::engine::space::ensure_disk_space_for_download;
use crate::engine::types::{
    EngineError, EngineState, InfoView, PendingMagnet, PendingView, RecordView, TorrentInfo,
    TorrentRecord,
};
use crate::engine::utils::{remaining, storage_error};
use crate::outside::magnets::{fields_opt, magnet_view, read_magnet, MagnetFields, MagnetView};
use crate::rss::loads::is_loadable;
use crate::text::{concat, starts_with, strip_prefix, view_opt};
use crate::textmap::{
    distinct_names, law_with_value, law_without_value, value_at, with_value, without_value,
};

verus! {

/// What the names of the files that are kept of torrents begin with.
pub const CACHE_PREFIX: &'static str = "_CLDAUTOSAVED_";

/// What a text asks for.
#[derive(Clone, Debug, PartialEq, Eq)]
pub enum Command {
    /// To start the torrent with the hash.
    Start(String),
    /// To stop the torrent with the hash.
    Stop(String),
    /// To delete the torrent with the hash.
    Delete(String),
    /// To fetch a torrent file.
    Fetch(String),
    /// To add a link, which is shown under the hash while it is resolved.
    Add(String, Option<String>),
}

/// What a text asks for, in values.
pub enum CommandView {
    Start(Seq<char>),
    Stop(Seq<char>),
    Delete(Seq<char>),
    Fetch(Seq<char>),
    Add(Seq<char>, Option<Seq<char>>),
}

impl View for Command {
    type V = CommandView;

    open spec fn view(&self) -> CommandView {
        match self {
            Command::Start(h) => CommandView::Start(h@),
            Command::Stop(h) => CommandView::Stop(h@),
            Command::Delete(h) => CommandView::Delete(h@),
            Command::Fetch(u) => CommandView::Fetch(u@),
            Command::Add(l, h) => CommandView::Add(l@, view_opt(*h)),
        }
    }
}

/// The hash that was read in a link.
pub open spec fn hash_in(fields: Option<MagnetView>) -> Option<Seq<char>> {
    match fields {
        Some((hash, _)) => hash,
        None => None,
    }
}

/// The hash under which a link is shown while it is resolved.
pub open spec fn pending_hash(link: Seq<char>) -> Option<Seq<char>> {
    if "magnet:"@.is_prefix_of(link) {
        hash_in(magnet_view(link))
    } else {
        None
    }
}

/// What a text asks for.
pub open spec fn command_of(text: Seq<char>) -> CommandView {
    if "start:"@.is_prefix_of(text) {
        CommandView::Start(text.skip("start:"@.len() as int))
    } else if "stop:"@.is_prefix_of(text) {
        CommandView::Stop(text.skip("stop:"@.len() as int))
    } else if "delete:"@.is_prefix_of(text) {
        CommandView::Delete(text.skip("delete:"@.len() as int))
    } else if "http://"@.is_prefix_of(text) || "https://"@.is_prefix_of(text) {
        CommandView::Fetch(text)
    } else {
        CommandView::Add(text, pending_hash(text))
    }
}

/// To add a link in which `fields` were read.
pub fn add_command(link: String, fields: Option<MagnetFields>) -> (r: Command)
    ensures
        r@ == CommandView::Add(link@, hash_in(fields_opt(fields))),
{
    match fields {
        Some(f) => Command::Add(link, f.info_hash),
        None => Command::Add(link, None),
    }
}

/// What a text asks for.
pub fn read_command(text: &str) -> (r: Command)
    ensures
        r@ == command_of(text@),
{
    if let Some(hash) = strip_prefix(text, "start:") {
        return Command::Start(hash);
    }
    if let Some(hash) = strip_prefix(text, "stop:") {
        return Command::Stop(hash);
    }
    if let Some(hash) = strip_prefix(text, "delete:") {
        return Command::Delete(hash);
    }
    let link = String::from_str(text);
    if starts_with(text, "http://") || starts_with(text, "https://") {
        return Command::Fetch(link);
    }
    if starts_with(text, "magnet:") {
        return add_command(link, read_magnet(text));
    }
    add_command(link, None)
}

/// What is to be done with the torrent at hand and with what is stored of it.
#[derive(Clone, Debug, PartialEq, Eq)]
pub enum Effect {
    /// Let it run.
    Resume,
    /// Pause it.
    Pause,
    /// Store this of it.
    Save(TorrentRecord),
    /// Store nothing of it any more.
    Forget,
    /// Move the file with the name to the trash.
    Discard(String),
    /// Take it out of the session.
    Remove,
    /// Tell the task that resolves the link to stop.
    Cancel(u64),
}

/// What is to be done, in values.
pub enum EffectView {
    Resume,
    Pause,
    Save(RecordView),
    Forget,
    Discard(Seq<char>),
    Remove,
    Cancel(u64),
}

impl View for Effect {
    type V = EffectView;

    open spec fn view(&self) -> EffectView {
        match self {
            Effect::Resume => EffectView::Resume,
            Effect::Pause => EffectView::Pause,
            Effect::Save(r) => EffectView::Save(r@),
            Effect::Forget => EffectView::Forget,
            Effect::Discard(n) => EffectView::Discard(n@),
            Effect::Remove => EffectView::Remove,
            Effect::Cancel(t) => EffectView::Cancel(*t),
        }
    }
}

/// Things to be done, in values.
pub open spec fn effect_views(effects: Seq<Effect>) -> Seq<EffectView> {
    effects.map_values(|e: Effect| e@)
}

/// The torrents and the links that are being resolved, in values.
pub struct EngineView {
    pub torrents: Seq<(Seq<char>, InfoView)>,
    pub pending: Seq<(Seq<char>, PendingView)>,
}

impl View for EngineState {
    type V = EngineView;

    open spec fn view(&self) -> EngineView {
        EngineView { torrents: self.torrent_info@, pending: self.pending_magnets@ }
    }
}

/// Whether no hash occurs twice.
pub open spec fn sound_engine(state: EngineView) -> bool {
    distinct_names(state.torrents) && distinct_names(state.pending)
}

/// The state with the torrent told to be started or stopped, where it is known.
pub open spec fn switched(
    state: EngineView,
    hash: Seq<char>,
    started: bool,
    added_at: i64,
) -> EngineView {
    match value_at(state.torrents, hash) {
        Some(info) => EngineView {
            torrents: with_value(state.torrents, hash, InfoView { started, added_at, ..info }),
            ..state
        },
        None => state,
    }
}

/// What is stored of a torrent that was started or stopped, where it is known.
pub open spec fn switch_record(
    state: EngineView,
    hash: Seq<char>,
    started: bool,
    added_at: i64,
) -> Seq<EffectView> {
    match value_at(state.torrents, hash) {
        Some(info) => seq![
            EffectView::Save(RecordView { magnet_or_url: info.magnet, started, added_at }),
        ],
        None => Seq::empty(),
    }
}

/// What stops the task that resolves the link with the hash, where there is one.
pub open spec fn pending_token(state: EngineView, hash: Seq<char>) -> Option<u64> {
    match value_at(state.pending, hash) {
        Some(pending) => pending.cancel,
        None => None,
    }
}

/// Whether more of a torrent is left than there is room for.
pub open spec fn lacks_room(found: (u64, u64), free: u64) -> bool {
    remaining(found.0, found.1) matches Some(required) && required > free
}

/// The message where more of a torrent is left than there is room for.
pub open spec fn room_message(found: (u64, u64), free: u64) -> Seq<char> {
    storage_error(remaining(found.0, found.1).unwrap(), free)
}

/// The name of the file that holds the link of a torrent.
pub open spec fn link_file(hash: Seq<char>) -> Seq<char> {
    CACHE_PREFIX@ + hash + ".info"@
}

/// The name of the file that holds the torrent file of a torrent.
pub open spec fn torrent_file(hash: Seq<char>) -> Seq<char> {
    CACHE_PREFIX@ + hash + ".torrent"@
}

/// The name of the file that holds the link of a torrent.
pub fn link_file_name(hash: &str) -> (r: String)
    ensures
        r@ == link_file(hash@),
{
    let mut name = concat(CACHE_PREFIX, hash);
    name.append(".info");
    name
}

/// The name of the file that holds the torrent file of a torrent.
pub fn torrent_file_name(hash: &str) -> (r: String)
    ensures
        r@ == torrent_file(hash@),
{
    let mut name = concat(CACHE_PREFIX, hash);
    name.append(".torrent");
    name
}

/// Where the torrent with the hash stands among those of the session.
pub fn find_torrent(hashes: &Vec<String>, hash: &String) -> (r: Option<usize>)
    ensures
        match r {
            Some(i) => i < hashes@.len() && hashes@[i as int]@ == hash@ && forall|k: int|
                0 <= k < i ==> (#[trigger] hashes@[k])@ != hash@,
            None => forall|k: int| 0 <= k < hashes@.len() ==> (#[trigger] hashes@[k])@ != hash@,
        },
{
    let mut i: usize = 0;
    while i < hashes.len()
        invariant
            i <= hashes@.len(),
            forall|k: int| 0 <= k < i ==> (#[trigger] hashes@[k])@ != hash@,
        decreases hashes@.len() - i,
    {
        if hashes[i] == *hash {
            return Some(i);
        }
        i = i + 1;
    }
    None
}

/// What is stored of a torrent that comes in at `now`; refused where it is to be started
/// and there is no room for it. `found` tells its size and how much of it is there.
pub fn admission(
    source: &String,
    auto_start: bool,
    found: (u64, u64),
    free: u64,
    now: i64,
) -> (r: Result<TorrentRecord, EngineError>)
    ensures
        match r {
            Ok(record) => !(auto_start && lacks_room(found, free)) && record@ == (RecordView {
                magnet_or_url: source@,
                started: auto_start,
                added_at: if auto_start {
                    now
                } else {
                    0
                },
            }),
            Err(error) => auto_start && lacks_room(found, free) && (error matches
                EngineError::InsufficientStorage(message) && message@ == room_message(found, free)),
        },
{
    if auto_start {
        if let Err(error) = ensure_disk_space_for_download(found.0, found.1, free) {
            return Err(error);
        }
    }
    Ok(
        TorrentRecord {
            magnet_or_url: source.clone(),
            started: auto_start,
            added_at: if auto_start {
                now
            } else {
                0
            },
        },
    )
}

impl EngineState {
    /// Whether the user wants a torrent to run; one of which nothing is known is wanted.
    pub fn is_started(&self, hash: &str) -> (r: bool)
        ensures
            r == (match value_at(self@.torrents, hash@) {
                Some(info) => info.started,
                None => true,
            }),
    {
        match self.torrent_info.get(hash) {
            Some(info) => info.started,
            None => true,
        }
    }

    /// Tells a torrent to be started or stopped, where it is known; what is stored of it.
    fn switch(&mut self, hash: &String, started: bool, added_at: i64) -> (r: Option<TorrentRecord>)
        ensures
            final(self)@ == switched(old(self)@, hash@, started, added_at),
            final(self).config == old(self).config,
            match r {
                Some(record) => switch_record(old(self)@, hash@, started, added_at) == seq![
                    EffectView::Save(record@),
                ],
                None => switch_record(old(self)@, hash@, started, added_at).len() == 0,
            },
    {
        let magnet = match self.torrent_info.get(hash.as_str()) {
            Some(info) => info.magnet.clone(),
            None => {
                return None;
            },
        };
        let record = TorrentRecord { magnet_or_url: magnet.clone(), started, added_at };
        self.torrent_info.insert(hash.clone(), TorrentInfo { started, added_at, magnet });
        Some(record)
    }

    /// Starts the torrent with the hash at `now`. `found` tells its size and how much of
    /// it is there, where it is in the session; `free` is the room for what is started.
    pub fn start_torrent(
        &mut self,
        hash: &String,
        found: Option<(u64, u64)>,
        free: u64,
        now: i64,
    ) -> (r: Result<Vec<Effect>, EngineError>)
        ensures
            final(self).config == old(self).config,
            match found {
                None => final(self)@ == old(self)@ && r is Ok && r.unwrap()@.len() == 0,
                Some(f) => if lacks_room(f, free) {
                    &&& final(self)@ == old(self)@
                    &&& r matches Err(EngineError::InsufficientStorage(message))
                    &&& message@ == room_message(f, free)
                } else {
                    &&& final(self)@ == switched(old(self)@, hash@, true, now)
                    &&& r matches Ok(effects)
                    &&& effect_views(effects@) == seq![EffectView::Resume] + switch_record(
                        old(self)@,
                        hash@,
                        true,
                        now,
                    )
                },
            },
    {
        let mut effects: Vec<Effect> = Vec::new();
        let (total, progress) = match found {
            Some(f) => f,
            None => {
                return Ok(effects);
            },
        };
        if let Err(error) = ensure_disk_space_for_download(total, progress, free) {
            return Err(error);
        }
        effects.push(Effect::Resume);
        if let Some(record) = self.switch(hash, true, now) {
            effects.push(Effect::Save(record));
        }
        proof {
            assert(effect_views(effects@) =~= seq![EffectView::Resume] + switch_record(
                old(self)@,
                hash@,
                true,
                now,
            ));
        }
        Ok(effects)
    }

    /// Stops the torrent with the hash. `found` says whether it is in the session.
    pub fn stop_torrent(&mut self, hash: &String, found: bool) -> (r: Vec<Effect>)
        ensures
            final(self).config == old(self).config,
            final(self)@ == (if found {
                switched(old(self)@, hash@, false, 0)
            } else {
                old(self)@
            }),
            effect_views(r@) == (if found {
                seq![EffectView::Pause] + switch_record(old(self)@, hash@, false, 0)
            } else {
                Seq::empty()
            }),
    {
        let mut effects: Vec<Effect> = Vec::new();
        if found {
            effects.push(Effect::Pause);
            if let Some(record) = self.switch(hash, false, 0) {
                effects.push(Effect::Save(record));
            }
            proof {
                assert(effect_views(effects@) =~= seq![EffectView::Pause] + switch_record(
                    old(self)@,
                    hash@,
                    false,
                    0,
                ));
            }
        } else {
            proof {
                assert(effect_views(effects@) =~= Seq::empty());
            }
        }
        effects
    }

    /// Deletes the torrent with the hash, or gives up resolving the link with it. `found`
    /// says whether the torrent is in the session.
    pub fn delete_torrent(&mut self, hash: &String, found: bool) -> (r: Vec<Effect>)
        ensures
            final(self).config == old(self).config,
            final(self)@ == (if found {
                old(self)@
            } else {
                EngineView { pending: without_value(old(self)@.pending, hash@), ..old(self)@ }
            }),
            effect_views(r@) == (if found {
                seq![
                    EffectView::Forget,
                    EffectView::Discard(link_file(hash@)),
                    EffectView::Remove,
                ]
            } else {
                match pending_token(old(self)@, hash@) {
                    Some(token) => seq![EffectView::Cancel(token)],
                    None => Seq::empty(),
                }
            }),
    {
        let mut effects: Vec<Effect> = Vec::new();
        if found {
            effects.push(Effect::Forget);
            effects.push(Effect::Discard(link_file_name(hash.as_str())));
            effects.push(Effect::Remove);
            proof {
                assert(effect_views(effects@) =~= seq![
                    EffectView::Forget,
                    EffectView::Discard(link_file(hash@)),
                    EffectView::Remove,
                ]);
            }
            return effects;
        }
        if let Some(pending) = self.pending_magnets.remove(hash.as_str()) {
            if let Some(token) = pending.cancel {
                effects.push(Effect::Cancel(token));
                proof {
                    assert(effect_views(effects@) =~= seq![EffectView::Cancel(token)]);
                }
                return effects;
            }
        }
        proof {
            assert(effect_views(effects@) =~= Seq::empty());
        }
        effects
    }

    /// Notes that a link is being resolved since `now`, by the task that `token` stops; what
    /// stops the task that resolved one with the same hash.
    pub fn begin_pending(&mut self, hash: &String, link: &String, now: i64, token: u64) -> (r:
        Option<u64>)
        ensures
            r == pending_token(old(self)@, hash@),
            final(self).config == old(self).config,
            final(self)@ == (EngineView {
                pending: with_value(
                    old(self)@.pending,
                    hash@,
                    PendingView { magnet_url: link@, added_at: now, cancel: Some(token) },
                ),
                ..old(self)@
            }),
    {
        let stopped = self.token_of(hash);
        let pending = PendingMagnet {
            magnet_url: link.clone(),
            added_at: now,
            cancel: Some(token),
        };
        self.pending_magnets.insert(hash.clone(), pending);
        stopped
    }

    /// What stops the task that resolves the link with the hash, where there is one.
    fn token_of(&self, hash: &String) -> (r: Option<u64>)
        ensures
            r == pending_token(self@, hash@),
    {
        match self.pending_magnets.get(hash.as_str()) {
            Some(pending) => pending.cancel,
            None => None,
        }
    }

    /// Notes that a link is no longer being resolved; what stops the task that did.
    pub fn end_pending(&mut self, hash: &String) -> (r: Option<u64>)
        ensures
            r == pending_token(old(self)@, hash@),
            final(self).config == old(self).config,
            final(self)@ == (EngineView {
                pending: without_value(old(self)@.pending, hash@),
                ..old(self)@
            }),
    {
        let stopped = self.token_of(hash);
        let _ = self.pending_magnets.remove(hash.as_str());
        stopped
    }

    /// Takes note of a torrent that was stored.
    pub fn take_in(&mut self, hash: &String, record: &TorrentRecord)
        ensures
            final(self).config == old(self).config,
            final(self)@ == (EngineView {
                torrents: with_value(
                    old(self)@.torrents,
                    hash@,
                    InfoView {
                        started: record.started,
                        added_at: record.added_at,
                        magnet: record.magnet_or_url@,
                    },
                ),
                ..old(self)@
            }),
    {
        let info = restored_info(record);
        self.torrent_info.insert(hash.clone(), info);
    }
}

/// Starting or stopping a torrent changes nothing of any other, and nothing of the links
/// that are being resolved. What is known of it says then whether it is started; its link
/// stays.
pub proof fn law_switch_is_local(
    state: EngineView,
    hash: Seq<char>,
    started: bool,
    added_at: i64,
)
    requires
        sound_engine(state),
    ensures
        sound_engine(switched(state, hash, started, added_at)),
        switched(state, hash, started, added_at).pending == state.pending,
        forall|other: Seq<char>|
            other != hash ==> #[trigger] value_at(
                switched(state, hash, started, added_at).torrents,
                other,
            ) == value_at(state.torrents, other),
        value_at(state.torrents, hash) matches Some(info) ==> value_at(
            switched(state, hash, started, added_at).torrents,
            hash,
        ) == Some(InfoView { started, added_at, magnet: info.magnet }),
        value_at(state.torrents, hash) is None ==> switched(state, hash, started, added_at)
            == state,
{
    if let Some(info) = value_at(state.torrents, hash) {
        law_with_value(state.torrents, hash, InfoView { started, added_at, ..info });
    }
}

/// A link that is no longer being resolved is not shown as such, and a new one does not
/// disturb the others.
pub proof fn law_pending_comes_and_goes(state: EngineView, hash: Seq<char>, pending: PendingView)
    requires
        sound_engine(state),
    ensures
        value_at(with_value(state.pending, hash, pending), hash) == Some(pending),
        value_at(without_value(with_value(state.pending, hash, pending), hash), hash) is None,
        forall|other: Seq<char>|
            other != hash ==> #[trigger] value_at(
                without_value(with_value(state.pending, hash, pending), hash),
                other,
            ) == value_at(state.pending, other),
        distinct_names(without_value(with_value(state.pending, hash, pending), hash)),
{
    law_with_value(state.pending, hash, pending);
    law_without_value(with_value(state.pending, hash, pending), hash);
}

/// A command names the torrent that it was written for.
pub proof fn law_commands_are_read(hash: Seq<char>)
    ensures
        command_of("start:"@ + hash) == CommandView::Start(hash),
        command_of("stop:"@ + hash) == CommandView::Stop(hash),
        command_of("delete:"@ + hash) == CommandView::Delete(hash),
{
    reveal_strlit("start:");
    reveal_strlit("stop:");
    reveal_strlit("delete:");
    let a = "start:"@ + hash;
    assert("start:"@ =~= a.take(6));
    assert(a.skip(6) =~= hash);
    let b = "stop:"@ + hash;
    assert("stop:"@ =~= b.take(5));
    assert(b.skip(5) =~= hash);
    assert(b[2] == 'o');
    assert(!"start:"@.is_prefix_of(b)) by {
        if "start:"@.is_prefix_of(b) {
            assert(b.take(6)[2] == b[2]);
        }
    }
    let c = "delete:"@ + hash;
    assert("delete:"@ =~= c.take(7));
    assert(c.skip(7) =~= hash);
    assert(c[0] == 'd');
    assert(!"start:"@.is_prefix_of(c)) by {
        if "start:"@.is_prefix_of(c) {
            assert(c.take(6)[0] == c[0]);
        }
    }
    assert(!"stop:"@.is_prefix_of(c)) by {
        if "stop:"@.is_prefix_of(c) {
            assert(c.take(5)[0] == c[0]);
        }
    }
}

/// What the items of a feed are loaded from never starts, stops or deletes a torrent.
pub proof fn law_loading_is_no_command(url: Seq<char>)
    requires
        is_loadable(url),
    ensures
        command_of(url) is Fetch || command_of(url) is Add,
{
    reveal_strlit("start:");
    reveal_strlit("stop:");
    reveal_strlit("delete:");
    reveal_strlit("magnet:");
    reveal_strlit("http");
    if "magnet:"@.is_prefix_of(url) {
        assert(url.take(7)[0] == url[0]);
    } else {
        assert(url.take(4)[0] == url[0]);
    }
    if "start:"@.is_prefix_of(url) {
        assert(url.take(6)[0] == url[0]);
    }
    if "stop:"@.is_prefix_of(url) {
        assert(url.take(5)[0] == url[0]);
    }
    if "delete:"@.is_prefix_of(url) {
        assert(url.take(7)[0] == url[0]);
    }
}

} // verus!
