//! Adding a torrent, step by step.
use vstd::prelude::*;

use crate::engine::commands::{
    admission, lacks_room, link_file, link_file_name, pending_token, room_message, sound_engine,
    torrent_file, torrent_file_name, EngineView,
};
use crate::engine::restore::{source_of_bytes, stored_bytes};
use crate::engine::trackers::{
    add_trackers, file_wants_trackers, needs_trackers, trackers_for_file, wants_trackers,
    with_trackers,
};
use crate::engine::types::{
    EngineError, EngineState, ErrorView, Failure, FailureView, InfoView, RecordView, TorrentRecord,
};
use crate::text::{view_opt, views};
use crate::textmap::{law_with_value, law_without_value, value_at, with_value, without_value};

verus! {

/// What a torrent is added from: a link, or the bytes of a torrent file. `has_trackers` tells
/// whether the file names trackers.
#[derive(Clone, Debug, PartialEq, Eq)]
pub enum AddSource {
    Link(String),
    Bytes { bytes: Vec<u8>, has_trackers: bool },
}

/// What a torrent is added from, in values.
pub enum SourceView {
    Link(Seq<char>),
    Bytes { bytes: Seq<u8>, has_trackers: bool },
}

impl View for AddSource {
    type V = SourceView;

    open spec fn view(&self) -> SourceView {
        match self {
            AddSource::Link(link) => SourceView::Link(link@),
            AddSource::Bytes { bytes, has_trackers } => SourceView::Bytes {
                bytes: bytes@,
                has_trackers: *has_trackers,
            },
        }
    }
}

/// What is waited for while a torrent is added.
#[derive(Clone, Debug, PartialEq, Eq)]
pub enum AddStage {
    /// The trackers.
    Trackers,
    /// That the session has the torrent.
    Session,
    /// That the session has it no more, because of the error.
    Removal(EngineError),
    /// That the record under the hash is stored.
    Storage(String, TorrentRecord),
    /// That what is kept of it is written.
    File,
    /// That it runs.
    Start,
    /// Nothing.
    End,
}

/// What is waited for, in values.
pub enum StageView {
    Trackers,
    Session,
    Removal(ErrorView),
    Storage(Seq<char>, RecordView),
    File,
    Start,
    End,
}

impl View for AddStage {
    type V = StageView;

    open spec fn view(&self) -> StageView {
        match self {
            AddStage::Trackers => StageView::Trackers,
            AddStage::Session => StageView::Session,
            AddStage::Removal(error) => StageView::Removal(error@),
            AddStage::Storage(hash, record) => StageView::Storage(hash@, record@),
            AddStage::File => StageView::File,
            AddStage::Start => StageView::Start,
            AddStage::End => StageView::End,
        }
    }
}

/// A torrent that is being added. `pending` is the hash under which it is shown meanwhile,
/// `always_add` says whether every torrent is given trackers, `auto_start` whether what is
/// added is started.
pub struct AddRun {
    pub source: AddSource,
    pub pending: Option<String>,
    pub always_add: bool,
    pub auto_start: bool,
    pub stage: AddStage,
}

/// The values of a torrent that is being added.
pub struct AddView {
    pub source: SourceView,
    pub pending: Option<Seq<char>>,
    pub always_add: bool,
    pub auto_start: bool,
    pub stage: StageView,
}

impl View for AddRun {
    type V = AddView;

    open spec fn view(&self) -> AddView {
        AddView {
            source: self.source@,
            pending: view_opt(self.pending),
            always_add: self.always_add,
            auto_start: self.auto_start,
            stage: self.stage@,
        }
    }
}

/// What happened while a torrent is added.
#[derive(Debug, PartialEq, Eq)]
pub enum AddEvent {
    /// The trackers are known.
    Trackers(Vec<String>),
    /// The session has the torrent. `found` tells its size and how much of it is there,
    /// `free` the room for what is started.
    Added { hash: String, found: (u64, u64), free: u64, now: i64 },
    /// The session does not take it, for this reason.
    NotAdded(String),
    /// The session has it no more.
    Removed,
    /// The record is stored, or not.
    Stored(Result<(), EngineError>),
    /// What is kept of it is written, or not.
    Written(Result<(), String>),
    /// It was told to run.
    Started,
    /// The user gave it up.
    Cancelled,
}

/// What came of a step that can fail, in values.
pub open spec fn stored_view(r: Result<(), EngineError>) -> Option<ErrorView> {
    match r {
        Ok(_) => None,
        Err(error) => Some(error@),
    }
}

/// What came of writing, in values.
pub open spec fn written_view(r: Result<(), String>) -> Option<Seq<char>> {
    match r {
        Ok(_) => None,
        Err(message) => Some(message@),
    }
}

/// What happened, in values: of what can fail the error, if there is one.
pub enum AddEventView {
    Trackers(Seq<Seq<char>>),
    Added { hash: Seq<char>, found: (u64, u64), free: u64, now: i64 },
    NotAdded(Seq<char>),
    Removed,
    Stored(Option<ErrorView>),
    Written(Option<Seq<char>>),
    Started,
    Cancelled,
}

impl View for AddEvent {
    type V = AddEventView;

    open spec fn view(&self) -> AddEventView {
        match self {
            AddEvent::Trackers(list) => AddEventView::Trackers(views(list@)),
            AddEvent::Added { hash, found, free, now } => AddEventView::Added {
                hash: hash@,
                found: *found,
                free: *free,
                now: *now,
            },
            AddEvent::NotAdded(message) => AddEventView::NotAdded(message@),
            AddEvent::Removed => AddEventView::Removed,
            AddEvent::Stored(r) => AddEventView::Stored(stored_view(*r)),
            AddEvent::Written(r) => AddEventView::Written(written_view(*r)),
            AddEvent::Started => AddEventView::Started,
            AddEvent::Cancelled => AddEventView::Cancelled,
        }
    }
}

/// What is to be done next.
#[derive(Debug, PartialEq, Eq)]
pub enum AddAction {
    /// Find the trackers.
    FindTrackers,
    /// Add this link to the session, paused.
    AddLink(String),
    /// Add the bytes to the session, paused and with these trackers.
    AddBytes(Vec<String>),
    /// Take the torrent out of the session again.
    Remove,
    /// Store the record under the hash.
    Store(String, TorrentRecord),
    /// Write what is kept of it to the file with the name, unless there is such a file.
    Write(String),
    /// Let it run.
    Start,
    /// Nothing more; this came of it.
    Finish(Result<(), Failure>),
    /// Wait for something else.
    Wait,
}

/// What came of adding a torrent, in values.
pub open spec fn outcome_view(r: Result<(), Failure>) -> Option<FailureView> {
    match r {
        Ok(_) => None,
        Err(failure) => Some(failure@),
    }
}

/// What is to be done next, in values: of what came of it the failure, if there is one.
pub enum ActionView {
    FindTrackers,
    AddLink(Seq<char>),
    AddBytes(Seq<Seq<char>>),
    Remove,
    Store(Seq<char>, RecordView),
    Write(Seq<char>),
    Start,
    Finish(Option<FailureView>),
    Wait,
}

impl View for AddAction {
    type V = ActionView;

    open spec fn view(&self) -> ActionView {
        match self {
            AddAction::FindTrackers => ActionView::FindTrackers,
            AddAction::AddLink(link) => ActionView::AddLink(link@),
            AddAction::AddBytes(list) => ActionView::AddBytes(views(list@)),
            AddAction::Remove => ActionView::Remove,
            AddAction::Store(hash, record) => ActionView::Store(hash@, record@),
            AddAction::Write(name) => ActionView::Write(name@),
            AddAction::Start => ActionView::Start,
            AddAction::Finish(r) => ActionView::Finish(outcome_view(*r)),
            AddAction::Wait => ActionView::Wait,
        }
    }
}

/// What a torrent is stored as.
pub open spec fn stored_as(source: SourceView) -> Seq<char> {
    match source {
        SourceView::Link(link) => link,
        SourceView::Bytes { bytes, .. } => stored_bytes(bytes),
    }
}

/// The name of the file in which a torrent is kept.
pub open spec fn kept_in(source: SourceView, hash: Seq<char>) -> Seq<char> {
    match source {
        SourceView::Link(_) => link_file(hash),
        SourceView::Bytes { .. } => torrent_file(hash),
    }
}

/// A torrent at `stage` of being added.
pub open spec fn at_stage(run: AddView, stage: StageView) -> AddView {
    AddView { stage, ..run }
}

/// The end of adding a torrent.
pub open spec fn ended(run: AddView, failure: Option<FailureView>) -> (AddView, ActionView) {
    (at_stage(run, StageView::End), ActionView::Finish(failure))
}

/// The beginning of adding a torrent: one that is to be given trackers waits for them.
pub open spec fn add_begun(run: AddView) -> (AddView, ActionView) {
    match run.source {
        SourceView::Link(link) => if wants_trackers(link, run.always_add) {
            (at_stage(run, StageView::Trackers), ActionView::FindTrackers)
        } else {
            (at_stage(run, StageView::Session), ActionView::AddLink(link))
        },
        SourceView::Bytes { has_trackers, .. } => if file_wants_trackers(
            has_trackers,
            run.always_add,
        ) {
            (at_stage(run, StageView::Trackers), ActionView::FindTrackers)
        } else {
            (at_stage(run, StageView::Session), ActionView::AddBytes(Seq::empty()))
        },
    }
}

/// What is added to the session once the trackers are known.
pub open spec fn add_with(source: SourceView, list: Seq<Seq<char>>) -> ActionView {
    match source {
        SourceView::Link(link) => ActionView::AddLink(with_trackers(link, list)),
        SourceView::Bytes { .. } => ActionView::AddBytes(list),
    }
}

/// What is stored of a torrent that the session has since `now`.
pub open spec fn added_record(run: AddView, now: i64) -> RecordView {
    RecordView {
        magnet_or_url: stored_as(run.source),
        started: run.auto_start,
        added_at: if run.auto_start {
            now
        } else {
            0
        },
    }
}

/// How adding a torrent goes on, and what is to be done. One that is to be started and has
/// no room is taken out again; one that the session has is stored, then kept in a file,
/// then started. An event that is not waited for changes nothing.
pub open spec fn add_next(run: AddView, event: AddEventView) -> (AddView, ActionView) {
    match (run.stage, event) {
        (StageView::End, _) => (run, ActionView::Wait),
        (_, AddEventView::Cancelled) => ended(
            run,
            Some(FailureView::Other("magnet add was cancelled"@)),
        ),
        (StageView::Trackers, AddEventView::Trackers(list)) => (
            at_stage(run, StageView::Session),
            add_with(run.source, list),
        ),
        (StageView::Session, AddEventView::NotAdded(message)) => ended(
            run,
            Some(FailureView::Other(message)),
        ),
        (StageView::Session, AddEventView::Added { hash, found, free, now }) => if run.auto_start
            && lacks_room(found, free) {
            (
                at_stage(
                    run,
                    StageView::Removal(ErrorView::InsufficientStorage(room_message(found, free))),
                ),
                ActionView::Remove,
            )
        } else {
            (
                at_stage(run, StageView::Storage(hash, added_record(run, now))),
                ActionView::Store(hash, added_record(run, now)),
            )
        },
        (StageView::Removal(error), AddEventView::Removed) => ended(
            run,
            Some(FailureView::Engine(error)),
        ),
        (StageView::Storage(hash, record), AddEventView::Stored(result)) => match result {
            None => (at_stage(run, StageView::File), ActionView::Write(kept_in(run.source, hash))),
            Some(error) => ended(run, Some(FailureView::Engine(error))),
        },
        (StageView::File, AddEventView::Written(result)) => match (result, run.source) {
            (Some(message), SourceView::Link(_)) => ended(run, Some(FailureView::Other(message))),
            _ => if run.auto_start {
                (at_stage(run, StageView::Start), ActionView::Start)
            } else {
                ended(run, None)
            },
        },
        (StageView::Start, AddEventView::Started) => ended(run, None),
        _ => (run, ActionView::Wait),
    }
}

/// The torrent that the engine knows of behind a step: one whose record was stored.
pub open spec fn taken_in(run: AddView, event: AddEventView) -> Option<(Seq<char>, RecordView)> {
    match (run.stage, event) {
        (StageView::Storage(hash, record), AddEventView::Stored(None)) => Some((hash, record)),
        _ => None,
    }
}

/// The engine behind a step: it knows of a torrent once that is stored, and a link is
/// shown as pending until nothing more is to be done.
pub open spec fn engine_after(state: EngineView, run: AddView, event: AddEventView) -> EngineView {
    EngineView {
        torrents: match taken_in(run, event) {
            Some((hash, record)) => with_value(
                state.torrents,
                hash,
                InfoView {
                    started: record.started,
                    added_at: record.added_at,
                    magnet: record.magnet_or_url,
                },
            ),
            None => state.torrents,
        },
        pending: match (run.pending, add_next(run, event).1) {
            (Some(hash), ActionView::Finish(_)) => without_value(state.pending, hash),
            _ => state.pending,
        },
    }
}

/// What stops the task that a step takes off the list of pending links.
pub open spec fn stopped_by(state: EngineView, run: AddView, event: AddEventView) -> Option<u64> {
    match (run.pending, add_next(run, event).1) {
        (Some(hash), ActionView::Finish(_)) => pending_token(state, hash),
        _ => None,
    }
}

impl AddRun {
    /// Begins to add a torrent, and tells what is to be done.
    pub fn begin(
        source: AddSource,
        pending: Option<String>,
        always_add: bool,
        auto_start: bool,
    ) -> (r: (AddRun, AddAction))
        ensures
            (r.0@, r.1@) == add_begun(
                AddView {
                    source: source@,
                    pending: view_opt(pending),
                    always_add,
                    auto_start,
                    stage: StageView::Session,
                },
            ),
    {
        let (stage, action) = match &source {
            AddSource::Link(link) => if needs_trackers(link.as_str(), always_add) {
                (AddStage::Trackers, AddAction::FindTrackers)
            } else {
                (AddStage::Session, AddAction::AddLink(link.clone()))
            },
            AddSource::Bytes { has_trackers, .. } => if always_add || !*has_trackers {
                (AddStage::Trackers, AddAction::FindTrackers)
            } else {
                let none: Vec<String> = Vec::new();
                proof {
                    assert(views(none@) =~= Seq::empty());
                }
                (AddStage::Session, AddAction::AddBytes(none))
            },
        };
        (AddRun { source, pending, always_add, auto_start, stage }, action)
    }

    /// What the torrent is stored as.
    fn stored_as(&self) -> (r: String)
        ensures
            r@ == stored_as(self@.source),
    {
        match &self.source {
            AddSource::Link(link) => link.clone(),
            AddSource::Bytes { bytes, .. } => source_of_bytes(bytes.as_slice()),
        }
    }

    /// The name of the file in which the torrent is kept.
    fn kept_in(&self, hash: &String) -> (r: String)
        ensures
            r@ == kept_in(self@.source, hash@),
    {
        match &self.source {
            AddSource::Link(_) => link_file_name(hash.as_str()),
            AddSource::Bytes { .. } => torrent_file_name(hash.as_str()),
        }
    }

    /// What is added to the session once the trackers are known.
    fn add_with(&self, list: Vec<String>) -> (r: AddAction)
        ensures
            r@ == add_with(self@.source, views(list@)),
    {
        match &self.source {
            AddSource::Link(link) => AddAction::AddLink(add_trackers(link.clone(), &list)),
            AddSource::Bytes { .. } => AddAction::AddBytes(list),
        }
    }
}

/// Whether the end of adding a torrent is told: always where it was added, else where it was
/// shown as pending.
pub fn announces(run: &AddRun, failed: bool) -> (r: bool)
    ensures
        r == (!failed || run.pending is Some),
{
    !failed || run.pending.is_some()
}

impl EngineState {
    /// Ends the adding of a torrent: it is not shown as pending any more.
    fn end_add(&mut self, run: &mut AddRun, outcome: Result<(), Failure>) -> (r: (
        AddAction,
        Option<u64>,
    ))
        ensures
            (final(run)@, r.0@) == ended(old(run)@, outcome_view(outcome)),
            r.1 == (match old(run)@.pending {
                Some(hash) => pending_token(old(self)@, hash),
                None => None,
            }),
            final(self).config == old(self).config,
            final(self)@ == (EngineView {
                pending: match old(run)@.pending {
                    Some(hash) => without_value(old(self)@.pending, hash),
                    None => old(self)@.pending,
                },
                ..old(self)@
            }),
    {
        run.stage = AddStage::End;
        let stopped = match &run.pending {
            Some(hash) => self.end_pending(hash),
            None => None,
        };
        (AddAction::Finish(outcome), stopped)
    }

    /// Goes on with the adding of a torrent, and tells what is to be done, and what stops
    /// the task that was taken off the list of pending links.
    pub fn add_step(&mut self, run: &mut AddRun, event: AddEvent) -> (r: (AddAction, Option<u64>))
        ensures
            (final(run)@, r.0@) == add_next(old(run)@, event@),
            r.1 == stopped_by(old(self)@, old(run)@, event@),
            final(self).config == old(self).config,
            final(self)@ == engine_after(old(self)@, old(run)@, event@),
    {
        let mut stage = AddStage::End;
        std::mem::swap(&mut stage, &mut run.stage);
        match (stage, event) {
            (AddStage::End, _) => (AddAction::Wait, None),
            (_, AddEvent::Cancelled) => {
                let told = String::from_str("magnet add was cancelled");
                self.end_add(run, Err(Failure::Other(told)))
            },
            (AddStage::Trackers, AddEvent::Trackers(list)) => {
                run.stage = AddStage::Session;
                (run.add_with(list), None)
            },
            (AddStage::Session, AddEvent::NotAdded(message)) => {
                self.end_add(run, Err(Failure::Other(message)))
            },
            (AddStage::Session, AddEvent::Added { hash, found, free, now }) => {
                match admission(&run.stored_as(), run.auto_start, found, free, now) {
                    Ok(record) => {
                        let stored = TorrentRecord {
                            magnet_or_url: record.magnet_or_url.clone(),
                            started: record.started,
                            added_at: record.added_at,
                        };
                        run.stage = AddStage::Storage(hash.clone(), stored);
                        (AddAction::Store(hash, record), None)
                    },
                    Err(error) => {
                        run.stage = AddStage::Removal(error);
                        (AddAction::Remove, None)
                    },
                }
            },
            (AddStage::Removal(error), AddEvent::Removed) => {
                self.end_add(run, Err(Failure::Engine(error)))
            },
            (AddStage::Storage(hash, record), AddEvent::Stored(result)) => match result {
                Ok(_) => {
                    self.take_in(&hash, &record);
                    run.stage = AddStage::File;
                    (AddAction::Write(run.kept_in(&hash)), None)
                },
                Err(error) => self.end_add(run, Err(Failure::Engine(error))),
            },
            (AddStage::File, AddEvent::Written(result)) => {
                if let Err(message) = result {
                    if let AddSource::Link(_) = &run.source {
                        return self.end_add(run, Err(Failure::Other(message)));
                    }
                }
                if run.auto_start {
                    run.stage = AddStage::Start;
                    (AddAction::Start, None)
                } else {
                    self.end_add(run, Ok(()))
                }
            },
            (AddStage::Start, AddEvent::Started) => self.end_add(run, Ok(())),
            (stage, _) => {
                run.stage = stage;
                (AddAction::Wait, None)
            },
        }
    }
}

/// A torrent that is to be started and has no room is taken out of the session again. The
/// engine does not come to know of it, and the user is told why.
pub proof fn law_refused_is_forgotten(
    state: EngineView,
    run: AddView,
    hash: Seq<char>,
    found: (u64, u64),
    free: u64,
    now: i64,
)
    requires
        run.stage is Session,
        run.auto_start,
        lacks_room(found, free),
    ensures
        ({
            let added = AddEventView::Added { hash, found, free, now };
            let (waiting, action) = add_next(run, added);
            &&& action is Remove
            &&& engine_after(state, run, added) == state
            &&& add_next(waiting, AddEventView::Removed).1 == ActionView::Finish(
                Some(
                    FailureView::Engine(
                        ErrorView::InsufficientStorage(room_message(found, free)),
                    ),
                ),
            )
            &&& engine_after(state, waiting, AddEventView::Removed).torrents == state.torrents
        }),
{
}

/// A link is shown as pending until nothing more is to be done, and not any longer; no other
/// link is touched.
pub proof fn law_pending_until_the_end(
    state: EngineView,
    run: AddView,
    event: AddEventView,
    hash: Seq<char>,
)
    requires
        sound_engine(state),
        run.pending == Some(hash),
    ensures
        sound_engine(engine_after(state, run, event)),
        add_next(run, event).1 is Finish ==> value_at(
            engine_after(state, run, event).pending,
            hash,
        ) is None,
        !(add_next(run, event).1 is Finish) ==> engine_after(state, run, event).pending
            == state.pending,
        forall|other: Seq<char>|
            other != hash ==> #[trigger] value_at(engine_after(state, run, event).pending, other)
                == value_at(state.pending, other),
{
    law_without_value(state.pending, hash);
    if let Some((name, record)) = taken_in(run, event) {
        law_with_value(
            state.torrents,
            name,
            InfoView {
                started: record.started,
                added_at: record.added_at,
                magnet: record.magnet_or_url,
            },
        );
    }
}

/// The engine comes to know of a torrent only by its being stored, and then knows of it what
/// was stored.
pub proof fn law_known_is_stored(
    state: EngineView,
    run: AddView,
    event: AddEventView,
    hash: Seq<char>,
)
    requires
        sound_engine(state),
        value_at(engine_after(state, run, event).torrents, hash) != value_at(state.torrents, hash),
    ensures
        event == AddEventView::Stored(None),
        run.stage matches StageView::Storage(name, record) && name == hash && value_at(
            engine_after(state, run, event).torrents,
            hash,
        ) == Some(
            InfoView {
                started: record.started,
                added_at: record.added_at,
                magnet: record.magnet_or_url,
            },
        ),
{
    if let Some((name, record)) = taken_in(run, event) {
        law_with_value(
            state.torrents,
            name,
            InfoView {
                started: record.started,
                added_at: record.added_at,
                magnet: record.magnet_or_url,
            },
        );
    }
}

/// A torrent file reaches the session with the trackers that it is to be given, be it at
/// once or when they are known.
pub proof fn law_file_is_given_trackers(run: AddView, list: Seq<Seq<char>>)
    requires
        run.source is Bytes,
    ensures
        ({
            let has_trackers = run.source->has_trackers;
            let (begun, action) = add_begun(run);
            let given = ActionView::AddBytes(trackers_for_file(has_trackers, run.always_add, list));
            if action is FindTrackers {
                add_next(begun, AddEventView::Trackers(list)).1 == given
            } else {
                action == given
            }
        }),
{
}

/// How far a torrent is from having been added.
pub open spec fn steps_left(stage: StageView) -> nat {
    match stage {
        StageView::Trackers => 5,
        StageView::Session => 4,
        StageView::Storage(_, _) => 3,
        StageView::File => 2,
        StageView::Removal(_) => 1,
        StageView::Start => 1,
        StageView::End => 0,
    }
}

/// Every step that does not wait brings the adding of a torrent nearer to its end, and it is
/// at its end exactly where nothing more is to be done.
pub proof fn law_adding_ends(run: AddView, event: AddEventView)
    ensures
        !(add_next(run, event).1 is Wait) ==> steps_left(add_next(run, event).0.stage)
            < steps_left(run.stage),
        add_next(run, event).1 is Wait ==> add_next(run, event).0 == run,
        add_next(run, event).1 is Finish ==> add_next(run, event).0.stage is End,
        !(run.stage is End) && add_next(run, event).0.stage is End ==> add_next(
            run,
            event,
        ).1 is Finish,
{
}

} // verus!
