//! What holds of the adding of a torrent from its beginning to its end.
use vstd::prelude::*;

use crate::engine::adding::{
    add_begun, add_next, engine_after, stopped_by, ActionView, AddAction, AddEvent, AddEventView,
    AddView, SourceView, StageView,
};
use crate::engine::commands::{sound_engine, EngineView};
use crate::engine::trackers::{law_trackers_are_added, trackers_for_file};
use crate::engine::types::{ErrorView, FailureView, InfoView, RecordView};
use crate::outside::codec::hex_encoded;
use crate::outside::urls::encoded_text;
use crate::text::{contains, views};
use crate::textmap::{law_with_value, value_at};

verus! {

/// A torrent whose adding ends without a failure has been started exactly if what is added is
/// to be started, whatever it was added from: only what is to be started is ever told to
/// start, and it does not end otherwise; what is not to be started ends as soon as it is
/// written.
pub proof fn law_added_is_started(run: AddView, event: AddEventView)
    ensures
        add_next(run, event).1 == ActionView::Finish(None) && run.auto_start ==> run.stage is Start
            && event is Started,
        add_next(run, event).1 == ActionView::Finish(None) && !run.auto_start ==> (run.stage is Start
            && event is Started) || (run.stage is File && event is Written),
        add_next(run, event).1 is Start ==> run.auto_start && run.stage is File && event is Written,
        add_next(run, event).0.stage is Start && !(run.stage is Start) ==> add_next(
            run,
            event,
        ).1 is Start,
        run.stage is File && event == AddEventView::Written(None) && run.auto_start ==> add_next(
            run,
            event,
        ).1 is Start && add_next(run, event).0.stage is Start,
        run.stage is File && event == AddEventView::Written(None) && !run.auto_start ==> add_next(
            run,
            event,
        ).1 == ActionView::Finish(None),
        run.stage is Start && event is Started ==> add_next(run, event).1 == ActionView::Finish(
            None,
        ),
{
}

/// No step changes what a torrent is added from, under which hash it is shown, or whether it
/// is given trackers and started.
pub proof fn law_adding_keeps_its_aim(run: AddView, event: AddEventView)
    ensures
        add_next(run, event).0.source == run.source,
        add_next(run, event).0.pending == run.pending,
        add_next(run, event).0.always_add == run.always_add,
        add_next(run, event).0.auto_start == run.auto_start,
        add_begun(run).0.source == run.source,
        add_begun(run).0.pending == run.pending,
        add_begun(run).0.always_add == run.always_add,
        add_begun(run).0.auto_start == run.auto_start,
{
}

/// A torrent for which there is room is stored, written and started in turn where nothing
/// fails. What is stored is the link, or the bytes of the file in hexadecimal digits; it says
/// whether the torrent is to be started, and since when it is there.
pub proof fn law_adding_succeeds(
    run: AddView,
    hash: Seq<char>,
    found: (u64, u64),
    free: u64,
    now: i64,
)
    requires
        run.stage is Session,
        !run.auto_start || found.0 <= found.1 + free,
    ensures
        ({
            let added = add_next(run, AddEventView::Added { hash, found, free, now });
            let stored = add_next(added.0, AddEventView::Stored(None));
            let written = add_next(stored.0, AddEventView::Written(None));
            let record = RecordView {
                magnet_or_url: match run.source {
                    SourceView::Link(link) => link,
                    SourceView::Bytes { bytes, .. } => "torrent_bytes:"@ + hex_encoded(bytes),
                },
                started: run.auto_start,
                added_at: if run.auto_start {
                    now
                } else {
                    0
                },
            };
            &&& added.1 == ActionView::Store(hash, record)
            &&& stored.1 == ActionView::Write(
                match run.source {
                    SourceView::Link(_) => "_CLDAUTOSAVED_"@ + hash + ".info"@,
                    SourceView::Bytes { .. } => "_CLDAUTOSAVED_"@ + hash + ".torrent"@,
                },
            )
            &&& if run.auto_start {
                &&& written.1 is Start
                &&& add_next(written.0, AddEventView::Started).1 == ActionView::Finish(None)
            } else {
                written.1 == ActionView::Finish(None)
            }
        }),
{
}

/// A torrent that is to be started is refused exactly where more of it is missing than there
/// is room for; one that is not to be started is never refused.
pub proof fn law_refused_for_room(
    run: AddView,
    hash: Seq<char>,
    found: (u64, u64),
    free: u64,
    now: i64,
)
    requires
        run.stage is Session,
    ensures
        ({
            let added = add_next(run, AddEventView::Added { hash, found, free, now });
            &&& added.1 is Remove <==> run.auto_start && found.0 > found.1 + free
            &&& added.1 is Store <==> !(run.auto_start && found.0 > found.1 + free)
        }),
{
}

/// What fails ends the adding with the failure that is told: of a link the writing may not
/// fail, of a torrent file it may. Being given up ends it at every stage.
pub proof fn law_failure_is_told(run: AddView, message: Seq<char>, error: ErrorView)
    ensures
        run.stage is Session ==> add_next(run, AddEventView::NotAdded(message)).1
            == ActionView::Finish(Some(FailureView::Other(message))),
        run.stage is Storage ==> add_next(run, AddEventView::Stored(Some(error))).1
            == ActionView::Finish(Some(FailureView::Engine(error))),
        run.stage == StageView::Removal(error) ==> add_next(run, AddEventView::Removed).1
            == ActionView::Finish(Some(FailureView::Engine(error))),
        run.stage is File && run.source is Link ==> add_next(
            run,
            AddEventView::Written(Some(message)),
        ).1 == ActionView::Finish(Some(FailureView::Other(message))),
        run.stage is File && run.source is Bytes ==> add_next(
            run,
            AddEventView::Written(Some(message)),
        ) == add_next(run, AddEventView::Written(None)),
        !(run.stage is End) ==> add_next(run, AddEventView::Cancelled).1 == ActionView::Finish(
            Some(FailureView::Other("magnet add was cancelled"@)),
        ),
{
}

/// The engine knows of a torrent as soon as it is stored, and nothing else of what it knows
/// changes.
pub proof fn law_stored_is_known(
    state: EngineView,
    run: AddView,
    hash: Seq<char>,
    record: RecordView,
)
    requires
        sound_engine(state),
        run.stage == StageView::Storage(hash, record),
    ensures
        value_at(engine_after(state, run, AddEventView::Stored(None)).torrents, hash) == Some(
            InfoView {
                started: record.started,
                added_at: record.added_at,
                magnet: record.magnet_or_url,
            },
        ),
        forall|other: Seq<char>|
            other != hash ==> #[trigger] value_at(
                engine_after(state, run, AddEventView::Stored(None)).torrents,
                other,
            ) == value_at(state.torrents, other),
{
    law_with_value(
        state.torrents,
        hash,
        InfoView {
            started: record.started,
            added_at: record.added_at,
            magnet: record.magnet_or_url,
        },
    );
}

/// A step that ends the adding stops the task that resolves the link, and no other step stops
/// anything.
pub proof fn law_end_stops_the_task(
    state: EngineView,
    run: AddView,
    event: AddEventView,
    hash: Seq<char>,
)
    requires
        run.pending == Some(hash),
    ensures
        add_next(run, event).1 is Finish ==> stopped_by(state, run, event) == (match value_at(
            state.pending,
            hash,
        ) {
            Some(pending) => pending.cancel,
            None => None,
        }),
        !(add_next(run, event).1 is Finish) ==> stopped_by(state, run, event) is None,
{
}

/// A link reaches the session as it was given, or, where it is a magnet link that names no
/// tracker or every torrent is given some, with each of the trackers that were found behind
/// it.
pub proof fn law_link_reaches_the_session(run: AddView, link: Seq<char>, list: Seq<Seq<char>>)
    requires
        run.source == SourceView::Link(link),
    ensures
        add_begun(run).1 is FindTrackers <==> "magnet:"@.is_prefix_of(link) && (run.always_add
            || !contains(link, "&tr="@)),
        !(add_begun(run).1 is FindTrackers) ==> add_begun(run).1 == ActionView::AddLink(link)
            && add_begun(run).0.stage is Session,
        add_begun(run).1 is FindTrackers ==> {
            let (next, action) = add_next(add_begun(run).0, AddEventView::Trackers(list));
            &&& next.stage is Session
            &&& action matches ActionView::AddLink(given)
            &&& link.is_prefix_of(given)
            &&& forall|i: int|
                0 <= i < list.len() ==> contains(given, encoded_text(#[trigger] list[i]))
        },
{
    law_trackers_are_added(link, list);
}

/// A torrent file reaches the session with all trackers that were found for it, where it
/// names none or every torrent is given some, and else with none beside its own.
pub proof fn law_file_reaches_the_session(run: AddView, list: Seq<Seq<char>>)
    requires
        run.source is Bytes,
    ensures
        add_begun(run).1 is FindTrackers <==> run.always_add || !run.source->has_trackers,
        !(add_begun(run).1 is FindTrackers) ==> add_begun(run).1 == ActionView::AddBytes(
            Seq::empty(),
        ) && add_begun(run).0.stage is Session,
        add_begun(run).1 is FindTrackers ==> add_next(
            add_begun(run).0,
            AddEventView::Trackers(list),
        ).1 == ActionView::AddBytes(list) && add_next(
            add_begun(run).0,
            AddEventView::Trackers(list),
        ).0.stage is Session,
        trackers_for_file(true, false, list).len() == 0,
        trackers_for_file(false, run.always_add, list) == list,
        trackers_for_file(run.source->has_trackers, true, list) == list,
{
}

/// What happened is taken for what it was: above all a failure for a failure.
pub proof fn law_events_are_understood(event: AddEvent)
    ensures
        match event {
            AddEvent::Trackers(list) => event@ == AddEventView::Trackers(views(list@)),
            AddEvent::Added { hash, found, free, now } => event@ == (AddEventView::Added {
                hash: hash@,
                found,
                free,
                now,
            }),
            AddEvent::NotAdded(message) => event@ == AddEventView::NotAdded(message@),
            AddEvent::Removed => event@ is Removed,
            AddEvent::Stored(Ok(_)) => event@ == AddEventView::Stored(None),
            AddEvent::Stored(Err(error)) => event@ == AddEventView::Stored(Some(error@)),
            AddEvent::Written(Ok(_)) => event@ == AddEventView::Written(None),
            AddEvent::Written(Err(message)) => event@ == AddEventView::Written(Some(message@)),
            AddEvent::Started => event@ is Started,
            AddEvent::Cancelled => event@ is Cancelled,
        },
{
}

/// What is to be done is told for what it is: above all a failure for a failure.
pub proof fn law_actions_are_told(action: AddAction)
    ensures
        match action {
            AddAction::FindTrackers => action@ is FindTrackers,
            AddAction::AddLink(link) => action@ == ActionView::AddLink(link@),
            AddAction::AddBytes(list) => action@ == ActionView::AddBytes(views(list@)),
            AddAction::Remove => action@ is Remove,
            AddAction::Store(hash, record) => action@ == ActionView::Store(hash@, record@),
            AddAction::Write(name) => action@ == ActionView::Write(name@),
            AddAction::Start => action@ is Start,
            AddAction::Finish(Ok(_)) => action@ == ActionView::Finish(None),
            AddAction::Finish(Err(failure)) => action@ == ActionView::Finish(Some(failure@)),
            AddAction::Wait => action@ is Wait,
        },
{
}

} // verus!
