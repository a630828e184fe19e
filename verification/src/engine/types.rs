//! What the engine keeps.
use vstd::prelude::*;

use crate::common::Config;
use crate::outside::clock::unix_seconds;
use crate::text::concat;
use crate::textmap::TextMap;

verus! {

/// A torrent as it is stored.
#[derive(Clone, Debug, PartialEq, Eq)]
pub struct TorrentRecord {
    pub magnet_or_url: String,
    pub started: bool,
    pub added_at: i64,
}

/// The values of a stored torrent.
pub struct RecordView {
    pub magnet_or_url: Seq<char>,
    pub started: bool,
    pub added_at: i64,
}

impl View for TorrentRecord {
    type V = RecordView;

    open spec fn view(&self) -> RecordView {
        RecordView {
            magnet_or_url: self.magnet_or_url@,
            started: self.started,
            added_at: self.added_at,
        }
    }
}

/// Seconds since the epoch as a time stamp, where there are any.
pub fn added_at_of(seconds: Option<u64>) -> (r: Option<i64>)
    ensures
        r == (match seconds {
            Some(s) => Some(s as i64),
            None => None,
        }),
{
    match seconds {
        Some(s) => Some(s as i64),
        None => None,
    }
}

/// The present time stamp; `None` while the clock stands before the epoch.
pub fn default_added_at() -> Option<i64> {
    added_at_of(unix_seconds())
}

/// A list of trackers, and the time at which it was fetched.
#[derive(Clone, Debug, PartialEq, Eq)]
pub struct CachedTrackers {
    pub list: Vec<String>,
    pub updated_at: u64,
}

/// What is known of a torrent.
#[derive(Clone, Debug, PartialEq, Eq)]
pub struct TorrentInfo {
    pub started: bool,
    pub added_at: i64,
    pub magnet: String,
}

/// The values of what is known of a torrent.
pub struct InfoView {
    pub started: bool,
    pub added_at: i64,
    pub magnet: Seq<char>,
}

impl View for TorrentInfo {
    type V = InfoView;

    open spec fn view(&self) -> InfoView {
        InfoView { started: self.started, added_at: self.added_at, magnet: self.magnet@ }
    }
}

/// A magnet link that is being resolved. `cancel` tells the task that resolves it.
#[derive(Clone, Debug, PartialEq, Eq)]
pub struct PendingMagnet {
    pub magnet_url: String,
    pub added_at: i64,
    pub cancel: Option<u64>,
}

/// The values of a magnet link that is being resolved.
pub struct PendingView {
    pub magnet_url: Seq<char>,
    pub added_at: i64,
    pub cancel: Option<u64>,
}

impl View for PendingMagnet {
    type V = PendingView;

    open spec fn view(&self) -> PendingView {
        PendingView {
            magnet_url: self.magnet_url@,
            added_at: self.added_at,
            cancel: self.cancel,
        }
    }
}

/// The settings, the torrents and the magnet links that are being resolved, the last two
/// under their info hashes.
pub struct EngineState {
    pub config: Config,
    pub torrent_info: TextMap<TorrentInfo>,
    pub pending_magnets: TextMap<PendingMagnet>,
}

/// Why something could not be done.
#[derive(Clone, Debug, PartialEq, Eq)]
pub enum EngineError {
    Database(String),
    Serialization(String),
    Io(String),
    Torrent(String),
    Internal(String),
    InsufficientStorage(String),
}

/// The message of an error.
pub open spec fn error_message(error: EngineError) -> Seq<char> {
    match error {
        EngineError::Database(m) => "Database error: "@ + m@,
        EngineError::Serialization(m) => "Serialization error: "@ + m@,
        EngineError::Io(m) => "IO error: "@ + m@,
        EngineError::Torrent(m) => "Torrent error: "@ + m@,
        EngineError::Internal(m) => "Internal error: "@ + m@,
        EngineError::InsufficientStorage(m) => "Insufficient storage: "@ + m@,
    }
}

impl EngineError {
    /// The message of the error.
    pub fn message(&self) -> (r: String)
        ensures
            r@ == error_message(*self),
    {
        match self {
            EngineError::Database(m) => concat("Database error: ", m.as_str()),
            EngineError::Serialization(m) => concat("Serialization error: ", m.as_str()),
            EngineError::Io(m) => concat("IO error: ", m.as_str()),
            EngineError::Torrent(m) => concat("Torrent error: ", m.as_str()),
            EngineError::Internal(m) => concat("Internal error: ", m.as_str()),
            EngineError::InsufficientStorage(m) => concat("Insufficient storage: ", m.as_str()),
        }
    }
}

/// The values of an error.
pub enum ErrorView {
    Database(Seq<char>),
    Serialization(Seq<char>),
    Io(Seq<char>),
    Torrent(Seq<char>),
    Internal(Seq<char>),
    InsufficientStorage(Seq<char>),
}

impl View for EngineError {
    type V = ErrorView;

    open spec fn view(&self) -> ErrorView {
        match self {
            EngineError::Database(m) => ErrorView::Database(m@),
            EngineError::Serialization(m) => ErrorView::Serialization(m@),
            EngineError::Io(m) => ErrorView::Io(m@),
            EngineError::Torrent(m) => ErrorView::Torrent(m@),
            EngineError::Internal(m) => ErrorView::Internal(m@),
            EngineError::InsufficientStorage(m) => ErrorView::InsufficientStorage(m@),
        }
    }
}

/// What went wrong in the engine: an error of its own, or the message of another.
#[derive(Clone, Debug, PartialEq, Eq)]
pub enum Failure {
    Engine(EngineError),
    Other(String),
}

/// The message of a failure.
pub open spec fn failure_message(failure: Failure) -> Seq<char> {
    match failure {
        Failure::Engine(error) => error_message(error),
        Failure::Other(message) => message@,
    }
}

/// The values of a failure.
pub enum FailureView {
    Engine(ErrorView),
    Other(Seq<char>),
}

impl View for Failure {
    type V = FailureView;

    open spec fn view(&self) -> FailureView {
        match self {
            Failure::Engine(error) => FailureView::Engine(error@),
            Failure::Other(message) => FailureView::Other(message@),
        }
    }
}

} // verus!
