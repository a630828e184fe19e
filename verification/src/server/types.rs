//! What is asked of the server, and what it answers where something fails.
use vstd::prelude::*;

use crate::engine::types::{failure_message, EngineError, Failure};
use crate::text::{concat, nonempty_lines, trimmed_lines, views};

verus! {

/// A failure as it is answered.
#[derive(Clone, Debug, PartialEq, Eq)]
pub enum AppError {
    Internal(String),
    NotFound(String),
    InsufficientStorage(String),
}

impl AppError {
    /// The HTTP status.
    pub fn status(&self) -> (r: u16)
        ensures
            r == (match self {
                AppError::Internal(_) => 500u16,
                AppError::NotFound(_) => 404,
                AppError::InsufficientStorage(_) => 507,
            }),
    {
        match self {
            AppError::Internal(_) => 500,
            AppError::NotFound(_) => 404,
            AppError::InsufficientStorage(_) => 507,
        }
    }

    /// The text under `error` in the body.
    pub fn error_text(&self) -> (r: String)
        ensures
            r@ == (match self {
                AppError::Internal(m) => m@,
                AppError::NotFound(m) => m@,
                AppError::InsufficientStorage(m) => m@,
            }),
    {
        match self {
            AppError::Internal(m) => m.clone(),
            AppError::NotFound(m) => m.clone(),
            AppError::InsufficientStorage(m) => m.clone(),
        }
    }

    /// The message for the log.
    pub fn message(&self) -> (r: String)
        ensures
            r@ == (match self {
                AppError::Internal(m) => "Internal Server Error: "@ + m@,
                AppError::NotFound(m) => "Not Found: "@ + m@,
                AppError::InsufficientStorage(m) => "Insufficient Storage: "@ + m@,
            }),
    {
        match self {
            AppError::Internal(m) => concat("Internal Server Error: ", m.as_str()),
            AppError::NotFound(m) => concat("Not Found: ", m.as_str()),
            AppError::InsufficientStorage(m) => concat("Insufficient Storage: ", m.as_str()),
        }
    }
}

/// Whether `answer` is what is answered on `failure`: a lack of room with its own message,
/// anything else as an internal error.
pub open spec fn answers(answer: AppError, failure: Failure) -> bool {
    match failure {
        Failure::Engine(EngineError::InsufficientStorage(message)) => answer matches
            AppError::InsufficientStorage(m) && m@ == message@,
        _ => answer matches AppError::Internal(m) && m@ == failure_message(failure),
    }
}

/// What is answered on a failure.
pub fn map_engine_error(failure: &Failure) -> (r: AppError)
    ensures
        answers(r, *failure),
{
    match failure {
        Failure::Engine(EngineError::InsufficientStorage(message)) => {
            AppError::InsufficientStorage(message.clone())
        },
        Failure::Engine(error) => AppError::Internal(error.message()),
        Failure::Other(message) => AppError::Internal(message.clone()),
    }
}

/// The links and commands in a body, one to a line.
pub fn magnet_lines(body: &str) -> (r: Vec<String>)
    ensures
        views(r@) == trimmed_lines(body@),
{
    nonempty_lines(body)
}

/// What is answered when some of several requests failed: the first failure counts.
pub fn first_failure(failures: &Vec<Failure>) -> (r: Result<(), AppError>)
    ensures
        match r {
            Ok(_) => failures@.len() == 0,
            Err(answer) => failures@.len() > 0 && answers(answer, failures@[0]),
        },
{
    if failures.len() == 0 {
        Ok(())
    } else {
        Err(map_engine_error(&failures[0]))
    }
}

/// A search.
#[derive(Clone, Debug, PartialEq, Eq)]
pub struct SearchQuery {
    pub query: String,
    pub provider: Option<String>,
}

/// A link or command.
#[derive(Clone, Debug, PartialEq, Eq)]
pub struct MagnetQuery {
    pub m: String,
}

/// Whether the feeds are to be refreshed before they are shown.
#[derive(Clone, Debug, PartialEq, Eq, Default)]
pub struct RssQuery {
    pub refresh: bool,
}

/// An item of a feed that is to be loaded.
#[derive(Clone, Debug, PartialEq, Eq)]
pub struct RssLoadRequest {
    pub item_id: String,
    pub load_url: String,
}

} // verus!
