//! The error taxonomy of the relay core.
//!
//! Transport and protocol failures end one session or one request; routing
//! failures drop one event; only supervisor-level failures end the process.

use vstd::prelude::*;

verus! {

/// Everything that can go wrong inside the relay core.
#[derive(Debug, PartialEq)]
pub enum ServerError {
    /// A session's socket failed (handshake, read or write).
    WebSocket,
    /// An incoming event body was not a well-formed message.
    Json,
    /// An event addressed a username with no registered session.
    NotFound,
    /// The addressed session's delivery queue was at capacity.
    Full,
    /// The peer under this username closed the connection.
    Closed(String),
    /// An ingress listener could not use its socket (such as a failure to
    /// bind its address).
    Io,
    /// An ingress task ended abnormally instead of returning.
    Join,
    /// The supervisor found no tasks running at all.
    NoTasks,
}

impl Clone for ServerError {
    fn clone(&self) -> (r: Self)
        ensures
            r == *self,
    {
        match self {
            ServerError::WebSocket => ServerError::WebSocket,
            ServerError::Json => ServerError::Json,
            ServerError::NotFound => ServerError::NotFound,
            ServerError::Full => ServerError::Full,
            ServerError::Closed(u) => ServerError::Closed(u.clone()),
            ServerError::Io => ServerError::Io,
            ServerError::Join => ServerError::Join,
            ServerError::NoTasks => ServerError::NoTasks,
        }
    }
}

} // verus!
