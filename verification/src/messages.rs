//! The messages that clients send to the server.

use vstd::prelude::*;

verus! {

/// What a client can ask of the server.
#[derive(Debug, PartialEq, Eq)]
pub enum ClientMessage {
    /// Leave the session that the connection remembers.
    LeaveSession,
    /// Open a new session and enter it.
    CreateSession,
    /// Enter the session of the given name, which is opened if it is unknown.
    JoinSession(String),
}

} // verus!
