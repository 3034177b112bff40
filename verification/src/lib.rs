//! Connection, room and session bookkeeping for a WebSocket server, with
//! the decisions of the message loop and the token claims format.

pub mod auth;
pub mod claims;
pub mod connection;
pub mod laws;
pub mod manager;
pub mod room;
pub mod strmap;
pub mod text;

use vstd::prelude::*;

verus! {

/// Unique identifier of a connection: the 128-bit value of its UUID.
pub type ConnectionId = u128;

} // verus!
