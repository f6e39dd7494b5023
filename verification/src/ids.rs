//! Identifiers handed out by the server.

use vstd::prelude::*;

verus! {

/// Identifier of one accepted connection. Identifiers are handed out in
/// increasing order and are never reused.
#[derive(Debug, Clone, Copy, PartialEq, Eq, Structural)]
pub struct ClientId(pub i32);

/// Identifier of a room. A server instance serves a single room.
#[derive(Debug, Clone, Copy, PartialEq, Eq, Structural)]
pub struct RoomId(pub i32);

} // verus!
