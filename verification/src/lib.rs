//! Coordinator of a shared sequencer session: one document, many clients.
//!
//! Every client holds a long-lived connection to the server. Clients edit
//! one small shared document, a grid of notes per instrument together with
//! the roster of connected users. The [`Coordinator`] owns the document and
//! the registry of live sessions, takes one update at a time, and says which
//! messages go to which session. A session is sent the whole document before
//! it is sent any single edit, and it may not edit anything before that.
//!
//! Nothing here reads a socket or encodes a message. The program around this
//! library hands in decoded updates and carries out the deliveries it gets
//! back.

pub mod coordinator;
pub mod document;
pub mod filters;
pub mod guarantees;
pub mod history;
pub mod ids;
pub mod inbox;
pub mod registry;
pub mod replica;
pub mod roster;
pub mod session;
pub mod update;

pub use coordinator::{Coordinator, Delivery, Departure, Disposition, Outbound, StepOutcome};
pub use document::{RoomState, SynthParam, Violation};
pub use ids::{ClientId, RoomId};
pub use registry::ClientInfo;
pub use session::{on_wire_event, speaks_subprotocol, ReaderAction, WireEvent};
pub use update::{RoomStateUpdate, RoomStateUpdateFromClient};
