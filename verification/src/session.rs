//! What the reader of one connection does with what it reads.

use vstd::prelude::*;
use crate::ids::ClientId;
use crate::update::{RoomStateUpdate, RoomStateUpdateFromClient, UpdateFromClientView, UpdateView};

verus! {

/// What the transport has handed to the reader of a session.
#[derive(Debug, PartialEq, Eq)]
pub enum WireEvent {
    /// A text message that holds an update.
    Update(RoomStateUpdate),
    /// A text message that could not be read as an update.
    Malformed,
    /// A message of a kind that carries no update.
    Unexpected,
    /// The client has closed the connection.
    Closed,
    /// The connection has failed.
    Failed,
}

/// A [`WireEvent`] as a mathematical value.
pub enum WireEventView {
    Update(UpdateView),
    Malformed,
    Unexpected,
    Closed,
    Failed,
}

impl View for WireEvent {
    type V = WireEventView;

    open spec fn view(&self) -> WireEventView {
        match *self {
            WireEvent::Update(update) => WireEventView::Update(update@),
            WireEvent::Malformed => WireEventView::Malformed,
            WireEvent::Unexpected => WireEventView::Unexpected,
            WireEvent::Closed => WireEventView::Closed,
            WireEvent::Failed => WireEventView::Failed,
        }
    }
}

/// What the reader of a session does next.
#[derive(Debug, PartialEq, Eq)]
pub enum ReaderAction {
    /// Hand the update to the coordinator and read on.
    Forward(RoomStateUpdateFromClient),
    /// Hand the update to the coordinator and stop reading.
    ForwardAndStop(RoomStateUpdateFromClient),
    /// Hand nothing on and read on.
    Skip,
}

/// A [`ReaderAction`] as a mathematical value.
pub enum ReaderActionView {
    Forward(UpdateFromClientView),
    ForwardAndStop(UpdateFromClientView),
    Skip,
}

impl View for ReaderAction {
    type V = ReaderActionView;

    open spec fn view(&self) -> ReaderActionView {
        match *self {
            ReaderAction::Forward(msg) => ReaderActionView::Forward(msg@),
            ReaderAction::ForwardAndStop(msg) => ReaderActionView::ForwardAndStop(msg@),
            ReaderAction::Skip => ReaderActionView::Skip,
        }
    }
}

/// The Disconnect that the reader makes up for a session whose connection
/// has ended.
pub open spec fn departure(client_id: ClientId) -> UpdateFromClientView {
    UpdateFromClientView { client_id: client_id.0, update: UpdateView::Disconnect }
}

/// What the reader of session `client_id` does with `event`: an update goes
/// to the coordinator under the session's id; a message that holds none is
/// passed over, and costs the session nothing; the end of the connection,
/// however it came, makes a Disconnect of the session and ends the reading.
pub open spec fn reader_action(client_id: ClientId, event: WireEventView) -> ReaderActionView {
    match event {
        WireEventView::Update(update) => ReaderActionView::Forward(
            UpdateFromClientView { client_id: client_id.0, update },
        ),
        WireEventView::Malformed => ReaderActionView::Skip,
        WireEventView::Unexpected => ReaderActionView::Skip,
        WireEventView::Closed => ReaderActionView::ForwardAndStop(departure(client_id)),
        WireEventView::Failed => ReaderActionView::ForwardAndStop(departure(client_id)),
    }
}

/// Decides what the reader of session `client_id` does with `event`.
pub fn on_wire_event(client_id: ClientId, event: WireEvent) -> (action: ReaderAction)
    ensures
        action@ == reader_action(client_id, event@),
{
    match event {
        WireEvent::Update(update) => ReaderAction::Forward(
            RoomStateUpdateFromClient { client_id: client_id.0, update },
        ),
        WireEvent::Malformed => ReaderAction::Skip,
        WireEvent::Unexpected => ReaderAction::Skip,
        WireEvent::Closed => ReaderAction::ForwardAndStop(
            RoomStateUpdateFromClient {
                client_id: client_id.0,
                update: RoomStateUpdate::Disconnect,
            },
        ),
        WireEvent::Failed => ReaderAction::ForwardAndStop(
            RoomStateUpdateFromClient {
                client_id: client_id.0,
                update: RoomStateUpdate::Disconnect,
            },
        ),
    }
}

/// The reader ends exactly when the connection has ended, and it never ends
/// without a Disconnect of its session.
pub proof fn reader_stops_with_disconnect(client_id: ClientId, event: WireEventView)
    ensures
        reader_action(client_id, event) is ForwardAndStop <==> event is Closed || event is Failed,
        reader_action(client_id, event) matches ReaderActionView::ForwardAndStop(msg) ==> msg
            == departure(client_id),
{
}

/// Whatever the reader hands on bears the id of its own session, and an
/// update that was read is handed on as it was read.
pub proof fn reader_speaks_for_its_session(client_id: ClientId, event: WireEventView)
    ensures
        reader_action(client_id, event) matches ReaderActionView::Forward(msg) ==> msg.client_id
            == client_id.0 && event == WireEventView::Update(msg.update),
        reader_action(client_id, event) matches ReaderActionView::ForwardAndStop(msg)
            ==> msg.client_id == client_id.0,
        event is Update ==> reader_action(client_id, event) is Forward,
{
}

/// The subprotocol that a client has to offer to be let in.
pub const SUBPROTOCOL: &'static str = "giogadi";

/// Whether a client that offers `protocols` is let in: the subprotocol of
/// this server has to be among them.
pub fn speaks_subprotocol(protocols: &Vec<String>) -> (r: bool)
    ensures
        r == exists|i: int|
            0 <= i < protocols@.len() && (#[trigger] protocols@[i])@ == SUBPROTOCOL@,
{
    let wanted = SUBPROTOCOL.to_owned();
    let mut i: usize = 0;
    while i < protocols.len()
        invariant
            i <= protocols@.len(),
            wanted@ == SUBPROTOCOL@,
            forall|j: int| 0 <= j < i ==> (#[trigger] protocols@[j])@ != SUBPROTOCOL@,
        decreases protocols@.len() - i,
    {
        if protocols[i] == wanted {
            return true;
        }
        i = i + 1;
    }
    false
}

} // verus!
