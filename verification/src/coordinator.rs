//! The one place where the document and the registry change.

use vstd::prelude::*;
use crate::document::{RoomState, RoomStateView, Violation};
use crate::ids::ClientId;
use crate::registry::{
    find_session, ids_increase, lemma_session_position_some, session_position, synced,
    ClientInfo,
};
use crate::roster::{lemma_roster_position_some, roster_has};
use crate::update::{RoomStateUpdate, RoomStateUpdateFromClient, UpdateFromClientView, UpdateView};

verus! {

/// A message for one session.
#[derive(Debug, PartialEq, Eq)]
pub enum Outbound {
    /// The whole document, as it stands when the session is let in.
    Snapshot(RoomState),
    /// One update that was carried out, as its sender sent it.
    Diff(RoomStateUpdateFromClient),
}

/// An [`Outbound`] as a mathematical value.
pub enum OutboundView {
    Snapshot(RoomStateView),
    Diff(UpdateFromClientView),
}

impl View for Outbound {
    type V = OutboundView;

    open spec fn view(&self) -> OutboundView {
        match *self {
            Outbound::Snapshot(state) => OutboundView::Snapshot(state@),
            Outbound::Diff(msg) => OutboundView::Diff(msg@),
        }
    }
}

/// A message and the session whose channel it is put on.
#[derive(Debug, PartialEq, Eq)]
pub struct Delivery {
    pub to: ClientId,
    pub message: Outbound,
}

/// A [`Delivery`] as a mathematical value.
pub struct DeliveryView {
    pub to: ClientId,
    pub message: OutboundView,
}

impl View for Delivery {
    type V = DeliveryView;

    open spec fn view(&self) -> DeliveryView {
        DeliveryView { to: self.to, message: self.message@ }
    }
}

impl DeepView for Delivery {
    type V = DeliveryView;

    open spec fn deep_view(&self) -> DeliveryView {
        self@
    }
}

/// What became of an update.
#[derive(Debug, Clone, Copy, PartialEq, Eq, Structural)]
pub enum Disposition {
    /// It was carried out and sent on to every synced session.
    Applied,
    /// No live session has the sender's id: the update came too late.
    UnknownSession,
    /// The sender has not been sent the document yet and tried to edit.
    NotSynced,
    /// The update broke a rule of the document.
    Rejected(Violation),
}

/// A session that has left.
#[derive(Debug, Clone, Copy, PartialEq, Eq, Structural)]
pub struct Departure {
    /// The id that the session had.
    pub id: ClientId,
    /// Whether the roster held the session: it did not if the session left
    /// before it had declared a name.
    pub named: bool,
}

/// All that one step of the coordinator asks of the program around it.
#[derive(Debug, PartialEq, Eq)]
pub struct StepOutcome {
    /// What became of the update.
    pub disposition: Disposition,
    /// The messages to put on the sessions' channels, in this order.
    pub deliveries: Vec<Delivery>,
    /// The session that has left: its channel is to be closed.
    pub departed: Option<Departure>,
}

/// A [`StepOutcome`] as a mathematical value.
pub struct StepOutcomeView {
    pub disposition: Disposition,
    pub deliveries: Seq<DeliveryView>,
    pub departed: Option<Departure>,
}

impl View for StepOutcome {
    type V = StepOutcomeView;

    open spec fn view(&self) -> StepOutcomeView {
        StepOutcomeView {
            disposition: self.disposition,
            deliveries: self.deliveries.deep_view(),
            departed: self.departed,
        }
    }
}

/// The test by which a session counts as a receiver of edits.
pub open spec fn receives_edits() -> spec_fn(ClientInfo) -> bool {
    |c: ClientInfo| c.sent_state_sync
}

/// The delivery of `msg` to a session.
pub open spec fn diff_for(msg: UpdateFromClientView) -> spec_fn(ClientInfo) -> DeliveryView {
    |c: ClientInfo| DeliveryView { to: c.id, message: OutboundView::Diff(msg) }
}

/// `msg` for each synced one of `sessions`, in their order.
pub open spec fn fan_out(sessions: Seq<ClientInfo>, msg: UpdateFromClientView) -> Seq<
    DeliveryView,
> {
    sessions.filter(receives_edits()).map_values(diff_for(msg))
}

/// Nothing is sent where there is no session.
pub proof fn lemma_fan_out_empty(msg: UpdateFromClientView)
    ensures
        fan_out(Seq::empty(), msg) == Seq::<DeliveryView>::empty(),
{
    reveal(Seq::filter);
    assert(fan_out(Seq::empty(), msg) =~= Seq::<DeliveryView>::empty());
}

/// One more session gets the message if it is synced, and changes nothing
/// for the others.
pub proof fn lemma_fan_out_push(sessions: Seq<ClientInfo>, c: ClientInfo, msg: UpdateFromClientView)
    ensures
        fan_out(sessions.push(c), msg) == if c.sent_state_sync {
            fan_out(sessions, msg).push(diff_for(msg)(c))
        } else {
            fan_out(sessions, msg)
        },
{
    sessions.lemma_filter_push(c, receives_edits());
    if c.sent_state_sync {
        sessions.filter(receives_edits()).lemma_push_map_commute(diff_for(msg), c);
    }
}

/// The document, the registry and the next id to hand out, as a
/// mathematical value.
pub struct CoordinatorView {
    pub document: RoomStateView,
    pub sessions: Seq<ClientInfo>,
    pub next_id: i32,
}

impl CoordinatorView {
    /// A room that nobody has entered.
    pub open spec fn initial() -> CoordinatorView {
        CoordinatorView { document: RoomStateView::initial(), sessions: Seq::empty(), next_id: 0 }
    }

    /// What holds of the coordinator at all times: the document has its
    /// shape; ids grow along the registry and lie below the next id to hand
    /// out; and a session has an identity exactly when it is synced.
    pub open spec fn inv(self) -> bool {
        &&& self.document.wf()
        &&& 0 <= self.next_id
        &&& ids_increase(self.sessions)
        &&& forall|i: int|
            0 <= i < self.sessions.len() ==> 0 <= (#[trigger] self.sessions[i]).id.0 < self.next_id
        &&& forall|i: int|
            0 <= i < self.sessions.len() ==> (#[trigger] self.sessions[i]).received_username
                == self.sessions[i].sent_state_sync
    }

    /// Whether an id is left to hand out.
    pub open spec fn can_accept(self) -> bool {
        self.next_id < i32::MAX
    }

    /// The coordinator after it has taken in one more connection.
    pub open spec fn accept(self) -> CoordinatorView {
        CoordinatorView {
            sessions: self.sessions.push(ClientInfo::spec_fresh(ClientId(self.next_id))),
            next_id: (self.next_id + 1) as i32,
            ..self
        }
    }

    /// What becomes of `msg`: it is dropped where its sender is not
    /// registered, where the sender is not synced and `msg` is an edit, and
    /// where it breaks a rule of the document; else it is carried out.
    pub open spec fn disposition(self, msg: UpdateFromClientView) -> Disposition {
        match session_position(self.sessions, msg.client_id) {
            None => Disposition::UnknownSession,
            Some(i) => {
                if !self.sessions[i].sent_state_sync && !msg.update.is_session_control() {
                    Disposition::NotSynced
                } else {
                    match self.document.violation(msg.update) {
                        Some(v) => Disposition::Rejected(v),
                        None => Disposition::Applied,
                    }
                }
            },
        }
    }

    /// The registry after `msg` has been carried out: Connect marks the
    /// sender as synced, Disconnect takes the sender out.
    pub open spec fn sessions_after(self, msg: UpdateFromClientView) -> Seq<ClientInfo> {
        match session_position(self.sessions, msg.client_id) {
            None => self.sessions,
            Some(i) => match msg.update {
                UpdateView::Connect { .. } => self.sessions.update(
                    i,
                    self.sessions[i].marked_synced(),
                ),
                UpdateView::Disconnect => self.sessions.remove(i),
                _ => self.sessions,
            },
        }
    }

    /// The coordinator after `msg`. A dropped update changes nothing.
    pub open spec fn step(self, msg: UpdateFromClientView) -> CoordinatorView {
        if self.disposition(msg) is Applied {
            CoordinatorView {
                document: self.document.apply(msg),
                sessions: self.sessions_after(msg),
                next_id: self.next_id,
            }
        } else {
            self
        }
    }

    /// The messages that `msg` gives rise to. A dropped update gives none.
    /// A Connect gives its sender the document as it is after the Connect.
    /// After that, every session that is synced by then is sent `msg`
    /// itself, in the order of the registry.
    pub open spec fn deliveries(self, msg: UpdateFromClientView) -> Seq<DeliveryView> {
        if self.disposition(msg) is Applied {
            let after = self.step(msg);
            let greeting = if msg.update is Connect {
                seq![
                    DeliveryView {
                        to: ClientId(msg.client_id),
                        message: OutboundView::Snapshot(after.document),
                    },
                ]
            } else {
                Seq::empty()
            };
            greeting + fan_out(after.sessions, msg)
        } else {
            Seq::empty()
        }
    }

    /// The session that `msg` has made leave, and whether the roster held
    /// it until then.
    pub open spec fn departed(self, msg: UpdateFromClientView) -> Option<Departure> {
        if self.disposition(msg) is Applied && msg.update is Disconnect {
            Some(
                Departure {
                    id: ClientId(msg.client_id),
                    named: roster_has(self.document.connected_clients, msg.client_id),
                },
            )
        } else {
            None
        }
    }

    /// All that `msg` asks of the program around the coordinator.
    pub open spec fn outcome(self, msg: UpdateFromClientView) -> StepOutcomeView {
        StepOutcomeView {
            disposition: self.disposition(msg),
            deliveries: self.deliveries(msg),
            departed: self.departed(msg),
        }
    }
}

/// Owner of the document and of the registry of live sessions.
///
/// Updates of all sessions come through [`Coordinator::step`], one at a
/// time; the order in which they are taken is the order in which every
/// client sees them.
pub struct Coordinator {
    state: RoomState,
    connections: Vec<ClientInfo>,
    next_id: i32,
}

impl View for Coordinator {
    type V = CoordinatorView;

    closed spec fn view(&self) -> CoordinatorView {
        CoordinatorView {
            document: self.state@,
            sessions: self.connections@,
            next_id: self.next_id,
        }
    }
}

impl Coordinator {
    /// A coordinator for a room that nobody has entered.
    pub fn new() -> (c: Coordinator)
        ensures
            c@ == CoordinatorView::initial(),
            c@.inv(),
    {
        Coordinator { state: RoomState::new(), connections: Vec::new(), next_id: 0 }
    }

    /// The document as it stands.
    pub fn document(&self) -> (state: &RoomState)
        ensures
            state@ == self@.document,
    {
        &self.state
    }

    /// The record of the session with the id `id`, if it is live.
    pub fn session(&self, id: ClientId) -> (r: Option<ClientInfo>)
        ensures
            r == match session_position(self@.sessions, id.0) {
                Some(i) => Some(self@.sessions[i]),
                None => None,
            },
    {
        match find_session(&self.connections, id.0) {
            Some(i) => Some(self.connections[i]),
            None => None,
        }
    }

    /// Takes in a connection that the transport has accepted, and hands out
    /// its id. The session starts unsynced and without an identity. Ids
    /// count up from zero; none is handed out twice. Nothing is taken in
    /// once the ids have run out.
    pub fn accept(&mut self) -> (r: Option<ClientId>)
        ensures
            old(self)@.inv() ==> final(self)@.inv(),
            match r {
                Some(id) => {
                    &&& old(self)@.can_accept()
                    &&& id.0 == old(self)@.next_id
                    &&& final(self)@ == old(self)@.accept()
                },
                None => !old(self)@.can_accept() && final(self)@ == old(self)@,
            },
    {
        if self.next_id == i32::MAX {
            return None;
        }
        let id = ClientId(self.next_id);
        self.connections.push(ClientInfo::fresh(id));
        self.next_id = self.next_id + 1;
        Some(id)
    }

    /// Takes one update through the whole of its processing.
    ///
    /// An update of an unknown session is dropped, and so is an edit of a
    /// session that is not synced, and an edit that breaks a rule of the
    /// document. Any other update is carried out on the document and the
    /// registry, and sent on: a Connect first brings its sender the whole
    /// document and makes it synced; then the update goes to every session
    /// that is synced by then, its sender among them.
    pub fn step(&mut self, msg: &RoomStateUpdateFromClient) -> (out: StepOutcome)
        ensures
            final(self)@ == old(self)@.step(msg@),
            out@ == old(self)@.outcome(msg@),
            old(self)@.inv() ==> final(self)@.inv(),
            !(out.disposition is Applied) ==> final(self)@ == old(self)@ && out@.deliveries.len()
                == 0 && out.departed is None,
            !synced(old(self)@.sessions, msg.client_id) && !msg@.update.is_session_control()
                ==> !(out.disposition is Applied),
            old(self)@.document.violation(msg@.update) is Some ==> !(out.disposition is Applied),
    {
        let source_ix = match find_session(&self.connections, msg.client_id) {
            Some(i) => i,
            None => {
                return Coordinator::dropped(Disposition::UnknownSession);
            },
        };
        if !self.connections[source_ix].sent_state_sync && !msg.update.is_session_control() {
            return Coordinator::dropped(Disposition::NotSynced);
        }
        let named = self.state.roster_position(msg.client_id).is_some();
        match self.state.apply(msg) {
            Err(v) => {
                return Coordinator::dropped(Disposition::Rejected(v));
            },
            Ok(()) => {},
        }
        let mut deliveries: Vec<Delivery> = Vec::new();
        let mut departed: Option<Departure> = None;
        match &msg.update {
            RoomStateUpdate::Connect { .. } => {
                let source = self.connections[source_ix];
                deliveries.push(
                    Delivery {
                        to: ClientId(msg.client_id),
                        message: Outbound::Snapshot(self.state.clone()),
                    },
                );
                self.connections[source_ix] = ClientInfo {
                    id: source.id,
                    received_username: true,
                    sent_state_sync: true,
                };
            },
            RoomStateUpdate::Disconnect => {
                self.connections.remove(source_ix);
                departed = Some(Departure { id: ClientId(msg.client_id), named });
            },
            _ => {},
        }
        let ghost before = old(self)@;
        let ghost greeting = deliveries.deep_view();
        proof {
            lemma_session_position_some(before.sessions, msg@.client_id);
            lemma_roster_position_some(before.document.connected_clients, msg@.client_id);
            assert(self.connections@ =~= before.sessions_after(msg@));
            assert(self@ == before.step(msg@));
            lemma_fan_out_empty(msg@);
            assert(self.connections@.take(0) =~= Seq::empty());
            assert(greeting =~= if msg@.update is Connect {
                seq![
                    DeliveryView {
                        to: ClientId(msg@.client_id),
                        message: OutboundView::Snapshot(self@.document),
                    },
                ]
            } else {
                Seq::empty()
            });
            assert(deliveries.deep_view() =~= greeting + fan_out(self.connections@.take(0), msg@));
        }
        let mut i: usize = 0;
        while i < self.connections.len()
            invariant
                i <= self.connections@.len(),
                deliveries.deep_view() == greeting + fan_out(
                    self.connections@.take(i as int),
                    msg@,
                ),
            decreases self.connections@.len() - i,
        {
            let ghost sent = deliveries.deep_view();
            let client_info = self.connections[i];
            if client_info.sent_state_sync {
                deliveries.push(
                    Delivery { to: client_info.id, message: Outbound::Diff(msg.clone()) },
                );
            }
            proof {
                let seen = self.connections@.take(i as int);
                assert(self.connections@.take(i + 1) =~= seen.push(client_info));
                lemma_fan_out_push(seen, client_info, msg@);
                if client_info.sent_state_sync {
                    assert(deliveries.deep_view() =~= sent.push(diff_for(msg@)(client_info)));
                    assert(deliveries.deep_view() =~= greeting + fan_out(
                        self.connections@.take(i + 1),
                        msg@,
                    ));
                }
            }
            i = i + 1;
        }
        proof {
            assert(self.connections@.take(i as int) =~= self.connections@);
            if before.inv() {
                before.lemma_step_keeps_inv(msg@);
            }
        }
        StepOutcome { disposition: Disposition::Applied, deliveries, departed }
    }

    /// The outcome of an update that was dropped.
    fn dropped(disposition: Disposition) -> (out: StepOutcome)
        ensures
            out@ == (StepOutcomeView { disposition, deliveries: Seq::empty(), departed: None }),
    {
        let out = StepOutcome { disposition, deliveries: Vec::new(), departed: None };
        assert(out@.deliveries =~= Seq::empty());
        out
    }
}

impl CoordinatorView {
    /// Taking in a connection keeps what holds at all times.
    pub proof fn lemma_accept_keeps_inv(self)
        requires
            self.inv(),
            self.can_accept(),
        ensures
            self.accept().inv(),
    {
    }

    /// Taking an update keeps what holds at all times.
    pub proof fn lemma_step_keeps_inv(self, msg: UpdateFromClientView)
        requires
            self.inv(),
        ensures
            self.step(msg).inv(),
    {
        if self.disposition(msg) is Applied {
            lemma_session_position_some(self.sessions, msg.client_id);
            let after = self.step(msg);
            assert(after.document.wf());
            assert(ids_increase(after.sessions));
        }
    }
}

} // verus!
