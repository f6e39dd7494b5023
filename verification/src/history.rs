//! The coordinator over a whole run of events.

use vstd::prelude::*;
use crate::coordinator::{CoordinatorView, DeliveryView, OutboundView};
use crate::filters::{lemma_filter_agree, lemma_filter_twice};
use crate::ids::ClientId;
use crate::inbox::{inbox, lemma_inbox_add, lemma_inbox_empty};
use crate::registry::{
    lemma_session_position_push, lemma_session_position_some, registered, session_position,
    synced, ClientInfo,
};
use crate::roster::{not_of, roster_without_keeps_the_others, RosterEntry};
use crate::update::{UpdateFromClientView, UpdateView};

verus! {

/// One thing that happens to the coordinator.
pub enum Event {
    /// The transport has accepted a connection.
    Accept,
    /// An update has come in from a session.
    Update(UpdateFromClientView),
}

impl Event {
    /// Whether this is a Connect of the session with the id `id`.
    pub open spec fn is_connect_of(self, id: i32) -> bool {
        self matches Event::Update(msg) && msg.client_id == id && msg.update is Connect
    }
}

impl CoordinatorView {
    /// The coordinator after `event`. A connection that comes when the ids
    /// have run out is not taken in.
    pub open spec fn after(self, event: Event) -> CoordinatorView {
        match event {
            Event::Accept => if self.can_accept() {
                self.accept()
            } else {
                self
            },
            Event::Update(msg) => self.step(msg),
        }
    }

    /// The messages that `event` gives rise to.
    pub open spec fn emits(self, event: Event) -> Seq<DeliveryView> {
        match event {
            Event::Accept => Seq::empty(),
            Event::Update(msg) => self.deliveries(msg),
        }
    }

    /// The coordinator after all of `events`, taken in their order.
    pub open spec fn run(self, events: Seq<Event>) -> CoordinatorView
        decreases events.len(),
    {
        if events.len() == 0 {
            self
        } else {
            self.run(events.drop_last()).after(events.last())
        }
    }

    /// All messages that `events` give rise to, in the order in which they
    /// are handed out.
    pub open spec fn sent(self, events: Seq<Event>) -> Seq<DeliveryView>
        decreases events.len(),
    {
        if events.len() == 0 {
            Seq::empty()
        } else {
            self.sent(events.drop_last()) + self.run(events.drop_last()).emits(events.last())
        }
    }

    /// Whether `event` is a Connect of a session that is synced already.
    pub open spec fn is_repeated_connect(self, event: Event) -> bool {
        event matches Event::Update(msg) && msg.update is Connect && synced(
            self.sessions,
            msg.client_id,
        )
    }

    /// One event keeps what holds of the coordinator at all times.
    pub proof fn lemma_after_keeps_inv(self, event: Event)
        requires
            self.inv(),
        ensures
            self.after(event).inv(),
    {
        match event {
            Event::Accept => {},
            Event::Update(msg) => {
                self.lemma_step_keeps_inv(msg);
            },
        }
    }

    /// What holds of the coordinator at all times holds after any run.
    pub proof fn run_keeps_inv(self, events: Seq<Event>)
        requires
            self.inv(),
        ensures
            self.run(events).inv(),
        decreases events.len(),
    {
        if events.len() > 0 {
            self.run_keeps_inv(events.drop_last());
            self.run(events.drop_last()).lemma_after_keeps_inv(events.last());
        }
    }

    /// A run taken one event further.
    pub proof fn lemma_run_take(self, events: Seq<Event>, k: int)
        requires
            0 <= k < events.len(),
        ensures
            self.run(events.take(k + 1)) == self.run(events.take(k)).after(events[k]),
            self.sent(events.take(k + 1)) == self.sent(events.take(k)) + self.run(
                events.take(k),
            ).emits(events[k]),
    {
        assert(events.take(k + 1).drop_last() =~= events.take(k));
    }

    /// A session stays unsynced as long as no Connect of it is taken.
    pub proof fn unsynced_until_connect(self, events: Seq<Event>, id: i32)
        requires
            self.inv(),
            !synced(self.sessions, id),
            forall|j: int| 0 <= j < events.len() ==> !(#[trigger] events[j]).is_connect_of(id),
        ensures
            !synced(self.run(events).sessions, id),
            inbox(self.sent(events), id) == Seq::<OutboundView>::empty(),
        decreases events.len(),
    {
        if events.len() == 0 {
            lemma_inbox_empty(id);
        } else {
            let front = events.drop_last();
            let last = events.last();
            assert forall|j: int| 0 <= j < front.len() implies !(#[trigger] front[j]).is_connect_of(
                id,
            ) by {
                assert(front[j] == events[j]);
            }
            self.unsynced_until_connect(front, id);
            self.run_keeps_inv(front);
            let before = self.run(front);
            assert(!last.is_connect_of(id));
            before.lemma_unsynced_after(last, id);
            lemma_inbox_add(self.sent(front), before.emits(last), id);
            assert(inbox(self.sent(events), id) =~= Seq::<OutboundView>::empty());
        }
    }

    /// An event that is no Connect of an unsynced session leaves the session
    /// unsynced and sends it nothing.
    pub proof fn lemma_unsynced_after(self, event: Event, id: i32)
        requires
            self.inv(),
            !synced(self.sessions, id),
            !event.is_connect_of(id),
        ensures
            !synced(self.after(event).sessions, id),
            inbox(self.emits(event), id) == Seq::<OutboundView>::empty(),
    {
        match event {
            Event::Accept => {
                lemma_inbox_empty(id);
                if self.can_accept() {
                    self.lemma_accept_keeps_others(id);
                }
            },
            Event::Update(msg) => {
                self.unsynced_session_is_sent_nothing(msg, id);
            },
        }
    }

    /// Ids are not handed out twice: the next id never falls, and every
    /// registered session has an id below it.
    pub proof fn next_id_never_falls(self, events: Seq<Event>)
        requires
            self.inv(),
        ensures
            self.next_id <= self.run(events).next_id,
            forall|i: int|
                0 <= i < self.run(events).sessions.len() ==> (#[trigger] self.run(
                    events,
                ).sessions[i]).id.0 < self.run(events).next_id,
        decreases events.len(),
    {
        self.run_keeps_inv(events);
        if events.len() > 0 {
            self.next_id_never_falls(events.drop_last());
            self.run_keeps_inv(events.drop_last());
        }
    }

    /// A session that has left does not come back: an id that was handed out
    /// and is not registered stays unregistered.
    pub proof fn gone_session_stays_gone(self, events: Seq<Event>, id: i32)
        requires
            self.inv(),
            id < self.next_id,
            !registered(self.sessions, id),
        ensures
            !registered(self.run(events).sessions, id),
        decreases events.len(),
    {
        if events.len() > 0 {
            let front = events.drop_last();
            let before = self.run(front);
            self.gone_session_stays_gone(front, id);
            self.run_keeps_inv(front);
            self.next_id_never_falls(front);
            match events.last() {
                Event::Accept => {
                    if before.can_accept() {
                        before.lemma_accept_keeps_others(id);
                    }
                },
                Event::Update(msg) => {
                    lemma_session_position_some(before.sessions, msg.client_id);
                    if msg.client_id != id {
                        before.lemma_step_keeps_others(msg, id);
                    }
                },
            }
        }
    }

    /// A synced session stays synced until a Disconnect of it is taken.
    pub proof fn synced_until_disconnect(self, events: Seq<Event>, id: i32)
        requires
            self.inv(),
            synced(self.sessions, id),
            forall|j: int|
                0 <= j < events.len() ==> !((#[trigger] events[j]) matches Event::Update(msg)
                    && msg.client_id == id && msg.update is Disconnect),
        ensures
            synced(self.run(events).sessions, id),
        decreases events.len(),
    {
        if events.len() > 0 {
            let front = events.drop_last();
            let before = self.run(front);
            assert forall|j: int| 0 <= j < front.len() implies !((
            #[trigger] front[j]) matches Event::Update(msg) && msg.client_id == id
                && msg.update is Disconnect) by {
                assert(front[j] == events[j]);
            }
            self.synced_until_disconnect(front, id);
            self.run_keeps_inv(front);
            match events.last() {
                Event::Accept => {
                    if before.can_accept() {
                        before.lemma_accept_keeps_others(id);
                    }
                },
                Event::Update(msg) => {
                    lemma_session_position_some(before.sessions, id);
                    if msg.client_id == id && msg.update is Connect {
                        before.snapshot_comes_before_echo(msg);
                    } else {
                        assert(events[events.len() - 1] == events.last());
                        before.lemma_step_keeps_others(msg, id);
                    }
                },
            }
        }
    }

    /// No edit of a session takes effect before a Connect of that session
    /// has been taken: the edit changes nothing and is sent to nobody.
    pub proof fn no_edit_before_connect(self, events: Seq<Event>, k: int)
        requires
            self.inv(),
            0 <= k < events.len(),
            events[k] matches Event::Update(msg) && !msg.update.is_session_control() && !synced(
                self.sessions,
                msg.client_id,
            ) && forall|j: int| 0 <= j < k ==> !(#[trigger] events[j]).is_connect_of(msg.client_id),
        ensures
            self.run(events.take(k + 1)) == self.run(events.take(k)),
            self.sent(events.take(k + 1)) == self.sent(events.take(k)),
    {
        let msg = events[k]->Update_0;
        let front = events.take(k);
        assert forall|j: int| 0 <= j < front.len() implies !(#[trigger] front[j]).is_connect_of(
            msg.client_id,
        ) by {
            assert(front[j] == events[j]);
        }
        self.unsynced_until_connect(front, msg.client_id);
        self.lemma_run_take(events, k);
        self.run(front).edit_before_sync_is_dropped(msg);
        assert(self.sent(events.take(k + 1)) =~= self.sent(events.take(k)));
    }

    /// Whatever happens, the first message that a session is sent is the
    /// whole document, as it is right after a Connect of that session, and
    /// the second is that Connect itself. Until that Connect is taken the
    /// session is sent nothing.
    pub proof fn first_messages_of_a_session(self, events: Seq<Event>, id: i32)
        requires
            self.inv(),
            !synced(self.sessions, id),
        ensures
            ({
                let got = inbox(self.sent(events), id);
                ||| got.len() == 0 && !synced(self.run(events).sessions, id)
                ||| exists|k: int|
                    0 <= k < events.len() && (#[trigger] events[k]).is_connect_of(id) && got.len()
                        >= 2 && got[0] == OutboundView::Snapshot(
                        self.run(events.take(k + 1)).document,
                    ) && got[1] == OutboundView::Diff(events[k]->Update_0)
            }),
        decreases events.len(),
    {
        if events.len() == 0 {
            lemma_inbox_empty(id);
        } else {
            let front = events.drop_last();
            let last = events.last();
            let before = self.run(front);
            let got_before = inbox(self.sent(front), id);
            let got = inbox(self.sent(events), id);
            self.first_messages_of_a_session(front, id);
            self.run_keeps_inv(front);
            lemma_inbox_add(self.sent(front), before.emits(last), id);
            assert(got == got_before + inbox(before.emits(last), id));
            if got_before.len() == 0 && !synced(before.sessions, id) {
                if last.is_connect_of(id) {
                    let msg = last->Update_0;
                    let k = events.len() - 1;
                    assert(events.take(k + 1) =~= events);
                    if before.disposition(msg) is Applied {
                        lemma_session_position_some(before.sessions, id);
                        before.snapshot_comes_before_echo(msg);
                        assert(got =~= seq![
                            OutboundView::Snapshot(before.step(msg).document),
                            OutboundView::Diff(msg),
                        ]);
                        assert(events[k].is_connect_of(id));
                    } else {
                        lemma_inbox_empty(id);
                        assert(got =~= Seq::<OutboundView>::empty());
                    }
                } else {
                    before.lemma_unsynced_after(last, id);
                    assert(got =~= Seq::<OutboundView>::empty());
                }
            } else {
                let k = choose|k: int|
                    0 <= k < front.len() && (#[trigger] front[k]).is_connect_of(id)
                        && got_before.len() >= 2 && got_before[0] == OutboundView::Snapshot(
                        self.run(front.take(k + 1)).document,
                    ) && got_before[1] == OutboundView::Diff(front[k]->Update_0);
                assert(front.take(k + 1) =~= events.take(k + 1));
                assert(events[k] == front[k]);
                assert(got[0] == got_before[0]);
                assert(got[1] == got_before[1]);
            }
        }
    }

    /// A connection that is taken in leaves every session as it was, and
    /// starts unsynced itself.
    pub proof fn lemma_accept_keeps_others(self, id: i32)
        requires
            self.inv(),
            self.can_accept(),
        ensures
            synced(self.accept().sessions, id) == synced(self.sessions, id),
            registered(self.accept().sessions, id) == (registered(self.sessions, id) || id
                == self.next_id),
    {
        lemma_session_position_push(
            self.sessions,
            ClientInfo::spec_fresh(ClientId(self.next_id)),
            id,
        );
        lemma_session_position_some(self.sessions, id);
        lemma_session_position_some(self.accept().sessions, id);
    }

    /// From an empty room on, the roster lists exactly the synced sessions,
    /// each once, whatever happens, as long as no session that is synced
    /// already sends a further Connect.
    pub proof fn roster_is_consistent_throughout(events: Seq<Event>)
        requires
            forall|k: int|
                0 <= k < events.len() ==> !(#[trigger] CoordinatorView::initial().run(
                    events.take(k),
                )).is_repeated_connect(events[k]),
        ensures
            CoordinatorView::initial().run(events).roster_consistent(),
            CoordinatorView::initial().run(events).inv(),
        decreases events.len(),
    {
        let first = CoordinatorView::initial();
        CoordinatorView::roster_is_consistent_at_first();
        if events.len() > 0 {
            let front = events.drop_last();
            let last = events.last();
            assert forall|k: int| 0 <= k < front.len() implies !(#[trigger] first.run(
                front.take(k),
            )).is_repeated_connect(front[k]) by {
                assert(front.take(k) =~= events.take(k));
                assert(!first.run(events.take(k)).is_repeated_connect(events[k]));
            }
            CoordinatorView::roster_is_consistent_throughout(front);
            let before = first.run(front);
            assert(events.take(events.len() - 1) =~= front);
            assert(!first.run(events.take(events.len() - 1)).is_repeated_connect(
                events[events.len() - 1],
            ));
            match last {
                Event::Accept => {
                    if before.can_accept() {
                        before.accept_keeps_roster_consistent();
                    }
                },
                Event::Update(msg) => {
                    before.step_keeps_roster_consistent(msg);
                    before.lemma_step_keeps_inv(msg);
                },
            }
        }
    }
}

/// The test by which a roster entry belongs to a session that is synced.
pub open spec fn of_synced(sessions: Seq<ClientInfo>) -> spec_fn(RosterEntry) -> bool {
    |entry: RosterEntry| synced(sessions, entry.0)
}

impl CoordinatorView {
    /// The names that were declared in the course of `events`, each with the
    /// id of the session that declared it, in the order in which the
    /// Connects were carried out.
    pub open spec fn connects(self, events: Seq<Event>) -> Seq<RosterEntry>
        decreases events.len(),
    {
        if events.len() == 0 {
            Seq::empty()
        } else {
            let earlier = self.connects(events.drop_last());
            match events.last() {
                Event::Update(msg) => match msg.update {
                    UpdateView::Connect { username } => if self.run(
                        events.drop_last(),
                    ).disposition(msg) is Applied {
                        earlier.push((msg.client_id, username))
                    } else {
                        earlier
                    },
                    _ => earlier,
                },
                Event::Accept => earlier,
            }
        }
    }

    /// From an empty room on, and as long as no session that is synced
    /// already sends a further Connect, the roster is what is left of the
    /// list of all Connects carried out when the sessions that are gone are
    /// struck from it: it holds the sessions that are synced now, each under
    /// the name it declared, in the order in which they connected.
    pub proof fn roster_lists_the_synced_in_connect_order(events: Seq<Event>)
        requires
            forall|k: int|
                0 <= k < events.len() ==> !(#[trigger] CoordinatorView::initial().run(
                    events.take(k),
                )).is_repeated_connect(events[k]),
        ensures
            CoordinatorView::initial().run(events).document.connected_clients
                == CoordinatorView::initial().connects(events).filter(
                of_synced(CoordinatorView::initial().run(events).sessions),
            ),
    {
        CoordinatorView::lemma_roster_and_connects(events);
    }

    /// The roster against the list of all Connects, with what the induction
    /// needs besides: whoever is on that list got its id before now, and is
    /// synced or gone.
    proof fn lemma_roster_and_connects(events: Seq<Event>)
        requires
            forall|k: int|
                0 <= k < events.len() ==> !(#[trigger] CoordinatorView::initial().run(
                    events.take(k),
                )).is_repeated_connect(events[k]),
        ensures
            ({
                let after = CoordinatorView::initial().run(events);
                let log = CoordinatorView::initial().connects(events);
                &&& after.inv()
                &&& after.roster_consistent()
                &&& after.document.connected_clients == log.filter(of_synced(after.sessions))
                &&& forall|k: int| 0 <= k < log.len() ==> (#[trigger] log[k]).0 < after.next_id
                &&& forall|k: int|
                    0 <= k < log.len() ==> synced(after.sessions, (#[trigger] log[k]).0)
                        || !registered(after.sessions, log[k].0)
            }),
        decreases events.len(),
    {
        let first = CoordinatorView::initial();
        CoordinatorView::roster_is_consistent_throughout(events);
        if events.len() == 0 {
            reveal(Seq::filter);
            assert(first.connects(events).filter(of_synced(first.sessions)) =~= Seq::<
                RosterEntry,
            >::empty());
        } else {
            let front = events.drop_last();
            let last = events.last();
            assert forall|k: int| 0 <= k < front.len() implies !(#[trigger] first.run(
                front.take(k),
            )).is_repeated_connect(front[k]) by {
                assert(front.take(k) =~= events.take(k));
                assert(!first.run(events.take(k)).is_repeated_connect(events[k]));
            }
            CoordinatorView::lemma_roster_and_connects(front);
            assert(events.take(events.len() - 1) =~= front);
            assert(!first.run(events.take(events.len() - 1)).is_repeated_connect(
                events[events.len() - 1],
            ));
            let before = first.run(front);
            let after = first.run(events);
            let log = first.connects(front);
            let log_after = first.connects(events);
            let roster = before.document.connected_clients;
            match last {
                Event::Accept => {
                    if before.can_accept() {
                        assert forall|k: int| 0 <= k < log.len() implies of_synced(after.sessions)(
                            #[trigger] log[k],
                        ) == of_synced(before.sessions)(log[k]) && (synced(
                            after.sessions,
                            log[k].0,
                        ) || !registered(after.sessions, log[k].0)) by {
                            before.lemma_accept_keeps_others(log[k].0);
                        }
                        lemma_filter_agree(
                            log,
                            of_synced(after.sessions),
                            of_synced(before.sessions),
                        );
                    }
                },
                Event::Update(msg) => {
                    let c = msg.client_id;
                    lemma_session_position_some(before.sessions, c);
                    if before.disposition(msg) is Applied {
                        match msg.update {
                            UpdateView::Connect { username } => {
                                assert(!synced(before.sessions, c));
                                assert(registered(before.sessions, c));
                                before.snapshot_comes_before_echo(msg);
                                assert forall|k: int| 0 <= k < log.len() implies of_synced(
                                    after.sessions,
                                )(#[trigger] log[k]) == of_synced(before.sessions)(log[k])
                                    && (synced(after.sessions, log[k].0) || !registered(
                                    after.sessions,
                                    log[k].0,
                                )) by {
                                    assert(log[k].0 != c);
                                    before.lemma_step_keeps_others(msg, log[k].0);
                                }
                                lemma_filter_agree(
                                    log,
                                    of_synced(after.sessions),
                                    of_synced(before.sessions),
                                );
                                log.lemma_filter_push((c, username), of_synced(after.sessions));
                                assert(log_after == log.push((c, username)));
                                let i = session_position(before.sessions, c)->0;
                                assert(before.sessions[i].id.0 < before.next_id);
                            },
                            UpdateView::Disconnect => {
                                before.disconnect_unregisters(msg);
                                roster_without_keeps_the_others(roster, c);
                                assert forall|k: int| 0 <= k < log.len() implies of_synced(
                                    after.sessions,
                                )(#[trigger] log[k]) == (of_synced(before.sessions)(log[k])
                                    && not_of(c)(log[k])) && (synced(after.sessions, log[k].0)
                                    || !registered(after.sessions, log[k].0)) by {
                                    if log[k].0 != c {
                                        before.lemma_step_keeps_others(msg, log[k].0);
                                    }
                                }
                                lemma_filter_twice(
                                    log,
                                    of_synced(before.sessions),
                                    not_of(c),
                                    of_synced(after.sessions),
                                );
                            },
                            _ => {
                                assert(after.sessions == before.sessions);
                                assert(after.document.connected_clients == roster);
                            },
                        }
                    }
                },
            }
        }
    }
}


} // verus!
