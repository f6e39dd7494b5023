//! What the coordinator promises to every session, proved of its model.

use vstd::prelude::*;
use crate::coordinator::{fan_out, CoordinatorView, DeliveryView, OutboundView};
use crate::document::{RoomStateView, Violation};
use crate::ids::ClientId;
use crate::inbox::{
    inbox, lemma_inbox_add, lemma_inbox_empty, lemma_inbox_of_fan_out, lemma_inbox_push,
};
use crate::registry::{
    lemma_session_position_push, lemma_session_position_some, lemma_synced_iff, registered,
    session_position, synced, ClientInfo,
};
use crate::roster::{
    lemma_roster_has_push, lemma_roster_has_remove, lemma_roster_position_some, roster_has,
    roster_is_distinct, roster_position, roster_without,
};
use crate::update::{UpdateFromClientView, UpdateView};

verus! {

impl CoordinatorView {
    /// The roster lists each synced session once, and nobody else.
    pub open spec fn roster_consistent(self) -> bool {
        &&& roster_is_distinct(self.document.connected_clients)
        &&& forall|id: i32|
            #![trigger roster_has(self.document.connected_clients, id)]
            #![trigger synced(self.sessions, id)]
            roster_has(self.document.connected_clients, id) <==> synced(self.sessions, id)
    }

    /// A session that has not been sent the document cannot edit it: its
    /// edit changes neither the document nor the registry, and is sent to
    /// nobody.
    pub proof fn edit_before_sync_is_dropped(self, msg: UpdateFromClientView)
        requires
            !synced(self.sessions, msg.client_id),
            !msg.update.is_session_control(),
        ensures
            self.step(msg) == self,
            self.deliveries(msg) == Seq::<DeliveryView>::empty(),
    {
    }

    /// A session that connects is first sent the whole document, as it is
    /// after the Connect, and next its own Connect; this step sends it
    /// nothing else.
    pub proof fn snapshot_comes_before_echo(self, msg: UpdateFromClientView)
        requires
            self.inv(),
            registered(self.sessions, msg.client_id),
            msg.update is Connect,
        ensures
            inbox(self.deliveries(msg), msg.client_id) == seq![
                OutboundView::Snapshot(self.step(msg).document),
                OutboundView::Diff(msg),
            ],
            synced(self.step(msg).sessions, msg.client_id),
    {
        let id = msg.client_id;
        lemma_session_position_some(self.sessions, id);
        let i = session_position(self.sessions, id)->0;
        let after = self.step(msg);
        self.lemma_step_keeps_inv(msg);
        assert(after.sessions[i].id.0 == id && after.sessions[i].sent_state_sync);
        lemma_synced_iff(after.sessions, id);
        let greeting = seq![
            DeliveryView { to: ClientId(id), message: OutboundView::Snapshot(after.document) },
        ];
        assert(self.deliveries(msg) == greeting + fan_out(after.sessions, msg));
        lemma_inbox_add(greeting, fan_out(after.sessions, msg), id);
        lemma_inbox_of_fan_out(after.sessions, msg, id);
        lemma_inbox_empty(id);
        lemma_inbox_push(Seq::empty(), greeting[0], id);
        assert(greeting =~= Seq::<DeliveryView>::empty().push(greeting[0]));
        assert(inbox(self.deliveries(msg), id) =~= seq![
            OutboundView::Snapshot(after.document),
            OutboundView::Diff(msg),
        ]);
    }

    /// A session that is not synced is sent nothing, whoever edits what,
    /// until its own Connect is taken; and it stays unsynced until then.
    pub proof fn unsynced_session_is_sent_nothing(self, msg: UpdateFromClientView, id: i32)
        requires
            self.inv(),
            !synced(self.sessions, id),
            !(msg.client_id == id && msg.update is Connect),
        ensures
            inbox(self.deliveries(msg), id) == Seq::<OutboundView>::empty(),
            !synced(self.step(msg).sessions, id),
    {
        let after = self.step(msg);
        self.lemma_step_keeps_inv(msg);
        lemma_inbox_empty(id);
        self.lemma_step_keeps_others(msg, id);
        if self.disposition(msg) is Applied {
            let greeting = if msg.update is Connect {
                seq![
                    DeliveryView {
                        to: ClientId(msg.client_id),
                        message: OutboundView::Snapshot(after.document),
                    },
                ]
            } else {
                Seq::empty()
            };
            lemma_inbox_add(greeting, fan_out(after.sessions, msg), id);
            lemma_inbox_of_fan_out(after.sessions, msg, id);
            if msg.update is Connect {
                lemma_inbox_push(Seq::empty(), greeting[0], id);
                assert(greeting =~= Seq::<DeliveryView>::empty().push(greeting[0]));
            }
            assert(inbox(self.deliveries(msg), id) =~= Seq::<OutboundView>::empty());
        }
    }

    /// A synced session is sent every update that is carried out, once and
    /// as its sender sent it, its own edits among them.
    pub proof fn synced_session_is_sent_every_update(self, msg: UpdateFromClientView, id: i32)
        requires
            self.inv(),
            synced(self.sessions, id),
            self.disposition(msg) is Applied,
            !(msg.client_id == id && msg.update.is_session_control()),
        ensures
            inbox(self.deliveries(msg), id) == seq![OutboundView::Diff(msg)],
            synced(self.step(msg).sessions, id),
    {
        let after = self.step(msg);
        self.lemma_step_keeps_inv(msg);
        lemma_inbox_empty(id);
        self.lemma_step_keeps_others(msg, id);
        let greeting = if msg.update is Connect {
            seq![
                DeliveryView {
                    to: ClientId(msg.client_id),
                    message: OutboundView::Snapshot(after.document),
                },
            ]
        } else {
            Seq::empty()
        };
        lemma_inbox_add(greeting, fan_out(after.sessions, msg), id);
        lemma_inbox_of_fan_out(after.sessions, msg, id);
        if msg.update is Connect {
            lemma_inbox_push(Seq::empty(), greeting[0], id);
            assert(greeting =~= Seq::<DeliveryView>::empty().push(greeting[0]));
        }
        assert(inbox(self.deliveries(msg), id) =~= seq![OutboundView::Diff(msg)]);
    }

    /// A step leaves every session alone but the sender's: whether another
    /// session is registered, and whether it is synced, stays as it was. An
    /// edit leaves the sender alone too.
    pub proof fn lemma_step_keeps_others(self, msg: UpdateFromClientView, id: i32)
        requires
            self.inv(),
            msg.client_id != id || !msg.update.is_session_control() || (msg.update is Disconnect
                && !synced(self.sessions, id)),
        ensures
            msg.client_id != id || !msg.update.is_session_control() ==> registered(
                self.step(msg).sessions,
                id,
            ) == registered(self.sessions, id),
            synced(self.step(msg).sessions, id) == synced(self.sessions, id),
    {
        let before = self.sessions;
        let after = self.step(msg).sessions;
        self.lemma_step_keeps_inv(msg);
        lemma_synced_iff(before, id);
        lemma_synced_iff(after, id);
        lemma_session_position_some(before, msg.client_id);
        if self.disposition(msg) is Applied && msg.update.is_session_control() {
            let i = session_position(before, msg.client_id)->0;
            if msg.update is Connect {
                assert(after == before.update(i, before[i].marked_synced()));
                assert forall|k: int| 0 <= k < before.len() implies (#[trigger] after[k]).id
                    == before[k].id by {}
                if registered(before, id) {
                    let k = choose|k: int|
                        0 <= k < before.len() && (#[trigger] before[k]).id.0 == id;
                    assert(after[k].id.0 == id);
                }
                if registered(after, id) {
                    let k = choose|k: int| 0 <= k < after.len() && (#[trigger] after[k]).id.0 == id;
                    assert(before[k].id.0 == id);
                }
                if synced(before, id) {
                    let k = choose|k: int|
                        0 <= k < before.len() && (#[trigger] before[k]).id.0 == id
                            && before[k].sent_state_sync;
                    assert(after[k].id.0 == id && after[k].sent_state_sync);
                }
                if synced(after, id) {
                    let k = choose|k: int|
                        0 <= k < after.len() && (#[trigger] after[k]).id.0 == id
                            && after[k].sent_state_sync;
                    assert(before[k].id.0 == id && before[k].sent_state_sync);
                }
            } else {
                assert(after == before.remove(i));
                if registered(before, id) && msg.client_id != id {
                    let k = choose|k: int|
                        0 <= k < before.len() && (#[trigger] before[k]).id.0 == id;
                    if k < i {
                        assert(after[k].id.0 == id);
                    } else {
                        assert(after[k - 1].id.0 == id);
                    }
                }
                if registered(after, id) {
                    let k = choose|k: int| 0 <= k < after.len() && (#[trigger] after[k]).id.0 == id;
                    if k < i {
                        assert(before[k].id.0 == id);
                    } else {
                        assert(before[k + 1].id.0 == id);
                    }
                }
                if synced(before, id) {
                    let k = choose|k: int|
                        0 <= k < before.len() && (#[trigger] before[k]).id.0 == id
                            && before[k].sent_state_sync;
                    if k < i {
                        assert(after[k].id.0 == id && after[k].sent_state_sync);
                    } else {
                        assert(after[k - 1].id.0 == id && after[k - 1].sent_state_sync);
                    }
                }
                if synced(after, id) {
                    let k = choose|k: int|
                        0 <= k < after.len() && (#[trigger] after[k]).id.0 == id
                            && after[k].sent_state_sync;
                    if k < i {
                        assert(before[k].id.0 == id && before[k].sent_state_sync);
                    } else {
                        assert(before[k + 1].id.0 == id && before[k + 1].sent_state_sync);
                    }
                }
            }
        }
    }

    /// A Disconnect takes its sender out of the registry for good.
    pub proof fn disconnect_unregisters(self, msg: UpdateFromClientView)
        requires
            self.inv(),
            msg.update is Disconnect,
        ensures
            !registered(self.step(msg).sessions, msg.client_id),
            !synced(self.step(msg).sessions, msg.client_id),
    {
        let id = msg.client_id;
        let before = self.sessions;
        let after = self.step(msg).sessions;
        lemma_session_position_some(before, id);
        lemma_session_position_some(after, id);
        if registered(before, id) {
            let i = session_position(before, id)->0;
            assert(after == before.remove(i));
            if registered(after, id) {
                let k = choose|k: int| 0 <= k < after.len() && (#[trigger] after[k]).id.0 == id;
                if k < i {
                    assert(before[k].id.0 < before[i].id.0);
                } else {
                    assert(before[i].id.0 < before[k + 1].id.0);
                }
            }
        }
    }

    /// Nobody is on the roster of a room that nobody has entered.
    pub proof fn roster_is_consistent_at_first()
        ensures
            CoordinatorView::initial().roster_consistent(),
            CoordinatorView::initial().inv(),
    {
        let first = CoordinatorView::initial();
        assert forall|id: i32|
            roster_has(first.document.connected_clients, id) <==> synced(first.sessions, id) by {
            lemma_session_position_some(first.sessions, id);
        }
    }

    /// Taking in a connection leaves the roster as it is, and consistent.
    pub proof fn accept_keeps_roster_consistent(self)
        requires
            self.inv(),
            self.can_accept(),
            self.roster_consistent(),
        ensures
            self.accept().roster_consistent(),
            self.accept().document == self.document,
    {
        let after = self.accept();
        let fresh = ClientInfo::spec_fresh(ClientId(self.next_id));
        assert forall|id: i32|
            roster_has(after.document.connected_clients, id) <==> synced(after.sessions, id) by {
            lemma_session_position_push(self.sessions, fresh, id);
        }
    }

    /// The roster lists exactly the synced sessions, each once, as long as
    /// no session that is synced already sends a further Connect. A Connect
    /// puts its sender at the end of the roster, a Disconnect takes its
    /// sender out and leaves the others in their order, and nothing else
    /// touches the roster.
    pub proof fn step_keeps_roster_consistent(self, msg: UpdateFromClientView)
        requires
            self.inv(),
            self.roster_consistent(),
            !(msg.update is Connect && synced(self.sessions, msg.client_id)),
        ensures
            self.step(msg).roster_consistent(),
    {
        let c = msg.client_id;
        let after = self.step(msg);
        let roster = self.document.connected_clients;
        let roster_after = after.document.connected_clients;
        self.lemma_step_keeps_inv(msg);
        if self.disposition(msg) is Applied {
            lemma_session_position_some(self.sessions, c);
            match msg.update {
                UpdateView::Connect { username } => {
                    assert(!roster_has(roster, c));
                    assert(roster_after == roster.push((c, username)));
                    assert(roster_is_distinct(roster_after)) by {
                        assert forall|i: int, j: int|
                            0 <= i < j < roster_after.len() implies (#[trigger] roster_after[i]).0
                            != (#[trigger] roster_after[j]).0 by {
                            if j == roster.len() {
                                assert(roster[i].0 != c);
                            } else {
                                assert(roster[i].0 != roster[j].0);
                            }
                        }
                    }
                    self.snapshot_comes_before_echo(msg);
                    assert forall|id: i32|
                        roster_has(roster_after, id) <==> synced(after.sessions, id) by {
                        lemma_roster_has_push(roster, (c, username), id);
                        if id != c {
                            self.lemma_step_keeps_others(msg, id);
                        }
                    }
                },
                UpdateView::Disconnect => {
                    self.disconnect_unregisters(msg);
                    lemma_roster_position_some(roster, c);
                    assert(roster_after == roster_without(roster, c));
                    match roster_position(roster, c) {
                        Some(i) => {
                            assert forall|id: i32|
                                roster_has(roster_after, id) <==> synced(after.sessions, id) by {
                                lemma_roster_has_remove(roster, i, id);
                                if id != c {
                                    self.lemma_step_keeps_others(msg, id);
                                }
                            }
                            lemma_roster_has_remove(roster, i, c);
                        },
                        None => {
                            assert forall|id: i32|
                                roster_has(roster_after, id) <==> synced(after.sessions, id) by {
                                if id != c {
                                    self.lemma_step_keeps_others(msg, id);
                                }
                            }
                        },
                    }
                },
                _ => {
                    assert(roster_after == roster);
                    assert(after.sessions == self.sessions);
                },
            }
        }
    }

    /// An edit that brings another number of voices than the addressed beat
    /// holds changes nothing and is sent to nobody.
    pub proof fn voice_width_mismatch_is_dropped(self, msg: UpdateFromClientView)
        requires
            msg.update matches UpdateView::SynthSeq { synth_ix, beat_ix, active_cell_ixs, .. }
                && 0 <= synth_ix < self.document.synth_sequences.len() && 0 <= beat_ix
                < self.document.synth_sequences[synth_ix as int].len() && active_cell_ixs.len()
                != self.document.synth_sequences[synth_ix as int][beat_ix as int].len(),
        ensures
            self.document.violation(msg.update) == Some(Violation::VoiceWidthMismatch),
            self.document.apply(msg) == self.document,
            self.step(msg) == self,
            self.deliveries(msg) == Seq::<DeliveryView>::empty(),
    {
    }

    /// An update that breaks a rule of the document changes nothing and is
    /// sent to nobody.
    pub proof fn rule_breaking_update_is_dropped(self, msg: UpdateFromClientView)
        requires
            self.document.violation(msg.update) is Some,
        ensures
            self.document.apply(msg) == self.document,
            self.step(msg) == self,
            self.deliveries(msg) == Seq::<DeliveryView>::empty(),
    {
    }

    /// Taking the same edit a second time changes nothing: an edit
    /// overwrites and does not add up.
    pub proof fn edit_replay_changes_nothing(self, msg: UpdateFromClientView)
        requires
            !msg.update.is_session_control(),
        ensures
            self.step(msg).step(msg) == self.step(msg),
    {
        self.document.edit_replay_changes_nothing(msg);
        if self.disposition(msg) is Applied {
            assert(self.step(msg).document.violation(msg.update) is None);
        }
    }
}

impl RoomStateView {
    /// Carrying out the same edit twice leaves the document as carrying it
    /// out once does.
    pub proof fn edit_replay_changes_nothing(self, msg: UpdateFromClientView)
        requires
            !msg.update.is_session_control(),
        ensures
            self.apply(msg).apply(msg) == self.apply(msg),
            self.apply(msg).violation(msg.update) == self.violation(msg.update),
    {
        let once = self.apply(msg);
        let twice = once.apply(msg);
        if self.violation(msg.update) is None {
            assert(twice.synth_sequences =~~= once.synth_sequences);
            assert(twice.synth_params =~~= once.synth_params);
            assert(twice.sampler_sequence =~~= once.sampler_sequence);
        }
    }

    /// Whatever is carried out, the grids and the parameter lists keep their
    /// lengths, so a document that has its shape keeps it.
    pub proof fn apply_keeps_shape(self, msg: UpdateFromClientView)
        ensures
            self.apply(msg).same_shape(self),
            self.wf() ==> self.apply(msg).wf(),
    {
    }
}

} // verus!
