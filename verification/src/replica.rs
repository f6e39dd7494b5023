//! What a client can make of the messages it is sent.
//!
//! A client keeps a copy of the document. It takes a snapshot as its whole
//! copy, passes over the echo of its own Connect, which the snapshot shows
//! already, and carries out every other update on its copy as the server
//! did on the document. The server sends a synced session enough, and in the
//! right order, for that copy to be the document.

use vstd::prelude::*;
use crate::coordinator::{CoordinatorView, OutboundView};
use crate::document::RoomStateView;
use crate::history::Event;
use crate::inbox::{inbox, lemma_inbox_add, lemma_inbox_empty};
use crate::registry::{lemma_session_position_some, synced};

verus! {

/// The copy of the client with the id `id` after it has taken `message`.
pub open spec fn receive(id: i32, held: RoomStateView, message: OutboundView) -> RoomStateView {
    match message {
        OutboundView::Snapshot(state) => state,
        OutboundView::Diff(msg) => if msg.client_id == id && msg.update is Connect {
            held
        } else {
            held.apply(msg)
        },
    }
}

/// The copy of the client with the id `id` after it has taken `messages` in
/// their order, starting from `held`.
pub open spec fn replay(id: i32, held: RoomStateView, messages: Seq<OutboundView>) -> RoomStateView
    decreases messages.len(),
{
    if messages.len() == 0 {
        held
    } else {
        receive(id, replay(id, held, messages.drop_last()), messages.last())
    }
}

/// Taking messages in two rounds is taking them in one.
pub proof fn lemma_replay_add(
    id: i32,
    held: RoomStateView,
    first: Seq<OutboundView>,
    second: Seq<OutboundView>,
)
    ensures
        replay(id, held, first + second) == replay(id, replay(id, held, first), second),
    decreases second.len(),
{
    if second.len() == 0 {
        assert(first + second =~= first);
    } else {
        lemma_replay_add(id, held, first, second.drop_last());
        assert((first + second).drop_last() =~= first + second.drop_last());
    }
}

impl CoordinatorView {
    /// A session that is synced holds the document: whatever has happened,
    /// the copy that its client has made of the messages sent to it is the
    /// document as it stands. A client that was synced from the start has to
    /// have started from the document; a client that was not may have
    /// started from anything.
    pub proof fn synced_client_holds_the_document(
        self,
        events: Seq<Event>,
        id: i32,
        held: RoomStateView,
    )
        requires
            self.inv(),
            synced(self.sessions, id) ==> held == self.document,
            synced(self.run(events).sessions, id),
        ensures
            replay(id, held, inbox(self.sent(events), id)) == self.run(events).document,
    {
        self.lemma_copy_follows(events, id, held);
    }

    /// At every point of a run, a session that is synced then holds the
    /// document as it is then.
    proof fn lemma_copy_follows(self, events: Seq<Event>, id: i32, held: RoomStateView)
        requires
            self.inv(),
            synced(self.sessions, id) ==> held == self.document,
        ensures
            synced(self.run(events).sessions, id) ==> replay(
                id,
                held,
                inbox(self.sent(events), id),
            ) == self.run(events).document,
        decreases events.len(),
    {
        if events.len() == 0 {
            lemma_inbox_empty(id);
        } else {
            let front = events.drop_last();
            let last = events.last();
            let before = self.run(front);
            let after = self.run(events);
            let got_before = inbox(self.sent(front), id);
            let got_now = inbox(before.emits(last), id);
            let copy_before = replay(id, held, got_before);
            self.lemma_copy_follows(front, id, held);
            self.run_keeps_inv(front);
            lemma_inbox_add(self.sent(front), before.emits(last), id);
            lemma_replay_add(id, held, got_before, got_now);
            lemma_inbox_empty(id);
            if synced(after.sessions, id) {
                match last {
                    Event::Accept => {
                        if before.can_accept() {
                            before.lemma_accept_keeps_others(id);
                        }
                        assert(got_now =~= Seq::<OutboundView>::empty());
                    },
                    Event::Update(msg) => {
                        if !(before.disposition(msg) is Applied) {
                            assert(got_now =~= Seq::<OutboundView>::empty());
                        } else if msg.client_id == id && msg.update is Connect {
                            lemma_session_position_some(before.sessions, id);
                            before.snapshot_comes_before_echo(msg);
                            let greeting = seq![OutboundView::Snapshot(after.document)];
                            assert(got_now =~= greeting.push(OutboundView::Diff(msg)));
                            assert(got_now.drop_last() =~= greeting);
                            assert(greeting.drop_last() =~= Seq::<OutboundView>::empty());
                            assert(replay(id, copy_before, greeting) == after.document);
                        } else if msg.client_id == id && msg.update is Disconnect {
                            before.disconnect_unregisters(msg);
                        } else {
                            if !synced(before.sessions, id) {
                                before.lemma_unsynced_after(last, id);
                            }
                            before.synced_session_is_sent_every_update(msg, id);
                            assert(got_now =~= Seq::<OutboundView>::empty().push(
                                OutboundView::Diff(msg),
                            ));
                            assert(got_now.drop_last() =~= Seq::<OutboundView>::empty());
                            assert(replay(id, copy_before, got_now.drop_last()) == copy_before);
                        }
                    },
                }
            }
        }
    }

    /// Two sessions that are synced, and neither of which connects anew or
    /// leaves, are sent the same messages in the same order: there is one
    /// order of updates for all.
    pub proof fn synced_sessions_are_sent_the_same(self, events: Seq<Event>, one: i32, other: i32)
        requires
            self.inv(),
            synced(self.sessions, one),
            synced(self.sessions, other),
            forall|j: int|
                0 <= j < events.len() ==> !((#[trigger] events[j]) matches Event::Update(msg) && (
                msg.client_id == one || msg.client_id == other)
                    && msg.update.is_session_control()),
        ensures
            inbox(self.sent(events), one) == inbox(self.sent(events), other),
            synced(self.run(events).sessions, one),
            synced(self.run(events).sessions, other),
        decreases events.len(),
    {
        if events.len() > 0 {
            let front = events.drop_last();
            let last = events.last();
            let before = self.run(front);
            assert forall|j: int| 0 <= j < front.len() implies !((
            #[trigger] front[j]) matches Event::Update(msg) && (msg.client_id == one
                || msg.client_id == other) && msg.update.is_session_control()) by {
                assert(front[j] == events[j]);
            }
            self.synced_sessions_are_sent_the_same(front, one, other);
            self.run_keeps_inv(front);
            lemma_inbox_add(self.sent(front), before.emits(last), one);
            lemma_inbox_add(self.sent(front), before.emits(last), other);
            lemma_inbox_empty(one);
            lemma_inbox_empty(other);
            assert(events[events.len() - 1] == last);
            match last {
                Event::Accept => {
                    if before.can_accept() {
                        before.lemma_accept_keeps_others(one);
                        before.lemma_accept_keeps_others(other);
                    }
                },
                Event::Update(msg) => {
                    if before.disposition(msg) is Applied {
                        before.synced_session_is_sent_every_update(msg, one);
                        before.synced_session_is_sent_every_update(msg, other);
                    }
                },
            }
        }
    }
}

} // verus!
