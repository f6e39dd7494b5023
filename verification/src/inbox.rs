//! What reaches one session of all that is handed out.

use vstd::prelude::*;
use crate::coordinator::{
    diff_for, fan_out, lemma_fan_out_empty, lemma_fan_out_push, DeliveryView, OutboundView,
};
use crate::registry::{
    ids_increase, lemma_session_position_push, lemma_session_position_some, registered, synced,
    ClientInfo,
};
use crate::update::UpdateFromClientView;

verus! {

/// The test by which a delivery belongs to the session with the id `id`.
pub open spec fn addressed_to(id: i32) -> spec_fn(DeliveryView) -> bool {
    |d: DeliveryView| d.to.0 == id
}

/// The message that a delivery carries.
pub open spec fn message_of() -> spec_fn(DeliveryView) -> OutboundView {
    |d: DeliveryView| d.message
}

/// The messages among `deliveries` that go to the session with the id `id`,
/// in the order in which they are put on its channel.
pub open spec fn inbox(deliveries: Seq<DeliveryView>, id: i32) -> Seq<OutboundView> {
    deliveries.filter(addressed_to(id)).map_values(message_of())
}

/// No deliveries, no messages.
pub proof fn lemma_inbox_empty(id: i32)
    ensures
        inbox(Seq::empty(), id) == Seq::<OutboundView>::empty(),
{
    reveal(Seq::filter);
    assert(inbox(Seq::empty(), id) =~= Seq::<OutboundView>::empty());
}

/// One more delivery adds its message to the inbox of the session it is
/// addressed to, and to no other.
pub proof fn lemma_inbox_push(deliveries: Seq<DeliveryView>, d: DeliveryView, id: i32)
    ensures
        inbox(deliveries.push(d), id) == if d.to.0 == id {
            inbox(deliveries, id).push(d.message)
        } else {
            inbox(deliveries, id)
        },
{
    deliveries.lemma_filter_push(d, addressed_to(id));
    if d.to.0 == id {
        deliveries.filter(addressed_to(id)).lemma_push_map_commute(message_of(), d);
    }
}

/// The inbox of deliveries made one after the other is the one inbox
/// followed by the other.
pub proof fn lemma_inbox_add(first: Seq<DeliveryView>, second: Seq<DeliveryView>, id: i32)
    ensures
        inbox(first + second, id) == inbox(first, id) + inbox(second, id),
{
    Seq::filter_distributes_over_add(first, second, addressed_to(id));
    assert(inbox(first + second, id) =~= inbox(first, id) + inbox(second, id));
}

/// Of an update that is sent on, a session gets one copy if it is synced and
/// none if it is not.
pub proof fn lemma_inbox_of_fan_out(sessions: Seq<ClientInfo>, msg: UpdateFromClientView, id: i32)
    requires
        ids_increase(sessions),
    ensures
        inbox(fan_out(sessions, msg), id) == if synced(sessions, id) {
            seq![OutboundView::Diff(msg)]
        } else {
            Seq::empty()
        },
    decreases sessions.len(),
{
    if sessions.len() == 0 {
        lemma_fan_out_empty(msg);
        lemma_inbox_empty(id);
        assert(sessions =~= Seq::empty());
        lemma_session_position_some(sessions, id);
    } else {
        let front = sessions.drop_last();
        let last = sessions.last();
        assert(sessions =~= front.push(last));
        assert(ids_increase(front));
        lemma_inbox_of_fan_out(front, msg, id);
        lemma_fan_out_push(front, last, msg);
        lemma_session_position_push(front, last, id);
        lemma_session_position_some(front, id);
        if last.id.0 == id {
            assert(!registered(front, id)) by {
                if registered(front, id) {
                    let k = choose|k: int| 0 <= k < front.len() && (#[trigger] front[k]).id.0 == id;
                    assert(sessions[k].id.0 < sessions[sessions.len() - 1].id.0);
                }
            }
        }
        if last.sent_state_sync {
            lemma_inbox_push(fan_out(front, msg), diff_for(msg)(last), id);
            assert(Seq::<OutboundView>::empty().push(OutboundView::Diff(msg)) =~= seq![
                OutboundView::Diff(msg),
            ]);
        }
    }
}

} // verus!
