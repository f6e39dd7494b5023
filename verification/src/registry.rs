//! The live sessions and what the server knows of each.

use vstd::prelude::*;
use crate::ids::ClientId;

verus! {

/// What the server keeps of one live connection.
///
/// A session starts with both flags down. It has an identity once its
/// Connect has been taken, and is synced once the whole document has been
/// sent to it. Only a synced session is sent the edits of others, and only a
/// synced session may edit.
#[derive(Debug, Clone, Copy, PartialEq, Eq, Structural)]
pub struct ClientInfo {
    pub id: ClientId,
    pub received_username: bool,
    pub sent_state_sync: bool,
}

impl ClientInfo {
    /// The record of a connection that has just been accepted.
    pub open spec fn spec_fresh(id: ClientId) -> ClientInfo {
        ClientInfo { id, received_username: false, sent_state_sync: false }
    }

    /// The record of a connection that has just been accepted.
    pub fn fresh(id: ClientId) -> (r: ClientInfo)
        ensures
            r == ClientInfo::spec_fresh(id),
    {
        ClientInfo { id, received_username: false, sent_state_sync: false }
    }

    /// This record after the whole document has been sent to its session.
    pub open spec fn marked_synced(self) -> ClientInfo {
        ClientInfo { id: self.id, received_username: true, sent_state_sync: true }
    }
}

/// Whether `i` is the place of the first of `sessions` with the id `id`.
pub open spec fn is_first_session_of(sessions: Seq<ClientInfo>, id: i32, i: int) -> bool {
    &&& 0 <= i < sessions.len()
    &&& sessions[i].id.0 == id
    &&& forall|j: int| 0 <= j < i ==> (#[trigger] sessions[j]).id.0 != id
}

/// Whether a session with the id `id` is among `sessions`.
pub open spec fn registered(sessions: Seq<ClientInfo>, id: i32) -> bool {
    exists|i: int| 0 <= i < sessions.len() && (#[trigger] sessions[i]).id.0 == id
}

/// The place of the first of `sessions` with the id `id`.
pub open spec fn session_position(sessions: Seq<ClientInfo>, id: i32) -> Option<int> {
    if exists|i: int| is_first_session_of(sessions, id, i) {
        Some(choose|i: int| is_first_session_of(sessions, id, i))
    } else {
        None
    }
}

/// Whether the session with the id `id` is registered and has been sent the
/// whole document.
pub open spec fn synced(sessions: Seq<ClientInfo>, id: i32) -> bool {
    match session_position(sessions, id) {
        Some(i) => sessions[i].sent_state_sync,
        None => false,
    }
}

/// No two of `sessions` share an id: ids grow along the sequence.
pub open spec fn ids_increase(sessions: Seq<ClientInfo>) -> bool {
    forall|i: int, j: int|
        0 <= i < j < sessions.len() ==> (#[trigger] sessions[i]).id.0 < (
        #[trigger] sessions[j]).id.0
}

/// The first session with an id is found at one place only.
pub proof fn lemma_session_position_is(sessions: Seq<ClientInfo>, id: i32, i: int)
    requires
        is_first_session_of(sessions, id, i),
    ensures
        session_position(sessions, id) == Some(i),
        registered(sessions, id),
{
    let k = choose|k: int| is_first_session_of(sessions, id, k);
    assert(is_first_session_of(sessions, id, k));
    if k < i {
        assert(sessions[k].id.0 != id);
    }
    if i < k {
        assert(sessions[i].id.0 != id);
    }
}

/// Where no session has the id, none is first.
pub proof fn lemma_session_position_none(sessions: Seq<ClientInfo>, id: i32)
    requires
        forall|j: int| 0 <= j < sessions.len() ==> (#[trigger] sessions[j]).id.0 != id,
    ensures
        session_position(sessions, id) is None,
        !registered(sessions, id),
{
}

/// An id has a first session exactly when it is registered.
pub proof fn lemma_session_position_some(sessions: Seq<ClientInfo>, id: i32)
    ensures
        session_position(sessions, id) is Some <==> registered(sessions, id),
        session_position(sessions, id) matches Some(i) ==> is_first_session_of(sessions, id, i),
{
    if registered(sessions, id) {
        let w = choose|i: int| 0 <= i < sessions.len() && (#[trigger] sessions[i]).id.0 == id;
        lemma_first_session_exists(sessions, id, w);
    }
}

/// Below any session with an id lies the first one with it.
proof fn lemma_first_session_exists(sessions: Seq<ClientInfo>, id: i32, w: int)
    requires
        0 <= w < sessions.len(),
        sessions[w].id.0 == id,
    ensures
        exists|i: int| is_first_session_of(sessions, id, i),
    decreases w,
{
    if exists|j: int| 0 <= j < w && (#[trigger] sessions[j]).id.0 == id {
        let j = choose|j: int| 0 <= j < w && (#[trigger] sessions[j]).id.0 == id;
        lemma_first_session_exists(sessions, id, j);
    } else {
        assert(is_first_session_of(sessions, id, w));
    }
}

/// Where ids grow along the sequence, any session with an id is the first
/// with it.
pub proof fn lemma_unique_session(sessions: Seq<ClientInfo>, i: int)
    requires
        ids_increase(sessions),
        0 <= i < sessions.len(),
    ensures
        session_position(sessions, sessions[i].id.0) == Some(i),
{
    assert(is_first_session_of(sessions, sessions[i].id.0, i));
    lemma_session_position_is(sessions, sessions[i].id.0, i);
}

/// Where no two sessions share an id, a session is synced exactly when some
/// record with its id has the flag up.
pub proof fn lemma_synced_iff(sessions: Seq<ClientInfo>, id: i32)
    requires
        ids_increase(sessions),
    ensures
        synced(sessions, id) <==> exists|k: int|
            0 <= k < sessions.len() && (#[trigger] sessions[k]).id.0 == id
                && sessions[k].sent_state_sync,
{
    lemma_session_position_some(sessions, id);
    if exists|k: int|
        0 <= k < sessions.len() && (#[trigger] sessions[k]).id.0 == id
            && sessions[k].sent_state_sync {
        let k = choose|k: int|
            0 <= k < sessions.len() && (#[trigger] sessions[k]).id.0 == id
                && sessions[k].sent_state_sync;
        lemma_unique_session(sessions, k);
    }
}

/// What a further session at the end does to the search for an id.
pub proof fn lemma_session_position_push(sessions: Seq<ClientInfo>, c: ClientInfo, id: i32)
    ensures
        session_position(sessions.push(c), id) == match session_position(sessions, id) {
            Some(i) => Some(i),
            None => if c.id.0 == id {
                Some(sessions.len() as int)
            } else {
                None
            },
        },
{
    let longer = sessions.push(c);
    lemma_session_position_some(sessions, id);
    match session_position(sessions, id) {
        Some(i) => {
            assert(is_first_session_of(longer, id, i)) by {
                assert forall|j: int| 0 <= j < i implies (#[trigger] longer[j]).id.0 != id by {
                    assert(sessions[j].id.0 != id);
                }
            }
            lemma_session_position_is(longer, id, i);
        },
        None => {
            assert forall|j: int| 0 <= j < sessions.len() implies (#[trigger] longer[j]).id.0
                != id by {
                assert(sessions[j].id.0 == longer[j].id.0);
            }
            if c.id.0 == id {
                assert(is_first_session_of(longer, id, sessions.len() as int));
                lemma_session_position_is(longer, id, sessions.len() as int);
            } else {
                lemma_session_position_none(longer, id);
            }
        },
    }
}

/// The place of the first of `sessions` with the id `id`.
pub fn find_session(sessions: &Vec<ClientInfo>, id: i32) -> (r: Option<usize>)
    ensures
        match r {
            Some(i) => session_position(sessions@, id) == Some(i as int),
            None => session_position(sessions@, id) is None,
        },
{
    let mut i: usize = 0;
    while i < sessions.len()
        invariant
            i <= sessions@.len(),
            forall|j: int| 0 <= j < i ==> (#[trigger] sessions@[j]).id.0 != id,
        decreases sessions@.len() - i,
    {
        if sessions[i].id.0 == id {
            proof {
                lemma_session_position_is(sessions@, id, i as int);
            }
            return Some(i);
        }
        i = i + 1;
    }
    proof {
        lemma_session_position_none(sessions@, id);
    }
    None
}

} // verus!
