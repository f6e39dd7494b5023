//! The roster: who is connected, under which name, in which order.

use vstd::prelude::*;
use crate::filters::{lemma_filter_drops_all, lemma_filter_keeps_all};

verus! {

/// One line of the roster as a mathematical value: the id of a client and
/// the name it declared.
pub type RosterEntry = (i32, Seq<char>);

/// Whether `i` is the place of the first entry of `roster` that belongs to
/// client `id`.
pub open spec fn is_first_entry_of(roster: Seq<RosterEntry>, id: i32, i: int) -> bool {
    &&& 0 <= i < roster.len()
    &&& roster[i].0 == id
    &&& forall|j: int| 0 <= j < i ==> (#[trigger] roster[j]).0 != id
}

/// Whether `roster` has an entry for client `id`.
pub open spec fn roster_has(roster: Seq<RosterEntry>, id: i32) -> bool {
    exists|i: int| 0 <= i < roster.len() && (#[trigger] roster[i]).0 == id
}

/// The place of the first entry of `roster` that belongs to client `id`.
pub open spec fn roster_position(roster: Seq<RosterEntry>, id: i32) -> Option<int> {
    if exists|i: int| is_first_entry_of(roster, id, i) {
        Some(choose|i: int| is_first_entry_of(roster, id, i))
    } else {
        None
    }
}

/// `roster` without the first entry that belongs to client `id`; the other
/// entries keep their order.
pub open spec fn roster_without(roster: Seq<RosterEntry>, id: i32) -> Seq<RosterEntry> {
    match roster_position(roster, id) {
        Some(i) => roster.remove(i),
        None => roster,
    }
}

/// The first entry for a client is found at one place only.
pub proof fn lemma_roster_position_is(roster: Seq<RosterEntry>, id: i32, i: int)
    requires
        is_first_entry_of(roster, id, i),
    ensures
        roster_position(roster, id) == Some(i),
        roster_has(roster, id),
{
    let k = choose|k: int| is_first_entry_of(roster, id, k);
    assert(is_first_entry_of(roster, id, k));
    if k < i {
        assert(roster[k].0 != id);
    }
    if i < k {
        assert(roster[i].0 != id);
    }
}

/// A roster without an entry for a client has no first one.
pub proof fn lemma_roster_position_none(roster: Seq<RosterEntry>, id: i32)
    requires
        forall|j: int| 0 <= j < roster.len() ==> (#[trigger] roster[j]).0 != id,
    ensures
        roster_position(roster, id) is None,
        !roster_has(roster, id),
{
}

/// A client has a first entry exactly when it has an entry at all.
pub proof fn lemma_roster_position_some(roster: Seq<RosterEntry>, id: i32)
    ensures
        roster_position(roster, id) is Some <==> roster_has(roster, id),
        roster_position(roster, id) matches Some(i) ==> is_first_entry_of(roster, id, i),
{
    if roster_has(roster, id) {
        let w = choose|i: int| 0 <= i < roster.len() && (#[trigger] roster[i]).0 == id;
        lemma_first_entry_exists(roster, id, w);
    }
}

/// Below any entry of a client lies its first entry.
proof fn lemma_first_entry_exists(roster: Seq<RosterEntry>, id: i32, w: int)
    requires
        0 <= w < roster.len(),
        roster[w].0 == id,
    ensures
        exists|i: int| is_first_entry_of(roster, id, i),
    decreases w,
{
    if exists|j: int| 0 <= j < w && (#[trigger] roster[j]).0 == id {
        let j = choose|j: int| 0 <= j < w && (#[trigger] roster[j]).0 == id;
        lemma_first_entry_exists(roster, id, j);
    } else {
        assert(is_first_entry_of(roster, id, w));
    }
}

/// No client has two entries in `roster`.
pub open spec fn roster_is_distinct(roster: Seq<RosterEntry>) -> bool {
    forall|i: int, j: int|
        0 <= i < j < roster.len() ==> (#[trigger] roster[i]).0 != (#[trigger] roster[j]).0
}

/// An entry at the end of the roster is an entry of its client, and of no
/// other.
pub proof fn lemma_roster_has_push(roster: Seq<RosterEntry>, entry: RosterEntry, id: i32)
    ensures
        roster_has(roster.push(entry), id) <==> roster_has(roster, id) || entry.0 == id,
{
    let longer = roster.push(entry);
    if roster_has(roster, id) {
        let k = choose|k: int| 0 <= k < roster.len() && (#[trigger] roster[k]).0 == id;
        assert(longer[k].0 == id);
    }
    if entry.0 == id {
        assert(longer[roster.len() as int].0 == id);
    }
    if roster_has(longer, id) {
        let k = choose|k: int| 0 <= k < longer.len() && (#[trigger] longer[k]).0 == id;
        if k < roster.len() {
            assert(roster[k].0 == id);
        }
    }
}

/// Where no client has two entries, taking one entry out takes its client
/// out and leaves the others in.
pub proof fn lemma_roster_has_remove(roster: Seq<RosterEntry>, i: int, id: i32)
    requires
        roster_is_distinct(roster),
        0 <= i < roster.len(),
    ensures
        roster_has(roster.remove(i), id) <==> roster_has(roster, id) && roster[i].0 != id,
        roster_is_distinct(roster.remove(i)),
{
    let shorter = roster.remove(i);
    if roster_has(roster, id) && roster[i].0 != id {
        let k = choose|k: int| 0 <= k < roster.len() && (#[trigger] roster[k]).0 == id;
        if k < i {
            assert(shorter[k].0 == id);
        } else {
            assert(shorter[k - 1].0 == id);
        }
    }
    if roster_has(shorter, id) {
        let k = choose|k: int| 0 <= k < shorter.len() && (#[trigger] shorter[k]).0 == id;
        if k < i {
            assert(roster[k].0 == id);
        } else {
            assert(roster[k + 1].0 == id);
        }
    }
    assert forall|a: int, b: int| 0 <= a < b < shorter.len() implies (#[trigger] shorter[a]).0 != (
    #[trigger] shorter[b]).0 by {
        let a0 = if a < i { a } else { a + 1 };
        let b0 = if b < i { b } else { b + 1 };
        assert(roster[a0].0 != roster[b0].0);
    }
}

/// The test by which a roster entry belongs to another client than `id`.
pub open spec fn not_of(id: i32) -> spec_fn(RosterEntry) -> bool {
    |entry: RosterEntry| entry.0 != id
}

/// Where no client has two entries, a Disconnect leaves exactly the entries
/// of the other clients, in the order they had.
pub proof fn roster_without_keeps_the_others(roster: Seq<RosterEntry>, id: i32)
    requires
        roster_is_distinct(roster),
    ensures
        roster_without(roster, id) == roster.filter(not_of(id)),
{
    lemma_roster_position_some(roster, id);
    match roster_position(roster, id) {
        None => {
            assert forall|i: int| 0 <= i < roster.len() implies not_of(id)(
                #[trigger] roster[i],
            ) by {
                if roster[i].0 == id {
                    assert(roster_has(roster, id));
                }
            }
            lemma_filter_keeps_all(roster, not_of(id));
        },
        Some(i) => {
            let before = roster.take(i);
            let entry = seq![roster[i]];
            let behind = roster.skip(i + 1);
            assert(roster =~= before + entry + behind);
            Seq::filter_distributes_over_add(before + entry, behind, not_of(id));
            Seq::filter_distributes_over_add(before, entry, not_of(id));
            assert forall|k: int| 0 <= k < before.len() implies not_of(id)(
                #[trigger] before[k],
            ) by {
                assert(roster[k].0 != id);
            }
            assert forall|k: int| 0 <= k < behind.len() implies not_of(id)(
                #[trigger] behind[k],
            ) by {
                assert(roster[i].0 != roster[i + 1 + k].0);
            }
            lemma_filter_keeps_all(before, not_of(id));
            lemma_filter_drops_all(entry, not_of(id));
            lemma_filter_keeps_all(behind, not_of(id));
            assert(roster.remove(i) =~= before + behind);
            assert(before + Seq::<RosterEntry>::empty() =~= before);
        },
    }
}

} // verus!
