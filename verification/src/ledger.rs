//! The producer side of the queue: the call counter ledger, the enqueue operation,
//! and the invariant that ties counters, slots and cursors together.

use vstd::prelude::*;
use crate::cursors::{bottom_of, counter_of, get_counter, top_of};
use crate::dispatch::{backlog, lemma_cursors_after, lemma_cycle_writes_cursors_only, store_after};
use crate::keys::{
    bottom_key,
    derive_key,
    derive_pctop,
    lemma_cursor_key_injective,
    lemma_key_roles_disjoint,
    lemma_slot_key_injective,
    slot_key,
    top_key,
};
use crate::registry::Method;
use crate::scale::{encode_marker, lemma_marker_round_trip, marker_bytes};
use crate::store::ByteMap;

verus! {

/// The two tiers a producer writes: the transactional counters, keyed by method
/// identifier, and the slot store with the cursors.
pub struct Ledger {
    pub counters: Map<Seq<u8>, Seq<u8>>,
    pub offchain: Map<Seq<u8>, Seq<u8>>,
}

/// The ledger before any call.
pub open spec fn empty_ledger() -> Ledger {
    Ledger { counters: Map::empty(), offchain: Map::empty() }
}

/// The ledger after one accepted call of `method` with `payload`: the counter grows
/// by one, the payload is stored in the slot of the new count, and the top cursor
/// is set to the new count.
pub open spec fn post(ledger: Ledger, method: Seq<u8>, payload: Seq<u8>) -> Ledger {
    let assigned = (counter_of(ledger.counters, method) + 1) as u64;
    Ledger {
        counters: ledger.counters.insert(method, marker_bytes(assigned)),
        offchain: ledger.offchain.insert(slot_key(method, assigned as nat), payload).insert(
            top_key(method),
            marker_bytes(assigned),
        ),
    }
}

/// The ledger after accepted calls of `method` with each of `payloads`, in order.
pub open spec fn post_all(ledger: Ledger, method: Seq<u8>, payloads: Seq<Seq<u8>>) -> Ledger
    decreases payloads.len(),
{
    if payloads.len() == 0 {
        ledger
    } else {
        post(post_all(ledger, method, payloads.drop_last()), method, payloads.last())
    }
}

/// Whether the queue of `method` is consistent: the top cursor equals the call
/// counter, the bottom cursor does not exceed it, and the slots that exist are those
/// numbered from one to the counter.
pub open spec fn queue_consistent(ledger: Ledger, method: Seq<u8>) -> bool {
    let count = counter_of(ledger.counters, method);
    &&& top_of(ledger.offchain, method) == count
    &&& bottom_of(ledger.offchain, method) <= count
    &&& forall|n: nat| #[trigger]
        ledger.offchain.contains_key(slot_key(method, n)) <==> 1 <= n <= count
}

/// What an accepted call writes, besides its payload: the sequence number it was
/// assigned, the key of its slot, the key of the top cursor, and the encoded number
/// that both the counter and the top cursor are set to.
pub struct Assignment {
    pub nonce: u64,
    pub slot_key: Vec<u8>,
    pub top_key: Vec<u8>,
    pub marker: Vec<u8>,
}

/// Assigns the next sequence number of `method`, given the number of calls accepted
/// so far, and derives what the call has to write. `None` where no number is left.
pub fn assign(count: u64, method: &[u8]) -> (assignment: Option<Assignment>)
    ensures
        assignment is Some <==> count < u64::MAX,
        assignment matches Some(found) ==> {
            &&& found.nonce == count + 1
            &&& found.slot_key@ == slot_key(method@, found.nonce as nat)
            &&& found.top_key@ == top_key(method@)
            &&& found.marker@ == marker_bytes(found.nonce)
        },
{
    if count == u64::MAX {
        return None;
    }
    let nonce: u64 = count + 1;
    Some(
        Assignment {
            nonce,
            slot_key: derive_key(method, nonce),
            top_key: derive_pctop(method),
            marker: encode_marker(nonce),
        },
    )
}

/// Enqueues `payload` as the next call of `method`: counts the call, stores the
/// payload in the slot of the new count and sets the top cursor to it. Returns the
/// sequence number of the call. Where the counter cannot grow, nothing is written
/// and `None` is returned.
pub fn enqueue(counters: &mut ByteMap, offchain: &mut ByteMap, method: &[u8], payload: &[u8]) -> (assigned:
    Option<u64>)
    ensures
        counter_of(old(counters)@, method@) < u64::MAX ==> {
            &&& assigned == Some((counter_of(old(counters)@, method@) + 1) as u64)
            &&& (Ledger { counters: final(counters)@, offchain: final(offchain)@ }) == post(
                (Ledger { counters: old(counters)@, offchain: old(offchain)@ }),
                method@,
                payload@,
            )
        },
        counter_of(old(counters)@, method@) == u64::MAX ==> {
            &&& assigned is None
            &&& final(counters)@ == old(counters)@
            &&& final(offchain)@ == old(offchain)@
        },
{
    let count = get_counter(counters, method);
    match assign(count, method) {
        None => None,
        Some(assignment) => {
            counters.set(method, assignment.marker.as_slice());
            offchain.set(assignment.slot_key.as_slice(), payload);
            offchain.set(assignment.top_key.as_slice(), assignment.marker.as_slice());
            Some(assignment.nonce)
        },
    }
}

/// Before any call every queue is consistent: both cursors read zero and no slot
/// exists.
pub proof fn lemma_empty_consistent(method: Seq<u8>)
    ensures
        queue_consistent(empty_ledger(), method),
        counter_of(empty_ledger().counters, method) == 0,
        top_of(empty_ledger().offchain, method) == 0,
        bottom_of(empty_ledger().offchain, method) == 0,
        forall|n: nat| !empty_ledger().offchain.contains_key(#[trigger] slot_key(method, n)),
{
}

/// A method that was never called has both cursors at zero and no slot at all.
pub proof fn lemma_never_called(ledger: Ledger, method: Seq<u8>)
    requires
        queue_consistent(ledger, method),
        counter_of(ledger.counters, method) == 0,
    ensures
        top_of(ledger.offchain, method) == 0,
        bottom_of(ledger.offchain, method) == 0,
        forall|n: nat| !ledger.offchain.contains_key(#[trigger] slot_key(method, n)),
{
    assert forall|n: nat| !ledger.offchain.contains_key(#[trigger] slot_key(method, n)) by {
        assert(ledger.offchain.contains_key(slot_key(method, n)) <==> 1 <= n <= 0);
    }
}

/// An accepted call is assigned the next number, and it changes the queue of its own
/// method only: the counter and the top cursor become the assigned number, its slot
/// holds the payload, and every consistent queue stays consistent.
pub proof fn lemma_post_keeps_consistent(
    ledger: Ledger,
    method: Seq<u8>,
    payload: Seq<u8>,
    other: Seq<u8>,
)
    requires
        queue_consistent(ledger, other),
        counter_of(ledger.counters, method) < u64::MAX,
    ensures
        queue_consistent(post(ledger, method, payload), other),
        counter_of(post(ledger, method, payload).counters, method) == counter_of(
            ledger.counters,
            method,
        ) + 1,
        post(ledger, method, payload).offchain[slot_key(
            method,
            (counter_of(ledger.counters, method) + 1) as nat,
        )] == payload,
        other != method ==> counter_of(post(ledger, method, payload).counters, other)
            == counter_of(ledger.counters, other),
        forall|n: nat|
            ledger.offchain.contains_key(#[trigger] slot_key(other, n)) ==> post(
                ledger,
                method,
                payload,
            ).offchain[slot_key(other, n)] == ledger.offchain[slot_key(other, n)],
        bottom_of(post(ledger, method, payload).offchain, other) == bottom_of(
            ledger.offchain,
            other,
        ),
{
    let after = post(ledger, method, payload);
    let count = counter_of(ledger.counters, method);
    let assigned = (count + 1) as u64;
    lemma_marker_round_trip(assigned);
    lemma_key_roles_disjoint(method, assigned as nat, method, other);
    lemma_key_roles_disjoint(method, assigned as nat, other, other);
    lemma_cursor_key_injective(other, method);
    assert forall|n: nat|
        ledger.offchain.contains_key(#[trigger] slot_key(other, n)) implies after.offchain[slot_key(
        other,
        n,
    )] == ledger.offchain[slot_key(other, n)] by {
        lemma_key_roles_disjoint(other, n, method, method);
        if slot_key(other, n) == slot_key(method, assigned as nat) {
            lemma_slot_key_injective(other, n, method, assigned as nat);
            assert(ledger.offchain.contains_key(slot_key(other, n)) <==> 1 <= n <= count);
        }
    }
    assert forall|n: nat| #[trigger]
        after.offchain.contains_key(slot_key(other, n)) <==> 1 <= n <= counter_of(
            after.counters,
            other,
        ) by {
        lemma_key_roles_disjoint(other, n, method, method);
        assert(ledger.offchain.contains_key(slot_key(other, n)) <==> 1 <= n <= counter_of(
            ledger.counters,
            other,
        ));
        if slot_key(other, n) == slot_key(method, assigned as nat) {
            lemma_slot_key_injective(other, n, method, assigned as nat);
        }
    }
}

/// Numbering: after `payloads.len()` accepted calls of a method that was never called
/// before, the counter and the top cursor equal the number of calls, the slots that
/// exist are exactly those numbered from one to that number, and the slot of each
/// number holds the payload of the call that was assigned it.
pub proof fn lemma_posts_number_slots(ledger: Ledger, method: Seq<u8>, payloads: Seq<Seq<u8>>)
    requires
        queue_consistent(ledger, method),
        counter_of(ledger.counters, method) == 0,
        payloads.len() <= u64::MAX,
    ensures
        queue_consistent(post_all(ledger, method, payloads), method),
        counter_of(post_all(ledger, method, payloads).counters, method) == payloads.len(),
        top_of(post_all(ledger, method, payloads).offchain, method) == payloads.len(),
        forall|n: nat| #[trigger]
            post_all(ledger, method, payloads).offchain.contains_key(slot_key(method, n)) <==> 1
                <= n <= payloads.len(),
        forall|n: nat|
            1 <= n <= payloads.len() ==> post_all(ledger, method, payloads).offchain[#[trigger] slot_key(
                method,
                n,
            )] == payloads[n - 1],
    decreases payloads.len(),
{
    if payloads.len() > 0 {
        let earlier = post_all(ledger, method, payloads.drop_last());
        lemma_posts_number_slots(ledger, method, payloads.drop_last());
        lemma_post_keeps_consistent(earlier, method, payloads.last(), method);
        let after = post_all(ledger, method, payloads);
        assert forall|n: nat| 1 <= n <= payloads.len() implies after.offchain[#[trigger] slot_key(
            method,
            n,
        )] == payloads[n - 1] by {
            if n < payloads.len() {
                assert(earlier.offchain.contains_key(slot_key(method, n)));
                assert(payloads.drop_last()[n - 1] == payloads[n - 1]);
            }
        }
    }
}

/// A cycle keeps every consistent queue consistent, whichever method it drains.
pub proof fn lemma_cycle_keeps_consistent(
    ledger: Ledger,
    method: Method,
    moved: nat,
    other: Seq<u8>,
)
    requires
        queue_consistent(ledger, other),
        moved <= backlog(
            bottom_of(ledger.offchain, method.identifier()),
            top_of(ledger.offchain, method.identifier()),
        ),
    ensures
        queue_consistent(
            (Ledger {
                counters: ledger.counters,
                offchain: store_after(ledger.offchain, method, moved),
            }),
            other,
        ),
{
    let id = method.identifier();
    let after = store_after(ledger.offchain, method, moved);
    lemma_cursors_after(ledger.offchain, method, moved);
    lemma_cursor_key_injective(other, id);
    lemma_key_roles_disjoint(other, 0, other, id);
    lemma_key_roles_disjoint(other, 0, id, other);
    lemma_cycle_writes_cursors_only(ledger.offchain, method, moved, top_key(other));
    lemma_cycle_writes_cursors_only(ledger.offchain, method, moved, bottom_key(other));
    assert forall|n: nat| #[trigger]
        after.contains_key(slot_key(other, n)) <==> 1 <= n <= counter_of(
            ledger.counters,
            other,
        ) by {
        lemma_key_roles_disjoint(other, n, id, id);
        lemma_cycle_writes_cursors_only(ledger.offchain, method, moved, slot_key(other, n));
        assert(ledger.offchain.contains_key(slot_key(other, n)) <==> 1 <= n <= counter_of(
            ledger.counters,
            other,
        ));
    }
}

} // verus!
