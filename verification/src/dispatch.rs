//! The dispatch loop: once per cycle, each registered method's slots between its
//! bottom and top cursors are read, decoded and handed to the handler, and the bottom
//! cursor moves past every slot that is done with.
//!
//! The bottom cursor counts the slots that are done with; the slot in turn is the one
//! numbered `bottom + 1`, and the queue is drained when `bottom` has reached `top`.

use vstd::prelude::*;
use crate::cursors::{bottom_of, get_bottom, get_top, initialised, set_bottom, stored_marker, top_of};
use crate::keys::{bottom_key, derive_key, lemma_key_roles_disjoint, slot_key, top_key};
use crate::registry::{Handler, HandlerError, Method, WorkItemView};
use crate::scale::{lemma_marker_round_trip, marker_bytes};
use crate::store::ByteMap;

verus! {

/// What became of one slot in one cycle.
#[derive(Clone, Copy, Debug, PartialEq, Eq, Structural)]
pub enum Outcome {
    /// The handler applied the item.
    Applied,
    /// Nothing is stored for the slot yet: a gap, looked at again in the next cycle.
    SlotMissing,
    /// The payload does not decode: the slot is skipped for good.
    DecodeError,
    /// The handler failed in a way that may pass: the slot is tried again in the
    /// next cycle, and no later slot is touched before.
    Retryable,
    /// The handler failed for good: the slot is skipped.
    Permanent,
}

impl Outcome {
    /// Whether the bottom cursor moves past a slot with this outcome.
    pub open spec fn advances(self) -> bool {
        self is Applied || self is DecodeError || self is Permanent
    }

    /// Whether the bottom cursor moves past a slot with this outcome.
    pub fn is_advancing(self) -> (moves: bool)
        ensures
            moves == self.advances(),
    {
        match self {
            Outcome::Applied | Outcome::DecodeError | Outcome::Permanent => true,
            Outcome::SlotMissing | Outcome::Retryable => false,
        }
    }

    /// Whether this outcome is a failure to be reported to the operator: a payload
    /// that does not decode, or an item the handler rejected for good.
    pub open spec fn is_failure(self) -> bool {
        self is DecodeError || self is Permanent
    }

    /// Whether this outcome is a failure to be reported to the operator.
    pub fn is_recorded_failure(self) -> (failed: bool)
        ensures
            failed == self.is_failure(),
    {
        match self {
            Outcome::DecodeError | Outcome::Permanent => true,
            Outcome::Applied | Outcome::SlotMissing | Outcome::Retryable => false,
        }
    }
}

/// The outcome that stands for a handler's result.
pub open spec fn outcome_of(result: Result<(), HandlerError>) -> Outcome {
    match result {
        Ok(_) => Outcome::Applied,
        Err(HandlerError::Retryable) => Outcome::Retryable,
        Err(HandlerError::Permanent) => Outcome::Permanent,
    }
}

/// Classifies what a handler returned.
pub fn classify(result: Result<(), HandlerError>) -> (outcome: Outcome)
    ensures
        outcome == outcome_of(result),
{
    match result {
        Ok(_) => Outcome::Applied,
        Err(HandlerError::Retryable) => Outcome::Retryable,
        Err(HandlerError::Permanent) => Outcome::Permanent,
    }
}

/// Where the consumer stands in one method's queue during a cycle.
#[derive(Clone, Copy, Debug, PartialEq, Eq, Structural)]
pub enum Phase {
    /// Nothing is left to do in this cycle.
    Idle,
    /// The slot `bottom + 1` is in turn.
    Draining,
}

/// The consumer's position in one method's queue.
#[derive(Clone, Copy, Debug, PartialEq, Eq, Structural)]
pub struct Cursor {
    /// The number of slots that are done with.
    pub bottom: u64,
    /// The sequence number of the latest slot.
    pub top: u64,
    /// Whether a gap or a retryable failure has ended this cycle for the method.
    pub halted: bool,
}

impl Cursor {
    /// Whether a slot is in turn.
    pub open spec fn pending(self) -> bool {
        !self.halted && self.bottom < self.top
    }

    /// The position at the start of a cycle.
    pub fn resume(bottom: u64, top: u64) -> (cursor: Cursor)
        ensures
            cursor == (Cursor { bottom, top, halted: false }),
    {
        Cursor { bottom, top, halted: false }
    }

    /// The phase of the state machine.
    pub fn phase(&self) -> (phase: Phase)
        ensures
            phase == (if self.pending() {
                Phase::Draining
            } else {
                Phase::Idle
            }),
    {
        if !self.halted && self.bottom < self.top {
            Phase::Draining
        } else {
            Phase::Idle
        }
    }

    /// The sequence number of the slot in turn, if one is.
    pub fn next_slot(&self) -> (seq: Option<u64>)
        ensures
            seq == (if self.pending() {
                Some((self.bottom + 1) as u64)
            } else {
                None
            }),
    {
        if !self.halted && self.bottom < self.top {
            Some(self.bottom + 1)
        } else {
            None
        }
    }

    /// The position after the slot in turn had the outcome `outcome`: past the slot
    /// where the outcome advances, halted before it where it does not.
    pub fn settle(self, outcome: Outcome) -> (next: Cursor)
        requires
            self.pending(),
        ensures
            next.top == self.top,
            outcome.advances() ==> next.bottom == self.bottom + 1 && !next.halted,
            !outcome.advances() ==> next.bottom == self.bottom && next.halted,
    {
        if outcome.is_advancing() {
            Cursor { bottom: self.bottom + 1, top: self.top, halted: false }
        } else {
            Cursor { bottom: self.bottom, top: self.top, halted: true }
        }
    }
}

/// One line of a cycle's report.
#[derive(Clone, Copy, Debug, PartialEq, Eq, Structural)]
pub struct SlotRecord {
    pub method: Method,
    /// The sequence number of the slot.
    pub seq: u64,
    pub outcome: Outcome,
}

/// The item that the slot `seq` of `method` holds, where it holds one that decodes.
pub open spec fn slot_item(store: Map<Seq<u8>, Seq<u8>>, method: Method, seq: nat) -> Option<
    WorkItemView,
> {
    let key = slot_key(method.identifier(), seq);
    if store.contains_key(key) {
        method.parse(store[key])
    } else {
        None
    }
}

/// Whether `outcome` is a possible outcome of the slot `seq`, given what is stored:
/// a missing slot is reported missing, a payload that does not decode as a decode
/// error, and only a decoded item reaches the handler.
pub open spec fn outcome_fits(
    store: Map<Seq<u8>, Seq<u8>>,
    method: Method,
    seq: nat,
    outcome: Outcome,
) -> bool {
    let stored = store.contains_key(slot_key(method.identifier(), seq));
    match outcome {
        Outcome::SlotMissing => !stored,
        Outcome::DecodeError => stored && slot_item(store, method, seq) is None,
        _ => stored && slot_item(store, method, seq) is Some,
    }
}

/// The number of slots a cycle may look at: those between the cursors.
pub open spec fn backlog(bottom: u64, top: u64) -> nat {
    if bottom < top {
        (top - bottom) as nat
    } else {
        0
    }
}

/// Whether `trace` is a report of one cycle over the queue of `method` that started
/// with the cursors `bottom` and `top`: the slots are taken in order from
/// `bottom + 1`, each with an outcome that fits what is stored; every slot but the
/// last moved the cursor; and the cycle stopped early only at a slot that did not.
pub open spec fn valid_trace(
    store: Map<Seq<u8>, Seq<u8>>,
    method: Method,
    bottom: u64,
    top: u64,
    trace: Seq<SlotRecord>,
) -> bool {
    &&& trace.len() <= backlog(bottom, top)
    &&& forall|i: int|
        0 <= i < trace.len() ==> {
            &&& (#[trigger] trace[i]).method == method
            &&& trace[i].seq == bottom + 1 + i
            &&& outcome_fits(store, method, trace[i].seq as nat, trace[i].outcome)
        }
    &&& forall|i: int| 0 <= i < trace.len() - 1 ==> (#[trigger] trace[i]).outcome.advances()
    &&& trace.len() < backlog(bottom, top) ==> trace.len() > 0 && !trace.last().outcome.advances()
}

/// The number of slots the cursor moved past in a cycle with the report `trace`.
pub open spec fn advanced(trace: Seq<SlotRecord>) -> nat {
    if trace.len() == 0 {
        0
    } else if trace.last().outcome.advances() {
        trace.len()
    } else {
        (trace.len() - 1) as nat
    }
}

/// The store after a cycle over `method` that moved the bottom cursor `moved` slots
/// on: both cursors are initialised, and the bottom cursor is rewritten if it moved.
pub open spec fn store_after(store: Map<Seq<u8>, Seq<u8>>, method: Method, moved: nat) -> Map<
    Seq<u8>,
    Seq<u8>,
> {
    let id = method.identifier();
    let base = initialised(initialised(store, bottom_key(id)), top_key(id));
    if moved > 0 {
        base.insert(bottom_key(id), marker_bytes((bottom_of(store, id) + moved) as u64))
    } else {
        base
    }
}

/// Whether the handler may have gone from `pre` to `post` at the slot of `record`:
/// it is untouched where the slot was missing or did not decode, and otherwise it
/// was given the decoded item and returned what the outcome stands for.
pub open spec fn slot_step<H: Handler>(
    pre: H,
    store: Map<Seq<u8>, Seq<u8>>,
    record: SlotRecord,
    post: H,
) -> bool {
    match record.outcome {
        Outcome::SlotMissing | Outcome::DecodeError => post == pre,
        Outcome::Applied => slot_item(store, record.method, record.seq as nat) matches Some(item)
            && H::applies(pre, item, None, post),
        Outcome::Retryable => slot_item(store, record.method, record.seq as nat) matches Some(
            item,
        ) && H::applies(pre, item, Some(HandlerError::Retryable), post),
        Outcome::Permanent => slot_item(store, record.method, record.seq as nat) matches Some(
            item,
        ) && H::applies(pre, item, Some(HandlerError::Permanent), post),
    }
}

/// Whether `states` are the states of a handler before, between and after the slots
/// of `trace`, taken in order.
pub open spec fn chained<H: Handler>(
    states: Seq<H>,
    store: Map<Seq<u8>, Seq<u8>>,
    trace: Seq<SlotRecord>,
) -> bool {
    &&& states.len() == trace.len() + 1
    &&& forall|i: int|
        0 <= i < trace.len() ==> slot_step(states[i], store, #[trigger] trace[i], states[i + 1])
}

/// Whether the handler may have gone from `pre` to `post` over the slots of `trace`,
/// taken in order.
pub open spec fn handled<H: Handler>(
    pre: H,
    store: Map<Seq<u8>, Seq<u8>>,
    trace: Seq<SlotRecord>,
    post: H,
) -> bool {
    exists|states: Seq<H>| #[trigger]
        chained(states, store, trace) && states.first() == pre && states.last() == post
}

/// Whether `trace` may be the report of a cycle that is still under way, or was
/// halted at its last slot.
spec fn in_progress(
    store: Map<Seq<u8>, Seq<u8>>,
    method: Method,
    bottom: u64,
    top: u64,
    trace: Seq<SlotRecord>,
    halted: bool,
) -> bool {
    &&& trace.len() <= backlog(bottom, top)
    &&& forall|i: int|
        0 <= i < trace.len() ==> {
            &&& (#[trigger] trace[i]).method == method
            &&& trace[i].seq == bottom + 1 + i
            &&& outcome_fits(store, method, trace[i].seq as nat, trace[i].outcome)
        }
    &&& forall|i: int| 0 <= i < trace.len() - 1 ==> (#[trigger] trace[i]).outcome.advances()
    &&& halted ==> trace.len() > 0 && !trace.last().outcome.advances()
    &&& !halted ==> advanced(trace) == trace.len()
}

/// A report under way stays one when the slot in turn is added to it.
proof fn lemma_trace_grows(
    store: Map<Seq<u8>, Seq<u8>>,
    method: Method,
    bottom: u64,
    top: u64,
    trace: Seq<SlotRecord>,
    record: SlotRecord,
)
    requires
        in_progress(store, method, bottom, top, trace, false),
        trace.len() < backlog(bottom, top),
        record.method == method,
        record.seq == bottom + 1 + trace.len(),
        outcome_fits(store, method, record.seq as nat, record.outcome),
    ensures
        in_progress(store, method, bottom, top, trace.push(record), !record.outcome.advances()),
        advanced(trace) == trace.len(),
        advanced(trace.push(record)) == trace.len() + (if record.outcome.advances() {
            1nat
        } else {
            0nat
        }),
{
    let longer = trace.push(record);
    assert(longer.last() == record);
    assert forall|i: int| 0 <= i < longer.len() - 1 implies (#[trigger] longer[i]).outcome.advances() by {
        if i < trace.len() - 1 {
            assert(trace[i].outcome.advances());
        } else {
            assert(longer[i] == trace.last());
        }
    }
    assert forall|i: int| 0 <= i < longer.len() implies {
        &&& (#[trigger] longer[i]).method == method
        &&& longer[i].seq == bottom + 1 + i
        &&& outcome_fits(store, method, longer[i].seq as nat, longer[i].outcome)
    } by {
        if i < trace.len() {
            assert(longer[i] == trace[i]);
        }
    }
}

/// A report that ended, by halting or by reaching the top, is a valid report.
proof fn lemma_trace_ends(
    store: Map<Seq<u8>, Seq<u8>>,
    method: Method,
    bottom: u64,
    top: u64,
    trace: Seq<SlotRecord>,
    halted: bool,
)
    requires
        in_progress(store, method, bottom, top, trace, halted),
        halted || bottom + advanced(trace) >= top,
    ensures
        valid_trace(store, method, bottom, top, trace),
{
}

/// What is stored for a slot is what was stored before the cycle began: a cycle
/// writes cursors only.
proof fn lemma_slots_kept(store: Map<Seq<u8>, Seq<u8>>, method: Method, moved: nat, seq: nat)
    ensures
        store_after(store, method, moved).contains_key(slot_key(method.identifier(), seq))
            == store.contains_key(slot_key(method.identifier(), seq)),
        store.contains_key(slot_key(method.identifier(), seq)) ==> store_after(
            store,
            method,
            moved,
        )[slot_key(method.identifier(), seq)] == store[slot_key(method.identifier(), seq)],
        slot_item(store_after(store, method, moved), method, seq) == slot_item(store, method, seq),
        forall|outcome: Outcome| #[trigger]
            outcome_fits(store_after(store, method, moved), method, seq, outcome) == outcome_fits(
                store,
                method,
                seq,
                outcome,
            ),
{
    let id = method.identifier();
    lemma_key_roles_disjoint(id, seq, id, id);
}

/// Writing the bottom cursor once more gives the store of a cycle that moved on.
proof fn lemma_store_moves(store: Map<Seq<u8>, Seq<u8>>, method: Method, moved: nat)
    requires
        bottom_of(store, method.identifier()) + moved + 1 <= u64::MAX,
    ensures
        store_after(store, method, moved).insert(
            bottom_key(method.identifier()),
            marker_bytes((bottom_of(store, method.identifier()) + moved + 1) as u64),
        ) == store_after(store, method, moved + 1),
{
    let id = method.identifier();
    assert(store_after(store, method, moved).insert(
        bottom_key(id),
        marker_bytes((bottom_of(store, id) + moved + 1) as u64),
    ) =~= store_after(store, method, moved + 1));
}

/// The cursors a cycle starts from are those of the store before it.
proof fn lemma_store_opens(store: Map<Seq<u8>, Seq<u8>>, method: Method)
    ensures
        top_of(initialised(store, bottom_key(method.identifier())), method.identifier())
            == top_of(store, method.identifier()),
        initialised(
            initialised(store, bottom_key(method.identifier())),
            top_key(method.identifier()),
        ) == store_after(store, method, 0),
{
    let id = method.identifier();
    lemma_key_roles_disjoint(id, 0, id, id);
}

/// Looks at one slot: reads it, decodes it and hands the item to the handler.
fn look_at<H: Handler>(
    store: &ByteMap,
    handler: &mut H,
    method: Method,
    name: &[u8],
    seq: u64,
) -> (outcome: Outcome)
    requires
        name@ == method.identifier(),
    ensures
        outcome_fits(store@, method, seq as nat, outcome),
        slot_step(*old(handler), store@, (SlotRecord { method, seq, outcome }), *final(handler)),
{
    let key = derive_key(name, seq);
    match store.get(key.as_slice()) {
        None => Outcome::SlotMissing,
        Some(payload) => match method.decode(payload.as_slice()) {
            None => Outcome::DecodeError,
            Some(item) => {
                let result = handler.apply(&item);
                assert(slot_item(store@, method, seq as nat) == Some(item@));
                classify(result)
            },
        },
    }
}

/// The handler's step at a slot depends on the store only through that slot.
proof fn lemma_step_rebased<H: Handler>(
    pre: H,
    now: Map<Seq<u8>, Seq<u8>>,
    origin: Map<Seq<u8>, Seq<u8>>,
    record: SlotRecord,
    post: H,
)
    requires
        slot_step(pre, now, record, post),
        slot_item(now, record.method, record.seq as nat) == slot_item(
            origin,
            record.method,
            record.seq as nat,
        ),
    ensures
        slot_step(pre, origin, record, post),
{
}

/// The states of a handler over a report, with the state after one more slot, are
/// its states over the longer report.
proof fn lemma_chain_grows<H: Handler>(
    states: Seq<H>,
    store: Map<Seq<u8>, Seq<u8>>,
    trace: Seq<SlotRecord>,
    record: SlotRecord,
    after: H,
)
    requires
        chained(states, store, trace),
        slot_step(states.last(), store, record, after),
    ensures
        chained(states.push(after), store, trace.push(record)),
{
    let longer = trace.push(record);
    let more = states.push(after);
    assert forall|i: int| 0 <= i < longer.len() implies slot_step(
        more[i],
        store,
        #[trigger] longer[i],
        more[i + 1],
    ) by {
        if i < trace.len() {
            assert(slot_step(states[i], store, trace[i], states[i + 1]));
        }
    }
}

/// Drains the queue of `method` for one cycle and reports each slot it looked at.
pub fn drain<H: Handler>(store: &mut ByteMap, handler: &mut H, method: Method) -> (trace: Vec<
    SlotRecord,
>)
    ensures
        valid_trace(
            old(store)@,
            method,
            bottom_of(old(store)@, method.identifier()),
            top_of(old(store)@, method.identifier()),
            trace@,
        ),
        final(store)@ == store_after(old(store)@, method, advanced(trace@)),
        handled(*old(handler), old(store)@, trace@, *final(handler)),
{
    let ghost origin = store@;
    let ghost mut states: Seq<H> = seq![*handler];
    let name = method.name();
    let bottom = get_bottom(store, name.as_slice());
    let top = get_top(store, name.as_slice());
    proof {
        lemma_store_opens(origin, method);
    }
    let mut cursor = Cursor::resume(bottom, top);
    let mut trace: Vec<SlotRecord> = Vec::new();
    while !cursor.halted && cursor.bottom < cursor.top
        invariant
            name@ == method.identifier(),
            bottom == bottom_of(origin, method.identifier()),
            cursor.top == top,
            cursor.bottom == bottom + advanced(trace@),
            in_progress(origin, method, bottom, top, trace@, cursor.halted),
            store@ == store_after(origin, method, advanced(trace@)),
            chained(states, origin, trace@),
            states.first() == *old(handler),
            states.last() == *handler,
        decreases
            (if cursor.halted || cursor.bottom >= cursor.top {
                0
            } else {
                cursor.top - cursor.bottom
            }),
    {
        let seq: u64 = cursor.bottom + 1;
        let ghost before = *handler;
        let ghost seen = trace@;
        let outcome = look_at(store, handler, method, name.as_slice(), seq);
        let record = SlotRecord { method, seq, outcome };
        proof {
            lemma_slots_kept(origin, method, advanced(seen), seq as nat);
            lemma_step_rebased(before, store@, origin, record, *handler);
            assert(states.last() == before);
            lemma_trace_grows(origin, method, bottom, top, seen, record);
            if outcome.advances() {
                lemma_store_moves(origin, method, advanced(seen));
            }
        }
        trace.push(record);
        cursor = cursor.settle(outcome);
        if outcome.is_advancing() {
            set_bottom(store, name.as_slice(), cursor.bottom);
        }
        proof {
            lemma_chain_grows(states, origin, seen, record, *handler);
            states = states.push(*handler);
        }
    }
    proof {
        lemma_trace_ends(origin, method, bottom, top, trace@, cursor.halted);
    }
    trace
}

/// After a cycle the bottom cursor stands where it stood plus the slots it moved
/// past, and the top cursor is what it was.
pub proof fn lemma_cursors_after(store: Map<Seq<u8>, Seq<u8>>, method: Method, moved: nat)
    requires
        bottom_of(store, method.identifier()) + moved <= u64::MAX,
    ensures
        bottom_of(store_after(store, method, moved), method.identifier()) == bottom_of(
            store,
            method.identifier(),
        ) + moved,
        top_of(store_after(store, method, moved), method.identifier()) == top_of(
            store,
            method.identifier(),
        ),
{
    let id = method.identifier();
    lemma_key_roles_disjoint(id, 0, id, id);
    lemma_marker_round_trip(0);
    lemma_marker_round_trip((bottom_of(store, id) + moved) as u64);
}

/// A cycle writes nothing but the two cursors of the method: every other key holds
/// what it held, and a cursor that could be read and did not move is untouched.
pub proof fn lemma_cycle_writes_cursors_only(
    store: Map<Seq<u8>, Seq<u8>>,
    method: Method,
    moved: nat,
    key: Seq<u8>,
)
    ensures
        key != bottom_key(method.identifier()) && key != top_key(method.identifier()) ==> {
            &&& store_after(store, method, moved).contains_key(key) == store.contains_key(key)
            &&& store.contains_key(key) ==> store_after(store, method, moved)[key] == store[key]
        },
        stored_marker(store, bottom_key(method.identifier())) is Some && stored_marker(
            store,
            top_key(method.identifier()),
        ) is Some && moved == 0 ==> store_after(store, method, moved) == store,
{
    let id = method.identifier();
    lemma_key_roles_disjoint(id, 0, id, id);
}

/// Monotonicity: in a cycle the bottom cursor never decreases, and it never passes the
/// top cursor that the cycle started with.
pub proof fn lemma_bottom_monotonic(
    store: Map<Seq<u8>, Seq<u8>>,
    method: Method,
    trace: Seq<SlotRecord>,
)
    requires
        valid_trace(
            store,
            method,
            bottom_of(store, method.identifier()),
            top_of(store, method.identifier()),
            trace,
        ),
    ensures
        bottom_of(store, method.identifier()) <= bottom_of(
            store_after(store, method, advanced(trace)),
            method.identifier(),
        ),
        bottom_of(store, method.identifier()) <= top_of(store, method.identifier()) ==> bottom_of(
            store_after(store, method, advanced(trace)),
            method.identifier(),
        ) <= top_of(store, method.identifier()),
        top_of(store_after(store, method, advanced(trace)), method.identifier()) == top_of(
            store,
            method.identifier(),
        ),
{
    lemma_cursors_after(store, method, advanced(trace));
}

/// The store after one cycle for each entry of `moved`, where the entry says how many
/// slots that cycle moved the bottom cursor on.
pub open spec fn after_cycles(store: Map<Seq<u8>, Seq<u8>>, method: Method, moved: Seq<nat>) -> Map<
    Seq<u8>,
    Seq<u8>,
>
    decreases moved.len(),
{
    if moved.len() == 0 {
        store
    } else {
        store_after(after_cycles(store, method, moved.drop_last()), method, moved.last())
    }
}

/// Whether each cycle of `moved` moved the bottom cursor by no more than the slots
/// that lay between the cursors when it began.
pub open spec fn cycles_fit(store: Map<Seq<u8>, Seq<u8>>, method: Method, moved: Seq<nat>) -> bool
    decreases moved.len(),
{
    moved.len() > 0 ==> {
        let earlier = after_cycles(store, method, moved.drop_last());
        &&& cycles_fit(store, method, moved.drop_last())
        &&& moved.last() <= backlog(
            bottom_of(earlier, method.identifier()),
            top_of(earlier, method.identifier()),
        )
    }
}

/// Monotonicity over any number of cycles: the bottom cursor never decreases, the
/// top cursor is not written, and a bottom cursor that started at or below the top
/// cursor stays there.
pub proof fn lemma_bottom_monotonic_over_cycles(
    store: Map<Seq<u8>, Seq<u8>>,
    method: Method,
    moved: Seq<nat>,
)
    requires
        cycles_fit(store, method, moved),
    ensures
        bottom_of(store, method.identifier()) <= bottom_of(
            after_cycles(store, method, moved),
            method.identifier(),
        ),
        top_of(after_cycles(store, method, moved), method.identifier()) == top_of(
            store,
            method.identifier(),
        ),
        bottom_of(store, method.identifier()) <= top_of(store, method.identifier()) ==> bottom_of(
            after_cycles(store, method, moved),
            method.identifier(),
        ) <= top_of(store, method.identifier()),
    decreases moved.len(),
{
    if moved.len() > 0 {
        lemma_bottom_monotonic_over_cycles(store, method, moved.drop_last());
        lemma_cursors_after(
            after_cycles(store, method, moved.drop_last()),
            method,
            moved.last(),
        );
    }
}

/// Idempotence: a cycle that finds the bottom cursor at the top cursor looks at no
/// slot, leaves the handler as it was, and leaves the store as it was where both
/// cursors could be read. (Cursors that could not be read are initialised to zero.)
pub proof fn lemma_idle_cycle<H: Handler>(
    store: Map<Seq<u8>, Seq<u8>>,
    method: Method,
    trace: Seq<SlotRecord>,
    pre: H,
    post: H,
)
    requires
        bottom_of(store, method.identifier()) == top_of(store, method.identifier()),
        valid_trace(
            store,
            method,
            bottom_of(store, method.identifier()),
            top_of(store, method.identifier()),
            trace,
        ),
        handled(pre, store, trace, post),
    ensures
        trace.len() == 0,
        post == pre,
        stored_marker(store, bottom_key(method.identifier())) is Some && stored_marker(
            store,
            top_key(method.identifier()),
        ) is Some ==> store_after(store, method, advanced(trace)) == store,
        bottom_of(store_after(store, method, advanced(trace)), method.identifier()) == bottom_of(
            store,
            method.identifier(),
        ),
{
    lemma_cursors_after(store, method, 0);
    lemma_cycle_writes_cursors_only(store, method, 0, bottom_key(method.identifier()));
    let states = choose|states: Seq<H>| #[trigger]
        chained(states, store, trace) && states.first() == pre && states.last() == post;
    assert(states.len() == 1);
}

/// Ordering: a slot whose handler failed retryably is the last one of its cycle, and
/// the bottom cursor stays right before it, so that the next cycle starts with the
/// same slot and no later slot is handled first.
pub proof fn lemma_retryable_halts(
    store: Map<Seq<u8>, Seq<u8>>,
    method: Method,
    trace: Seq<SlotRecord>,
    i: int,
)
    requires
        valid_trace(
            store,
            method,
            bottom_of(store, method.identifier()),
            top_of(store, method.identifier()),
            trace,
        ),
        0 <= i < trace.len(),
        trace[i].outcome is Retryable,
    ensures
        i == trace.len() - 1,
        bottom_of(store_after(store, method, advanced(trace)), method.identifier()) + 1
            == trace[i].seq,
{
    if i < trace.len() - 1 {
        assert(trace[i].outcome.advances());
    }
    lemma_cursors_after(store, method, advanced(trace));
}

/// Gap tolerance: where the slot in turn is missing, the cycle reports the gap and
/// nothing else, and the bottom cursor stays where it was.
pub proof fn lemma_gap_halts(store: Map<Seq<u8>, Seq<u8>>, method: Method, trace: Seq<SlotRecord>)
    requires
        valid_trace(
            store,
            method,
            bottom_of(store, method.identifier()),
            top_of(store, method.identifier()),
            trace,
        ),
        bottom_of(store, method.identifier()) < top_of(store, method.identifier()),
        !store.contains_key(
            slot_key(method.identifier(), (bottom_of(store, method.identifier()) + 1) as nat),
        ),
    ensures
        trace.len() == 1,
        trace[0].seq == bottom_of(store, method.identifier()) + 1,
        trace[0].outcome is SlotMissing,
        bottom_of(store_after(store, method, advanced(trace)), method.identifier()) == bottom_of(
            store,
            method.identifier(),
        ),
{
    assert(trace.len() > 0);
    let first = trace[0];
    assert(outcome_fits(store, method, first.seq as nat, first.outcome));
    assert(first.outcome is SlotMissing);
    if trace.len() > 1 {
        assert(trace[0].outcome.advances());
    }
    lemma_cursors_after(store, method, 0);
}

/// A slot that does not decode never reaches the handler: the handler is in the same
/// state before and after it.
pub proof fn lemma_undecodable_skips_handler<H: Handler>(
    store: Map<Seq<u8>, Seq<u8>>,
    record: SlotRecord,
    pre: H,
    post: H,
)
    requires
        slot_step(pre, store, record, post),
        store.contains_key(slot_key(record.method.identifier(), record.seq as nat)),
        record.method.parse(store[slot_key(record.method.identifier(), record.seq as nat)])
            is None,
        outcome_fits(store, record.method, record.seq as nat, record.outcome),
    ensures
        record.outcome is DecodeError,
        record.outcome.advances(),
        post == pre,
{
}

/// Runs one cycle: drains the queue of every registered method and returns the
/// report of the slots that were looked at.
pub fn run_cycle<H: Handler>(store: &mut ByteMap, handler: &mut H) -> (report: Vec<SlotRecord>)
    ensures
        valid_trace(
            old(store)@,
            Method::ArticlePost,
            bottom_of(old(store)@, Method::ArticlePost.identifier()),
            top_of(old(store)@, Method::ArticlePost.identifier()),
            report@,
        ),
        final(store)@ == store_after(old(store)@, Method::ArticlePost, advanced(report@)),
        handled(*old(handler), old(store)@, report@, *final(handler)),
{
    drain(store, handler, Method::ArticlePost)
}

} // verus!
