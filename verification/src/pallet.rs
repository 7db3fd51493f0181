//! The pallet: the calls that producers submit, the state they write, and the cycle
//! that drains the queue into the article index.

use vstd::prelude::*;
use crate::cursors::{bottom_of, counter_of, get_counter, peek_marker, top_of};
use crate::dispatch::{
    advanced,
    chained,
    run_cycle,
    slot_item,
    slot_step,
    store_after,
    valid_trace,
    SlotRecord,
};
use crate::keys::{derive_key, derive_pcbottom, derive_pctop, slot_key};
use crate::ledger::{
    empty_ledger,
    enqueue,
    lemma_cycle_keeps_consistent,
    lemma_empty_consistent,
    lemma_post_keeps_consistent,
    post,
    queue_consistent,
    Ledger,
};
use crate::registry::{ArticleIndex, Method, WorkItemView};
use crate::store::ByteMap;

verus! {

/// What a runtime has to fix to use the pallet.
pub trait Config {
    /// The identity of a caller.
    type AccountId;
}

/// Who submitted a call.
pub enum Origin<AccountId> {
    /// The system itself.
    Root,
    /// An authenticated account.
    Signed(AccountId),
    /// Nobody: the call carries no identity.
    Unsigned,
}

/// What the pallet announces.
pub enum Event<T: Config> {
    /// The index entry of an article was written: who wrote it, the article
    /// identifier and the content hash.
    ArticleIndexUpdated(T::AccountId, Vec<u8>, Vec<u8>),
}

/// Why a call was rejected.
#[derive(Clone, Copy, Debug, PartialEq, Eq, Structural)]
pub enum Error {
    /// The caller is not an authenticated account.
    AuthenticationError,
    /// The call counter of the method cannot grow any more.
    CounterIncrementError,
}

/// Accepts a call from an authenticated account and returns that account.
pub fn ensure_signed<AccountId>(origin: Origin<AccountId>) -> (who: Result<AccountId, Error>)
    ensures
        match origin {
            Origin::Signed(account) => who == Ok::<AccountId, Error>(account),
            _ => who == Err::<AccountId, Error>(Error::AuthenticationError),
        },
{
    match origin {
        Origin::Signed(account) => Ok(account),
        _ => Err(Error::AuthenticationError),
    }
}

/// The index after the handler of the pallet went over the slots of `trace`: each
/// applied article is entered under its identifier with its hash, in order.
pub open spec fn indexed(
    index: Map<Seq<u8>, Seq<u8>>,
    store: Map<Seq<u8>, Seq<u8>>,
    trace: Seq<SlotRecord>,
) -> Map<Seq<u8>, Seq<u8>>
    decreases trace.len(),
{
    if trace.len() == 0 {
        index
    } else {
        let before = indexed(index, store, trace.drop_last());
        let last = trace.last();
        if last.outcome is Applied {
            match slot_item(store, last.method, last.seq as nat) {
                Some(WorkItemView::ArticlePost(article)) => before.insert(article.id, article.hash),
                None => before,
            }
        } else {
            before
        }
    }
}

/// The article index never fails: over any report its entries are those of
/// [`indexed`], and no slot ends as a handler failure.
pub proof fn lemma_index_after(
    states: Seq<ArticleIndex>,
    store: Map<Seq<u8>, Seq<u8>>,
    trace: Seq<SlotRecord>,
)
    requires
        chained(states, store, trace),
    ensures
        states.last()@ == indexed(states.first()@, store, trace),
        forall|i: int|
            0 <= i < trace.len() ==> !((#[trigger] trace[i]).outcome is Retryable)
                && !(trace[i].outcome is Permanent),
    decreases trace.len(),
{
    if trace.len() > 0 {
        let shorter = trace.drop_last();
        let earlier = states.drop_last();
        assert forall|i: int| 0 <= i < shorter.len() implies slot_step(
            earlier[i],
            store,
            #[trigger] shorter[i],
            earlier[i + 1],
        ) by {
            assert(slot_step(states[i], store, trace[i], states[i + 1]));
        }
        lemma_index_after(earlier, store, shorter);
        let at = trace.len() - 1;
        assert(slot_step(states[at], store, trace[at], states[at + 1]));
        assert(earlier.last() == states[at]);
        assert(earlier.first() == states.first());
    }
}

/// The state of the pallet.
pub struct Pallet<T: Config> {
    counters: ByteMap,
    index: ArticleIndex,
    offchain: ByteMap,
    events: Vec<Event<T>>,
}

impl<T: Config> Pallet<T> {
    /// The call counters and the slot store.
    pub closed spec fn ledger(&self) -> Ledger {
        Ledger { counters: self.counters@, offchain: self.offchain@ }
    }

    /// The article index: from article identifier to content hash.
    pub closed spec fn index(&self) -> Map<Seq<u8>, Seq<u8>> {
        self.index@
    }

    /// The events deposited so far, oldest first.
    pub closed spec fn deposited(&self) -> Seq<Event<T>> {
        self.events@
    }

    /// Whether the queue of every method is consistent.
    pub open spec fn consistent(&self) -> bool {
        forall|method: Seq<u8>| #[trigger] queue_consistent(self.ledger(), method)
    }

    #[verifier::type_invariant]
    spec fn well_formed(&self) -> bool {
        self.consistent()
    }

    /// A pallet on which nothing was called yet.
    pub fn new() -> (pallet: Pallet<T>)
        ensures
            pallet.ledger() == empty_ledger(),
            pallet.index() == Map::<Seq<u8>, Seq<u8>>::empty(),
            pallet.deposited() == Seq::<Event<T>>::empty(),
            pallet.consistent(),
    {
        let counters = ByteMap::new();
        let offchain = ByteMap::new();
        proof {
            assert forall|method: Seq<u8>| #[trigger]
                queue_consistent(
                    (Ledger { counters: counters@, offchain: offchain@ }),
                    method,
                ) by {
                lemma_empty_consistent(method);
            }
        }
        Pallet { counters, index: ArticleIndex::new(), offchain, events: Vec::new() }
    }

    /// Queues a posted article for the offchain worker.
    ///
    /// A call from an authenticated account is counted, the payload is stored in the
    /// slot of the new count, and the top cursor is set to it. A call from anybody
    /// else, or one that the counter has no number left for, changes nothing.
    pub fn article_post(&mut self, origin: Origin<T::AccountId>, new_article_objbin: Vec<u8>) -> (result:
        Result<(), Error>)
        ensures
            final(self).consistent(),
            final(self).index() == old(self).index(),
            final(self).deposited() == old(self).deposited(),
            !(origin is Signed) ==> result == Err::<(), Error>(Error::AuthenticationError)
                && final(self).ledger() == old(self).ledger(),
            origin is Signed && counter_of(
                old(self).ledger().counters,
                Method::ArticlePost.identifier(),
            ) == u64::MAX ==> result == Err::<(), Error>(Error::CounterIncrementError)
                && final(self).ledger() == old(self).ledger(),
            origin is Signed && counter_of(
                old(self).ledger().counters,
                Method::ArticlePost.identifier(),
            ) < u64::MAX ==> result is Ok && final(self).ledger() == post(
                old(self).ledger(),
                Method::ArticlePost.identifier(),
                new_article_objbin@,
            ),
    {
        proof {
            use_type_invariant(&*self);
        }
        match ensure_signed(origin) {
            Err(rejected) => Err(rejected),
            Ok(_) => {
                let mut state: Pallet<T> = Pallet::new();
                core::mem::swap(self, &mut state);
                let mut counters = state.counters;
                let mut offchain = state.offchain;
                let ghost before = Ledger { counters: counters@, offchain: offchain@ };
                let name = Method::ArticlePost.name();
                let assigned = enqueue(
                    &mut counters,
                    &mut offchain,
                    name.as_slice(),
                    new_article_objbin.as_slice(),
                );
                proof {
                    assert forall|method: Seq<u8>| #[trigger]
                        queue_consistent(
                            (Ledger { counters: counters@, offchain: offchain@ }),
                            method,
                        ) by {
                        assert(queue_consistent(old(self).ledger(), method));
                        assert(before == old(self).ledger());
                        if assigned is Some {
                            lemma_post_keeps_consistent(
                                before,
                                name@,
                                new_article_objbin@,
                                method,
                            );
                        }
                    }
                }
                *self = Pallet { counters, index: state.index, offchain, events: state.events };
                match assigned {
                    Some(_) => Ok(()),
                    None => Err(Error::CounterIncrementError),
                }
            },
        }
    }

    /// Writes the index entry of an article and announces it.
    ///
    /// A call from an authenticated account sets the hash of `article_id` to
    /// `article_hash`, replacing an earlier one, and deposits the event. A call
    /// from anybody else changes nothing. The queue is not touched either way.
    pub fn article_update_index(
        &mut self,
        origin: Origin<T::AccountId>,
        article_id: Vec<u8>,
        article_hash: Vec<u8>,
    ) -> (result: Result<(), Error>)
        ensures
            final(self).consistent(),
            final(self).ledger() == old(self).ledger(),
            match origin {
                Origin::Signed(sender) => {
                    &&& result is Ok
                    &&& final(self).index() == old(self).index().insert(article_id@, article_hash@)
                    &&& final(self).deposited() == old(self).deposited().push(
                        Event::ArticleIndexUpdated(sender, article_id, article_hash),
                    )
                },
                _ => {
                    &&& result == Err::<(), Error>(Error::AuthenticationError)
                    &&& final(self).index() == old(self).index()
                    &&& final(self).deposited() == old(self).deposited()
                },
            },
    {
        proof {
            use_type_invariant(&*self);
        }
        match ensure_signed(origin) {
            Err(rejected) => Err(rejected),
            Ok(sender) => {
                let mut state: Pallet<T> = Pallet::new();
                core::mem::swap(self, &mut state);
                let mut index = state.index;
                let mut events = state.events;
                index.update_index(article_id.as_slice(), article_hash.as_slice());
                events.push(Event::ArticleIndexUpdated(sender, article_id, article_hash));
                proof {
                    assert forall|method: Seq<u8>| #[trigger]
                        queue_consistent(
                            (Ledger { counters: state.counters@, offchain: state.offchain@ }),
                            method,
                        ) by {
                        assert(queue_consistent(old(self).ledger(), method));
                    }
                }
                *self = Pallet { counters: state.counters, index, offchain: state.offchain, events };
                Ok(())
            },
        }
    }

    /// Runs one cycle of the offchain worker: drains the queue into the article
    /// index and returns the report of the slots that were looked at.
    pub fn run_cycle(&mut self) -> (report: Vec<SlotRecord>)
        ensures
            final(self).consistent(),
            valid_trace(
                old(self).ledger().offchain,
                Method::ArticlePost,
                bottom_of(old(self).ledger().offchain, Method::ArticlePost.identifier()),
                top_of(old(self).ledger().offchain, Method::ArticlePost.identifier()),
                report@,
            ),
            final(self).ledger() == (Ledger {
                counters: old(self).ledger().counters,
                offchain: store_after(
                    old(self).ledger().offchain,
                    Method::ArticlePost,
                    advanced(report@),
                ),
            }),
            final(self).index() == indexed(
                old(self).index(),
                old(self).ledger().offchain,
                report@,
            ),
            forall|i: int|
                0 <= i < report@.len() ==> !((#[trigger] report@[i]).outcome is Retryable)
                    && !(report@[i].outcome is Permanent),
            final(self).deposited() == old(self).deposited(),
    {
        proof {
            use_type_invariant(&*self);
        }
        let mut state: Pallet<T> = Pallet::new();
        core::mem::swap(self, &mut state);
        let mut index = state.index;
        let mut offchain = state.offchain;
        let ghost before = Ledger { counters: state.counters@, offchain: offchain@ };
        let ghost first = index;
        let report = run_cycle(&mut offchain, &mut index);
        proof {
            let states = choose|states: Seq<ArticleIndex>| #[trigger]
                chained(states, before.offchain, report@) && states.first() == first
                    && states.last() == index;
            lemma_index_after(states, before.offchain, report@);
            assert forall|method: Seq<u8>| #[trigger]
                queue_consistent(
                    (Ledger { counters: state.counters@, offchain: offchain@ }),
                    method,
                ) by {
                assert(queue_consistent(old(self).ledger(), method));
                assert(before == old(self).ledger());
                lemma_cycle_keeps_consistent(
                    before,
                    Method::ArticlePost,
                    advanced(report@),
                    method,
                );
            }
        }
        *self = Pallet { counters: state.counters, index, offchain, events: state.events };
        report
    }

    /// The number of accepted calls of `method`.
    pub fn get_counter(&self, method: &[u8]) -> (count: u64)
        ensures
            count == counter_of(self.ledger().counters, method@),
    {
        get_counter(&self.counters, method)
    }

    /// The top cursor of `method`. It equals the number of accepted calls.
    pub fn get_top(&self, method: &[u8]) -> (top: u64)
        ensures
            top == top_of(self.ledger().offchain, method@),
            top == counter_of(self.ledger().counters, method@),
    {
        proof {
            use_type_invariant(self);
            assert(queue_consistent(self.ledger(), method@));
        }
        let key = derive_pctop(method);
        match peek_marker(&self.offchain, key.as_slice()) {
            Some(top) => top,
            None => 0,
        }
    }

    /// The bottom cursor of `method`. It never exceeds the top cursor.
    pub fn get_bottom(&self, method: &[u8]) -> (bottom: u64)
        ensures
            bottom == bottom_of(self.ledger().offchain, method@),
            bottom <= top_of(self.ledger().offchain, method@),
    {
        proof {
            use_type_invariant(self);
            assert(queue_consistent(self.ledger(), method@));
        }
        let key = derive_pcbottom(method);
        match peek_marker(&self.offchain, key.as_slice()) {
            Some(bottom) => bottom,
            None => 0,
        }
    }

    /// The payload in the slot `seq` of `method`. A slot exists exactly where `seq`
    /// is at least one and at most the number of accepted calls.
    pub fn slot(&self, method: &[u8], seq: u64) -> (payload: Option<&Vec<u8>>)
        ensures
            payload is Some <==> 1 <= seq <= counter_of(self.ledger().counters, method@),
            payload matches Some(found) ==> found@ == self.ledger().offchain[slot_key(
                method@,
                seq as nat,
            )],
    {
        proof {
            use_type_invariant(self);
            assert(queue_consistent(self.ledger(), method@));
            assert(self.ledger().offchain.contains_key(slot_key(method@, seq as nat)) <==> 1
                <= seq as nat <= counter_of(self.ledger().counters, method@));
        }
        let key = derive_key(method, seq);
        self.offchain.get(key.as_slice())
    }

    /// The content hash that the index holds for `article_id`.
    pub fn article_hash(&self, article_id: &[u8]) -> (hash: Option<&Vec<u8>>)
        ensures
            hash is Some <==> self.index().contains_key(article_id@),
            hash matches Some(found) ==> found@ == self.index()[article_id@],
    {
        self.index.lookup(article_id)
    }

    /// The events deposited so far, oldest first.
    pub fn events(&self) -> (events: &Vec<Event<T>>)
        ensures
            events@ == self.deposited(),
    {
        &self.events
    }
}

} // verus!
