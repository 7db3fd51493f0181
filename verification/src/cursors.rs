//! Scalar markers held in a store: the two progress cursors of a method and its call
//! counter. A marker that is absent or unreadable counts as zero.

use vstd::prelude::*;
use crate::keys::{bottom_key, derive_pcbottom, derive_pctop, top_key};
use crate::scale::{decode_marker, encode_marker, lemma_marker_round_trip, marker_bytes, marker_value};
use crate::store::ByteMap;

verus! {

/// The number stored under `key`, where there is a readable one.
pub open spec fn stored_marker(store: Map<Seq<u8>, Seq<u8>>, key: Seq<u8>) -> Option<u64> {
    if store.contains_key(key) {
        marker_value(store[key])
    } else {
        None
    }
}

/// The number stored under `key`, or zero.
pub open spec fn marker_or_zero(store: Map<Seq<u8>, Seq<u8>>, key: Seq<u8>) -> u64 {
    match stored_marker(store, key) {
        Some(value) => value,
        None => 0,
    }
}

/// The store after a first read of `key`: a marker that could not be read is now zero.
pub open spec fn initialised(store: Map<Seq<u8>, Seq<u8>>, key: Seq<u8>) -> Map<
    Seq<u8>,
    Seq<u8>,
> {
    if stored_marker(store, key) is Some {
        store
    } else {
        store.insert(key, marker_bytes(0))
    }
}

/// The bottom cursor of `method`: the number of its slots that are done with.
pub open spec fn bottom_of(store: Map<Seq<u8>, Seq<u8>>, method: Seq<u8>) -> u64 {
    marker_or_zero(store, bottom_key(method))
}

/// The top cursor of `method`: the sequence number of its latest slot.
pub open spec fn top_of(store: Map<Seq<u8>, Seq<u8>>, method: Seq<u8>) -> u64 {
    marker_or_zero(store, top_key(method))
}

/// Reads the marker under `key` without touching the store.
pub fn peek_marker(store: &ByteMap, key: &[u8]) -> (value: Option<u64>)
    ensures
        value == stored_marker(store@, key@),
{
    match store.get(key) {
        Some(stored) => decode_marker(stored.as_slice()),
        None => None,
    }
}

/// Reads the marker under `key`. Where none can be read, zero is stored and returned.
pub fn read_marker(store: &mut ByteMap, key: &[u8]) -> (value: u64)
    ensures
        value == marker_or_zero(old(store)@, key@),
        final(store)@ == initialised(old(store)@, key@),
{
    match peek_marker(store, key) {
        Some(value) => value,
        None => {
            write_marker(store, key, 0);
            0
        },
    }
}

/// Stores the marker `n` under `key`.
pub fn write_marker(store: &mut ByteMap, key: &[u8], n: u64)
    ensures
        final(store)@ == old(store)@.insert(key@, marker_bytes(n)),
        stored_marker(final(store)@, key@) == Some(n),
{
    let bytes = encode_marker(n);
    store.set(key, bytes.as_slice());
    proof {
        lemma_marker_round_trip(n);
    }
}

/// Reads the bottom cursor of `method`, initialising it to zero on a first read.
pub fn get_bottom(store: &mut ByteMap, method: &[u8]) -> (bottom: u64)
    ensures
        bottom == bottom_of(old(store)@, method@),
        final(store)@ == initialised(old(store)@, bottom_key(method@)),
{
    let key = derive_pcbottom(method);
    read_marker(store, key.as_slice())
}

/// Sets the bottom cursor of `method`.
pub fn set_bottom(store: &mut ByteMap, method: &[u8], n: u64)
    ensures
        final(store)@ == old(store)@.insert(bottom_key(method@), marker_bytes(n)),
        bottom_of(final(store)@, method@) == n,
{
    let key = derive_pcbottom(method);
    write_marker(store, key.as_slice(), n);
}

/// Reads the top cursor of `method`, initialising it to zero on a first read.
pub fn get_top(store: &mut ByteMap, method: &[u8]) -> (top: u64)
    ensures
        top == top_of(old(store)@, method@),
        final(store)@ == initialised(old(store)@, top_key(method@)),
{
    let key = derive_pctop(method);
    read_marker(store, key.as_slice())
}

/// Sets the top cursor of `method`.
pub fn set_top(store: &mut ByteMap, method: &[u8], n: u64)
    ensures
        final(store)@ == old(store)@.insert(top_key(method@), marker_bytes(n)),
        top_of(final(store)@, method@) == n,
{
    let key = derive_pctop(method);
    write_marker(store, key.as_slice(), n);
}

/// The call counter of `method` in a ledger keyed by method identifier.
pub open spec fn counter_of(ledger: Map<Seq<u8>, Seq<u8>>, method: Seq<u8>) -> u64 {
    marker_or_zero(ledger, method)
}

/// Reads the call counter of `method`: the number of accepted calls, zero if none.
pub fn get_counter(ledger: &ByteMap, method: &[u8]) -> (count: u64)
    ensures
        count == counter_of(ledger@, method@),
{
    match peek_marker(ledger, method) {
        Some(value) => value,
        None => 0,
    }
}

/// Counts one more call of `method` and returns the new count, the sequence number of
/// that call. At `u64::MAX` the counter cannot grow: nothing changes and `None` is
/// returned.
pub fn increment(ledger: &mut ByteMap, method: &[u8]) -> (assigned: Option<u64>)
    ensures
        counter_of(old(ledger)@, method@) < u64::MAX ==> {
            &&& assigned == Some((counter_of(old(ledger)@, method@) + 1) as u64)
            &&& final(ledger)@ == old(ledger)@.insert(
                method@,
                marker_bytes((counter_of(old(ledger)@, method@) + 1) as u64),
            )
            &&& counter_of(final(ledger)@, method@) == counter_of(old(ledger)@, method@) + 1
        },
        counter_of(old(ledger)@, method@) == u64::MAX ==> {
            &&& assigned is None
            &&& final(ledger)@ == old(ledger)@
        },
{
    let count = get_counter(ledger, method);
    if count == u64::MAX {
        return None;
    }
    let next: u64 = count + 1;
    write_marker(ledger, method, next);
    Some(next)
}

} // verus!
