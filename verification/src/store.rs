//! A durable key/value tier held in memory: byte-string keys, byte-string values.

use vstd::prelude::*;

verus! {

/// Compares two byte strings.
pub fn bytes_eq(a: &[u8], b: &[u8]) -> (same: bool)
    ensures
        same == (a@ == b@),
{
    if a.len() != b.len() {
        return false;
    }
    let mut i: usize = 0;
    while i < a.len()
        invariant
            i <= a.len(),
            a.len() == b.len(),
            a@.subrange(0, i as int) == b@.subrange(0, i as int),
        decreases a.len() - i,
    {
        if a[i] != b[i] {
            assert(a@[i as int] != b@[i as int]);
            return false;
        }
        i = i + 1;
        assert(a@.subrange(0, i as int) =~= a@.subrange(0, i - 1).push(a@[i - 1]));
        assert(b@.subrange(0, i as int) =~= b@.subrange(0, i - 1).push(b@[i - 1]));
    }
    assert(a@ =~= a@.subrange(0, a.len() as int));
    assert(b@ =~= b@.subrange(0, b.len() as int));
    true
}

/// Copies a byte string.
pub fn copy_bytes(src: &[u8]) -> (out: Vec<u8>)
    ensures
        out@ == src@,
{
    let mut out: Vec<u8> = Vec::new();
    let mut i: usize = 0;
    while i < src.len()
        invariant
            i <= src.len(),
            out@ == src@.subrange(0, i as int),
        decreases src.len() - i,
    {
        out.push(src[i]);
        i = i + 1;
        assert(out@ =~= src@.subrange(0, i as int));
    }
    assert(src@.subrange(0, src.len() as int) =~= src@);
    out
}

/// One stored pair.
pub struct Entry {
    key: Vec<u8>,
    value: Vec<u8>,
}

/// A key/value store. Its view is the map from each stored key to its latest value.
pub struct ByteMap {
    entries: Vec<Entry>,
}

/// Whether some entry of `entries` has the key `key`.
spec fn holds(entries: Seq<Entry>, key: Seq<u8>) -> bool {
    exists|i: int| 0 <= i < entries.len() && (#[trigger] entries[i]).key@ == key
}

/// The position of an entry with the key `key`.
spec fn position(entries: Seq<Entry>, key: Seq<u8>) -> int {
    choose|i: int| 0 <= i < entries.len() && (#[trigger] entries[i]).key@ == key
}

/// Whether no key occurs in two entries.
spec fn distinct_keys(entries: Seq<Entry>) -> bool {
    forall|i: int, j: int|
        0 <= i < entries.len() && 0 <= j < entries.len() && (#[trigger] entries[i]).key@ == (
        #[trigger] entries[j]).key@ ==> i == j
}

/// The index of the entry for `key`, if there is one.
fn find(entries: &Vec<Entry>, key: &[u8]) -> (at: Option<usize>)
    ensures
        match at {
            Some(i) => i < entries@.len() && entries@[i as int].key@ == key@,
            None => !holds(entries@, key@),
        },
{
    let mut i: usize = 0;
    while i < entries.len()
        invariant
            i <= entries.len(),
            forall|j: int| 0 <= j < i ==> (#[trigger] entries@[j]).key@ != key@,
        decreases entries.len() - i,
    {
        if bytes_eq(entries[i].key.as_slice(), key) {
            return Some(i);
        }
        i = i + 1;
    }
    None
}

impl View for ByteMap {
    type V = Map<Seq<u8>, Seq<u8>>;

    closed spec fn view(&self) -> Map<Seq<u8>, Seq<u8>> {
        Map::new(
            |key: Seq<u8>| holds(self.entries@, key),
            |key: Seq<u8>| self.entries@[position(self.entries@, key)].value@,
        )
    }
}

impl ByteMap {
    #[verifier::type_invariant]
    spec fn well_formed(&self) -> bool {
        distinct_keys(self.entries@)
    }

    /// A store without entries.
    pub fn new() -> (store: ByteMap)
        ensures
            store@ == Map::<Seq<u8>, Seq<u8>>::empty(),
    {
        let store = ByteMap { entries: Vec::new() };
        assert(store@ =~= Map::<Seq<u8>, Seq<u8>>::empty());
        store
    }

    /// Whether a value is stored under `key`.
    pub fn contains_key(&self, key: &[u8]) -> (present: bool)
        ensures
            present == self@.contains_key(key@),
    {
        find(&self.entries, key).is_some()
    }

    /// The value stored under `key`, or `None` where the key is absent.
    pub fn get(&self, key: &[u8]) -> (value: Option<&Vec<u8>>)
        ensures
            value is Some <==> self@.contains_key(key@),
            value matches Some(v) ==> v@ == self@[key@],
    {
        proof {
            use_type_invariant(self);
        }
        match find(&self.entries, key) {
            Some(i) => {
                assert(holds(self.entries@, key@));
                Some(&self.entries[i].value)
            },
            None => None,
        }
    }

    /// Stores `value` under `key`, replacing what was there.
    pub fn set(&mut self, key: &[u8], value: &[u8])
        ensures
            final(self)@ == old(self)@.insert(key@, value@),
    {
        proof {
            use_type_invariant(&*self);
        }
        let mut taken = ByteMap { entries: Vec::new() };
        core::mem::swap(self, &mut taken);
        let mut entries = taken.entries;
        let ghost before = entries@;
        let entry = Entry { key: copy_bytes(key), value: copy_bytes(value) };
        match find(&entries, key) {
            Some(i) => {
                entries.set(i, entry);
                proof {
                    let after = entries@;
                    assert forall|k: Seq<u8>| holds(after, k) == holds(before, k) by {
                        if holds(before, k) {
                            let j = position(before, k);
                            assert(after[j].key@ == k);
                        }
                        if holds(after, k) {
                            let j = position(after, k);
                            assert(before[j].key@ == k);
                        }
                    }
                    assert(distinct_keys(after)) by {
                        assert forall|a: int, b: int|
                            0 <= a < after.len() && 0 <= b < after.len() && (
                            #[trigger] after[a]).key@ == (#[trigger] after[b]).key@ implies a
                            == b by {
                            assert(before[a].key@ == before[b].key@);
                        }
                    }
                    assert forall|k: Seq<u8>| holds(after, k) implies after[position(
                        after,
                        k,
                    )].value@ == (if k == key@ {
                        value@
                    } else {
                        before[position(before, k)].value@
                    }) by {
                        let j = position(after, k);
                        assert(before[j].key@ == k);
                        assert(holds(before, k));
                        let j0 = position(before, k);
                        assert(before[j0].key@ == before[j].key@);
                        assert(before[i as int].key@ == key@);
                    }
                    assert(holds(after, key@)) by {
                        assert(after[i as int].key@ == key@);
                    }
                }
            },
            None => {
                entries.push(entry);
                proof {
                    let after = entries@;
                    let last = before.len() as int;
                    assert(after[last].key@ == key@);
                    assert forall|k: Seq<u8>| holds(after, k) == (holds(before, k) || k
                        == key@) by {
                        if holds(before, k) {
                            let j = position(before, k);
                            assert(after[j].key@ == k);
                        }
                        if holds(after, k) {
                            let j = position(after, k);
                            if j < last {
                                assert(before[j].key@ == k);
                            }
                        }
                    }
                    assert(distinct_keys(after)) by {
                        assert forall|a: int, b: int|
                            0 <= a < after.len() && 0 <= b < after.len() && (
                            #[trigger] after[a]).key@ == (#[trigger] after[b]).key@ implies a
                            == b by {
                            if a < last && b < last {
                                assert(before[a].key@ == before[b].key@);
                            } else if a < last {
                                assert(before[a].key@ == key@);
                            } else if b < last {
                                assert(before[b].key@ == key@);
                            }
                        }
                    }
                    assert forall|k: Seq<u8>| holds(after, k) implies after[position(
                        after,
                        k,
                    )].value@ == (if k == key@ {
                        value@
                    } else {
                        before[position(before, k)].value@
                    }) by {
                        let j = position(after, k);
                        assert(after[j].key@ == k);
                        if k == key@ {
                            assert(after[j].key@ == after[last].key@);
                        } else {
                            assert(before[j].key@ == k);
                            let j0 = position(before, k);
                            assert(before[j0].key@ == before[j].key@);
                        }
                    }
                }
            },
        }
        *self = ByteMap { entries };
        assert(self@ =~= old(self)@.insert(key@, value@));
    }
}

} // verus!
