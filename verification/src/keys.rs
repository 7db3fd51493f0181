//! Storage keys of the queue: one per slot and two cursor keys per method.
//!
//! Every key starts with a fixed prefix and the method identifier. A slot key ends
//! with the decimal sequence number, a cursor key with a fixed word. The proofs at
//! the end of this file show that no two of them coincide.

use vstd::prelude::*;
use crate::decimal::{all_digits, decimal, lemma_decimal_injective, lemma_decimal_shape, to_decimal};

verus! {

/// The separator between the parts of a key, `:`.
pub const SEPARATOR: u8 = 58;

/// The bytes every key starts with, `WRITEP`.
pub open spec fn write_key_prefix() -> Seq<u8> {
    seq![87u8, 82u8, 73u8, 84u8, 69u8, 80u8]
}

/// The word that ends a top cursor key, `top`.
pub open spec fn top_tag() -> Seq<u8> {
    seq![116u8, 111u8, 112u8]
}

/// The word that ends a bottom cursor key, `bottom`.
pub open spec fn bottom_tag() -> Seq<u8> {
    seq![98u8, 111u8, 116u8, 116u8, 111u8, 109u8]
}

/// Prefix, separator, method identifier, separator: what all keys of a method share.
pub open spec fn method_stem(method: Seq<u8>) -> Seq<u8> {
    write_key_prefix().push(SEPARATOR) + method.push(SEPARATOR)
}

/// The key of the slot with sequence number `nonce`.
pub open spec fn slot_key(method: Seq<u8>, nonce: nat) -> Seq<u8> {
    method_stem(method) + decimal(nonce)
}

/// The key of the top cursor.
pub open spec fn top_key(method: Seq<u8>) -> Seq<u8> {
    method_stem(method) + top_tag()
}

/// The key of the bottom cursor.
pub open spec fn bottom_key(method: Seq<u8>) -> Seq<u8> {
    method_stem(method) + bottom_tag()
}

/// Appends `src` to `out`.
pub fn append(out: &mut Vec<u8>, src: &[u8])
    ensures
        final(out)@ == old(out)@ + src@,
{
    let mut i: usize = 0;
    while i < src.len()
        invariant
            i <= src.len(),
            out@ == old(out)@ + src@.subrange(0, i as int),
        decreases src.len() - i,
    {
        out.push(src[i]);
        i = i + 1;
        assert(out@ =~= old(out)@ + src@.subrange(0, i as int));
    }
    assert(src@.subrange(0, src.len() as int) =~= src@);
}

fn stem(method_name: &[u8]) -> (out: Vec<u8>)
    ensures
        out@ == method_stem(method_name@),
{
    let mut out: Vec<u8> = Vec::new();
    out.push(87u8);
    out.push(82u8);
    out.push(73u8);
    out.push(84u8);
    out.push(69u8);
    out.push(80u8);
    out.push(SEPARATOR);
    assert(out@ =~= write_key_prefix().push(SEPARATOR));
    append(&mut out, method_name);
    out.push(SEPARATOR);
    assert(out@ =~= method_stem(method_name@));
    out
}

/// Derives the key under which the slot `nonce` of `method_name` is stored.
pub fn derive_key(method_name: &[u8], nonce: u64) -> (key: Vec<u8>)
    ensures
        key@ == slot_key(method_name@, nonce as nat),
{
    let mut key = stem(method_name);
    let text = to_decimal(nonce);
    append(&mut key, text.as_slice());
    key
}

/// Derives the key of the top cursor of `method_name`.
pub fn derive_pctop(method_name: &[u8]) -> (key: Vec<u8>)
    ensures
        key@ == top_key(method_name@),
{
    let mut key = stem(method_name);
    key.push(116u8);
    key.push(111u8);
    key.push(112u8);
    assert(key@ =~= top_key(method_name@));
    key
}

/// Derives the key of the bottom cursor of `method_name`.
pub fn derive_pcbottom(method_name: &[u8]) -> (key: Vec<u8>)
    ensures
        key@ == bottom_key(method_name@),
{
    let mut key = stem(method_name);
    key.push(98u8);
    key.push(111u8);
    key.push(116u8);
    key.push(116u8);
    key.push(111u8);
    key.push(109u8);
    assert(key@ =~= bottom_key(method_name@));
    key
}

/// Two sequences that agree after the same prefix was put before them are equal.
proof fn lemma_cancel_front(p: Seq<u8>, a: Seq<u8>, b: Seq<u8>)
    requires
        p + a == p + b,
    ensures
        a == b,
{
    assert((p + a).subrange(p.len() as int, (p + a).len() as int) =~= a);
    assert((p + b).subrange(p.len() as int, (p + b).len() as int) =~= b);
}

/// Two sequences that agree after the same suffix was put behind them are equal.
proof fn lemma_cancel_back(a: Seq<u8>, b: Seq<u8>, s: Seq<u8>)
    requires
        a + s == b + s,
    ensures
        a == b,
{
    assert((a + s).len() == a.len() + s.len());
    assert((b + s).len() == b.len() + s.len());
    assert((a + s).subrange(0, a.len() as int) =~= a);
    assert((b + s).subrange(0, b.len() as int) =~= b);
}

/// The last byte of a key, given the non-empty part that follows the stem.
proof fn lemma_last_byte(method: Seq<u8>, tail: Seq<u8>)
    requires
        tail.len() > 0,
    ensures
        (method_stem(method) + tail).last() == tail.last(),
{
}

/// A method identifier followed by a separator and digits can be split in one way only.
proof fn lemma_split_unique(m1: Seq<u8>, d1: Seq<u8>, m2: Seq<u8>, d2: Seq<u8>)
    requires
        m1.push(SEPARATOR) + d1 == m2.push(SEPARATOR) + d2,
        all_digits(d1),
        all_digits(d2),
    ensures
        m1 == m2,
        d1 == d2,
{
    let a = m1.push(SEPARATOR) + d1;
    let b = m2.push(SEPARATOR) + d2;
    assert(a.len() == m1.len() + 1 + d1.len());
    assert(b.len() == m2.len() + 1 + d2.len());
    if d1.len() < d2.len() {
        let at = m1.len() as int;
        assert(a[at] == SEPARATOR);
        assert(b[at] == d2[at - m2.len() - 1]);
    } else if d2.len() < d1.len() {
        let at = m2.len() as int;
        assert(b[at] == SEPARATOR);
        assert(a[at] == d1[at - m1.len() - 1]);
    } else {
        assert(m1 =~= a.subrange(0, m1.len() as int));
        assert(m2 =~= b.subrange(0, m2.len() as int));
        assert(d1 =~= a.subrange(m1.len() as int + 1, a.len() as int));
        assert(d2 =~= b.subrange(m2.len() as int + 1, b.len() as int));
    }
}

/// Slot keys are collision-free: equal keys come from the same method and the same
/// sequence number.
pub proof fn lemma_slot_key_injective(m1: Seq<u8>, n1: nat, m2: Seq<u8>, n2: nat)
    requires
        slot_key(m1, n1) == slot_key(m2, n2),
    ensures
        m1 == m2,
        n1 == n2,
{
    let p = write_key_prefix().push(SEPARATOR);
    assert(slot_key(m1, n1) =~= p + (m1.push(SEPARATOR) + decimal(n1)));
    assert(slot_key(m2, n2) =~= p + (m2.push(SEPARATOR) + decimal(n2)));
    lemma_cancel_front(p, m1.push(SEPARATOR) + decimal(n1), m2.push(SEPARATOR) + decimal(n2));
    lemma_decimal_shape(n1);
    lemma_decimal_shape(n2);
    lemma_split_unique(m1, decimal(n1), m2, decimal(n2));
    lemma_decimal_injective(n1, n2);
}

/// Cursor keys are collision-free: equal top keys, or equal bottom keys, come from
/// the same method.
pub proof fn lemma_cursor_key_injective(m1: Seq<u8>, m2: Seq<u8>)
    ensures
        top_key(m1) == top_key(m2) ==> m1 == m2,
        bottom_key(m1) == bottom_key(m2) ==> m1 == m2,
{
    let p = write_key_prefix().push(SEPARATOR);
    if top_key(m1) == top_key(m2) {
        assert(top_key(m1) =~= p + (m1 + seq![SEPARATOR].add(top_tag())));
        assert(top_key(m2) =~= p + (m2 + seq![SEPARATOR].add(top_tag())));
        lemma_cancel_front(p, m1 + seq![SEPARATOR].add(top_tag()), m2 + seq![SEPARATOR].add(
            top_tag(),
        ));
        lemma_cancel_back(m1, m2, seq![SEPARATOR].add(top_tag()));
    }
    if bottom_key(m1) == bottom_key(m2) {
        assert(bottom_key(m1) =~= p + (m1 + seq![SEPARATOR].add(bottom_tag())));
        assert(bottom_key(m2) =~= p + (m2 + seq![SEPARATOR].add(bottom_tag())));
        lemma_cancel_front(p, m1 + seq![SEPARATOR].add(bottom_tag()), m2 + seq![SEPARATOR].add(
            bottom_tag(),
        ));
        lemma_cancel_back(m1, m2, seq![SEPARATOR].add(bottom_tag()));
    }
}

/// The three kinds of key never meet: whatever the methods and the sequence number,
/// a slot key, a top key and a bottom key are pairwise distinct.
pub proof fn lemma_key_roles_disjoint(m1: Seq<u8>, n: nat, m2: Seq<u8>, m3: Seq<u8>)
    ensures
        slot_key(m1, n) != top_key(m2),
        slot_key(m1, n) != bottom_key(m3),
        top_key(m2) != bottom_key(m3),
{
    lemma_decimal_shape(n);
    lemma_last_byte(m1, decimal(n));
    lemma_last_byte(m2, top_tag());
    lemma_last_byte(m3, bottom_tag());
    assert(48 <= decimal(n).last() <= 57);
    assert(top_tag().last() == 112u8);
    assert(bottom_tag().last() == 109u8);
}

} // verus!
