//! Decimal text of unsigned integers, as it appears at the end of a slot key.

use vstd::prelude::*;

verus! {

/// The ASCII code of the decimal digit `d`.
pub open spec fn digit(d: nat) -> u8 {
    (48 + d) as u8
}

/// The digits of `n`, most significant first; empty for zero.
pub open spec fn digits_of(n: nat) -> Seq<u8>
    decreases n,
{
    if n == 0 {
        Seq::empty()
    } else {
        digits_of(n / 10).push(digit(n % 10))
    }
}

/// The decimal text of `n`: `"0"` for zero, otherwise its digits without leading zeros.
pub open spec fn decimal(n: nat) -> Seq<u8> {
    if n == 0 {
        seq![48u8]
    } else {
        digits_of(n)
    }
}

/// Whether every byte of `s` is an ASCII decimal digit.
pub open spec fn all_digits(s: Seq<u8>) -> bool {
    forall|i: int| 0 <= i < s.len() ==> 48 <= #[trigger] s[i] <= 57
}

/// The digits of a number are ASCII digits, and a positive number has at least one.
pub proof fn lemma_digits_of_shape(n: nat)
    ensures
        all_digits(digits_of(n)),
        n > 0 ==> digits_of(n).len() > 0,
        n == 0 ==> digits_of(n).len() == 0,
    decreases n,
{
    if n > 0 {
        lemma_digits_of_shape(n / 10);
    }
}

/// Two numbers with the same digits are the same number.
pub proof fn lemma_digits_of_injective(a: nat, b: nat)
    requires
        digits_of(a) == digits_of(b),
    ensures
        a == b,
    decreases a,
{
    lemma_digits_of_shape(a);
    lemma_digits_of_shape(b);
    if a > 0 {
        let da = digits_of(a / 10);
        let db = digits_of(b / 10);
        assert(digits_of(a).last() == digit(a % 10));
        assert(digits_of(b).last() == digit(b % 10));
        assert(digits_of(a).drop_last() =~= da);
        assert(digits_of(b).drop_last() =~= db);
        lemma_digits_of_injective(a / 10, b / 10);
    }
}

/// Decimal text consists of one or more ASCII digits.
pub proof fn lemma_decimal_shape(n: nat)
    ensures
        all_digits(decimal(n)),
        decimal(n).len() > 0,
{
    lemma_digits_of_shape(n);
}

/// Distinct numbers have distinct decimal text.
pub proof fn lemma_decimal_injective(a: nat, b: nat)
    requires
        decimal(a) == decimal(b),
    ensures
        a == b,
{
    lemma_digits_of_shape(a);
    lemma_digits_of_shape(b);
    if a == 0 && b > 0 {
        lemma_leading_digit_nonzero(b);
        assert(decimal(a)[0] == 48u8);
    } else if b == 0 && a > 0 {
        lemma_leading_digit_nonzero(a);
        assert(decimal(b)[0] == 48u8);
    } else if a > 0 && b > 0 {
        lemma_digits_of_injective(a, b);
    }
}

/// The text of a positive number does not start with the digit zero.
pub proof fn lemma_leading_digit_nonzero(n: nat)
    requires
        n > 0,
    ensures
        digits_of(n).len() > 0,
        digits_of(n)[0] != 48u8,
    decreases n,
{
    lemma_digits_of_shape(n / 10);
    if n >= 10 {
        lemma_leading_digit_nonzero(n / 10);
    } else {
        assert(digits_of(n / 10) =~= Seq::<u8>::empty());
    }
}

/// Writes `n` in decimal.
pub fn to_decimal(n: u64) -> (out: Vec<u8>)
    ensures
        out@ == decimal(n as nat),
{
    if n == 0 {
        let mut zero: Vec<u8> = Vec::new();
        zero.push(48u8);
        assert(zero@ =~= seq![48u8]);
        return zero;
    }
    let mut rev: Vec<u8> = Vec::new();
    let mut m: u64 = n;
    while m > 0
        invariant
            digits_of(n as nat) == digits_of(m as nat) + rev@.reverse(),
        decreases m,
    {
        let d: u8 = (m % 10) as u8;
        let ghost before = rev@;
        rev.push(48u8 + d);
        proof {
            assert(rev@.reverse() =~= seq![digit((m % 10) as nat)] + before.reverse());
            assert(digits_of(m as nat) == digits_of((m / 10) as nat).push(digit((m % 10) as nat)));
            assert(digits_of(m as nat) + before.reverse() =~= digits_of((m / 10) as nat)
                + rev@.reverse());
        }
        m = m / 10;
    }
    assert(digits_of(n as nat) =~= rev@.reverse());
    let mut out: Vec<u8> = Vec::new();
    let mut i: usize = rev.len();
    while i > 0
        invariant
            i <= rev.len(),
            out@ == rev@.reverse().subrange(0, rev.len() - i),
        decreases i,
    {
        i = i - 1;
        out.push(rev[i]);
        assert(out@ =~= rev@.reverse().subrange(0, rev.len() - i));
    }
    assert(out@ =~= rev@.reverse());
    out
}

} // verus!
