//! The mathematical model of decimal digit sequences: their numeric value,
//! the canonical digit sequence of a number, and the digit characters.

use vstd::prelude::*;

verus! {

/// Every entry of the sequence is a decimal digit value (0 through 9).
pub open spec fn digit_seq_wf(ds: Seq<u8>) -> bool {
    forall|i: int| 0 <= i < ds.len() ==> ds[i] <= 9
}

/// Ten raised to `n`.
pub open spec fn pow10(n: nat) -> nat
    decreases n,
{
    if n == 0 {
        1
    } else {
        10 * pow10((n - 1) as nat)
    }
}

/// Numeric value of a digit sequence written most-significant digit first.
pub open spec fn digits_value(ds: Seq<u8>) -> nat
    decreases ds.len(),
{
    if ds.len() == 0 {
        0
    } else {
        digits_value(ds.drop_last()) * 10 + ds.last() as nat
    }
}

/// Numeric value of a digit sequence written least-significant digit first.
pub open spec fn digits_value_lsb(ds: Seq<u8>) -> nat
    decreases ds.len(),
{
    if ds.len() == 0 {
        0
    } else {
        ds.first() as nat + 10 * digits_value_lsb(ds.drop_first())
    }
}

pub proof fn lemma_pow10_pos(n: nat)
    ensures
        pow10(n) >= 1,
    decreases n,
{
    if n > 0 {
        lemma_pow10_pos((n - 1) as nat);
    }
}

/// Appending a digit at the high end of a least-significant-first sequence
/// adds that digit times the next power of ten.
pub proof fn lemma_lsb_push(ds: Seq<u8>, d: u8)
    ensures
        digits_value_lsb(ds.push(d)) == digits_value_lsb(ds) + d * pow10(ds.len()),
    decreases ds.len(),
{
    if ds.len() == 0 {
        assert(ds.push(d).drop_first() =~= Seq::<u8>::empty());
        assert(digits_value_lsb(Seq::<u8>::empty()) == 0);
        assert(pow10(0) == 1);
    } else {
        assert(ds.push(d).drop_first() =~= ds.drop_first().push(d));
        lemma_lsb_push(ds.drop_first(), d);
        assert(ds.push(d).first() == ds.first());
        assert(digits_value_lsb(ds.push(d)) == ds.push(d).first() as nat + 10 * digits_value_lsb(
            ds.push(d).drop_first(),
        ));
        assert(pow10(ds.len()) == 10 * pow10((ds.len() - 1) as nat));
        assert(10 * (d * pow10((ds.len() - 1) as nat)) == d * (10 * pow10((ds.len() - 1) as nat)))
            by (nonlinear_arith);
    }
}

/// A digit sequence of length `n` denotes a value below ten to the `n`.
pub proof fn lemma_lsb_bound(ds: Seq<u8>)
    requires
        digit_seq_wf(ds),
    ensures
        digits_value_lsb(ds) < pow10(ds.len()),
    decreases ds.len(),
{
    if ds.len() > 0 {
        assert(forall|i: int| 0 <= i < ds.drop_first().len() ==> ds.drop_first()[i] == ds[i + 1]);
        lemma_lsb_bound(ds.drop_first());
    }
}

pub proof fn lemma_lsb_single(d: u8)
    ensures
        digits_value_lsb(seq![d]) == d,
{
    assert(seq![d].drop_first() =~= Seq::<u8>::empty());
    assert(digits_value_lsb(Seq::<u8>::empty()) == 0);
    assert(seq![d].first() == d);
}

pub proof fn lemma_msb_single(d: u8)
    ensures
        digits_value(seq![d]) == d,
{
    assert(seq![d].drop_last() =~= Seq::<u8>::empty());
    assert(digits_value(Seq::<u8>::empty()) == 0);
    assert(seq![d].last() == d);
}

/// The two readings agree once the sequence is reversed.
pub proof fn lemma_msb_lsb_reverse(ds: Seq<u8>)
    ensures
        digits_value(ds) == digits_value_lsb(ds.reverse()),
    decreases ds.len(),
{
    if ds.len() == 0 {
        assert(ds.reverse() =~= Seq::<u8>::empty());
    } else {
        assert(ds.reverse().first() == ds.last());
        assert(ds.reverse().drop_first() =~= ds.drop_last().reverse());
        lemma_msb_lsb_reverse(ds.drop_last());
    }
}

/// The most-significant-first value of a reversed least-significant-first
/// sequence is the sequence's value.
pub proof fn lemma_msb_of_reversed(v: Seq<u8>)
    ensures
        digits_value(v.reverse()) == digits_value_lsb(v),
{
    lemma_msb_lsb_reverse(v.reverse());
    assert(v.reverse().reverse() =~= v);
}

/// A digit sequence with a nonzero leading digit denotes a positive number.
pub proof fn lemma_msb_first_nonzero(ds: Seq<u8>)
    requires
        digit_seq_wf(ds),
        ds.len() >= 1,
        ds[0] != 0,
    ensures
        digits_value(ds) >= 1,
    decreases ds.len(),
{
    if ds.len() == 1 {
        assert(ds.drop_last() =~= Seq::<u8>::empty());
    } else {
        assert(forall|i: int| 0 <= i < ds.drop_last().len() ==> ds.drop_last()[i] == ds[i]);
        lemma_msb_first_nonzero(ds.drop_last());
    }
}

/// A canonical magnitude: at least one digit and no superfluous leading zero.
pub open spec fn canonical_digits(ds: Seq<u8>) -> bool {
    digit_seq_wf(ds) && ds.len() >= 1 && (ds.len() > 1 ==> ds[0] != 0)
}

/// The canonical decimal digit sequence of a natural number,
/// most-significant digit first.
pub open spec fn digits_of_nat(n: nat) -> Seq<u8>
    decreases n,
{
    if n < 10 {
        seq![n as u8]
    } else {
        digits_of_nat(n / 10).push((n % 10) as u8)
    }
}

pub proof fn lemma_digits_of_nat_correct(n: nat)
    ensures
        canonical_digits(digits_of_nat(n)),
        digits_value(digits_of_nat(n)) == n,
    decreases n,
{
    if n < 10 {
        lemma_msb_single(n as u8);
    } else {
        lemma_digits_of_nat_correct(n / 10);
        vstd::arithmetic::div_mod::lemma_fundamental_div_mod(n as int, 10);
        let q = digits_of_nat(n / 10);
        assert(q.push((n % 10) as u8).drop_last() =~= q);
        if q.len() == 1 {
            assert(q =~= seq![q[0]]);
            lemma_msb_single(q[0]);
        }
    }
}

/// A canonical digit sequence is recovered from its value: canonical
/// representations are unique.
pub proof fn lemma_canonical_digits_unique(ds: Seq<u8>)
    requires
        canonical_digits(ds),
    ensures
        digits_of_nat(digits_value(ds)) == ds,
    decreases ds.len(),
{
    if ds.len() == 1 {
        assert(ds =~= seq![ds[0]]);
        lemma_msb_single(ds[0]);
        assert(digits_of_nat(digits_value(ds)) =~= ds);
    } else {
        let q = ds.drop_last();
        assert(forall|i: int| 0 <= i < q.len() ==> q[i] == ds[i]);
        lemma_msb_first_nonzero(q);
        lemma_canonical_digits_unique(q);
        let v = digits_value(ds) as int;
        vstd::arithmetic::div_mod::lemma_fundamental_div_mod_converse(
            v,
            10,
            digits_value(q) as int,
            ds.last() as int,
        );
        assert(digits_of_nat(digits_value(ds)) =~= ds);
    }
}

/// The ten ASCII decimal digit characters.
pub open spec fn is_digit_char(c: char) -> bool {
    c == '0' || c == '1' || c == '2' || c == '3' || c == '4' || c == '5' || c == '6' || c == '7'
        || c == '8' || c == '9'
}

/// The digit value of an ASCII decimal digit character.
pub open spec fn digit_of_char(c: char) -> u8 {
    if c == '0' {
        0
    } else if c == '1' {
        1
    } else if c == '2' {
        2
    } else if c == '3' {
        3
    } else if c == '4' {
        4
    } else if c == '5' {
        5
    } else if c == '6' {
        6
    } else if c == '7' {
        7
    } else if c == '8' {
        8
    } else {
        9
    }
}

/// The ASCII character of a digit value.
pub open spec fn char_of_digit(d: u8) -> char {
    if d == 0 {
        '0'
    } else if d == 1 {
        '1'
    } else if d == 2 {
        '2'
    } else if d == 3 {
        '3'
    } else if d == 4 {
        '4'
    } else if d == 5 {
        '5'
    } else if d == 6 {
        '6'
    } else if d == 7 {
        '7'
    } else if d == 8 {
        '8'
    } else {
        '9'
    }
}

/// The characters of a digit sequence.
pub open spec fn digit_chars(ds: Seq<u8>) -> Seq<char> {
    ds.map_values(|d: u8| char_of_digit(d))
}

/// The digit values of a character sequence.
pub open spec fn char_digits(cs: Seq<char>) -> Seq<u8> {
    cs.map_values(|c: char| digit_of_char(c))
}

/// The canonical decimal text of an integer: an optional minus sign in
/// front of the canonical digits of its absolute value.
pub open spec fn dec_chars(v: int) -> Seq<char> {
    if v < 0 {
        seq!['-'] + digit_chars(digits_of_nat((-v) as nat))
    } else {
        digit_chars(digits_of_nat(v as nat))
    }
}

} // verus!
