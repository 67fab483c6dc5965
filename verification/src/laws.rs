//! The laws the library guarantees, stated over the contracts of `parse`,
//! `render`, `add`, `subtract` and `multiply` and proved once and for all.

use vstd::prelude::*;

use crate::bigint::{has_sign, literal_digits, literal_value, valid_literal, BigInt};
use crate::digits::{
    char_digits, char_of_digit, dec_chars, digit_chars, digit_of_char, digits_of_nat,
    is_digit_char, lemma_canonical_digits_unique, lemma_digits_of_nat_correct,
    lemma_msb_first_nonzero, lemma_msb_single,
};

verus! {

/// Law: rendering a parsed value reproduces the accepted literal exactly,
/// leading zeros and sign included. The hypotheses are what `parse`
/// guarantees of any value it returns.
pub proof fn lemma_parse_render_round_trip(s: Seq<char>, v: BigInt)
    requires
        valid_literal(s),
        v.spec_negative() == has_sign(s),
        v.spec_digits() == char_digits(literal_digits(s)),
    ensures
        v.render_chars() == s,
{
    assert forall|i: int| 0 <= i < literal_digits(s).len() implies digit_chars(
        char_digits(literal_digits(s)),
    )[i] == literal_digits(s)[i] by {
        assert(is_digit_char(literal_digits(s)[i]));
        assert(char_of_digit(digit_of_char(literal_digits(s)[i])) == literal_digits(s)[i]);
    }
    assert(digit_chars(char_digits(literal_digits(s))) =~= literal_digits(s));
    assert(v.render_chars() =~= s);
}

/// Law: the rendering of any valid value is itself a valid literal, and
/// parsing it back recovers the same digits, sign and integer value. With
/// the round trip above, `render` and `parse` are exact inverses.
pub proof fn lemma_render_parse_round_trip(v: BigInt)
    requires
        v.wf(),
    ensures
        valid_literal(v.render_chars()),
        has_sign(v.render_chars()) == v.spec_negative(),
        char_digits(literal_digits(v.render_chars())) == v.spec_digits(),
        literal_value(v.render_chars()) == v.value(),
{
    let ds = v.spec_digits();
    assert(literal_digits(v.render_chars()) =~= digit_chars(ds));
    assert forall|i: int| 0 <= i < ds.len() implies is_digit_char(digit_chars(ds)[i])
        && digit_of_char(digit_chars(ds)[i]) == ds[i] by {
        assert(ds[i] <= 9);
    }
    assert(char_digits(digit_chars(ds)) =~= ds);
}

/// Canonical values are unique: two canonical values denoting the same
/// integer have the same digits and the same sign.
pub proof fn lemma_canonical_value_unique(a: BigInt, b: BigInt)
    requires
        a.is_canonical(),
        b.is_canonical(),
        a.value() == b.value(),
    ensures
        a.spec_digits() == b.spec_digits(),
        a.spec_negative() == b.spec_negative(),
        a.render_chars() == b.render_chars(),
{
    if a.spec_negative() {
        lemma_msb_first_nonzero(a.spec_digits());
    }
    if b.spec_negative() {
        lemma_msb_first_nonzero(b.spec_digits());
    }
    assert(a.magnitude() == b.magnitude());
    lemma_canonical_digits_unique(a.spec_digits());
    lemma_canonical_digits_unique(b.spec_digits());
}

/// The canonical decimal text of any integer is itself a valid literal and
/// denotes exactly that integer: `dec_chars` is the reference decimal
/// writing that the arithmetic laws below compare against.
pub proof fn lemma_decimal_text_denotes(v: int)
    ensures
        valid_literal(dec_chars(v)),
        literal_value(dec_chars(v)) == v,
{
    let n: nat = if v < 0 {
        (-v) as nat
    } else {
        v as nat
    };
    lemma_digits_of_nat_correct(n);
    let ds = digits_of_nat(n);
    assert forall|i: int| 0 <= i < ds.len() implies is_digit_char(digit_chars(ds)[i])
        && digit_of_char(digit_chars(ds)[i]) == ds[i] by {
        assert(ds[i] <= 9);
    }
    assert(char_digits(digit_chars(ds)) =~= ds);
    if v < 0 {
        assert(dec_chars(v)[0] == '-');
        assert(literal_digits(dec_chars(v)) =~= digit_chars(ds));
    } else {
        assert(dec_chars(v) =~= digit_chars(ds));
        assert(is_digit_char(digit_chars(ds)[0]));
        assert(!has_sign(dec_chars(v)));
        assert(literal_digits(dec_chars(v)) =~= digit_chars(ds));
    }
}

/// Law: a canonical value renders to the canonical decimal text of the
/// integer it denotes, as an independent reference would write it.
pub proof fn lemma_render_is_decimal_text(v: BigInt)
    requires
        v.is_canonical(),
    ensures
        v.render_chars() == dec_chars(v.value()),
{
    lemma_canonical_digits_unique(v.spec_digits());
    if v.spec_negative() {
        lemma_msb_first_nonzero(v.spec_digits());
        assert(v.render_chars() =~= dec_chars(v.value()));
    } else {
        assert(v.render_chars() =~= dec_chars(v.value()));
    }
}

/// Law: the sum of non-negative values renders to the decimal text of the
/// integer sum. The hypotheses on `r` are what `add` guarantees of its
/// result.
pub proof fn lemma_add_renders_sum(x: BigInt, y: BigInt, r: BigInt)
    requires
        x.value() >= 0,
        y.value() >= 0,
        r.is_canonical(),
        r.value() == x.value() + y.value(),
    ensures
        r.render_chars() == dec_chars(x.value() + y.value()),
{
    lemma_render_is_decimal_text(r);
}

/// Law: for values with `x >= y >= 0`, the difference renders to the
/// decimal text of the integer difference. The hypotheses on `r` are what
/// `subtract` guarantees of its result.
pub proof fn lemma_subtract_renders_difference(x: BigInt, y: BigInt, r: BigInt)
    requires
        x.value() >= y.value() >= 0,
        r.is_canonical(),
        r.value() == x.value() - y.value(),
    ensures
        r.render_chars() == dec_chars(x.value() - y.value()),
{
    lemma_render_is_decimal_text(r);
}

/// Law: the product of non-negative values renders to the decimal text of
/// the integer product; in particular a zero operand gives the text `0`.
/// The hypotheses on `r` are what `multiply` guarantees of its result.
pub proof fn lemma_multiply_renders_product(x: BigInt, y: BigInt, r: BigInt)
    requires
        x.value() >= 0,
        y.value() >= 0,
        r.is_canonical(),
        r.value() == x.value() * y.value(),
    ensures
        r.render_chars() == dec_chars(x.value() * y.value()),
        x.value() == 0 ==> r.render_chars() == seq!['0'],
{
    lemma_render_is_decimal_text(r);
    if x.value() == 0 {
        assert(x.value() * y.value() == 0) by (nonlinear_arith)
            requires
                x.value() == 0,
        ;
        lemma_msb_single(0);
        assert(digits_of_nat(0) == seq![0u8]);
        assert(dec_chars(0) =~= seq!['0']);
    }
}

/// Law: addition is commutative. Any results of adding the same operands in
/// either order have the same digits, the same sign, and render
/// identically. The hypotheses on `r1` and `r2` are what `add` guarantees.
pub proof fn lemma_add_commutative(x: BigInt, y: BigInt, r1: BigInt, r2: BigInt)
    requires
        r1.is_canonical(),
        r1.value() == x.value() + y.value(),
        r2.is_canonical(),
        r2.value() == y.value() + x.value(),
    ensures
        r1.spec_digits() == r2.spec_digits(),
        r1.spec_negative() == r2.spec_negative(),
        r1.render_chars() == r2.render_chars(),
{
    lemma_canonical_value_unique(r1, r2);
}

/// Law: adding a value and its exact negation yields canonical zero, which
/// renders as `0` with no sign. The hypotheses on `r` are what `add`
/// guarantees of its result.
pub proof fn lemma_add_negation_is_zero(x: BigInt, y: BigInt, r: BigInt)
    requires
        y.value() == -x.value(),
        r.is_canonical(),
        r.value() == x.value() + y.value(),
    ensures
        r.value() == 0,
        !r.spec_negative(),
        r.render_chars() == seq!['0'],
{
    if r.spec_negative() {
        lemma_msb_first_nonzero(r.spec_digits());
    }
    lemma_canonical_digits_unique(r.spec_digits());
    lemma_msb_single(0);
    assert(digits_of_nat(0) == seq![0u8]);
    assert(r.render_chars() =~= seq!['0']);
}

} // verus!
