//! Verified arithmetic on magnitudes held as least-significant-first digit
//! vectors: schoolbook addition with carries, subtraction with borrows, and
//! long multiplication.

use vstd::prelude::*;

use crate::digits::{
    digit_seq_wf, digits_value_lsb, lemma_lsb_bound, lemma_lsb_push, lemma_lsb_single,
    lemma_pow10_pos, pow10,
};

verus! {

/// A least-significant-first digit vector with no superfluous high zero.
pub open spec fn trimmed_lsb(ds: Seq<u8>) -> bool {
    ds.len() >= 1 && (ds.len() > 1 ==> ds.last() != 0)
}

/// A trimmed magnitude is zero exactly when its highest digit is zero.
pub proof fn lemma_trimmed_nonzero(v: Seq<u8>)
    requires
        digit_seq_wf(v),
        trimmed_lsb(v),
    ensures
        digits_value_lsb(v) > 0 <==> v.last() != 0,
{
    if v.len() == 1 {
        assert(v =~= seq![v[0]]);
        lemma_lsb_single(v[0]);
    } else {
        assert(v =~= v.drop_last().push(v.last()));
        lemma_lsb_push(v.drop_last(), v.last());
        lemma_pow10_pos(v.drop_last().len());
        assert(v.last() * pow10(v.drop_last().len()) >= 1) by (nonlinear_arith)
            requires
                v.last() >= 1,
                pow10(v.drop_last().len()) >= 1,
        ;
    }
}

/// Copies a digit vector and pads it with high zeros up to length `n`.
pub(crate) fn padded_copy(v: &Vec<u8>, n: usize) -> (r: Vec<u8>)
    requires
        digit_seq_wf(v@),
    ensures
        digit_seq_wf(r@),
        digits_value_lsb(r@) == digits_value_lsb(v@),
        r@.len() >= v@.len(),
        r@.len() >= n,
        r@.len() == vstd::math::max(v@.len() as int, n as int),
{
    let mut r: Vec<u8> = Vec::new();
    let mut i: usize = 0;
    while i < v.len()
        invariant
            i <= v@.len(),
            r@ == v@.take(i as int),
            digit_seq_wf(v@),
        decreases v@.len() - i,
    {
        proof {
            assert(v@.take(i + 1) =~= v@.take(i as int).push(v@[i as int]));
        }
        r.push(v[i]);
        i = i + 1;
    }
    proof {
        assert(v@.take(v@.len() as int) =~= v@);
    }
    while r.len() < n
        invariant
            digit_seq_wf(r@),
            digits_value_lsb(r@) == digits_value_lsb(v@),
            r@.len() >= v@.len(),
            r@.len() <= vstd::math::max(v@.len() as int, n as int),
        decreases n - r@.len(),
    {
        proof {
            lemma_lsb_push(r@, 0);
        }
        r.push(0);
    }
    r
}

/// Digit-wise addition of two magnitudes, carrying one into the next more
/// significant position whenever a digit pair and the incoming carry exceed
/// nine.
pub(crate) fn add_lsb(a: &Vec<u8>, b: &Vec<u8>) -> (r: Vec<u8>)
    requires
        digit_seq_wf(a@),
        digit_seq_wf(b@),
    ensures
        digit_seq_wf(r@),
        digits_value_lsb(r@) == digits_value_lsb(a@) + digits_value_lsb(b@),
{
    let n = if a.len() >= b.len() {
        a.len()
    } else {
        b.len()
    };
    let av = padded_copy(a, n);
    let bv = padded_copy(b, n);
    let mut r: Vec<u8> = Vec::new();
    let mut carry: bool = false;
    let mut i: usize = 0;
    while i < n
        invariant
            i <= n,
            av@.len() == n,
            bv@.len() == n,
            digit_seq_wf(av@),
            digit_seq_wf(bv@),
            digit_seq_wf(r@),
            digits_value_lsb(av@) == digits_value_lsb(a@),
            digits_value_lsb(bv@) == digits_value_lsb(b@),
            r@.len() == i,
            digits_value_lsb(r@) + (if carry {
                pow10(i as nat)
            } else {
                0nat
            }) == digits_value_lsb(av@.take(i as int)) + digits_value_lsb(bv@.take(i as int)),
        decreases n - i,
    {
        let da = av[i];
        let db = bv[i];
        let mut sum = da + db;
        if carry {
            sum = sum + 1;
        }
        let new_carry = sum > 9;
        if new_carry {
            sum = sum - 10;
        }
        proof {
            lemma_lsb_push(r@, sum);
            assert(av@.take(i + 1) =~= av@.take(i as int).push(av@[i as int]));
            assert(bv@.take(i + 1) =~= bv@.take(i as int).push(bv@[i as int]));
            lemma_lsb_push(av@.take(i as int), da);
            lemma_lsb_push(bv@.take(i as int), db);
            assert(av@.take(i as int).len() == i && bv@.take(i as int).len() == i);
            assert(pow10((i + 1) as nat) == 10 * pow10(i as nat));
            let p = pow10(i as nat) as int;
            let s = sum as int;
            let x = da as int;
            let y = db as int;
            let ci: int = if carry {
                1
            } else {
                0
            };
            let co: int = if new_carry {
                1
            } else {
                0
            };
            assert(s + 10 * co == x + y + ci);
            assert(s * p + co * (10 * p) == x * p + y * p + ci * p) by (nonlinear_arith)
                requires
                    s + 10 * co == x + y + ci,
            ;
        }
        r.push(sum);
        carry = new_carry;
        i = i + 1;
    }
    proof {
        assert(av@.take(n as int) =~= av@);
        assert(bv@.take(n as int) =~= bv@);
    }
    if carry {
        proof {
            lemma_lsb_push(r@, 1);
        }
        r.push(1);
    }
    r
}

/// Digit-wise subtraction of two magnitudes, borrowing one from the next
/// more significant position whenever a digit difference is negative. The
/// flag reports a final unresolved borrow, which happens exactly when the
/// first magnitude is smaller than the second.
pub(crate) fn sub_borrow_lsb(a: &Vec<u8>, b: &Vec<u8>) -> (r: (Vec<u8>, bool))
    requires
        digit_seq_wf(a@),
        digit_seq_wf(b@),
    ensures
        digit_seq_wf(r.0@),
        digits_value_lsb(r.0@) as int == digits_value_lsb(a@) as int - digits_value_lsb(b@) as int
            + (if r.1 {
            pow10(r.0@.len() as nat) as int
        } else {
            0int
        }),
        r.1 <==> digits_value_lsb(a@) < digits_value_lsb(b@),
{
    let n = if a.len() >= b.len() {
        a.len()
    } else {
        b.len()
    };
    let av = padded_copy(a, n);
    let bv = padded_copy(b, n);
    let mut r: Vec<u8> = Vec::new();
    let mut borrow: bool = false;
    let mut i: usize = 0;
    while i < n
        invariant
            i <= n,
            av@.len() == n,
            bv@.len() == n,
            digit_seq_wf(av@),
            digit_seq_wf(bv@),
            digit_seq_wf(r@),
            digits_value_lsb(av@) == digits_value_lsb(a@),
            digits_value_lsb(bv@) == digits_value_lsb(b@),
            r@.len() == i,
            digits_value_lsb(r@) as int == digits_value_lsb(av@.take(i as int)) as int
                - digits_value_lsb(bv@.take(i as int)) as int + (if borrow {
                pow10(i as nat) as int
            } else {
                0int
            }),
        decreases n - i,
    {
        let da = av[i];
        let db = bv[i];
        let need = db + (if borrow {
            1
        } else {
            0
        });
        let diff: u8;
        let new_borrow: bool;
        if da >= need {
            diff = da - need;
            new_borrow = false;
        } else {
            diff = da + 10 - need;
            new_borrow = true;
        }
        proof {
            lemma_lsb_push(r@, diff);
            assert(av@.take(i + 1) =~= av@.take(i as int).push(av@[i as int]));
            assert(bv@.take(i + 1) =~= bv@.take(i as int).push(bv@[i as int]));
            lemma_lsb_push(av@.take(i as int), da);
            lemma_lsb_push(bv@.take(i as int), db);
            assert(av@.take(i as int).len() == i && bv@.take(i as int).len() == i);
            assert(pow10((i + 1) as nat) == 10 * pow10(i as nat));
            let p = pow10(i as nat) as int;
            let s = diff as int;
            let x = da as int;
            let y = db as int;
            let bi: int = if borrow {
                1
            } else {
                0
            };
            let bo: int = if new_borrow {
                1
            } else {
                0
            };
            assert(s == x - y - bi + 10 * bo);
            assert(s * p == x * p - y * p - bi * p + bo * (10 * p)) by (nonlinear_arith)
                requires
                    s == x - y - bi + 10 * bo,
            ;
        }
        r.push(diff);
        borrow = new_borrow;
        i = i + 1;
    }
    proof {
        assert(av@.take(n as int) =~= av@);
        assert(bv@.take(n as int) =~= bv@);
        if borrow {
            lemma_lsb_bound(r@);
        }
    }
    (r, borrow)
}

/// Removes superfluous high zeros, keeping at least one digit.
pub(crate) fn trim_lsb(v: &mut Vec<u8>)
    requires
        digit_seq_wf(old(v)@),
    ensures
        digit_seq_wf(final(v)@),
        trimmed_lsb(final(v)@),
        digits_value_lsb(final(v)@) == digits_value_lsb(old(v)@),
{
    if v.len() == 0 {
        proof {
            lemma_lsb_push(old(v)@, 0);
        }
        v.push(0);
    }
    while v.len() > 1 && v[v.len() - 1] == 0
        invariant
            digit_seq_wf(v@),
            v@.len() >= 1,
            digits_value_lsb(v@) == digits_value_lsb(old(v)@),
        decreases v@.len(),
    {
        proof {
            assert(v@ =~= v@.drop_last().push(v@.last()));
            lemma_lsb_push(v@.drop_last(), v@.last());
        }
        v.pop();
    }
}

/// Multiplies a magnitude by a single digit.
pub(crate) fn mul_digit_lsb(a: &Vec<u8>, d: u8) -> (r: Vec<u8>)
    requires
        digit_seq_wf(a@),
        d <= 9,
    ensures
        digit_seq_wf(r@),
        digits_value_lsb(r@) == digits_value_lsb(a@) * d,
{
    let mut r: Vec<u8> = Vec::new();
    let mut carry: u8 = 0;
    let mut i: usize = 0;
    proof {
        assert(a@.take(0) =~= Seq::<u8>::empty());
        assert(digits_value_lsb(Seq::<u8>::empty()) == 0);
        assert(digits_value_lsb(a@.take(0)) * d == 0) by (nonlinear_arith)
            requires
                digits_value_lsb(a@.take(0)) == 0,
        ;
    }
    while i < a.len()
        invariant
            i <= a@.len(),
            digit_seq_wf(a@),
            d <= 9,
            digit_seq_wf(r@),
            carry <= 8,
            r@.len() == i,
            digits_value_lsb(r@) + carry * pow10(i as nat) == digits_value_lsb(a@.take(i as int))
                * d,
        decreases a@.len() - i,
    {
        proof {
            assert(a@[i as int] <= 9);
            assert(a@[i as int] * d <= 81) by (nonlinear_arith)
                requires
                    a@[i as int] <= 9,
                    d <= 9,
            ;
        }
        let p = a[i] * d + carry;
        let dig = p % 10;
        let q = p / 10;
        proof {
            lemma_lsb_push(r@, dig);
            assert(a@.take(i + 1) =~= a@.take(i as int).push(a@[i as int]));
            lemma_lsb_push(a@.take(i as int), a@[i as int]);
            assert(a@.take(i as int).len() == i);
            assert(pow10((i + 1) as nat) == 10 * pow10(i as nat));
            vstd::arithmetic::div_mod::lemma_fundamental_div_mod(p as int, 10);
            let x = pow10(i as nat) as int;
            let ai = a@[i as int] as int;
            let dd = d as int;
            let c = carry as int;
            let digi = dig as int;
            let qi = q as int;
            let t0 = digits_value_lsb(a@.take(i as int)) as int;
            let r0 = digits_value_lsb(r@) as int;
            assert(digi + 10 * qi == ai * dd + c);
            assert(r0 + digi * x + qi * (10 * x) == (t0 + ai * x) * dd) by (nonlinear_arith)
                requires
                    r0 + c * x == t0 * dd,
                    digi + 10 * qi == ai * dd + c,
            ;
        }
        r.push(dig);
        carry = q;
        i = i + 1;
    }
    proof {
        assert(a@.take(a@.len() as int) =~= a@);
    }
    if carry > 0 {
        proof {
            lemma_lsb_push(r@, carry);
        }
        r.push(carry);
    }
    r
}

/// Long multiplication: each digit of the second factor multiplies a copy of
/// the first factor shifted to that digit's position, and the partial
/// products are summed.
pub(crate) fn mul_lsb(a: &Vec<u8>, b: &Vec<u8>) -> (r: Vec<u8>)
    requires
        digit_seq_wf(a@),
        digit_seq_wf(b@),
    ensures
        digit_seq_wf(r@),
        digits_value_lsb(r@) == digits_value_lsb(a@) * digits_value_lsb(b@),
{
    let mut acc: Vec<u8> = Vec::new();
    let mut sa = padded_copy(a, 0);
    let mut j: usize = 0;
    proof {
        assert(b@.take(0) =~= Seq::<u8>::empty());
        assert(digits_value_lsb(Seq::<u8>::empty()) == 0);
        assert(digits_value_lsb(a@) * digits_value_lsb(b@.take(0)) == 0) by (nonlinear_arith)
            requires
                digits_value_lsb(b@.take(0)) == 0,
        ;
        assert(pow10(0) == 1);
    }
    while j < b.len()
        invariant
            j <= b@.len(),
            digit_seq_wf(a@),
            digit_seq_wf(b@),
            digit_seq_wf(acc@),
            digit_seq_wf(sa@),
            digits_value_lsb(acc@) == digits_value_lsb(a@) * digits_value_lsb(
                b@.take(j as int),
            ),
            digits_value_lsb(sa@) == digits_value_lsb(a@) * pow10(j as nat),
        decreases b@.len() - j,
    {
        let partial = mul_digit_lsb(&sa, b[j]);
        let acc2 = add_lsb(&acc, &partial);
        proof {
            assert(b@.take(j + 1) =~= b@.take(j as int).push(b@[j as int]));
            lemma_lsb_push(b@.take(j as int), b@[j as int]);
            assert(b@.take(j as int).len() == j);
            let aa = digits_value_lsb(a@) as int;
            let tj = digits_value_lsb(b@.take(j as int)) as int;
            let bj = b@[j as int] as int;
            let x = pow10(j as nat) as int;
            assert(aa * tj + (aa * x) * bj == aa * (tj + bj * x)) by (nonlinear_arith);
            assert(pow10((j + 1) as nat) == 10 * pow10(j as nat));
            assert(10 * (aa * x) == aa * (10 * x)) by (nonlinear_arith);
        }
        acc = acc2;
        let ghost old_sa = sa@;
        sa.insert(0, 0);
        proof {
            assert(sa@.drop_first() =~= old_sa);
            assert(sa@.first() == 0);
        }
        j = j + 1;
    }
    proof {
        assert(b@.take(b@.len() as int) =~= b@);
    }
    acc
}

} // verus!
