//! Arbitrary-precision signed integers over decimal digit cells:
//! construction from decimal text, rendering to decimal text, and the
//! arithmetic operations.

use vstd::prelude::*;
use vstd::string::StrSliceExecFns;
use vstd::string::StringExecFns;

use crate::digit_cell::{cell_values, DigitCell, NumError};
use crate::digits::{
    canonical_digits, char_digits, char_of_digit, digit_chars, digit_of_char, digit_seq_wf,
    digits_value, digits_value_lsb, is_digit_char, lemma_msb_of_reversed,
};
use crate::magnitude::{
    add_lsb, lemma_trimmed_nonzero, mul_lsb, sub_borrow_lsb, trim_lsb, trimmed_lsb,
};

verus! {

/// The literal starts with a minus sign.
pub open spec fn has_sign(s: Seq<char>) -> bool {
    s.len() >= 1 && s[0] == '-'
}

/// The digit characters of the literal: everything after an optional
/// leading minus sign.
pub open spec fn literal_digits(s: Seq<char>) -> Seq<char> {
    if has_sign(s) {
        s.drop_first()
    } else {
        s
    }
}

/// A valid decimal literal: an optional leading minus sign followed by one
/// or more decimal digit characters.
pub open spec fn valid_literal(s: Seq<char>) -> bool {
    literal_digits(s).len() >= 1 && (forall|i: int|
        0 <= i < literal_digits(s).len() ==> is_digit_char(literal_digits(s)[i]))
}

/// The integer a valid literal denotes.
pub open spec fn literal_value(s: Seq<char>) -> int {
    if has_sign(s) {
        -(digits_value(char_digits(literal_digits(s))) as int)
    } else {
        digits_value(char_digits(literal_digits(s))) as int
    }
}

/// An arbitrary-precision signed integer: decimal digit cells ordered
/// most-significant first, and a sign flag (`true` means negative).
pub struct BigInt {
    digits: Vec<DigitCell>,
    negative: bool,
}

impl BigInt {
    /// The digit values, most-significant first.
    pub closed spec fn spec_digits(&self) -> Seq<u8> {
        cell_values(self.digits@)
    }

    /// The sign flag.
    pub closed spec fn spec_negative(&self) -> bool {
        self.negative
    }

    /// A valid value holds at least one digit, each of them decimal.
    pub open spec fn wf(&self) -> bool {
        self.spec_digits().len() >= 1 && digit_seq_wf(self.spec_digits())
    }

    /// The magnitude: the number the digit sequence denotes.
    pub open spec fn magnitude(&self) -> nat {
        digits_value(self.spec_digits())
    }

    /// The integer this value denotes.
    pub open spec fn value(&self) -> int {
        if self.spec_negative() {
            -(self.magnitude() as int)
        } else {
            self.magnitude() as int
        }
    }

    /// A canonical value: no superfluous leading zero, and zero is never
    /// negative.
    pub open spec fn is_canonical(&self) -> bool {
        canonical_digits(self.spec_digits()) && (self.spec_negative()
            ==> self.spec_digits()[0] != 0)
    }

    /// The decimal text of this value: a minus sign if the flag is set,
    /// then the digit characters in order.
    pub open spec fn render_chars(&self) -> Seq<char> {
        if self.spec_negative() {
            seq!['-'] + digit_chars(self.spec_digits())
        } else {
            digit_chars(self.spec_digits())
        }
    }

    /// Parses a decimal literal: an optional leading minus sign followed by
    /// one or more decimal digit characters, kept exactly as written.
    /// Anything else is rejected.
    pub fn parse(s: &str) -> (r: Result<BigInt, NumError>)
        ensures
            r is Ok <==> valid_literal(s@),
            r matches Ok(v) ==> v.wf() && v.spec_negative() == has_sign(s@) && v.spec_digits()
                == char_digits(literal_digits(s@)) && v.value() == literal_value(s@),
            r is Err ==> r == Err::<BigInt, NumError>(NumError::InvalidDigit),
    {
        let n = s.unicode_len();
        let negative = if n >= 1 {
            s.get_char(0) == '-'
        } else {
            false
        };
        let start: usize = if negative {
            1
        } else {
            0
        };
        if n == start {
            proof {
                assert(literal_digits(s@).len() == 0);
            }
            return Err(NumError::InvalidDigit);
        }
        let mut digits: Vec<DigitCell> = Vec::new();
        let mut i: usize = start;
        while i < n
            invariant
                start <= i <= n,
                n == s@.len(),
                negative == has_sign(s@),
                start == (if negative {
                    1int
                } else {
                    0int
                }),
                n > start,
                digits@.len() == i - start,
                forall|k: int|
                    0 <= k < digits@.len() ==> (#[trigger] digits@[k]).wf() && digits@[k].spec_value()
                        == digit_of_char(s@[start + k]),
                forall|k: int| start <= k < i ==> is_digit_char(#[trigger] s@[k]),
            decreases n - i,
        {
            let c = s.get_char(i);
            let d: u8 = if c == '0' {
                0
            } else if c == '1' {
                1
            } else if c == '2' {
                2
            } else if c == '3' {
                3
            } else if c == '4' {
                4
            } else if c == '5' {
                5
            } else if c == '6' {
                6
            } else if c == '7' {
                7
            } else if c == '8' {
                8
            } else if c == '9' {
                9
            } else {
                proof {
                    assert(literal_digits(s@)[i - start] == s@[i as int]);
                    assert(!valid_literal(s@));
                }
                return Err(NumError::InvalidDigit);
            };
            digits.push(DigitCell::from_valid(d));
            i = i + 1;
        }
        let v = BigInt { digits, negative };
        proof {
            assert(v.spec_digits() =~= char_digits(literal_digits(s@)));
            assert(forall|k: int|
                0 <= k < literal_digits(s@).len() ==> is_digit_char(
                    #[trigger] literal_digits(s@)[k],
                ));
        }
        Ok(v)
    }

    /// Renders the value as decimal text: a minus sign if the sign flag is
    /// set, then each digit decoded to its character, in order.
    pub fn render(&self) -> (r: String)
        requires
            self.wf(),
        ensures
            r@ == self.render_chars(),
    {
        let mut out = String::new();
        if self.negative {
            proof {
                reveal_strlit("-");
            }
            out.append("-");
        }
        let ghost prefix: Seq<char> = out@;
        let mut i: usize = 0;
        while i < self.digits.len()
            invariant
                i <= self.digits@.len(),
                self.wf(),
                out@ == prefix + digit_chars(self.spec_digits().take(i as int)),
            decreases self.digits@.len() - i,
        {
            proof {
                assert(self.spec_digits().take(i + 1) =~= self.spec_digits().take(
                    i as int,
                ).push(self.spec_digits()[i as int]));
                assert(digit_chars(self.spec_digits().take(i + 1)) =~= digit_chars(
                    self.spec_digits().take(i as int),
                ).push(char_of_digit(self.spec_digits()[i as int])));
            }
            let d = self.digits[i].decode();
            push_digit_char(&mut out, d);
            i = i + 1;
        }
        proof {
            assert(self.spec_digits().take(self.digits@.len() as int) =~= self.spec_digits());
            assert(out@ =~= self.render_chars());
        }
        out
    }

    /// Deep-copies the digit sequence and the sign flag.
    pub fn duplicate(&self) -> (r: BigInt)
        ensures
            r.spec_digits() == self.spec_digits(),
            r.spec_negative() == self.spec_negative(),
            r.wf() == self.wf(),
            r.value() == self.value(),
            r.is_canonical() == self.is_canonical(),
    {
        let mut cells: Vec<DigitCell> = Vec::new();
        let mut i: usize = 0;
        while i < self.digits.len()
            invariant
                i <= self.digits@.len(),
                cells@ == self.digits@.take(i as int),
            decreases self.digits@.len() - i,
        {
            proof {
                assert(self.digits@.take(i + 1) =~= self.digits@.take(i as int).push(
                    self.digits@[i as int],
                ));
            }
            cells.push(self.digits[i].duplicate());
            i = i + 1;
        }
        proof {
            assert(self.digits@.take(self.digits@.len() as int) =~= self.digits@);
        }
        BigInt { digits: cells, negative: self.negative }
    }

    /// Adds two values. Operands of equal sign have their magnitudes added
    /// digit-wise with carries; with differing signs the smaller magnitude
    /// is subtracted from the larger, which lends the result its sign. The
    /// result is canonical.
    pub fn add(self, other: BigInt) -> (r: BigInt)
        requires
            self.wf(),
            other.wf(),
        ensures
            r.is_canonical(),
            r.value() == self.value() + other.value(),
    {
        let a = to_lsb(&self.digits);
        let b = to_lsb(&other.digits);
        proof {
            lemma_msb_of_reversed(a@);
            lemma_msb_of_reversed(b@);
            assert(a@.reverse() =~= self.spec_digits());
            assert(b@.reverse() =~= other.spec_digits());
        }
        if self.negative == other.negative {
            let mut sum = add_lsb(&a, &b);
            trim_lsb(&mut sum);
            let neg = self.negative && sum[sum.len() - 1] != 0;
            proof {
                lemma_trimmed_nonzero(sum@);
                lemma_msb_of_reversed(sum@);
            }
            let cells = from_lsb(&sum);
            BigInt { digits: cells, negative: neg }
        } else if self.negative {
            diff_of(&b, &a)
        } else {
            diff_of(&a, &b)
        }
    }

    /// Subtracts `other` from `self`: the addition of the exact negation.
    /// The result is canonical; when `other` exceeds `self` the result is
    /// negative with the correct magnitude.
    pub fn subtract(self, other: BigInt) -> (r: BigInt)
        requires
            self.wf(),
            other.wf(),
        ensures
            r.is_canonical(),
            r.value() == self.value() - other.value(),
    {
        let negated = BigInt { digits: other.digits, negative: !other.negative };
        self.add(negated)
    }

    /// Multiplies two values by long multiplication. The result is
    /// canonical and negative exactly when the signs differ and neither
    /// operand is zero.
    pub fn multiply(self, other: BigInt) -> (r: BigInt)
        requires
            self.wf(),
            other.wf(),
        ensures
            r.is_canonical(),
            r.value() == self.value() * other.value(),
    {
        let a = to_lsb(&self.digits);
        let b = to_lsb(&other.digits);
        proof {
            lemma_msb_of_reversed(a@);
            lemma_msb_of_reversed(b@);
            assert(a@.reverse() =~= self.spec_digits());
            assert(b@.reverse() =~= other.spec_digits());
        }
        let mut prod = mul_lsb(&a, &b);
        trim_lsb(&mut prod);
        let nonzero = prod[prod.len() - 1] != 0;
        let neg = (self.negative != other.negative) && nonzero;
        proof {
            lemma_trimmed_nonzero(prod@);
            lemma_msb_of_reversed(prod@);
            let ma = self.magnitude() as int;
            let mb = other.magnitude() as int;
            assert((-ma) * mb == -(ma * mb) && ma * (-mb) == -(ma * mb) && (-ma) * (-mb) == ma
                * mb) by (nonlinear_arith);
        }
        let cells = from_lsb(&prod);
        BigInt { digits: cells, negative: neg }
    }
}

/// Appends the character of one digit to the text being built.
fn push_digit_char(out: &mut String, d: u8)
    requires
        d <= 9,
    ensures
        final(out)@ == old(out)@ + seq![char_of_digit(d)],
{
    if d == 0 {
        proof {
            reveal_strlit("0");
        }
        out.append("0");
    } else if d == 1 {
        proof {
            reveal_strlit("1");
        }
        out.append("1");
    } else if d == 2 {
        proof {
            reveal_strlit("2");
        }
        out.append("2");
    } else if d == 3 {
        proof {
            reveal_strlit("3");
        }
        out.append("3");
    } else if d == 4 {
        proof {
            reveal_strlit("4");
        }
        out.append("4");
    } else if d == 5 {
        proof {
            reveal_strlit("5");
        }
        out.append("5");
    } else if d == 6 {
        proof {
            reveal_strlit("6");
        }
        out.append("6");
    } else if d == 7 {
        proof {
            reveal_strlit("7");
        }
        out.append("7");
    } else if d == 8 {
        proof {
            reveal_strlit("8");
        }
        out.append("8");
    } else {
        proof {
            reveal_strlit("9");
        }
        out.append("9");
    }
}

/// Reads the digit values out of the cells, least-significant first.
fn to_lsb(cells: &Vec<DigitCell>) -> (r: Vec<u8>)
    requires
        digit_seq_wf(cell_values(cells@)),
    ensures
        r@ == cell_values(cells@).reverse(),
        digit_seq_wf(r@),
{
    let n = cells.len();
    let mut r: Vec<u8> = Vec::new();
    let mut i: usize = 0;
    while i < n
        invariant
            i <= n,
            n == cells@.len(),
            digit_seq_wf(cell_values(cells@)),
            r@.len() == i,
            forall|k: int| 0 <= k < i ==> r@[k] == cell_values(cells@)[n - 1 - k],
        decreases n - i,
    {
        proof {
            assert(cell_values(cells@)[n - 1 - i] == cells@[n - 1 - i].spec_value());
            assert(cell_values(cells@)[n - 1 - i] <= 9);
        }
        r.push(cells[n - 1 - i].decode());
        i = i + 1;
    }
    proof {
        assert(r@ =~= cell_values(cells@).reverse());
    }
    r
}

/// Packs least-significant-first digit values back into cells,
/// most-significant first.
fn from_lsb(v: &Vec<u8>) -> (r: Vec<DigitCell>)
    requires
        digit_seq_wf(v@),
    ensures
        cell_values(r@) == v@.reverse(),
{
    let n = v.len();
    let mut r: Vec<DigitCell> = Vec::new();
    let mut i: usize = 0;
    while i < n
        invariant
            i <= n,
            n == v@.len(),
            digit_seq_wf(v@),
            r@.len() == i,
            forall|k: int|
                0 <= k < i ==> (#[trigger] r@[k]).wf() && r@[k].spec_value() == v@[n - 1 - k],
        decreases n - i,
    {
        r.push(DigitCell::from_valid(v[n - 1 - i]));
        i = i + 1;
    }
    proof {
        assert(cell_values(r@) =~= v@.reverse());
    }
    r
}

/// The difference of two magnitudes as a canonical signed value. A final
/// borrow means the first magnitude is smaller; the difference is then
/// taken the other way round and the result is negative.
fn diff_of(pos: &Vec<u8>, neg: &Vec<u8>) -> (r: BigInt)
    requires
        digit_seq_wf(pos@),
        digit_seq_wf(neg@),
    ensures
        r.is_canonical(),
        r.value() == digits_value_lsb(pos@) as int - digits_value_lsb(neg@) as int,
{
    let (diff, borrow) = sub_borrow_lsb(pos, neg);
    if !borrow {
        let mut diff = diff;
        trim_lsb(&mut diff);
        proof {
            lemma_msb_of_reversed(diff@);
        }
        let cells = from_lsb(&diff);
        BigInt { digits: cells, negative: false }
    } else {
        let (rdiff, rborrow) = sub_borrow_lsb(neg, pos);
        let mut rdiff = rdiff;
        trim_lsb(&mut rdiff);
        proof {
            lemma_trimmed_nonzero(rdiff@);
            lemma_msb_of_reversed(rdiff@);
        }
        let cells = from_lsb(&rdiff);
        BigInt { digits: cells, negative: true }
    }
}

} // verus!
