//! A single decimal digit in its encoded form, and the error type shared by
//! digit encoding and text parsing.

use vstd::prelude::*;

verus! {

/// Error raised when a value or character is not a decimal digit.
#[derive(Clone, Copy, Debug, PartialEq, Eq, Structural)]
pub enum NumError {
    InvalidDigit,
}

/// One decimal digit, stored as a single small unsigned value. Values
/// above nine are rejected at construction and never produced, so decoding
/// always yields a digit in 0 through 9.
#[derive(Clone, Copy, Debug, PartialEq, Eq, Structural)]
pub struct DigitCell {
    value: u8,
}

/// The digit values of a sequence of cells.
pub open spec fn cell_values(cs: Seq<DigitCell>) -> Seq<u8> {
    cs.map_values(|c: DigitCell| c.spec_value())
}

impl DigitCell {
    /// The digit this cell encodes.
    pub closed spec fn spec_value(self) -> u8 {
        self.value
    }

    /// A valid cell encodes a decimal digit.
    pub open spec fn wf(self) -> bool {
        self.spec_value() <= 9
    }

    /// Encodes a decimal digit; values above nine are rejected.
    pub fn encode(digit: u8) -> (r: Result<DigitCell, NumError>)
        ensures
            r is Ok <==> digit <= 9,
            r matches Ok(c) ==> c.wf() && c.spec_value() == digit,
            r is Err ==> r == Err::<DigitCell, NumError>(NumError::InvalidDigit),
    {
        if digit <= 9 {
            Ok(DigitCell { value: digit })
        } else {
            Err(NumError::InvalidDigit)
        }
    }

    /// Builds a cell from a digit already known to be valid.
    pub(crate) fn from_valid(digit: u8) -> (r: DigitCell)
        requires
            digit <= 9,
        ensures
            r.wf(),
            r.spec_value() == digit,
    {
        DigitCell { value: digit }
    }

    /// Recovers the digit from its encoded form.
    pub fn decode(self) -> (r: u8)
        requires
            self.wf(),
        ensures
            r == self.spec_value(),
            r <= 9,
    {
        self.value
    }

    /// An independent copy with the same encoded value.
    pub fn duplicate(self) -> (r: DigitCell)
        ensures
            r == self,
    {
        self
    }
}

} // verus!
