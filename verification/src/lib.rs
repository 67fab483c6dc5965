//! Arbitrary-precision signed decimal arithmetic.
//!
//! A `BigInt` is a sequence of decimal digit cells, most-significant digit
//! first, together with a sign flag. Values are built by parsing decimal
//! text and rendered back to decimal text; addition, subtraction and
//! multiplication are proved to compute the exact integer results.
//!
//! Normalization policy: `parse` keeps the digits of the literal exactly as
//! written (so rendering a parsed value reproduces the literal, leading
//! zeros included), while every arithmetic result is canonical: no leading
//! zeros, a single `0` digit for zero, and zero is never negative.

pub mod bigint;
pub mod digit_cell;
pub mod digits;
pub mod laws;
mod magnitude;
