//! Why a string is not stored as an integer.

use vstd::prelude::*;

verus! {

/// The reasons for which [`crate::number::string_to_number`] turns a string
/// down. None of them is fatal: the caller stores the string as it is.
#[derive(Debug, Clone, Copy, PartialEq, Eq, Structural)]
pub enum ZipListError {
    /// The string is empty or too long to be a 64-bit number.
    InvalidString,
    /// After the optional minus sign there is no digit from 1 to 9.
    InvalidFirstDigit,
    /// A byte after the first digit is not a decimal digit.
    InvalidChar,
    /// Ten times the digits read so far does not fit in 64 unsigned bits.
    OverFlowMul,
    /// Adding the last digit does not fit in 64 unsigned bits.
    OverFlowAdd,
    /// The magnitude after a minus sign is above that of the smallest `i64`.
    OverFlowNegative,
    /// The number is above the largest `i64`.
    OverFlowPositive,
}

} // verus!
