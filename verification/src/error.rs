use vstd::prelude::*;

verus! {

/// Everything that can go wrong in this library, as a value handed to the caller.
#[derive(Debug, Clone, Copy, PartialEq, Eq, Structural)]
pub enum Error {
    /// The hex text does not have exactly two characters per digest byte.
    InvalidLength,
    /// The hex text holds a character that is no hexadecimal digit.
    InvalidEncoding,
    /// The confirmed order equals the highest order seen so far.
    OrderAlreadySeen,
    /// The confirmed order lies below the highest order seen so far.
    OrderRegression,
    /// No buffered entry has the confirmed identifier and hash.
    UnknownEntry,
}

} // verus!
