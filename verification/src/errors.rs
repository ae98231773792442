//! The two error types of the crate: one for a failed platform query, one for
//! a malformed textual MAC address.

use vstd::prelude::*;

verus! {

/// Possible errors when attempting to retrieve a MAC address.
#[derive(Debug)]
pub enum MacAddressError {
    /// Signifies an internal API error has occurred.
    InternalError,
}

impl MacAddressError {
    /// A short human-readable description of the error.
    pub fn message(&self) -> (r: &'static str)
        ensures
            r@ == "Internal API error"@,
    {
        "Internal API error"
    }
}

/// An error that may occur when parsing a MAC address string.
#[derive(Copy, Clone, Debug, Eq, PartialEq, Hash)]
pub enum MacParseError {
    /// Parsing of the MAC address contained an invalid digit.
    InvalidDigit,
    /// The MAC address did not have the correct length.
    InvalidLength,
}

impl MacParseError {
    /// A short human-readable description of the error.
    pub fn message(&self) -> (r: &'static str)
        ensures
            self is InvalidDigit ==> r@ == "invalid digit"@,
            self is InvalidLength ==> r@ == "invalid length"@,
    {
        match self {
            MacParseError::InvalidDigit => "invalid digit",
            MacParseError::InvalidLength => "invalid length",
        }
    }
}

} // verus!
