//! The failure kinds shared by every validating constructor.

use vstd::prelude::*;

verus! {

/// Why parsing a byte sequence into a packed string failed.
#[derive(Clone, Copy, PartialEq, Eq, Structural, Debug)]
pub enum Error {
    /// The input is empty or longer than the target capacity.
    InvalidSize,
    /// The input contains a NUL byte before its logical end.
    InvalidNull,
    /// The input contains a byte with the high bit set.
    NonAscii,
}

impl Error {
    /// A human-readable description of the failure.
    pub fn message(&self) -> (r: String)
        ensures
            r@ == match self {
                Error::InvalidSize => "invalid size"@,
                Error::InvalidNull => "string is empty"@,
                Error::NonAscii => "contains non-ASCII"@,
            },
    {
        match self {
            Error::InvalidSize => String::from_str("invalid size"),
            Error::InvalidNull => String::from_str("string is empty"),
            Error::NonAscii => String::from_str("contains non-ASCII"),
        }
    }
}

} // verus!
