//! Conversion from validated ASCII bytes to an owned string.

use vstd::prelude::*;

verus! {

/// Relies on `String::from_utf8`: bytes that are all 7-bit are valid
/// UTF-8, so decoding succeeds and yields one character per byte, each
/// with the byte's code point.
#[verifier::external_body]
pub(crate) fn ascii_bytes_to_string(bytes: &Vec<u8>) -> (r: String)
    requires
        forall|i: int| 0 <= i < bytes@.len() ==> bytes@[i] < 0x80,
    ensures
        r@ == bytes@.map(|i: int, b: u8| b as char),
{
    String::from_utf8(bytes.clone()).unwrap()
}

} // verus!
