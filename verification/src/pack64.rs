//! Word-level model and validator for the 8-byte capacity.
//!
//! A packed value is a `u64` whose byte `i` (counted from the low-order
//! end) holds character `i` of the string; unused high-order bytes are
//! zero. Every specification here is stated byte by byte, and the
//! whole-word bit formulas of the executable code are proved against it.

use vstd::prelude::*;

use crate::ascii::encode_error;
use crate::ascii::is_str_byte;
use crate::error::Error;

verus! {

/// Byte `i` (0 = first character, low-order) of a packed word.
pub open spec fn byte_at64(v: u64, i: u64) -> u8 {
    ((v >> ((8 * i) as u64)) & 0xFF) as u8
}

/// Position of the first zero byte at or after `i`; 8 when there is none.
pub open spec fn first_zero64(v: u64, i: u64) -> u64
    decreases 8 - i,
{
    if i >= 8 {
        8
    } else if byte_at64(v, i) == 0 {
        i
    } else {
        first_zero64(v, (i + 1) as u64)
    }
}

/// Logical length: the number of leading non-zero bytes.
pub open spec fn str_len64(v: u64) -> u64 {
    first_zero64(v, 0)
}

/// A validated packed word: at least one character, every populated byte
/// non-NUL and 7-bit, and nothing but zero bytes after the first zero.
pub open spec fn wf64(v: u64) -> bool {
    &&& 1 <= str_len64(v)
    &&& forall|i: u64|
        i < 8 ==> {
            &&& (i < str_len64(v) ==> is_str_byte(#[trigger] byte_at64(v, i)))
            &&& (str_len64(v) <= i ==> byte_at64(v, i) == 0)
        }
}

/// The logical bytes of a packed word: the prefix before the padding.
pub open spec fn view64(v: u64) -> Seq<u8> {
    Seq::new(str_len64(v) as nat, |i: int| byte_at64(v, i as u64))
}

/// All 8 bytes of a packed word, low-order first, padding included.
pub open spec fn padded64(v: u64) -> Seq<u8> {
    Seq::new(8, |i: int| byte_at64(v, i as u64))
}

/// Basic shape of `first_zero64`: it points past a run of non-zero bytes,
/// at a zero byte if it is in range.
pub(crate) proof fn lemma_first_zero_shape64(v: u64, i: u64)
    requires
        i <= 8,
    ensures
        i <= first_zero64(v, i) <= 8,
        forall|j: u64| i <= j < first_zero64(v, i) ==> #[trigger] byte_at64(v, j) != 0,
        first_zero64(v, i) < 8 ==> byte_at64(v, first_zero64(v, i)) == 0,
    decreases 8 - i,
{
    if i < 8 && byte_at64(v, i) != 0 {
        lemma_first_zero_shape64(v, (i + 1) as u64);
    }
}

/// `first_zero64` is determined by where the non-zero run ends.
pub(crate) proof fn lemma_first_zero_is64(v: u64, i: u64, l: u64)
    requires
        i <= l <= 8,
        forall|j: u64| i <= j < l ==> #[trigger] byte_at64(v, j) != 0,
        l < 8 ==> byte_at64(v, l) == 0,
    ensures
        first_zero64(v, i) == l,
    decreases l - i,
{
    if i < l {
        assert(byte_at64(v, i) != 0);
        lemma_first_zero_is64(v, (i + 1) as u64, l);
    }
}

/// Writing byte `i` into a word whose bytes from `i` on are zero: bytes
/// below `i` keep their value, byte `i` becomes `b`, the rest stay zero.
proof fn lemma_set_byte64(w: u64, b: u8, i: u64, j: u64)
    by (bit_vector)
    requires
        i < 8,
        j < 8,
        w >> ((8 * i) as u64) == 0,
    ensures
        byte_at64(w | ((b as u64) << ((8 * i) as u64)), j) == (if j < i {
            byte_at64(w, j)
        } else if j == i {
            b
        } else {
            0
        }),
        i + 1 < 8 ==> (w | ((b as u64) << ((8 * i) as u64))) >> ((8 * (i + 1)) as u64) == 0,
{
}

/// The two masked tests of the validator, read byte by byte: with the
/// high-bit mask over the populated bytes, `w & m` is zero exactly when
/// every populated byte is 7-bit, and then `(m - w) & m` is zero exactly
/// when every populated byte is non-NUL.
proof fn lemma_check64(w: u64, len: u64, m: u64)
    by (bit_vector)
    requires
        1 <= len <= 8,
        m == 0x8080_8080_8080_8080u64 >> ((8 * (8 - len)) as u64),
        len < 8 ==> w >> ((8 * len) as u64) == 0,
    ensures
        (w & m == 0) <==> ((0 < len ==> byte_at64(w, 0) < 0x80) && (1 < len ==> byte_at64(w, 1) < 0x80) && (2 < len ==> byte_at64(w, 2) < 0x80) && (3 < len ==> byte_at64(w, 3) < 0x80) && (4 < len ==> byte_at64(w, 4) < 0x80) && (5 < len ==> byte_at64(w, 5) < 0x80) && (6 < len ==> byte_at64(w, 6) < 0x80) && (7 < len ==> byte_at64(w, 7) < 0x80)),
        w & m == 0 ==> w <= m,
        w & m == 0 ==> ((((m - w) as u64) & m == 0) <==> ((0 < len ==> byte_at64(w, 0) != 0) && (1 < len ==> byte_at64(w, 1) != 0) && (2 < len ==> byte_at64(w, 2) != 0) && (3 < len ==> byte_at64(w, 3) != 0) && (4 < len ==> byte_at64(w, 4) != 0) && (5 < len ==> byte_at64(w, 5) != 0) && (6 < len ==> byte_at64(w, 6) != 0) && (7 < len ==> byte_at64(w, 7) != 0))),
{
}

/// A word whose eight bytes are all 7-bit has no high bit set anywhere,
/// and neither does its image under `| 0x20` per byte.
pub(crate) proof fn lemma_high_clear64(w: u64)
    by (bit_vector)
    requires
        byte_at64(w, 0) < 0x80,
        byte_at64(w, 1) < 0x80,
        byte_at64(w, 2) < 0x80,
        byte_at64(w, 3) < 0x80,
        byte_at64(w, 4) < 0x80,
        byte_at64(w, 5) < 0x80,
        byte_at64(w, 6) < 0x80,
        byte_at64(w, 7) < 0x80,
    ensures
        w & 0x8080_8080_8080_8080 == 0,
        w <= 0x7f7f_7f7f_7f7f_7f7f,
        (w | 0x2020_2020_2020_2020) <= 0x7f7f_7f7f_7f7f_7f7f,
{
}

/// A word is determined by its eight bytes.
pub(crate) proof fn lemma_word_eq64(x: u64, y: u64)
    by (bit_vector)
    requires
        byte_at64(x, 0) == byte_at64(y, 0),
        byte_at64(x, 1) == byte_at64(y, 1),
        byte_at64(x, 2) == byte_at64(y, 2),
        byte_at64(x, 3) == byte_at64(y, 3),
        byte_at64(x, 4) == byte_at64(y, 4),
        byte_at64(x, 5) == byte_at64(y, 5),
        byte_at64(x, 6) == byte_at64(y, 6),
        byte_at64(x, 7) == byte_at64(y, 7),
    ensures
        x == y,
{
}

/// The all-zero word has only zero bytes.
proof fn lemma_zero_word64(j: u64)
    by (bit_vector)
    requires
        j < 8,
    ensures
        byte_at64(0u64, j) == 0,
        0u64 >> ((8 * j) as u64) == 0,
{
}

/// Extracts byte `i` of a packed word.
pub(crate) fn get_byte64(v: u64, i: usize) -> (r: u8)
    requires
        i < 8,
    ensures
        r == byte_at64(v, i as u64),
{
    ((v >> ((8 * i) as u64)) & 0xFF) as u8
}

/// Computes the logical length of a packed word.
pub(crate) fn word_len64(v: u64) -> (r: usize)
    ensures
        r == str_len64(v),
{
    let mut i: usize = 0;
    while i < 8 && get_byte64(v, i) != 0
        invariant
            i <= 8,
            forall|j: u64| j < i ==> #[trigger] byte_at64(v, j) != 0,
        decreases 8 - i,
    {
        i += 1;
    }
    proof {
        lemma_first_zero_is64(v, 0, i as u64);
    }
    i
}

/// Packs a byte slice of length 1 to 8 into a `u64`, validating that
/// every byte is non-NUL and 7-bit. Size is checked first, then the high
/// bits of all bytes at once, then NULs by the borrow trick.
pub fn try_u64_from_bytes(bytes: &[u8]) -> (r: Result<u64, Error>)
    ensures
        match r {
            Ok(w) => encode_error(bytes@, 8) is None && wf64(w) && view64(w) == bytes@,
            Err(e) => encode_error(bytes@, 8) == Some(e),
        },
{
    let len = bytes.len();
    if len < 1 || len > 8 {
        return Err(Error::InvalidSize);
    }
    let mut word: u64 = 0;
    let mut i: usize = 0;
    proof {
        assert forall|j: u64| j < 8 implies byte_at64(0u64, j) == 0 by {
            lemma_zero_word64(j);
        }
        lemma_zero_word64(0);
    }
    while i < len
        invariant
            1 <= len <= 8,
            i <= len,
            bytes@.len() == len,
            forall|j: u64| j < i ==> byte_at64(word, j) == bytes@[j as int],
            forall|j: u64| i <= j < 8 ==> #[trigger] byte_at64(word, j) == 0,
            i < 8 ==> word >> ((8 * (i as u64)) as u64) == 0,
        decreases len - i,
    {
        let b = bytes[i];
        let ghost w0 = word;
        word = word | ((b as u64) << ((8 * i) as u64));
        proof {
            assert(((8 * i) as u64) == ((8 * (i as u64)) as u64));
            assert(word == w0 | ((b as u64) << ((8 * (i as u64)) as u64)));
            assert forall|j: u64| j < 8 implies byte_at64(word, j) == (if j < i {
                byte_at64(w0, j)
            } else if j == i as u64 {
                b
            } else {
                0
            }) by {
                lemma_set_byte64(w0, b, i as u64, j);
            }
            if i + 1 < 8 {
                lemma_set_byte64(w0, b, i as u64, 0);
                assert(word >> ((8 * ((i + 1) as u64)) as u64) == 0);
            }
        }
        i += 1;
    }
    let mask: u64 = 0x8080_8080_8080_8080u64 >> ((8 * (8 - len)) as u64);
    proof {
        lemma_check64(word, len as u64, mask);
    }
    if (word & mask) != 0 {
        proof {
            assert(exists|k: int| 0 <= k < bytes@.len() && #[trigger] bytes@[k] >= 0x80) by {
                if !(byte_at64(word, 0) < 0x80) {
                    assert(bytes@[0] >= 0x80);
                } else if 1 < len && !(byte_at64(word, 1) < 0x80) {
                    assert(bytes@[1] >= 0x80);
                } else if 2 < len && !(byte_at64(word, 2) < 0x80) {
                    assert(bytes@[2] >= 0x80);
                } else if 3 < len && !(byte_at64(word, 3) < 0x80) {
                    assert(bytes@[3] >= 0x80);
                } else if 4 < len && !(byte_at64(word, 4) < 0x80) {
                    assert(bytes@[4] >= 0x80);
                } else if 5 < len && !(byte_at64(word, 5) < 0x80) {
                    assert(bytes@[5] >= 0x80);
                } else if 6 < len && !(byte_at64(word, 6) < 0x80) {
                    assert(bytes@[6] >= 0x80);
                } else {
                    assert(bytes@[7] >= 0x80);
                }
            }
        }
        return Err(Error::NonAscii);
    }
    assert(forall|k: int| 0 <= k < bytes@.len() ==> #[trigger] bytes@[k] < 0x80);
    if ((mask - word) & mask) != 0 {
        proof {
            assert(exists|k: int| 0 <= k < bytes@.len() && #[trigger] bytes@[k] == 0) by {
                if byte_at64(word, 0) == 0 {
                    assert(bytes@[0] == 0);
                } else if 1 < len && byte_at64(word, 1) == 0 {
                    assert(bytes@[1] == 0);
                } else if 2 < len && byte_at64(word, 2) == 0 {
                    assert(bytes@[2] == 0);
                } else if 3 < len && byte_at64(word, 3) == 0 {
                    assert(bytes@[3] == 0);
                } else if 4 < len && byte_at64(word, 4) == 0 {
                    assert(bytes@[4] == 0);
                } else if 5 < len && byte_at64(word, 5) == 0 {
                    assert(bytes@[5] == 0);
                } else if 6 < len && byte_at64(word, 6) == 0 {
                    assert(bytes@[6] == 0);
                } else {
                    assert(bytes@[7] == 0);
                }
            }
        }
        return Err(Error::InvalidNull);
    }
    proof {
        assert(forall|k: int| 0 <= k < bytes@.len() ==> #[trigger] bytes@[k] != 0);
        lemma_first_zero_is64(word, 0, len as u64);
        assert(view64(word) =~= bytes@);
    }
    Ok(word)
}

} // verus!
