//! Word-level model and validator for the 4-byte capacity.
//!
//! A packed value is a `u32` whose byte `i` (counted from the low-order
//! end) holds character `i` of the string; unused high-order bytes are
//! zero. Every specification here is stated byte by byte, and the
//! whole-word bit formulas of the executable code are proved against it.

use vstd::prelude::*;

use crate::ascii::encode_error;
use crate::ascii::is_str_byte;
use crate::error::Error;

verus! {

/// Byte `i` (0 = first character, low-order) of a packed word.
pub open spec fn byte_at32(v: u32, i: u32) -> u8 {
    ((v >> ((8 * i) as u32)) & 0xFF) as u8
}

/// Position of the first zero byte at or after `i`; 4 when there is none.
pub open spec fn first_zero32(v: u32, i: u32) -> u32
    decreases 4 - i,
{
    if i >= 4 {
        4
    } else if byte_at32(v, i) == 0 {
        i
    } else {
        first_zero32(v, (i + 1) as u32)
    }
}

/// Logical length: the number of leading non-zero bytes.
pub open spec fn str_len32(v: u32) -> u32 {
    first_zero32(v, 0)
}

/// A validated packed word: at least one character, every populated byte
/// non-NUL and 7-bit, and nothing but zero bytes after the first zero.
pub open spec fn wf32(v: u32) -> bool {
    &&& 1 <= str_len32(v)
    &&& forall|i: u32|
        i < 4 ==> {
            &&& (i < str_len32(v) ==> is_str_byte(#[trigger] byte_at32(v, i)))
            &&& (str_len32(v) <= i ==> byte_at32(v, i) == 0)
        }
}

/// The logical bytes of a packed word: the prefix before the padding.
pub open spec fn view32(v: u32) -> Seq<u8> {
    Seq::new(str_len32(v) as nat, |i: int| byte_at32(v, i as u32))
}

/// All 4 bytes of a packed word, low-order first, padding included.
pub open spec fn padded32(v: u32) -> Seq<u8> {
    Seq::new(4, |i: int| byte_at32(v, i as u32))
}

/// Basic shape of `first_zero32`: it points past a run of non-zero bytes,
/// at a zero byte if it is in range.
pub(crate) proof fn lemma_first_zero_shape32(v: u32, i: u32)
    requires
        i <= 4,
    ensures
        i <= first_zero32(v, i) <= 4,
        forall|j: u32| i <= j < first_zero32(v, i) ==> #[trigger] byte_at32(v, j) != 0,
        first_zero32(v, i) < 4 ==> byte_at32(v, first_zero32(v, i)) == 0,
    decreases 4 - i,
{
    if i < 4 && byte_at32(v, i) != 0 {
        lemma_first_zero_shape32(v, (i + 1) as u32);
    }
}

/// `first_zero32` is determined by where the non-zero run ends.
pub(crate) proof fn lemma_first_zero_is32(v: u32, i: u32, l: u32)
    requires
        i <= l <= 4,
        forall|j: u32| i <= j < l ==> #[trigger] byte_at32(v, j) != 0,
        l < 4 ==> byte_at32(v, l) == 0,
    ensures
        first_zero32(v, i) == l,
    decreases l - i,
{
    if i < l {
        assert(byte_at32(v, i) != 0);
        lemma_first_zero_is32(v, (i + 1) as u32, l);
    }
}

/// Writing byte `i` into a word whose bytes from `i` on are zero: bytes
/// below `i` keep their value, byte `i` becomes `b`, the rest stay zero.
proof fn lemma_set_byte32(w: u32, b: u8, i: u32, j: u32)
    by (bit_vector)
    requires
        i < 4,
        j < 4,
        w >> ((8 * i) as u32) == 0,
    ensures
        byte_at32(w | ((b as u32) << ((8 * i) as u32)), j) == (if j < i {
            byte_at32(w, j)
        } else if j == i {
            b
        } else {
            0
        }),
        i + 1 < 4 ==> (w | ((b as u32) << ((8 * i) as u32))) >> ((8 * (i + 1)) as u32) == 0,
{
}

/// The two masked tests of the validator, read byte by byte: with the
/// high-bit mask over the populated bytes, `w & m` is zero exactly when
/// every populated byte is 7-bit, and then `(m - w) & m` is zero exactly
/// when every populated byte is non-NUL.
proof fn lemma_check32(w: u32, len: u32, m: u32)
    by (bit_vector)
    requires
        1 <= len <= 4,
        m == 0x8080_8080u32 >> ((8 * (4 - len)) as u32),
        len < 4 ==> w >> ((8 * len) as u32) == 0,
    ensures
        (w & m == 0) <==> ((0 < len ==> byte_at32(w, 0) < 0x80) && (1 < len ==> byte_at32(w, 1)
            < 0x80) && (2 < len ==> byte_at32(w, 2) < 0x80) && (3 < len ==> byte_at32(w, 3)
            < 0x80)),
        w & m == 0 ==> w <= m,
        w & m == 0 ==> ((((m - w) as u32) & m == 0) <==> ((0 < len ==> byte_at32(w, 0) != 0) && (1
            < len ==> byte_at32(w, 1) != 0) && (2 < len ==> byte_at32(w, 2) != 0) && (3 < len
            ==> byte_at32(w, 3) != 0))),
{
}

/// A word whose four bytes are all 7-bit has no high bit set anywhere,
/// and neither does its image under `| 0x20` per byte.
pub(crate) proof fn lemma_high_clear32(w: u32)
    by (bit_vector)
    requires
        byte_at32(w, 0) < 0x80,
        byte_at32(w, 1) < 0x80,
        byte_at32(w, 2) < 0x80,
        byte_at32(w, 3) < 0x80,
    ensures
        w & 0x8080_8080 == 0,
        w <= 0x7f7f_7f7f,
        (w | 0x2020_2020) <= 0x7f7f_7f7f,
{
}

/// A word is determined by its four bytes.
pub(crate) proof fn lemma_word_eq32(x: u32, y: u32)
    by (bit_vector)
    requires
        byte_at32(x, 0) == byte_at32(y, 0),
        byte_at32(x, 1) == byte_at32(y, 1),
        byte_at32(x, 2) == byte_at32(y, 2),
        byte_at32(x, 3) == byte_at32(y, 3),
    ensures
        x == y,
{
}

/// The all-zero word has only zero bytes.
proof fn lemma_zero_word32(j: u32)
    by (bit_vector)
    requires
        j < 4,
    ensures
        byte_at32(0u32, j) == 0,
        0u32 >> ((8 * j) as u32) == 0,
{
}

/// Extracts byte `i` of a packed word.
pub(crate) fn get_byte32(v: u32, i: usize) -> (r: u8)
    requires
        i < 4,
    ensures
        r == byte_at32(v, i as u32),
{
    ((v >> ((8 * i) as u32)) & 0xFF) as u8
}

/// Computes the logical length of a packed word.
pub(crate) fn word_len32(v: u32) -> (r: usize)
    ensures
        r == str_len32(v),
{
    let mut i: usize = 0;
    while i < 4 && get_byte32(v, i) != 0
        invariant
            i <= 4,
            forall|j: u32| j < i ==> #[trigger] byte_at32(v, j) != 0,
        decreases 4 - i,
    {
        i += 1;
    }
    proof {
        lemma_first_zero_is32(v, 0, i as u32);
    }
    i
}

/// Packs a byte slice of length 1 to 4 into a `u32`, validating that
/// every byte is non-NUL and 7-bit. Size is checked first, then the high
/// bits of all bytes at once, then NULs by the borrow trick.
pub fn try_u32_from_bytes(bytes: &[u8]) -> (r: Result<u32, Error>)
    ensures
        match r {
            Ok(w) => encode_error(bytes@, 4) is None && wf32(w) && view32(w) == bytes@,
            Err(e) => encode_error(bytes@, 4) == Some(e),
        },
{
    let len = bytes.len();
    if len < 1 || len > 4 {
        return Err(Error::InvalidSize);
    }
    let mut word: u32 = 0;
    let mut i: usize = 0;
    proof {
        assert forall|j: u32| j < 4 implies byte_at32(0u32, j) == 0 by {
            lemma_zero_word32(j);
        }
        lemma_zero_word32(0);
    }
    while i < len
        invariant
            1 <= len <= 4,
            i <= len,
            bytes@.len() == len,
            forall|j: u32| j < i ==> byte_at32(word, j) == bytes@[j as int],
            forall|j: u32| i <= j < 4 ==> #[trigger] byte_at32(word, j) == 0,
            i < 4 ==> word >> ((8 * (i as u32)) as u32) == 0,
        decreases len - i,
    {
        let b = bytes[i];
        let ghost w0 = word;
        word = word | ((b as u32) << ((8 * i) as u32));
        proof {
            assert(((8 * i) as u32) == ((8 * (i as u32)) as u32));
            assert(word == w0 | ((b as u32) << ((8 * (i as u32)) as u32)));
            assert forall|j: u32| j < 4 implies byte_at32(word, j) == (if j < i {
                byte_at32(w0, j)
            } else if j == i as u32 {
                b
            } else {
                0
            }) by {
                lemma_set_byte32(w0, b, i as u32, j);
            }
            if i + 1 < 4 {
                lemma_set_byte32(w0, b, i as u32, 0);
                assert(word >> ((8 * ((i + 1) as u32)) as u32) == 0);
            }
        }
        i += 1;
    }
    let mask: u32 = 0x8080_8080u32 >> ((8 * (4 - len)) as u32);
    proof {
        lemma_check32(word, len as u32, mask);
    }
    if (word & mask) != 0 {
        proof {
            assert(exists|k: int| 0 <= k < bytes@.len() && #[trigger] bytes@[k] >= 0x80) by {
                if !(byte_at32(word, 0) < 0x80) {
                    assert(bytes@[0] >= 0x80);
                } else if 1 < len && !(byte_at32(word, 1) < 0x80) {
                    assert(bytes@[1] >= 0x80);
                } else if 2 < len && !(byte_at32(word, 2) < 0x80) {
                    assert(bytes@[2] >= 0x80);
                } else {
                    assert(bytes@[3] >= 0x80);
                }
            }
        }
        return Err(Error::NonAscii);
    }
    assert(forall|k: int| 0 <= k < bytes@.len() ==> #[trigger] bytes@[k] < 0x80);
    if ((mask - word) & mask) != 0 {
        proof {
            assert(exists|k: int| 0 <= k < bytes@.len() && #[trigger] bytes@[k] == 0) by {
                if byte_at32(word, 0) == 0 {
                    assert(bytes@[0] == 0);
                } else if 1 < len && byte_at32(word, 1) == 0 {
                    assert(bytes@[1] == 0);
                } else if 2 < len && byte_at32(word, 2) == 0 {
                    assert(bytes@[2] == 0);
                } else {
                    assert(bytes@[3] == 0);
                }
            }
        }
        return Err(Error::InvalidNull);
    }
    proof {
        assert(forall|k: int| 0 <= k < bytes@.len() ==> #[trigger] bytes@[k] != 0);
        lemma_first_zero_is32(word, 0, len as u32);
        assert(view32(word) =~= bytes@);
    }
    Ok(word)
}

} // verus!
