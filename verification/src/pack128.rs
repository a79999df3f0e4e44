//! Word-level model and validator for the 16-byte capacity.
//!
//! A packed value is a `u128` whose byte `i` (counted from the low-order
//! end) holds character `i` of the string; unused high-order bytes are
//! zero. Every specification here is stated byte by byte, and the
//! whole-word bit formulas of the executable code are proved against it.

use vstd::prelude::*;

use crate::ascii::encode_error;
use crate::ascii::is_str_byte;
use crate::error::Error;

verus! {

/// Byte `i` (0 = first character, low-order) of a packed word.
pub open spec fn byte_at128(v: u128, i: u128) -> u8 {
    ((v >> ((8 * i) as u128)) & 0xFF) as u8
}

/// Position of the first zero byte at or after `i`; 16 when there is none.
pub open spec fn first_zero128(v: u128, i: u128) -> u128
    decreases 16 - i,
{
    if i >= 16 {
        16
    } else if byte_at128(v, i) == 0 {
        i
    } else {
        first_zero128(v, (i + 1) as u128)
    }
}

/// Logical length: the number of leading non-zero bytes.
pub open spec fn str_len128(v: u128) -> u128 {
    first_zero128(v, 0)
}

/// A validated packed word: at least one character, every populated byte
/// non-NUL and 7-bit, and nothing but zero bytes after the first zero.
pub open spec fn wf128(v: u128) -> bool {
    &&& 1 <= str_len128(v)
    &&& forall|i: u128|
        i < 16 ==> {
            &&& (i < str_len128(v) ==> is_str_byte(#[trigger] byte_at128(v, i)))
            &&& (str_len128(v) <= i ==> byte_at128(v, i) == 0)
        }
}

/// The logical bytes of a packed word: the prefix before the padding.
pub open spec fn view128(v: u128) -> Seq<u8> {
    Seq::new(str_len128(v) as nat, |i: int| byte_at128(v, i as u128))
}

/// All 16 bytes of a packed word, low-order first, padding included.
pub open spec fn padded128(v: u128) -> Seq<u8> {
    Seq::new(16, |i: int| byte_at128(v, i as u128))
}

/// Basic shape of `first_zero128`: it points past a run of non-zero bytes,
/// at a zero byte if it is in range.
pub(crate) proof fn lemma_first_zero_shape128(v: u128, i: u128)
    requires
        i <= 16,
    ensures
        i <= first_zero128(v, i) <= 16,
        forall|j: u128| i <= j < first_zero128(v, i) ==> #[trigger] byte_at128(v, j) != 0,
        first_zero128(v, i) < 16 ==> byte_at128(v, first_zero128(v, i)) == 0,
    decreases 16 - i,
{
    if i < 16 && byte_at128(v, i) != 0 {
        lemma_first_zero_shape128(v, (i + 1) as u128);
    }
}

/// `first_zero128` is determined by where the non-zero run ends.
pub(crate) proof fn lemma_first_zero_is128(v: u128, i: u128, l: u128)
    requires
        i <= l <= 16,
        forall|j: u128| i <= j < l ==> #[trigger] byte_at128(v, j) != 0,
        l < 16 ==> byte_at128(v, l) == 0,
    ensures
        first_zero128(v, i) == l,
    decreases l - i,
{
    if i < l {
        assert(byte_at128(v, i) != 0);
        lemma_first_zero_is128(v, (i + 1) as u128, l);
    }
}

/// Writing byte `i` into a word whose bytes from `i` on are zero: bytes
/// below `i` keep their value, byte `i` becomes `b`, the rest stay zero.
proof fn lemma_set_byte128(w: u128, b: u8, i: u128, j: u128)
    by (bit_vector)
    requires
        i < 16,
        j < 16,
        w >> ((8 * i) as u128) == 0,
    ensures
        byte_at128(w | ((b as u128) << ((8 * i) as u128)), j) == (if j < i {
            byte_at128(w, j)
        } else if j == i {
            b
        } else {
            0
        }),
        i + 1 < 16 ==> (w | ((b as u128) << ((8 * i) as u128))) >> ((8 * (i + 1)) as u128) == 0,
{
}

/// The two masked tests of the validator, read byte by byte: with the
/// high-bit mask over the populated bytes, `w & m` is zero exactly when
/// every populated byte is 7-bit, and then `(m - w) & m` is zero exactly
/// when every populated byte is non-NUL.
proof fn lemma_check128(w: u128, len: u128, m: u128)
    by (bit_vector)
    requires
        1 <= len <= 16,
        m == 0x8080_8080_8080_8080_8080_8080_8080_8080u128 >> ((8 * (16 - len)) as u128),
        len < 16 ==> w >> ((8 * len) as u128) == 0,
    ensures
        (w & m == 0) <==> ((0 < len ==> byte_at128(w, 0) < 0x80) && (1 < len ==> byte_at128(w, 1) < 0x80) && (2 < len ==> byte_at128(w, 2) < 0x80) && (3 < len ==> byte_at128(w, 3) < 0x80) && (4 < len ==> byte_at128(w, 4) < 0x80) && (5 < len ==> byte_at128(w, 5) < 0x80) && (6 < len ==> byte_at128(w, 6) < 0x80) && (7 < len ==> byte_at128(w, 7) < 0x80) && (8 < len ==> byte_at128(w, 8) < 0x80) && (9 < len ==> byte_at128(w, 9) < 0x80) && (10 < len ==> byte_at128(w, 10) < 0x80) && (11 < len ==> byte_at128(w, 11) < 0x80) && (12 < len ==> byte_at128(w, 12) < 0x80) && (13 < len ==> byte_at128(w, 13) < 0x80) && (14 < len ==> byte_at128(w, 14) < 0x80) && (15 < len ==> byte_at128(w, 15) < 0x80)),
        w & m == 0 ==> w <= m,
        w & m == 0 ==> ((((m - w) as u128) & m == 0) <==> ((0 < len ==> byte_at128(w, 0) != 0) && (1 < len ==> byte_at128(w, 1) != 0) && (2 < len ==> byte_at128(w, 2) != 0) && (3 < len ==> byte_at128(w, 3) != 0) && (4 < len ==> byte_at128(w, 4) != 0) && (5 < len ==> byte_at128(w, 5) != 0) && (6 < len ==> byte_at128(w, 6) != 0) && (7 < len ==> byte_at128(w, 7) != 0) && (8 < len ==> byte_at128(w, 8) != 0) && (9 < len ==> byte_at128(w, 9) != 0) && (10 < len ==> byte_at128(w, 10) != 0) && (11 < len ==> byte_at128(w, 11) != 0) && (12 < len ==> byte_at128(w, 12) != 0) && (13 < len ==> byte_at128(w, 13) != 0) && (14 < len ==> byte_at128(w, 14) != 0) && (15 < len ==> byte_at128(w, 15) != 0))),
{
}

/// A word whose sixteen bytes are all 7-bit has no high bit set anywhere,
/// and neither does its image under `| 0x20` per byte.
pub(crate) proof fn lemma_high_clear128(w: u128)
    by (bit_vector)
    requires
        byte_at128(w, 0) < 0x80,
        byte_at128(w, 1) < 0x80,
        byte_at128(w, 2) < 0x80,
        byte_at128(w, 3) < 0x80,
        byte_at128(w, 4) < 0x80,
        byte_at128(w, 5) < 0x80,
        byte_at128(w, 6) < 0x80,
        byte_at128(w, 7) < 0x80,
        byte_at128(w, 8) < 0x80,
        byte_at128(w, 9) < 0x80,
        byte_at128(w, 10) < 0x80,
        byte_at128(w, 11) < 0x80,
        byte_at128(w, 12) < 0x80,
        byte_at128(w, 13) < 0x80,
        byte_at128(w, 14) < 0x80,
        byte_at128(w, 15) < 0x80,
    ensures
        w & 0x8080_8080_8080_8080_8080_8080_8080_8080 == 0,
        w <= 0x7f7f_7f7f_7f7f_7f7f_7f7f_7f7f_7f7f_7f7f,
        (w | 0x2020_2020_2020_2020_2020_2020_2020_2020) <= 0x7f7f_7f7f_7f7f_7f7f_7f7f_7f7f_7f7f_7f7f,
{
}

/// A word is determined by its sixteen bytes.
pub(crate) proof fn lemma_word_eq128(x: u128, y: u128)
    by (bit_vector)
    requires
        byte_at128(x, 0) == byte_at128(y, 0),
        byte_at128(x, 1) == byte_at128(y, 1),
        byte_at128(x, 2) == byte_at128(y, 2),
        byte_at128(x, 3) == byte_at128(y, 3),
        byte_at128(x, 4) == byte_at128(y, 4),
        byte_at128(x, 5) == byte_at128(y, 5),
        byte_at128(x, 6) == byte_at128(y, 6),
        byte_at128(x, 7) == byte_at128(y, 7),
        byte_at128(x, 8) == byte_at128(y, 8),
        byte_at128(x, 9) == byte_at128(y, 9),
        byte_at128(x, 10) == byte_at128(y, 10),
        byte_at128(x, 11) == byte_at128(y, 11),
        byte_at128(x, 12) == byte_at128(y, 12),
        byte_at128(x, 13) == byte_at128(y, 13),
        byte_at128(x, 14) == byte_at128(y, 14),
        byte_at128(x, 15) == byte_at128(y, 15),
    ensures
        x == y,
{
}

/// The all-zero word has only zero bytes.
proof fn lemma_zero_word128(j: u128)
    by (bit_vector)
    requires
        j < 16,
    ensures
        byte_at128(0u128, j) == 0,
        0u128 >> ((8 * j) as u128) == 0,
{
}

/// Extracts byte `i` of a packed word.
pub(crate) fn get_byte128(v: u128, i: usize) -> (r: u8)
    requires
        i < 16,
    ensures
        r == byte_at128(v, i as u128),
{
    ((v >> ((8 * i) as u128)) & 0xFF) as u8
}

/// Computes the logical length of a packed word.
pub(crate) fn word_len128(v: u128) -> (r: usize)
    ensures
        r == str_len128(v),
{
    let mut i: usize = 0;
    while i < 16 && get_byte128(v, i) != 0
        invariant
            i <= 16,
            forall|j: u128| j < i ==> #[trigger] byte_at128(v, j) != 0,
        decreases 16 - i,
    {
        i += 1;
    }
    proof {
        lemma_first_zero_is128(v, 0, i as u128);
    }
    i
}

/// Packs a byte slice of length 1 to 16 into a `u128`, validating that
/// every byte is non-NUL and 7-bit. Size is checked first, then the high
/// bits of all bytes at once, then NULs by the borrow trick.
pub fn try_u128_from_bytes(bytes: &[u8]) -> (r: Result<u128, Error>)
    ensures
        match r {
            Ok(w) => encode_error(bytes@, 16) is None && wf128(w) && view128(w) == bytes@,
            Err(e) => encode_error(bytes@, 16) == Some(e),
        },
{
    let len = bytes.len();
    if len < 1 || len > 16 {
        return Err(Error::InvalidSize);
    }
    let mut word: u128 = 0;
    let mut i: usize = 0;
    proof {
        assert forall|j: u128| j < 16 implies byte_at128(0u128, j) == 0 by {
            lemma_zero_word128(j);
        }
        lemma_zero_word128(0);
    }
    while i < len
        invariant
            1 <= len <= 16,
            i <= len,
            bytes@.len() == len,
            forall|j: u128| j < i ==> byte_at128(word, j) == bytes@[j as int],
            forall|j: u128| i <= j < 16 ==> #[trigger] byte_at128(word, j) == 0,
            i < 16 ==> word >> ((8 * (i as u128)) as u128) == 0,
        decreases len - i,
    {
        let b = bytes[i];
        let ghost w0 = word;
        word = word | ((b as u128) << ((8 * i) as u128));
        proof {
            assert(((8 * i) as u128) == ((8 * (i as u128)) as u128));
            assert(word == w0 | ((b as u128) << ((8 * (i as u128)) as u128)));
            assert forall|j: u128| j < 16 implies byte_at128(word, j) == (if j < i {
                byte_at128(w0, j)
            } else if j == i as u128 {
                b
            } else {
                0
            }) by {
                lemma_set_byte128(w0, b, i as u128, j);
            }
            if i + 1 < 16 {
                lemma_set_byte128(w0, b, i as u128, 0);
                assert(word >> ((8 * ((i + 1) as u128)) as u128) == 0);
            }
        }
        i += 1;
    }
    let mask: u128 = 0x8080_8080_8080_8080_8080_8080_8080_8080u128 >> ((8 * (16 - len)) as u128);
    proof {
        lemma_check128(word, len as u128, mask);
    }
    if (word & mask) != 0 {
        proof {
            assert(exists|k: int| 0 <= k < bytes@.len() && #[trigger] bytes@[k] >= 0x80) by {
                if !(byte_at128(word, 0) < 0x80) {
                    assert(bytes@[0] >= 0x80);
                } else if 1 < len && !(byte_at128(word, 1) < 0x80) {
                    assert(bytes@[1] >= 0x80);
                } else if 2 < len && !(byte_at128(word, 2) < 0x80) {
                    assert(bytes@[2] >= 0x80);
                } else if 3 < len && !(byte_at128(word, 3) < 0x80) {
                    assert(bytes@[3] >= 0x80);
                } else if 4 < len && !(byte_at128(word, 4) < 0x80) {
                    assert(bytes@[4] >= 0x80);
                } else if 5 < len && !(byte_at128(word, 5) < 0x80) {
                    assert(bytes@[5] >= 0x80);
                } else if 6 < len && !(byte_at128(word, 6) < 0x80) {
                    assert(bytes@[6] >= 0x80);
                } else if 7 < len && !(byte_at128(word, 7) < 0x80) {
                    assert(bytes@[7] >= 0x80);
                } else if 8 < len && !(byte_at128(word, 8) < 0x80) {
                    assert(bytes@[8] >= 0x80);
                } else if 9 < len && !(byte_at128(word, 9) < 0x80) {
                    assert(bytes@[9] >= 0x80);
                } else if 10 < len && !(byte_at128(word, 10) < 0x80) {
                    assert(bytes@[10] >= 0x80);
                } else if 11 < len && !(byte_at128(word, 11) < 0x80) {
                    assert(bytes@[11] >= 0x80);
                } else if 12 < len && !(byte_at128(word, 12) < 0x80) {
                    assert(bytes@[12] >= 0x80);
                } else if 13 < len && !(byte_at128(word, 13) < 0x80) {
                    assert(bytes@[13] >= 0x80);
                } else if 14 < len && !(byte_at128(word, 14) < 0x80) {
                    assert(bytes@[14] >= 0x80);
                } else {
                    assert(bytes@[15] >= 0x80);
                }
            }
        }
        return Err(Error::NonAscii);
    }
    assert(forall|k: int| 0 <= k < bytes@.len() ==> #[trigger] bytes@[k] < 0x80);
    if ((mask - word) & mask) != 0 {
        proof {
            assert(exists|k: int| 0 <= k < bytes@.len() && #[trigger] bytes@[k] == 0) by {
                if byte_at128(word, 0) == 0 {
                    assert(bytes@[0] == 0);
                } else if 1 < len && byte_at128(word, 1) == 0 {
                    assert(bytes@[1] == 0);
                } else if 2 < len && byte_at128(word, 2) == 0 {
                    assert(bytes@[2] == 0);
                } else if 3 < len && byte_at128(word, 3) == 0 {
                    assert(bytes@[3] == 0);
                } else if 4 < len && byte_at128(word, 4) == 0 {
                    assert(bytes@[4] == 0);
                } else if 5 < len && byte_at128(word, 5) == 0 {
                    assert(bytes@[5] == 0);
                } else if 6 < len && byte_at128(word, 6) == 0 {
                    assert(bytes@[6] == 0);
                } else if 7 < len && byte_at128(word, 7) == 0 {
                    assert(bytes@[7] == 0);
                } else if 8 < len && byte_at128(word, 8) == 0 {
                    assert(bytes@[8] == 0);
                } else if 9 < len && byte_at128(word, 9) == 0 {
                    assert(bytes@[9] == 0);
                } else if 10 < len && byte_at128(word, 10) == 0 {
                    assert(bytes@[10] == 0);
                } else if 11 < len && byte_at128(word, 11) == 0 {
                    assert(bytes@[11] == 0);
                } else if 12 < len && byte_at128(word, 12) == 0 {
                    assert(bytes@[12] == 0);
                } else if 13 < len && byte_at128(word, 13) == 0 {
                    assert(bytes@[13] == 0);
                } else if 14 < len && byte_at128(word, 14) == 0 {
                    assert(bytes@[14] == 0);
                } else {
                    assert(bytes@[15] == 0);
                }
            }
        }
        return Err(Error::InvalidNull);
    }
    proof {
        assert(forall|k: int| 0 <= k < bytes@.len() ==> #[trigger] bytes@[k] != 0);
        lemma_first_zero_is128(word, 0, len as u128);
        assert(view128(word) =~= bytes@);
    }
    Ok(word)
}

} // verus!
