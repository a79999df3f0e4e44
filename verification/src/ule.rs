//! Bulk adapter: a contiguous byte buffer read and written as an array
//! of fixed-width packed values.
//!
//! Each element occupies its full capacity in the buffer, zero-padded;
//! on parsing, the bytes of each element before its first NUL are
//! validated like any other input, and the whole buffer is rejected at
//! the first invalid element.

use vstd::prelude::*;

use crate::ascii::encode_error;
use crate::ascii::lemma_first_nul_is;
use crate::ascii::nul_prefix;
use crate::error::Error;
use crate::pack128::byte_at128;
use crate::pack128::get_byte128;
use crate::pack128::lemma_first_zero_shape128;
use crate::pack128::padded128;
use crate::pack128::str_len128;
use crate::pack128::view128;
use crate::pack128::wf128;
use crate::pack32::byte_at32;
use crate::pack32::get_byte32;
use crate::pack32::lemma_first_zero_shape32;
use crate::pack32::padded32;
use crate::pack32::str_len32;
use crate::pack32::view32;
use crate::pack32::wf32;
use crate::pack64::byte_at64;
use crate::pack64::get_byte64;
use crate::pack64::lemma_first_zero_shape64;
use crate::pack64::padded64;
use crate::pack64::str_len64;
use crate::pack64::view64;
use crate::pack64::wf64;
use crate::tinystr16::TinyStr16;
use crate::tinystr4::TinyStr4;
use crate::tinystr8::TinyStr8;

verus! {

/// Chunk `i` of a buffer cut into pieces of `w` bytes.
pub open spec fn chunk(s: Seq<u8>, w: int, i: int) -> Seq<u8> {
    s.subrange(w * i, w * i + w)
}

/// The bytes of one chunk before its first NUL.
pub(crate) fn chunk_prefix(bytes: &[u8], start: usize, width: usize) -> (r: Vec<u8>)
    requires
        start + width <= bytes@.len(),
    ensures
        r@ == nul_prefix(bytes@.subrange(start as int, (start + width) as int)),
{
    let blen = bytes.len();
    let ghost c = bytes@.subrange(start as int, (start + width) as int);
    let mut k: usize = 0;
    while k < width && bytes[start + k] != 0
        invariant
            start + width <= bytes@.len(),
            bytes@.len() <= usize::MAX,
            k <= width,
            c == bytes@.subrange(start as int, (start + width) as int),
            forall|j: int| 0 <= j < k ==> c[j] != 0,
        decreases width - k,
    {
        k += 1;
    }
    proof {
        lemma_first_nul_is(c, 0, k as int);
    }
    let mut r: Vec<u8> = Vec::new();
    let mut j: usize = 0;
    while j < k
        invariant
            start + width <= bytes@.len(),
            bytes@.len() <= usize::MAX,
            k <= width,
            c == bytes@.subrange(start as int, (start + width) as int),
            j <= k,
            r@.len() == j,
            forall|l: int| 0 <= l < j ==> r@[l] == c[l],
        decreases k - j,
    {
        r.push(bytes[start + j]);
        j += 1;
    }
    proof {
        assert(r@ =~= nul_prefix(c));
    }
    r
}

/// Parses a buffer as an array of TinyStr4 values, 4 bytes each, each
/// validated on its bytes before the first NUL; trailing bytes that do
/// not fill a chunk are ignored, and the first invalid element rejects
/// the whole buffer.
pub fn parse_byte_slice4(bytes: &[u8]) -> (r: Result<Vec<TinyStr4>, Error>)
    ensures
        match r {
            Ok(v) => {
                &&& v@.len() == bytes@.len() / 4
                &&& forall|i: int|
                    0 <= i < v@.len() ==> encode_error(
                        nul_prefix(#[trigger] chunk(bytes@, 4, i)),
                        4,
                    ) is None
                &&& forall|i: int|
                    0 <= i < v@.len() ==> (#[trigger] v@[i])@ == nul_prefix(chunk(bytes@, 4, i))
            },
            Err(e) => exists|i: int|
                0 <= i < bytes@.len() / 4 && encode_error(
                    nul_prefix(#[trigger] chunk(bytes@, 4, i)),
                    4,
                ) == Some(e) && (forall|j: int|
                    0 <= j < i ==> encode_error(nul_prefix(#[trigger] chunk(bytes@, 4, j)), 4)
                        is None),
        },
{
    let n = bytes.len() / 4;
    let mut out: Vec<TinyStr4> = Vec::new();
    let mut i: usize = 0;
    while i < n
        invariant
            n == bytes@.len() / 4,
            4 * n <= bytes@.len(),
            bytes@.len() <= usize::MAX,
            i <= n,
            out@.len() == i,
            forall|j: int|
                0 <= j < i ==> encode_error(nul_prefix(#[trigger] chunk(bytes@, 4, j)), 4) is None,
            forall|j: int|
                0 <= j < i ==> (#[trigger] out@[j])@ == nul_prefix(chunk(bytes@, 4, j)),
        decreases n - i,
    {
        let prefix = chunk_prefix(bytes, 4 * i, 4);
        proof {
            assert(prefix@ == nul_prefix(chunk(bytes@, 4, i as int)));
        }
        match TinyStr4::from_bytes(prefix.as_slice()) {
            Ok(t) => {
                out.push(t);
            },
            Err(e) => {
                return Err(e);
            },
        }
        i += 1;
    }
    Ok(out)
}

/// Writes an array of TinyStr4 values as a contiguous buffer, 4 bytes
/// per element, zero-padded.
pub fn as_byte_slice4(items: &[TinyStr4]) -> (r: Vec<u8>)
    ensures
        r@.len() == 4 * items@.len(),
        forall|i: int|
            0 <= i < items@.len() ==> chunk(r@, 4, i) == padded32(#[trigger] items@[i].repr()),
{
    let mut r: Vec<u8> = Vec::new();
    let mut i: usize = 0;
    while i < items.len()
        invariant
            i <= items@.len(),
            r@.len() == 4 * i,
            forall|p: int|
                0 <= p < r@.len() ==> r@[p] == byte_at32(
                    items@[p / 4].repr(),
                    (p % 4) as u32,
                ),
        decreases items@.len() - i,
    {
        let w = items[i].as_unsigned();
        let mut k: usize = 0;
        while k < 4
            invariant
                i < items@.len(),
                k <= 4,
                r@.len() == 4 * i + k,
                w == items@[i as int].repr(),
                forall|p: int|
                    0 <= p < r@.len() ==> r@[p] == byte_at32(
                        items@[p / 4].repr(),
                        (p % 4) as u32,
                    ),
            decreases 4 - k,
        {
            r.push(get_byte32(w, k));
            proof {
                assert((4 * i + k) / 4 == i && (4 * i + k) % 4 == k);
            }
            k += 1;
        }
        i += 1;
    }
    proof {
        assert forall|i: int| 0 <= i < items@.len() implies chunk(r@, 4, i) == padded32(
            items@[i].repr(),
        ) by {
            assert forall|l: int| 0 <= l < 4 implies chunk(r@, 4, i)[l] == padded32(
                items@[i].repr(),
            )[l] by {
                assert(chunk(r@, 4, i)[l] == r@[4 * i + l]);
                assert((4 * i + l) / 4 == i && (4 * i + l) % 4 == l);
            }
            assert(chunk(r@, 4, i) =~= padded32(items@[i].repr()));
        }
    }
    r
}

/// For a validated word, the chunk written for it parses back to the
/// same string: its padding starts at the logical end.
pub proof fn lemma_padded_prefix32(v: u32)
    requires
        wf32(v),
    ensures
        nul_prefix(padded32(v)) == view32(v),
        encode_error(nul_prefix(padded32(v)), 4) is None,
{
    lemma_first_zero_shape32(v, 0);
    assert forall|j: int| 0 <= j < str_len32(v) implies padded32(v)[j] != 0 by {
        assert(padded32(v)[j] == byte_at32(v, j as u32));
    }
    lemma_first_nul_is(padded32(v), 0, str_len32(v) as int);
    assert(nul_prefix(padded32(v)) =~= view32(v));
}

/// Parses a buffer as an array of TinyStr8 values, 8 bytes each, each
/// validated on its bytes before the first NUL; trailing bytes that do
/// not fill a chunk are ignored, and the first invalid element rejects
/// the whole buffer.
pub fn parse_byte_slice8(bytes: &[u8]) -> (r: Result<Vec<TinyStr8>, Error>)
    ensures
        match r {
            Ok(v) => {
                &&& v@.len() == bytes@.len() / 8
                &&& forall|i: int|
                    0 <= i < v@.len() ==> encode_error(
                        nul_prefix(#[trigger] chunk(bytes@, 8, i)),
                        8,
                    ) is None
                &&& forall|i: int|
                    0 <= i < v@.len() ==> (#[trigger] v@[i])@ == nul_prefix(chunk(bytes@, 8, i))
            },
            Err(e) => exists|i: int|
                0 <= i < bytes@.len() / 8 && encode_error(
                    nul_prefix(#[trigger] chunk(bytes@, 8, i)),
                    8,
                ) == Some(e) && (forall|j: int|
                    0 <= j < i ==> encode_error(nul_prefix(#[trigger] chunk(bytes@, 8, j)), 8)
                        is None),
        },
{
    let n = bytes.len() / 8;
    let mut out: Vec<TinyStr8> = Vec::new();
    let mut i: usize = 0;
    while i < n
        invariant
            n == bytes@.len() / 8,
            8 * n <= bytes@.len(),
            bytes@.len() <= usize::MAX,
            i <= n,
            out@.len() == i,
            forall|j: int|
                0 <= j < i ==> encode_error(nul_prefix(#[trigger] chunk(bytes@, 8, j)), 8) is None,
            forall|j: int|
                0 <= j < i ==> (#[trigger] out@[j])@ == nul_prefix(chunk(bytes@, 8, j)),
        decreases n - i,
    {
        let prefix = chunk_prefix(bytes, 8 * i, 8);
        proof {
            assert(prefix@ == nul_prefix(chunk(bytes@, 8, i as int)));
        }
        match TinyStr8::from_bytes(prefix.as_slice()) {
            Ok(t) => {
                out.push(t);
            },
            Err(e) => {
                return Err(e);
            },
        }
        i += 1;
    }
    Ok(out)
}

/// Writes an array of TinyStr8 values as a contiguous buffer, 8 bytes
/// per element, zero-padded.
pub fn as_byte_slice8(items: &[TinyStr8]) -> (r: Vec<u8>)
    ensures
        r@.len() == 8 * items@.len(),
        forall|i: int|
            0 <= i < items@.len() ==> chunk(r@, 8, i) == padded64(#[trigger] items@[i].repr()),
{
    let mut r: Vec<u8> = Vec::new();
    let mut i: usize = 0;
    while i < items.len()
        invariant
            i <= items@.len(),
            r@.len() == 8 * i,
            forall|p: int|
                0 <= p < r@.len() ==> r@[p] == byte_at64(
                    items@[p / 8].repr(),
                    (p % 8) as u64,
                ),
        decreases items@.len() - i,
    {
        let w = items[i].as_unsigned();
        let mut k: usize = 0;
        while k < 8
            invariant
                i < items@.len(),
                k <= 8,
                r@.len() == 8 * i + k,
                w == items@[i as int].repr(),
                forall|p: int|
                    0 <= p < r@.len() ==> r@[p] == byte_at64(
                        items@[p / 8].repr(),
                        (p % 8) as u64,
                    ),
            decreases 8 - k,
        {
            r.push(get_byte64(w, k));
            proof {
                assert((8 * i + k) / 8 == i && (8 * i + k) % 8 == k);
            }
            k += 1;
        }
        i += 1;
    }
    proof {
        assert forall|i: int| 0 <= i < items@.len() implies chunk(r@, 8, i) == padded64(
            items@[i].repr(),
        ) by {
            assert forall|l: int| 0 <= l < 8 implies chunk(r@, 8, i)[l] == padded64(
                items@[i].repr(),
            )[l] by {
                assert(chunk(r@, 8, i)[l] == r@[8 * i + l]);
                assert((8 * i + l) / 8 == i && (8 * i + l) % 8 == l);
            }
            assert(chunk(r@, 8, i) =~= padded64(items@[i].repr()));
        }
    }
    r
}

/// For a validated word, the chunk written for it parses back to the
/// same string: its padding starts at the logical end.
pub proof fn lemma_padded_prefix64(v: u64)
    requires
        wf64(v),
    ensures
        nul_prefix(padded64(v)) == view64(v),
        encode_error(nul_prefix(padded64(v)), 8) is None,
{
    lemma_first_zero_shape64(v, 0);
    assert forall|j: int| 0 <= j < str_len64(v) implies padded64(v)[j] != 0 by {
        assert(padded64(v)[j] == byte_at64(v, j as u64));
    }
    lemma_first_nul_is(padded64(v), 0, str_len64(v) as int);
    assert(nul_prefix(padded64(v)) =~= view64(v));
}

/// Parses a buffer as an array of TinyStr16 values, 16 bytes each, each
/// validated on its bytes before the first NUL; trailing bytes that do
/// not fill a chunk are ignored, and the first invalid element rejects
/// the whole buffer.
pub fn parse_byte_slice16(bytes: &[u8]) -> (r: Result<Vec<TinyStr16>, Error>)
    ensures
        match r {
            Ok(v) => {
                &&& v@.len() == bytes@.len() / 16
                &&& forall|i: int|
                    0 <= i < v@.len() ==> encode_error(
                        nul_prefix(#[trigger] chunk(bytes@, 16, i)),
                        16,
                    ) is None
                &&& forall|i: int|
                    0 <= i < v@.len() ==> (#[trigger] v@[i])@ == nul_prefix(chunk(bytes@, 16, i))
            },
            Err(e) => exists|i: int|
                0 <= i < bytes@.len() / 16 && encode_error(
                    nul_prefix(#[trigger] chunk(bytes@, 16, i)),
                    16,
                ) == Some(e) && (forall|j: int|
                    0 <= j < i ==> encode_error(nul_prefix(#[trigger] chunk(bytes@, 16, j)), 16)
                        is None),
        },
{
    let n = bytes.len() / 16;
    let mut out: Vec<TinyStr16> = Vec::new();
    let mut i: usize = 0;
    while i < n
        invariant
            n == bytes@.len() / 16,
            16 * n <= bytes@.len(),
            bytes@.len() <= usize::MAX,
            i <= n,
            out@.len() == i,
            forall|j: int|
                0 <= j < i ==> encode_error(nul_prefix(#[trigger] chunk(bytes@, 16, j)), 16) is None,
            forall|j: int|
                0 <= j < i ==> (#[trigger] out@[j])@ == nul_prefix(chunk(bytes@, 16, j)),
        decreases n - i,
    {
        let prefix = chunk_prefix(bytes, 16 * i, 16);
        proof {
            assert(prefix@ == nul_prefix(chunk(bytes@, 16, i as int)));
        }
        match TinyStr16::from_bytes(prefix.as_slice()) {
            Ok(t) => {
                out.push(t);
            },
            Err(e) => {
                return Err(e);
            },
        }
        i += 1;
    }
    Ok(out)
}

/// Writes an array of TinyStr16 values as a contiguous buffer, 16 bytes
/// per element, zero-padded.
pub fn as_byte_slice16(items: &[TinyStr16]) -> (r: Vec<u8>)
    ensures
        r@.len() == 16 * items@.len(),
        forall|i: int|
            0 <= i < items@.len() ==> chunk(r@, 16, i) == padded128(#[trigger] items@[i].repr()),
{
    let mut r: Vec<u8> = Vec::new();
    let mut i: usize = 0;
    while i < items.len()
        invariant
            i <= items@.len(),
            r@.len() == 16 * i,
            forall|p: int|
                0 <= p < r@.len() ==> r@[p] == byte_at128(
                    items@[p / 16].repr(),
                    (p % 16) as u128,
                ),
        decreases items@.len() - i,
    {
        let w = items[i].as_unsigned();
        let mut k: usize = 0;
        while k < 16
            invariant
                i < items@.len(),
                k <= 16,
                r@.len() == 16 * i + k,
                w == items@[i as int].repr(),
                forall|p: int|
                    0 <= p < r@.len() ==> r@[p] == byte_at128(
                        items@[p / 16].repr(),
                        (p % 16) as u128,
                    ),
            decreases 16 - k,
        {
            r.push(get_byte128(w, k));
            proof {
                assert((16 * i + k) / 16 == i && (16 * i + k) % 16 == k);
            }
            k += 1;
        }
        i += 1;
    }
    proof {
        assert forall|i: int| 0 <= i < items@.len() implies chunk(r@, 16, i) == padded128(
            items@[i].repr(),
        ) by {
            assert forall|l: int| 0 <= l < 16 implies chunk(r@, 16, i)[l] == padded128(
                items@[i].repr(),
            )[l] by {
                assert(chunk(r@, 16, i)[l] == r@[16 * i + l]);
                assert((16 * i + l) / 16 == i && (16 * i + l) % 16 == l);
            }
            assert(chunk(r@, 16, i) =~= padded128(items@[i].repr()));
        }
    }
    r
}

/// For a validated word, the chunk written for it parses back to the
/// same string: its padding starts at the logical end.
pub proof fn lemma_padded_prefix128(v: u128)
    requires
        wf128(v),
    ensures
        nul_prefix(padded128(v)) == view128(v),
        encode_error(nul_prefix(padded128(v)), 16) is None,
{
    lemma_first_zero_shape128(v, 0);
    assert forall|j: int| 0 <= j < str_len128(v) implies padded128(v)[j] != 0 by {
        assert(padded128(v)[j] == byte_at128(v, j as u128));
    }
    lemma_first_nul_is(padded128(v), 0, str_len128(v) as int);
    assert(nul_prefix(padded128(v)) =~= view128(v));
}

} // verus!
