//! Byte-level specification of ASCII classification, case mapping,
//! validation and lexicographic ordering, shared by every capacity.

use vstd::prelude::*;

use crate::error::Error;

verus! {

/// A byte that may appear in a packed string: non-NUL, 7-bit.
pub open spec fn is_str_byte(b: u8) -> bool {
    0 < b < 0x80
}

/// ASCII letter, either case.
pub open spec fn is_alpha_byte(b: u8) -> bool {
    (0x41 <= b <= 0x5a) || (0x61 <= b <= 0x7a)
}

/// ASCII decimal digit.
pub open spec fn is_digit_byte(b: u8) -> bool {
    0x30 <= b <= 0x39
}

/// ASCII letter or decimal digit.
pub open spec fn is_alnum_byte(b: u8) -> bool {
    is_alpha_byte(b) || is_digit_byte(b)
}

/// Upper-case image of a byte: lower-case letters move down by 0x20,
/// everything else is unchanged.
pub open spec fn upper_byte(b: u8) -> u8 {
    if 0x61 <= b <= 0x7a {
        (b - 0x20) as u8
    } else {
        b
    }
}

/// Lower-case image of a byte: upper-case letters move up by 0x20,
/// everything else is unchanged.
pub open spec fn lower_byte(b: u8) -> u8 {
    if 0x41 <= b <= 0x5a {
        (b + 0x20) as u8
    } else {
        b
    }
}

/// What validation answers for an input of the given capacity: size is
/// checked first, then the high bits, then embedded NULs; `None` means
/// the input is accepted.
pub open spec fn encode_error(s: Seq<u8>, cap: nat) -> Option<Error> {
    if s.len() == 0 || s.len() > cap {
        Some(Error::InvalidSize)
    } else if exists|i: int| 0 <= i < s.len() && #[trigger] s[i] >= 0x80 {
        Some(Error::NonAscii)
    } else if exists|i: int| 0 <= i < s.len() && #[trigger] s[i] == 0 {
        Some(Error::InvalidNull)
    } else {
        None
    }
}

/// An accepted input: every byte non-NUL and 7-bit, length within capacity.
pub proof fn lemma_encode_ok(s: Seq<u8>, cap: nat)
    ensures
        encode_error(s, cap) is None <==> (1 <= s.len() <= cap && forall|i: int|
            0 <= i < s.len() ==> is_str_byte(#[trigger] s[i])),
{
}

/// Three-way lexicographic comparison of byte sequences.
pub open spec fn lex_cmp(a: Seq<u8>, b: Seq<u8>) -> core::cmp::Ordering
    decreases a.len(),
{
    if a.len() == 0 && b.len() == 0 {
        core::cmp::Ordering::Equal
    } else if a.len() == 0 {
        core::cmp::Ordering::Less
    } else if b.len() == 0 {
        core::cmp::Ordering::Greater
    } else if a[0] < b[0] {
        core::cmp::Ordering::Less
    } else if a[0] > b[0] {
        core::cmp::Ordering::Greater
    } else {
        lex_cmp(a.skip(1), b.skip(1))
    }
}

/// Strict lexicographic order on byte sequences: either the first
/// difference is smaller, or the left side is a proper prefix.
pub open spec fn lex_lt(a: Seq<u8>, b: Seq<u8>) -> bool
    decreases a.len(),
{
    b.len() > 0 && (a.len() == 0 || a[0] < b[0] || (a[0] == b[0] && lex_lt(a.skip(1), b.skip(1))))
}

/// Where two sequences agree on their first `j` entries and are decided
/// there — one of them ends, or the bytes differ — the comparison is
/// decided at `j`.
pub proof fn lemma_lex_cmp_prefix(a: Seq<u8>, b: Seq<u8>, j: int)
    requires
        0 <= j <= a.len(),
        j <= b.len(),
        forall|k: int| 0 <= k < j ==> a[k] == b[k],
        j == a.len() || j == b.len() || a[j] != b[j],
    ensures
        lex_cmp(a, b) == (if j == a.len() && j == b.len() {
            core::cmp::Ordering::Equal
        } else if j == a.len() {
            core::cmp::Ordering::Less
        } else if j == b.len() {
            core::cmp::Ordering::Greater
        } else if a[j] < b[j] {
            core::cmp::Ordering::Less
        } else {
            core::cmp::Ordering::Greater
        }),
    decreases j,
{
    if j > 0 {
        lemma_lex_cmp_prefix(a.skip(1), b.skip(1), j - 1);
    }
}

/// The three-way comparison agrees with strict lexicographic order and
/// with extensional equality: `Less` exactly on `lex_lt`, `Equal`
/// exactly on equal sequences.
pub proof fn lemma_lex_cmp_spec(a: Seq<u8>, b: Seq<u8>)
    ensures
        lex_cmp(a, b) == core::cmp::Ordering::Less <==> lex_lt(a, b),
        lex_cmp(a, b) == core::cmp::Ordering::Equal <==> a =~= b,
        lex_cmp(a, b) == core::cmp::Ordering::Greater <==> lex_lt(b, a),
    decreases a.len() + b.len(),
{
    if a.len() == 0 || b.len() == 0 || a[0] != b[0] {
    } else {
        let at = a.skip(1);
        let bt = b.skip(1);
        lemma_lex_cmp_spec(at, bt);
        if at =~= bt {
            assert forall|i: int| 0 <= i < a.len() implies a[i] == b[i] by {
                if i > 0 {
                    assert(a[i] == at[i - 1]);
                    assert(b[i] == bt[i - 1]);
                }
            }
            assert(a =~= b);
        }
        if a =~= b {
            assert(at =~= bt);
        }
    }
}

/// Position of the first NUL byte at or after `i`; the length when
/// there is none.
pub open spec fn first_nul_from(s: Seq<u8>, i: int) -> int
    decreases s.len() - i,
        when 0 <= i <= s.len()
{
    if i >= s.len() {
        i
    } else if s[i] == 0 {
        i
    } else {
        first_nul_from(s, i + 1)
    }
}

/// The bytes before the first NUL; the whole sequence when there is
/// none.
pub open spec fn nul_prefix(s: Seq<u8>) -> Seq<u8> {
    s.take(first_nul_from(s, 0))
}

/// `first_nul_from` is determined by where the non-NUL run ends.
pub proof fn lemma_first_nul_is(s: Seq<u8>, i: int, l: int)
    requires
        0 <= i <= l <= s.len(),
        forall|j: int| i <= j < l ==> s[j] != 0,
        l < s.len() ==> s[l] == 0,
    ensures
        first_nul_from(s, i) == l,
    decreases l - i,
{
    if i < l {
        lemma_first_nul_is(s, i + 1, l);
    }
}

/// Case mapping of a whole sequence, byte by byte.
pub open spec fn upper_seq(s: Seq<u8>) -> Seq<u8> {
    s.map(|i: int, b: u8| upper_byte(b))
}

/// Case mapping of a whole sequence, byte by byte.
pub open spec fn lower_seq(s: Seq<u8>) -> Seq<u8> {
    s.map(|i: int, b: u8| lower_byte(b))
}

/// Title-casing of a whole sequence: the first byte upper-cased, every
/// other byte lower-cased.
pub open spec fn title_seq(s: Seq<u8>) -> Seq<u8> {
    s.map(
        |i: int, b: u8|
            if i == 0 {
                upper_byte(b)
            } else {
                lower_byte(b)
            },
    )
}

/// Title-casing is idempotent, and already upper-cases its first byte:
/// applying it twice, or lower- then title-casing, changes nothing more.
pub proof fn lemma_title_seq_idempotent(s: Seq<u8>)
    ensures
        title_seq(title_seq(s)) == title_seq(s),
        title_seq(lower_seq(s)) == title_seq(s),
{
    assert(title_seq(title_seq(s)) =~= title_seq(s));
    assert(title_seq(lower_seq(s)) =~= title_seq(s));
}

/// Case conversion of a whole string is idempotent.
pub proof fn lemma_upper_seq_idempotent(s: Seq<u8>)
    ensures
        upper_seq(upper_seq(s)) == upper_seq(s),
{
    assert(upper_seq(upper_seq(s)) =~= upper_seq(s));
}

/// Case conversion of a whole string is idempotent.
pub proof fn lemma_lower_seq_idempotent(s: Seq<u8>)
    ensures
        lower_seq(lower_seq(s)) == lower_seq(s),
{
    assert(lower_seq(lower_seq(s)) =~= lower_seq(s));
}

/// Case conversion moves no byte in or out of the NUL or non-ASCII
/// ranges, and leaves every non-letter fixed.
pub proof fn lemma_case_byte_shape(b: u8)
    ensures
        upper_byte(b) == 0 <==> b == 0,
        lower_byte(b) == 0 <==> b == 0,
        b < 0x80 ==> upper_byte(b) < 0x80 && lower_byte(b) < 0x80,
        !is_alpha_byte(b) ==> upper_byte(b) == b && lower_byte(b) == b,
{
}

} // verus!
