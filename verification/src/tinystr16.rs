//! A tiny string of 1 to 16 non-NUL ASCII characters, packed into a `u128`.

use vstd::prelude::*;

use crate::ascii::encode_error;
use crate::ascii::is_alnum_byte;
use crate::ascii::is_alpha_byte;
use crate::ascii::is_digit_byte;
use crate::ascii::is_str_byte;
use crate::ascii::lex_cmp;
use crate::ascii::lex_lt;
use crate::ascii::lemma_lex_cmp_prefix;
use crate::ascii::lemma_lex_cmp_spec;
use crate::ascii::lower_byte;
use crate::ascii::lower_seq;
use crate::ascii::title_seq;
use crate::ascii::upper_seq;
use crate::ascii::upper_byte;
use crate::ascii::nul_prefix;
use crate::error::Error;
use crate::pack128::byte_at128;
use crate::pack128::get_byte128;
use crate::pack128::lemma_first_zero_is128;
use crate::pack128::lemma_first_zero_shape128;
use crate::pack128::lemma_high_clear128;
use crate::pack128::lemma_word_eq128;
use crate::pack128::padded128;
use crate::pack128::str_len128;
use crate::pack128::try_u128_from_bytes;
use crate::pack128::view128;
use crate::pack128::wf128;
use crate::pack128::word_len128;
use crate::strconv::ascii_bytes_to_string;
use vstd::std_specs::cmp::PartialOrdSpec;
use vstd::string::StringSliceAdditionalSpecFns;

verus! {

/// A tiny string that is from 1 to 16 non-NUL ASCII characters, stored as
/// a single `u128` with the first character in the low-order byte.
#[derive(Clone, Copy, PartialEq, Eq, Structural, Debug, Hash)]
pub struct TinyStr16 {
    v: u128,
}

#[verifier::type_invariant]
spec fn tinystr4_inv(s: TinyStr16) -> bool {
    wf128(s.v)
}

impl View for TinyStr16 {
    type V = Seq<u8>;

    /// The logical bytes of the string, first character first.
    closed spec fn view(&self) -> Seq<u8> {
        view128(self.v)
    }
}

/// Whole-word upper-casing: selects the `0x20` bit of every lower-case
/// letter byte and clears it.
spec fn upper_word128(w: u128) -> u128 {
    w & !((((w + 0x1f1f_1f1f_1f1f_1f1f_1f1f_1f1f_1f1f_1f1f) as u128) & !((w + 0x0505_0505_0505_0505_0505_0505_0505_0505) as u128) & 0x8080_8080_8080_8080_8080_8080_8080_8080) >> 2)
}

/// Whole-word lower-casing: selects the `0x20` bit of every upper-case
/// letter byte and sets it.
spec fn lower_word128(w: u128) -> u128 {
    w | ((((w + 0x3f3f_3f3f_3f3f_3f3f_3f3f_3f3f_3f3f_3f3f) as u128) & !((w + 0x2525_2525_2525_2525_2525_2525_2525_2525) as u128) & 0x8080_8080_8080_8080_8080_8080_8080_8080) >> 2)
}

/// Whole-word title-casing: lower-cases every byte but the first, and
/// upper-cases the first.
spec fn title_word128(w: u128) -> u128 {
    let m = ((((w + 0x3f3f_3f3f_3f3f_3f3f_3f3f_3f3f_3f3f_3f1f) as u128) & !((w + 0x2525_2525_2525_2525_2525_2525_2525_2505) as u128) & 0x8080_8080_8080_8080_8080_8080_8080_8080) >> 2);
    (w | m) & !(0x20 & m)
}

/// High bit per populated (non-zero) byte.
spec fn populated_mask128(w: u128) -> u128 {
    ((w + 0x7f7f_7f7f_7f7f_7f7f_7f7f_7f7f_7f7f_7f7f) as u128) & 0x8080_8080_8080_8080_8080_8080_8080_8080
}

/// High bit per populated byte that is not a letter.
spec fn alpha_flags128(w: u128) -> u128 {
    let lower = w | 0x2020_2020_2020_2020_2020_2020_2020_2020;
    (!((lower + 0x1f1f_1f1f_1f1f_1f1f_1f1f_1f1f_1f1f_1f1f) as u128) | ((lower + 0x0505_0505_0505_0505_0505_0505_0505_0505) as u128)) & populated_mask128(w)
}

/// High bit per populated byte that is not a decimal digit.
spec fn digit_flags128(w: u128) -> u128 {
    (!((w + 0x5050_5050_5050_5050_5050_5050_5050_5050) as u128) | ((w + 0x4646_4646_4646_4646_4646_4646_4646_4646) as u128)) & populated_mask128(w)
}

/// High bit per populated byte that is neither letter nor digit.
spec fn alnum_flags128(w: u128) -> u128 {
    let numeric = !((w + 0x5050_5050_5050_5050_5050_5050_5050_5050) as u128) | ((w + 0x4646_4646_4646_4646_4646_4646_4646_4646) as u128);
    let lower = w | 0x2020_2020_2020_2020_2020_2020_2020_2020;
    let alpha = !((lower + 0x1f1f_1f1f_1f1f_1f1f_1f1f_1f1f_1f1f_1f1f) as u128) | ((lower + 0x0505_0505_0505_0505_0505_0505_0505_0505) as u128);
    (alpha & numeric) & populated_mask128(w)
}

proof fn lemma_upper128(w: u128, j: u128)
    by (bit_vector)
    requires
        j < 16,
        w & 0x8080_8080_8080_8080_8080_8080_8080_8080 == 0,
    ensures
        byte_at128(upper_word128(w), j) == upper_byte(byte_at128(w, j)),
{
}

proof fn lemma_lower128(w: u128, j: u128)
    by (bit_vector)
    requires
        j < 16,
        w & 0x8080_8080_8080_8080_8080_8080_8080_8080 == 0,
    ensures
        byte_at128(lower_word128(w), j) == lower_byte(byte_at128(w, j)),
{
}

proof fn lemma_title128(w: u128, j: u128)
    by (bit_vector)
    requires
        j < 16,
        w & 0x8080_8080_8080_8080_8080_8080_8080_8080 == 0,
    ensures
        byte_at128(title_word128(w), j) == (if j == 0 {
            upper_byte(byte_at128(w, j))
        } else {
            lower_byte(byte_at128(w, j))
        }),
{
}

proof fn lemma_alpha128(w: u128)
    by (bit_vector)
    requires
        w & 0x8080_8080_8080_8080_8080_8080_8080_8080 == 0,
    ensures
        (alpha_flags128(w) == 0) <==> ((byte_at128(w, 0) == 0 || is_alpha_byte(byte_at128(w, 0))) && (byte_at128(w, 1) == 0 || is_alpha_byte(byte_at128(w, 1))) && (byte_at128(w, 2) == 0 || is_alpha_byte(byte_at128(w, 2))) && (byte_at128(w, 3) == 0 || is_alpha_byte(byte_at128(w, 3))) && (byte_at128(w, 4) == 0 || is_alpha_byte(byte_at128(w, 4))) && (byte_at128(w, 5) == 0 || is_alpha_byte(byte_at128(w, 5))) && (byte_at128(w, 6) == 0 || is_alpha_byte(byte_at128(w, 6))) && (byte_at128(w, 7) == 0 || is_alpha_byte(byte_at128(w, 7))) && (byte_at128(w, 8) == 0 || is_alpha_byte(byte_at128(w, 8))) && (byte_at128(w, 9) == 0 || is_alpha_byte(byte_at128(w, 9))) && (byte_at128(w, 10) == 0 || is_alpha_byte(byte_at128(w, 10))) && (byte_at128(w, 11) == 0 || is_alpha_byte(byte_at128(w, 11))) && (byte_at128(w, 12) == 0 || is_alpha_byte(byte_at128(w, 12))) && (byte_at128(w, 13) == 0 || is_alpha_byte(byte_at128(w, 13))) && (byte_at128(w, 14) == 0 || is_alpha_byte(byte_at128(w, 14))) && (byte_at128(w, 15) == 0 || is_alpha_byte(byte_at128(w, 15)))),
{
}

proof fn lemma_digit128(w: u128)
    by (bit_vector)
    requires
        w & 0x8080_8080_8080_8080_8080_8080_8080_8080 == 0,
    ensures
        (digit_flags128(w) == 0) <==> ((byte_at128(w, 0) == 0 || is_digit_byte(byte_at128(w, 0))) && (byte_at128(w, 1) == 0 || is_digit_byte(byte_at128(w, 1))) && (byte_at128(w, 2) == 0 || is_digit_byte(byte_at128(w, 2))) && (byte_at128(w, 3) == 0 || is_digit_byte(byte_at128(w, 3))) && (byte_at128(w, 4) == 0 || is_digit_byte(byte_at128(w, 4))) && (byte_at128(w, 5) == 0 || is_digit_byte(byte_at128(w, 5))) && (byte_at128(w, 6) == 0 || is_digit_byte(byte_at128(w, 6))) && (byte_at128(w, 7) == 0 || is_digit_byte(byte_at128(w, 7))) && (byte_at128(w, 8) == 0 || is_digit_byte(byte_at128(w, 8))) && (byte_at128(w, 9) == 0 || is_digit_byte(byte_at128(w, 9))) && (byte_at128(w, 10) == 0 || is_digit_byte(byte_at128(w, 10))) && (byte_at128(w, 11) == 0 || is_digit_byte(byte_at128(w, 11))) && (byte_at128(w, 12) == 0 || is_digit_byte(byte_at128(w, 12))) && (byte_at128(w, 13) == 0 || is_digit_byte(byte_at128(w, 13))) && (byte_at128(w, 14) == 0 || is_digit_byte(byte_at128(w, 14))) && (byte_at128(w, 15) == 0 || is_digit_byte(byte_at128(w, 15)))),
{
}

proof fn lemma_alnum128(w: u128)
    by (bit_vector)
    requires
        w & 0x8080_8080_8080_8080_8080_8080_8080_8080 == 0,
    ensures
        (alnum_flags128(w) == 0) <==> ((byte_at128(w, 0) == 0 || is_alnum_byte(byte_at128(w, 0))) && (byte_at128(w, 1) == 0 || is_alnum_byte(byte_at128(w, 1))) && (byte_at128(w, 2) == 0 || is_alnum_byte(byte_at128(w, 2))) && (byte_at128(w, 3) == 0 || is_alnum_byte(byte_at128(w, 3))) && (byte_at128(w, 4) == 0 || is_alnum_byte(byte_at128(w, 4))) && (byte_at128(w, 5) == 0 || is_alnum_byte(byte_at128(w, 5))) && (byte_at128(w, 6) == 0 || is_alnum_byte(byte_at128(w, 6))) && (byte_at128(w, 7) == 0 || is_alnum_byte(byte_at128(w, 7))) && (byte_at128(w, 8) == 0 || is_alnum_byte(byte_at128(w, 8))) && (byte_at128(w, 9) == 0 || is_alnum_byte(byte_at128(w, 9))) && (byte_at128(w, 10) == 0 || is_alnum_byte(byte_at128(w, 10))) && (byte_at128(w, 11) == 0 || is_alnum_byte(byte_at128(w, 11))) && (byte_at128(w, 12) == 0 || is_alnum_byte(byte_at128(w, 12))) && (byte_at128(w, 13) == 0 || is_alnum_byte(byte_at128(w, 13))) && (byte_at128(w, 14) == 0 || is_alnum_byte(byte_at128(w, 14))) && (byte_at128(w, 15) == 0 || is_alnum_byte(byte_at128(w, 15)))),
{
}

/// A well-formed word has no high bit set, and the headroom needed by
/// the whole-word formulas.
proof fn lemma_wf_high_clear128(v: u128)
    requires
        wf128(v),
    ensures
        v & 0x8080_8080_8080_8080_8080_8080_8080_8080 == 0,
        v <= 0x7f7f_7f7f_7f7f_7f7f_7f7f_7f7f_7f7f_7f7f,
        (v | 0x2020_2020_2020_2020_2020_2020_2020_2020) <= 0x7f7f_7f7f_7f7f_7f7f_7f7f_7f7f_7f7f_7f7f,
{
    assert(byte_at128(v, 0) < 0x80 && byte_at128(v, 1) < 0x80 && byte_at128(v, 2) < 0x80 && byte_at128(v, 3) < 0x80 && byte_at128(v, 4) < 0x80 && byte_at128(v, 5) < 0x80 && byte_at128(v, 6) < 0x80 && byte_at128(v, 7) < 0x80 && byte_at128(v, 8) < 0x80 && byte_at128(v, 9) < 0x80 && byte_at128(v, 10) < 0x80 && byte_at128(v, 11) < 0x80 && byte_at128(v, 12) < 0x80 && byte_at128(v, 13) < 0x80 && byte_at128(v, 14) < 0x80 && byte_at128(v, 15) < 0x80);
    lemma_high_clear128(v);
}

/// A byte-wise case conversion keeps the word well-formed and maps the
/// view byte for byte.
proof fn lemma_mapped_wf128(v: u128, r: u128)
    requires
        wf128(v),
        forall|j: u128|
            j < 16 ==> (#[trigger] byte_at128(r, j) == 0 <==> byte_at128(v, j) == 0),
        forall|j: u128| j < 16 ==> byte_at128(r, j) < 0x80,
    ensures
        wf128(r),
        str_len128(r) == str_len128(v),
        str_len128(v) <= 16,
{
    lemma_first_zero_shape128(v, 0);
    lemma_first_zero_is128(r, 0, str_len128(v));
}

impl TinyStr16 {
    /// The packed word behind this string: byte `i`, counted from the
    /// low-order end, is character `i`. This layout is byte-for-byte the
    /// canonical little-endian wire form.
    pub closed spec fn repr(&self) -> u128 {
        self.v
    }

    /// The packing invariant: what every value constructed by this
    /// library satisfies.
    pub open spec fn well_formed(&self) -> bool {
        wf128(self.repr())
    }

    /// A well-formed value is a validated packing of its view.
    pub proof fn lemma_valid(&self)
        requires
            self.well_formed(),
        ensures
            wf128(self.repr()),
            self@ == view128(self.repr()),
            1 <= self@.len() <= 16,
            forall|i: int| 0 <= i < self@.len() ==> is_str_byte(#[trigger] self@[i]),
    {
        lemma_first_zero_shape128(self.v, 0);
        assert forall|i: int| 0 <= i < self@.len() implies is_str_byte(self@[i]) by {
            assert(self@[i] == byte_at128(self.v, i as u128));
        }
    }

    /// Creates a `TinyStr16` from a byte slice, validating length,
    /// 7-bit-ness and absence of NUL bytes; on success the view is
    /// exactly the input.
    pub fn from_bytes(bytes: &[u8]) -> (r: Result<TinyStr16, Error>)
        ensures
            match r {
                Ok(t) => encode_error(bytes@, 16) is None && t@ == bytes@ && t.well_formed(),
                Err(e) => encode_error(bytes@, 16) == Some(e),
            },
    {
        match try_u128_from_bytes(bytes) {
            Ok(w) => Ok(TinyStr16 { v: w }),
            Err(e) => Err(e),
        }
    }

    /// Parses text, validating its UTF-8 bytes like
    /// [`Self::from_bytes`].
    pub fn from_str(text: &str) -> (r: Result<TinyStr16, Error>)
        ensures
            match r {
                Ok(t) => encode_error(text.spec_bytes(), 16) is None && t@ == text.spec_bytes()
                    && t.well_formed(),
                Err(e) => encode_error(text.spec_bytes(), 16) == Some(e),
            },
    {
        TinyStr16::from_bytes(text.as_bytes())
    }

    /// Builds a value from a packed little-endian word as read back from
    /// storage or a wire: the bytes before the first NUL are taken as
    /// the string and validated, and bytes after it are discarded.
    pub fn from_le_integer(x: u128) -> (r: Result<TinyStr16, Error>)
        ensures
            match r {
                Ok(t) => encode_error(nul_prefix(padded128(x)), 16) is None && t@ == nul_prefix(
                    padded128(x),
                ) && t.well_formed(),
                Err(e) => encode_error(nul_prefix(padded128(x)), 16) == Some(e),
            },
    {
        let mut bytes: Vec<u8> = Vec::new();
        let mut k: usize = 0;
        while k < 16
            invariant
                k <= 16,
                bytes@.len() == k,
                forall|j: int| 0 <= j < k ==> bytes@[j] == byte_at128(x, j as u128),
            decreases 16 - k,
        {
            bytes.push(get_byte128(x, k));
            k += 1;
        }
        proof {
            assert(bytes@ =~= padded128(x));
        }
        let prefix = crate::ule::chunk_prefix(bytes.as_slice(), 0, 16);
        proof {
            assert(bytes@.subrange(0, 16) =~= padded128(x));
        }
        TinyStr16::from_bytes(prefix.as_slice())
    }

    /// Constructor for a pre-validated packed word in the canonical
    /// little-endian layout, as produced by compile-time encoding; the
    /// caller's guarantee that the word is validly packed replaces the
    /// runtime checks.
    pub fn new_unchecked(text: u128) -> (r: TinyStr16)
        requires
            wf128(text),
        ensures
            r.repr() == text,
            r.well_formed(),
    {
        TinyStr16 { v: text }
    }


    /// The raw packed word.
    pub fn as_unsigned(&self) -> (r: u128)
        ensures
            r == self.repr(),
            wf128(r),
    {
        proof {
            use_type_invariant(self);
        }
        self.v
    }

    /// The string itself, decoded from the packed word.
    pub fn as_str(&self) -> (r: String)
        ensures
            r@ == self@.map(|i: int, b: u8| b as char),
    {
        proof {
            use_type_invariant(self);
            lemma_first_zero_shape128(self.v, 0);
        }
        let len = word_len128(self.v);
        let mut bytes: Vec<u8> = Vec::new();
        let mut i: usize = 0;
        while i < len
            invariant
                wf128(self.v),
                len == str_len128(self.v),
                len <= 16,
                i <= len,
                bytes@.len() == i,
                forall|j: int| 0 <= j < i ==> bytes@[j] == byte_at128(self.v, j as u128),
            decreases len - i,
        {
            bytes.push(get_byte128(self.v, i));
            i += 1;
        }
        proof {
            assert(bytes@ =~= self@);
            assert forall|j: int| 0 <= j < bytes@.len() implies bytes@[j] < 0x80 by {
                assert(bytes@[j] == byte_at128(self.v, j as u128));
            }
        }
        ascii_bytes_to_string(&bytes)
    }

    /// True exactly when every character is an ASCII letter.
    pub fn is_ascii_alphabetic(self) -> (r: bool)
        ensures
            r == (forall|i: int| 0 <= i < self@.len() ==> is_alpha_byte(#[trigger] self@[i])),
    {
        proof {
            use_type_invariant(&self);
            lemma_wf_high_clear128(self.v);
            lemma_alpha128(self.v);
        }
        let word = self.v;
        let mask = (word + 0x7f7f_7f7f_7f7f_7f7f_7f7f_7f7f_7f7f_7f7f) & 0x8080_8080_8080_8080_8080_8080_8080_8080;
        let lower = word | 0x2020_2020_2020_2020_2020_2020_2020_2020;
        let alpha = !(lower + 0x1f1f_1f1f_1f1f_1f1f_1f1f_1f1f_1f1f_1f1f) | (lower + 0x0505_0505_0505_0505_0505_0505_0505_0505);
        let r = (alpha & mask) == 0;
        proof {
            assert(alpha & mask == alpha_flags128(word));
            self.lemma_bytes_prop(
                |b: u8| is_alpha_byte(b),
                (byte_at128(word, 0) == 0 || is_alpha_byte(byte_at128(word, 0))) && (byte_at128(word, 1) == 0 || is_alpha_byte(byte_at128(word, 1))) && (byte_at128(word, 2) == 0 || is_alpha_byte(byte_at128(word, 2))) && (byte_at128(word, 3) == 0 || is_alpha_byte(byte_at128(word, 3))) && (byte_at128(word, 4) == 0 || is_alpha_byte(byte_at128(word, 4))) && (byte_at128(word, 5) == 0 || is_alpha_byte(byte_at128(word, 5))) && (byte_at128(word, 6) == 0 || is_alpha_byte(byte_at128(word, 6))) && (byte_at128(word, 7) == 0 || is_alpha_byte(byte_at128(word, 7))) && (byte_at128(word, 8) == 0 || is_alpha_byte(byte_at128(word, 8))) && (byte_at128(word, 9) == 0 || is_alpha_byte(byte_at128(word, 9))) && (byte_at128(word, 10) == 0 || is_alpha_byte(byte_at128(word, 10))) && (byte_at128(word, 11) == 0 || is_alpha_byte(byte_at128(word, 11))) && (byte_at128(word, 12) == 0 || is_alpha_byte(byte_at128(word, 12))) && (byte_at128(word, 13) == 0 || is_alpha_byte(byte_at128(word, 13))) && (byte_at128(word, 14) == 0 || is_alpha_byte(byte_at128(word, 14))) && (byte_at128(word, 15) == 0 || is_alpha_byte(byte_at128(word, 15))),
            );
        }
        r
    }

    /// True exactly when every character is an ASCII letter or digit.
    pub fn is_ascii_alphanumeric(self) -> (r: bool)
        ensures
            r == (forall|i: int| 0 <= i < self@.len() ==> is_alnum_byte(#[trigger] self@[i])),
    {
        proof {
            use_type_invariant(&self);
            lemma_wf_high_clear128(self.v);
            lemma_alnum128(self.v);
        }
        let word = self.v;
        let mask = (word + 0x7f7f_7f7f_7f7f_7f7f_7f7f_7f7f_7f7f_7f7f) & 0x8080_8080_8080_8080_8080_8080_8080_8080;
        let numeric = !(word + 0x5050_5050_5050_5050_5050_5050_5050_5050) | (word + 0x4646_4646_4646_4646_4646_4646_4646_4646);
        let lower = word | 0x2020_2020_2020_2020_2020_2020_2020_2020;
        let alpha = !(lower + 0x1f1f_1f1f_1f1f_1f1f_1f1f_1f1f_1f1f_1f1f) | (lower + 0x0505_0505_0505_0505_0505_0505_0505_0505);
        let r = ((alpha & numeric) & mask) == 0;
        proof {
            assert((alpha & numeric) & mask == alnum_flags128(word));
            self.lemma_bytes_prop(
                |b: u8| is_alnum_byte(b),
                (byte_at128(word, 0) == 0 || is_alnum_byte(byte_at128(word, 0))) && (byte_at128(word, 1) == 0 || is_alnum_byte(byte_at128(word, 1))) && (byte_at128(word, 2) == 0 || is_alnum_byte(byte_at128(word, 2))) && (byte_at128(word, 3) == 0 || is_alnum_byte(byte_at128(word, 3))) && (byte_at128(word, 4) == 0 || is_alnum_byte(byte_at128(word, 4))) && (byte_at128(word, 5) == 0 || is_alnum_byte(byte_at128(word, 5))) && (byte_at128(word, 6) == 0 || is_alnum_byte(byte_at128(word, 6))) && (byte_at128(word, 7) == 0 || is_alnum_byte(byte_at128(word, 7))) && (byte_at128(word, 8) == 0 || is_alnum_byte(byte_at128(word, 8))) && (byte_at128(word, 9) == 0 || is_alnum_byte(byte_at128(word, 9))) && (byte_at128(word, 10) == 0 || is_alnum_byte(byte_at128(word, 10))) && (byte_at128(word, 11) == 0 || is_alnum_byte(byte_at128(word, 11))) && (byte_at128(word, 12) == 0 || is_alnum_byte(byte_at128(word, 12))) && (byte_at128(word, 13) == 0 || is_alnum_byte(byte_at128(word, 13))) && (byte_at128(word, 14) == 0 || is_alnum_byte(byte_at128(word, 14))) && (byte_at128(word, 15) == 0 || is_alnum_byte(byte_at128(word, 15))),
            );
        }
        r
    }

    /// True exactly when every character is an ASCII decimal digit.
    pub fn is_ascii_numeric(self) -> (r: bool)
        ensures
            r == (forall|i: int| 0 <= i < self@.len() ==> is_digit_byte(#[trigger] self@[i])),
    {
        proof {
            use_type_invariant(&self);
            lemma_wf_high_clear128(self.v);
            lemma_digit128(self.v);
        }
        let word = self.v;
        let mask = (word + 0x7f7f_7f7f_7f7f_7f7f_7f7f_7f7f_7f7f_7f7f) & 0x8080_8080_8080_8080_8080_8080_8080_8080;
        let numeric = !(word + 0x5050_5050_5050_5050_5050_5050_5050_5050) | (word + 0x4646_4646_4646_4646_4646_4646_4646_4646);
        let r = (numeric & mask) == 0;
        proof {
            assert(numeric & mask == digit_flags128(word));
            self.lemma_bytes_prop(
                |b: u8| is_digit_byte(b),
                (byte_at128(word, 0) == 0 || is_digit_byte(byte_at128(word, 0))) && (byte_at128(word, 1) == 0 || is_digit_byte(byte_at128(word, 1))) && (byte_at128(word, 2) == 0 || is_digit_byte(byte_at128(word, 2))) && (byte_at128(word, 3) == 0 || is_digit_byte(byte_at128(word, 3))) && (byte_at128(word, 4) == 0 || is_digit_byte(byte_at128(word, 4))) && (byte_at128(word, 5) == 0 || is_digit_byte(byte_at128(word, 5))) && (byte_at128(word, 6) == 0 || is_digit_byte(byte_at128(word, 6))) && (byte_at128(word, 7) == 0 || is_digit_byte(byte_at128(word, 7))) && (byte_at128(word, 8) == 0 || is_digit_byte(byte_at128(word, 8))) && (byte_at128(word, 9) == 0 || is_digit_byte(byte_at128(word, 9))) && (byte_at128(word, 10) == 0 || is_digit_byte(byte_at128(word, 10))) && (byte_at128(word, 11) == 0 || is_digit_byte(byte_at128(word, 11))) && (byte_at128(word, 12) == 0 || is_digit_byte(byte_at128(word, 12))) && (byte_at128(word, 13) == 0 || is_digit_byte(byte_at128(word, 13))) && (byte_at128(word, 14) == 0 || is_digit_byte(byte_at128(word, 14))) && (byte_at128(word, 15) == 0 || is_digit_byte(byte_at128(word, 15))),
            );
        }
        r
    }

    /// Bridges the sixteen padded-byte conditions of a whole-word test to a
    /// statement over the view: padding bytes are zero and view bytes
    /// are not, so the conditions hold exactly when every character of
    /// the view satisfies the property.
    proof fn lemma_bytes_prop(&self, p: spec_fn(u8) -> bool, all: bool)
        requires
            wf128(self.v),
            all == ((byte_at128(self.v, 0) == 0 || p(byte_at128(self.v, 0))) && (byte_at128(self.v, 1) == 0 || p(byte_at128(self.v, 1))) && (byte_at128(self.v, 2) == 0 || p(byte_at128(self.v, 2))) && (byte_at128(self.v, 3) == 0 || p(byte_at128(self.v, 3))) && (byte_at128(self.v, 4) == 0 || p(byte_at128(self.v, 4))) && (byte_at128(self.v, 5) == 0 || p(byte_at128(self.v, 5))) && (byte_at128(self.v, 6) == 0 || p(byte_at128(self.v, 6))) && (byte_at128(self.v, 7) == 0 || p(byte_at128(self.v, 7))) && (byte_at128(self.v, 8) == 0 || p(byte_at128(self.v, 8))) && (byte_at128(self.v, 9) == 0 || p(byte_at128(self.v, 9))) && (byte_at128(self.v, 10) == 0 || p(byte_at128(self.v, 10))) && (byte_at128(self.v, 11) == 0 || p(byte_at128(self.v, 11))) && (byte_at128(self.v, 12) == 0 || p(byte_at128(self.v, 12))) && (byte_at128(self.v, 13) == 0 || p(byte_at128(self.v, 13))) && (byte_at128(self.v, 14) == 0 || p(byte_at128(self.v, 14))) && (byte_at128(self.v, 15) == 0 || p(byte_at128(self.v, 15)))),
        ensures
            all == (forall|i: int| 0 <= i < self@.len() ==> p(#[trigger] self@[i])),
    {
        lemma_first_zero_shape128(self.v, 0);
        if all {
            assert forall|i: int| 0 <= i < self@.len() implies p(self@[i]) by {
                assert(self@[i] == byte_at128(self.v, i as u128));
                assert(byte_at128(self.v, i as u128) != 0);
            }
        }
        if (forall|i: int| 0 <= i < self@.len() ==> p(#[trigger] self@[i])) {
            assert forall|j: u128| j < 16 implies (byte_at128(self.v, j) == 0 || p(
                byte_at128(self.v, j),
            )) by {
                if byte_at128(self.v, j) != 0 {
                    assert(j < str_len128(self.v));
                    assert(self@[j as int] == byte_at128(self.v, j));
                }
            }
        }
    }

    /// A new string with every letter lower-cased; other characters,
    /// and the length, are unchanged.
    pub fn to_ascii_lowercase(self) -> (r: TinyStr16)
        ensures
            r@ == lower_seq(self@),
            r.well_formed(),
    {
        proof {
            use_type_invariant(&self);
            lemma_wf_high_clear128(self.v);
        }
        let word = self.v;
        let result = word | (((word + 0x3f3f_3f3f_3f3f_3f3f_3f3f_3f3f_3f3f_3f3f) & !(word + 0x2525_2525_2525_2525_2525_2525_2525_2525) & 0x8080_8080_8080_8080_8080_8080_8080_8080) >> 2);
        proof {
            assert(result == lower_word128(word));
            assert forall|j: u128| j < 16 implies #[trigger] byte_at128(result, j) == lower_byte(
                byte_at128(word, j),
            ) by {
                lemma_lower128(word, j);
            }
            lemma_mapped_wf128(word, result);
            assert(view128(result) =~= self@.map(|i: int, b: u8| lower_byte(b)));
        }
        TinyStr16 { v: result }
    }

    /// A new string with every letter upper-cased; other characters,
    /// and the length, are unchanged.
    pub fn to_ascii_uppercase(self) -> (r: TinyStr16)
        ensures
            r@ == upper_seq(self@),
            r.well_formed(),
    {
        proof {
            use_type_invariant(&self);
            lemma_wf_high_clear128(self.v);
        }
        let word = self.v;
        let result = word & !(((word + 0x1f1f_1f1f_1f1f_1f1f_1f1f_1f1f_1f1f_1f1f) & !(word + 0x0505_0505_0505_0505_0505_0505_0505_0505) & 0x8080_8080_8080_8080_8080_8080_8080_8080) >> 2);
        proof {
            assert(result == upper_word128(word));
            assert forall|j: u128| j < 16 implies #[trigger] byte_at128(result, j) == upper_byte(
                byte_at128(word, j),
            ) by {
                lemma_upper128(word, j);
            }
            lemma_mapped_wf128(word, result);
            assert(view128(result) =~= self@.map(|i: int, b: u8| upper_byte(b)));
        }
        TinyStr16 { v: result }
    }

    /// A new string with the first character upper-cased and every other
    /// letter lower-cased; non-letters are unchanged.
    pub fn to_ascii_titlecase(self) -> (r: TinyStr16)
        ensures
            r@ == title_seq(self@),
            r.well_formed(),
    {
        proof {
            use_type_invariant(&self);
            lemma_wf_high_clear128(self.v);
        }
        let word = self.v;
        let m = ((word + 0x3f3f_3f3f_3f3f_3f3f_3f3f_3f3f_3f3f_3f1f) & !(word + 0x2525_2525_2525_2525_2525_2525_2525_2505) & 0x8080_8080_8080_8080_8080_8080_8080_8080) >> 2;
        let result = (word | m) & !(0x20 & m);
        proof {
            assert(result == title_word128(word));
            assert forall|j: u128| j < 16 implies #[trigger] byte_at128(result, j) == (if j == 0 {
                upper_byte(byte_at128(word, j))
            } else {
                lower_byte(byte_at128(word, j))
            }) by {
                lemma_title128(word, j);
            }
            lemma_mapped_wf128(word, result);
            assert(view128(result) =~= self@.map(
                |i: int, b: u8|
                    if i == 0 {
                        upper_byte(b)
                    } else {
                        lower_byte(b)
                    },
            ));
        }
        TinyStr16 { v: result }
    }
}

impl PartialOrd for TinyStr16 {
    /// Byte-lexicographic comparison of the decoded strings, computed on
    /// the padded words: zero padding sorts before every character, so
    /// comparing the sixteen byte positions in order decides the strings.
    fn partial_cmp(&self, other: &Self) -> (r: Option<core::cmp::Ordering>) {
        proof {
            use_type_invariant(self);
            use_type_invariant(other);
        }
        let mut i: usize = 0;
        while i < 16
            invariant
                i <= 16,
                wf128(self.v),
                wf128(other.v),
                forall|k: u128| k < i ==> byte_at128(self.v, k) == #[trigger] byte_at128(other.v, k),
            decreases 16 - i,
        {
            let a = get_byte128(self.v, i);
            let b = get_byte128(other.v, i);
            if a < b {
                proof {
                    lemma_cmp_padded128(self.v, other.v, i as u128);
                }
                return Some(core::cmp::Ordering::Less);
            }
            if a > b {
                proof {
                    lemma_cmp_padded128(other.v, self.v, i as u128);
                    lemma_lex_cmp_spec(self@, other@);
                    lemma_lex_cmp_spec(other@, self@);
                }
                return Some(core::cmp::Ordering::Greater);
            }
            i += 1;
        }
        proof {
            lemma_word_eq128(self.v, other.v);
            lemma_first_zero_shape128(self.v, 0);
            lemma_lex_cmp_prefix(self@, other@, self@.len() as int);
        }
        Some(core::cmp::Ordering::Equal)
    }
}

impl vstd::std_specs::cmp::PartialOrdSpecImpl for TinyStr16 {
    open spec fn obeys_partial_cmp_spec() -> bool {
        true
    }

    open spec fn partial_cmp_spec(&self, other: &TinyStr16) -> Option<core::cmp::Ordering> {
        Some(lex_cmp(self.view(), other.view()))
    }
}

/// Two well-formed words that agree on a prefix of byte positions and
/// then hold a strictly smaller byte on the left compare as `Less`.
proof fn lemma_cmp_padded128(v1: u128, v2: u128, j: u128)
    requires
        wf128(v1),
        wf128(v2),
        j < 16,
        forall|k: u128| k < j ==> byte_at128(v1, k) == #[trigger] byte_at128(v2, k),
        byte_at128(v1, j) < byte_at128(v2, j),
    ensures
        lex_cmp(view128(v1), view128(v2)) == core::cmp::Ordering::Less,
{
    let a = view128(v1);
    let b = view128(v2);
    let l1 = str_len128(v1);
    let l2 = str_len128(v2);
    lemma_first_zero_shape128(v1, 0);
    lemma_first_zero_shape128(v2, 0);
    assert(byte_at128(v2, j) != 0);
    assert(j < l2);
    assert forall|k: int| 0 <= k < j implies a[k] == b[k] by {
        assert(byte_at128(v1, k as u128) == byte_at128(v2, k as u128));
    }
    if j < l1 {
        lemma_lex_cmp_prefix(a, b, j as int);
    } else {
        assert(l1 == j) by {
            if l1 < j {
                assert(byte_at128(v2, l1) == byte_at128(v1, l1));
            }
        }
        lemma_lex_cmp_prefix(a, b, j as int);
    }
}

/// Equality of tiny strings is equality of the strings they decode to.
pub proof fn lemma_eq_iff_view_eq16(a: TinyStr16, b: TinyStr16)
    requires
        a.well_formed(),
        b.well_formed(),
    ensures
        a == b <==> a@ == b@,
{
    if a@ == b@ {
        a.lemma_valid();
        b.lemma_valid();
        assert(str_len128(a.repr()) == a@.len());
        assert forall|j: u128| j < 16 implies byte_at128(a.repr(), j) == #[trigger] byte_at128(
            b.repr(),
            j,
        ) by {
            if j < a@.len() {
                assert(a@[j as int] == byte_at128(a.repr(), j as u128));
                assert(b@[j as int] == byte_at128(b.repr(), j as u128));
            }
        }
        lemma_word_eq128(a.repr(), b.repr());
    }
}

/// The comparison order of tiny strings is the lexicographic order of
/// the byte strings they decode to.
pub proof fn lemma_order_is_lexicographic16(a: TinyStr16, b: TinyStr16)
    requires
        a.well_formed(),
        b.well_formed(),
    ensures
        a.partial_cmp_spec(&b) == Some(core::cmp::Ordering::Less) <==> lex_lt(a@, b@),
        a.partial_cmp_spec(&b) == Some(core::cmp::Ordering::Greater) <==> lex_lt(b@, a@),
        a.partial_cmp_spec(&b) == Some(core::cmp::Ordering::Equal) <==> a == b,
{
    lemma_lex_cmp_spec(a@, b@);
    lemma_eq_iff_view_eq16(a, b);
}

} // verus!
