//! A tiny string of 1 to 4 non-NUL ASCII characters, packed into a `u32`.

use vstd::prelude::*;

use crate::ascii::encode_error;
use crate::ascii::is_alnum_byte;
use crate::ascii::is_alpha_byte;
use crate::ascii::is_digit_byte;
use crate::ascii::is_str_byte;
use crate::ascii::lex_cmp;
use crate::ascii::lex_lt;
use crate::ascii::lemma_lex_cmp_prefix;
use crate::ascii::lemma_lex_cmp_spec;
use crate::ascii::lower_byte;
use crate::ascii::lower_seq;
use crate::ascii::title_seq;
use crate::ascii::upper_seq;
use crate::ascii::upper_byte;
use crate::ascii::nul_prefix;
use crate::error::Error;
use crate::pack32::byte_at32;
use crate::pack32::get_byte32;
use crate::pack32::lemma_first_zero_is32;
use crate::pack32::lemma_first_zero_shape32;
use crate::pack32::lemma_high_clear32;
use crate::pack32::lemma_word_eq32;
use crate::pack32::padded32;
use crate::pack32::str_len32;
use crate::pack32::try_u32_from_bytes;
use crate::pack32::view32;
use crate::pack32::wf32;
use crate::pack32::word_len32;
use crate::strconv::ascii_bytes_to_string;
use vstd::std_specs::cmp::PartialOrdSpec;
use vstd::string::StringSliceAdditionalSpecFns;

verus! {

/// A tiny string that is from 1 to 4 non-NUL ASCII characters, stored as
/// a single `u32` with the first character in the low-order byte.
#[derive(Clone, Copy, PartialEq, Eq, Structural, Debug, Hash)]
pub struct TinyStr4 {
    v: u32,
}

#[verifier::type_invariant]
spec fn tinystr4_inv(s: TinyStr4) -> bool {
    wf32(s.v)
}

impl View for TinyStr4 {
    type V = Seq<u8>;

    /// The logical bytes of the string, first character first.
    closed spec fn view(&self) -> Seq<u8> {
        view32(self.v)
    }
}

/// Whole-word upper-casing: selects the `0x20` bit of every lower-case
/// letter byte and clears it.
spec fn upper_word32(w: u32) -> u32 {
    w & !((((w + 0x1f1f_1f1f) as u32) & !((w + 0x0505_0505) as u32) & 0x8080_8080) >> 2)
}

/// Whole-word lower-casing: selects the `0x20` bit of every upper-case
/// letter byte and sets it.
spec fn lower_word32(w: u32) -> u32 {
    w | ((((w + 0x3f3f_3f3f) as u32) & !((w + 0x2525_2525) as u32) & 0x8080_8080) >> 2)
}

/// Whole-word title-casing: lower-cases every byte but the first, and
/// upper-cases the first.
spec fn title_word32(w: u32) -> u32 {
    let m = ((((w + 0x3f3f_3f1f) as u32) & !((w + 0x2525_2505) as u32) & 0x8080_8080) >> 2);
    (w | m) & !(0x20 & m)
}

/// High bit per populated (non-zero) byte.
spec fn populated_mask32(w: u32) -> u32 {
    ((w + 0x7f7f_7f7f) as u32) & 0x8080_8080
}

/// High bit per populated byte that is not a letter.
spec fn alpha_flags32(w: u32) -> u32 {
    let lower = w | 0x2020_2020;
    (!((lower + 0x1f1f_1f1f) as u32) | ((lower + 0x0505_0505) as u32)) & populated_mask32(w)
}

/// High bit per populated byte that is not a decimal digit.
spec fn digit_flags32(w: u32) -> u32 {
    (!((w + 0x5050_5050) as u32) | ((w + 0x4646_4646) as u32)) & populated_mask32(w)
}

/// High bit per populated byte that is neither letter nor digit.
spec fn alnum_flags32(w: u32) -> u32 {
    let numeric = !((w + 0x5050_5050) as u32) | ((w + 0x4646_4646) as u32);
    let lower = w | 0x2020_2020;
    let alpha = !((lower + 0x1f1f_1f1f) as u32) | ((lower + 0x0505_0505) as u32);
    (alpha & numeric) & populated_mask32(w)
}

proof fn lemma_upper32(w: u32, j: u32)
    by (bit_vector)
    requires
        j < 4,
        w & 0x8080_8080 == 0,
    ensures
        byte_at32(upper_word32(w), j) == upper_byte(byte_at32(w, j)),
{
}

proof fn lemma_lower32(w: u32, j: u32)
    by (bit_vector)
    requires
        j < 4,
        w & 0x8080_8080 == 0,
    ensures
        byte_at32(lower_word32(w), j) == lower_byte(byte_at32(w, j)),
{
}

proof fn lemma_title32(w: u32, j: u32)
    by (bit_vector)
    requires
        j < 4,
        w & 0x8080_8080 == 0,
    ensures
        byte_at32(title_word32(w), j) == (if j == 0 {
            upper_byte(byte_at32(w, j))
        } else {
            lower_byte(byte_at32(w, j))
        }),
{
}

proof fn lemma_alpha32(w: u32)
    by (bit_vector)
    requires
        w & 0x8080_8080 == 0,
    ensures
        (alpha_flags32(w) == 0) <==> ((byte_at32(w, 0) == 0 || is_alpha_byte(byte_at32(w, 0))) && (
        byte_at32(w, 1) == 0 || is_alpha_byte(byte_at32(w, 1))) && (byte_at32(w, 2) == 0
            || is_alpha_byte(byte_at32(w, 2))) && (byte_at32(w, 3) == 0 || is_alpha_byte(
            byte_at32(w, 3),
        ))),
{
}

proof fn lemma_digit32(w: u32)
    by (bit_vector)
    requires
        w & 0x8080_8080 == 0,
    ensures
        (digit_flags32(w) == 0) <==> ((byte_at32(w, 0) == 0 || is_digit_byte(byte_at32(w, 0))) && (
        byte_at32(w, 1) == 0 || is_digit_byte(byte_at32(w, 1))) && (byte_at32(w, 2) == 0
            || is_digit_byte(byte_at32(w, 2))) && (byte_at32(w, 3) == 0 || is_digit_byte(
            byte_at32(w, 3),
        ))),
{
}

proof fn lemma_alnum32(w: u32)
    by (bit_vector)
    requires
        w & 0x8080_8080 == 0,
    ensures
        (alnum_flags32(w) == 0) <==> ((byte_at32(w, 0) == 0 || is_alnum_byte(byte_at32(w, 0))) && (
        byte_at32(w, 1) == 0 || is_alnum_byte(byte_at32(w, 1))) && (byte_at32(w, 2) == 0
            || is_alnum_byte(byte_at32(w, 2))) && (byte_at32(w, 3) == 0 || is_alnum_byte(
            byte_at32(w, 3),
        ))),
{
}

/// A well-formed word has no high bit set, and the headroom needed by
/// the whole-word formulas.
proof fn lemma_wf_high_clear32(v: u32)
    requires
        wf32(v),
    ensures
        v & 0x8080_8080 == 0,
        v <= 0x7f7f_7f7f,
        (v | 0x2020_2020) <= 0x7f7f_7f7f,
{
    assert(byte_at32(v, 0) < 0x80 && byte_at32(v, 1) < 0x80 && byte_at32(v, 2) < 0x80 && byte_at32(
        v,
        3,
    ) < 0x80);
    lemma_high_clear32(v);
}

/// A byte-wise case conversion keeps the word well-formed and maps the
/// view byte for byte.
proof fn lemma_mapped_wf32(v: u32, r: u32)
    requires
        wf32(v),
        forall|j: u32|
            j < 4 ==> (#[trigger] byte_at32(r, j) == 0 <==> byte_at32(v, j) == 0),
        forall|j: u32| j < 4 ==> byte_at32(r, j) < 0x80,
    ensures
        wf32(r),
        str_len32(r) == str_len32(v),
        str_len32(v) <= 4,
{
    lemma_first_zero_shape32(v, 0);
    lemma_first_zero_is32(r, 0, str_len32(v));
}

impl TinyStr4 {
    /// The packed word behind this string: byte `i`, counted from the
    /// low-order end, is character `i`. This layout is byte-for-byte the
    /// canonical little-endian wire form.
    pub closed spec fn repr(&self) -> u32 {
        self.v
    }

    /// The packing invariant: what every value constructed by this
    /// library satisfies.
    pub open spec fn well_formed(&self) -> bool {
        wf32(self.repr())
    }

    /// A well-formed value is a validated packing of its view.
    pub proof fn lemma_valid(&self)
        requires
            self.well_formed(),
        ensures
            wf32(self.repr()),
            self@ == view32(self.repr()),
            1 <= self@.len() <= 4,
            forall|i: int| 0 <= i < self@.len() ==> is_str_byte(#[trigger] self@[i]),
    {
        lemma_first_zero_shape32(self.v, 0);
        assert forall|i: int| 0 <= i < self@.len() implies is_str_byte(self@[i]) by {
            assert(self@[i] == byte_at32(self.v, i as u32));
        }
    }

    /// Creates a `TinyStr4` from a byte slice, validating length,
    /// 7-bit-ness and absence of NUL bytes; on success the view is
    /// exactly the input.
    pub fn from_bytes(bytes: &[u8]) -> (r: Result<TinyStr4, Error>)
        ensures
            match r {
                Ok(t) => encode_error(bytes@, 4) is None && t@ == bytes@ && t.well_formed(),
                Err(e) => encode_error(bytes@, 4) == Some(e),
            },
    {
        match try_u32_from_bytes(bytes) {
            Ok(w) => Ok(TinyStr4 { v: w }),
            Err(e) => Err(e),
        }
    }

    /// Parses text, validating its UTF-8 bytes like
    /// [`Self::from_bytes`].
    pub fn from_str(text: &str) -> (r: Result<TinyStr4, Error>)
        ensures
            match r {
                Ok(t) => encode_error(text.spec_bytes(), 4) is None && t@ == text.spec_bytes()
                    && t.well_formed(),
                Err(e) => encode_error(text.spec_bytes(), 4) == Some(e),
            },
    {
        TinyStr4::from_bytes(text.as_bytes())
    }

    /// Builds a value from a packed little-endian word as read back from
    /// storage or a wire: the bytes before the first NUL are taken as
    /// the string and validated, and bytes after it are discarded.
    pub fn from_le_integer(x: u32) -> (r: Result<TinyStr4, Error>)
        ensures
            match r {
                Ok(t) => encode_error(nul_prefix(padded32(x)), 4) is None && t@ == nul_prefix(
                    padded32(x),
                ) && t.well_formed(),
                Err(e) => encode_error(nul_prefix(padded32(x)), 4) == Some(e),
            },
    {
        let mut bytes: Vec<u8> = Vec::new();
        let mut k: usize = 0;
        while k < 4
            invariant
                k <= 4,
                bytes@.len() == k,
                forall|j: int| 0 <= j < k ==> bytes@[j] == byte_at32(x, j as u32),
            decreases 4 - k,
        {
            bytes.push(get_byte32(x, k));
            k += 1;
        }
        proof {
            assert(bytes@ =~= padded32(x));
        }
        let prefix = crate::ule::chunk_prefix(bytes.as_slice(), 0, 4);
        proof {
            assert(bytes@.subrange(0, 4) =~= padded32(x));
        }
        TinyStr4::from_bytes(prefix.as_slice())
    }

    /// Constructor for a pre-validated packed word in the canonical
    /// little-endian layout, as produced by compile-time encoding; the
    /// caller's guarantee that the word is validly packed replaces the
    /// runtime checks.
    pub fn new_unchecked(text: u32) -> (r: TinyStr4)
        requires
            wf32(text),
        ensures
            r.repr() == text,
            r.well_formed(),
    {
        TinyStr4 { v: text }
    }

    /// Constructor for a pre-validated packed word as obtained from
    /// [`Self::as_unsigned`]. The stored word is kept in the canonical
    /// layout, so this coincides with [`Self::new_unchecked`].
    pub fn from_native_unchecked(text: u32) -> (r: TinyStr4)
        requires
            wf32(text),
        ensures
            r.repr() == text,
            r.well_formed(),
    {
        TinyStr4 { v: text }
    }

    /// The raw packed word.
    pub fn as_unsigned(&self) -> (r: u32)
        ensures
            r == self.repr(),
            wf32(r),
    {
        proof {
            use_type_invariant(self);
        }
        self.v
    }

    /// The string itself, decoded from the packed word.
    pub fn as_str(&self) -> (r: String)
        ensures
            r@ == self@.map(|i: int, b: u8| b as char),
    {
        proof {
            use_type_invariant(self);
            lemma_first_zero_shape32(self.v, 0);
        }
        let len = word_len32(self.v);
        let mut bytes: Vec<u8> = Vec::new();
        let mut i: usize = 0;
        while i < len
            invariant
                wf32(self.v),
                len == str_len32(self.v),
                len <= 4,
                i <= len,
                bytes@.len() == i,
                forall|j: int| 0 <= j < i ==> bytes@[j] == byte_at32(self.v, j as u32),
            decreases len - i,
        {
            bytes.push(get_byte32(self.v, i));
            i += 1;
        }
        proof {
            assert(bytes@ =~= self@);
            assert forall|j: int| 0 <= j < bytes@.len() implies bytes@[j] < 0x80 by {
                assert(bytes@[j] == byte_at32(self.v, j as u32));
            }
        }
        ascii_bytes_to_string(&bytes)
    }

    /// True exactly when every character is an ASCII letter.
    pub fn is_ascii_alphabetic(self) -> (r: bool)
        ensures
            r == (forall|i: int| 0 <= i < self@.len() ==> is_alpha_byte(#[trigger] self@[i])),
    {
        proof {
            use_type_invariant(&self);
            lemma_wf_high_clear32(self.v);
            lemma_alpha32(self.v);
        }
        let word = self.v;
        let mask = (word + 0x7f7f_7f7f) & 0x8080_8080;
        let lower = word | 0x2020_2020;
        let alpha = !(lower + 0x1f1f_1f1f) | (lower + 0x0505_0505);
        let r = (alpha & mask) == 0;
        proof {
            assert(alpha & mask == alpha_flags32(word));
            self.lemma_bytes_prop(
                |b: u8| is_alpha_byte(b),
                (byte_at32(word, 0) == 0 || is_alpha_byte(byte_at32(word, 0))) && (byte_at32(
                    word,
                    1,
                ) == 0 || is_alpha_byte(byte_at32(word, 1))) && (byte_at32(word, 2) == 0
                    || is_alpha_byte(byte_at32(word, 2))) && (byte_at32(word, 3) == 0
                    || is_alpha_byte(byte_at32(word, 3))),
            );
        }
        r
    }

    /// True exactly when every character is an ASCII letter or digit.
    pub fn is_ascii_alphanumeric(self) -> (r: bool)
        ensures
            r == (forall|i: int| 0 <= i < self@.len() ==> is_alnum_byte(#[trigger] self@[i])),
    {
        proof {
            use_type_invariant(&self);
            lemma_wf_high_clear32(self.v);
            lemma_alnum32(self.v);
        }
        let word = self.v;
        let mask = (word + 0x7f7f_7f7f) & 0x8080_8080;
        let numeric = !(word + 0x5050_5050) | (word + 0x4646_4646);
        let lower = word | 0x2020_2020;
        let alpha = !(lower + 0x1f1f_1f1f) | (lower + 0x0505_0505);
        let r = ((alpha & numeric) & mask) == 0;
        proof {
            assert((alpha & numeric) & mask == alnum_flags32(word));
            self.lemma_bytes_prop(
                |b: u8| is_alnum_byte(b),
                (byte_at32(word, 0) == 0 || is_alnum_byte(byte_at32(word, 0))) && (byte_at32(
                    word,
                    1,
                ) == 0 || is_alnum_byte(byte_at32(word, 1))) && (byte_at32(word, 2) == 0
                    || is_alnum_byte(byte_at32(word, 2))) && (byte_at32(word, 3) == 0
                    || is_alnum_byte(byte_at32(word, 3))),
            );
        }
        r
    }

    /// True exactly when every character is an ASCII decimal digit.
    pub fn is_ascii_numeric(self) -> (r: bool)
        ensures
            r == (forall|i: int| 0 <= i < self@.len() ==> is_digit_byte(#[trigger] self@[i])),
    {
        proof {
            use_type_invariant(&self);
            lemma_wf_high_clear32(self.v);
            lemma_digit32(self.v);
        }
        let word = self.v;
        let mask = (word + 0x7f7f_7f7f) & 0x8080_8080;
        let numeric = !(word + 0x5050_5050) | (word + 0x4646_4646);
        let r = (numeric & mask) == 0;
        proof {
            assert(numeric & mask == digit_flags32(word));
            self.lemma_bytes_prop(
                |b: u8| is_digit_byte(b),
                (byte_at32(word, 0) == 0 || is_digit_byte(byte_at32(word, 0))) && (byte_at32(
                    word,
                    1,
                ) == 0 || is_digit_byte(byte_at32(word, 1))) && (byte_at32(word, 2) == 0
                    || is_digit_byte(byte_at32(word, 2))) && (byte_at32(word, 3) == 0
                    || is_digit_byte(byte_at32(word, 3))),
            );
        }
        r
    }

    /// Bridges the four padded-byte conditions of a whole-word test to a
    /// statement over the view: padding bytes are zero and view bytes
    /// are not, so the conditions hold exactly when every character of
    /// the view satisfies the property.
    proof fn lemma_bytes_prop(&self, p: spec_fn(u8) -> bool, all: bool)
        requires
            wf32(self.v),
            all == ((byte_at32(self.v, 0) == 0 || p(byte_at32(self.v, 0))) && (byte_at32(self.v, 1)
                == 0 || p(byte_at32(self.v, 1))) && (byte_at32(self.v, 2) == 0 || p(
                byte_at32(self.v, 2),
            )) && (byte_at32(self.v, 3) == 0 || p(byte_at32(self.v, 3)))),
        ensures
            all == (forall|i: int| 0 <= i < self@.len() ==> p(#[trigger] self@[i])),
    {
        lemma_first_zero_shape32(self.v, 0);
        if all {
            assert forall|i: int| 0 <= i < self@.len() implies p(self@[i]) by {
                assert(self@[i] == byte_at32(self.v, i as u32));
                assert(byte_at32(self.v, i as u32) != 0);
            }
        }
        if (forall|i: int| 0 <= i < self@.len() ==> p(#[trigger] self@[i])) {
            assert forall|j: u32| j < 4 implies (byte_at32(self.v, j) == 0 || p(
                byte_at32(self.v, j),
            )) by {
                if byte_at32(self.v, j) != 0 {
                    assert(j < str_len32(self.v));
                    assert(self@[j as int] == byte_at32(self.v, j));
                }
            }
        }
    }

    /// A new string with every letter lower-cased; other characters,
    /// and the length, are unchanged.
    pub fn to_ascii_lowercase(self) -> (r: TinyStr4)
        ensures
            r@ == lower_seq(self@),
            r.well_formed(),
    {
        proof {
            use_type_invariant(&self);
            lemma_wf_high_clear32(self.v);
        }
        let word = self.v;
        let result = word | (((word + 0x3f3f_3f3f) & !(word + 0x2525_2525) & 0x8080_8080) >> 2);
        proof {
            assert(result == lower_word32(word));
            assert forall|j: u32| j < 4 implies #[trigger] byte_at32(result, j) == lower_byte(
                byte_at32(word, j),
            ) by {
                lemma_lower32(word, j);
            }
            lemma_mapped_wf32(word, result);
            assert(view32(result) =~= self@.map(|i: int, b: u8| lower_byte(b)));
        }
        TinyStr4 { v: result }
    }

    /// A new string with every letter upper-cased; other characters,
    /// and the length, are unchanged.
    pub fn to_ascii_uppercase(self) -> (r: TinyStr4)
        ensures
            r@ == upper_seq(self@),
            r.well_formed(),
    {
        proof {
            use_type_invariant(&self);
            lemma_wf_high_clear32(self.v);
        }
        let word = self.v;
        let result = word & !(((word + 0x1f1f_1f1f) & !(word + 0x0505_0505) & 0x8080_8080) >> 2);
        proof {
            assert(result == upper_word32(word));
            assert forall|j: u32| j < 4 implies #[trigger] byte_at32(result, j) == upper_byte(
                byte_at32(word, j),
            ) by {
                lemma_upper32(word, j);
            }
            lemma_mapped_wf32(word, result);
            assert(view32(result) =~= self@.map(|i: int, b: u8| upper_byte(b)));
        }
        TinyStr4 { v: result }
    }

    /// A new string with the first character upper-cased and every other
    /// letter lower-cased; non-letters are unchanged.
    pub fn to_ascii_titlecase(self) -> (r: TinyStr4)
        ensures
            r@ == title_seq(self@),
            r.well_formed(),
    {
        proof {
            use_type_invariant(&self);
            lemma_wf_high_clear32(self.v);
        }
        let word = self.v;
        let m = ((word + 0x3f3f_3f1f) & !(word + 0x2525_2505) & 0x8080_8080) >> 2;
        let result = (word | m) & !(0x20 & m);
        proof {
            assert(result == title_word32(word));
            assert forall|j: u32| j < 4 implies #[trigger] byte_at32(result, j) == (if j == 0 {
                upper_byte(byte_at32(word, j))
            } else {
                lower_byte(byte_at32(word, j))
            }) by {
                lemma_title32(word, j);
            }
            lemma_mapped_wf32(word, result);
            assert(view32(result) =~= self@.map(
                |i: int, b: u8|
                    if i == 0 {
                        upper_byte(b)
                    } else {
                        lower_byte(b)
                    },
            ));
        }
        TinyStr4 { v: result }
    }
}

impl PartialOrd for TinyStr4 {
    /// Byte-lexicographic comparison of the decoded strings, computed on
    /// the padded words: zero padding sorts before every character, so
    /// comparing the four byte positions in order decides the strings.
    fn partial_cmp(&self, other: &Self) -> (r: Option<core::cmp::Ordering>) {
        proof {
            use_type_invariant(self);
            use_type_invariant(other);
        }
        let mut i: usize = 0;
        while i < 4
            invariant
                i <= 4,
                wf32(self.v),
                wf32(other.v),
                forall|k: u32| k < i ==> byte_at32(self.v, k) == #[trigger] byte_at32(other.v, k),
            decreases 4 - i,
        {
            let a = get_byte32(self.v, i);
            let b = get_byte32(other.v, i);
            if a < b {
                proof {
                    lemma_cmp_padded32(self.v, other.v, i as u32);
                }
                return Some(core::cmp::Ordering::Less);
            }
            if a > b {
                proof {
                    lemma_cmp_padded32(other.v, self.v, i as u32);
                    lemma_lex_cmp_spec(self@, other@);
                    lemma_lex_cmp_spec(other@, self@);
                }
                return Some(core::cmp::Ordering::Greater);
            }
            i += 1;
        }
        proof {
            lemma_word_eq32(self.v, other.v);
            lemma_first_zero_shape32(self.v, 0);
            lemma_lex_cmp_prefix(self@, other@, self@.len() as int);
        }
        Some(core::cmp::Ordering::Equal)
    }
}

impl vstd::std_specs::cmp::PartialOrdSpecImpl for TinyStr4 {
    open spec fn obeys_partial_cmp_spec() -> bool {
        true
    }

    open spec fn partial_cmp_spec(&self, other: &TinyStr4) -> Option<core::cmp::Ordering> {
        Some(lex_cmp(self.view(), other.view()))
    }
}

/// Two well-formed words that agree on a prefix of byte positions and
/// then hold a strictly smaller byte on the left compare as `Less`.
proof fn lemma_cmp_padded32(v1: u32, v2: u32, j: u32)
    requires
        wf32(v1),
        wf32(v2),
        j < 4,
        forall|k: u32| k < j ==> byte_at32(v1, k) == #[trigger] byte_at32(v2, k),
        byte_at32(v1, j) < byte_at32(v2, j),
    ensures
        lex_cmp(view32(v1), view32(v2)) == core::cmp::Ordering::Less,
{
    let a = view32(v1);
    let b = view32(v2);
    let l1 = str_len32(v1);
    let l2 = str_len32(v2);
    lemma_first_zero_shape32(v1, 0);
    lemma_first_zero_shape32(v2, 0);
    assert(byte_at32(v2, j) != 0);
    assert(j < l2);
    assert forall|k: int| 0 <= k < j implies a[k] == b[k] by {
        assert(byte_at32(v1, k as u32) == byte_at32(v2, k as u32));
    }
    if j < l1 {
        lemma_lex_cmp_prefix(a, b, j as int);
    } else {
        assert(l1 == j) by {
            if l1 < j {
                assert(byte_at32(v2, l1) == byte_at32(v1, l1));
            }
        }
        lemma_lex_cmp_prefix(a, b, j as int);
    }
}

/// Equality of tiny strings is equality of the strings they decode to.
pub proof fn lemma_eq_iff_view_eq4(a: TinyStr4, b: TinyStr4)
    requires
        a.well_formed(),
        b.well_formed(),
    ensures
        a == b <==> a@ == b@,
{
    if a@ == b@ {
        a.lemma_valid();
        b.lemma_valid();
        assert(str_len32(a.repr()) == a@.len());
        assert forall|j: u32| j < 4 implies byte_at32(a.repr(), j) == #[trigger] byte_at32(
            b.repr(),
            j,
        ) by {
            if j < a@.len() {
                assert(a@[j as int] == byte_at32(a.repr(), j as u32));
                assert(b@[j as int] == byte_at32(b.repr(), j as u32));
            }
        }
        lemma_word_eq32(a.repr(), b.repr());
    }
}

/// The comparison order of tiny strings is the lexicographic order of
/// the byte strings they decode to.
pub proof fn lemma_order_is_lexicographic4(a: TinyStr4, b: TinyStr4)
    requires
        a.well_formed(),
        b.well_formed(),
    ensures
        a.partial_cmp_spec(&b) == Some(core::cmp::Ordering::Less) <==> lex_lt(a@, b@),
        a.partial_cmp_spec(&b) == Some(core::cmp::Ordering::Greater) <==> lex_lt(b@, a@),
        a.partial_cmp_spec(&b) == Some(core::cmp::Ordering::Equal) <==> a == b,
{
    lemma_lex_cmp_spec(a@, b@);
    lemma_eq_iff_view_eq4(a, b);
}

} // verus!
