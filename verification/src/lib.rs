//! Compact, fixed-capacity representations for short ASCII-only strings.
//!
//! Each string of 1 to N non-NUL ASCII bytes (N = 4, 8 or 16) is packed into a
//! single unsigned integer of N bytes, with the first character in the
//! low-order byte and zero bytes as padding. Comparison, case conversion and
//! character classification are computed by whole-word bitwise arithmetic
//! (SIMD-within-a-register), and every operation is verified against a
//! byte-by-byte specification of the packed value.

pub mod ascii;
mod error;
pub mod pack128;
pub mod pack32;
pub mod pack64;
mod strconv;
pub mod tinystr16;
pub mod tinystr4;
pub mod tinystr8;
pub mod tinystrauto;
pub mod ule;

pub use error::Error;
pub use pack128::try_u128_from_bytes;
pub use pack32::try_u32_from_bytes;
pub use pack64::try_u64_from_bytes;
pub use tinystr16::lemma_eq_iff_view_eq16;
pub use tinystr16::lemma_order_is_lexicographic16;
pub use tinystr16::TinyStr16;
pub use tinystr4::lemma_eq_iff_view_eq4;
pub use tinystr4::lemma_order_is_lexicographic4;
pub use tinystr4::TinyStr4;
pub use tinystr8::lemma_eq_iff_view_eq8;
pub use tinystr8::lemma_order_is_lexicographic8;
pub use tinystr8::TinyStr8;
pub use tinystrauto::lemma_auto_eq_is_string_eq;
pub use tinystrauto::TinyStrAuto;
