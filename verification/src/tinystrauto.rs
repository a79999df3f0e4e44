//! An ASCII string that is packed when it has at most 16 characters and
//! heap-allocated otherwise.

use vstd::prelude::*;

use crate::ascii::encode_error;
use crate::error::Error;
use crate::tinystr16::TinyStr16;
use vstd::std_specs::cmp::PartialEqSpec;
use vstd::string::StringExecFns;
use vstd::utf8::is_ascii_chars;

verus! {

/// An ASCII string that is tiny when it has at most 16 characters and a
/// `String` otherwise.
#[derive(Clone, Eq, Hash, Debug)]
pub enum TinyStrAuto {
    /// Up to 16 characters stored on the stack.
    Tiny(TinyStr16),
    /// 17 or more characters stored on the heap.
    Heap(String),
}

impl View for TinyStrAuto {
    type V = Seq<char>;

    /// The characters of the string, whichever branch holds them.
    open spec fn view(&self) -> Seq<char> {
        match self {
            TinyStrAuto::Tiny(t) => t@.map(|i: int, b: u8| b as char),
            TinyStrAuto::Heap(s) => s@,
        }
    }
}

/// What construction from text answers: the whole input must be ASCII;
/// an empty input is rejected, and one of at most 16 characters is also
/// rejected if it contains a NUL. Longer inputs go to the heap, where a
/// NUL is allowed.
pub open spec fn auto_error(s: Seq<char>) -> Option<Error> {
    if !is_ascii_chars(s) {
        Some(Error::NonAscii)
    } else if s.len() == 0 {
        Some(Error::InvalidSize)
    } else if s.len() <= 16 && (exists|i: int| 0 <= i < s.len() && s[i] == '\0') {
        Some(Error::InvalidNull)
    } else {
        None
    }
}

impl TinyStrAuto {
    /// Parses text, storing it packed when it has at most 16 characters
    /// and on the heap otherwise.
    pub fn from_str(text: &str) -> (r: Result<TinyStrAuto, Error>)
        ensures
            match r {
                Ok(a) => auto_error(text@) is None && a@ == text@ && ((a is Tiny) <==> text@.len()
                    <= 16),
                Err(e) => auto_error(text@) == Some(e),
            },
    {
        if !text.is_ascii() {
            return Err(Error::NonAscii);
        }
        proof {
            vstd::string::is_ascii_spec_bytes(text);
        }
        let bytes = text.as_bytes();
        if bytes.len() <= 16 {
            match TinyStr16::from_bytes(bytes) {
                Ok(t) => {
                    let r = TinyStrAuto::Tiny(t);
                    proof {
                        assert(r@ =~= text@);
                    }
                    Ok(r)
                },
                Err(e) => {
                    proof {
                        if e == Error::InvalidNull {
                            let i = choose|i: int| 0 <= i < bytes@.len() && bytes@[i] == 0;
                            assert(text@[i] == '\0');
                        }
                    }
                    Err(e)
                },
            }
        } else {
            Ok(TinyStrAuto::Heap(String::from_str(text)))
        }
    }

    /// The string itself, from whichever branch is active.
    pub fn as_str(&self) -> (r: String)
        ensures
            r@ == self@,
    {
        match self {
            TinyStrAuto::Tiny(t) => t.as_str(),
            TinyStrAuto::Heap(s) => s.clone(),
        }
    }

    /// What construction guarantees: a packed value is validly packed,
    /// and the branch is the one its length selects.
    pub open spec fn canonical(&self) -> bool {
        match self {
            TinyStrAuto::Tiny(t) => t.well_formed(),
            TinyStrAuto::Heap(s) => s@.len() > 16,
        }
    }
}

/// Two canonically constructed values are equal exactly when they hold
/// the same string: the branch is a function of the length, so equal
/// strings never sit in different branches.
pub proof fn lemma_auto_eq_is_string_eq(a: &TinyStrAuto, b: &TinyStrAuto)
    requires
        a.canonical(),
        b.canonical(),
    ensures
        a.eq_spec(b) <==> a@ == b@,
{
    match (a, b) {
        (TinyStrAuto::Tiny(t1), TinyStrAuto::Tiny(t2)) => {
            t1.lemma_valid();
            t2.lemma_valid();
            if a@ == b@ {
                assert forall|i: int| 0 <= i < t1@.len() implies t1@[i] == t2@[i] by {
                    assert(a@[i] == (t1@[i] as char));
                    assert(b@[i] == (t2@[i] as char));
                }
                assert(t1@ =~= t2@);
                crate::tinystr16::lemma_eq_iff_view_eq16(*t1, *t2);
            }
        },
        (TinyStrAuto::Heap(_), TinyStrAuto::Heap(_)) => {},
        (TinyStrAuto::Tiny(t1), TinyStrAuto::Heap(_)) => {
            t1.lemma_valid();
            assert(a@.len() <= 16 < b@.len());
        },
        (TinyStrAuto::Heap(_), TinyStrAuto::Tiny(t2)) => {
            t2.lemma_valid();
            assert(b@.len() <= 16 < a@.len());
        },
    }
}

impl PartialEq for TinyStrAuto {
    /// Structural equality: values in different branches are unequal.
    fn eq(&self, other: &Self) -> (r: bool) {
        match (self, other) {
            (TinyStrAuto::Tiny(a), TinyStrAuto::Tiny(b)) => *a == *b,
            (TinyStrAuto::Heap(a), TinyStrAuto::Heap(b)) => *a == *b,
            _ => false,
        }
    }
}

impl vstd::std_specs::cmp::PartialEqSpecImpl for TinyStrAuto {
    open spec fn obeys_eq_spec() -> bool {
        true
    }

    open spec fn eq_spec(&self, other: &Self) -> bool {
        match (self, other) {
            (TinyStrAuto::Tiny(a), TinyStrAuto::Tiny(b)) => a == b,
            (TinyStrAuto::Heap(a), TinyStrAuto::Heap(b)) => a@ == b@,
            _ => false,
        }
    }
}

} // verus!
