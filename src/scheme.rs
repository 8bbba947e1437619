//! The URL scheme.

use vstd::prelude::*;
use vstd::string::StringSliceAdditionalSpecFns;
use vstd::utf8::encode_utf8;

use crate::bytes::is_digit;

verus! {

/// A valid first byte of a scheme: a lowercase ASCII letter, or any ASCII letter when case is
/// ignored.
pub open spec fn scheme_first_ok(c: u8, ignore_case: bool) -> bool {
    (0x61 <= c <= 0x7a) || (ignore_case && 0x41 <= c <= 0x5a)
}

/// A valid later byte of a scheme: a valid first byte, a digit, `+`, `-` or `.`.
pub open spec fn scheme_char_ok(c: u8, ignore_case: bool) -> bool {
    scheme_first_ok(c, ignore_case) || is_digit(c) || c == 0x2b || c == 0x2d || c == 0x2e
}

/// A valid scheme: non-empty, with a valid first byte and valid later bytes.
pub open spec fn scheme_valid(s: Seq<u8>, ignore_case: bool) -> bool {
    &&& s.len() > 0
    &&& scheme_first_ok(s[0], ignore_case)
    &&& forall|i: int| 1 <= i < s.len() ==> scheme_char_ok(#[trigger] s[i], ignore_case)
}

/// A web-based URL scheme, always valid and lowercase.
#[derive(Copy, Clone, Ord, PartialOrd, Eq, PartialEq, Hash, Debug)]
pub struct Scheme<'a> {
    scheme: &'a str,
}

impl<'a> View for Scheme<'a> {
    type V = Seq<u8>;

    closed spec fn view(&self) -> Seq<u8> {
        self.scheme.spec_bytes()
    }
}

impl<'a> Scheme<'a> {
    /// Every scheme is valid and lowercase.
    #[verifier::type_invariant]
    pub open spec fn inv(&self) -> bool {
        scheme_valid(self@, false)
    }

    /// Creates a scheme from text already known to be a valid lowercase scheme.
    pub fn new(scheme: &'a str) -> (r: Self)
        requires
            scheme_valid(scheme.spec_bytes(), false),
        ensures
            r@ == scheme.spec_bytes(),
    {
        Scheme { scheme }
    }

    /// Checks if the byte `c` is a valid first byte.
    fn is_valid_first_char(c: u8, ignore_case: bool) -> (r: bool)
        ensures
            r == scheme_first_ok(c, ignore_case),
    {
        (0x61 <= c && c <= 0x7a) || (ignore_case && 0x41 <= c && c <= 0x5a)
    }

    /// Checks if the byte `c` is a valid scheme byte.
    fn is_valid_char(c: u8, ignore_case: bool) -> (r: bool)
        ensures
            r == scheme_char_ok(c, ignore_case),
    {
        Self::is_valid_first_char(c, ignore_case) || (0x30 <= c && c <= 0x39) || c == 0x2b || c
            == 0x2d || c == 0x2e
    }

    /// Checks if the `scheme` is valid.
    pub fn is_valid(scheme: &str, ignore_case: bool) -> (r: bool)
        ensures
            r == scheme_valid(scheme.spec_bytes(), ignore_case),
    {
        let b = scheme.as_bytes();
        if b.len() == 0 || !Self::is_valid_first_char(b[0], ignore_case) {
            return false;
        }
        let mut i: usize = 1;
        while i < b.len()
            invariant
                1 <= i <= b@.len(),
                b@ == scheme.spec_bytes(),
                forall|k: int| 1 <= k < i ==> scheme_char_ok(#[trigger] b@[k], ignore_case),
            decreases b@.len() - i,
        {
            if !Self::is_valid_char(b[i], ignore_case) {
                return false;
            }
            i = i + 1;
        }
        true
    }

    /// Gets the scheme string.
    pub fn as_str(&self) -> (r: &'a str)
        ensures
            r.spec_bytes() == self@,
    {
        self.scheme
    }

    /// Gets the scheme as an owned string.
    pub fn to_string(&self) -> (r: String)
        ensures
            encode_utf8(r@) == self@,
    {
        self.scheme.to_owned()
    }
}

impl<'a> AsRef<str> for Scheme<'a> {
    fn as_ref(&self) -> (r: &str)
        ensures
            r.spec_bytes() == self@,
    {
        self.scheme
    }
}

} // verus!
