//! The URL fragment.

use vstd::prelude::*;
use vstd::string::StringSliceAdditionalSpecFns;
use vstd::utf8::encode_utf8;

use crate::bytes::{ascii_alnum, ascii_punct, is_alnum, is_punct, split_str, HASH};
use crate::parse::Error;

verus! {

broadcast use vstd::utf8::group_utf8_lib;

/// A valid fragment byte: an ASCII letter, digit or punctuation character.
pub open spec fn fragment_char_ok(c: u8) -> bool {
    is_alnum(c) || is_punct(c)
}

/// A valid fragment: a `#` followed by valid fragment bytes. (`#` may recur: nothing follows a
/// fragment in a URL)
pub open spec fn fragment_valid(s: Seq<u8>) -> bool {
    &&& s.len() > 0
    &&& s[0] == HASH
    &&& forall|i: int| 1 <= i < s.len() ==> fragment_char_ok(#[trigger] s[i])
}

/// A web-based URL fragment, always valid; its text includes the leading `#`.
#[derive(Copy, Clone, Ord, PartialOrd, Eq, PartialEq, Hash, Debug)]
pub struct Fragment<'a> {
    fragment: &'a str,
}

impl<'a> View for Fragment<'a> {
    type V = Seq<u8>;

    closed spec fn view(&self) -> Seq<u8> {
        self.fragment.spec_bytes()
    }
}

impl Default for Fragment<'static> {
    fn default() -> (r: Self)
        ensures
            r@ == seq![HASH],
    {
        let fragment = "#";
        proof {
            reveal_strlit("#");
            assert(vstd::utf8::is_ascii_chars(fragment@));
            assert(fragment.spec_bytes() =~= seq![HASH]);
        }
        Fragment { fragment }
    }
}

impl<'a> Fragment<'a> {
    /// Every fragment is valid.
    #[verifier::type_invariant]
    pub open spec fn inv(&self) -> bool {
        fragment_valid(self@)
    }

    /// Creates a fragment from text already known to be a valid fragment.
    pub fn new(fragment: &'a str) -> (r: Self)
        requires
            fragment_valid(fragment.spec_bytes()),
        ensures
            r@ == fragment.spec_bytes(),
    {
        Fragment { fragment }
    }

    /// Checks if the byte `c` is valid after the leading `#`.
    fn is_valid_char(c: u8) -> (r: bool)
        ensures
            r == fragment_char_ok(c),
    {
        ascii_alnum(c) || ascii_punct(c)
    }

    /// Checks if the `fragment` is valid.
    pub fn is_valid(fragment: &str) -> (r: bool)
        ensures
            r == fragment_valid(fragment.spec_bytes()),
    {
        let b = fragment.as_bytes();
        if b.len() == 0 || b[0] != HASH {
            return false;
        }
        let mut i: usize = 1;
        while i < b.len()
            invariant
                1 <= i <= b@.len(),
                b@ == fragment.spec_bytes(),
                forall|k: int| 1 <= k < i ==> fragment_char_ok(#[trigger] b@[k]),
            decreases b@.len() - i,
        {
            if !Self::is_valid_char(b[i]) {
                return false;
            }
            i = i + 1;
        }
        true
    }

    /// Gets the fragment without its leading `#`.
    pub fn fragment(&self) -> (r: &'a str)
        ensures
            r.spec_bytes() == self@.subrange(1, self@.len() as int),
    {
        proof {
            use_type_invariant(self);
        }
        split_str(self.fragment, 1).1
    }

    /// Gets the fragment string, with its leading `#`.
    pub fn as_str(&self) -> (r: &'a str)
        ensures
            r.spec_bytes() == self@,
    {
        self.fragment
    }

    /// Gets the fragment string as an owned string.
    pub fn to_string(&self) -> (r: String)
        ensures
            encode_utf8(r@) == self@,
    {
        self.fragment.to_owned()
    }
}

impl<'a> TryFrom<&'a str> for Fragment<'a> {
    type Error = Error;

    fn try_from(fragment: &'a str) -> (r: Result<Self, Error>)
        ensures
            match r {
                Ok(f) => fragment_valid(fragment.spec_bytes()) && f@ == fragment.spec_bytes(),
                Err(e) => !fragment_valid(fragment.spec_bytes()) && e == Error::InvalidFragment,
            },
    {
        if Self::is_valid(fragment) {
            Ok(Fragment { fragment })
        } else {
            Err(Error::InvalidFragment)
        }
    }
}

impl<'a> vstd::std_specs::convert::TryFromSpecImpl<&'a str> for Fragment<'a> {
    open spec fn obeys_try_from_spec() -> bool {
        false
    }

    open spec fn try_from_spec(v: &'a str) -> Result<Self, Error> {
        arbitrary()
    }
}

impl<'a> AsRef<str> for Fragment<'a> {
    fn as_ref(&self) -> (r: &str)
        ensures
            r.spec_bytes() == self@,
    {
        self.fragment
    }
}

} // verus!
