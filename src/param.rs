//! The URL query parameter.

use vstd::prelude::*;
use vstd::string::StringSliceAdditionalSpecFns;
use vstd::utf8::encode_utf8;

use crate::bytes::{
    ascii_alnum, ascii_punct, find, is_alnum, is_punct, lemma_encode_concat, lemma_find,
    position, split_str, AMPERSAND, EQUALS, HASH,
};
use crate::parse::Error;

verus! {

broadcast use vstd::utf8::group_utf8_lib;

/// A valid byte of a parameter name: an ASCII letter, digit or punctuation character other than
/// `&` and `#`, which end the parameter or the query, and `=`, which ends the name.
pub open spec fn name_char_ok(c: u8) -> bool {
    is_alnum(c) || (is_punct(c) && c != AMPERSAND && c != HASH && c != EQUALS)
}

/// A valid byte of a parameter value: an ASCII letter, digit or punctuation character other than
/// `&` and `#`.
pub open spec fn value_char_ok(c: u8) -> bool {
    is_alnum(c) || (is_punct(c) && c != AMPERSAND && c != HASH)
}

/// A valid parameter name. (it may be empty)
pub open spec fn name_valid(s: Seq<u8>) -> bool {
    forall|i: int| 0 <= i < s.len() ==> name_char_ok(#[trigger] s[i])
}

/// A valid parameter value. (it may be empty)
pub open spec fn value_valid(s: Seq<u8>) -> bool {
    forall|i: int| 0 <= i < s.len() ==> value_char_ok(#[trigger] s[i])
}

/// A parameter as a name and an optional value.
pub type ParamView = (Seq<u8>, Option<Seq<u8>>);

/// A parameter whose name and value are valid.
pub open spec fn param_valid(p: ParamView) -> bool {
    &&& name_valid(p.0)
    &&& match p.1 {
        Some(v) => value_valid(v),
        None => true,
    }
}

/// The parameter that the text `s` holds: split at its first `=` into a name and a value, or all
/// name when it holds no `=`.
pub open spec fn split_param(s: Seq<u8>) -> ParamView {
    let e = find(s, EQUALS);
    if e < s.len() {
        (s.subrange(0, e), Some(s.subrange(e + 1, s.len() as int)))
    } else {
        (s, None)
    }
}

/// The text of a parameter: its name, then `=` and its value when it has one.
pub open spec fn param_text(p: ParamView) -> Seq<u8> {
    match p.1 {
        Some(v) => p.0 + seq![EQUALS] + v,
        None => p.0,
    }
}

/// A web-based URL query parameter, always valid.
///
/// Both the name and value may be empty. The value may also be absent altogether, which signifies
/// a missing `=` in the parameter text.
#[derive(Copy, Clone, Ord, PartialOrd, Eq, PartialEq, Hash, Debug)]
pub struct Param<'a> {
    name: &'a str,
    value: Option<&'a str>,
}

impl<'a> View for Param<'a> {
    type V = ParamView;

    closed spec fn view(&self) -> ParamView {
        (
            self.name.spec_bytes(),
            match self.value {
                Some(v) => Some(v.spec_bytes()),
                None => None,
            },
        )
    }
}

impl<'a> Param<'a> {
    /// Every parameter is valid.
    #[verifier::type_invariant]
    pub open spec fn inv(&self) -> bool {
        param_valid(self@)
    }

    /// Creates a parameter from a name and a value already known to be valid.
    pub fn new(name: &'a str, value: Option<&'a str>) -> (r: Self)
        requires
            name_valid(name.spec_bytes()),
            match value {
                Some(v) => value_valid(v.spec_bytes()),
                None => true,
            },
        ensures
            r@.0 == name.spec_bytes(),
            r@.1 == match value {
                Some(v) => Some(v.spec_bytes()),
                None => None,
            },
    {
        Param { name, value }
    }

    /// Creates a parameter from text already known to hold a valid parameter, split at its first
    /// `=`.
    pub fn from_str(param: &'a str) -> (r: Self)
        requires
            param_valid(split_param(param.spec_bytes())),
        ensures
            r@ == split_param(param.spec_bytes()),
    {
        let b = param.as_bytes();
        let eq = position(b, EQUALS);
        proof {
            lemma_find(b@, EQUALS);
        }
        if eq < b.len() {
            let (name, eq_value) = split_str(param, eq);
            let (_, value) = split_str(eq_value, 1);
            proof {
                assert(value.spec_bytes() =~= b@.subrange(eq + 1, b@.len() as int));
            }
            Param { name, value: Some(value) }
        } else {
            Param { name: param, value: None }
        }
    }

    /// Checks if the `name` is valid.
    pub fn is_valid_name(name: &str) -> (r: bool)
        ensures
            r == name_valid(name.spec_bytes()),
    {
        let b = name.as_bytes();
        let mut i: usize = 0;
        while i < b.len()
            invariant
                0 <= i <= b@.len(),
                b@ == name.spec_bytes(),
                forall|k: int| 0 <= k < i ==> name_char_ok(#[trigger] b@[k]),
            decreases b@.len() - i,
        {
            let c = b[i];
            if !(ascii_alnum(c) || (ascii_punct(c) && c != AMPERSAND && c != HASH && c != EQUALS)) {
                return false;
            }
            i = i + 1;
        }
        true
    }

    /// Checks if the `value` is valid.
    pub fn is_valid_value(value: &str) -> (r: bool)
        ensures
            r == value_valid(value.spec_bytes()),
    {
        let b = value.as_bytes();
        let mut i: usize = 0;
        while i < b.len()
            invariant
                0 <= i <= b@.len(),
                b@ == value.spec_bytes(),
                forall|k: int| 0 <= k < i ==> value_char_ok(#[trigger] b@[k]),
            decreases b@.len() - i,
        {
            let c = b[i];
            if !(ascii_alnum(c) || (ascii_punct(c) && c != AMPERSAND && c != HASH)) {
                return false;
            }
            i = i + 1;
        }
        true
    }

    /// Gets the name.
    pub fn name(&self) -> (r: &'a str)
        ensures
            r.spec_bytes() == self@.0,
    {
        self.name
    }

    /// Gets the optional value.
    pub fn value(&self) -> (r: Option<&'a str>)
        ensures
            match r {
                Some(v) => self@.1 == Some(v.spec_bytes()),
                None => self@.1 is None,
            },
    {
        self.value
    }

    /// Gets the parameter text: the name, then `=` and the value when there is one.
    pub fn to_string(&self) -> (r: String)
        ensures
            encode_utf8(r@) == param_text(self@),
    {
        let mut r = self.name.to_owned();
        match self.value {
            Some(v) => {
                let eq = "=";
                proof {
                    reveal_strlit("=");
                    assert(vstd::utf8::is_ascii_chars(eq@));
                    assert(eq.spec_bytes() =~= seq![EQUALS]);
                }
                let ghost r0 = r@;
                r.append(eq);
                let ghost r1 = r@;
                r.append(v);
                proof {
                    lemma_encode_concat(r0, eq@);
                    lemma_encode_concat(r1, v@);
                }
            },
            None => {},
        }
        r
    }
}

impl<'a> TryFrom<&'a str> for Param<'a> {
    type Error = Error;

    fn try_from(param: &'a str) -> (r: Result<Self, Error>)
        ensures
            match r {
                Ok(p) => param_valid(split_param(param.spec_bytes())) && p@ == split_param(
                    param.spec_bytes(),
                ),
                Err(e) => !param_valid(split_param(param.spec_bytes())) && e
                    == Error::InvalidParam,
            },
    {
        let b = param.as_bytes();
        let eq = position(b, EQUALS);
        proof {
            lemma_find(b@, EQUALS);
        }
        if eq < b.len() {
            let (name, eq_value) = split_str(param, eq);
            let (_, value) = split_str(eq_value, 1);
            proof {
                assert(value.spec_bytes() =~= b@.subrange(eq + 1, b@.len() as int));
            }
            if Self::is_valid_name(name) && Self::is_valid_value(value) {
                Ok(Param { name, value: Some(value) })
            } else {
                Err(Error::InvalidParam)
            }
        } else if Self::is_valid_name(param) {
            Ok(Param { name: param, value: None })
        } else {
            Err(Error::InvalidParam)
        }
    }
}

impl<'a> vstd::std_specs::convert::TryFromSpecImpl<&'a str> for Param<'a> {
    open spec fn obeys_try_from_spec() -> bool {
        false
    }

    open spec fn try_from_spec(v: &'a str) -> Result<Self, Error> {
        arbitrary()
    }
}

} // verus!
