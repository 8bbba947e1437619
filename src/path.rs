//! The URL path.

use vstd::prelude::*;
use vstd::string::StringSliceAdditionalSpecFns;
use vstd::utf8::encode_utf8;

use crate::bytes::{
    ascii_alnum, ascii_punct, find, is_alnum, is_punct, lemma_find, position, split_str, HASH,
    QUESTION, SLASH,
};
use crate::parse::Error;

verus! {

broadcast use vstd::utf8::group_utf8_lib;

/// A valid path byte after the leading `/`: an ASCII letter, digit or punctuation character other
/// than `?` and `#`, which end the path in a URL.
pub open spec fn path_char_ok(c: u8) -> bool {
    is_alnum(c) || (is_punct(c) && c != QUESTION && c != HASH)
}

/// A valid path: a `/` followed by valid path bytes.
pub open spec fn path_valid(s: Seq<u8>) -> bool {
    &&& s.len() > 0
    &&& s[0] == SLASH
    &&& forall|i: int| 1 <= i < s.len() ==> path_char_ok(#[trigger] s[i])
}

/// The segments of `rest`, a path or a tail of one that starts at a `/`: each `/` opens a
/// segment that runs to the next `/` or to the end.
pub open spec fn segments(rest: Seq<u8>) -> Seq<Seq<u8>>
    decreases rest.len(),
    via segments_decreases
{
    if rest.len() == 0 {
        seq![]
    } else {
        let t = rest.subrange(1, rest.len() as int);
        let k = find(t, SLASH);
        seq![t.subrange(0, k)] + segments(t.subrange(k, t.len() as int))
    }
}

#[via_fn]
proof fn segments_decreases(rest: Seq<u8>) {
    if rest.len() != 0 {
        let t = rest.subrange(1, rest.len() as int);
        lemma_find(t, SLASH);
    }
}

/// The bytes of each string of `v`.
pub open spec fn bytes_of_strs(v: Seq<&str>) -> Seq<Seq<u8>> {
    v.map_values(|x: &str| x.spec_bytes())
}

/// A web-based URL path, always valid: never empty, and starting with a `/`.
#[derive(Copy, Clone, Ord, PartialOrd, Eq, PartialEq, Hash, Debug)]
pub struct Path<'a> {
    path: &'a str,
}

impl<'a> View for Path<'a> {
    type V = Seq<u8>;

    closed spec fn view(&self) -> Seq<u8> {
        self.path.spec_bytes()
    }
}

impl Default for Path<'static> {
    fn default() -> (r: Self)
        ensures
            r@ == seq![SLASH],
    {
        let path = "/";
        proof {
            reveal_strlit("/");
            assert(vstd::utf8::is_ascii_chars(path@));
            assert(path.spec_bytes() =~= seq![SLASH]);
        }
        Path { path }
    }
}

impl<'a> Path<'a> {
    /// Every path is valid.
    #[verifier::type_invariant]
    pub open spec fn inv(&self) -> bool {
        path_valid(self@)
    }

    /// Creates a path from text already known to be a valid path.
    pub fn new(path: &'a str) -> (r: Self)
        requires
            path_valid(path.spec_bytes()),
        ensures
            r@ == path.spec_bytes(),
    {
        Path { path }
    }

    /// Checks if the byte `c` is valid after the leading `/`.
    fn is_valid_char(c: u8) -> (r: bool)
        ensures
            r == path_char_ok(c),
    {
        ascii_alnum(c) || (ascii_punct(c) && c != QUESTION && c != HASH)
    }

    /// Checks if the `path` is valid.
    pub fn is_valid(path: &str) -> (r: bool)
        ensures
            r == path_valid(path.spec_bytes()),
    {
        let b = path.as_bytes();
        if b.len() == 0 || b[0] != SLASH {
            return false;
        }
        let mut i: usize = 1;
        while i < b.len()
            invariant
                1 <= i <= b@.len(),
                b@ == path.spec_bytes(),
                forall|k: int| 1 <= k < i ==> path_char_ok(#[trigger] b@[k]),
            decreases b@.len() - i,
        {
            if !Self::is_valid_char(b[i]) {
                return false;
            }
            i = i + 1;
        }
        true
    }

    /// Gets the path string.
    pub fn as_str(&self) -> (r: &'a str)
        ensures
            r.spec_bytes() == self@,
    {
        self.path
    }

    /// Gets the path string as an owned string.
    pub fn to_string(&self) -> (r: String)
        ensures
            encode_utf8(r@) == self@,
    {
        self.path.to_owned()
    }

    /// Gets the path segments: the path is split at each `/`, the leading one included, so a
    /// trailing `/` gives a last, empty segment. (`/a/b/` gives `a`, `b` and ``)
    pub fn iter_segments(&self) -> (r: Vec<&'a str>)
        ensures
            bytes_of_strs(r@) == segments(self@),
    {
        proof {
            use_type_invariant(self);
        }
        let mut out: Vec<&'a str> = Vec::new();
        let mut remaining: &'a str = self.path;
        while remaining.as_bytes().len() > 0
            invariant
                remaining.spec_bytes().len() > 0 ==> remaining.spec_bytes()[0] == SLASH,
                bytes_of_strs(out@) + segments(remaining.spec_bytes()) == segments(self@),
            decreases remaining.spec_bytes().len(),
        {
            let ghost before = out@;
            let ghost rb = remaining.spec_bytes();
            let (_, t) = split_str(remaining, 1);
            let k = position(t.as_bytes(), SLASH);
            proof {
                lemma_find(t.spec_bytes(), SLASH);
            }
            let (segment, rest) = split_str(t, k);
            out.push(segment);
            remaining = rest;
            proof {
                assert(bytes_of_strs(out@) =~= bytes_of_strs(before) + seq![segment.spec_bytes()]);
                assert(segments(rb) == seq![segment.spec_bytes()] + segments(rest.spec_bytes()));
                assert(bytes_of_strs(out@) + segments(remaining.spec_bytes()) =~= bytes_of_strs(
                    before,
                ) + segments(rb));
            }
        }
        proof {
            assert(bytes_of_strs(out@) + segments(remaining.spec_bytes()) =~= bytes_of_strs(out@));
        }
        out
    }
}

impl<'a> TryFrom<&'a str> for Path<'a> {
    type Error = Error;

    fn try_from(path: &'a str) -> (r: Result<Self, Error>)
        ensures
            match r {
                Ok(p) => path_valid(path.spec_bytes()) && p@ == path.spec_bytes(),
                Err(e) => !path_valid(path.spec_bytes()) && e == Error::InvalidPath,
            },
    {
        if Self::is_valid(path) {
            Ok(Path { path })
        } else {
            Err(Error::InvalidPath)
        }
    }
}

impl<'a> vstd::std_specs::convert::TryFromSpecImpl<&'a str> for Path<'a> {
    open spec fn obeys_try_from_spec() -> bool {
        false
    }

    open spec fn try_from_spec(v: &'a str) -> Result<Self, Error> {
        arbitrary()
    }
}

impl<'a> AsRef<str> for Path<'a> {
    fn as_ref(&self) -> (r: &str)
        ensures
            r.spec_bytes() == self@,
    {
        self.path
    }
}

} // verus!
