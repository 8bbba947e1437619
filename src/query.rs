//! The URL query.

use vstd::prelude::*;
use vstd::string::StringSliceAdditionalSpecFns;
use vstd::utf8::encode_utf8;

use crate::bytes::{
    ascii_alnum, ascii_punct, find, is_alnum, is_punct, lemma_find, position, split_str,
    AMPERSAND, EQUALS, HASH, QUESTION,
};
use crate::param::{name_char_ok, param_valid, split_param, value_char_ok, Param, ParamView};
use crate::parse::Error;

verus! {

broadcast use vstd::utf8::group_utf8_lib;

/// A valid query byte after the leading `?`: an ASCII letter, digit or punctuation character
/// other than `#`, which ends the query in a URL.
pub open spec fn query_char_ok(c: u8) -> bool {
    is_alnum(c) || (is_punct(c) && c != HASH)
}

/// A valid query: a `?` followed by valid query bytes.
pub open spec fn query_valid(s: Seq<u8>) -> bool {
    &&& s.len() > 0
    &&& s[0] == QUESTION
    &&& forall|i: int| 1 <= i < s.len() ==> query_char_ok(#[trigger] s[i])
}

/// The parameters of `rest`, a query or a tail of one that starts at a `&`: each `?` or `&`
/// opens a parameter that runs to the next `&` or to the end.
pub open spec fn params(rest: Seq<u8>) -> Seq<ParamView>
    decreases rest.len(),
    via params_decreases
{
    if rest.len() == 0 {
        seq![]
    } else {
        let t = rest.subrange(1, rest.len() as int);
        let k = find(t, AMPERSAND);
        seq![split_param(t.subrange(0, k))] + params(t.subrange(k, t.len() as int))
    }
}

#[via_fn]
proof fn params_decreases(rest: Seq<u8>) {
    if rest.len() != 0 {
        let t = rest.subrange(1, rest.len() as int);
        lemma_find(t, AMPERSAND);
    }
}

/// The views of a sequence of parameters.
pub open spec fn param_views(v: Seq<Param>) -> Seq<ParamView> {
    v.map_values(|p: Param| p@)
}

/// A web-based URL query, always valid: never empty, and starting with a `?`.
#[derive(Copy, Clone, Ord, PartialOrd, Eq, PartialEq, Hash, Debug)]
pub struct Query<'a> {
    query: &'a str,
}

impl<'a> View for Query<'a> {
    type V = Seq<u8>;

    closed spec fn view(&self) -> Seq<u8> {
        self.query.spec_bytes()
    }
}

impl<'a> Query<'a> {
    /// Every query is valid.
    #[verifier::type_invariant]
    pub open spec fn inv(&self) -> bool {
        query_valid(self@)
    }

    /// Creates a query from text already known to be a valid query.
    pub fn new(query: &'a str) -> (r: Self)
        requires
            query_valid(query.spec_bytes()),
        ensures
            r@ == query.spec_bytes(),
    {
        Query { query }
    }

    /// Checks if the `query` is valid.
    pub fn is_valid(query: &str) -> (r: bool)
        ensures
            r == query_valid(query.spec_bytes()),
    {
        let b = query.as_bytes();
        if b.len() == 0 || b[0] != QUESTION {
            return false;
        }
        let mut i: usize = 1;
        while i < b.len()
            invariant
                1 <= i <= b@.len(),
                b@ == query.spec_bytes(),
                forall|k: int| 1 <= k < i ==> query_char_ok(#[trigger] b@[k]),
            decreases b@.len() - i,
        {
            let c = b[i];
            if !(ascii_alnum(c) || (ascii_punct(c) && c != HASH)) {
                return false;
            }
            i = i + 1;
        }
        true
    }

    /// Gets the query string.
    pub fn as_str(&self) -> (r: &'a str)
        ensures
            r.spec_bytes() == self@,
    {
        self.query
    }

    /// Gets the query string as an owned string.
    pub fn to_string(&self) -> (r: String)
        ensures
            encode_utf8(r@) == self@,
    {
        self.query.to_owned()
    }

    /// Gets the query parameters: the text after the `?` split at each `&`, each piece split at
    /// its first `=` into a name and a value.
    pub fn iter(&self) -> (r: Vec<Param<'a>>)
        ensures
            param_views(r@) == params(self@),
    {
        proof {
            use_type_invariant(self);
        }
        let mut out: Vec<Param<'a>> = Vec::new();
        let mut remaining: &'a str = self.query;
        while remaining.as_bytes().len() > 0
            invariant
                remaining.spec_bytes().len() > 0 ==> remaining.spec_bytes()[0] < 0x80,
                forall|i: int|
                    1 <= i < remaining.spec_bytes().len() ==> query_char_ok(
                        #[trigger] remaining.spec_bytes()[i],
                    ),
                param_views(out@) + params(remaining.spec_bytes()) == params(self@),
            decreases remaining.spec_bytes().len(),
        {
            let ghost before = out@;
            let ghost rb = remaining.spec_bytes();
            let (_, t) = split_str(remaining, 1);
            let k = position(t.as_bytes(), AMPERSAND);
            proof {
                lemma_find(t.spec_bytes(), AMPERSAND);
            }
            let (piece, rest) = split_str(t, k);
            proof {
                let pb = piece.spec_bytes();
                assert(forall|i: int| 0 <= i < pb.len() ==> pb[i] == rb[i + 1]);
                let e = find(pb, EQUALS);
                lemma_find(pb, EQUALS);
                let sp = split_param(pb);
                assert forall|i: int| 0 <= i < sp.0.len() implies name_char_ok(#[trigger] sp.0[i]) by {
                    assert(sp.0[i] == pb[i]);
                    assert(query_char_ok(rb[i + 1]));
                }
                if e < pb.len() {
                    let v = pb.subrange(e + 1, pb.len() as int);
                    assert forall|i: int| 0 <= i < v.len() implies value_char_ok(#[trigger] v[i]) by {
                        assert(v[i] == pb[e + 1 + i]);
                        assert(query_char_ok(rb[e + 2 + i]));
                    }
                }
                assert(param_valid(sp));
            }
            let param = Param::from_str(piece);
            out.push(param);
            remaining = rest;
            proof {
                assert(param_views(out@) =~= param_views(before) + seq![param@]);
                assert(params(rb) == seq![param@] + params(rest.spec_bytes()));
                assert(param_views(out@) + params(remaining.spec_bytes()) =~= param_views(before)
                    + params(rb));
                let nb = remaining.spec_bytes();
                assert forall|i: int| 1 <= i < nb.len() implies query_char_ok(#[trigger] nb[i]) by {
                    assert(nb[i] == rb[1 + k + i]);
                }
            }
        }
        proof {
            assert(param_views(out@) + params(remaining.spec_bytes()) =~= param_views(out@));
        }
        out
    }
}

impl<'a> TryFrom<&'a str> for Query<'a> {
    type Error = Error;

    fn try_from(query: &'a str) -> (r: Result<Self, Error>)
        ensures
            match r {
                Ok(q) => query_valid(query.spec_bytes()) && q@ == query.spec_bytes(),
                Err(e) => !query_valid(query.spec_bytes()) && e == Error::InvalidQuery,
            },
    {
        if Self::is_valid(query) {
            Ok(Query { query })
        } else {
            Err(Error::InvalidQuery)
        }
    }
}

impl<'a> vstd::std_specs::convert::TryFromSpecImpl<&'a str> for Query<'a> {
    open spec fn obeys_try_from_spec() -> bool {
        false
    }

    open spec fn try_from_spec(v: &'a str) -> Result<Self, Error> {
        arbitrary()
    }
}

impl<'a> AsRef<str> for Query<'a> {
    fn as_ref(&self) -> (r: &str)
        ensures
            r.spec_bytes() == self@,
    {
        self.query
    }
}

} // verus!
