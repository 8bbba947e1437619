//! The path-plus stage: the path, the optional query and the optional fragment.

use vstd::prelude::*;
use vstd::string::StringSliceAdditionalSpecFns;

use crate::bytes::{
    find, find_either, lemma_find, lemma_find_either_from, position, position_either, split_str,
    HASH, QUESTION,
};
use crate::fragment::{fragment_valid, Fragment};
use crate::parse::Error;
use crate::path::{path_valid, Path};
use crate::query::{query_valid, Query};

verus! {

broadcast use vstd::utf8::group_utf8_lib;

/// The path stage on `s`: the path runs to the first `?` or `#`, or to the end.
pub open spec fn path_stage(s: Seq<u8>) -> Option<nat> {
    let end = find_either(s, QUESTION, HASH);
    if path_valid(s.subrange(0, end)) {
        Some(end as nat)
    } else {
        None
    }
}

/// The query stage on `s`, which follows the path: when `s` starts with `?`, the query runs to
/// the first `#` or to the end, and must be valid; otherwise there is no query. The result is the
/// query's length.
pub open spec fn query_stage(s: Seq<u8>) -> Option<nat> {
    if s.len() > 0 && s[0] == QUESTION {
        let end = find(s, HASH);
        if query_valid(s.subrange(0, end)) {
            Some(end as nat)
        } else {
            None
        }
    } else {
        Some(0)
    }
}

/// The fragment stage on `s`, which follows the query: nothing, or a valid fragment.
pub open spec fn fragment_stage(s: Seq<u8>) -> bool {
    s.len() == 0 || fragment_valid(s)
}

/// The path-plus stage on `s`: the lengths of the path, the query and the fragment.
pub open spec fn path_plus_stage(s: Seq<u8>) -> Result<(nat, nat, nat), Error> {
    match path_stage(s) {
        None => Err(Error::InvalidPath),
        Some(path_len) => {
            let u = s.subrange(path_len as int, s.len() as int);
            match query_stage(u) {
                None => Err(Error::InvalidQuery),
                Some(query_len) => {
                    let v = u.subrange(query_len as int, u.len() as int);
                    if fragment_stage(v) {
                        Ok((path_len, query_len, v.len()))
                    } else {
                        Err(Error::InvalidFragment)
                    }
                },
            }
        },
    }
}

/// The parsing data for a web-based URL from the path to the end.
#[derive(Copy, Clone, Ord, PartialOrd, Eq, PartialEq, Hash, Debug)]
pub struct PathPlus {
    /// The length of the path, its `/` included. (it is never 0)
    pub path_len: usize,
    /// The length of the query, its `?` included. (it is 0 when there is no query)
    pub query_len: usize,
    /// The length of the fragment, its `#` included. (it is 0 when there is no fragment)
    pub fragment_len: usize,
}

impl View for PathPlus {
    type V = (nat, nat, nat);

    open spec fn view(&self) -> (nat, nat, nat) {
        (self.path_len as nat, self.query_len as nat, self.fragment_len as nat)
    }
}

/// Parses the path from the prefix of `s`.
///
/// Returns `Ok((path, rest_of_s))`.
/// Returns `Err(InvalidPath)` if the path is invalid.
pub fn parse_path(s: &str) -> (r: Result<(Path<'_>, &str), Error>)
    ensures
        match r {
            Ok((path, rest)) => path_stage(s.spec_bytes()) == Some(path@.len()) && path@
                == s.spec_bytes().subrange(0, path@.len() as int) && rest.spec_bytes()
                == s.spec_bytes().subrange(path@.len() as int, s.spec_bytes().len() as int),
            Err(e) => path_stage(s.spec_bytes()) is None && e == Error::InvalidPath,
        },
{
    let b = s.as_bytes();
    let end = position_either(b, QUESTION, HASH);
    proof {
        lemma_find_either_from(b@, QUESTION, HASH, 0);
    }
    let (path, rest) = split_str(s, end);
    match Path::try_from(path) {
        Ok(path) => Ok((path, rest)),
        Err(e) => Err(e),
    }
}

/// Parses the optional query from the prefix of `s`.
///
/// Returns `Ok((Some(query), rest_of_s))`.
/// Returns `Ok((None, s))` if `s` does not start with a `?`.
/// Returns `Err(InvalidQuery)` if the query is invalid.
pub fn parse_query(s: &str) -> (r: Result<(Option<Query<'_>>, &str), Error>)
    ensures
        match r {
            Ok((query, rest)) => {
                let n = match query {
                    Some(q) => q@.len(),
                    None => 0,
                };
                &&& query_stage(s.spec_bytes()) == Some(n)
                &&& (query is Some <==> (s.spec_bytes().len() > 0 && s.spec_bytes()[0] == QUESTION))
                &&& match query {
                    Some(q) => q@ == s.spec_bytes().subrange(0, n as int),
                    None => true,
                }
                &&& rest.spec_bytes() == s.spec_bytes().subrange(
                    n as int,
                    s.spec_bytes().len() as int,
                )
            },
            Err(e) => query_stage(s.spec_bytes()) is None && e == Error::InvalidQuery,
        },
{
    let b = s.as_bytes();
    if b.len() > 0 && b[0] == QUESTION {
        let hash = position(b, HASH);
        proof {
            lemma_find(b@, HASH);
        }
        let (query, fragment) = split_str(s, hash);
        match Query::try_from(query) {
            Ok(query) => Ok((Some(query), fragment)),
            Err(e) => Err(e),
        }
    } else {
        proof {
            assert(b@.subrange(0, b@.len() as int) =~= b@);
        }
        Ok((None, s))
    }
}

/// Parses the optional `fragment`, which must start with a `#` or be empty.
///
/// Returns `Ok(Some(fragment))`.
/// Returns `Ok(None)` if the `fragment` is empty.
/// Returns `Err(InvalidFragment)` if the fragment is invalid.
pub fn parse_fragment(fragment: &str) -> (r: Result<Option<&str>, Error>)
    ensures
        match r {
            Ok(Some(f)) => fragment.spec_bytes().len() > 0 && fragment_valid(fragment.spec_bytes())
                && f.spec_bytes() == fragment.spec_bytes(),
            Ok(None) => fragment.spec_bytes().len() == 0,
            Err(e) => !fragment_stage(fragment.spec_bytes()) && e == Error::InvalidFragment,
        },
{
    if fragment.as_bytes().len() == 0 {
        Ok(None)
    } else if Fragment::is_valid(fragment) {
        Ok(Some(fragment))
    } else {
        Err(Error::InvalidFragment)
    }
}

/// Parses the `path_plus`: the path, query, and fragment are validated.
pub fn parse_path_plus(path_plus: &str) -> (r: Result<PathPlus, Error>)
    ensures
        match r {
            Ok(p) => path_plus_stage(path_plus.spec_bytes()) == Ok::<(nat, nat, nat), Error>(p@),
            Err(e) => path_plus_stage(path_plus.spec_bytes()) == Err::<(nat, nat, nat), Error>(e),
        },
{
    let (path, after_path) = match parse_path(path_plus) {
        Ok(x) => x,
        Err(e) => return Err(e),
    };
    let (query, after_query) = match parse_query(after_path) {
        Ok(x) => x,
        Err(e) => return Err(e),
    };
    let fragment = match parse_fragment(after_query) {
        Ok(f) => f,
        Err(e) => return Err(e),
    };
    let path_len: usize = path.as_str().as_bytes().len();
    let query_len: usize = match query {
        Some(q) => q.as_str().as_bytes().len(),
        None => 0,
    };
    let fragment_len: usize = match fragment {
        Some(f) => f.as_bytes().len(),
        None => 0,
    };
    Ok(PathPlus { path_len, query_len, fragment_len })
}

} // verus!
