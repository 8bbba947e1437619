//! Parsing a whole URL, from a string slice or from an owned string.

use vstd::prelude::*;
use vstd::string::StringSliceAdditionalSpecFns;
use vstd::utf8::encode_utf8;

use crate::bytes::{split_str, SLASH};
use crate::parse::finalize::{
    assemble, finalize_web_url, lemma_path_plus_holds, lemma_pre_path_holds,
    lemma_pre_path_holds_extend,
};
use crate::parse::path_plus::{parse_path_plus, path_plus_stage};
use crate::parse::pre_path::{parse_pre_path, pre_path_stage};
use crate::parse::Error;
use crate::url::{UrlView, WebUrl};

verus! {

broadcast use vstd::utf8::group_utf8_lib;

/// The parse of the URL text `s`: the pre-path stage, then the path-plus stage on the rest (on a
/// lone `/` when nothing follows the pre-path, which is then appended), then the finalizer, which
/// lowercases the pre-path and rejects a URL of 4 GiB or more. The first stage that fails gives
/// the error. The address that a literal IP host parses to is the outside parser's to give, so the
/// view here leaves it out (`None`); `is_ip` says whether there is one.
pub open spec fn url_parse(s: Seq<u8>) -> Result<UrlView, Error> {
    match pre_path_stage(s) {
        Err(e) => Err(e),
        Ok(p) => {
            let b = if p.len() == s.len() {
                s + seq![SLASH]
            } else {
                s
            };
            match path_plus_stage(b.subrange(p.len() as int, b.len() as int)) {
                Err(e) => Err(e),
                Ok(pp) => if b.len() > u32::MAX {
                    Err(Error::UrlTooLong)
                } else {
                    Ok(assemble(b, p, pp, None))
                },
            }
        },
    }
}

impl WebUrl {
    /// Parses a URL from an owned string, which becomes the URL's own storage. On failure the
    /// string is handed back with the error.
    pub fn parse_owned(s: String) -> (r: Result<WebUrl, (Error, String)>)
        ensures
            match r {
                Ok(u) => u.wf() && url_parse(encode_utf8(s@)) == Ok::<UrlView, Error>(u@.without_ip()),
                Err((e, back)) => url_parse(encode_utf8(s@)) == Err::<UrlView, Error>(e) && back@
                    == s@,
            },
    {
        let ghost b = encode_utf8(s@);
        let pre_path = match parse_pre_path(s.as_str()) {
            Ok(p) => p,
            Err(e) => return Err((e, s)),
        };
        proof {
            lemma_pre_path_holds(b);
        }
        let len = s.as_str().as_bytes().len();
        let n = pre_path.len();
        if n == len {
            let slash = "/";
            proof {
                reveal_strlit("/");
                assert(vstd::utf8::is_ascii_chars(slash@));
                assert(slash.spec_bytes() =~= seq![SLASH]);
                assert((b + seq![SLASH]).subrange(n as int, n + 1) =~= seq![SLASH]);
            }
            let path_plus = match parse_path_plus(slash) {
                Ok(p) => p,
                Err(e) => return Err((e, s)),
            };
            if len >= u32::MAX as usize {
                return Err((Error::UrlTooLong, s));
            }
            let mut url = s;
            url.append(slash);
            proof {
                crate::bytes::lemma_encode_concat(s@, slash@);
                let c = encode_utf8(url@);
                assert(c == b + seq![SLASH]);
                lemma_pre_path_holds_extend(b, seq![SLASH], pre_path@);
                lemma_path_plus_holds(slash.spec_bytes());
                assert(c.subrange(n as int, c.len() as int) =~= seq![SLASH]);
                assert(c.subrange(0, n as int) =~= b.subrange(0, n as int));
            }
            match finalize_web_url(url, pre_path, path_plus) {
                Ok(u) => Ok(u),
                Err((e, back)) => Err((e, back)),
            }
        } else {
            let url = s;
            proof {
                assert(b.subrange(0, n as int)[n - 1] < 0x80);
            }
            let path_plus = {
                let (_, rest) = split_str(url.as_str(), n);
                match parse_path_plus(rest) {
                    Ok(p) => p,
                    Err(e) => return Err((e, url)),
                }
            };
            proof {
                lemma_path_plus_holds(b.subrange(n as int, b.len() as int));
            }
            match finalize_web_url(url, pre_path, path_plus) {
                Ok(u) => Ok(u),
                Err((e, back)) => Err((e, back)),
            }
        }
    }

    /// Parses a URL from a string slice.
    pub fn parse(s: &str) -> (r: Result<WebUrl, Error>)
        ensures
            match r {
                Ok(u) => u.wf() && url_parse(s.spec_bytes()) == Ok::<UrlView, Error>(u@.without_ip()),
                Err(e) => url_parse(s.spec_bytes()) == Err::<UrlView, Error>(e),
            },
    {
        match Self::parse_owned(s.to_owned()) {
            Ok(u) => Ok(u),
            Err((e, _)) => Err(e),
        }
    }
}

impl std::str::FromStr for WebUrl {
    type Err = Error;

    fn from_str(s: &str) -> (r: Result<WebUrl, Error>)
        ensures
            match r {
                Ok(u) => u.wf() && url_parse(s.spec_bytes()) == Ok::<UrlView, Error>(u@.without_ip()),
                Err(e) => url_parse(s.spec_bytes()) == Err::<UrlView, Error>(e),
            },
    {
        WebUrl::parse(s)
    }
}

impl TryFrom<String> for WebUrl {
    type Error = (Error, String);

    fn try_from(s: String) -> (r: Result<WebUrl, (Error, String)>)
        ensures
            match r {
                Ok(u) => u.wf() && url_parse(encode_utf8(s@)) == Ok::<UrlView, Error>(u@.without_ip()),
                Err((e, back)) => url_parse(encode_utf8(s@)) == Err::<UrlView, Error>(e) && back@
                    == s@,
            },
    {
        WebUrl::parse_owned(s)
    }
}

impl vstd::std_specs::convert::TryFromSpecImpl<String> for WebUrl {
    open spec fn obeys_try_from_spec() -> bool {
        false
    }

    open spec fn try_from_spec(v: String) -> Result<WebUrl, (Error, String)> {
        arbitrary()
    }
}

} // verus!
