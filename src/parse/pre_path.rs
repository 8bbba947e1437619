//! The pre-path stage: the scheme, the `://`, the host and the optional port.

use address::IPAddress;
use vstd::prelude::*;
use vstd::string::StringSliceAdditionalSpecFns;
use vstd::utf8::encode_utf8;

use crate::bytes::{
    is_ascii_bytes, cut_ok, decimal_value, find, is_digit, lemma_decimal_prefix, lemma_find, lemma_rfind_before,
    lower_bytes, position, rfind_before, rposition_before, split_str, CLOSE_BRACKET, COLON,
    OPEN_BRACKET, SLASH,
};
use crate::host::{
    domain_name_valid, domain_valid_ignore_case, ipv4_accepts, ipv6_accepts, parse_ipv4,
    parse_ipv6,
};
use crate::parse::Error;
use crate::scheme::{scheme_char_ok, scheme_first_ok, scheme_valid, Scheme};
use crate::text::lowercase_prefix;

verus! {

broadcast use vstd::utf8::group_utf8_lib;

/// The scheme stage on `s`: the scheme's length, when `s` opens with a scheme that is valid
/// ignoring case, followed by `://`.
pub open spec fn scheme_stage(s: Seq<u8>) -> Option<nat> {
    let colon = find(s, COLON);
    if colon + 3 <= s.len() && scheme_valid(s.subrange(0, colon), true) && s[colon + 1] == SLASH
        && s[colon + 2] == SLASH {
        Some(colon as nat)
    } else {
        None
    }
}

/// The length of the host at the front of `s`, which follows the `://`. The host and the port
/// run to the first `/`; a bracketed region there is a host of its own, otherwise the host ends at
/// the last `:` of the region, if any.
pub open spec fn host_split(s: Seq<u8>) -> int {
    let hp = find(s, SLASH);
    if hp == 0 {
        0
    } else if s[0] == OPEN_BRACKET && s[hp - 1] == CLOSE_BRACKET {
        hp
    } else if rfind_before(s, COLON, hp) >= 0 {
        rfind_before(s, COLON, hp)
    } else {
        hp
    }
}

/// What the host `h` is: `Some(true)` for a literal IP address (an IPv6 one in brackets),
/// `Some(false)` for a domain name that is valid ignoring case, `None` for an invalid host.
pub open spec fn host_accepts(h: Seq<u8>) -> Option<bool> {
    if h.len() == 0 {
        None
    } else if h[0] == OPEN_BRACKET {
        if h[h.len() - 1] == CLOSE_BRACKET && ipv6_accepts(h.subrange(1, h.len() - 1)) {
            Some(true)
        } else {
            None
        }
    } else if ipv4_accepts(h) {
        Some(true)
    } else if domain_name_valid(lower_bytes(h)) {
        Some(false)
    } else {
        None
    }
}

/// The port number that the digits `d` spell: at least one digit, and at most 65535.
pub open spec fn port_number(d: Seq<u8>) -> Option<u16> {
    if d.len() > 0 && (forall|i: int| 0 <= i < d.len() ==> is_digit(#[trigger] d[i]))
        && decimal_value(d) <= 65535 {
        Some(decimal_value(d) as u16)
    } else {
        None
    }
}

/// The port stage on `s`, which follows the host: when `s` starts with `:`, the port in the digits
/// up to the next `/`, and the length of `:` and digits; otherwise no port, and nothing consumed.
/// `None` when the digits are not a port.
pub open spec fn port_stage(s: Seq<u8>) -> Option<(Option<u16>, nat)> {
    if s.len() > 0 && s[0] == COLON {
        let d = s.subrange(1, s.len() as int);
        let end = find(d, SLASH);
        match port_number(d.subrange(0, end)) {
            Some(p) => Some((Some(p), (end + 1) as nat)),
            None => None,
        }
    } else {
        Some((None, 0))
    }
}

/// The lengths found by the pre-path stage, and what the host and port are.
pub struct PrePathView {
    pub scheme_len: nat,
    pub host_len: nat,
    pub is_ip: bool,
    pub port: Option<u16>,
    pub port_len: nat,
}

impl PrePathView {
    /// The length of the whole pre-path: scheme, `://`, host and port.
    pub open spec fn len(self) -> nat {
        self.scheme_len + 3 + self.host_len + self.port_len
    }
}

/// The pre-path stage on the URL text `s`.
pub open spec fn pre_path_stage(s: Seq<u8>) -> Result<PrePathView, Error> {
    match scheme_stage(s) {
        None => Err(Error::InvalidScheme),
        Some(scheme_len) => {
            let a = s.subrange(scheme_len + 3 as int, s.len() as int);
            let host_len = host_split(a);
            match host_accepts(a.subrange(0, host_len)) {
                None => Err(Error::InvalidHost),
                Some(is_ip) => match port_stage(a.subrange(host_len, a.len() as int)) {
                    None => Err(Error::InvalidPort),
                    Some((port, port_len)) => Ok(
                        PrePathView {
                            scheme_len,
                            host_len: host_len as nat,
                            is_ip,
                            port,
                            port_len,
                        },
                    ),
                },
            }
        },
    }
}

/// The parsing data for a web-based URL before the path.
#[derive(Copy, Clone, Ord, PartialOrd, Eq, PartialEq, Hash, Debug)]
pub struct PrePath {
    pub scheme_len: usize,
    pub host_len: usize,
    pub ip: Option<IPAddress>,
    pub port: Option<u16>,
    pub port_len: usize,
}

impl View for PrePath {
    type V = PrePathView;

    open spec fn view(&self) -> PrePathView {
        PrePathView {
            scheme_len: self.scheme_len as nat,
            host_len: self.host_len as nat,
            is_ip: self.ip is Some,
            port: self.port,
            port_len: self.port_len as nat,
        }
    }
}

impl PrePath {
    /// Gets the length of the pre-path string.
    pub fn len(&self) -> (r: usize)
        requires
            self@.len() <= usize::MAX,
        ensures
            r == self@.len(),
    {
        self.scheme_len + 3 + self.host_len + self.port_len
    }

    /// Checks if the pre-path string is empty: it never is.
    pub fn is_empty(&self) -> (r: bool)
        ensures
            !r,
    {
        false
    }

    /// Makes the pre-path prefix of `url` lowercase. (ASCII letters only)
    pub fn make_lowercase(&self, url: &mut String)
        requires
            self@.len() <= encode_utf8(old(url)@).len(),
            cut_ok(encode_utf8(old(url)@), self@.len() as int),
        ensures
            encode_utf8(final(url)@) == lower_bytes(
                encode_utf8(old(url)@).subrange(0, self@.len() as int),
            ) + encode_utf8(old(url)@).subrange(
                self@.len() as int,
                encode_utf8(old(url)@).len() as int,
            ),
    {
        proof {
            crate::bytes::lemma_cut_ok(encode_utf8(url@), self@.len() as int);
        }
        // The URL's byte length is a `usize`, and it bounds the pre-path's length.
        let url_len: usize = url.as_str().as_bytes().len();
        proof {
            assert(self@.len() <= url_len);
        }
        lowercase_prefix(url, self.len());
    }
}

/// Parses the scheme length from the prefix of `s`. The scheme is valid, but may hold uppercase
/// letters.
///
/// Returns `Ok((scheme_len, rest_of_s))`, where the rest starts after the `://`.
/// Returns `Err(InvalidScheme)` if the scheme or the `://` that follows it is invalid.
pub fn parse_scheme_len(s: &str) -> (r: Result<(usize, &str), Error>)
    ensures
        match r {
            Ok((n, rest)) => scheme_stage(s.spec_bytes()) == Some(n as nat) && rest.spec_bytes()
                == s.spec_bytes().subrange(n + 3, s.spec_bytes().len() as int),
            Err(e) => scheme_stage(s.spec_bytes()) is None && e == Error::InvalidScheme,
        },
{
    let b = s.as_bytes();
    let colon = position(b, COLON);
    proof {
        lemma_find(b@, COLON);
    }
    if colon < b.len() {
        let (scheme, after) = split_str(s, colon);
        if Scheme::is_valid(scheme, true) {
            let (_, s2) = split_str(after, 1);
            let b2 = s2.as_bytes();
            proof {
                assert(forall|i: int| 0 <= i < b2@.len() ==> b2@[i] == b@[colon + 1 + i]);
            }
            if b2.len() < 2 || b2[0] != SLASH || b2[1] != SLASH {
                Err(Error::InvalidScheme)
            } else {
                let (_, rest) = split_str(s2, 2);
                proof {
                    assert(rest.spec_bytes() =~= b@.subrange(colon + 3, b@.len() as int));
                }
                Ok((colon, rest))
            }
        } else {
            Err(Error::InvalidScheme)
        }
    } else {
        Err(Error::InvalidScheme)
    }
}

/// Parses the host string from the prefix of `s`. The host is **not** validated.
///
/// Returns `(host_string, rest_of_s)`.
pub fn parse_host(s: &str) -> (r: (&str, &str))
    ensures
        0 <= host_split(s.spec_bytes()) <= s.spec_bytes().len(),
        r.0.spec_bytes() == s.spec_bytes().subrange(0, host_split(s.spec_bytes())),
        r.1.spec_bytes() == s.spec_bytes().subrange(
            host_split(s.spec_bytes()),
            s.spec_bytes().len() as int,
        ),
{
    let b = s.as_bytes();
    let slash = position(b, SLASH);
    proof {
        lemma_find(b@, SLASH);
        lemma_rfind_before(b@, COLON, slash as int);
    }
    if slash == 0 {
        split_str(s, 0)
    } else if b[0] == OPEN_BRACKET && b[slash - 1] == CLOSE_BRACKET {
        split_str(s, slash)
    } else {
        match rposition_before(b, COLON, slash) {
            Some(colon) => split_str(s, colon),
            None => split_str(s, slash),
        }
    }
}

/// Parses the optional IP address from the `host` string. If the host is not an IP address, it
/// must be a domain name that is valid ignoring case.
///
/// Returns `Ok(Some(ip_address))` if the `host` is an IP address. (IPv6 within brackets)
/// Returns `Ok(None)` if the `host` is a domain name.
/// Returns `Err(InvalidHost)` if the `host` is invalid.
pub fn parse_ip_and_validate_domain(host: &str) -> (r: Result<Option<IPAddress>, Error>)
    ensures
        match r {
            Ok(ip) => host_accepts(host.spec_bytes()) == Some(ip is Some),
            Err(e) => host_accepts(host.spec_bytes()) is None && e == Error::InvalidHost,
        },
        r is Ok ==> forall|i: int|
            0 <= i < host.spec_bytes().len() ==> host.spec_bytes()[i] < 0x80,
{
    let b = host.as_bytes();
    if b.len() == 0 {
        Err(Error::InvalidHost)
    } else if b[0] == OPEN_BRACKET {
        if b[b.len() - 1] != CLOSE_BRACKET {
            Err(Error::InvalidHost)
        } else {
            let inner = &b[1..b.len() - 1];
            proof {
                assert(inner@ =~= b@.subrange(1, b@.len() - 1));
            }
            match parse_ipv6(inner) {
                Ok(ip) => {
                    proof {
                        assert forall|i: int| 0 <= i < b@.len() implies b@[i] < 0x80 by {
                            if 0 < i < b@.len() - 1 {
                                assert(b@[i] == inner@[i - 1]);
                            }
                        }
                    }
                    Ok(Some(ip))
                },
                Err(_) => Err(Error::InvalidHost),
            }
        }
    } else {
        match parse_ipv4(b) {
            Ok(ip) => Ok(Some(ip)),
            Err(_) => {
                if domain_valid_ignore_case(b) {
                    Ok(None)
                } else {
                    Err(Error::InvalidHost)
                }
            },
        }
    }
}

/// Reads the port number in the first `end` bytes of `b`.
fn parse_port_number(b: &[u8], end: usize) -> (r: Option<u16>)
    requires
        end <= b@.len(),
    ensures
        r == port_number(b@.subrange(0, end as int)),
{
    let ghost d = b@.subrange(0, end as int);
    if end == 0 {
        return None;
    }
    let mut value: u32 = 0;
    let mut i: usize = 0;
    while i < end
        invariant
            0 <= i <= end <= b@.len(),
            d == b@.subrange(0, end as int),
            forall|k: int| 0 <= k < i ==> is_digit(#[trigger] d[k]),
            value == decimal_value(d.subrange(0, i as int)),
            value <= 65535,
        decreases end - i,
    {
        let c = b[i];
        if c < 0x30 || c > 0x39 {
            assert(!is_digit(d[i as int]));
            return None;
        }
        let next: u32 = value * 10 + (c - 0x30) as u32;
        proof {
            assert(d.subrange(0, i + 1).drop_last() =~= d.subrange(0, i as int));
        }
        if next > 65535 {
            proof {
                if port_number(d) is Some {
                    lemma_decimal_prefix(d, i + 1);
                }
            }
            return None;
        }
        value = next;
        i = i + 1;
    }
    proof {
        assert(d.subrange(0, end as int) =~= d);
    }
    Some(value as u16)
}

/// Parses the port from the prefix of `s`, which should start with a `:` if there is a port.
///
/// Returns `Ok((Some(port), rest_of_s))`.
/// Returns `Ok((None, s))` if `s` does not start with a `:`.
/// Returns `Err(InvalidPort)` if the port is invalid.
pub fn parse_port(s: &str) -> (r: Result<(Option<u16>, &str), Error>)
    ensures
        match r {
            Ok((port, rest)) => match port_stage(s.spec_bytes()) {
                Some((p, n)) => p == port && n <= s.spec_bytes().len() && rest.spec_bytes()
                    == s.spec_bytes().subrange(n as int, s.spec_bytes().len() as int),
                None => false,
            },
            Err(e) => port_stage(s.spec_bytes()) is None && e == Error::InvalidPort,
        },
{
    let b = s.as_bytes();
    if b.len() > 0 && b[0] == COLON {
        let (_, d) = split_str(s, 1);
        let db = d.as_bytes();
        let slash = position(db, SLASH);
        proof {
            lemma_find(db@, SLASH);
        }
        match parse_port_number(db, slash) {
            Some(port) => {
                let (_, rest) = split_str(d, slash);
                proof {
                    assert(rest.spec_bytes() =~= b@.subrange(slash + 1, b@.len() as int));
                }
                Ok((Some(port), rest))
            },
            None => Err(Error::InvalidPort),
        }
    } else {
        proof {
            assert(b@.subrange(0, b@.len() as int) =~= b@);
        }
        Ok((None, s))
    }
}

/// Parses the pre-path portion of the URL. The scheme and host are validated, but may hold
/// uppercase letters.
///
/// Returns `Ok(pre_path)`.
/// Returns `Err(_)` for the first part of the pre-path that is invalid.
pub fn parse_pre_path(url: &str) -> (r: Result<PrePath, Error>)
    ensures
        match r {
            Ok(p) => pre_path_stage(url.spec_bytes()) == Ok::<PrePathView, Error>(p@),
            Err(e) => pre_path_stage(url.spec_bytes()) == Err::<PrePathView, Error>(e),
        },
        r is Ok ==> is_ascii_bytes(url.spec_bytes().subrange(0, r->Ok_0@.len() as int)),
{
    let (scheme_len, after_scheme) = match parse_scheme_len(url) {
        Ok(x) => x,
        Err(e) => return Err(e),
    };
    let (host_str, after_host) = parse_host(after_scheme);
    let ip = match parse_ip_and_validate_domain(host_str) {
        Ok(ip) => ip,
        Err(e) => return Err(e),
    };
    let (port, after_port) = match parse_port(after_host) {
        Ok(x) => x,
        Err(e) => return Err(e),
    };
    proof {
        lemma_find(url.spec_bytes(), COLON);
        let a = after_scheme.spec_bytes();
        assert(a == url.spec_bytes().subrange(scheme_len + 3 as int, url.spec_bytes().len() as int));
        assert(host_str.spec_bytes() == a.subrange(0, host_split(a)));
        assert(after_host.spec_bytes() == a.subrange(host_split(a), a.len() as int));
    }
    let port_len: usize = after_host.as_bytes().len() - after_port.as_bytes().len();
    let pre_path = PrePath { scheme_len, host_len: host_str.as_bytes().len(), ip, port, port_len };
    proof {
        let b = url.spec_bytes();
        let sl = scheme_len as int;
        let he = sl + 3 + host_str.spec_bytes().len();
        let d = after_host.spec_bytes();
        assert(scheme_valid(b.subrange(0, sl), true));
        assert forall|i: int| 0 <= i < pre_path@.len() implies #[trigger] b.subrange(0, pre_path@.len() as int)[i] < 0x80 by {
            if i < sl {
                if i > 0 {
                    assert(scheme_char_ok(b.subrange(0, sl)[i], true));
                } else {
                    assert(scheme_first_ok(b.subrange(0, sl)[0], true));
                }
            } else if i < sl + 3 {
            } else if i < he {
                assert(b[i] == host_str.spec_bytes()[i - sl - 3]);
            } else if i > he {
                let dd = d.subrange(1, d.len() as int);
                crate::bytes::lemma_find(dd, SLASH);
                assert(b[i] == dd.subrange(0, find(dd, SLASH))[i - he - 1]);
            }
        }
    }
    Ok(pre_path)
}

} // verus!
