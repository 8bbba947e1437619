//! The web-based URL: one owned string and the byte offsets that partition it.

use address::{HostRef, IPAddress};
use vstd::prelude::*;
use vstd::string::StringSliceAdditionalSpecFns;
use vstd::utf8::encode_utf8;

use crate::bytes::{is_ascii_bytes, substr_ascii, AMPERSAND, COLON, QUESTION, SLASH};
use crate::fragment::{fragment_valid, Fragment};
use crate::host::{domain_host_ref, domain_name_valid, ip_host_ref};
use crate::param::{name_char_ok, param_text, param_valid, value_char_ok, Param, ParamView};
use crate::parse::pre_path::port_number;
use crate::path::{path_valid, Path};
use crate::query::{query_char_ok, query_valid, Query};
use crate::scheme::{scheme_valid, Scheme};
use crate::text::replace_range;

verus! {

broadcast use vstd::utf8::group_utf8_lib;

/// A URL as its text and the offsets that partition it:
///
/// ```text
/// [0, scheme_len)            scheme
/// [scheme_len, +3)           "://"
/// [scheme_len + 3, host_end) host
/// [host_end, port_end)       ":" and the port digits, or nothing
/// [port_end, path_end)       path
/// [path_end, query_end)      query with its "?", or nothing
/// [query_end, text.len())    fragment with its "#", or nothing
/// ```
pub struct UrlView {
    pub text: Seq<u8>,
    pub scheme_len: nat,
    pub host_end: nat,
    pub port_end: nat,
    pub path_end: nat,
    pub query_end: nat,
    pub port: Option<u16>,
    /// Whether the host is a literal IP address, rather than a domain name.
    pub is_ip: bool,
    /// The literal IP address of the host, as it was parsed, when there is one.
    pub ip: Option<IPAddress>,
}

impl UrlView {
    pub open spec fn scheme(self) -> Seq<u8> {
        self.text.subrange(0, self.scheme_len as int)
    }

    pub open spec fn host(self) -> Seq<u8> {
        self.text.subrange((self.scheme_len + 3) as int, self.host_end as int)
    }

    pub open spec fn path(self) -> Seq<u8> {
        self.text.subrange(self.port_end as int, self.path_end as int)
    }

    /// The query with its `?`; empty when there is no query.
    pub open spec fn query(self) -> Seq<u8> {
        self.text.subrange(self.path_end as int, self.query_end as int)
    }

    /// The fragment with its `#`; empty when there is no fragment.
    pub open spec fn fragment(self) -> Seq<u8> {
        self.text.subrange(self.query_end as int, self.text.len() as int)
    }

    /// The invariants of a URL.
    pub open spec fn wf(self) -> bool {
        &&& self.scheme_len + 3 < self.host_end
        &&& self.host_end <= self.port_end
        &&& self.port_end < self.path_end
        &&& self.path_end <= self.query_end
        &&& self.query_end <= self.text.len()
        &&& self.text.len() <= u32::MAX
        &&& is_ascii_bytes(self.text)
        &&& forall|i: int| 0 <= i < self.port_end ==> !(0x41 <= #[trigger] self.text[i] <= 0x5a)
        &&& scheme_valid(self.scheme(), false)
        &&& self.text[self.scheme_len as int] == COLON
        &&& self.text[(self.scheme_len + 1) as int] == SLASH
        &&& self.text[(self.scheme_len + 2) as int] == SLASH
        &&& self.is_ip == (self.ip is Some)
        &&& (!self.is_ip ==> domain_name_valid(self.host()))
        &&& match self.port {
            None => self.port_end == self.host_end,
            Some(p) => {
                &&& self.text[self.host_end as int] == COLON
                &&& port_number(self.text.subrange((self.host_end + 1) as int, self.port_end as int))
                    == Some(p)
            },
        }
        &&& path_valid(self.path())
        &&& (self.query().len() == 0 || query_valid(self.query()))
        &&& (self.fragment().len() == 0 || fragment_valid(self.fragment()))
    }

    /// The URL with no cached address: all that a parse of the text determines.
    pub open spec fn without_ip(self) -> UrlView {
        UrlView { ip: None, ..self }
    }

    /// The URL without its fragment.
    pub open spec fn without_fragment(self) -> UrlView {
        UrlView { text: self.text.subrange(0, self.query_end as int), ..self }
    }

    /// The URL with the fragment `f` in place of its own.
    pub open spec fn with_fragment(self, f: Seq<u8>) -> UrlView {
        UrlView { text: self.text.subrange(0, self.query_end as int) + f, ..self }
    }

    /// The URL without its query; the fragment, if any, now follows the path.
    pub open spec fn without_query(self) -> UrlView {
        UrlView {
            text: self.text.subrange(0, self.path_end as int) + self.fragment(),
            query_end: self.path_end,
            ..self
        }
    }

    /// The text that adding the parameter `p` inserts at the end of the query: `?` and the
    /// parameter when there is no query yet, `&` and the parameter otherwise.
    pub open spec fn param_insert(self, p: ParamView) -> Seq<u8> {
        seq![if self.query_end == self.path_end { QUESTION } else { AMPERSAND }] + param_text(p)
    }

    /// The URL with the parameter `p` added at the end of its query.
    pub open spec fn with_param(self, p: ParamView) -> UrlView {
        UrlView {
            text: self.text.subrange(0, self.query_end as int) + self.param_insert(p)
                + self.fragment(),
            query_end: self.query_end + self.param_insert(p).len(),
            ..self
        }
    }
}

/// The host of a URL: the literal IP address that was parsed, or the domain name.
#[derive(Copy, Clone, Eq, PartialEq, Hash, Debug)]
pub enum Host<'a> {
    /// A literal IPv4 or IPv6 address.
    Address(IPAddress),
    /// A domain name. (lowercase)
    Domain(&'a str),
}

impl<'a> Host<'a> {
    /// Checks if the host is a literal IP address.
    pub fn is_ip(&self) -> (r: bool)
        ensures
            r == (*self is Address),
    {
        match self {
            Host::Address(_) => true,
            Host::Domain(_) => false,
        }
    }

    /// Checks if the host is a domain name.
    pub fn is_domain(&self) -> (r: bool)
        ensures
            r == (*self is Domain),
    {
        match self {
            Host::Address(_) => false,
            Host::Domain(_) => true,
        }
    }

    /// Gets the host as the `address` crate's host reference, for a domain name that
    /// `Domain::is_valid_name` accepts (as every URL's domain host is).
    pub fn to_host_ref(&self) -> HostRef<'a>
        requires
            match *self {
                Host::Domain(name) => domain_name_valid(name.spec_bytes()),
                Host::Address(_) => true,
            },
    {
        match *self {
            Host::Address(ip) => ip_host_ref(ip),
            Host::Domain(name) => domain_host_ref(name),
        }
    }
}

/// A web-based URL.
///
/// All web-based URLs are in the format `scheme://host:port/path?query#fragment`, where the port,
/// query, and fragment are optional, and the path is never empty and always starts with a `/`.
/// The scheme and host are lowercase.
#[derive(Debug)]
pub struct WebUrl {
    url: String,
    scheme_len: u32,
    host_end: u32,
    ip: Option<IPAddress>,
    port_end: u32,
    port: Option<u16>,
    path_end: u32,
    query_end: u32,
}

impl View for WebUrl {
    type V = UrlView;

    closed spec fn view(&self) -> UrlView {
        UrlView {
            text: encode_utf8(self.url@),
            scheme_len: self.scheme_len as nat,
            host_end: self.host_end as nat,
            port_end: self.port_end as nat,
            path_end: self.path_end as nat,
            query_end: self.query_end as nat,
            port: self.port,
            is_ip: self.ip is Some,
            ip: self.ip,
        }
    }
}

impl WebUrl {
    /// The URL meets the invariants.
    pub open spec fn wf(&self) -> bool {
        self@.wf()
    }

    /// Creates a URL from parts already known to be consistent: the offsets partition `url` into
    /// valid components, `ip` holds the address when the host is a literal one, and `port` the
    /// number that the port digits spell.
    #[allow(clippy::too_many_arguments)]
    pub fn new(
        url: String,
        scheme_len: u32,
        host_end: u32,
        ip: Option<IPAddress>,
        port_end: u32,
        port: Option<u16>,
        path_end: u32,
        query_end: u32,
    ) -> (r: Self)
        requires
            (UrlView {
                text: encode_utf8(url@),
                scheme_len: scheme_len as nat,
                host_end: host_end as nat,
                port_end: port_end as nat,
                path_end: path_end as nat,
                query_end: query_end as nat,
                port,
                is_ip: ip is Some,
                ip,
            }).wf(),
        ensures
            r.wf(),
            r@ == (UrlView {
                text: encode_utf8(url@),
                scheme_len: scheme_len as nat,
                host_end: host_end as nat,
                port_end: port_end as nat,
                path_end: path_end as nat,
                query_end: query_end as nat,
                port,
                is_ip: ip is Some,
                ip,
            }),
    {
        WebUrl { url, scheme_len, host_end, ip, port_end, port, path_end, query_end }
    }

    /// Gets the URL string.
    pub fn as_str(&self) -> (r: &str)
        requires
            self.wf(),
        ensures
            r.spec_bytes() == self@.text,
    {
        self.url.as_str()
    }

    /// Gets the length of the URL string, in bytes.
    pub fn len(&self) -> (r: usize)
        requires
            self.wf(),
        ensures
            r == self@.text.len(),
    {
        self.url.as_str().as_bytes().len()
    }

    /// Checks if the URL string is empty: it never is.
    pub fn is_empty(&self) -> (r: bool)
        requires
            self.wf(),
        ensures
            !r,
            self@.text.len() > 0,
    {
        false
    }

    /// Gets the bytes of the URL string in `start..end`.
    fn region(&self, start: u32, end: u32) -> (r: &str)
        requires
            self.wf(),
            start <= end <= self@.text.len(),
        ensures
            r.spec_bytes() == self@.text.subrange(start as int, end as int),
    {
        substr_ascii(self.url.as_str(), start as usize, end as usize)
    }

    /// Gets the scheme string. (it is a valid lowercase scheme)
    fn scheme_str(&self) -> (r: &str)
        requires
            self.wf(),
        ensures
            r.spec_bytes() == self@.scheme(),
    {
        self.region(0, self.scheme_len)
    }

    /// Gets the scheme.
    pub fn scheme(&self) -> (r: Scheme<'_>)
        requires
            self.wf(),
        ensures
            r@ == self@.scheme(),
    {
        Scheme::new(self.scheme_str())
    }

    /// Gets the host string. (it is lowercase; an IPv6 address keeps its brackets)
    fn host_str(&self) -> (r: &str)
        requires
            self.wf(),
        ensures
            r.spec_bytes() == self@.host(),
    {
        self.region(self.scheme_len + 3, self.host_end)
    }

    /// Gets the host: the literal IP address that was parsed (it is cached, so nothing is parsed
    /// again), or the domain name.
    pub fn host(&self) -> (r: Host<'_>)
        requires
            self.wf(),
        ensures
            match r {
                Host::Address(ip) => self@.ip == Some(ip),
                Host::Domain(name) => self@.ip is None && name.spec_bytes() == self@.host()
                    && domain_name_valid(name.spec_bytes()),
            },
    {
        match self.ip {
            Some(ip) => Host::Address(ip),
            None => Host::Domain(self.host_str()),
        }
    }

    /// Gets the host as the `address` crate's host reference: the cached literal IP address, or
    /// the domain name.
    pub fn host_ref(&self) -> HostRef<'_>
        requires
            self.wf(),
    {
        self.host().to_host_ref()
    }

    /// Gets the optional port.
    pub fn port(&self) -> (r: Option<u16>)
        requires
            self.wf(),
        ensures
            r == self@.port,
    {
        self.port
    }

    /// Gets the path string. (it is a valid path)
    fn path_str(&self) -> (r: &str)
        requires
            self.wf(),
        ensures
            r.spec_bytes() == self@.path(),
    {
        self.region(self.port_end, self.path_end)
    }

    /// Gets the path.
    pub fn path(&self) -> (r: Path<'_>)
        requires
            self.wf(),
        ensures
            r@ == self@.path(),
    {
        Path::new(self.path_str())
    }

    /// Gets the query string. (it is a valid query, or empty)
    fn query_str(&self) -> (r: &str)
        requires
            self.wf(),
        ensures
            r.spec_bytes() == self@.query(),
    {
        self.region(self.path_end, self.query_end)
    }

    /// Gets the optional query.
    pub fn query(&self) -> (r: Option<Query<'_>>)
        requires
            self.wf(),
        ensures
            match r {
                Some(q) => self@.query().len() > 0 && q@ == self@.query(),
                None => self@.query().len() == 0,
            },
    {
        let query = self.query_str();
        if query.as_bytes().len() == 0 {
            None
        } else {
            Some(Query::new(query))
        }
    }

    /// Gets the fragment string. (it is a valid fragment, or empty)
    fn fragment_str(&self) -> (r: &str)
        requires
            self.wf(),
        ensures
            r.spec_bytes() == self@.fragment(),
    {
        self.region(self.query_end, self.url.as_str().as_bytes().len() as u32)
    }

    /// Gets the optional fragment.
    pub fn fragment(&self) -> (r: Option<Fragment<'_>>)
        requires
            self.wf(),
        ensures
            match r {
                Some(f) => self@.fragment().len() > 0 && f@ == self@.fragment(),
                None => self@.fragment().len() == 0,
            },
    {
        let fragment = self.fragment_str();
        if fragment.as_bytes().len() == 0 {
            None
        } else {
            Some(Fragment::new(fragment))
        }
    }
}

/// Removing the fragment keeps the invariants.
proof fn lemma_without_fragment_wf(v: UrlView)
    requires
        v.wf(),
    ensures
        v.without_fragment().wf(),
{
    let w = v.without_fragment();
    assert(w.scheme() =~= v.scheme());
    assert(w.host() =~= v.host());
    assert(w.path() =~= v.path());
    assert(w.query() =~= v.query());
    assert(w.fragment().len() == 0);
    if let Some(p) = v.port {
        assert(w.text.subrange((w.host_end + 1) as int, w.port_end as int) =~= v.text.subrange(
            (v.host_end + 1) as int,
            v.port_end as int,
        ));
    }
}

/// Adding a valid fragment keeps the invariants, while the offsets fit.
proof fn lemma_with_fragment_wf(v: UrlView, f: Seq<u8>)
    requires
        v.wf(),
        fragment_valid(f),
        v.query_end + f.len() <= u32::MAX,
    ensures
        v.with_fragment(f).wf(),
{
    let w = v.with_fragment(f);
    assert(w.scheme() =~= v.scheme());
    assert(w.host() =~= v.host());
    assert(w.path() =~= v.path());
    assert(w.query() =~= v.query());
    assert(w.fragment() =~= f);
    assert forall|i: int| 0 <= i < w.text.len() implies #[trigger] w.text[i] < 0x80 by {
        if i >= v.query_end {
            assert(w.text[i] == f[i - v.query_end]);
        }
    }
    if let Some(p) = v.port {
        assert(w.text.subrange((w.host_end + 1) as int, w.port_end as int) =~= v.text.subrange(
            (v.host_end + 1) as int,
            v.port_end as int,
        ));
    }
}

/// Removing the query keeps the invariants.
proof fn lemma_without_query_wf(v: UrlView)
    requires
        v.wf(),
    ensures
        v.without_query().wf(),
{
    let w = v.without_query();
    assert(w.scheme() =~= v.scheme());
    assert(w.host() =~= v.host());
    assert(w.path() =~= v.path());
    assert(w.query().len() == 0);
    assert(w.fragment() =~= v.fragment());
    assert forall|i: int| 0 <= i < w.text.len() implies #[trigger] w.text[i] < 0x80 by {
        if i >= v.path_end {
            assert(w.text[i] == v.text[i - v.path_end + v.query_end]);
        }
    }
    if let Some(p) = v.port {
        assert(w.text.subrange((w.host_end + 1) as int, w.port_end as int) =~= v.text.subrange(
            (v.host_end + 1) as int,
            v.port_end as int,
        ));
    }
}

/// Every byte of a valid parameter's text is a valid query byte.
proof fn lemma_param_text_query_chars(p: ParamView)
    requires
        param_valid(p),
    ensures
        forall|i: int| 0 <= i < param_text(p).len() ==> query_char_ok(#[trigger] param_text(p)[i]),
{
    let t = param_text(p);
    assert forall|i: int| 0 <= i < t.len() implies query_char_ok(#[trigger] t[i]) by {
        if i < p.0.len() {
            assert(t[i] == p.0[i]);
            assert(name_char_ok(p.0[i]));
        } else if i > p.0.len() {
            let v = p.1.unwrap();
            assert(t[i] == v[i - p.0.len() - 1]);
            assert(value_char_ok(v[i - p.0.len() - 1]));
        }
    }
}

/// Adding a valid parameter keeps the invariants, while the offsets fit.
proof fn lemma_with_param_wf(v: UrlView, p: ParamView)
    requires
        v.wf(),
        param_valid(p),
        v.text.len() + v.param_insert(p).len() <= u32::MAX,
    ensures
        v.with_param(p).wf(),
{
    let w = v.with_param(p);
    let ins = v.param_insert(p);
    lemma_param_text_query_chars(p);
    assert(w.scheme() =~= v.scheme());
    assert(w.host() =~= v.host());
    assert(w.path() =~= v.path());
    assert(w.query() =~= v.query() + ins);
    assert(w.fragment() =~= v.fragment());
    assert forall|i: int| 0 <= i < ins.len() implies query_char_ok(#[trigger] ins[i]) || (i == 0
        && ins[i] == QUESTION) by {
        if i > 0 {
            assert(ins[i] == param_text(p)[i - 1]);
        }
    }
    assert forall|i: int| 1 <= i < w.query().len() implies query_char_ok(#[trigger] w.query()[i]) by {
        if i >= v.query().len() {
            assert(w.query()[i] == ins[i - v.query().len()]);
            if i == v.query().len() {
                assert(ins[0] == AMPERSAND);
            }
        } else {
            assert(w.query()[i] == v.query()[i]);
        }
    }
    assert forall|i: int| 0 <= i < w.text.len() implies #[trigger] w.text[i] < 0x80 by {
        if i < v.query_end {
            assert(w.text[i] == v.text[i]);
        } else if i < v.query_end + ins.len() {
            assert(w.text[i] == ins[i - v.query_end]);
        } else {
            assert(w.text[i] == v.text[i - ins.len()]);
        }
    }
    if let Some(p) = v.port {
        assert(w.text.subrange((w.host_end + 1) as int, w.port_end as int) =~= v.text.subrange(
            (v.host_end + 1) as int,
            v.port_end as int,
        ));
    }
}

/// Inserts `t` into the ASCII string `url` at byte `at`.
fn insert_ascii(url: &mut String, at: usize, t: &str)
    requires
        at <= encode_utf8(old(url)@).len(),
        is_ascii_bytes(encode_utf8(old(url)@)),
    ensures
        encode_utf8(final(url)@) == encode_utf8(old(url)@).subrange(0, at as int) + t.spec_bytes()
            + encode_utf8(old(url)@).subrange(at as int, encode_utf8(old(url)@).len() as int),
{
    proof {
        crate::bytes::lemma_cut_ok(encode_utf8(url@), at as int);
    }
    replace_range(url, at, at, t);
}

impl WebUrl {
    /// Removes the query, if any. The fragment, if any, then follows the path.
    pub fn clear_query(&mut self)
        requires
            old(self).wf(),
        ensures
            final(self).wf(),
            final(self)@ == old(self)@.without_query(),
    {
        let empty = "";
        proof {
            reveal_strlit("");
            assert(empty.spec_bytes() =~= Seq::<u8>::empty());
            crate::bytes::lemma_cut_ok(self@.text, self.path_end as int);
            crate::bytes::lemma_cut_ok(self@.text, self.query_end as int);
            lemma_without_query_wf(self@);
        }
        replace_range(&mut self.url, self.path_end as usize, self.query_end as usize, empty);
        self.query_end = self.path_end;
        proof {
            assert(self@.text =~= old(self)@.without_query().text);
        }
    }

    /// Sets the fragment, or removes it when `fragment` is `None`.
    pub fn set_fragment(&mut self, fragment: Option<Fragment<'_>>)
        requires
            old(self).wf(),
            match fragment {
                Some(f) => old(self)@.query_end + f@.len() <= u32::MAX,
                None => true,
            },
        ensures
            final(self).wf(),
            final(self)@ == match fragment {
                Some(f) => old(self)@.with_fragment(f@),
                None => old(self)@.without_fragment(),
            },
    {
        match fragment {
            Some(f) => {
                proof {
                    use_type_invariant(&f);
                }
                let len = self.url.as_str().as_bytes().len();
                proof {
                    crate::bytes::lemma_cut_ok(self@.text, self.query_end as int);
                    crate::bytes::lemma_cut_ok(self@.text, len as int);
                    lemma_with_fragment_wf(self@, f@);
                }
                replace_range(&mut self.url, self.query_end as usize, len, f.as_str());
                proof {
                    assert(self@.text =~= old(self)@.with_fragment(f@).text);
                }
            },
            None => self.clear_fragment(),
        }
    }

    /// Sets the fragment, or removes it when `fragment` is `None`.
    pub fn with_fragment(self, fragment: Option<Fragment<'_>>) -> (r: Self)
        requires
            self.wf(),
            match fragment {
                Some(f) => self@.query_end + f@.len() <= u32::MAX,
                None => true,
            },
        ensures
            r.wf(),
            r@ == match fragment {
                Some(f) => self@.with_fragment(f@),
                None => self@.without_fragment(),
            },
    {
        let mut url = self;
        url.set_fragment(fragment);
        url
    }

    /// Adds the query parameter `param` at the end of the query, before the fragment if any.
    pub fn add_param(&mut self, param: Param<'_>)
        requires
            old(self).wf(),
            old(self)@.text.len() + old(self)@.param_insert(param@).len() <= u32::MAX,
        ensures
            final(self).wf(),
            final(self)@ == old(self)@.with_param(param@),
    {
        proof {
            use_type_invariant(&param);
            lemma_param_text_query_chars(param@);
            lemma_with_param_wf(self@, param@);
        }
        let ghost ins = self@.param_insert(param@);
        let sep = if self.path_end == self.query_end {
            "?"
        } else {
            "&"
        };
        proof {
            reveal_strlit("?");
            reveal_strlit("&");
            assert(vstd::utf8::is_ascii_chars(sep@));
            assert(sep.spec_bytes() =~= seq![ins[0]]);
        }
        let mut insert = sep.to_owned();
        let text = param.to_string();
        let ghost head = insert@;
        insert.append(text.as_str());
        proof {
            crate::bytes::lemma_encode_concat(head, text@);
            assert(encode_utf8(insert@) =~= ins);
            assert forall|i: int| 0 <= i < ins.len() implies #[trigger] ins[i] < 0x80 by {
                if i > 0 {
                    assert(ins[i] == param_text(param@)[i - 1]);
                }
            }
        }
        let at = self.query_end as usize;
        let insert = insert.as_str();
        insert_ascii(&mut self.url, at, insert);
        self.query_end = (at + insert.as_bytes().len()) as u32;
        proof {
            assert(self@.text =~= old(self)@.with_param(param@).text);
        }
    }

    /// Adds the query parameter `param` at the end of the query, before the fragment if any.
    pub fn with_param(self, param: Param<'_>) -> (r: Self)
        requires
            self.wf(),
            self@.text.len() + self@.param_insert(param@).len() <= u32::MAX,
        ensures
            r.wf(),
            r@ == self@.with_param(param@),
    {
        let mut url = self;
        url.add_param(param);
        url
    }

    /// Removes the fragment, if any.
    pub fn clear_fragment(&mut self)
        requires
            old(self).wf(),
        ensures
            final(self).wf(),
            final(self)@ == old(self)@.without_fragment(),
    {
        let len = self.url.as_str().as_bytes().len();
        let empty = "";
        proof {
            reveal_strlit("");
            assert(empty.spec_bytes() =~= Seq::<u8>::empty());
            crate::bytes::lemma_cut_ok(self@.text, self.query_end as int);
            crate::bytes::lemma_cut_ok(self@.text, len as int);
            lemma_without_fragment_wf(self@);
        }
        replace_range(&mut self.url, self.query_end as usize, len, empty);
        proof {
            assert(self@.text =~= old(self)@.without_fragment().text);
        }
    }
}

impl PartialEq for WebUrl {
    fn eq(&self, other: &Self) -> (r: bool)
        ensures
            r == (self@.text == other@.text),
    {
        proof {
            assert(vstd::utf8::decode_utf8(encode_utf8(self.url@)) == self.url@);
            assert(vstd::utf8::decode_utf8(encode_utf8(other.url@)) == other.url@);
        }
        self.url == other.url
    }
}

impl Clone for WebUrl {
    fn clone(&self) -> (r: Self)
        ensures
            r@ == self@,
    {
        WebUrl {
            url: self.url.clone(),
            scheme_len: self.scheme_len,
            host_end: self.host_end,
            ip: self.ip,
            port_end: self.port_end,
            port: self.port,
            path_end: self.path_end,
            query_end: self.query_end,
        }
    }
}

impl vstd::std_specs::cmp::PartialEqSpecImpl for WebUrl {
    open spec fn obeys_eq_spec() -> bool {
        true
    }

    open spec fn eq_spec(&self, other: &WebUrl) -> bool {
        self@.text == other@.text
    }
}

impl Eq for WebUrl {

}

impl std::hash::Hash for WebUrl {
    fn hash<H: std::hash::Hasher>(&self, state: &mut H) {
        self.url.hash(state)
    }
}

impl AsRef<str> for WebUrl {
    fn as_ref(&self) -> (r: &str)
        ensures
            r.spec_bytes() == self@.text,
    {
        self.url.as_str()
    }
}

} // verus!
