//! The finalizer: from the URL string and the lengths of both stages to a `WebUrl`.

use address::IPAddress;
use vstd::prelude::*;
use vstd::string::StringSliceAdditionalSpecFns;
use vstd::utf8::encode_utf8;

use crate::bytes::{ascii_lower, is_ascii_bytes, is_digit, lower_bytes, COLON, SLASH};
use crate::fragment::{fragment_char_ok, fragment_valid};
use crate::parse::path_plus::{path_plus_stage, PathPlus};
use crate::parse::pre_path::{host_accepts, port_number, pre_path_stage, PrePath, PrePathView};
use crate::parse::Error;
use crate::path::{path_char_ok, path_valid};
use crate::query::{query_char_ok, query_valid};
use crate::scheme::{scheme_char_ok, scheme_first_ok, scheme_valid};
use crate::url::{UrlView, WebUrl};

verus! {

broadcast use vstd::utf8::group_utf8_lib;

/// What the pre-path stage establishes of the front of the URL text `b`.
pub open spec fn pre_path_holds(b: Seq<u8>, p: PrePathView) -> bool {
    let sl = p.scheme_len as int;
    let host_start = sl + 3;
    let host_end = host_start + p.host_len;
    &&& p.len() <= b.len()
    &&& scheme_valid(b.subrange(0, sl), true)
    &&& b[sl] == COLON
    &&& b[sl + 1] == SLASH
    &&& b[sl + 2] == SLASH
    &&& host_accepts(b.subrange(host_start, host_end)) == Some(p.is_ip)
    &&& match p.port {
        None => p.port_len == 0,
        Some(n) => {
            &&& p.port_len > 0
            &&& b[host_end] == COLON
            &&& port_number(b.subrange(host_end + 1, host_end + p.port_len)) == Some(n)
        },
    }
}

/// What the path-plus stage establishes of the text `t` that follows the pre-path.
pub open spec fn path_plus_holds(t: Seq<u8>, pp: (nat, nat, nat)) -> bool {
    let path_end = pp.0 as int;
    let query_end = path_end + pp.1;
    &&& query_end + pp.2 == t.len()
    &&& path_valid(t.subrange(0, path_end))
    &&& (pp.1 == 0 || query_valid(t.subrange(path_end, query_end)))
    &&& (pp.2 == 0 || fragment_valid(t.subrange(query_end, t.len() as int)))
}

/// The URL that the finalizer makes of the text `b`, with the address `ip` cached: the pre-path
/// is lowercased, and the offsets are the running sums of the stages' lengths.
pub open spec fn assemble(
    b: Seq<u8>,
    p: PrePathView,
    pp: (nat, nat, nat),
    ip: Option<IPAddress>,
) -> UrlView {
    let host_end = p.scheme_len + 3 + p.host_len;
    let port_end = host_end + p.port_len;
    UrlView {
        text: lower_bytes(b.subrange(0, port_end as int)) + b.subrange(port_end as int, b.len() as int),
        scheme_len: p.scheme_len,
        host_end,
        port_end,
        path_end: port_end + pp.0,
        query_end: port_end + pp.0 + pp.1,
        port: p.port,
        is_ip: p.is_ip,
        ip,
    }
}

/// A successful pre-path stage establishes its facts.
pub proof fn lemma_pre_path_holds(s: Seq<u8>)
    requires
        pre_path_stage(s) is Ok,
    ensures
        pre_path_holds(s, pre_path_stage(s)->Ok_0),
{
    let p = pre_path_stage(s)->Ok_0;
    crate::bytes::lemma_find(s, COLON);
    let a = s.subrange(p.scheme_len + 3 as int, s.len() as int);
    let hl = crate::parse::pre_path::host_split(a);
    crate::bytes::lemma_find(a, SLASH);
    crate::bytes::lemma_rfind_before(a, COLON, crate::bytes::find(a, SLASH));
    assert(0 <= hl <= a.len());
    let hs = p.scheme_len + 3 as int;
    assert(a.subrange(0, hl) =~= s.subrange(hs, hs + hl));
    let c = a.subrange(hl, a.len() as int);
    if let Some(n) = p.port {
        let d = c.subrange(1, c.len() as int);
        let end = crate::bytes::find(d, SLASH);
        crate::bytes::lemma_find(d, SLASH);
        assert(d.subrange(0, end) =~= s.subrange(hs + hl + 1, hs + hl + p.port_len));
    }
}

/// The facts of a pre-path stay when text follows it.
pub proof fn lemma_pre_path_holds_extend(b: Seq<u8>, x: Seq<u8>, p: PrePathView)
    requires
        pre_path_holds(b, p),
    ensures
        pre_path_holds(b + x, p),
{
    let c = b + x;
    let hs = p.scheme_len + 3 as int;
    let he = hs + p.host_len;
    assert(c.subrange(0, p.scheme_len as int) =~= b.subrange(0, p.scheme_len as int));
    assert(c.subrange(hs as int, he as int) =~= b.subrange(hs as int, he as int));
    if p.port is Some {
        assert(c.subrange(he + 1, he + p.port_len) =~= b.subrange(he + 1, he + p.port_len));
    }
}

/// A successful path-plus stage establishes its facts.
pub proof fn lemma_path_plus_holds(t: Seq<u8>)
    requires
        path_plus_stage(t) is Ok,
    ensures
        path_plus_holds(t, path_plus_stage(t)->Ok_0),
{
    let pp = path_plus_stage(t)->Ok_0;
    crate::bytes::lemma_find_either_from(t, crate::bytes::QUESTION, crate::bytes::HASH, 0);
    let pe = pp.0 as int;
    let qe = pe + pp.1;
    let u = t.subrange(pe, t.len() as int);
    crate::bytes::lemma_find(u, crate::bytes::HASH);
    assert(u.subrange(0, pp.1 as int) =~= t.subrange(pe, qe));
    assert(u.subrange(pp.1 as int, u.len() as int) =~= t.subrange(qe, t.len() as int));
}

/// The URL that the finalizer assembles meets the invariants.
proof fn lemma_assemble_wf(b: Seq<u8>, p: PrePathView, pp: (nat, nat, nat), ip: Option<IPAddress>)
    requires
        p.is_ip == (ip is Some),
        pre_path_holds(b, p),
        is_ascii_bytes(b.subrange(0, p.len() as int)),
        path_plus_holds(b.subrange(p.len() as int, b.len() as int), pp),
        b.len() <= u32::MAX,
    ensures
        assemble(b, p, pp, ip).wf(),
{
    let v = assemble(b, p, pp, ip);
    let n = p.len() as int;
    let t = b.subrange(n, b.len() as int);
    let hs = p.scheme_len + 3 as int;
    let he = hs + p.host_len;
    let pe = n + pp.0;
    let qe = pe + pp.1;
    assert(v.text.len() == b.len());
    assert(forall|i: int| 0 <= i < n ==> #[trigger] v.text[i] == ascii_lower(b[i]));
    assert(forall|i: int| n <= i < b.len() ==> #[trigger] v.text[i] == b[i]);
    // the scheme
    let sb = b.subrange(0, p.scheme_len as int);
    assert(v.scheme() =~= lower_bytes(sb));
    assert forall|i: int| 1 <= i < v.scheme().len() implies scheme_char_ok(
        #[trigger] v.scheme()[i],
        false,
    ) by {
        assert(scheme_char_ok(sb[i], true));
    }
    assert(scheme_first_ok(sb[0], true));
    // the host
    let h = b.subrange(hs as int, he as int);
    assert(p.host_len > 0);
    assert(v.host() =~= lower_bytes(h));
    // the port
    if let Some(port) = p.port {
        let d = b.subrange(he + 1, he + p.port_len);
        assert forall|i: int| 0 <= i < d.len() implies #[trigger] lower_bytes(d)[i] == d[i] by {
            assert(is_digit(d[i]));
        }
        assert(v.text.subrange((v.host_end + 1) as int, v.port_end as int) =~= lower_bytes(d));
        assert(lower_bytes(d) =~= d);
    }
    // the path, query and fragment
    assert(v.path() =~= t.subrange(0, pp.0 as int));
    assert(v.query() =~= t.subrange(pp.0 as int, qe - n));
    assert(v.fragment() =~= t.subrange(qe - n, t.len() as int));
    assert forall|i: int| 0 <= i < v.text.len() implies #[trigger] v.text[i] < 0x80 by {
        if i < n {
            assert(b.subrange(0, n)[i] < 0x80);
        } else if i < pe {
            if i > n {
                assert(path_char_ok(v.path()[i - n]));
            }
        } else if i < qe {
            if i > pe {
                assert(query_char_ok(v.query()[i - pe]));
            }
        } else {
            if i > qe {
                assert(fragment_char_ok(v.fragment()[i - qe]));
            }
        }
    }
}

/// Finalizes the web-based URL from the URL string and the pre-path and path-plus parts, which
/// must describe it. The pre-path is made lowercase in place.
///
/// Returns `Err((UrlTooLong, url))` when the URL is 4 GiB or longer.
pub fn finalize_web_url(url: String, pre_path: PrePath, path_plus: PathPlus) -> (r: Result<
    WebUrl,
    (Error, String),
>)
    requires
        pre_path_holds(encode_utf8(url@), pre_path@),
        is_ascii_bytes(encode_utf8(url@).subrange(0, pre_path@.len() as int)),
        path_plus_holds(
            encode_utf8(url@).subrange(pre_path@.len() as int, encode_utf8(url@).len() as int),
            path_plus@,
        ),
    ensures
        match r {
            Ok(u) => {
                &&& encode_utf8(url@).len() <= u32::MAX
                &&& u.wf()
                &&& u@ == assemble(encode_utf8(url@), pre_path@, path_plus@, pre_path.ip)
            },
            Err((e, s)) => {
                &&& encode_utf8(url@).len() > u32::MAX
                &&& e == Error::UrlTooLong
                &&& s@ == url@
            },
        },
{
    let len = url.as_str().as_bytes().len();
    if len > u32::MAX as usize {
        return Err((Error::UrlTooLong, url));
    }
    let ghost b = encode_utf8(url@);
    proof {
        lemma_assemble_wf(b, pre_path@, path_plus@, pre_path.ip);
        if pre_path@.len() > 0 && pre_path@.len() < b.len() {
            assert(b.subrange(0, pre_path@.len() as int)[pre_path@.len() - 1] < 0x80);
        }
    }
    let mut url = url;
    pre_path.make_lowercase(&mut url);
    let scheme_len: u32 = pre_path.scheme_len as u32;
    let host_end: u32 = scheme_len + 3 + (pre_path.host_len as u32);
    let port_end: u32 = host_end + (pre_path.port_len as u32);
    let path_end: u32 = port_end + (path_plus.path_len as u32);
    let query_end: u32 = path_end + (path_plus.query_len as u32);
    proof {
        assert(encode_utf8(url@) =~= assemble(b, pre_path@, path_plus@, pre_path.ip).text);
    }
    Ok(WebUrl::new(url, scheme_len, host_end, pre_path.ip, port_end, pre_path.port, path_end, query_end))
}

} // verus!
