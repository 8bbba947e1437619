//! Laws of parsing and of the mutation operations, stated over the models that the operations'
//! contracts use.

use vstd::prelude::*;

use crate::bytes::{is_digit, lower_bytes, SLASH};
use crate::param::{param_valid, ParamView};
use crate::parse::finalize::{lemma_path_plus_holds, lemma_pre_path_holds};
use crate::parse::from_str::url_parse;
use crate::parse::pre_path::pre_path_stage;
use crate::url::UrlView;

verus! {

/// A URL that parses reads back as its input, byte for byte, except that the scheme and host are
/// lowercased, and that a `/` is appended when the input has no path.
pub proof fn lemma_round_trip(s: Seq<u8>)
    requires
        url_parse(s) is Ok,
    ensures
        ({
            let v = url_parse(s)->Ok_0;
            v.text == lower_bytes(s.subrange(0, v.host_end as int)) + s.subrange(
                v.host_end as int,
                s.len() as int,
            ) + if v.port_end == s.len() {
                seq![SLASH]
            } else {
                Seq::<u8>::empty()
            }
        }),
{
    let v = url_parse(s)->Ok_0;
    let p = pre_path_stage(s)->Ok_0;
    lemma_pre_path_holds(s);
    let n = p.len() as int;
    let he = v.host_end as int;
    let b = if p.len() == s.len() {
        s + seq![SLASH]
    } else {
        s
    };
    let tail = if v.port_end == s.len() {
        seq![SLASH]
    } else {
        Seq::<u8>::empty()
    };
    if let Some(port) = p.port {
        let d = s.subrange(he + 1, n);
        assert(forall|i: int| 0 <= i < d.len() ==> is_digit(#[trigger] d[i]));
    }
    assert forall|i: int| he <= i < n implies #[trigger] lower_bytes(s.subrange(0, n))[i] == s[i] by {
        if i > he {
            assert(s[i] == s.subrange(he + 1, n)[i - he - 1]);
        }
    }
    let rhs = lower_bytes(s.subrange(0, he)) + s.subrange(he, s.len() as int) + tail;
    assert(b.subrange(0, n) =~= s.subrange(0, n));
    assert(v.text.len() == rhs.len());
    assert forall|i: int| 0 <= i < v.text.len() implies v.text[i] == rhs[i] by {
        if i < he {
            assert(v.text[i] == lower_bytes(s.subrange(0, n))[i]);
        } else if i < n {
            assert(v.text[i] == lower_bytes(s.subrange(0, n))[i]);
        } else if i < s.len() {
            assert(v.text[i] == b[i]);
        } else {
            assert(v.text[i] == b[i]);
        }
    }
    assert(v.text =~= rhs);
}

/// The offsets of a URL that parses are in order, and within its text.
pub proof fn lemma_parsed_offsets_ordered(s: Seq<u8>)
    requires
        url_parse(s) is Ok,
    ensures
        ({
            let v = url_parse(s)->Ok_0;
            v.scheme_len < v.host_end <= v.port_end <= v.path_end <= v.query_end <= v.text.len()
        }),
{
    let p = pre_path_stage(s)->Ok_0;
    lemma_pre_path_holds(s);
    let b = if p.len() == s.len() {
        s + seq![SLASH]
    } else {
        s
    };
    lemma_path_plus_holds(b.subrange(p.len() as int, b.len() as int));
}

/// Clearing the fragment a second time changes nothing.
pub proof fn lemma_clear_fragment_idempotent(v: UrlView)
    requires
        v.wf(),
    ensures
        v.without_fragment().without_fragment() == v.without_fragment(),
{
    assert(v.without_fragment().without_fragment().text =~= v.without_fragment().text);
}

/// Clearing the query a second time changes nothing.
pub proof fn lemma_clear_query_idempotent(v: UrlView)
    requires
        v.wf(),
    ensures
        v.without_query().without_query() == v.without_query(),
{
    let w = v.without_query();
    assert(w.fragment() =~= v.fragment());
    assert(w.without_query().text =~= w.text);
}

/// Adding a parameter and then clearing the query leaves no query, and the fragment as it was.
pub proof fn lemma_add_param_then_clear_query(v: UrlView, p: ParamView)
    requires
        v.wf(),
        param_valid(p),
    ensures
        v.with_param(p).without_query().query().len() == 0,
        v.with_param(p).without_query().fragment() == v.fragment(),
{
    let w = v.with_param(p);
    assert(w.fragment() =~= v.fragment());
    assert(w.without_query().fragment() =~= w.fragment());
}

} // verus!
