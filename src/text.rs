//! In-place edits of an owned string, at byte offsets.

use vstd::prelude::*;
use vstd::string::StringSliceAdditionalSpecFns;
use vstd::utf8::{encode_utf8, is_char_boundary};

use crate::bytes::lower_bytes;

verus! {

/// Relies on `String`'s `Hash`, which feeds the string's bytes to the hasher.
pub assume_specification<H: core::hash::Hasher>[ <String as core::hash::Hash>::hash::<H> ](
    s: &String,
    state: &mut H,
);

/// Relies on `String::replace_range`: the bytes of `s` in `start..end` are replaced by `t`. It
/// panics when `start` or `end` is out of bounds or not on a character boundary.
#[verifier::external_body]
pub(crate) fn replace_range(s: &mut String, start: usize, end: usize, t: &str)
    requires
        start <= end <= encode_utf8(old(s)@).len(),
        is_char_boundary(encode_utf8(old(s)@), start as int),
        is_char_boundary(encode_utf8(old(s)@), end as int),
    ensures
        encode_utf8(final(s)@) == encode_utf8(old(s)@).subrange(0, start as int) + t.spec_bytes()
            + encode_utf8(old(s)@).subrange(end as int, encode_utf8(old(s)@).len() as int),
{
    s.replace_range(start..end, t)
}

/// Relies on `str::make_ascii_lowercase`, applied to the first `n` bytes of `s`: `A`-`Z` become
/// `a`-`z`, and every other byte stays. Taking the first `n` bytes panics when `n` is out of bounds
/// or not on a character boundary.
#[verifier::external_body]
pub(crate) fn lowercase_prefix(s: &mut String, n: usize)
    requires
        n <= encode_utf8(old(s)@).len(),
        is_char_boundary(encode_utf8(old(s)@), n as int),
    ensures
        encode_utf8(final(s)@) == lower_bytes(encode_utf8(old(s)@).subrange(0, n as int))
            + encode_utf8(old(s)@).subrange(n as int, encode_utf8(old(s)@).len() as int),
{
    s[..n].make_ascii_lowercase()
}

} // verus!
