//! Byte-level facts shared by the component validators and the parsing pipeline.

use vstd::prelude::*;
use vstd::string::StringSliceAdditionalSpecFns;
use vstd::utf8::*;

verus! {

broadcast use vstd::utf8::group_utf8_lib;

pub const COLON: u8 = 0x3a;

pub const SLASH: u8 = 0x2f;

pub const QUESTION: u8 = 0x3f;

pub const HASH: u8 = 0x23;

pub const AMPERSAND: u8 = 0x26;

pub const EQUALS: u8 = 0x3d;

pub const OPEN_BRACKET: u8 = 0x5b;

pub const CLOSE_BRACKET: u8 = 0x5d;

/// ASCII decimal digits.
pub open spec fn is_digit(c: u8) -> bool {
    0x30 <= c <= 0x39
}

/// ASCII letters and digits.
pub open spec fn is_alnum(c: u8) -> bool {
    (0x30 <= c <= 0x39) || (0x41 <= c <= 0x5a) || (0x61 <= c <= 0x7a)
}

/// ASCII punctuation: the printable, non-alphanumeric, non-space characters.
pub open spec fn is_punct(c: u8) -> bool {
    (0x21 <= c <= 0x2f) || (0x3a <= c <= 0x40) || (0x5b <= c <= 0x60) || (0x7b <= c <= 0x7e)
}

/// An index at which a UTF-8 byte sequence may be cut: either end, or next to an ASCII byte.
pub open spec fn cut_ok(b: Seq<u8>, i: int) -> bool {
    &&& 0 <= i <= b.len()
    &&& (i == 0 || i == b.len() || b[i] < 0x80 || b[i - 1] < 0x80)
}

pub fn ascii_alnum(c: u8) -> (r: bool)
    ensures
        r == is_alnum(c),
{
    (0x30 <= c && c <= 0x39) || (0x41 <= c && c <= 0x5a) || (0x61 <= c && c <= 0x7a)
}

pub fn ascii_punct(c: u8) -> (r: bool)
    ensures
        r == is_punct(c),
{
    (0x21 <= c && c <= 0x2f) || (0x3a <= c && c <= 0x40) || (0x5b <= c && c <= 0x60) || (0x7b <= c
        && c <= 0x7e)
}

proof fn lemma_boundary_step(b: Seq<u8>, i: int)
    requires
        valid_utf8(b),
        0 <= i < b.len(),
        b[i] < 0x80,
        is_char_boundary(b, i),
    ensures
        is_char_boundary(b, i + 1),
    decreases b.len(),
{
    let l = length_of_first_scalar(b);
    let p = pop_first_scalar(b);
    assert(1 <= l <= b.len());
    if i == 0 {
        assert(l == 1);
        assert(is_char_boundary(p, 0));
    } else {
        assert(is_char_boundary(p, i - l));
        assert(p[i - l] == b[i]);
        lemma_boundary_step(p, i - l);
    }
}

/// Cutting a well-formed UTF-8 sequence next to an ASCII byte lands on a character boundary.
pub proof fn lemma_cut_ok(b: Seq<u8>, i: int)
    requires
        valid_utf8(b),
        cut_ok(b, i),
    ensures
        is_char_boundary(b, i),
{
    if i == 0 || i == b.len() {
    } else if b[i] < 0x80 {
        assert(!is_continuation_byte(b[i]));
    } else {
        assert(!is_continuation_byte(b[i - 1]));
        assert(is_char_boundary(b, i - 1));
        lemma_boundary_step(b, i - 1);
    }
}

/// The index of the first `c` in `s` at or after `i`, or `s.len()` when there is none.
pub open spec fn find_from(s: Seq<u8>, c: u8, i: int) -> int
    decreases s.len() - i,
{
    if i < 0 || i >= s.len() {
        s.len() as int
    } else if s[i] == c {
        i
    } else {
        find_from(s, c, i + 1)
    }
}

/// The index of the first `c` in `s`, or `s.len()` when there is none.
pub open spec fn find(s: Seq<u8>, c: u8) -> int {
    find_from(s, c, 0)
}

/// The index of the first `c` or `d` in `s` at or after `i`, or `s.len()` when there is none.
pub open spec fn find_either_from(s: Seq<u8>, c: u8, d: u8, i: int) -> int
    decreases s.len() - i,
{
    if i < 0 || i >= s.len() {
        s.len() as int
    } else if s[i] == c || s[i] == d {
        i
    } else {
        find_either_from(s, c, d, i + 1)
    }
}

/// The index of the first `c` or `d` in `s`, or `s.len()` when there is none.
pub open spec fn find_either(s: Seq<u8>, c: u8, d: u8) -> int {
    find_either_from(s, c, d, 0)
}

/// The index of the last `c` in `s` before `end`, or -1 when there is none.
pub open spec fn rfind_before(s: Seq<u8>, c: u8, end: int) -> int
    decreases end,
{
    if end <= 0 {
        -1
    } else if s[end - 1] == c {
        end - 1
    } else {
        rfind_before(s, c, end - 1)
    }
}

pub proof fn lemma_find_from(s: Seq<u8>, c: u8, i: int)
    requires
        0 <= i <= s.len(),
    ensures
        i <= find_from(s, c, i) <= s.len(),
        find_from(s, c, i) < s.len() ==> s[find_from(s, c, i)] == c,
        forall|k: int| i <= k < find_from(s, c, i) ==> s[k] != c,
    decreases s.len() - i,
{
    if i < s.len() && s[i] != c {
        lemma_find_from(s, c, i + 1);
    }
}

pub proof fn lemma_find(s: Seq<u8>, c: u8)
    ensures
        0 <= find(s, c) <= s.len(),
        find(s, c) < s.len() ==> s[find(s, c)] == c,
        forall|k: int| 0 <= k < find(s, c) ==> s[k] != c,
{
    lemma_find_from(s, c, 0);
}

pub proof fn lemma_find_either_from(s: Seq<u8>, c: u8, d: u8, i: int)
    requires
        0 <= i <= s.len(),
    ensures
        i <= find_either_from(s, c, d, i) <= s.len(),
        find_either_from(s, c, d, i) < s.len() ==> (s[find_either_from(s, c, d, i)] == c || s[find_either_from(s, c, d, i)] == d),
        forall|k: int| i <= k < find_either_from(s, c, d, i) ==> s[k] != c && s[k] != d,
    decreases s.len() - i,
{
    if i < s.len() && s[i] != c && s[i] != d {
        lemma_find_either_from(s, c, d, i + 1);
    }
}

pub proof fn lemma_rfind_before(s: Seq<u8>, c: u8, end: int)
    requires
        0 <= end <= s.len(),
    ensures
        -1 <= rfind_before(s, c, end) < end,
        rfind_before(s, c, end) >= 0 ==> s[rfind_before(s, c, end)] == c,
        forall|k: int| rfind_before(s, c, end) < k < end ==> s[k] != c,
    decreases end,
{
    if end > 0 && s[end - 1] != c {
        lemma_rfind_before(s, c, end - 1);
    }
}

/// The position of the first `c` in `b`, or `b.len()` when there is none.
pub fn position(b: &[u8], c: u8) -> (r: usize)
    ensures
        r == find(b@, c),
{
    let mut i: usize = 0;
    while i < b.len()
        invariant
            0 <= i <= b@.len(),
            find_from(b@, c, i as int) == find(b@, c),
        decreases b@.len() - i,
    {
        if b[i] == c {
            return i;
        }
        i = i + 1;
    }
    i
}

/// The position of the first `c` or `d` in `b`, or `b.len()` when there is none.
pub fn position_either(b: &[u8], c: u8, d: u8) -> (r: usize)
    ensures
        r == find_either(b@, c, d),
{
    let mut i: usize = 0;
    while i < b.len()
        invariant
            0 <= i <= b@.len(),
            find_either_from(b@, c, d, i as int) == find_either(b@, c, d),
        decreases b@.len() - i,
    {
        if b[i] == c || b[i] == d {
            return i;
        }
        i = i + 1;
    }
    i
}

/// The position of the last `c` among the first `end` bytes of `b`.
pub fn rposition_before(b: &[u8], c: u8, end: usize) -> (r: Option<usize>)
    requires
        end <= b@.len(),
    ensures
        match r {
            Some(k) => k as int == rfind_before(b@, c, end as int),
            None => rfind_before(b@, c, end as int) == -1,
        },
{
    let mut i: usize = end;
    while i > 0
        invariant
            0 <= i <= end <= b@.len(),
            rfind_before(b@, c, i as int) == rfind_before(b@, c, end as int),
        decreases i,
    {
        if b[i - 1] == c {
            return Some(i - 1);
        }
        i = i - 1;
    }
    None
}

/// ASCII lowercase of one byte: `A`-`Z` become `a`-`z`, every other byte stays.
pub open spec fn ascii_lower(c: u8) -> u8 {
    if 0x41 <= c <= 0x5a {
        (c + 0x20) as u8
    } else {
        c
    }
}

/// ASCII lowercase of a byte sequence.
pub open spec fn lower_bytes(s: Seq<u8>) -> Seq<u8> {
    s.map_values(|c: u8| ascii_lower(c))
}

/// The value of a sequence of decimal digits.
pub open spec fn decimal_value(s: Seq<u8>) -> nat
    decreases s.len(),
{
    if s.len() == 0 {
        0
    } else {
        decimal_value(s.drop_last()) * 10 + (s.last() - 0x30) as nat
    }
}

/// A longer run of digits is worth at least as much as its prefix.
pub proof fn lemma_decimal_prefix(s: Seq<u8>, i: int)
    requires
        0 <= i <= s.len(),
        forall|k: int| 0 <= k < s.len() ==> is_digit(s[k]),
    ensures
        decimal_value(s.subrange(0, i)) <= decimal_value(s),
    decreases s.len() - i,
{
    if i < s.len() {
        let t = s.subrange(0, i + 1);
        assert(t.drop_last() =~= s.subrange(0, i));
        lemma_decimal_prefix(s, i + 1);
        assert(s.subrange(0, s.len() as int) =~= s);
    } else {
        assert(s.subrange(0, i) =~= s);
    }
}

/// The UTF-8 encoding of a concatenation is the concatenation of the encodings.
pub proof fn lemma_encode_concat(a: Seq<char>, b: Seq<char>)
    ensures
        encode_utf8(a + b) == encode_utf8(a) + encode_utf8(b),
    decreases a.len(),
{
    if a.len() == 0 {
        assert(a + b =~= b);
    } else {
        assert((a + b).drop_first() =~= a.drop_first() + b);
        lemma_encode_concat(a.drop_first(), b);
        assert((a + b)[0] == a[0]);
    }
}

/// All bytes of `b` are ASCII.
pub open spec fn is_ascii_bytes(b: Seq<u8>) -> bool {
    forall|i: int| 0 <= i < b.len() ==> #[trigger] b[i] < 0x80
}

/// The bytes of `s` in `start..end`, for an ASCII `s`.
pub fn substr_ascii(s: &str, start: usize, end: usize) -> (r: &str)
    requires
        start <= end <= s.spec_bytes().len(),
        is_ascii_bytes(s.spec_bytes()),
    ensures
        r.spec_bytes() == s.spec_bytes().subrange(start as int, end as int),
{
    let (_, t) = split_str(s, start);
    let (r, _) = split_str(t, end - start);
    proof {
        assert(r.spec_bytes() =~= s.spec_bytes().subrange(start as int, end as int));
    }
    r
}

/// Splits `s` at byte `mid`.
pub fn split_str(s: &str, mid: usize) -> (r: (&str, &str))
    requires
        cut_ok(s.spec_bytes(), mid as int),
    ensures
        r.0.spec_bytes() == s.spec_bytes().subrange(0, mid as int),
        r.1.spec_bytes() == s.spec_bytes().subrange(mid as int, s.spec_bytes().len() as int),
{
    proof {
        lemma_cut_ok(s.spec_bytes(), mid as int);
    }
    s.split_at(mid)
}

} // verus!
