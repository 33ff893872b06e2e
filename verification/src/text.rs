//! Byte-level text predicates, stated over the UTF-8 encoding of a string, which is
//! what `str::len` and `str::ends_with` look at.

use vstd::prelude::*;
use vstd::utf8::encode_utf8;

verus! {

/// Number of bytes in the UTF-8 encoding of `s` (what `str::len` reports).
pub open spec fn byte_len(s: Seq<char>) -> nat {
    encode_utf8(s).len()
}

/// `suffix` is a suffix of `s`.
pub open spec fn seq_ends_with(s: Seq<u8>, suffix: Seq<u8>) -> bool {
    &&& suffix.len() <= s.len()
    &&& s.subrange(s.len() - suffix.len(), s.len() as int) == suffix
}

/// The UTF-8 encoding of `s` ends with the UTF-8 encoding of `suffix`.
pub open spec fn text_ends_with(s: Seq<char>, suffix: Seq<char>) -> bool {
    seq_ends_with(encode_utf8(s), encode_utf8(suffix))
}

/// Length of `s` in bytes.
pub fn byte_length(s: &str) -> (n: usize)
    ensures
        n == byte_len(s@),
{
    s.as_bytes().len()
}

/// Whether `s` ends with `suffix`, compared byte by byte.
pub fn ends_with(s: &str, suffix: &str) -> (r: bool)
    ensures
        r == text_ends_with(s@, suffix@),
{
    let a = s.as_bytes();
    let b = suffix.as_bytes();
    let n = a.len();
    let m = b.len();
    if m > n {
        return false;
    }
    let off = n - m;
    let mut i: usize = 0;
    while i < m
        invariant
            a@ == encode_utf8(s@),
            b@ == encode_utf8(suffix@),
            n == a@.len(),
            m == b@.len(),
            off + m == n,
            i <= m,
            forall|j: int| 0 <= j < i ==> a@[off + j] == b@[j],
        decreases m - i,
    {
        if a[off + i] != b[i] {
            assert(a@.subrange(off as int, n as int)[i as int] == a@[off + i]);
            return false;
        }
        i += 1;
    }
    assert(a@.subrange(off as int, n as int) =~= b@);
    true
}

/// Whether the two strings hold the same characters.
pub fn same_text(x: &str, y: &str) -> (r: bool)
    ensures
        r == (x@ == y@),
{
    let a = x.as_bytes();
    let b = y.as_bytes();
    proof {
        vstd::utf8::encode_utf8_decode_utf8(x@);
        vstd::utf8::encode_utf8_decode_utf8(y@);
    }
    if a.len() != b.len() {
        return false;
    }
    let n = a.len();
    let mut i: usize = 0;
    while i < n
        invariant
            a@ == encode_utf8(x@),
            b@ == encode_utf8(y@),
            n == a@.len(),
            n == b@.len(),
            i <= n,
            forall|j: int| 0 <= j < i ==> a@[j] == b@[j],
        decreases n - i,
    {
        if a[i] != b[i] {
            return false;
        }
        i += 1;
    }
    assert(a@ =~= b@);
    true
}

} // verus!

verus! {

/// The characters of an optional string.
pub open spec fn opt_text(o: Option<String>) -> Option<Seq<char>> {
    match o {
        Some(s) => Some(s@),
        None => None,
    }
}

/// A copy of an optional string.
pub fn clone_opt_text(o: &Option<String>) -> (r: Option<String>)
    ensures
        opt_text(r) == opt_text(*o),
{
    match o {
        Some(s) => Some(s.clone()),
        None => None,
    }
}

/// Whether two optional strings hold the same characters.
pub fn same_opt_text(x: &Option<String>, y: &Option<String>) -> (r: bool)
    ensures
        r == (opt_text(*x) == opt_text(*y)),
{
    match (x, y) {
        (Some(a), Some(b)) => same_text(a.as_str(), b.as_str()),
        (None, None) => true,
        _ => false,
    }
}

} // verus!
