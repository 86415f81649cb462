//! Tests on the printed paths of functions and types.

use vstd::prelude::*;

verus! {

/// `pat` is the beginning of `s`.
pub open spec fn is_prefix(pat: Seq<char>, s: Seq<char>) -> bool {
    pat.len() <= s.len() && s.subrange(0, pat.len() as int) == pat
}

/// `pat` is the end of `s`.
pub open spec fn is_suffix(pat: Seq<char>, s: Seq<char>) -> bool {
    pat.len() <= s.len() && s.subrange(s.len() - pat.len(), s.len() as int) == pat
}

/// `pat` occurs somewhere in `s`.
pub open spec fn occurs_in(pat: Seq<char>, s: Seq<char>) -> bool {
    exists|i: int| 0 <= i && i + pat.len() <= s.len() && #[trigger] s.subrange(i, i + pat.len()) == pat
}

/// `==` of std on two string slices: whether they hold the same characters.
#[verifier::external_body]
pub(crate) fn str_eq(a: &str, b: &str) -> (r: bool)
    ensures
        r == (a@ == b@),
{
    a == b
}

/// `str::starts_with` of std with a string as the pattern: whether `s`
/// begins with the characters of `pat`.
#[verifier::external_body]
pub(crate) fn starts_with(s: &str, pat: &str) -> (r: bool)
    ensures
        r == is_prefix(pat@, s@),
{
    s.starts_with(pat)
}

/// `str::ends_with` of std with a string as the pattern: whether `s` ends
/// with the characters of `pat`.
#[verifier::external_body]
pub(crate) fn ends_with(s: &str, pat: &str) -> (r: bool)
    ensures
        r == is_suffix(pat@, s@),
{
    s.ends_with(pat)
}

/// `str::contains` of std with a string as the pattern: whether the
/// characters of `pat` occur in `s`, one after the other.
#[verifier::external_body]
pub(crate) fn contains(s: &str, pat: &str) -> (r: bool)
    ensures
        r == occurs_in(pat@, s@),
{
    s.contains(pat)
}

} // verus!
