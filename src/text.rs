//! Conversions between text types, on which the rest of the library builds.
use vstd::prelude::*;

verus! {

/// Relies on `str::chars` collected into a `Vec`: the characters of `s`, in order.
#[verifier::external_body]
pub(crate) fn chars_of(s: &str) -> (r: Vec<char>)
    ensures
        r@ == s@,
{
    s.chars().collect()
}

/// The string that `String::from_iter` builds from these characters.
pub uninterp spec fn string_from(s: Seq<char>) -> String;

/// Relies on `String::from_iter` over chars: a string holding exactly the
/// characters of `v` from `a` up to `b`, which depends on those characters alone.
#[verifier::external_body]
pub(crate) fn string_of(v: &Vec<char>, a: usize, b: usize) -> (r: String)
    requires
        a <= b <= v@.len(),
    ensures
        r@ == v@.subrange(a as int, b as int),
        r == string_from(v@.subrange(a as int, b as int)),
{
    v[a..b].iter().collect()
}

/// Relies on `String::push_str`: appends `s` to `out`.
#[verifier::external_body]
pub(crate) fn push_str(out: &mut String, s: &str)
    ensures
        final(out)@ == old(out)@ + s@,
{
    out.push_str(s)
}

} // verus!
