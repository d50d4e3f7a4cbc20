//! Case folding for the email filter.

use vstd::prelude::*;

verus! {

/// The lowercase form of a character sequence, as Unicode defines it.
/// The mapping is a fixed function of the characters alone; it is given a
/// name here rather than spelled out.
pub uninterp spec fn lower_of(s: Seq<char>) -> Seq<char>;

/// Relies on `str::to_lowercase` of std: the result is the lowercase
/// equivalent of the input and depends on its characters alone.
#[verifier::external_body]
pub fn lowercase(s: &str) -> (r: String)
    ensures
        r@ == lower_of(s@),
{
    s.to_lowercase()
}

/// Index of the first occurrence of `c` in `s`, or `s.len()` when `c` does
/// not occur.
pub open spec fn first_in(s: Seq<char>, c: char) -> int
    decreases s.len(),
{
    if s.len() == 0 {
        0
    } else if s[0] == c {
        0
    } else {
        1 + first_in(s.drop_first(), c)
    }
}

/// A scan that saw no `c` before `i`, and `c` at `i` unless `i` is the
/// length, has found the first occurrence.
pub proof fn lemma_first_in_found(s: Seq<char>, c: char, i: int)
    requires
        0 <= i <= s.len(),
        forall|j: int| 0 <= j < i ==> s[j] != c,
        i < s.len() ==> s[i] == c,
    ensures
        first_in(s, c) == i,
    decreases i,
{
    if i == 0 {
    } else {
        assert(s[0] != c);
        lemma_first_in_found(s.drop_first(), c, i - 1);
    }
}

} // verus!
