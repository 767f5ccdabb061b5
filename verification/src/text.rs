//! Text utilities for the stable wire-format names of enum values.
use vstd::prelude::*;
use vstd::string::StrSliceExecFns;

verus! {

/// Character-for-character equality of two string slices.
pub fn str_matches(value: &str, other: &str) -> (r: bool)
    ensures
        r == (value@ == other@),
{
    let n = value.unicode_len();
    if n != other.unicode_len() {
        return false;
    }
    let mut i: usize = 0;
    while i < n
        invariant
            i <= n,
            n == value@.len(),
            n == other@.len(),
            forall|j: int| 0 <= j < i ==> value@[j] == other@[j],
        decreases n - i,
    {
        if value.get_char(i) != other.get_char(i) {
            return false;
        }
        i = i + 1;
    }
    proof {
        assert(value@ =~= other@);
    }
    true
}

} // verus!
