//! Character-level helpers on string slices: exact equality and delimiter
//! detection, proved against the sequence-of-characters view.

use crate::model::DELIMITER;
use vstd::prelude::*;
use vstd::string::StrSliceExecFns;

verus! {

/// Exact character-wise equality of two string slices.
pub fn str_eq(a: &str, b: &str) -> (r: bool)
    ensures
        r <==> a@ == b@,
{
    let alen = a.unicode_len();
    let blen = b.unicode_len();
    if alen != blen {
        return false;
    }
    let mut i: usize = 0;
    while i < alen
        invariant
            alen == a@.len(),
            alen == b@.len(),
            i <= alen,
            forall|j: int| 0 <= j < i ==> a@[j] == b@[j],
        decreases alen - i,
    {
        if a.get_char(i) != b.get_char(i) {
            return false;
        }
        i = i + 1;
    }
    proof {
        assert(a@ =~= b@);
    }
    true
}

/// Whether the string slice contains the path-list delimiter character.
pub fn contains_delimiter(s: &str) -> (r: bool)
    ensures
        r <==> s@.contains(DELIMITER),
{
    let n = s.unicode_len();
    let mut i: usize = 0;
    while i < n
        invariant
            n == s@.len(),
            i <= n,
            forall|j: int| 0 <= j < i ==> s@[j] != DELIMITER,
        decreases n - i,
    {
        if s.get_char(i) == DELIMITER {
            assert(s@.contains(DELIMITER)) by {
                assert(s@[i as int] == DELIMITER);
            }
            return true;
        }
        i = i + 1;
    }
    false
}

} // verus!
