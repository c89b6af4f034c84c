//! First-match scans over sequences and membership of text in lists.
use vstd::prelude::*;
use crate::text::str_eq;

verus! {

/// Some element of `items` has the characters `s`.
pub open spec fn contains_text(items: Seq<String>, s: Seq<char>) -> bool {
    exists|i: int| 0 <= i < items.len() && #[trigger] items[i]@ == s
}

/// Whether some string of `items` equals `s`.
pub fn contains_str(items: &Vec<String>, s: &str) -> (r: bool)
    ensures
        r == contains_text(items@, s@),
{
    for i in 0..items.len()
        invariant
            forall|j: int| 0 <= j < i ==> #[trigger] items@[j]@ != s@,
    {
        if str_eq(items[i].as_str(), s) {
            assert(items@[i as int]@ == s@);
            return true;
        }
    }
    false
}

} // verus!
