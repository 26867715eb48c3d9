//! Name admission for the budget chat room.
//!
//! A joining user may call themselves anything nonempty made of letters
//! and digits; everything else is refused before the room is entered.

use vstd::prelude::*;
use crate::mob::is_alnum;

verus! {

/// A usable chat name: nonempty, letters and digits only.
pub open spec fn spec_valid_name(s: Seq<u8>) -> bool {
    s.len() >= 1 && forall|i: int| 0 <= i < s.len() ==> is_alnum(#[trigger] s[i])
}

/// Decides [`spec_valid_name`] for a trimmed name line.
pub fn valid_name(name: &[u8]) -> (r: bool)
    ensures
        r == spec_valid_name(name@),
{
    if name.len() == 0 {
        return false;
    }
    let mut i: usize = 0;
    while i < name.len()
        invariant
            i <= name@.len(),
            forall|j: int| 0 <= j < i ==> is_alnum(#[trigger] name@[j]),
        decreases name@.len() - i,
    {
        let b = name[i];
        if !((48 <= b && b <= 57) || (65 <= b && b <= 90) || (97 <= b && b <= 122)) {
            return false;
        }
        i = i + 1;
    }
    true
}

} // verus!
