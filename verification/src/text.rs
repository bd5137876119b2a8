use vstd::prelude::*;

verus! {

/// Whether two texts are the same, character for character.
pub fn same_text(left: &str, right: &str) -> (same: bool)
    ensures
        same == (left@ == right@),
{
    left.to_owned() == right.to_owned()
}

} // verus!
