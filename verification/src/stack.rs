//! Work that is left, held as a stack: what is laid on it last is taken up
//! first.

use vstd::prelude::*;

verus! {

/// `base` with `items` laid on top of it, so that the first of `items` is
/// taken first and `base` is reached when all of them are done.
pub open spec fn stacked<A>(base: Seq<A>, items: Seq<A>) -> Seq<A>
    decreases items.len(),
{
    if items.len() == 0 {
        base
    } else {
        stacked(base, items.drop_first()).push(items[0])
    }
}

} // verus!
