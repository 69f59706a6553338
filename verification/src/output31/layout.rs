//! Where the rows of the output projection lie.

use vstd::prelude::*;

use crate::output31::tail_slot;
use crate::tensor::{in_slot, Dm};

verus! {

/// A slot of the pool: slice `g` of the sixteen slices of the tail holds the rows `240 g .. 240 g +
/// 240`, behind the slots before it.
pub proof fn law_tail_slot<V>(pool: Dm<V>, slot: int, v: Seq<V>, g: int, e: int)
    requires
        tail_slot(pool, slot, v),
        0 <= g < 16,
        0 <= e < 240,
    ensures
        pool.at(g, slot * 240 + e) == v[g * 240 + e],
        in_slot(slot * 240 + e, slot, 240),
{
}

/// An element lies in one slot: the quotient of its number and the width.
pub proof fn law_slots(e: int, slot: int)
    requires
        0 <= e,
    ensures
        in_slot(e, slot, 240) <==> e / 240 == slot,
        in_slot(e, slot, 480) <==> e / 480 == slot,
{
}

} // verus!
