//! The hidden state.

use vstd::prelude::*;

use crate::arith::Arith;

verus! {

/// Length of the hidden state.
pub const H: usize = 3840;

/// The length of the hidden state, as a number.
pub open spec fn h_num<A: Arith>() -> A::Num {
    A::lit_of(3840, 0)
}

/// What the columns `v` contribute to the mean square of the hidden state.
pub open spec fn mean_square<A: Arith>(v: Seq<A::Num>) -> A::Num {
    A::div_of(A::sum_of(Seq::new(v.len(), |i: int| A::mul_of(v[i], v[i]))), h_num::<A>())
}

} // verus!
