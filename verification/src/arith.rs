//! The arithmetic that a kernel is written over.
//!
//! The kernels move numbers between slices and say which operation is applied to which of them;
//! what an operation returns is the business of the arithmetic. The contracts hold of every
//! implementation that meets the trait. Three are proved to: `Symbolic` (see `symbolic`) builds the
//! formula, `Ideal` (see `ideal`) computes on real numbers, and `Rounded` (see `rounded`) computes on
//! them as a machine that rounds. The single-precision floats that a host plugs in are outside the
//! proof.

use vstd::prelude::*;

verus! {

/// The numeric operations of the tensor unit.
///
/// Each executable operation returns what its mathematical counterpart (the same name with `_of`)
/// says of the operands, so a contract can name the result of a whole pass. `unset` is the one
/// operation of which nothing is known: it is what memory holds that nobody has written.
///
/// The counterparts exist for proofs only. They have a default, so that a host that plugs in its own
/// arithmetic can write the executable half alone. Nothing is proved of such an arithmetic: that its
/// operations return what some counterpart says of the operands alone is for the host to see to.
pub trait Arith: Sized {
    /// A number, whatever memory format it is kept in.
    type Num;

    open spec fn mul_of(a: Self::Num, b: Self::Num) -> Self::Num {
        arbitrary()
    }

    open spec fn add_of(a: Self::Num, b: Self::Num) -> Self::Num {
        arbitrary()
    }

    open spec fn sub_of(a: Self::Num, b: Self::Num) -> Self::Num {
        arbitrary()
    }

    open spec fn div_of(a: Self::Num, b: Self::Num) -> Self::Num {
        arbitrary()
    }

    open spec fn sqrt_of(a: Self::Num) -> Self::Num {
        arbitrary()
    }

    open spec fn erf_of(a: Self::Num) -> Self::Num {
        arbitrary()
    }

    open spec fn sum_of(a: Seq<Self::Num>) -> Self::Num {
        arbitrary()
    }

    open spec fn dot_of(a: Seq<Self::Num>, b: Seq<Self::Num>) -> Self::Num {
        arbitrary()
    }

    open spec fn bf16_of(a: Self::Num) -> Self::Num {
        arbitrary()
    }

    open spec fn f8_of(a: Self::Num) -> Self::Num {
        arbitrary()
    }

    open spec fn f4_of(code: u8) -> Self::Num {
        arbitrary()
    }

    open spec fn lit_of(digits: u64, places: u32) -> Self::Num {
        arbitrary()
    }

    /// The product, on one of the multiply units of the vector engine.
    fn mul(a: &Self::Num, b: &Self::Num) -> (r: Self::Num)
        ensures
            r == Self::mul_of(*a, *b),
    ;

    /// The sum of two numbers.
    fn add(a: &Self::Num, b: &Self::Num) -> (r: Self::Num)
        ensures
            r == Self::add_of(*a, *b),
    ;

    /// The difference.
    fn sub(a: &Self::Num, b: &Self::Num) -> (r: Self::Num)
        ensures
            r == Self::sub_of(*a, *b),
    ;

    /// The quotient.
    fn div(a: &Self::Num, b: &Self::Num) -> (r: Self::Num)
        ensures
            r == Self::div_of(*a, *b),
    ;

    /// The square root.
    fn sqrt(a: &Self::Num) -> (r: Self::Num)
        ensures
            r == Self::sqrt_of(*a),
    ;

    /// The error function.
    fn erf(a: &Self::Num) -> (r: Self::Num)
        ensures
            r == Self::erf_of(*a),
    ;

    /// A reduce-add: the numbers in the order in which they lie in memory, added in whatever order
    /// the engine adds them.
    fn sum(a: &Vec<Self::Num>) -> (r: Self::Num)
        ensures
            r == Self::sum_of(a@),
    ;

    /// A contraction: the products of the pairs, accumulated by the contraction engine.
    fn dot(a: &Vec<Self::Num>, b: &Vec<Self::Num>) -> (r: Self::Num)
        requires
            a@.len() == b@.len(),
        ensures
            r == Self::dot_of(a@, b@),
    ;

    /// Rounds to the nearest `bf16`.
    fn bf16(a: &Self::Num) -> (r: Self::Num)
        ensures
            r == Self::bf16_of(*a),
    ;

    /// Rounds to the nearest `f8e4m3`.
    fn f8(a: &Self::Num) -> (r: Self::Num)
        ensures
            r == Self::f8_of(*a),
    ;

    /// The number that the decode table has for an `f4e2m1` code (the low four bits of `code`).
    fn f4(code: u8) -> (r: Self::Num)
        ensures
            r == Self::f4_of(code),
    ;

    /// The literal `digits / 10^places`.
    fn lit(digits: u64, places: u32) -> (r: Self::Num)
        ensures
            r == Self::lit_of(digits, places),
    ;

    /// A copy of a number.
    fn dup(a: &Self::Num) -> (r: Self::Num)
        ensures
            r == *a,
    ;

    /// What unwritten memory holds.
    fn unset() -> Self::Num;
}

} // verus!
