//! An activation as two `f8e4m3` terms.
//!
//! The contraction engine multiplies `f8e4m3` numbers. An activation is scaled by a gain, rounded
//! to a first term, and what the rounding left is rounded to a second one: the engine then works
//! on their sum.

use vstd::prelude::*;

use crate::arith::Arith;
use crate::context::{plain, using, Buffer, Command, Context, Operands, Stage, Unit};
use crate::tensor::{cell, fill, Dm, SLICES};

verus! {

/// Term `t` of `v` scaled by `gain`: the rounded product, then the rounded rest.
pub open spec fn term<A: Arith>(v: A::Num, gain: A::Num, t: int) -> A::Num {
    if t == 0 {
        A::f8_of(A::mul_of(v, gain))
    } else {
        A::f8_of(A::sub_of(A::mul_of(v, gain), A::f8_of(A::mul_of(v, gain))))
    }
}

/// The first term.
pub fn first_term<A: Arith>(v: &A::Num, gain: &A::Num) -> (r: A::Num)
    ensures
        r == term::<A>(*v, *gain, 0),
{
    A::f8(&A::mul(v, gain))
}

/// The second term, from the first one as it was read back.
pub fn second_term<A: Arith>(v: &A::Num, gain: &A::Num, first: &A::Num) -> (r: A::Num)
    requires
        *first == term::<A>(*v, *gain, 0),
    ensures
        r == term::<A>(*v, *gain, 1),
{
    A::f8(&A::sub(&A::mul(v, gain), first))
}

/// The commands of `split_terms`: the first term is read back before the second one is computed.
pub open spec fn split_terms_log(stage: Stage, source: Buffer) -> Seq<Command> {
    seq![
        plain(Unit::Main, source, Buffer::Term(stage, 0)),
        plain(Unit::Sub, Buffer::Term(stage, 0), Buffer::TermVrf(stage)),
        using(Unit::Main, source, Operands::One(Buffer::TermVrf(stage)), Buffer::Term(stage, 1)),
    ]
}

/// Splits every element of `x` into its two terms: the `elems` first terms of a slice, then the
/// second ones.
pub fn split_terms<A: Arith>(
    ctx: &mut Context,
    stage: Stage,
    source: Buffer,
    x: &Dm<A::Num>,
    elems: usize,
    gain: &A::Num,
) -> (r: Dm<A::Num>)
    requires
        x.shaped(elems as int),
        2 * elems <= usize::MAX,
    ensures
        final(ctx).log() == old(ctx).log() + split_terms_log(stage, source),
        r.shaped(2 * elems),
        forall|s: int, e: int|
            0 <= s < SLICES && 0 <= e < 2 * elems ==> #[trigger] r.at(s, e) == (if e < elems {
                term::<A>(x.at(s, e), *gain, 0)
            } else {
                term::<A>(x.at(s, e - elems), *gain, 1)
            }),
{
    ctx.issue(Unit::Main, source, Buffer::Term(stage, 0));
    let first: Dm<A::Num> = fill(
        elems,
        |s: usize, e: usize| -> (r: A::Num)
            requires
                cell(s, e, elems as int),
            ensures
                r == term::<A>(x.at(s as int, e as int), *gain, 0),
        { first_term::<A>(x.get(s, e), gain) }
    );
    ctx.issue(Unit::Sub, Buffer::Term(stage, 0), Buffer::TermVrf(stage));
    ctx.issue_with(
        Unit::Main,
        source,
        Operands::One(Buffer::TermVrf(stage)),
        Buffer::Term(stage, 1),
    );
    let both: Dm<A::Num> = fill(
        2 * elems,
        |s: usize, e: usize| -> (r: A::Num)
            requires
                cell(s, e, 2 * elems),
            ensures
                r == (if e < elems {
                    term::<A>(x.at(s as int, e as int), *gain, 0)
                } else {
                    term::<A>(x.at(s as int, e - elems), *gain, 1)
                }),
        {
            if e < elems {
                A::dup(first.get(s, e))
            } else {
                second_term::<A>(x.get(s, e - elems), gain, first.get(s, e - elems))
            }
        }
    );
    assert(ctx.log() =~= old(ctx).log() + split_terms_log(stage, source));
    both
}

} // verus!
