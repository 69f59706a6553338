//! How far the steps that the kernels share are off on a machine that rounds.

use vstd::prelude::*;

use crate::arith::Arith;
use crate::hidden::mean_square;
use crate::ideal::{lemma_total_same, total};
use crate::quant::term;
use crate::rounded::{
    accurate, close, lemma_div, lemma_mul, lemma_same, lemma_size_product, lemma_sum, lemma_whole,
    reals, rounds, size, sums, Machine, Rounded,
};

verus! {

/// The two terms of `v`: the first is the rounded value of a number that is the scaled `v` up to one
/// rounding, and the second is the rounded value of what the first has left of that number, up to one
/// rounding.
pub proof fn law_terms_error<M: Machine>(v: Ghost<real>, gain: Ghost<real>)
    requires
        accurate::<M>(),
    ensures
        exists|p: real, q: real|
            term::<Rounded<M>>(v, gain, 0)@ == #[trigger] M::f8(p) && rounds(p, v@ * gain@)
                && term::<Rounded<M>>(v, gain, 1)@ == #[trigger] M::f8(q) && rounds(
                q,
                p - term::<Rounded<M>>(v, gain, 0)@,
            ),
{
    let p = M::mul(v@, gain@);
    let first = M::f8(p);
    let q = M::sub(p, first);
    assert(rounds(p, v@ * gain@));
    assert(rounds(q, p - first));
    assert(term::<Rounded<M>>(v, gain, 0)@ == M::f8(p));
    assert(term::<Rounded<M>>(v, gain, 1)@ == M::f8(q));
}

/// What columns contribute to a mean square.
pub proof fn lemma_mean_square<M: Machine>(v: Seq<Ghost<real>>)
    requires
        accurate::<M>(),
        v.len() <= 1000,
    ensures
        close(
            mean_square::<Rounded<M>>(v)@,
            total(v.len(), |i: int| v[i]@ * v[i]@) / 3840 as real,
            4 * v.len() as int + 7,
            total(v.len(), |i: int| v[i]@ * v[i]@) / 3840 as real,
        ),
{
    let n = v.len();
    let squares = Seq::new(n, |i: int| Rounded::<M>::mul_of(v[i], v[i]));
    let a = reals(squares);
    let g = |i: int| v[i]@ * v[i]@;
    assert forall|i: int| 0 <= i < n implies close(#[trigger] a[i], g(i), 3, g(i)) by {
        let x = v[i]@;
        lemma_same(x);
        lemma_mul::<M>(x, x, 0, size(x), x, x, 0, size(x));
        lemma_size_product(x, x);
        assert(x * x >= 0 as real) by (nonlinear_arith);
    }
    assert(sums(M::sum(a), a));
    lemma_sum(M::sum(a), a, g, 3, g);
    let t = total(n, g);
    lemma_whole::<M>(3840);
    lemma_div::<M>(M::sum(a), t, 3 + 4 * n as int, t, M::lit(3840, 0), 3840 as real, 0);
    lemma_total_same(n, g, |i: int| v[i]@ * v[i]@);
}

} // verus!
