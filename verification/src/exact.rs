//! What the laws on exact arithmetic ask of the numbers at hand.

use vstd::prelude::*;

use crate::arith::Arith;
use crate::ideal::{
    lemma_total_permuted, lemma_total_same, multiple_of, permutes, times, total, Functions, Ideal,
};
use crate::quant::term;
use crate::rounding::{
    bf16_rounded, eight_bits, law_bf16_bits, law_bf16_keeps_f8, law_doubled, law_two_terms,
    magnitude, rounded, LARGEST,
};

verus! {

/// The two terms of `v` lose nothing: they add up to the scaled number.
pub open spec fn exact_terms<F: Functions>(v: Ghost<real>, gain: Ghost<real>) -> bool {
    term::<Ideal<F>>(v, gain, 0)@ + term::<Ideal<F>>(v, gain, 1)@ == gain@ * v@
}

/// Rounding to `bf16` lets a gain through: whether `y` is scaled before or after makes no difference.
pub open spec fn passes<F: Functions>(gain: real, y: real) -> bool {
    F::bf16(gain * y) == gain * F::bf16(y)
}

/// The mean of the squares of the hidden state.
pub open spec fn mean_of_squares(x: Seq<Ghost<real>>) -> real {
    total(3840, |h: int| x[h]@ * x[h]@) / 3840 as real
}

/// The function that stands for the square root returns a positive root of `t`.
pub open spec fn has_root<F: Functions>(t: real) -> bool {
    F::sqrt(t) > 0 as real && F::sqrt(t) * F::sqrt(t) == t
}

/// Neither rounding changes a number.
pub open spec fn rounds_nothing<F: Functions>() -> bool {
    &&& forall|x: real| #[trigger] F::bf16(x) == x
    &&& forall|x: real| #[trigger] F::f8(x) == x
}

/// Where the roundings change nothing, the two terms lose nothing and a gain passes through.
pub proof fn law_unrounded<F: Functions>(v: Ghost<real>, gain: Ghost<real>)
    requires
        rounds_nothing::<F>(),
    ensures
        exact_terms::<F>(v, gain),
        passes::<F>(gain@, v@),
{
    let a = v@;
    let g = gain@;
    assert(a * g == g * a) by (nonlinear_arith);
}

/// A number of units of `2^-9`.
pub open spec fn units(n: int) -> real {
    n as real / 512 as real
}

/// `f8` rounds multiples of the smallest positive `f8e4m3` number as that format does.
pub open spec fn rounds_to_f8<F: Functions>() -> bool {
    forall|n: int| #[trigger] F::f8(units(n)) == units(rounded(n))
}

/// The two terms lose nothing where the scaled number has eight significant bits, is a multiple of the
/// smallest positive `f8e4m3` number and at most the largest one.
pub proof fn law_exact_terms<F: Functions>(v: Ghost<real>, gain: Ghost<real>, n: int)
    requires
        rounds_to_f8::<F>(),
        v@ * gain@ == units(n),
        eight_bits(magnitude(n)),
        magnitude(n) <= LARGEST,
    ensures
        exact_terms::<F>(v, gain),
{
    law_two_terms(n);
    let first = rounded(n);
    let rest = n - first;
    assert(F::f8(units(n)) == units(first));
    assert(units(n) - units(first) == units(rest));
    assert(F::f8(units(rest)) == units(rounded(rest)));
    let a = v@;
    let g = gain@;
    assert(a * g == g * a) by (nonlinear_arith);
}

/// `bf16` rounds multiples of `unit` as that format does, far from its largest number.
pub open spec fn rounds_to_bf16<F: Functions>(unit: real) -> bool {
    forall|n: int| #[trigger] F::bf16(n as real * unit) == bf16_rounded(n) as real * unit
}

/// Doubling passes through the rounding to `bf16`.
proof fn lemma_bf16_doubled(n: int)
    ensures
        bf16_rounded(2 * n) == 2 * bf16_rounded(n),
{
    law_doubled(magnitude(n), 256);
}

/// The gains of the kernels are powers of two, 128, 16, 8 and 1/4, and the rounding to `bf16` lets them
/// through, as it does a doubling.
pub proof fn law_gains_pass<F: Functions>(unit: real, n: int)
    requires
        rounds_to_bf16::<F>(unit),
    ensures
        passes::<F>(128 as real, n as real * unit),
        passes::<F>(16 as real, n as real * unit),
        passes::<F>(8 as real, n as real * unit),
        passes::<F>(2 as real, n as real * unit),
        passes::<F>(1 as real / 4 as real, (4 * n) as real * unit),
{
    lemma_bf16_doubled(n);
    lemma_bf16_doubled(2 * n);
    lemma_bf16_doubled(4 * n);
    lemma_bf16_doubled(8 * n);
    lemma_bf16_doubled(16 * n);
    lemma_bf16_doubled(32 * n);
    lemma_bf16_doubled(64 * n);
    let v = n as real;
    let r = bf16_rounded(n) as real;
    assert(F::bf16((128 * n) as real * unit) == bf16_rounded(128 * n) as real * unit);
    assert(F::bf16((16 * n) as real * unit) == bf16_rounded(16 * n) as real * unit);
    assert(F::bf16((8 * n) as real * unit) == bf16_rounded(8 * n) as real * unit);
    assert(F::bf16((4 * n) as real * unit) == bf16_rounded(4 * n) as real * unit);
    assert(F::bf16((2 * n) as real * unit) == bf16_rounded(2 * n) as real * unit);
    assert(F::bf16(n as real * unit) == r * unit);
    assert(128 as real * (v * unit) == (128 as real * v) * unit) by (nonlinear_arith);
    assert(128 as real * (r * unit) == (128 as real * r) * unit) by (nonlinear_arith);
    assert(16 as real * (v * unit) == (16 as real * v) * unit) by (nonlinear_arith);
    assert(16 as real * (r * unit) == (16 as real * r) * unit) by (nonlinear_arith);
    assert(8 as real * (v * unit) == (8 as real * v) * unit) by (nonlinear_arith);
    assert(8 as real * (r * unit) == (8 as real * r) * unit) by (nonlinear_arith);
    assert(2 as real * (v * unit) == (2 as real * v) * unit) by (nonlinear_arith);
    assert(2 as real * (r * unit) == (2 as real * r) * unit) by (nonlinear_arith);
    let quarter = 1 as real / 4 as real;
    assert(quarter * ((4 as real * v) * unit) == v * unit) by (nonlinear_arith)
        requires
            quarter == 1 as real / 4 as real,
    ;
    assert(quarter * ((4 as real * r) * unit) == r * unit) by (nonlinear_arith)
        requires
            quarter == 1 as real / 4 as real,
    ;
}

/// Where `bf16` rounds the multiples of a unit as that format does, it rounds the multiples of twice the
/// unit so too.
pub proof fn law_coarser_unit<F: Functions>(unit: real)
    requires
        rounds_to_bf16::<F>(unit),
    ensures
        rounds_to_bf16::<F>(2 as real * unit),
{
    assert forall|n: int| #[trigger] F::bf16(n as real * (2 as real * unit)) == bf16_rounded(n) as real
        * (2 as real * unit) by {
        lemma_bf16_doubled(n);
        let v = n as real;
        let r = bf16_rounded(n) as real;
        assert(F::bf16((2 * n) as real * unit) == bf16_rounded(2 * n) as real * unit);
        assert(v * (2 as real * unit) == (2 as real * v) * unit) by (nonlinear_arith);
        assert(r * (2 as real * unit) == (2 as real * r) * unit) by (nonlinear_arith);
    }
}

/// `unit`, doubled `k` times.
pub open spec fn doubled(unit: real, k: nat) -> real
    decreases k,
{
    if k == 0 {
        unit
    } else {
        2 as real * doubled(unit, (k - 1) as nat)
    }
}

/// The same for a unit that is doubled several times.
pub proof fn law_coarser_units<F: Functions>(unit: real, k: nat)
    requires
        rounds_to_bf16::<F>(unit),
    ensures
        rounds_to_bf16::<F>(doubled(unit, k)),
    decreases k,
{
    if k > 0 {
        law_coarser_units::<F>(unit, (k - 1) as nat);
        law_coarser_unit::<F>(doubled(unit, (k - 1) as nat));
    }
}

/// `v` is a `bf16` number, a multiple of `unit` and at most 229376 units.
pub open spec fn holds(v: real, unit: real) -> bool {
    exists|n: int|
        #![trigger bf16_rounded(n)]
        v == bf16_rounded(n) as real * unit && magnitude(bf16_rounded(n)) <= LARGEST
}

/// What is held as a `bf16` number of a unit is a multiple of the unit.
pub proof fn lemma_held_multiple(v: real, unit: real)
    requires
        holds(v, unit),
    ensures
        multiple_of(v, unit),
{
    let n = choose|n: int|
        #![trigger bf16_rounded(n)]
        v == bf16_rounded(n) as real * unit && magnitude(bf16_rounded(n)) <= LARGEST;
    assert(v == times(bf16_rounded(n), unit));
}

/// The two terms of a `bf16` number lose nothing, where the gain turns its unit into the smallest
/// positive `f8e4m3` number and it is at most the largest one.
pub proof fn law_bf16_terms<F: Functions>(v: Ghost<real>, gain: Ghost<real>, unit: real)
    requires
        rounds_to_f8::<F>(),
        unit * gain@ == units(1),
        holds(v@, unit),
    ensures
        exact_terms::<F>(v, gain),
{
    let n = choose|n: int|
        #![trigger bf16_rounded(n)]
        v@ == bf16_rounded(n) as real * unit && magnitude(bf16_rounded(n)) <= LARGEST;
    law_bf16_bits(n);
    let m = bf16_rounded(n);
    let r = m as real;
    let g = gain@;
    assert((r * unit) * g == r * (unit * g)) by (nonlinear_arith);
    assert(r * (1 as real / 512 as real) == r / 512 as real) by (nonlinear_arith);
    law_exact_terms::<F>(v, gain, m);
}

/// The two terms of a number that was rounded to `bf16` lose nothing, on the same conditions.
pub proof fn law_rounded_terms<F: Functions>(gain: Ghost<real>, unit: real, n: int)
    requires
        rounds_to_f8::<F>(),
        rounds_to_bf16::<F>(unit),
        unit * gain@ == units(1),
        magnitude(bf16_rounded(n)) <= LARGEST,
    ensures
        exact_terms::<F>(Ghost(F::bf16(n as real * unit)), gain),
{
    assert(F::bf16(n as real * unit) == bf16_rounded(n) as real * unit);
    law_bf16_terms::<F>(Ghost(F::bf16(n as real * unit)), gain, unit);
}

/// The conversion of a block scale from `f8` to `bf16` is exact.
pub proof fn law_scale_kept<F: Functions>(scale: Ghost<real>, k: int)
    requires
        rounds_to_bf16::<F>(units(1)),
        k == rounded(k),
        scale@ == units(k),
    ensures
        Ideal::<F>::bf16_of(scale) == scale,
{
    law_bf16_keeps_f8(k);
    let v = k as real;
    assert(v * (1 as real / 512 as real) == v / 512 as real) by (nonlinear_arith);
    assert(F::bf16(k as real * units(1)) == bf16_rounded(k) as real * units(1));
}

/// Neither rounding sees the sign of `x`.
pub open spec fn odd_at<F: Functions>(x: real) -> bool {
    F::bf16(-x) == -F::bf16(x) && F::f8(-x) == -F::f8(x)
}

/// Neither rounding sees a sign.
pub open spec fn odd_roundings<F: Functions>() -> bool {
    forall|x: real| #[trigger] odd_at::<F>(x)
}

/// The function that stands for the error function is odd.
pub open spec fn odd_erf<F: Functions>() -> bool {
    forall|x: real, y: real| y == -x ==> #[trigger] F::erf(y) == -#[trigger] F::erf(x)
}

/// Every number negated.
pub open spec fn negated(x: Seq<Ghost<real>>) -> Seq<Ghost<real>> {
    Seq::new(x.len(), |i: int| Ghost(-x[i]@))
}

/// The numbers in the order of `p`.
pub open spec fn permuted(x: Seq<Ghost<real>>, p: spec_fn(int) -> int) -> Seq<Ghost<real>> {
    Seq::new(x.len(), |i: int| x[p(i)])
}

/// Odd roundings negate both terms with the number.
pub proof fn law_negated_terms<F: Functions>(v: Ghost<real>, gain: Ghost<real>, t: int)
    requires
        odd_roundings::<F>(),
    ensures
        term::<Ideal<F>>(Ghost(-v@), gain, t)@ == -term::<Ideal<F>>(v, gain, t)@,
{
    let (a, g) = (v@, gain@);
    assert((-a) * g == -(a * g)) by (nonlinear_arith);
    assert(odd_at::<F>(a * g));
    assert(odd_at::<F>(a * g - F::f8(a * g)));
    assert(-(a * g) - -F::f8(a * g) == -(a * g - F::f8(a * g)));
}

/// The mean square does not see the signs.
pub proof fn law_mean_of_negated(x: Seq<Ghost<real>>)
    requires
        x.len() == 3840,
    ensures
        mean_of_squares(negated(x)) == mean_of_squares(x),
{
    let y = negated(x);
    assert forall|h: int| 0 <= h < 3840 implies y[h]@ * y[h]@ == x[h]@ * x[h]@ by {
        let a = x[h]@;
        assert((-a) * (-a) == a * a) by (nonlinear_arith);
    }
    lemma_total_same(3840, |h: int| y[h]@ * y[h]@, |h: int| x[h]@ * x[h]@);
}

/// The mean square does not see the order.
pub proof fn law_mean_of_permuted(x: Seq<Ghost<real>>, p: spec_fn(int) -> int)
    requires
        x.len() == 3840,
        permutes(p, 3840),
    ensures
        mean_of_squares(permuted(x, p)) == mean_of_squares(x),
{
    let y = permuted(x, p);
    let square = |h: int| x[h]@ * x[h]@;
    lemma_total_permuted(3840, square, p);
    lemma_total_same(3840, |h: int| y[h]@ * y[h]@, |h: int| square(p(h)));
    lemma_total_same(3840, square, |h: int| x[h]@ * x[h]@);
}

/// The unit `2^-22`, the product of `2^-9` and `2^-13`. The laws on inputs that are numbers of the
/// formats ask that `bf16` rounds its multiples as the format does.
pub open spec fn fine() -> real {
    1 as real / 4_194_304 as real
}

} // verus!
