//! What the output projection computes in exact arithmetic.

use vstd::prelude::*;

use crate::arith::Arith;
use crate::exact::{
    exact_terms, fine, has_root, holds, law_bf16_terms, law_gains_pass, lemma_held_multiple,
    mean_of_squares, passes, rounds_to_bf16, rounds_to_f8, units,
};
use crate::ffn7::exact::law_constants;
use crate::hidden::mean_square;
use crate::ideal::{
    lemma_total_added, lemma_total_blocked, lemma_total_multiple, lemma_total_same,
    lemma_total_scaled, multiple_of, ten_to, times, total, Functions, Ideal,
};
use crate::output31::{channel_scaled, eps_scaled, projected, projection, tail_row, x_scale};
use crate::quant::term;

verus! {

/// The gain on the attention output, and the epsilon that matches its square.
pub proof fn law_scale<F: Functions>(eps: Ghost<real>)
    ensures
        x_scale::<Ideal<F>>()@ == 16 as real,
        eps_scaled::<Ideal<F>>(eps)@ == 256 as real * eps@,
{
    let one = ten_to(0);
    assert(one == 1 as real);
    assert(16 as real / one == 16 as real) by (nonlinear_arith)
        requires
            one == 1 as real,
    ;
    let e = eps@;
    assert(e * 16 as real * 16 as real == 256 as real * e) by (nonlinear_arith);
}

/// Row `h` of the weight against the attention output.
pub open spec fn exact_product(weight: Seq<Ghost<real>>, x: Seq<Ghost<real>>, h: int) -> real {
    total(4096, |q: int| weight[h * 4096 + q]@ * x[q]@)
}

/// The projection: over sixteen blocks and two levels, row `h` is the rounded sixteenfold product,
/// where the levels lose nothing.
pub proof fn law_projected<F: Functions>(weight: Seq<Ghost<real>>, x: Seq<Ghost<real>>, h: int)
    requires
        weight.len() == 15_728_640,
        x.len() == 4096,
        0 <= h < 3840,
        forall|q: int|
            0 <= q < 4096 ==> exact_terms::<F>(#[trigger] x[q], x_scale::<Ideal<F>>()),
    ensures
        projected::<Ideal<F>>(weight, x, h)@ == F::bf16(16 as real * exact_product(weight, x, h)),
{
    law_scale::<F>(Ghost(0 as real));
    let product = |q: int| weight[h * 4096 + q]@ * x[q]@;
    let block = |j: int| total(256, |k: int| product(j * 256 + k));
    let sums = Seq::new(
        16,
        |j: int|
            Ideal::<F>::sum_of(
                Seq::new(
                    2,
                    |l: int|
                        Ideal::<F>::dot_of(
                            weight.subrange(h * 4096 + j * 256, h * 4096 + j * 256 + 256),
                            Seq::new(
                                256,
                                |q: int| term::<Ideal<F>>(x[j * 256 + q], x_scale::<Ideal<F>>(), l),
                            ),
                        ),
                ),
            ),
    );
    assert forall|j: int| 0 <= j < 16 implies #[trigger] sums[j]@ == 16 as real * block(j) by {
        let w = weight.subrange(h * 4096 + j * 256, h * 4096 + j * 256 + 256);
        let low = |q: int| w[q]@ * term::<Ideal<F>>(x[j * 256 + q], x_scale::<Ideal<F>>(), 0)@;
        let high = |q: int| w[q]@ * term::<Ideal<F>>(x[j * 256 + q], x_scale::<Ideal<F>>(), 1)@;
        let lanes = Seq::new(
            2,
            |l: int|
                Ideal::<F>::dot_of(
                    w,
                    Seq::new(
                        256,
                        |q: int| term::<Ideal<F>>(x[j * 256 + q], x_scale::<Ideal<F>>(), l),
                    ),
                ),
        );
        assert(lanes[0]@ == total(256, low)) by {
            let terms = Seq::new(
                256,
                |q: int| term::<Ideal<F>>(x[j * 256 + q], x_scale::<Ideal<F>>(), 0),
            );
            lemma_total_same(256, |q: int| w[q]@ * terms[q]@, low);
        }
        assert(lanes[1]@ == total(256, high)) by {
            let terms = Seq::new(
                256,
                |q: int| term::<Ideal<F>>(x[j * 256 + q], x_scale::<Ideal<F>>(), 1),
            );
            lemma_total_same(256, |q: int| w[q]@ * terms[q]@, high);
        }
        reveal_with_fuel(total, 3);
        let f = |l: int| lanes[l]@;
        assert(total(2, f) == f(0) + f(1));
        lemma_total_added(256, low, high);
        let plain = |k: int| product(j * 256 + k);
        assert forall|q: int| 0 <= q < 256 implies #[trigger] low(q) + high(q) == 16 as real
            * plain(q) by {
            let v = x[j * 256 + q];
            assert(exact_terms::<F>(v, x_scale::<Ideal<F>>()));
            let a = w[q]@;
            let p = term::<Ideal<F>>(v, x_scale::<Ideal<F>>(), 0)@;
            let r = term::<Ideal<F>>(v, x_scale::<Ideal<F>>(), 1)@;
            let b = v@;
            assert(a * p + a * r == 16 as real * (a * b)) by (nonlinear_arith)
                requires
                    p + r == 16 as real * b,
            ;
            assert(w[q] == weight[h * 4096 + (j * 256 + q)]);
        }
        lemma_total_same(256, |q: int| low(q) + high(q), |q: int| 16 as real * plain(q));
        lemma_total_scaled(256, 16 as real, plain);
        assert(lanes =~= Seq::new(
            2,
            |l: int|
                Ideal::<F>::dot_of(
                    weight.subrange(h * 4096 + j * 256, h * 4096 + j * 256 + 256),
                    Seq::new(
                        256,
                        |q: int| term::<Ideal<F>>(x[j * 256 + q], x_scale::<Ideal<F>>(), l),
                    ),
                ),
        ));
    }
    lemma_total_same(16, |j: int| sums[j]@, |j: int| 16 as real * block(j));
    lemma_total_scaled(16, 16 as real, block);
    lemma_total_blocked(16, 256, product);
    lemma_total_same(16, block, |i: int| total(256, |j: int| product(i * 256 + j)));
}

/// The reciprocal root: what the pass computes as `sqrt t / t` is `1 / sqrt t`.
pub proof fn law_reciprocal_root<F: Functions>(t: Ghost<real>)
    requires
        has_root::<F>(t@),
    ensures
        Ideal::<F>::div_of(Ideal::<F>::sqrt_of(t), t)@ == 1 as real / F::sqrt(t@),
{
    let r = F::sqrt(t@);
    let v = t@;
    assert(r / v == 1 as real / r) by (nonlinear_arith)
        requires
            r > 0 as real,
            r * r == v,
    ;
}

/// The mean of the squares of rows in sixteen pieces of 240.
pub(crate) proof fn lemma_pieces<F: Functions>(y: Seq<Ghost<real>>)
    requires
        y.len() == 3840,
    ensures
        Ideal::<F>::sum_of(
            Seq::new(16, |g: int| mean_square::<Ideal<F>>(y.subrange(g * 240, g * 240 + 240))),
        )@ == mean_of_squares(y),
{
    law_constants::<F>();
    let square = |h: int| y[h]@ * y[h]@;
    let parts = Seq::new(16, |g: int| mean_square::<Ideal<F>>(y.subrange(g * 240, g * 240 + 240)));
    let inner = |g: int| total(240, |j: int| square(g * 240 + j));
    let k = 1 as real / 3840 as real;
    assert forall|g: int| 0 <= g < 16 implies #[trigger] parts[g]@ == k * inner(g) by {
        let v = y.subrange(g * 240, g * 240 + 240);
        let squares = Seq::new(v.len(), |i: int| Ideal::<F>::mul_of(v[i], v[i]));
        lemma_total_same(240, |i: int| squares[i]@, |j: int| square(g * 240 + j));
        let t = inner(g);
        assert(t / 3840 as real == k * t) by (nonlinear_arith)
            requires
                k == 1 as real / 3840 as real,
        ;
    }
    lemma_total_same(16, |g: int| parts[g]@, |g: int| k * inner(g));
    lemma_total_scaled(16, k, inner);
    lemma_total_blocked(16, 240, square);
    lemma_total_same(16, inner, |i: int| total(240, |j: int| square(i * 240 + j)));
    let t = total(3840, square);
    assert(k * t == t / 3840 as real) by (nonlinear_arith)
        requires
            k == 1 as real / 3840 as real,
    ;
    lemma_total_same(3840, square, |h: int| y[h]@ * y[h]@);
}

/// The rows `y` times the channel scales.
pub open spec fn scaled_rows(y: Seq<real>, scale: Seq<Ghost<real>>) -> Seq<Ghost<real>> {
    Seq::new(y.len(), |h: int| Ghost(y[h] * scale[h]@))
}

/// The tail: with rows that are sixteen times too large and an epsilon that is scaled to match, it
/// still computes `y s w / rms(y s) + r`, rounded once.
pub proof fn law_tail<F: Functions>(
    z: Seq<Ghost<real>>,
    y: Seq<real>,
    scale: Seq<Ghost<real>>,
    rms_weight: Seq<Ghost<real>>,
    residual: Seq<Ghost<real>>,
    eps: Ghost<real>,
    h: int,
)
    requires
        z.len() == 3840,
        y.len() == 3840,
        forall|i: int| 0 <= i < 3840 ==> (#[trigger] z[i])@ == 16 as real * y[i],
        0 <= h < 3840,
        has_root::<F>(mean_of_squares(scaled_rows(y, scale)) + eps@),
        has_root::<F>(256 as real * (mean_of_squares(scaled_rows(y, scale)) + eps@)),
    ensures
        tail_row::<Ideal<F>>(z, scale, rms_weight, residual, eps, h)@ == F::bf16(
            y[h] * scale[h]@ * rms_weight[h]@ / F::sqrt(
                mean_of_squares(scaled_rows(y, scale)) + eps@,
            ) + residual[h]@,
        ),
{
    law_scale::<F>(eps);
    let v = scaled_rows(y, scale);
    let big = channel_scaled::<Ideal<F>>(z, scale);
    lemma_pieces::<F>(big);
    let small_square = |i: int| v[i]@ * v[i]@;
    let big_square = |i: int| big[i]@ * big[i]@;
    assert forall|i: int| 0 <= i < 3840 implies #[trigger] big_square(i) == 256 as real
        * small_square(i) by {
        let a = y[i];
        let b = scale[i]@;
        assert(z[i]@ == 16 as real * a);
        assert((16 as real * a * b) * (16 as real * a * b) == 256 as real * ((a * b) * (a * b)))
            by (nonlinear_arith);
    }
    lemma_total_same(3840, big_square, |i: int| 256 as real * small_square(i));
    lemma_total_scaled(3840, 256 as real, small_square);
    lemma_total_same(3840, |i: int| big[i]@ * big[i]@, big_square);
    lemma_total_same(3840, |i: int| v[i]@ * v[i]@, small_square);
    let sum = total(3840, small_square);
    let e = eps@;
    assert((256 as real * sum) / 3840 as real + 256 as real * e == 256 as real * (sum
        / 3840 as real + e)) by (nonlinear_arith);
    let t0 = mean_of_squares(v) + e;
    let t = 256 as real * t0;
    let r0 = F::sqrt(t0);
    let r = F::sqrt(t);
    assert(r == 16 as real * r0) by (nonlinear_arith)
        requires
            r > 0 as real,
            r0 > 0 as real,
            r * r == t,
            r0 * r0 == t0,
            t == 256 as real * t0,
    ;
    law_reciprocal_root::<F>(Ghost(t));
    let a = y[h];
    let b = scale[h]@;
    let w = rms_weight[h]@;
    assert(z[h]@ == 16 as real * a);
    assert((16 as real * a) * b * w * (1 as real / r) == a * b * w / r0) by (nonlinear_arith)
        requires
            r == 16 as real * r0,
            r0 > 0 as real,
    ;
}

/// The output projection, in exact arithmetic: row `h` is the residual plus the normalized product
/// of the weight and the attention output. The factor sixteen is gone, where the levels lose
/// nothing and the rounding of the rows lets the factor through.
pub proof fn law_project_normalize_add<F: Functions>(
    x: Seq<Ghost<real>>,
    weight: Seq<Ghost<real>>,
    scale: Seq<Ghost<real>>,
    rms_weight: Seq<Ghost<real>>,
    residual: Seq<Ghost<real>>,
    eps: Ghost<real>,
    h: int,
)
    requires
        weight.len() == 15_728_640,
        x.len() == 4096,
        0 <= h < 3840,
        forall|q: int|
            0 <= q < 4096 ==> exact_terms::<F>(#[trigger] x[q], x_scale::<Ideal<F>>()),
        forall|i: int|
            0 <= i < 3840 ==> passes::<F>(16 as real, #[trigger] exact_product(weight, x, i)),
        has_root::<F>(
            mean_of_squares(scaled_rows(rounded_products::<F>(weight, x), scale)) + eps@,
        ),
        has_root::<F>(
            256 as real * (mean_of_squares(scaled_rows(rounded_products::<F>(weight, x), scale))
                + eps@),
        ),
    ensures
        tail_row::<Ideal<F>>(
            projection::<Ideal<F>>(weight, x),
            scale,
            rms_weight,
            residual,
            eps,
            h,
        )@ == F::bf16(
            F::bf16(exact_product(weight, x, h)) * scale[h]@ * rms_weight[h]@ / F::sqrt(
                mean_of_squares(scaled_rows(rounded_products::<F>(weight, x), scale)) + eps@,
            ) + residual[h]@,
        ),
{
    let y = rounded_products::<F>(weight, x);
    let z = projection::<Ideal<F>>(weight, x);
    assert forall|i: int| 0 <= i < 3840 implies (#[trigger] z[i])@ == 16 as real * y[i] by {
        law_projected::<F>(weight, x, i);
        assert(passes::<F>(16 as real, exact_product(weight, x, i)));
    }
    law_tail::<F>(z, y, scale, rms_weight, residual, eps, h);
}

/// The rounded rows of the product of the weight and the attention output.
pub open spec fn rounded_products<F: Functions>(
    weight: Seq<Ghost<real>>,
    x: Seq<Ghost<real>>,
) -> Seq<real> {
    Seq::new(3840, |h: int| F::bf16(exact_product(weight, x, h)))
}

/// Where the roundings are those of the formats, the levels lose nothing and the rounding of the rows
/// lets the factor sixteen through: for an attention output of `bf16` numbers that are multiples of
/// `2^-13` and at most 28, and a weight of `f8e4m3` numbers, which are multiples of `2^-9`.
pub proof fn law_rounded_attention<F: Functions>(weight: Seq<Ghost<real>>, x: Seq<Ghost<real>>)
    requires
        weight.len() == 15_728_640,
        x.len() == 4096,
        rounds_to_f8::<F>(),
        rounds_to_bf16::<F>(fine()),
        forall|q: int| 0 <= q < 4096 ==> holds((#[trigger] x[q])@, 1 as real / 8192 as real),
        forall|k: int| 0 <= k < 15_728_640 ==> multiple_of((#[trigger] weight[k])@, units(1)),
    ensures
        forall|q: int|
            0 <= q < 4096 ==> exact_terms::<F>(#[trigger] x[q], x_scale::<Ideal<F>>()),
        forall|i: int|
            0 <= i < 3840 ==> passes::<F>(16 as real, #[trigger] exact_product(weight, x, i)),
{
    law_scale::<F>(Ghost(0 as real));
    let unit = 1 as real / 8192 as real;
    assert(unit * 16 as real == units(1));
    assert forall|q: int| 0 <= q < 4096 implies exact_terms::<F>(
        #[trigger] x[q],
        x_scale::<Ideal<F>>(),
    ) by {
        law_bf16_terms::<F>(x[q], x_scale::<Ideal<F>>(), unit);
    }
    assert forall|i: int| 0 <= i < 3840 implies passes::<F>(
        16 as real,
        #[trigger] exact_product(weight, x, i),
    ) by {
        let f = |q: int| weight[i * 4096 + q]@ * x[q]@;
        assert forall|q: int| 0 <= q < 4096 implies multiple_of(#[trigger] f(q), fine()) by {
            lemma_held_multiple(x[q]@, unit);
            let w = weight[i * 4096 + q]@;
            assert(multiple_of(w, units(1)));
            let a = choose|a: int| w == #[trigger] times(a, units(1));
            let b = choose|b: int| x[q]@ == #[trigger] times(b, unit);
            let (p, r) = (a as real, b as real);
            let (u, v) = (units(1), unit);
            assert((p * u) * (r * v) == (p * r) * (u * v)) by (nonlinear_arith);
            assert(u * v == fine());
            assert((a * b) as real == p * r) by (nonlinear_arith)
                requires
                    p == a as real,
                    r == b as real,
            ;
            assert(f(q) == times(a * b, fine()));
        }
        lemma_total_multiple(4096, f, fine());
        let n = choose|n: int| total(4096, f) == #[trigger] times(n, fine());
        law_gains_pass::<F>(fine(), n);
    }
}

} // verus!
