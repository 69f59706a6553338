//! How the result of the output projection follows its inputs, in exact arithmetic.

use vstd::prelude::*;

use crate::arith::Arith;
use crate::exact::{
    law_mean_of_negated, law_mean_of_permuted, law_negated_terms, mean_of_squares, negated, odd_at,
    odd_roundings, permuted,
};
use crate::hidden::mean_square;
use crate::ideal::{lemma_total_negated, lemma_total_same, permutes, total, Functions, Ideal};
use crate::output31::exact::lemma_pieces;
use crate::output31::{channel_scaled, inv_rms, projected, projection, tail_row, x_scale};
use crate::quant::term;

verus! {

/// What column block `j` contributes to row `h`: both levels, added up.
spec fn block_part<F: Functions>(
    weight: Seq<Ghost<real>>,
    x: Seq<Ghost<real>>,
    h: int,
    j: int,
) -> Ghost<real> {
    Ideal::<F>::sum_of(
        Seq::new(
            2,
            |l: int|
                Ideal::<F>::dot_of(
                    weight.subrange(h * 4096 + j * 256, h * 4096 + j * 256 + 256),
                    Seq::new(
                        256,
                        |q: int| term::<Ideal<F>>(x[j * 256 + q], x_scale::<Ideal<F>>(), l),
                    ),
                ),
        ),
    )
}

/// Negating the columns negates what a level contributes.
proof fn lemma_negated_level<F: Functions>(w: Seq<Ghost<real>>, x: Seq<Ghost<real>>, j: int, l: int)
    requires
        odd_roundings::<F>(),
        w.len() == 256,
        x.len() == 4096,
        0 <= j < 16,
    ensures
        Ideal::<F>::dot_of(
            w,
            Seq::new(
                256,
                |q: int| term::<Ideal<F>>(negated(x)[j * 256 + q], x_scale::<Ideal<F>>(), l),
            ),
        )@ == -Ideal::<F>::dot_of(
            w,
            Seq::new(256, |q: int| term::<Ideal<F>>(x[j * 256 + q], x_scale::<Ideal<F>>(), l)),
        )@,
{
    let a = Seq::new(
        256,
        |q: int| term::<Ideal<F>>(negated(x)[j * 256 + q], x_scale::<Ideal<F>>(), l),
    );
    let b = Seq::new(256, |q: int| term::<Ideal<F>>(x[j * 256 + q], x_scale::<Ideal<F>>(), l));
    let f = |q: int| w[q]@ * a[q]@;
    let g = |q: int| w[q]@ * b[q]@;
    assert forall|q: int| 0 <= q < 256 implies #[trigger] f(q) == -g(q) by {
        law_negated_terms::<F>(x[j * 256 + q], x_scale::<Ideal<F>>(), l);
        let (c, t) = (w[q]@, b[q]@);
        assert(c * (-t) == -(c * t)) by (nonlinear_arith);
    }
    lemma_total_same(256, f, |q: int| -g(q));
    lemma_total_negated(256, g);
}

/// Negating the columns negates what a column block contributes.
proof fn lemma_negated_part<F: Functions>(
    weight: Seq<Ghost<real>>,
    x: Seq<Ghost<real>>,
    h: int,
    j: int,
)
    requires
        odd_roundings::<F>(),
        weight.len() == 15_728_640,
        x.len() == 4096,
        0 <= h < 3840,
        0 <= j < 16,
    ensures
        block_part::<F>(weight, negated(x), h, j)@ == -block_part::<F>(weight, x, h, j)@,
{
    let w = weight.subrange(h * 4096 + j * 256, h * 4096 + j * 256 + 256);
    lemma_negated_level::<F>(w, x, j, 0);
    lemma_negated_level::<F>(w, x, j, 1);
    let a = Seq::new(
        2,
        |l: int|
            Ideal::<F>::dot_of(
                w,
                Seq::new(
                    256,
                    |q: int| term::<Ideal<F>>(negated(x)[j * 256 + q], x_scale::<Ideal<F>>(), l),
                ),
            ),
    );
    let b = Seq::new(
        2,
        |l: int|
            Ideal::<F>::dot_of(
                w,
                Seq::new(256, |q: int| term::<Ideal<F>>(x[j * 256 + q], x_scale::<Ideal<F>>(), l)),
            ),
    );
    let f = |l: int| a[l]@;
    let g = |l: int| b[l]@;
    assert forall|l: int| 0 <= l < 2 implies #[trigger] f(l) == -g(l) by {
        assert(l == 0 || l == 1);
    }
    lemma_total_same(2, f, |l: int| -g(l));
    lemma_total_negated(2, g);
}

/// Odd roundings negate every projected row with the attention output.
pub proof fn law_negated_row<F: Functions>(weight: Seq<Ghost<real>>, x: Seq<Ghost<real>>, h: int)
    requires
        odd_roundings::<F>(),
        weight.len() == 15_728_640,
        x.len() == 4096,
        0 <= h < 3840,
    ensures
        projected::<Ideal<F>>(weight, negated(x), h)@ == -projected::<Ideal<F>>(weight, x, h)@,
{
    let a = Seq::new(16, |j: int| block_part::<F>(weight, negated(x), h, j));
    let b = Seq::new(16, |j: int| block_part::<F>(weight, x, h, j));
    let f = |j: int| a[j]@;
    let g = |j: int| b[j]@;
    assert forall|j: int| 0 <= j < 16 implies #[trigger] f(j) == -g(j) by {
        lemma_negated_part::<F>(weight, x, h, j);
    }
    lemma_total_same(16, f, |j: int| -g(j));
    lemma_total_negated(16, g);
    assert(odd_at::<F>(total(16, g)));
    lemma_row_of_parts::<F>(weight, x, h);
    lemma_row_of_parts::<F>(weight, negated(x), h);
}

/// A projected row is the rounded sum of what its column blocks contribute.
proof fn lemma_row_of_parts<F: Functions>(weight: Seq<Ghost<real>>, x: Seq<Ghost<real>>, h: int)
    ensures
        projected::<Ideal<F>>(weight, x, h) == Ideal::<F>::bf16_of(
            Ideal::<F>::sum_of(Seq::new(16, |j: int| block_part::<F>(weight, x, h, j))),
        ),
{
    assert(Seq::new(16, |j: int| block_part::<F>(weight, x, h, j)) =~= Seq::new(
        16,
        |j: int|
            Ideal::<F>::sum_of(
                Seq::new(
                    2,
                    |l: int|
                        Ideal::<F>::dot_of(
                            weight.subrange(h * 4096 + j * 256, h * 4096 + j * 256 + 256),
                            Seq::new(
                                256,
                                |q: int|
                                    term::<Ideal<F>>(x[j * 256 + q], x_scale::<Ideal<F>>(), l),
                            ),
                        ),
                ),
            ),
    ));
}

/// The reciprocal root depends on the mean square of the rows alone.
proof fn lemma_same_root<F: Functions>(y: Seq<Ghost<real>>, z: Seq<Ghost<real>>, eps: Ghost<real>)
    requires
        y.len() == 3840,
        z.len() == 3840,
        mean_of_squares(y) == mean_of_squares(z),
    ensures
        inv_rms::<Ideal<F>>(y, eps) == inv_rms::<Ideal<F>>(z, eps),
{
    lemma_pieces::<F>(y);
    lemma_pieces::<F>(z);
    let a = Ideal::<F>::sum_of(
        Seq::new(16, |g: int| mean_square::<Ideal<F>>(y.subrange(g * 240, g * 240 + 240))),
    );
    let b = Ideal::<F>::sum_of(
        Seq::new(16, |g: int| mean_square::<Ideal<F>>(z.subrange(g * 240, g * 240 + 240))),
    );
    assert(a == Ghost(a@) && b == Ghost(b@));
}

/// `project_normalize_add`, signs: with a zero residual, negating the attention output negates every row
/// of the result. The root mean square does not see the sign.
pub proof fn law_negated_attention<F: Functions>(
    x: Seq<Ghost<real>>,
    weight: Seq<Ghost<real>>,
    scale: Seq<Ghost<real>>,
    rms_weight: Seq<Ghost<real>>,
    residual: Seq<Ghost<real>>,
    eps: Ghost<real>,
    h: int,
)
    requires
        odd_roundings::<F>(),
        weight.len() == 15_728_640,
        x.len() == 4096,
        0 <= h < 3840,
        residual[h]@ == 0 as real,
    ensures
        tail_row::<Ideal<F>>(
            projection::<Ideal<F>>(weight, negated(x)),
            scale,
            rms_weight,
            residual,
            eps,
            h,
        )@ == -tail_row::<Ideal<F>>(
            projection::<Ideal<F>>(weight, x),
            scale,
            rms_weight,
            residual,
            eps,
            h,
        )@,
{
    let z = projection::<Ideal<F>>(weight, x);
    let other = projection::<Ideal<F>>(weight, negated(x));
    let y = channel_scaled::<Ideal<F>>(z, scale);
    let turned = channel_scaled::<Ideal<F>>(other, scale);
    assert forall|i: int| 0 <= i < 3840 implies turned[i] == negated(y)[i] by {
        law_negated_row::<F>(weight, x, i);
        let (a, s) = (z[i]@, scale[i]@);
        assert((-a) * s == -(a * s)) by (nonlinear_arith);
    }
    assert(turned =~= negated(y));
    law_mean_of_negated(y);
    lemma_same_root::<F>(turned, y, eps);
    law_negated_row::<F>(weight, x, h);
    let (a, s, w, r) = (
        z[h]@,
        scale[h]@,
        rms_weight[h]@,
        inv_rms::<Ideal<F>>(y, eps)@,
    );
    assert((-a) * s * w * r == -(a * s * w * r)) by (nonlinear_arith);
    assert(odd_at::<F>(a * s * w * r));
}

/// The rows of the weight in the order of `p`.
pub open spec fn permuted_rows(weight: Seq<Ghost<real>>, p: spec_fn(int) -> int) -> Seq<Ghost<real>> {
    Seq::new(weight.len(), |k: int| weight[p(k / 4096) * 4096 + k % 4096])
}

/// A row of the permuted weight gives the row that it was.
proof fn lemma_permuted_row<F: Functions>(
    weight: Seq<Ghost<real>>,
    x: Seq<Ghost<real>>,
    p: spec_fn(int) -> int,
    h: int,
)
    requires
        weight.len() == 15_728_640,
        permutes(p, 3840),
        0 <= h < 3840,
    ensures
        projected::<Ideal<F>>(permuted_rows(weight, p), x, h) == projected::<Ideal<F>>(
            weight,
            x,
            p(h),
        ),
{
    let moved = permuted_rows(weight, p);
    let from = p(h);
    assert(0 <= from < 3840);
    let a = Seq::new(16, |j: int| block_part::<F>(moved, x, h, j));
    let b = Seq::new(16, |j: int| block_part::<F>(weight, x, from, j));
    assert forall|j: int| 0 <= j < 16 implies a[j] == b[j] by {
        let v = moved.subrange(h * 4096 + j * 256, h * 4096 + j * 256 + 256);
        let w = weight.subrange(from * 4096 + j * 256, from * 4096 + j * 256 + 256);
        assert forall|q: int| 0 <= q < 256 implies v[q] == w[q] by {
            let k = h * 4096 + j * 256 + q;
            assert(k / 4096 == h && k % 4096 == j * 256 + q);
        }
        assert(v =~= w);
    }
    assert(a =~= b);
    lemma_row_of_parts::<F>(moved, x, h);
    lemma_row_of_parts::<F>(weight, x, from);
}

/// `project_normalize_add`, order: permuting the rows of the weight, the channel scales, the norm weight
/// and the residual alike permutes the result. Row `h` of the weight meets entry `h` of the others,
/// across the borders of the tiles and of the slices too.
pub proof fn law_permuted_rows<F: Functions>(
    x: Seq<Ghost<real>>,
    weight: Seq<Ghost<real>>,
    scale: Seq<Ghost<real>>,
    rms_weight: Seq<Ghost<real>>,
    residual: Seq<Ghost<real>>,
    eps: Ghost<real>,
    p: spec_fn(int) -> int,
    h: int,
)
    requires
        weight.len() == 15_728_640,
        scale.len() == 3840,
        rms_weight.len() == 3840,
        residual.len() == 3840,
        permutes(p, 3840),
        0 <= h < 3840,
    ensures
        tail_row::<Ideal<F>>(
            projection::<Ideal<F>>(permuted_rows(weight, p), x),
            permuted(scale, p),
            permuted(rms_weight, p),
            permuted(residual, p),
            eps,
            h,
        ) == tail_row::<Ideal<F>>(
            projection::<Ideal<F>>(weight, x),
            scale,
            rms_weight,
            residual,
            eps,
            p(h),
        ),
{
    let z = projection::<Ideal<F>>(weight, x);
    let other = projection::<Ideal<F>>(permuted_rows(weight, p), x);
    let y = channel_scaled::<Ideal<F>>(z, scale);
    let moved = channel_scaled::<Ideal<F>>(other, permuted(scale, p));
    assert forall|i: int| 0 <= i < 3840 implies moved[i] == permuted(y, p)[i] by {
        lemma_permuted_row::<F>(weight, x, p, i);
        assert(0 <= p(i) < 3840);
    }
    assert(moved =~= permuted(y, p));
    law_mean_of_permuted(y, p);
    lemma_same_root::<F>(moved, y, eps);
    lemma_permuted_row::<F>(weight, x, p, h);
    assert(0 <= p(h) < 3840);
}

} // verus!
