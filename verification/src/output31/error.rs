//! How far the output projection is off on a machine that rounds.

use vstd::prelude::*;

use crate::arith::Arith;
use crate::error::law_terms_error;
use crate::hidden::mean_square;
use crate::ideal::{
    lemma_quotient, lemma_quotient_is, lemma_total_added, lemma_total_blocked, lemma_total_same,
    lemma_total_scaled, total,
};
use crate::output31::{
    channel_scaled, eps_scaled, inv_rms, projection, tail_row, x_scale,
};
use crate::quant::term;
use crate::rounded::{
    accurate, close, lemma_add, lemma_div, lemma_mul, lemma_positive, lemma_root, lemma_same,
    lemma_size_product, lemma_sum, lemma_weaker, lemma_whole, products, reals, root_of, rounds,
    size, sums, Machine, Rounded,
};

verus! {

/// The levels of column `q` of the attention output: the terms of sixteen times the column.
pub proof fn law_levels_error<M: Machine>(v: Ghost<real>)
    requires
        accurate::<M>(),
    ensures
        exists|p: real, q: real|
            term::<Rounded<M>>(v, x_scale::<Rounded<M>>(), 0)@ == #[trigger] M::f8(p) && rounds(
                p,
                v@ * 16 as real,
            ) && term::<Rounded<M>>(v, x_scale::<Rounded<M>>(), 1)@ == #[trigger] M::f8(q)
                && rounds(q, p - term::<Rounded<M>>(v, x_scale::<Rounded<M>>(), 0)@),
{
    lemma_whole::<M>(16);
    law_terms_error::<M>(v, x_scale::<Rounded<M>>());
}

/// What column `q` contributes to row `h`: the weight times both levels.
spec fn column<M: Machine>(weight: Seq<Ghost<real>>, x: Seq<Ghost<real>>, h: int, q: int) -> real {
    weight[h * 4096 + q]@ * (term::<Rounded<M>>(x[q], x_scale::<Rounded<M>>(), 0)@ + term::<
        Rounded<M>,
    >(x[q], x_scale::<Rounded<M>>(), 1)@)
}

/// How large that is at most.
spec fn column_size<M: Machine>(
    weight: Seq<Ghost<real>>,
    x: Seq<Ghost<real>>,
    h: int,
    q: int,
) -> real {
    size(weight[h * 4096 + q]@) * (size(term::<Rounded<M>>(x[q], x_scale::<Rounded<M>>(), 0)@)
        + size(term::<Rounded<M>>(x[q], x_scale::<Rounded<M>>(), 1)@))
}

/// Block `j` of row `h` against one level.
proof fn lemma_level<M: Machine>(
    weight: Seq<Ghost<real>>,
    x: Seq<Ghost<real>>,
    h: int,
    j: int,
    l: int,
)
    requires
        accurate::<M>(),
        weight.len() == 15_728_640,
        0 <= h < 3840,
        0 <= j < 16,
    ensures
        close(
            Rounded::<M>::dot_of(
                weight.subrange(h * 4096 + j * 256, h * 4096 + j * 256 + 256),
                Seq::new(
                    256,
                    |q: int| term::<Rounded<M>>(x[j * 256 + q], x_scale::<Rounded<M>>(), l),
                ),
            )@,
            total(
                256,
                |q: int|
                    weight[h * 4096 + (j * 256 + q)]@ * term::<Rounded<M>>(
                        x[j * 256 + q],
                        x_scale::<Rounded<M>>(),
                        l,
                    )@,
            ),
            1024,
            total(
                256,
                |q: int|
                    size(weight[h * 4096 + (j * 256 + q)]@) * size(
                        term::<Rounded<M>>(x[j * 256 + q], x_scale::<Rounded<M>>(), l)@,
                    ),
            ),
        ),
{
    let left = reals(weight.subrange(h * 4096 + j * 256, h * 4096 + j * 256 + 256));
    let right = reals(
        Seq::new(256, |q: int| term::<Rounded<M>>(x[j * 256 + q], x_scale::<Rounded<M>>(), l)),
    );
    let a = products(left, right);
    let g = |q: int|
        weight[h * 4096 + (j * 256 + q)]@ * term::<Rounded<M>>(
            x[j * 256 + q],
            x_scale::<Rounded<M>>(),
            l,
        )@;
    let s = |q: int|
        size(weight[h * 4096 + (j * 256 + q)]@) * size(
            term::<Rounded<M>>(x[j * 256 + q], x_scale::<Rounded<M>>(), l)@,
        );
    assert forall|q: int| 0 <= q < 256 implies close(#[trigger] a[q], g(q), 0, s(q)) by {
        lemma_same(a[q]);
        lemma_size_product(
            weight[h * 4096 + (j * 256 + q)]@,
            term::<Rounded<M>>(x[j * 256 + q], x_scale::<Rounded<M>>(), l)@,
        );
    }
    assert(sums(M::dot(left, right), a));
    lemma_sum(M::dot(left, right), a, g, 0, s);
}

/// Block `j` of row `h`, against both levels.
spec fn block<M: Machine>(weight: Seq<Ghost<real>>, x: Seq<Ghost<real>>, h: int, j: int) -> Ghost<
    real,
> {
    Rounded::<M>::sum_of(
        Seq::new(
            2,
            |l: int|
                Rounded::<M>::dot_of(
                    weight.subrange(h * 4096 + j * 256, h * 4096 + j * 256 + 256),
                    Seq::new(
                        256,
                        |q: int| term::<Rounded<M>>(x[j * 256 + q], x_scale::<Rounded<M>>(), l),
                    ),
                ),
        ),
    )
}

proof fn lemma_block<M: Machine>(weight: Seq<Ghost<real>>, x: Seq<Ghost<real>>, h: int, j: int)
    requires
        accurate::<M>(),
        weight.len() == 15_728_640,
        0 <= h < 3840,
        0 <= j < 16,
    ensures
        close(
            block::<M>(weight, x, h, j)@,
            total(256, |q: int| column::<M>(weight, x, h, j * 256 + q)),
            1032,
            total(256, |q: int| column_size::<M>(weight, x, h, j * 256 + q)),
        ),
{
    let lanes = Seq::new(
        2,
        |l: int|
            Rounded::<M>::dot_of(
                weight.subrange(h * 4096 + j * 256, h * 4096 + j * 256 + 256),
                Seq::new(
                    256,
                    |q: int| term::<Rounded<M>>(x[j * 256 + q], x_scale::<Rounded<M>>(), l),
                ),
            ),
    );
    let a = reals(lanes);
    let f = |l: int, q: int|
        weight[h * 4096 + (j * 256 + q)]@ * term::<Rounded<M>>(
            x[j * 256 + q],
            x_scale::<Rounded<M>>(),
            l,
        )@;
    let z = |l: int, q: int|
        size(weight[h * 4096 + (j * 256 + q)]@) * size(
            term::<Rounded<M>>(x[j * 256 + q], x_scale::<Rounded<M>>(), l)@,
        );
    let g = |l: int| total(256, |q: int| f(l, q));
    let s = |l: int| total(256, |q: int| z(l, q));
    assert forall|l: int| 0 <= l < 2 implies close(#[trigger] a[l], g(l), 1024, s(l)) by {
        lemma_level::<M>(weight, x, h, j, l);
        lemma_total_same(
            256,
            |q: int| f(l, q),
            |q: int|
                weight[h * 4096 + (j * 256 + q)]@ * term::<Rounded<M>>(
                    x[j * 256 + q],
                    x_scale::<Rounded<M>>(),
                    l,
                )@,
        );
        lemma_total_same(
            256,
            |q: int| z(l, q),
            |q: int|
                size(weight[h * 4096 + (j * 256 + q)]@) * size(
                    term::<Rounded<M>>(x[j * 256 + q], x_scale::<Rounded<M>>(), l)@,
                ),
        );
    }
    assert(sums(M::sum(a), a));
    lemma_sum(M::sum(a), a, g, 1024, s);
    assert(total(2, g) == g(0) + g(1) && total(2, s) == s(0) + s(1)) by {
        reveal_with_fuel(total, 3);
    }
    lemma_total_added(256, |q: int| f(0, q), |q: int| f(1, q));
    lemma_total_added(256, |q: int| z(0, q), |q: int| z(1, q));
    let e = |q: int| column::<M>(weight, x, h, j * 256 + q);
    let t = |q: int| column_size::<M>(weight, x, h, j * 256 + q);
    assert forall|q: int| 0 <= q < 256 implies #[trigger] e(q) == f(0, q) + f(1, q) && t(q) == z(
        0,
        q,
    ) + z(1, q) by {
        let w = weight[h * 4096 + (j * 256 + q)]@;
        let (m, n) = (
            term::<Rounded<M>>(x[j * 256 + q], x_scale::<Rounded<M>>(), 0)@,
            term::<Rounded<M>>(x[j * 256 + q], x_scale::<Rounded<M>>(), 1)@,
        );
        assert(w * (m + n) == w * m + w * n) by (nonlinear_arith);
        let (b, c, d) = (size(w), size(m), size(n));
        assert(b * (c + d) == b * c + b * d) by (nonlinear_arith);
    }
    let both = |q: int| (|q: int| f(0, q))(q) + (|q: int| f(1, q))(q);
    lemma_total_same(256, e, both);
    assert forall|q: int| 0 <= q < 256 implies #[trigger] t(q) == z(0, q) + z(1, q) by {
        assert(e(q) == f(0, q) + f(1, q));
    }
    lemma_total_same(256, t, |q: int| (|q: int| z(0, q))(q) + (|q: int| z(1, q))(q));
}

/// A projected row is the rounded value of a number that is, up to 1096 parts, the sum over all 4096
/// columns of the weight times both levels.
pub proof fn law_projected_error<M: Machine>(
    weight: Seq<Ghost<real>>,
    x: Seq<Ghost<real>>,
    h: int,
)
    requires
        accurate::<M>(),
        weight.len() == 15_728_640,
        0 <= h < 3840,
    ensures
        exists|y: real|
            projection::<Rounded<M>>(weight, x)[h]@ == #[trigger] M::bf16(y) && close(
                y,
                total(
                    4096,
                    |q: int|
                        weight[h * 4096 + q]@ * (term::<Rounded<M>>(
                            x[q],
                            x_scale::<Rounded<M>>(),
                            0,
                        )@ + term::<Rounded<M>>(x[q], x_scale::<Rounded<M>>(), 1)@),
                ),
                1096,
                total(
                    4096,
                    |q: int|
                        size(weight[h * 4096 + q]@) * (size(
                            term::<Rounded<M>>(x[q], x_scale::<Rounded<M>>(), 0)@,
                        ) + size(term::<Rounded<M>>(x[q], x_scale::<Rounded<M>>(), 1)@)),
                ),
            ),
{
    let blocks = Seq::new(16, |j: int| block::<M>(weight, x, h, j));
    let a = reals(blocks);
    let f = |q: int| column::<M>(weight, x, h, q);
    let z = |q: int| column_size::<M>(weight, x, h, q);
    let g = |j: int| total(256, |q: int| f(j * 256 + q));
    let s = |j: int| total(256, |q: int| z(j * 256 + q));
    assert forall|j: int| 0 <= j < 16 implies close(#[trigger] a[j], g(j), 1032, s(j)) by {
        lemma_block::<M>(weight, x, h, j);
        lemma_total_same(
            256,
            |q: int| f(j * 256 + q),
            |q: int| column::<M>(weight, x, h, j * 256 + q),
        );
        lemma_total_same(
            256,
            |q: int| z(j * 256 + q),
            |q: int| column_size::<M>(weight, x, h, j * 256 + q),
        );
    }
    assert(sums(M::sum(a), a));
    lemma_sum(M::sum(a), a, g, 1032, s);
    lemma_total_blocked(16, 256, f);
    lemma_total_blocked(16, 256, z);
    lemma_total_same(16, g, |i: int| total(256, |j: int| f(i * 256 + j)));
    lemma_total_same(16, s, |i: int| total(256, |j: int| z(i * 256 + j)));
    lemma_total_same(
        4096,
        f,
        |q: int|
            weight[h * 4096 + q]@ * (term::<Rounded<M>>(x[q], x_scale::<Rounded<M>>(), 0)@ + term::<
                Rounded<M>,
            >(x[q], x_scale::<Rounded<M>>(), 1)@),
    );
    lemma_total_same(
        4096,
        z,
        |q: int|
            size(weight[h * 4096 + q]@) * (size(
                term::<Rounded<M>>(x[q], x_scale::<Rounded<M>>(), 0)@,
            ) + size(term::<Rounded<M>>(x[q], x_scale::<Rounded<M>>(), 1)@)),
    );
    let y = M::sum(a);
    let given = Seq::new(
        16,
        |j: int|
            Rounded::<M>::sum_of(
                Seq::new(
                    2,
                    |l: int|
                        Rounded::<M>::dot_of(
                            weight.subrange(h * 4096 + j * 256, h * 4096 + j * 256 + 256),
                            Seq::new(
                                256,
                                |q: int|
                                    term::<Rounded<M>>(x[j * 256 + q], x_scale::<Rounded<M>>(), l),
                            ),
                        ),
                ),
            ),
    );
    assert(given =~= blocks);
    assert(projection::<Rounded<M>>(weight, x)[h]@ == M::bf16(y));
}

/// The mean of the squares of the rows, each times its channel scale.
pub open spec fn mean_of_rows(z: Seq<Ghost<real>>, scale: Seq<Ghost<real>>) -> real {
    total(3840, |h: int| (z[h]@ * scale[h]@) * (z[h]@ * scale[h]@)) / 3840 as real
}

/// Slice `g` of the tail: what its 240 scaled rows contribute to the mean square.
proof fn lemma_slice<M: Machine>(z: Seq<Ghost<real>>, scale: Seq<Ghost<real>>, g: int)
    requires
        accurate::<M>(),
        z.len() == 3840,
        0 <= g < 16,
    ensures
        close(
            mean_square::<Rounded<M>>(
                channel_scaled::<Rounded<M>>(z, scale).subrange(g * 240, g * 240 + 240),
            )@,
            total(
                240,
                |e: int|
                    (z[g * 240 + e]@ * scale[g * 240 + e]@) * (z[g * 240 + e]@ * scale[g * 240
                        + e]@),
            ) / 3840 as real,
            973,
            total(
                240,
                |e: int|
                    (z[g * 240 + e]@ * scale[g * 240 + e]@) * (z[g * 240 + e]@ * scale[g * 240
                        + e]@),
            ) / 3840 as real,
        ),
{
    let v = channel_scaled::<Rounded<M>>(z, scale).subrange(g * 240, g * 240 + 240);
    let a = reals(Seq::new(v.len(), |i: int| Rounded::<M>::mul_of(v[i], v[i])));
    let f = |e: int|
        (z[g * 240 + e]@ * scale[g * 240 + e]@) * (z[g * 240 + e]@ * scale[g * 240 + e]@);
    assert forall|e: int| 0 <= e < 240 implies close(#[trigger] a[e], f(e), 9, f(e)) by {
        let (b, c) = (z[g * 240 + e]@, scale[g * 240 + e]@);
        lemma_same(b);
        lemma_same(c);
        lemma_mul::<M>(b, b, 0, size(b), c, c, 0, size(c));
        let (m, d) = (M::mul(b, c), b * c);
        lemma_size_product(b, c);
        lemma_mul::<M>(m, d, 3, size(d), m, d, 3, size(d));
        lemma_size_product(d, d);
        assert(d * d >= 0 as real) by (nonlinear_arith);
    }
    assert(sums(M::sum(a), a));
    lemma_sum(M::sum(a), a, f, 9, f);
    let t = total(240, f);
    lemma_whole::<M>(3840);
    lemma_div::<M>(M::sum(a), t, 969, t, M::lit(3840, 0), 3840 as real, 0);
}

/// The contributions of the sixteen slices add up to the mean of all squares.
proof fn lemma_mean_of_slices(
    z: Seq<Ghost<real>>,
    scale: Seq<Ghost<real>>,
    g: spec_fn(int) -> real,
)
    requires
        forall|p: int|
            0 <= p < 16 ==> #[trigger] g(p) == total(
                240,
                |e: int|
                    (z[p * 240 + e]@ * scale[p * 240 + e]@) * (z[p * 240 + e]@ * scale[p * 240
                        + e]@),
            ) / 3840 as real,
    ensures
        total(16, g) == mean_of_rows(z, scale),
{
    let square = |h: int| (z[h]@ * scale[h]@) * (z[h]@ * scale[h]@);
    let inner = |p: int| total(240, |j: int| square(p * 240 + j));
    let k = 1 as real / 3840 as real;
    assert forall|p: int| 0 <= p < 16 implies #[trigger] g(p) == k * inner(p) by {
        lemma_total_same(
            240,
            |e: int|
                (z[p * 240 + e]@ * scale[p * 240 + e]@) * (z[p * 240 + e]@ * scale[p * 240 + e]@),
            |j: int| square(p * 240 + j),
        );
        let t = inner(p);
        assert(t / 3840 as real == k * t);
    }
    lemma_total_same(16, g, |p: int| k * inner(p));
    lemma_total_scaled(16, k, inner);
    lemma_total_blocked(16, 240, square);
    lemma_total_same(16, inner, |i: int| total(240, |j: int| square(i * 240 + j)));
    lemma_total_same(
        3840,
        square,
        |h: int| (z[h]@ * scale[h]@) * (z[h]@ * scale[h]@),
    );
}

/// The reciprocal of the root mean square of the scaled rows, up to 2200 parts. The epsilon is 256
/// times the given one, for the rows are sixteen times too large.
pub proof fn law_inv_rms_error<M: Machine>(
    z: Seq<Ghost<real>>,
    scale: Seq<Ghost<real>>,
    eps: Ghost<real>,
    r: real,
)
    requires
        accurate::<M>(),
        z.len() == 3840,
        eps@ >= 0 as real,
        r > 0 as real,
        r * r == mean_of_rows(z, scale) + 256 as real * eps@,
    ensures
        close(
            inv_rms::<Rounded<M>>(channel_scaled::<Rounded<M>>(z, scale), eps)@,
            1 as real / r,
            2200,
            1 as real / r,
        ),
{
    let y = channel_scaled::<Rounded<M>>(z, scale);
    let a = reals(
        Seq::new(16, |g: int| mean_square::<Rounded<M>>(y.subrange(g * 240, g * 240 + 240))),
    );
    let g = |p: int|
        total(
            240,
            |e: int|
                (z[p * 240 + e]@ * scale[p * 240 + e]@) * (z[p * 240 + e]@ * scale[p * 240 + e]@),
        ) / 3840 as real;
    assert forall|p: int| 0 <= p < 16 implies close(#[trigger] a[p], g(p), 973, g(p)) by {
        lemma_slice::<M>(z, scale, p);
    }
    assert(sums(M::sum(a), a));
    lemma_sum(M::sum(a), a, g, 973, g);
    lemma_mean_of_slices(z, scale, g);
    let m = mean_of_rows(z, scale);
    lemma_whole::<M>(16);
    let (e, b) = (eps@, M::lit(16, 0));
    lemma_same(e);
    lemma_mul::<M>(e, e, 0, e, b, 16 as real, 0, 16 as real);
    lemma_mul::<M>(M::mul(e, b), e * 16 as real, 3, e * 16 as real, b, 16 as real, 0, 16 as real);
    let f = M::mul(M::mul(e, b), b);
    let n = 256 as real * e;
    assert((e * 16 as real) * 16 as real == n);
    lemma_weaker(f, n, 6, 1037, n);
    lemma_add::<M>(M::sum(a), m, m, f, n, n, 1037);
    let t = M::add(M::sum(a), f);
    let s = r * r;
    lemma_positive(t, s, 1039);
    assert(root_of(M::sqrt(t), t));
    lemma_root(M::sqrt(t), t, r, 1039);
    let v = M::sqrt(t);
    assert(s > 0 as real) by (nonlinear_arith)
        requires
            s == r * r,
            r > 0 as real,
    ;
    lemma_div::<M>(v, r, 1045, r, t, s, 1039);
    lemma_quotient(1 as real, r);
    let c = 1 as real / r;
    assert(c * s == r) by (nonlinear_arith)
        requires
            c * r == 1 as real,
            s == r * r,
    ;
    lemma_quotient_is(r, s, c);
    assert(eps_scaled::<Rounded<M>>(eps)@ == f);
    assert(inv_rms::<Rounded<M>>(y, eps)@ == M::div(v, t));
    lemma_weaker(M::div(v, t), c, 2088, 2200, c);
}

/// A row of the tail is the rounded value of a number that is, up to 64 parts, the projected row times
/// the channel scale, the norm weight and the reciprocal root, plus the residual. No row loses the
/// residual or itself, however small they are.
pub proof fn law_tail_row_error<M: Machine>(
    z: Seq<Ghost<real>>,
    scale: Seq<Ghost<real>>,
    rms_weight: Seq<Ghost<real>>,
    residual: Seq<Ghost<real>>,
    eps: Ghost<real>,
    h: int,
)
    requires
        accurate::<M>(),
    ensures
        exists|y: real|
            tail_row::<Rounded<M>>(z, scale, rms_weight, residual, eps, h)@ == #[trigger] M::bf16(y)
                && close(
                y,
                z[h]@ * scale[h]@ * rms_weight[h]@ * inv_rms::<Rounded<M>>(
                    channel_scaled::<Rounded<M>>(z, scale),
                    eps,
                )@ + residual[h]@,
                64,
                size(z[h]@) * size(scale[h]@) * size(rms_weight[h]@) * size(
                    inv_rms::<Rounded<M>>(channel_scaled::<Rounded<M>>(z, scale), eps)@,
                ) + size(residual[h]@),
            ),
{
    let (a, b, c, d, e) = (
        z[h]@,
        scale[h]@,
        rms_weight[h]@,
        inv_rms::<Rounded<M>>(channel_scaled::<Rounded<M>>(z, scale), eps)@,
        residual[h]@,
    );
    lemma_same(a);
    lemma_same(b);
    lemma_same(c);
    lemma_same(d);
    lemma_same(e);
    lemma_mul::<M>(a, a, 0, size(a), b, b, 0, size(b));
    let (p, q) = (M::mul(a, b), size(a) * size(b));
    lemma_mul::<M>(p, a * b, 3, q, c, c, 0, size(c));
    let (m, n) = (M::mul(p, c), q * size(c));
    lemma_mul::<M>(m, a * b * c, 6, n, d, d, 0, size(d));
    let (s, t) = (M::mul(m, d), n * size(d));
    lemma_weaker(e, e, 0, 9, size(e));
    lemma_add::<M>(s, a * b * c * d, t, e, e, size(e), 9);
    let y = M::add(s, e);
    lemma_weaker(y, a * b * c * d + e, 11, 64, t + size(e));
    assert(tail_row::<Rounded<M>>(z, scale, rms_weight, residual, eps, h)@ == M::bf16(y));
}

} // verus!
