//! How far the feed-forward block and the post-norm are off on a machine that rounds.
//!
//! Each law speaks of one result and of what it is made of. A result that is rounded to a shorter
//! format is the rounded value of a number, and the law says how near that number is to what is
//! meant.

use vstd::prelude::*;

use crate::arith::Arith;
use crate::error::{law_terms_error, lemma_mean_square};
use crate::exact::mean_of_squares;
use crate::ffn7::blocks::{block_sum, row_product};
use crate::ffn7::gate::{down_gain, gated};
use crate::ffn7::norm::{normalized, piece, rms, up_gain};
use crate::ffn7::{
    activation, activation_lanes, down_half, feedforward_column, gate_row, hidden_lanes, joined,
    post_norm_column, up_row, FeedForwardInputs,
};
use crate::hidden::mean_square;
use crate::ideal::{
    f4_value, lemma_total_added, lemma_total_blocked, lemma_total_joined, lemma_total_same,
    lemma_total_scaled, ten_to, total,
};
use crate::quant::term;
use crate::rounded::{
    accurate, close, lemma_add, lemma_div, lemma_mul, lemma_one, lemma_positive, lemma_root,
    lemma_rounded, lemma_same, lemma_size_product, lemma_sum, lemma_times, lemma_weaker,
    lemma_whole, products, reals, root_of, rounds, size, sums, Machine, Rounded,
};

verus! {

/// Where the two halves of a row meet: a column is the rounded value of a number that is, up to 64
/// parts, the sum of the halves times both global scales, over the gain. The scales may be as small
/// as they like.
pub proof fn law_joined_error<M: Machine>(
    halves: Seq<Ghost<real>>,
    down_scale: Ghost<real>,
    up_scale: Ghost<real>,
)
    requires
        accurate::<M>(),
        halves.len() == 2,
    ensures
        exists|y: real|
            joined::<Rounded<M>>(halves, down_scale, up_scale)@ == #[trigger] M::bf16(y) && close(
                y,
                4 as real * ((halves[0]@ + halves[1]@) * (down_scale@ * up_scale@)),
                64,
                4 as real * ((size(halves[0]@) + size(halves[1]@)) * size(down_scale@ * up_scale@)),
            ),
{
    let (d, u) = (down_scale@, up_scale@);
    let parts = Seq::new(
        halves.len(),
        |c: int|
            Rounded::<M>::mul_of(Rounded::<M>::mul_of(halves[c], down_scale), up_scale),
    );
    let a = reals(parts);
    let g = |c: int| halves[c]@ * d * u;
    let s = |c: int| size(halves[c]@) * size(d) * size(u);
    assert forall|c: int| 0 <= c < 2 implies close(#[trigger] a[c], g(c), 6, s(c)) by {
        let x = halves[c]@;
        lemma_same(x);
        lemma_same(d);
        lemma_same(u);
        lemma_mul::<M>(x, x, 0, size(x), d, d, 0, size(d));
        lemma_mul::<M>(M::mul(x, d), x * d, 3, size(x) * size(d), u, u, 0, size(u));
    }
    assert(sums(M::sum(a), a));
    lemma_sum(M::sum(a), a, g, 6, s);
    assert(total(2, g) == g(0) + g(1) && total(2, s) == s(0) + s(1)) by {
        reveal_with_fuel(total, 3);
    }
    lemma_quarter::<M>();
    let quarter = 1 as real / 4 as real;
    let (e, t) = (total(2, g), total(2, s));
    lemma_div::<M>(M::sum(a), e, 14, t, M::lit(25, 2), quarter, 1);
    let y = M::div(M::sum(a), M::lit(25, 2));
    lemma_weaker(y, e / quarter, 19, 64, t / quarter);
    assert(e / quarter == 4 as real * e && t / quarter == 4 as real * t);
    let (p, q) = (halves[0]@, halves[1]@);
    lemma_factored(p, q, d, u);
    lemma_factored(size(p), size(q), size(d), size(u));
    lemma_size_product(d, u);
    assert(joined::<Rounded<M>>(halves, down_scale, up_scale)@ == M::bf16(y));
}

/// A common factor of two summands.
proof fn lemma_factored(p: real, q: real, d: real, u: real)
    ensures
        p * d * u + q * d * u == (p + q) * (d * u),
{
    let v = d * u;
    assert(p * d * u == p * (d * u)) by (nonlinear_arith);
    assert(q * d * u == q * (d * u)) by (nonlinear_arith);
    assert(p * v + q * v == (p + q) * v) by (nonlinear_arith);
}

/// The same of column `h` of the block.
pub proof fn law_column_error<M: Machine>(i: FeedForwardInputs<Ghost<real>>, h: int)
    requires
        accurate::<M>(),
    ensures
        exists|y: real|
            feedforward_column::<Rounded<M>>(i, h)@ == #[trigger] M::bf16(y) && close(
                y,
                4 as real * ((down_half::<Rounded<M>>(i, 0, h)@ + down_half::<Rounded<M>>(i, 1, h)@)
                    * (i.down_global@ * i.up_global@)),
                64,
                4 as real * ((size(down_half::<Rounded<M>>(i, 0, h)@) + size(
                    down_half::<Rounded<M>>(i, 1, h)@,
                )) * size(i.down_global@ * i.up_global@)),
            ),
{
    law_joined_error::<M>(
        Seq::new(2, |c: int| down_half::<Rounded<M>>(i, c, h)),
        i.down_global,
        i.up_global,
    );
}

/// The contributions of eight pieces add up to the mean of all squares.
proof fn lemma_mean_of_pieces(x: Seq<Ghost<real>>, g: spec_fn(int) -> real)
    requires
        x.len() == 3840,
        forall|p: int|
            0 <= p < 8 ==> #[trigger] g(p) == total(
                480,
                |j: int| piece(x, p)[j]@ * piece(x, p)[j]@,
            ) / 3840 as real,
    ensures
        total(8, g) == mean_of_squares(x),
{
    let square = |h: int| x[h]@ * x[h]@;
    let inner = |p: int| total(480, |j: int| square(p * 480 + j));
    let k = 1 as real / 3840 as real;
    assert forall|p: int| 0 <= p < 8 implies #[trigger] g(p) == k * inner(p) by {
        lemma_total_same(
            480,
            |j: int| piece(x, p)[j]@ * piece(x, p)[j]@,
            |j: int| square(p * 480 + j),
        );
        let t = inner(p);
        assert(t / 3840 as real == k * t);
    }
    lemma_total_same(8, g, |p: int| k * inner(p));
    lemma_total_scaled(8, k, inner);
    lemma_total_blocked(8, 480, square);
    lemma_total_same(8, inner, |i: int| total(480, |j: int| square(i * 480 + j)));
    lemma_total_same(3840, square, |h: int| x[h]@ * x[h]@);
}

/// The root mean square of the hidden state, up to 2048 parts.
pub proof fn law_rms_error<M: Machine>(x: Seq<Ghost<real>>, eps: Ghost<real>, r: real)
    requires
        accurate::<M>(),
        x.len() == 3840,
        eps@ >= 0 as real,
        r > 0 as real,
        r * r == mean_of_squares(x) + eps@,
    ensures
        close(rms::<Rounded<M>>(x, eps)@, r, 2048, r),
{
    let parts = Seq::new(8, |p: int| mean_square::<Rounded<M>>(piece(x, p)));
    let a = reals(parts);
    let g = |p: int|
        total(480, |j: int| piece(x, p)[j]@ * piece(x, p)[j]@) / 3840 as real;
    assert forall|p: int| 0 <= p < 8 implies close(#[trigger] a[p], g(p), 1927, g(p)) by {
        lemma_mean_square::<M>(piece(x, p));
    }
    assert(sums(M::sum(a), a));
    lemma_sum(M::sum(a), a, g, 1927, g);
    lemma_mean_of_pieces(x, g);
    let m = mean_of_squares(x);
    lemma_same(eps@);
    lemma_weaker(eps@, eps@, 0, 1959, eps@);
    lemma_add::<M>(M::sum(a), m, m, eps@, eps@, eps@, 1959);
    let t = M::add(M::sum(a), eps@);
    let s = r * r;
    lemma_positive(t, s, 1961);
    assert(root_of(M::sqrt(t), t));
    lemma_root(M::sqrt(t), t, r, 1961);
    lemma_weaker(M::sqrt(t), r, 1967, 2048, r);
}

/// A column of the normalized hidden state is the rounded value of a number that is, up to 16
/// parts, the column over the root mean square, times the weight.
pub proof fn law_normalized_error<M: Machine>(
    x: Seq<Ghost<real>>,
    weight: Seq<Ghost<real>>,
    eps: Ghost<real>,
    h: int,
)
    requires
        accurate::<M>(),
        rms::<Rounded<M>>(x, eps)@ > 0 as real,
    ensures
        exists|y: real|
            normalized::<Rounded<M>>(x, weight, eps, h)@ == #[trigger] M::bf16(y) && close(
                y,
                x[h]@ / rms::<Rounded<M>>(x, eps)@ * weight[h]@,
                16,
                size(x[h]@) / rms::<Rounded<M>>(x, eps)@ * size(weight[h]@),
            ),
{
    let y = lemma_over_root::<M>(x[h]@, rms::<Rounded<M>>(x, eps)@, weight[h]@);
    assert(normalized::<Rounded<M>>(x, weight, eps, h)@ == M::bf16(y));
}

/// A number over a root, times a weight.
proof fn lemma_over_root<M: Machine>(v: real, r: real, w: real) -> (y: real)
    requires
        accurate::<M>(),
        r > 0 as real,
    ensures
        y == M::mul(M::div(v, r), w),
        close(y, v / r * w, 7, size(v) / r * size(w)),
        close(y, v / r * w, 16, size(v) / r * size(w)),
{
    lemma_same(v);
    lemma_same(r);
    lemma_same(w);
    lemma_div::<M>(v, v, 0, size(v), r, r, 0);
    lemma_mul::<M>(M::div(v, r), v / r, 4, size(v) / r, w, w, 0, size(w));
    let y = M::mul(M::div(v, r), w);
    lemma_weaker(y, v / r * w, 7, 16, size(v) / r * size(w));
    y
}

/// A column of the post-norm is the rounded value of a number that is, up to 64 parts, the column
/// over the root mean square times the weight, plus the residual, times the layer scalar. No column
/// loses the residual, however small it is.
pub proof fn law_post_norm_error<M: Machine>(
    x: Seq<Ghost<real>>,
    weight: Seq<Ghost<real>>,
    residual: Seq<Ghost<real>>,
    scalar: Ghost<real>,
    eps: Ghost<real>,
    h: int,
)
    requires
        accurate::<M>(),
        rms::<Rounded<M>>(x, eps)@ > 0 as real,
    ensures
        exists|y: real|
            post_norm_column::<Rounded<M>>(x, weight, residual, scalar, eps, h)@
                == #[trigger] M::bf16(y) && close(
                y,
                (x[h]@ / rms::<Rounded<M>>(x, eps)@ * weight[h]@ + residual[h]@) * scalar@,
                64,
                (size(x[h]@) / rms::<Rounded<M>>(x, eps)@ * size(weight[h]@) + size(residual[h]@))
                    * size(scalar@),
            ),
{
    let (v, r, w, b, g) = (
        x[h]@,
        rms::<Rounded<M>>(x, eps)@,
        weight[h]@,
        residual[h]@,
        scalar@,
    );
    let a = lemma_over_root::<M>(v, r, w);
    let (e, s) = (v / r * w, size(v) / r * size(w));
    lemma_same(b);
    lemma_weaker(b, b, 0, 7, size(b));
    lemma_add::<M>(a, e, s, b, b, size(b), 7);
    lemma_same(g);
    let c = M::add(a, b);
    lemma_mul::<M>(c, e + b, 9, s + size(b), g, g, 0, size(g));
    let y = M::mul(c, g);
    lemma_weaker(y, (e + b) * g, 12, 64, (s + size(b)) * size(g));
    assert(post_norm_column::<Rounded<M>>(x, weight, residual, scalar, eps, h)@ == M::bf16(y));
}

/// The literal `0.25`, up to one rounding.
proof fn lemma_quarter<M: Machine>()
    requires
        accurate::<M>(),
    ensures
        close(M::lit(25, 2), 1 as real / 4 as real, 1, 1 as real / 4 as real),
{
    reveal_with_fuel(ten_to, 3);
    assert(ten_to(2) == 100 as real);
    assert(rounds(M::lit(25, 2), 25 as int as real / ten_to(2)));
    assert(25 as int as real / 100 as real == 1 as real / 4 as real);
    lemma_one(M::lit(25, 2), 1 as real / 4 as real);
}

/// Both lanes of the normalized hidden state: the terms of 128 times the column.
pub proof fn law_hidden_lanes_error<M: Machine>(i: FeedForwardInputs<Ghost<real>>, h: int)
    requires
        accurate::<M>(),
        0 <= h < 3840,
    ensures
        exists|p: real, q: real|
            hidden_lanes::<Rounded<M>>(i)[h]@ == #[trigger] M::f8(p) && rounds(
                p,
                normalized::<Rounded<M>>(i.x, i.norm_weight, i.eps, h)@ * 128 as real,
            ) && hidden_lanes::<Rounded<M>>(i)[3840 + h]@ == #[trigger] M::f8(q) && rounds(
                q,
                p - hidden_lanes::<Rounded<M>>(i)[h]@,
            ),
{
    let v = normalized::<Rounded<M>>(i.x, i.norm_weight, i.eps, h);
    lemma_whole::<M>(128);
    law_terms_error::<M>(v, up_gain::<Rounded<M>>());
    assert((3840 + h) % 3840 == h && (3840 + h) / 3840 == 1);
}

/// Both lanes of cluster `c`'s gated activation: the terms of a quarter of the row, which is off by
/// four parts at most.
pub proof fn law_activation_lanes_error<M: Machine>(
    i: FeedForwardInputs<Ghost<real>>,
    c: int,
    e: int,
)
    requires
        accurate::<M>(),
        0 <= e < 7680,
    ensures
        exists|p: real, q: real|
            activation_lanes::<Rounded<M>>(i, c)[e]@ == #[trigger] M::f8(p) && close(
                p,
                activation::<Rounded<M>>(i, c * 7680 + e)@ / 4 as real,
                4,
                size(activation::<Rounded<M>>(i, c * 7680 + e)@) / 4 as real,
            ) && activation_lanes::<Rounded<M>>(i, c)[7680 + e]@ == #[trigger] M::f8(q) && rounds(
                q,
                p - activation_lanes::<Rounded<M>>(i, c)[e]@,
            ),
{
    let v = activation::<Rounded<M>>(i, c * 7680 + e);
    let gain = down_gain::<Rounded<M>>();
    law_terms_error::<M>(v, gain);
    assert((7680 + e) % 7680 == e && (7680 + e) / 7680 == 1);
    let (p, q) = choose|p: real, q: real|
        term::<Rounded<M>>(v, gain, 0)@ == #[trigger] M::f8(p) && rounds(p, v@ * gain@)
            && term::<Rounded<M>>(v, gain, 1)@ == #[trigger] M::f8(q) && rounds(
            q,
            p - term::<Rounded<M>>(v, gain, 0)@,
        );
    lemma_quarter::<M>();
    let quarter = 1 as real / 4 as real;
    lemma_same(v@);
    lemma_times(v@, v@, 0, size(v@), gain@, quarter, 1, quarter);
    lemma_rounded(p, v@ * gain@, v@ * quarter, 2, size(v@) * quarter);
    let lanes = activation_lanes::<Rounded<M>>(i, c);
    assert(lanes[e]@ == M::f8(p));
    assert(lanes[7680 + e]@ == M::f8(q));
}

/// A block sum is the rounded value of a number that is, up to 128 parts, the sum over the sixteen
/// columns of the block of the value of the code times what both lanes hold together.
pub proof fn law_block_sum_error<M: Machine>(
    codes: Seq<u8>,
    first: int,
    lanes: Seq<Ghost<real>>,
    n: int,
    b: int,
)
    requires
        accurate::<M>(),
    ensures
        exists|y: real|
            block_sum::<Rounded<M>>(codes, first, lanes, n, b)@ == #[trigger] M::bf16(y) && close(
                y,
                total(
                    16,
                    |k: int|
                        f4_value(codes[first + b * 16 + k]) * (lanes[b * 16 + k]@ + lanes[n + b * 16
                            + k]@),
                ),
                128,
                total(
                    16,
                    |k: int|
                        size(f4_value(codes[first + b * 16 + k])) * (size(lanes[b * 16 + k]@)
                            + size(lanes[n + b * 16 + k]@)),
                ),
            ),
{
    let left = reals(
        Seq::new(32, |i: int| Rounded::<M>::f4_of(codes[first + b * 16 + i % 16])),
    );
    let right = reals(
        Seq::new(32, |i: int| lanes[(if i < 16 { 0 } else { n }) + b * 16 + i % 16]),
    );
    let a = products(left, right);
    let g = |i: int| a[i];
    let s = |i: int| size(a[i]);
    assert forall|i: int| 0 <= i < 32 implies close(#[trigger] a[i], g(i), 0, s(i)) by {
        lemma_same(a[i]);
    }
    let y = M::dot(left, right);
    assert(sums(y, a));
    lemma_sum(y, a, g, 0, s);
    let e = |k: int|
        f4_value(codes[first + b * 16 + k]) * (lanes[b * 16 + k]@ + lanes[n + b * 16 + k]@);
    let t = |k: int|
        size(f4_value(codes[first + b * 16 + k])) * (size(lanes[b * 16 + k]@) + size(
            lanes[n + b * 16 + k]@,
        ));
    assert forall|k: int| 0 <= k < 16 implies #[trigger] g(k) + g(16 + k) == e(k) && s(k) + s(
        16 + k,
    ) == t(k) by {
        let (f, low, high) = (
            f4_value(codes[first + b * 16 + k]),
            lanes[b * 16 + k]@,
            lanes[n + b * 16 + k]@,
        );
        assert((16 + k) % 16 == k);
        assert(f * (low + high) == f * low + f * high) by (nonlinear_arith);
        lemma_size_product(f, low);
        lemma_size_product(f, high);
        let (l, m, o) = (size(f), size(low), size(high));
        assert(l * (m + o) == l * m + l * o) by (nonlinear_arith);
    }
    lemma_folded(g, e);
    lemma_folded(s, t);
    assert(block_sum::<Rounded<M>>(codes, first, lanes, n, b)@ == M::bf16(y));
}

/// A total of 32 summands, folded.
proof fn lemma_folded(g: spec_fn(int) -> real, e: spec_fn(int) -> real)
    requires
        forall|k: int| 0 <= k < 16 ==> #[trigger] g(k) + g(16 + k) == e(k),
    ensures
        total(32, g) == total(16, e),
{
    let h = |k: int| g(16 + k);
    lemma_total_joined(16, 16, g);
    lemma_total_same(16, h, |i: int| g(16 + i));
    lemma_total_added(16, g, h);
    assert forall|k: int| 0 <= k < 16 implies #[trigger] e(k) == g(k) + h(k) by {
        assert(g(k) + g(16 + k) == e(k));
    }
    lemma_total_same(16, e, |i: int| g(i) + h(i));
}

/// A row of a block-scaled product is, up to four parts for each block, the sum of the block sums
/// times the rounded block scales.
pub proof fn law_row_product_error<M: Machine>(
    codes: Seq<u8>,
    first: int,
    scales: Seq<Ghost<real>>,
    first_scale: int,
    lanes: Seq<Ghost<real>>,
    n: int,
)
    requires
        accurate::<M>(),
        0 <= n <= 65_536,
    ensures
        close(
            row_product::<Rounded<M>>(codes, first, scales, first_scale, lanes, n)@,
            total(
                (n / 16) as nat,
                |b: int|
                    block_sum::<Rounded<M>>(codes, first, lanes, n, b)@ * M::bf16(
                        scales[first_scale + b]@,
                    ),
            ),
            4 * (n / 16),
            total(
                (n / 16) as nat,
                |b: int|
                    size(
                        block_sum::<Rounded<M>>(codes, first, lanes, n, b)@ * M::bf16(
                            scales[first_scale + b]@,
                        ),
                    ),
            ),
        ),
{
    let m = (n / 16) as nat;
    let left = reals(
        Seq::new(m, |b: int| block_sum::<Rounded<M>>(codes, first, lanes, n, b)),
    );
    let right = reals(Seq::new(m, |b: int| Rounded::<M>::bf16_of(scales[first_scale + b])));
    let a = products(left, right);
    let g = |b: int|
        block_sum::<Rounded<M>>(codes, first, lanes, n, b)@ * M::bf16(scales[first_scale + b]@);
    let s = |b: int|
        size(
            block_sum::<Rounded<M>>(codes, first, lanes, n, b)@ * M::bf16(
                scales[first_scale + b]@,
            ),
        );
    assert forall|b: int| 0 <= b < m implies close(#[trigger] a[b], g(b), 0, s(b)) by {
        lemma_same(a[b]);
    }
    assert(sums(M::dot(left, right), a));
    lemma_sum(M::dot(left, right), a, g, 0, s);
}

/// Row `l` of the up projection: the blocks of its own row against the lanes of the hidden state.
pub proof fn law_up_row_error<M: Machine>(i: FeedForwardInputs<Ghost<real>>, l: int)
    requires
        accurate::<M>(),
    ensures
        close(
            up_row::<Rounded<M>>(i, l)@,
            total(
                240,
                |b: int|
                    block_sum::<Rounded<M>>(
                        i.up,
                        l * 3840,
                        hidden_lanes::<Rounded<M>>(i),
                        3840,
                        b,
                    )@ * M::bf16(i.up_scale[l * 240 + b]@),
            ),
            960,
            total(
                240,
                |b: int|
                    size(
                        block_sum::<Rounded<M>>(
                            i.up,
                            l * 3840,
                            hidden_lanes::<Rounded<M>>(i),
                            3840,
                            b,
                        )@ * M::bf16(i.up_scale[l * 240 + b]@),
                    ),
            ),
        ),
{
    law_row_product_error::<M>(
        i.up,
        l * 3840,
        i.up_scale,
        l * 240,
        hidden_lanes::<Rounded<M>>(i),
        3840,
    );
}

/// Row `l` of the projection with `gate`.
pub proof fn law_gate_row_error<M: Machine>(i: FeedForwardInputs<Ghost<real>>, l: int)
    requires
        accurate::<M>(),
    ensures
        close(
            gate_row::<Rounded<M>>(i, l)@,
            total(
                240,
                |b: int|
                    block_sum::<Rounded<M>>(
                        i.gate,
                        l * 3840,
                        hidden_lanes::<Rounded<M>>(i),
                        3840,
                        b,
                    )@ * M::bf16(i.gate_scale[l * 240 + b]@),
            ),
            960,
            total(
                240,
                |b: int|
                    size(
                        block_sum::<Rounded<M>>(
                            i.gate,
                            l * 3840,
                            hidden_lanes::<Rounded<M>>(i),
                            3840,
                            b,
                        )@ * M::bf16(i.gate_scale[l * 240 + b]@),
                    ),
            ),
        ),
{
    law_row_product_error::<M>(
        i.gate,
        l * 3840,
        i.gate_scale,
        l * 240,
        hidden_lanes::<Rounded<M>>(i),
        3840,
    );
}

/// Cluster `c`'s half of row `h` of the down projection: the cluster's half of the row against the
/// cluster's gated activation.
pub proof fn law_down_half_error<M: Machine>(i: FeedForwardInputs<Ghost<real>>, c: int, h: int)
    requires
        accurate::<M>(),
    ensures
        close(
            down_half::<Rounded<M>>(i, c, h)@,
            total(
                480,
                |b: int|
                    block_sum::<Rounded<M>>(
                        i.down,
                        h * 15_360 + c * 7680,
                        activation_lanes::<Rounded<M>>(i, c),
                        7680,
                        b,
                    )@ * M::bf16(i.down_scale[h * 960 + c * 480 + b]@),
            ),
            1920,
            total(
                480,
                |b: int|
                    size(
                        block_sum::<Rounded<M>>(
                            i.down,
                            h * 15_360 + c * 7680,
                            activation_lanes::<Rounded<M>>(i, c),
                            7680,
                            b,
                        )@ * M::bf16(i.down_scale[h * 960 + c * 480 + b]@),
                    ),
            ),
        ),
{
    law_row_product_error::<M>(
        i.down,
        h * 15_360 + c * 7680,
        i.down_scale,
        h * 960 + c * 480,
        activation_lanes::<Rounded<M>>(i, c),
        7680,
    );
}

/// `1 / sqrt 2` to eleven places, as a real number.
pub open spec fn inverse_root() -> real {
    70_710_678_118 as real / 100_000_000_000 as real
}

/// The literal `1 / sqrt 2`, up to one rounding.
proof fn lemma_inverse_root<M: Machine>()
    requires
        accurate::<M>(),
    ensures
        close(M::lit(70_710_678_118, 11), inverse_root(), 1, inverse_root()),
{
    reveal_with_fuel(ten_to, 12);
    assert(ten_to(11) == 100_000_000_000 as real);
    assert(rounds(M::lit(70_710_678_118, 11), 70_710_678_118u64 as int as real / ten_to(11)));
    lemma_one(M::lit(70_710_678_118, 11), inverse_root());
}

/// One element of the gated activation is the rounded value of a number that is, up to 32 parts,
/// `up` times `(1 + erf t) t` over `256 / sqrt 2`, where `t` is `gate` times the factor up to one
/// rounding.
pub proof fn law_gated_error<M: Machine>(up: Ghost<real>, gate: Ghost<real>, factor: Ghost<real>)
    requires
        accurate::<M>(),
    ensures
        exists|t: real, y: real|
            gated::<Rounded<M>>(up, gate, factor)@ == #[trigger] M::bf16(y) && rounds(
                t,
                gate@ * factor@,
            ) && close(
                y,
                up@ * ((#[trigger] M::erf(t) + 1 as real) * t) / (256 as real * inverse_root()),
                32,
                size(up@) * (size(M::erf(t) + 1 as real) * size(t)) / (256 as real
                    * inverse_root()),
            ),
{
    let u = up@;
    let t = M::mul(gate@, factor@);
    assert(rounds(t, gate@ * factor@));
    let e = M::erf(t);
    lemma_whole::<M>(1);
    lemma_whole::<M>(2);
    lemma_whole::<M>(128);
    let f = M::add(e, M::lit(1, 0));
    let x = e + 1 as real;
    assert(rounds(f, x));
    lemma_one(f, x);
    lemma_same(t);
    lemma_mul::<M>(f, x, 1, size(x), t, t, 0, size(t));
    lemma_same(u);
    let g = M::mul(f, t);
    lemma_mul::<M>(u, u, 0, size(u), g, x * t, 4, size(x) * size(t));
    let p = M::mul(u, g);
    lemma_mul::<M>(
        M::lit(2, 0),
        2 as real,
        0,
        2 as real,
        M::lit(128, 0),
        128 as real,
        0,
        128 as real,
    );
    lemma_inverse_root::<M>();
    let c = inverse_root();
    let w = M::mul(M::lit(2, 0), M::lit(128, 0));
    lemma_mul::<M>(w, 256 as real, 3, 256 as real, M::lit(70_710_678_118, 11), c, 1, c);
    let d = M::mul(w, M::lit(70_710_678_118, 11));
    let z = 256 as real * c;
    lemma_div::<M>(
        p,
        u * (x * t),
        7,
        size(u) * (size(x) * size(t)),
        d,
        z,
        7,
    );
    let y = M::div(p, d);
    lemma_weaker(y, u * (x * t) / z, 18, 32, size(u) * (size(x) * size(t)) / z);
    assert(gated::<Rounded<M>>(up, gate, factor)@ == M::bf16(y));
}

/// Row `l` of the gated activation: element `l` of both projections, with the global scale of
/// `gate`, over `128 * sqrt 2`, as the factor.
pub proof fn law_activation_error<M: Machine>(i: FeedForwardInputs<Ghost<real>>, l: int) -> (w: (
    real,
    real,
    real,
))
    requires
        accurate::<M>(),
    ensures
        ({
            let (f, t, y) = w;
            &&& activation::<Rounded<M>>(i, l)@ == M::bf16(y)
            &&& close(
                f,
                i.gate_global@ * (inverse_root() / 128 as real),
                16,
                size(i.gate_global@) * (inverse_root() / 128 as real),
            )
            &&& rounds(t, gate_row::<Rounded<M>>(i, l)@ * f)
            &&& close(
                y,
                up_row::<Rounded<M>>(i, l)@ * ((M::erf(t) + 1 as real) * t) / (256 as real
                    * inverse_root()),
                32,
                size(up_row::<Rounded<M>>(i, l)@) * (size(M::erf(t) + 1 as real) * size(t)) / (
                256 as real * inverse_root()),
            )
        }),
{
    let v = i.gate_global@;
    let c = inverse_root();
    lemma_inverse_root::<M>();
    lemma_whole::<M>(128);
    lemma_div::<M>(M::lit(70_710_678_118, 11), c, 1, c, M::lit(128, 0), 128 as real, 0);
    let k = M::div(M::lit(70_710_678_118, 11), M::lit(128, 0));
    lemma_same(v);
    lemma_mul::<M>(v, v, 0, size(v), k, c / 128 as real, 5, c / 128 as real);
    let f = M::mul(v, k);
    lemma_weaker(f, v * (c / 128 as real), 8, 16, size(v) * (c / 128 as real));
    let (up, gate) = (up_row::<Rounded<M>>(i, l), gate_row::<Rounded<M>>(i, l));
    law_gated_error::<M>(up, gate, Ghost(f));
    let (t, y) = choose|t: real, y: real|
        gated::<Rounded<M>>(up, gate, Ghost(f))@ == #[trigger] M::bf16(y) && rounds(
            t,
            gate@ * f,
        ) && close(
            y,
            up@ * ((#[trigger] M::erf(t) + 1 as real) * t) / (256 as real * c),
            32,
            size(up@) * (size(M::erf(t) + 1 as real) * size(t)) / (256 as real * c),
        );
    assert(activation::<Rounded<M>>(i, l)@ == M::bf16(y));
    (f, t, y)
}

} // verus!
