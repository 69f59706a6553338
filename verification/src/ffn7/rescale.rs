//! Where a power of two may stand in the inputs of the feed-forward block, in exact arithmetic.
//!
//! The global scales of `up` and `down` enter in the last pass, so they scale the result and nothing
//! else. A block scale meets the sixteen codes of its own block, so a factor may move between the two.

use vstd::prelude::*;

use crate::arith::Arith;
use crate::exact::passes;
use crate::ffn7::blocks::{block_sum, row_product};
use crate::ffn7::exact::law_constants;
use crate::ffn7::{
    activation, activation_lanes, down_half, feedforward_column, gate_row, hidden_lanes, up_row,
    FeedForwardInputs,
};
use crate::ideal::{
    f4_value, lemma_quotient_scaled, lemma_total_same, lemma_total_scaled, total, Functions, Ideal,
};

verus! {

/// Column `h` of the block before it is rounded.
pub open spec fn unrounded_column<F: Functions>(
    i: FeedForwardInputs<Ghost<real>>,
    h: int,
) -> real {
    total(2, |c: int| down_half::<Ideal<F>>(i, c, h)@ * i.down_global@ * i.up_global@) / (1 as real
        / 4 as real)
}

/// The column is what it is before the rounding, rounded.
proof fn lemma_unrounded<F: Functions>(i: FeedForwardInputs<Ghost<real>>, h: int)
    ensures
        feedforward_column::<Ideal<F>>(i, h)@ == F::bf16(unrounded_column::<F>(i, h)),
{
    law_constants::<F>();
    let halves = Seq::new(2, |c: int| down_half::<Ideal<F>>(i, c, h));
    let scaled = Seq::new(
        halves.len(),
        |c: int| Ideal::<F>::mul_of(Ideal::<F>::mul_of(halves[c], i.down_global), i.up_global),
    );
    lemma_total_same(
        2,
        |c: int| scaled[c]@,
        |c: int| down_half::<Ideal<F>>(i, c, h)@ * i.down_global@ * i.up_global@,
    );
}

/// The lanes of the hidden state depend on the hidden state, the norm weight and epsilon alone.
proof fn lemma_same_lanes<F: Functions>(
    i: FeedForwardInputs<Ghost<real>>,
    j: FeedForwardInputs<Ghost<real>>,
)
    requires
        i.x == j.x,
        i.norm_weight == j.norm_weight,
        i.eps == j.eps,
    ensures
        hidden_lanes::<Ideal<F>>(i) == hidden_lanes::<Ideal<F>>(j),
{
    assert(hidden_lanes::<Ideal<F>>(i) =~= hidden_lanes::<Ideal<F>>(j));
}

/// The lanes of the gated activation depend on the rows of the two projections alone, and on the global
/// scale of `gate`.
proof fn lemma_same_activation<F: Functions>(
    i: FeedForwardInputs<Ghost<real>>,
    j: FeedForwardInputs<Ghost<real>>,
    c: int,
)
    requires
        0 <= c < 2,
        i.gate_global == j.gate_global,
        forall|l: int|
            0 <= l < 15_360 ==> #[trigger] up_row::<Ideal<F>>(i, l) == up_row::<Ideal<F>>(j, l),
        forall|l: int|
            0 <= l < 15_360 ==> #[trigger] gate_row::<Ideal<F>>(i, l) == gate_row::<Ideal<F>>(j, l),
    ensures
        activation_lanes::<Ideal<F>>(i, c) == activation_lanes::<Ideal<F>>(j, c),
{
    let (a, b) = (activation_lanes::<Ideal<F>>(i, c), activation_lanes::<Ideal<F>>(j, c));
    assert forall|e: int| 0 <= e < 15_360 implies a[e] == b[e] by {
        let l = c * 7680 + e % 7680;
        assert(up_row::<Ideal<F>>(i, l) == up_row::<Ideal<F>>(j, l));
        assert(gate_row::<Ideal<F>>(i, l) == gate_row::<Ideal<F>>(j, l));
        assert(activation::<Ideal<F>>(i, l) == activation::<Ideal<F>>(j, l));
    }
    assert(a =~= b);
}

/// The halves of the down projection do not see the global scales of the last pass.
proof fn lemma_late_scales<F: Functions>(
    i: FeedForwardInputs<Ghost<real>>,
    j: FeedForwardInputs<Ghost<real>>,
    c: int,
    h: int,
)
    requires
        0 <= c < 2,
        j == (FeedForwardInputs { up_global: j.up_global, down_global: j.down_global, ..i }),
    ensures
        down_half::<Ideal<F>>(j, c, h) == down_half::<Ideal<F>>(i, c, h),
{
    lemma_same_lanes::<F>(i, j);
    lemma_same_activation::<F>(i, j, c);
}

/// `feedforward`: where the rounding lets a doubling through, doubling the global scale of `up`, or that
/// of `down`, doubles every column. Both are applied in the last pass and change no term before it.
pub proof fn law_global_scales<F: Functions>(i: FeedForwardInputs<Ghost<real>>, h: int)
    requires
        passes::<F>(2 as real, unrounded_column::<F>(i, h)),
    ensures
        feedforward_column::<Ideal<F>>(
            FeedForwardInputs { up_global: Ghost(2 as real * i.up_global@), ..i },
            h,
        )@ == 2 as real * feedforward_column::<Ideal<F>>(i, h)@,
        feedforward_column::<Ideal<F>>(
            FeedForwardInputs { down_global: Ghost(2 as real * i.down_global@), ..i },
            h,
        )@ == 2 as real * feedforward_column::<Ideal<F>>(i, h)@,
{
    let more_up = FeedForwardInputs { up_global: Ghost(2 as real * i.up_global@), ..i };
    let more_down = FeedForwardInputs { down_global: Ghost(2 as real * i.down_global@), ..i };
    lemma_doubled_column::<F>(i, more_up, h);
    lemma_doubled_column::<F>(i, more_down, h);
}

/// `feedforward`: with a zero global scale of `up` or of `down` every column is zero.
pub proof fn law_zero_scales<F: Functions>(i: FeedForwardInputs<Ghost<real>>, h: int)
    requires
        F::bf16(0 as real) == 0 as real,
        i.up_global@ == 0 as real || i.down_global@ == 0 as real,
    ensures
        feedforward_column::<Ideal<F>>(i, h)@ == 0 as real,
{
    lemma_unrounded::<F>(i, h);
    let part = |c: int| down_half::<Ideal<F>>(i, c, h)@ * i.down_global@ * i.up_global@;
    let (d, u) = (i.down_global@, i.up_global@);
    assert forall|c: int| 0 <= c < 2 implies #[trigger] part(c) == 0 as real * part(c) by {
        let v = down_half::<Ideal<F>>(i, c, h)@;
        assert(v * d * u == 0 as real) by (nonlinear_arith)
            requires
                u == 0 as real || d == 0 as real,
        ;
    }
    lemma_total_same(2, part, |c: int| 0 as real * part(c));
    lemma_total_scaled(2, 0 as real, part);
    lemma_quotient_scaled(0 as real, total(2, part), 1 as real / 4 as real);
}

/// The column with twice the product of both late scales.
proof fn lemma_doubled_column<F: Functions>(
    i: FeedForwardInputs<Ghost<real>>,
    j: FeedForwardInputs<Ghost<real>>,
    h: int,
)
    requires
        j == (FeedForwardInputs { up_global: j.up_global, down_global: j.down_global, ..i }),
        (j.down_global == i.down_global && j.up_global@ == 2 as real * i.up_global@) || (j.up_global
            == i.up_global && j.down_global@ == 2 as real * i.down_global@),
        passes::<F>(2 as real, unrounded_column::<F>(i, h)),
    ensures
        feedforward_column::<Ideal<F>>(j, h)@ == 2 as real * feedforward_column::<Ideal<F>>(i, h)@,
{
    lemma_unrounded::<F>(i, h);
    lemma_unrounded::<F>(j, h);
    let part = |c: int| down_half::<Ideal<F>>(i, c, h)@ * i.down_global@ * i.up_global@;
    let more = |c: int| down_half::<Ideal<F>>(j, c, h)@ * j.down_global@ * j.up_global@;
    assert forall|c: int| 0 <= c < 2 implies #[trigger] more(c) == 2 as real * part(c) by {
        lemma_late_scales::<F>(i, j, c, h);
        let (v, d, u) = (down_half::<Ideal<F>>(i, c, h)@, i.down_global@, i.up_global@);
        assert(v * d * (2 as real * u) == 2 as real * (v * d * u)) by (nonlinear_arith);
        assert(v * (2 as real * d) * u == 2 as real * (v * d * u)) by (nonlinear_arith);
    }
    lemma_total_same(2, more, |c: int| 2 as real * part(c));
    lemma_total_scaled(2, 2 as real, part);
    lemma_quotient_scaled(2 as real, total(2, part), 1 as real / 4 as real);
    assert(unrounded_column::<F>(j, h) == 2 as real * unrounded_column::<F>(i, h));
}

/// Block `b` of a row against both lanes, before it is rounded.
pub open spec fn block_dot(
    codes: Seq<u8>,
    first: int,
    lanes: Seq<Ghost<real>>,
    n: int,
    b: int,
) -> real {
    total(
        32,
        |k: int|
            f4_value(codes[first + b * 16 + k % 16]) * lanes[(if k < 16 { 0 } else { n }) + b * 16
                + k % 16]@,
    )
}

/// A block sum is the rounded product of the block and the lanes.
proof fn lemma_block_dot<F: Functions>(
    codes: Seq<u8>,
    first: int,
    lanes: Seq<Ghost<real>>,
    n: int,
    b: int,
)
    ensures
        block_sum::<Ideal<F>>(codes, first, lanes, n, b)@ == F::bf16(
            block_dot(codes, first, lanes, n, b),
        ),
{
    let left = Seq::new(32, |k: int| Ideal::<F>::f4_of(codes[first + b * 16 + k % 16]));
    let right = Seq::new(
        32,
        |k: int| lanes[(if k < 16 { 0 } else { n }) + b * 16 + k % 16],
    );
    lemma_total_same(
        32,
        |k: int| left[k]@ * right[k]@,
        |k: int|
            f4_value(codes[first + b * 16 + k % 16]) * lanes[(if k < 16 { 0 } else { n }) + b * 16
                + k % 16]@,
    );
}

/// The sixteen codes of block `k` of a matrix stand for half of what they stood for, its scale for twice
/// of it, and nothing else has changed.
pub open spec fn rescaled(
    codes: Seq<u8>,
    codes2: Seq<u8>,
    scales: Seq<Ghost<real>>,
    scales2: Seq<Ghost<real>>,
    k: int,
) -> bool {
    &&& codes2.len() == codes.len()
    &&& scales2.len() == scales.len()
    &&& codes.len() == 16 * scales.len()
    &&& 0 <= k < scales.len()
    &&& forall|j: int|
        0 <= j < codes.len() ==> (if j / 16 == k {
            f4_value(#[trigger] codes2[j]) == f4_value(codes[j]) / 2 as real
        } else {
            codes2[j] == codes[j]
        })
    &&& forall|j: int|
        0 <= j < scales.len() ==> #[trigger] scales2[j] == (if j == k {
            Ghost(2 as real * scales[k]@)
        } else {
            scales[j]
        })
}

/// The roundings let the factor through, where the row from block `first` on holds block `k`.
pub open spec fn factor_passes<F: Functions>(
    codes: Seq<u8>,
    scales: Seq<Ghost<real>>,
    first: int,
    lanes: Seq<Ghost<real>>,
    n: int,
    k: int,
) -> bool {
    first <= k < first + n / 16 ==> {
        &&& passes::<F>(1 as real / 2 as real, block_dot(codes, first * 16, lanes, n, k - first))
        &&& passes::<F>(2 as real, scales[k]@)
    }
}

/// A factor may move between the codes of a block and its scale: halving the sixteen codes and doubling
/// the scale leaves every row product as it was. `first` is the first block of the row.
pub proof fn law_rescaled_block<F: Functions>(
    codes: Seq<u8>,
    codes2: Seq<u8>,
    scales: Seq<Ghost<real>>,
    scales2: Seq<Ghost<real>>,
    k: int,
    first: int,
    lanes: Seq<Ghost<real>>,
    n: int,
)
    requires
        rescaled(codes, codes2, scales, scales2, k),
        0 <= first,
        0 <= n,
        n % 16 == 0,
        first + n / 16 <= scales.len(),
        factor_passes::<F>(codes, scales, first, lanes, n, k),
    ensures
        row_product::<Ideal<F>>(codes2, first * 16, scales2, first, lanes, n) == row_product::<
            Ideal<F>,
        >(codes, first * 16, scales, first, lanes, n),
{
    let m = (n / 16) as nat;
    let sums = Seq::new(m, |b: int| block_sum::<Ideal<F>>(codes, first * 16, lanes, n, b));
    let sums2 = Seq::new(m, |b: int| block_sum::<Ideal<F>>(codes2, first * 16, lanes, n, b));
    let weights = Seq::new(m, |b: int| Ideal::<F>::bf16_of(scales[first + b]));
    let weights2 = Seq::new(m, |b: int| Ideal::<F>::bf16_of(scales2[first + b]));
    let product = |b: int| sums[b]@ * weights[b]@;
    let product2 = |b: int| sums2[b]@ * weights2[b]@;
    assert forall|b: int| 0 <= b < m implies #[trigger] product2(b) == product(b) by {
        lemma_block_dot::<F>(codes, first * 16, lanes, n, b);
        lemma_block_dot::<F>(codes2, first * 16, lanes, n, b);
        lemma_rescaled_dot(codes, codes2, scales, scales2, k, first, lanes, n, b);
        assert(scales2[first + b] == (if first + b == k {
            Ghost(2 as real * scales[k]@)
        } else {
            scales[first + b]
        }));
        if first + b == k {
            let (p, q) = (
                F::bf16(block_dot(codes, first * 16, lanes, n, b)),
                F::bf16(scales[k]@),
            );
            let half = 1 as real / 2 as real;
            assert((half * p) * (2 as real * q) == p * q) by (nonlinear_arith)
                requires
                    half == 1 as real / 2 as real,
            ;
        }
    }
    lemma_total_same(m, product2, product);
}

/// What the change does to one block sum before it is rounded.
proof fn lemma_rescaled_dot(
    codes: Seq<u8>,
    codes2: Seq<u8>,
    scales: Seq<Ghost<real>>,
    scales2: Seq<Ghost<real>>,
    k: int,
    first: int,
    lanes: Seq<Ghost<real>>,
    n: int,
    b: int,
)
    requires
        rescaled(codes, codes2, scales, scales2, k),
        0 <= first,
        0 <= b,
        first + b < scales.len(),
    ensures
        block_dot(codes2, first * 16, lanes, n, b) == (if first + b == k {
            1 as real / 2 as real * block_dot(codes, first * 16, lanes, n, b)
        } else {
            block_dot(codes, first * 16, lanes, n, b)
        }),
{
    let f = |t: int|
        f4_value(codes[first * 16 + b * 16 + t % 16]) * lanes[(if t < 16 { 0 } else { n }) + b * 16
            + t % 16]@;
    let g = |t: int|
        f4_value(codes2[first * 16 + b * 16 + t % 16]) * lanes[(if t < 16 { 0 } else { n }) + b * 16
            + t % 16]@;
    let half = 1 as real / 2 as real;
    assert forall|t: int| 0 <= t < 32 implies #[trigger] g(t) == (if first + b == k {
        half * f(t)
    } else {
        f(t)
    }) by {
        let j = first * 16 + b * 16 + t % 16;
        assert(j / 16 == first + b);
        assert(0 <= j < codes.len());
        let given = codes2[j];
        let (c, v) = (
            f4_value(codes[j]),
            lanes[(if t < 16 { 0 } else { n }) + b * 16 + t % 16]@,
        );
        assert((c / 2 as real) * v == half * (c * v)) by (nonlinear_arith)
            requires
                half == 1 as real / 2 as real,
        ;
    }
    if first + b == k {
        lemma_total_same(32, g, |t: int| half * f(t));
        lemma_total_scaled(32, half, f);
    } else {
        lemma_total_same(32, g, f);
    }
}

/// The column depends on the rows of the two projections, on `down` and its scales, and on the global
/// scales alone.
proof fn lemma_same_column<F: Functions>(
    i: FeedForwardInputs<Ghost<real>>,
    j: FeedForwardInputs<Ghost<real>>,
    h: int,
)
    requires
        i.down == j.down,
        i.down_scale == j.down_scale,
        i.up_global == j.up_global,
        i.gate_global == j.gate_global,
        i.down_global == j.down_global,
        forall|l: int|
            0 <= l < 15_360 ==> #[trigger] up_row::<Ideal<F>>(i, l) == up_row::<Ideal<F>>(j, l),
        forall|l: int|
            0 <= l < 15_360 ==> #[trigger] gate_row::<Ideal<F>>(i, l) == gate_row::<Ideal<F>>(j, l),
    ensures
        feedforward_column::<Ideal<F>>(j, h) == feedforward_column::<Ideal<F>>(i, h),
{
    lemma_same_activation::<F>(i, j, 0);
    lemma_same_activation::<F>(i, j, 1);
    assert(Seq::new(2, |c: int| down_half::<Ideal<F>>(j, c, h)) =~= Seq::new(
        2,
        |c: int| down_half::<Ideal<F>>(i, c, h),
    ));
}

/// `feedforward` does not see a factor that moves between the codes of a block of `up` and its scale.
pub proof fn law_rescaled_up<F: Functions>(
    i: FeedForwardInputs<Ghost<real>>,
    codes: Seq<u8>,
    scales: Seq<Ghost<real>>,
    k: int,
    h: int,
)
    requires
        rescaled(i.up, codes, i.up_scale, scales, k),
        i.up_scale.len() == 3_686_400,
        factor_passes::<F>(
            i.up,
            i.up_scale,
            k / 240 * 240,
            hidden_lanes::<Ideal<F>>(i),
            3840,
            k,
        ),
    ensures
        feedforward_column::<Ideal<F>>(
            FeedForwardInputs { up: codes, up_scale: scales, ..i },
            h,
        ) == feedforward_column::<Ideal<F>>(i, h),
{
    let j = FeedForwardInputs { up: codes, up_scale: scales, ..i };
    let lanes = hidden_lanes::<Ideal<F>>(i);
    lemma_same_lanes::<F>(i, j);
    assert forall|l: int| 0 <= l < 15_360 implies #[trigger] up_row::<Ideal<F>>(i, l) == up_row::<
        Ideal<F>,
    >(j, l) by {
        if l * 240 <= k < l * 240 + 240 {
            assert(k / 240 == l);
        }
        law_rescaled_block::<F>(
            i.up,
            codes,
            i.up_scale,
            scales,
            k,
            l * 240,
            lanes,
            3840,
        );
    }
    lemma_same_column::<F>(i, j, h);
}

/// `feedforward` does not see a factor that moves between the codes of a block of `gate` and its scale.
pub proof fn law_rescaled_gate<F: Functions>(
    i: FeedForwardInputs<Ghost<real>>,
    codes: Seq<u8>,
    scales: Seq<Ghost<real>>,
    k: int,
    h: int,
)
    requires
        rescaled(i.gate, codes, i.gate_scale, scales, k),
        i.gate_scale.len() == 3_686_400,
        factor_passes::<F>(
            i.gate,
            i.gate_scale,
            k / 240 * 240,
            hidden_lanes::<Ideal<F>>(i),
            3840,
            k,
        ),
    ensures
        feedforward_column::<Ideal<F>>(
            FeedForwardInputs { gate: codes, gate_scale: scales, ..i },
            h,
        ) == feedforward_column::<Ideal<F>>(i, h),
{
    let j = FeedForwardInputs { gate: codes, gate_scale: scales, ..i };
    let lanes = hidden_lanes::<Ideal<F>>(i);
    lemma_same_lanes::<F>(i, j);
    assert forall|l: int| 0 <= l < 15_360 implies #[trigger] gate_row::<Ideal<F>>(i, l) == gate_row::<
        Ideal<F>,
    >(j, l) by {
        if l * 240 <= k < l * 240 + 240 {
            assert(k / 240 == l);
        }
        law_rescaled_block::<F>(
            i.gate,
            codes,
            i.gate_scale,
            scales,
            k,
            l * 240,
            lanes,
            3840,
        );
    }
    lemma_same_column::<F>(i, j, h);
}

/// `feedforward` does not see a factor that moves between the codes of a block of `down` and its scale.
/// Block `k` belongs to row `k / 960` and to the half of cluster `k / 480 % 2`.
pub proof fn law_rescaled_down<F: Functions>(
    i: FeedForwardInputs<Ghost<real>>,
    codes: Seq<u8>,
    scales: Seq<Ghost<real>>,
    k: int,
    h: int,
)
    requires
        rescaled(i.down, codes, i.down_scale, scales, k),
        i.down_scale.len() == 3_686_400,
        0 <= h < 3840,
        factor_passes::<F>(
            i.down,
            i.down_scale,
            k / 480 * 480,
            activation_lanes::<Ideal<F>>(i, k / 480 % 2),
            7680,
            k,
        ),
    ensures
        feedforward_column::<Ideal<F>>(
            FeedForwardInputs { down: codes, down_scale: scales, ..i },
            h,
        ) == feedforward_column::<Ideal<F>>(i, h),
{
    let j = FeedForwardInputs { down: codes, down_scale: scales, ..i };
    lemma_same_lanes::<F>(i, j);
    let (a, b) = (
        Seq::new(2, |c: int| down_half::<Ideal<F>>(j, c, h)),
        Seq::new(2, |c: int| down_half::<Ideal<F>>(i, c, h)),
    );
    assert forall|c: int| 0 <= c < 2 implies a[c] == b[c] by {
        lemma_same_activation::<F>(i, j, c);
        let first = h * 960 + c * 480;
        if first <= k < first + 480 {
            assert(k / 480 == h * 2 + c);
        }
        law_rescaled_block::<F>(
            i.down,
            codes,
            i.down_scale,
            scales,
            k,
            first,
            activation_lanes::<Ideal<F>>(i, c),
            7680,
        );
    }
    assert(a =~= b);
}

} // verus!
