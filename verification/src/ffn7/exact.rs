//! What the feed-forward block computes in exact arithmetic.
//!
//! The gains on the activations, the split into terms and the places where the global scales are
//! applied are details of the kernel: none of them is left in what it computes. The laws ask for
//! what these details rest on, a split that loses nothing and a rounding that a gain passes
//! through, of the numbers at hand only.

use vstd::prelude::*;

use crate::arith::Arith;
use crate::exact::{
    doubled, exact_terms, fine, holds, law_bf16_terms, law_coarser_units, law_gains_pass,
    law_unrounded, lemma_held_multiple,
    mean_of_squares, passes, rounds_nothing, rounds_to_bf16, rounds_to_f8, units,
};
use crate::ffn7::blocks::{block_sum, row_product};
use crate::ffn7::gate::{down_gain, gate_erf_factor, gated, inv_sqrt2};
use crate::ffn7::norm::{normalized, piece, rms, up_gain};
use crate::ffn7::{
    activation, activation_lanes, down_half, feedforward_column, gate_row, hidden_lanes,
    post_norm_column, up_row, FeedForwardInputs,
};
use crate::hidden::{h_num, mean_square};
use crate::ideal::{
    f4_half_units, f4_value, lemma_total_added, lemma_total_blocked, lemma_total_joined,
    lemma_total_multiple, lemma_total_same, lemma_total_scaled, multiple_of, ten_to, times, total,
    Functions, Ideal,
};

verus! {

/// The constants of the kernel, as real numbers.
pub proof fn law_constants<F: Functions>()
    ensures
        up_gain::<Ideal<F>>()@ == 128 as real,
        down_gain::<Ideal<F>>()@ == 1 as real / 4 as real,
        h_num::<Ideal<F>>()@ == 3840 as real,
        Ideal::<F>::lit_of(1, 0)@ == 1 as real,
        Ideal::<F>::lit_of(2, 0)@ == 2 as real,
        inv_sqrt2::<Ideal<F>>()@ > 0 as real,
{
    reveal_with_fuel(ten_to, 12);
    let one = ten_to(0);
    assert(one == 1 as real);
    assert(128 as real / one == 128 as real) by (nonlinear_arith)
        requires
            one == 1 as real,
    ;
    assert(3840 as real / one == 3840 as real) by (nonlinear_arith)
        requires
            one == 1 as real,
    ;
    assert(1 as real / one == 1 as real) by (nonlinear_arith)
        requires
            one == 1 as real,
    ;
    assert(2 as real / one == 2 as real) by (nonlinear_arith)
        requires
            one == 1 as real,
    ;
    let hundred = ten_to(2);
    assert(hundred == 100 as real);
    assert(25 as real / hundred == 1 as real / 4 as real) by (nonlinear_arith)
        requires
            hundred == 100 as real,
    ;
    let large = ten_to(11);
    assert(large > 0 as real);
    assert(70_710_678_118 as real / large > 0 as real) by (nonlinear_arith)
        requires
            large > 0 as real,
    ;
}

/// The gated activation: with `up` and `gate` too large by the gain, `geglu` still computes
/// `up * gate * g * (1 + erf(gate * g / sqrt 2)) / 2`, rounded once.
pub proof fn law_geglu<F: Functions>(up: real, gate: real, global: real)
    ensures
        gated::<Ideal<F>>(
            Ghost(128 as real * up),
            Ghost(128 as real * gate),
            Ideal::<F>::mul_of(Ghost(global), gate_erf_factor::<Ideal<F>>()),
        )@ == F::bf16(
            up * (gate * global) * (1 as real + F::erf(gate * global * inv_sqrt2::<Ideal<F>>()@))
                / 2 as real,
        ),
{
    law_constants::<F>();
    let c = inv_sqrt2::<Ideal<F>>()@;
    let t = gate * global * c;
    assert(128 as real * gate * (global * (c / 128 as real)) == t) by (nonlinear_arith)
        requires
            t == gate * global * c,
    ;
    let e = F::erf(t) + 1 as real;
    assert((128 as real * up) * (e * t) / (2 as real * 128 as real * c) == up * (gate * global) * e
        / 2 as real) by (nonlinear_arith)
        requires
            t == gate * global * c,
            c > 0 as real,
    ;
}

/// Block `b` of a row of codes against an activation.
pub open spec fn block_total(
    codes: Seq<u8>,
    first: int,
    act: spec_fn(int) -> real,
    b: int,
) -> real {
    total(16, |i: int| f4_value(codes[first + b * 16 + i]) * act(b * 16 + i))
}

/// A row of `n` block-scaled codes against an activation: every block is rounded, and so is its
/// scale.
pub open spec fn weighted_row<F: Functions>(
    codes: Seq<u8>,
    first: int,
    scales: Seq<Ghost<real>>,
    first_scale: int,
    act: spec_fn(int) -> real,
    n: int,
) -> real {
    total(
        (n / 16) as nat,
        |b: int|
            F::bf16(block_total(codes, first, act, b)) * F::bf16(scales[first_scale + b]@),
    )
}

/// A block sum over two lanes is the block against the activation that the lanes add up to.
proof fn lemma_block<F: Functions>(
    codes: Seq<u8>,
    first: int,
    lanes: Seq<Ghost<real>>,
    n: int,
    b: int,
    gain: real,
    act: spec_fn(int) -> real,
)
    requires
        0 <= b,
        b * 16 + 16 <= n,
        forall|j: int| 0 <= j < n ==> lanes[j]@ + lanes[n + j]@ == gain * #[trigger] act(j),
    ensures
        block_sum::<Ideal<F>>(codes, first, lanes, n, b)@ == F::bf16(
            gain * block_total(codes, first, act, b),
        ),
{
    let left = Seq::new(32, |i: int| Ideal::<F>::f4_of(codes[first + b * 16 + i % 16]));
    let right = Seq::new(
        32,
        |i: int| lanes[(if i < 16 { 0 } else { n }) + b * 16 + i % 16],
    );
    let product = |i: int| left[i]@ * right[i]@;
    let code = |i: int| f4_value(codes[first + b * 16 + i]);
    let low = |i: int| code(i) * lanes[b * 16 + i]@;
    let high = |i: int| code(i) * lanes[n + b * 16 + i]@;
    lemma_total_joined(16, 16, product);
    lemma_total_same(16, product, low);
    lemma_total_same(16, |i: int| product(16 + i), high);
    lemma_total_added(16, low, high);
    let plain = |i: int| code(i) * act(b * 16 + i);
    assert forall|i: int| 0 <= i < 16 implies #[trigger] low(i) + high(i) == gain * plain(i) by {
        let c = code(i);
        let p = lanes[b * 16 + i]@;
        let q = lanes[n + (b * 16 + i)]@;
        let v = act(b * 16 + i);
        assert(c * p + c * q == gain * (c * v)) by (nonlinear_arith)
            requires
                p + q == gain * v,
        ;
    }
    lemma_total_same(16, |i: int| low(i) + high(i), |i: int| gain * plain(i));
    lemma_total_scaled(16, gain, plain);
    lemma_total_same(
        16,
        plain,
        |i: int| f4_value(codes[first + b * 16 + i]) * act(b * 16 + i),
    );
    assert(left.len() == 32);
}

/// A row product over two lanes is the gain times the row against the activation that the lanes add
/// up to, where the roundings of the block sums let the gain through.
pub proof fn law_row<F: Functions>(
    codes: Seq<u8>,
    first: int,
    scales: Seq<Ghost<real>>,
    first_scale: int,
    lanes: Seq<Ghost<real>>,
    n: int,
    gain: real,
    act: spec_fn(int) -> real,
)
    requires
        0 <= n,
        n % 16 == 0,
        forall|j: int| 0 <= j < n ==> lanes[j]@ + lanes[n + j]@ == gain * #[trigger] act(j),
        forall|b: int|
            0 <= b < n / 16 ==> passes::<F>(gain, #[trigger] block_total(codes, first, act, b)),
    ensures
        row_product::<Ideal<F>>(codes, first, scales, first_scale, lanes, n)@ == gain
            * weighted_row::<F>(codes, first, scales, first_scale, act, n),
{
    let m = (n / 16) as nat;
    let sums = Seq::new(m, |b: int| block_sum::<Ideal<F>>(codes, first, lanes, n, b));
    let weights = Seq::new(m, |b: int| Ideal::<F>::bf16_of(scales[first_scale + b]));
    let product = |b: int| sums[b]@ * weights[b]@;
    let plain = |b: int|
        F::bf16(block_total(codes, first, act, b)) * F::bf16(scales[first_scale + b]@);
    assert forall|b: int| 0 <= b < m implies #[trigger] product(b) == gain * plain(b) by {
        lemma_block::<F>(codes, first, lanes, n, b, gain, act);
        let y = F::bf16(block_total(codes, first, act, b));
        let w = F::bf16(scales[first_scale + b]@);
        assert(passes::<F>(gain, block_total(codes, first, act, b)));
        assert((gain * y) * w == gain * (y * w)) by (nonlinear_arith);
    }
    lemma_total_same(m, product, |b: int| gain * plain(b));
    lemma_total_scaled(m, gain, plain);
    lemma_total_same(
        m,
        product,
        |i: int| sums[i]@ * weights[i]@,
    );
}

/// The root mean square, though it is summed in eight pieces, is the root of the mean of all squares
/// plus epsilon.
pub proof fn law_rms<F: Functions>(x: Seq<Ghost<real>>, eps: Ghost<real>)
    requires
        x.len() == 3840,
    ensures
        rms::<Ideal<F>>(x, eps)@ == F::sqrt(mean_of_squares(x) + eps@),
{
    law_constants::<F>();
    let square = |h: int| x[h]@ * x[h]@;
    let parts = Seq::new(8, |p: int| mean_square::<Ideal<F>>(piece(x, p)));
    let inner = |p: int| total(480, |j: int| square(p * 480 + j));
    let k = 1 as real / 3840 as real;
    assert forall|p: int| 0 <= p < 8 implies #[trigger] parts[p]@ == k * inner(p) by {
        let v = piece(x, p);
        let squares = Seq::new(v.len(), |i: int| Ideal::<F>::mul_of(v[i], v[i]));
        lemma_total_same(480, |i: int| squares[i]@, |j: int| square(p * 480 + j));
        let t = inner(p);
        assert(t / 3840 as real == k * t) by (nonlinear_arith)
            requires
                k == 1 as real / 3840 as real,
        ;
    }
    lemma_total_same(8, |p: int| parts[p]@, |p: int| k * inner(p));
    lemma_total_scaled(8, k, inner);
    lemma_total_blocked(8, 480, square);
    lemma_total_same(8, inner, |i: int| total(480, |j: int| square(i * 480 + j)));
    let t = total(3840, square);
    assert(k * t == t / 3840 as real) by (nonlinear_arith)
        requires
            k == 1 as real / 3840 as real,
    ;
    lemma_total_same(3840, square, |h: int| x[h]@ * x[h]@);
}

/// Column `h` of the normalized hidden state.
pub open spec fn exact_normalized<F: Functions>(
    i: FeedForwardInputs<Ghost<real>>,
    h: int,
) -> real {
    F::bf16(i.x[h]@ / F::sqrt(mean_of_squares(i.x) + i.eps@) * i.norm_weight[h]@)
}

/// Row `l` of the up projection.
pub open spec fn exact_up<F: Functions>(i: FeedForwardInputs<Ghost<real>>, l: int) -> real {
    weighted_row::<F>(
        i.up,
        l * 3840,
        i.up_scale,
        l * 240,
        |h: int| exact_normalized::<F>(i, h),
        3840,
    )
}

/// Row `l` of the projection with `gate`, its global scale included.
pub open spec fn exact_gate<F: Functions>(i: FeedForwardInputs<Ghost<real>>, l: int) -> real {
    weighted_row::<F>(
        i.gate,
        l * 3840,
        i.gate_scale,
        l * 240,
        |h: int| exact_normalized::<F>(i, h),
        3840,
    ) * i.gate_global@
}

/// Row `l` of the gated activation, `up * gelu(gate)`.
pub open spec fn exact_activation<F: Functions>(i: FeedForwardInputs<Ghost<real>>, l: int) -> real {
    F::bf16(
        exact_up::<F>(i, l) * exact_gate::<F>(i, l) * (1 as real + F::erf(
            exact_gate::<F>(i, l) * inv_sqrt2::<Ideal<F>>()@,
        )) / 2 as real,
    )
}

/// Column `h` of the block: row `h` of the down projection, all 15360 columns of it, times both
/// global scales that are left.
pub open spec fn exact_column<F: Functions>(i: FeedForwardInputs<Ghost<real>>, h: int) -> real {
    F::bf16(
        weighted_row::<F>(
            i.down,
            h * 15_360,
            i.down_scale,
            h * 960,
            |l: int| exact_activation::<F>(i, l),
            15_360,
        ) * i.down_global@ * i.up_global@,
    )
}

/// The inputs have the sizes of the kernel.
pub open spec fn sized(i: FeedForwardInputs<Ghost<real>>) -> bool {
    &&& i.x.len() == 3840
    &&& i.norm_weight.len() == 3840
}

/// The normalized hidden state splits exactly, and the roundings of the block sums of `up` and `gate`
/// let the gain through.
pub open spec fn lossless_front<F: Functions>(i: FeedForwardInputs<Ghost<real>>) -> bool {
    let norm = |j: int| exact_normalized::<F>(i, j);
    &&& forall|j: int|
        0 <= j < 3840 ==> exact_terms::<F>(
            #[trigger] normalized::<Ideal<F>>(i.x, i.norm_weight, i.eps, j),
            up_gain::<Ideal<F>>(),
        )
    &&& forall|l: int, b: int|
        0 <= l < 15_360 && 0 <= b < 240 ==> passes::<F>(
            128 as real,
            #[trigger] block_total(i.up, l * 3840, norm, b),
        )
    &&& forall|l: int, b: int|
        0 <= l < 15_360 && 0 <= b < 240 ==> passes::<F>(
            128 as real,
            #[trigger] block_total(i.gate, l * 3840, norm, b),
        )
}

/// The activations split exactly, and the roundings of the block sums let the gains through, as far
/// as column `h` depends on them.
pub open spec fn lossless<F: Functions>(i: FeedForwardInputs<Ghost<real>>, h: int) -> bool {
    let act = |l: int| exact_activation::<F>(i, l);
    let quarter = 1 as real / 4 as real;
    &&& lossless_front::<F>(i)
    &&& forall|l: int|
        0 <= l < 15_360 ==> exact_terms::<F>(
            #[trigger] activation::<Ideal<F>>(i, l),
            down_gain::<Ideal<F>>(),
        )
    &&& forall|b: int|
        0 <= b < 960 ==> passes::<F>(quarter, #[trigger] block_total(i.down, h * 15_360, act, b))
}

/// The lanes of the normalized hidden state add up to 128 times the normalized hidden state.
proof fn lemma_hidden<F: Functions>(i: FeedForwardInputs<Ghost<real>>)
    requires
        sized(i),
        lossless_front::<F>(i),
    ensures
        forall|j: int|
            0 <= j < 3840 ==> hidden_lanes::<Ideal<F>>(i)[j]@ + hidden_lanes::<Ideal<F>>(i)[3840
                + j]@ == 128 as real * #[trigger] exact_normalized::<F>(i, j),
{
    law_constants::<F>();
    law_rms::<F>(i.x, i.eps);
    assert forall|j: int| 0 <= j < 3840 implies hidden_lanes::<Ideal<F>>(i)[j]@ + hidden_lanes::<
        Ideal<F>,
    >(i)[3840 + j]@ == 128 as real * #[trigger] exact_normalized::<F>(i, j) by {
        let v = normalized::<Ideal<F>>(i.x, i.norm_weight, i.eps, j);
        assert(v@ == exact_normalized::<F>(i, j));
        assert(exact_terms::<F>(v, up_gain::<Ideal<F>>()));
        assert((3840 + j) % 3840 == j && (3840 + j) / 3840 == 1);
    }
}

/// The gated activation of the kernel is the exact one.
proof fn lemma_activation<F: Functions>(i: FeedForwardInputs<Ghost<real>>, l: int)
    requires
        sized(i),
        lossless_front::<F>(i),
        0 <= l < 15_360,
    ensures
        activation::<Ideal<F>>(i, l)@ == exact_activation::<F>(i, l),
{
    lemma_hidden::<F>(i);
    let norm = |j: int| exact_normalized::<F>(i, j);
    let lanes = hidden_lanes::<Ideal<F>>(i);
    assert forall|j: int| 0 <= j < 3840 implies lanes[j]@ + lanes[3840 + j]@ == 128 as real
        * #[trigger] norm(j) by {
        assert(norm(j) == exact_normalized::<F>(i, j));
    }
    law_row::<F>(i.up, l * 3840, i.up_scale, l * 240, lanes, 3840, 128 as real, norm);
    law_row::<F>(i.gate, l * 3840, i.gate_scale, l * 240, lanes, 3840, 128 as real, norm);
    let up = weighted_row::<F>(i.up, l * 3840, i.up_scale, l * 240, norm, 3840);
    let gate = weighted_row::<F>(i.gate, l * 3840, i.gate_scale, l * 240, norm, 3840);
    assert(up_row::<Ideal<F>>(i, l) == Ghost(128 as real * up));
    assert(gate_row::<Ideal<F>>(i, l) == Ghost(128 as real * gate));
    law_geglu::<F>(up, gate, i.gate_global@);
    assert(i.gate_global == Ghost(i.gate_global@));
}

/// What a cluster contributes to a column: its 480 blocks of the row.
proof fn lemma_half<F: Functions>(i: FeedForwardInputs<Ghost<real>>, h: int, c: int)
    requires
        sized(i),
        lossless::<F>(i, h),
        0 <= c < 2,
    ensures
        down_half::<Ideal<F>>(i, c, h)@ == 1 as real / 4 as real * total(
            480,
            |b: int|
                F::bf16(
                    block_total(
                        i.down,
                        h * 15_360,
                        |l: int| exact_activation::<F>(i, l),
                        c * 480 + b,
                    ),
                ) * F::bf16(i.down_scale[h * 960 + (c * 480 + b)]@),
        ),
{
    law_constants::<F>();
    let act = |l: int| exact_activation::<F>(i, l);
    let mine = |j: int| exact_activation::<F>(i, c * 7680 + j);
    let lanes = activation_lanes::<Ideal<F>>(i, c);
    let quarter = 1 as real / 4 as real;
    assert forall|j: int| 0 <= j < 7680 implies lanes[j]@ + lanes[7680 + j]@ == quarter
        * #[trigger] mine(j) by {
        let l = c * 7680 + j;
        lemma_activation::<F>(i, l);
        assert(exact_terms::<F>(activation::<Ideal<F>>(i, l), down_gain::<Ideal<F>>()));
        assert(j % 7680 == j && (7680 + j) % 7680 == j && (7680 + j) / 7680 == 1);
    }
    let first = h * 15_360 + c * 7680;
    assert forall|b: int| 0 <= b < 480 implies #[trigger] block_total(i.down, first, mine, b)
        == block_total(i.down, h * 15_360, act, c * 480 + b) by {
        lemma_total_same(
            16,
            |k: int| f4_value(i.down[first + b * 16 + k]) * mine(b * 16 + k),
            |k: int|
                f4_value(i.down[h * 15_360 + (c * 480 + b) * 16 + k]) * act((c * 480 + b) * 16 + k),
        );
    }
    assert forall|b: int| 0 <= b < 7680int / 16 implies passes::<F>(
        quarter,
        #[trigger] block_total(i.down, first, mine, b),
    ) by {
        assert(passes::<F>(quarter, block_total(i.down, h * 15_360, act, c * 480 + b)));
    }
    law_row::<F>(i.down, first, i.down_scale, h * 960 + c * 480, lanes, 7680, quarter, mine);
    lemma_total_same(
        480,
        |b: int|
            F::bf16(block_total(i.down, first, mine, b)) * F::bf16(
                i.down_scale[h * 960 + c * 480 + b]@,
            ),
        |b: int|
            F::bf16(block_total(i.down, h * 15_360, act, c * 480 + b)) * F::bf16(
                i.down_scale[h * 960 + (c * 480 + b)]@,
            ),
    );
}

/// The feed-forward block, in exact arithmetic: the gains, the split into terms, the halves of the
/// two clusters and the late global scales all cancel, and column `h` is the down projection of
/// `up * gelu(gate)` of the normalized hidden state.
pub proof fn law_feedforward<F: Functions>(i: FeedForwardInputs<Ghost<real>>, h: int)
    requires
        sized(i),
        0 <= h < 3840,
        lossless::<F>(i, h),
    ensures
        feedforward_column::<Ideal<F>>(i, h)@ == exact_column::<F>(i, h),
{
    law_constants::<F>();
    lemma_half::<F>(i, h, 0);
    lemma_half::<F>(i, h, 1);
    let act = |l: int| exact_activation::<F>(i, l);
    let block = |b: int|
        F::bf16(block_total(i.down, h * 15_360, act, b)) * F::bf16(i.down_scale[h * 960 + b]@);
    let low = total(480, block);
    let high = total(480, |b: int| block(480 + b));
    lemma_total_joined(480, 480, block);
    let quarter = 1 as real / 4 as real;
    let halves = Seq::new(2, |c: int| down_half::<Ideal<F>>(i, c, h));
    assert(halves[0]@ == quarter * low) by {
        lemma_total_same(
            480,
            |b: int|
                F::bf16(block_total(i.down, h * 15_360, act, 0 * 480 + b)) * F::bf16(
                    i.down_scale[h * 960 + (0 * 480 + b)]@,
                ),
            block,
        );
    }
    assert(halves[1]@ == quarter * high) by {
        lemma_total_same(
            480,
            |b: int|
                F::bf16(block_total(i.down, h * 15_360, act, 1 * 480 + b)) * F::bf16(
                    i.down_scale[h * 960 + (1 * 480 + b)]@,
                ),
            |b: int| block(480 + b),
        );
    }
    let d = i.down_global@;
    let u = i.up_global@;
    let scaled = Seq::new(
        halves.len(),
        |c: int| Ideal::<F>::mul_of(Ideal::<F>::mul_of(halves[c], i.down_global), i.up_global),
    );
    let f = |c: int| scaled[c]@;
    reveal_with_fuel(total, 3);
    assert(total(2, f) == f(0) + f(1));
    assert(((quarter * low) * d * u + (quarter * high) * d * u) / quarter == (low + high) * d * u)
        by (nonlinear_arith)
        requires
            quarter == 1 as real / 4 as real,
    ;
}

/// Where the roundings change nothing, every input is lossless.
pub proof fn law_lossless<F: Functions>(i: FeedForwardInputs<Ghost<real>>, h: int)
    requires
        rounds_nothing::<F>(),
    ensures
        lossless::<F>(i, h),
{
    assert forall|v: Ghost<real>, gain: Ghost<real>| #[trigger] exact_terms::<F>(v, gain) by {
        law_unrounded::<F>(v, gain);
    }
    assert forall|gain: real, y: real| #[trigger] passes::<F>(gain, y) by {
        law_unrounded::<F>(Ghost(y), Ghost(gain));
    }
}

/// The sum of a block is a multiple of half the unit of the activation.
proof fn lemma_block_multiple(
    codes: Seq<u8>,
    first: int,
    act: spec_fn(int) -> real,
    b: int,
    unit: real,
)
    requires
        forall|j: int| b * 16 <= j < b * 16 + 16 ==> multiple_of(#[trigger] act(j), unit),
    ensures
        multiple_of(block_total(codes, first, act, b), unit / 2 as real),
{
    let f = |i: int| f4_value(codes[first + b * 16 + i]) * act(b * 16 + i);
    let half = unit / 2 as real;
    assert forall|i: int| 0 <= i < 16 implies multiple_of(#[trigger] f(i), half) by {
        let code = codes[first + b * 16 + i];
        let k = if code as int % 16 < 8 { f4_half_units(code) } else { -f4_half_units(code) };
        assert(multiple_of(act(b * 16 + i), unit));
        let n = choose|n: int| act(b * 16 + i) == #[trigger] times(n, unit);
        let (p, q) = (k as real, n as real);
        assert(f4_value(code) == p / 2 as real);
        assert((p / 2 as real) * (q * unit) == (p * q) * (unit / 2 as real)) by (nonlinear_arith);
        assert((k * n) as real == p * q) by (nonlinear_arith)
            requires
                p == k as real,
                q == n as real,
        ;
        assert(f(i) == times(k * n, half));
    }
    lemma_total_multiple(16, f, half);
}

/// Where the roundings are those of the formats, the block is lossless on what its terms can hold: a
/// normalized hidden state of `bf16` numbers that are multiples of `2^-16` and at most 3.5, and a gated
/// activation of `bf16` numbers that are multiples of `2^-7` and at most 1792.
pub proof fn law_lossless_rounded<F: Functions>(i: FeedForwardInputs<Ghost<real>>, h: int)
    requires
        sized(i),
        rounds_to_f8::<F>(),
        rounds_to_bf16::<F>(fine()),
        forall|j: int|
            0 <= j < 3840 ==> holds(#[trigger] exact_normalized::<F>(i, j), 1 as real / 65_536 as real),
        forall|l: int|
            0 <= l < 15_360 ==> holds(#[trigger] exact_activation::<F>(i, l), units(4)),
    ensures
        lossless::<F>(i, h),
{
    law_constants::<F>();
    law_rms::<F>(i.x, i.eps);
    let norm = |j: int| exact_normalized::<F>(i, j);
    let unit = 1 as real / 65_536 as real;
    let half = doubled(fine(), 5);
    law_coarser_units::<F>(fine(), 5);
    reveal_with_fuel(doubled, 6);
    assert(half == unit / 2 as real);
    assert(unit * 128 as real == units(1));
    assert forall|j: int| 0 <= j < 3840 implies exact_terms::<F>(
        #[trigger] normalized::<Ideal<F>>(i.x, i.norm_weight, i.eps, j),
        up_gain::<Ideal<F>>(),
    ) by {
        let v = normalized::<Ideal<F>>(i.x, i.norm_weight, i.eps, j);
        assert(v@ == exact_normalized::<F>(i, j));
        law_bf16_terms::<F>(v, up_gain::<Ideal<F>>(), unit);
    }
    assert forall|j: int| 0 <= j < 3840 implies multiple_of(#[trigger] norm(j), unit) by {
        assert(holds(exact_normalized::<F>(i, j), unit));
        lemma_held_multiple(norm(j), unit);
    }
    assert forall|codes: Seq<u8>, l: int, b: int| 0 <= b < 240 implies passes::<F>(
        128 as real,
        #[trigger] block_total(codes, l * 3840, norm, b),
    ) by {
        let t = block_total(codes, l * 3840, norm, b);
        lemma_block_multiple(codes, l * 3840, norm, b, unit);
        let n = choose|n: int| t == #[trigger] times(n, unit / 2 as real);
        law_gains_pass::<F>(half, n);
    }
    assert(lossless_front::<F>(i));
    lemma_lossless_back::<F>(i, h);
}

/// The part of `law_lossless_rounded` behind the gated activation.
proof fn lemma_lossless_back<F: Functions>(i: FeedForwardInputs<Ghost<real>>, h: int)
    requires
        sized(i),
        lossless_front::<F>(i),
        rounds_to_f8::<F>(),
        rounds_to_bf16::<F>(fine()),
        forall|l: int|
            0 <= l < 15_360 ==> holds(#[trigger] exact_activation::<F>(i, l), units(4)),
    ensures
        lossless::<F>(i, h),
{
    law_constants::<F>();
    let act = |l: int| exact_activation::<F>(i, l);
    let quarter = 1 as real / 4 as real;
    assert(units(4) * quarter == units(1));
    assert forall|l: int| 0 <= l < 15_360 implies exact_terms::<F>(
        #[trigger] activation::<Ideal<F>>(i, l),
        down_gain::<Ideal<F>>(),
    ) by {
        let v = activation::<Ideal<F>>(i, l);
        lemma_activation::<F>(i, l);
        assert(holds(exact_activation::<F>(i, l), units(4)));
        law_bf16_terms::<F>(v, down_gain::<Ideal<F>>(), units(4));
    }
    assert forall|l: int| 0 <= l < 15_360 implies multiple_of(#[trigger] act(l), units(4)) by {
        assert(holds(exact_activation::<F>(i, l), units(4)));
        lemma_held_multiple(act(l), units(4));
    }
    law_coarser_units::<F>(fine(), 12);
    reveal_with_fuel(doubled, 13);
    let unit = doubled(fine(), 12);
    assert(unit == 1 as real / 1024 as real);
    assert forall|b: int| 0 <= b < 960 implies passes::<F>(
        quarter,
        #[trigger] block_total(i.down, h * 15_360, act, b),
    ) by {
        let t = block_total(i.down, h * 15_360, act, b);
        lemma_block_multiple(i.down, h * 15_360, act, b, units(4));
        let n = choose|n: int| t == #[trigger] times(n, units(4) / 2 as real);
        let q = n as real;
        assert(q * (units(4) / 2 as real) == (4 as real * q) * unit) by (nonlinear_arith)
            requires
                unit == 1 as real / 1024 as real,
                units(4) == 4 as real / 512 as real,
        ;
        law_gains_pass::<F>(unit, n);
    }
}

/// Where the roundings change nothing, a row of block-scaled codes is the plain product of the
/// decoded row and the activation: code times block scale times column.
pub proof fn law_decoded_row<F: Functions>(
    codes: Seq<u8>,
    first: int,
    scales: Seq<Ghost<real>>,
    first_scale: int,
    act: spec_fn(int) -> real,
    n: int,
)
    requires
        rounds_nothing::<F>(),
        0 <= n,
        n % 16 == 0,
    ensures
        weighted_row::<F>(codes, first, scales, first_scale, act, n) == total(
            n as nat,
            |j: int| f4_value(codes[first + j]) * scales[first_scale + j / 16]@ * act(j),
        ),
{
    let m = (n / 16) as nat;
    let column = |j: int| f4_value(codes[first + j]) * scales[first_scale + j / 16]@ * act(j);
    lemma_total_blocked(m, 16, column);
    let block = |b: int|
        F::bf16(block_total(codes, first, act, b)) * F::bf16(scales[first_scale + b]@);
    assert forall|b: int| 0 <= b < m implies #[trigger] block(b) == total(
        16,
        |j: int| column(b * 16 + j),
    ) by {
        let w = scales[first_scale + b]@;
        let plain = |j: int| f4_value(codes[first + b * 16 + j]) * act(b * 16 + j);
        lemma_total_scaled(16, w, plain);
        assert forall|j: int| 0 <= j < 16 implies w * #[trigger] plain(j) == column(b * 16 + j) by {
            assert((b * 16 + j) / 16 == b);
            let c = f4_value(codes[first + b * 16 + j]);
            let v = act(b * 16 + j);
            assert(codes[first + (b * 16 + j)] == codes[first + b * 16 + j]);
            assert(w * (c * v) == c * w * v) by (nonlinear_arith);
        }
        lemma_total_same(16, |j: int| w * plain(j), |j: int| column(b * 16 + j));
        let t = total(16, plain);
        lemma_total_same(
            16,
            plain,
            |i: int| f4_value(codes[first + b * 16 + i]) * act(b * 16 + i),
        );
        assert(t * w == w * t) by (nonlinear_arith);
    }
    lemma_total_same(m, block, |b: int| total(16, |j: int| column(b * 16 + j)));
}

/// The post-norm, residual add and layer scale: `(x / rms * w + r) * g`, rounded once.
pub proof fn law_post_norm<F: Functions>(
    x: Seq<Ghost<real>>,
    weight: Seq<Ghost<real>>,
    residual: Seq<Ghost<real>>,
    scalar: Ghost<real>,
    eps: Ghost<real>,
    h: int,
)
    requires
        x.len() == 3840,
    ensures
        post_norm_column::<Ideal<F>>(x, weight, residual, scalar, eps, h)@ == F::bf16(
            (x[h]@ / F::sqrt(mean_of_squares(x) + eps@) * weight[h]@ + residual[h]@) * scalar@,
        ),
{
    law_rms::<F>(x, eps);
}

/// The columns of the block, in exact arithmetic.
pub open spec fn exact_block<F: Functions>(i: FeedForwardInputs<Ghost<real>>) -> Seq<Ghost<real>> {
    Seq::new(3840, |h: int| Ghost(exact_column::<F>(i, h)))
}

/// The layer, in exact arithmetic: what `normalize_add_gate_in_place` makes of the result of
/// `feedforward` and of the pool that it leaves is the normalized block, weighted, plus the hidden
/// state that went in, times the layer scalar.
pub proof fn law_layer<F: Functions>(
    i: FeedForwardInputs<Ghost<real>>,
    post_weight: Seq<Ghost<real>>,
    scalar: Ghost<real>,
    h: int,
)
    requires
        sized(i),
        0 <= h < 3840,
        forall|j: int| 0 <= j < 3840 ==> #[trigger] lossless::<F>(i, j),
    ensures
        post_norm_column::<Ideal<F>>(
            Seq::new(3840, |j: int| feedforward_column::<Ideal<F>>(i, j)),
            post_weight,
            i.x,
            scalar,
            i.eps,
            h,
        )@ == F::bf16(
            (exact_column::<F>(i, h) / F::sqrt(mean_of_squares(exact_block::<F>(i)) + i.eps@)
                * post_weight[h]@ + i.x[h]@) * scalar@,
        ),
{
    let block = Seq::new(3840, |j: int| feedforward_column::<Ideal<F>>(i, j));
    assert forall|j: int| 0 <= j < 3840 implies block[j] == exact_block::<F>(i)[j] by {
        assert(lossless::<F>(i, j));
        law_feedforward::<F>(i, j);
        assert(block[j] == Ghost(block[j]@));
    }
    assert(block =~= exact_block::<F>(i));
    law_post_norm::<F>(block, post_weight, i.x, scalar, i.eps, h);
}

} // verus!
