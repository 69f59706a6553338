//! The feed-forward block.

use vstd::prelude::*;

use crate::arith::Arith;
use crate::context::{plain, using, Buffer, Command, Context, Matrix, Operands, Stage, Unit};
use crate::ffn7::blocks::{
    apply_scales, apply_scales_log, block_sum, block_sums_all, block_sums_all_log, down_part,
    down_row, down_scales_bf16, down_tile, down_tile_log, row_product, scales_bf16, scales_log,
    BLOCK_SCALES, UP_CODES,
};
use crate::ffn7::gate::{
    down_gain, gate_erf_factor, gate_factor_log, gate_factor_vrf, gated, geglu, geglu_log,
    quantize_gather, quantize_gather_log, regroup, regroup_log,
};
use crate::ffn7::norm::{
    loaded, mean_square_pass, normalize_quantize, normalize_quantize_log, normalized, piece,
    piece_slot, rms, rms_pass, up_gain,
};
use crate::hidden::{mean_square, H};
use crate::quant::term;
use crate::tensor::{cell, fill, fresh, in_slot, list, ring_member, within, Dm, SLICES};

pub mod blocks;
pub mod error;
pub mod exact;
pub mod formula;
pub mod gate;
pub mod layout;
pub mod meaning;
pub mod norm;
pub mod order;
pub mod queues;
pub mod rescale;
pub mod symmetry;

verus! {

/// The commands of one projection with a block-scaled matrix.
pub open spec fn project_log(matrix: Matrix) -> Seq<Command> {
    block_sums_all_log(matrix) + scales_log(matrix) + apply_scales_log(matrix)
}

/// One projection with an up or gate matrix: slice `s` ends with the products of its 30 rows.
fn project<A: Arith>(
    ctx: &mut Context,
    matrix: Matrix,
    w: &Vec<u8>,
    scale: &Vec<A::Num>,
    x_trf: &Dm<A::Num>,
) -> (y: Dm<A::Num>)
    requires
        w@.len() == UP_CODES,
        scale@.len() == BLOCK_SCALES,
        x_trf.shaped(7680),
    ensures
        final(ctx).log() == old(ctx).log() + project_log(matrix),
        y.shaped(30),
        forall|s: int, r: int|
            0 <= s < SLICES && 0 <= r < 30 ==> #[trigger] y.at(s, r) == row_product::<A>(
                w@,
                (s * 30 + r) * 3840,
                scale@,
                (s * 30 + r) * 240,
                x_trf.rows@[s]@,
                3840,
            ),
{
    let z: Dm<A::Num> = block_sums_all::<A>(ctx, matrix, w, x_trf);
    let b: Dm<A::Num> = scales_bf16::<A>(ctx, matrix, scale);
    let y: Dm<A::Num> = apply_scales::<A>(ctx, matrix, &z, &b);
    assert(ctx.log() =~= old(ctx).log() + project_log(matrix));
    proof {
        assert forall|s: int, r: int| 0 <= s < SLICES && 0 <= r < 30 implies #[trigger] y.at(s, r)
            == row_product::<A>(
            w@,
            (s * 30 + r) * 3840,
            scale@,
            (s * 30 + r) * 240,
            x_trf.rows@[s]@,
            3840,
        ) by {
            let sums = Seq::new(
                240,
                |i: int| block_sum::<A>(w@, (s * 30 + r) * 3840, x_trf.rows@[s]@, 3840, i),
            );
            let scales = Seq::new(240, |i: int| A::bf16_of(scale@[(s * 30 + r) * 240 + i]));
            let zs = z.rows@[s]@.subrange(r * 240, r * 240 + 240);
            let bs = b.rows@[s]@.subrange(r * 240, r * 240 + 240);
            assert forall|i: int| 0 <= i < 240 implies zs[i] == sums[i] && bs[i] == scales[i] by {
                assert((r * 240 + i) / 240 == r && (r * 240 + i) % 240 == i);
                assert(zs[i] == z.at(s, r * 240 + i));
                assert(bs[i] == b.at(s, r * 240 + i));
            }
            assert(zs =~= sums);
            assert(bs =~= scales);
        }
    }
    y
}

/// The commands of `reduce_halves`.
pub open spec fn reduce_halves_log() -> Seq<Command> {
    seq![
        using(
            Unit::Main,
            Buffer::Product(Matrix::Down, 0),
            Operands::One(Buffer::Product(Matrix::Down, 10)),
            Buffer::Paired,
        ),
        plain(Unit::Tdma, Buffer::Paired, Buffer::Meeting),
        plain(Unit::Tdma, Buffer::Meeting, Buffer::Halves),
        plain(Unit::Tdma, Buffer::GlobalScale(Matrix::Down), Buffer::GlobalDm(Matrix::Down)),
        plain(Unit::Sub, Buffer::GlobalDm(Matrix::Down), Buffer::GlobalVrf(Matrix::Down)),
        plain(Unit::Tdma, Buffer::GlobalScale(Matrix::Up), Buffer::GlobalDm(Matrix::Up)),
        plain(Unit::Sub, Buffer::GlobalDm(Matrix::Up), Buffer::GlobalVrf(Matrix::Up)),
        using(
            Unit::Main,
            Buffer::Halves,
            Operands::Two(Buffer::GlobalVrf(Matrix::Down), Buffer::GlobalVrf(Matrix::Up)),
            Buffer::Block,
        ),
    ]
}

/// The two clusters' halves of a row, scaled, added and rounded.
pub open spec fn joined<A: Arith>(
    halves: Seq<A::Num>,
    down_scale: A::Num,
    up_scale: A::Num,
) -> A::Num {
    A::bf16_of(
        A::div_of(
            A::sum_of(
                Seq::new(
                    halves.len(),
                    |c: int| A::mul_of(A::mul_of(halves[c], down_scale), up_scale),
                ),
            ),
            down_gain::<A>(),
        ),
    )
}

/// Where row `h` of cluster `c`'s half lies among the down projection's parts.
pub open spec fn half_at<V>(partial: Dm<V>, c: int, h: int) -> V {
    partial.at(c * 256 + h / 30 * 2 + h % 2, h % 30 / 2)
}

/// A scalar in the eight slices that the tail runs on.
fn tail_scalar<A: Arith>(v: &A::Num) -> (r: Dm<A::Num>)
    ensures
        r.shaped(1),
        forall|s: int| 0 <= s < 8 ==> #[trigger] r.at(s, 0) == *v,
{
    fill(
        1,
        |s: usize, e: usize| -> (r: A::Num)
            ensures
                8 > s ==> r == *v,
        {
            if s < 8 {
                A::dup(v)
            } else {
                A::unset()
            }
        }
    )
}

/// The two halves of the down projection meet.
///
/// Neighbouring slices pair up to 30 consecutive rows, each pair stores them at the head of a
/// 64-word element of device memory, and only the heads come back, 480 rows to each of the eight
/// slices of the tail.
fn reduce_halves<A: Arith>(
    ctx: &mut Context,
    partial: &Dm<A::Num>,
    down_global_scale: &A::Num,
    up_global_scale: &A::Num,
) -> (out: Dm<A::Num>)
    requires
        partial.shaped(15),
    ensures
        final(ctx).log() == old(ctx).log() + reduce_halves_log(),
        out.shaped(480),
        forall|s: int, e: int|
            0 <= s < 8 && 0 <= e < 480 ==> #[trigger] out.at(s, e) == joined::<A>(
                Seq::new(2, |c: int| half_at(*partial, c, s * 480 + e)),
                *down_global_scale,
                *up_global_scale,
            ),
{
    ctx.issue_with(
        Unit::Main,
        Buffer::Product(Matrix::Down, 0),
        Operands::One(Buffer::Product(Matrix::Down, 10)),
        Buffer::Paired,
    );
    let paired: Dm<A::Num> = fill(
        64,
        |s: usize, e: usize| -> (r: A::Num)
            requires
                cell(s, e, 64),
            ensures
                s % 2 == 0 && 30 > e ==> r == partial.at(
                    ring_member(s as int, 2, 1, e as int % 2),
                    e as int / 2,
                ),
        {
            if s % 2 == 0 && e < 30 {
                A::dup(partial.get(s / 2 * 2 + e % 2, e / 2))
            } else {
                A::unset()
            }
        }
    );
    ctx.issue(Unit::Tdma, Buffer::Paired, Buffer::Meeting);
    let meeting: Vec<A::Num> = list(
        16_384,
        |i: usize| -> (q: A::Num)
            requires
                within(i, 16_384),
            ensures
                q == paired.at(i as int / 8192 * 256 + i as int % 8192 / 64 * 2, i as int % 64),
        { A::dup(paired.get(i / 8192 * 256 + i % 8192 / 64 * 2, i % 64)) }
    );
    ctx.issue(Unit::Tdma, Buffer::Meeting, Buffer::Halves);
    let halves: Dm<A::Num> = fill(
        960,
        |s: usize, e: usize| -> (r: A::Num)
            requires
                cell(s, e, 960),
            ensures
                8 > s ==> r == meeting@[e as int / 480 * 8192 + (s * 16 + e as int % 480 / 30) * 64
                    + e as int % 30],
        {
            if s < 8 {
                A::dup(&meeting[e / 480 * 8192 + (s * 16 + e % 480 / 30) * 64 + e % 30])
            } else {
                A::unset()
            }
        }
    );
    ctx.issue(Unit::Tdma, Buffer::GlobalScale(Matrix::Down), Buffer::GlobalDm(Matrix::Down));
    let down_scale: Dm<A::Num> = tail_scalar::<A>(down_global_scale);
    ctx.issue(Unit::Sub, Buffer::GlobalDm(Matrix::Down), Buffer::GlobalVrf(Matrix::Down));
    ctx.issue(Unit::Tdma, Buffer::GlobalScale(Matrix::Up), Buffer::GlobalDm(Matrix::Up));
    let up_scale: Dm<A::Num> = tail_scalar::<A>(up_global_scale);
    ctx.issue(Unit::Sub, Buffer::GlobalDm(Matrix::Up), Buffer::GlobalVrf(Matrix::Up));
    ctx.issue_with(
        Unit::Main,
        Buffer::Halves,
        Operands::Two(Buffer::GlobalVrf(Matrix::Down), Buffer::GlobalVrf(Matrix::Up)),
        Buffer::Block,
    );
    let gain: A::Num = A::lit(25, 2);
    let out: Dm<A::Num> = fill(
        480,
        |s: usize, e: usize| -> (r: A::Num)
            requires
                cell(s, e, 480),
            ensures
                r == joined::<A>(
                    Seq::new(2, |c: int| halves.at(s as int, c * 480 + e)),
                    down_scale.at(s as int, 0),
                    up_scale.at(s as int, 0),
                ),
        {
            let parts: Vec<A::Num> = list(
                2,
                |c: usize| -> (q: A::Num)
                    requires
                        within(c, 2),
                    ensures
                        q == A::mul_of(
                            A::mul_of(
                                halves.at(s as int, c * 480 + e),
                                down_scale.at(s as int, 0),
                            ),
                            up_scale.at(s as int, 0),
                        ),
                {
                    A::mul(
                        &A::mul(halves.get(s, c * 480 + e), down_scale.get(s, 0)),
                        up_scale.get(s, 0),
                    )
                }
            );
            let ghost given = Seq::new(2, |c: int| halves.at(s as int, c * 480 + e));
            assert(parts@ =~= Seq::new(
                given.len(),
                |c: int|
                    A::mul_of(
                        A::mul_of(given[c], down_scale.at(s as int, 0)),
                        up_scale.at(s as int, 0),
                    ),
            ));
            A::bf16(&A::div(&A::sum(&parts), &gain))
        }
    );
    assert(ctx.log() =~= old(ctx).log() + reduce_halves_log());
    proof {
        assert forall|s: int, e: int| 0 <= s < 8 && 0 <= e < 480 implies #[trigger] out.at(s, e)
            == joined::<A>(
            Seq::new(2, |c: int| half_at(*partial, c, s * 480 + e)),
            *down_global_scale,
            *up_global_scale,
        ) by {
            let got = Seq::new(2, |c: int| halves.at(s, c * 480 + e));
            let want = Seq::new(2, |c: int| half_at(*partial, c, s * 480 + e));
            assert forall|c: int| 0 <= c < 2 implies got[c] == want[c] by {
                let g = s * 16 + e / 30;
                let i = c * 8192 + g * 64 + e % 30;
                assert(c * 480 + e < 960 && (c * 480 + e) / 480 == c && (c * 480 + e) % 480 == e);
                assert((c * 480 + e) % 30 == e % 30);
                assert(halves.at(s, c * 480 + e) == meeting@[i]);
                assert(i / 8192 == c && i % 8192 / 64 == g && i % 64 == e % 30);
                assert(meeting@[i] == paired.at(c * 256 + g * 2, e % 30));
                assert((s * 480 + e) / 30 == g && (s * 480 + e) % 30 == e % 30);
                assert((s * 480 + e) % 2 == e % 30 % 2);
            }
            assert(got =~= want);
        }
    }
    out
}

/// The 3840 columns that lie in the eight slices of the tail, in the first 480 elements of each.
pub open spec fn tail_columns<V>(x: Dm<V>) -> Seq<V> {
    Seq::new(3840, |h: int| x.at(h / 480, h % 480))
}

/// What `feedforward` is given.
pub struct FeedForwardInputs<V> {
    pub x: Seq<V>,
    pub norm_weight: Seq<V>,
    pub eps: V,
    pub up: Seq<u8>,
    pub gate: Seq<u8>,
    pub down: Seq<u8>,
    pub up_scale: Seq<V>,
    pub gate_scale: Seq<V>,
    pub down_scale: Seq<V>,
    pub up_global: V,
    pub gate_global: V,
    pub down_global: V,
}

/// Both lanes of the normalized hidden state.
pub open spec fn hidden_lanes<A: Arith>(i: FeedForwardInputs<A::Num>) -> Seq<A::Num> {
    Seq::new(
        7680,
        |e: int|
            term::<A>(
                normalized::<A>(i.x, i.norm_weight, i.eps, e % 3840),
                up_gain::<A>(),
                e / 3840,
            ),
    )
}

/// Row `l` of the up projection.
pub open spec fn up_row<A: Arith>(i: FeedForwardInputs<A::Num>, l: int) -> A::Num {
    row_product::<A>(i.up, l * 3840, i.up_scale, l * 240, hidden_lanes::<A>(i), 3840)
}

/// Row `l` of the projection with `gate`.
pub open spec fn gate_row<A: Arith>(i: FeedForwardInputs<A::Num>, l: int) -> A::Num {
    row_product::<A>(i.gate, l * 3840, i.gate_scale, l * 240, hidden_lanes::<A>(i), 3840)
}

/// Row `l` of the gated activation.
pub open spec fn activation<A: Arith>(i: FeedForwardInputs<A::Num>, l: int) -> A::Num {
    gated::<A>(
        up_row::<A>(i, l),
        gate_row::<A>(i, l),
        A::mul_of(i.gate_global, gate_erf_factor::<A>()),
    )
}

/// Both lanes of cluster `c`'s 7680 rows of the gated activation.
pub open spec fn activation_lanes<A: Arith>(i: FeedForwardInputs<A::Num>, c: int) -> Seq<A::Num> {
    Seq::new(
        15_360,
        |e: int| term::<A>(activation::<A>(i, c * 7680 + e % 7680), down_gain::<A>(), e / 7680),
    )
}

/// Cluster `c`'s half of row `h` of the down projection.
pub open spec fn down_half<A: Arith>(i: FeedForwardInputs<A::Num>, c: int, h: int) -> A::Num {
    row_product::<A>(
        i.down,
        h * 15_360 + c * 7680,
        i.down_scale,
        h * 960 + c * 480,
        activation_lanes::<A>(i, c),
        7680,
    )
}

/// Column `h` of the block's result.
pub open spec fn feedforward_column<A: Arith>(i: FeedForwardInputs<A::Num>, h: int) -> A::Num {
    joined::<A>(Seq::new(2, |c: int| down_half::<A>(i, c, h)), i.down_global, i.up_global)
}

/// The commands of `feedforward`.
pub open spec fn feedforward_log() -> Seq<Command> {
    normalize_quantize_log() + project_log(Matrix::Up) + project_log(Matrix::Gate) + regroup_log()
        + gate_factor_log() + geglu_log() + quantize_gather_log() + scales_log(Matrix::Down)
        + down_tile_log(0) + down_tile_log(10) + reduce_halves_log()
}

/// The feed-forward block: normalization, the gated activation of two projections, and the
/// projection back. Slice `s` of the eight slices of the tail ends with the columns `480 s ..
/// 480 s + 480`, and with the same columns of the given hidden state in slot 0 of the pool.
pub fn feedforward<A: Arith>(
    ctx: &mut Context,
    residual: &Vec<A::Num>,
    pre_ff_rms_weight: &Vec<A::Num>,
    up_weight_packed: &Vec<u8>,
    gate_weight_packed: &Vec<u8>,
    down_weight_packed: &Vec<u8>,
    up_weight_scale: &Vec<A::Num>,
    gate_weight_scale: &Vec<A::Num>,
    down_weight_scale: &Vec<A::Num>,
    up_global_scale: &A::Num,
    gate_global_scale: &A::Num,
    down_global_scale: &A::Num,
    eps: &A::Num,
) -> (r: (Dm<A::Num>, Dm<A::Num>))
    requires
        residual@.len() == H,
        pre_ff_rms_weight@.len() == H,
        up_weight_packed@.len() == UP_CODES,
        gate_weight_packed@.len() == UP_CODES,
        down_weight_packed@.len() == UP_CODES,
        up_weight_scale@.len() == BLOCK_SCALES,
        gate_weight_scale@.len() == BLOCK_SCALES,
        down_weight_scale@.len() == BLOCK_SCALES,
    ensures
        final(ctx).log() == old(ctx).log() + feedforward_log(),
        r.0.shaped(480),
        tail_columns(r.0) == Seq::new(
            3840,
            |h: int|
                feedforward_column::<A>(
                    (FeedForwardInputs {
                        x: residual@,
                        norm_weight: pre_ff_rms_weight@,
                        eps: *eps,
                        up: up_weight_packed@,
                        gate: gate_weight_packed@,
                        down: down_weight_packed@,
                        up_scale: up_weight_scale@,
                        gate_scale: gate_weight_scale@,
                        down_scale: down_weight_scale@,
                        up_global: *up_global_scale,
                        gate_global: *gate_global_scale,
                        down_global: *down_global_scale,
                    }),
                    h,
                ),
        ),
        r.1.shaped(960),
        tail_columns(r.1) == residual@,
        piece_slot(r.1, 0, residual@),
        piece_slot(r.1, 1, pre_ff_rms_weight@),
{
    let ghost given = FeedForwardInputs {
        x: residual@,
        norm_weight: pre_ff_rms_weight@,
        eps: *eps,
        up: up_weight_packed@,
        gate: gate_weight_packed@,
        down: down_weight_packed@,
        up_scale: up_weight_scale@,
        gate_scale: gate_weight_scale@,
        down_scale: down_weight_scale@,
        up_global: *up_global_scale,
        gate_global: *gate_global_scale,
        down_global: *down_global_scale,
    };
    let (x_trf, residual_spread): (Dm<A::Num>, Dm<A::Num>) = normalize_quantize::<A>(
        ctx,
        residual,
        pre_ff_rms_weight,
        eps,
    );
    assert forall|s: int| 0 <= s < SLICES implies #[trigger] x_trf.rows@[s]@ == hidden_lanes::<A>(
        given,
    ) by {
        assert forall|e: int| 0 <= e < 7680 implies x_trf.rows@[s]@[e] == hidden_lanes::<A>(
            given,
        )[e] by {
            assert(x_trf.rows@[s]@[e] == x_trf.at(s, e));
        }
        assert(x_trf.rows@[s]@ =~= hidden_lanes::<A>(given));
    }

    let up: Dm<A::Num> = project::<A>(ctx, Matrix::Up, up_weight_packed, up_weight_scale, &x_trf);
    let gate: Dm<A::Num> = project::<A>(
        ctx,
        Matrix::Gate,
        gate_weight_packed,
        gate_weight_scale,
        &x_trf,
    );
    let up: Dm<A::Num> = regroup::<A>(ctx, Matrix::Up, &up);
    let gate: Dm<A::Num> = regroup::<A>(ctx, Matrix::Gate, &gate);
    let factor: Dm<A::Num> = gate_factor_vrf::<A>(ctx, gate_global_scale);
    let x: Dm<A::Num> = geglu::<A>(ctx, &up, &gate, &factor);
    assert forall|s: int, e: int| 0 <= s < SLICES && 0 <= e < 120 implies #[trigger] x.at(s, e)
        == activation::<A>(given, s / 4 * 120 + e) by {
        assert((s / 4 * 4 + e / 30) * 30 + e % 30 == s / 4 * 120 + e);
        assert(up.at(s, e) == up_row::<A>(given, s / 4 * 120 + e));
        assert(gate.at(s, e) == gate_row::<A>(given, s / 4 * 120 + e));
    }
    let x_trf: Dm<A::Num> = quantize_gather::<A>(ctx, x);
    assert forall|s: int| 0 <= s < SLICES implies #[trigger] x_trf.rows@[s]@ == activation_lanes::<
        A,
    >(given, s / 256) by {
        let want = activation_lanes::<A>(given, s / 256);
        assert forall|e: int| 0 <= e < 15_360 implies x_trf.rows@[s]@[e] == want[e] by {
            assert(x_trf.rows@[s]@[e] == x_trf.at(s, e));
            let from = s / 256 * 256 + e % 7680 / 120 * 4 + s % 4;
            assert(from / 4 * 120 + e % 120 == s / 256 * 7680 + e % 7680);
            assert(x.at(from, e % 120) == activation::<A>(given, s / 256 * 7680 + e % 7680));
        }
        assert(x_trf.rows@[s]@ =~= want);
    }

    let down_s: Dm<A::Num> = down_scales_bf16::<A>(ctx, down_weight_scale);
    let mut partial: Dm<A::Num> = fresh::<A>(15);
    down_tile::<A>(ctx, down_weight_packed, &x_trf, &down_s, &mut partial, 0, 10);
    down_tile::<A>(ctx, down_weight_packed, &x_trf, &down_s, &mut partial, 10, 5);
    assert forall|s: int, k: int| 0 <= s < SLICES && 0 <= k < 15 implies #[trigger] partial.at(s, k)
        == down_half::<A>(given, s / 256, down_row(s, k)) by {
        assert(partial.at(s, k) == down_part::<A>(down_weight_packed@, x_trf, down_s, s, k));
        let h = down_row(s, k);
        let scales = Seq::new(
            480,
            |b: int| A::bf16_of(down_weight_scale@[h * 960 + s / 256 * 480 + b]),
        );
        let got = down_s.rows@[s]@.subrange(k * 480, k * 480 + 480);
        assert forall|b: int| 0 <= b < 480 implies got[b] == scales[b] by {
            assert((k * 480 + b) / 480 == k && (k * 480 + b) % 480 == b);
            assert(got[b] == down_s.at(s, k * 480 + b));
        }
        assert(got =~= scales);
    }
    let out: Dm<A::Num> = reduce_halves::<A>(ctx, &partial, down_global_scale, up_global_scale);
    assert(ctx.log() =~= old(ctx).log() + feedforward_log());
    assert forall|s: int, e: int| 0 <= s < 8 && 0 <= e < 480 implies #[trigger] out.at(s, e)
        == feedforward_column::<A>(given, s * 480 + e) by {
        let h = s * 480 + e;
        let got = Seq::new(2, |c: int| half_at(partial, c, h));
        let want = Seq::new(2, |c: int| down_half::<A>(given, c, h));
        assert forall|c: int| 0 <= c < 2 implies got[c] == want[c] by {
            let at = c * 256 + h / 30 * 2 + h % 2;
            assert(at / 256 == c);
            assert(down_row(at, h % 30 / 2) == h);
            assert(partial.at(at, h % 30 / 2) == down_half::<A>(given, c, h));
        }
        assert(got =~= want);
    }
    assert(tail_columns(out) =~= Seq::new(3840, |h: int| feedforward_column::<A>(given, h)));
    assert(tail_columns(residual_spread) =~= residual@) by {
        let got = tail_columns(residual_spread);
        assert forall|h: int| 0 <= h < 3840 implies got[h] == residual@[h] by {
            assert(loaded(h / 480) && in_slot(h % 480, 0, 480));
        }
    }
    (out, residual_spread)
}

/// Column `h` of the post-norm, residual add and layer scale.
pub open spec fn post_norm_column<A: Arith>(
    x: Seq<A::Num>,
    weight: Seq<A::Num>,
    residual: Seq<A::Num>,
    scalar: A::Num,
    eps: A::Num,
    h: int,
) -> A::Num {
    A::bf16_of(
        A::mul_of(
            A::add_of(
                A::mul_of(A::div_of(x[h], rms::<A>(x, eps)), weight[h]),
                residual[h],
            ),
            scalar,
        ),
    )
}

/// The commands of `normalize_add_gate_in_place`.
pub open spec fn normalize_add_gate_log() -> Seq<Command> {
    seq![
        plain(Unit::Main, Buffer::Block, Buffer::MeanSquare(Stage::Post)),
        plain(Unit::Main, Buffer::MeanSquare(Stage::Post), Buffer::Rms(Stage::Post)),
        plain(Unit::Tdma, Buffer::PostNormWeight, Buffer::NormWeightDm),
        plain(Unit::Sub, Buffer::NormWeightDm, Buffer::NormWeightVrf(Stage::Post)),
        plain(Unit::Sub, Buffer::Rms(Stage::Post), Buffer::RmsVrf(Stage::Post)),
        plain(Unit::Sub, Buffer::Pool(0), Buffer::ResidualVrf),
        plain(Unit::Tdma, Buffer::LayerScalar, Buffer::ScalarDm),
        plain(Unit::Sub, Buffer::ScalarDm, Buffer::ScalarVrf),
        using(
            Unit::Main,
            Buffer::Block,
            Operands::Four(
                Buffer::RmsVrf(Stage::Post),
                Buffer::NormWeightVrf(Stage::Post),
                Buffer::ResidualVrf,
                Buffer::ScalarVrf,
            ),
            Buffer::Output,
        ),
    ]
}

/// Post-norm, residual add and layer scale in one pass, `(x / rms * w + r) * g`, rounded to `bf16`
/// once at the end. The residual is slot 0 of the pool that `feedforward` returned.
pub fn normalize_add_gate_in_place<A: Arith>(
    ctx: &mut Context,
    x: &Dm<A::Num>,
    rms_weight: &Vec<A::Num>,
    residual_dm: &Dm<A::Num>,
    layer_scalar: &A::Num,
    eps: &A::Num,
) -> (r: Dm<A::Num>)
    requires
        x.shaped(480),
        rms_weight@.len() == H,
        residual_dm.shaped(960),
    ensures
        final(ctx).log() == old(ctx).log() + normalize_add_gate_log(),
        r.shaped(480),
        tail_columns(r) == Seq::new(
            3840,
            |h: int|
                post_norm_column::<A>(
                    tail_columns(*x),
                    rms_weight@,
                    tail_columns(*residual_dm),
                    *layer_scalar,
                    *eps,
                    h,
                ),
        ),
{
    ctx.issue(Unit::Main, Buffer::Block, Buffer::MeanSquare(Stage::Post));
    let ms: Dm<A::Num> = mean_square_pass::<A>(x, 0, 480);
    ctx.issue(Unit::Main, Buffer::MeanSquare(Stage::Post), Buffer::Rms(Stage::Post));
    let root: Dm<A::Num> = rms_pass::<A>(&ms, eps);
    ctx.issue(Unit::Tdma, Buffer::PostNormWeight, Buffer::NormWeightDm);
    let weight: Dm<A::Num> = fill(
        480,
        |s: usize, e: usize| -> (r: A::Num)
            requires
                cell(s, e, 480),
            ensures
                8 > s ==> r == rms_weight@[s * 480 + e],
        {
            if s < 8 {
                A::dup(&rms_weight[s * 480 + e])
            } else {
                A::unset()
            }
        }
    );
    ctx.issue(Unit::Sub, Buffer::NormWeightDm, Buffer::NormWeightVrf(Stage::Post));
    ctx.issue(Unit::Sub, Buffer::Rms(Stage::Post), Buffer::RmsVrf(Stage::Post));
    ctx.issue(Unit::Sub, Buffer::Pool(0), Buffer::ResidualVrf);
    ctx.issue(Unit::Tdma, Buffer::LayerScalar, Buffer::ScalarDm);
    let scalar: Dm<A::Num> = tail_scalar::<A>(layer_scalar);
    ctx.issue(Unit::Sub, Buffer::ScalarDm, Buffer::ScalarVrf);
    ctx.issue_with(
        Unit::Main,
        Buffer::Block,
        Operands::Four(
            Buffer::RmsVrf(Stage::Post),
            Buffer::NormWeightVrf(Stage::Post),
            Buffer::ResidualVrf,
            Buffer::ScalarVrf,
        ),
        Buffer::Output,
    );
    let out: Dm<A::Num> = fill(
        480,
        |s: usize, e: usize| -> (r: A::Num)
            requires
                cell(s, e, 480),
            ensures
                r == A::bf16_of(
                    A::mul_of(
                        A::add_of(
                            A::mul_of(
                                A::div_of(x.at(s as int, e as int), root.at(s as int, 0)),
                                weight.at(s as int, e as int),
                            ),
                            residual_dm.at(s as int, e as int),
                        ),
                        scalar.at(s as int, 0),
                    ),
                ),
        {
            let scaled: A::Num = A::mul(&A::div(x.get(s, e), root.get(s, 0)), weight.get(s, e));
            A::bf16(&A::mul(&A::add(&scaled, residual_dm.get(s, e)), scalar.get(s, 0)))
        }
    );
    assert(ctx.log() =~= old(ctx).log() + normalize_add_gate_log());
    proof {
        let v = tail_columns(*x);
        assert forall|k: int| 0 <= k < 8 implies #[trigger] ms.at(k, 0) == mean_square::<A>(
            piece(v, k),
        ) by {
            let row = x.rows@[k]@.subrange(0, 480);
            assert forall|e: int| 0 <= e < 480 implies row[e] == piece(v, k)[e] by {
                assert((k * 480 + e) / 480 == k && (k * 480 + e) % 480 == e);
            }
            assert(row =~= piece(v, k));
        }
        assert forall|s: int, e: int| 0 <= s < 8 && 0 <= e < 480 implies #[trigger] out.at(s, e)
            == post_norm_column::<A>(
            v,
            rms_weight@,
            tail_columns(*residual_dm),
            *layer_scalar,
            *eps,
            s * 480 + e,
        ) by {
            assert(Seq::new(8, |k: int| ms.at(ring_member(s, 8, 1, k), 0)) =~= Seq::new(
                8,
                |p: int| mean_square::<A>(piece(v, p)),
            ));
            assert(root.at(s, 0) == rms::<A>(v, *eps));
            assert((s * 480 + e) / 480 == s && (s * 480 + e) % 480 == e);
        }
        assert(tail_columns(out) =~= Seq::new(
            3840,
            |h: int|
                post_norm_column::<A>(
                    v,
                    rms_weight@,
                    tail_columns(*residual_dm),
                    *layer_scalar,
                    *eps,
                    h,
                ),
        ));
    }
    out
}

} // verus!
