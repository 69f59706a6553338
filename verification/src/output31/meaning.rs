//! What the commands of the output projection mean, and what their stream computes.

use vstd::prelude::*;

use crate::arith::Arith;
use crate::context::{given, plain, Buffer, Command, Stage, Unit};
use crate::hidden::mean_square;
use crate::output31::order::law_output_keeps_arguments;
use crate::output31::{
    channel_scaled, eps_scaled, inv_rms, project_normalize_add_log, projected, projection, tail_row,
    x_scale,
};
use crate::quant::term;
use crate::run::{
    law_settled, law_step_local, listed, numbers, run, settled, side_by_side, step_of, stretch,
    Cells,
};
use crate::tensor::ring_member;

verus! {

/// What a command of the output projection writes, from what its source and its operands hold. Memory
/// that a command does not write is unknown.
pub open spec fn output_value<A: Arith>(
    eps: A::Num,
    c: Command,
    v: Cells<A::Num>,
    w: Seq<Cells<A::Num>>,
) -> Cells<A::Num> {
    match c.target {
        // The weight and the attention output: sixteen slices to a row group, 256 columns each.
        Buffer::WeightTile(offset) => numbers(
            |s: int, e: int|
                v.at(0, (s / 16 * 120 + offset + e / 256) * 4096 + s % 16 * 256 + e % 256),
        ),
        Buffer::Columns => numbers(|s: int, e: int| v.at(0, s % 16 * 256 + e)),
        // Two levels.
        Buffer::Term(_, 0) => numbers(
            |s: int, e: int| A::f8_of(A::mul_of(v.at(s, e), x_scale::<A>())),
        ),
        Buffer::Term(_, _) => numbers(
            |s: int, e: int|
                A::f8_of(A::sub_of(A::mul_of(v.at(s, e), x_scale::<A>()), w[0].at(s, e))),
        ),
        Buffer::ActivationTrf(_) => numbers(
            |s: int, e: int| side_by_side(v, w[0], 256, s, e),
        ),
        // The rows of a tile end in the first slice of every sixteen.
        Buffer::Projected(_) => numbers(
            |s: int, k: int|
                if s % 16 == 0 {
                    A::bf16_of(A::sum_of(Seq::new(16, |j: int| both_levels::<A>(v, w[0], s + j, k))))
                } else {
                    arbitrary()
                },
        ),
        Buffer::Hop => numbers(
            |s: int, h: int| side_by_side(v, w[0], 104, h / 120 * 16, h % 120),
        ),
        // The tail runs on sixteen slices.
        Buffer::Pool(_) => in_tail(v),
        Buffer::Tail => in_tail(v),
        Buffer::MeanSquare(_) => numbers(
            |s: int, e: int|
                mean_square::<A>(Seq::new(240, |i: int| A::mul_of(v.at(s, i), w[0].at(s, i)))),
        ),
        Buffer::InvRms => numbers(
            |s: int, e: int|
                {
                    let t = A::add_of(
                        A::sum_of(Seq::new(16, |k: int| v.at(ring_member(s, 16, 1, k), 0))),
                        eps_scaled::<A>(eps),
                    );
                    A::div_of(A::sqrt_of(t), t)
                },
        ),
        Buffer::Output => numbers(
            |s: int, e: int|
                A::bf16_of(
                    A::add_of(
                        A::mul_of(
                            A::mul_of(A::mul_of(v.at(s, e), w[0].at(s, e)), w[1].at(s, e)),
                            w[2].at(s, 0),
                        ),
                        w[3].at(s, e),
                    ),
                ),
        ),
        Buffer::Residual => numbers(|s: int, h: int| v.at(h / 240, h % 240)),
        // A read into a register file.
        _ => v,
    }
}

/// Row `k` of a tile in slice `s`: its 256 columns against both levels.
pub open spec fn both_levels<A: Arith>(
    tile: Cells<A::Num>,
    levels: Cells<A::Num>,
    s: int,
    k: int,
) -> A::Num {
    A::sum_of(
        Seq::new(
            2,
            |l: int|
                A::dot_of(stretch(tile, s, k * 256, 256), stretch(levels, s, l * 256, 256)),
        ),
    )
}

/// Rows of device memory, 240 to each of the sixteen slices of the tail.
pub open spec fn in_tail<N>(v: Cells<N>) -> Cells<N> {
    numbers(
        |s: int, e: int|
            if s < 16 {
                v.at(0, s * 240 + e)
            } else {
                arbitrary()
            },
    )
}

/// The step of the output projection.
pub open spec fn output_step<A: Arith>(eps: A::Num) -> spec_fn(
    Command,
    spec_fn(Buffer) -> Cells<A::Num>,
) -> Cells<A::Num> {
    step_of(
        |c: Command, v: Cells<A::Num>, w: Seq<Cells<A::Num>>| output_value::<A>(eps, c, v, w),
    )
}

/// The stream up to the store at the end.
spec fn front_log() -> Seq<Command> {
    project_normalize_add_log().drop_last()
}

/// The rows of a tile that starts at row `offset` of every row group are rows of the projection.
proof fn lemma_tile<A: Arith>(
    x: Seq<A::Num>,
    weight: Cells<A::Num>,
    tile: Cells<A::Num>,
    levels: Cells<A::Num>,
    offset: int,
    s: int,
    k: int,
)
    requires
        x.len() == 4096,
        forall|i: int, e: int|
            0 <= i < 512 && 0 <= e < 512 ==> #[trigger] levels.at(i, e) == term::<A>(
                x[i % 16 * 256 + e % 256],
                x_scale::<A>(),
                e / 256,
            ),
        forall|i: int, e: int|
            #[trigger] tile.at(i, e) == weight.at(
                0,
                (i / 16 * 120 + offset + e / 256) * 4096 + i % 16 * 256 + e % 256,
            ),
        0 <= s < 512,
        s % 16 == 0,
        0 <= offset,
        0 <= k,
        offset + k < 120,
    ensures
        A::bf16_of(A::sum_of(Seq::new(16, |j: int| both_levels::<A>(tile, levels, s + j, k))))
            == projected::<A>(listed(weight, 15_728_640), x, s / 16 * 120 + offset + k),
{
    let h = s / 16 * 120 + offset + k;
    let all = listed(weight, 15_728_640);
    let want = Seq::new(
        16,
        |j: int|
            A::sum_of(
                Seq::new(
                    2,
                    |l: int|
                        A::dot_of(
                            all.subrange(h * 4096 + j * 256, h * 4096 + j * 256 + 256),
                            Seq::new(256, |q: int| term::<A>(x[j * 256 + q], x_scale::<A>(), l)),
                        ),
                ),
            ),
    );
    let got = Seq::new(16, |j: int| both_levels::<A>(tile, levels, s + j, k));
    assert forall|j: int| 0 <= j < 16 implies got[j] == want[j] by {
        let i = s + j;
        assert(i / 16 == s / 16 && i % 16 == j);
        let row = stretch(tile, i, k * 256, 256);
        let there = all.subrange(h * 4096 + j * 256, h * 4096 + j * 256 + 256);
        assert forall|q: int| 0 <= q < 256 implies row[q] == there[q] by {
            assert((k * 256 + q) / 256 == k && (k * 256 + q) % 256 == q);
            assert(row[q] == tile.at(i, k * 256 + q));
        }
        assert(row =~= there);
        let lanes = Seq::new(2, |l: int| A::dot_of(row, stretch(levels, i, l * 256, 256)));
        let wanted = Seq::new(
            2,
            |l: int|
                A::dot_of(
                    there,
                    Seq::new(256, |q: int| term::<A>(x[j * 256 + q], x_scale::<A>(), l)),
                ),
        );
        assert forall|l: int| 0 <= l < 2 implies lanes[l] == wanted[l] by {
            let lane = stretch(levels, i, l * 256, 256);
            let terms = Seq::new(256, |q: int| term::<A>(x[j * 256 + q], x_scale::<A>(), l));
            assert forall|q: int| 0 <= q < 256 implies lane[q] == terms[q] by {
                assert((l * 256 + q) / 256 == l && (l * 256 + q) % 256 == q);
                assert(lane[q] == levels.at(i, l * 256 + q));
            }
            assert(lane =~= terms);
        }
        assert(lanes =~= wanted);
    }
    assert(got =~= want);
}

/// The projected rows arrive in device memory in row order.
proof fn lemma_hop<A: Arith>(eps: A::Num, m: spec_fn(Buffer) -> Cells<A::Num>, h: int)
    requires
        settled(output_step::<A>(eps), m, front_log()),
        0 <= h < 3840,
    ensures
        m(Buffer::Hop).at(0, h) == projected::<A>(
            listed(m(Buffer::OutputWeight), 15_728_640),
            listed(m(Buffer::Attention), 4096),
            h,
        ),
{
    let log = front_log();
    assert(log[0] == plain(Unit::Tdma, Buffer::OutputWeight, Buffer::WeightTile(0)));
    assert(log[1] == plain(Unit::Tdma, Buffer::OutputWeight, Buffer::WeightTile(104)));
    assert(log[2].target == Buffer::Columns);
    assert(log[3].target == Buffer::Term(Stage::Attention, 0));
    assert(log[4].target == Buffer::TermVrf(Stage::Attention));
    assert(log[5].target == Buffer::Term(Stage::Attention, 1));
    assert(log[6].target == Buffer::ActivationTrf(Stage::Attention));
    assert(log[7].target == Buffer::Projected(0));
    assert(log[8].target == Buffer::Projected(104));
    assert(log[11].target == Buffer::Hop);
    let x = listed(m(Buffer::Attention), 4096);
    let levels = m(Buffer::ActivationTrf(Stage::Attention));
    assert forall|i: int, e: int| 0 <= i < 512 && 0 <= e < 512 implies #[trigger] levels.at(i, e)
        == term::<A>(x[i % 16 * 256 + e % 256], x_scale::<A>(), e / 256) by {
        assert(e < 256 ==> e % 256 == e && e / 256 == 0);
        assert(e >= 256 ==> e % 256 == e - 256 && e / 256 == 1);
    }
    let weight = m(Buffer::OutputWeight);
    let s = h / 120 * 16;
    let k = h % 120;
    assert(s / 16 * 120 + k == h);
    if k < 104 {
        lemma_tile::<A>(x, weight, m(Buffer::WeightTile(0)), levels, 0, s, k);
    } else {
        lemma_tile::<A>(x, weight, m(Buffer::WeightTile(104)), levels, 104, s, k - 104);
    }
}

/// Row `e` of slice `s` of the tail.
proof fn lemma_output<A: Arith>(eps: A::Num, m: spec_fn(Buffer) -> Cells<A::Num>, h: int)
    requires
        settled(output_step::<A>(eps), m, front_log()),
        0 <= h < 3840,
    ensures
        m(Buffer::Output).at(h / 240, h % 240) == tail_row::<A>(
            projection::<A>(
                listed(m(Buffer::OutputWeight), 15_728_640),
                listed(m(Buffer::Attention), 4096),
            ),
            listed(m(Buffer::ChannelScale), 3840),
            listed(m(Buffer::NormWeight), 3840),
            listed(m(Buffer::Residual), 3840),
            eps,
            h,
        ),
{
    let log = front_log();
    assert(log[9].target == Buffer::Pool(0));
    assert(log[10].target == Buffer::PoolVrf(0));
    assert(log[12].target == Buffer::Pool(1));
    assert(log[13].target == Buffer::PoolVrf(1));
    assert(log[14].target == Buffer::Pool(2));
    assert(log[15].target == Buffer::PoolVrf(2));
    assert(log[16].target == Buffer::Tail);
    assert(log[17].target == Buffer::MeanSquare(Stage::Attention));
    assert(log[18].target == Buffer::InvRms);
    assert(log[19].target == Buffer::InvRmsVrf);
    assert(log[20].target == Buffer::Output);
    let all = projection::<A>(
        listed(m(Buffer::OutputWeight), 15_728_640),
        listed(m(Buffer::Attention), 4096),
    );
    let scale = listed(m(Buffer::ChannelScale), 3840);
    let y = channel_scaled::<A>(all, scale);
    let tail = m(Buffer::Tail);
    let scales = m(Buffer::PoolVrf(1));
    assert forall|s: int, e: int| 0 <= s < 16 && 0 <= e < 240 implies #[trigger] tail.at(s, e)
        == all[s * 240 + e] by {
        lemma_hop::<A>(eps, m, s * 240 + e);
    }
    let partial = m(Buffer::MeanSquare(Stage::Attention));
    assert forall|g: int| 0 <= g < 16 implies #[trigger] partial.at(g, 0) == mean_square::<A>(
        y.subrange(g * 240, g * 240 + 240),
    ) by {
        let got = Seq::new(240, |e: int| A::mul_of(tail.at(g, e), scales.at(g, e)));
        let want = y.subrange(g * 240, g * 240 + 240);
        assert forall|e: int| 0 <= e < 240 implies got[e] == want[e] by {
            assert(tail.at(g, e) == all[g * 240 + e]);
        }
        assert(got =~= want);
    }
    let s = h / 240;
    let e = h % 240;
    assert(Seq::new(16, |k: int| partial.at(ring_member(s, 16, 1, k), 0)) =~= Seq::new(
        16,
        |g: int| mean_square::<A>(y.subrange(g * 240, g * 240 + 240)),
    ));
    assert(m(Buffer::InvRmsVrf).at(s, 0) == inv_rms::<A>(y, eps));
    assert(tail.at(s, e) == all[h]);
    assert(s * 240 + e == h);
}

/// The stream of `project_normalize_add` computes what the kernel computes: run on any memory, its
/// commands leave the normalized rows, added to the residual, where the residual was.
pub proof fn law_output_run<A: Arith>(eps: A::Num, memory: spec_fn(Buffer) -> Cells<A::Num>)
    ensures
        listed(
            run(output_step::<A>(eps), memory, project_normalize_add_log())(Buffer::Residual),
            3840,
        ) == Seq::new(
            3840,
            |h: int|
                tail_row::<A>(
                    projection::<A>(
                        listed(memory(Buffer::OutputWeight), 15_728_640),
                        listed(memory(Buffer::Attention), 4096),
                    ),
                    listed(memory(Buffer::ChannelScale), 3840),
                    listed(memory(Buffer::NormWeight), 3840),
                    listed(memory(Buffer::Residual), 3840),
                    eps,
                    h,
                ),
        ),
{
    let step = output_step::<A>(eps);
    let log = project_normalize_add_log();
    let front = front_log();
    let ready = |b: Buffer| given(b);
    let m = run(step, memory, front);
    law_step_local(
        |c: Command, v: Cells<A::Num>, w: Seq<Cells<A::Num>>| output_value::<A>(eps, c, v, w),
    );
    law_output_keeps_arguments();
    law_settled(step, memory, front, ready);
    assert(given(Buffer::OutputWeight) && given(Buffer::Attention) && given(Buffer::ChannelScale)
        && given(Buffer::NormWeight) && given(Buffer::Residual));
    assert(log.len() == 22);
    assert(log.last() == plain(Unit::Tdma, Buffer::Output, Buffer::Residual));
    let got = listed(run(step, memory, log)(Buffer::Residual), 3840);
    let want = Seq::new(
        3840,
        |h: int|
            tail_row::<A>(
                projection::<A>(
                    listed(memory(Buffer::OutputWeight), 15_728_640),
                    listed(memory(Buffer::Attention), 4096),
                ),
                listed(memory(Buffer::ChannelScale), 3840),
                listed(memory(Buffer::NormWeight), 3840),
                listed(memory(Buffer::Residual), 3840),
                eps,
                h,
            ),
    );
    assert forall|h: int| 0 <= h < 3840 implies got[h] == want[h] by {
        lemma_output::<A>(eps, m, h);
    }
    assert(got =~= want);
}

} // verus!
