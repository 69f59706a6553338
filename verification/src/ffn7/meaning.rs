//! What the commands of the feed-forward block and of the post-norm mean, and what their streams
//! compute.

use vstd::prelude::*;

use crate::arith::Arith;
use crate::context::{
    given, plain, using, writes, Buffer, Command, Matrix, Operands, Stage, Unit,
};
use crate::ffn7::blocks::{
    block_sum, down_row, down_tile_log, lemma_block_sum_moved, row_product, scales_log,
};
use crate::ffn7::gate::{
    down_gain, gate_erf_factor, gate_factor_log, gated, geglu_divisor, geglu_log, gelu,
    quantize_gather_log, regroup_log,
};
use crate::ffn7::norm::{loaded, normalize_quantize_log, normalized, piece, rms, up_gain};
use crate::ffn7::order::{
    law_layer_flows, law_layer_keeps_arguments, law_layer_writes_once, lemma_normalize_add_gate,
};
use crate::ffn7::{
    activation, activation_lanes, down_half, feedforward_column, feedforward_log, gate_row,
    hidden_lanes, joined, normalize_add_gate_log, post_norm_column, project_log,
    reduce_halves_log, up_row, FeedForwardInputs,
};
use crate::hidden::mean_square;
use crate::quant::term;
use crate::run::{
    codes, law_run_joined, law_settled, law_settled_parts, law_step_local, listed, numbers, run,
    settled, side_by_side, step_of, stretch, Cells,
};
use crate::tensor::ring_member;

verus! {

/// The gain before a split into terms.
pub open spec fn gain_at<A: Arith>(stage: Stage) -> A::Num {
    match stage {
        Stage::Gated => down_gain::<A>(),
        _ => up_gain::<A>(),
    }
}

/// What a command of the feed-forward block or of the post-norm writes, from what its source and its
/// operands hold. Memory that a command does not write is unknown.
pub open spec fn layer_value<A: Arith>(
    eps: A::Num,
    c: Command,
    v: Cells<A::Num>,
    w: Seq<Cells<A::Num>>,
) -> Cells<A::Num> {
    match c.target {
        // Normalization. A load reaches the first ring of every four.
        Buffer::Pool(_) => numbers(
            |s: int, e: int|
                if loaded(s) {
                    v.at(0, s % 8 * 480 + e)
                } else {
                    arbitrary()
                },
        ),
        Buffer::MeanSquare(_) => numbers(|s: int, e: int| mean_square::<A>(v.row(s, 480))),
        Buffer::Rms(_) => numbers(
            |s: int, e: int|
                A::sqrt_of(
                    A::add_of(
                        A::sum_of(Seq::new(8, |k: int| v.at(ring_member(s, 8, 1, k), 0))),
                        eps,
                    ),
                ),
        ),
        Buffer::Normalized => numbers(
            |s: int, e: int|
                A::bf16_of(A::mul_of(A::div_of(v.at(s, e), w[0].at(s, 0)), w[1].at(s, e))),
        ),
        // An activation as two terms, handed to the slices that need it.
        Buffer::Term(stage, 0) => numbers(
            |s: int, e: int| A::f8_of(A::mul_of(v.at(s, e), gain_at::<A>(stage))),
        ),
        Buffer::Term(stage, _) => numbers(
            |s: int, e: int|
                A::f8_of(A::sub_of(A::mul_of(v.at(s, e), gain_at::<A>(stage)), w[0].at(s, e))),
        ),
        Buffer::Spread => numbers(
            |s: int, e: int|
                side_by_side(v, w[0], 480, ring_member(s, 4, 8, e / 960), e % 960),
        ),
        Buffer::Gathered(Stage::Gated) => numbers(
            |s: int, e: int|
                side_by_side(
                    v,
                    w[0],
                    120,
                    ring_member(s, 64, 4, e % 7680 / 120),
                    e / 7680 * 120 + e % 120,
                ),
        ),
        Buffer::Gathered(_) => numbers(
            |s: int, e: int|
                v.at(ring_member(s, 8, 1, e % 3840 / 480), e / 3840 * 480 + e % 480),
        ),
        // Block-scaled products.
        Buffer::Packed(Matrix::Down, start) => codes(
            |s: int, e: int|
                v.code(
                    0,
                    down_row(s, start + e / 7680) * 15_360 + s / 256 * 7680 + e % 7680,
                ),
        ),
        Buffer::Packed(_, _) => codes(|s: int, e: int| v.code(0, s * 115_200 + e)),
        Buffer::BlockSums(Matrix::Down, _) => numbers(
            |s: int, e: int|
                block_sum::<A>(
                    v.code_row(s, 115_200),
                    e / 480 * 7680,
                    w[0].row(s, 15_360),
                    7680,
                    e % 480,
                ),
        ),
        Buffer::BlockSums(_, _) => numbers(
            |s: int, e: int|
                block_sum::<A>(
                    v.code_row(s, 115_200),
                    e / 240 * 3840,
                    w[0].row(s, 7680),
                    3840,
                    e % 240,
                ),
        ),
        Buffer::ScaleF8(Matrix::Down) => numbers(
            |s: int, e: int| v.at(0, down_row(s, e / 480) * 960 + s / 256 * 480 + e % 480),
        ),
        Buffer::ScaleF8(_) => numbers(|s: int, e: int| v.at(0, s * 7200 + e)),
        Buffer::Scale(_) => numbers(|s: int, e: int| A::bf16_of(v.at(s, e))),
        Buffer::ScaleTrf(_, start) => numbers(|s: int, e: int| v.at(s, start * 480 + e)),
        Buffer::Product(Matrix::Down, _) => numbers(
            |s: int, r: int| A::dot_of(stretch(v, s, r * 480, 480), stretch(w[0], s, r * 480, 480)),
        ),
        Buffer::Product(_, _) => numbers(
            |s: int, r: int| A::dot_of(stretch(v, s, r * 240, 240), stretch(w[0], s, r * 240, 240)),
        ),
        Buffer::Grouped(_) => numbers(
            |s: int, e: int| v.at(ring_member(s, 4, 1, e / 30), e % 30),
        ),
        // The gated activation.
        Buffer::FactorDm => numbers(
            |s: int, e: int|
                if s % 4 == 0 {
                    v.at(0, 0)
                } else {
                    arbitrary()
                },
        ),
        Buffer::Factor => numbers(
            |s: int, e: int| A::mul_of(v.at(ring_member(s, 4, 1, e), 0), gate_erf_factor::<A>()),
        ),
        Buffer::Gelu => numbers(|s: int, e: int| gelu::<A>(v.at(s, e), w[0].at(s, 0))),
        Buffer::Gated => numbers(
            |s: int, e: int|
                A::bf16_of(
                    A::div_of(A::mul_of(v.at(s, e), w[0].at(s, e)), geglu_divisor::<A>()),
                ),
        ),
        // The two clusters' halves meet in device memory, and the tail runs on eight slices.
        Buffer::Paired => numbers(
            |s: int, e: int|
                if s % 2 == 0 && e < 30 {
                    side_by_side(v, w[0], 10, ring_member(s, 2, 1, e % 2), e / 2)
                } else {
                    arbitrary()
                },
        ),
        Buffer::Meeting => numbers(
            |s: int, e: int| v.at(e / 8192 * 256 + e % 8192 / 64 * 2, e % 64),
        ),
        Buffer::Halves => numbers(
            |s: int, e: int|
                if s < 8 {
                    v.at(0, e / 480 * 8192 + (s * 16 + e % 480 / 30) * 64 + e % 30)
                } else {
                    arbitrary()
                },
        ),
        Buffer::GlobalDm(_) => tail_scalar(v),
        Buffer::Block => numbers(
            |s: int, e: int|
                joined::<A>(
                    Seq::new(2, |c: int| v.at(s, c * 480 + e)),
                    w[0].at(s, 0),
                    w[1].at(s, 0),
                ),
        ),
        // The post-norm.
        Buffer::NormWeightDm => numbers(
            |s: int, e: int|
                if s < 8 {
                    v.at(0, s * 480 + e)
                } else {
                    arbitrary()
                },
        ),
        Buffer::ScalarDm => tail_scalar(v),
        Buffer::Output => numbers(
            |s: int, e: int|
                A::bf16_of(
                    A::mul_of(
                        A::add_of(
                            A::mul_of(A::div_of(v.at(s, e), w[0].at(s, 0)), w[1].at(s, e)),
                            w[2].at(s, e),
                        ),
                        w[3].at(s, 0),
                    ),
                ),
        ),
        // A read into a register file, and the warm-up.
        _ => v,
    }
}

/// A scalar of device memory in the eight slices of the tail.
pub open spec fn tail_scalar<N>(v: Cells<N>) -> Cells<N> {
    numbers(
        |s: int, e: int|
            if s < 8 {
                v.at(0, 0)
            } else {
                arbitrary()
            },
    )
}

/// The step of the feed-forward block and of the post-norm.
pub open spec fn layer_step<A: Arith>(eps: A::Num) -> spec_fn(
    Command,
    spec_fn(Buffer) -> Cells<A::Num>,
) -> Cells<A::Num> {
    step_of(
        |c: Command, v: Cells<A::Num>, w: Seq<Cells<A::Num>>| layer_value::<A>(eps, c, v, w),
    )
}

/// Both lanes of every slice hold the terms of the normalized hidden state.
proof fn lemma_norm<A: Arith>(eps: A::Num, m: spec_fn(Buffer) -> Cells<A::Num>)
    requires
        settled(layer_step::<A>(eps), m, normalize_quantize_log()),
    ensures
        forall|s: int, e: int|
            0 <= s < 512 && 0 <= e < 7680 ==> #[trigger] m(
                Buffer::ActivationTrf(Stage::Pre),
            ).at(s, e) == term::<A>(
                normalized::<A>(
                    listed(m(Buffer::Hidden), 3840),
                    listed(m(Buffer::NormWeight), 3840),
                    eps,
                    e % 3840,
                ),
                up_gain::<A>(),
                e / 3840,
            ),
{
    let log = normalize_quantize_log();
    let x = listed(m(Buffer::Hidden), 3840);
    let w = listed(m(Buffer::NormWeight), 3840);
    assert(log[1] == plain(Unit::Tdma, Buffer::NormWeight, Buffer::Pool(1)));
    assert(log[2] == plain(Unit::Tdma, Buffer::Hidden, Buffer::Pool(0)));
    assert(log[3] == plain(Unit::Main, Buffer::Pool(0), Buffer::MeanSquare(Stage::Pre)));
    assert(log[4] == plain(Unit::Main, Buffer::MeanSquare(Stage::Pre), Buffer::Rms(Stage::Pre)));
    assert(log[5] == plain(Unit::Sub, Buffer::Pool(1), Buffer::NormWeightVrf(Stage::Pre)));
    assert(log[6] == plain(Unit::Sub, Buffer::Rms(Stage::Pre), Buffer::RmsVrf(Stage::Pre)));
    assert(log[7].target == Buffer::Normalized);
    let ms = m(Buffer::MeanSquare(Stage::Pre));
    assert forall|s: int| 0 <= s < 512 && loaded(s) implies #[trigger] ms.at(s, 0)
        == mean_square::<A>(piece(x, s % 8)) by {
        assert(m(Buffer::Pool(0)).row(s, 480) =~= piece(x, s % 8));
    }
    let root = m(Buffer::RmsVrf(Stage::Pre));
    assert forall|s: int| 0 <= s < 512 && loaded(s) implies #[trigger] root.at(s, 0) == rms::<A>(
        x,
        eps,
    ) by {
        assert forall|k: int| 0 <= k < 8 implies #[trigger] ms.at(ring_member(s, 8, 1, k), 0)
            == mean_square::<A>(piece(x, k)) by {
            assert(loaded(s / 8 * 8 + k));
            assert((s / 8 * 8 + k) % 8 == k);
        }
        assert(Seq::new(8, |k: int| ms.at(ring_member(s, 8, 1, k), 0)) =~= Seq::new(
            8,
            |p: int| mean_square::<A>(piece(x, p)),
        ));
    }
    let norm = m(Buffer::Normalized);
    assert forall|s: int, e: int| 0 <= s < 512 && loaded(s) && 0 <= e < 480 implies
        #[trigger] norm.at(s, e) == normalized::<A>(x, w, eps, s % 8 * 480 + e) by {
        assert(root.at(s, 0) == rms::<A>(x, eps));
    }
    assert(log[8] == plain(Unit::Main, Buffer::Normalized, Buffer::Term(Stage::Pre, 0)));
    assert(log[9].target == Buffer::TermVrf(Stage::Pre));
    assert(log[10].target == Buffer::Term(Stage::Pre, 1));
    assert(log[11].target == Buffer::Spread);
    assert(log[12].target == Buffer::Gathered(Stage::Pre));
    assert(log[13].target == Buffer::ActivationTrf(Stage::Pre));
    assert forall|s: int, e: int| 0 <= s < 512 && 0 <= e < 7680 implies #[trigger] m(
        Buffer::ActivationTrf(Stage::Pre),
    ).at(s, e) == term::<A>(normalized::<A>(x, w, eps, e % 3840), up_gain::<A>(), e / 3840) by {
        let ring = s / 8 * 8 + e % 3840 / 480;
        let word = e / 3840 * 480 + e % 480;
        let live = s / 32 * 32 + e % 3840 / 480;
        assert(ring / 32 == s / 32 && ring % 8 == e % 3840 / 480);
        assert(0 <= word < 960 && word / 960 == 0 && word % 960 == word);
        assert(loaded(live) && live % 8 == e % 3840 / 480);
        assert(norm.at(live, e % 480) == normalized::<A>(x, w, eps, e % 3840));
        assert(m(Buffer::Spread).at(ring, word) == side_by_side(
            m(Buffer::Term(Stage::Pre, 0)),
            m(Buffer::Term(Stage::Pre, 1)),
            480,
            live,
            word,
        ));
    }
}

/// Row `r` of the thirty rows of slice `s` of a projection.
proof fn lemma_projection_row<A: Arith>(
    eps: A::Num,
    m: spec_fn(Buffer) -> Cells<A::Num>,
    matrix: Matrix,
    lanes: Seq<A::Num>,
    s: int,
    r: int,
)
    requires
        settled(layer_step::<A>(eps), m, project_log(matrix)),
        matrix != Matrix::Down,
        m(Buffer::ActivationTrf(Stage::Pre)).row(s, 7680) == lanes,
        0 <= s < 512,
        0 <= r < 30,
    ensures
        m(Buffer::Product(matrix, 0)).at(s, r) == row_product::<A>(
            m(Buffer::Weight(matrix)).code_row(0, 58_982_400),
            (s * 30 + r) * 3840,
            listed(m(Buffer::BlockScale(matrix)), 3_686_400),
            (s * 30 + r) * 240,
            lanes,
            3840,
        ),
{
    let log = project_log(matrix);
    assert(log[0] == plain(Unit::Tdma, Buffer::Weight(matrix), Buffer::Packed(matrix, 0)));
    assert(log[1] == using(
        Unit::Main,
        Buffer::Packed(matrix, 0),
        Operands::One(Buffer::ActivationTrf(Stage::Pre)),
        Buffer::BlockSums(matrix, 0),
    ));
    assert(log[2] == plain(Unit::Tdma, Buffer::BlockScale(matrix), Buffer::ScaleF8(matrix)));
    assert(log[3] == plain(Unit::Sub, Buffer::ScaleF8(matrix), Buffer::Scale(matrix)));
    assert(log[4] == plain(Unit::Sub, Buffer::Scale(matrix), Buffer::ScaleTrf(matrix, 0)));
    assert(log[5] == using(
        Unit::Main,
        Buffer::BlockSums(matrix, 0),
        Operands::One(Buffer::ScaleTrf(matrix, 0)),
        Buffer::Product(matrix, 0),
    ));
    let all = m(Buffer::Weight(matrix)).code_row(0, 58_982_400);
    let mine = m(Buffer::Packed(matrix, 0)).code_row(s, 115_200);
    let first = (s * 30 + r) * 3840;
    assert(mine.subrange(r * 3840, r * 3840 + 3840) =~= all.subrange(first, first + 3840));
    let got = stretch(m(Buffer::BlockSums(matrix, 0)), s, r * 240, 240);
    let want = Seq::new(240, |b: int| block_sum::<A>(all, first, lanes, 3840, b));
    assert forall|b: int| 0 <= b < 240 implies got[b] == want[b] by {
        assert((r * 240 + b) / 240 == r && (r * 240 + b) % 240 == b);
        lemma_block_sum_moved::<A>(mine, r * 3840, all, first, lanes, 3840, b);
    }
    assert(got =~= want);
    let scales = listed(m(Buffer::BlockScale(matrix)), 3_686_400);
    assert(stretch(m(Buffer::ScaleTrf(matrix, 0)), s, r * 240, 240) =~= Seq::new(
        240,
        |b: int| A::bf16_of(scales[(s * 30 + r) * 240 + b]),
    ));
}

/// Every slice of a group of four holds the gated activation of the 120 rows of the group.
proof fn lemma_gated<A: Arith>(
    eps: A::Num,
    m: spec_fn(Buffer) -> Cells<A::Num>,
    up: Seq<A::Num>,
    gate: Seq<A::Num>,
)
    requires
        settled(layer_step::<A>(eps), m, regroup_log()),
        settled(layer_step::<A>(eps), m, gate_factor_log()),
        settled(layer_step::<A>(eps), m, geglu_log()),
        forall|s: int, r: int|
            0 <= s < 512 && 0 <= r < 30 ==> #[trigger] m(Buffer::Product(Matrix::Up, 0)).at(s, r)
                == up[s * 30 + r],
        forall|s: int, r: int|
            0 <= s < 512 && 0 <= r < 30 ==> #[trigger] m(Buffer::Product(Matrix::Gate, 0)).at(s, r)
                == gate[s * 30 + r],
    ensures
        forall|s: int, e: int|
            0 <= s < 512 && 0 <= e < 120 ==> #[trigger] m(Buffer::Gated).at(s, e) == gated::<A>(
                up[s / 4 * 120 + e],
                gate[s / 4 * 120 + e],
                A::mul_of(
                    m(Buffer::GlobalScale(Matrix::Gate)).at(0, 0),
                    gate_erf_factor::<A>(),
                ),
            ),
{
    let groups = regroup_log();
    assert(groups[0].target == Buffer::Grouped(Matrix::Up));
    assert(groups[1].target == Buffer::Grouped(Matrix::Gate));
    let factors = gate_factor_log();
    assert(factors[0].target == Buffer::FactorDm);
    assert(factors[1].target == Buffer::Factor);
    assert(factors[2].target == Buffer::FactorVrf);
    let passes = geglu_log();
    assert(passes[0].target == Buffer::Gelu);
    assert(passes[1].target == Buffer::GeluVrf);
    assert(passes[2].target == Buffer::Gated);
    assert forall|s: int, e: int| 0 <= s < 512 && 0 <= e < 120 implies #[trigger] m(
        Buffer::Gated,
    ).at(s, e) == gated::<A>(
        up[s / 4 * 120 + e],
        gate[s / 4 * 120 + e],
        A::mul_of(m(Buffer::GlobalScale(Matrix::Gate)).at(0, 0), gate_erf_factor::<A>()),
    ) by {
        let from = s / 4 * 4 + e / 30;
        assert(from * 30 + e % 30 == s / 4 * 120 + e);
        assert(m(Buffer::Product(Matrix::Up, 0)).at(from, e % 30) == up[from * 30 + e % 30]);
        assert(m(Buffer::Product(Matrix::Gate, 0)).at(from, e % 30) == gate[from * 30 + e % 30]);
        assert((s / 4 * 4) % 4 == 0);
        assert(m(Buffer::Factor).at(s, 0) == A::mul_of(
            m(Buffer::GlobalScale(Matrix::Gate)).at(0, 0),
            gate_erf_factor::<A>(),
        ));
    }
}

/// Both lanes of every slice of a cluster hold the terms of the cluster's gated activation.
proof fn lemma_gathered<A: Arith>(
    eps: A::Num,
    m: spec_fn(Buffer) -> Cells<A::Num>,
    act: Seq<A::Num>,
)
    requires
        settled(layer_step::<A>(eps), m, quantize_gather_log()),
        forall|s: int, e: int|
            0 <= s < 512 && 0 <= e < 120 ==> #[trigger] m(Buffer::Gated).at(s, e) == act[s / 4 * 120
                + e],
    ensures
        forall|s: int, e: int|
            0 <= s < 512 && 0 <= e < 15_360 ==> #[trigger] m(
                Buffer::ActivationTrf(Stage::Gated),
            ).at(s, e) == term::<A>(
                act[s / 256 * 7680 + e % 7680],
                down_gain::<A>(),
                e / 7680,
            ),
{
    let log = quantize_gather_log();
    assert(log[0].target == Buffer::Term(Stage::Gated, 0));
    assert(log[1].target == Buffer::TermVrf(Stage::Gated));
    assert(log[2].target == Buffer::Term(Stage::Gated, 1));
    assert(log[3].target == Buffer::Gathered(Stage::Gated));
    assert(log[4].target == Buffer::ActivationTrf(Stage::Gated));
    assert forall|s: int, e: int| 0 <= s < 512 && 0 <= e < 15_360 implies #[trigger] m(
        Buffer::ActivationTrf(Stage::Gated),
    ).at(s, e) == term::<A>(act[s / 256 * 7680 + e % 7680], down_gain::<A>(), e / 7680) by {
        let from = s / 256 * 256 + e % 7680 / 120 * 4 + s % 4;
        assert(from / 4 * 120 + e % 120 == s / 256 * 7680 + e % 7680);
        assert(m(Buffer::Gated).at(from, e % 120) == act[from / 4 * 120 + e % 120]);
        assert(m(Buffer::Gathered(Stage::Gated)).at(s, e) == side_by_side(
            m(Buffer::Term(Stage::Gated, 0)),
            m(Buffer::Term(Stage::Gated, 1)),
            120,
            from,
            e / 7680 * 120 + e % 120,
        ));
    }
}

/// Row `k` of the tile of the down projection that starts at row `start`, in slice `s`.
proof fn lemma_down_row<A: Arith>(
    eps: A::Num,
    m: spec_fn(Buffer) -> Cells<A::Num>,
    start: usize,
    lanes: Seq<A::Num>,
    s: int,
    k: int,
)
    requires
        settled(layer_step::<A>(eps), m, scales_log(Matrix::Down)),
        settled(layer_step::<A>(eps), m, down_tile_log(start)),
        m(Buffer::ActivationTrf(Stage::Gated)).row(s, 15_360) == lanes,
        0 <= s < 512,
        0 <= k,
        start + k < 15,
    ensures
        m(Buffer::Product(Matrix::Down, start)).at(s, k) == row_product::<A>(
            m(Buffer::Weight(Matrix::Down)).code_row(0, 58_982_400),
            down_row(s, start + k) * 15_360 + s / 256 * 7680,
            listed(m(Buffer::BlockScale(Matrix::Down)), 3_686_400),
            down_row(s, start + k) * 960 + s / 256 * 480,
            lanes,
            7680,
        ),
{
    let loads = scales_log(Matrix::Down);
    assert(loads[0].target == Buffer::ScaleF8(Matrix::Down));
    assert(loads[1].target == Buffer::Scale(Matrix::Down));
    let log = down_tile_log(start);
    assert(log[0].target == Buffer::Packed(Matrix::Down, start));
    assert(log[1].target == Buffer::BlockSums(Matrix::Down, start));
    assert(log[2].target == Buffer::ScaleTrf(Matrix::Down, start));
    assert(log[3].target == Buffer::Product(Matrix::Down, start));
    let h = down_row(s, start + k);
    let all = m(Buffer::Weight(Matrix::Down)).code_row(0, 58_982_400);
    let mine = m(Buffer::Packed(Matrix::Down, start)).code_row(s, 115_200);
    let first = h * 15_360 + s / 256 * 7680;
    let row = mine.subrange(k * 7680, k * 7680 + 7680);
    let given = all.subrange(first, first + 7680);
    assert forall|j: int| 0 <= j < 7680 implies row[j] == given[j] by {
        assert((k * 7680 + j) / 7680 == k && (k * 7680 + j) % 7680 == j);
    }
    assert(row =~= given);
    let got = stretch(m(Buffer::BlockSums(Matrix::Down, start)), s, k * 480, 480);
    let want = Seq::new(480, |b: int| block_sum::<A>(all, first, lanes, 7680, b));
    assert forall|b: int| 0 <= b < 480 implies got[b] == want[b] by {
        assert((k * 480 + b) / 480 == k && (k * 480 + b) % 480 == b);
        lemma_block_sum_moved::<A>(mine, k * 7680, all, first, lanes, 7680, b);
    }
    assert(got =~= want);
    let scales = listed(m(Buffer::BlockScale(Matrix::Down)), 3_686_400);
    let found = stretch(m(Buffer::ScaleTrf(Matrix::Down, start)), s, k * 480, 480);
    let sought = Seq::new(480, |b: int| A::bf16_of(scales[h * 960 + s / 256 * 480 + b]));
    assert forall|b: int| 0 <= b < 480 implies found[b] == sought[b] by {
        let e = start * 480 + (k * 480 + b);
        assert(e / 480 == start + k && e % 480 == b);
    }
    assert(found =~= sought);
}

/// Where row `h` of cluster `c`'s half lies among the two tiles of the down projection.
spec fn half_in<N>(m: spec_fn(Buffer) -> Cells<N>, c: int, h: int) -> N {
    side_by_side(
        m(Buffer::Product(Matrix::Down, 0)),
        m(Buffer::Product(Matrix::Down, 10)),
        10,
        c * 256 + h / 30 * 2 + h % 2,
        h % 30 / 2,
    )
}

/// Column `e` of slice `s` of the tail, from the halves.
proof fn lemma_reduced<A: Arith>(
    eps: A::Num,
    m: spec_fn(Buffer) -> Cells<A::Num>,
    s: int,
    e: int,
)
    requires
        settled(layer_step::<A>(eps), m, reduce_halves_log()),
        0 <= s < 8,
        0 <= e < 480,
    ensures
        m(Buffer::Block).at(s, e) == joined::<A>(
            Seq::new(2, |c: int| half_in(m, c, s * 480 + e)),
            m(Buffer::GlobalScale(Matrix::Down)).at(0, 0),
            m(Buffer::GlobalScale(Matrix::Up)).at(0, 0),
        ),
{
    let log = reduce_halves_log();
    assert(log[0].target == Buffer::Paired);
    assert(log[1].target == Buffer::Meeting);
    assert(log[2].target == Buffer::Halves);
    assert(log[3].target == Buffer::GlobalDm(Matrix::Down));
    assert(log[4].target == Buffer::GlobalVrf(Matrix::Down));
    assert(log[5].target == Buffer::GlobalDm(Matrix::Up));
    assert(log[6].target == Buffer::GlobalVrf(Matrix::Up));
    assert(log[7].target == Buffer::Block);
    let halves = m(Buffer::Halves);
    let got = Seq::new(2, |c: int| halves.at(s, c * 480 + e));
    let want = Seq::new(2, |c: int| half_in(m, c, s * 480 + e));
    assert forall|c: int| 0 <= c < 2 implies got[c] == want[c] by {
        let g = s * 16 + e / 30;
        let i = c * 8192 + g * 64 + e % 30;
        assert((c * 480 + e) / 480 == c && (c * 480 + e) % 480 == e);
        assert((c * 480 + e) % 30 == e % 30);
        assert(halves.at(s, c * 480 + e) == m(Buffer::Meeting).at(0, i));
        assert(i / 8192 == c && i % 8192 / 64 == g && i % 64 == e % 30);
        assert(m(Buffer::Meeting).at(0, i) == m(Buffer::Paired).at(c * 256 + g * 2, e % 30));
        assert((s * 480 + e) / 30 == g && (s * 480 + e) % 30 == e % 30);
        assert((s * 480 + e) % 2 == e % 30 % 2);
    }
    assert(got =~= want);
}

/// What the feed-forward block is given, as it lies in device memory.
pub open spec fn inputs_in<A: Arith>(
    memory: spec_fn(Buffer) -> Cells<A::Num>,
    eps: A::Num,
) -> FeedForwardInputs<A::Num> {
    FeedForwardInputs {
        x: listed(memory(Buffer::Hidden), 3840),
        norm_weight: listed(memory(Buffer::NormWeight), 3840),
        eps,
        up: memory(Buffer::Weight(Matrix::Up)).code_row(0, 58_982_400),
        gate: memory(Buffer::Weight(Matrix::Gate)).code_row(0, 58_982_400),
        down: memory(Buffer::Weight(Matrix::Down)).code_row(0, 58_982_400),
        up_scale: listed(memory(Buffer::BlockScale(Matrix::Up)), 3_686_400),
        gate_scale: listed(memory(Buffer::BlockScale(Matrix::Gate)), 3_686_400),
        down_scale: listed(memory(Buffer::BlockScale(Matrix::Down)), 3_686_400),
        up_global: memory(Buffer::GlobalScale(Matrix::Up)).at(0, 0),
        gate_global: memory(Buffer::GlobalScale(Matrix::Gate)).at(0, 0),
        down_global: memory(Buffer::GlobalScale(Matrix::Down)).at(0, 0),
    }
}

/// The 3840 columns that lie in the eight slices of the tail.
pub open spec fn tail_of<N>(v: Cells<N>) -> Seq<N> {
    Seq::new(3840, |h: int| v.at(h / 480, h % 480))
}

/// The front of the block: the gated activation of every group.
proof fn lemma_front<A: Arith>(eps: A::Num, m: spec_fn(Buffer) -> Cells<A::Num>)
    requires
        settled(layer_step::<A>(eps), m, normalize_quantize_log()),
        settled(layer_step::<A>(eps), m, project_log(Matrix::Up)),
        settled(layer_step::<A>(eps), m, project_log(Matrix::Gate)),
        settled(layer_step::<A>(eps), m, regroup_log()),
        settled(layer_step::<A>(eps), m, gate_factor_log()),
        settled(layer_step::<A>(eps), m, geglu_log()),
    ensures
        forall|s: int, e: int|
            0 <= s < 512 && 0 <= e < 120 ==> #[trigger] m(Buffer::Gated).at(s, e) == activation::<A>(
                inputs_in::<A>(m, eps),
                s / 4 * 120 + e,
            ),
{
    let i = inputs_in::<A>(m, eps);
    let lanes = hidden_lanes::<A>(i);
    lemma_norm::<A>(eps, m);
    assert forall|s: int| 0 <= s < 512 implies #[trigger] m(Buffer::ActivationTrf(Stage::Pre)).row(
        s,
        7680,
    ) == lanes by {
        assert(m(Buffer::ActivationTrf(Stage::Pre)).row(s, 7680) =~= lanes);
    }
    let up = Seq::new(15_360, |l: int| up_row::<A>(i, l));
    let gate = Seq::new(15_360, |l: int| gate_row::<A>(i, l));
    assert forall|s: int, r: int| 0 <= s < 512 && 0 <= r < 30 implies #[trigger] m(
        Buffer::Product(Matrix::Up, 0),
    ).at(s, r) == up[s * 30 + r] by {
        assert(m(Buffer::ActivationTrf(Stage::Pre)).row(s, 7680) == lanes);
        lemma_projection_row::<A>(eps, m, Matrix::Up, lanes, s, r);
    }
    assert forall|s: int, r: int| 0 <= s < 512 && 0 <= r < 30 implies #[trigger] m(
        Buffer::Product(Matrix::Gate, 0),
    ).at(s, r) == gate[s * 30 + r] by {
        assert(m(Buffer::ActivationTrf(Stage::Pre)).row(s, 7680) == lanes);
        lemma_projection_row::<A>(eps, m, Matrix::Gate, lanes, s, r);
    }
    lemma_gated::<A>(eps, m, up, gate);
}

/// The back of the block: the halves of the down projection.
proof fn lemma_back<A: Arith>(
    eps: A::Num,
    m: spec_fn(Buffer) -> Cells<A::Num>,
    c: int,
    h: int,
)
    requires
        settled(layer_step::<A>(eps), m, quantize_gather_log()),
        settled(layer_step::<A>(eps), m, scales_log(Matrix::Down)),
        settled(layer_step::<A>(eps), m, down_tile_log(0)),
        settled(layer_step::<A>(eps), m, down_tile_log(10)),
        forall|s: int, e: int|
            0 <= s < 512 && 0 <= e < 120 ==> #[trigger] m(Buffer::Gated).at(s, e) == activation::<A>(
                inputs_in::<A>(m, eps),
                s / 4 * 120 + e,
            ),
        0 <= c < 2,
        0 <= h < 3840,
    ensures
        half_in(m, c, h) == down_half::<A>(inputs_in::<A>(m, eps), c, h),
{
    let i = inputs_in::<A>(m, eps);
    let act = Seq::new(15_360, |l: int| activation::<A>(i, l));
    lemma_gathered::<A>(eps, m, act);
    let s = c * 256 + h / 30 * 2 + h % 2;
    let k = h % 30 / 2;
    assert(s / 256 == c);
    assert(down_row(s, k) == h);
    let lanes = activation_lanes::<A>(i, c);
    let row = m(Buffer::ActivationTrf(Stage::Gated)).row(s, 15_360);
    assert forall|e: int| 0 <= e < 15_360 implies row[e] == lanes[e] by {
        assert(m(Buffer::ActivationTrf(Stage::Gated)).at(s, e) == term::<A>(
            act[c * 7680 + e % 7680],
            down_gain::<A>(),
            e / 7680,
        ));
    }
    assert(row =~= lanes);
    if k < 10 {
        lemma_down_row::<A>(eps, m, 0, lanes, s, k);
    } else {
        lemma_down_row::<A>(eps, m, 10, lanes, s, k - 10);
    }
}

/// The stream of `feedforward` computes what the kernel computes: run on any memory, its commands leave
/// the columns of the block in the tail, and the hidden state in slot 0 of the pool.
pub proof fn law_feedforward_run<A: Arith>(eps: A::Num, memory: spec_fn(Buffer) -> Cells<A::Num>)
    ensures
        tail_of(run(layer_step::<A>(eps), memory, feedforward_log())(Buffer::Block)) == Seq::new(
            3840,
            |h: int| feedforward_column::<A>(inputs_in::<A>(memory, eps), h),
        ),
        tail_of(run(layer_step::<A>(eps), memory, feedforward_log())(Buffer::Pool(0))) == listed(
            memory(Buffer::Hidden),
            3840,
        ),
{
    let step = layer_step::<A>(eps);
    let log = feedforward_log();
    let m = run(step, memory, log);
    lemma_feedforward_settled::<A>(eps, memory);
    lemma_feedforward_parts::<A>(eps, m);
    let i = inputs_in::<A>(m, eps);
    assert(i == inputs_in::<A>(memory, eps));
    lemma_front::<A>(eps, m);
    let got = tail_of(m(Buffer::Block));
    assert forall|h: int| 0 <= h < 3840 implies got[h] == feedforward_column::<A>(i, h) by {
        lemma_reduced::<A>(eps, m, h / 480, h % 480);
        assert(h / 480 * 480 + h % 480 == h);
        let found = Seq::new(2, |c: int| half_in(m, c, h));
        let sought = Seq::new(2, |c: int| down_half::<A>(i, c, h));
        assert forall|c: int| 0 <= c < 2 implies found[c] == sought[c] by {
            lemma_back::<A>(eps, m, c, h);
        }
        assert(found =~= sought);
    }
    assert(got =~= Seq::new(3840, |h: int| feedforward_column::<A>(i, h)));
    let first = normalize_quantize_log();
    assert(first[2] == plain(Unit::Tdma, Buffer::Hidden, Buffer::Pool(0)));
    assert(tail_of(m(Buffer::Pool(0))) =~= listed(memory(Buffer::Hidden), 3840));
}

/// The stream of the block settles and leaves its arguments alone.
proof fn lemma_feedforward_settled<A: Arith>(
    eps: A::Num,
    memory: spec_fn(Buffer) -> Cells<A::Num>,
)
    ensures
        settled(
            layer_step::<A>(eps),
            run(layer_step::<A>(eps), memory, feedforward_log()),
            feedforward_log(),
        ),
        forall|b: Buffer|
            given(b) ==> #[trigger] run(layer_step::<A>(eps), memory, feedforward_log())(b)
                == memory(b),
{
    let step = layer_step::<A>(eps);
    let log = feedforward_log();
    let ready = |b: Buffer| given(b);
    law_step_local(
        |c: Command, v: Cells<A::Num>, w: Seq<Cells<A::Num>>| layer_value::<A>(eps, c, v, w),
    );
    law_layer_flows();
    law_layer_writes_once();
    assert forall|b: Buffer| #[trigger] ready(b) implies !writes(log, b) by {
        law_layer_keeps_arguments(b);
    }
    law_settled(step, memory, log, ready);
    let m = run(step, memory, log);
    assert forall|b: Buffer| given(b) implies #[trigger] m(b) == memory(b) by {
        law_layer_keeps_arguments(b);
    }
}

/// What is settled for the block is settled for each of its parts.
proof fn lemma_feedforward_parts<A: Arith>(eps: A::Num, m: spec_fn(Buffer) -> Cells<A::Num>)
    requires
        settled(layer_step::<A>(eps), m, feedforward_log()),
    ensures
        settled(layer_step::<A>(eps), m, normalize_quantize_log()),
        settled(layer_step::<A>(eps), m, project_log(Matrix::Up)),
        settled(layer_step::<A>(eps), m, project_log(Matrix::Gate)),
        settled(layer_step::<A>(eps), m, regroup_log()),
        settled(layer_step::<A>(eps), m, gate_factor_log()),
        settled(layer_step::<A>(eps), m, geglu_log()),
        settled(layer_step::<A>(eps), m, quantize_gather_log()),
        settled(layer_step::<A>(eps), m, scales_log(Matrix::Down)),
        settled(layer_step::<A>(eps), m, down_tile_log(0)),
        settled(layer_step::<A>(eps), m, down_tile_log(10)),
        settled(layer_step::<A>(eps), m, reduce_halves_log()),
{
    let step = layer_step::<A>(eps);
    let a = normalize_quantize_log();
    let b = a + project_log(Matrix::Up);
    let c = b + project_log(Matrix::Gate);
    let d = c + regroup_log();
    let e = d + gate_factor_log();
    let f = e + geglu_log();
    let g = f + quantize_gather_log();
    let h = g + scales_log(Matrix::Down);
    let i = h + down_tile_log(0);
    let j = i + down_tile_log(10);
    assert(j + reduce_halves_log() == feedforward_log());
    law_settled_parts(step, m, j, reduce_halves_log());
    law_settled_parts(step, m, i, down_tile_log(10));
    law_settled_parts(step, m, h, down_tile_log(0));
    law_settled_parts(step, m, g, scales_log(Matrix::Down));
    law_settled_parts(step, m, f, quantize_gather_log());
    law_settled_parts(step, m, e, geglu_log());
    law_settled_parts(step, m, d, gate_factor_log());
    law_settled_parts(step, m, c, regroup_log());
    law_settled_parts(step, m, b, project_log(Matrix::Gate));
    law_settled_parts(step, m, a, project_log(Matrix::Up));
}

/// The stream of `normalize_add_gate_in_place` computes what the kernel computes: the columns of the
/// post-norm, from the block in the tail and the residual in slot 0 of the pool.
pub proof fn law_post_norm_run<A: Arith>(eps: A::Num, memory: spec_fn(Buffer) -> Cells<A::Num>)
    ensures
        tail_of(run(layer_step::<A>(eps), memory, normalize_add_gate_log())(Buffer::Output))
            == Seq::new(
            3840,
            |h: int|
                post_norm_column::<A>(
                    tail_of(memory(Buffer::Block)),
                    listed(memory(Buffer::PostNormWeight), 3840),
                    tail_of(memory(Buffer::Pool(0))),
                    memory(Buffer::LayerScalar).at(0, 0),
                    eps,
                    h,
                ),
        ),
{
    let step = layer_step::<A>(eps);
    let log = normalize_add_gate_log();
    let m = run(step, memory, log);
    let ready = |b: Buffer|
        b == Buffer::Block || b == Buffer::Pool(0) || b == Buffer::PostNormWeight || b
            == Buffer::LayerScalar;
    assert(log.len() == 9);
    assert(log[0].target == Buffer::MeanSquare(Stage::Post));
    assert(log[1].target == Buffer::Rms(Stage::Post));
    assert(log[2].target == Buffer::NormWeightDm);
    assert(log[3].target == Buffer::NormWeightVrf(Stage::Post));
    assert(log[4].target == Buffer::RmsVrf(Stage::Post));
    assert(log[5].target == Buffer::ResidualVrf);
    assert(log[6].target == Buffer::ScalarDm);
    assert(log[7].target == Buffer::ScalarVrf);
    assert(log[8].target == Buffer::Output);
    law_step_local(
        |c: Command, v: Cells<A::Num>, w: Seq<Cells<A::Num>>| layer_value::<A>(eps, c, v, w),
    );
    lemma_normalize_add_gate(ready);
    law_layer_writes_once();
    law_settled(step, memory, log, ready);
    let v = tail_of(memory(Buffer::Block));
    let ms = m(Buffer::MeanSquare(Stage::Post));
    assert forall|k: int| 0 <= k < 8 implies #[trigger] ms.at(k, 0) == mean_square::<A>(
        piece(v, k),
    ) by {
        let row = m(Buffer::Block).row(k, 480);
        assert forall|e: int| 0 <= e < 480 implies row[e] == piece(v, k)[e] by {
            assert((k * 480 + e) / 480 == k && (k * 480 + e) % 480 == e);
        }
        assert(row =~= piece(v, k));
    }
    let got = tail_of(m(Buffer::Output));
    let weight = listed(memory(Buffer::PostNormWeight), 3840);
    let residual = tail_of(memory(Buffer::Pool(0)));
    let scalar = memory(Buffer::LayerScalar).at(0, 0);
    assert forall|h: int| 0 <= h < 3840 implies got[h] == post_norm_column::<A>(
        v,
        weight,
        residual,
        scalar,
        eps,
        h,
    ) by {
        let s = h / 480;
        assert(Seq::new(8, |k: int| ms.at(ring_member(s, 8, 1, k), 0)) =~= Seq::new(
            8,
            |p: int| mean_square::<A>(piece(v, p)),
        ));
        assert(m(Buffer::RmsVrf(Stage::Post)).at(s, 0) == rms::<A>(v, eps));
        assert(s * 480 + h % 480 == h);
    }
    assert(got =~= Seq::new(
        3840,
        |h: int| post_norm_column::<A>(v, weight, residual, scalar, eps, h),
    ));
}

/// Both streams, one behind the other, compute the layer: the post-norm of the block, with the hidden
/// state that the block was given as the residual.
pub proof fn law_layer_run<A: Arith>(eps: A::Num, memory: spec_fn(Buffer) -> Cells<A::Num>)
    ensures
        tail_of(
            run(layer_step::<A>(eps), memory, feedforward_log() + normalize_add_gate_log())(
                Buffer::Output,
            ),
        ) == Seq::new(
            3840,
            |h: int|
                post_norm_column::<A>(
                    Seq::new(
                        3840,
                        |j: int| feedforward_column::<A>(inputs_in::<A>(memory, eps), j),
                    ),
                    listed(memory(Buffer::PostNormWeight), 3840),
                    listed(memory(Buffer::Hidden), 3840),
                    memory(Buffer::LayerScalar).at(0, 0),
                    eps,
                    h,
                ),
        ),
{
    let step = layer_step::<A>(eps);
    let between = run(step, memory, feedforward_log());
    law_run_joined(step, memory, feedforward_log(), normalize_add_gate_log());
    law_feedforward_run::<A>(eps, memory);
    lemma_feedforward_settled::<A>(eps, memory);
    law_post_norm_run::<A>(eps, between);
    assert(between(Buffer::PostNormWeight) == memory(Buffer::PostNormWeight));
    assert(between(Buffer::LayerScalar) == memory(Buffer::LayerScalar));
}

} // verus!
