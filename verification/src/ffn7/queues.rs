//! The queues of the units in the feed-forward block and in the post-norm.

use vstd::prelude::*;

use crate::context::{
    issue_order, lemma_issue_order_joined, lemma_targets_joined, targets_of, targets_up_to, Buffer,
    Command, Matrix, Stage, Unit,
};
use crate::ffn7::blocks::{down_tile_log, scales_log};
use crate::ffn7::gate::{gate_factor_log, geglu_log, quantize_gather_log, regroup_log};
use crate::ffn7::norm::normalize_quantize_log;
use crate::ffn7::{feedforward_log, normalize_add_gate_log, project_log, reduce_halves_log};

verus! {

/// The order in which the commands of the feed-forward block are issued, and the order in which each
/// unit runs its part of them. A unit runs its own commands one after the other, so this is the order
/// in which the loads, the passes and the reads happen.
pub proof fn law_feedforward_queues()
    ensures
        issue_order(feedforward_log()) == seq![
            Buffer::Discarded,
            Buffer::Pool(1),
            Buffer::Pool(0),
            Buffer::MeanSquare(Stage::Pre),
            Buffer::Rms(Stage::Pre),
            Buffer::NormWeightVrf(Stage::Pre),
            Buffer::RmsVrf(Stage::Pre),
            Buffer::Normalized,
            Buffer::Term(Stage::Pre, 0),
            Buffer::TermVrf(Stage::Pre),
            Buffer::Term(Stage::Pre, 1),
            Buffer::Spread,
            Buffer::Gathered(Stage::Pre),
            Buffer::ActivationTrf(Stage::Pre),
            Buffer::Packed(Matrix::Up, 0),
            Buffer::BlockSums(Matrix::Up, 0),
            Buffer::ScaleF8(Matrix::Up),
            Buffer::Scale(Matrix::Up),
            Buffer::ScaleTrf(Matrix::Up, 0),
            Buffer::Product(Matrix::Up, 0),
            Buffer::Packed(Matrix::Gate, 0),
            Buffer::BlockSums(Matrix::Gate, 0),
            Buffer::ScaleF8(Matrix::Gate),
            Buffer::Scale(Matrix::Gate),
            Buffer::ScaleTrf(Matrix::Gate, 0),
            Buffer::Product(Matrix::Gate, 0),
            Buffer::Grouped(Matrix::Up),
            Buffer::Grouped(Matrix::Gate),
            Buffer::FactorDm,
            Buffer::Factor,
            Buffer::FactorVrf,
            Buffer::Gelu,
            Buffer::GeluVrf,
            Buffer::Gated,
            Buffer::Term(Stage::Gated, 0),
            Buffer::TermVrf(Stage::Gated),
            Buffer::Term(Stage::Gated, 1),
            Buffer::Gathered(Stage::Gated),
            Buffer::ActivationTrf(Stage::Gated),
            Buffer::ScaleF8(Matrix::Down),
            Buffer::Scale(Matrix::Down),
            Buffer::Packed(Matrix::Down, 0),
            Buffer::BlockSums(Matrix::Down, 0),
            Buffer::ScaleTrf(Matrix::Down, 0),
            Buffer::Product(Matrix::Down, 0),
            Buffer::Packed(Matrix::Down, 10),
            Buffer::BlockSums(Matrix::Down, 10),
            Buffer::ScaleTrf(Matrix::Down, 10),
            Buffer::Product(Matrix::Down, 10),
            Buffer::Paired,
            Buffer::Meeting,
            Buffer::Halves,
            Buffer::GlobalDm(Matrix::Down),
            Buffer::GlobalVrf(Matrix::Down),
            Buffer::GlobalDm(Matrix::Up),
            Buffer::GlobalVrf(Matrix::Up),
            Buffer::Block,
        ],
        targets_of(feedforward_log(), Unit::Tdma) == seq![
            Buffer::Pool(1),
            Buffer::Pool(0),
            Buffer::Packed(Matrix::Up, 0),
            Buffer::ScaleF8(Matrix::Up),
            Buffer::Packed(Matrix::Gate, 0),
            Buffer::ScaleF8(Matrix::Gate),
            Buffer::FactorDm,
            Buffer::ScaleF8(Matrix::Down),
            Buffer::Packed(Matrix::Down, 0),
            Buffer::Packed(Matrix::Down, 10),
            Buffer::Meeting,
            Buffer::Halves,
            Buffer::GlobalDm(Matrix::Down),
            Buffer::GlobalDm(Matrix::Up),
        ],
        targets_of(feedforward_log(), Unit::Main) == seq![
            Buffer::MeanSquare(Stage::Pre),
            Buffer::Rms(Stage::Pre),
            Buffer::Normalized,
            Buffer::Term(Stage::Pre, 0),
            Buffer::Term(Stage::Pre, 1),
            Buffer::Spread,
            Buffer::Gathered(Stage::Pre),
            Buffer::BlockSums(Matrix::Up, 0),
            Buffer::Product(Matrix::Up, 0),
            Buffer::BlockSums(Matrix::Gate, 0),
            Buffer::Product(Matrix::Gate, 0),
            Buffer::Grouped(Matrix::Up),
            Buffer::Grouped(Matrix::Gate),
            Buffer::Factor,
            Buffer::Gated,
            Buffer::Term(Stage::Gated, 0),
            Buffer::Term(Stage::Gated, 1),
            Buffer::Gathered(Stage::Gated),
            Buffer::BlockSums(Matrix::Down, 0),
            Buffer::Product(Matrix::Down, 0),
            Buffer::BlockSums(Matrix::Down, 10),
            Buffer::Product(Matrix::Down, 10),
            Buffer::Paired,
            Buffer::Block,
        ],
        targets_of(feedforward_log(), Unit::Sub) == seq![
            Buffer::Discarded,
            Buffer::NormWeightVrf(Stage::Pre),
            Buffer::RmsVrf(Stage::Pre),
            Buffer::TermVrf(Stage::Pre),
            Buffer::ActivationTrf(Stage::Pre),
            Buffer::Scale(Matrix::Up),
            Buffer::ScaleTrf(Matrix::Up, 0),
            Buffer::Scale(Matrix::Gate),
            Buffer::ScaleTrf(Matrix::Gate, 0),
            Buffer::FactorVrf,
            Buffer::Gelu,
            Buffer::GeluVrf,
            Buffer::TermVrf(Stage::Gated),
            Buffer::ActivationTrf(Stage::Gated),
            Buffer::Scale(Matrix::Down),
            Buffer::ScaleTrf(Matrix::Down, 0),
            Buffer::ScaleTrf(Matrix::Down, 10),
            Buffer::GlobalVrf(Matrix::Down),
            Buffer::GlobalVrf(Matrix::Up),
        ],
{
    lemma_norm();
    lemma_project(Matrix::Up);
    lemma_project(Matrix::Gate);
    lemma_middle();
    lemma_tiles();
    lemma_halves();
    let a = normalize_quantize_log();
    let b = project_log(Matrix::Up);
    let c = project_log(Matrix::Gate);
    let d = regroup_log() + gate_factor_log() + geglu_log() + quantize_gather_log();
    let e = scales_log(Matrix::Down) + down_tile_log(0) + down_tile_log(10);
    let f = reduce_halves_log();
    assert(a + b + c + d + e + f =~= feedforward_log());
    lemma_issue_order_joined(a, b);
    lemma_issue_order_joined(a + b, c);
    lemma_issue_order_joined(a + b + c, d);
    lemma_issue_order_joined(a + b + c + d, e);
    lemma_issue_order_joined(a + b + c + d + e, f);
    assert(issue_order(feedforward_log()) =~= seq![
        Buffer::Discarded,
        Buffer::Pool(1),
        Buffer::Pool(0),
        Buffer::MeanSquare(Stage::Pre),
        Buffer::Rms(Stage::Pre),
        Buffer::NormWeightVrf(Stage::Pre),
        Buffer::RmsVrf(Stage::Pre),
        Buffer::Normalized,
        Buffer::Term(Stage::Pre, 0),
        Buffer::TermVrf(Stage::Pre),
        Buffer::Term(Stage::Pre, 1),
        Buffer::Spread,
        Buffer::Gathered(Stage::Pre),
        Buffer::ActivationTrf(Stage::Pre),
        Buffer::Packed(Matrix::Up, 0),
        Buffer::BlockSums(Matrix::Up, 0),
        Buffer::ScaleF8(Matrix::Up),
        Buffer::Scale(Matrix::Up),
        Buffer::ScaleTrf(Matrix::Up, 0),
        Buffer::Product(Matrix::Up, 0),
        Buffer::Packed(Matrix::Gate, 0),
        Buffer::BlockSums(Matrix::Gate, 0),
        Buffer::ScaleF8(Matrix::Gate),
        Buffer::Scale(Matrix::Gate),
        Buffer::ScaleTrf(Matrix::Gate, 0),
        Buffer::Product(Matrix::Gate, 0),
        Buffer::Grouped(Matrix::Up),
        Buffer::Grouped(Matrix::Gate),
        Buffer::FactorDm,
        Buffer::Factor,
        Buffer::FactorVrf,
        Buffer::Gelu,
        Buffer::GeluVrf,
        Buffer::Gated,
        Buffer::Term(Stage::Gated, 0),
        Buffer::TermVrf(Stage::Gated),
        Buffer::Term(Stage::Gated, 1),
        Buffer::Gathered(Stage::Gated),
        Buffer::ActivationTrf(Stage::Gated),
        Buffer::ScaleF8(Matrix::Down),
        Buffer::Scale(Matrix::Down),
        Buffer::Packed(Matrix::Down, 0),
        Buffer::BlockSums(Matrix::Down, 0),
        Buffer::ScaleTrf(Matrix::Down, 0),
        Buffer::Product(Matrix::Down, 0),
        Buffer::Packed(Matrix::Down, 10),
        Buffer::BlockSums(Matrix::Down, 10),
        Buffer::ScaleTrf(Matrix::Down, 10),
        Buffer::Product(Matrix::Down, 10),
        Buffer::Paired,
        Buffer::Meeting,
        Buffer::Halves,
        Buffer::GlobalDm(Matrix::Down),
        Buffer::GlobalVrf(Matrix::Down),
        Buffer::GlobalDm(Matrix::Up),
        Buffer::GlobalVrf(Matrix::Up),
        Buffer::Block,
    ]);
    lemma_six(a, b, c, d, e, f, Unit::Tdma);
    lemma_six(a, b, c, d, e, f, Unit::Main);
    lemma_six(a, b, c, d, e, f, Unit::Sub);
    assert(targets_of(feedforward_log(), Unit::Tdma) =~= seq![
        Buffer::Pool(1),
        Buffer::Pool(0),
        Buffer::Packed(Matrix::Up, 0),
        Buffer::ScaleF8(Matrix::Up),
        Buffer::Packed(Matrix::Gate, 0),
        Buffer::ScaleF8(Matrix::Gate),
        Buffer::FactorDm,
        Buffer::ScaleF8(Matrix::Down),
        Buffer::Packed(Matrix::Down, 0),
        Buffer::Packed(Matrix::Down, 10),
        Buffer::Meeting,
        Buffer::Halves,
        Buffer::GlobalDm(Matrix::Down),
        Buffer::GlobalDm(Matrix::Up),
    ]);
    assert(targets_of(feedforward_log(), Unit::Main) =~= seq![
        Buffer::MeanSquare(Stage::Pre),
        Buffer::Rms(Stage::Pre),
        Buffer::Normalized,
        Buffer::Term(Stage::Pre, 0),
        Buffer::Term(Stage::Pre, 1),
        Buffer::Spread,
        Buffer::Gathered(Stage::Pre),
        Buffer::BlockSums(Matrix::Up, 0),
        Buffer::Product(Matrix::Up, 0),
        Buffer::BlockSums(Matrix::Gate, 0),
        Buffer::Product(Matrix::Gate, 0),
        Buffer::Grouped(Matrix::Up),
        Buffer::Grouped(Matrix::Gate),
        Buffer::Factor,
        Buffer::Gated,
        Buffer::Term(Stage::Gated, 0),
        Buffer::Term(Stage::Gated, 1),
        Buffer::Gathered(Stage::Gated),
        Buffer::BlockSums(Matrix::Down, 0),
        Buffer::Product(Matrix::Down, 0),
        Buffer::BlockSums(Matrix::Down, 10),
        Buffer::Product(Matrix::Down, 10),
        Buffer::Paired,
        Buffer::Block,
    ]);
    assert(targets_of(feedforward_log(), Unit::Sub) =~= seq![
        Buffer::Discarded,
        Buffer::NormWeightVrf(Stage::Pre),
        Buffer::RmsVrf(Stage::Pre),
        Buffer::TermVrf(Stage::Pre),
        Buffer::ActivationTrf(Stage::Pre),
        Buffer::Scale(Matrix::Up),
        Buffer::ScaleTrf(Matrix::Up, 0),
        Buffer::Scale(Matrix::Gate),
        Buffer::ScaleTrf(Matrix::Gate, 0),
        Buffer::FactorVrf,
        Buffer::Gelu,
        Buffer::GeluVrf,
        Buffer::TermVrf(Stage::Gated),
        Buffer::ActivationTrf(Stage::Gated),
        Buffer::Scale(Matrix::Down),
        Buffer::ScaleTrf(Matrix::Down, 0),
        Buffer::ScaleTrf(Matrix::Down, 10),
        Buffer::GlobalVrf(Matrix::Down),
        Buffer::GlobalVrf(Matrix::Up),
    ]);
}

/// The queue of a unit over six streams.
proof fn lemma_six(
    a: Seq<Command>,
    b: Seq<Command>,
    c: Seq<Command>,
    d: Seq<Command>,
    e: Seq<Command>,
    f: Seq<Command>,
    unit: Unit,
)
    ensures
        targets_of(a + b + c + d + e + f, unit) == targets_of(a, unit) + targets_of(b, unit)
            + targets_of(c, unit) + targets_of(d, unit) + targets_of(e, unit) + targets_of(f, unit),
{
    lemma_targets_joined(a, b, unit);
    lemma_targets_joined(a + b, c, unit);
    lemma_targets_joined(a + b + c, d, unit);
    lemma_targets_joined(a + b + c + d, e, unit);
    lemma_targets_joined(a + b + c + d + e, f, unit);
}

/// The queues of the normalization.
proof fn lemma_norm()
    ensures
        issue_order(normalize_quantize_log()) == seq![
            Buffer::Discarded,
            Buffer::Pool(1),
            Buffer::Pool(0),
            Buffer::MeanSquare(Stage::Pre),
            Buffer::Rms(Stage::Pre),
            Buffer::NormWeightVrf(Stage::Pre),
            Buffer::RmsVrf(Stage::Pre),
            Buffer::Normalized,
            Buffer::Term(Stage::Pre, 0),
            Buffer::TermVrf(Stage::Pre),
            Buffer::Term(Stage::Pre, 1),
            Buffer::Spread,
            Buffer::Gathered(Stage::Pre),
            Buffer::ActivationTrf(Stage::Pre),
        ],
        targets_of(normalize_quantize_log(), Unit::Tdma) == seq![Buffer::Pool(1), Buffer::Pool(0)],
        targets_of(normalize_quantize_log(), Unit::Main) == seq![
            Buffer::MeanSquare(Stage::Pre),
            Buffer::Rms(Stage::Pre),
            Buffer::Normalized,
            Buffer::Term(Stage::Pre, 0),
            Buffer::Term(Stage::Pre, 1),
            Buffer::Spread,
            Buffer::Gathered(Stage::Pre),
        ],
        targets_of(normalize_quantize_log(), Unit::Sub) == seq![
            Buffer::Discarded,
            Buffer::NormWeightVrf(Stage::Pre),
            Buffer::RmsVrf(Stage::Pre),
            Buffer::TermVrf(Stage::Pre),
            Buffer::ActivationTrf(Stage::Pre),
        ],
{
    let log = normalize_quantize_log();
    assert(log.len() == 14);
    assert(log[0].unit == Unit::Sub && log[0].target == Buffer::Discarded);
    assert(log[1].unit == Unit::Tdma && log[1].target == Buffer::Pool(1));
    assert(log[2].unit == Unit::Tdma && log[2].target == Buffer::Pool(0));
    assert(log[3].unit == Unit::Main && log[3].target == Buffer::MeanSquare(Stage::Pre));
    assert(log[4].unit == Unit::Main && log[4].target == Buffer::Rms(Stage::Pre));
    assert(log[5].unit == Unit::Sub && log[5].target == Buffer::NormWeightVrf(Stage::Pre));
    assert(log[6].unit == Unit::Sub && log[6].target == Buffer::RmsVrf(Stage::Pre));
    assert(log[7].unit == Unit::Main && log[7].target == Buffer::Normalized);
    assert(log[8].unit == Unit::Main && log[8].target == Buffer::Term(Stage::Pre, 0));
    assert(log[9].unit == Unit::Sub && log[9].target == Buffer::TermVrf(Stage::Pre));
    assert(log[10].unit == Unit::Main && log[10].target == Buffer::Term(Stage::Pre, 1));
    assert(log[11].unit == Unit::Main && log[11].target == Buffer::Spread);
    assert(log[12].unit == Unit::Main && log[12].target == Buffer::Gathered(Stage::Pre));
    assert(log[13].unit == Unit::Sub && log[13].target == Buffer::ActivationTrf(Stage::Pre));
    assert(issue_order(log) =~= seq![
        Buffer::Discarded,
        Buffer::Pool(1),
        Buffer::Pool(0),
        Buffer::MeanSquare(Stage::Pre),
        Buffer::Rms(Stage::Pre),
        Buffer::NormWeightVrf(Stage::Pre),
        Buffer::RmsVrf(Stage::Pre),
        Buffer::Normalized,
        Buffer::Term(Stage::Pre, 0),
        Buffer::TermVrf(Stage::Pre),
        Buffer::Term(Stage::Pre, 1),
        Buffer::Spread,
        Buffer::Gathered(Stage::Pre),
        Buffer::ActivationTrf(Stage::Pre),
    ]);
    reveal_with_fuel(targets_up_to, 15);
    assert(targets_of(log, Unit::Tdma) =~= seq![Buffer::Pool(1), Buffer::Pool(0)]);
    assert(targets_of(log, Unit::Main) =~= seq![
        Buffer::MeanSquare(Stage::Pre),
        Buffer::Rms(Stage::Pre),
        Buffer::Normalized,
        Buffer::Term(Stage::Pre, 0),
        Buffer::Term(Stage::Pre, 1),
        Buffer::Spread,
        Buffer::Gathered(Stage::Pre),
    ]);
    assert(targets_of(log, Unit::Sub) =~= seq![
        Buffer::Discarded,
        Buffer::NormWeightVrf(Stage::Pre),
        Buffer::RmsVrf(Stage::Pre),
        Buffer::TermVrf(Stage::Pre),
        Buffer::ActivationTrf(Stage::Pre),
    ]);
}

/// The queues of one projection.
proof fn lemma_project(matrix: Matrix)
    ensures
        issue_order(project_log(matrix)) == seq![
            Buffer::Packed(matrix, 0),
            Buffer::BlockSums(matrix, 0),
            Buffer::ScaleF8(matrix),
            Buffer::Scale(matrix),
            Buffer::ScaleTrf(matrix, 0),
            Buffer::Product(matrix, 0),
        ],
        targets_of(project_log(matrix), Unit::Tdma) == seq![
            Buffer::Packed(matrix, 0),
            Buffer::ScaleF8(matrix),
        ],
        targets_of(project_log(matrix), Unit::Main) == seq![
            Buffer::BlockSums(matrix, 0),
            Buffer::Product(matrix, 0),
        ],
        targets_of(project_log(matrix), Unit::Sub) == seq![
            Buffer::Scale(matrix),
            Buffer::ScaleTrf(matrix, 0),
        ],
{
    let log = project_log(matrix);
    assert(log.len() == 6);
    assert(log[0].unit == Unit::Tdma && log[0].target == Buffer::Packed(matrix, 0));
    assert(log[1].unit == Unit::Main && log[1].target == Buffer::BlockSums(matrix, 0));
    assert(log[2].unit == Unit::Tdma && log[2].target == Buffer::ScaleF8(matrix));
    assert(log[3].unit == Unit::Sub && log[3].target == Buffer::Scale(matrix));
    assert(log[4].unit == Unit::Sub && log[4].target == Buffer::ScaleTrf(matrix, 0));
    assert(log[5].unit == Unit::Main && log[5].target == Buffer::Product(matrix, 0));
    assert(issue_order(log) =~= seq![
        Buffer::Packed(matrix, 0),
        Buffer::BlockSums(matrix, 0),
        Buffer::ScaleF8(matrix),
        Buffer::Scale(matrix),
        Buffer::ScaleTrf(matrix, 0),
        Buffer::Product(matrix, 0),
    ]);
    reveal_with_fuel(targets_up_to, 7);
    assert(targets_of(log, Unit::Tdma) =~= seq![
        Buffer::Packed(matrix, 0),
        Buffer::ScaleF8(matrix),
    ]);
    assert(targets_of(log, Unit::Main) =~= seq![
        Buffer::BlockSums(matrix, 0),
        Buffer::Product(matrix, 0),
    ]);
    assert(targets_of(log, Unit::Sub) =~= seq![Buffer::Scale(matrix), Buffer::ScaleTrf(matrix, 0)]);
}

/// The queues of the gated activation.
proof fn lemma_middle()
    ensures
        issue_order(
            regroup_log() + gate_factor_log() + geglu_log() + quantize_gather_log(),
        ) == seq![
            Buffer::Grouped(Matrix::Up),
            Buffer::Grouped(Matrix::Gate),
            Buffer::FactorDm,
            Buffer::Factor,
            Buffer::FactorVrf,
            Buffer::Gelu,
            Buffer::GeluVrf,
            Buffer::Gated,
            Buffer::Term(Stage::Gated, 0),
            Buffer::TermVrf(Stage::Gated),
            Buffer::Term(Stage::Gated, 1),
            Buffer::Gathered(Stage::Gated),
            Buffer::ActivationTrf(Stage::Gated),
        ],
        targets_of(
            regroup_log() + gate_factor_log() + geglu_log() + quantize_gather_log(),
            Unit::Tdma,
        ) == seq![Buffer::FactorDm],
        targets_of(
            regroup_log() + gate_factor_log() + geglu_log() + quantize_gather_log(),
            Unit::Main,
        ) == seq![
            Buffer::Grouped(Matrix::Up),
            Buffer::Grouped(Matrix::Gate),
            Buffer::Factor,
            Buffer::Gated,
            Buffer::Term(Stage::Gated, 0),
            Buffer::Term(Stage::Gated, 1),
            Buffer::Gathered(Stage::Gated),
        ],
        targets_of(
            regroup_log() + gate_factor_log() + geglu_log() + quantize_gather_log(),
            Unit::Sub,
        ) == seq![
            Buffer::FactorVrf,
            Buffer::Gelu,
            Buffer::GeluVrf,
            Buffer::TermVrf(Stage::Gated),
            Buffer::ActivationTrf(Stage::Gated),
        ],
{
    let log = regroup_log() + gate_factor_log() + geglu_log() + quantize_gather_log();
    assert(log.len() == 13);
    assert(log[0].unit == Unit::Main && log[0].target == Buffer::Grouped(Matrix::Up));
    assert(log[1].unit == Unit::Main && log[1].target == Buffer::Grouped(Matrix::Gate));
    assert(log[2].unit == Unit::Tdma && log[2].target == Buffer::FactorDm);
    assert(log[3].unit == Unit::Main && log[3].target == Buffer::Factor);
    assert(log[4].unit == Unit::Sub && log[4].target == Buffer::FactorVrf);
    assert(log[5].unit == Unit::Sub && log[5].target == Buffer::Gelu);
    assert(log[6].unit == Unit::Sub && log[6].target == Buffer::GeluVrf);
    assert(log[7].unit == Unit::Main && log[7].target == Buffer::Gated);
    assert(log[8].unit == Unit::Main && log[8].target == Buffer::Term(Stage::Gated, 0));
    assert(log[9].unit == Unit::Sub && log[9].target == Buffer::TermVrf(Stage::Gated));
    assert(log[10].unit == Unit::Main && log[10].target == Buffer::Term(Stage::Gated, 1));
    assert(log[11].unit == Unit::Main && log[11].target == Buffer::Gathered(Stage::Gated));
    assert(log[12].unit == Unit::Sub && log[12].target == Buffer::ActivationTrf(Stage::Gated));
    assert(issue_order(log) =~= seq![
        Buffer::Grouped(Matrix::Up),
        Buffer::Grouped(Matrix::Gate),
        Buffer::FactorDm,
        Buffer::Factor,
        Buffer::FactorVrf,
        Buffer::Gelu,
        Buffer::GeluVrf,
        Buffer::Gated,
        Buffer::Term(Stage::Gated, 0),
        Buffer::TermVrf(Stage::Gated),
        Buffer::Term(Stage::Gated, 1),
        Buffer::Gathered(Stage::Gated),
        Buffer::ActivationTrf(Stage::Gated),
    ]);
    reveal_with_fuel(targets_up_to, 14);
    assert(targets_of(log, Unit::Tdma) =~= seq![Buffer::FactorDm]);
    assert(targets_of(log, Unit::Main) =~= seq![
        Buffer::Grouped(Matrix::Up),
        Buffer::Grouped(Matrix::Gate),
        Buffer::Factor,
        Buffer::Gated,
        Buffer::Term(Stage::Gated, 0),
        Buffer::Term(Stage::Gated, 1),
        Buffer::Gathered(Stage::Gated),
    ]);
    assert(targets_of(log, Unit::Sub) =~= seq![
        Buffer::FactorVrf,
        Buffer::Gelu,
        Buffer::GeluVrf,
        Buffer::TermVrf(Stage::Gated),
        Buffer::ActivationTrf(Stage::Gated),
    ]);
}

/// The queues of the tiles of the down projection.
proof fn lemma_tiles()
    ensures
        issue_order(
            scales_log(Matrix::Down) + down_tile_log(0) + down_tile_log(10),
        ) == seq![
            Buffer::ScaleF8(Matrix::Down),
            Buffer::Scale(Matrix::Down),
            Buffer::Packed(Matrix::Down, 0),
            Buffer::BlockSums(Matrix::Down, 0),
            Buffer::ScaleTrf(Matrix::Down, 0),
            Buffer::Product(Matrix::Down, 0),
            Buffer::Packed(Matrix::Down, 10),
            Buffer::BlockSums(Matrix::Down, 10),
            Buffer::ScaleTrf(Matrix::Down, 10),
            Buffer::Product(Matrix::Down, 10),
        ],
        targets_of(
            scales_log(Matrix::Down) + down_tile_log(0) + down_tile_log(10),
            Unit::Tdma,
        ) == seq![
            Buffer::ScaleF8(Matrix::Down),
            Buffer::Packed(Matrix::Down, 0),
            Buffer::Packed(Matrix::Down, 10),
        ],
        targets_of(
            scales_log(Matrix::Down) + down_tile_log(0) + down_tile_log(10),
            Unit::Main,
        ) == seq![
            Buffer::BlockSums(Matrix::Down, 0),
            Buffer::Product(Matrix::Down, 0),
            Buffer::BlockSums(Matrix::Down, 10),
            Buffer::Product(Matrix::Down, 10),
        ],
        targets_of(
            scales_log(Matrix::Down) + down_tile_log(0) + down_tile_log(10),
            Unit::Sub,
        ) == seq![
            Buffer::Scale(Matrix::Down),
            Buffer::ScaleTrf(Matrix::Down, 0),
            Buffer::ScaleTrf(Matrix::Down, 10),
        ],
{
    let log = scales_log(Matrix::Down) + down_tile_log(0) + down_tile_log(10);
    assert(log.len() == 10);
    assert(log[0].unit == Unit::Tdma && log[0].target == Buffer::ScaleF8(Matrix::Down));
    assert(log[1].unit == Unit::Sub && log[1].target == Buffer::Scale(Matrix::Down));
    assert(log[2].unit == Unit::Tdma && log[2].target == Buffer::Packed(Matrix::Down, 0));
    assert(log[3].unit == Unit::Main && log[3].target == Buffer::BlockSums(Matrix::Down, 0));
    assert(log[4].unit == Unit::Sub && log[4].target == Buffer::ScaleTrf(Matrix::Down, 0));
    assert(log[5].unit == Unit::Main && log[5].target == Buffer::Product(Matrix::Down, 0));
    assert(log[6].unit == Unit::Tdma && log[6].target == Buffer::Packed(Matrix::Down, 10));
    assert(log[7].unit == Unit::Main && log[7].target == Buffer::BlockSums(Matrix::Down, 10));
    assert(log[8].unit == Unit::Sub && log[8].target == Buffer::ScaleTrf(Matrix::Down, 10));
    assert(log[9].unit == Unit::Main && log[9].target == Buffer::Product(Matrix::Down, 10));
    assert(issue_order(log) =~= seq![
        Buffer::ScaleF8(Matrix::Down),
        Buffer::Scale(Matrix::Down),
        Buffer::Packed(Matrix::Down, 0),
        Buffer::BlockSums(Matrix::Down, 0),
        Buffer::ScaleTrf(Matrix::Down, 0),
        Buffer::Product(Matrix::Down, 0),
        Buffer::Packed(Matrix::Down, 10),
        Buffer::BlockSums(Matrix::Down, 10),
        Buffer::ScaleTrf(Matrix::Down, 10),
        Buffer::Product(Matrix::Down, 10),
    ]);
    reveal_with_fuel(targets_up_to, 11);
    assert(targets_of(log, Unit::Tdma) =~= seq![
        Buffer::ScaleF8(Matrix::Down),
        Buffer::Packed(Matrix::Down, 0),
        Buffer::Packed(Matrix::Down, 10),
    ]);
    assert(targets_of(log, Unit::Main) =~= seq![
        Buffer::BlockSums(Matrix::Down, 0),
        Buffer::Product(Matrix::Down, 0),
        Buffer::BlockSums(Matrix::Down, 10),
        Buffer::Product(Matrix::Down, 10),
    ]);
    assert(targets_of(log, Unit::Sub) =~= seq![
        Buffer::Scale(Matrix::Down),
        Buffer::ScaleTrf(Matrix::Down, 0),
        Buffer::ScaleTrf(Matrix::Down, 10),
    ]);
}

/// The queues of the part in which the halves meet.
proof fn lemma_halves()
    ensures
        issue_order(reduce_halves_log()) == seq![
            Buffer::Paired,
            Buffer::Meeting,
            Buffer::Halves,
            Buffer::GlobalDm(Matrix::Down),
            Buffer::GlobalVrf(Matrix::Down),
            Buffer::GlobalDm(Matrix::Up),
            Buffer::GlobalVrf(Matrix::Up),
            Buffer::Block,
        ],
        targets_of(reduce_halves_log(), Unit::Tdma) == seq![
            Buffer::Meeting,
            Buffer::Halves,
            Buffer::GlobalDm(Matrix::Down),
            Buffer::GlobalDm(Matrix::Up),
        ],
        targets_of(reduce_halves_log(), Unit::Main) == seq![Buffer::Paired, Buffer::Block],
        targets_of(reduce_halves_log(), Unit::Sub) == seq![
            Buffer::GlobalVrf(Matrix::Down),
            Buffer::GlobalVrf(Matrix::Up),
        ],
{
    let log = reduce_halves_log();
    assert(log.len() == 8);
    assert(log[0].unit == Unit::Main && log[0].target == Buffer::Paired);
    assert(log[1].unit == Unit::Tdma && log[1].target == Buffer::Meeting);
    assert(log[2].unit == Unit::Tdma && log[2].target == Buffer::Halves);
    assert(log[3].unit == Unit::Tdma && log[3].target == Buffer::GlobalDm(Matrix::Down));
    assert(log[4].unit == Unit::Sub && log[4].target == Buffer::GlobalVrf(Matrix::Down));
    assert(log[5].unit == Unit::Tdma && log[5].target == Buffer::GlobalDm(Matrix::Up));
    assert(log[6].unit == Unit::Sub && log[6].target == Buffer::GlobalVrf(Matrix::Up));
    assert(log[7].unit == Unit::Main && log[7].target == Buffer::Block);
    assert(issue_order(log) =~= seq![
        Buffer::Paired,
        Buffer::Meeting,
        Buffer::Halves,
        Buffer::GlobalDm(Matrix::Down),
        Buffer::GlobalVrf(Matrix::Down),
        Buffer::GlobalDm(Matrix::Up),
        Buffer::GlobalVrf(Matrix::Up),
        Buffer::Block,
    ]);
    reveal_with_fuel(targets_up_to, 9);
    assert(targets_of(log, Unit::Tdma) =~= seq![
        Buffer::Meeting,
        Buffer::Halves,
        Buffer::GlobalDm(Matrix::Down),
        Buffer::GlobalDm(Matrix::Up),
    ]);
    assert(targets_of(log, Unit::Main) =~= seq![Buffer::Paired, Buffer::Block]);
    assert(targets_of(log, Unit::Sub) =~= seq![
        Buffer::GlobalVrf(Matrix::Down),
        Buffer::GlobalVrf(Matrix::Up),
    ]);
}

/// The order in which the commands of the post-norm are issued, and that in which each unit runs its
/// part of them.
pub proof fn law_post_norm_queues()
    ensures
        issue_order(normalize_add_gate_log()) == seq![
            Buffer::MeanSquare(Stage::Post),
            Buffer::Rms(Stage::Post),
            Buffer::NormWeightDm,
            Buffer::NormWeightVrf(Stage::Post),
            Buffer::RmsVrf(Stage::Post),
            Buffer::ResidualVrf,
            Buffer::ScalarDm,
            Buffer::ScalarVrf,
            Buffer::Output,
        ],
        targets_of(normalize_add_gate_log(), Unit::Tdma) == seq![
            Buffer::NormWeightDm,
            Buffer::ScalarDm,
        ],
        targets_of(normalize_add_gate_log(), Unit::Main) == seq![
            Buffer::MeanSquare(Stage::Post),
            Buffer::Rms(Stage::Post),
            Buffer::Output,
        ],
        targets_of(normalize_add_gate_log(), Unit::Sub) == seq![
            Buffer::NormWeightVrf(Stage::Post),
            Buffer::RmsVrf(Stage::Post),
            Buffer::ResidualVrf,
            Buffer::ScalarVrf,
        ],
{
    let log = normalize_add_gate_log();
    assert(log.len() == 9);
    assert(log[0].unit == Unit::Main && log[0].target == Buffer::MeanSquare(Stage::Post));
    assert(log[1].unit == Unit::Main && log[1].target == Buffer::Rms(Stage::Post));
    assert(log[2].unit == Unit::Tdma && log[2].target == Buffer::NormWeightDm);
    assert(log[3].unit == Unit::Sub && log[3].target == Buffer::NormWeightVrf(Stage::Post));
    assert(log[4].unit == Unit::Sub && log[4].target == Buffer::RmsVrf(Stage::Post));
    assert(log[5].unit == Unit::Sub && log[5].target == Buffer::ResidualVrf);
    assert(log[6].unit == Unit::Tdma && log[6].target == Buffer::ScalarDm);
    assert(log[7].unit == Unit::Sub && log[7].target == Buffer::ScalarVrf);
    assert(log[8].unit == Unit::Main && log[8].target == Buffer::Output);
    assert(issue_order(log) =~= seq![
        Buffer::MeanSquare(Stage::Post),
        Buffer::Rms(Stage::Post),
        Buffer::NormWeightDm,
        Buffer::NormWeightVrf(Stage::Post),
        Buffer::RmsVrf(Stage::Post),
        Buffer::ResidualVrf,
        Buffer::ScalarDm,
        Buffer::ScalarVrf,
        Buffer::Output,
    ]);
    reveal_with_fuel(targets_up_to, 10);
    assert(targets_of(log, Unit::Tdma) =~= seq![Buffer::NormWeightDm, Buffer::ScalarDm]);
    assert(targets_of(log, Unit::Main) =~= seq![
        Buffer::MeanSquare(Stage::Post),
        Buffer::Rms(Stage::Post),
        Buffer::Output,
    ]);
    assert(targets_of(log, Unit::Sub) =~= seq![
        Buffer::NormWeightVrf(Stage::Post),
        Buffer::RmsVrf(Stage::Post),
        Buffer::ResidualVrf,
        Buffer::ScalarVrf,
    ]);
}

} // verus!
