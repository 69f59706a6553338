//! The order of the commands of the feed-forward block and the post-norm behind it.

use vstd::prelude::*;

use crate::context::{
    flows, given, lemma_flows_joined, plain, ready_after, unread, writes, writes_once, Buffer,
    Command, Context, Matrix, Operands, Stage, Unit,
};
use crate::ffn7::blocks::{down_tile_log, scales_log};
use crate::ffn7::gate::{gate_factor_log, geglu_log, quantize_gather_log};
use crate::ffn7::norm::normalize_quantize_log;
use crate::ffn7::{feedforward_log, normalize_add_gate_log, project_log, reduce_halves_log};
use crate::quant::split_terms_log;

verus! {

/// Issues the commands of `split_terms`.
fn stream_split(ctx: &mut Context, stage: Stage, source: Buffer)
    ensures
        final(ctx).log() == old(ctx).log() + split_terms_log(stage, source),
{
    ctx.issue(Unit::Main, source, Buffer::Term(stage, 0));
    ctx.issue(Unit::Sub, Buffer::Term(stage, 0), Buffer::TermVrf(stage));
    ctx.issue_with(
        Unit::Main,
        source,
        Operands::One(Buffer::TermVrf(stage)),
        Buffer::Term(stage, 1),
    );
    assert(ctx.log() =~= old(ctx).log() + split_terms_log(stage, source));
}

/// Issues the commands of `normalize_quantize`.
fn stream_normalize_quantize(ctx: &mut Context)
    ensures
        final(ctx).log() == old(ctx).log() + normalize_quantize_log(),
{
    ctx.issue(Unit::Sub, Buffer::Fresh, Buffer::Discarded);
    ctx.issue(Unit::Tdma, Buffer::NormWeight, Buffer::Pool(1));
    ctx.issue(Unit::Tdma, Buffer::Hidden, Buffer::Pool(0));
    ctx.issue(Unit::Main, Buffer::Pool(0), Buffer::MeanSquare(Stage::Pre));
    ctx.issue(Unit::Main, Buffer::MeanSquare(Stage::Pre), Buffer::Rms(Stage::Pre));
    ctx.issue(Unit::Sub, Buffer::Pool(1), Buffer::NormWeightVrf(Stage::Pre));
    ctx.issue(Unit::Sub, Buffer::Rms(Stage::Pre), Buffer::RmsVrf(Stage::Pre));
    ctx.issue_with(
        Unit::Main,
        Buffer::Pool(0),
        Operands::Two(Buffer::RmsVrf(Stage::Pre), Buffer::NormWeightVrf(Stage::Pre)),
        Buffer::Normalized,
    );
    stream_split(ctx, Stage::Pre, Buffer::Normalized);
    ctx.issue_with(
        Unit::Main,
        Buffer::Term(Stage::Pre, 0),
        Operands::One(Buffer::Term(Stage::Pre, 1)),
        Buffer::Spread,
    );
    ctx.issue(Unit::Main, Buffer::Spread, Buffer::Gathered(Stage::Pre));
    ctx.issue(Unit::Sub, Buffer::Gathered(Stage::Pre), Buffer::ActivationTrf(Stage::Pre));
    assert(ctx.log() =~= old(ctx).log() + normalize_quantize_log());
}

/// Issues the commands of one projection.
fn stream_project(ctx: &mut Context, matrix: Matrix)
    ensures
        final(ctx).log() == old(ctx).log() + project_log(matrix),
{
    ctx.issue(Unit::Tdma, Buffer::Weight(matrix), Buffer::Packed(matrix, 0));
    ctx.issue_with(
        Unit::Main,
        Buffer::Packed(matrix, 0),
        Operands::One(Buffer::ActivationTrf(Stage::Pre)),
        Buffer::BlockSums(matrix, 0),
    );
    ctx.issue(Unit::Tdma, Buffer::BlockScale(matrix), Buffer::ScaleF8(matrix));
    ctx.issue(Unit::Sub, Buffer::ScaleF8(matrix), Buffer::Scale(matrix));
    ctx.issue(Unit::Sub, Buffer::Scale(matrix), Buffer::ScaleTrf(matrix, 0));
    ctx.issue_with(
        Unit::Main,
        Buffer::BlockSums(matrix, 0),
        Operands::One(Buffer::ScaleTrf(matrix, 0)),
        Buffer::Product(matrix, 0),
    );
    assert(ctx.log() =~= old(ctx).log() + project_log(matrix));
}

/// Issues the commands between the projections and the down projection.
fn stream_middle(ctx: &mut Context)
    ensures
        final(ctx).log() == old(ctx).log() + middle_log(),
{
    ctx.issue(Unit::Main, Buffer::Product(Matrix::Up, 0), Buffer::Grouped(Matrix::Up));
    ctx.issue(Unit::Main, Buffer::Product(Matrix::Gate, 0), Buffer::Grouped(Matrix::Gate));
    ctx.issue(Unit::Tdma, Buffer::GlobalScale(Matrix::Gate), Buffer::FactorDm);
    ctx.issue(Unit::Main, Buffer::FactorDm, Buffer::Factor);
    ctx.issue(Unit::Sub, Buffer::Factor, Buffer::FactorVrf);
    ctx.issue_with(
        Unit::Sub,
        Buffer::Grouped(Matrix::Gate),
        Operands::One(Buffer::FactorVrf),
        Buffer::Gelu,
    );
    ctx.issue(Unit::Sub, Buffer::Gelu, Buffer::GeluVrf);
    ctx.issue_with(
        Unit::Main,
        Buffer::Grouped(Matrix::Up),
        Operands::One(Buffer::GeluVrf),
        Buffer::Gated,
    );
    stream_split(ctx, Stage::Gated, Buffer::Gated);
    ctx.issue_with(
        Unit::Main,
        Buffer::Term(Stage::Gated, 0),
        Operands::One(Buffer::Term(Stage::Gated, 1)),
        Buffer::Gathered(Stage::Gated),
    );
    ctx.issue(Unit::Sub, Buffer::Gathered(Stage::Gated), Buffer::ActivationTrf(Stage::Gated));
    assert(ctx.log() =~= old(ctx).log() + middle_log());
}

/// Issues the commands of one tile of the down projection.
fn stream_down_tile(ctx: &mut Context, start: usize)
    ensures
        final(ctx).log() == old(ctx).log() + down_tile_log(start),
{
    ctx.issue(Unit::Tdma, Buffer::Weight(Matrix::Down), Buffer::Packed(Matrix::Down, start));
    ctx.issue_with(
        Unit::Main,
        Buffer::Packed(Matrix::Down, start),
        Operands::One(Buffer::ActivationTrf(Stage::Gated)),
        Buffer::BlockSums(Matrix::Down, start),
    );
    ctx.issue(Unit::Sub, Buffer::Scale(Matrix::Down), Buffer::ScaleTrf(Matrix::Down, start));
    ctx.issue_with(
        Unit::Main,
        Buffer::BlockSums(Matrix::Down, start),
        Operands::One(Buffer::ScaleTrf(Matrix::Down, start)),
        Buffer::Product(Matrix::Down, start),
    );
    assert(ctx.log() =~= old(ctx).log() + down_tile_log(start));
}

/// Issues the commands of the down projection.
fn stream_down(ctx: &mut Context)
    ensures
        final(ctx).log() == old(ctx).log() + down_log(),
{
    ctx.issue(Unit::Tdma, Buffer::BlockScale(Matrix::Down), Buffer::ScaleF8(Matrix::Down));
    ctx.issue(Unit::Sub, Buffer::ScaleF8(Matrix::Down), Buffer::Scale(Matrix::Down));
    stream_down_tile(ctx, 0);
    stream_down_tile(ctx, 10);
    ctx.issue_with(
        Unit::Main,
        Buffer::Product(Matrix::Down, 0),
        Operands::One(Buffer::Product(Matrix::Down, 10)),
        Buffer::Paired,
    );
    ctx.issue(Unit::Tdma, Buffer::Paired, Buffer::Meeting);
    ctx.issue(Unit::Tdma, Buffer::Meeting, Buffer::Halves);
    ctx.issue(Unit::Tdma, Buffer::GlobalScale(Matrix::Down), Buffer::GlobalDm(Matrix::Down));
    ctx.issue(Unit::Sub, Buffer::GlobalDm(Matrix::Down), Buffer::GlobalVrf(Matrix::Down));
    ctx.issue(Unit::Tdma, Buffer::GlobalScale(Matrix::Up), Buffer::GlobalDm(Matrix::Up));
    ctx.issue(Unit::Sub, Buffer::GlobalDm(Matrix::Up), Buffer::GlobalVrf(Matrix::Up));
    ctx.issue_with(
        Unit::Main,
        Buffer::Halves,
        Operands::Two(Buffer::GlobalVrf(Matrix::Down), Buffer::GlobalVrf(Matrix::Up)),
        Buffer::Block,
    );
    assert(ctx.log() =~= old(ctx).log() + down_log());
}

/// The command stream of `feedforward`, for a device that performs it.
pub fn feedforward_stream() -> (r: Vec<Command>)
    ensures
        r@ == feedforward_log(),
{
    let mut ctx: Context = Context::new();
    stream_normalize_quantize(&mut ctx);
    stream_project(&mut ctx, Matrix::Up);
    stream_project(&mut ctx, Matrix::Gate);
    stream_middle(&mut ctx);
    stream_down(&mut ctx);
    assert(ctx.log() =~= feedforward_log());
    ctx.issued
}

/// The command stream of `normalize_add_gate_in_place`, for a device that performs it.
pub fn normalize_add_gate_stream() -> (r: Vec<Command>)
    ensures
        r@ == normalize_add_gate_log(),
{
    let mut ctx: Context = Context::new();
    ctx.issue(Unit::Main, Buffer::Block, Buffer::MeanSquare(Stage::Post));
    ctx.issue(Unit::Main, Buffer::MeanSquare(Stage::Post), Buffer::Rms(Stage::Post));
    ctx.issue(Unit::Tdma, Buffer::PostNormWeight, Buffer::NormWeightDm);
    ctx.issue(Unit::Sub, Buffer::NormWeightDm, Buffer::NormWeightVrf(Stage::Post));
    ctx.issue(Unit::Sub, Buffer::Rms(Stage::Post), Buffer::RmsVrf(Stage::Post));
    ctx.issue(Unit::Sub, Buffer::Pool(0), Buffer::ResidualVrf);
    ctx.issue(Unit::Tdma, Buffer::LayerScalar, Buffer::ScalarDm);
    ctx.issue(Unit::Sub, Buffer::ScalarDm, Buffer::ScalarVrf);
    ctx.issue_with(
        Unit::Main,
        Buffer::Block,
        Operands::Four(
            Buffer::RmsVrf(Stage::Post),
            Buffer::NormWeightVrf(Stage::Post),
            Buffer::ResidualVrf,
            Buffer::ScalarVrf,
        ),
        Buffer::Output,
    );
    assert(ctx.log() =~= normalize_add_gate_log());
    ctx.issued
}

proof fn lemma_normalize_quantize(ready: spec_fn(Buffer) -> bool)
    requires
        ready(Buffer::Fresh),
        ready(Buffer::NormWeight),
        ready(Buffer::Hidden),
    ensures
        flows(ready, normalize_quantize_log()),
        writes(normalize_quantize_log(), Buffer::ActivationTrf(Stage::Pre)),
        writes(normalize_quantize_log(), Buffer::Pool(0)),
{
    let log = normalize_quantize_log();
    assert(log.len() == 14);
    assert(log[1].target == Buffer::Pool(1));
    assert(log[2].target == Buffer::Pool(0));
    assert(log[3].target == Buffer::MeanSquare(Stage::Pre));
    assert(log[4].target == Buffer::Rms(Stage::Pre));
    assert(log[5].target == Buffer::NormWeightVrf(Stage::Pre));
    assert(log[6].target == Buffer::RmsVrf(Stage::Pre));
    assert(log[7].target == Buffer::Normalized);
    assert(log[8].target == Buffer::Term(Stage::Pre, 0));
    assert(log[9].target == Buffer::TermVrf(Stage::Pre));
    assert(log[10].target == Buffer::Term(Stage::Pre, 1));
    assert(log[11].target == Buffer::Spread);
    assert(log[12].target == Buffer::Gathered(Stage::Pre));
    assert(log[13].target == Buffer::ActivationTrf(Stage::Pre));
}

proof fn lemma_project(ready: spec_fn(Buffer) -> bool, m: Matrix)
    requires
        ready(Buffer::Weight(m)),
        ready(Buffer::BlockScale(m)),
        ready(Buffer::ActivationTrf(Stage::Pre)),
    ensures
        flows(ready, project_log(m)),
        writes(project_log(m), Buffer::Product(m, 0)),
{
    let log = project_log(m);
    assert(log.len() == 6);
    assert(log[0].target == Buffer::Packed(m, 0));
    assert(log[1].target == Buffer::BlockSums(m, 0));
    assert(log[2].target == Buffer::ScaleF8(m));
    assert(log[3].target == Buffer::Scale(m));
    assert(log[4].target == Buffer::ScaleTrf(m, 0));
    assert(log[5].target == Buffer::Product(m, 0));
}

/// The commands between the projections and the down projection.
spec fn middle_log() -> Seq<Command> {
    seq![
        plain(Unit::Main, Buffer::Product(Matrix::Up, 0), Buffer::Grouped(Matrix::Up)),
        plain(Unit::Main, Buffer::Product(Matrix::Gate, 0), Buffer::Grouped(Matrix::Gate)),
    ] + gate_factor_log() + geglu_log() + quantize_gather_log()
}

proof fn lemma_middle(ready: spec_fn(Buffer) -> bool)
    requires
        ready(Buffer::Product(Matrix::Up, 0)),
        ready(Buffer::Product(Matrix::Gate, 0)),
        ready(Buffer::GlobalScale(Matrix::Gate)),
    ensures
        flows(ready, middle_log()),
        writes(middle_log(), Buffer::ActivationTrf(Stage::Gated)),
{
    let log = middle_log();
    assert(log.len() == 13);
    assert(log[0].target == Buffer::Grouped(Matrix::Up));
    assert(log[1].target == Buffer::Grouped(Matrix::Gate));
    assert(log[2].target == Buffer::FactorDm);
    assert(log[3].target == Buffer::Factor);
    assert(log[4].target == Buffer::FactorVrf);
    assert(log[5].target == Buffer::Gelu);
    assert(log[6].target == Buffer::GeluVrf);
    assert(log[7].target == Buffer::Gated);
    assert(log[8].target == Buffer::Term(Stage::Gated, 0));
    assert(log[9].target == Buffer::TermVrf(Stage::Gated));
    assert(log[10].target == Buffer::Term(Stage::Gated, 1));
    assert(log[11].target == Buffer::Gathered(Stage::Gated));
    assert(log[12].target == Buffer::ActivationTrf(Stage::Gated));
}

/// The commands of the down projection.
spec fn down_log() -> Seq<Command> {
    scales_log(Matrix::Down) + down_tile_log(0) + down_tile_log(10) + reduce_halves_log()
}

proof fn lemma_down(ready: spec_fn(Buffer) -> bool)
    requires
        ready(Buffer::Weight(Matrix::Down)),
        ready(Buffer::BlockScale(Matrix::Down)),
        ready(Buffer::GlobalScale(Matrix::Up)),
        ready(Buffer::GlobalScale(Matrix::Down)),
        ready(Buffer::ActivationTrf(Stage::Gated)),
    ensures
        flows(ready, down_log()),
        writes(down_log(), Buffer::Block),
{
    let log = down_log();
    assert(log.len() == 18);
    assert(log[0].target == Buffer::ScaleF8(Matrix::Down));
    assert(log[1].target == Buffer::Scale(Matrix::Down));
    assert(log[2].target == Buffer::Packed(Matrix::Down, 0));
    assert(log[3].target == Buffer::BlockSums(Matrix::Down, 0));
    assert(log[4].target == Buffer::ScaleTrf(Matrix::Down, 0));
    assert(log[5].target == Buffer::Product(Matrix::Down, 0));
    assert(log[6].target == Buffer::Packed(Matrix::Down, 10));
    assert(log[7].target == Buffer::BlockSums(Matrix::Down, 10));
    assert(log[8].target == Buffer::ScaleTrf(Matrix::Down, 10));
    assert(log[9].target == Buffer::Product(Matrix::Down, 10));
    assert(log[10].target == Buffer::Paired);
    assert(log[11].target == Buffer::Meeting);
    assert(log[12].target == Buffer::Halves);
    assert(log[13].target == Buffer::GlobalDm(Matrix::Down));
    assert(log[14].target == Buffer::GlobalVrf(Matrix::Down));
    assert(log[15].target == Buffer::GlobalDm(Matrix::Up));
    assert(log[16].target == Buffer::GlobalVrf(Matrix::Up));
    assert(log[17].target == Buffer::Block);
}

pub(crate) proof fn lemma_normalize_add_gate(ready: spec_fn(Buffer) -> bool)
    requires
        ready(Buffer::Block),
        ready(Buffer::Pool(0)),
        ready(Buffer::PostNormWeight),
        ready(Buffer::LayerScalar),
    ensures
        flows(ready, normalize_add_gate_log()),
        writes(normalize_add_gate_log(), Buffer::Output),
{
    let log = normalize_add_gate_log();
    assert(log.len() == 9);
    assert(log[0].target == Buffer::MeanSquare(Stage::Post));
    assert(log[1].target == Buffer::Rms(Stage::Post));
    assert(log[2].target == Buffer::NormWeightDm);
    assert(log[3].target == Buffer::NormWeightVrf(Stage::Post));
    assert(log[4].target == Buffer::RmsVrf(Stage::Post));
    assert(log[5].target == Buffer::ResidualVrf);
    assert(log[6].target == Buffer::ScalarDm);
    assert(log[7].target == Buffer::ScalarVrf);
    assert(log[8].target == Buffer::Output);
}

/// The feed-forward block and the post-norm behind it: every command finds what it reads, an
/// argument of the kernels or the result of an earlier command.
pub proof fn law_layer_flows()
    ensures
        flows(|b: Buffer| given(b), feedforward_log()),
        flows(|b: Buffer| given(b), feedforward_log() + normalize_add_gate_log()),
        writes(feedforward_log(), Buffer::Block),
        writes(feedforward_log() + normalize_add_gate_log(), Buffer::Output),
{
    let ready = |b: Buffer| given(b);
    let norm = normalize_quantize_log();
    lemma_normalize_quantize(ready);
    let up = project_log(Matrix::Up);
    lemma_project(ready_after(ready, norm), Matrix::Up);
    lemma_flows_joined(ready, norm, up);
    let gate = project_log(Matrix::Gate);
    assert(writes(norm + up, Buffer::ActivationTrf(Stage::Pre)));
    lemma_project(ready_after(ready, norm + up), Matrix::Gate);
    lemma_flows_joined(ready, norm + up, gate);
    let middle = middle_log();
    let front = norm + up + gate;
    assert(writes(norm + up, Buffer::Product(Matrix::Up, 0)));
    assert(writes(front, Buffer::Product(Matrix::Up, 0)));
    assert(writes(front, Buffer::Product(Matrix::Gate, 0)));
    lemma_middle(ready_after(ready, front));
    lemma_flows_joined(ready, front, middle);
    let down = down_log();
    assert(writes(front + middle, Buffer::ActivationTrf(Stage::Gated)));
    lemma_down(ready_after(ready, front + middle));
    lemma_flows_joined(ready, front + middle, down);
    let all = front + middle + down;
    assert(all =~= feedforward_log());
    let post = normalize_add_gate_log();
    assert(writes(all, Buffer::Block));
    assert(writes(norm + up, Buffer::Pool(0)));
    assert(writes(front, Buffer::Pool(0)));
    assert(writes(front + middle, Buffer::Pool(0)));
    assert(writes(all, Buffer::Pool(0)));
    lemma_normalize_add_gate(ready_after(ready, all));
    lemma_flows_joined(ready, all, post);
    assert(writes(all + post, Buffer::Output));
}

proof fn lemma_unread_joined(a: Seq<Command>, b: Seq<Command>, x: Buffer)
    requires
        unread(a, x),
        unread(b, x),
    ensures
        unread(a + b, x),
{
    assert forall|i: int| 0 <= i < (a + b).len() implies !(#[trigger] (a + b)[i]).reads(x) by {
        if i < a.len() {
            assert(!a[i].reads(x));
        } else {
            assert(!b[i - a.len()].reads(x));
        }
    }
}

/// The warm-up: the first command of the feed-forward block goes to the sub context and reads
/// nothing but a fresh tensor, and no command reads what it writes.
pub proof fn law_feedforward_warm_up()
    ensures
        feedforward_log()[0] == plain(Unit::Sub, Buffer::Fresh, Buffer::Discarded),
        unread(feedforward_log(), Buffer::Discarded),
        unread(normalize_add_gate_log(), Buffer::Discarded),
        unread(feedforward_log() + normalize_add_gate_log(), Buffer::Discarded),
{
    let x = Buffer::Discarded;
    let norm = normalize_quantize_log();
    let up = project_log(Matrix::Up);
    let gate = project_log(Matrix::Gate);
    let middle = middle_log();
    let down = down_log();
    let post = normalize_add_gate_log();
    lemma_unread_joined(norm, up, x);
    lemma_unread_joined(norm + up, gate, x);
    lemma_unread_joined(norm + up + gate, middle, x);
    lemma_unread_joined(norm + up + gate + middle, down, x);
    lemma_unread_joined(norm + up + gate + middle + down, post, x);
    assert(norm + up + gate + middle + down =~= feedforward_log());
    assert(norm.len() == 14);
}

/// The pool tile chain: the norm weight is loaded before the hidden state, by the same unit, and
/// every other command comes after both, except for the warm-up.
pub proof fn law_pool_chain()
    ensures
        feedforward_log()[1] == plain(Unit::Tdma, Buffer::NormWeight, Buffer::Pool(1)),
        feedforward_log()[2] == plain(Unit::Tdma, Buffer::Hidden, Buffer::Pool(0)),
{
    assert(normalize_quantize_log().len() == 14);
    assert(project_log(Matrix::Up).len() == 6);
}

/// Where in the stream of the layer a buffer is written.
#[verifier::opaque]
spec fn layer_position(b: Buffer) -> int {
    match b {
        Buffer::Discarded => 0,
        Buffer::Pool(1) => 1,
        Buffer::Pool(0) => 2,
        Buffer::MeanSquare(Stage::Pre) => 3,
        Buffer::Rms(Stage::Pre) => 4,
        Buffer::NormWeightVrf(Stage::Pre) => 5,
        Buffer::RmsVrf(Stage::Pre) => 6,
        Buffer::Normalized => 7,
        Buffer::Term(Stage::Pre, 0) => 8,
        Buffer::TermVrf(Stage::Pre) => 9,
        Buffer::Term(Stage::Pre, 1) => 10,
        Buffer::Spread => 11,
        Buffer::Gathered(Stage::Pre) => 12,
        Buffer::ActivationTrf(Stage::Pre) => 13,
        Buffer::Packed(Matrix::Up, 0) => 14,
        Buffer::BlockSums(Matrix::Up, 0) => 15,
        Buffer::ScaleF8(Matrix::Up) => 16,
        Buffer::Scale(Matrix::Up) => 17,
        Buffer::ScaleTrf(Matrix::Up, 0) => 18,
        Buffer::Product(Matrix::Up, 0) => 19,
        Buffer::Packed(Matrix::Gate, 0) => 20,
        Buffer::BlockSums(Matrix::Gate, 0) => 21,
        Buffer::ScaleF8(Matrix::Gate) => 22,
        Buffer::Scale(Matrix::Gate) => 23,
        Buffer::ScaleTrf(Matrix::Gate, 0) => 24,
        Buffer::Product(Matrix::Gate, 0) => 25,
        Buffer::Grouped(Matrix::Up) => 26,
        Buffer::Grouped(Matrix::Gate) => 27,
        Buffer::FactorDm => 28,
        Buffer::Factor => 29,
        Buffer::FactorVrf => 30,
        Buffer::Gelu => 31,
        Buffer::GeluVrf => 32,
        Buffer::Gated => 33,
        Buffer::Term(Stage::Gated, 0) => 34,
        Buffer::TermVrf(Stage::Gated) => 35,
        Buffer::Term(Stage::Gated, 1) => 36,
        Buffer::Gathered(Stage::Gated) => 37,
        Buffer::ActivationTrf(Stage::Gated) => 38,
        Buffer::ScaleF8(Matrix::Down) => 39,
        Buffer::Scale(Matrix::Down) => 40,
        Buffer::Packed(Matrix::Down, 0) => 41,
        Buffer::BlockSums(Matrix::Down, 0) => 42,
        Buffer::ScaleTrf(Matrix::Down, 0) => 43,
        Buffer::Product(Matrix::Down, 0) => 44,
        Buffer::Packed(Matrix::Down, 10) => 45,
        Buffer::BlockSums(Matrix::Down, 10) => 46,
        Buffer::ScaleTrf(Matrix::Down, 10) => 47,
        Buffer::Product(Matrix::Down, 10) => 48,
        Buffer::Paired => 49,
        Buffer::Meeting => 50,
        Buffer::Halves => 51,
        Buffer::GlobalDm(Matrix::Down) => 52,
        Buffer::GlobalVrf(Matrix::Down) => 53,
        Buffer::GlobalDm(Matrix::Up) => 54,
        Buffer::GlobalVrf(Matrix::Up) => 55,
        Buffer::Block => 56,
        Buffer::MeanSquare(Stage::Post) => 57,
        Buffer::Rms(Stage::Post) => 58,
        Buffer::NormWeightDm => 59,
        Buffer::NormWeightVrf(Stage::Post) => 60,
        Buffer::RmsVrf(Stage::Post) => 61,
        Buffer::ResidualVrf => 62,
        Buffer::ScalarDm => 63,
        Buffer::ScalarVrf => 64,
        Buffer::Output => 65,
        _ => -1,
    }
}

/// The commands of `log` write the buffers that belong to the positions from `from` on.
spec fn positioned(log: Seq<Command>, from: int) -> bool {
    forall|i: int|
        0 <= i < log.len() ==> layer_position((#[trigger] log[i]).target) == from + i
}

proof fn lemma_positioned_joined(a: Seq<Command>, b: Seq<Command>, from: int)
    requires
        positioned(a, from),
        positioned(b, from + a.len()),
    ensures
        positioned(a + b, from),
{
    assert forall|i: int| 0 <= i < (a + b).len() implies layer_position(
        (#[trigger] (a + b)[i]).target,
    ) == from + i by {
        if i < a.len() {
            assert(layer_position(a[i].target) == from + i);
        } else {
            assert(layer_position(b[i - a.len()].target) == from + i);
        }
    }
}

proof fn lemma_norm_positioned()
    ensures
        normalize_quantize_log().len() == 14,
        positioned(normalize_quantize_log(), 0),
{
    reveal(layer_position);
}

proof fn lemma_up_positioned()
    ensures
        project_log(Matrix::Up).len() == 6,
        positioned(project_log(Matrix::Up), 14),
{
    reveal(layer_position);
}

proof fn lemma_gate_positioned()
    ensures
        project_log(Matrix::Gate).len() == 6,
        positioned(project_log(Matrix::Gate), 20),
{
    reveal(layer_position);
}

proof fn lemma_middle_positioned()
    ensures
        middle_log().len() == 13,
        positioned(middle_log(), 26),
{
    reveal(layer_position);
}

proof fn lemma_down_positioned()
    ensures
        down_log().len() == 18,
        positioned(down_log(), 39),
{
    reveal(layer_position);
}

proof fn lemma_post_positioned()
    ensures
        normalize_add_gate_log().len() == 9,
        positioned(normalize_add_gate_log(), 57),
{
    reveal(layer_position);
}

/// The commands of the layer write the buffers of the positions from 0 on.
proof fn lemma_layer_positioned()
    ensures
        positioned(feedforward_log() + normalize_add_gate_log(), 0),
{
    let norm = normalize_quantize_log();
    let up = project_log(Matrix::Up);
    let gate = project_log(Matrix::Gate);
    let middle = middle_log();
    let down = down_log();
    let post = normalize_add_gate_log();
    lemma_norm_positioned();
    lemma_up_positioned();
    lemma_gate_positioned();
    lemma_middle_positioned();
    lemma_down_positioned();
    lemma_post_positioned();
    lemma_positioned_joined(norm, up, 0);
    lemma_positioned_joined(norm + up, gate, 0);
    lemma_positioned_joined(norm + up + gate, middle, 0);
    lemma_positioned_joined(norm + up + gate + middle, down, 0);
    lemma_positioned_joined(norm + up + gate + middle + down, post, 0);
    assert(norm + up + gate + middle + down =~= feedforward_log());
}

/// No command of the layer overwrites what another one has written: a reader finds the one value
/// that its buffer ever holds.
pub proof fn law_layer_writes_once()
    ensures
        writes_once(feedforward_log()),
        writes_once(normalize_add_gate_log()),
        writes_once(feedforward_log() + normalize_add_gate_log()),
{
    let front = feedforward_log();
    let post = normalize_add_gate_log();
    let all = front + post;
    lemma_layer_positioned();
    assert forall|i: int, j: int| 0 <= i < j < all.len() implies (#[trigger] all[i]).target != (
    #[trigger] all[j]).target by {
        assert(layer_position(all[i].target) == i && layer_position(all[j].target) == j);
    }
    assert forall|i: int, j: int| 0 <= i < j < front.len() implies (#[trigger] front[i]).target != (
    #[trigger] front[j]).target by {
        assert(all[i] == front[i] && all[j] == front[j]);
    }
    let n = front.len();
    assert forall|i: int, j: int| 0 <= i < j < post.len() implies (#[trigger] post[i]).target != (
    #[trigger] post[j]).target by {
        assert(all[n + i] == post[i] && all[n + j] == post[j]);
    }
}

/// The layer leaves its arguments as they were, and the post-norm leaves what the feed-forward block has
/// written.
pub proof fn law_layer_keeps_arguments(b: Buffer)
    ensures
        given(b) ==> !writes(feedforward_log(), b),
        given(b) || writes(feedforward_log(), b) ==> !writes(normalize_add_gate_log(), b),
{
    let front = feedforward_log();
    let post = normalize_add_gate_log();
    let all = front + post;
    let n = front.len();
    lemma_layer_positioned();
    assert(given(b) ==> layer_position(b) == -1) by {
        reveal(layer_position);
    }
    if writes(front, b) {
        let i = choose|i: int| 0 <= i < n && (#[trigger] front[i]).target == b;
        assert(all[i] == front[i]);
        assert(layer_position(b) == i);
    }
    if writes(post, b) {
        let j = choose|j: int| 0 <= j < post.len() && (#[trigger] post[j]).target == b;
        assert(all[n + j] == post[j]);
        assert(layer_position(b) == n + j);
    }
}

} // verus!
