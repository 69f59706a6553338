//! The gated activation.

use vstd::prelude::*;

use crate::arith::Arith;
use crate::context::{plain, using, Buffer, Command, Context, Matrix, Operands, Stage, Unit};
use crate::ffn7::norm::up_gain;
use crate::quant::{split_terms, split_terms_log, term};
use crate::tensor::{cell, fill, ring_member, Dm, SLICES};

verus! {

/// Four neighbouring slices, 30 rows each, meet: each of the four ends with the 120 rows of the group.
pub fn regroup<A: Arith>(ctx: &mut Context, matrix: Matrix, y: &Dm<A::Num>) -> (r: Dm<A::Num>)
    requires
        y.shaped(30),
    ensures
        final(ctx).log() == old(ctx).log().push(
            plain(Unit::Main, Buffer::Product(matrix, 0), Buffer::Grouped(matrix)),
        ),
        r.shaped(120),
        forall|s: int, e: int|
            0 <= s < SLICES && 0 <= e < 120 ==> #[trigger] r.at(s, e) == y.at(
                ring_member(s, 4, 1, e / 30),
                e % 30,
            ),
{
    ctx.issue(Unit::Main, Buffer::Product(matrix, 0), Buffer::Grouped(matrix));
    fill(
        120,
        |s: usize, e: usize| -> (r: A::Num)
            requires
                cell(s, e, 120),
            ensures
                r == y.at(ring_member(s as int, 4, 1, e as int / 30), e as int % 30),
        { A::dup(y.get(s / 4 * 4 + e / 30, e % 30)) }
    )
}

/// The commands that regroup both projections.
pub open spec fn regroup_log() -> Seq<Command> {
    seq![
        plain(Unit::Main, Buffer::Product(Matrix::Up, 0), Buffer::Grouped(Matrix::Up)),
        plain(Unit::Main, Buffer::Product(Matrix::Gate, 0), Buffer::Grouped(Matrix::Gate)),
    ]
}

/// The commands of `gate_factor_vrf`.
pub open spec fn gate_factor_log() -> Seq<Command> {
    seq![
        plain(Unit::Tdma, Buffer::GlobalScale(Matrix::Gate), Buffer::FactorDm),
        plain(Unit::Main, Buffer::FactorDm, Buffer::Factor),
        plain(Unit::Sub, Buffer::Factor, Buffer::FactorVrf),
    ]
}

/// `1 / sqrt 2`, to eleven places.
pub open spec fn inv_sqrt2<A: Arith>() -> A::Num {
    A::lit_of(70_710_678_118, 11)
}

/// What the global scale of `gate` is multiplied by: the `1 / sqrt 2` of the error function, and the
/// gain on the activation undone.
pub open spec fn gate_erf_factor<A: Arith>() -> A::Num {
    A::div_of(inv_sqrt2::<A>(), up_gain::<A>())
}

/// The global scale of `gate` times `gate_erf_factor`, in every slice. The scale is loaded into the
/// first slice of every four and handed to the others, which keep word 0 of the gather.
pub fn gate_factor_vrf<A: Arith>(ctx: &mut Context, global_scale: &A::Num) -> (r: Dm<A::Num>)
    ensures
        final(ctx).log() == old(ctx).log() + gate_factor_log(),
        r.shaped(1),
        forall|s: int|
            0 <= s < SLICES ==> #[trigger] r.at(s, 0) == A::mul_of(
                *global_scale,
                gate_erf_factor::<A>(),
            ),
{
    ctx.issue(Unit::Tdma, Buffer::GlobalScale(Matrix::Gate), Buffer::FactorDm);
    let lead: Dm<A::Num> = fill(
        1,
        |s: usize, e: usize| -> (r: A::Num)
            ensures
                s % 4 == 0 ==> r == *global_scale,
        {
            if s % 4 == 0 {
                A::dup(global_scale)
            } else {
                A::unset()
            }
        }
    );
    ctx.issue(Unit::Main, Buffer::FactorDm, Buffer::Factor);
    let factor: A::Num = A::div(&A::lit(70_710_678_118, 11), &A::lit(128, 0));
    let words: Dm<A::Num> = fill(
        4,
        |s: usize, e: usize| -> (r: A::Num)
            requires
                cell(s, e, 4),
            ensures
                r == A::mul_of(lead.at(ring_member(s as int, 4, 1, e as int), 0), factor),
        { A::mul(lead.get(s / 4 * 4 + e, 0), &factor) }
    );
    ctx.issue(Unit::Sub, Buffer::Factor, Buffer::FactorVrf);
    let r: Dm<A::Num> = fill(
        1,
        |s: usize, e: usize| -> (r: A::Num)
            requires
                cell(s, e, 1),
            ensures
                r == words.at(s as int, 0),
        { A::dup(words.get(s, 0)) }
    );
    assert forall|s: int| 0 <= s < SLICES implies #[trigger] r.at(s, 0) == A::mul_of(
        *global_scale,
        gate_erf_factor::<A>(),
    ) by {
        assert(words.at(s, 0) == A::mul_of(lead.at(s / 4 * 4, 0), factor));
    }
    assert(ctx.log() =~= old(ctx).log() + gate_factor_log());
    r
}

/// The divisor that undoes, on the gated activation, the gain on `up`, the factor 2 of the GELU and
/// the `1 / sqrt 2` that rides `gate`.
pub open spec fn geglu_divisor<A: Arith>() -> A::Num {
    A::mul_of(A::mul_of(A::lit_of(2, 0), up_gain::<A>()), inv_sqrt2::<A>())
}

/// `(1 + erf t) t` for `t = gate * factor`.
pub open spec fn gelu<A: Arith>(gate: A::Num, factor: A::Num) -> A::Num {
    A::mul_of(
        A::add_of(A::erf_of(A::mul_of(gate, factor)), A::lit_of(1, 0)),
        A::mul_of(gate, factor),
    )
}

/// One element of the gated activation.
pub open spec fn gated<A: Arith>(up: A::Num, gate: A::Num, factor: A::Num) -> A::Num {
    A::bf16_of(A::div_of(A::mul_of(up, gelu::<A>(gate, factor)), geglu_divisor::<A>()))
}

/// The commands of `geglu`.
pub open spec fn geglu_log() -> Seq<Command> {
    seq![
        using(
            Unit::Sub,
            Buffer::Grouped(Matrix::Gate),
            Operands::One(Buffer::FactorVrf),
            Buffer::Gelu,
        ),
        plain(Unit::Sub, Buffer::Gelu, Buffer::GeluVrf),
        using(
            Unit::Main,
            Buffer::Grouped(Matrix::Up),
            Operands::One(Buffer::GeluVrf),
            Buffer::Gated,
        ),
    ]
}

/// The gated activation, element by element.
pub fn geglu<A: Arith>(
    ctx: &mut Context,
    up: &Dm<A::Num>,
    gate: &Dm<A::Num>,
    gate_factor: &Dm<A::Num>,
) -> (r: Dm<A::Num>)
    requires
        up.shaped(120),
        gate.shaped(120),
        gate_factor.shaped(1),
    ensures
        final(ctx).log() == old(ctx).log() + geglu_log(),
        r.shaped(120),
        forall|s: int, e: int|
            0 <= s < SLICES && 0 <= e < 120 ==> #[trigger] r.at(s, e) == gated::<A>(
                up.at(s, e),
                gate.at(s, e),
                gate_factor.at(s, 0),
            ),
{
    ctx.issue_with(
        Unit::Sub,
        Buffer::Grouped(Matrix::Gate),
        Operands::One(Buffer::FactorVrf),
        Buffer::Gelu,
    );
    let one: A::Num = A::lit(1, 0);
    let half: Dm<A::Num> = fill(
        120,
        |s: usize, e: usize| -> (r: A::Num)
            requires
                cell(s, e, 120),
            ensures
                r == gelu::<A>(gate.at(s as int, e as int), gate_factor.at(s as int, 0)),
        {
            let t: A::Num = A::mul(gate.get(s, e), gate_factor.get(s, 0));
            A::mul(&A::add(&A::erf(&t), &one), &t)
        }
    );
    ctx.issue(Unit::Sub, Buffer::Gelu, Buffer::GeluVrf);
    ctx.issue_with(
        Unit::Main,
        Buffer::Grouped(Matrix::Up),
        Operands::One(Buffer::GeluVrf),
        Buffer::Gated,
    );
    let divisor: A::Num = A::mul(
        &A::mul(&A::lit(2, 0), &A::lit(128, 0)),
        &A::lit(70_710_678_118, 11),
    );
    let r: Dm<A::Num> = fill(
        120,
        |s: usize, e: usize| -> (r: A::Num)
            requires
                cell(s, e, 120),
            ensures
                r == gated::<A>(
                    up.at(s as int, e as int),
                    gate.at(s as int, e as int),
                    gate_factor.at(s as int, 0),
                ),
        { A::bf16(&A::div(&A::mul(up.get(s, e), half.get(s, e)), &divisor)) }
    );
    assert(ctx.log() =~= old(ctx).log() + geglu_log());
    r
}

/// The gain on the gated activation before it is split into terms.
pub open spec fn down_gain<A: Arith>() -> A::Num {
    A::lit_of(25, 2)
}

/// The commands of `quantize_gather`.
pub open spec fn quantize_gather_log() -> Seq<Command> {
    split_terms_log(Stage::Gated, Buffer::Gated) + seq![
        using(
            Unit::Main,
            Buffer::Term(Stage::Gated, 0),
            Operands::One(Buffer::Term(Stage::Gated, 1)),
            Buffer::Gathered(Stage::Gated),
        ),
        plain(Unit::Sub, Buffer::Gathered(Stage::Gated), Buffer::ActivationTrf(Stage::Gated)),
    ]
}

/// The gated activation of a cluster as two terms, in the tensor register file of every slice of the
/// cluster: lane `t` holds term `t` of the cluster's 7680 columns, gathered from its 64 groups.
pub fn quantize_gather<A: Arith>(ctx: &mut Context, x: Dm<A::Num>) -> (r: Dm<A::Num>)
    requires
        x.shaped(120),
    ensures
        final(ctx).log() == old(ctx).log() + quantize_gather_log(),
        r.shaped(15_360),
        forall|s: int, e: int|
            0 <= s < SLICES && 0 <= e < 15_360 ==> #[trigger] r.at(s, e) == term::<A>(
                x.at(ring_member(s, 64, 4, e % 7680 / 120), e % 120),
                down_gain::<A>(),
                e / 7680,
            ),
{
    let gain: A::Num = A::lit(25, 2);
    let q: Dm<A::Num> = split_terms::<A>(ctx, Stage::Gated, Buffer::Gated, &x, 120, &gain);
    ctx.issue_with(
        Unit::Main,
        Buffer::Term(Stage::Gated, 0),
        Operands::One(Buffer::Term(Stage::Gated, 1)),
        Buffer::Gathered(Stage::Gated),
    );
    let r: Dm<A::Num> = fill(
        15_360,
        |s: usize, e: usize| -> (r: A::Num)
            requires
                cell(s, e, 15_360),
            ensures
                r == q.at(
                    ring_member(s as int, 64, 4, e as int % 7680 / 120),
                    e as int / 7680 * 120 + e as int % 120,
                ),
        { A::dup(q.get(s / 256 * 256 + e % 7680 / 120 * 4 + s % 4, e / 7680 * 120 + e % 120)) }
    );
    ctx.issue(Unit::Sub, Buffer::Gathered(Stage::Gated), Buffer::ActivationTrf(Stage::Gated));
    assert(ctx.log() =~= old(ctx).log() + quantize_gather_log());
    r
}

} // verus!
