//! The output projection of sliding attention, with its post-norm and residual add.
//!
//! The projected rows stay sixteen times too large to the end: the normalization divides the factor
//! out again, given an epsilon that is scaled to match. The pass over the rows multiplies by the
//! reciprocal of the root mean square, which a pass over eight values per slice has computed.

use vstd::prelude::*;

use crate::arith::Arith;
use crate::context::{plain, using, Buffer, Command, Context, Operands, Stage, Unit};
use crate::hidden::{mean_square, H};
use crate::quant::{split_terms, split_terms_log, term};
use crate::tensor::{cell, dot_at, fill, fresh, in_slot, list, ring_member, within, Dm, SLICES};

pub mod error;
pub mod exact;
pub mod formula;
pub mod layout;
pub mod meaning;
pub mod order;
pub mod symmetry;

verus! {

/// Columns of the attention output.
pub const QS: usize = 4096;

/// Weights of the output projection.
pub const OUTPUT_WEIGHTS: usize = 15_728_640;

/// The gain on the attention output before it is split into levels.
pub open spec fn x_scale<A: Arith>() -> A::Num {
    A::lit_of(16, 0)
}

/// The epsilon that matches rows which are `x_scale` times too large.
pub open spec fn eps_scaled<A: Arith>(eps: A::Num) -> A::Num {
    A::mul_of(A::mul_of(eps, x_scale::<A>()), x_scale::<A>())
}

/// Slot `slot` of the three-slot pool holds `v`: slice `g` of the sixteen slices of the tail has the
/// rows `240 g .. 240 g + 240`.
pub open spec fn tail_slot<V>(pool: Dm<V>, slot: int, v: Seq<V>) -> bool {
    forall|s: int, e: int|
        0 <= s < 16 && in_slot(e, slot, 240) ==> #[trigger] pool.at(s, e) == v[s * 240 + e - slot
            * 240]
}

/// Loads `v` into slot `slot` of the pool. Nothing else in the pool changes.
pub fn pool_load<A: Arith>(
    ctx: &mut Context,
    source: Buffer,
    pool: &mut Dm<A::Num>,
    v: &Vec<A::Num>,
    slot: usize,
)
    requires
        old(pool).shaped(720),
        v@.len() == H,
        slot < 3,
    ensures
        final(ctx).log() == old(ctx).log().push(plain(Unit::Tdma, source, Buffer::Pool(slot))),
        final(pool).shaped(720),
        tail_slot(*final(pool), slot as int, v@),
        forall|s: int, e: int|
            0 <= s < SLICES && 0 <= e < 720 && !(s < 16 && in_slot(e, slot as int, 240))
                ==> #[trigger] final(pool).at(s, e) == old(pool).at(s, e),
{
    ctx.issue(Unit::Tdma, source, Buffer::Pool(slot));
    let was: &Dm<A::Num> = &*pool;
    let next: Dm<A::Num> = fill(
        720,
        |s: usize, e: usize| -> (r: A::Num)
            requires
                cell(s, e, 720),
            ensures
                r == (if 16 > s && in_slot(e as int, slot as int, 240) {
                    v@[s * 240 + e - slot * 240]
                } else {
                    was.at(s as int, e as int)
                }),
        {
            if s < 16 && slot * 240 <= e && e < slot * 240 + 240 {
                A::dup(&v[s * 240 + (e - slot * 240)])
            } else {
                A::dup(was.get(s, e))
            }
        }
    );
    *pool = next;
}

/// Slot `slot` of the pool, as an operand of the tail's passes.
pub fn pool_vrf<A: Arith>(ctx: &mut Context, pool: &Dm<A::Num>, slot: usize) -> (r: Dm<A::Num>)
    requires
        pool.shaped(720),
        slot < 3,
    ensures
        final(ctx).log() == old(ctx).log().push(
            plain(Unit::Sub, Buffer::Pool(slot), Buffer::PoolVrf(slot)),
        ),
        r.shaped(240),
        forall|s: int, e: int|
            0 <= s < SLICES && 0 <= e < 240 ==> #[trigger] r.at(s, e) == pool.at(s, slot * 240 + e),
{
    ctx.issue(Unit::Sub, Buffer::Pool(slot), Buffer::PoolVrf(slot));
    fill(
        240,
        |s: usize, e: usize| -> (r: A::Num)
            requires
                cell(s, e, 240),
            ensures
                r == pool.at(s as int, slot * 240 + e),
        { A::dup(pool.get(s, slot * 240 + e)) }
    )
}

/// What slice `s` contributes to row `r` of a weight tile: its 256 columns against both levels.
pub open spec fn level_sum<A: Arith>(
    weight: Dm<A::Num>,
    x_trf: Dm<A::Num>,
    s: int,
    r: int,
) -> A::Num {
    A::sum_of(
        Seq::new(
            2,
            |l: int|
                A::dot_of(
                    weight.rows@[s]@.subrange(r * 256, r * 256 + 256),
                    x_trf.rows@[s]@.subrange(l * 256, l * 256 + 256),
                ),
        ),
    )
}

/// Row `r` of a weight tile, added up over the sixteen slices from `s` on.
pub open spec fn tile_row<A: Arith>(
    weight: Dm<A::Num>,
    x_trf: Dm<A::Num>,
    s: int,
    r: int,
) -> A::Num {
    A::bf16_of(A::sum_of(Seq::new(16, |j: int| level_sum::<A>(weight, x_trf, s + j, r))))
}

/// The first slice of every sixteen, which holds the rows after the reduce.
pub open spec fn row_slice(s: int) -> bool {
    s % 16 == 0
}

/// Computes `level_sum`.
fn level_sum_of<A: Arith>(
    weight: &Dm<A::Num>,
    x_trf: &Dm<A::Num>,
    s: usize,
    r: usize,
    rows: usize,
) -> (q: A::Num)
    requires
        rows <= 120,
        weight.shaped(rows * 256),
        x_trf.shaped(512),
        s < SLICES,
        r < rows,
    ensures
        q == level_sum::<A>(*weight, *x_trf, s as int, r as int),
{
    let lanes: Vec<A::Num> = list(
        2,
        |l: usize| -> (q: A::Num)
            requires
                within(l, 2),
            ensures
                q == A::dot_of(
                    weight.rows@[s as int]@.subrange(r * 256, r * 256 + 256),
                    x_trf.rows@[s as int]@.subrange(l * 256, l * 256 + 256),
                ),
        { dot_at::<A>(&weight.rows[s], r * 256, &x_trf.rows[s], l * 256, 256) }
    );
    assert(lanes@ =~= Seq::new(
        2,
        |l: int|
            A::dot_of(
                weight.rows@[s as int]@.subrange(r * 256, r * 256 + 256),
                x_trf.rows@[s as int]@.subrange(l * 256, l * 256 + 256),
            ),
    ));
    A::sum(&lanes)
}

/// What contracting a tile of `rows` rows does to `z`: the row slices hold the tile's rows from
/// `offset` on, and no other row of any slice changes.
pub open spec fn contracted<A: Arith>(
    before: Dm<A::Num>,
    after: Dm<A::Num>,
    weight: Dm<A::Num>,
    x_trf: Dm<A::Num>,
    offset: int,
    rows: int,
) -> bool {
    &&& after.shaped(120)
    &&& forall|s: int, k: int|
        0 <= s < SLICES && row_slice(s) && offset <= k < offset + rows ==> #[trigger] after.at(s, k)
            == tile_row::<A>(weight, x_trf, s, k - offset)
    &&& forall|s: int, k: int|
        0 <= s < SLICES && 0 <= k < 120 && !(offset <= k < offset + rows) ==> #[trigger] after.at(
            s,
            k,
        ) == before.at(s, k)
}

/// The command that contracts the tile whose first row is `offset`.
pub open spec fn contract_command(offset: usize) -> Command {
    using(
        Unit::Main,
        Buffer::WeightTile(offset),
        Operands::One(Buffer::ActivationTrf(Stage::Attention)),
        Buffer::Projected(offset),
    )
}

/// Contracts a tile of `rows` rows.
fn contract_tile<A: Arith>(
    ctx: &mut Context,
    weight: &Dm<A::Num>,
    x_trf: &Dm<A::Num>,
    z: &mut Dm<A::Num>,
    offset: usize,
    rows: usize,
)
    requires
        weight.shaped(rows * 256),
        x_trf.shaped(512),
        old(z).shaped(120),
        offset + rows <= 120,
    ensures
        final(ctx).log() == old(ctx).log().push(contract_command(offset)),
        contracted::<A>(*old(z), *final(z), *weight, *x_trf, offset as int, rows as int),
{
    ctx.issue_with(
        Unit::Main,
        Buffer::WeightTile(offset),
        Operands::One(Buffer::ActivationTrf(Stage::Attention)),
        Buffer::Projected(offset),
    );
    let was: &Dm<A::Num> = &*z;
    let next: Dm<A::Num> = fill(
        120,
        |s: usize, k: usize| -> (r: A::Num)
            requires
                cell(s, k, 120),
            ensures
                row_slice(s as int) && offset <= k && k - offset < rows ==> r == tile_row::<A>(
                    *weight,
                    *x_trf,
                    s as int,
                    k - offset,
                ),
                !(offset <= k && k - offset < rows) ==> r == was.at(s as int, k as int),
        {
            if offset <= k && k - offset < rows {
                if s % 16 == 0 {
                    let parts: Vec<A::Num> = list(
                        16,
                        |j: usize| -> (q: A::Num)
                            requires
                                within(j, 16),
                            ensures
                                q == level_sum::<A>(*weight, *x_trf, s + j, k - offset),
                        { level_sum_of::<A>(weight, x_trf, s + j, k - offset, rows) }
                    );
                    assert(parts@ =~= Seq::new(
                        16,
                        |j: int| level_sum::<A>(*weight, *x_trf, s + j, k - offset),
                    ));
                    A::bf16(&A::sum(&parts))
                } else {
                    A::unset()
                }
            } else {
                A::dup(was.get(s, k))
            }
        }
    );
    *z = next;
}

/// Rows `offset .. offset + 104` of every row slice: both levels are added inside the pass.
pub fn contract_tile_a<A: Arith>(
    ctx: &mut Context,
    weight: &Dm<A::Num>,
    x_trf: &Dm<A::Num>,
    z: &mut Dm<A::Num>,
    offset: usize,
)
    requires
        weight.shaped(26_624),
        x_trf.shaped(512),
        old(z).shaped(120),
        offset <= 16,
    ensures
        final(ctx).log() == old(ctx).log().push(contract_command(offset)),
        contracted::<A>(*old(z), *final(z), *weight, *x_trf, offset as int, 104),
{
    contract_tile::<A>(ctx, weight, x_trf, z, offset, 104);
}

/// Rows `offset .. offset + 16` of every row slice.
pub fn contract_tile_b<A: Arith>(
    ctx: &mut Context,
    weight: &Dm<A::Num>,
    x_trf: &Dm<A::Num>,
    z: &mut Dm<A::Num>,
    offset: usize,
)
    requires
        weight.shaped(4096),
        x_trf.shaped(512),
        old(z).shaped(120),
        offset <= 104,
    ensures
        final(ctx).log() == old(ctx).log().push(contract_command(offset)),
        contracted::<A>(*old(z), *final(z), *weight, *x_trf, offset as int, 16),
{
    contract_tile::<A>(ctx, weight, x_trf, z, offset, 16);
}

/// The commands of `quantise_x`.
pub open spec fn quantise_x_log() -> Seq<Command> {
    split_terms_log(Stage::Attention, Buffer::Columns) + seq![
        using(
            Unit::Sub,
            Buffer::Term(Stage::Attention, 0),
            Operands::One(Buffer::Term(Stage::Attention, 1)),
            Buffer::ActivationTrf(Stage::Attention),
        ),
    ]
}

/// The columns of every slice as two levels in the tensor register file: `q0 = f8(16 x)`, then
/// `q1 = f8(16 x - q0)`.
pub fn quantise_x<A: Arith>(ctx: &mut Context, x: &Dm<A::Num>) -> (r: Dm<A::Num>)
    requires
        x.shaped(256),
    ensures
        final(ctx).log() == old(ctx).log() + quantise_x_log(),
        r.shaped(512),
        forall|s: int, e: int|
            0 <= s < SLICES && 0 <= e < 512 ==> #[trigger] r.at(s, e) == term::<A>(
                x.at(s, e % 256),
                x_scale::<A>(),
                e / 256,
            ),
{
    let gain: A::Num = A::lit(16, 0);
    let levels: Dm<A::Num> = split_terms::<A>(
        ctx,
        Stage::Attention,
        Buffer::Columns,
        x,
        256,
        &gain,
    );
    ctx.issue_with(
        Unit::Sub,
        Buffer::Term(Stage::Attention, 0),
        Operands::One(Buffer::Term(Stage::Attention, 1)),
        Buffer::ActivationTrf(Stage::Attention),
    );
    assert(ctx.log() =~= old(ctx).log() + quantise_x_log());
    levels
}

/// Row `h` of the projection: the 4096 columns in sixteen blocks of 256, each against both levels.
pub open spec fn projected<A: Arith>(weight: Seq<A::Num>, x: Seq<A::Num>, h: int) -> A::Num {
    A::bf16_of(
        A::sum_of(
            Seq::new(
                16,
                |j: int|
                    A::sum_of(
                        Seq::new(
                            2,
                            |l: int|
                                A::dot_of(
                                    weight.subrange(
                                        h * 4096 + j * 256,
                                        h * 4096 + j * 256 + 256,
                                    ),
                                    Seq::new(
                                        256,
                                        |q: int| term::<A>(x[j * 256 + q], x_scale::<A>(), l),
                                    ),
                                ),
                        ),
                    ),
            ),
        ),
    )
}

/// The reciprocal of the root mean square of the rows `y`, summed over the sixteen slices of the
/// tail: `t = ms + eps`, then `sqrt t / t`.
pub open spec fn inv_rms<A: Arith>(y: Seq<A::Num>, eps: A::Num) -> A::Num {
    let t = A::add_of(
        A::sum_of(Seq::new(16, |g: int| mean_square::<A>(y.subrange(g * 240, g * 240 + 240)))),
        eps_scaled::<A>(eps),
    );
    A::div_of(A::sqrt_of(t), t)
}

/// The rows `z` times the channel scales.
pub open spec fn channel_scaled<A: Arith>(z: Seq<A::Num>, scale: Seq<A::Num>) -> Seq<A::Num> {
    Seq::new(z.len(), |h: int| A::mul_of(z[h], scale[h]))
}

/// Row `h` of the tail: `z * s * w * (1 / rms) + r`, rounded once.
pub open spec fn tail_row<A: Arith>(
    z: Seq<A::Num>,
    scale: Seq<A::Num>,
    rms_weight: Seq<A::Num>,
    residual: Seq<A::Num>,
    eps: A::Num,
    h: int,
) -> A::Num {
    A::bf16_of(
        A::add_of(
            A::mul_of(
                A::mul_of(A::mul_of(z[h], scale[h]), rms_weight[h]),
                inv_rms::<A>(channel_scaled::<A>(z, scale), eps),
            ),
            residual[h],
        ),
    )
}

/// All 3840 projected rows.
pub open spec fn projection<A: Arith>(weight: Seq<A::Num>, x: Seq<A::Num>) -> Seq<A::Num> {
    Seq::new(3840, |h: int| projected::<A>(weight, x, h))
}

/// Loads the rows `offset .. offset + rows` of every row group: slice `s` gets 256 columns of each.
fn load_tile<A: Arith>(weight: &Vec<A::Num>, offset: usize, rows: usize) -> (r: Dm<A::Num>)
    requires
        weight@.len() == OUTPUT_WEIGHTS,
        offset + rows <= 120,
    ensures
        r.shaped(rows * 256),
        forall|s: int, k: int|
            #![trigger r.rows@[s]@.subrange(k * 256, k * 256 + 256)]
            0 <= s < SLICES && 0 <= k < rows ==> r.rows@[s]@.subrange(k * 256, k * 256 + 256)
                == weight@.subrange(
                (s / 16 * 120 + offset + k) * 4096 + s % 16 * 256,
                (s / 16 * 120 + offset + k) * 4096 + s % 16 * 256 + 256,
            ),
{
    let r: Dm<A::Num> = fill(
        rows * 256,
        |s: usize, e: usize| -> (q: A::Num)
            requires
                cell(s, e, rows * 256),
            ensures
                q == weight@[(s as int / 16 * 120 + offset + e as int / 256) * 4096 + s as int % 16
                    * 256 + e as int % 256],
        { A::dup(&weight[(s / 16 * 120 + offset + e / 256) * 4096 + s % 16 * 256 + e % 256]) }
    );
    assert forall|s: int, k: int|
        #![trigger r.rows@[s]@.subrange(k * 256, k * 256 + 256)]
        0 <= s < SLICES && 0 <= k < rows implies r.rows@[s]@.subrange(k * 256, k * 256 + 256)
        == weight@.subrange(
        (s / 16 * 120 + offset + k) * 4096 + s % 16 * 256,
        (s / 16 * 120 + offset + k) * 4096 + s % 16 * 256 + 256,
    ) by {
        let there = (s / 16 * 120 + offset + k) * 4096 + s % 16 * 256;
        let got = r.rows@[s]@.subrange(k * 256, k * 256 + 256);
        let want = weight@.subrange(there, there + 256);
        assert forall|q: int| 0 <= q < 256 implies got[q] == want[q] by {
            assert((k * 256 + q) / 256 == k && (k * 256 + q) % 256 == q);
            assert(r.at(s, k * 256 + q) == weight@[there + q]);
        }
        assert(got =~= want);
    }
    r
}

/// A row of a loaded tile, contracted, is a row of the projection.
proof fn lemma_tile_projected<A: Arith>(
    weight: Seq<A::Num>,
    x: Seq<A::Num>,
    tile: Dm<A::Num>,
    x_trf: Dm<A::Num>,
    offset: int,
    rows: int,
    s: int,
    k: int,
)
    requires
        x.len() == QS,
        x_trf.shaped(512),
        forall|i: int, e: int|
            0 <= i < SLICES && 0 <= e < 512 ==> #[trigger] x_trf.at(i, e) == term::<A>(
                x[i % 16 * 256 + e % 256],
                x_scale::<A>(),
                e / 256,
            ),
        forall|i: int, r: int|
            #![trigger tile.rows@[i]@.subrange(r * 256, r * 256 + 256)]
            0 <= i < SLICES && 0 <= r < rows ==> tile.rows@[i]@.subrange(r * 256, r * 256 + 256)
                == weight.subrange(
                (i / 16 * 120 + offset + r) * 4096 + i % 16 * 256,
                (i / 16 * 120 + offset + r) * 4096 + i % 16 * 256 + 256,
            ),
        0 <= s < SLICES,
        row_slice(s),
        0 <= k < rows,
    ensures
        tile_row::<A>(tile, x_trf, s, k) == projected::<A>(weight, x, s / 16 * 120 + offset + k),
{
    let h = s / 16 * 120 + offset + k;
    let want = Seq::new(
        16,
        |j: int|
            A::sum_of(
                Seq::new(
                    2,
                    |l: int|
                        A::dot_of(
                            weight.subrange(h * 4096 + j * 256, h * 4096 + j * 256 + 256),
                            Seq::new(256, |q: int| term::<A>(x[j * 256 + q], x_scale::<A>(), l)),
                        ),
                ),
            ),
    );
    let got = Seq::new(16, |j: int| level_sum::<A>(tile, x_trf, s + j, k));
    assert forall|j: int| 0 <= j < 16 implies got[j] == want[j] by {
        let i = s + j;
        assert(i / 16 == s / 16 && i % 16 == j);
        let row = tile.rows@[i]@.subrange(k * 256, k * 256 + 256);
        let lanes = Seq::new(
            2,
            |l: int| A::dot_of(row, x_trf.rows@[i]@.subrange(l * 256, l * 256 + 256)),
        );
        let wanted = Seq::new(
            2,
            |l: int|
                A::dot_of(
                    weight.subrange(h * 4096 + j * 256, h * 4096 + j * 256 + 256),
                    Seq::new(256, |q: int| term::<A>(x[j * 256 + q], x_scale::<A>(), l)),
                ),
        );
        assert forall|l: int| 0 <= l < 2 implies lanes[l] == wanted[l] by {
            let lane = x_trf.rows@[i]@.subrange(l * 256, l * 256 + 256);
            let terms = Seq::new(256, |q: int| term::<A>(x[j * 256 + q], x_scale::<A>(), l));
            assert forall|q: int| 0 <= q < 256 implies lane[q] == terms[q] by {
                assert((l * 256 + q) / 256 == l && (l * 256 + q) % 256 == q);
                assert(lane[q] == x_trf.at(i, l * 256 + q));
            }
            assert(lane =~= terms);
        }
        assert(lanes =~= wanted);
    }
    assert(got =~= want);
}

/// The sum of squares of the 240 scaled values of every slice, over the length of the hidden state.
fn partial_pass<A: Arith>(z: &Dm<A::Num>, scale: &Dm<A::Num>) -> (r: Dm<A::Num>)
    requires
        z.shaped(240),
        scale.shaped(240),
    ensures
        r.shaped(1),
        forall|s: int|
            0 <= s < SLICES ==> #[trigger] r.at(s, 0) == mean_square::<A>(
                Seq::new(240, |e: int| A::mul_of(z.at(s, e), scale.at(s, e))),
            ),
{
    let h: A::Num = A::lit(3840, 0);
    fill(
        1,
        |s: usize, e: usize| -> (r: A::Num)
            requires
                cell(s, e, 1),
            ensures
                r == mean_square::<A>(
                    Seq::new(
                        240,
                        |i: int| A::mul_of(z.at(s as int, i), scale.at(s as int, i)),
                    ),
                ),
        {
            let squares: Vec<A::Num> = list(
                240,
                |i: usize| -> (q: A::Num)
                    requires
                        within(i, 240),
                    ensures
                        q == A::mul_of(
                            A::mul_of(z.at(s as int, i as int), scale.at(s as int, i as int)),
                            A::mul_of(z.at(s as int, i as int), scale.at(s as int, i as int)),
                        ),
                {
                    let y: A::Num = A::mul(z.get(s, i), scale.get(s, i));
                    A::mul(&y, &y)
                }
            );
            let ghost v = Seq::new(
                240,
                |i: int| A::mul_of(z.at(s as int, i), scale.at(s as int, i)),
            );
            assert(squares@ =~= Seq::new(v.len(), |i: int| A::mul_of(v[i], v[i])));
            A::div(&A::sum(&squares), &h)
        }
    )
}

/// The ring of sixteen adds its mean squares and epsilon, and divides the root by what it is the
/// root of.
fn inv_rms_pass<A: Arith>(partial: &Dm<A::Num>, eps: &A::Num) -> (r: Dm<A::Num>)
    requires
        partial.shaped(1),
    ensures
        r.shaped(1),
        forall|s: int|
            0 <= s < SLICES ==> #[trigger] r.at(s, 0) == ({
                let t = A::add_of(
                    A::sum_of(Seq::new(16, |k: int| partial.at(ring_member(s, 16, 1, k), 0))),
                    *eps,
                );
                A::div_of(A::sqrt_of(t), t)
            }),
{
    fill(
        1,
        |s: usize, e: usize| -> (r: A::Num)
            requires
                cell(s, e, 1),
            ensures
                r == ({
                    let t = A::add_of(
                        A::sum_of(
                            Seq::new(16, |k: int| partial.at(ring_member(s as int, 16, 1, k), 0)),
                        ),
                        *eps,
                    );
                    A::div_of(A::sqrt_of(t), t)
                }),
        {
            let parts: Vec<A::Num> = list(
                16,
                |k: usize| -> (q: A::Num)
                    requires
                        within(k, 16),
                    ensures
                        q == partial.at(ring_member(s as int, 16, 1, k as int), 0),
                { A::dup(partial.get(s / 16 * 16 + k, 0)) }
            );
            assert(parts@ =~= Seq::new(
                16,
                |k: int| partial.at(ring_member(s as int, 16, 1, k), 0),
            ));
            let t: A::Num = A::add(&A::sum(&parts), eps);
            A::div(&A::sqrt(&t), &t)
        }
    )
}

/// The commands of `project_normalize_add`.
pub open spec fn project_normalize_add_log() -> Seq<Command> {
    seq![
        plain(Unit::Tdma, Buffer::OutputWeight, Buffer::WeightTile(0)),
        plain(Unit::Tdma, Buffer::OutputWeight, Buffer::WeightTile(104)),
        plain(Unit::Tdma, Buffer::Attention, Buffer::Columns),
    ] + quantise_x_log() + seq![
        contract_command(0),
        contract_command(104),
        plain(Unit::Tdma, Buffer::Residual, Buffer::Pool(0)),
        plain(Unit::Sub, Buffer::Pool(0), Buffer::PoolVrf(0)),
        using(
            Unit::Tdma,
            Buffer::Projected(0),
            Operands::One(Buffer::Projected(104)),
            Buffer::Hop,
        ),
        plain(Unit::Tdma, Buffer::ChannelScale, Buffer::Pool(1)),
        plain(Unit::Sub, Buffer::Pool(1), Buffer::PoolVrf(1)),
        plain(Unit::Tdma, Buffer::NormWeight, Buffer::Pool(2)),
        plain(Unit::Sub, Buffer::Pool(2), Buffer::PoolVrf(2)),
        plain(Unit::Tdma, Buffer::Hop, Buffer::Tail),
        using(
            Unit::Main,
            Buffer::Tail,
            Operands::One(Buffer::PoolVrf(1)),
            Buffer::MeanSquare(Stage::Attention),
        ),
        plain(Unit::Main, Buffer::MeanSquare(Stage::Attention), Buffer::InvRms),
        plain(Unit::Sub, Buffer::InvRms, Buffer::InvRmsVrf),
        using(
            Unit::Main,
            Buffer::Tail,
            Operands::Four(
                Buffer::PoolVrf(1),
                Buffer::PoolVrf(2),
                Buffer::InvRmsVrf,
                Buffer::PoolVrf(0),
            ),
            Buffer::Output,
        ),
        plain(Unit::Tdma, Buffer::Output, Buffer::Residual),
    ]
}

/// Projects the attention output, normalizes the rows and adds them to the residual, in place.
///
/// The weight comes in two tiles of 104 and 16 rows a row group. The pool is opened by the load of
/// the residual, while the projection is still alive, and each of its slots is read before the next
/// one is written. The projected rows go to device memory in row order and come back, 240
/// consecutive ones to each of sixteen slices.
pub fn project_normalize_add<A: Arith>(
    ctx: &mut Context,
    x: &Vec<A::Num>,
    weight: &Vec<A::Num>,
    weight_scale: &Vec<A::Num>,
    rms_weight: &Vec<A::Num>,
    residual_hbm: &mut Vec<A::Num>,
    eps: &A::Num,
)
    requires
        x@.len() == QS,
        weight@.len() == OUTPUT_WEIGHTS,
        weight_scale@.len() == H,
        rms_weight@.len() == H,
        old(residual_hbm)@.len() == H,
    ensures
        final(ctx).log() == old(ctx).log() + project_normalize_add_log(),
        final(residual_hbm)@ == Seq::new(
            3840,
            |h: int|
                tail_row::<A>(
                    projection::<A>(weight@, x@),
                    weight_scale@,
                    rms_weight@,
                    old(residual_hbm)@,
                    *eps,
                    h,
                ),
        ),
{
    ctx.issue(Unit::Tdma, Buffer::OutputWeight, Buffer::WeightTile(0));
    let weight_a: Dm<A::Num> = load_tile::<A>(weight, 0, 104);
    ctx.issue(Unit::Tdma, Buffer::OutputWeight, Buffer::WeightTile(104));
    let weight_b: Dm<A::Num> = load_tile::<A>(weight, 104, 16);

    ctx.issue(Unit::Tdma, Buffer::Attention, Buffer::Columns);
    let columns: Dm<A::Num> = fill(
        256,
        |s: usize, e: usize| -> (r: A::Num)
            requires
                cell(s, e, 256),
            ensures
                r == x@[s as int % 16 * 256 + e],
        { A::dup(&x[s % 16 * 256 + e]) }
    );
    let x_trf: Dm<A::Num> = quantise_x::<A>(ctx, &columns);

    let mut z: Dm<A::Num> = fresh::<A>(120);
    contract_tile_a::<A>(ctx, &weight_a, &x_trf, &mut z, 0);
    contract_tile_b::<A>(ctx, &weight_b, &x_trf, &mut z, 104);
    assert forall|s: int, k: int| 0 <= s < SLICES && row_slice(s) && 0 <= k < 120 implies
        #[trigger] z.at(s, k) == projected::<A>(weight@, x@, s / 16 * 120 + k) by {
        if k < 104 {
            lemma_tile_projected::<A>(weight@, x@, weight_a, x_trf, 0, 104, s, k);
        } else {
            lemma_tile_projected::<A>(weight@, x@, weight_b, x_trf, 104, 16, s, k - 104);
        }
    }

    let mut pool: Dm<A::Num> = fresh::<A>(720);
    pool_load::<A>(ctx, Buffer::Residual, &mut pool, residual_hbm, 0);
    let residual: Dm<A::Num> = pool_vrf::<A>(ctx, &pool, 0);

    ctx.issue_with(
        Unit::Tdma,
        Buffer::Projected(0),
        Operands::One(Buffer::Projected(104)),
        Buffer::Hop,
    );
    let hop: Vec<A::Num> = list(
        3840,
        |h: usize| -> (q: A::Num)
            requires
                within(h, 3840),
            ensures
                q == projection::<A>(weight@, x@)[h as int],
        { A::dup(z.get(h / 120 * 16, h % 120)) }
    );
    assert(hop@ =~= projection::<A>(weight@, x@));

    pool_load::<A>(ctx, Buffer::ChannelScale, &mut pool, weight_scale, 1);
    let scale: Dm<A::Num> = pool_vrf::<A>(ctx, &pool, 1);
    pool_load::<A>(ctx, Buffer::NormWeight, &mut pool, rms_weight, 2);
    let norm_weight: Dm<A::Num> = pool_vrf::<A>(ctx, &pool, 2);

    ctx.issue(Unit::Tdma, Buffer::Hop, Buffer::Tail);
    let z_tail: Dm<A::Num> = fill(
        240,
        |s: usize, e: usize| -> (r: A::Num)
            requires
                cell(s, e, 240),
            ensures
                16 > s ==> r == hop@[s * 240 + e],
        {
            if s < 16 {
                A::dup(&hop[s * 240 + e])
            } else {
                A::unset()
            }
        }
    );
    ctx.issue_with(
        Unit::Main,
        Buffer::Tail,
        Operands::One(Buffer::PoolVrf(1)),
        Buffer::MeanSquare(Stage::Attention),
    );
    let partial: Dm<A::Num> = partial_pass::<A>(&z_tail, &scale);
    ctx.issue(Unit::Main, Buffer::MeanSquare(Stage::Attention), Buffer::InvRms);
    let gain: A::Num = A::lit(16, 0);
    let matched: A::Num = A::mul(&A::mul(eps, &gain), &gain);
    let inv: Dm<A::Num> = inv_rms_pass::<A>(&partial, &matched);
    ctx.issue(Unit::Sub, Buffer::InvRms, Buffer::InvRmsVrf);
    ctx.issue_with(
        Unit::Main,
        Buffer::Tail,
        Operands::Four(
            Buffer::PoolVrf(1),
            Buffer::PoolVrf(2),
            Buffer::InvRmsVrf,
            Buffer::PoolVrf(0),
        ),
        Buffer::Output,
    );
    let out: Dm<A::Num> = fill(
        240,
        |s: usize, e: usize| -> (r: A::Num)
            requires
                cell(s, e, 240),
            ensures
                r == A::bf16_of(
                    A::add_of(
                        A::mul_of(
                            A::mul_of(
                                A::mul_of(
                                    z_tail.at(s as int, e as int),
                                    scale.at(s as int, e as int),
                                ),
                                norm_weight.at(s as int, e as int),
                            ),
                            inv.at(s as int, 0),
                        ),
                        residual.at(s as int, e as int),
                    ),
                ),
        {
            let y: A::Num = A::mul(
                &A::mul(z_tail.get(s, e), scale.get(s, e)),
                norm_weight.get(s, e),
            );
            A::bf16(&A::add(&A::mul(&y, inv.get(s, 0)), residual.get(s, e)))
        }
    );
    ctx.issue(Unit::Tdma, Buffer::Output, Buffer::Residual);
    let stored: Vec<A::Num> = list(
        3840,
        |h: usize| -> (q: A::Num)
            requires
                within(h, 3840),
            ensures
                q == out.at(h as int / 240, h as int % 240),
        { A::dup(out.get(h / 240, h % 240)) }
    );
    assert(ctx.log() =~= old(ctx).log() + project_normalize_add_log());
    proof {
        let all = projection::<A>(weight@, x@);
        let y = channel_scaled::<A>(all, weight_scale@);
        assert forall|s: int, e: int| 0 <= s < 16 && 0 <= e < 240 implies #[trigger] scale.at(s, e)
            == weight_scale@[s * 240 + e] by {
            assert(in_slot(240 + e, 1, 240));
            assert(pool.at(s, 240 + e) == weight_scale@[s * 240 + e]);
        }
        assert forall|g: int| 0 <= g < 16 implies #[trigger] partial.at(g, 0) == mean_square::<A>(
            y.subrange(g * 240, g * 240 + 240),
        ) by {
            let got = Seq::new(240, |e: int| A::mul_of(z_tail.at(g, e), scale.at(g, e)));
            assert(got =~= y.subrange(g * 240, g * 240 + 240));
        }
        assert forall|h: int| 0 <= h < 3840 implies #[trigger] stored@[h] == tail_row::<A>(
            all,
            weight_scale@,
            rms_weight@,
            old(residual_hbm)@,
            *eps,
            h,
        ) by {
            let s = h / 240;
            let e = h % 240;
            assert(Seq::new(16, |k: int| partial.at(ring_member(s, 16, 1, k), 0)) =~= Seq::new(
                16,
                |g: int| mean_square::<A>(y.subrange(g * 240, g * 240 + 240)),
            ));
            assert(inv.at(s, 0) == inv_rms::<A>(y, *eps));
            assert(in_slot(e, 0, 240) && in_slot(480 + e, 2, 240));
        }
    }
    *residual_hbm = stored;
}

} // verus!
