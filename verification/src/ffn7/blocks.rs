//! Products of block-scaled four-bit matrices and an activation.

use vstd::prelude::*;

use crate::arith::Arith;
use crate::context::{plain, using, Buffer, Command, Context, Matrix, Operands, Stage, Unit};
use crate::tensor::{cell, dot_at, fill, list, within, Dm, SLICES};

verus! {

/// The sum of block `b` (16 columns) of a row of `n` four-bit codes that starts at `first`, over
/// both lanes of an activation of `n` columns, rounded to `bf16`.
pub open spec fn block_sum<A: Arith>(
    codes: Seq<u8>,
    first: int,
    lanes: Seq<A::Num>,
    n: int,
    b: int,
) -> A::Num {
    A::bf16_of(
        A::dot_of(
            Seq::new(32, |i: int| A::f4_of(codes[first + b * 16 + i % 16])),
            Seq::new(32, |i: int| lanes[(if i < 16 { 0 } else { n }) + b * 16 + i % 16]),
        ),
    )
}

/// Computes `block_sum`.
fn block_sum_of<A: Arith>(
    codes: &Vec<u8>,
    first: usize,
    lanes: &Vec<A::Num>,
    n: usize,
    b: usize,
) -> (r: A::Num)
    requires
        b * 16 + 16 <= n,
        first + n <= codes.len(),
        2 * n == lanes.len(),
    ensures
        r == block_sum::<A>(codes@, first as int, lanes@, n as int, b as int),
{
    let left: Vec<A::Num> = list(
        32,
        |i: usize| -> (q: A::Num)
            requires
                within(i, 32),
            ensures
                q == A::f4_of(codes@[first + b * 16 + i as int % 16]),
        { A::f4(codes[first + b * 16 + i % 16]) }
    );
    let right: Vec<A::Num> = list(
        32,
        |i: usize| -> (q: A::Num)
            requires
                within(i, 32),
            ensures
                q == lanes@[(if i < 16 { 0 } else { n as int }) + b * 16 + i as int % 16],
        {
            if i < 16 {
                A::dup(&lanes[b * 16 + i])
            } else {
                A::dup(&lanes[n + b * 16 + (i - 16)])
            }
        }
    );
    assert(left@ =~= Seq::new(32, |i: int| A::f4_of(codes@[first + b * 16 + i % 16])));
    assert(right@ =~= Seq::new(
        32,
        |i: int| lanes@[(if i < 16 { 0 } else { n as int }) + b * 16 + i % 16],
    ));
    A::bf16(&A::dot(&left, &right))
}

/// A block sum depends on the codes of its row alone, not on where the row lies.
pub(crate) proof fn lemma_block_sum_moved<A: Arith>(
    codes: Seq<u8>,
    first: int,
    other: Seq<u8>,
    other_first: int,
    lanes: Seq<A::Num>,
    n: int,
    b: int,
)
    requires
        0 <= b,
        b * 16 + 16 <= n,
        0 <= first <= first + n <= codes.len(),
        0 <= other_first <= other_first + n <= other.len(),
        codes.subrange(first, first + n) == other.subrange(other_first, other_first + n),
    ensures
        block_sum::<A>(codes, first, lanes, n, b) == block_sum::<A>(
            other,
            other_first,
            lanes,
            n,
            b,
        ),
{
    let left = Seq::new(32, |i: int| A::f4_of(codes[first + b * 16 + i % 16]));
    let right = Seq::new(32, |i: int| A::f4_of(other[other_first + b * 16 + i % 16]));
    assert forall|i: int| 0 <= i < 32 implies left[i] == right[i] by {
        let j = b * 16 + i % 16;
        assert(codes.subrange(first, first + n)[j] == codes[first + j]);
        assert(other.subrange(other_first, other_first + n)[j] == other[other_first + j]);
    }
    assert(left =~= right);
}

/// The product of a row of `n` block-scaled codes and an activation: the block sums times the block
/// scales, which start at `first_scale`.
pub open spec fn row_product<A: Arith>(
    codes: Seq<u8>,
    first: int,
    scales: Seq<A::Num>,
    first_scale: int,
    lanes: Seq<A::Num>,
    n: int,
) -> A::Num {
    A::dot_of(
        Seq::new((n / 16) as nat, |b: int| block_sum::<A>(codes, first, lanes, n, b)),
        Seq::new((n / 16) as nat, |b: int| A::bf16_of(scales[first_scale + b])),
    )
}

/// Codes of a whole up or gate matrix.
pub const UP_CODES: usize = 58_982_400;

/// Block scales of a whole matrix: one for 16 codes.
pub const BLOCK_SCALES: usize = 3_686_400;

/// The commands of `block_sums_all`.
pub open spec fn block_sums_all_log(matrix: Matrix) -> Seq<Command> {
    seq![
        plain(Unit::Tdma, Buffer::Weight(matrix), Buffer::Packed(matrix, 0)),
        using(
            Unit::Main,
            Buffer::Packed(matrix, 0),
            Operands::One(Buffer::ActivationTrf(Stage::Pre)),
            Buffer::BlockSums(matrix, 0),
        ),
    ]
}

/// The sums of all blocks of an up or gate matrix: slice `s` holds the 240 blocks of each of the
/// rows `30 s .. 30 s + 30`.
pub fn block_sums_all<A: Arith>(
    ctx: &mut Context,
    matrix: Matrix,
    w: &Vec<u8>,
    x_trf: &Dm<A::Num>,
) -> (z: Dm<A::Num>)
    requires
        w@.len() == UP_CODES,
        x_trf.shaped(7680),
    ensures
        final(ctx).log() == old(ctx).log() + block_sums_all_log(matrix),
        z.shaped(7200),
        forall|s: int, e: int|
            0 <= s < SLICES && 0 <= e < 7200 ==> #[trigger] z.at(s, e) == block_sum::<A>(
                w@,
                (s * 30 + e / 240) * 3840,
                x_trf.rows@[s]@,
                3840,
                e % 240,
            ),
{
    ctx.issue(Unit::Tdma, Buffer::Weight(matrix), Buffer::Packed(matrix, 0));
    let packed: Dm<u8> = fill(
        115_200,
        |s: usize, e: usize| -> (r: u8)
            requires
                cell(s, e, 115_200),
            ensures
                r == w@[s * 115_200 + e],
        { w[s * 115_200 + e] }
    );
    ctx.issue_with(
        Unit::Main,
        Buffer::Packed(matrix, 0),
        Operands::One(Buffer::ActivationTrf(Stage::Pre)),
        Buffer::BlockSums(matrix, 0),
    );
    let z: Dm<A::Num> = fill(
        7200,
        |s: usize, e: usize| -> (r: A::Num)
            requires
                cell(s, e, 7200),
            ensures
                r == block_sum::<A>(
                    w@,
                    (s * 30 + e as int / 240) * 3840,
                    x_trf.rows@[s as int]@,
                    3840,
                    e as int % 240,
                ),
        {
            proof {
                let from = e as int / 240 * 3840;
                let row = packed.rows@[s as int]@.subrange(from, from + 3840);
                let given = w@.subrange(s * 115_200 + from, s * 115_200 + from + 3840);
                assert forall|j: int| 0 <= j < 3840 implies row[j] == given[j] by {
                    assert(packed.at(s as int, from + j) == w@[s * 115_200 + (from + j)]);
                }
                assert(row =~= given);
                lemma_block_sum_moved::<A>(
                    packed.rows@[s as int]@,
                    e as int / 240 * 3840,
                    w@,
                    (s * 30 + e as int / 240) * 3840,
                    x_trf.rows@[s as int]@,
                    3840,
                    e as int % 240,
                );
            }
            block_sum_of::<A>(&packed.rows[s], e / 240 * 3840, &x_trf.rows[s], 3840, e % 240)
        }
    );
    assert(ctx.log() =~= old(ctx).log() + block_sums_all_log(matrix));
    z
}

/// The commands of `scales_bf16` and `down_scales_bf16`.
pub open spec fn scales_log(matrix: Matrix) -> Seq<Command> {
    seq![
        plain(Unit::Tdma, Buffer::BlockScale(matrix), Buffer::ScaleF8(matrix)),
        plain(Unit::Sub, Buffer::ScaleF8(matrix), Buffer::Scale(matrix)),
    ]
}

/// The block scales of an up or gate matrix, from `f8` to `bf16`: slice `s` holds those of the rows
/// `30 s .. 30 s + 30`.
pub fn scales_bf16<A: Arith>(
    ctx: &mut Context,
    matrix: Matrix,
    scale: &Vec<A::Num>,
) -> (r: Dm<A::Num>)
    requires
        scale@.len() == BLOCK_SCALES,
    ensures
        final(ctx).log() == old(ctx).log() + scales_log(matrix),
        r.shaped(7200),
        forall|s: int, e: int|
            0 <= s < SLICES && 0 <= e < 7200 ==> #[trigger] r.at(s, e) == A::bf16_of(
                scale@[s * 7200 + e],
            ),
{
    ctx.issue(Unit::Tdma, Buffer::BlockScale(matrix), Buffer::ScaleF8(matrix));
    let loaded: Dm<A::Num> = fill(
        7200,
        |s: usize, e: usize| -> (r: A::Num)
            requires
                cell(s, e, 7200),
            ensures
                r == scale@[s * 7200 + e],
        { A::dup(&scale[s * 7200 + e]) }
    );
    ctx.issue(Unit::Sub, Buffer::ScaleF8(matrix), Buffer::Scale(matrix));
    let r: Dm<A::Num> = fill(
        7200,
        |s: usize, e: usize| -> (r: A::Num)
            requires
                cell(s, e, 7200),
            ensures
                r == A::bf16_of(scale@[s * 7200 + e]),
        { A::bf16(loaded.get(s, e)) }
    );
    assert(ctx.log() =~= old(ctx).log() + scales_log(matrix));
    r
}

/// The commands of `apply_scales`.
pub open spec fn apply_scales_log(matrix: Matrix) -> Seq<Command> {
    seq![
        plain(Unit::Sub, Buffer::Scale(matrix), Buffer::ScaleTrf(matrix, 0)),
        using(
            Unit::Main,
            Buffer::BlockSums(matrix, 0),
            Operands::One(Buffer::ScaleTrf(matrix, 0)),
            Buffer::Product(matrix, 0),
        ),
    ]
}

/// The block sums of each of a slice's 30 rows times the row's block scales, added up.
pub fn apply_scales<A: Arith>(
    ctx: &mut Context,
    matrix: Matrix,
    z: &Dm<A::Num>,
    s: &Dm<A::Num>,
) -> (y: Dm<A::Num>)
    requires
        z.shaped(7200),
        s.shaped(7200),
    ensures
        final(ctx).log() == old(ctx).log() + apply_scales_log(matrix),
        y.shaped(30),
        forall|i: int, r: int|
            0 <= i < SLICES && 0 <= r < 30 ==> #[trigger] y.at(i, r) == A::dot_of(
                z.rows@[i]@.subrange(r * 240, r * 240 + 240),
                s.rows@[i]@.subrange(r * 240, r * 240 + 240),
            ),
{
    ctx.issue(Unit::Sub, Buffer::Scale(matrix), Buffer::ScaleTrf(matrix, 0));
    ctx.issue_with(
        Unit::Main,
        Buffer::BlockSums(matrix, 0),
        Operands::One(Buffer::ScaleTrf(matrix, 0)),
        Buffer::Product(matrix, 0),
    );
    let y: Dm<A::Num> = fill(
        30,
        |i: usize, r: usize| -> (q: A::Num)
            requires
                cell(i, r, 30),
            ensures
                q == A::dot_of(
                    z.rows@[i as int]@.subrange(r * 240, r * 240 + 240),
                    s.rows@[i as int]@.subrange(r * 240, r * 240 + 240),
                ),
        { dot_at::<A>(&z.rows[i], r * 240, &s.rows[i], r * 240, 240) }
    );
    assert(ctx.log() =~= old(ctx).log() + apply_scales_log(matrix));
    y
}

/// Row `k` of the fifteen down-projection rows of slice `s`: neighbouring slices interleave.
pub open spec fn down_row(s: int, k: int) -> int {
    s % 256 / 2 * 30 + 2 * k + s % 2
}

/// The down projection's block scales, from `f8` to `bf16`: slice `s` holds the 480 blocks of its
/// cluster's half of each of its fifteen rows.
pub fn down_scales_bf16<A: Arith>(ctx: &mut Context, scale: &Vec<A::Num>) -> (r: Dm<A::Num>)
    requires
        scale@.len() == BLOCK_SCALES,
    ensures
        final(ctx).log() == old(ctx).log() + scales_log(Matrix::Down),
        r.shaped(7200),
        forall|s: int, e: int|
            0 <= s < SLICES && 0 <= e < 7200 ==> #[trigger] r.at(s, e) == A::bf16_of(
                scale@[down_row(s, e / 480) * 960 + s / 256 * 480 + e % 480],
            ),
{
    ctx.issue(Unit::Tdma, Buffer::BlockScale(Matrix::Down), Buffer::ScaleF8(Matrix::Down));
    let given: Dm<A::Num> = fill(
        7200,
        |s: usize, e: usize| -> (r: A::Num)
            requires
                cell(s, e, 7200),
            ensures
                r == scale@[down_row(s as int, e as int / 480) * 960 + s as int / 256 * 480
                    + e as int % 480],
        {
            let h: usize = s % 256 / 2 * 30 + 2 * (e / 480) + s % 2;
            A::dup(&scale[h * 960 + s / 256 * 480 + e % 480])
        }
    );
    ctx.issue(Unit::Sub, Buffer::ScaleF8(Matrix::Down), Buffer::Scale(Matrix::Down));
    let r: Dm<A::Num> = fill(
        7200,
        |s: usize, e: usize| -> (r: A::Num)
            requires
                cell(s, e, 7200),
            ensures
                r == A::bf16_of(given.at(s as int, e as int)),
        { A::bf16(given.get(s, e)) }
    );
    assert(ctx.log() =~= old(ctx).log() + scales_log(Matrix::Down));
    r
}

/// The commands of `down_tile` for the tile that starts at row `start`.
pub open spec fn down_tile_log(start: usize) -> Seq<Command> {
    seq![
        plain(Unit::Tdma, Buffer::Weight(Matrix::Down), Buffer::Packed(Matrix::Down, start)),
        using(
            Unit::Main,
            Buffer::Packed(Matrix::Down, start),
            Operands::One(Buffer::ActivationTrf(Stage::Gated)),
            Buffer::BlockSums(Matrix::Down, start),
        ),
        plain(Unit::Sub, Buffer::Scale(Matrix::Down), Buffer::ScaleTrf(Matrix::Down, start)),
        using(
            Unit::Main,
            Buffer::BlockSums(Matrix::Down, start),
            Operands::One(Buffer::ScaleTrf(Matrix::Down, start)),
            Buffer::Product(Matrix::Down, start),
        ),
    ]
}

/// What slice `s` computes of its row `k`: the cluster's half of the row against the cluster's
/// columns.
pub open spec fn down_part<A: Arith>(
    w: Seq<u8>,
    x_trf: Dm<A::Num>,
    scale: Dm<A::Num>,
    s: int,
    k: int,
) -> A::Num {
    A::dot_of(
        Seq::new(
            480,
            |b: int|
                block_sum::<A>(
                    w,
                    down_row(s, k) * 15_360 + s / 256 * 7680,
                    x_trf.rows@[s]@,
                    7680,
                    b,
                ),
        ),
        scale.rows@[s]@.subrange(k * 480, k * 480 + 480),
    )
}

/// Rows `start .. start + len` of the fifteen down-projection rows of every slice, into `out`.
pub fn down_tile<A: Arith>(
    ctx: &mut Context,
    w: &Vec<u8>,
    x_trf: &Dm<A::Num>,
    scale: &Dm<A::Num>,
    out: &mut Dm<A::Num>,
    start: usize,
    len: usize,
)
    requires
        w@.len() == UP_CODES,
        x_trf.shaped(15_360),
        scale.shaped(7200),
        old(out).shaped(15),
        start + len <= 15,
    ensures
        final(ctx).log() == old(ctx).log() + down_tile_log(start),
        final(out).shaped(15),
        forall|s: int, k: int|
            0 <= s < SLICES && 0 <= k < 15 ==> #[trigger] final(out).at(s, k) == (if start <= k
                && k < start + len {
                down_part::<A>(w@, *x_trf, *scale, s, k)
            } else {
                old(out).at(s, k)
            }),
{
    ctx.issue(Unit::Tdma, Buffer::Weight(Matrix::Down), Buffer::Packed(Matrix::Down, start));
    let packed: Dm<u8> = fill(
        len * 7680,
        |s: usize, e: usize| -> (r: u8)
            requires
                cell(s, e, len * 7680),
            ensures
                r == w@[down_row(s as int, start + e as int / 7680) * 15_360 + s as int / 256 * 7680
                    + e as int % 7680],
        {
            let h: usize = s % 256 / 2 * 30 + 2 * (start + e / 7680) + s % 2;
            w[h * 15_360 + s / 256 * 7680 + e % 7680]
        }
    );
    ctx.issue_with(
        Unit::Main,
        Buffer::Packed(Matrix::Down, start),
        Operands::One(Buffer::ActivationTrf(Stage::Gated)),
        Buffer::BlockSums(Matrix::Down, start),
    );
    let z: Dm<A::Num> = fill(
        len * 480,
        |s: usize, e: usize| -> (r: A::Num)
            requires
                cell(s, e, len * 480),
            ensures
                r == block_sum::<A>(
                    w@,
                    down_row(s as int, start + e as int / 480) * 15_360 + s as int / 256 * 7680,
                    x_trf.rows@[s as int]@,
                    7680,
                    e as int % 480,
                ),
        {
            proof {
                let from = e as int / 480 * 7680;
                let there = down_row(s as int, start + e as int / 480) * 15_360 + s as int / 256
                    * 7680;
                let row = packed.rows@[s as int]@.subrange(from, from + 7680);
                let given = w@.subrange(there, there + 7680);
                assert forall|j: int| 0 <= j < 7680 implies row[j] == given[j] by {
                    assert((from + j) / 7680 == e as int / 480);
                    assert((from + j) % 7680 == j);
                    assert(packed.at(s as int, from + j) == w@[there + j]);
                }
                assert(row =~= given);
                lemma_block_sum_moved::<A>(
                    packed.rows@[s as int]@,
                    from,
                    w@,
                    there,
                    x_trf.rows@[s as int]@,
                    7680,
                    e as int % 480,
                );
            }
            block_sum_of::<A>(&packed.rows[s], e / 480 * 7680, &x_trf.rows[s], 7680, e % 480)
        }
    );
    ctx.issue(Unit::Sub, Buffer::Scale(Matrix::Down), Buffer::ScaleTrf(Matrix::Down, start));
    ctx.issue_with(
        Unit::Main,
        Buffer::BlockSums(Matrix::Down, start),
        Operands::One(Buffer::ScaleTrf(Matrix::Down, start)),
        Buffer::Product(Matrix::Down, start),
    );
    let was: &Dm<A::Num> = &*out;
    let next: Dm<A::Num> = fill(
        15,
        |s: usize, k: usize| -> (r: A::Num)
            requires
                cell(s, k, 15),
            ensures
                r == (if start <= k && k < start + len {
                    down_part::<A>(w@, *x_trf, *scale, s as int, k as int)
                } else {
                    was.at(s as int, k as int)
                }),
        {
            if start <= k && k < start + len {
                let sums: Vec<A::Num> = list(
                    480,
                    |b: usize| -> (q: A::Num)
                        requires
                            within(b, 480),
                        ensures
                            q == z.at(s as int, (k - start) * 480 + b),
                    { A::dup(z.get(s, (k - start) * 480 + b)) }
                );
                let scales: Vec<A::Num> = list(
                    480,
                    |b: usize| -> (q: A::Num)
                        requires
                            within(b, 480),
                        ensures
                            q == scale.at(s as int, k * 480 + b),
                    { A::dup(scale.get(s, k * 480 + b)) }
                );
                proof {
                    let want = Seq::new(
                        480,
                        |b: int|
                            block_sum::<A>(
                                w@,
                                down_row(s as int, k as int) * 15_360 + s as int / 256 * 7680,
                                x_trf.rows@[s as int]@,
                                7680,
                                b,
                            ),
                    );
                    assert forall|b: int| 0 <= b < 480 implies sums@[b] == want[b] by {
                        let e = (k - start) * 480 + b;
                        assert(e / 480 == k - start);
                        assert(e % 480 == b);
                    }
                    assert(sums@ =~= want);
                    assert(scales@ =~= scale.rows@[s as int]@.subrange(k * 480, k * 480 + 480));
                }
                A::dot(&sums, &scales)
            } else {
                A::dup(was.get(s, k))
            }
        }
    );
    *out = next;
    assert(ctx.log() =~= old(ctx).log() + down_tile_log(start));
}

} // verus!
