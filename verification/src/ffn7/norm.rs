//! The normalized hidden state, as two terms in every slice.

use vstd::prelude::*;

use crate::arith::Arith;
use crate::context::{plain, using, Buffer, Command, Context, Operands, Stage, Unit};
use crate::hidden::{mean_square, H};
use crate::quant::{split_terms, split_terms_log, term};
use crate::tensor::{cell, fill, fresh, in_slot, list, ring_member, within, Dm, SLICES};

verus! {

/// The gain on the activation before it is split into terms.
pub open spec fn up_gain<A: Arith>() -> A::Num {
    A::lit_of(128, 0)
}

/// Piece `p` of the hidden state: 480 columns.
pub open spec fn piece<V>(v: Seq<V>, p: int) -> Seq<V> {
    v.subrange(p * 480, p * 480 + 480)
}

/// The root mean square of the hidden state, summed over its eight pieces.
pub open spec fn rms<A: Arith>(v: Seq<A::Num>, eps: A::Num) -> A::Num {
    A::sqrt_of(
        A::add_of(A::sum_of(Seq::new(8, |p: int| mean_square::<A>(piece(v, p)))), eps),
    )
}

/// Column `h` of the normalized hidden state.
pub open spec fn normalized<A: Arith>(
    x: Seq<A::Num>,
    weight: Seq<A::Num>,
    eps: A::Num,
    h: int,
) -> A::Num {
    A::bf16_of(A::mul_of(A::div_of(x[h], rms::<A>(x, eps)), weight[h]))
}

/// The commands of `normalize_quantize`.
pub open spec fn normalize_quantize_log() -> Seq<Command> {
    seq![
        plain(Unit::Sub, Buffer::Fresh, Buffer::Discarded),
        plain(Unit::Tdma, Buffer::NormWeight, Buffer::Pool(1)),
        plain(Unit::Tdma, Buffer::Hidden, Buffer::Pool(0)),
        plain(Unit::Main, Buffer::Pool(0), Buffer::MeanSquare(Stage::Pre)),
        plain(Unit::Main, Buffer::MeanSquare(Stage::Pre), Buffer::Rms(Stage::Pre)),
        plain(Unit::Sub, Buffer::Pool(1), Buffer::NormWeightVrf(Stage::Pre)),
        plain(Unit::Sub, Buffer::Rms(Stage::Pre), Buffer::RmsVrf(Stage::Pre)),
        using(
            Unit::Main,
            Buffer::Pool(0),
            Operands::Two(Buffer::RmsVrf(Stage::Pre), Buffer::NormWeightVrf(Stage::Pre)),
            Buffer::Normalized,
        ),
    ] + split_terms_log(Stage::Pre, Buffer::Normalized) + seq![
        using(
            Unit::Main,
            Buffer::Term(Stage::Pre, 0),
            Operands::One(Buffer::Term(Stage::Pre, 1)),
            Buffer::Spread,
        ),
        plain(Unit::Main, Buffer::Spread, Buffer::Gathered(Stage::Pre)),
        plain(Unit::Sub, Buffer::Gathered(Stage::Pre), Buffer::ActivationTrf(Stage::Pre)),
    ]
}

/// Slice `s` is one of those that the load of the pieces reaches: the first ring of every four.
pub open spec fn loaded(s: int) -> bool {
    s % 32 < 8
}

/// The two-slot pool holds `v` in slot `slot`, wherever the load reaches.
pub open spec fn piece_slot<V>(pool: Dm<V>, slot: int, v: Seq<V>) -> bool {
    forall|s: int, e: int|
        0 <= s < SLICES && loaded(s) && in_slot(e, slot, 480) ==> #[trigger] pool.at(s, e) == v[s
            % 8 * 480 + e - slot * 480]
}

/// Loads `v` into slot `slot` of the piece pool.
fn load_pieces<A: Arith>(pool: &mut Dm<A::Num>, v: &Vec<A::Num>, slot: usize)
    requires
        old(pool).shaped(960),
        v@.len() == H,
        slot < 2,
    ensures
        final(pool).shaped(960),
        piece_slot(*final(pool), slot as int, v@),
        forall|s: int, e: int|
            0 <= s < SLICES && 0 <= e < 960 && !(loaded(s) && in_slot(e, slot as int, 480))
                ==> #[trigger] final(pool).at(s, e) == old(pool).at(s, e),
{
    let was: &Dm<A::Num> = &*pool;
    let next: Dm<A::Num> = fill(
        960,
        |s: usize, e: usize| -> (r: A::Num)
            requires
                cell(s, e, 960),
            ensures
                r == (if loaded(s as int) && in_slot(e as int, slot as int, 480) {
                    v@[s as int % 8 * 480 + e - slot * 480]
                } else {
                    was.at(s as int, e as int)
                }),
        {
            if s % 32 < 8 && slot * 480 <= e && e < slot * 480 + 480 {
                A::dup(&v[s % 8 * 480 + (e - slot * 480)])
            } else {
                A::dup(was.get(s, e))
            }
        }
    );
    *pool = next;
}

/// The mean-square pass: every slice squares and adds the 480 elements from `start` on.
pub(crate) fn mean_square_pass<A: Arith>(
    x: &Dm<A::Num>,
    start: usize,
    elems: usize,
) -> (r: Dm<A::Num>)
    requires
        x.shaped(elems as int),
        start + 480 <= elems,
    ensures
        r.shaped(1),
        forall|s: int|
            0 <= s < SLICES ==> #[trigger] r.at(s, 0) == mean_square::<A>(
                x.rows@[s]@.subrange(start as int, start + 480),
            ),
{
    let h: A::Num = A::lit(3840, 0);
    fill(
        1,
        |s: usize, e: usize| -> (r: A::Num)
            requires
                cell(s, e, 1),
            ensures
                r == mean_square::<A>(x.rows@[s as int]@.subrange(start as int, start + 480)),
        {
            let squares: Vec<A::Num> = list(
                480,
                |i: usize| -> (q: A::Num)
                    requires
                        within(i, 480),
                    ensures
                        q == A::mul_of(x.at(s as int, start + i), x.at(s as int, start + i)),
                { A::mul(x.get(s, start + i), x.get(s, start + i)) }
            );
            let ghost v = x.rows@[s as int]@.subrange(start as int, start + 480);
            assert(squares@ =~= Seq::new(v.len(), |i: int| A::mul_of(v[i], v[i])));
            A::div(&A::sum(&squares), &h)
        }
    )
}

/// The root pass: the ring of eight adds its mean squares, and every slice takes the root.
pub(crate) fn rms_pass<A: Arith>(ms: &Dm<A::Num>, eps: &A::Num) -> (r: Dm<A::Num>)
    requires
        ms.shaped(1),
    ensures
        r.shaped(1),
        forall|s: int|
            0 <= s < SLICES ==> #[trigger] r.at(s, 0) == A::sqrt_of(
                A::add_of(
                    A::sum_of(Seq::new(8, |k: int| ms.at(ring_member(s, 8, 1, k), 0))),
                    *eps,
                ),
            ),
{
    fill(
        1,
        |s: usize, e: usize| -> (r: A::Num)
            requires
                cell(s, e, 1),
            ensures
                r == A::sqrt_of(
                    A::add_of(
                        A::sum_of(Seq::new(8, |k: int| ms.at(ring_member(s as int, 8, 1, k), 0))),
                        *eps,
                    ),
                ),
        {
            let parts: Vec<A::Num> = list(
                8,
                |k: usize| -> (q: A::Num)
                    requires
                        within(k, 8),
                    ensures
                        q == ms.at(ring_member(s as int, 8, 1, k as int), 0),
                { A::dup(ms.get(s / 8 * 8 + k, 0)) }
            );
            assert(parts@ =~= Seq::new(8, |k: int| ms.at(ring_member(s as int, 8, 1, k), 0)));
            A::sqrt(&A::add(&A::sum(&parts), eps))
        }
    )
}

/// The normalizing pass over the piece pool: slot 0 over the root, times slot 1.
fn normalize_pass<A: Arith>(pool: &Dm<A::Num>, root: &Dm<A::Num>) -> (r: Dm<A::Num>)
    requires
        pool.shaped(960),
        root.shaped(1),
    ensures
        r.shaped(480),
        forall|s: int, e: int|
            0 <= s < SLICES && 0 <= e < 480 ==> #[trigger] r.at(s, e) == A::bf16_of(
                A::mul_of(A::div_of(pool.at(s, e), root.at(s, 0)), pool.at(s, 480 + e)),
            ),
{
    fill(
        480,
        |s: usize, e: usize| -> (r: A::Num)
            requires
                cell(s, e, 480),
            ensures
                r == A::bf16_of(
                    A::mul_of(
                        A::div_of(pool.at(s as int, e as int), root.at(s as int, 0)),
                        pool.at(s as int, 480 + e),
                    ),
                ),
        { A::bf16(&A::mul(&A::div(pool.get(s, e), root.get(s, 0)), pool.get(s, 480 + e))) }
    )
}

/// Hands the terms of the pieces to every slice: first over the four rings of a group, of which
/// only ring 0 is kept, then along each ring of eight.
fn gather_pieces<A: Arith>(q: &Dm<A::Num>) -> (r: Dm<A::Num>)
    requires
        q.shaped(960),
    ensures
        r.shaped(7680),
        forall|s: int, e: int|
            0 <= s < SLICES && 0 <= e < 7680 ==> #[trigger] r.at(s, e) == q.at(
                s / 32 * 32 + e % 3840 / 480,
                e / 3840 * 480 + e % 480,
            ),
{
    let spread: Dm<A::Num> = fill(
        3840,
        |s: usize, e: usize| -> (r: A::Num)
            requires
                cell(s, e, 3840),
            ensures
                r == q.at(ring_member(s as int, 4, 8, e as int / 960), e as int % 960),
        { A::dup(q.get(s / 32 * 32 + e / 960 * 8 + s % 8, e % 960)) }
    );
    let all: Dm<A::Num> = fill(
        7680,
        |s: usize, e: usize| -> (r: A::Num)
            requires
                cell(s, e, 7680),
            ensures
                r == spread.at(
                    ring_member(s as int, 8, 1, e as int % 3840 / 480),
                    e as int / 3840 * 480 + e as int % 480,
                ),
        { A::dup(spread.get(s / 8 * 8 + e % 3840 / 480, e / 3840 * 480 + e % 480)) }
    );
    assert forall|s: int, e: int| 0 <= s < SLICES && 0 <= e < 7680 implies #[trigger] all.at(s, e)
        == q.at(s / 32 * 32 + e % 3840 / 480, e / 3840 * 480 + e % 480) by {
        let p = e % 3840 / 480;
        let w = e / 3840 * 480 + e % 480;
        assert(all.at(s, e) == spread.at(s / 8 * 8 + p, w));
        assert((s / 8 * 8 + p) / 32 == s / 32);
        assert((s / 8 * 8 + p) % 8 == p);
    }
    all
}

/// The normalized hidden state as two terms, in the tensor register file of every slice: lane `t`
/// holds term `t` of all 3840 columns. Also returns the piece pool, with the hidden state in slot 0
/// and the norm weight in slot 1.
///
/// The first command reads a fresh tensor and depends on nothing; nobody reads its result. The norm
/// weight is loaded before the hidden state, into the same pool.
pub fn normalize_quantize<A: Arith>(
    ctx: &mut Context,
    x: &Vec<A::Num>,
    rms_weight: &Vec<A::Num>,
    eps: &A::Num,
) -> (r: (Dm<A::Num>, Dm<A::Num>))
    requires
        x@.len() == H,
        rms_weight@.len() == H,
    ensures
        final(ctx).log() == old(ctx).log() + normalize_quantize_log(),
        r.0.shaped(7680),
        forall|s: int, e: int|
            0 <= s < SLICES && 0 <= e < 7680 ==> #[trigger] r.0.at(s, e) == term::<A>(
                normalized::<A>(x@, rms_weight@, *eps, e % 3840),
                up_gain::<A>(),
                e / 3840,
            ),
        r.1.shaped(960),
        piece_slot(r.1, 0, x@),
        piece_slot(r.1, 1, rms_weight@),
{
    ctx.issue(Unit::Sub, Buffer::Fresh, Buffer::Discarded);

    let mut pool: Dm<A::Num> = fresh::<A>(960);
    ctx.issue(Unit::Tdma, Buffer::NormWeight, Buffer::Pool(1));
    load_pieces::<A>(&mut pool, rms_weight, 1);
    ctx.issue(Unit::Tdma, Buffer::Hidden, Buffer::Pool(0));
    load_pieces::<A>(&mut pool, x, 0);

    ctx.issue(Unit::Main, Buffer::Pool(0), Buffer::MeanSquare(Stage::Pre));
    let ms: Dm<A::Num> = mean_square_pass::<A>(&pool, 0, 960);
    ctx.issue(Unit::Main, Buffer::MeanSquare(Stage::Pre), Buffer::Rms(Stage::Pre));
    let root: Dm<A::Num> = rms_pass::<A>(&ms, eps);
    ctx.issue(Unit::Sub, Buffer::Pool(1), Buffer::NormWeightVrf(Stage::Pre));
    ctx.issue(Unit::Sub, Buffer::Rms(Stage::Pre), Buffer::RmsVrf(Stage::Pre));
    ctx.issue_with(
        Unit::Main,
        Buffer::Pool(0),
        Operands::Two(Buffer::RmsVrf(Stage::Pre), Buffer::NormWeightVrf(Stage::Pre)),
        Buffer::Normalized,
    );
    let norm: Dm<A::Num> = normalize_pass::<A>(&pool, &root);

    let gain: A::Num = A::lit(128, 0);
    let q: Dm<A::Num> = split_terms::<A>(ctx, Stage::Pre, Buffer::Normalized, &norm, 480, &gain);
    ctx.issue_with(
        Unit::Main,
        Buffer::Term(Stage::Pre, 0),
        Operands::One(Buffer::Term(Stage::Pre, 1)),
        Buffer::Spread,
    );
    ctx.issue(Unit::Main, Buffer::Spread, Buffer::Gathered(Stage::Pre));
    let trf: Dm<A::Num> = gather_pieces::<A>(&q);
    ctx.issue(Unit::Sub, Buffer::Gathered(Stage::Pre), Buffer::ActivationTrf(Stage::Pre));
    assert(ctx.log() =~= old(ctx).log() + normalize_quantize_log());

    proof {
        lemma_pieces_normalized::<A>(x@, rms_weight@, *eps, pool, ms, root, norm);
        assert forall|s: int, e: int| 0 <= s < SLICES && 0 <= e < 7680 implies #[trigger] trf.at(
            s,
            e,
        ) == term::<A>(
            normalized::<A>(x@, rms_weight@, *eps, e % 3840),
            up_gain::<A>(),
            e / 3840,
        ) by {
            let live = s / 32 * 32 + e % 3840 / 480;
            let w = e / 3840 * 480 + e % 480;
            assert(trf.at(s, e) == q.at(live, w));
            assert(loaded(live));
            assert(live % 8 * 480 + e % 480 == e % 3840);
            assert(norm.at(live, e % 480) == normalized::<A>(x@, rms_weight@, *eps, e % 3840));
        }
    }
    (trf, pool)
}

/// Where the load reached, the normalizing passes compute the columns of the slice's piece.
proof fn lemma_pieces_normalized<A: Arith>(
    x: Seq<A::Num>,
    weight: Seq<A::Num>,
    eps: A::Num,
    pool: Dm<A::Num>,
    ms: Dm<A::Num>,
    root: Dm<A::Num>,
    norm: Dm<A::Num>,
)
    requires
        x.len() == H,
        weight.len() == H,
        pool.shaped(960),
        piece_slot(pool, 0, x),
        piece_slot(pool, 1, weight),
        forall|s: int|
            0 <= s < SLICES ==> #[trigger] ms.at(s, 0) == mean_square::<A>(
                pool.rows@[s]@.subrange(0, 480),
            ),
        forall|s: int|
            0 <= s < SLICES ==> #[trigger] root.at(s, 0) == A::sqrt_of(
                A::add_of(
                    A::sum_of(Seq::new(8, |k: int| ms.at(ring_member(s, 8, 1, k), 0))),
                    eps,
                ),
            ),
        forall|s: int, e: int|
            0 <= s < SLICES && 0 <= e < 480 ==> #[trigger] norm.at(s, e) == A::bf16_of(
                A::mul_of(A::div_of(pool.at(s, e), root.at(s, 0)), pool.at(s, 480 + e)),
            ),
    ensures
        forall|s: int, e: int|
            0 <= s < SLICES && loaded(s) && 0 <= e < 480 ==> #[trigger] norm.at(s, e)
                == normalized::<A>(x, weight, eps, s % 8 * 480 + e),
{
    assert forall|s: int| 0 <= s < SLICES && loaded(s) implies #[trigger] ms.at(s, 0)
        == mean_square::<A>(piece(x, s % 8)) by {
        lemma_piece_row(x, pool, s);
    }
    assert forall|s: int, e: int| 0 <= s < SLICES && loaded(s) && 0 <= e < 480 implies
        #[trigger] norm.at(s, e) == normalized::<A>(x, weight, eps, s % 8 * 480 + e) by {
        let got = Seq::new(8, |k: int| ms.at(ring_member(s, 8, 1, k), 0));
        let want = Seq::new(8, |p: int| mean_square::<A>(piece(x, p)));
        assert forall|k: int| 0 <= k < 8 implies got[k] == want[k] by {
            lemma_ring_of_eight(s, k);
            assert(ms.at(s / 8 * 8 + k, 0) == mean_square::<A>(piece(x, k)));
        }
        assert(got =~= want);
        assert(root.at(s, 0) == rms::<A>(x, eps));
        assert(in_slot(e, 0, 480) && in_slot(480 + e, 1, 480));
        assert(pool.at(s, e) == x[s % 8 * 480 + e]);
        assert(pool.at(s, 480 + e) == weight[s % 8 * 480 + e]);
    }
}

/// The slice of a loaded ring that holds piece `k`.
proof fn lemma_ring_of_eight(s: int, k: int)
    requires
        0 <= s < SLICES,
        loaded(s),
        0 <= k < 8,
    ensures
        0 <= s / 8 * 8 + k < SLICES,
        loaded(s / 8 * 8 + k),
        (s / 8 * 8 + k) % 8 == k,
        ring_member(s, 8, 1, k) == s / 8 * 8 + k,
{
}

/// Where the load reached, slot 0 holds the slice's piece.
proof fn lemma_piece_row<V>(x: Seq<V>, pool: Dm<V>, s: int)
    requires
        x.len() == H,
        pool.shaped(960),
        piece_slot(pool, 0, x),
        0 <= s < SLICES,
        loaded(s),
    ensures
        pool.rows@[s]@.subrange(0, 480) == piece(x, s % 8),
{
    let row = pool.rows@[s]@.subrange(0, 480);
    assert(pool.rows@[s]@.len() == 960);
    assert forall|e: int| 0 <= e < 480 implies row[e] == piece(x, s % 8)[e] by {
        assert(in_slot(e, 0, 480));
        assert(pool.at(s, e) == x[s % 8 * 480 + e]);
    }
    assert(row =~= piece(x, s % 8));
}

} // verus!
