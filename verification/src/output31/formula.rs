//! Which operations the output projection applies to which numbers, and in which order.

use std::rc::Rc;

use vstd::prelude::*;

use crate::arith::Arith;
use crate::hidden::mean_square;
use crate::output31::{
    channel_scaled, contracted, inv_rms, level_sum, projection, row_slice, tail_row, tile_row,
};
use crate::quant::term;
use crate::symbolic::{terms, Symbolic, Term};
use crate::tensor::Dm;

verus! {

/// A projected row: each of sixteen blocks of 256 columns is contracted with both levels, the
/// levels of a block are added, the blocks are added, and the sum is rounded once. The levels are
/// terms at a gain of sixteen.
pub proof fn law_projected_formula(weight: Seq<Rc<Term>>, x: Seq<Rc<Term>>, h: int)
    requires
        0 <= h < 3840,
    ensures
        projection::<Symbolic>(weight, x).len() == 3840,
        projection::<Symbolic>(weight, x)[h] == Rc::new(
            Term::Bf16(
                Rc::new(
                    Term::Sum(
                        Rc::new(
                            terms(
                                Seq::new(
                                    16,
                                    |j: int|
                                        Rc::new(
                                            Term::Sum(
                                                Rc::new(
                                                    terms(
                                                        seq![
                                                            level(weight, x, h, j, 0),
                                                            level(weight, x, h, j, 1),
                                                        ],
                                                    ),
                                                ),
                                            ),
                                        ),
                                ),
                            ),
                        ),
                    ),
                ),
            ),
        ),
{
    let got = Seq::new(
        16,
        |j: int|
            Symbolic::sum_of(
                Seq::new(
                    2,
                    |l: int|
                        Symbolic::dot_of(
                            weight.subrange(h * 4096 + j * 256, h * 4096 + j * 256 + 256),
                            Seq::new(
                                256,
                                |q: int|
                                    term::<Symbolic>(
                                        x[j * 256 + q],
                                        Rc::new(Term::Lit(16, 0)),
                                        l,
                                    ),
                            ),
                        ),
                ),
            ),
    );
    let want = Seq::new(
        16,
        |j: int|
            Rc::new(
                Term::Sum(
                    Rc::new(
                        terms(seq![level(weight, x, h, j, 0), level(weight, x, h, j, 1)]),
                    ),
                ),
            ),
    );
    assert forall|j: int| 0 <= j < 16 implies got[j] == want[j] by {
        assert(Seq::new(
            2,
            |l: int|
                Symbolic::dot_of(
                    weight.subrange(h * 4096 + j * 256, h * 4096 + j * 256 + 256),
                    Seq::new(
                        256,
                        |q: int|
                            term::<Symbolic>(x[j * 256 + q], Rc::new(Term::Lit(16, 0)), l),
                    ),
                ),
        ) =~= seq![level(weight, x, h, j, 0), level(weight, x, h, j, 1)]);
    }
    assert(got =~= want);
}

/// Block `j` of row `h` against level `l`.
pub open spec fn level(
    weight: Seq<Rc<Term>>,
    x: Seq<Rc<Term>>,
    h: int,
    j: int,
    l: int,
) -> Rc<Term> {
    Rc::new(
        Term::Dot(
            Rc::new(terms(weight.subrange(h * 4096 + j * 256, h * 4096 + j * 256 + 256))),
            Rc::new(
                terms(
                    Seq::new(
                        256,
                        |q: int| term::<Symbolic>(x[j * 256 + q], Rc::new(Term::Lit(16, 0)), l),
                    ),
                ),
            ),
        ),
    )
}

/// What slice `g` of the tail contributes to the mean square.
pub open spec fn slice_mean(
    z: Seq<Rc<Term>>,
    scale: Seq<Rc<Term>>,
    g: int,
) -> Rc<Term> {
    Rc::new(
        Term::Div(
            Rc::new(
                Term::Sum(
                    Rc::new(
                        terms(
                            Seq::new(
                                240,
                                |e: int|
                                    Rc::new(
                                        Term::Mul(
                                            Rc::new(Term::Mul(z[g * 240 + e], scale[g * 240 + e])),
                                            Rc::new(Term::Mul(z[g * 240 + e], scale[g * 240 + e])),
                                        ),
                                    ),
                            ),
                        ),
                    ),
                ),
            ),
            Rc::new(Term::Lit(3840, 0)),
        ),
    )
}

/// The reciprocal root: the contributions of sixteen slices are added, epsilon times sixteen times
/// sixteen is added, and the root of the sum is divided by the sum.
pub proof fn law_inv_rms_formula(z: Seq<Rc<Term>>, scale: Seq<Rc<Term>>, eps: Rc<Term>)
    requires
        z.len() == 3840,
    ensures
        ({
            let t = Rc::new(
                Term::Add(
                    Rc::new(
                        Term::Sum(Rc::new(terms(Seq::new(16, |g: int| slice_mean(z, scale, g))))),
                    ),
                    Rc::new(
                        Term::Mul(
                            Rc::new(Term::Mul(eps, Rc::new(Term::Lit(16, 0)))),
                            Rc::new(Term::Lit(16, 0)),
                        ),
                    ),
                ),
            );
            inv_rms::<Symbolic>(channel_scaled::<Symbolic>(z, scale), eps) == Rc::new(
                Term::Div(Rc::new(Term::Sqrt(t)), t),
            )
        }),
{
    let y = channel_scaled::<Symbolic>(z, scale);
    let got = Seq::new(16, |g: int| mean_square::<Symbolic>(y.subrange(g * 240, g * 240 + 240)));
    let want = Seq::new(16, |g: int| slice_mean(z, scale, g));
    assert forall|g: int| 0 <= g < 16 implies got[g] == want[g] by {
        let v = y.subrange(g * 240, g * 240 + 240);
        assert(Seq::new(v.len(), |i: int| Symbolic::mul_of(v[i], v[i])) =~= Seq::new(
            240,
            |e: int|
                Rc::new(
                    Term::Mul(
                        Rc::new(Term::Mul(z[g * 240 + e], scale[g * 240 + e])),
                        Rc::new(Term::Mul(z[g * 240 + e], scale[g * 240 + e])),
                    ),
                ),
        ));
    }
    assert(got =~= want);
}

/// A row of the tail: times the channel scale, the norm weight and the reciprocal root, plus the
/// residual, and one rounding.
pub proof fn law_tail_row_formula(
    z: Seq<Rc<Term>>,
    scale: Seq<Rc<Term>>,
    rms_weight: Seq<Rc<Term>>,
    residual: Seq<Rc<Term>>,
    eps: Rc<Term>,
    h: int,
)
    ensures
        tail_row::<Symbolic>(z, scale, rms_weight, residual, eps, h) == Rc::new(
            Term::Bf16(
                Rc::new(
                    Term::Add(
                        Rc::new(
                            Term::Mul(
                                Rc::new(
                                    Term::Mul(
                                        Rc::new(Term::Mul(z[h], scale[h])),
                                        rms_weight[h],
                                    ),
                                ),
                                inv_rms::<Symbolic>(channel_scaled::<Symbolic>(z, scale), eps),
                            ),
                        ),
                        residual[h],
                    ),
                ),
            ),
        ),
{
}

/// A row of a weight tile: the 256 columns of each of sixteen slices are contracted with the first
/// level and with the second one, the two are added, the sixteen sums are added, and the sum is
/// rounded once.
pub proof fn law_tile_row_formula(weight: Dm<Rc<Term>>, x_trf: Dm<Rc<Term>>, s: int, r: int)
    requires
        x_trf.shaped(512),
    ensures
        tile_row::<Symbolic>(weight, x_trf, s, r) == Rc::new(
            Term::Bf16(
                Rc::new(
                    Term::Sum(
                        Rc::new(terms(Seq::new(16, |j: int| slice_levels(weight, x_trf, s + j, r)))),
                    ),
                ),
            ),
        ),
{
    let got = Seq::new(16, |j: int| level_sum::<Symbolic>(weight, x_trf, s + j, r));
    let want = Seq::new(16, |j: int| slice_levels(weight, x_trf, s + j, r));
    assert forall|j: int| 0 <= j < 16 implies got[j] == want[j] by {
        let row = weight.rows@[s + j]@.subrange(r * 256, r * 256 + 256);
        let lanes = x_trf.rows@[s + j]@;
        assert(Seq::new(
            2,
            |l: int|
                Symbolic::dot_of(
                    weight.rows@[s + j]@.subrange(r * 256, r * 256 + 256),
                    x_trf.rows@[s + j]@.subrange(l * 256, l * 256 + 256),
                ),
        ) =~= seq![
            Symbolic::dot_of(row, lanes.subrange(0, 256)),
            Symbolic::dot_of(row, lanes.subrange(256, 512)),
        ]);
    }
    assert(got =~= want);
}

/// What slice `s` contributes to row `r` of a tile.
pub open spec fn slice_levels(
    weight: Dm<Rc<Term>>,
    x_trf: Dm<Rc<Term>>,
    s: int,
    r: int,
) -> Rc<Term> {
    let row = Rc::new(terms(weight.rows@[s]@.subrange(r * 256, r * 256 + 256)));
    Rc::new(
        Term::Sum(
            Rc::new(
                terms(
                    seq![
                        Rc::new(Term::Dot(row, Rc::new(terms(x_trf.rows@[s]@.subrange(0, 256))))),
                        Rc::new(Term::Dot(row, Rc::new(terms(x_trf.rows@[s]@.subrange(256, 512))))),
                    ],
                ),
            ),
        ),
    )
}

/// A tile is contracted alike wherever its rows go: two offsets give the same rows, in the row slices,
/// and leave every other row of every slice alone.
pub proof fn law_tile_offset<A: Arith>(
    before: Dm<A::Num>,
    after: Dm<A::Num>,
    other_before: Dm<A::Num>,
    other_after: Dm<A::Num>,
    weight: Dm<A::Num>,
    x_trf: Dm<A::Num>,
    offset: int,
    other: int,
    rows: int,
    s: int,
    k: int,
)
    requires
        contracted::<A>(before, after, weight, x_trf, offset, rows),
        contracted::<A>(other_before, other_after, weight, x_trf, other, rows),
        0 <= s < 512,
        0 <= offset,
        0 <= other,
        offset + rows <= 120,
        other + rows <= 120,
        0 <= k < 120,
    ensures
        s % 16 == 0 && k < rows ==> after.at(s, offset + k) == tile_row::<A>(weight, x_trf, s, k),
        s % 16 == 0 && k < rows ==> after.at(s, offset + k) == other_after.at(s, other + k),
        k < offset || offset + rows <= k ==> after.at(s, k) == before.at(s, k),
{
    if s % 16 == 0 && k < rows {
        assert(row_slice(s));
        assert(after.at(s, offset + k) == tile_row::<A>(weight, x_trf, s, k));
        assert(other_after.at(s, other + k) == tile_row::<A>(weight, x_trf, s, k));
    }
}

} // verus!
