//! Which operations the feed-forward block and the post-norm apply to which numbers, and in which
//! order.
//!
//! The laws hold of every column and row. They speak of formulas, so they see each operation, also
//! one that another takes back.

use std::rc::Rc;

use vstd::prelude::*;

use crate::arith::Arith;
use crate::ffn7::blocks::{block_sum, row_product};
use crate::ffn7::gate::gated;
use crate::ffn7::norm::{normalized, piece, rms};
use crate::ffn7::{
    activation, activation_lanes, down_half, feedforward_column, gate_row, hidden_lanes, joined,
    post_norm_column, up_row, FeedForwardInputs,
};
use crate::hidden::mean_square;
use crate::quant::term;
use crate::symbolic::{terms, Symbolic, Term};

verus! {

/// The terms of a number: the scaled number, rounded, and what this leaves of the scaled number,
/// rounded.
pub proof fn law_term_formula(v: Rc<Term>, gain: Rc<Term>)
    ensures
        term::<Symbolic>(v, gain, 0) == Rc::new(Term::F8(Rc::new(Term::Mul(v, gain)))),
        term::<Symbolic>(v, gain, 1) == Rc::new(
            Term::F8(
                Rc::new(
                    Term::Sub(
                        Rc::new(Term::Mul(v, gain)),
                        Rc::new(Term::F8(Rc::new(Term::Mul(v, gain)))),
                    ),
                ),
            ),
        ),
{
}

/// What piece `p` of the hidden state contributes to the mean square: the squares of its 480 columns,
/// added, over 3840.
pub open spec fn piece_mean(x: Seq<Rc<Term>>, p: int) -> Rc<Term> {
    Rc::new(
        Term::Div(
            Rc::new(
                Term::Sum(
                    Rc::new(
                        terms(
                            Seq::new(
                                480,
                                |k: int| Rc::new(Term::Mul(x[p * 480 + k], x[p * 480 + k])),
                            ),
                        ),
                    ),
                ),
            ),
            Rc::new(Term::Lit(3840, 0)),
        ),
    )
}

/// The root mean square: the contributions of eight pieces are added, epsilon is added, and the
/// root is taken.
pub proof fn law_rms_formula(x: Seq<Rc<Term>>, eps: Rc<Term>)
    requires
        x.len() == 3840,
    ensures
        rms::<Symbolic>(x, eps) == Rc::new(
            Term::Sqrt(
                Rc::new(
                    Term::Add(
                        Rc::new(Term::Sum(Rc::new(terms(Seq::new(8, |p: int| piece_mean(x, p)))))),
                        eps,
                    ),
                ),
            ),
        ),
{
    let got = Seq::new(8, |p: int| mean_square::<Symbolic>(piece(x, p)));
    let want = Seq::new(8, |p: int| piece_mean(x, p));
    assert forall|p: int| 0 <= p < 8 implies got[p] == want[p] by {
        let v = piece(x, p);
        assert(Seq::new(v.len(), |i: int| Symbolic::mul_of(v[i], v[i])) =~= Seq::new(
            480,
            |k: int| Rc::new(Term::Mul(x[p * 480 + k], x[p * 480 + k])),
        ));
    }
    assert(got =~= want);
}

/// A column of the normalized hidden state.
pub proof fn law_normalized_formula(
    x: Seq<Rc<Term>>,
    weight: Seq<Rc<Term>>,
    eps: Rc<Term>,
    h: int,
)
    ensures
        normalized::<Symbolic>(x, weight, eps, h) == Rc::new(
            Term::Bf16(
                Rc::new(
                    Term::Mul(
                        Rc::new(Term::Div(x[h], rms::<Symbolic>(x, eps))),
                        weight[h],
                    ),
                ),
            ),
        ),
{
}

/// The lanes of the hidden state hold the terms of its columns at a gain of 128, lane after lane.
pub proof fn law_hidden_lanes_formula(i: FeedForwardInputs<Rc<Term>>, t: int, h: int)
    requires
        0 <= t < 2,
        0 <= h < 3840,
    ensures
        hidden_lanes::<Symbolic>(i).len() == 7680,
        hidden_lanes::<Symbolic>(i)[t * 3840 + h] == term::<Symbolic>(
            normalized::<Symbolic>(i.x, i.norm_weight, i.eps, h),
            Rc::new(Term::Lit(128, 0)),
            t,
        ),
{
    assert((t * 3840 + h) % 3840 == h && (t * 3840 + h) / 3840 == t);
}

/// A block sum contracts the sixteen codes of the block with the first lane and with the second
/// one, in one contraction.
pub proof fn law_block_sum_formula(
    codes: Seq<u8>,
    first: int,
    lanes: Seq<Rc<Term>>,
    n: int,
    b: int,
)
    ensures
        block_sum::<Symbolic>(codes, first, lanes, n, b) == Rc::new(
            Term::Bf16(
                Rc::new(
                    Term::Dot(
                        Rc::new(
                            terms(
                                Seq::new(16, |k: int| Rc::new(Term::F4(codes[first + b * 16 + k])))
                                    + Seq::new(
                                    16,
                                    |k: int| Rc::new(Term::F4(codes[first + b * 16 + k])),
                                ),
                            ),
                        ),
                        Rc::new(
                            terms(
                                Seq::new(16, |k: int| lanes[b * 16 + k]) + Seq::new(
                                    16,
                                    |k: int| lanes[n + b * 16 + k],
                                ),
                            ),
                        ),
                    ),
                ),
            ),
        ),
{
    assert(Seq::new(32, |i: int| Symbolic::f4_of(codes[first + b * 16 + i % 16])) =~= Seq::new(
        16,
        |k: int| Rc::new(Term::F4(codes[first + b * 16 + k])),
    ) + Seq::new(16, |k: int| Rc::new(Term::F4(codes[first + b * 16 + k]))));
    assert(Seq::new(32, |i: int| lanes[(if i < 16 { 0 } else { n }) + b * 16 + i % 16])
        =~= Seq::new(16, |k: int| lanes[b * 16 + k]) + Seq::new(
        16,
        |k: int| lanes[n + b * 16 + k],
    ));
}

/// A row of a block-scaled product contracts its block sums with its rounded block scales.
pub proof fn law_row_product_formula(
    codes: Seq<u8>,
    first: int,
    scales: Seq<Rc<Term>>,
    first_scale: int,
    lanes: Seq<Rc<Term>>,
    m: nat,
)
    ensures
        row_product::<Symbolic>(codes, first, scales, first_scale, lanes, (m * 16) as int) == Rc::new(
            Term::Dot(
                Rc::new(
                    terms(
                        Seq::new(
                            m,
                            |b: int| block_sum::<Symbolic>(codes, first, lanes, (m * 16) as int, b),
                        ),
                    ),
                ),
                Rc::new(
                    terms(Seq::new(m, |b: int| Rc::new(Term::Bf16(scales[first_scale + b])))),
                ),
            ),
        ),
{
    assert(m * 16 / 16 == m);
    assert(Seq::new(m, |b: int| Symbolic::bf16_of(scales[first_scale + b])) =~= Seq::new(
        m,
        |b: int| Rc::new(Term::Bf16(scales[first_scale + b])),
    ));
}

/// The rows of the three matrices: 3840 codes and 240 scales to a row of `up` and of `gate`, and
/// for each cluster half of the 15360 codes and 960 scales to a row of `down`.
pub proof fn law_rows(i: FeedForwardInputs<Rc<Term>>, l: int, c: int, h: int)
    ensures
        up_row::<Symbolic>(i, l) == row_product::<Symbolic>(
            i.up,
            l * 3840,
            i.up_scale,
            l * 240,
            hidden_lanes::<Symbolic>(i),
            3840,
        ),
        gate_row::<Symbolic>(i, l) == row_product::<Symbolic>(
            i.gate,
            l * 3840,
            i.gate_scale,
            l * 240,
            hidden_lanes::<Symbolic>(i),
            3840,
        ),
        down_half::<Symbolic>(i, c, h) == row_product::<Symbolic>(
            i.down,
            h * 15_360 + c * 7680,
            i.down_scale,
            h * 960 + c * 480,
            activation_lanes::<Symbolic>(i, c),
            7680,
        ),
{
}

/// An element of the gated activation: `up` times `(erf t + 1) t` with `t = gate * factor`, over `2
/// * 128` times `1 / sqrt 2`.
pub proof fn law_gated_formula(up: Rc<Term>, gate: Rc<Term>, factor: Rc<Term>)
    ensures
        gated::<Symbolic>(up, gate, factor) == Rc::new(
            Term::Bf16(
                Rc::new(
                    Term::Div(
                        Rc::new(
                            Term::Mul(
                                up,
                                Rc::new(
                                    Term::Mul(
                                        Rc::new(
                                            Term::Add(
                                                Rc::new(
                                                    Term::Erf(Rc::new(Term::Mul(gate, factor))),
                                                ),
                                                Rc::new(Term::Lit(1, 0)),
                                            ),
                                        ),
                                        Rc::new(Term::Mul(gate, factor)),
                                    ),
                                ),
                            ),
                        ),
                        Rc::new(
                            Term::Mul(
                                Rc::new(
                                    Term::Mul(
                                        Rc::new(Term::Lit(2, 0)),
                                        Rc::new(Term::Lit(128, 0)),
                                    ),
                                ),
                                Rc::new(Term::Lit(70_710_678_118, 11)),
                            ),
                        ),
                    ),
                ),
            ),
        ),
{
}

/// A row of the gated activation, and the lanes that hold the terms of a cluster's rows at a gain of a
/// quarter.
pub proof fn law_activation_formula(
    i: FeedForwardInputs<Rc<Term>>,
    l: int,
    c: int,
    t: int,
    e: int,
)
    requires
        0 <= t < 2,
        0 <= e < 7680,
    ensures
        activation::<Symbolic>(i, l) == gated::<Symbolic>(
            up_row::<Symbolic>(i, l),
            gate_row::<Symbolic>(i, l),
            Rc::new(
                Term::Mul(
                    i.gate_global,
                    Rc::new(
                        Term::Div(
                            Rc::new(Term::Lit(70_710_678_118, 11)),
                            Rc::new(Term::Lit(128, 0)),
                        ),
                    ),
                ),
            ),
        ),
        activation_lanes::<Symbolic>(i, c).len() == 15_360,
        activation_lanes::<Symbolic>(i, c)[t * 7680 + e] == term::<Symbolic>(
            activation::<Symbolic>(i, c * 7680 + e),
            Rc::new(Term::Lit(25, 2)),
            t,
        ),
{
    assert((t * 7680 + e) % 7680 == e && (t * 7680 + e) / 7680 == t);
}

/// A column of the block: each half times the global scale of `down`, times that of `up`, both
/// added, the gain divided out, and one rounding.
pub proof fn law_column_formula(i: FeedForwardInputs<Rc<Term>>, h: int)
    ensures
        feedforward_column::<Symbolic>(i, h) == Rc::new(
            Term::Bf16(
                Rc::new(
                    Term::Div(
                        Rc::new(
                            Term::Sum(
                                Rc::new(
                                    terms(
                                        seq![
                                            Rc::new(
                                                Term::Mul(
                                                    Rc::new(
                                                        Term::Mul(
                                                            down_half::<Symbolic>(i, 0, h),
                                                            i.down_global,
                                                        ),
                                                    ),
                                                    i.up_global,
                                                ),
                                            ),
                                            Rc::new(
                                                Term::Mul(
                                                    Rc::new(
                                                        Term::Mul(
                                                            down_half::<Symbolic>(i, 1, h),
                                                            i.down_global,
                                                        ),
                                                    ),
                                                    i.up_global,
                                                ),
                                            ),
                                        ],
                                    ),
                                ),
                            ),
                        ),
                        Rc::new(Term::Lit(25, 2)),
                    ),
                ),
            ),
        ),
{
    law_joined_formula(
        Seq::new(2, |c: int| down_half::<Symbolic>(i, c, h)),
        i.down_global,
        i.up_global,
    );
}

/// The same of any two halves.
pub proof fn law_joined_formula(
    halves: Seq<Rc<Term>>,
    down_scale: Rc<Term>,
    up_scale: Rc<Term>,
)
    requires
        halves.len() == 2,
    ensures
        joined::<Symbolic>(halves, down_scale, up_scale) == Rc::new(
            Term::Bf16(
                Rc::new(
                    Term::Div(
                        Rc::new(
                            Term::Sum(
                                Rc::new(
                                    terms(
                                        seq![
                                            Rc::new(
                                                Term::Mul(
                                                    Rc::new(Term::Mul(halves[0], down_scale)),
                                                    up_scale,
                                                ),
                                            ),
                                            Rc::new(
                                                Term::Mul(
                                                    Rc::new(Term::Mul(halves[1], down_scale)),
                                                    up_scale,
                                                ),
                                            ),
                                        ],
                                    ),
                                ),
                            ),
                        ),
                        Rc::new(Term::Lit(25, 2)),
                    ),
                ),
            ),
        ),
{
    assert(Seq::new(
        halves.len(),
        |c: int| Symbolic::mul_of(Symbolic::mul_of(halves[c], down_scale), up_scale),
    ) =~= seq![
        Rc::new(Term::Mul(Rc::new(Term::Mul(halves[0], down_scale)), up_scale)),
        Rc::new(Term::Mul(Rc::new(Term::Mul(halves[1], down_scale)), up_scale)),
    ]);
}

/// A column of the post-norm: over the root, times the weight, plus the residual, times the layer
/// scalar, and one rounding.
pub proof fn law_post_norm_formula(
    x: Seq<Rc<Term>>,
    weight: Seq<Rc<Term>>,
    residual: Seq<Rc<Term>>,
    scalar: Rc<Term>,
    eps: Rc<Term>,
    h: int,
)
    ensures
        post_norm_column::<Symbolic>(x, weight, residual, scalar, eps, h) == Rc::new(
            Term::Bf16(
                Rc::new(
                    Term::Mul(
                        Rc::new(
                            Term::Add(
                                Rc::new(
                                    Term::Mul(
                                        Rc::new(Term::Div(x[h], rms::<Symbolic>(x, eps))),
                                        weight[h],
                                    ),
                                ),
                                residual[h],
                            ),
                        ),
                        scalar,
                    ),
                ),
            ),
        ),
{
}

} // verus!
