//! How the results of the feed-forward block follow its inputs, in exact arithmetic.
//!
//! Each law compares two calls of a kernel: what changes in the result where a sign, an order or a
//! power of two changes in an input.

use vstd::prelude::*;

use crate::arith::Arith;
use crate::exact::{
    law_mean_of_negated, law_mean_of_permuted, law_negated_terms, mean_of_squares, negated, odd_at,
    odd_erf, odd_roundings, passes, permuted, rounds_nothing,
};
use crate::ffn7::exact::{law_constants, law_rms};
use crate::ffn7::gate::{gated, geglu_divisor, gelu, inv_sqrt2};
use crate::ffn7::norm::{normalized, rms, up_gain};
use crate::ffn7::post_norm_column;
use crate::ideal::{
    lemma_quotient, lemma_quotient_is, lemma_quotient_scaled, lemma_total_same, permutes, Functions,
    Ideal,
};
use crate::quant::term;
use crate::tensor::Dm;

verus! {

/// `normalize_quantize`, signs: negating the hidden state negates both terms of every column, and so
/// does negating the norm weight. The root mean square must not be zero, for the kernel divides by
/// it.
pub proof fn law_negated_hidden<F: Functions>(
    x: Seq<Ghost<real>>,
    weight: Seq<Ghost<real>>,
    eps: Ghost<real>,
    h: int,
    t: int,
)
    requires
        odd_roundings::<F>(),
        x.len() == 3840,
        weight.len() == 3840,
        F::sqrt(mean_of_squares(x) + eps@) != 0 as real,
        0 <= h < 3840,
    ensures
        term::<Ideal<F>>(
            normalized::<Ideal<F>>(negated(x), weight, eps, h),
            up_gain::<Ideal<F>>(),
            t,
        )@ == -term::<Ideal<F>>(
            normalized::<Ideal<F>>(x, weight, eps, h),
            up_gain::<Ideal<F>>(),
            t,
        )@,
        term::<Ideal<F>>(
            normalized::<Ideal<F>>(x, negated(weight), eps, h),
            up_gain::<Ideal<F>>(),
            t,
        )@ == -term::<Ideal<F>>(
            normalized::<Ideal<F>>(x, weight, eps, h),
            up_gain::<Ideal<F>>(),
            t,
        )@,
{
    law_rms::<F>(x, eps);
    law_rms::<F>(negated(x), eps);
    law_mean_of_negated(x);
    let (a, w, r) = (x[h]@, weight[h]@, F::sqrt(mean_of_squares(x) + eps@));
    let v = normalized::<Ideal<F>>(x, weight, eps, h);
    lemma_quotient_scaled(-1 as real, a, r);
    let d = a / r;
    assert((-d) * w == -(d * w)) by (nonlinear_arith);
    assert(d * (-w) == -(d * w)) by (nonlinear_arith);
    assert(-1 as real * a == -a && -1 as real * d == -d) by (nonlinear_arith);
    assert(odd_at::<F>(a / r * w));
    assert(normalized::<Ideal<F>>(negated(x), weight, eps, h) == Ghost(-v@));
    assert(normalized::<Ideal<F>>(x, negated(weight), eps, h) == Ghost(-v@));
    law_negated_terms::<F>(v, up_gain::<Ideal<F>>(), t);
}

/// `normalize_quantize`, order: permuting the hidden state and the norm weight alike permutes the
/// terms. Every column is divided by the same root, across the borders of the pieces too.
pub proof fn law_permuted_hidden<F: Functions>(
    x: Seq<Ghost<real>>,
    weight: Seq<Ghost<real>>,
    eps: Ghost<real>,
    p: spec_fn(int) -> int,
    h: int,
    t: int,
)
    requires
        x.len() == 3840,
        weight.len() == 3840,
        permutes(p, 3840),
        0 <= h < 3840,
    ensures
        term::<Ideal<F>>(
            normalized::<Ideal<F>>(permuted(x, p), permuted(weight, p), eps, h),
            up_gain::<Ideal<F>>(),
            t,
        ) == term::<Ideal<F>>(
            normalized::<Ideal<F>>(x, weight, eps, p(h)),
            up_gain::<Ideal<F>>(),
            t,
        ),
{
    law_rms::<F>(x, eps);
    law_rms::<F>(permuted(x, p), eps);
    law_mean_of_permuted(x, p);
    assert(0 <= p(h) < 3840);
}

/// `normalize_add_gate_in_place`: where the rounding lets a doubling through, doubling the layer scalar
/// doubles every column, and with a zero scalar every column is zero.
pub proof fn law_layer_scalar<F: Functions>(
    x: Seq<Ghost<real>>,
    weight: Seq<Ghost<real>>,
    residual: Seq<Ghost<real>>,
    scalar: Ghost<real>,
    eps: Ghost<real>,
    h: int,
)
    requires
        x.len() == 3840,
        0 <= h < 3840,
    ensures
        passes::<F>(
            2 as real,
            (x[h]@ / rms::<Ideal<F>>(x, eps)@ * weight[h]@ + residual[h]@) * scalar@,
        ) ==> post_norm_column::<Ideal<F>>(
            x,
            weight,
            residual,
            Ghost(2 as real * scalar@),
            eps,
            h,
        )@ == 2 as real * post_norm_column::<Ideal<F>>(x, weight, residual, scalar, eps, h)@,
        F::bf16(0 as real) == 0 as real && scalar@ == 0 as real ==> post_norm_column::<Ideal<F>>(
            x,
            weight,
            residual,
            scalar,
            eps,
            h,
        )@ == 0 as real,
{
    let y = x[h]@ / rms::<Ideal<F>>(x, eps)@ * weight[h]@ + residual[h]@;
    let g = scalar@;
    assert(y * (2 as real * g) == 2 as real * (y * g)) by (nonlinear_arith);
    assert(y * 0 as real == 0 as real) by (nonlinear_arith);
}

/// `geglu`, sign of `gate`: in exact arithmetic, with an odd error function, the results for a `gate`
/// and for its negative differ by `up * gate * f / (128 * inv_sqrt2)`: no error function is left. A zero
/// `gate` gives zero.
pub proof fn law_negated_gate<F: Functions>(up: Ghost<real>, gate: Ghost<real>, factor: Ghost<real>)
    requires
        odd_erf::<F>(),
        rounds_nothing::<F>(),
    ensures
        gated::<Ideal<F>>(up, gate, factor)@ - gated::<Ideal<F>>(up, Ghost(-gate@), factor)@ == up@
            * gate@ * factor@ / (128 as real * inv_sqrt2::<Ideal<F>>()@),
        gate@ == 0 as real ==> gated::<Ideal<F>>(up, gate, factor)@ == 0 as real,
{
    law_constants::<F>();
    let (u, g, f, c) = (up@, gate@, factor@, inv_sqrt2::<Ideal<F>>()@);
    let t = g * f;
    assert((-g) * f == -t) by (nonlinear_arith)
        requires
            t == g * f,
    ;
    let e = F::erf(t);
    assert(F::erf(-t) == -e);
    let d = 2 as real * 128 as real * c;
    assert(geglu_divisor::<Ideal<F>>()@ == d);
    lemma_gate_difference(u, t, e, d);
    lemma_half_divisor(u * t, c);
    assert(u * t == u * g * f) by (nonlinear_arith)
        requires
            t == g * f,
    ;
    if g == 0 as real {
        assert(0 as real * f == 0 as real) by (nonlinear_arith);
        assert(u * ((e + 1 as real) * 0 as real) == 0 as real) by (nonlinear_arith);
        lemma_quotient_scaled(0 as real, 0 as real, d);
    }
}

/// What the sign of `gate` changes, over the divisor `d`.
proof fn lemma_gate_difference(u: real, t: real, e: real, d: real)
    requires
        d != 0 as real,
    ensures
        u * ((e + 1 as real) * t) / d - u * ((-e + 1 as real) * (-t)) / d == 2 as real * (u * t / d),
{
    let a = u * ((e + 1 as real) * t);
    let b = u * ((-e + 1 as real) * (-t));
    let v = u * t;
    assert(a - b == 2 as real * v) by (nonlinear_arith)
        requires
            a == u * ((e + 1 as real) * t),
            b == u * ((-e + 1 as real) * (-t)),
            v == u * t,
    ;
    lemma_quotient(a, d);
    lemma_quotient(b, d);
    let (p, q) = (a / d, b / d);
    assert((p - q) * d == p * d - q * d) by (nonlinear_arith);
    lemma_quotient_is(2 as real * v, d, p - q);
    lemma_quotient_scaled(2 as real, v, d);
}

/// Twice a quotient is the quotient by half the divisor.
proof fn lemma_half_divisor(x: real, c: real)
    requires
        c > 0 as real,
    ensures
        2 as real * (x / (2 as real * 128 as real * c)) == x / (128 as real * c),
{
    let h = 128 as real * c;
    let d = 2 as real * 128 as real * c;
    lemma_quotient(x, d);
    let q = x / d;
    assert((2 as real * q) * h == q * d) by (nonlinear_arith)
        requires
            h == 128 as real * c,
            d == 2 as real * 128 as real * c,
    ;
    lemma_quotient_is(x, h, 2 as real * q);
}

/// `geglu` is linear in `up`: where the rounding lets `c` through, scaling `up` by `c` scales the
/// result.
pub proof fn law_scaled_up<F: Functions>(
    up: Ghost<real>,
    gate: Ghost<real>,
    factor: Ghost<real>,
    c: real,
)
    requires
        passes::<F>(
            c,
            up@ * gelu::<Ideal<F>>(gate, factor)@ / geglu_divisor::<Ideal<F>>()@,
        ),
    ensures
        gated::<Ideal<F>>(Ghost(c * up@), gate, factor)@ == c * gated::<Ideal<F>>(
            up,
            gate,
            factor,
        )@,
{
    law_constants::<F>();
    let (u, g, d) = (up@, gelu::<Ideal<F>>(gate, factor)@, geglu_divisor::<Ideal<F>>()@);
    let k = inv_sqrt2::<Ideal<F>>()@;
    assert(d == 2 as real * 128 as real * k);
    assert((c * u) * g == c * (u * g)) by (nonlinear_arith);
    lemma_quotient_scaled(c, u * g, d);
}

/// `apply_scales`: the sums and the scales play the same part. What row `r` of slice `i` gets of `a` and
/// `b` it gets of `b` and `a`.
pub proof fn law_scales_commute<F: Functions>(
    a: Dm<Ghost<real>>,
    b: Dm<Ghost<real>>,
    i: int,
    r: int,
)
    requires
        a.shaped(7200),
        b.shaped(7200),
        0 <= i < 512,
        0 <= r < 30,
    ensures
        Ideal::<F>::dot_of(
            a.rows@[i]@.subrange(r * 240, r * 240 + 240),
            b.rows@[i]@.subrange(r * 240, r * 240 + 240),
        ) == Ideal::<F>::dot_of(
            b.rows@[i]@.subrange(r * 240, r * 240 + 240),
            a.rows@[i]@.subrange(r * 240, r * 240 + 240),
        ),
{
    assert(a.rows@[i]@.len() == 7200 && b.rows@[i]@.len() == 7200);
    let x = a.rows@[i]@.subrange(r * 240, r * 240 + 240);
    let y = b.rows@[i]@.subrange(r * 240, r * 240 + 240);
    let f = |k: int| x[k]@ * y[k]@;
    let g = |k: int| y[k]@ * x[k]@;
    assert forall|k: int| 0 <= k < 240 implies #[trigger] f(k) == g(k) by {
        let (p, q) = (x[k]@, y[k]@);
        assert(p * q == q * p) by (nonlinear_arith);
    }
    lemma_total_same(240, f, g);
}

} // verus!
