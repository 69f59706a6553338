//! Rounding to a floating-point format, and what two terms of `f8e4m3` can hold.
//!
//! Numbers are integers here, counted in units of the smallest positive number of the format. A format
//! with `p` significant bits has the width `2^p`: below that it holds every integer, and above that
//! the multiples of the spacing of the binade. `f8e4m3` has four bits, its unit is `2^-9`, and its
//! largest number is 448; `bf16` has eight bits.

use vstd::prelude::*;

verus! {

/// 448, in units.
pub const LARGEST: i64 = 229_376;

/// The magnitude of a number.
pub open spec fn magnitude(v: int) -> int {
    if v < 0 {
        -v
    } else {
        v
    }
}

/// The distance between neighbouring numbers of a format around `a`, given that it is at least `u`.
pub open spec fn spacing(a: int, u: int, width: int) -> int
    decreases a - u,
{
    if u <= 0 || a < 2 * u || a < width * u {
        u
    } else {
        spacing(a, 2 * u, width)
    }
}

/// The multiple of `u` nearest to `a`, and of two the even one.
pub open spec fn nearest(a: int, u: int) -> int {
    if 2 * (a % u) < u || (2 * (a % u) == u && a / u % 2 == 0) {
        a / u * u
    } else {
        a / u * u + u
    }
}

/// The number of a format nearest to `a`, as if it had no largest one.
pub open spec fn unbounded(a: int, width: int) -> int {
    nearest(a, spacing(a, 1, width))
}

/// Rounds to `f8e4m3`: to nearest, ties to even, at most the largest number.
pub open spec fn rounded(v: int) -> int {
    let m = unbounded(magnitude(v), 16);
    let m = if m > LARGEST { LARGEST as int } else { m };
    if v < 0 {
        -m
    } else {
        m
    }
}

/// Rounds to `bf16`, far from its largest number.
pub open spec fn bf16_rounded(v: int) -> int {
    if v < 0 {
        -unbounded(-v, 256)
    } else {
        unbounded(v, 256)
    }
}

/// The two terms of `v`: the rounded number and the rounded rest.
pub open spec fn two_terms(v: int) -> (int, int) {
    (rounded(v), rounded(v - rounded(v)))
}

/// `a` has at most eight significant bits, as a `bf16` number has.
pub open spec fn eight_bits(a: int) -> bool
    decreases a,
{
    a < 256 || (a % 2 == 0 && eight_bits(a / 2))
}

/// Rounding does not see the sign.
pub proof fn law_odd(v: int)
    ensures
        rounded(-v) == -rounded(v),
        bf16_rounded(-v) == -bf16_rounded(v),
{
    lemma_small(0, 16);
    lemma_small(0, 256);
}

/// Computes `rounded`.
pub fn round(v: i64) -> (r: i64)
    requires
        -0x1000_0000_0000 < v < 0x1000_0000_0000,
    ensures
        r == rounded(v as int),
{
    let a: i64 = if v < 0 {
        -v
    } else {
        v
    };
    let mut u: i64 = 1;
    while a >= 16 * u
        invariant
            0 < u <= 0x1000_0000_0000,
            0 <= a < 0x1000_0000_0000,
            spacing(a as int, 1, 16) == spacing(a as int, u as int, 16),
        decreases a - u,
    {
        u = 2 * u;
    }
    proof {
        let q = a as int / u as int;
        assert(q * u <= a && 0 <= q * u) by (nonlinear_arith)
            requires
                q == a as int / u as int,
                0 < u,
                0 <= a,
        ;
    }
    let low: i64 = a / u * u;
    let m: i64 = if 2 * (a % u) < u || (2 * (a % u) == u && a / u % 2 == 0) {
        low
    } else {
        low + u
    };
    let m: i64 = if m > LARGEST {
        LARGEST
    } else {
        m
    };
    if v < 0 {
        -m
    } else {
        m
    }
}

/// Computes `two_terms`.
pub fn split(v: i64) -> (r: (i64, i64))
    requires
        -0x1000_0000_0000 < v < 0x1000_0000_0000,
    ensures
        (r.0 as int, r.1 as int) == two_terms(v as int),
{
    let first: i64 = round(v);
    proof {
        lemma_rounded_toward(v as int);
    }
    (first, round(v - first))
}

/// The rounded number lies between zero and twice the number.
pub(crate) proof fn lemma_rounded_toward(v: int)
    ensures
        0 <= v ==> 0 <= rounded(v) <= 2 * v,
        v <= 0 ==> 2 * v <= rounded(v) <= 0,
{
    let a = magnitude(v);
    lemma_spacing(a, 1, 16);
    let u = spacing(a, 1, 16);
    lemma_nearest(a, u);
}

/// What the spacing says of the number.
pub(crate) proof fn lemma_spacing(a: int, u: int, width: int)
    requires
        0 < u,
        0 <= a,
        width == 16 || width == 256,
    ensures
        u <= spacing(a, u, width),
        width == 16 ==> a < 16 * spacing(a, u, width),
        width == 16 ==> spacing(a, u, width) == u || 8 * spacing(a, u, width) <= a,
        width == 256 ==> a < 256 * spacing(a, u, width),
        width == 256 ==> spacing(a, u, width) == u || 128 * spacing(a, u, width) <= a,
    decreases a - u,
{
    assert(width == 16 ==> width * u == 16 * u);
    assert(width == 256 ==> width * u == 256 * u);
    if a >= width * u {
        lemma_spacing(a, 2 * u, width);
    }
}

/// How far the nearest multiple lies.
proof fn lemma_nearest(a: int, u: int)
    requires
        0 < u,
        0 <= a,
    ensures
        0 <= nearest(a, u),
        2 * (nearest(a, u) - a) <= u,
        2 * (a - nearest(a, u)) <= u,
        a < u && u == 1 ==> nearest(a, u) == a,
{
    let q = a / u;
    let r = a % u;
    assert(a == q * u + r && 0 <= r < u && 0 <= q * u) by (nonlinear_arith)
        requires
            q == a / u,
            r == a % u,
            0 < u,
            0 <= a,
    ;
}

/// Twice the number, twice the spacing.
proof fn lemma_spacing_doubled(a: int, u: int, width: int)
    requires
        0 < u,
        width == 16 || width == 256,
    ensures
        spacing(2 * a, 2 * u, width) == 2 * spacing(a, u, width),
    decreases a - u,
{
    if a >= width * u {
        lemma_spacing_doubled(a, 2 * u, width);
    }
}

/// Below its width a format holds every integer.
pub(crate) proof fn lemma_small(a: int, width: int)
    requires
        0 <= a < width,
    ensures
        unbounded(a, width) == a,
{
    assert(spacing(a, 1, width) == 1);
    lemma_nearest(a, 1);
}

/// Rounding to a format doubles with the number: a power of two passes through it.
pub proof fn law_doubled(a: int, width: int)
    requires
        0 <= a,
        width == 16 || width == 256,
    ensures
        unbounded(2 * a, width) == 2 * unbounded(a, width),
{
    if 2 * a < width {
        lemma_small(a, width);
        lemma_small(2 * a, width);
    } else {
        let u = spacing(a, 1, width);
        lemma_spacing(a, 1, width);
        lemma_spacing_doubled(a, 1, width);
        assert(spacing(2 * a, 1, width) == 2 * u);
        let q = a / u;
        let r = a % u;
        assert((2 * a) / (2 * u) == q && (2 * a) % (2 * u) == 2 * r && q * (2 * u) == 2 * (q * u))
            by (nonlinear_arith)
            requires
                q == a / u,
                r == a % u,
                0 < u,
                0 <= a,
        ;
    }
}

/// The rest that rounding leaves of a number with eight significant bits: it is small against the
/// number, not too small, and the format holds it.
proof fn lemma_rest(a: int)
    requires
        0 <= a,
        eight_bits(a),
    ensures
        16 * magnitude(a - unbounded(a, 16)) <= a,
        a != unbounded(a, 16) ==> 256 * magnitude(a - unbounded(a, 16)) > a,
        unbounded(magnitude(a - unbounded(a, 16)), 16) == magnitude(a - unbounded(a, 16)),
    decreases a,
{
    if a < 256 {
        lemma_spacing(a, 1, 16);
        lemma_nearest(a, spacing(a, 1, 16));
        lemma_small(magnitude(a - unbounded(a, 16)), 16);
    } else {
        let half = a / 2;
        lemma_rest(half);
        law_doubled(half, 16);
        let rest = magnitude(half - unbounded(half, 16));
        law_doubled(rest, 16);
        assert(magnitude(a - unbounded(a, 16)) == 2 * rest);
    }
}

/// A number up to the largest one is not rounded beyond it.
pub(crate) proof fn lemma_in_range(a: int)
    requires
        0 <= a <= LARGEST,
    ensures
        0 <= unbounded(a, 16) <= LARGEST,
{
    lemma_spacing(a, 1, 16);
    lemma_nearest(a, spacing(a, 1, 16));
    if a >= 131_072 {
        lemma_top_spacing(a);
        let q = a / 16_384;
        let r = a % 16_384;
        assert(a == q * 16_384 + r);
        assert(q <= 14);
        assert(q == 14 ==> r == 0);
        assert(nearest(a, 16_384) <= LARGEST);
    }
}

/// The spacing of the binade that holds the largest number.
proof fn lemma_top_spacing(a: int)
    requires
        131_072 <= a < 262_144,
    ensures
        spacing(a, 1, 16) == 16_384,
{
    reveal_with_fuel(spacing, 16);
}

/// Two terms hold a number exactly: one with eight significant bits, the last of them worth at least
/// a unit, up to the largest number of the format.
pub proof fn law_two_terms(v: int)
    requires
        eight_bits(magnitude(v)),
        magnitude(v) <= LARGEST,
    ensures
        two_terms(v).0 + two_terms(v).1 == v,
{
    let a = magnitude(v);
    lemma_rest(a);
    lemma_in_range(a);
    lemma_in_range(magnitude(a - unbounded(a, 16)));
}

/// The second term is between a 256th and a 16th of the number, or zero.
pub proof fn law_second_term(v: int)
    requires
        eight_bits(magnitude(v)),
        magnitude(v) <= LARGEST,
    ensures
        16 * magnitude(two_terms(v).1) <= magnitude(v),
        two_terms(v).1 != 0 ==> 256 * magnitude(two_terms(v).1) > magnitude(v),
{
    let a = magnitude(v);
    lemma_rest(a);
    lemma_in_range(a);
    lemma_in_range(magnitude(a - unbounded(a, 16)));
}

/// The first term holds what is at most the largest number, up to a sixteenth; what is larger it
/// clips.
pub proof fn law_first_term(v: int)
    ensures
        magnitude(v) >= LARGEST ==> magnitude(rounded(v)) == LARGEST,
        magnitude(v) <= LARGEST ==> 16 * magnitude(v - rounded(v)) <= magnitude(v),
        magnitude(rounded(v)) <= LARGEST,
{
    let a = magnitude(v);
    lemma_spacing(a, 1, 16);
    lemma_nearest(a, spacing(a, 1, 16));
    if a < 16 {
        lemma_small(a, 16);
    }
    if a <= LARGEST {
        lemma_in_range(a);
    }
    if LARGEST <= a < 262_144 {
        lemma_top_spacing(a);
        assert(a / 16_384 >= 14);
    }
}

/// A multiple of the spacing has no more significant bits than the same multiple of its start.
proof fn lemma_spacing_bits(a: int, u: int, m: int)
    requires
        0 < u,
        0 <= m,
        eight_bits(m * u),
    ensures
        eight_bits(m * spacing(a, u, 256)),
    decreases a - u,
{
    if !(a < 2 * u || a < 256 * u) {
        assert(m * (2 * u) == 2 * (m * u)) by (nonlinear_arith);
        assert((2 * (m * u)) / 2 == m * u);
        assert(eight_bits(m * (2 * u)));
        lemma_spacing_bits(a, 2 * u, m);
    }
}

/// What `bf16` returns has eight significant bits.
pub proof fn law_bf16_bits(v: int)
    ensures
        eight_bits(magnitude(bf16_rounded(v))),
{
    let a = magnitude(v);
    lemma_spacing(a, 1, 256);
    let u = spacing(a, 1, 256);
    let q = a / u;
    assert(0 <= q < 256 && q * u + u == (q + 1) * u && 0 <= q * u) by (nonlinear_arith)
        requires
            q == a / u,
            0 <= a < 256 * u,
            0 < u,
    ;
    reveal_with_fuel(eight_bits, 2);
    lemma_spacing_bits(a, 1, q);
    lemma_spacing_bits(a, 1, q + 1);
}

/// The spacing is even where it is not the one it began with.
proof fn lemma_spacing_even(a: int, u: int, width: int)
    requires
        0 < u,
    ensures
        spacing(a, u, width) == u || spacing(a, u, width) % 2 == 0,
    decreases a - u,
{
    if !(a < 2 * u || a < width * u) {
        lemma_spacing_even(a, 2 * u, width);
    }
}

/// What four significant bits hold, eight hold.
proof fn lemma_four_bits(a: int)
    requires
        0 <= a,
        unbounded(a, 16) == a,
    ensures
        unbounded(a, 256) == a,
    decreases a,
{
    if a < 256 {
        lemma_small(a, 256);
    } else {
        let u = spacing(a, 1, 16);
        lemma_spacing(a, 1, 16);
        lemma_spacing_even(a, 1, 16);
        lemma_nearest_multiple(a, u);
        let half = a / 2;
        law_doubled(half, 16);
        lemma_four_bits(half);
        law_doubled(half, 256);
    }
}

/// A multiple of an even spacing is even.
proof fn lemma_nearest_multiple(a: int, u: int)
    requires
        0 < u,
        u % 2 == 0,
        nearest(a, u) == a,
    ensures
        a % 2 == 0,
{
    let q = a / u;
    let k = u / 2;
    assert(q * u == 2 * (q * k)) by (nonlinear_arith)
        requires
            u == 2 * k,
    ;
}

/// Every `f8e4m3` number is a `bf16` number: rounding to `bf16` keeps it.
pub proof fn law_bf16_keeps_f8(k: int)
    requires
        k == rounded(k),
    ensures
        bf16_rounded(k) == k,
{
    let a = magnitude(k);
    lemma_rounded_toward(k);
    law_first_term(k);
    lemma_in_range(a);
    lemma_four_bits(a);
}

} // verus!
