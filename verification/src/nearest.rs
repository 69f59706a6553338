//! The functions of the real numbers that the tensor unit's operations stand for.
//!
//! A real number is rounded to a format in one step: to the nearest number of the format, and of two
//! that are as near to the one whose last digit is even.

use vstd::prelude::*;

use crate::exact::{
    doubled, fine, has_root, law_coarser_units, odd_at, odd_erf, odd_roundings, rounds_to_bf16,
    rounds_to_f8, units,
};
use crate::ideal::{lemma_quotient, total, Functions};
use crate::rounding::{
    bf16_rounded, law_first_term, law_odd, lemma_in_range, lemma_rounded_toward, lemma_small,
    lemma_spacing, magnitude, nearest, rounded, spacing, unbounded, LARGEST,
};

verus! {

/// The integer nearest to `y`, and of two the even one.
pub open spec fn nearest_integer(y: real) -> int {
    let n = y.floor();
    let rest = y - n as real;
    if 2 as real * rest < 1 as real || (2 as real * rest == 1 as real && n % 2 == 0) {
        n
    } else {
        n + 1
    }
}

/// The number of a format nearest to `y`, as if it had no largest one. Both are counted in the
/// smallest positive number of the format.
pub open spec fn nearest_number(y: real, width: int) -> int {
    let u = spacing(y.floor(), 1, width);
    nearest_integer(y / u as real) * u
}

/// `x`, halved `k` times.
pub open spec fn halved(x: real, k: nat) -> real
    decreases k,
{
    if k == 0 {
        x
    } else {
        halved(x, (k - 1) as nat) / 2 as real
    }
}

/// The smallest positive `bf16` number, `2^-133`.
pub open spec fn least() -> real {
    halved(1 as real, 133)
}

/// `x` to the power `n`.
pub open spec fn power(x: real, n: nat) -> real
    decreases n,
{
    if n == 0 {
        1 as real
    } else {
        x * power(x, (n - 1) as nat)
    }
}

/// The product of the first `n` positive integers.
pub open spec fn factorial(n: nat) -> real
    decreases n,
{
    if n == 0 {
        1 as real
    } else {
        n as real * factorial((n - 1) as nat)
    }
}

/// Term `n` of the series of the integral of `exp(-t^2)` from 0 to `x`.
pub open spec fn bell_term(x: real, n: nat) -> real {
    power(-1 as real, n) * power(x, 2 * n + 1) / (factorial(n) * (2 * n + 1) as real)
}

/// From the `m`-th on, the terms of `s` differ from `y` by less than `d`.
pub open spec fn close_from(s: spec_fn(nat) -> real, y: real, d: real, m: nat) -> bool {
    forall|n: nat| n >= m ==> y - d < #[trigger] s(n) < y + d
}

/// The terms of `s` come to differ from `y` by less than `d`, and keep to it.
pub open spec fn comes_close(s: spec_fn(nat) -> real, y: real, d: real) -> bool {
    exists|m: nat| close_from(s, y, d, m)
}

/// `s` tends to `y`.
pub open spec fn tends(s: spec_fn(nat) -> real, y: real) -> bool {
    forall|d: real| d > 0 as real ==> #[trigger] comes_close(s, y, d)
}

/// What `s` tends to.
pub open spec fn limit(s: spec_fn(nat) -> real) -> real {
    choose|y: real| tends(s, y)
}

/// The integral of `exp(-t^2)` from 0 to `x`.
pub open spec fn bell(x: real) -> real {
    limit(|n: nat| total(n, |k: int| bell_term(x, k as nat)))
}

/// The integral of `exp(-t^2)` over all positive numbers.
pub open spec fn whole_bell() -> real {
    limit(|n: nat| bell(n as real))
}

/// `y` is the root of `x`.
pub open spec fn is_root(y: real, x: real) -> bool {
    y >= 0 as real && y * y == x
}

/// The square root, the error function, and rounding to nearest. `f8` is at most the largest `f8e4m3`
/// number; `bf16` has the exponents of the format at the lower end and no largest number.
pub struct Nearest {}

impl Functions for Nearest {
    open spec fn sqrt(x: real) -> real {
        choose|y: real| is_root(y, x)
    }

    open spec fn erf(x: real) -> real {
        if x < 0 as real {
            -(bell(-x) / whole_bell())
        } else if x == 0 as real {
            0 as real
        } else {
            bell(x) / whole_bell()
        }
    }

    open spec fn bf16(x: real) -> real {
        if x < 0 as real {
            -halved(nearest_number(doubled(-x, 133), 256) as real, 133)
        } else {
            halved(nearest_number(doubled(x, 133), 256) as real, 133)
        }
    }

    open spec fn f8(x: real) -> real {
        let a = if x < 0 as real {
            -x
        } else {
            x
        };
        let m = nearest_number(a * 512 as real, 16);
        let m = if m > LARGEST {
            LARGEST as int
        } else {
            m
        };
        if x < 0 as real {
            -units(m)
        } else {
            units(m)
        }
    }
}

/// On integers the integer is the nearest number of `rounding`.
proof fn lemma_nearest_integer(a: int, u: int)
    requires
        0 <= a,
        0 < u,
    ensures
        nearest_integer(a as real / u as real) * u == nearest(a, u),
{
    let (q, r) = (a / u, a % u);
    assert(a == q * u + r && 0 <= r < u) by (nonlinear_arith)
        requires
            q == a / u,
            r == a % u,
            0 < u,
    ;
    let y = a as real / u as real;
    let d = u as real;
    let rest = y - q as real;
    assert(y * d == a as real) by (nonlinear_arith)
        requires
            y == a as real / d,
            d > 0 as real,
    ;
    let (b, c) = (q as real, r as real);
    assert((q * u) as real == b * d) by (nonlinear_arith)
        requires
            b == q as real,
            d == u as real,
    ;
    assert(rest * d == c) by (nonlinear_arith)
        requires
            rest == y - b,
            y * d == b * d + c,
    ;
    assert(0 as real <= rest < 1 as real) by (nonlinear_arith)
        requires
            rest * d == c,
            0 as real <= c < d,
    ;
    assert(y.floor() == q);
    assert((2 as real * rest < 1 as real <==> 2 as real * c < d) && (2 as real * rest == 1 as real
        <==> 2 as real * c == d)) by (nonlinear_arith)
        requires
            rest * d == c,
            d > 0 as real,
    ;
    assert((q + 1) * u == q * u + u) by (nonlinear_arith);
}

/// On integers the rounding is that of `rounding`.
pub proof fn law_nearest_number(a: int, width: int)
    requires
        0 <= a,
        width == 16 || width == 256,
    ensures
        nearest_number(a as real, width) == unbounded(a, width),
{
    lemma_spacing(a, 1, width);
    lemma_nearest_integer(a, spacing(a, 1, width));
}

/// How far `x` lies from `y`.
pub open spec fn distance(x: real, y: real) -> real {
    if x < y {
        y - x
    } else {
        x - y
    }
}

/// No integer is nearer to `y`.
proof fn lemma_no_integer_nearer(y: real, n: int)
    ensures
        distance(y, nearest_integer(y) as real) <= distance(y, n as real),
{
    let f = y.floor();
    let (b, c) = (f as real, n as real);
    lemma_apart(n, f);
    let m = nearest_integer(y);
    if m == f {
        lemma_between(y, b, b, c);
    } else {
        assert(m as real == b + 1 as real);
        lemma_between(y, b, b + 1 as real, c);
    }
}

/// An integer is at most `f` or at least `f + 1`.
proof fn lemma_apart(n: int, f: int)
    ensures
        n as real <= f as real || n as real >= f as real + 1 as real,
{
    if n <= f {
    } else {
        assert(n >= f + 1);
    }
}

/// The nearer one of `f` and `f + 1`, which `y` lies between, is as near to `y` as any number outside.
proof fn lemma_between(y: real, f: real, m: real, n: real)
    requires
        f <= y < f + 1 as real,
        m == f && 2 as real * (y - f) <= 1 as real || m == f + 1 as real && 2 as real * (y - f)
            >= 1 as real,
        n <= f || n >= f + 1 as real,
    ensures
        distance(y, m) <= distance(y, n),
{
}

/// No multiple of `u` is nearer to `y`.
proof fn lemma_no_multiple_nearer(y: real, u: int, n: int)
    requires
        0 < u,
    ensures
        distance(y, (nearest_integer(y / u as real) * u) as real) <= distance(y, (n * u) as real),
{
    let d = u as real;
    let q = y / d;
    let m = nearest_integer(q);
    lemma_no_integer_nearer(q, n);
    lemma_quotient(y, d);
    let (b, c) = (m as real, n as real);
    assert((m * u) as real == b * d) by (nonlinear_arith)
        requires
            b == m as real,
            d == u as real,
    ;
    assert((n * u) as real == c * d) by (nonlinear_arith)
        requires
            c == n as real,
            d == u as real,
    ;
    lemma_distance_scaled(q, b, d);
    lemma_distance_scaled(q, c, d);
    let (p, r) = (distance(q, b), distance(q, c));
    assert(p * d <= r * d) by (nonlinear_arith)
        requires
            p <= r,
            d > 0 as real,
    ;
}

/// A distance grows with what it is measured between.
proof fn lemma_distance_scaled(x: real, y: real, d: real)
    requires
        d > 0 as real,
    ensures
        distance(x * d, y * d) == distance(x, y) * d,
{
    assert(x < y <==> x * d < y * d) by (nonlinear_arith)
        requires
            d > 0 as real,
    ;
    assert((x - y) * d == x * d - y * d && (y - x) * d == y * d - x * d) by (nonlinear_arith);
}

/// The nearest number of the format is as near to `y` as any number `a` of it.
pub proof fn law_no_number_nearer(y: real, a: int, width: int)
    requires
        y >= 0 as real,
        0 <= a,
        width == 16 || width == 256,
        unbounded(a, width) == a,
    ensures
        distance(y, nearest_number(y, width) as real) <= distance(y, a as real),
{
    let f = y.floor();
    let u = spacing(f, 1, width);
    lemma_spacing(f, 1, width);
    let half = width / 2;
    if a >= half * u {
        let v = spacing(a, 1, width);
        lemma_spacing_divides(f, a, 1, width);
        lemma_spacing(a, 1, width);
        let n = lemma_multiple(a, v, u);
        lemma_no_multiple_nearer(y, u, n);
    } else if u == 1 {
        lemma_no_multiple_nearer(y, u, a);
    } else {
        lemma_no_multiple_nearer(y, u, half);
    }
}

/// The spacing is a multiple of the one it began with.
proof fn lemma_spacing_multiple(a: int, u: int, width: int) -> (k: int)
    requires
        0 < u,
    ensures
        spacing(a, u, width) == k * u,
    decreases a - u,
{
    if a < 2 * u || a < width * u {
        1
    } else {
        let k = lemma_spacing_multiple(a, 2 * u, width);
        assert(k * (2 * u) == (2 * k) * u) by (nonlinear_arith);
        2 * k
    }
}

/// From the binade of `f` on, the spacing is a multiple of the spacing there.
proof fn lemma_spacing_divides(f: int, a: int, u: int, width: int)
    requires
        0 < u,
        0 <= f,
        width == 16 || width == 256,
        a >= width / 2 * spacing(f, u, width),
    ensures
        exists|k: int| spacing(a, u, width) == #[trigger] (k * spacing(f, u, width)),
    decreases f - u,
{
    lemma_spacing(f, u, width);
    if f < 2 * u || f < width * u {
        let k = lemma_spacing_multiple(a, u, width);
    } else {
        lemma_spacing(f, 2 * u, width);
        lemma_spacing_divides(f, a, 2 * u, width);
    }
}

/// What rounding to multiples of `v` keeps is a multiple of what `v` is a multiple of.
proof fn lemma_multiple(a: int, v: int, u: int) -> (n: int)
    requires
        0 < v,
        0 < u,
        nearest(a, v) == a,
        exists|k: int| v == #[trigger] (k * u),
    ensures
        a == n * u,
{
    let k = choose|k: int| v == #[trigger] (k * u);
    let q = a / v;
    assert(q * v + v == (q + 1) * v) by (nonlinear_arith);
    if a == q * v {
        assert(q * (k * u) == (q * k) * u) by (nonlinear_arith);
        q * k
    } else {
        assert((q + 1) * (k * u) == ((q + 1) * k) * u) by (nonlinear_arith);
        (q + 1) * k
    }
}

/// Numbers of one binade have one spacing, and the number behind the binade has twice that spacing.
proof fn lemma_binade(a: int, b: int, u: int, width: int)
    requires
        0 < u,
        0 <= a,
        0 <= b,
        width == 16 || width == 256,
        spacing(a, u, width) == u || width / 2 * spacing(a, u, width) <= b,
        b <= width * spacing(a, u, width),
    ensures
        b < width * spacing(a, u, width) ==> spacing(b, u, width) == spacing(a, u, width),
        b == width * spacing(a, u, width) ==> spacing(b, u, width) == 2 * spacing(a, u, width),
    decreases a - u,
{
    lemma_spacing(a, u, width);
    let v = spacing(a, u, width);
    assert(width == 16 ==> width * u == 16 * u && width * v == 16 * v && width / 2 * v == 8 * v);
    assert(width == 256 ==> width * u == 256 * u && width * v == 256 * v && width / 2 * v == 128
        * v);
    if a < 2 * u || a < width * u {
        if b == width * u {
            assert(b < width * (2 * u));
            assert(spacing(b, 2 * u, width) == 2 * u);
        }
    } else {
        lemma_spacing(a, 2 * u, width);
        lemma_binade(a, b, 2 * u, width);
    }
}

/// What is nearest is a number of the format: rounding keeps it.
pub proof fn law_number(y: real, width: int)
    requires
        y >= 0 as real,
        width == 16 || width == 256,
    ensures
        0 <= nearest_number(y, width),
        unbounded(nearest_number(y, width), width) == nearest_number(y, width),
{
    let f = y.floor();
    let u = spacing(f, 1, width);
    lemma_spacing(f, 1, width);
    let d = u as real;
    let q = y / d;
    lemma_quotient(y, d);
    let w = width as real;
    assert(width == 16 ==> w * d == 16 as real * d);
    assert(width == 256 ==> w * d == 256 as real * d);
    assert(f < width * u && y < (f + 1) as real && (f + 1) as real <= w * d);
    assert(0 as real <= q < w) by (nonlinear_arith)
        requires
            0 as real <= q * d < w * d,
            d > 0 as real,
    ;
    let m = nearest_integer(q);
    assert(0 <= m <= width);
    let half = width / 2;
    if u > 1 {
        let h = half as real;
        assert(width == 16 ==> h * d == 8 as real * d);
        assert(width == 256 ==> h * d == 128 as real * d);
        assert(h * d <= f as real);
        assert(h <= q) by (nonlinear_arith)
            requires
                h * d <= q * d,
                d > 0 as real,
        ;
        assert(m >= half);
    }
    let b = m * u;
    assert(0 <= b <= width * u && (m < width ==> b < width * u) && (m >= half ==> half * u <= b))
        by (nonlinear_arith)
        requires
            b == m * u,
            0 <= m <= width,
            u > 0,
    ;
    lemma_binade(f, b, 1, width);
    if m < width {
        lemma_kept(m, u);
    } else {
        lemma_kept(half, 2 * u);
    }
}

/// A multiple is the multiple nearest to itself.
proof fn lemma_kept(m: int, u: int)
    requires
        0 <= m,
        0 < u,
    ensures
        nearest(m * u, u) == m * u,
{
    assert((m * u) / u == m && (m * u) % u == 0) by (nonlinear_arith)
        requires
            0 < u,
    ;
}

/// Halving undoes doubling.
proof fn lemma_halved(x: real, j: nat, k: nat)
    ensures
        doubled(halved(x, j + k), k) == halved(x, j),
    decreases k,
{
    if k > 0 {
        lemma_halved(x, j + 1, (k - 1) as nat);
    }
}

/// A factor may stand before or after the halving.
proof fn lemma_halved_factor(c: real, x: real, k: nat)
    ensures
        halved(c * x, k) == c * halved(x, k),
    decreases k,
{
    if k > 0 {
        lemma_halved_factor(c, x, (k - 1) as nat);
        let y = halved(x, (k - 1) as nat);
        assert((c * y) / 2 as real == c * (y / 2 as real)) by (nonlinear_arith);
    }
}

/// What is halved is as positive as before.
proof fn lemma_halved_sign(x: real, k: nat)
    ensures
        halved(x, k) < 0 as real <==> x < 0 as real,
    decreases k,
{
    if k > 0 {
        lemma_halved_sign(x, (k - 1) as nat);
    }
}

/// A magnitude of the least numbers, rounded.
proof fn lemma_bf16_units(m: int)
    requires
        0 <= m,
    ensures
        halved(nearest_number(doubled(m as real * least(), 133), 256) as real, 133) == unbounded(
            m,
            256,
        ) as real * least(),
{
    let v = m as real;
    lemma_halved_factor(v, 1 as real, 133);
    assert(v * 1 as real == v);
    lemma_halved(v, 0, 133);
    law_nearest_number(m, 256);
    let r = unbounded(m, 256) as real;
    lemma_halved_factor(r, 1 as real, 133);
    assert(r * 1 as real == r);
}

/// `bf16` rounds the multiples of its smallest positive number as the format does.
proof fn lemma_rounds_to_bf16()
    ensures
        rounds_to_bf16::<Nearest>(least()),
{
    let unit = least();
    lemma_halved_sign(1 as real, 133);
    assert forall|n: int| #[trigger] Nearest::bf16(n as real * unit) == bf16_rounded(n) as real
        * unit by {
        law_odd(n);
        let m = magnitude(n);
        lemma_bf16_units(m);
        let v = n as real;
        let r = bf16_rounded(n) as real;
        assert(-(v * unit) == (-v) * unit) by (nonlinear_arith);
        assert(-(r * unit) == (-r) * unit) by (nonlinear_arith);
        lemma_halved_factor(v, 1 as real, 133);
        lemma_halved_sign(v, 133);
        assert(v * 1 as real == v);
    }
}

/// The functions meet what the laws ask of the roundings and of the error function and, for one
/// number, of the square root.
pub proof fn law_nearest()
    ensures
        rounds_to_f8::<Nearest>(),
        rounds_to_bf16::<Nearest>(least()),
        rounds_to_bf16::<Nearest>(fine()),
        odd_roundings::<Nearest>(),
        odd_erf::<Nearest>(),
        has_root::<Nearest>(1 as real),
{
    assert forall|n: int| #[trigger] Nearest::f8(units(n)) == units(rounded(n)) by {
        let m = magnitude(n);
        law_nearest_number(m, 16);
        assert(units(n) < 0 as real <==> n < 0);
    }
    lemma_rounds_to_bf16();
    law_coarser_units::<Nearest>(least(), 111);
    lemma_halved(1 as real, 22, 111);
    reveal_with_fuel(halved, 23);
    assert(halved(1 as real, 22) == fine());
    lemma_small(0, 16);
    assert forall|x: real| #[trigger] odd_at::<Nearest>(x) by {
        if x == 0 as real {
            assert(Nearest::f8(units(0)) == units(rounded(0)));
            assert(Nearest::bf16(0 as real * least()) == bf16_rounded(0) as real * least());
            law_odd(0);
            assert(0 as real * least() == 0 as real);
        }
    }
    assert(is_root(1 as real, 1 as real));
    let y = Nearest::sqrt(1 as real);
    assert(is_root(y, 1 as real));
    assert(y > 0 as real) by (nonlinear_arith)
        requires
            y >= 0 as real,
            y * y == 1 as real,
    ;
}

/// `f8` returns a number of the format.
pub proof fn law_f8_number(x: real)
    ensures
        exists|n: int| n == rounded(n) && Nearest::f8(x) == #[trigger] units(n),
{
    let y = distance(x, 0 as real) * 512 as real;
    let top = LARGEST as int;
    law_number(y, 16);
    let m = nearest_number(y, 16);
    lemma_top();
    let n = if m > top {
        top
    } else {
        m
    };
    law_odd(n);
    assert(n == rounded(n));
    if x < 0 as real {
        assert(Nearest::f8(x) == units(-n));
    } else {
        assert(Nearest::f8(x) == units(n));
    }
}

/// The largest number is a number of the format.
proof fn lemma_top()
    ensures
        rounded(LARGEST as int) == LARGEST,
{
    law_first_term(LARGEST as int);
    lemma_rounded_toward(LARGEST as int);
}

/// No number of the format is nearer to `x` than the one that `f8` returns: `units(k)` stands for
/// every one of them.
pub proof fn law_f8_nearest(x: real, k: int)
    requires
        k == rounded(k),
    ensures
        distance(x, Nearest::f8(x)) <= distance(x, units(k)),
{
    let a = distance(x, 0 as real);
    let y = a * 512 as real;
    let top = LARGEST as int;
    law_first_term(k);
    lemma_in_range(magnitude(k));
    law_no_number_nearer(y, magnitude(k), 16);
    lemma_top();
    lemma_in_range(top);
    law_no_number_nearer(y, top, 16);
    let m = nearest_number(y, 16);
    assert(y <= top as real ==> m <= top);
    assert(y >= top as real ==> m >= top);
    let r = magnitude(k) as real;
    let n = if m > top {
        top
    } else {
        m
    };
    assert(distance(y, n as real) <= distance(y, r));
    assert(distance(a, units(n)) <= distance(a, units(magnitude(k))));
}

/// A distance is halved with what it is measured between.
proof fn lemma_distance_halved(x: real, y: real, k: nat)
    ensures
        distance(halved(x, k), halved(y, k)) == halved(distance(x, y), k),
    decreases k,
{
    if k > 0 {
        lemma_distance_halved(x, y, (k - 1) as nat);
    }
}

/// Halving keeps an order.
proof fn lemma_halved_order(x: real, y: real, k: nat)
    requires
        x <= y,
    ensures
        halved(x, k) <= halved(y, k),
    decreases k,
{
    if k > 0 {
        lemma_halved_order(x, y, (k - 1) as nat);
    }
}

/// Doubling undoes halving.
proof fn lemma_doubled(x: real, k: nat)
    ensures
        halved(doubled(x, k), k) == x,
    decreases k,
{
    if k > 0 {
        lemma_doubled(x, (k - 1) as nat);
        let y = doubled(x, (k - 1) as nat);
        lemma_halved_factor(2 as real, y, (k - 1) as nat);
    }
}

/// What is doubled is as positive as before.
proof fn lemma_doubled_sign(x: real, k: nat)
    requires
        x >= 0 as real,
    ensures
        doubled(x, k) >= 0 as real,
    decreases k,
{
    if k > 0 {
        lemma_doubled_sign(x, (k - 1) as nat);
    }
}

/// `bf16` returns a number of the format.
pub proof fn law_bf16_number(x: real)
    ensures
        exists|n: int|
            #![trigger bf16_rounded(n)]
            n == bf16_rounded(n) && Nearest::bf16(x) == n as real * least(),
{
    let a = distance(x, 0 as real);
    let y = doubled(a, 133);
    lemma_doubled_sign(a, 133);
    law_number(y, 256);
    let n = nearest_number(y, 256);
    law_odd(n);
    let (v, unit) = (n as real, least());
    lemma_halved_factor(v, 1 as real, 133);
    assert(v * 1 as real == v);
    assert(bf16_rounded(n) == n && bf16_rounded(-n) == -n);
    if x < 0 as real {
        assert((-v) * unit == -(v * unit)) by (nonlinear_arith);
        assert(Nearest::bf16(x) == (-n) as real * unit);
    } else {
        assert(Nearest::bf16(x) == n as real * unit);
    }
}

/// No number of the format is nearer to `x` than the one that `bf16` returns: `k` times the smallest
/// positive number stands for every one of them.
pub proof fn law_bf16_nearest(x: real, k: int)
    requires
        k == bf16_rounded(k),
    ensures
        distance(x, Nearest::bf16(x)) <= distance(x, k as real * least()),
{
    let a = distance(x, 0 as real);
    let y = doubled(a, 133);
    let n = magnitude(k);
    lemma_doubled_sign(a, 133);
    law_no_number_nearer(y, n, 256);
    let m = nearest_number(y, 256) as real;
    let r = n as real;
    lemma_halved_order(distance(y, m), distance(y, r), 133);
    lemma_distance_halved(y, m, 133);
    lemma_distance_halved(y, r, 133);
    lemma_doubled(a, 133);
    lemma_halved_factor(r, 1 as real, 133);
    assert(r * 1 as real == r);
    assert(distance(a, halved(m, 133)) <= distance(a, r * least()));
    lemma_halved_sign(r, 133);
    let (v, unit) = (k as real, least());
    assert((-v) * unit == -(v * unit)) by (nonlinear_arith);
}

/// A number of the format at or behind the binade of `a` is a multiple of the spacing there.
proof fn lemma_on_grid(a: int, b: int, width: int) -> (n: int)
    requires
        0 <= a,
        width == 16 || width == 256,
        b >= width / 2 * spacing(a, 1, width) || spacing(a, 1, width) == 1,
        0 <= b,
        unbounded(b, width) == b,
    ensures
        b == n * spacing(a, 1, width),
{
    let u = spacing(a, 1, width);
    lemma_spacing(a, 1, width);
    if u == 1 {
        b
    } else {
        lemma_spacing_divides(a, b, 1, width);
        lemma_spacing(b, 1, width);
        lemma_multiple(b, spacing(b, 1, width), u)
    }
}

/// Of two numbers of `f8e4m3` that are as near to `v`, and nearest, the rounding takes the one
/// whose last digit is even: a multiple of twice their distance.
pub proof fn law_ties_to_even(v: int, low: int, high: int)
    requires
        0 <= low < v < high,
        v - low == high - v,
        rounded(low) == low,
        rounded(high) == high,
        rounded(v) == low || rounded(v) == high,
    ensures
        rounded(v) % (2 * (high - low)) == 0,
{
    law_first_term(high);
    lemma_in_range(low);
    lemma_in_range(high);
    lemma_in_range(v);
    let u = spacing(v, 1, 16);
    lemma_spacing(v, 1, 16);
    let (q, r) = (v / u, v % u);
    assert(v == q * u + r && 0 <= r < u) by (nonlinear_arith)
        requires
            q == v / u,
            r == v % u,
            0 < u,
    ;
    let next = q + 1;
    assert(next * u == q * u + u) by (nonlinear_arith)
        requires
            next == q + 1,
    ;
    assert(q * u >= 8 * u || u == 1) by {
        if u > 1 {
            assert(q >= 8) by (nonlinear_arith)
                requires
                    8 * u <= q * u + r,
                    r < u,
                    u > 0,
            ;
            assert(q * u >= 8 * u) by (nonlinear_arith)
                requires
                    q >= 8,
                    u > 0,
            ;
        }
    }
    let n = lemma_on_grid(v, high, 16);
    if low >= 8 * u || u == 1 {
        let m = lemma_on_grid(v, low, 16);
        assert(m <= q) by (nonlinear_arith)
            requires
                m * u < q * u + u,
                u > 0,
        ;
        assert(m * u <= q * u) by (nonlinear_arith)
            requires
                m <= q,
                u > 0,
        ;
    }
    assert(n >= next) by (nonlinear_arith)
        requires
            n * u > q * u,
            next == q + 1,
            u > 0,
    ;
    assert(n * u >= next * u) by (nonlinear_arith)
        requires
            n >= next,
            u > 0,
    ;
    assert(low <= q * u && high >= next * u);
    assert(2 * r == u);
    assert(low == q * u && high == next * u);
    if q % 2 == 0 {
        let k = q / 2;
        lemma_even(k, u);
        assert(q == 2 * k);
        assert((2 * k) * u == k * (2 * u)) by (nonlinear_arith);
    } else {
        let k = next / 2;
        lemma_even(k, u);
        assert(next == 2 * k);
        assert((2 * k) * u == k * (2 * u)) by (nonlinear_arith);
    }
}

proof fn lemma_even(k: int, u: int)
    requires
        0 <= k,
        0 < u,
    ensures
        (k * (2 * u)) % (2 * u) == 0,
{
    let d = 2 * u;
    assert((k * d) % d == 0) by (nonlinear_arith)
        requires
            d > 0,
    ;
}

} // verus!
