//! Arithmetic that rounds.
//!
//! A kernel that runs over `Rounded` computes on real numbers as a machine does: every operation may be
//! off by a small part of its result. What a law then says of a result, it says of every machine that
//! keeps to the bounds of `accurate`, as single-precision floats do away from the ends of their range.
//! A sum that cancels large numbers, which exact arithmetic does not see, is far off here.

use core::marker::PhantomData;

use vstd::prelude::*;

use crate::arith::Arith;
use crate::ideal::{f4_value, lemma_quotient, ten_to, total};

verus! {

/// The operations of a machine.
pub trait Machine: Sized {
    spec fn mul(a: real, b: real) -> real;

    spec fn add(a: real, b: real) -> real;

    spec fn sub(a: real, b: real) -> real;

    spec fn div(a: real, b: real) -> real;

    spec fn sqrt(a: real) -> real;

    spec fn erf(a: real) -> real;

    spec fn sum(a: Seq<real>) -> real;

    spec fn dot(a: Seq<real>, b: Seq<real>) -> real;

    spec fn bf16(a: real) -> real;

    spec fn f8(a: real) -> real;

    spec fn lit(digits: u64, places: u32) -> real;
}

/// The real numbers of a sequence.
pub open spec fn reals(a: Seq<Ghost<real>>) -> Seq<real> {
    Seq::new(a.len(), |i: int| a[i]@)
}

/// The arithmetic of the machine `M`.
pub struct Rounded<M> {
    pub machine: PhantomData<M>,
}

impl<M: Machine> Arith for Rounded<M> {
    type Num = Ghost<real>;

    open spec fn mul_of(a: Ghost<real>, b: Ghost<real>) -> Ghost<real> {
        Ghost(M::mul(a@, b@))
    }

    open spec fn add_of(a: Ghost<real>, b: Ghost<real>) -> Ghost<real> {
        Ghost(M::add(a@, b@))
    }

    open spec fn sub_of(a: Ghost<real>, b: Ghost<real>) -> Ghost<real> {
        Ghost(M::sub(a@, b@))
    }

    open spec fn div_of(a: Ghost<real>, b: Ghost<real>) -> Ghost<real> {
        Ghost(M::div(a@, b@))
    }

    open spec fn sqrt_of(a: Ghost<real>) -> Ghost<real> {
        Ghost(M::sqrt(a@))
    }

    open spec fn erf_of(a: Ghost<real>) -> Ghost<real> {
        Ghost(M::erf(a@))
    }

    open spec fn sum_of(a: Seq<Ghost<real>>) -> Ghost<real> {
        Ghost(M::sum(reals(a)))
    }

    open spec fn dot_of(a: Seq<Ghost<real>>, b: Seq<Ghost<real>>) -> Ghost<real> {
        Ghost(M::dot(reals(a), reals(b)))
    }

    open spec fn bf16_of(a: Ghost<real>) -> Ghost<real> {
        Ghost(M::bf16(a@))
    }

    open spec fn f8_of(a: Ghost<real>) -> Ghost<real> {
        Ghost(M::f8(a@))
    }

    open spec fn f4_of(code: u8) -> Ghost<real> {
        Ghost(f4_value(code))
    }

    open spec fn lit_of(digits: u64, places: u32) -> Ghost<real> {
        Ghost(M::lit(digits, places))
    }

    fn mul(a: &Ghost<real>, b: &Ghost<real>) -> (r: Ghost<real>) {
        Ghost(M::mul(a@, b@))
    }

    fn add(a: &Ghost<real>, b: &Ghost<real>) -> (r: Ghost<real>) {
        Ghost(M::add(a@, b@))
    }

    fn sub(a: &Ghost<real>, b: &Ghost<real>) -> (r: Ghost<real>) {
        Ghost(M::sub(a@, b@))
    }

    fn div(a: &Ghost<real>, b: &Ghost<real>) -> (r: Ghost<real>) {
        Ghost(M::div(a@, b@))
    }

    fn sqrt(a: &Ghost<real>) -> (r: Ghost<real>) {
        Ghost(M::sqrt(a@))
    }

    fn erf(a: &Ghost<real>) -> (r: Ghost<real>) {
        Ghost(M::erf(a@))
    }

    fn sum(a: &Vec<Ghost<real>>) -> (r: Ghost<real>) {
        Ghost(M::sum(reals(a@)))
    }

    fn dot(a: &Vec<Ghost<real>>, b: &Vec<Ghost<real>>) -> (r: Ghost<real>) {
        Ghost(M::dot(reals(a@), reals(b@)))
    }

    fn bf16(a: &Ghost<real>) -> (r: Ghost<real>) {
        Ghost(M::bf16(a@))
    }

    fn f8(a: &Ghost<real>) -> (r: Ghost<real>) {
        Ghost(M::f8(a@))
    }

    fn f4(code: u8) -> (r: Ghost<real>) {
        Ghost(f4_value(code))
    }

    fn lit(digits: u64, places: u32) -> (r: Ghost<real>) {
        Ghost(M::lit(digits, places))
    }

    fn dup(a: &Ghost<real>) -> (r: Ghost<real>) {
        *a
    }

    /// Unwritten memory reads as zero here, as it does in exact arithmetic.
    fn unset() -> (r: Ghost<real>)
        ensures
            r@ == 0 as real,
    {
        Ghost(0 as real)
    }
}

/// The magnitude of a real number.
pub open spec fn size(x: real) -> real {
    if x < 0 as real {
        -x
    } else {
        x
    }
}

/// `2^-24`, by which an operation on single-precision floats is off at most, as a part of its result.
pub open spec fn part() -> real {
    1 as real / 16_777_216 as real
}

/// The sizes of `n` numbers, added up.
pub open spec fn bulk(n: nat, f: spec_fn(int) -> real) -> real {
    total(n, |i: int| size(f(i)))
}

/// `x` is `y` up to one rounding.
pub open spec fn rounds(x: real, y: real) -> bool {
    size(x - y) <= part() * size(y)
}

/// How far the operations of `M` may be off. One operation is off by a part of its result. A sum or
/// a contraction of `n` numbers takes `n` of them in whatever order, and is off by `2 n` parts of
/// the sizes that it adds. A literal is rounded, and whole ones up to `2^24` are exact. Nothing is
/// asked of the error function and of the two roundings to shorter formats.
pub open spec fn accurate<M: Machine>() -> bool {
    &&& forall|a: real, b: real| rounds(#[trigger] M::mul(a, b), a * b)
    &&& forall|a: real, b: real| rounds(#[trigger] M::add(a, b), a + b)
    &&& forall|a: real, b: real| rounds(#[trigger] M::sub(a, b), a - b)
    &&& forall|a: real, b: real| b != 0 as real ==> rounds(#[trigger] M::div(a, b), a / b)
    &&& forall|a: real| a >= 0 as real ==> root_of(#[trigger] M::sqrt(a), a)
    &&& forall|a: Seq<real>| a.len() <= 4096 ==> sums(#[trigger] M::sum(a), a)
    &&& forall|a: Seq<real>, b: Seq<real>|
        a.len() == b.len() && a.len() <= 4096 ==> sums(#[trigger] M::dot(a, b), products(a, b))
    &&& forall|digits: u64, places: u32|
        rounds(
            #[trigger] M::lit(digits, places),
            digits as int as real / ten_to(places as nat),
        )
    &&& forall|digits: u64|
        digits <= 16_777_216 ==> #[trigger] M::lit(digits, 0) == digits as int as real
}

/// `v` is the root of `a` up to one rounding: its square is `a` up to three parts.
pub open spec fn root_of(v: real, a: real) -> bool {
    v >= 0 as real && size(v * v - a) <= 3 as real * part() * a
}

/// `v` is the sum of `a` up to the roundings on the way.
pub open spec fn sums(v: real, a: Seq<real>) -> bool {
    size(v - total(a.len(), |i: int| a[i])) <= (2 * a.len()) as real * part() * bulk(
        a.len(),
        |i: int| a[i],
    )
}

/// The products of the pairs.
pub open spec fn products(a: Seq<real>, b: Seq<real>) -> Seq<real> {
    Seq::new(a.len(), |i: int| a[i] * b[i])
}

/// `x` is `y` up to `k` parts of `s`, which is at least the size of `y`.
pub open spec fn close(x: real, y: real, k: int, s: real) -> bool {
    size(x - y) <= k as real * part() * s && size(y) <= s
}

/// A number is close to itself.
pub proof fn lemma_same(x: real)
    ensures
        close(x, x, 0, size(x)),
{
    let s = size(x);
    assert(0 as real * part() * s == 0 as real) by (nonlinear_arith);
}

/// More parts are a weaker claim.
pub proof fn lemma_weaker(x: real, y: real, k: int, j: int, s: real)
    requires
        close(x, y, k, s),
        k <= j,
    ensures
        close(x, y, j, s),
{
    let (a, b) = (k as real, j as real);
    let p = part();
    assert(a * p * s <= b * p * s) by (nonlinear_arith)
        requires
            a <= b,
            p > 0 as real,
            s >= 0 as real,
    ;
}

/// A larger size is a weaker claim.
pub proof fn lemma_larger(x: real, y: real, k: int, s: real, t: real)
    requires
        close(x, y, k, s),
        s <= t,
        0 <= k,
    ensures
        close(x, y, k, t),
{
    let a = k as real;
    let p = part();
    assert(a * p * s <= a * p * t) by (nonlinear_arith)
        requires
            a >= 0 as real,
            p > 0 as real,
            s <= t,
    ;
}

/// So many parts are at most the whole.
proof fn lemma_few_parts(k: int)
    requires
        0 <= k <= 16_777_216,
    ensures
        0 as real <= k as real * part() <= 1 as real,
{
    let a = k as real;
    assert(0 as real <= a <= 16_777_216 as real);
    assert(a * (1 as real / 16_777_216 as real) <= 1 as real);
}

/// What is close to `y` is at most twice as large.
pub proof fn lemma_bounded(x: real, y: real, k: int, s: real)
    requires
        close(x, y, k, s),
        0 <= k <= 16_777_216,
    ensures
        size(x) <= 2 as real * s,
{
    let b = k as real * part();
    lemma_few_parts(k);
    assert(b * s <= s) by (nonlinear_arith)
        requires
            b <= 1 as real,
            s >= 0 as real,
    ;
}

/// What is close to a positive number is not negative.
pub proof fn lemma_positive(x: real, y: real, k: int)
    requires
        close(x, y, k, y),
        y >= 0 as real,
        0 <= k <= 16_777_216,
    ensures
        x >= 0 as real,
{
    let b = k as real * part();
    lemma_few_parts(k);
    assert(b * y <= y) by (nonlinear_arith)
        requires
            b <= 1 as real,
            y >= 0 as real,
    ;
}

/// One more rounding.
pub proof fn lemma_rounded(z: real, x: real, y: real, k: int, s: real)
    requires
        close(x, y, k, s),
        rounds(z, x),
        0 <= k <= 16_777_216,
    ensures
        close(z, y, k + 2, s),
{
    lemma_bounded(x, y, k, s);
    let (a, b) = (k as real, (k + 2) as real);
    let p = part();
    let t = size(x);
    assert(p * t <= 2 as real * p * s) by (nonlinear_arith)
        requires
            t <= 2 as real * s,
            p > 0 as real,
    ;
    assert(a * p * s + 2 as real * p * s == b * p * s) by (nonlinear_arith)
        requires
            b == a + 2 as real,
    ;
}

/// The size of a product.
pub proof fn lemma_size_product(x: real, y: real)
    ensures
        size(x * y) == size(x) * size(y),
{
    assert(x >= 0 as real && y >= 0 as real ==> x * y >= 0 as real) by (nonlinear_arith);
    assert(x >= 0 as real && y < 0 as real ==> x * y <= 0 as real && x * (-y) == -(x * y))
        by (nonlinear_arith);
    assert(x < 0 as real && y >= 0 as real ==> x * y <= 0 as real && (-x) * y == -(x * y))
        by (nonlinear_arith);
    assert(x < 0 as real && y < 0 as real ==> x * y >= 0 as real && (-x) * (-y) == x * y)
        by (nonlinear_arith);
}

/// Products of larger factors are larger.
proof fn lemma_larger_product(m: real, x: real, g: real, y: real)
    by (nonlinear_arith)
    requires
        0 as real <= m <= x,
        0 as real <= g <= y,
    ensures
        0 as real <= m * g <= x * y,
{
}

/// The difference of two products.
proof fn lemma_product_difference(x: real, y: real, p: real, q: real)
    ensures
        size(x * p - y * q) <= size(x - y) * size(p) + size(y) * size(p - q),
{
    let (d, e) = (x - y, p - q);
    lemma_size_product(d, p);
    lemma_size_product(y, e);
    assert((x - y) * p == x * p - y * p) by (nonlinear_arith);
    assert(y * (p - q) == y * p - y * q) by (nonlinear_arith);
}

/// The parts by which a product is off.
proof fn lemma_parts(a: real, b: real, u: real, s: real, t: real)
    requires
        0 as real <= a <= 4096 as real,
        0 as real <= b <= 4096 as real,
        u == part(),
        s >= 0 as real,
        t >= 0 as real,
    ensures
        (a * u * s) * (t + b * u * t) + s * (b * u * t) <= (a + b + 1 as real) * u * (s * t),
{
    let v = s * t;
    let (f, g) = (a * u, b * u);
    lemma_larger_product(0 as real, s, 0 as real, t);
    let (m, n) = (f * s, g * t);
    assert(m * (t + n) == m * t + m * n) by (nonlinear_arith);
    assert((f * s) * t == f * (s * t)) by (nonlinear_arith);
    assert((f * s) * n == f * (s * n)) by (nonlinear_arith);
    assert(s * (g * t) == g * (s * t)) by (nonlinear_arith);
    assert(f * (g * v) == (f * g) * v) by (nonlinear_arith);
    let o = f * g;
    assert(f * v + g * v + o * v == (f + g + o) * v) by (nonlinear_arith);
    lemma_larger_product(a, 4096 as real, b, 4096 as real);
    let w = a * b;
    assert(w * u <= 1 as real);
    assert(f * g == (a * b) * u * u) by (nonlinear_arith)
        requires
            f == a * u,
            g == b * u,
    ;
    let x = w * u;
    assert(x * u <= 1 as real * u);
    let y = f + g + f * g;
    let z = (a + b + 1 as real) * u;
    assert(z == f + g + u) by (nonlinear_arith)
        requires
            z == (a + b + 1 as real) * u,
            f == a * u,
            g == b * u,
    ;
    assert(y <= z);
    assert(y * v <= z * v) by (nonlinear_arith)
        requires
            y <= z,
            v >= 0 as real,
    ;
}

/// Products of what is close.
pub proof fn lemma_times(x: real, y: real, k: int, s: real, p: real, q: real, j: int, t: real)
    requires
        close(x, y, k, s),
        close(p, q, j, t),
        0 <= k <= 4096,
        0 <= j <= 4096,
    ensures
        close(x * p, y * q, k + j + 1, s * t),
{
    let (a, b) = (k as real, j as real);
    let u = part();
    lemma_product_difference(x, y, p, q);
    lemma_larger_product(size(x - y), a * u * s, size(p), t + b * u * t);
    lemma_larger_product(size(y), s, size(p - q), b * u * t);
    lemma_parts(a, b, u, s, t);
    lemma_size_product(y, q);
    lemma_larger_product(size(y), s, size(q), t);
    assert((k + j + 1) as real == a + b + 1 as real);
}

/// Sums of what is close.
pub proof fn lemma_plus(x: real, y: real, s: real, p: real, q: real, t: real, k: int)
    requires
        close(x, y, k, s),
        close(p, q, k, t),
    ensures
        close(x + p, y + q, k, s + t),
        close(x - p, y - q, k, s + t),
{
    let a = k as real;
    let u = part();
    assert(a * u * s + a * u * t == a * u * (s + t)) by (nonlinear_arith);
}

/// The reciprocal of what is close.
pub proof fn lemma_reciprocal(p: real, q: real, j: int)
    requires
        close(p, q, j, size(q)),
        q != 0 as real,
        0 <= j <= 2048,
    ensures
        p != 0 as real,
        close(1 as real / p, 1 as real / q, j + 1, size(1 as real / q)),
{
    let (b, c) = (j as real, (j + 1) as real);
    let u = part();
    let (y, z) = (size(p), size(q));
    let w = 1 as real - b * u;
    assert(y >= w * z) by (nonlinear_arith)
        requires
            y >= z - b * u * z,
            w == 1 as real - b * u,
    ;
    assert(w * z > 0 as real) by (nonlinear_arith)
        requires
            w > 0 as real,
            z > 0 as real,
    ;
    let (m, n) = (1 as real / p, 1 as real / q);
    lemma_quotient(1 as real, p);
    lemma_quotient(1 as real, q);
    lemma_size_product(m, p);
    lemma_size_product(n, q);
    let (f, g) = (size(m), size(n));
    assert(f * w <= g) by (nonlinear_arith)
        requires
            f * y == 1 as real,
            g * z == 1 as real,
            y >= w * z,
            z > 0 as real,
            f >= 0 as real,
    ;
    let d = q - p;
    assert(m - n == (m * n) * d) by (nonlinear_arith)
        requires
            m * p == 1 as real,
            n * q == 1 as real,
            d == q - p,
    ;
    lemma_size_product(m * n, d);
    lemma_size_product(m, n);
    let h = size(d);
    assert((f * g) * h <= f * (b * u)) by (nonlinear_arith)
        requires
            0 as real <= h <= b * u * z,
            g * z == 1 as real,
            f >= 0 as real,
            g >= 0 as real,
    ;
    let bb = b * b;
    assert(0 as real <= bb <= 4_194_304 as real) by (nonlinear_arith)
        requires
            bb == b * b,
            0 as real <= b <= 2048 as real,
    ;
    assert(c * w == b + 1 as real - (bb + b) * u) by (nonlinear_arith)
        requires
            w == 1 as real - b * u,
            c == b + 1 as real,
            bb == b * b,
    ;
    assert(b <= c * w);
    assert(f * b <= c * g) by (nonlinear_arith)
        requires
            f * w <= g,
            b <= c * w,
            f >= 0 as real,
            c >= 0 as real,
    ;
    assert(f * (b * u) <= c * u * g) by (nonlinear_arith)
        requires
            f * b <= c * g,
            u > 0 as real,
    ;
}

/// A quotient is a product with the reciprocal.
proof fn lemma_by_reciprocal(x: real, p: real)
    requires
        p != 0 as real,
    ensures
        x / p == x * (1 as real / p),
{
    lemma_quotient(x, p);
    lemma_quotient(1 as real, p);
    let (a, b) = (x / p, 1 as real / p);
    assert(a == x * b) by (nonlinear_arith)
        requires
            a * p == x,
            b * p == 1 as real,
    ;
}

/// Quotients of what is close.
pub proof fn lemma_over(x: real, y: real, k: int, s: real, p: real, q: real, j: int)
    requires
        close(x, y, k, s),
        close(p, q, j, size(q)),
        q != 0 as real,
        0 <= k <= 4096,
        0 <= j <= 2048,
    ensures
        p != 0 as real,
        close(x / p, y / q, k + j + 2, s / size(q)),
{
    lemma_reciprocal(p, q, j);
    let (m, n) = (1 as real / p, 1 as real / q);
    lemma_times(x, y, k, s, m, n, j + 1, size(n));
    lemma_by_reciprocal(x, p);
    lemma_by_reciprocal(y, q);
    lemma_by_reciprocal(s, size(q));
    lemma_quotient(1 as real, q);
    lemma_size_product(n, q);
    lemma_quotient(1 as real, size(q));
    let (a, b, z) = (size(n), 1 as real / size(q), size(q));
    assert(a == b) by (nonlinear_arith)
        requires
            a * z == 1 as real,
            b * z == 1 as real,
    ;
}

/// Totals of what is close.
pub proof fn lemma_totals(
    n: nat,
    f: spec_fn(int) -> real,
    g: spec_fn(int) -> real,
    k: int,
    s: spec_fn(int) -> real,
)
    requires
        forall|i: int| 0 <= i < n ==> close(#[trigger] f(i), g(i), k, s(i)),
    ensures
        close(total(n, f), total(n, g), k, total(n, s)),
    decreases n,
{
    if n == 0 {
        let (a, u) = (k as real, part());
        assert(a * u * 0 as real == 0 as real) by (nonlinear_arith);
    } else {
        let m = (n - 1) as nat;
        lemma_totals(m, f, g, k, s);
        assert(close(f(n - 1), g(n - 1), k, s(n - 1)));
        lemma_plus(total(m, f), total(m, g), total(m, s), f(n - 1), g(n - 1), s(n - 1), k);
    }
}

/// The sizes of what is close add up to at most twice the sizes.
proof fn lemma_bulk(
    n: nat,
    f: spec_fn(int) -> real,
    g: spec_fn(int) -> real,
    k: int,
    s: spec_fn(int) -> real,
)
    requires
        forall|i: int| 0 <= i < n ==> close(#[trigger] f(i), g(i), k, s(i)),
        0 <= k <= 16_777_216,
    ensures
        bulk(n, f) <= 2 as real * total(n, s),
    decreases n,
{
    if n > 0 {
        let m = (n - 1) as nat;
        lemma_bulk(m, f, g, k, s);
        assert(close(f(n - 1), g(n - 1), k, s(n - 1)));
        lemma_bounded(f(n - 1), g(n - 1), k, s(n - 1));
    }
}

/// A sum of what is close, with the roundings on the way.
pub proof fn lemma_sum(
    v: real,
    a: Seq<real>,
    g: spec_fn(int) -> real,
    k: int,
    s: spec_fn(int) -> real,
)
    requires
        sums(v, a),
        forall|i: int| 0 <= i < a.len() ==> close(#[trigger] a[i], g(i), k, s(i)),
        0 <= k <= 16_777_216,
    ensures
        close(v, total(a.len(), g), k + 4 * a.len(), total(a.len(), s)),
{
    let n = a.len();
    let f = |i: int| a[i];
    assert forall|i: int| 0 <= i < n implies close(#[trigger] f(i), g(i), k, s(i)) by {
        assert(close(a[i], g(i), k, s(i)));
    }
    lemma_totals(n, f, g, k, s);
    lemma_bulk(n, f, g, k, s);
    let (b, c, d, u) = ((2 * n) as real, k as real, (k + 4 * n) as real, part());
    let (t, w) = (total(n, s), bulk(n, f));
    assert(b * u * w <= b * u * (2 as real * t)) by (nonlinear_arith)
        requires
            w <= 2 as real * t,
            b >= 0 as real,
            u > 0 as real,
    ;
    assert(c * u * t + b * u * (2 as real * t) == d * u * t) by (nonlinear_arith)
        requires
            d == c + 2 as real * b,
    ;
}

/// The root of what is close to a square.
pub proof fn lemma_root(v: real, t: real, r: real, k: int)
    requires
        root_of(v, t),
        close(t, r * r, k, r * r),
        r > 0 as real,
        0 <= k <= 16_777_216,
    ensures
        close(v, r, k + 6, r),
{
    let s = r * r;
    assert(s > 0 as real) by (nonlinear_arith)
        requires
            s == r * r,
            r > 0 as real,
    ;
    lemma_bounded(t, s, k, s);
    let (a, c, u) = (k as real, (k + 6) as real, part());
    assert(3 as real * u * t <= 6 as real * u * s) by (nonlinear_arith)
        requires
            t <= 2 as real * s,
            u > 0 as real,
    ;
    let d = v * v - s;
    assert(a * u * s + 6 as real * u * s == c * u * s) by (nonlinear_arith)
        requires
            c == a + 6 as real,
    ;
    assert(size(d) <= c * u * s);
    let (e, w) = (v - r, v + r);
    assert(d == e * w) by (nonlinear_arith)
        requires
            d == v * v - r * r,
            e == v - r,
            w == v + r,
    ;
    lemma_size_product(e, w);
    let m = size(e);
    let b = c * u * r;
    assert(m <= b) by (nonlinear_arith)
        requires
            m * w <= c * u * (r * r),
            b == c * u * r,
            w >= r,
            r > 0 as real,
            m >= 0 as real,
    ;
}

/// A product on the machine.
pub proof fn lemma_mul<M: Machine>(
    x: real,
    y: real,
    k: int,
    s: real,
    p: real,
    q: real,
    j: int,
    t: real,
)
    requires
        accurate::<M>(),
        close(x, y, k, s),
        close(p, q, j, t),
        0 <= k <= 4096,
        0 <= j <= 4096,
    ensures
        close(M::mul(x, p), y * q, k + j + 3, s * t),
{
    lemma_times(x, y, k, s, p, q, j, t);
    assert(rounds(M::mul(x, p), x * p));
    lemma_rounded(M::mul(x, p), x * p, y * q, k + j + 1, s * t);
}

/// A quotient on the machine.
pub proof fn lemma_div<M: Machine>(x: real, y: real, k: int, s: real, p: real, q: real, j: int)
    requires
        accurate::<M>(),
        close(x, y, k, s),
        close(p, q, j, size(q)),
        q != 0 as real,
        0 <= k <= 4096,
        0 <= j <= 2048,
    ensures
        close(M::div(x, p), y / q, k + j + 4, s / size(q)),
{
    lemma_over(x, y, k, s, p, q, j);
    assert(rounds(M::div(x, p), x / p));
    lemma_rounded(M::div(x, p), x / p, y / q, k + j + 2, s / size(q));
}

/// A sum and a difference of two numbers on the machine.
pub proof fn lemma_add<M: Machine>(x: real, y: real, s: real, p: real, q: real, t: real, k: int)
    requires
        accurate::<M>(),
        close(x, y, k, s),
        close(p, q, k, t),
        0 <= k <= 4096,
    ensures
        close(M::add(x, p), y + q, k + 2, s + t),
        close(M::sub(x, p), y - q, k + 2, s + t),
{
    lemma_plus(x, y, s, p, q, t, k);
    assert(rounds(M::add(x, p), x + p));
    assert(rounds(M::sub(x, p), x - p));
    lemma_rounded(M::add(x, p), x + p, y + q, k, s + t);
    lemma_rounded(M::sub(x, p), x - p, y - q, k, s + t);
}

/// A whole literal on the machine.
pub proof fn lemma_whole<M: Machine>(digits: u64)
    requires
        accurate::<M>(),
        digits <= 16_777_216,
    ensures
        M::lit(digits, 0) == digits as int as real,
        close(M::lit(digits, 0), digits as int as real, 0, digits as int as real),
{
    lemma_same(digits as int as real);
}

/// One rounding is one part.
pub proof fn lemma_one(x: real, y: real)
    requires
        rounds(x, y),
    ensures
        close(x, y, 1, size(y)),
{
}

} // verus!
