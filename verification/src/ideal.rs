//! Exact arithmetic.
//!
//! A kernel that runs over `Ideal` computes on real numbers, which exist for proofs only. Sums,
//! products and quotients are exact; the functions that are not rational, and the two roundings, are
//! left open, so that a law can say what it asks of them.

use core::marker::PhantomData;

use vstd::prelude::*;

use crate::arith::Arith;

verus! {

/// The functions that exact arithmetic leaves open.
pub trait Functions: Sized {
    spec fn sqrt(x: real) -> real;

    spec fn erf(x: real) -> real;

    spec fn bf16(x: real) -> real;

    spec fn f8(x: real) -> real;
}

/// `f(0) + f(1) + ... + f(n - 1)`.
pub open spec fn total(n: nat, f: spec_fn(int) -> real) -> real
    decreases n,
{
    if n == 0 {
        0 as real
    } else {
        total((n - 1) as nat, f) + f(n - 1)
    }
}

/// `10^n`.
pub open spec fn ten_to(n: nat) -> real
    decreases n,
{
    if n == 0 {
        1 as real
    } else {
        10 as real * ten_to((n - 1) as nat)
    }
}

/// Twice the magnitude of an `f4e2m1` code: 0, 0.5, 1, 1.5, 2, 3, 4 and 6.
pub open spec fn f4_half_units(code: u8) -> int {
    let m = code as int % 8;
    if m < 4 {
        m
    } else if m == 4 {
        4
    } else if m == 5 {
        6
    } else if m == 6 {
        8
    } else {
        12
    }
}

/// The value of an `f4e2m1` code: bit 3 is the sign.
pub open spec fn f4_value(code: u8) -> real {
    if code as int % 16 < 8 {
        f4_half_units(code) as real / 2 as real
    } else {
        -(f4_half_units(code) as real / 2 as real)
    }
}

/// Exact arithmetic with the functions of `F`.
pub struct Ideal<F> {
    pub functions: PhantomData<F>,
}

impl<F: Functions> Arith for Ideal<F> {
    type Num = Ghost<real>;

    open spec fn mul_of(a: Ghost<real>, b: Ghost<real>) -> Ghost<real> {
        Ghost(a@ * b@)
    }

    open spec fn add_of(a: Ghost<real>, b: Ghost<real>) -> Ghost<real> {
        Ghost(a@ + b@)
    }

    open spec fn sub_of(a: Ghost<real>, b: Ghost<real>) -> Ghost<real> {
        Ghost(a@ - b@)
    }

    open spec fn div_of(a: Ghost<real>, b: Ghost<real>) -> Ghost<real> {
        Ghost(a@ / b@)
    }

    open spec fn sqrt_of(a: Ghost<real>) -> Ghost<real> {
        Ghost(F::sqrt(a@))
    }

    open spec fn erf_of(a: Ghost<real>) -> Ghost<real> {
        Ghost(F::erf(a@))
    }

    open spec fn sum_of(a: Seq<Ghost<real>>) -> Ghost<real> {
        Ghost(total(a.len(), |i: int| a[i]@))
    }

    open spec fn dot_of(a: Seq<Ghost<real>>, b: Seq<Ghost<real>>) -> Ghost<real> {
        Ghost(total(a.len(), |i: int| a[i]@ * b[i]@))
    }

    open spec fn bf16_of(a: Ghost<real>) -> Ghost<real> {
        Ghost(F::bf16(a@))
    }

    open spec fn f8_of(a: Ghost<real>) -> Ghost<real> {
        Ghost(F::f8(a@))
    }

    open spec fn f4_of(code: u8) -> Ghost<real> {
        Ghost(f4_value(code))
    }

    open spec fn lit_of(digits: u64, places: u32) -> Ghost<real> {
        Ghost(digits as int as real / ten_to(places as nat))
    }

    fn mul(a: &Ghost<real>, b: &Ghost<real>) -> (r: Ghost<real>) {
        Ghost(a@ * b@)
    }

    fn add(a: &Ghost<real>, b: &Ghost<real>) -> (r: Ghost<real>) {
        Ghost(a@ + b@)
    }

    fn sub(a: &Ghost<real>, b: &Ghost<real>) -> (r: Ghost<real>) {
        Ghost(a@ - b@)
    }

    fn div(a: &Ghost<real>, b: &Ghost<real>) -> (r: Ghost<real>) {
        Ghost(a@ / b@)
    }

    fn sqrt(a: &Ghost<real>) -> (r: Ghost<real>) {
        Ghost(F::sqrt(a@))
    }

    fn erf(a: &Ghost<real>) -> (r: Ghost<real>) {
        Ghost(F::erf(a@))
    }

    fn sum(a: &Vec<Ghost<real>>) -> (r: Ghost<real>) {
        Ghost(total(a@.len(), |i: int| a@[i]@))
    }

    fn dot(a: &Vec<Ghost<real>>, b: &Vec<Ghost<real>>) -> (r: Ghost<real>) {
        Ghost(total(a@.len(), |i: int| a@[i]@ * b@[i]@))
    }

    fn bf16(a: &Ghost<real>) -> (r: Ghost<real>) {
        Ghost(F::bf16(a@))
    }

    fn f8(a: &Ghost<real>) -> (r: Ghost<real>) {
        Ghost(F::f8(a@))
    }

    fn f4(code: u8) -> (r: Ghost<real>) {
        Ghost(f4_value(code))
    }

    fn lit(digits: u64, places: u32) -> (r: Ghost<real>) {
        Ghost(digits as int as real / ten_to(places as nat))
    }

    fn dup(a: &Ghost<real>) -> (r: Ghost<real>) {
        *a
    }

    /// Unwritten memory reads as zero here. A kernel, which is written over any arithmetic, does not
    /// know that.
    fn unset() -> (r: Ghost<real>)
        ensures
            r@ == 0 as real,
    {
        Ghost(0 as real)
    }
}

/// A total depends on the summands alone.
pub proof fn lemma_total_same(n: nat, f: spec_fn(int) -> real, g: spec_fn(int) -> real)
    requires
        forall|i: int| 0 <= i < n ==> #[trigger] f(i) == g(i),
    ensures
        total(n, f) == total(n, g),
    decreases n,
{
    if n > 0 {
        lemma_total_same((n - 1) as nat, f, g);
        assert(f(n - 1) == g(n - 1));
    }
}

/// A common factor comes out of a total.
pub proof fn lemma_total_scaled(n: nat, k: real, f: spec_fn(int) -> real)
    ensures
        total(n, |i: int| k * f(i)) == k * total(n, f),
    decreases n,
{
    if n == 0 {
        assert(k * 0 as real == 0 as real) by (nonlinear_arith);
    } else {
        lemma_total_scaled((n - 1) as nat, k, f);
        let a = total((n - 1) as nat, f);
        let b = f(n - 1);
        assert(k * a + k * b == k * (a + b)) by (nonlinear_arith);
    }
}

/// The total of sums is the sum of the totals.
pub proof fn lemma_total_added(n: nat, f: spec_fn(int) -> real, g: spec_fn(int) -> real)
    ensures
        total(n, |i: int| f(i) + g(i)) == total(n, f) + total(n, g),
    decreases n,
{
    if n > 0 {
        lemma_total_added((n - 1) as nat, f, g);
    }
}

/// A total in two parts.
pub proof fn lemma_total_joined(m: nat, n: nat, f: spec_fn(int) -> real)
    ensures
        total(m + n, f) == total(m, f) + total(n, |i: int| f(m + i)),
    decreases n,
{
    if n > 0 {
        lemma_total_joined(m, (n - 1) as nat, f);
    }
}

/// A total in blocks of `k`.
pub proof fn lemma_total_blocked(m: nat, k: nat, f: spec_fn(int) -> real)
    ensures
        total(m * k, f) == total(m, |i: int| total(k, |j: int| f(i * k + j))),
    decreases m,
{
    if m == 0 {
        assert(0 * k == 0);
    } else {
        let before = (m - 1) as nat;
        lemma_total_blocked(before, k, f);
        assert(before * k + k == m * k) by (nonlinear_arith)
            requires
                before == m - 1,
        ;
        lemma_total_joined(before * k, k, f);
        lemma_total_same(k, |j: int| f(before * k + j), |j: int| f((m - 1) * k + j));
    }
}

/// `n` times `unit`.
pub open spec fn times(n: int, unit: real) -> real {
    n as real * unit
}

/// `v` is a multiple of `unit`.
pub open spec fn multiple_of(v: real, unit: real) -> bool {
    exists|n: int| v == #[trigger] times(n, unit)
}

/// A total of multiples is a multiple.
pub proof fn lemma_total_multiple(n: nat, f: spec_fn(int) -> real, unit: real)
    requires
        forall|i: int| 0 <= i < n ==> multiple_of(#[trigger] f(i), unit),
    ensures
        multiple_of(total(n, f), unit),
    decreases n,
{
    if n == 0 {
        assert(0 as real * unit == 0 as real) by (nonlinear_arith);
        assert(total(n, f) == times(0, unit));
    } else {
        lemma_total_multiple((n - 1) as nat, f, unit);
        assert(multiple_of(f(n - 1), unit));
        let a = choose|a: int| total((n - 1) as nat, f) == #[trigger] times(a, unit);
        let b = choose|b: int| f(n - 1) == #[trigger] times(b, unit);
        let (p, q) = (a as real, b as real);
        assert(p * unit + q * unit == (p + q) * unit) by (nonlinear_arith);
        assert(total(n, f) == times(a + b, unit));
    }
}

/// A total of negated summands is the negated total.
pub proof fn lemma_total_negated(n: nat, f: spec_fn(int) -> real)
    ensures
        total(n, |i: int| -f(i)) == -total(n, f),
    decreases n,
{
    if n > 0 {
        lemma_total_negated((n - 1) as nat, f);
    }
}

/// `p` takes every value below `n` once.
pub open spec fn permutes(p: spec_fn(int) -> int, n: int) -> bool {
    &&& forall|i: int| 0 <= i < n ==> 0 <= #[trigger] p(i) < n
    &&& forall|i: int, j: int| 0 <= i < j < n ==> #[trigger] p(i) != #[trigger] p(j)
    &&& forall|v: int| 0 <= v < n ==> #[trigger] reached(p, n, v)
}

/// `p` takes the value `v` below `n`.
pub open spec fn reached(p: spec_fn(int) -> int, n: int, v: int) -> bool {
    exists|i: int| 0 <= i < n && #[trigger] p(i) == v
}

/// A total with one summand changed.
pub proof fn lemma_total_changed(
    n: nat,
    f: spec_fn(int) -> real,
    g: spec_fn(int) -> real,
    k: int,
)
    requires
        0 <= k < n,
        forall|i: int| 0 <= i < n && i != k ==> #[trigger] f(i) == g(i),
    ensures
        total(n, g) == total(n, f) - f(k) + g(k),
    decreases n,
{
    if k == n - 1 {
        lemma_total_same((n - 1) as nat, f, g);
    } else {
        lemma_total_changed((n - 1) as nat, f, g, k);
        assert(f(n - 1) == g(n - 1));
    }
}

/// A total does not depend on the order of the summands.
pub proof fn lemma_total_permuted(n: nat, f: spec_fn(int) -> real, p: spec_fn(int) -> int)
    requires
        permutes(p, n as int),
    ensures
        total(n, |i: int| f(p(i))) == total(n, f),
    decreases n,
{
    if n > 0 {
        let last = n - 1;
        assert(reached(p, n as int, last));
        let k = choose|i: int| 0 <= i < n && #[trigger] p(i) == last;
        let q = |i: int| if i == k { p(last) } else { p(i) };
        assert(permutes(q, last)) by {
            assert(0 <= p(last) < n);
            assert forall|i: int| 0 <= i < last implies 0 <= #[trigger] q(i) < last by {
                assert(0 <= p(i) < n);
                if i != k {
                    assert(p(i) != p(k));
                } else {
                    assert(p(last) != p(k));
                }
            }
            assert forall|i: int, j: int| 0 <= i < j < last implies #[trigger] q(i) != #[trigger] q(
                j,
            ) by {
                assert(p(i) != p(j) && p(i) != p(last) && p(j) != p(last));
            }
            assert forall|v: int| 0 <= v < last implies #[trigger] reached(q, last, v) by {
                assert(reached(p, n as int, v));
                let i = choose|i: int| 0 <= i < n && #[trigger] p(i) == v;
                if i == last {
                    assert(q(k) == v);
                } else {
                    assert(q(i) == v);
                }
            }
        }
        lemma_total_permuted(last as nat, f, q);
        let after = |i: int| f(p(i));
        let before = |i: int| f(q(i));
        if k == last {
            lemma_total_same(last as nat, before, after);
        } else {
            lemma_total_changed(last as nat, before, after, k);
        }
    }
}

/// A quotient times its divisor.
pub proof fn lemma_quotient(x: real, d: real)
    by (nonlinear_arith)
    requires
        d != 0 as real,
    ensures
        x / d * d == x,
{
}

/// What times the divisor gives the number is the quotient.
pub proof fn lemma_quotient_is(x: real, d: real, q: real)
    requires
        d != 0 as real,
        q * d == x,
    ensures
        x / d == q,
{
    lemma_quotient(x, d);
    let p = x / d;
    assert(p == q) by (nonlinear_arith)
        requires
            d != 0 as real,
            p * d == q * d,
    ;
}

/// A factor comes out of a quotient.
pub proof fn lemma_quotient_scaled(c: real, x: real, d: real)
    requires
        d != 0 as real,
    ensures
        (c * x) / d == c * (x / d),
{
    lemma_quotient(x, d);
    let q = x / d;
    assert((c * q) * d == c * (q * d)) by (nonlinear_arith);
    lemma_quotient_is(c * x, d, c * q);
}

} // verus!
