//! A machine that keeps to the bounds of `rounded::accurate`.

use vstd::prelude::*;

use crate::ideal::{lemma_quotient, ten_to, total, Functions};
use crate::nearest::Nearest;
use crate::rounded::{
    accurate, bulk, part, products, root_of, rounds, size, sums, Machine,
};

verus! {

/// Exact operations, a root that is near enough, and the functions of `Nearest`.
pub struct Precise {}

impl Machine for Precise {
    open spec fn mul(a: real, b: real) -> real {
        a * b
    }

    open spec fn add(a: real, b: real) -> real {
        a + b
    }

    open spec fn sub(a: real, b: real) -> real {
        a - b
    }

    open spec fn div(a: real, b: real) -> real {
        a / b
    }

    open spec fn sqrt(a: real) -> real {
        choose|v: real| root_of(v, a)
    }

    open spec fn erf(a: real) -> real {
        Nearest::erf(a)
    }

    open spec fn sum(a: Seq<real>) -> real {
        total(a.len(), |i: int| a[i])
    }

    open spec fn dot(a: Seq<real>, b: Seq<real>) -> real {
        let c = products(a, b);
        total(c.len(), |i: int| c[i])
    }

    open spec fn bf16(a: real) -> real {
        Nearest::bf16(a)
    }

    open spec fn f8(a: real) -> real {
        Nearest::f8(a)
    }

    open spec fn lit(digits: u64, places: u32) -> real {
        digits as int as real / ten_to(places as nat)
    }
}

/// Sizes add up to a size.
proof fn lemma_bulk(n: nat, f: spec_fn(int) -> real)
    ensures
        bulk(n, f) >= 0 as real,
    decreases n,
{
    if n > 0 {
        lemma_bulk((n - 1) as nat, f);
    }
}

/// What is exact is off by nothing.
proof fn lemma_exact(x: real)
    ensures
        rounds(x, x),
{
    let (p, s) = (part(), size(x));
    assert(p * s >= 0 as real) by (nonlinear_arith)
        requires
            p > 0 as real,
            s >= 0 as real,
    ;
    assert(size(x - x) == 0 as real);
}

/// An exact sum is off by nothing.
proof fn lemma_exact_sum(a: Seq<real>)
    ensures
        sums(total(a.len(), |i: int| a[i]), a),
{
    let f = |i: int| a[i];
    lemma_bulk(a.len(), f);
    let (n, p, b) = ((2 * a.len()) as real, part(), bulk(a.len(), f));
    let c = n * p;
    assert(c >= 0 as real);
    assert(c * b >= 0 as real) by (nonlinear_arith)
        requires
            c >= 0 as real,
            b >= 0 as real,
    ;
}

/// The whole root of an integer.
proof fn lemma_whole_root(t: int) -> (m: int)
    requires
        0 <= t,
    ensures
        0 <= m,
        m * m <= t < (m + 1) * (m + 1),
    decreases t,
{
    if t == 0 {
        0
    } else {
        let k = lemma_whole_root(t - 1);
        if t < (k + 1) * (k + 1) {
            k
        } else {
            assert((k + 2) * (k + 2) > (k + 1) * (k + 1)) by (nonlinear_arith)
                requires
                    k >= 0,
            ;
            k + 1
        }
    }
}

/// A positive number times the square of a large enough integer is at least `2^60`.
proof fn lemma_stretched(a: real) -> (n: int)
    requires
        a > 0 as real,
    ensures
        n > 0,
        a * (n as real * n as real) >= 1_152_921_504_606_846_976 as real,
{
    let b = 1 as real / a;
    lemma_quotient(1 as real, a);
    assert(b > 0 as real) by (nonlinear_arith)
        requires
            b * a == 1 as real,
            a > 0 as real,
    ;
    let f = b.floor() + 1;
    let g = f as real;
    assert(g >= 1 as real && g > b);
    let h = a * g;
    assert(h >= 1 as real) by (nonlinear_arith)
        requires
            h == a * g,
            g > b,
            b * a == 1 as real,
            a > 0 as real,
    ;
    assert(h * g >= 1 as real) by (nonlinear_arith)
        requires
            h >= 1 as real,
            g >= 1 as real,
    ;
    let n = 1_073_741_824 * f;
    let v = n as real;
    assert(v == 1_073_741_824 as real * g);
    let (k, w) = (1_073_741_824 as real, g * g);
    assert((k * g) * (k * g) == (k * k) * (g * g)) by (nonlinear_arith);
    assert(a * (g * g) == (a * g) * g) by (nonlinear_arith);
    let c = k * k;
    assert(c == 1_152_921_504_606_846_976 as real);
    assert(a * (c * w) == c * (a * w)) by (nonlinear_arith);
    n
}

/// Every number that is not negative has a root that is near enough.
proof fn lemma_has_root(a: real) -> (v: real)
    requires
        a >= 0 as real,
    ensures
        root_of(v, a),
{
    if a == 0 as real {
        assert(0 as real * 0 as real == 0 as real);
        0 as real
    } else {
        let n = lemma_stretched(a);
        let d = n as real;
        let e = d * d;
        let t = a * e;
        let f = t.floor();
        let m = lemma_whole_root(f);
        let r = m as real;
        assert((m * m) as real == r * r) by (nonlinear_arith)
            requires
                r == m as real,
        ;
        let next = m + 1;
        assert(next * next == m * m + 2 * m + 1) by (nonlinear_arith)
            requires
                next == m + 1,
        ;
        let s = r * r;
        assert(s <= t && t - s < 2 as real * r + 1 as real);
        assert(r >= 16_777_216 as real) by {
            if r < 16_777_216 as real {
                assert(s <= 16_777_216 as real * 16_777_216 as real) by (nonlinear_arith)
                    requires
                        s == r * r,
                        0 as real <= r <= 16_777_216 as real,
                ;
            }
        }
        let p = part();
        let z = p * r;
        assert(z >= 1 as real);
        assert(r <= z * r) by (nonlinear_arith)
            requires
                z >= 1 as real,
                r >= 0 as real,
        ;
        assert((p * r) * r == p * (r * r)) by (nonlinear_arith);
        assert(t - s <= 3 as real * (p * s));
        assert(p * s <= p * t);
        assert(t - s <= 3 as real * (p * t));
        let v = r / d;
        lemma_quotient(r, d);
        assert((v * v) * e == s) by {
            let x = v * d;
            assert((v * d) * (v * d) == (v * v) * (d * d)) by (nonlinear_arith);
        }
        let w = v * v;
        assert(v >= 0 as real) by (nonlinear_arith)
            requires
                v * d == r,
                d > 0 as real,
                r >= 0 as real,
        ;
        assert(e > 0 as real) by (nonlinear_arith)
            requires
                e == d * d,
                d > 0 as real,
        ;
        let q = 3 as real * p * a;
        let b = p * a;
        assert(q == 3 as real * b);
        assert(p * (a * e) == (p * a) * e) by (nonlinear_arith);
        assert((3 as real * b) * e == 3 as real * (b * e)) by (nonlinear_arith);
        assert(w <= a && a - w <= q) by (nonlinear_arith)
            requires
                w * e <= a * e,
                a * e - w * e <= q * e,
                e > 0 as real,
        ;
        v
    }
}

/// The machine keeps to the bounds.
pub proof fn law_precise()
    ensures
        accurate::<Precise>(),
{
    assert forall|a: real| a >= 0 as real implies root_of(#[trigger] Precise::sqrt(a), a) by {
        let v = lemma_has_root(a);
        assert(root_of(v, a));
    }
    assert forall|a: Seq<real>| a.len() <= 4096 implies sums(#[trigger] Precise::sum(a), a) by {
        lemma_exact_sum(a);
    }
    assert forall|a: Seq<real>, b: Seq<real>|
        a.len() == b.len() && a.len() <= 4096 implies sums(
        #[trigger] Precise::dot(a, b),
        products(a, b),
    ) by {
        lemma_exact_sum(products(a, b));
    }
    assert forall|digits: u64| digits <= 16_777_216 implies #[trigger] Precise::lit(digits, 0)
        == digits as int as real by {
        assert(ten_to(0) == 1 as real);
        let d = digits as int as real;
        assert(d / 1 as real == d);
    }
    assert forall|a: real, b: real| rounds(#[trigger] Precise::mul(a, b), a * b) by {
        lemma_exact(a * b);
    }
    assert forall|a: real, b: real| rounds(#[trigger] Precise::add(a, b), a + b) by {
        lemma_exact(a + b);
    }
    assert forall|a: real, b: real| rounds(#[trigger] Precise::sub(a, b), a - b) by {
        lemma_exact(a - b);
    }
    assert forall|a: real, b: real| b != 0 as real implies rounds(
        #[trigger] Precise::div(a, b),
        a / b,
    ) by {
        lemma_exact(a / b);
    }
    assert forall|digits: u64, places: u32| rounds(
        #[trigger] Precise::lit(digits, places),
        digits as int as real / ten_to(places as nat),
    ) by {
        lemma_exact(digits as int as real / ten_to(places as nat));
    }
}

} // verus!
