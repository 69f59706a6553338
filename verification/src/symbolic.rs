//! Arithmetic on formulas.
//!
//! A kernel that runs over `Symbolic` computes, for every cell, the formula of the cell: which
//! operations are applied to which of its inputs, in which order.

use std::rc::Rc;

use vstd::prelude::*;

use crate::arith::Arith;

verus! {

/// A formula.
#[derive(Debug, PartialEq, Eq)]
pub enum Term {
    /// A number that the kernel was given.
    Leaf(u64),
    /// Whatever memory held.
    Unset,
    Lit(u64, u32),
    F4(u8),
    Mul(Rc<Term>, Rc<Term>),
    Add(Rc<Term>, Rc<Term>),
    Sub(Rc<Term>, Rc<Term>),
    Div(Rc<Term>, Rc<Term>),
    Sqrt(Rc<Term>),
    Erf(Rc<Term>),
    Bf16(Rc<Term>),
    F8(Rc<Term>),
    Sum(Rc<Terms>),
    Dot(Rc<Terms>, Rc<Terms>),
}

/// A list of formulas, the last one outermost.
#[derive(Debug, PartialEq, Eq)]
pub enum Terms {
    Empty,
    More(Rc<Terms>, Rc<Term>),
}

/// The list of the formulas of a sequence.
pub open spec fn terms(a: Seq<Rc<Term>>) -> Terms
    decreases a.len(),
{
    if a.len() == 0 {
        Terms::Empty
    } else {
        Terms::More(Rc::new(terms(a.drop_last())), a.last())
    }
}

/// A list stands for one sequence of formulas.
pub proof fn law_terms(a: Seq<Rc<Term>>, b: Seq<Rc<Term>>)
    requires
        terms(a) == terms(b),
    ensures
        a == b,
    decreases a.len(),
{
    if a.len() == 0 || b.len() == 0 {
        assert(a =~= b);
    } else {
        law_terms(a.drop_last(), b.drop_last());
        assert(a =~= a.drop_last().push(a.last()));
        assert(b =~= b.drop_last().push(b.last()));
    }
}

/// Builds `terms`.
pub fn terms_of(a: &Vec<Rc<Term>>) -> (r: Rc<Terms>)
    ensures
        *r == terms(a@),
{
    let mut r: Rc<Terms> = Rc::new(Terms::Empty);
    let mut i: usize = 0;
    while i < a.len()
        invariant
            i <= a@.len(),
            *r == terms(a@.take(i as int)),
        decreases a@.len() - i,
    {
        r = Rc::new(Terms::More(r, Rc::clone(&a[i])));
        i = i + 1;
        assert(a@.take(i as int).drop_last() =~= a@.take(i - 1));
    }
    assert(a@.take(i as int) =~= a@);
    r
}

/// A leaf.
pub fn leaf(n: u64) -> (r: Rc<Term>)
    ensures
        *r == Term::Leaf(n),
{
    Rc::new(Term::Leaf(n))
}

/// The arithmetic of formulas.
pub struct Symbolic {}

impl Arith for Symbolic {
    type Num = Rc<Term>;

    open spec fn mul_of(a: Rc<Term>, b: Rc<Term>) -> Rc<Term> {
        Rc::new(Term::Mul(a, b))
    }

    open spec fn add_of(a: Rc<Term>, b: Rc<Term>) -> Rc<Term> {
        Rc::new(Term::Add(a, b))
    }

    open spec fn sub_of(a: Rc<Term>, b: Rc<Term>) -> Rc<Term> {
        Rc::new(Term::Sub(a, b))
    }

    open spec fn div_of(a: Rc<Term>, b: Rc<Term>) -> Rc<Term> {
        Rc::new(Term::Div(a, b))
    }

    open spec fn sqrt_of(a: Rc<Term>) -> Rc<Term> {
        Rc::new(Term::Sqrt(a))
    }

    open spec fn erf_of(a: Rc<Term>) -> Rc<Term> {
        Rc::new(Term::Erf(a))
    }

    open spec fn sum_of(a: Seq<Rc<Term>>) -> Rc<Term> {
        Rc::new(Term::Sum(Rc::new(terms(a))))
    }

    open spec fn dot_of(a: Seq<Rc<Term>>, b: Seq<Rc<Term>>) -> Rc<Term> {
        Rc::new(Term::Dot(Rc::new(terms(a)), Rc::new(terms(b))))
    }

    open spec fn bf16_of(a: Rc<Term>) -> Rc<Term> {
        Rc::new(Term::Bf16(a))
    }

    open spec fn f8_of(a: Rc<Term>) -> Rc<Term> {
        Rc::new(Term::F8(a))
    }

    open spec fn f4_of(code: u8) -> Rc<Term> {
        Rc::new(Term::F4(code))
    }

    open spec fn lit_of(digits: u64, places: u32) -> Rc<Term> {
        Rc::new(Term::Lit(digits, places))
    }

    fn mul(a: &Rc<Term>, b: &Rc<Term>) -> (r: Rc<Term>) {
        Rc::new(Term::Mul(Rc::clone(a), Rc::clone(b)))
    }

    fn add(a: &Rc<Term>, b: &Rc<Term>) -> (r: Rc<Term>) {
        Rc::new(Term::Add(Rc::clone(a), Rc::clone(b)))
    }

    fn sub(a: &Rc<Term>, b: &Rc<Term>) -> (r: Rc<Term>) {
        Rc::new(Term::Sub(Rc::clone(a), Rc::clone(b)))
    }

    fn div(a: &Rc<Term>, b: &Rc<Term>) -> (r: Rc<Term>) {
        Rc::new(Term::Div(Rc::clone(a), Rc::clone(b)))
    }

    fn sqrt(a: &Rc<Term>) -> (r: Rc<Term>) {
        Rc::new(Term::Sqrt(Rc::clone(a)))
    }

    fn erf(a: &Rc<Term>) -> (r: Rc<Term>) {
        Rc::new(Term::Erf(Rc::clone(a)))
    }

    fn sum(a: &Vec<Rc<Term>>) -> (r: Rc<Term>) {
        Rc::new(Term::Sum(terms_of(a)))
    }

    fn dot(a: &Vec<Rc<Term>>, b: &Vec<Rc<Term>>) -> (r: Rc<Term>) {
        Rc::new(Term::Dot(terms_of(a), terms_of(b)))
    }

    fn bf16(a: &Rc<Term>) -> (r: Rc<Term>) {
        Rc::new(Term::Bf16(Rc::clone(a)))
    }

    fn f8(a: &Rc<Term>) -> (r: Rc<Term>) {
        Rc::new(Term::F8(Rc::clone(a)))
    }

    fn f4(code: u8) -> (r: Rc<Term>) {
        Rc::new(Term::F4(code))
    }

    fn lit(digits: u64, places: u32) -> (r: Rc<Term>) {
        Rc::new(Term::Lit(digits, places))
    }

    fn dup(a: &Rc<Term>) -> (r: Rc<Term>) {
        Rc::clone(a)
    }

    /// Unwritten memory has a formula of its own, which no other operation builds.
    fn unset() -> (r: Rc<Term>)
        ensures
            *r == Term::Unset,
    {
        Rc::new(Term::Unset)
    }
}

} // verus!
