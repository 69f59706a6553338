//! Tensors in data memory, and the ways in which they are filled.

use vstd::prelude::*;

use crate::arith::Arith;

verus! {

/// Slices of one cluster.
pub const CLUSTER_SLICES: usize = 256;

/// Slices of the chip: two clusters, cluster 1 after cluster 0.
pub const SLICES: usize = 512;

/// A tensor in data memory: every slice of the chip holds the same number of elements.
///
/// Slice `s` of cluster `c` is row `c * 256 + s`.
pub struct Dm<V> {
    pub rows: Vec<Vec<V>>,
}

impl<V> Dm<V> {
    /// Element `e` of slice `s`.
    pub open spec fn at(self, s: int, e: int) -> V {
        self.rows@[s]@[e]
    }

    /// All slices of the chip hold `elems` elements.
    pub open spec fn shaped(self, elems: int) -> bool {
        &&& self.rows@.len() == SLICES
        &&& forall|s: int| 0 <= s < SLICES ==> (#[trigger] self.rows@[s])@.len() == elems
    }

    /// Reads element `e` of slice `s`.
    pub fn get(&self, s: usize, e: usize) -> (r: &V)
        requires
            s < self.rows@.len(),
            e < self.rows@[s as int]@.len(),
        ensures
            *r == self.at(s as int, e as int),
    {
        &self.rows[s][e]
    }
}

/// `(s, e)` names a cell of a tensor with `elems` elements a slice.
#[verifier::inline]
pub open spec fn cell(s: usize, e: usize, elems: int) -> bool {
    s < SLICES && e < elems
}

/// `i` names an element of a list of `len`.
#[verifier::inline]
pub open spec fn within(i: usize, len: int) -> bool {
    i < len
}

/// Element `e` lies in slot `slot` of a pool whose slots have `width` elements.
pub open spec fn in_slot(e: int, slot: int, width: int) -> bool {
    slot * width <= e < slot * width + width
}

/// The slice that word `k` of an all-gather comes from, as slice `s` sees it.
///
/// The gather runs over `members` slices that lie `stride` apart: slices that agree outside that
/// digit of the slice number form a ring, and each of them ends with the words of all, in ring order.
#[verifier::inline]
pub open spec fn ring_member(s: int, members: int, stride: int, k: int) -> int {
    s / (members * stride) * (members * stride) + k * stride + s % stride
}

/// Fills a tensor cell by cell.
pub fn fill<V, F: Fn(usize, usize) -> V>(elems: usize, f: F) -> (r: Dm<V>)
    requires
        forall|s: usize, e: usize| s < SLICES && e < elems ==> call_requires(f, (s, e)),
    ensures
        r.shaped(elems as int),
        forall|s: int, e: int|
            0 <= s < SLICES && 0 <= e < elems ==> call_ensures(
                f,
                (s as usize, e as usize),
                #[trigger] r.at(s, e),
            ),
{
    let mut rows: Vec<Vec<V>> = Vec::with_capacity(SLICES);
    let mut s: usize = 0;
    while s < SLICES
        invariant
            s <= SLICES,
            rows@.len() == s,
            forall|s: usize, e: usize| s < SLICES && e < elems ==> call_requires(f, (s, e)),
            forall|i: int| 0 <= i < s ==> (#[trigger] rows@[i])@.len() == elems,
            forall|i: int, e: int|
                0 <= i < s && 0 <= e < elems ==> call_ensures(
                    f,
                    (i as usize, e as usize),
                    #[trigger] rows@[i]@[e],
                ),
        decreases SLICES - s,
    {
        let mut row: Vec<V> = Vec::with_capacity(elems);
        let mut e: usize = 0;
        while e < elems
            invariant
                e <= elems,
                s < SLICES,
                row@.len() == e,
                forall|s: usize, e: usize| s < SLICES && e < elems ==> call_requires(f, (s, e)),
                forall|j: int| 0 <= j < e ==> call_ensures(f, (s, j as usize), #[trigger] row@[j]),
            decreases elems - e,
        {
            row.push(f(s, e));
            e = e + 1;
        }
        rows.push(row);
        s = s + 1;
    }
    Dm { rows }
}

/// Fills a list element by element.
pub fn list<V, F: Fn(usize) -> V>(len: usize, f: F) -> (r: Vec<V>)
    requires
        forall|i: usize| i < len ==> call_requires(f, (i,)),
    ensures
        r@.len() == len,
        forall|i: int| 0 <= i < len ==> call_ensures(f, (i as usize,), #[trigger] r@[i]),
{
    let mut r: Vec<V> = Vec::with_capacity(len);
    let mut i: usize = 0;
    while i < len
        invariant
            i <= len,
            r@.len() == i,
            forall|i: usize| i < len ==> call_requires(f, (i,)),
            forall|j: int| 0 <= j < i ==> call_ensures(f, (j as usize,), #[trigger] r@[j]),
        decreases len - i,
    {
        r.push(f(i));
        i = i + 1;
    }
    r
}

/// Unwritten memory.
pub fn fresh<A: Arith>(elems: usize) -> (r: Dm<A::Num>)
    ensures
        r.shaped(elems as int),
{
    fill(elems, |s: usize, e: usize| -> (r: A::Num) { A::unset() })
}

/// The contraction of `len` elements of two rows, from `a_start` and `b_start` on.
pub fn dot_at<A: Arith>(
    a: &Vec<A::Num>,
    a_start: usize,
    b: &Vec<A::Num>,
    b_start: usize,
    len: usize,
) -> (r: A::Num)
    requires
        a_start + len <= a.len(),
        b_start + len <= b.len(),
    ensures
        r == A::dot_of(
            a@.subrange(a_start as int, a_start + len),
            b@.subrange(b_start as int, b_start + len),
        ),
{
    let left: Vec<A::Num> = list(
        len,
        |i: usize| -> (q: A::Num)
            requires
                within(i, len as int),
            ensures
                q == a@[a_start + i],
        { A::dup(&a[a_start + i]) }
    );
    let right: Vec<A::Num> = list(
        len,
        |i: usize| -> (q: A::Num)
            requires
                within(i, len as int),
            ensures
                q == b@[b_start + i],
        { A::dup(&b[b_start + i]) }
    );
    assert(left@ =~= a@.subrange(a_start as int, a_start + len));
    assert(right@ =~= b@.subrange(b_start as int, b_start + len));
    A::dot(&left, &right)
}

} // verus!
