//! What the query, key and value projections of sliding attention run on: where their rows lie, and
//! the warm-up command.
//!
//! There are eight heads. A head has two groups of 256 query rows and 256 key and value rows, so
//! query row `512 n + 256 g + d` is column `d` of group `g` of head `n`, and key or value row
//! `256 n + d` is column `d` of head `n`. Cluster 0 owns heads 0 to 3, cluster 1 heads 4 to 7; inside
//! a cluster a head owns 64 consecutive slices.

use vstd::prelude::*;

use crate::context::{plain, Buffer, Command, Context, Unit};
use crate::rounding::{eight_bits, law_second_term, law_two_terms, magnitude, two_terms, LARGEST};

verus! {

/// Query rows of all heads.
pub const QUERY_ROWS: usize = 4096;

/// Key or value rows of all heads.
pub const KV_ROWS: usize = 2048;

/// The power of two that the normalized hidden state is multiplied by before it is split into
/// terms.
pub const X_PRESCALE: i64 = 8;

/// A place: element `elem` of slice `slice` of the chip (cluster 1 after cluster 0).
#[derive(Clone, Copy, Debug, PartialEq, Eq, Structural)]
pub struct Place {
    pub slice: usize,
    pub elem: usize,
}

/// The slice of query row `row` while its weight is contracted: head, group, `d / 64`, and the low
/// digit `d % 8` innermost.
pub open spec fn query_slice(row: int) -> int {
    row / 64 * 8 + row % 8
}

/// The element of query row `row` in that slice.
pub open spec fn query_elem(row: int) -> int {
    row / 8 % 8
}

/// The query row at an element of a slice.
pub open spec fn query_row(slice: int, elem: int) -> int {
    slice / 8 * 64 + elem * 8 + slice % 8
}

/// Places a query row.
pub fn query_row_slices(row: usize) -> (r: Place)
    requires
        row < QUERY_ROWS,
    ensures
        r.slice == query_slice(row as int),
        r.elem == query_elem(row as int),
{
    Place { slice: row / 64 * 8 + row % 8, elem: row / 8 % 8 }
}

/// The slice of key or value row `row` while its weight is contracted: head, `d / 32`, `d % 4`, and
/// `d / 4 % 2` innermost.
pub open spec fn kv_slice(row: int) -> int {
    row / 32 * 8 + row % 4 * 2 + row / 4 % 2
}

/// The element of key or value row `row` in that slice.
pub open spec fn kv_elem(row: int) -> int {
    row / 8 % 4
}

/// The key or value row at an element of a slice.
pub open spec fn kv_row(slice: int, elem: int) -> int {
    slice / 8 * 32 + elem * 8 + slice % 2 * 4 + slice / 2 % 4
}

/// Places a key or value row.
pub fn key_value_row_slices(row: usize) -> (r: Place)
    requires
        row < KV_ROWS,
    ensures
        r.slice == kv_slice(row as int),
        r.elem == kv_elem(row as int),
{
    Place { slice: row / 32 * 8 + row % 4 * 2 + row / 4 % 2, elem: row / 8 % 4 }
}

/// Places a query row after the sort: eight consecutive rows a slice.
pub fn query_rows_by_head(row: usize) -> (r: Place)
    requires
        row < QUERY_ROWS,
    ensures
        r.slice == row as int / 8,
        r.elem == row as int % 8,
{
    Place { slice: row / 8, elem: row % 8 }
}

/// Places a key or value row after the sort: four consecutive rows a slice.
pub fn kv_rows_by_head(row: usize) -> (r: Place)
    requires
        row < KV_ROWS,
    ensures
        r.slice == row as int / 4,
        r.elem == row as int % 4,
{
    Place { slice: row / 4, elem: row % 4 }
}

/// The slice that stands for head `n`: the first of the 64 that the head owns.
pub fn head_slices(n: usize) -> (r: usize)
    requires
        n < 8,
    ensures
        r == (n as int / 4) * 256 + (n as int % 4) * 64,
{
    n * 64
}

/// The slice of replica `rep` of member `member` of the sixteen-slice ring of a cluster.
pub fn everywhere(cluster: usize, rep: usize, member: usize) -> (r: usize)
    requires
        cluster < 2,
        rep < 16,
        member < 16,
    ensures
        r == cluster * 256 + rep * 16 + member,
{
    cluster * 256 + rep * 16 + member
}

/// The slice of cluster `cluster` that holds copy `copy` of a tensor that every head shares.
pub fn head_copy_slices(cluster: usize, copy: usize) -> (r: usize)
    requires
        cluster < 2,
        copy < 4,
    ensures
        r == cluster * 256 + copy * 64,
{
    cluster * 256 + copy * 64
}

/// The command of `warm_up`.
pub open spec fn warm_up_command() -> Command {
    plain(Unit::Sub, Buffer::Fresh, Buffer::Discarded)
}

/// A first command for the sub context. It reads a fresh tensor, so it waits for nothing, and its
/// result is never used: it takes the cost of a first command off the critical chain.
pub fn warm_up(ctx: &mut Context)
    ensures
        final(ctx).log() == old(ctx).log().push(warm_up_command()),
{
    ctx.issue(Unit::Sub, Buffer::Fresh, Buffer::Discarded);
}

/// The warm-up depends on nothing that a kernel computes: it reads a fresh tensor and nothing else. Its
/// result has a name that stands for what is thrown away.
pub proof fn law_warm_up()
    ensures
        forall|b: Buffer| warm_up_command().reads(b) <==> b == Buffer::Fresh,
        warm_up_command().target == Buffer::Discarded,
{
}

/// The prescale. A number `x` with eight significant bits is counted in units of `2^-12`; the prescaled
/// number, in units of `2^-9`, is what the two terms hold. From 1/2 up to 56 they hold it exactly, and
/// the second one is zero or a normal number of the format: those begin at `2^-6`, which is 8 units.
/// 56 is the largest number whose first term still fits.
pub proof fn law_prescale(x: int)
    requires
        eight_bits(magnitude(x)),
        2048 <= magnitude(x) <= 56 * 4096,
    ensures
        ({
            let (first, second) = two_terms(X_PRESCALE * x / 8);
            &&& first + second == X_PRESCALE * x / 8
            &&& second != 0 ==> magnitude(second) >= 8
        }),
        X_PRESCALE * (56 * 4096) / 8 == LARGEST,
{
    assert(X_PRESCALE * x / 8 == x);
    law_two_terms(x);
    law_second_term(x);
}

/// Every query row has a place of its own, and every element of every slice holds a query row.
pub proof fn law_query_places(row: int, slice: int, elem: int)
    requires
        0 <= row < QUERY_ROWS,
        0 <= slice < 512,
        0 <= elem < 8,
    ensures
        0 <= query_slice(row) < 512,
        0 <= query_elem(row) < 8,
        query_row(query_slice(row), query_elem(row)) == row,
        0 <= query_row(slice, elem) < QUERY_ROWS,
        query_slice(query_row(slice, elem)) == slice,
        query_elem(query_row(slice, elem)) == elem,
{
}

/// Every key or value row has a place of its own, and every element of every slice holds one.
pub proof fn law_kv_places(row: int, slice: int, elem: int)
    requires
        0 <= row < KV_ROWS,
        0 <= slice < 512,
        0 <= elem < 4,
    ensures
        0 <= kv_slice(row) < 512,
        0 <= kv_elem(row) < 4,
        kv_row(kv_slice(row), kv_elem(row)) == row,
        0 <= kv_row(slice, elem) < KV_ROWS,
        kv_slice(kv_row(slice, elem)) == slice,
        kv_elem(kv_row(slice, elem)) == elem,
{
    lemma_kv_place_of_row(row);
    lemma_kv_row_at_place(slice, elem);
}

proof fn lemma_kv_place_of_row(row: int)
    requires
        0 <= row < KV_ROWS,
    ensures
        0 <= kv_slice(row) < 512,
        0 <= kv_elem(row) < 4,
        kv_row(kv_slice(row), kv_elem(row)) == row,
{
    let r = row as u32;
    assert(r / 32 * 8 + r % 4 * 2 + r / 4 % 2 < 512) by (bit_vector)
        requires
            r < 2048,
    ;
    assert((r / 32 * 8 + r % 4 * 2 + r / 4 % 2) / 8 * 32 + r / 8 % 4 * 8 + (r / 32 * 8 + r % 4 * 2 + r
        / 4 % 2) % 2 * 4 + (r / 32 * 8 + r % 4 * 2 + r / 4 % 2) / 2 % 4 == r) by (bit_vector)
        requires
            r < 2048,
    ;
}

proof fn lemma_kv_row_at_place(slice: int, elem: int)
    requires
        0 <= slice < 512,
        0 <= elem < 4,
    ensures
        0 <= kv_row(slice, elem) < KV_ROWS,
        kv_slice(kv_row(slice, elem)) == slice,
        kv_elem(kv_row(slice, elem)) == elem,
{
    let s = slice as u32;
    let e = elem as u32;
    assert(s / 8 * 32 + e * 8 + s % 2 * 4 + s / 2 % 4 < 2048) by (bit_vector)
        requires
            s < 512,
            e < 4,
    ;
    assert((s / 8 * 32 + e * 8 + s % 2 * 4 + s / 2 % 4) / 32 * 8 + (s / 8 * 32 + e * 8 + s % 2 * 4 + s
        / 2 % 4) % 4 * 2 + (s / 8 * 32 + e * 8 + s % 2 * 4 + s / 2 % 4) / 4 % 2 == s) by (bit_vector)
        requires
            s < 512,
            e < 4,
    ;
    assert((s / 8 * 32 + e * 8 + s % 2 * 4 + s / 2 % 4) / 8 % 4 == e) by (bit_vector)
        requires
            s < 512,
            e < 4,
    ;
}

/// The digits of a query row's place: head, group and `d / 64` above `d % 8`, and `d / 8 % 8` inside the
/// slice; after the sort, head and group above `d / 8`, and `d % 8` inside.
pub proof fn law_query_digits(n: int, g: int, d: int)
    requires
        0 <= n < 8,
        0 <= g < 2,
        0 <= d < 256,
    ensures
        query_slice(n * 512 + g * 256 + d) == ((n * 2 + g) * 4 + d / 64) * 8 + d % 8,
        query_elem(n * 512 + g * 256 + d) == d / 8 % 8,
        (n * 512 + g * 256 + d) / 8 == (n * 2 + g) * 32 + d / 8,
        (n * 512 + g * 256 + d) % 8 == d % 8,
{
    let (a, b, c) = (d / 64, d / 8 % 8, d % 8);
    let row = n * 512 + g * 256 + d;
    let top = (n * 2 + g) * 4 + a;
    assert(d == a * 64 + b * 8 + c);
    assert(row == top * 64 + (b * 8 + c));
    assert(row / 64 == top);
    assert(row == (top * 8 + b) * 8 + c);
    assert(row / 8 == top * 8 + b && row % 8 == c);
    assert((top * 8 + b) % 8 == b);
}

/// The digits of a key or value row's place: head and `d / 32` above `d % 4` and `d / 4 % 2`, and
/// `d / 8 % 4` inside the slice; after the sort, head above `d / 4`, and `d % 4` inside.
pub proof fn law_kv_digits(n: int, d: int)
    requires
        0 <= n < 8,
        0 <= d < 256,
    ensures
        kv_slice(n * 256 + d) == ((n * 8 + d / 32) * 4 + d % 4) * 2 + d / 4 % 2,
        kv_elem(n * 256 + d) == d / 8 % 4,
        (n * 256 + d) / 4 == n * 64 + d / 4,
        (n * 256 + d) % 4 == d % 4,
{
    let m = n as u32;
    let e = d as u32;
    assert((m * 256 + e) / 32 * 8 + (m * 256 + e) % 4 * 2 + (m * 256 + e) / 4 % 2 == ((m * 8 + e / 32)
        * 4 + e % 4) * 2 + e / 4 % 2) by (bit_vector)
        requires
            m < 8,
            e < 256,
    ;
    assert((m * 256 + e) / 8 % 4 == e / 8 % 4 && (m * 256 + e) / 4 == m * 64 + e / 4 && (m * 256 + e)
        % 4 == e % 4) by (bit_vector)
        requires
            m < 8,
            e < 256,
    ;
}

/// Eight consecutive query rows go to eight different slices, and so do eight consecutive key or
/// value rows: two rows that lie less than eight apart never share a slice.
pub proof fn law_consecutive_rows_spread(row: int, other: int)
    requires
        0 <= row < other < row + 8,
    ensures
        query_slice(row) != query_slice(other),
        kv_slice(row) != kv_slice(other),
{
    lemma_query_low_digits(row);
    lemma_query_low_digits(other);
    lemma_kv_low_digits(row);
    lemma_kv_low_digits(other);
    lemma_low_digits_differ(row, other);
}

/// The three low bits of two rows that lie less than eight apart differ, in either order.
proof fn lemma_low_digits_differ(row: int, other: int)
    requires
        0 <= row < other < row + 8,
    ensures
        row % 8 != other % 8,
        row % 8 % 4 * 2 + row % 8 / 4 != other % 8 % 4 * 2 + other % 8 / 4,
{
    lemma_remainders_differ(row, other);
    lemma_bit_order((row % 8) as u32, (other % 8) as u32);
}

proof fn lemma_remainders_differ(row: int, other: int)
    requires
        0 <= row < other < row + 8,
    ensures
        row % 8 != other % 8,
{
    let (p, q) = (row / 8, other / 8);
    assert(row == p * 8 + row % 8 && other == q * 8 + other % 8);
}

/// The order of three bits loses nothing.
proof fn lemma_bit_order(t: u32, w: u32)
    by (bit_vector)
    requires
        t < 8,
        w < 8,
        t != w,
    ensures
        t % 4 * 2 + t / 4 != w % 4 * 2 + w / 4,
{
}

/// A query slice number ends in the three low bits of the row.
proof fn lemma_query_low_digits(row: int)
    requires
        0 <= row,
    ensures
        query_slice(row) % 8 == row % 8,
{
    lemma_multiple_of_eight(row / 64, row % 8);
}

/// A key or value slice number ends in the three low bits of the row, the highest of them last.
proof fn lemma_kv_low_digits(row: int)
    requires
        0 <= row,
    ensures
        kv_slice(row) % 8 == row % 8 % 4 * 2 + row % 8 / 4,
{
    lemma_three_bits(row);
    lemma_multiple_of_eight(row / 32, row % 8 % 4 * 2 + row % 8 / 4);
}

proof fn lemma_three_bits(row: int)
    requires
        0 <= row,
    ensures
        row % 4 == row % 8 % 4,
        row / 4 % 2 == row % 8 / 4,
{
    let (p, t) = (row / 8, row % 8);
    assert(row == p * 8 + t);
    assert(row / 4 == p * 2 + t / 4);
}

proof fn lemma_multiple_of_eight(a: int, t: int)
    requires
        0 <= t < 8,
    ensures
        (a * 8 + t) % 8 == t,
{
}

/// A slice holds rows that lie eight apart.
pub proof fn law_rows_of_a_slice(slice: int, elem: int)
    requires
        0 <= slice,
        0 <= elem,
    ensures
        query_row(slice, elem + 1) == query_row(slice, elem) + 8,
        kv_row(slice, elem + 1) == kv_row(slice, elem) + 8,
{
}

/// The sort of the query rows swaps the innermost slice digit with the element: afterwards slice
/// `s` holds the rows `8 s .. 8 s + 8`.
pub proof fn law_query_sort(row: int)
    requires
        0 <= row < QUERY_ROWS,
    ensures
        query_slice(row) / 8 * 8 + query_elem(row) == row / 8,
        query_slice(row) % 8 == row % 8,
{
}

/// The sort of the key and value rows swaps the slice digit of stride two with the element:
/// afterwards slice `s` holds the rows `4 s .. 4 s + 4`.
pub proof fn law_kv_sort(row: int)
    requires
        0 <= row < KV_ROWS,
    ensures
        kv_slice(row) / 8 * 8 + kv_elem(row) * 2 + kv_slice(row) % 2 == row / 4,
        kv_slice(row) / 2 % 4 == row % 4,
{
}

/// The head is the outermost digit of a slice, before and after the sort: the rows of head `n` lie in
/// the 64 slices from `64 n` on, and the two clusters split the heads in the middle.
pub proof fn law_heads(n: int, g: int, d: int)
    requires
        0 <= n < 8,
        0 <= g < 2,
        0 <= d < 256,
    ensures
        query_slice(n * 512 + g * 256 + d) / 64 == n,
        (n * 512 + g * 256 + d) / 8 / 64 == n,
        kv_slice(n * 256 + d) / 64 == n,
        (n * 256 + d) / 4 / 64 == n,
        (n * 512 + g * 256 + d) / 2048 == n / 4,
        (n * 256 + d) / 1024 == n / 4,
        query_slice(n * 512 + g * 256 + d) / 256 == n / 4,
        kv_slice(n * 256 + d) / 256 == n / 4,
{
    law_query_digits(n, g, d);
    law_kv_digits(n, d);
}

} // verus!
