//! Where the rows and columns of the feed-forward block lie.

use vstd::prelude::*;

use crate::ffn7::blocks::down_row;
use crate::ffn7::norm::{loaded, piece_slot};
use crate::ffn7::tail_columns;
use crate::tensor::{in_slot, ring_member, Dm, SLICES};

verus! {

/// The load of the pieces leaves eight copies of each of the eight pieces in each cluster: copy `r`
/// of piece `p` of cluster `c` in slice `256 c + 32 r + p`, and nothing anywhere else.
pub proof fn law_pieces(c: int, r: int, p: int, s: int)
    requires
        0 <= c < 2,
        0 <= r < 8,
        0 <= p < 8,
        0 <= s < SLICES,
    ensures
        loaded(c * 256 + r * 32 + p),
        (c * 256 + r * 32 + p) % 8 == p,
        loaded(s) ==> s == s / 256 * 256 + s % 256 / 32 * 32 + s % 8,
{
}

/// A slot of the piece pool: every slice that the load reaches holds the 480 columns of its piece,
/// behind the slots before it.
pub proof fn law_piece_slot<V>(
    pool: Dm<V>,
    slot: int,
    v: Seq<V>,
    c: int,
    r: int,
    p: int,
    e: int,
)
    requires
        piece_slot(pool, slot, v),
        0 <= c < 2,
        0 <= r < 8,
        0 <= p < 8,
        0 <= e < 480,
    ensures
        pool.at(c * 256 + r * 32 + p, slot * 480 + e) == v[p * 480 + e],
{
    let s = c * 256 + r * 32 + p;
    law_pieces(c, r, p, s);
    assert(in_slot(slot * 480 + e, slot, 480));
}

/// The columns of the tail: slice `g` of its eight slices holds the columns `480 g .. 480 g + 480`.
pub proof fn law_tail_columns<V>(x: Dm<V>, g: int, e: int)
    requires
        0 <= g < 8,
        0 <= e < 480,
    ensures
        tail_columns(x).len() == 3840,
        tail_columns(x)[g * 480 + e] == x.at(g, e),
{
    assert((g * 480 + e) / 480 == g && (g * 480 + e) % 480 == e);
}

/// An up or gate row lies in one slice before the rows are regrouped and in the four slices of its
/// group afterwards: the same row, whichever of the four is asked.
pub proof fn law_groups(l: int, copy: int)
    requires
        0 <= l < 15_360,
        0 <= copy < 4,
    ensures
        0 <= l / 30 < SLICES,
        0 <= l / 120 * 4 + copy < SLICES,
        ring_member(l / 120 * 4 + copy, 4, 1, l % 120 / 30) == l / 30,
        l % 120 % 30 == l % 30,
        (l / 120 * 4 + copy) / 4 * 120 + l % 120 == l,
{
}

/// A cluster's columns of the gated activation come from its own 64 groups: column `j` of cluster `c`
/// is row `7680 c + j`, whichever slice of the cluster gathers it.
pub proof fn law_gathered_columns(s: int, j: int)
    requires
        0 <= s < SLICES,
        0 <= j < 7680,
    ensures
        ({
            let from = ring_member(s, 64, 4, j / 120);
            &&& 0 <= from < SLICES
            &&& from / 256 == s / 256
            &&& from % 4 == s % 4
            &&& from / 4 * 120 + j % 120 == s / 256 * 7680 + j
        }),
{
}

/// Every down-projection row lies once in each cluster: fifteen rows a slice, and row `h` of cluster
/// `c` is row `h % 30 / 2` of slice `256 c + 2 (h / 30) + h % 2`.
pub proof fn law_down_rows(c: int, h: int, s: int, k: int)
    requires
        0 <= c < 2,
        0 <= h < 3840,
        0 <= s < SLICES,
        0 <= k < 15,
    ensures
        0 <= down_row(s, k) < 3840,
        s == s / 256 * 256 + down_row(s, k) / 30 * 2 + down_row(s, k) % 2,
        k == down_row(s, k) % 30 / 2,
        down_row(c * 256 + h / 30 * 2 + h % 2, h % 30 / 2) == h,
{
    let g = s % 256 / 2;
    let b = s % 2;
    let row = down_row(s, k);
    assert(s == s / 256 * 256 + g * 2 + b);
    assert(row == g * 30 + 2 * k + b && 2 * k + b < 30);
    assert(row / 30 == g && row % 30 == 2 * k + b && row % 2 == b);
    let t = c * 256 + h / 30 * 2 + h % 2;
    assert(t % 256 / 2 == h / 30 && t % 2 == h % 2);
    assert(h % 30 % 2 == h % 2);
}

/// Two neighbouring slices hold 30 consecutive rows between them: word `e` of the pair that begins
/// with slice `s` is the row `e` after the first one.
pub proof fn law_pairs(s: int, e: int)
    requires
        0 <= s < SLICES,
        s % 2 == 0,
        0 <= e < 30,
    ensures
        down_row(ring_member(s, 2, 1, e % 2), e / 2) == s % 256 / 2 * 30 + e,
{
}

} // verus!
