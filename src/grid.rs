//! The four directions: how the grid splits into lines for each, and what
//! a whole move does to the grid and the score.

use vstd::prelude::*;
use crate::line::{all_tiles_or_empty, compact, is_tile, lemma_slide_tiles, lemma_line_gain_nonneg, lemma_line_gain_le_total, lemma_merged_full, lemma_slide_leaves_room, lemma_still_line_no_gain, lemma_total4, lemma_total_split, line_gain, merged, slide, total};
use crate::spawn::{empties, lemma_empty_cell_spawnable};

verus! {

/// Direction code: tiles slide toward row 0.
pub const UP: u8 = 1;

/// Direction code: tiles slide toward column 0.
pub const LEFT: u8 = 2;

/// Direction code: tiles slide toward row 3.
pub const DOWN: u8 = 3;

/// Direction code: tiles slide toward column 3.
pub const RIGHT: u8 = 4;

/// Whether `dir` is one of the four direction codes.
pub open spec fn is_direction(dir: u8) -> bool {
    UP <= dir <= RIGHT
}

/// Board index of the `k`-th cell, counted from the leading edge, of line
/// `j` (a column for vertical moves, a row for horizontal ones).
pub open spec fn line_pos(dir: u8, j: int, k: int) -> int {
    if dir == UP {
        4 * k + j
    } else if dir == LEFT {
        4 * j + k
    } else if dir == DOWN {
        4 * (3 - k) + j
    } else {
        4 * j + 3 - k
    }
}

/// The line that board index `p` belongs to.
pub open spec fn line_index(dir: u8, p: int) -> int {
    if dir == UP || dir == DOWN {
        p % 4
    } else {
        p / 4
    }
}

/// The place of board index `p` on its line, counted from the leading edge.
pub open spec fn line_offset(dir: u8, p: int) -> int {
    if dir == UP {
        p / 4
    } else if dir == LEFT {
        p % 4
    } else if dir == DOWN {
        3 - p / 4
    } else {
        3 - p % 4
    }
}

/// Line `j` of grid `g` for direction `dir`, leading edge first.
pub open spec fn line_of(g: Seq<int>, dir: u8, j: int) -> Seq<int> {
    Seq::new(4, |k: int| g[line_pos(dir, j, k)])
}

/// The grid after every line has slid in direction `dir`.
pub open spec fn slid(g: Seq<int>, dir: u8) -> Seq<int> {
    Seq::new(16, |p: int| slide(line_of(g, dir, line_index(dir, p)))[line_offset(dir, p)])
}

/// Score gained by the first `n` lines of a move in direction `dir`.
pub open spec fn gain_upto(g: Seq<int>, dir: u8, n: int) -> int {
    (if n > 0 { line_gain(line_of(g, dir, 0)) } else { 0 }) + (if n > 1 {
        line_gain(line_of(g, dir, 1))
    } else {
        0
    }) + (if n > 2 { line_gain(line_of(g, dir, 2)) } else { 0 }) + (if n > 3 {
        line_gain(line_of(g, dir, 3))
    } else {
        0
    })
}

/// Score gained by a move in direction `dir`: the sum of the new values of
/// all merged tiles.
pub open spec fn move_gain(g: Seq<int>, dir: u8) -> int {
    gain_upto(g, dir, 4)
}

/// The cells of `g` at the four positions of a line, leading end first.
pub open spec fn line_at(g: Seq<int>, pos: Seq<usize>) -> Seq<int> {
    Seq::new(4, |k: int| g[pos[k] as int])
}

/// The four positions are distinct cells of the board.
pub open spec fn valid_line(pos: Seq<usize>) -> bool {
    &&& pos.len() == 4
    &&& forall|k: int| 0 <= k < 4 ==> pos[k] < 16
    &&& forall|j: int, k: int| 0 <= j < k < 4 ==> pos[j] != pos[k]
}

/// Whether board index `p` lies on the line.
pub open spec fn on_line(pos: Seq<usize>, p: int) -> bool {
    exists|k: int| 0 <= k < 4 && pos[k] == p
}

pub(crate) proof fn lemma_line_coords(dir: u8)
    requires
        is_direction(dir),
    ensures
        forall|j: int, k: int|
            0 <= j < 4 && 0 <= k < 4 ==> {
                let p = #[trigger] line_pos(dir, j, k);
                &&& 0 <= p < 16
                &&& line_index(dir, p) == j
                &&& line_offset(dir, p) == k
            },
        forall|p: int|
            0 <= p < 16 ==> {
                &&& 0 <= #[trigger] line_index(dir, p) < 4
                &&& 0 <= line_offset(dir, p) < 4
                &&& line_pos(dir, line_index(dir, p), line_offset(dir, p)) == p
            },
{
}

proof fn lemma_total16(g: Seq<int>)
    requires
        g.len() == 16,
    ensures
        total(g) == total(g.subrange(0, 4)) + total(g.subrange(4, 8)) + total(g.subrange(8, 12))
            + total(g.subrange(12, 16)),
{
    lemma_total_split(g, 4);
    lemma_total_split(g.subrange(4, 16), 4);
    lemma_total_split(g.subrange(8, 16), 4);
    assert(g.subrange(4, 16).subrange(0, 4) =~= g.subrange(4, 8));
    assert(g.subrange(4, 16).subrange(4, 12) =~= g.subrange(8, 16));
    assert(g.subrange(8, 16).subrange(0, 4) =~= g.subrange(8, 12));
    assert(g.subrange(8, 16).subrange(4, 8) =~= g.subrange(12, 16));
    assert(g.subrange(0, 16) =~= g);
}

/// The gain of each line is non-negative on a grid of non-negative cells.
pub(crate) proof fn lemma_move_gains_nonneg(g: Seq<int>, dir: u8)
    requires
        is_direction(dir),
        g.len() == 16,
        forall|p: int| 0 <= p < 16 ==> g[p] >= 0,
    ensures
        forall|j: int| 0 <= j < 4 ==> #[trigger] line_gain(line_of(g, dir, j)) >= 0,
{
    lemma_line_coords(dir);
    assert forall|j: int| 0 <= j < 4 implies #[trigger] line_gain(line_of(g, dir, j)) >= 0 by {
        lemma_line_gain_nonneg(line_of(g, dir, j));
    }
}

/// Over any direction the four lines together hold every cell once, so the
/// gain of a move is at most the sum of the grid.
pub(crate) proof fn lemma_move_gain_le_total(g: Seq<int>, dir: u8)
    requires
        is_direction(dir),
        g.len() == 16,
        forall|p: int| 0 <= p < 16 ==> g[p] >= 0,
    ensures
        forall|j: int| 0 <= j < 4 ==> #[trigger] line_gain(line_of(g, dir, j)) >= 0,
        move_gain(g, dir) <= total(g),
{
    lemma_line_coords(dir);
    assert forall|j: int| 0 <= j < 4 implies 0 <= #[trigger] line_gain(line_of(g, dir, j)) <= total(
        line_of(g, dir, j),
    ) by {
        lemma_line_gain_le_total(line_of(g, dir, j));
    }
    lemma_total16(g);
    lemma_total4(g.subrange(0, 4));
    lemma_total4(g.subrange(4, 8));
    lemma_total4(g.subrange(8, 12));
    lemma_total4(g.subrange(12, 16));
    lemma_total4(line_of(g, dir, 0));
    lemma_total4(line_of(g, dir, 1));
    lemma_total4(line_of(g, dir, 2));
    lemma_total4(line_of(g, dir, 3));
}

/// A move that changes the grid leaves at least one empty cell, so the
/// tile that follows it is always placed.
pub proof fn lemma_move_leaves_room(g: Seq<int>, dir: u8)
    requires
        is_direction(dir),
        g.len() == 16,
        slid(g, dir) != g,
    ensures
        empties(slid(g, dir)).len() > 0,
{
    lemma_line_coords(dir);
    assert(!(slid(g, dir) =~= g));
    let p = choose|p: int| 0 <= p < 16 && slid(g, dir)[p] != g[p];
    let i = line_index(dir, p);
    assert(line_of(g, dir, i)[line_offset(dir, p)] == g[p]);
    lemma_slide_leaves_room(line_of(g, dir, i));
    lemma_empty_cell_spawnable(slid(g, dir), line_pos(dir, i, 3));
}

/// A move in which no line merges any pair of tiles adds nothing to the
/// score.
pub proof fn lemma_no_merge_no_gain(g: Seq<int>, dir: u8)
    requires
        forall|j: int|
            0 <= j < 4 ==> merged(compact(#[trigger] line_of(g, dir, j))).len() == compact(
                line_of(g, dir, j),
            ).len(),
    ensures
        move_gain(g, dir) == 0,
{
    lemma_merged_full(compact(line_of(g, dir, 0)));
    lemma_merged_full(compact(line_of(g, dir, 1)));
    lemma_merged_full(compact(line_of(g, dir, 2)));
    lemma_merged_full(compact(line_of(g, dir, 3)));
}

/// A move that leaves the grid as it is adds nothing to the score.
pub proof fn lemma_still_move_no_gain(g: Seq<int>, dir: u8)
    requires
        is_direction(dir),
        g.len() == 16,
        slid(g, dir) == g,
    ensures
        move_gain(g, dir) == 0,
{
    lemma_line_coords(dir);
    assert forall|j: int| 0 <= j < 4 implies line_gain(#[trigger] line_of(g, dir, j)) == 0 by {
        let l = line_of(g, dir, j);
        assert forall|k: int| 0 <= k < 4 implies slide(l)[k] == l[k] by {
            let p = line_pos(dir, j, k);
            assert(slid(g, dir)[p] == g[p]);
        }
        assert(slide(l) =~= l);
        lemma_still_line_no_gain(l);
    }
}

/// A move keeps every cell empty or a tile value.
pub proof fn lemma_move_keeps_tiles(g: Seq<int>, dir: u8)
    requires
        is_direction(dir),
        g.len() == 16,
        all_tiles_or_empty(g),
    ensures
        all_tiles_or_empty(slid(g, dir)),
{
    lemma_line_coords(dir);
    assert forall|p: int| 0 <= p < 16 implies slid(g, dir)[p] == 0 || is_tile(
        #[trigger] slid(g, dir)[p],
    ) by {
        let l = line_of(g, dir, line_index(dir, p));
        assert forall|k: int| 0 <= k < 4 implies l[k] == 0 || is_tile(#[trigger] l[k]) by {
            assert(l[k] == g[line_pos(dir, line_index(dir, p), k)]);
        }
        lemma_slide_tiles(l);
        assert(slide(l)[line_offset(dir, p)] == 0 || is_tile(slide(l)[line_offset(dir, p)]));
    }
}

} // verus!
