//! The tile-spawn generator: which empty cell receives the new tile, its
//! value, and the fixed recurrence that advances the generator.

use vstd::prelude::*;

verus! {

/// Modulus of the spawn generator's recurrence.
pub const SEED_MODULUS: u64 = 50515093;

/// The next state of the spawn generator.
pub open spec fn next_seed(seed: u64) -> u64 {
    (seed.wrapping_mul(seed) % SEED_MODULUS) as u64
}

/// The value of a freshly spawned tile.
pub open spec fn tile_value(seed: u64) -> int {
    if seed & 0x10 == 0 { 2 } else { 4 }
}

/// Board index of the `k`-th cell of the column-major enumeration.
pub open spec fn column_major(k: int) -> int {
    (k % 4) * 4 + k / 4
}

/// Enumeration position of board index `p` in column-major order.
pub open spec fn column_major_pos(p: int) -> int {
    (p % 4) * 4 + p / 4
}

/// Indices of the empty cells of `g` among enumeration positions `k..16`,
/// in column-major order.
pub open spec fn empties_from(g: Seq<int>, k: int) -> Seq<int>
    decreases 16 - k,
{
    if k >= 16 || k < 0 {
        seq![]
    } else if g[column_major(k)] == 0 {
        seq![column_major(k)] + empties_from(g, k + 1)
    } else {
        empties_from(g, k + 1)
    }
}

/// Indices of the empty cells of `g`, in column-major order.
pub open spec fn empties(g: Seq<int>) -> Seq<int> {
    empties_from(g, 0)
}

pub(crate) proof fn lemma_column_major_bijective()
    ensures
        forall|k: int|
            0 <= k < 16 ==> 0 <= #[trigger] column_major(k) < 16 && column_major_pos(
                column_major(k),
            ) == k,
        forall|p: int|
            0 <= p < 16 ==> 0 <= #[trigger] column_major_pos(p) < 16 && column_major(
                column_major_pos(p),
            ) == p,
{
}

proof fn lemma_empties_from_nonempty(g: Seq<int>, k0: int, k: int)
    requires
        0 <= k0 <= k < 16,
        g[column_major(k)] == 0,
    ensures
        empties_from(g, k0).len() > 0,
    decreases k - k0,
{
    if k0 < k && g[column_major(k0)] != 0 {
        lemma_empties_from_nonempty(g, k0 + 1, k);
    }
}

/// A grid with an empty cell has a place to spawn a tile.
pub(crate) proof fn lemma_empty_cell_spawnable(g: Seq<int>, p: int)
    requires
        0 <= p < 16,
        g[p] == 0,
    ensures
        empties(g).len() > 0,
{
    let k = (p % 4) * 4 + p / 4;
    assert(column_major(k) == p);
    lemma_empties_from_nonempty(g, 0, k);
}

pub(crate) proof fn lemma_empties_from_bounds(g: Seq<int>, k: int)
    requires
        g.len() == 16,
    ensures
        forall|j: int|
            0 <= j < empties_from(g, k).len() ==> 0 <= #[trigger] empties_from(g, k)[j] < 16
                && g[empties_from(g, k)[j]] == 0,
    decreases 16 - k,
{
    if 0 <= k < 16 {
        lemma_empties_from_bounds(g, k + 1);
        let t = empties_from(g, k + 1);
        assert forall|j: int| 0 <= j < empties_from(g, k).len() implies 0
            <= #[trigger] empties_from(g, k)[j] < 16 && g[empties_from(g, k)[j]] == 0 by {
            if g[column_major(k)] == 0 && j > 0 {
                assert(empties_from(g, k)[j] == t[j - 1]);
            }
        }
    }
}

pub(crate) proof fn lemma_empties_from_len(g: Seq<int>, k: int)
    requires
        0 <= k,
    ensures
        empties_from(g, k).len() <= 16 - k || (k > 16 && empties_from(g, k).len() == 0),
    decreases 16 - k,
{
    if k < 16 {
        lemma_empties_from_len(g, k + 1);
    }
}

pub(crate) proof fn lemma_empties_from_update(g: Seq<int>, p: int, v: int, k: int)
    requires
        g.len() == 16,
        0 <= p < 16,
        g[p] == 0,
        v != 0,
        0 <= k <= 16,
    ensures
        empties_from(g.update(p, v), k).len() + (if column_major_pos(p) >= k {
            1int
        } else {
            0int
        }) == empties_from(g, k).len(),
    decreases 16 - k,
{
    lemma_column_major_bijective();
    if k < 16 {
        lemma_empties_from_update(g, p, v, k + 1);
        assert(column_major(k) == p <==> column_major_pos(p) == k);
    }
}

pub(crate) proof fn lemma_empties_of_zeros(g: Seq<int>, k: int)
    requires
        g.len() == 16,
        forall|p: int| 0 <= p < 16 ==> g[p] == 0,
        0 <= k <= 16,
    ensures
        empties_from(g, k).len() == 16 - k,
    decreases 16 - k,
{
    lemma_column_major_bijective();
    if k < 16 {
        lemma_empties_of_zeros(g, k + 1);
    }
}

} // verus!
