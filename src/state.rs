//! A game as mathematical values, what each operation does to it, and the
//! laws that hold across operations.

use vstd::prelude::*;
use crate::grid::{is_direction, lemma_move_keeps_tiles, move_gain, slid};
use crate::line::{all_tiles_or_empty, is_tile, lemma_total_small, total};
use crate::spawn::{empties, lemma_column_major_bijective, lemma_empties_from_bounds, lemma_empties_from_len, lemma_empties_from_update, lemma_empties_of_zeros, next_seed, tile_value};
use crate::text::{decimal, rows_text};

verus! {

/// The state of a game as mathematical values.
pub struct GameState {
    pub cells: Seq<int>,
    pub score: int,
    pub seed: u64,
}

impl GameState {
    /// The state after one spawn: a tile of `tile_value(seed)` on the empty
    /// cell `seed mod n` of the `n` empty cells in column-major order, and
    /// the generator advanced; unchanged when no cell is empty.
    pub open spec fn spawned(self) -> GameState {
        let e = empties(self.cells);
        if e.len() == 0 {
            self
        } else {
            GameState {
                cells: self.cells.update(e[(self.seed % e.len() as u64) as int], tile_value(self.seed)),
                score: self.score,
                seed: next_seed(self.seed),
            }
        }
    }

    /// The state after sliding in direction `dir`, with no spawn.
    pub open spec fn moved(self, dir: u8) -> GameState {
        GameState {
            cells: slid(self.cells, dir),
            score: self.score + move_gain(self.cells, dir),
            seed: self.seed,
        }
    }

    /// Whether action `action` is a direction whose slide changes the grid.
    pub open spec fn changes(self, action: u8) -> bool {
        is_direction(action) && slid(self.cells, action) != self.cells
    }

    /// The state after one player action: a move that changes the grid is
    /// followed by one spawn; any other action leaves the state as it is.
    pub open spec fn after_action(self, action: u8) -> GameState {
        if self.changes(action) {
            self.moved(action).spawned()
        } else {
            self
        }
    }

    /// The state after the actions in order.
    pub open spec fn replay(self, actions: Seq<u8>) -> GameState
        decreases actions.len(),
    {
        if actions.len() == 0 {
            self
        } else {
            self.replay(actions.drop_last()).after_action(actions.last())
        }
    }

    /// A fresh game: an empty grid, score zero, then two spawns.
    pub open spec fn initial(seed: u64) -> GameState {
        GameState { cells: Seq::new(16, |p: int| 0), score: 0, seed }.spawned().spawned()
    }

    /// The display text: a score line, a generator line, then the four rows
    /// of the grid.
    pub open spec fn text(self) -> Seq<char> {
        "Score: "@ + decimal(self.score as nat) + seq!['\n'] + "Seed: "@ + decimal(self.seed as nat)
            + seq!['\n'] + rows_text(self.cells, 4)
    }

    /// Sixteen cells, each empty or holding a power of two of at least 2.
    pub open spec fn well_formed(self) -> bool {
        &&& self.cells.len() == 16
        &&& all_tiles_or_empty(self.cells)
    }

    /// No direction changes the grid.
    pub open spec fn is_terminal(self) -> bool {
        forall|d: u8| is_direction(d) ==> !self.changes(d)
    }
}

/// A spawn on a grid with an empty cell fills exactly one of them.
pub proof fn lemma_spawn_fills_one(s: GameState)
    requires
        s.cells.len() == 16,
        empties(s.cells).len() > 0,
    ensures
        s.spawned().cells.len() == 16,
        empties(s.spawned().cells).len() + 1 == empties(s.cells).len(),
{
    let e = empties(s.cells);
    lemma_empties_from_len(s.cells, 0);
    assert(e.len() as u64 == e.len());
    let j = (s.seed % e.len() as u64) as int;
    assert(0 <= j < e.len());
    lemma_empties_from_bounds(s.cells, 0);
    assert(0 <= e[j] < 16 && s.cells[e[j]] == 0);
    lemma_empties_from_update(s.cells, e[j], tile_value(s.seed), 0);
    lemma_column_major_bijective();
}

/// A fresh game holds exactly two tiles: 14 of its 16 cells are empty.
pub proof fn lemma_initial_two_tiles(seed: u64)
    ensures
        GameState::initial(seed).cells.len() == 16,
        empties(GameState::initial(seed).cells).len() == 14,
{
    let s0 = GameState { cells: Seq::new(16, |p: int| 0int), score: 0, seed };
    lemma_empties_of_zeros(s0.cells, 0);
    lemma_spawn_fills_one(s0);
    lemma_spawn_fills_one(s0.spawned());
}

/// Games started alike and fed the same actions stay alike after every
/// action: each state is the previous one stepped by the next action.
pub proof fn lemma_replay_deterministic(a: GameState, b: GameState, actions: Seq<u8>)
    requires
        a == b,
    ensures
        forall|i: int|
            0 <= i <= actions.len() ==> #[trigger] a.replay(actions.take(i)) == b.replay(
                actions.take(i),
            ),
        forall|i: int|
            0 <= i < actions.len() ==> #[trigger] a.replay(actions.take(i + 1)) == a.replay(
                actions.take(i),
            ).after_action(actions[i]),
{
    assert forall|i: int| 0 <= i < actions.len() implies #[trigger] a.replay(actions.take(i + 1))
        == a.replay(actions.take(i)).after_action(actions[i]) by {
        assert(actions.take(i + 1).drop_last() =~= actions.take(i));
    }
}

/// A spawn keeps a well-formed state well-formed: the new tile is 2 or 4.
pub proof fn lemma_spawn_keeps_tiles(s: GameState)
    requires
        s.well_formed(),
    ensures
        s.spawned().well_formed(),
{
    reveal_with_fuel(is_tile, 2);
    assert(is_tile(tile_value(s.seed)));
    if empties(s.cells).len() > 0 {
        let e = empties(s.cells);
        lemma_empties_from_len(s.cells, 0);
        assert(e.len() as u64 == e.len());
        let j = (s.seed % e.len() as u64) as int;
        assert(0 <= j < e.len());
        lemma_empties_from_bounds(s.cells, 0);
        assert(0 <= e[j] < 16);
    }
}

/// Every action keeps a well-formed state well-formed.
pub proof fn lemma_action_keeps_tiles(s: GameState, action: u8)
    requires
        s.well_formed(),
    ensures
        s.after_action(action).well_formed(),
{
    if s.changes(action) {
        lemma_move_keeps_tiles(s.cells, action);
        lemma_spawn_keeps_tiles(s.moved(action));
    }
}

/// A fresh game is well-formed.
pub proof fn lemma_initial_well_formed(seed: u64)
    ensures
        GameState::initial(seed).well_formed(),
{
    let s0 = GameState { cells: Seq::new(16, |p: int| 0int), score: 0, seed };
    lemma_spawn_keeps_tiles(s0);
    lemma_spawn_keeps_tiles(s0.spawned());
}

/// A spawn on a grid of cells between 0 and 4 keeps them between 0 and 4.
proof fn lemma_spawn_small(s: GameState)
    requires
        s.cells.len() == 16,
        forall|p: int| 0 <= p < 16 ==> 0 <= #[trigger] s.cells[p] <= 4,
    ensures
        s.spawned().cells.len() == 16,
        forall|p: int| 0 <= p < 16 ==> 0 <= #[trigger] s.spawned().cells[p] <= 4,
{
    if empties(s.cells).len() > 0 {
        let e = empties(s.cells);
        lemma_empties_from_len(s.cells, 0);
        assert(e.len() as u64 == e.len());
        let j = (s.seed % e.len() as u64) as int;
        assert(0 <= j < e.len());
        lemma_empties_from_bounds(s.cells, 0);
        assert(0 <= e[j] < 16);
    }
}

/// A fresh game holds only tiles of 2 and 4, so its grid sums to at most 64.
pub proof fn lemma_initial_small(seed: u64)
    ensures
        forall|p: int| 0 <= p < 16 ==> 0 <= #[trigger] GameState::initial(seed).cells[p] <= 4,
        total(GameState::initial(seed).cells) <= 64,
{
    let s0 = GameState { cells: Seq::new(16, |p: int| 0int), score: 0, seed };
    lemma_spawn_small(s0);
    lemma_spawn_small(s0.spawned());
    lemma_total_small(GameState::initial(seed).cells);
}

} // verus!
