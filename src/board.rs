//! The executable game engine.

use vstd::prelude::*;
use vstd::string::*;
use crate::grid::{DOWN, LEFT, RIGHT, UP, gain_upto, is_direction, lemma_line_coords, lemma_move_gain_le_total, lemma_move_gains_nonneg, lemma_move_leaves_room, lemma_still_move_no_gain, line_at, line_index, line_of, line_offset, line_pos, move_gain, on_line, slid, valid_line};
use crate::line::{compact, lemma_compact_cons, lemma_compact_gap, lemma_compact_single, lemma_line_gain_nonneg, lemma_merged_cons2, lemma_merged_head, line_gain, merge_gain, merged, slide, total};
use crate::spawn::{SEED_MODULUS, column_major, empties, empties_from, tile_value};
use crate::state::{GameState, lemma_action_keeps_tiles, lemma_initial_small, lemma_initial_two_tiles, lemma_initial_well_formed, lemma_spawn_fills_one};
use crate::text::{push_cell, push_decimal, row_prefix_text, rows_text};

verus! {

/// The game state: 16 cells in row-major order, the score and the state of
/// the tile-spawn generator.
pub struct Board {
    pub board: [i32; 16],
    pub score: u32,
    pub seed: u64,
}

/// Largest cell value that can still be doubled within an `i32`.
pub const MAX_MERGEABLE: i32 = 0x3FFF_FFFF;

/// The cells of a board as mathematical integers.
pub open spec fn cells_of(b: [i32; 16]) -> Seq<int> {
    b@.map_values(|v: i32| v as int)
}

impl View for Board {
    type V = GameState;

    open spec fn view(&self) -> GameState {
        GameState { cells: self.cells(), score: self.score as int, seed: self.seed }
    }
}

impl Board {
    /// The cells, row-major, as mathematical integers.
    pub open spec fn cells(&self) -> Seq<int> {
        cells_of(self.board)
    }

    /// A new game from generator state `seed`: an empty grid and a zero
    /// score, then two spawned tiles.
    pub fn new(seed: u64) -> (r: Board)
        ensures
            r@ == GameState::initial(seed),
            r@.well_formed(),
            empties(r@.cells).len() == 14,
            r.cells_fit(),
            forall|d: u8| is_direction(d) ==> #[trigger] r.can_move(d),
    {
        let mut board = Board { board: [0;16], score: 0, seed };
        proof {
            assert(board.cells() =~= Seq::new(16, |p: int| 0));
        }
        board.add_random_tile();
        board.add_random_tile();
        proof {
            lemma_initial_two_tiles(seed);
            lemma_initial_well_formed(seed);
            lemma_initial_small(seed);
            assert forall|p: int| 0 <= p < 16 implies 0 <= #[trigger] board.board[p] <= MAX_MERGEABLE by {
                assert(board.cells()[p] == board.board[p] as int);
            }
            assert(board.fits());
            assert forall|d: u8| is_direction(d) implies #[trigger] board.can_move(d) by {
                board.lemma_fits_can_move(d);
            }
        }
        board
    }

    /// Starts over from generator state `seed`, discarding the current game.
    pub fn restart(&mut self, seed: u64)
        ensures
            final(self)@ == GameState::initial(seed),
            final(self)@.well_formed(),
            empties(final(self)@.cells).len() == 14,
            final(self).cells_fit(),
            forall|d: u8| is_direction(d) ==> #[trigger] final(self).can_move(d),
    {
        self.board = [0;16];
        self.score = 0;
        self.seed = seed;
        proof {
            assert(self.cells() =~= Seq::new(16, |p: int| 0));
        }
        self.add_random_tile();
        self.add_random_tile();
        proof {
            lemma_initial_two_tiles(seed);
            lemma_initial_well_formed(seed);
            lemma_initial_small(seed);
            assert forall|p: int| 0 <= p < 16 implies 0 <= #[trigger] self.board[p] <= MAX_MERGEABLE by {
                assert(self.cells()[p] == self.board[p] as int);
            }
            assert(self.fits());
            assert forall|d: u8| is_direction(d) implies #[trigger] self.can_move(d) by {
                self.lemma_fits_can_move(d);
            }
        }
    }

    /// An independent copy of the game.
    pub fn copy(&self) -> (r: Board)
        ensures
            r == *self,
    {
        Board { board: self.board, score: self.score, seed: self.seed }
    }

    /// Plays one action: 1 up, 2 left, 3 down, 4 right; any other code does
    /// nothing. A move that changes the grid is followed by one spawned tile.
    /// Returns whether the grid changed.
    pub fn apply_action(&mut self, action: u8) -> (moved: bool)
        requires
            old(self).cells_fit(),
            is_direction(action) ==> old(self).can_move(action),
        ensures
            moved == old(self)@.changes(action),
            final(self)@ == old(self)@.after_action(action),
            moved ==> empties(final(self)@.cells).len() + 1 == empties(
                old(self)@.moved(action).cells,
            ).len(),
            !moved ==> *final(self) == *old(self),
            old(self)@.well_formed() ==> final(self)@.well_formed(),
            final(self).score >= old(self).score,
    {
        let moved: bool = if action == UP {
            self.move_up()
        } else if action == LEFT {
            self.move_left()
        } else if action == DOWN {
            self.move_down()
        } else if action == RIGHT {
            self.move_right()
        } else {
            false
        };
        proof {
            if old(self)@.well_formed() {
                lemma_action_keeps_tiles(old(self)@, action);
            }
            if is_direction(action) {
                lemma_move_gains_nonneg(old(self).cells(), action);
            }
        }
        if moved {
            proof {
                lemma_move_leaves_room(old(self).cells(), action);
                lemma_spawn_fills_one(old(self)@.moved(action));
            }
            self.add_random_tile();
        } else {
            proof {
                if is_direction(action) {
                    lemma_still_move_no_gain(old(self).cells(), action);
                }
                assert forall|p: int| 0 <= p < 16 implies self.board[p] == old(self).board[p] by {
                    assert(self.cells()[p] == old(self).cells()[p]);
                }
                assert(self.board =~= old(self).board);
            }
        }
        moved
    }

    /// Whether no direction can change the grid. Each direction is tried on
    /// a copy, so the game itself is left as it is.
    pub fn is_game_over(&self) -> (over: bool)
        requires
            forall|d: u8| is_direction(d) ==> #[trigger] self.can_move(d),
        ensures
            over == self@.is_terminal(),
    {
        let mut dir: u8 = 1;
        while dir < 5
            invariant
                1 <= dir <= 5,
                forall|d: u8| is_direction(d) ==> #[trigger] self.can_move(d),
                forall|d: u8| 1 <= d < dir ==> !self@.changes(d),
            decreases 5 - dir,
        {
            let mut copy = self.copy();
            proof {
                assert(is_direction(dir));
                assert(self.can_move(dir));
            }
            let moved = copy.apply_action(dir);
            if moved {
                return false;
            }
            dir += 1;
        }
        true
    }

    /// Slides every column toward row 0, merging equal tiles; no spawn.
    pub fn move_up(&mut self) -> (moved: bool)
        requires
            old(self).can_move(UP),
        ensures
            final(self)@ == old(self)@.moved(UP),
            moved == old(self)@.changes(UP),
    {
        self.slide_lines(UP)
    }

    /// Slides every row toward column 0, merging equal tiles; no spawn.
    pub fn move_left(&mut self) -> (moved: bool)
        requires
            old(self).can_move(LEFT),
        ensures
            final(self)@ == old(self)@.moved(LEFT),
            moved == old(self)@.changes(LEFT),
    {
        self.slide_lines(LEFT)
    }

    /// Slides every column toward row 3, merging equal tiles; no spawn.
    pub fn move_down(&mut self) -> (moved: bool)
        requires
            old(self).can_move(DOWN),
        ensures
            final(self)@ == old(self)@.moved(DOWN),
            moved == old(self)@.changes(DOWN),
    {
        self.slide_lines(DOWN)
    }

    /// Slides every row toward column 3, merging equal tiles; no spawn.
    pub fn move_right(&mut self) -> (moved: bool)
        requires
            old(self).can_move(RIGHT),
        ensures
            final(self)@ == old(self)@.moved(RIGHT),
            moved == old(self)@.changes(RIGHT),
    {
        self.slide_lines(RIGHT)
    }

    /// The display text: "Score: {score}", "Seed: {seed}", then each row as
    /// four right-aligned two-column numbers, each followed by a space.
    pub fn render(&self) -> (text: String)
        ensures
            text@ == self@.text(),
    {
        let mut s = String::new();
        s.append("Score: ");
        push_decimal(&mut s, self.score as u64);
        s.append("\n");
        s.append("Seed: ");
        push_decimal(&mut s, self.seed);
        s.append("\n");
        proof {
            reveal_strlit("\n");
        }
        let ghost head = s@;
        let ghost g = self.cells();
        for y in 0..4usize
            invariant
                g == self.cells(),
                s@ == head + rows_text(g, y as int),
        {
            let ghost row_start = s@;
            for x in 0..4usize
                invariant
                    y < 4,
                    g == self.cells(),
                    s@ == row_start + row_prefix_text(g, y as int, x as int),
            {
                push_cell(&mut s, self.board[y * 4 + x]);
                proof {
                    assert(s@ =~= row_start + row_prefix_text(g, y as int, x as int + 1));
                }
            }
            s.append("\n");
            proof {
                reveal_strlit("\n");
                assert(s@ =~= head + rows_text(g, y as int + 1));
            }
        }
        proof {
            reveal_strlit("\n");
            assert(s@ =~= self@.text());
        }
        s
    }

    /// Every cell is empty or holds a tile small enough to double in an `i32`.
    pub open spec fn cells_fit(&self) -> bool {
        forall|p: int| 0 <= p < 16 ==> 0 <= #[trigger] self.board[p] <= MAX_MERGEABLE
    }

    /// A move in direction `dir` overflows neither a cell nor the score.
    pub open spec fn can_move(&self, dir: u8) -> bool {
        &&& self.cells_fit()
        &&& self.score + move_gain(self.cells(), dir) <= u32::MAX
    }

    /// A simpler bound under which no move overflows: the cells fit and the
    /// score plus the sum of the grid fits in a `u32`.
    pub open spec fn fits(&self) -> bool {
        &&& self.cells_fit()
        &&& self.score + total(self.cells()) <= u32::MAX
    }

    /// Under `fits` every direction can be played without overflow, since a
    /// move never gains more than the sum of the grid.
    pub proof fn lemma_fits_can_move(&self, dir: u8)
        requires
            self.fits(),
            is_direction(dir),
        ensures
            self.can_move(dir),
    {
        lemma_move_gain_le_total(self.cells(), dir);
    }

    /// Board indices of line `j` for direction `dir`, leading edge first.
    fn line_positions(dir: u8, j: usize) -> (pos: [usize; 4])
        requires
            is_direction(dir),
            j < 4,
        ensures
            valid_line(pos@),
            forall|k: int| 0 <= k < 4 ==> pos@[k] == line_pos(dir, j as int, k),
    {
        if dir == UP {
            [j, j + 4, j + 8, j + 12]
        } else if dir == LEFT {
            [4 * j, 4 * j + 1, 4 * j + 2, 4 * j + 3]
        } else if dir == DOWN {
            [j + 12, j + 8, j + 4, j]
        } else {
            [4 * j + 3, 4 * j + 2, 4 * j + 1, 4 * j]
        }
    }

    /// Slides all four lines of direction `dir`.
    fn slide_lines(&mut self, dir: u8) -> (moved: bool)
        requires
            is_direction(dir),
            old(self).can_move(dir),
        ensures
            final(self).cells() == slid(old(self).cells(), dir),
            final(self).score == old(self).score + move_gain(old(self).cells(), dir),
            final(self).seed == old(self).seed,
            moved == (slid(old(self).cells(), dir) != old(self).cells()),
    {
        let ghost g = self.cells();
        proof {
            lemma_line_coords(dir);
            lemma_move_gains_nonneg(g, dir);
        }
        let mut moved = false;
        let mut j: usize = 0;
        while j < 4
            invariant
                j <= 4,
                is_direction(dir),
                g.len() == 16,
                forall|p: int| 0 <= p < 16 ==> 0 <= #[trigger] g[p] <= MAX_MERGEABLE,
                forall|i: int| 0 <= i < 4 ==> #[trigger] line_gain(line_of(g, dir, i)) >= 0,
                old(self).score + move_gain(g, dir) <= u32::MAX,
                self.seed == old(self).seed,
                self.score == old(self).score + gain_upto(g, dir, j as int),
                forall|p: int|
                    0 <= p < 16 ==> #[trigger] self.cells()[p] == if line_index(dir, p) < j {
                        slid(g, dir)[p]
                    } else {
                        g[p]
                    },
                moved == exists|i: int|
                    0 <= i < j && #[trigger] slide(line_of(g, dir, i)) != line_of(g, dir, i),
            decreases 4 - j,
        {
            let pos = Self::line_positions(dir, j);
            proof {
                assert(line_at(self.cells(), pos@) =~= line_of(g, dir, j as int));
            }
            let m = self.slide_line(pos);
            proof {
                let l = line_of(g, dir, j as int);
                assert forall|p: int| 0 <= p < 16 implies #[trigger] self.cells()[p] == if line_index(
                    dir,
                    p,
                ) < j + 1 {
                    slid(g, dir)[p]
                } else {
                    g[p]
                } by {
                    if line_index(dir, p) == j {
                        let k = line_offset(dir, p);
                        assert(line_at(self.cells(), pos@)[k] == self.cells()[p]);
                    } else {
                        assert(!on_line(pos@, p));
                    }
                }
                if m {
                    assert(slide(l) != l);
                }
            }
            moved = moved || m;
            j += 1;
        }
        proof {
            assert(self.cells() =~= slid(g, dir));
            if slid(g, dir) != g {
                assert(!(slid(g, dir) =~= g));
                let p = choose|p: int| 0 <= p < 16 && slid(g, dir)[p] != g[p];
                let i = line_index(dir, p);
                assert(line_of(g, dir, i)[line_offset(dir, p)] == g[p]);
                assert(slide(line_of(g, dir, i)) != line_of(g, dir, i));
            }
            if moved {
                let i = choose|i: int| 0 <= i < 4 && slide(line_of(g, dir, i)) != line_of(g, dir, i);
                assert(!(slide(line_of(g, dir, i)) =~= line_of(g, dir, i)));
                let k = choose|k: int| 0 <= k < 4 && slide(line_of(g, dir, i))[k] != line_of(g, dir, i)[k];
                assert(slid(g, dir)[line_pos(dir, i, k)] != g[line_pos(dir, i, k)]);
            }
        }
        moved
    }

    /// Slides and merges one line toward its leading end `pos[0]`, scanning
    /// with a lead cursor `a` (next settled slot) and a scan cursor `b`.
    #[verifier::rlimit(60)]
    fn slide_line(&mut self, pos: [usize; 4]) -> (moved: bool)
        requires
            valid_line(pos@),
            forall|k: int|
                0 <= k < 4 ==> 0 <= #[trigger] line_at(old(self).cells(), pos@)[k]
                    <= MAX_MERGEABLE,
            old(self).score + line_gain(line_at(old(self).cells(), pos@)) <= u32::MAX,
        ensures
            line_at(final(self).cells(), pos@) == slide(line_at(old(self).cells(), pos@)),
            final(self).score == old(self).score + line_gain(line_at(old(self).cells(), pos@)),
            moved == (slide(line_at(old(self).cells(), pos@)) != line_at(old(self).cells(), pos@)),
            final(self).seed == old(self).seed,
            forall|p: int|
                0 <= p < 16 && !on_line(pos@, p) ==> final(self).cells()[p] == old(self).cells()[p],
    {
        let ghost g0 = self.cells();
        let ghost o = line_at(g0, pos@);
        let ghost score0 = self.score as int;
        let mut moved = false;
        let mut a: usize = 0;
        let mut b: usize = 1;
        proof {
            assert(o.subrange(0, 0) + o.subrange(0, 4) =~= o.subrange(0, 4));
            assert(o.subrange(0, 4) =~= o);
            lemma_line_gain_nonneg(o);
        }
        while b < 4
            invariant
                0 <= a < b <= 4,
                valid_line(pos@),
                o == line_at(g0, pos@),
                self.seed == old(self).seed,
                score0 + line_gain(o) <= u32::MAX,
                forall|p: int|
                    0 <= p < 16 && !on_line(pos@, p) ==> self.cells()[p] == g0[p],
                forall|k: int| a < k < b ==> line_at(self.cells(), pos@)[k] == 0,
                forall|k: int|
                    a <= k < 4 ==> 0 <= #[trigger] line_at(self.cells(), pos@)[k]
                        <= MAX_MERGEABLE,
                merged(compact(o)) == line_at(self.cells(), pos@).subrange(0, a as int) + merged(
                    compact(line_at(self.cells(), pos@).subrange(a as int, 4)),
                ),
                line_gain(o) == self.score - score0 + merge_gain(
                    compact(line_at(self.cells(), pos@).subrange(a as int, 4)),
                ),
                !moved ==> line_at(self.cells(), pos@) == o,
                moved ==> slide(o) != o,
            decreases 4 - a, 4 - b,
        {
            let ghost c = line_at(self.cells(), pos@);
            let ghost r = c.subrange(b as int + 1, 4);
            proof {
                lemma_compact_gap(c, a as int, b as int);
                assert(c.subrange(b as int, 4) =~= seq![c[b as int]] + r);
                lemma_compact_single(c[a as int]);
                lemma_compact_single(c[b as int]);
            }
            let pa = pos[a];
            let pb = pos[b];
            if self.board[pb] != 0 {
                if self.board[pa] == 0 {
                    // the lead slot is empty: pull the scanned tile into it
                    self.board[pa] = self.board[pb];
                    self.board[pb] = 0;
                    proof {
                        let v = c[b as int];
                        let c2 = line_at(self.cells(), pos@);
                        assert(c2 =~= c.update(a as int, v).update(b as int, 0));
                        lemma_compact_gap(c2, a as int, b as int + 1);
                        assert(c2.subrange(b as int + 1, 4) =~= r);
                        lemma_compact_single(v);
                        lemma_compact_cons(v, r);
                        assert(c2.subrange(0, a as int) =~= c.subrange(0, a as int));
                        if !moved {
                            lemma_merged_head(seq![v] + compact(r));
                            let m = merged(compact(o));
                            assert(m[a as int] == merged(seq![v] + compact(r))[0]);
                            assert(slide(o)[a as int] != o[a as int]);
                        }
                    }
                    b += 1;
                    moved = true;
                } else if self.board[pa] == self.board[pb] {
                    // equal tiles: merge into the lead slot, which then settles
                    self.board[pa] = self.board[pa] * 2;
                    self.board[pb] = 0;
                    proof {
                        let q = c[a as int];
                        let c2 = line_at(self.cells(), pos@);
                        assert(c2 =~= c.update(a as int, 2 * q).update(b as int, 0));
                        lemma_compact_cons(q, r);
                        lemma_compact_cons(q, compact(r));
                        assert(seq![q] + (seq![q] + compact(r)) =~= seq![q, q] + compact(r));
                        lemma_merged_cons2(q, q, compact(r));
                        lemma_compact_gap(c2, a as int + 1, b as int + 1);
                        assert(c2.subrange(b as int + 1, 4) =~= r);
                        lemma_compact_single(c2[a as int + 1]);
                        assert(c2.subrange(0, a as int + 1) =~= c.subrange(0, a as int) + seq![
                            2 * q,
                        ]);
                        assert(forall|k: int| 0 <= k < r.len() ==> r[k] == c[b as int + 1 + k]);
                        lemma_line_gain_nonneg(r);
                        if !moved {
                            let m = merged(compact(o));
                            assert(m[a as int] == 2 * q);
                            assert(slide(o)[a as int] != o[a as int]);
                        }
                    }
                    self.score = self.score + self.board[pa] as u32;
                    a += 1;
                    b = a + 1;
                    moved = true;
                } else {
                    // different tiles: the lead tile settles
                    proof {
                        let q = c[a as int];
                        let v = c[b as int];
                        lemma_compact_cons(q, seq![v] + r);
                        lemma_compact_cons(v, r);
                        assert(seq![q] + (seq![v] + compact(r)) =~= seq![q, v] + compact(r));
                        lemma_merged_cons2(q, v, compact(r));
                        if a + 1 < b {
                            lemma_compact_gap(c, a as int + 1, b as int);
                            lemma_compact_single(c[a as int + 1]);
                        }
                        assert(c.subrange(0, a as int + 1) =~= c.subrange(0, a as int) + seq![q]);
                    }
                    a += 1;
                    b = a + 1;
                }
            } else {
                b += 1;
            }
        }
        proof {
            let c = line_at(self.cells(), pos@);
            lemma_compact_gap(c, a as int, 4);
            assert(c.subrange(4, 4) =~= Seq::<int>::empty());
            assert(compact(Seq::<int>::empty()) == Seq::<int>::empty());
            lemma_compact_single(c[a as int]);
            assert(compact(seq![c[a as int]]) + Seq::<int>::empty() =~= compact(seq![c[a as int]]));
            assert(c =~= slide(o));
        }
        moved
    }

    /// Places one new tile on an empty cell chosen by the generator, then
    /// advances the generator; does nothing on a full board.
    pub fn add_random_tile(&mut self)
        ensures
            final(self)@ == old(self)@.spawned(),
    {
        let mut empty_tiles: Vec<usize> = Vec::new();
        let ghost g = self.cells();
        for col in 0..4usize
            invariant
                g == self.cells(),
                empty_tiles@.map_values(|i: usize| i as int) + empties_from(g, (col * 4) as int)
                    == empties(g),
                forall|j: int| 0 <= j < empty_tiles@.len() ==> empty_tiles@[j] < 16,
        {
            for row in 0..4usize
                invariant
                    g == self.cells(),
                    col < 4,
                    empty_tiles@.map_values(|i: usize| i as int) + empties_from(
                        g,
                        (col * 4 + row) as int,
                    ) == empties(g),
                    forall|j: int| 0 <= j < empty_tiles@.len() ==> empty_tiles@[j] < 16,
            {
                let idx: usize = row * 4 + col;
                proof {
                    assert(column_major((col * 4 + row) as int) == idx as int);
                }
                let ghost before = empty_tiles@;
                if self.board[idx] == 0 {
                    empty_tiles.push(idx);
                    assert(empty_tiles@.map_values(|i: usize| i as int) =~= before.map_values(
                        |i: usize| i as int,
                    ) + seq![idx as int]);
                }
            }
        }
        if empty_tiles.len() == 0 {
            return;
        }
        let idx: u64 = self.seed % (empty_tiles.len() as u64);
        let spawn_index: usize = empty_tiles[idx as usize];
        let value: i32 = if self.seed & 0x10 == 0 { 2 } else { 4 };
        self.board[spawn_index] = value;
        self.seed = self.seed.wrapping_mul(self.seed) % SEED_MODULUS;
        proof {
            let e = empties(g);
            assert(e[idx as int] == spawn_index as int);
            assert(self.cells() =~= g.update(spawn_index as int, tile_value(old(self).seed)));
        }
    }
}

} // verus!
