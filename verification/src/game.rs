//! The game engine: the board, its score, the four directional moves,
//! random tile spawning, and the win/loss queries.

use vstd::prelude::*;
use crate::slide::{cell_ok, is_pow2, line_ok, mass};
use crate::slide::{lemma_mass_additive, lemma_mass_nonneg, lemma_mass_update, lemma_mass_zero_cells, zero_cells};
use crate::grid::{Direction, board_after, move_gain, slide_grid};
use crate::grid::{lemma_move_gain_bounds, lemma_move_conserves_mass, lemma_board_after_ok, lemma_unmoved_board_no_gain};
use crate::grid::{lemma_idx_inverse, lemma_pos_bounds, li_of, t_of};
use crate::rng::RandomSource;

verus! {

/// A tile of this value or more means the game is won.
pub const WIN_VALUE: u32 = 2048;

/// The largest playable board side; keeps every flat index computable.
pub const MAX_SIZE: usize = 46340;

/// The game state: a square board of `size * size` cells in row-major
/// order, and the score accumulated by merges.
///
/// Every cell is 0 (empty) or a power of two of at least 2 (a tile); the
/// total value mass always fits in `u32`.
pub struct Game {
    pub grid: Vec<u32>,
    pub size: usize,
    pub score: u32,
}

impl Game {
    /// The well-formedness invariant of a game state.
    pub open spec fn wf(self) -> bool {
        &&& 2 <= self.size <= MAX_SIZE
        &&& self.grid@.len() == self.size * self.size
        &&& line_ok(self.grid@)
        &&& mass(self.grid@) <= u32::MAX
    }

    /// The value of the cell in row `i`, column `j`.
    pub open spec fn cell(self, i: int, j: int) -> u32 {
        self.grid@[i * self.size + j]
    }

    /// Whether the board has at least one empty cell.
    pub open spec fn has_empty_cell(self) -> bool {
        exists|p: int| 0 <= p < self.grid@.len() && self.grid@[p] == 0
    }

    /// Whether a move could start at row `i`, column `j`: the cell is
    /// empty, or its right or lower neighbour holds an equal value.
    pub open spec fn movable_at(self, i: int, j: int) -> bool {
        ||| self.cell(i, j) == 0
        ||| (j + 1 < self.size && self.cell(i, j) == self.cell(i, j + 1))
        ||| (i + 1 < self.size && self.cell(i, j) == self.cell(i + 1, j))
    }

    /// Whether any move is still possible: some cell is empty, or some
    /// pair of grid-adjacent cells holds equal values.
    pub open spec fn has_moves_spec(self) -> bool {
        exists|i: int, j: int|
            0 <= i < self.size && 0 <= j < self.size && #[trigger] self.movable_at(i, j)
    }

    /// Whether some pair of grid-adjacent cells (horizontal or vertical
    /// neighbours) holds equal values.
    pub open spec fn has_adjacent_equal(self) -> bool {
        ||| exists|i: int, j: int|
            0 <= i < self.size && 0 <= j < self.size - 1
                && #[trigger] self.cell(i, j) == #[trigger] self.cell(i, j + 1)
        ||| exists|i: int, j: int|
            0 <= i < self.size - 1 && 0 <= j < self.size
                && #[trigger] self.cell(i, j) == #[trigger] self.cell(i + 1, j)
    }

    /// Whether the game is won: some tile has reached the win value.
    pub open spec fn has_won_spec(self) -> bool {
        exists|p: int| 0 <= p < self.grid@.len() && self.grid@[p] >= WIN_VALUE
    }

    /// A fresh, empty game of the given side length.
    pub fn new(size: usize) -> (g: Game)
        requires
            2 <= size <= MAX_SIZE,
        ensures
            g.wf(),
            g.size == size,
            g.score == 0,
            g.grid@ == zero_cells((size * size) as nat),
    {
        proof {
            assert(size * size <= MAX_SIZE * MAX_SIZE) by (nonlinear_arith)
                requires
                    0 <= size <= MAX_SIZE,
            ;
        }
        let area: usize = size * size;
        let mut grid: Vec<u32> = Vec::new();
        while grid.len() < area
            invariant
                grid@.len() <= area,
                grid@ == zero_cells(grid@.len()),
            decreases area - grid.len(),
        {
            grid.push(0);
            proof {
                assert(grid@ =~= zero_cells(grid@.len()));
            }
        }
        proof {
            lemma_mass_zero_cells(area as nat);
        }
        Game { grid, size, score: 0 }
    }

    /// A game over a given board, if the board is legal: the side length
    /// is playable, the cells fill the square, every value is 0 or a power
    /// of two of at least 2, and the total mass fits in `u32`.
    pub fn from_grid(size: usize, cells: Vec<u32>) -> (r: Option<Game>)
        ensures
            match r {
                Some(g) => {
                    &&& g.wf()
                    &&& g.size == size
                    &&& g.score == 0
                    &&& g.grid@ == cells@
                },
                None => {
                    ||| !(2 <= size <= MAX_SIZE)
                    ||| cells@.len() != size * size
                    ||| !line_ok(cells@)
                    ||| mass(cells@) > u32::MAX
                },
            },
    {
        if size < 2 || size > MAX_SIZE {
            return None;
        }
        proof {
            assert(size * size <= MAX_SIZE * MAX_SIZE) by (nonlinear_arith)
                requires
                    0 <= size <= MAX_SIZE,
            ;
        }
        let area: usize = size * size;
        if cells.len() != area {
            return None;
        }
        let mut p: usize = 0;
        while p < area
            invariant
                p <= area,
                cells@.len() == area,
                forall|q: int| 0 <= q < p ==> cell_ok(#[trigger] cells@[q]),
            decreases area - p,
        {
            if !is_cell_value(cells[p]) {
                return None;
            }
            p = p + 1;
        }
        match board_mass(&cells) {
            Some(_) => Some(Game { grid: cells, size, score: 0 }),
            None => None,
        }
    }

    /// Whether any move is still possible. False is the loss condition.
    pub fn has_moves(&self) -> (r: bool)
        requires
            self.wf(),
        ensures
            r == self.has_moves_spec(),
    {
        let size = self.size;
        let n: usize = self.grid.len();
        let mut i: usize = 0;
        while i < size
            invariant
                i <= size,
                self.wf(),
                size == self.size,
                n == self.grid@.len(),
                forall|a: int, b: int|
                    0 <= a < i && 0 <= b < size ==> !(#[trigger] self.movable_at(a, b)),
            decreases size - i,
        {
            let mut j: usize = 0;
            while j < size
                invariant
                    i < size,
                    j <= size,
                    self.wf(),
                    size == self.size,
                    n == self.grid@.len(),
                    forall|a: int, b: int|
                        0 <= a < i && 0 <= b < size ==> !(#[trigger] self.movable_at(a, b)),
                    forall|b: int| 0 <= b < j ==> !(#[trigger] self.movable_at(i as int, b)),
                decreases size - j,
            {
                proof {
                    crate::grid::lemma_pos_bounds(Direction::Left, size as int, i as int, j as int);
                    if j + 1 < size {
                        crate::grid::lemma_pos_bounds(Direction::Left, size as int, i as int, j as int + 1);
                    }
                    if i + 1 < size {
                        crate::grid::lemma_pos_bounds(Direction::Left, size as int, i as int + 1, j as int);
                        assert(i * size + j + size == (i + 1) * size + j) by (nonlinear_arith);
                    }
                }
                let idx: usize = i * size + j;
                if self.grid[idx] == 0 {
                    proof {
                        assert(self.movable_at(i as int, j as int));
                    }
                    return true;
                }
                if j + 1 < size && self.grid[idx] == self.grid[idx + 1] {
                    proof {
                        assert(self.cell(i as int, j as int) == self.cell(i as int, j as int + 1));
                        assert(self.movable_at(i as int, j as int));
                    }
                    return true;
                }
                if i + 1 < size && self.grid[idx] == self.grid[idx + size] {
                    proof {
                        assert(self.cell(i as int, j as int) == self.cell(i as int + 1, j as int));
                        assert(self.movable_at(i as int, j as int));
                    }
                    return true;
                }
                j = j + 1;
            }
            i = i + 1;
        }
        false
    }

    /// Whether any cell satisfies the given test.
    pub fn any<F: Fn(u32) -> bool>(&self, f: F) -> (r: bool)
        requires
            forall|v: u32| #[trigger] f.requires((v,)),
        ensures
            r ==> exists|p: int|
                0 <= p < self.grid@.len() && f.ensures((self.grid@[p],), true),
            !r ==> forall|p: int|
                0 <= p < self.grid@.len() ==> f.ensures((#[trigger] self.grid@[p],), false),
    {
        let n: usize = self.grid.len();
        let mut p: usize = 0;
        while p < n
            invariant
                p <= n,
                n == self.grid@.len(),
                forall|v: u32| #[trigger] f.requires((v,)),
                forall|q: int| 0 <= q < p ==> f.ensures((#[trigger] self.grid@[q],), false),
            decreases n - p,
        {
            if f(self.grid[p]) {
                return true;
            }
            p = p + 1;
        }
        false
    }

    /// Whether the game is won: some tile has reached the win value.
    pub fn has_won(&self) -> (r: bool)
        requires
            self.wf(),
        ensures
            r == self.has_won_spec(),
    {
        let n: usize = self.grid.len();
        let mut p: usize = 0;
        while p < n
            invariant
                p <= n,
                n == self.grid@.len(),
                forall|q: int| 0 <= q < p ==> #[trigger] self.grid@[q] < WIN_VALUE,
            decreases n - p,
        {
            if self.grid[p] >= WIN_VALUE {
                return true;
            }
            p = p + 1;
        }
        false
    }
}

/// One external input event, already stripped of its terminal encoding.
#[derive(Clone, Copy, Debug, PartialEq, Eq, Structural)]
pub enum InputEvent {
    Up,
    Down,
    Left,
    Right,
    Quit,
    Other,
}

/// What one input event did to the game.
#[derive(Clone, Copy, Debug, PartialEq, Eq, Structural)]
pub enum EventOutcome {
    Moved(bool),
    Quit,
    Ignored,
}

/// The direction a directional input event selects.
pub open spec fn event_direction(ev: InputEvent) -> Option<Direction> {
    match ev {
        InputEvent::Up => Some(Direction::Up),
        InputEvent::Down => Some(Direction::Down),
        InputEvent::Left => Some(Direction::Left),
        InputEvent::Right => Some(Direction::Right),
        InputEvent::Quit => None,
        InputEvent::Other => None,
    }
}

/// All cells other than `p1` and `p2` are unchanged between the two boards.
pub open spec fn spawn_at(before: Seq<u32>, after: Seq<u32>, p1: int, p2: int) -> bool {
    &&& 0 <= p1 < before.len()
    &&& 0 <= p2 < before.len()
    &&& forall|q: int| 0 <= q < before.len() && q != p1 && q != p2 ==> after[q] == before[q]
}

/// What one spawn does to the board: it writes only to empty cells, at
/// most two of them, each set to 2 or 4. It changes nothing when the board
/// has no empty cell, and places at least one tile when an empty cell
/// exists and the mass after a largest spawn still fits in `u32`.
pub open spec fn spawn_rel(before: Seq<u32>, after: Seq<u32>) -> bool {
    &&& after.len() == before.len()
    &&& (forall|p: int| 0 <= p < before.len() && before[p] != 0 ==> after[p] == before[p])
    &&& (forall|p: int| 0 <= p < before.len() && after[p] != before[p]
            ==> before[p] == 0 && (after[p] == 2 || after[p] == 4))
    &&& (exists|p1: int, p2: int| #[trigger] spawn_at(before, after, p1, p2))
    &&& ((exists|p: int| 0 <= p < before.len() && before[p] == 0)
            && mass(before) + 4 <= u32::MAX ==> after != before)
    &&& (!(exists|p: int| 0 <= p < before.len() && before[p] == 0) ==> after == before)
}

/// What one move does to the game: the board is slid and merged toward
/// `dir`; the gained points are added to the score, saturating at
/// `u32::MAX`; `moved` says whether the pass changed any cell, and exactly
/// then a spawn follows. A move that changes nothing leaves board and
/// score untouched.
pub open spec fn move_ok(pre: Game, post: Game, dir: Direction, moved: bool) -> bool {
    let after = board_after(pre.grid@, pre.size as int, dir);
    let g = move_gain(pre.grid@, pre.size as int, dir);
    &&& post.wf()
    &&& post.size == pre.size
    &&& moved == (after != pre.grid@)
    &&& post.score as int == (if pre.score + g > u32::MAX { u32::MAX as int } else { pre.score + g })
    &&& (moved ==> spawn_rel(after, post.grid@))
    &&& (!moved ==> post.grid@ == pre.grid@ && post.score == pre.score)
}

impl Game {
    /// The flat indexes of all empty cells, in order.
    fn empty_positions(&self) -> (r: Vec<usize>)
        ensures
            forall|q: int| 0 <= q < r@.len()
                ==> (r@[q] as int) < self.grid@.len() && self.grid@[#[trigger] r@[q] as int] == 0,
            (r@.len() > 0) == (exists|p: int| 0 <= p < self.grid@.len() && self.grid@[p] == 0),
    {
        let n: usize = self.grid.len();
        let mut r: Vec<usize> = Vec::new();
        let mut p: usize = 0;
        while p < n
            invariant
                p <= n,
                n == self.grid@.len(),
                forall|q: int| 0 <= q < r@.len()
                    ==> (r@[q] as int) < n && self.grid@[#[trigger] r@[q] as int] == 0,
                (r@.len() > 0) == (exists|q: int| 0 <= q < p && self.grid@[q] == 0),
            decreases n - p,
        {
            if self.grid[p] == 0 {
                r.push(p);
            }
            p = p + 1;
        }
        r
    }

    /// Place one new tile at the given empty cell.
    fn place_tile<R: RandomSource>(&mut self, pos: usize, rng: &mut R)
        requires
            old(self).wf(),
            (pos as int) < old(self).grid@.len(),
            old(self).grid@[pos as int] == 0,
            mass(old(self).grid@) + 4 <= u32::MAX,
        ensures
            final(self).wf(),
            final(self).size == old(self).size,
            final(self).score == old(self).score,
            final(self).grid@ == old(self).grid@.update(pos as int,
                final(self).grid@[pos as int]),
            final(self).grid@[pos as int] == 2 || final(self).grid@[pos as int] == 4,
            mass(final(self).grid@) <= mass(old(self).grid@) + 4,
    {
        let w = rng.pick_weighted(2, 1);
        let val: u32 = if w == 0 { 2 } else { 4 };
        proof {
            lemma_mass_update(self.grid@, pos as int, val);
            assert(is_pow2(1));
            assert(is_pow2(2));
            assert(is_pow2(4));
            assert(cell_ok(val));
        }
        self.grid.set(pos, val);
        proof {
            assert(forall|q: int| 0 <= q < self.grid@.len()
                ==> cell_ok(#[trigger] self.grid@[q]));
            assert(self.grid@ =~= old(self).grid@.update(pos as int, val));
        }
    }

    /// Spawn one or two tiles at random empty cells: a no-op when the
    /// board is full, otherwise one tile, then, on a coin flip, a second.
    /// Each tile is 2 or 4, with 2 twice as likely.
    pub fn fill_random_cells<R: RandomSource>(&mut self, rng: &mut R)
        requires
            old(self).wf(),
        ensures
            final(self).wf(),
            final(self).size == old(self).size,
            final(self).score == old(self).score,
            spawn_rel(old(self).grid@, final(self).grid@),
    {
        let ghost g0 = self.grid@;
        proof {
            let sz = self.size as int;
            assert(sz * sz >= 4) by (nonlinear_arith)
                requires
                    sz >= 2,
            ;
        }
        let empties = self.empty_positions();
        if empties.len() == 0 {
            proof {
                assert(spawn_at(g0, self.grid@, 0, 0));
            }
            return;
        }
        let m: u32 = match board_mass(&self.grid) {
            Some(x) => x,
            None => {
                proof {
                    assert(false);
                }
                0
            },
        };
        if m > u32::MAX - 4 {
            proof {
                assert(spawn_at(g0, self.grid@, 0, 0));
            }
            return;
        }
        let k = rng.pick_index(empties.len());
        let pos1: usize = empties[k];
        self.place_tile(pos1, rng);
        let ghost g1 = self.grid@;
        if rng.pick_bool() {
            proof {
                assert(spawn_at(g0, self.grid@, pos1 as int, pos1 as int));
                assert(self.grid@[pos1 as int] != g0[pos1 as int]);
            }
            return;
        }
        let empties2 = self.empty_positions();
        if empties2.len() == 0 {
            proof {
                assert(spawn_at(g0, self.grid@, pos1 as int, pos1 as int));
                assert(self.grid@[pos1 as int] != g0[pos1 as int]);
            }
            return;
        }
        let m2: u32 = m + 4;
        if m2 > u32::MAX - 4 {
            proof {
                assert(spawn_at(g0, self.grid@, pos1 as int, pos1 as int));
                assert(self.grid@[pos1 as int] != g0[pos1 as int]);
            }
            return;
        }
        let k2 = rng.pick_index(empties2.len());
        let pos2: usize = empties2[k2];
        proof {
            assert(g1[pos2 as int] == 0);
            assert(pos2 != pos1);
            assert(g0[pos2 as int] == 0);
        }
        self.place_tile(pos2, rng);
        proof {
            assert(spawn_at(g0, self.grid@, pos1 as int, pos2 as int));
            assert(self.grid@[pos1 as int] != g0[pos1 as int]);
        }
    }

    /// One move in direction `dir`: slide and merge every line toward it,
    /// add the gained points to the score, and spawn new tiles if the pass
    /// changed the board.
    fn move_dir<R: RandomSource>(&mut self, dir: Direction, rng: &mut R) -> (moved: bool)
        requires
            old(self).wf(),
        ensures
            move_ok(*old(self), *final(self), dir, moved),
    {
        let ghost pre = *self;
        proof {
            lemma_move_gain_bounds(pre.grid@, pre.size as int, dir);
            lemma_move_conserves_mass(pre.grid@, pre.size as int, dir);
            lemma_board_after_ok(pre.grid@, pre.size as int, dir);
        }
        let size = self.size;
        let r = slide_grid(&mut self.grid, size, dir);
        let gained: u32 = r.0;
        let moved: bool = r.1;
        self.score = self.score.saturating_add(gained);
        if moved {
            self.fill_random_cells(rng);
        } else {
            proof {
                lemma_unmoved_board_no_gain(pre.grid@, pre.size as int, dir);
            }
        }
        moved
    }

    /// Move every tile up. Returns whether the move changed the board.
    pub fn move_up<R: RandomSource>(&mut self, rng: &mut R) -> (moved: bool)
        requires
            old(self).wf(),
        ensures
            move_ok(*old(self), *final(self), Direction::Up, moved),
    {
        self.move_dir(Direction::Up, rng)
    }

    /// Move every tile down. Returns whether the move changed the board.
    pub fn move_down<R: RandomSource>(&mut self, rng: &mut R) -> (moved: bool)
        requires
            old(self).wf(),
        ensures
            move_ok(*old(self), *final(self), Direction::Down, moved),
    {
        self.move_dir(Direction::Down, rng)
    }

    /// Move every tile left. Returns whether the move changed the board.
    pub fn move_left<R: RandomSource>(&mut self, rng: &mut R) -> (moved: bool)
        requires
            old(self).wf(),
        ensures
            move_ok(*old(self), *final(self), Direction::Left, moved),
    {
        self.move_dir(Direction::Left, rng)
    }

    /// Move every tile right. Returns whether the move changed the board.
    pub fn move_right<R: RandomSource>(&mut self, rng: &mut R) -> (moved: bool)
        requires
            old(self).wf(),
        ensures
            move_ok(*old(self), *final(self), Direction::Right, moved),
    {
        self.move_dir(Direction::Right, rng)
    }

    /// Feed one input event to the game: a directional event moves when a
    /// move is still possible, a quit event asks the caller to stop, and
    /// anything else is ignored without effect.
    pub fn apply_event<R: RandomSource>(&mut self, ev: InputEvent, rng: &mut R) -> (r: EventOutcome)
        requires
            old(self).wf(),
        ensures
            final(self).wf(),
            (match r {
                EventOutcome::Quit => ev == InputEvent::Quit && *final(self) == *old(self),
                EventOutcome::Ignored => *final(self) == *old(self)
                    && (event_direction(ev) is None && ev != InputEvent::Quit
                        || event_direction(ev) is Some && !old(self).has_moves_spec()),
                EventOutcome::Moved(b) => event_direction(ev) is Some
                    && old(self).has_moves_spec()
                    && move_ok(*old(self), *final(self), event_direction(ev)->Some_0, b),
            }),
    {
        match ev {
            InputEvent::Quit => EventOutcome::Quit,
            InputEvent::Other => EventOutcome::Ignored,
            InputEvent::Up => {
                if self.has_moves() {
                    EventOutcome::Moved(self.move_dir(Direction::Up, rng))
                } else {
                    EventOutcome::Ignored
                }
            },
            InputEvent::Down => {
                if self.has_moves() {
                    EventOutcome::Moved(self.move_dir(Direction::Down, rng))
                } else {
                    EventOutcome::Ignored
                }
            },
            InputEvent::Left => {
                if self.has_moves() {
                    EventOutcome::Moved(self.move_dir(Direction::Left, rng))
                } else {
                    EventOutcome::Ignored
                }
            },
            InputEvent::Right => {
                if self.has_moves() {
                    EventOutcome::Moved(self.move_dir(Direction::Right, rng))
                } else {
                    EventOutcome::Ignored
                }
            },
        }
    }
}

/// No move is possible exactly when the board has zero empty cells and no
/// pair of grid-adjacent cells shares a value.
pub proof fn lemma_no_moves_characterization(g: Game)
    requires
        g.wf(),
    ensures
        !g.has_moves_spec() <==> (!g.has_empty_cell() && !g.has_adjacent_equal()),
{
    let size = g.size as int;
    if g.has_empty_cell() {
        let p = choose|p: int| 0 <= p < g.grid@.len() && g.grid@[p] == 0;
        lemma_idx_inverse(Direction::Left, size, p);
        let i = li_of(Direction::Left, size, p);
        let j = t_of(Direction::Left, size, p);
        assert(g.cell(i, j) == 0);
        assert(g.movable_at(i, j));
        assert(g.has_moves_spec());
    }
    if g.has_adjacent_equal() {
        assert forall|i: int, j: int|
            0 <= i < size && 0 <= j < size - 1
                && #[trigger] g.cell(i, j) == #[trigger] g.cell(i, j + 1)
            implies g.has_moves_spec() by {
            assert(g.movable_at(i, j));
        }
        assert forall|i: int, j: int|
            0 <= i < size - 1 && 0 <= j < size
                && #[trigger] g.cell(i, j) == #[trigger] g.cell(i + 1, j)
            implies g.has_moves_spec() by {
            assert(g.movable_at(i, j));
        }
    }
    if g.has_moves_spec() {
        let (i, j) = choose|i: int, j: int|
            0 <= i < size && 0 <= j < size && #[trigger] g.movable_at(i, j);
        if g.cell(i, j) == 0 {
            lemma_pos_bounds(Direction::Left, size, i, j);
            assert(g.grid@[i * size + j] == 0);
            assert(g.has_empty_cell());
        } else {
            assert(g.has_adjacent_equal());
        }
    }
}

/// The score never decreases: a move adds the points of its merges, which
/// are never negative, and saturates at `u32::MAX`.
pub proof fn lemma_score_nondecreasing(pre: Game, post: Game, dir: Direction, moved: bool)
    requires
        pre.wf(),
        move_ok(pre, post, dir, moved),
    ensures
        post.score >= pre.score,
{
    lemma_move_gain_bounds(pre.grid@, pre.size as int, dir);
}

/// The numeric value of a run of decimal digit bytes.
pub open spec fn digits_value(s: Seq<u8>) -> int
    decreases s.len(),
{
    if s.len() == 0 {
        0
    } else {
        digits_value(s.drop_last()) * 10 + (s.last() - 48)
    }
}

/// Every byte of the text is a decimal digit.
pub open spec fn all_digits(s: Seq<u8>) -> bool {
    forall|i: int| 0 <= i < s.len() ==> 48 <= #[trigger] s[i] <= 57
}

proof fn lemma_digits_value_nonneg(s: Seq<u8>)
    requires
        all_digits(s),
    ensures
        digits_value(s) >= 0,
    decreases s.len(),
{
    if s.len() > 0 {
        assert(forall|i: int| 0 <= i < s.len() - 1 ==> 48 <= #[trigger] s.drop_last()[i] <= 57);
        lemma_digits_value_nonneg(s.drop_last());
    }
}

/// Appending digits never lowers the value.
proof fn lemma_digits_value_prefix(s: Seq<u8>, p: int)
    requires
        all_digits(s),
        0 <= p <= s.len(),
    ensures
        digits_value(s.take(p)) <= digits_value(s),
    decreases s.len() - p,
{
    if p < s.len() {
        assert(s.take(p + 1).drop_last() =~= s.take(p));
        assert(forall|i: int| 0 <= i < p ==> 48 <= #[trigger] s.take(p)[i] <= 57);
        lemma_digits_value_nonneg(s.take(p));
        assert(digits_value(s.take(p + 1))
            == digits_value(s.take(p)) * 10 + (s[p] - 48));
        lemma_digits_value_prefix(s, p + 1);
    } else {
        assert(s.take(p) =~= s);
    }
}

/// Parse a board side length from the bytes of a command-line argument:
/// accepted exactly when the text is one or more decimal digits whose value
/// is a playable size.
pub fn parse_grid_size(arg: &Vec<u8>) -> (r: Option<usize>)
    ensures
        match r {
            Some(n) => {
                &&& all_digits(arg@)
                &&& arg@.len() >= 1
                &&& n as int == digits_value(arg@)
                &&& 2 <= n <= MAX_SIZE
            },
            None => !{
                &&& all_digits(arg@)
                &&& arg@.len() >= 1
                &&& 2 <= digits_value(arg@) <= MAX_SIZE
            },
        },
{
    let len: usize = arg.len();
    if len == 0 {
        return None;
    }
    let mut n: usize = 0;
    let mut p: usize = 0;
    proof {
        assert(arg@.take(0) =~= Seq::<u8>::empty());
    }
    while p < len
        invariant
            p <= len,
            len == arg@.len(),
            n <= MAX_SIZE,
            n as int == digits_value(arg@.take(p as int)),
            forall|i: int| 0 <= i < p ==> 48 <= #[trigger] arg@[i] <= 57,
        decreases len - p,
    {
        let b: u8 = arg[p];
        if b < 48 || b > 57 {
            return None;
        }
        let d: usize = (b - 48) as usize;
        let nn: usize = n * 10 + d;
        proof {
            assert(arg@.take(p + 1).drop_last() =~= arg@.take(p as int));
            assert(digits_value(arg@.take(p + 1)) == n * 10 + d);
        }
        if nn > MAX_SIZE {
            proof {
                if all_digits(arg@) {
                    lemma_digits_value_prefix(arg@, p + 1);
                }
            }
            return None;
        }
        n = nn;
        p = p + 1;
    }
    proof {
        assert(arg@.take(len as int) =~= arg@);
    }
    if n < 2 {
        return None;
    }
    Some(n)
}

/// Whether `v` is a legal cell value: 0, or a power of two of at least 2.
pub fn is_cell_value(v: u32) -> (r: bool)
    ensures
        r == cell_ok(v),
{
    if v == 0 {
        return true;
    }
    if v < 2 {
        return false;
    }
    let mut x: u32 = v;
    while x > 1
        invariant
            1 <= x,
            v >= 2,
            is_pow2(x as nat) == is_pow2(v as nat),
        decreases x,
    {
        if x % 2 == 1 {
            proof {
                assert((x as nat) % 2 == 1);
                assert(!is_pow2(x as nat));
            }
            return false;
        }
        x = x / 2;
    }
    true
}

/// The total value mass of a board, when it fits in `u32`.
pub fn board_mass(cells: &Vec<u32>) -> (r: Option<u32>)
    ensures
        match r {
            Some(m) => m as int == mass(cells@) && mass(cells@) <= u32::MAX,
            None => mass(cells@) > u32::MAX,
        },
{
    let n: usize = cells.len();
    let mut m: u32 = 0;
    let mut p: usize = 0;
    proof {
        assert(cells@.take(0) =~= Seq::<u32>::empty());
    }
    while p < n
        invariant
            p <= n,
            n == cells@.len(),
            m as int == mass(cells@.take(p as int)),
        decreases n - p,
    {
        proof {
            crate::grid::lemma_mass_take_step(cells@, p as int);
        }
        let v: u32 = cells[p];
        if m as u64 + v as u64 > u32::MAX as u64 {
            proof {
                assert(cells@ =~= cells@.take(p + 1) + cells@.skip(p + 1));
                lemma_mass_additive(cells@.take(p + 1), cells@.skip(p + 1));
                lemma_mass_nonneg(cells@.skip(p + 1));
            }
            return None;
        }
        m = m + v;
        p = p + 1;
    }
    proof {
        assert(cells@.take(n as int) =~= cells@);
    }
    Some(m)
}

} // verus!
