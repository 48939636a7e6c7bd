//! The square board and its four directional moves.
//!
//! The board is a flat, row-major sequence of `size * size` cells. A move in
//! a direction applies one slide/merge pass to every line parallel to the
//! motion: rows for `Left` and `Right`, columns for `Up` and `Down`, each
//! read from the near edge of the motion outward.

use vstd::prelude::*;
use vstd::arithmetic::div_mod::lemma_fundamental_div_mod;
use vstd::arithmetic::div_mod::lemma_fundamental_div_mod_converse;
use vstd::arithmetic::div_mod::lemma_mod_bound;
use crate::slide::{cell_ok, line_ok, mass, nonzeros, merge_pairs, slide_line, line_gain};
use crate::slide::{lemma_mass_additive, lemma_mass_nonneg, lemma_mass_head, lemma_mass_singleton};
use crate::slide::{lemma_slide_line_basic, lemma_slide_line_len, lemma_merge_gain_bounds};
use crate::slide::{lemma_unmoved_line_no_gain, slide_merge_line};

verus! {

/// The four move directions.
#[derive(Clone, Copy, Debug, PartialEq, Eq, Structural)]
pub enum Direction {
    Up,
    Down,
    Left,
    Right,
}

/// The flat index of the `t`-th cell (counted from the near edge of the
/// motion) of the `li`-th line parallel to the motion.
pub open spec fn pos_of(dir: Direction, size: int, li: int, t: int) -> int {
    match dir {
        Direction::Left => li * size + t,
        Direction::Right => li * size + (size - 1 - t),
        Direction::Up => t * size + li,
        Direction::Down => (size - 1 - t) * size + li,
    }
}

/// Which line a flat index belongs to, for a move in direction `dir`.
pub open spec fn li_of(dir: Direction, size: int, idx: int) -> int {
    match dir {
        Direction::Left => idx / size,
        Direction::Right => idx / size,
        Direction::Up => idx % size,
        Direction::Down => idx % size,
    }
}

/// The place of a flat index within its line, counted from the near edge.
pub open spec fn t_of(dir: Direction, size: int, idx: int) -> int {
    match dir {
        Direction::Left => idx % size,
        Direction::Right => size - 1 - idx % size,
        Direction::Up => idx / size,
        Direction::Down => size - 1 - idx / size,
    }
}

/// The `li`-th line parallel to the motion, read from the near edge outward.
pub open spec fn line_of(cells: Seq<u32>, size: int, dir: Direction, li: int) -> Seq<u32> {
    Seq::new(size as nat, |t: int| cells[pos_of(dir, size, li, t)])
}

/// The board after one slide/merge pass in direction `dir` (before any
/// spawn): every line is replaced by its slid and merged form.
pub open spec fn board_after(cells: Seq<u32>, size: int, dir: Direction) -> Seq<u32> {
    Seq::new((size * size) as nat, |idx: int|
        slide_line(line_of(cells, size, dir, li_of(dir, size, idx)))[t_of(dir, size, idx)])
}

/// The points gained by the pass on the first `k` lines.
pub open spec fn gain_upto(cells: Seq<u32>, size: int, dir: Direction, k: int) -> int
    decreases k,
{
    if k <= 0 {
        0
    } else {
        gain_upto(cells, size, dir, k - 1) + line_gain(line_of(cells, size, dir, k - 1))
    }
}

/// The points gained by one full pass in direction `dir`.
pub open spec fn move_gain(cells: Seq<u32>, size: int, dir: Direction) -> int {
    gain_upto(cells, size, dir, size)
}

/// The mass of the first `k` lines.
pub open spec fn sum_line_mass(cells: Seq<u32>, size: int, dir: Direction, k: int) -> int
    decreases k,
{
    if k <= 0 {
        0
    } else {
        sum_line_mass(cells, size, dir, k - 1) + mass(line_of(cells, size, dir, k - 1))
    }
}

/// The `li`-th column of a board of `m` rows, top to bottom.
pub open spec fn col_seq(cells: Seq<u32>, size: int, li: int, m: int) -> Seq<u32> {
    Seq::new(m as nat, |t: int| cells[t * size + li])
}

/// The mass of the first `k` columns of a board of `m` rows.
pub open spec fn sum_cols(cells: Seq<u32>, size: int, k: int, m: int) -> int
    decreases k,
{
    if k <= 0 {
        0
    } else {
        sum_cols(cells, size, k - 1, m) + mass(col_seq(cells, size, k - 1, m))
    }
}

/// A cell of a line lies inside the board.
pub proof fn lemma_pos_bounds(dir: Direction, size: int, li: int, t: int)
    requires
        0 <= li < size,
        0 <= t < size,
    ensures
        0 <= pos_of(dir, size, li, t) < size * size,
{
    let (a, b): (int, int) = match dir {
        Direction::Left => (li, t),
        Direction::Right => (li, size - 1 - t),
        Direction::Up => (t, li),
        Direction::Down => (size - 1 - t, li),
    };
    assert(0 <= a < size && 0 <= b < size);
    assert(0 <= a * size + b < size * size) by (nonlinear_arith)
        requires
            0 <= a < size,
            0 <= b < size,
    ;
}

/// `li_of` and `t_of` recover the line and place of a cell of a line.
pub proof fn lemma_pos_inverse(dir: Direction, size: int, li: int, t: int)
    requires
        0 <= li < size,
        0 <= t < size,
    ensures
        li_of(dir, size, pos_of(dir, size, li, t)) == li,
        t_of(dir, size, pos_of(dir, size, li, t)) == t,
        0 <= pos_of(dir, size, li, t) < size * size,
{
    lemma_pos_bounds(dir, size, li, t);
    match dir {
        Direction::Left => {
            lemma_fundamental_div_mod_converse(li * size + t, size, li, t);
        },
        Direction::Right => {
            lemma_fundamental_div_mod_converse(li * size + (size - 1 - t), size, li, size - 1 - t);
        },
        Direction::Up => {
            lemma_fundamental_div_mod_converse(t * size + li, size, t, li);
        },
        Direction::Down => {
            lemma_fundamental_div_mod_converse((size - 1 - t) * size + li, size, size - 1 - t, li);
        },
    }
}

/// Every flat index of the board belongs to exactly one line and place.
pub proof fn lemma_idx_inverse(dir: Direction, size: int, idx: int)
    requires
        size >= 1,
        0 <= idx < size * size,
    ensures
        0 <= li_of(dir, size, idx) < size,
        0 <= t_of(dir, size, idx) < size,
        pos_of(dir, size, li_of(dir, size, idx), t_of(dir, size, idx)) == idx,
{
    lemma_fundamental_div_mod(idx, size);
    lemma_mod_bound(idx, size);
    assert(idx == size * (idx / size) + idx % size);
    assert(0 <= idx / size < size) by {
        if idx / size >= size {
            assert(size * (idx / size) >= size * size) by (nonlinear_arith)
                requires
                    idx / size >= size,
                    size >= 1,
            ;
        }
        if idx / size < 0 {
            assert(size * (idx / size) <= 0 - size) by (nonlinear_arith)
                requires
                    idx / size <= -1,
                    size >= 1,
            ;
        }
    }
    assert(size * (idx / size) == (idx / size) * size) by (nonlinear_arith);
}

/// The mass of a line equals the mass of its reversal.
pub proof fn lemma_mass_rev(a: Seq<u32>, b: Seq<u32>)
    requires
        a.len() == b.len(),
        forall|i: int| 0 <= i < b.len() ==> b[i] == a[a.len() - 1 - i],
    ensures
        mass(b) == mass(a),
    decreases a.len(),
{
    if a.len() > 0 {
        let a1 = a.skip(1);
        let b1 = b.drop_last();
        assert(forall|i: int| 0 <= i < b1.len() ==> b1[i] == a1[a1.len() - 1 - i]);
        lemma_mass_rev(a1, b1);
        lemma_mass_head(a);
        assert(b.last() == a[0]);
    }
}

/// Extending a prefix of the board by one cell adds that cell's value.
pub proof fn lemma_mass_take_step(cells: Seq<u32>, k: int)
    requires
        0 <= k < cells.len(),
    ensures
        mass(cells.take(k + 1)) == mass(cells.take(k)) + cells[k],
{
    assert(cells.take(k + 1).drop_last() =~= cells.take(k));
}

/// A row line is a contiguous slice of the flat board.
pub proof fn lemma_line_row(cells: Seq<u32>, size: int, li: int)
    requires
        cells.len() == size * size,
        0 <= li < size,
    ensures
        line_of(cells, size, Direction::Left, li)
            =~= cells.subrange(li * size, li * size + size),
        mass(line_of(cells, size, Direction::Right, li))
            == mass(cells.subrange(li * size, li * size + size)),
{
    assert(0 <= li * size && li * size + size <= size * size) by (nonlinear_arith)
        requires
            0 <= li < size,
    ;
    let a = cells.subrange(li * size, li * size + size);
    let lft = line_of(cells, size, Direction::Left, li);
    assert forall|t: int| 0 <= t < size implies lft[t] == a[t] by {
        lemma_pos_bounds(Direction::Left, size, li, t);
    }
    assert(lft =~= a);
    let b = line_of(cells, size, Direction::Right, li);
    assert forall|i: int| 0 <= i < b.len() implies b[i] == a[a.len() - 1 - i] by {
        lemma_pos_bounds(Direction::Right, size, li, i);
    }
    lemma_mass_rev(a, b);
}

/// For row-parallel moves, the mass of the first `k` lines is the mass of
/// the first `k * size` cells.
pub proof fn lemma_sum_rows(cells: Seq<u32>, size: int, dir: Direction, k: int)
    requires
        cells.len() == size * size,
        size >= 1,
        0 <= k <= size,
        dir == Direction::Left || dir == Direction::Right,
    ensures
        sum_line_mass(cells, size, dir, k) == mass(cells.take(k * size)),
    decreases k,
{
    if k == 0 {
        assert(cells.take(0) =~= Seq::<u32>::empty());
    } else {
        lemma_sum_rows(cells, size, dir, k - 1);
        lemma_line_row(cells, size, k - 1);
        assert((k - 1) * size + size == k * size) by (nonlinear_arith);
        assert(0 <= (k - 1) * size && k * size <= size * size) by (nonlinear_arith)
            requires
                0 <= k - 1 && k <= size && size >= 1,
        ;
        assert(cells.take(k * size) =~=
            cells.take((k - 1) * size) + cells.subrange((k - 1) * size, (k - 1) * size + size));
        lemma_mass_additive(
            cells.take((k - 1) * size),
            cells.subrange((k - 1) * size, (k - 1) * size + size),
        );
        if dir == Direction::Left {
            assert(line_of(cells, size, dir, k - 1)
                =~= cells.subrange((k - 1) * size, (k - 1) * size + size));
        }
    }
}

/// Peeling the top row off the board peels the head off every column.
pub proof fn lemma_col_peel(cells: Seq<u32>, size: int, li: int, m: int)
    requires
        size >= 1,
        0 <= li < size,
        m >= 1,
        cells.len() == m * size,
    ensures
        col_seq(cells, size, li, m) =~= seq![cells[li]] + col_seq(cells.skip(size), size, li, m - 1),
        mass(col_seq(cells, size, li, m)) == cells[li] + mass(col_seq(cells.skip(size), size, li, m - 1)),
{
    assert(size <= m * size) by (nonlinear_arith)
        requires
            m >= 1,
            size >= 1,
    ;
    let rest = col_seq(cells.skip(size), size, li, m - 1);
    let whole = col_seq(cells, size, li, m);
    assert forall|t: int| 0 <= t < m implies whole[t] == (seq![cells[li]] + rest)[t] by {
        if t >= 1 {
            assert((t - 1) * size + li + size == t * size + li) by (nonlinear_arith);
            assert((m - 1) * size == m * size - size) by (nonlinear_arith);
            assert(0 <= (t - 1) * size + li < (m - 1) * size) by (nonlinear_arith)
                requires
                    1 <= t < m,
                    0 <= li < size,
            ;
            assert(cells.skip(size)[(t - 1) * size + li] == cells[(t - 1) * size + li + size]);
            assert(rest[t - 1] == cells.skip(size)[(t - 1) * size + li]);
        }
    }
    assert(col_seq(cells, size, li, m) =~= seq![cells[li]] + rest);
    lemma_mass_additive(seq![cells[li]], rest);
    lemma_mass_singleton(cells[li]);
}

/// The first `k` columns of an empty board have no mass.
pub proof fn lemma_sum_cols_zero(cells: Seq<u32>, size: int, k: int)
    ensures
        sum_cols(cells, size, k, 0) == 0,
    decreases k,
{
    if k > 0 {
        lemma_sum_cols_zero(cells, size, k - 1);
        assert(col_seq(cells, size, k - 1, 0) =~= Seq::<u32>::empty());
    }
}

/// Splitting the top row off the first `k` columns.
pub proof fn lemma_sum_cols_peel(cells: Seq<u32>, size: int, k: int, m: int)
    requires
        size >= 1,
        0 <= k <= size,
        m >= 1,
        cells.len() == m * size,
    ensures
        sum_cols(cells, size, k, m)
            == mass(cells.take(k)) + sum_cols(cells.skip(size), size, k, m - 1),
    decreases k,
{
    if k == 0 {
        assert(cells.take(0) =~= Seq::<u32>::empty());
    } else {
        lemma_sum_cols_peel(cells, size, k - 1, m);
        lemma_col_peel(cells, size, k - 1, m);
        assert(size <= m * size) by (nonlinear_arith)
            requires
                m >= 1,
                size >= 1,
        ;
        lemma_mass_take_step(cells, k - 1);
    }
}

/// The columns of a board of `m` rows carry its whole mass.
pub proof fn lemma_mass_cols(cells: Seq<u32>, size: int, m: int)
    requires
        size >= 1,
        m >= 0,
        cells.len() == m * size,
    ensures
        sum_cols(cells, size, size, m) == mass(cells),
    decreases m,
{
    if m == 0 {
        assert(m * size == 0) by (nonlinear_arith)
            requires
                m == 0,
        ;
        lemma_sum_cols_zero(cells, size, size);
    } else {
        lemma_sum_cols_peel(cells, size, size, m);
        assert(size <= m * size) by (nonlinear_arith)
            requires
                m >= 1,
                size >= 1,
        ;
        assert(cells.skip(size).len() == (m - 1) * size) by (nonlinear_arith)
            requires
                cells.len() == m * size,
                cells.skip(size).len() == cells.len() - size,
        ;
        lemma_mass_cols(cells.skip(size), size, m - 1);
        assert(cells =~= cells.take(size) + cells.skip(size));
        lemma_mass_additive(cells.take(size), cells.skip(size));
    }
}

/// A column line and its mass, for the column-parallel moves.
pub proof fn lemma_line_col(cells: Seq<u32>, size: int, li: int)
    requires
        cells.len() == size * size,
        size >= 1,
        0 <= li < size,
    ensures
        line_of(cells, size, Direction::Up, li) =~= col_seq(cells, size, li, size),
        mass(line_of(cells, size, Direction::Down, li)) == mass(col_seq(cells, size, li, size)),
{
    let a = col_seq(cells, size, li, size);
    let b = line_of(cells, size, Direction::Down, li);
    assert(forall|i: int| 0 <= i < b.len() ==> b[i] == a[a.len() - 1 - i]);
    lemma_mass_rev(a, b);
}

/// For column-parallel moves, the mass of the first `k` lines is the mass of
/// the first `k` columns.
pub proof fn lemma_sum_cols_lines(cells: Seq<u32>, size: int, dir: Direction, k: int)
    requires
        cells.len() == size * size,
        size >= 1,
        0 <= k <= size,
        dir == Direction::Up || dir == Direction::Down,
    ensures
        sum_line_mass(cells, size, dir, k) == sum_cols(cells, size, k, size),
    decreases k,
{
    if k > 0 {
        lemma_sum_cols_lines(cells, size, dir, k - 1);
        lemma_line_col(cells, size, k - 1);
    }
}

/// The lines of a move partition the board: their masses sum to its mass.
pub proof fn lemma_mass_lines(cells: Seq<u32>, size: int, dir: Direction)
    requires
        cells.len() == size * size,
        size >= 1,
    ensures
        sum_line_mass(cells, size, dir, size) == mass(cells),
{
    match dir {
        Direction::Left | Direction::Right => {
            lemma_sum_rows(cells, size, dir, size);
            assert(cells.take(size * size) =~= cells);
        },
        Direction::Up | Direction::Down => {
            lemma_sum_cols_lines(cells, size, dir, size);
            lemma_mass_cols(cells, size, size);
        },
    }
}

/// Line masses accumulate without ever decreasing.
pub proof fn lemma_sum_line_mass_mono(cells: Seq<u32>, size: int, dir: Direction, k1: int, k2: int)
    requires
        0 <= k1 <= k2,
    ensures
        0 <= sum_line_mass(cells, size, dir, k1) <= sum_line_mass(cells, size, dir, k2),
    decreases k2,
{
    if k2 > 0 {
        lemma_mass_nonneg(line_of(cells, size, dir, k2 - 1));
        if k1 <= k2 - 1 {
            lemma_sum_line_mass_mono(cells, size, dir, k1, k2 - 1);
        } else {
            lemma_sum_line_mass_mono(cells, size, dir, k1 - 1, k2 - 1);
        }
    }
}

/// No line outweighs the whole board.
pub proof fn lemma_line_mass_le_total(cells: Seq<u32>, size: int, dir: Direction, li: int)
    requires
        cells.len() == size * size,
        size >= 1,
        0 <= li < size,
    ensures
        0 <= mass(line_of(cells, size, dir, li)) <= mass(cells),
{
    lemma_mass_lines(cells, size, dir);
    lemma_mass_nonneg(line_of(cells, size, dir, li));
    lemma_sum_line_mass_mono(cells, size, dir, 0, li);
    lemma_sum_line_mass_mono(cells, size, dir, li + 1, size);
}

/// Gains accumulate without ever decreasing.
pub proof fn lemma_gain_upto_mono(cells: Seq<u32>, size: int, dir: Direction, k1: int, k2: int)
    requires
        0 <= k1 <= k2,
    ensures
        0 <= gain_upto(cells, size, dir, k1) <= gain_upto(cells, size, dir, k2),
    decreases k2,
{
    if k2 > 0 {
        lemma_merge_gain_bounds(nonzeros(line_of(cells, size, dir, k2 - 1)));
        if k1 <= k2 - 1 {
            lemma_gain_upto_mono(cells, size, dir, k1, k2 - 1);
        } else {
            lemma_gain_upto_mono(cells, size, dir, k1 - 1, k2 - 1);
        }
    }
}

/// The gain of the first `k` lines is at most their mass.
pub proof fn lemma_gain_le_sum(cells: Seq<u32>, size: int, dir: Direction, k: int)
    requires
        cells.len() == size * size,
        size >= 1,
        mass(cells) <= u32::MAX,
        0 <= k <= size,
    ensures
        gain_upto(cells, size, dir, k) <= sum_line_mass(cells, size, dir, k),
    decreases k,
{
    if k > 0 {
        lemma_gain_le_sum(cells, size, dir, k - 1);
        lemma_line_mass_le_total(cells, size, dir, k - 1);
        lemma_slide_line_basic(line_of(cells, size, dir, k - 1));
    }
}

/// The points gained by one move never exceed the mass of the board.
pub proof fn lemma_move_gain_bounds(cells: Seq<u32>, size: int, dir: Direction)
    requires
        cells.len() == size * size,
        size >= 1,
        mass(cells) <= u32::MAX,
    ensures
        0 <= move_gain(cells, size, dir) <= mass(cells),
{
    lemma_gain_upto_mono(cells, size, dir, 0, size);
    lemma_gain_le_sum(cells, size, dir, size);
    lemma_sum_line_mass_mono(cells, size, dir, size, size);
    lemma_mass_lines(cells, size, dir);
}

/// After the pass, every line of the board is the slid and merged form of
/// the old line.
pub proof fn lemma_board_after_lines(cells: Seq<u32>, size: int, dir: Direction)
    requires
        cells.len() == size * size,
        size >= 1,
    ensures
        board_after(cells, size, dir).len() == size * size,
        forall|li: int| 0 <= li < size ==>
            line_of(board_after(cells, size, dir), size, dir, li)
                == slide_line(#[trigger] line_of(cells, size, dir, li)),
{
    let after = board_after(cells, size, dir);
    assert forall|li: int| 0 <= li < size
        implies line_of(after, size, dir, li) == slide_line(line_of(cells, size, dir, li)) by {
        lemma_slide_line_len(line_of(cells, size, dir, li));
        assert forall|t: int| 0 <= t < size
            implies line_of(after, size, dir, li)[t]
                == slide_line(line_of(cells, size, dir, li))[t] by {
            lemma_pos_inverse(dir, size, li, t);
        }
        assert(line_of(after, size, dir, li) =~= slide_line(line_of(cells, size, dir, li)));
    }
}

/// The masses of the first `k` lines are unchanged by the pass.
proof fn lemma_sum_line_mass_after(cells: Seq<u32>, size: int, dir: Direction, k: int)
    requires
        cells.len() == size * size,
        size >= 1,
        mass(cells) <= u32::MAX,
        0 <= k <= size,
    ensures
        sum_line_mass(board_after(cells, size, dir), size, dir, k)
            == sum_line_mass(cells, size, dir, k),
    decreases k,
{
    if k > 0 {
        lemma_sum_line_mass_after(cells, size, dir, k - 1);
        lemma_board_after_lines(cells, size, dir);
        lemma_line_mass_le_total(cells, size, dir, k - 1);
        lemma_slide_line_basic(line_of(cells, size, dir, k - 1));
    }
}

/// One move conserves the total value mass of the board (spawns excluded):
/// sliding moves tiles, and a merge combines two equal tiles into one tile
/// of their sum.
pub proof fn lemma_move_conserves_mass(cells: Seq<u32>, size: int, dir: Direction)
    requires
        cells.len() == size * size,
        size >= 1,
        mass(cells) <= u32::MAX,
    ensures
        mass(board_after(cells, size, dir)) == mass(cells),
{
    let after = board_after(cells, size, dir);
    lemma_board_after_lines(cells, size, dir);
    lemma_mass_lines(after, size, dir);
    lemma_mass_lines(cells, size, dir);
    lemma_sum_line_mass_after(cells, size, dir, size);
}

/// The pass keeps every cell value legal.
pub proof fn lemma_board_after_ok(cells: Seq<u32>, size: int, dir: Direction)
    requires
        cells.len() == size * size,
        size >= 1,
        mass(cells) <= u32::MAX,
        line_ok(cells),
    ensures
        line_ok(board_after(cells, size, dir)),
{
    let after = board_after(cells, size, dir);
    assert forall|idx: int| 0 <= idx < after.len() implies cell_ok(#[trigger] after[idx]) by {
        lemma_idx_inverse(dir, size, idx);
        let li = li_of(dir, size, idx);
        let t = t_of(dir, size, idx);
        let line = line_of(cells, size, dir, li);
        assert forall|u: int| 0 <= u < size implies cell_ok(#[trigger] line[u]) by {
            lemma_pos_bounds(dir, size, li, u);
        }
        lemma_line_mass_le_total(cells, size, dir, li);
        lemma_slide_line_basic(line);
        lemma_slide_line_len(line);
        assert(after[idx] == slide_line(line)[t]);
    }
}

/// The board is unchanged by the pass exactly when every line is.
pub proof fn lemma_board_unchanged_iff(cells: Seq<u32>, size: int, dir: Direction)
    requires
        cells.len() == size * size,
        size >= 1,
    ensures
        (board_after(cells, size, dir) == cells)
            <==> (forall|li: int| 0 <= li < size ==>
                slide_line(#[trigger] line_of(cells, size, dir, li))
                    == line_of(cells, size, dir, li)),
{
    let after = board_after(cells, size, dir);
    lemma_board_after_lines(cells, size, dir);
    if forall|li: int| 0 <= li < size ==>
        slide_line(#[trigger] line_of(cells, size, dir, li)) == line_of(cells, size, dir, li) {
        assert forall|idx: int| 0 <= idx < size * size implies after[idx] == cells[idx] by {
            lemma_idx_inverse(dir, size, idx);
            let li = li_of(dir, size, idx);
            let t = t_of(dir, size, idx);
            assert(slide_line(line_of(cells, size, dir, li)) == line_of(cells, size, dir, li));
            assert(after[idx] == line_of(cells, size, dir, li)[t]);
        }
        assert(after =~= cells);
    }
    if after == cells {
        assert forall|li: int| 0 <= li < size
            implies slide_line(#[trigger] line_of(cells, size, dir, li))
                == line_of(cells, size, dir, li) by {
            assert(line_of(after, size, dir, li) == slide_line(line_of(cells, size, dir, li)));
        }
    }
}

/// A pass that changes nothing gains nothing, up to line `k`.
proof fn lemma_gain_upto_zero(cells: Seq<u32>, size: int, dir: Direction, k: int)
    requires
        cells.len() == size * size,
        size >= 1,
        mass(cells) <= u32::MAX,
        0 <= k <= size,
        forall|li: int| 0 <= li < size ==>
            slide_line(#[trigger] line_of(cells, size, dir, li)) == line_of(cells, size, dir, li),
    ensures
        gain_upto(cells, size, dir, k) == 0,
    decreases k,
{
    if k > 0 {
        lemma_gain_upto_zero(cells, size, dir, k - 1);
        lemma_line_mass_le_total(cells, size, dir, k - 1);
        lemma_unmoved_line_no_gain(line_of(cells, size, dir, k - 1));
    }
}

/// A move that changes nothing gains no points.
pub proof fn lemma_unmoved_board_no_gain(cells: Seq<u32>, size: int, dir: Direction)
    requires
        cells.len() == size * size,
        size >= 1,
        mass(cells) <= u32::MAX,
        board_after(cells, size, dir) == cells,
    ensures
        move_gain(cells, size, dir) == 0,
{
    lemma_board_unchanged_iff(cells, size, dir);
    lemma_gain_upto_zero(cells, size, dir, size);
}

/// The flat index of the `t`-th cell of the `li`-th line.
fn line_pos(size: usize, dir: Direction, li: usize, t: usize) -> (p: usize)
    requires
        li < size,
        t < size,
        size * size <= usize::MAX,
    ensures
        p == pos_of(dir, size as int, li as int, t as int),
        p < size * size,
{
    proof {
        lemma_pos_bounds(dir, size as int, li as int, t as int);
    }
    match dir {
        Direction::Left => li * size + t,
        Direction::Right => li * size + (size - 1 - t),
        Direction::Up => t * size + li,
        Direction::Down => (size - 1 - t) * size + li,
    }
}

/// Read the `li`-th line parallel to the motion out of the board.
fn extract_line(grid: &Vec<u32>, size: usize, dir: Direction, li: usize) -> (line: Vec<u32>)
    requires
        grid@.len() == size * size,
        li < size,
    ensures
        line@ == line_of(grid@, size as int, dir, li as int),
{
    let n: usize = grid.len();
    let mut line: Vec<u32> = Vec::new();
    let mut t: usize = 0;
    while t < size
        invariant
            t <= size,
            li < size,
            grid@.len() == size * size,
            size * size <= usize::MAX,
            line@.len() == t,
            forall|j: int| 0 <= j < t ==>
                line@[j] == grid@[pos_of(dir, size as int, li as int, j)],
        decreases size - t,
    {
        let p: usize = line_pos(size, dir, li, t);
        line.push(grid[p]);
        t = t + 1;
    }
    proof {
        assert(line@ =~= line_of(grid@, size as int, dir, li as int));
    }
    line
}

/// Write a line back into the board, leaving every other cell unchanged.
fn write_line(grid: &mut Vec<u32>, size: usize, dir: Direction, li: usize, line: &Vec<u32>)
    requires
        old(grid)@.len() == size * size,
        li < size,
        line@.len() == size,
    ensures
        final(grid)@.len() == size * size,
        forall|idx: int| 0 <= idx < size * size ==> final(grid)@[idx] == (
            if li_of(dir, size as int, idx) == li {
                line@[t_of(dir, size as int, idx)]
            } else {
                old(grid)@[idx]
            }
        ),
{
    let n: usize = grid.len();
    let mut t: usize = 0;
    proof {
        assert forall|idx: int| 0 <= idx < size * size
            implies !(li_of(dir, size as int, idx) == li && t_of(dir, size as int, idx) < 0) by {
            lemma_idx_inverse(dir, size as int, idx);
        }
    }
    while t < size
        invariant
            t <= size,
            li < size,
            line@.len() == size,
            grid@.len() == size * size,
            size * size <= usize::MAX,
            forall|idx: int| 0 <= idx < size * size ==> grid@[idx] == (
                if li_of(dir, size as int, idx) == li && t_of(dir, size as int, idx) < t {
                    line@[t_of(dir, size as int, idx)]
                } else {
                    old(grid)@[idx]
                }
            ),
        decreases size - t,
    {
        let p: usize = line_pos(size, dir, li, t);
        let ghost t0 = t as int;
        grid.set(p, line[t]);
        t = t + 1;
        proof {
            lemma_pos_inverse(dir, size as int, li as int, t0);
            assert forall|idx: int| 0 <= idx < size * size implies grid@[idx] == (
                if li_of(dir, size as int, idx) == li && t_of(dir, size as int, idx) < t {
                    line@[t_of(dir, size as int, idx)]
                } else {
                    old(grid)@[idx]
                }
            ) by {
                lemma_idx_inverse(dir, size as int, idx);
                let l2 = li_of(dir, size as int, idx);
                let t2 = t_of(dir, size as int, idx);
                if idx == p {
                    assert(l2 == li && t2 == t0);
                    assert(grid@[idx] == line@[t0]);
                } else {
                    assert(grid@[idx] == old(grid)@[idx]
                        || (l2 == li && t2 < t0 && grid@[idx] == line@[t2]));
                    if l2 == li && t2 == t0 {
                        assert(pos_of(dir, size as int, li as int, t0) == idx);
                        assert(false);
                    }
                }
            }
        }
    }
    proof {
        assert forall|idx: int| 0 <= idx < size * size implies grid@[idx] == (
            if li_of(dir, size as int, idx) == li {
                line@[t_of(dir, size as int, idx)]
            } else {
                old(grid)@[idx]
            }
        ) by {
            lemma_idx_inverse(dir, size as int, idx);
        }
    }
}

/// One slide/merge pass over the whole board in direction `dir`, with no
/// spawn: every line parallel to the motion is slid and merged toward the
/// near edge.
///
/// Returns the points gained by the merges of the pass, and whether the
/// pass changed any cell.
pub fn slide_grid(grid: &mut Vec<u32>, size: usize, dir: Direction) -> (r: (u32, bool))
    requires
        old(grid)@.len() == size * size,
        1 <= size,
        mass(old(grid)@) <= u32::MAX,
    ensures
        final(grid)@ == board_after(old(grid)@, size as int, dir),
        r.0 as int == move_gain(old(grid)@, size as int, dir),
        r.1 == (final(grid)@ != old(grid)@),
{
    let ghost g0 = grid@;
    let ghost sz = size as int;
    let mut gained: u32 = 0;
    let mut moved: bool = false;
    let mut li: usize = 0;
    let n: usize = grid.len();
    while li < size
        invariant
            li <= size,
            1 <= size,
            sz == size as int,
            g0.len() == sz * sz,
            mass(g0) <= u32::MAX,
            grid@.len() == g0.len(),
            size * size <= usize::MAX,
            forall|idx: int| 0 <= idx < g0.len() ==> grid@[idx] == (
                if li_of(dir, sz, idx) < li {
                    board_after(g0, sz, dir)[idx]
                } else {
                    g0[idx]
                }
            ),
            gained as int == gain_upto(g0, sz, dir, li as int),
            moved == exists|l: int| 0 <= l < li
                && slide_line(#[trigger] line_of(g0, sz, dir, l)) != line_of(g0, sz, dir, l),
        decreases size - li,
    {
        let line = extract_line(grid, size, dir, li);
        proof {
            assert forall|u: int| 0 <= u < sz
                implies line@[u] == line_of(g0, sz, dir, li as int)[u] by {
                lemma_pos_inverse(dir, sz, li as int, u);
            }
            assert(line@ =~= line_of(g0, sz, dir, li as int));
            lemma_line_mass_le_total(g0, sz, dir, li as int);
            lemma_gain_upto_mono(g0, sz, dir, li as int + 1, sz);
            lemma_move_gain_bounds(g0, sz, dir);
        }
        let r = slide_merge_line(&line);
        let new_line = r.0;
        let gain = r.1;
        let ch = r.2;
        proof {
            lemma_slide_line_len(line@);
        }
        write_line(grid, size, dir, li, &new_line);
        gained = gained + gain;
        moved = moved || ch;
        proof {
            if ch {
                assert(slide_line(line_of(g0, sz, dir, li as int)) != line_of(g0, sz, dir, li as int));
            }
            assert forall|idx: int| 0 <= idx < g0.len() implies grid@[idx] == (
                if li_of(dir, sz, idx) < li + 1 {
                    board_after(g0, sz, dir)[idx]
                } else {
                    g0[idx]
                }
            ) by {
                lemma_idx_inverse(dir, sz, idx);
            }
        }
        li = li + 1;
    }
    proof {
        assert forall|idx: int| 0 <= idx < g0.len()
            implies grid@[idx] == board_after(g0, sz, dir)[idx] by {
            lemma_idx_inverse(dir, sz, idx);
        }
        lemma_board_after_lines(g0, sz, dir);
        assert(grid@ =~= board_after(g0, sz, dir));
        lemma_board_unchanged_iff(g0, sz, dir);
        if moved {
            assert(grid@ != g0);
        } else {
            assert(forall|l: int| 0 <= l < size ==>
                slide_line(#[trigger] line_of(g0, sz, dir, l)) == line_of(g0, sz, dir, l));
            assert(grid@ == g0);
        }
    }
    (gained, moved)
}

} // verus!
