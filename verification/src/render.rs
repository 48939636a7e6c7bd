//! The renderer: one full frame of positioned, colored text per move.
//!
//! A frame clears the screen, draws every row of the board centered in the
//! terminal, each cell right-aligned in a six-character field and colored by
//! its value, then writes the score, a win or loss banner when one holds,
//! the quit hint, and hides the cursor. The whole frame is pinned down as a
//! sequence of characters by `frame_chars`.

use vstd::prelude::*;
use crate::error::GameError;
use crate::escapes::{clear_all_seq, goto_seq, down_seq, left_seq, hide_cursor_seq, show_cursor_seq};
use crate::escapes::{bold_seq, style_reset_seq, fg_ansi_seq, fg_reset_seq, bg_reset_seq, main_screen_seq};
use crate::escapes::{term_clear_all, term_goto, term_down, term_left, term_hide_cursor, term_show_cursor};
use crate::escapes::{term_bold, term_style_reset, term_fg_ansi, term_fg_reset, term_bg_reset, term_to_main_screen};
use crate::game::Game;
use crate::text::{dec_rep, dec_len, push_dec, push_char, push_text};

verus! {

/// The 256-color code a tile value is drawn in: a fixed palette keyed by
/// powers of two up to 1024, one color for everything above, and gray for
/// empty cells.
pub open spec fn color_code_spec(v: u32) -> u8 {
    if v == 0 {
        247
    } else if v == 2 {
        202
    } else if v == 4 {
        214
    } else if v == 8 {
        226
    } else if v == 16 {
        40
    } else if v == 32 {
        47
    } else if v == 64 {
        14
    } else if v == 128 {
        33
    } else if v == 256 {
        141
    } else if v == 512 {
        213
    } else if v == 1024 {
        201
    } else {
        196
    }
}

/// The 256-color code a tile value is drawn in.
pub fn color_code(v: u32) -> (c: u8)
    ensures
        c == color_code_spec(v),
{
    match v {
        0 => 247,
        2 => 202,
        4 => 214,
        8 => 226,
        16 => 40,
        32 => 47,
        64 => 14,
        128 => 33,
        256 => 141,
        512 => 213,
        1024 => 201,
        _ => 196,
    }
}

/// A run of `n` spaces (none, when `n` is negative).
pub open spec fn spaces(n: int) -> Seq<char> {
    Seq::new((if n >= 0 { n } else { 0 }) as nat, |i: int| ' ')
}

/// A cell value, right-aligned in a six-character field.
pub open spec fn padded_value(v: u32) -> Seq<char> {
    spaces(6 - dec_rep(v as int).len()) + dec_rep(v as int)
}

/// The text of one cell: its value in its color, in bold, right-aligned.
pub open spec fn cell_chars(v: u32) -> Seq<char> {
    bold_seq() + fg_ansi_seq(color_code_spec(v)) + padded_value(v) + style_reset_seq()
}

/// The cell texts of the first `k` cells of row `i`.
pub open spec fn row_cells_chars(g: Seq<u32>, size: int, i: int, k: int) -> Seq<char>
    decreases k,
{
    if k <= 0 {
        Seq::empty()
    } else {
        row_cells_chars(g, size, i, k - 1) + cell_chars(g[i * size + (k - 1)])
    }
}

/// One row of the frame: position the cursor, then draw every cell.
pub open spec fn row_chars(g: Seq<u32>, size: int, left: int, top: int, i: int) -> Seq<char> {
    goto_seq((left + 1) as u16, (top + 1 + i) as u16) + row_cells_chars(g, size, i, size)
}

/// The first `k` rows of the frame.
pub open spec fn rows_chars(g: Seq<u32>, size: int, left: int, top: int, k: int) -> Seq<char>
    decreases k,
{
    if k <= 0 {
        Seq::empty()
    } else {
        rows_chars(g, size, left, top, k - 1) + row_chars(g, size, left, top, k - 1)
    }
}

/// The score line, written right-aligned under the board.
pub open spec fn score_chars(score: u32) -> Seq<char> {
    down_seq(1) + left_seq((7 + dec_rep(score as int).len()) as u16) + "Score: "@ + dec_rep(
        score as int,
    )
}

/// The banner line: the win banner if the game is won, else the loss
/// banner if no move is possible, else nothing.
pub open spec fn banner_chars(won: bool, lost: bool) -> Seq<char> {
    down_seq(1) + (if won {
        left_seq(7) + bold_seq() + "YOU WON"@ + style_reset_seq()
    } else if lost {
        left_seq(8) + bold_seq() + "YOU LOST"@ + style_reset_seq()
    } else {
        Seq::<char>::empty()
    })
}

/// The quit hint, two rows further down.
pub open spec fn quit_chars() -> Seq<char> {
    down_seq(2) + left_seq(6) + "[q]uit"@
}

/// One full frame.
pub open spec fn frame_chars(
    g: Seq<u32>,
    size: int,
    score: u32,
    won: bool,
    lost: bool,
    left: int,
    top: int,
) -> Seq<char> {
    clear_all_seq() + rows_chars(g, size, left, top, size) + score_chars(score) + banner_chars(
        won,
        lost,
    ) + quit_chars() + hide_cursor_seq()
}

/// The width the board needs: six columns per cell and one separator
/// column around each cell.
pub open spec fn required_width(size: int) -> int {
    size * 6 + size + 1
}

/// The height the board needs: its rows and one status row.
pub open spec fn required_height(size: int) -> int {
    size + 1
}

/// Whether a terminal of the given dimensions can fit the board.
pub open spec fn fits(size: int, w: int, h: int) -> bool {
    required_width(size) <= w && required_height(size) <= h
}

/// The left padding that centers the board horizontally.
pub open spec fn left_pad_spec(size: int, w: int) -> int {
    (w - required_width(size) + 1) / 2
}

/// The top padding that centers the board vertically.
pub open spec fn top_pad_spec(size: int, h: int) -> int {
    (h - required_height(size) + 1) / 2
}

/// Append the cell value right-aligned in a six-character field.
fn push_padded(s: &mut String, v: u32)
    ensures
        final(s)@ == old(s)@ + padded_value(v),
{
    let l = dec_len(v);
    let pad: usize = if l < 6 {
        6 - l
    } else {
        0
    };
    let mut k: usize = 0;
    proof {
        assert(s@ =~= old(s)@ + spaces(0));
    }
    while k < pad
        invariant
            k <= pad,
            s@ == old(s)@ + spaces(k as int),
        decreases pad - k,
    {
        push_char(s, ' ');
        k = k + 1;
        proof {
            assert(s@ =~= old(s)@ + spaces(k as int));
        }
    }
    push_dec(s, v);
    proof {
        assert(s@ =~= old(s)@ + padded_value(v));
    }
}

/// Append the text of one cell.
fn push_cell(s: &mut String, v: u32)
    ensures
        final(s)@ == old(s)@ + cell_chars(v),
{
    let b = term_bold();
    push_text(s, b.as_str());
    let f = term_fg_ansi(color_code(v));
    push_text(s, f.as_str());
    push_padded(s, v);
    let r = term_style_reset();
    push_text(s, r.as_str());
    proof {
        assert(s@ =~= old(s)@ + cell_chars(v));
    }
}

impl Game {
    /// The paddings that center the board in a terminal of the given
    /// dimensions, or `None` when it does not fit.
    pub fn get_padding(&self, total_width: u16, total_height: u16) -> (r: Option<(u16, u16)>)
        requires
            self.wf(),
        ensures
            match r {
                Some(p) => {
                    &&& fits(self.size as int, total_width as int, total_height as int)
                    &&& p.0 as int == left_pad_spec(self.size as int, total_width as int)
                    &&& p.1 as int == top_pad_spec(self.size as int, total_height as int)
                },
                None => !fits(self.size as int, total_width as int, total_height as int),
            },
    {
        let size = self.size;
        let req_w: usize = size * 6 + size + 1;
        let req_h: usize = size + 1;
        let w = total_width as usize;
        let h = total_height as usize;
        if w < req_w || h < req_h {
            return None;
        }
        let left: usize = (w - req_w + 1) / 2;
        let top: usize = (h - req_h + 1) / 2;
        Some((left as u16, top as u16))
    }

    /// Render one full frame for a terminal of the given dimensions: the
    /// board centered, the score, a win or loss banner when one holds, and
    /// the quit hint. Fails exactly when the terminal cannot fit the board.
    #[verifier::rlimit(100)]
    pub fn write_to(&self, total_width: u16, total_height: u16) -> (r: Result<String, GameError>)
        requires
            self.wf(),
        ensures
            match r {
                Ok(s) => {
                    &&& fits(self.size as int, total_width as int, total_height as int)
                    &&& s@ == frame_chars(
                        self.grid@,
                        self.size as int,
                        self.score,
                        self.has_won_spec(),
                        !self.has_moves_spec(),
                        left_pad_spec(self.size as int, total_width as int),
                        top_pad_spec(self.size as int, total_height as int),
                    )
                },
                Err(e) => {
                    &&& !fits(self.size as int, total_width as int, total_height as int)
                    &&& e is TerminalSize
                },
            },
    {
        let pad = self.get_padding(total_width, total_height);
        match pad {
            None => Err(GameError::TerminalSize),
            Some((left, top)) => {
                let size = self.size;
                let ghost g = self.grid@;
                let ghost sz = size as int;
                let ghost li = left as int;
                let ghost ti = top as int;
                let n: usize = self.grid.len();
                let mut s = String::new();
                let c = term_clear_all();
                push_text(&mut s, c.as_str());
                proof {
                    assert(s@ =~= clear_all_seq() + rows_chars(g, sz, li, ti, 0));
                }
                let mut i: usize = 0;
                while i < size
                    invariant
                        i <= size,
                        self.wf(),
                        size == self.size,
                        g == self.grid@,
                        sz == size as int,
                        li == left as int,
                        ti == top as int,
                        n == self.grid@.len(),
                        left as int + 1 <= 32768,
                        top as int + size <= 65535,
                        s@ == clear_all_seq() + rows_chars(g, sz, li, ti, i as int),
                    decreases size - i,
                {
                    let ghost base = s@;
                    let y: u16 = top + 1 + (i as u16);
                    let gt = term_goto(left + 1, y);
                    push_text(&mut s, gt.as_str());
                    proof {
                        assert(s@ =~= base + goto_seq((li + 1) as u16, (ti + 1 + i) as u16));
                    }
                    let mut j: usize = 0;
                    while j < size
                        invariant
                            j <= size,
                            i < size,
                            self.wf(),
                            size == self.size,
                            g == self.grid@,
                            sz == size as int,
                            n == self.grid@.len(),
                            s@ == base + goto_seq((li + 1) as u16, (ti + 1 + i) as u16)
                                + row_cells_chars(g, sz, i as int, j as int),
                        decreases size - j,
                    {
                        proof {
                            crate::grid::lemma_pos_bounds(
                                crate::grid::Direction::Left,
                                sz,
                                i as int,
                                j as int,
                            );
                        }
                        let idx: usize = i * size + j;
                        let v: u32 = self.grid[idx];
                        push_cell(&mut s, v);
                        j = j + 1;
                        proof {
                            assert(s@ =~= base + goto_seq((li + 1) as u16, (ti + 1 + i) as u16)
                                + row_cells_chars(g, sz, i as int, j as int));
                        }
                    }
                    i = i + 1;
                    proof {
                        assert(s@ =~= clear_all_seq() + rows_chars(g, sz, li, ti, i as int));
                    }
                }
                let ghost after_rows = s@;
                let d1 = term_down(1);
                push_text(&mut s, d1.as_str());
                let slen: usize = 7 + dec_len(self.score);
                let lf = term_left(slen as u16);
                push_text(&mut s, lf.as_str());
                push_text(&mut s, "Score: ");
                push_dec(&mut s, self.score);
                proof {
                    assert(s@ =~= after_rows + score_chars(self.score));
                }
                let ghost after_score = s@;
                let d2 = term_down(1);
                push_text(&mut s, d2.as_str());
                let won = self.has_won();
                if won {
                    let l7 = term_left(7);
                    push_text(&mut s, l7.as_str());
                    let b = term_bold();
                    push_text(&mut s, b.as_str());
                    push_text(&mut s, "YOU WON");
                    let rs = term_style_reset();
                    push_text(&mut s, rs.as_str());
                } else {
                    if !self.has_moves() {
                        let l8 = term_left(8);
                        push_text(&mut s, l8.as_str());
                        let b = term_bold();
                        push_text(&mut s, b.as_str());
                        push_text(&mut s, "YOU LOST");
                        let rs = term_style_reset();
                        push_text(&mut s, rs.as_str());
                    }
                }
                proof {
                    assert(s@ =~= after_score + banner_chars(
                        self.has_won_spec(),
                        !self.has_moves_spec(),
                    ));
                }
                let ghost after_banner = s@;
                let d3 = term_down(2);
                push_text(&mut s, d3.as_str());
                let l6 = term_left(6);
                push_text(&mut s, l6.as_str());
                push_text(&mut s, "[q]uit");
                proof {
                    assert(s@ =~= after_banner + quit_chars());
                }
                let hc = term_hide_cursor();
                push_text(&mut s, hc.as_str());
                proof {
                    assert(s@ =~= frame_chars(
                        g,
                        sz,
                        self.score,
                        self.has_won_spec(),
                        !self.has_moves_spec(),
                        li,
                        ti,
                    ));
                }
                Ok(s)
            },
        }
    }
}

/// The text that restores the terminal: reset the style and both colors,
/// show the cursor, and return to the main screen buffer.
pub fn restore_sequence() -> (s: String)
    ensures
        s@ == style_reset_seq() + bg_reset_seq() + fg_reset_seq() + show_cursor_seq()
            + main_screen_seq(),
{
    let mut s = String::new();
    let a = term_style_reset();
    push_text(&mut s, a.as_str());
    let b = term_bg_reset();
    push_text(&mut s, b.as_str());
    let c = term_fg_reset();
    push_text(&mut s, c.as_str());
    let d = term_show_cursor();
    push_text(&mut s, d.as_str());
    let e = term_to_main_screen();
    push_text(&mut s, e.as_str());
    proof {
        assert(s@ =~= style_reset_seq() + bg_reset_seq() + fg_reset_seq() + show_cursor_seq()
            + main_screen_seq());
    }
    s
}

} // verus!
