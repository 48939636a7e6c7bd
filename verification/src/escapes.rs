//! The terminal control sequences the renderer emits, as characters.
//!
//! Each executable function returns the text that one termion control value
//! produces; its contract states that text exactly, so the renderer's frame
//! is pinned down to the byte.

use vstd::prelude::*;
use crate::text::dec_rep;

verus! {

/// The clear-screen control sequence.
pub open spec fn clear_all_seq() -> Seq<char> {
    "\u{1b}[2J"@
}

/// The control sequence that puts the cursor at column `x`, row `y`,
/// both one-based.
pub open spec fn goto_seq(x: u16, y: u16) -> Seq<char> {
    "\u{1b}["@ + dec_rep(y as int) + ";"@ + dec_rep(x as int) + "H"@
}

/// The control sequence that moves the cursor `n` rows down.
pub open spec fn down_seq(n: u16) -> Seq<char> {
    "\u{1b}["@ + dec_rep(n as int) + "B"@
}

/// The control sequence that moves the cursor `n` columns left.
pub open spec fn left_seq(n: u16) -> Seq<char> {
    "\u{1b}["@ + dec_rep(n as int) + "D"@
}

/// The hide-cursor control sequence.
pub open spec fn hide_cursor_seq() -> Seq<char> {
    "\u{1b}[?25l"@
}

/// The show-cursor control sequence.
pub open spec fn show_cursor_seq() -> Seq<char> {
    "\u{1b}[?25h"@
}

/// The bold-style control sequence.
pub open spec fn bold_seq() -> Seq<char> {
    "\u{1b}[1m"@
}

/// The reset-style control sequence.
pub open spec fn style_reset_seq() -> Seq<char> {
    "\u{1b}[m"@
}

/// The control sequence that sets the foreground to 256-color value `c`.
pub open spec fn fg_ansi_seq(c: u8) -> Seq<char> {
    "\u{1b}[38;5;"@ + dec_rep(c as int) + "m"@
}

/// The control sequence that resets the foreground color.
pub open spec fn fg_reset_seq() -> Seq<char> {
    "\u{1b}[39m"@
}

/// The control sequence that resets the background color.
pub open spec fn bg_reset_seq() -> Seq<char> {
    "\u{1b}[49m"@
}

/// The control sequence that returns to the terminal's main screen buffer.
pub open spec fn main_screen_seq() -> Seq<char> {
    "\u{1b}[?1049l"@
}

/// Relies on termion::clear::All, which displays as the clear-screen
/// sequence.
#[verifier::external_body]
pub fn term_clear_all() -> (r: String)
    ensures
        r@ == clear_all_seq(),
{
    format!("{}", termion::clear::All)
}

/// Relies on termion::cursor::Goto, which displays as the one-based
/// cursor-position sequence, row before column.
#[verifier::external_body]
pub fn term_goto(x: u16, y: u16) -> (r: String)
    requires
        x >= 1,
        y >= 1,
    ensures
        r@ == goto_seq(x, y),
{
    format!("{}", termion::cursor::Goto(x, y))
}

/// Relies on termion::cursor::Down, which displays as the cursor-down
/// sequence.
#[verifier::external_body]
pub fn term_down(n: u16) -> (r: String)
    ensures
        r@ == down_seq(n),
{
    format!("{}", termion::cursor::Down(n))
}

/// Relies on termion::cursor::Left, which displays as the cursor-left
/// sequence.
#[verifier::external_body]
pub fn term_left(n: u16) -> (r: String)
    ensures
        r@ == left_seq(n),
{
    format!("{}", termion::cursor::Left(n))
}

/// Relies on termion::cursor::Hide, which displays as the hide-cursor
/// sequence.
#[verifier::external_body]
pub fn term_hide_cursor() -> (r: String)
    ensures
        r@ == hide_cursor_seq(),
{
    format!("{}", termion::cursor::Hide)
}

/// Relies on termion::cursor::Show, which displays as the show-cursor
/// sequence.
#[verifier::external_body]
pub fn term_show_cursor() -> (r: String)
    ensures
        r@ == show_cursor_seq(),
{
    format!("{}", termion::cursor::Show)
}

/// Relies on termion::style::Bold, which displays as the bold-style
/// sequence.
#[verifier::external_body]
pub fn term_bold() -> (r: String)
    ensures
        r@ == bold_seq(),
{
    format!("{}", termion::style::Bold)
}

/// Relies on termion::style::Reset, which displays as the reset-style
/// sequence.
#[verifier::external_body]
pub fn term_style_reset() -> (r: String)
    ensures
        r@ == style_reset_seq(),
{
    format!("{}", termion::style::Reset)
}

/// Relies on termion::color::AnsiValue::fg_string, which builds the
/// 256-color foreground sequence from the color value alone.
#[verifier::external_body]
pub fn term_fg_ansi(c: u8) -> (r: String)
    ensures
        r@ == fg_ansi_seq(c),
{
    termion::color::AnsiValue(c).fg_string()
}

/// Relies on termion::color::Reset::fg_str, the reset-foreground sequence.
#[verifier::external_body]
pub fn term_fg_reset() -> (r: String)
    ensures
        r@ == fg_reset_seq(),
{
    termion::color::Reset.fg_str().to_owned()
}

/// Relies on termion::color::Reset::bg_str, the reset-background sequence.
#[verifier::external_body]
pub fn term_bg_reset() -> (r: String)
    ensures
        r@ == bg_reset_seq(),
{
    termion::color::Reset.bg_str().to_owned()
}

/// Relies on termion::screen::ToMainScreen, which displays as the sequence
/// that leaves the alternate screen buffer.
#[verifier::external_body]
pub fn term_to_main_screen() -> (r: String)
    ensures
        r@ == main_screen_seq(),
{
    format!("{}", termion::screen::ToMainScreen)
}

} // verus!
