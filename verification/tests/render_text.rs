//! Tests of the renderer, the control sequences, the decimal text, and the
//! error model, held against the real terminal crate.

use dois_mil::error::GameError;
use dois_mil::error_handling::Error;
use dois_mil::game::Game;
use dois_mil::render::restore_sequence;
use dois_mil::text::{dec_len, u32_to_dec};
use termion::{clear, color, cursor, screen, style};

fn cell_text(v: u32) -> String {
    let code: u8 = match v {
        0 => 247,
        2 => 202,
        4 => 214,
        8 => 226,
        16 => 40,
        32 => 47,
        64 => 14,
        128 => 33,
        256 => 141,
        512 => 213,
        1024 => 201,
        _ => 196,
    };
    format!(
        "{}{}{:>6}{}",
        style::Bold,
        color::AnsiValue(code).fg_string(),
        v,
        style::Reset
    )
}

#[test]
fn padding_boundary_matches_the_formula() {
    let game = Game::new(4);
    assert_eq!(game.get_padding(29, 5), Some((0, 0)));
    assert_eq!(game.get_padding(28, 5), None);
    assert_eq!(game.get_padding(29, 4), None);
    assert_eq!(game.get_padding(80, 24), Some((26, 10)));
}

#[test]
fn padding_centers_small_boards() {
    let game = Game::from_grid(2, vec![2, 4, 8, 0]).unwrap();
    assert_eq!(game.get_padding(15, 3), Some((0, 0)));
    assert_eq!(game.get_padding(14, 3), None);
    assert_eq!(game.get_padding(20, 10), Some((3, 4)));
}

#[test]
fn frame_matches_the_terminal_sequences() {
    let game = Game::from_grid(2, vec![2, 4, 0, 8]).unwrap();
    let frame = game.write_to(20, 10).unwrap();
    let mut expected = String::new();
    expected.push_str(&format!("{}", clear::All));
    expected.push_str(&format!("{}", cursor::Goto(4, 5)));
    expected.push_str(&cell_text(2));
    expected.push_str(&cell_text(4));
    expected.push_str(&format!("{}", cursor::Goto(4, 6)));
    expected.push_str(&cell_text(0));
    expected.push_str(&cell_text(8));
    expected.push_str(&format!("{}", cursor::Down(1)));
    expected.push_str(&format!("{}", cursor::Left(8)));
    expected.push_str("Score: 0");
    expected.push_str(&format!("{}", cursor::Down(1)));
    expected.push_str(&format!("{}", cursor::Down(2)));
    expected.push_str(&format!("{}", cursor::Left(6)));
    expected.push_str("[q]uit");
    expected.push_str(&format!("{}", cursor::Hide));
    assert_eq!(frame, expected);
}

#[test]
fn winning_frame_carries_the_win_banner() {
    let game = Game::from_grid(2, vec![2048, 4, 0, 8]).unwrap();
    let frame = game.write_to(40, 20).unwrap();
    let banner = format!(
        "{}{}YOU WON{}",
        cursor::Left(7),
        style::Bold,
        style::Reset
    );
    assert!(frame.contains(&banner));
    assert!(!frame.contains("YOU LOST"));
}

#[test]
fn lost_frame_carries_the_loss_banner() {
    let game = Game::from_grid(2, vec![2, 4, 8, 16]).unwrap();
    let frame = game.write_to(40, 20).unwrap();
    let banner = format!(
        "{}{}YOU LOST{}",
        cursor::Left(8),
        style::Bold,
        style::Reset
    );
    assert!(frame.contains(&banner));
    assert!(!frame.contains("YOU WON"));
}

#[test]
fn too_small_terminal_is_a_size_error() {
    let game = Game::new(4);
    let r = game.write_to(28, 5);
    assert!(matches!(r, Err(GameError::TerminalSize)));
    let r = game.write_to(29, 4);
    assert!(matches!(r, Err(GameError::TerminalSize)));
}

#[test]
fn restore_sequence_matches_the_terminal_sequences() {
    let expected = format!(
        "{}{}{}{}{}",
        style::Reset,
        color::Bg(color::Reset),
        color::Fg(color::Reset),
        cursor::Show,
        screen::ToMainScreen
    );
    assert_eq!(restore_sequence(), expected);
}

#[test]
fn decimal_text_is_standard() {
    assert_eq!(u32_to_dec(0), "0");
    assert_eq!(u32_to_dec(7), "7");
    assert_eq!(u32_to_dec(2048), "2048");
    assert_eq!(u32_to_dec(4294967295), "4294967295");
    assert_eq!(u32_to_dec(1000000), format!("{}", 1000000));
}

#[test]
fn decimal_length_counts_digits() {
    assert_eq!(dec_len(0), 1);
    assert_eq!(dec_len(9), 1);
    assert_eq!(dec_len(10), 2);
    assert_eq!(dec_len(99), 2);
    assert_eq!(dec_len(100), 3);
    assert_eq!(dec_len(4294967295), 10);
}

#[test]
fn io_errors_convert_and_describe_themselves() {
    let io = std::io::Error::new(std::io::ErrorKind::Other, "sink closed");
    let e = GameError::from(io);
    assert!(matches!(e, GameError::Io(_)));
    assert_eq!(e.message(), "sink closed");
    let io = std::io::Error::new(std::io::ErrorKind::Other, "stream ended");
    let e = Error::from(io);
    assert!(matches!(e, Error::Io(_)));
    assert_eq!(e.message(), "stream ended");
    assert_eq!(
        GameError::TerminalSize.message(),
        "terminal size isn't fit for the game"
    );
    assert_eq!(
        Error::TerminalSize.message(),
        "terminal size isn't fit for the game"
    );
}
