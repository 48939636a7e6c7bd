//! The two-kind failure classification of the game's terminal layer.

use vstd::prelude::*;

verus! {

/// The std I/O error type, opaque to the verifier.
#[verifier::external_type_specification]
#[verifier::external_body]
pub struct ExIoError(std::io::Error);

/// A failure while rendering the game or driving the terminal.
#[derive(Debug)]
pub enum GameError {
    /// The terminal is too small for the board.
    TerminalSize,
    /// An input or output failure, with its original cause.
    Io(std::io::Error),
}

impl GameError {
    /// A one-line description of the failure.
    pub fn message(&self) -> (r: String)
        ensures
            self is TerminalSize ==> r@ == "terminal size isn't fit for the game"@,
    {
        match self {
            GameError::TerminalSize => "terminal size isn't fit for the game".to_owned(),
            GameError::Io(err) => io_error_text(err),
        }
    }
}

/// Relies on std::io::Error's Display implementation for a description of
/// the failure.
#[verifier::external_body]
pub(crate) fn io_error_text(err: &std::io::Error) -> (r: String) {
    format!("{}", err)
}

impl From<std::io::Error> for GameError {
    fn from(err: std::io::Error) -> (r: GameError) {
        GameError::Io(err)
    }
}

impl vstd::std_specs::convert::FromSpecImpl<std::io::Error> for GameError {
    open spec fn obeys_from_spec() -> bool {
        true
    }

    open spec fn from_spec(err: std::io::Error) -> GameError {
        GameError::Io(err)
    }
}

} // verus!
