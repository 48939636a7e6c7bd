//! The failure classification shared with the surrounding event loop, and
//! the result alias it works with.

use vstd::prelude::*;
use crate::error::io_error_text;

verus! {

pub type Result<T> = core::result::Result<T, Error>;

/// A failure of the event loop: the terminal cannot fit the board, or an
/// input or output operation failed.
#[derive(Debug)]
pub enum Error {
    /// The terminal is too small for the board.
    TerminalSize,
    /// An input or output failure, with its original cause.
    Io(std::io::Error),
}

impl Error {
    /// A one-line description of the failure.
    pub fn message(&self) -> (r: String)
        ensures
            self is TerminalSize ==> r@ == "terminal size isn't fit for the game"@,
    {
        match self {
            Error::TerminalSize => "terminal size isn't fit for the game".to_owned(),
            Error::Io(err) => io_error_text(err),
        }
    }
}

impl From<std::io::Error> for Error {
    fn from(err: std::io::Error) -> (r: Error) {
        Error::Io(err)
    }
}

impl vstd::std_specs::convert::FromSpecImpl<std::io::Error> for Error {
    open spec fn obeys_from_spec() -> bool {
        true
    }

    open spec fn from_spec(err: std::io::Error) -> Error {
        Error::Io(err)
    }
}

} // verus!
