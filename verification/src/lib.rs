//! A terminal puzzle game in the 2048 family: a square board of power-of-two
//! tiles that slide and merge under directional moves, with random tile
//! spawns, win/loss detection, and a renderer that turns the board into
//! positioned, colored terminal text.

pub mod error;
pub mod error_handling;
pub mod escapes;
pub mod game;
pub mod grid;
pub mod render;
pub mod rng;
pub mod slide;
pub mod text;
