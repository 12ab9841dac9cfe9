//! Theseus and the Minotaur: a deterministic, turn-based pursuit game on a
//! grid of characters.
//!
//! Theseus, moved by the player, has to reach the goal tile; the Minotaur
//! chases him with a fixed greedy rule. A board is given as text, one line a
//! row and one character a tile.
//!
//! Every executable function carries a contract over the mathematical model
//! in [`model`], [`board`] and [`text`]. The contracts are proved, with one
//! exception: that `String::push` appends a character is taken from the
//! standard library's documentation.
//!
//! Rows may differ in length, and a grid keeps them as they are. A place
//! beyond the end of a short row has no cell: neither piece can step there,
//! and the cell predicates of [`Game`] may be asked only of a place that
//! [`Game::has_cell`] confirms.
pub mod board;
pub mod command;
pub mod error;
pub mod game;
pub mod model;
pub mod text;

pub use board::process_char;
pub use command::{decode, input, Command};
pub use error::BoardError;
pub use game::{Game, GameStatus, Grid};
