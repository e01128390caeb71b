//! Rule engine of a Minesweeper board: mine field generation, cell visibility
//! and the resolution of player actions into game outcomes.
//!
//! [`Game`] is the game that is played; [`model::GameView`] is the same game
//! as a mathematical value, over which the contracts are stated, and
//! [`laws`] holds what is proved of every game.

pub mod cell;
pub mod count;
pub mod flood;
pub mod game;
pub mod generate;
pub mod grid;
pub mod laws;
pub mod laying;
pub mod model;
pub mod text;

pub use cell::{Cell, Face, Item};
pub use flood::fill_area;
pub use game::{update, Game, Message};
pub use model::{GameError, GameState};
