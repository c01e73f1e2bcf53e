//! Connect Four: a 7 by 6 board, two players who drop pieces in turn, and
//! detection of four in a row.
pub mod game;
pub mod model;

pub use game::Connect4;
pub use model::{Direction, Error, Piece, Tile, Winner, COLS, ROWS};
