//! A 9x9 Sudoku board model: cell values, coordinates, 3x3 sub-boxes, the
//! candidate-value computation for a cell, and the board's text formats.
pub mod board;
pub mod grid_text;
pub mod index;
pub mod menu;
pub mod text;
pub mod value;

pub use board::Board;
pub use grid_text::BoardError;
pub use index::{Index, IndexError, SubBox};
pub use menu::{InvalidCommand, MenuOption};
pub use text::NumberError;
pub use value::{Value, ValueError};
