//! A puzzle in the manner of "Lights Out": a grid of cells, each in one of three
//! states, in which a click advances the clicked cell and every cell of its row
//! and column. The puzzle is solved when all cells show the same state.

pub mod affected;
pub mod board_view;
pub mod config;
pub mod draw;
pub mod game;
pub mod geometry;
pub mod grid;
pub mod piece;
pub mod state;

pub use affected::get_affected_cells;
pub use board_view::BoardView;
pub use config::{BoardConfig, GameConfig};
pub use draw::{DrawOp, Paint};
pub use game::{Button, Game, GameState};
pub use grid::Grid;
pub use geometry::{Rect, Region};
pub use piece::Piece;
pub use state::State;
