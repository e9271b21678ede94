//! The two records that describe a board: how many cells it has, and how large
//! it is drawn.

use vstd::prelude::*;

verus! {

/// The size of the grid in cells: `board_size[0]` columns by `board_size[1]` rows.
#[derive(Debug, Clone, Copy)]
pub struct GameConfig {
    pub board_size: [usize; 2],
}

impl GameConfig {
    /// The number of columns.
    pub open spec fn cols(self) -> nat {
        self.board_size[0] as nat
    }

    /// The number of rows.
    pub open spec fn rows(self) -> nat {
        self.board_size[1] as nat
    }

    /// Whether `(x, y)` names a cell of the grid.
    pub open spec fn has_cell(self, x: int, y: int) -> bool {
        0 <= x < self.cols() && 0 <= y < self.rows()
    }

    /// The grid that a game starts with unless told otherwise: three by three.
    pub fn default() -> (r: GameConfig)
        ensures
            r.cols() == 3,
            r.rows() == 3,
    {
        GameConfig { board_size: [3, 3] }
    }
}

/// The size of the drawn board, in whole units of the drawing surface: its width,
/// its height, and the width of the line that separates neighbouring cells and
/// runs before the first cell of every row and column.
#[derive(Debug, Clone, Copy)]
pub struct BoardConfig {
    pub width: i32,
    pub height: i32,
    pub line_width: i32,
}

impl BoardConfig {
    /// The board as it is first shown: 640 by 480, with lines 10 wide.
    pub fn default() -> (r: BoardConfig)
        ensures
            r.width == 640,
            r.height == 480,
            r.line_width == 10,
    {
        BoardConfig { width: 640, height: 480, line_width: 10 }
    }
}

} // verus!
