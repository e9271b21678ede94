//! The layout of the board: where on the drawing surface each cell lies.
//!
//! Along each axis the lines take up one line's width more than there are
//! cells; what they leave of the board is divided evenly among the cells. A
//! line runs before the first cell and between each pair of neighbours.
//! Nothing is clamped: on a board too small for its lines the cells have a
//! negative extent.

use vstd::prelude::*;
use vstd::arithmetic::div_mod::lemma_fundamental_div_mod_converse;
use crate::config::{BoardConfig, GameConfig};
use crate::draw::{DrawOp, Paint};
use crate::geometry::{Rect, Region, RECT_LIMIT};
use crate::piece::Piece;

verus! {

/// A grid size together with the size at which the board is drawn.
#[derive(Debug, Clone, Copy)]
pub struct BoardView {
    pub game_config: GameConfig,
    pub board_config: BoardConfig,
}

impl BoardView {
    /// The number of columns.
    pub open spec fn cols(self) -> nat {
        self.game_config.cols()
    }

    /// The number of rows.
    pub open spec fn rows(self) -> nat {
        self.game_config.rows()
    }

    /// The width of the lines between cells.
    pub open spec fn line(self) -> int {
        self.board_config.line_width as int
    }

    /// The width of every cell: the board's width less one line more than
    /// there are columns, divided by the number of columns.
    pub open spec fn cell_width(self) -> real {
        (self.board_config.width - (self.cols() + 1) * self.line()) as real / self.cols() as real
    }

    /// The height of every cell: the board's height less one line more than
    /// there are rows, divided by the number of rows.
    pub open spec fn cell_height(self) -> real {
        (self.board_config.height - (self.rows() + 1) * self.line()) as real / self.rows() as real
    }

    /// The region of the cell in column `x` and row `y`: each cell lies one
    /// cell and one line further along than its predecessor, and the first
    /// lies one line from the edge.
    pub open spec fn region(self, x: int, y: int) -> Region {
        Region {
            x: x as real * (self.cell_width() + self.line() as real) + self.line() as real,
            y: y as real * (self.cell_height() + self.line() as real) + self.line() as real,
            width: self.cell_width(),
            height: self.cell_height(),
        }
    }

    /// The width of a cell, multiplied by the number of columns.
    pub open spec fn width_numerator(self) -> int {
        self.board_config.width - (self.cols() + 1) * self.line()
    }

    /// The height of a cell, multiplied by the number of rows.
    pub open spec fn height_numerator(self) -> int {
        self.board_config.height - (self.rows() + 1) * self.line()
    }

    /// The rectangle of the cell in column `x` and row `y` as it is stored:
    /// horizontal numerators over the number of columns, vertical ones over
    /// the number of rows.
    pub open spec fn rect(self, x: int, y: int) -> Rect {
        Rect {
            x: (x * (self.width_numerator() + self.line() * self.cols()) + self.line() * self.cols()) as i128,
            y: (y * (self.height_numerator() + self.line() * self.rows()) + self.line() * self.rows()) as i128,
            width: self.width_numerator() as i128,
            height: self.height_numerator() as i128,
            x_den: self.game_config.board_size[0],
            y_den: self.game_config.board_size[1],
        }
    }

    /// The rectangle of the whole board.
    pub open spec fn board(self) -> Rect {
        Rect {
            x: 0,
            y: 0,
            width: self.board_config.width as i128,
            height: self.board_config.height as i128,
            x_den: 1,
            y_den: 1,
        }
    }

    /// The `i`-th piece of the layout. Pieces are numbered row by row, and
    /// within a row by column.
    pub open spec fn piece(self, i: int) -> Piece {
        let x = i % (self.cols() as int);
        let y = i / (self.cols() as int);
        Piece { position: [x as usize, y as usize], rect: self.rect(x, y) }
    }

    /// The number under which the cell in column `x` and row `y` stands among
    /// the pieces.
    pub open spec fn index(self, x: int, y: int) -> int {
        y * self.cols() + x
    }

    /// The pieces of all cells, row by row.
    pub open spec fn pieces(self) -> Seq<Piece> {
        Seq::new(self.cols() * self.rows(), |i: int| self.piece(i))
    }

    /// The first pass of a frame: the surface is wiped, the board is filled,
    /// and then the slot of every cell, in the order of `pieces`.
    pub open spec fn frame(self) -> Seq<DrawOp> {
        seq![DrawOp::Clear, DrawOp::Fill { paint: Paint::Background, rect: self.board() }] + Seq::new(
            self.cols() * self.rows(),
            |i: int| DrawOp::Fill { paint: Paint::Slot, rect: self.piece(i).rect },
        )
    }

    /// A board of four columns and five rows, drawn at the default size.
    pub fn new() -> (r: BoardView)
        ensures
            r.cols() == 4,
            r.rows() == 5,
            r.board_config.width == 640,
            r.board_config.height == 480,
            r.board_config.line_width == 10,
    {
        BoardView { game_config: GameConfig { board_size: [4, 5] }, board_config: BoardConfig::default() }
    }

    /// Records a new size of the drawn board. The grid and the line width stay.
    pub fn set_size(&mut self, width: i32, height: i32)
        ensures
            final(self).game_config == old(self).game_config,
            final(self).board_config == (BoardConfig {
                width: width,
                height: height,
                line_width: old(self).board_config.line_width,
            }),
    {
        self.board_config.width = width;
        self.board_config.height = height;
    }

    /// The width of the drawn board.
    pub fn calc_width(&self) -> (r: i32)
        ensures
            r == self.board_config.width,
    {
        self.board_config.width
    }

    /// The height of the drawn board.
    pub fn calc_height(&self) -> (r: i32)
        ensures
            r == self.board_config.height,
    {
        self.board_config.height
    }

    /// The rectangle that the whole board covers: from the origin to the
    /// board's width and height.
    pub fn board_rect(&self) -> (r: Rect)
        ensures
            r == self.board(),
            r.wf(),
            r@ == (Region {
                x: 0real,
                y: 0real,
                width: self.board_config.width as real,
                height: self.board_config.height as real,
            }),
    {
        Rect::whole(0, 0, self.calc_width(), self.calc_height())
    }

    /// Computes the rectangle of the cell in column `x` and row `y`.
    ///
    /// The result is exact. Its horizontal numerators are over the number of
    /// columns and its vertical ones over the number of rows, so on a grid
    /// with cells it denotes `region(x, y)`.
    pub fn piece_rect(&self, x: usize, y: usize) -> (r: Rect)
        ensures
            r == self.rect(x as int, y as int),
            self.cols() > 0 && self.rows() > 0 ==> r.wf() && r@ == self.region(x as int, y as int),
    {
        let cols: i128 = self.game_config.board_size[0] as i128;
        let rows: i128 = self.game_config.board_size[1] as i128;
        let line: i128 = self.board_config.line_width as i128;
        proof {
            lemma_numerators_fit(self.board_config.width as int, line as int, cols as int, x as int);
            lemma_numerators_fit(self.board_config.height as int, line as int, rows as int, y as int);
            if cols > 0 && rows > 0 {
                self.lemma_rect(x as int, y as int);
            }
            lemma_product_fits(line as int, cols + 1);
            lemma_product_fits(line as int, rows + 1);
            lemma_product_fits(line as int, cols as int);
            lemma_product_fits(line as int, rows as int);
        }
        let piece_width: i128 = self.board_config.width as i128 - (cols + 1) * line;
        let piece_height: i128 = self.board_config.height as i128 - (rows + 1) * line;
        let step_x: i128 = piece_width + line * cols;
        let step_y: i128 = piece_height + line * rows;
        proof {
            assert(step_x == self.board_config.width - line) by (nonlinear_arith)
                requires
                    step_x == self.board_config.width - (cols + 1) * line + line * cols,
            ;
            assert(step_y == self.board_config.height - line) by (nonlinear_arith)
                requires
                    step_y == self.board_config.height - (rows + 1) * line + line * rows,
            ;
            lemma_product_fits(step_x as int, x as int);
            lemma_product_fits(step_y as int, y as int);
        }
        let piece_pos_x: i128 = x as i128 * step_x + line * cols;
        let piece_pos_y: i128 = y as i128 * step_y + line * rows;
        Rect {
            x: piece_pos_x,
            y: piece_pos_y,
            width: piece_width,
            height: piece_height,
            x_den: self.game_config.board_size[0],
            y_den: self.game_config.board_size[1],
        }
    }

    /// Computes the rectangles of all cells, row by row.
    pub fn create_board_rectangles(&self) -> (pieces: Vec<Piece>)
        ensures
            pieces@ == self.pieces(),
    {
        let cols = self.game_config.board_size[0];
        let rows = self.game_config.board_size[1];
        let mut pieces: Vec<Piece> = Vec::new();
        assert(0 * cols == 0) by (nonlinear_arith);
        for y in 0..rows
            invariant
                cols == self.cols(),
                rows == self.rows(),
                pieces@.len() == y * cols,
                forall|i: int| 0 <= i < pieces@.len() ==> pieces@[i] == self.piece(i),
        {
            for x in 0..cols
                invariant
                    cols == self.cols(),
                    y < rows,
                    pieces@.len() == y * cols + x,
                    forall|i: int| 0 <= i < pieces@.len() ==> pieces@[i] == self.piece(i),
            {
                let position = [x, y];
                let rect = self.piece_rect(x, y);
                proof {
                    lemma_fundamental_div_mod_converse(y * cols + x, cols as int, y as int, x as int);
                }
                pieces.push(Piece::new(position, rect));
            }
            assert((y + 1) * cols == y * cols + cols) by (nonlinear_arith);
        }
        assert(rows * cols == cols * rows) by (nonlinear_arith);
        assert(pieces@ =~= self.pieces());
        pieces
    }

    /// Lists the fills of the first pass of a frame: the surface wiped, the
    /// board, and then the slot of every cell, row by row.
    pub fn draw(&self) -> (ops: Vec<DrawOp>)
        ensures
            ops@ == self.frame(),
    {
        let cols = self.game_config.board_size[0];
        let rows = self.game_config.board_size[1];
        let mut ops: Vec<DrawOp> = Vec::new();
        ops.push(DrawOp::Clear);
        ops.push(DrawOp::Fill { paint: Paint::Background, rect: self.board_rect() });
        assert(0 * cols == 0) by (nonlinear_arith);
        for y in 0..rows
            invariant
                cols == self.cols(),
                rows == self.rows(),
                ops@.len() == 2 + y * cols,
                ops@[0] == DrawOp::Clear,
                ops@[1] == (DrawOp::Fill { paint: Paint::Background, rect: self.board() }),
                forall|i: int|
                    2 <= i < ops@.len() ==> ops@[i] == (DrawOp::Fill {
                        paint: Paint::Slot,
                        rect: self.piece(i - 2).rect,
                    }),
        {
            for x in 0..cols
                invariant
                    cols == self.cols(),
                    y < rows,
                    ops@.len() == 2 + y * cols + x,
                    ops@[0] == DrawOp::Clear,
                ops@[1] == (DrawOp::Fill { paint: Paint::Background, rect: self.board() }),
                forall|i: int|
                    2 <= i < ops@.len() ==> ops@[i] == (DrawOp::Fill {
                        paint: Paint::Slot,
                        rect: self.piece(i - 2).rect,
                    }),
            {
                let rect = self.piece_rect(x, y);
                proof {
                    lemma_fundamental_div_mod_converse(y * cols + x, cols as int, y as int, x as int);
                }
                ops.push(DrawOp::Fill { paint: Paint::Slot, rect: rect });
            }
            assert((y + 1) * cols == y * cols + cols) by (nonlinear_arith);
        }
        assert(rows * cols == cols * rows) by (nonlinear_arith);
        assert(ops@ =~= self.frame());
        ops
    }

    /// Every piece belongs to a cell of the grid, stands under that cell's
    /// index, and has a well-formed rectangle that denotes the cell's region.
    pub proof fn lemma_piece(self, i: int)
        requires
            0 <= i < self.cols() * self.rows(),
        ensures
            self.pieces()[i] == self.piece(i),
            self.game_config.has_cell(i % (self.cols() as int), i / (self.cols() as int)),
            self.index(i % (self.cols() as int), i / (self.cols() as int)) == i,
            self.piece(i).position[0] == i % (self.cols() as int),
            self.piece(i).position[1] == i / (self.cols() as int),
            self.piece(i).rect.wf(),
            self.piece(i).rect@ == self.region(i % (self.cols() as int), i / (self.cols() as int)),
    {
        lemma_cell_of_index(self.cols() as int, self.rows() as int, i);
        self.lemma_rect(i % (self.cols() as int), i / (self.cols() as int));
    }

    /// Every cell of the grid has a piece, which stands under the cell's index.
    pub proof fn lemma_index(self, x: int, y: int)
        requires
            self.game_config.has_cell(x, y),
        ensures
            0 <= self.index(x, y) < self.cols() * self.rows(),
            self.index(x, y) % (self.cols() as int) == x,
            self.index(x, y) / (self.cols() as int) == y,
            self.pieces()[self.index(x, y)].position[0] == x,
            self.pieces()[self.index(x, y)].position[1] == y,
            self.pieces()[self.index(x, y)].rect == self.rect(x, y),
    {
        lemma_index_of_cell(self.cols() as int, self.rows() as int, x, y);
        lemma_fundamental_div_mod_converse(self.index(x, y), self.cols() as int, y, x);
    }

    /// On a grid with cells, the stored rectangle of a cell is well formed and
    /// denotes exactly the cell's region.
    pub proof fn lemma_rect(self, x: int, y: int)
        requires
            0 <= x <= usize::MAX,
            0 <= y <= usize::MAX,
            self.cols() > 0,
            self.rows() > 0,
        ensures
            self.rect(x, y).wf(),
            self.rect(x, y)@ == self.region(x, y),
    {
        let w = self.board_config.width as int;
        let h = self.board_config.height as int;
        lemma_numerators_fit(w, self.line(), self.cols() as int, x);
        lemma_numerators_fit(h, self.line(), self.rows() as int, y);
        lemma_fractions_denote(w, self.line(), self.cols() as int, x);
        lemma_fractions_denote(h, self.line(), self.rows() as int, y);
    }
}

/// An index below `cols * rows` splits into a column below `cols` and a row
/// below `rows`.
proof fn lemma_cell_of_index(cols: int, rows: int, i: int)
    by (nonlinear_arith)
    requires
        0 <= cols,
        0 <= rows,
        0 <= i < cols * rows,
    ensures
        0 <= i % cols < cols,
        0 <= i / cols < rows,
        (i / cols) * cols + i % cols == i,
{
}

/// A column below `cols` and a row below `rows` make an index below
/// `cols * rows`.
proof fn lemma_index_of_cell(cols: int, rows: int, x: int, y: int)
    by (nonlinear_arith)
    requires
        0 <= x < cols,
        0 <= y < rows,
    ensures
        0 <= y * cols + x < cols * rows,
{
}

/// A product of a factor of at most 33 bits and one of at most 65 bits.
proof fn lemma_product_fits(a: int, b: int)
    by (nonlinear_arith)
    requires
        -0x2_0000_0000 <= a <= 0x2_0000_0000,
        0 <= b <= 0x1_0000_0000_0000_0000,
    ensures
        -0x2_0000_0000_0000_0000_0000_0000 <= a * b <= 0x2_0000_0000_0000_0000_0000_0000,
        -0x2_0000_0000_0000_0000_0000_0000 <= b * a <= 0x2_0000_0000_0000_0000_0000_0000,
{
}

/// Along one axis of extent `size`, with lines of width `line` and `count`
/// cells, the numerators of the cell at index `index` are within the limit.
proof fn lemma_numerators_fit(size: int, line: int, count: int, index: int)
    by (nonlinear_arith)
    requires
        -0x8000_0000 <= size < 0x8000_0000,
        -0x8000_0000 <= line < 0x8000_0000,
        0 <= count <= 0xffff_ffff_ffff_ffff,
        0 <= index <= 0xffff_ffff_ffff_ffff,
    ensures
        -RECT_LIMIT <= size - (count + 1) * line <= RECT_LIMIT,
        -RECT_LIMIT <= index * (size - (count + 1) * line + line * count) + line * count
            <= RECT_LIMIT,
{
    assert(size - (count + 1) * line + line * count == size - line);
    assert(-0x1_0000_0000_0000_0000_0000_0000 <= index * (size - line)
        <= 0x1_0000_0000_0000_0000_0000_0000);
    assert(-0x1_0000_0000_0000_0000_0000_0000 <= line * count <= 0x1_0000_0000_0000_0000_0000_0000);
}

/// Along one axis, the stored numerators over `count` are the cell's extent
/// and the cell's start as the layout rule gives them.
proof fn lemma_fractions_denote(size: int, line: int, count: int, index: int)
    by (nonlinear_arith)
    requires
        count > 0,
    ensures
        (index * (size - (count + 1) * line + line * count) + line * count) as real / count as real
            == index as real * ((size - (count + 1) * line) as real / count as real + line as real)
            + line as real,
{
}

} // verus!
