//! A session of the puzzle: the grid, the layout of the board, the rectangles
//! of the cells, and the place where the pointer was last seen.
//!
//! The host reports where the pointer moved and which button was pressed. A
//! press of the primary button counts as a click at the place where the
//! pointer was last seen, which may be stale: a press that no movement
//! preceded is a click at the origin. A click inside a cell's rectangle
//! advances that cell and every other cell of its column and row; a click
//! elsewhere does nothing.
//!
//! A session starts out running. After every press the grid is examined, and
//! the session is over as soon as the grid is found won. A session that is
//! over stays so and takes no further input.

use vstd::prelude::*;
use crate::affected::{affected_cells, affected_index, get_affected_cells, lemma_affected_cells};
use crate::board_view::BoardView;
use crate::config::{BoardConfig, GameConfig};
use crate::draw::{DrawOp, Paint};
use crate::grid::Grid;
use crate::piece::{first_hit, lemma_first_hit, lemma_first_hit_at, Piece};
use crate::state::State;

verus! {

/// Whether the session goes on.
#[derive(Debug, Clone, Copy, PartialEq, Eq, Structural)]
pub enum GameState {
    /// The puzzle is not solved; the host keeps reporting input.
    Running,
    /// The puzzle is solved; the session is over.
    Quit,
}

/// A button of the pointing device.
#[derive(Debug, Clone, Copy, PartialEq, Eq, Structural)]
pub enum Button {
    /// The button that clicks.
    Primary,
    /// Any other button.
    Other,
}

/// The grid after a click on the cell in column `cx` and row `cy`: every cell
/// of that column and of that row has advanced once, and no other.
pub open spec fn clicked(cells: Seq<Seq<State>>, cx: int, cy: int) -> Seq<Seq<State>> {
    Seq::new(
        cells.len(),
        |x: int|
            Seq::new(
                cells[x].len(),
                |y: int|
                    if x == cx || y == cy {
                        cells[x][y].next()
                    } else {
                        cells[x][y]
                    },
            ),
    )
}

/// The cell under the point `(px, py)`, as column and row: the cell of the
/// first piece of the layout whose rectangle has the point strictly inside.
pub open spec fn resolve(layout: BoardView, px: real, py: real) -> Option<(int, int)> {
    match first_hit(layout.pieces(), px, py) {
        Some(i) => Some((i % (layout.cols() as int), i / (layout.cols() as int))),
        None => None,
    }
}

/// The grid after a click at the point `position`: changed as by a click on
/// the cell under the point, or unchanged where no cell is under it.
pub open spec fn after_click(layout: BoardView, cells: Seq<Seq<State>>, position: [i32; 2]) -> Seq<
    Seq<State>,
> {
    match resolve(layout, position[0] as real, position[1] as real) {
        Some((cx, cy)) => clicked(cells, cx, cy),
        None => cells,
    }
}

/// On a board whose lines have no negative width, a point strictly inside the
/// region of a cell resolves to that cell and to no other: the regions of
/// different cells do not overlap.
pub proof fn lemma_point_in_cell_resolves(layout: BoardView, x: int, y: int, px: real, py: real)
    requires
        layout.game_config.has_cell(x, y),
        layout.line() >= 0,
        layout.region(x, y).contains(px, py),
    ensures
        first_hit(layout.pieces(), px, py) == Some(layout.index(x, y)),
        resolve(layout, px, py) == Some((x, y)),
{
    let pieces = layout.pieces();
    let i = layout.index(x, y);
    layout.lemma_index(x, y);
    layout.lemma_piece(i);
    assert forall|j: int| 0 <= j < i implies !(#[trigger] pieces[j]).rect@.contains(px, py) by {
        let u = j % (layout.cols() as int);
        let v = j / (layout.cols() as int);
        layout.lemma_piece(j);
        if u != x {
            lemma_cells_apart(x, u, layout.cell_width(), layout.line() as real, px);
        } else {
            lemma_cells_apart(y, v, layout.cell_height(), layout.line() as real, py);
        }
    }
    lemma_first_hit_at(pieces, px, py, i);
}

/// Probing a cell's region at its own middle resolves back to the cell, on
/// every board whose cells have a positive width and height and whose lines
/// have no negative width.
pub proof fn lemma_center_resolves(layout: BoardView, x: int, y: int)
    requires
        layout.game_config.has_cell(x, y),
        layout.line() >= 0,
        layout.cell_width() > 0real,
        layout.cell_height() > 0real,
    ensures
        resolve(layout, layout.region(x, y).center_x(), layout.region(x, y).center_y()) == Some(
            (x, y),
        ),
{
    let region = layout.region(x, y);
    lemma_middle_is_inside(region.x, region.width);
    lemma_middle_is_inside(region.y, region.height);
    lemma_point_in_cell_resolves(layout, x, y, region.center_x(), region.center_y());
}

/// The middle of a stretch of positive length lies strictly within it.
proof fn lemma_middle_is_inside(start: real, length: real)
    by (nonlinear_arith)
    requires
        length > 0real,
    ensures
        start < start + length / 2real < start + length,
{
}

/// Along one axis, with lines of no negative width, a point strictly within
/// the stretch of the cell at index `a` is not within that of the cell at any
/// other index `b`.
proof fn lemma_cells_apart(a: int, b: int, extent: real, line: real, p: real)
    by (nonlinear_arith)
    requires
        a != b,
        line >= 0real,
        a as real * (extent + line) + line < p < a as real * (extent + line) + line + extent,
    ensures
        !(b as real * (extent + line) + line < p < b as real * (extent + line) + line + extent),
{
}

/// One session of the puzzle.
#[derive(Debug)]
pub struct Game {
    board_view: BoardView,
    board: Grid,
    board_rectangles: Vec<Piece>,
    cursor: [i32; 2],
    game_state: GameState,
}

impl Game {
    /// The layout of the board.
    pub closed spec fn spec_board_view(&self) -> BoardView {
        self.board_view
    }

    /// The grid of cells.
    pub closed spec fn spec_board(&self) -> &Grid {
        &self.board
    }

    /// The rectangles of the cells, as last computed.
    pub closed spec fn spec_board_rectangles(&self) -> &Vec<Piece> {
        &self.board_rectangles
    }

    /// The place where the pointer was last seen.
    pub closed spec fn spec_cursor(&self) -> [i32; 2] {
        self.cursor
    }

    /// Whether the session goes on.
    pub closed spec fn spec_game_state(&self) -> GameState {
        self.game_state
    }

    /// The layout of the board.
    #[verifier::when_used_as_spec(spec_board_view)]
    pub fn board_view(&self) -> (r: BoardView)
        ensures
            r == self.board_view(),
    {
        self.board_view
    }

    /// The grid of cells.
    #[verifier::when_used_as_spec(spec_board)]
    pub fn board(&self) -> (r: &Grid)
        ensures
            r == self.board(),
    {
        &self.board
    }

    /// The rectangles of the cells, as last computed.
    #[verifier::when_used_as_spec(spec_board_rectangles)]
    pub fn board_rectangles(&self) -> (r: &Vec<Piece>)
        ensures
            r == self.board_rectangles(),
    {
        &self.board_rectangles
    }

    /// The place where the pointer was last seen.
    #[verifier::when_used_as_spec(spec_cursor)]
    pub fn cursor(&self) -> (r: [i32; 2])
        ensures
            r == self.cursor(),
    {
        self.cursor
    }

    /// Whether the session goes on.
    #[verifier::when_used_as_spec(spec_game_state)]
    pub fn game_state(&self) -> (r: GameState)
        ensures
            r == self.game_state(),
    {
        self.game_state
    }

    /// The grid is well formed and as large as the layout says, and the
    /// rectangles are those of the layout.
    pub open spec fn wf(&self) -> bool {
        &&& self.board().wf()
        &&& self.board().cols() == self.board_view().cols()
        &&& self.board().rows() == self.board_view().rows()
        &&& self.board_rectangles()@ == self.board_view().pieces()
    }

    /// A frame: the first pass of the layout, which leaves every slot filled,
    /// and then every cell filled in the colour of its state, in the order of
    /// the pieces.
    pub open spec fn frame(&self) -> Seq<DrawOp> {
        self.board_view().frame() + Seq::new(
            self.board_rectangles()@.len(),
            |i: int|
                DrawOp::Fill {
                    paint: Paint::Cell(
                        self.board().cell(
                            self.board_rectangles()@[i].position[0] as int,
                            self.board_rectangles()@[i].position[1] as int,
                        ),
                    ),
                    rect: self.board_rectangles()@[i].rect,
                },
        )
    }

    /// A session on the default grid of three by three, drawn at the default
    /// size. Every cell is red but the one in column 0 and row 1, which is
    /// green. The pointer is at the origin.
    pub fn new() -> (game: Game)
        ensures
            game.wf(),
            game.board_view().cols() == 3,
            game.board_view().rows() == 3,
            game.board_view().board_config.width == 640,
            game.board_view().board_config.height == 480,
            game.board_view().board_config.line_width == 10,
            game.cursor()@ == seq![0i32, 0i32],
            game.game_state() == GameState::Running,
            forall|x: int, y: int|
                game.board().has_cell(x, y) ==> game.board().cell(x, y) == if x == 0 && y == 1 {
                    State::Green
                } else {
                    State::Red
                },
    {
        let game_config = GameConfig::default();
        assert(game_config.cols() * game_config.rows() == 9);
        let mut board = Grid::new(game_config.board_size[0], game_config.board_size[1], State::Red);
        let ghost blank = board;
        board.set(0, 1, State::Green);
        assert forall|x: int, y: int| board.has_cell(x, y) implies board.cell(x, y) == if x == 0 && y
            == 1 {
            State::Green
        } else {
            State::Red
        } by {
            assert(blank.has_cell(x, y));
        }
        Game::with_board(board, BoardConfig::default())
    }

    /// A session on the given grid, drawn at the given size. The pointer is at
    /// the origin, and the session is running, whatever the grid holds.
    pub fn with_board(board: Grid, board_config: BoardConfig) -> (game: Game)
        requires
            board.wf(),
        ensures
            game.wf(),
            game.board() == board,
            game.board_view().board_config == board_config,
            game.cursor()@ == seq![0i32, 0i32],
            game.game_state() == GameState::Running,
    {
        let board_view = BoardView {
            game_config: GameConfig { board_size: board.dimensions() },
            board_config: board_config,
        };
        let board_rectangles = board_view.create_board_rectangles();
        Game {
            board_view: board_view,
            board: board,
            board_rectangles: board_rectangles,
            cursor: [0, 0],
            game_state: GameState::Running,
        }
    }

    /// Takes note of a new size of the drawn board and computes the rectangle
    /// of every cell anew.
    pub fn set_size(&mut self, width: i32, height: i32)
        requires
            old(self).wf(),
        ensures
            final(self).wf(),
            final(self).board_view().game_config == old(self).board_view().game_config,
            final(self).board_view().board_config == (BoardConfig {
                width: width,
                height: height,
                line_width: old(self).board_view().board_config.line_width,
            }),
            final(self).board() == old(self).board(),
            final(self).cursor() == old(self).cursor(),
            final(self).game_state() == old(self).game_state(),
    {
        self.board_view.set_size(width, height);
        self.board_rectangles = self.board_view.create_board_rectangles();
    }

    /// Tells whether the puzzle is solved.
    pub fn is_won(&self) -> (won: bool)
        requires
            self.wf(),
        ensures
            won == self.board().won(),
    {
        self.board.is_won()
    }

    /// The state of the cell at `position`, given as column and row.
    pub fn state(&self, position: [usize; 2]) -> (state: &State)
        requires
            self.wf(),
            self.board().has_cell(position[0] as int, position[1] as int),
        ensures
            *state == self.board().cell(position[0] as int, position[1] as int),
    {
        let (x, y) = (position[0], position[1]);
        self.board.get(x, y)
    }

    /// Advances the cell at `position`, given as column and row.
    pub fn set_state(&mut self, position: [usize; 2])
        requires
            old(self).wf(),
            old(self).board().has_cell(position[0] as int, position[1] as int),
        ensures
            final(self).wf(),
            final(self).board_view() == old(self).board_view(),
            final(self).cursor() == old(self).cursor(),
            final(self).game_state() == old(self).game_state(),
            final(self).board()@ == old(self).board()@.update(
                position[0] as int,
                old(self).board()@[position[0] as int].update(
                    position[1] as int,
                    old(self).board().cell(position[0] as int, position[1] as int).next(),
                ),
            ),
    {
        let (x, y) = (position[0], position[1]);
        self.board.advance(x, y);
    }

    /// Finds the first piece whose rectangle has `position` strictly inside.
    pub fn find_rect_at_position(&self, position: [i32; 2]) -> (found: Option<&Piece>)
        requires
            self.wf(),
        ensures
            match first_hit(self.board_rectangles()@, position[0] as real, position[1] as real) {
                Some(i) => found == Some(&self.board_rectangles()@[i]),
                None => found.is_none(),
            },
    {
        let ghost pieces = self.board_rectangles()@;
        let ghost px = position[0] as real;
        let ghost py = position[1] as real;
        assert(pieces.take(0) =~= Seq::<Piece>::empty());
        for i in 0..self.board_rectangles.len()
            invariant
                self.wf(),
                pieces == self.board_rectangles()@,
                px == position[0] as real,
                py == position[1] as real,
                first_hit(pieces.take(i as int), px, py).is_none(),
        {
            let piece = &self.board_rectangles[i];
            proof {
                self.board_view().lemma_piece(i as int);
                assert(pieces.take(i + 1).drop_last() =~= pieces.take(i as int));
            }
            if piece.rect.contains(position[0], position[1]) {
                proof {
                    lemma_first_hit(pieces, px, py);
                    lemma_first_hit(pieces.take(i as int), px, py);
                    let found = first_hit(pieces, px, py).unwrap();
                    if found < i {
                        assert(pieces.take(i as int)[found] == pieces[found]);
                    }
                }
                return Some(piece);
            }
        }
        assert(pieces.take(pieces.len() as int) =~= pieces);
        None
    }

    /// Handles a click at `position`: where a cell is under the point, that
    /// cell and every other cell of its column and row advance.
    pub fn handle_click(&mut self, position: [i32; 2])
        requires
            old(self).wf(),
        ensures
            final(self).wf(),
            final(self).board_view() == old(self).board_view(),
            final(self).cursor() == old(self).cursor(),
            final(self).game_state() == old(self).game_state(),
            final(self).board()@ == after_click(old(self).board_view(), old(self).board()@, position),
    {
        let clicked_cell = match self.find_rect_at_position(position) {
            Some(piece) => Some(piece.position),
            None => None,
        };
        if let Some(cell) = clicked_cell {
            let game_config = self.board_view.game_config;
            let ghost before = self.board();
            proof {
                let px = position[0] as real;
                let py = position[1] as real;
                lemma_first_hit(self.board_rectangles()@, px, py);
                self.board_view().lemma_piece(first_hit(self.board_rectangles()@, px, py).unwrap());
                lemma_affected_cells(game_config, cell);
            }
            let cells = get_affected_cells(game_config, cell);
            for k in 0..cells.len()
                invariant
                    self.wf(),
                    before.wf(),
                    self.board_view() == old(self).board_view(),
                    self.cursor() == old(self).cursor(),
                    self.game_state() == old(self).game_state(),
                    game_config == self.board_view().game_config,
                    game_config.has_cell(cell[0] as int, cell[1] as int),
                    cells@ == affected_cells(game_config, cell),
                    self.board().cols() == before.cols(),
                    self.board().rows() == before.rows(),
                    forall|x: int, y: int|
                        before.has_cell(x, y) ==> self.board().cell(x, y) == if (x == cell[0] || y
                            == cell[1]) && affected_index(game_config, cell, x, y) < k {
                            before.cell(x, y).next()
                        } else {
                            before.cell(x, y)
                        },
            {
                proof {
                    lemma_affected_cells(game_config, cell);
                }
                let ghost previous = self.board();
                self.set_state(cells[k]);
                assert forall|x: int, y: int| before.has_cell(x, y) implies self.board().cell(x, y)
                    == if (x == cell[0] || y == cell[1]) && affected_index(game_config, cell, x, y) < k
                    + 1 {
                    before.cell(x, y).next()
                } else {
                    before.cell(x, y)
                } by {
                    assert(previous.cell(x, y) == if (x == cell[0] || y == cell[1]) && affected_index(
                        game_config,
                        cell,
                        x,
                        y,
                    ) < k {
                        before.cell(x, y).next()
                    } else {
                        before.cell(x, y)
                    });
                    assert(previous@[x].len() == previous.rows());
                }
            }
            proof {
                lemma_affected_cells(game_config, cell);
                assert(self.board()@ =~= clicked(before@, cell[0] as int, cell[1] as int)) by {
                    assert forall|x: int| 0 <= x < before@.len() implies #[trigger] self.board()@[x]
                        =~= clicked(before@, cell[0] as int, cell[1] as int)[x] by {
                        assert(before@[x].len() == before.rows());
                        assert(self.board()@[x].len() == self.board().rows());
                        assert forall|y: int| 0 <= y < before.rows() implies self.board()@[x][y]
                            == clicked(before@, cell[0] as int, cell[1] as int)[x][y] by {
                            assert(before.has_cell(x, y));
                        }
                    }
                }
            }
        }
    }

    /// Handles one report of the host and tells whether the session goes on.
    /// `cursor` is the pointer's new place, where the report tells of a
    /// movement; `press` is the button pressed, where it tells of a press.
    ///
    /// A session that is over ignores the report. In a running session the
    /// pointer's place is recorded first; a press of the primary button then
    /// clicks at the recorded place; and after a press of any button the
    /// session is over if the grid, as it then stands, is won.
    pub fn handle_event(&mut self, cursor: Option<[i32; 2]>, press: Option<Button>) -> (state:
        GameState)
        requires
            old(self).wf(),
        ensures
            final(self).wf(),
            final(self).board_view() == old(self).board_view(),
            state == final(self).game_state(),
            old(self).game_state() == GameState::Quit ==> {
                &&& final(self).game_state() == GameState::Quit
                &&& final(self).cursor() == old(self).cursor()
                &&& final(self).board()@ == old(self).board()@
            },
            old(self).game_state() == GameState::Running ==> {
                &&& final(self).cursor() == match cursor {
                    Some(position) => position,
                    None => old(self).cursor(),
                }
                &&& final(self).board()@ == if press == Some(Button::Primary) {
                    after_click(old(self).board_view(), old(self).board()@, final(self).cursor())
                } else {
                    old(self).board()@
                }
                &&& final(self).game_state() == if press.is_some() && final(self).board().won() {
                    GameState::Quit
                } else {
                    GameState::Running
                }
            },
    {
        if let GameState::Quit = self.game_state {
            return GameState::Quit;
        }
        if let Some(position) = cursor {
            self.cursor = position;
        }
        if let Some(button) = press {
            if let Button::Primary = button {
                let position = self.cursor;
                self.handle_click(position);
            }
            if self.is_won() {
                self.game_state = GameState::Quit;
            }
        }
        self.game_state
    }

    /// Lists the fills of a frame: the surface wiped, the board, the slot of
    /// every cell, and then every cell in the colour of its state. The slots
    /// come before the cells so that the board shows through between them.
    pub fn draw(&self) -> (ops: Vec<DrawOp>)
        requires
            self.wf(),
        ensures
            ops@ == self.frame(),
    {
        let mut ops: Vec<DrawOp> = Vec::new();
        ops.push(DrawOp::Clear);
        ops.push(DrawOp::Fill { paint: Paint::Background, rect: self.board_view.board_rect() });
        let count = self.board_rectangles.len();
        for i in 0..count
            invariant
                self.wf(),
                count == self.board_rectangles()@.len(),
                ops@.len() == 2 + i,
                forall|j: int| 0 <= j < ops@.len() ==> ops@[j] == self.frame()[j],
        {
            let piece = &self.board_rectangles[i];
            ops.push(DrawOp::Fill { paint: Paint::Slot, rect: piece.rect });
        }
        for i in 0..count
            invariant
                self.wf(),
                count == self.board_rectangles()@.len(),
                ops@.len() == 2 + count + i,
                forall|j: int| 0 <= j < ops@.len() ==> ops@[j] == self.frame()[j],
        {
            let piece = &self.board_rectangles[i];
            proof {
                self.board_view().lemma_piece(i as int);
            }
            let state = *self.state(piece.position);
            ops.push(DrawOp::Fill { paint: Paint::Cell(state), rect: piece.rect });
        }
        assert(ops@ =~= self.frame());
        ops
    }
}

} // verus!
