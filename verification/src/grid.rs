//! The grid of cells, and the test for a solved puzzle.
//!
//! The puzzle is solved when one state occupies every cell. The grid decides
//! this by counting: for each state it counts the cells in that state and
//! compares the count with the number of cells.

use vstd::prelude::*;
use crate::state::{lemma_every_state_listed, State};

verus! {

/// A rectangular grid of cells, each in one state. Cells are addressed by
/// column and row; every cell of the rectangle exists.
#[derive(Debug)]
pub struct Grid {
    cells: Vec<Vec<State>>,
    rows: usize,
}

impl View for Grid {
    type V = Seq<Seq<State>>;

    /// The columns of the grid, each the states of its cells from row 0 on.
    closed spec fn view(&self) -> Seq<Seq<State>> {
        Seq::new(self.cells@.len(), |x: int| self.cells@[x]@)
    }
}

/// The number of entries of `column` that are `state`.
pub open spec fn occurrences_in(column: Seq<State>, state: State) -> nat
    decreases column.len(),
{
    if column.len() == 0 {
        0
    } else {
        occurrences_in(column.drop_last(), state) + if column.last() == state {
            1nat
        } else {
            0nat
        }
    }
}

/// The number of cells in all of `columns` that are `state`.
pub open spec fn occurrences(columns: Seq<Seq<State>>, state: State) -> nat
    decreases columns.len(),
{
    if columns.len() == 0 {
        0
    } else {
        occurrences(columns.drop_last(), state) + occurrences_in(columns.last(), state)
    }
}

impl Grid {
    /// The number of columns.
    pub open spec fn cols(&self) -> nat {
        self@.len()
    }

    /// The number of rows.
    pub closed spec fn rows(&self) -> nat {
        self.rows as nat
    }

    /// The number of cells.
    pub open spec fn size(&self) -> nat {
        self.cols() * self.rows()
    }

    /// Every column has as many cells as the grid has rows, and the number of
    /// cells can be counted in a `usize`.
    pub open spec fn wf(&self) -> bool {
        &&& forall|x: int| 0 <= x < self.cols() ==> (#[trigger] self@[x]).len() == self.rows()
        &&& self.cols() * self.rows() <= usize::MAX
    }

    /// Whether `(x, y)` names a cell of the grid.
    pub open spec fn has_cell(&self, x: int, y: int) -> bool {
        0 <= x < self.cols() && 0 <= y < self.rows()
    }

    /// The state of the cell in column `x` and row `y`.
    pub open spec fn cell(&self, x: int, y: int) -> State {
        self@[x][y]
    }

    /// Whether some state occupies as many cells as the grid has.
    pub open spec fn won(&self) -> bool {
        exists|state: State| occurrences(self@, state) == self.size()
    }

    /// Whether every cell is in state `state`.
    pub open spec fn all_cells_are(&self, state: State) -> bool {
        forall|x: int, y: int| self.has_cell(x, y) ==> self.cell(x, y) == state
    }

    /// A grid of `cols` columns and `rows` rows with every cell in `state`.
    pub fn new(cols: usize, rows: usize, state: State) -> (grid: Grid)
        requires
            cols * rows <= usize::MAX,
        ensures
            grid.wf(),
            grid.cols() == cols,
            grid.rows() == rows,
            grid.all_cells_are(state),
    {
        let cells = vec![vec![state; rows]; cols];
        let grid = Grid { cells: cells, rows: rows };
        assert(forall|x: int| 0 <= x < grid.cols() ==> (#[trigger] grid@[x]).len() == rows);
        grid
    }

    /// The numbers of columns and of rows, in this order.
    pub fn dimensions(&self) -> (r: [usize; 2])
        ensures
            r[0] == self.cols(),
            r[1] == self.rows(),
    {
        [self.cells.len(), self.rows]
    }

    /// The state of the cell in column `x` and row `y`.
    pub fn get(&self, x: usize, y: usize) -> (state: &State)
        requires
            self.wf(),
            self.has_cell(x as int, y as int),
        ensures
            *state == self.cell(x as int, y as int),
    {
        assert(self@[x as int].len() == self.rows());
        &self.cells[x][y]
    }

    /// Puts the cell in column `x` and row `y` into `state`. No other cell
    /// changes.
    pub fn set(&mut self, x: usize, y: usize, state: State)
        requires
            old(self).wf(),
            old(self).has_cell(x as int, y as int),
        ensures
            final(self).wf(),
            final(self).cols() == old(self).cols(),
            final(self).rows() == old(self).rows(),
            final(self)@ == old(self)@.update(x as int, old(self)@[x as int].update(y as int, state)),
    {
        assert(self@[x as int].len() == self.rows());
        self.cells[x][y] = state;
        assert(self@ =~= old(self)@.update(x as int, old(self)@[x as int].update(y as int, state)));
        assert forall|i: int| 0 <= i < self.cols() implies (#[trigger] self@[i]).len()
            == self.rows() by {
            assert(old(self)@[i].len() == old(self).rows());
        }
    }

    /// Advances the cell in column `x` and row `y` to its next state. No other
    /// cell changes.
    pub fn advance(&mut self, x: usize, y: usize)
        requires
            old(self).wf(),
            old(self).has_cell(x as int, y as int),
        ensures
            final(self).wf(),
            final(self).cols() == old(self).cols(),
            final(self).rows() == old(self).rows(),
            final(self)@ == old(self)@.update(
                x as int,
                old(self)@[x as int].update(y as int, old(self).cell(x as int, y as int).next()),
            ),
    {
        let next = self.get(x, y).next();
        self.set(x, y, next);
    }

    /// Counts the cells that are in `state`.
    pub fn count(&self, state: State) -> (n: usize)
        requires
            self.wf(),
        ensures
            n == occurrences(self@, state),
    {
        let ghost columns = self@;
        let mut n: usize = 0;
        assert(columns.take(0) =~= Seq::<Seq<State>>::empty());
        for x in 0..self.cells.len()
            invariant
                self.wf(),
                columns == self@,
                self.cells@.len() == columns.len(),
                n == occurrences(columns.take(x as int), state),
        {
            let column = &self.cells[x];
            assert(column@ == columns[x as int]);
            assert(columns[x as int].len() == self.rows());
            assert(column@.take(0) =~= Seq::<State>::empty());
            proof {
                lemma_occurrences_grow(columns, x as int, state);
                lemma_occurrences_bound(columns, self.rows(), state);
                assert(occurrences(columns.take(x + 1), state) <= (x + 1) * self.rows());
                assert((x + 1) * self.rows() <= columns.len() * self.rows()) by (nonlinear_arith)
                    requires
                        x + 1 <= columns.len(),
                ;
            }
            let ghost before = n;
            for y in 0..column.len()
                invariant
                    before == occurrences(columns.take(x as int), state),
                    before + occurrences_in(column@, state) <= usize::MAX,
                    n == before + occurrences_in(column@.take(y as int), state),
            {
                proof {
                    lemma_occurrences_in_grow(column@, y as int, state);
                    lemma_occurrences_in_monotonic(column@, y + 1, state);
                }
                if column[y] == state {
                    n = n + 1;
                }
            }
            assert(column@.take(column@.len() as int) =~= column@);
        }
        assert(columns.take(columns.len() as int) =~= columns);
        n
    }

    /// Tells whether the puzzle is solved: whether some state occupies as many
    /// cells as the grid has.
    pub fn is_won(&self) -> (won: bool)
        requires
            self.wf(),
        ensures
            won == self.won(),
    {
        let all_states = State::all();
        let dimensions = self.dimensions();
        let board_size: usize = dimensions[0] * dimensions[1];
        let mut result = false;
        for i in 0..3
            invariant
                self.wf(),
                board_size == self.size(),
                all_states@ == State::every(),
                result == (exists|j: int| 0 <= j < i && occurrences(self@, State::every()[j]) == self.size()),
        {
            let n = self.count(all_states[i]);
            result = n == board_size || result;
        }
        proof {
            if self.won() {
                let state = choose|state: State| occurrences(self@, state) == self.size();
                lemma_every_state_listed(state);
            }
        }
        result
    }
}

/// Taking one more entry of a column adds one to the count where that entry
/// is `state`, and nothing where it is not.
proof fn lemma_occurrences_in_grow(column: Seq<State>, y: int, state: State)
    requires
        0 <= y < column.len(),
    ensures
        occurrences_in(column.take(y + 1), state) == occurrences_in(column.take(y), state) + if column[y]
            == state {
            1nat
        } else {
            0nat
        },
{
    assert(column.take(y + 1).drop_last() =~= column.take(y));
}

/// Taking one more column adds that column's count.
proof fn lemma_occurrences_grow(columns: Seq<Seq<State>>, x: int, state: State)
    requires
        0 <= x < columns.len(),
    ensures
        occurrences(columns.take(x + 1), state) == occurrences(columns.take(x), state)
            + occurrences_in(columns[x], state),
{
    assert(columns.take(x + 1).drop_last() =~= columns.take(x));
}

/// The first `n` entries of a column hold no more entries in `state` than
/// the whole column.
proof fn lemma_occurrences_in_monotonic(column: Seq<State>, n: int, state: State)
    requires
        0 <= n <= column.len(),
    ensures
        occurrences_in(column.take(n), state) <= occurrences_in(column, state),
    decreases column.len() - n,
{
    if n < column.len() {
        lemma_occurrences_in_grow(column, n, state);
        lemma_occurrences_in_monotonic(column, n + 1, state);
    } else {
        assert(column.take(n) =~= column);
    }
}

/// A column holds at most as many entries in `state` as it has entries, and
/// exactly as many only where every entry is in `state`.
proof fn lemma_occurrences_in_bound(column: Seq<State>, state: State)
    ensures
        occurrences_in(column, state) <= column.len(),
        occurrences_in(column, state) == column.len() <==> forall|y: int|
            0 <= y < column.len() ==> column[y] == state,
    decreases column.len(),
{
    if column.len() > 0 {
        let front = column.drop_last();
        lemma_occurrences_in_bound(front, state);
        assert(forall|y: int| 0 <= y < front.len() ==> front[y] == column[y]);
        if occurrences_in(column, state) == column.len() {
            assert forall|y: int| 0 <= y < column.len() implies column[y] == state by {
                if y < front.len() {
                    assert(front[y] == state);
                }
            }
        }
    }
}

/// Columns of `rows` entries each hold at most `rows` cells in `state` per
/// column, and exactly as many only where every cell is in `state`.
proof fn lemma_occurrences_bound(columns: Seq<Seq<State>>, rows: nat, state: State)
    requires
        forall|x: int| 0 <= x < columns.len() ==> (#[trigger] columns[x]).len() == rows,
    ensures
        occurrences(columns, state) <= columns.len() * rows,
        forall|n: int| 0 <= n <= columns.len() ==> occurrences(#[trigger] columns.take(n), state) <= n * rows,
        occurrences(columns, state) == columns.len() * rows <==> forall|x: int, y: int|
            0 <= x < columns.len() && 0 <= y < rows ==> columns[x][y] == state,
    decreases columns.len(),
{
    if columns.len() == 0 {
        assert(0 * rows == 0) by (nonlinear_arith);
        assert forall|n: int| 0 <= n <= columns.len() implies occurrences(
            #[trigger] columns.take(n),
            state,
        ) <= n * rows by {
            assert(columns.take(n) =~= columns);
        }
    } else {
        let front = columns.drop_last();
        let last = columns.last();
        assert(forall|x: int| 0 <= x < front.len() ==> front[x] == columns[x]);
        lemma_occurrences_bound(front, rows, state);
        lemma_occurrences_in_bound(last, state);
        assert(columns.len() * rows == front.len() * rows + rows) by (nonlinear_arith)
            requires
                columns.len() == front.len() + 1,
        ;
        assert forall|n: int| 0 <= n <= columns.len() implies occurrences(
            #[trigger] columns.take(n),
            state,
        ) <= n * rows by {
            if n < columns.len() {
                assert(columns.take(n) =~= front.take(n));
            } else {
                assert(columns.take(n) =~= columns);
            }
        }
        if occurrences(columns, state) == columns.len() * rows {
            assert forall|x: int, y: int| 0 <= x < columns.len() && 0 <= y < rows implies columns[x][y]
                == state by {
                if x < front.len() {
                    assert(front[x][y] == state);
                }
            }
        }
        if forall|x: int, y: int| 0 <= x < columns.len() && 0 <= y < rows ==> columns[x][y] == state {
            assert forall|x: int, y: int| 0 <= x < front.len() && 0 <= y < rows implies front[x][y]
                == state by {
                assert(columns[x][y] == state);
            }
            assert forall|y: int| 0 <= y < last.len() implies last[y] == state by {
                assert(columns[columns.len() - 1][y] == state);
            }
        }
    }
}

/// The count decides what the eye sees: a grid is won exactly when all of its
/// cells are in one and the same state.
pub proof fn lemma_won_iff_uniform(grid: Grid)
    requires
        grid.wf(),
    ensures
        grid.won() <==> exists|state: State| grid.all_cells_are(state),
{
    if grid.won() {
        let state = choose|state: State| occurrences(grid@, state) == grid.size();
        lemma_occurrences_bound(grid@, grid.rows(), state);
        assert(grid.all_cells_are(state));
    }
    if exists|state: State| grid.all_cells_are(state) {
        let state = choose|state: State| grid.all_cells_are(state);
        lemma_occurrences_bound(grid@, grid.rows(), state);
        assert forall|x: int, y: int| 0 <= x < grid@.len() && 0 <= y < grid.rows() implies grid@[x][y]
            == state by {
            assert(grid.has_cell(x, y));
        }
        assert(occurrences(grid@, state) == grid.size());
    }
}

/// A grid whose cells are all in the same state is won.
pub proof fn lemma_uniform_grid_is_won(grid: Grid, state: State)
    requires
        grid.wf(),
        grid.all_cells_are(state),
    ensures
        grid.won(),
{
    lemma_won_iff_uniform(grid);
}

/// A grid of two cells or more in which every cell but one is in the same
/// state, and that one in another, is not won.
pub proof fn lemma_one_odd_cell_is_not_won(grid: Grid, state: State, x: int, y: int)
    requires
        grid.wf(),
        grid.size() >= 2,
        grid.has_cell(x, y),
        grid.cell(x, y) != state,
        forall|u: int, v: int| grid.has_cell(u, v) && (u != x || v != y) ==> grid.cell(u, v) == state,
    ensures
        !grid.won(),
{
    lemma_won_iff_uniform(grid);
    if grid.won() {
        let other = choose|other: State| grid.all_cells_are(other);
        assert(grid.cell(x, y) == other);
        assert(grid.cols() >= 2 || grid.rows() >= 2) by (nonlinear_arith)
            requires
                grid.cols() * grid.rows() >= 2,
        ;
        if grid.cols() >= 2 {
            let u = if x == 0 { 1int } else { 0int };
            assert(grid.has_cell(u, y));
            assert(grid.cell(u, y) == state);
        } else {
            let v = if y == 0 { 1int } else { 0int };
            assert(grid.has_cell(x, v));
            assert(grid.cell(x, v) == state);
        }
    }
}

} // verus!
