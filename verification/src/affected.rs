//! Which cells a click changes: the clicked cell and every other cell of its
//! column and of its row.

use vstd::prelude::*;
use crate::config::GameConfig;

verus! {

/// The indices below `n` other than `skip`, in ascending order.
pub open spec fn others(n: usize, skip: usize) -> Seq<usize> {
    Seq::new(
        if skip < n {
            (n - 1) as nat
        } else {
            n as nat
        },
        |k: int|
            if k < skip {
                k as usize
            } else {
                (k + 1) as usize
            },
    )
}

/// The cells that a click on `position` changes, in the order in which they
/// are listed: the clicked cell, then the other cells of its column from row
/// 0 on, then the other cells of its row from column 0 on.
pub open spec fn affected_cells(game_config: GameConfig, position: [usize; 2]) -> Seq<[usize; 2]> {
    seq![position] + others(game_config.board_size[1], position[1]).map_values(
        |y: usize| [position[0], y],
    ) + others(game_config.board_size[0], position[0]).map_values(|x: usize| [x, position[1]])
}

/// Where among the affected cells of a click on `position` the cell `(x, y)`
/// stands, if it is in the clicked cell's column or row.
pub open spec fn affected_index(game_config: GameConfig, position: [usize; 2], x: int, y: int) -> int {
    if x == position[0] {
        if y == position[1] {
            0
        } else if y < position[1] {
            1 + y
        } else {
            y
        }
    } else if x < position[0] {
        game_config.rows() + x
    } else {
        game_config.rows() + x - 1
    }
}

/// Lists the cells that a click on `position` changes: the clicked cell first,
/// then the other cells of its column by ascending row, then the other cells
/// of its row by ascending column.
pub fn get_affected_cells(game_config: GameConfig, position: [usize; 2]) -> (result: Vec<[usize; 2]>)
    ensures
        result@ == affected_cells(game_config, position),
{
    let cols = game_config.board_size[0];
    let rows = game_config.board_size[1];
    let mut result: Vec<[usize; 2]> = Vec::new();

    // the clicked cell is affected
    result.push(position);
    let ghost clicked = result@;
    assert(clicked =~= seq![position]);
    assert(others(0, position[1]) =~= Seq::<usize>::empty());

    // every other cell of the same column
    for y in 0..rows
        invariant
            clicked == seq![position],
            result@ == clicked + others(y, position[1]).map_values(|y: usize| [position[0], y]),
    {
        proof {
            lemma_others_grow(y, position[1]);
        }
        if y != position[1] {
            result.push([position[0], y]);
        }
        assert(result@ =~= clicked + others((y + 1) as usize, position[1]).map_values(
            |y: usize| [position[0], y],
        ));
    }
    let ghost column = result@;
    assert(others(0, position[0]) =~= Seq::<usize>::empty());
    assert(column =~= column + others(0, position[0]).map_values(|x: usize| [x, position[1]]));

    // every other cell of the same row
    for x in 0..cols
        invariant
            result@ == column + others(x, position[0]).map_values(|x: usize| [x, position[1]]),
    {
        proof {
            lemma_others_grow(x, position[0]);
        }
        if x != position[0] {
            result.push([x, position[1]]);
        }
        assert(result@ =~= column + others((x + 1) as usize, position[0]).map_values(
            |x: usize| [x, position[1]],
        ));
    }
    result
}

/// One index more adds that index at the end, unless it is the one left out.
proof fn lemma_others_grow(n: usize, skip: usize)
    requires
        n < usize::MAX,
    ensures
        others((n + 1) as usize, skip) == if n != skip {
            others(n, skip).push(n)
        } else {
            others(n, skip)
        },
{
    if n != skip {
        assert(others((n + 1) as usize, skip) =~= others(n, skip).push(n));
    } else {
        assert(others((n + 1) as usize, skip) =~= others(n, skip));
    }
}

/// A click on a cell of a grid of `W` columns and `H` rows affects `W + H - 1`
/// cells. The clicked cell is the first of them; each of them is a cell of the
/// grid in the clicked cell's column or row; none is listed twice; and every
/// cell of that column and of that row is among them, at its `affected_index`.
pub proof fn lemma_affected_cells(game_config: GameConfig, position: [usize; 2])
    requires
        game_config.has_cell(position[0] as int, position[1] as int),
    ensures
        affected_cells(game_config, position).len() == game_config.cols() + game_config.rows() - 1,
        affected_cells(game_config, position)[0] == position,
        forall|i: int|
            0 <= i < affected_cells(game_config, position).len() ==> {
                let cell = #[trigger] affected_cells(game_config, position)[i];
                &&& game_config.has_cell(cell[0] as int, cell[1] as int)
                &&& cell[0] == position[0] || cell[1] == position[1]
                &&& affected_index(game_config, position, cell[0] as int, cell[1] as int) == i
            },
        forall|i: int, j: int|
            0 <= i < j < affected_cells(game_config, position).len() ==> {
                let first = #[trigger] affected_cells(game_config, position)[i];
                let second = #[trigger] affected_cells(game_config, position)[j];
                first[0] != second[0] || first[1] != second[1]
            },
        forall|x: int, y: int|
            game_config.has_cell(x, y) && (x == position[0] || y == position[1]) ==> {
                let i = #[trigger] affected_index(game_config, position, x, y);
                &&& 0 <= i < affected_cells(game_config, position).len()
                &&& affected_cells(game_config, position)[i][0] == x
                &&& affected_cells(game_config, position)[i][1] == y
            },
{
    let cells = affected_cells(game_config, position);
    let rows = game_config.board_size[1];
    let cols = game_config.board_size[0];
    let column = others(rows, position[1]).map_values(|y: usize| [position[0], y]);
    let row = others(cols, position[0]).map_values(|x: usize| [x, position[1]]);
    assert(cells == seq![position] + column + row);
    assert(column.len() == rows - 1);
    assert(row.len() == cols - 1);
    assert forall|i: int| 0 <= i < cells.len() implies {
        let cell = #[trigger] cells[i];
        &&& game_config.has_cell(cell[0] as int, cell[1] as int)
        &&& cell[0] == position[0] || cell[1] == position[1]
        &&& affected_index(game_config, position, cell[0] as int, cell[1] as int) == i
    } by {
        if i == 0 {
        } else if i < rows {
            assert(cells[i] == column[i - 1]);
        } else {
            assert(cells[i] == row[i - rows]);
        }
    }
    assert forall|x: int, y: int|
        game_config.has_cell(x, y) && (x == position[0] || y == position[1]) implies {
        let i = #[trigger] affected_index(game_config, position, x, y);
        &&& 0 <= i < cells.len()
        &&& cells[i][0] == x
        &&& cells[i][1] == y
    } by {
        let i = affected_index(game_config, position, x, y);
        if i == 0 {
        } else if i < rows {
            assert(cells[i] == column[i - 1]);
        } else {
            assert(cells[i] == row[i - rows]);
        }
    }
}

} // verus!
