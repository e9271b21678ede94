use lights_out::{get_affected_cells, GameConfig};

#[test]
fn click_on_left_middle_of_three_by_three() {
    let cells = get_affected_cells(GameConfig::default(), [0, 1]);
    assert_eq!(cells, vec![[0, 1], [0, 0], [0, 2], [1, 1], [2, 1]]);
}

#[test]
fn click_in_the_middle_of_four_by_five() {
    let cells = get_affected_cells(GameConfig { board_size: [4, 5] }, [2, 3]);
    assert_eq!(cells, vec![[2, 3], [2, 0], [2, 1], [2, 2], [2, 4], [0, 3], [1, 3], [3, 3]]);
}

#[test]
fn click_on_the_only_cell() {
    let cells = get_affected_cells(GameConfig { board_size: [1, 1] }, [0, 0]);
    assert_eq!(cells, vec![[0, 0]]);
}

#[test]
fn single_row_and_single_column() {
    assert_eq!(get_affected_cells(GameConfig { board_size: [3, 1] }, [1, 0]), vec![[1, 0], [0, 0], [2, 0]]);
    assert_eq!(get_affected_cells(GameConfig { board_size: [1, 3] }, [0, 2]), vec![[0, 2], [0, 0], [0, 1]]);
}

#[test]
fn affected_cells_are_the_cross_of_the_click() {
    for cols in 1..6usize {
        for rows in 1..6usize {
            let config = GameConfig { board_size: [cols, rows] };
            for cx in 0..cols {
                for cy in 0..rows {
                    let cells = get_affected_cells(config, [cx, cy]);
                    assert_eq!(cells.len(), cols + rows - 1);
                    assert_eq!(cells[0], [cx, cy]);
                    for (i, cell) in cells.iter().enumerate() {
                        assert!(cell[0] < cols && cell[1] < rows);
                        assert!(cell[0] == cx || cell[1] == cy);
                        for other in cells.iter().skip(i + 1) {
                            assert_ne!(cell, other);
                        }
                    }
                    for x in 0..cols {
                        for y in 0..rows {
                            assert_eq!(cells.contains(&[x, y]), x == cx || y == cy);
                        }
                    }
                }
            }
        }
    }
}

#[test]
fn column_comes_before_row_in_ascending_order() {
    let cells = get_affected_cells(GameConfig { board_size: [3, 4] }, [1, 1]);
    assert_eq!(cells, vec![[1, 1], [1, 0], [1, 2], [1, 3], [0, 1], [2, 1]]);
}
