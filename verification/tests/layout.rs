use lights_out::{BoardConfig, BoardView, DrawOp, GameConfig, Paint, Rect};

fn as_floats(rect: &Rect) -> [f64; 4] {
    [
        rect.x as f64 / rect.x_den as f64,
        rect.y as f64 / rect.y_den as f64,
        rect.width as f64 / rect.x_den as f64,
        rect.height as f64 / rect.y_den as f64,
    ]
}

fn by_formula(view: &BoardView, x: usize, y: usize) -> [f64; 4] {
    let cols = view.game_config.board_size[0] as f64;
    let rows = view.game_config.board_size[1] as f64;
    let line = view.board_config.line_width as f64;
    let cell_width = (view.board_config.width as f64 - (cols + 1.0) * line) / cols;
    let cell_height = (view.board_config.height as f64 - (rows + 1.0) * line) / rows;
    [x as f64 * (cell_width + line) + line, y as f64 * (cell_height + line) + line, cell_width, cell_height]
}

#[test]
fn defaults() {
    let game = GameConfig::default();
    assert_eq!(game.board_size, [3, 3]);
    let board = BoardConfig::default();
    assert_eq!((board.width, board.height, board.line_width), (640, 480, 10));
    let view = BoardView::new();
    assert_eq!(view.game_config.board_size, [4, 5]);
    assert_eq!((view.board_config.width, view.board_config.height, view.board_config.line_width), (640, 480, 10));
    assert_eq!(view.calc_width(), 640);
    assert_eq!(view.calc_height(), 480);
}

#[test]
fn first_cell_of_four_by_five() {
    let view = BoardView::new();
    let rect = view.piece_rect(0, 0);
    assert_eq!(rect, Rect { x: 40, y: 50, width: 590, height: 420, x_den: 4, y_den: 5 });
    assert_eq!(as_floats(&rect), [10.0, 10.0, 147.5, 84.0]);
}

#[test]
fn inner_cell_of_four_by_five() {
    let view = BoardView::new();
    let rect = view.piece_rect(1, 2);
    assert_eq!(rect, Rect { x: 670, y: 990, width: 590, height: 420, x_den: 4, y_den: 5 });
    assert_eq!(as_floats(&rect), [167.5, 198.0, 147.5, 84.0]);
}

#[test]
fn rectangles_agree_with_the_formula() {
    let boards = [
        BoardConfig { width: 640, height: 480, line_width: 10 },
        BoardConfig { width: 1023, height: 767, line_width: 7 },
        BoardConfig { width: 20, height: 20, line_width: 10 },
        BoardConfig { width: 300, height: 200, line_width: 0 },
    ];
    for board_config in boards {
        for cols in 1..6usize {
            for rows in 1..6usize {
                let view = BoardView { game_config: GameConfig { board_size: [cols, rows] }, board_config };
                for x in 0..cols {
                    for y in 0..rows {
                        let got = as_floats(&view.piece_rect(x, y));
                        let want = by_formula(&view, x, y);
                        for k in 0..4 {
                            assert!((got[k] - want[k]).abs() < 1e-9);
                        }
                    }
                }
            }
        }
    }
}

#[test]
fn rectangles_are_listed_row_by_row() {
    let view = BoardView::new();
    let pieces = view.create_board_rectangles();
    assert_eq!(pieces.len(), 20);
    for (i, piece) in pieces.iter().enumerate() {
        assert_eq!(piece.position, [i % 4, i / 4]);
        assert_eq!(piece.rect, view.piece_rect(i % 4, i / 4));
    }
}

#[test]
fn board_too_small_gives_negative_cells() {
    let view = BoardView {
        game_config: GameConfig { board_size: [3, 3] },
        board_config: BoardConfig { width: 20, height: 20, line_width: 10 },
    };
    let rect = view.piece_rect(1, 1);
    assert_eq!(rect, Rect { x: 40, y: 40, width: -20, height: -20, x_den: 3, y_den: 3 });
    for px in 0..30 {
        for py in 0..30 {
            assert!(!rect.contains(px, py));
        }
    }
}

#[test]
fn set_size_keeps_grid_and_line_width() {
    let mut view = BoardView::new();
    view.set_size(800, 600);
    assert_eq!(view.game_config.board_size, [4, 5]);
    assert_eq!((view.board_config.width, view.board_config.height, view.board_config.line_width), (800, 600, 10));
    assert_eq!(view.piece_rect(0, 0), Rect { x: 40, y: 50, width: 750, height: 540, x_den: 4, y_den: 5 });
    assert_eq!(view.board_rect(), Rect { x: 0, y: 0, width: 800, height: 600, x_den: 1, y_den: 1 });
}

#[test]
fn contains_is_strict() {
    let rect = Rect { x: 40, y: 50, width: 590, height: 420, x_den: 4, y_den: 5 };
    assert!(rect.contains(50, 50));
    assert!(rect.contains(11, 11));
    assert!(rect.contains(157, 93));
    assert!(!rect.contains(10, 50));
    assert!(!rect.contains(50, 10));
    assert!(!rect.contains(158, 50));
    assert!(!rect.contains(50, 94));
    assert!(!rect.contains(9, 50));
    let whole = Rect::whole(0, 0, 100, 50);
    assert!(whole.contains(1, 1));
    assert!(whole.contains(99, 49));
    assert!(!whole.contains(0, 25));
    assert!(!whole.contains(100, 25));
    assert!(!whole.contains(50, 0));
    assert!(!whole.contains(50, 50));
}

#[test]
fn first_pass_of_a_frame() {
    let view = BoardView { game_config: GameConfig { board_size: [2, 2] }, board_config: BoardConfig::default() };
    let ops = view.draw();
    assert_eq!(ops.len(), 6);
    assert_eq!(ops[0], DrawOp::Clear);
    assert_eq!(ops[1], DrawOp::Fill { paint: Paint::Background, rect: view.board_rect() });
    let cells = [(0, 0), (1, 0), (0, 1), (1, 1)];
    for (i, (x, y)) in cells.iter().enumerate() {
        assert_eq!(ops[2 + i], DrawOp::Fill { paint: Paint::Slot, rect: view.piece_rect(*x, *y) });
    }
}

#[test]
fn grid_without_columns_has_no_rectangles() {
    let view = BoardView { game_config: GameConfig { board_size: [0, 4] }, board_config: BoardConfig::default() };
    assert!(view.create_board_rectangles().is_empty());
    assert_eq!(view.draw().len(), 2);
}
