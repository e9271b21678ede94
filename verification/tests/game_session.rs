use lights_out::{BoardConfig, Button, DrawOp, Game, GameState, Grid, Paint, Piece, Rect, State};

fn cells_of(game: &Game) -> Vec<Vec<State>> {
    let [cols, rows] = game.board().dimensions();
    (0..cols).map(|x| (0..rows).map(|y| *game.board().get(x, y)).collect()).collect()
}

#[test]
fn new_game_starts_with_one_green_cell() {
    let game = Game::new();
    assert_eq!(game.board().dimensions(), [3, 3]);
    assert_eq!(game.cursor(), [0, 0]);
    assert_eq!(game.board_view().game_config.board_size, [3, 3]);
    assert_eq!(game.board_view().board_config.width, 640);
    assert_eq!(game.board_view().board_config.height, 480);
    assert_eq!(game.board_view().board_config.line_width, 10);
    for x in 0..3 {
        for y in 0..3 {
            let expected = if (x, y) == (0, 1) { State::Green } else { State::Red };
            assert_eq!(*game.state([x, y]), expected);
        }
    }
    assert!(!game.is_won());
    assert_eq!(game.game_state(), GameState::Running);
    assert_eq!(game.board_rectangles().len(), 9);
}

#[test]
fn click_on_the_green_cell_of_a_new_game() {
    let mut game = Game::new();
    // The cell in column 0 and row 1 spans 10..210 across and 166.67..313.33 down.
    assert_eq!(game.find_rect_at_position([50, 200]).map(|p| p.position), Some([0, 1]));
    assert_eq!(game.handle_event(Some([50, 200]), None), GameState::Running);
    assert_eq!(game.handle_event(None, Some(Button::Primary)), GameState::Running);
    let r = State::Red;
    let g = State::Green;
    let b = State::Blue;
    assert_eq!(cells_of(&game), vec![vec![g, b, g], vec![r, g, r], vec![r, g, r]]);
    assert!(!game.is_won());
}

#[test]
fn handle_click_advances_the_cross() {
    let mut game = Game::new();
    game.handle_click([320, 240]);
    let r = State::Red;
    let g = State::Green;
    let b = State::Blue;
    assert_eq!(cells_of(&game), vec![vec![r, b, r], vec![g, g, g], vec![r, g, r]]);
}

#[test]
fn single_cell_game_is_won_by_any_click() {
    let mut game = Game::with_board(Grid::new(1, 1, State::Red), BoardConfig::default());
    assert_eq!(game.board_rectangles().len(), 1);
    assert_eq!(game.board_rectangles()[0].rect, Rect { x: 10, y: 10, width: 620, height: 460, x_den: 1, y_den: 1 });
    let state = game.handle_event(Some([320, 240]), Some(Button::Primary));
    assert_eq!(*game.state([0, 0]), State::Green);
    assert!(game.is_won());
    assert_eq!(state, GameState::Quit);
}

#[test]
fn move_then_press_on_four_by_five() {
    let mut game = Game::with_board(Grid::new(4, 5, State::Red), BoardConfig { width: 640, height: 480, line_width: 10 });
    let cell_width = (640.0 - 5.0 * 10.0) / 4.0;
    let cell_height = (480.0 - 6.0 * 10.0) / 5.0;
    let mut expected = None;
    for piece in game.board_rectangles().iter() {
        let left = piece.position[0] as f64 * (cell_width + 10.0) + 10.0;
        let top = piece.position[1] as f64 * (cell_height + 10.0) + 10.0;
        if left < 50.0 && 50.0 < left + cell_width && top < 50.0 && 50.0 < top + cell_height {
            expected = Some(piece.position);
            break;
        }
    }
    assert_eq!(expected, Some([0, 0]));
    assert_eq!(game.handle_event(Some([50, 50]), None), GameState::Running);
    assert_eq!(game.cursor(), [50, 50]);
    assert_eq!(game.find_rect_at_position(game.cursor()).map(|p| p.position), expected);
    let state = game.handle_event(None, Some(Button::Primary));
    assert_eq!(state, GameState::Running);
    for x in 0..4 {
        for y in 0..5 {
            let want = if x == 0 || y == 0 { State::Green } else { State::Red };
            assert_eq!(*game.state([x, y]), want);
        }
    }
}

#[test]
fn point_on_a_boundary_hits_nothing() {
    let game = Game::with_board(Grid::new(3, 3, State::Red), BoardConfig { width: 300, height: 300, line_width: 0 });
    // Without lines the cells are 100 wide and high and touch one another.
    assert_eq!(game.find_rect_at_position([50, 50]).map(|p| p.position), Some([0, 0]));
    assert_eq!(game.find_rect_at_position([150, 50]).map(|p| p.position), Some([1, 0]));
    assert!(game.find_rect_at_position([100, 50]).is_none());
    assert!(game.find_rect_at_position([50, 100]).is_none());
    assert!(game.find_rect_at_position([0, 50]).is_none());
    assert!(game.find_rect_at_position([300, 50]).is_none());
    assert!(game.find_rect_at_position([200, 200]).is_none());
    let game = Game::new();
    assert!(game.find_rect_at_position([10, 50]).is_none());
    assert!(game.find_rect_at_position([210, 50]).is_none());
    assert!(game.find_rect_at_position([50, 10]).is_none());
    assert_eq!(game.find_rect_at_position([11, 11]).map(|p| p.position), Some([0, 0]));
}

#[test]
fn middle_of_every_cell_resolves_to_the_cell() {
    // Cells of 90 by 60 with lines of 10: every middle is a whole point.
    let game = Game::with_board(Grid::new(3, 4, State::Red), BoardConfig { width: 310, height: 290, line_width: 10 });
    for piece in game.board_rectangles().iter() {
        let rect = piece.rect;
        assert_eq!((rect.width, rect.x_den, rect.height, rect.y_den), (270, 3, 240, 4));
        let px = ((2 * rect.x + rect.width) / (2 * rect.x_den as i128)) as i32;
        let py = ((2 * rect.y + rect.height) / (2 * rect.y_den as i128)) as i32;
        assert_eq!(px as usize, 55 + 100 * piece.position[0]);
        assert_eq!(py as usize, 40 + 70 * piece.position[1]);
        assert_eq!(game.find_rect_at_position([px, py]).map(|p| p.position), Some(piece.position));
    }
}

#[test]
fn press_without_movement_clicks_at_the_origin() {
    let mut game = Game::new();
    let before = cells_of(&game);
    assert_eq!(game.handle_event(None, Some(Button::Primary)), GameState::Running);
    assert_eq!(game.cursor(), [0, 0]);
    assert_eq!(cells_of(&game), before);
}

#[test]
fn click_in_a_gutter_or_outside_changes_nothing() {
    let mut game = Game::new();
    let before = cells_of(&game);
    game.handle_click([215, 50]);
    game.handle_click([50, 5]);
    game.handle_click([700, 50]);
    game.handle_click([-5, -5]);
    assert_eq!(cells_of(&game), before);
}

#[test]
fn other_buttons_do_not_click() {
    let mut game = Game::new();
    let before = cells_of(&game);
    assert_eq!(game.handle_event(Some([50, 50]), Some(Button::Other)), GameState::Running);
    assert_eq!(game.cursor(), [50, 50]);
    assert_eq!(cells_of(&game), before);
}

#[test]
fn movement_and_press_in_one_report() {
    let mut game = Game::new();
    game.handle_event(Some([50, 50]), Some(Button::Primary));
    let r = State::Red;
    let g = State::Green;
    let b = State::Blue;
    assert_eq!(cells_of(&game), vec![vec![g, b, g], vec![g, r, r], vec![g, r, r]]);
}

#[test]
fn solving_the_default_game_quits() {
    // Clicking the green cell twice leaves column 0 at blue, red, blue and the
    // middle row blue; clicking it a third time brings everything back.
    let mut game = Game::new();
    game.handle_event(Some([50, 200]), None);
    assert_eq!(game.handle_event(None, Some(Button::Primary)), GameState::Running);
    assert_eq!(game.handle_event(None, Some(Button::Primary)), GameState::Running);
    assert_eq!(game.handle_event(None, Some(Button::Primary)), GameState::Running);
    let fresh = Game::new();
    assert_eq!(cells_of(&game), cells_of(&fresh));
    // A grid that is one click away from uniform: the click on the cell
    // opposite the green one turns the three red cells green.
    let mut grid = Grid::new(2, 2, State::Red);
    grid.set(1, 1, State::Green);
    let mut game = Game::with_board(grid, BoardConfig { width: 230, height: 230, line_width: 10 });
    assert!(!game.is_won());
    assert_eq!(game.handle_event(Some([115, 115]), Some(Button::Primary)), GameState::Running);
    assert_eq!(game.handle_event(Some([50, 50]), Some(Button::Primary)), GameState::Quit);
    assert!(game.is_won());
    for x in 0..2 {
        for y in 0..2 {
            assert_eq!(*game.state([x, y]), State::Green);
        }
    }
    assert_eq!(game.game_state(), GameState::Quit);
}

#[test]
fn a_session_that_is_over_takes_no_input() {
    let mut game = Game::with_board(Grid::new(1, 1, State::Red), BoardConfig::default());
    assert_eq!(game.game_state(), GameState::Running);
    assert_eq!(game.handle_event(Some([320, 240]), Some(Button::Primary)), GameState::Quit);
    assert_eq!(*game.state([0, 0]), State::Green);
    assert_eq!(game.handle_event(Some([5, 5]), None), GameState::Quit);
    assert_eq!(game.cursor(), [320, 240]);
    assert_eq!(game.handle_event(Some([320, 240]), Some(Button::Primary)), GameState::Quit);
    assert_eq!(game.handle_event(None, Some(Button::Primary)), GameState::Quit);
    assert_eq!(*game.state([0, 0]), State::Green);
    assert_eq!(game.cursor(), [320, 240]);
    assert_eq!(game.game_state(), GameState::Quit);
}

#[test]
fn a_won_grid_ends_the_session_at_the_next_press_only() {
    let mut game = Game::with_board(Grid::new(2, 2, State::Blue), BoardConfig::default());
    assert!(game.is_won());
    assert_eq!(game.game_state(), GameState::Running);
    assert_eq!(game.handle_event(None, None), GameState::Running);
    assert_eq!(game.handle_event(Some([1, 1]), None), GameState::Running);
    assert_eq!(game.handle_event(None, Some(Button::Other)), GameState::Quit);
    let mut game = Game::with_board(Grid::new(2, 2, State::Blue), BoardConfig::default());
    // A press in the gutter changes nothing, and the grid is examined all the same.
    assert_eq!(game.handle_event(Some([5, 5]), Some(Button::Primary)), GameState::Quit);
    for x in 0..2 {
        for y in 0..2 {
            assert_eq!(*game.state([x, y]), State::Blue);
        }
    }
}

#[test]
fn set_size_recomputes_every_rectangle() {
    let mut game = Game::new();
    game.handle_event(Some([50, 50]), None);
    let before = cells_of(&game);
    game.set_size(310, 310);
    assert_eq!(game.board_view().board_config.width, 310);
    assert_eq!(game.board_view().board_config.height, 310);
    assert_eq!(game.board_view().board_config.line_width, 10);
    assert_eq!(game.cursor(), [50, 50]);
    assert_eq!(cells_of(&game), before);
    let pieces = game.board_rectangles();
    assert_eq!(pieces.len(), 9);
    for (i, piece) in pieces.iter().enumerate() {
        let (x, y) = ((i % 3) as i128, (i / 3) as i128);
        assert_eq!(piece.position, [i % 3, i / 3]);
        assert_eq!(piece.rect, Rect { x: 300 * x + 30, y: 300 * y + 30, width: 270, height: 270, x_den: 3, y_den: 3 });
    }
    assert_eq!(game.find_rect_at_position([150, 150]).map(|p| p.position), Some([1, 1]));
    assert!(game.find_rect_at_position([320, 240]).is_none());
}

#[test]
fn set_state_advances_one_cell() {
    let mut game = Game::new();
    game.set_state([0, 1]);
    assert_eq!(*game.state([0, 1]), State::Blue);
    game.set_state([2, 2]);
    assert_eq!(*game.state([2, 2]), State::Green);
    assert_eq!(*game.state([1, 1]), State::Red);
}

#[test]
fn frame_lists_slots_before_cells() {
    let game = Game::new();
    let ops = game.draw();
    assert_eq!(ops.len(), 2 + 9 + 9);
    assert_eq!(ops[0], DrawOp::Clear);
    assert_eq!(ops[1], DrawOp::Fill { paint: Paint::Background, rect: Rect { x: 0, y: 0, width: 640, height: 480, x_den: 1, y_den: 1 } });
    for (i, piece) in game.board_rectangles().iter().enumerate() {
        assert_eq!(ops[2 + i], DrawOp::Fill { paint: Paint::Slot, rect: piece.rect });
        let state = *game.state(piece.position);
        assert_eq!(ops[11 + i], DrawOp::Fill { paint: Paint::Cell(state), rect: piece.rect });
    }
    assert_eq!(ops[11 + 3], DrawOp::Fill { paint: Paint::Cell(State::Green), rect: game.board_rectangles()[3].rect });
}

#[test]
fn degenerate_layout_never_resolves() {
    let mut game = Game::with_board(Grid::new(3, 3, State::Red), BoardConfig { width: 20, height: 20, line_width: 10 });
    game.set_state([0, 0]);
    let before = cells_of(&game);
    for px in -5..40 {
        for py in -5..40 {
            assert!(game.find_rect_at_position([px, py]).is_none());
        }
    }
    game.handle_click([15, 15]);
    assert_eq!(cells_of(&game), before);
}

#[test]
fn overlapping_cells_resolve_to_the_first() {
    // A negative line width makes neighbouring cells overlap.
    let game = Game::with_board(Grid::new(2, 1, State::Red), BoardConfig { width: 100, height: 100, line_width: -20 });
    let pieces = game.board_rectangles();
    assert_eq!(pieces[0].rect, Rect { x: -40, y: -20, width: 160, height: 140, x_den: 2, y_den: 1 });
    assert_eq!(pieces[1].rect, Rect { x: 80, y: -20, width: 160, height: 140, x_den: 2, y_den: 1 });
    assert_eq!(game.find_rect_at_position([50, 50]).map(|p| p.position), Some([0, 0]));
    assert_eq!(game.find_rect_at_position([70, 50]).map(|p| p.position), Some([1, 0]));
}

#[test]
fn piece_new_keeps_its_parts() {
    let rect = Rect::whole(1, 2, 3, 4);
    let piece = Piece::new([5, 6], rect);
    assert_eq!(piece.position, [5, 6]);
    assert_eq!(piece.rect, rect);
}
