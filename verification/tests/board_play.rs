use glacier_slide::{Board, Direction, GameState, Move, PlayerInput, Point, Tile};

fn open_board_5x5() -> Board {
    // A 5x5 board (3x3 interior), start on the top border at column 1,
    // end on the right border at row 3, no rocks.
    Board::new(
        5,
        5,
        Point { row: 0, col: 1 },
        Point { row: 3, col: 4 },
        vec![],
    )
}

fn corridor_board() -> Board {
    // Every interior cell is a rock except a single-tile corridor from the
    // start down column 1, then along row 3, to the end on the bottom
    // border at column 3.
    Board::new(
        5,
        5,
        Point { row: 0, col: 1 },
        Point { row: 4, col: 3 },
        vec![
            Point { row: 1, col: 2 },
            Point { row: 1, col: 3 },
            Point { row: 2, col: 2 },
            Point { row: 2, col: 3 },
        ],
    )
}

#[test]
fn steps_in_direction_counts_the_slide() {
    let board = open_board_5x5();
    // Sliding down crosses the three interior rows and stops at the wall.
    assert_eq!(board.steps_in_direction(&Direction::Down), 3);
}

#[test]
fn steps_in_direction_is_zero_iff_adjacent_blocks() {
    let board = open_board_5x5();
    // Up leaves the board, and both sideways neighbours on the border row
    // are walls: all three block immediately.
    assert_eq!(board.steps_in_direction(&Direction::Up), 0);
    assert_eq!(board.steps_in_direction(&Direction::Left), 0);
    assert_eq!(board.steps_in_direction(&Direction::Right), 0);

    let corridor = corridor_board();
    // In the corridor only the slide down moves; a rock blocks the right.
    assert_eq!(corridor.steps_in_direction(&Direction::Down), 3);
    assert_eq!(corridor.steps_in_direction(&Direction::Right), 0);
}

#[test]
fn shortest_solution_on_open_board() {
    let mut board = open_board_5x5();
    board.solve(10);
    let solution = board.solution.as_ref().unwrap();
    let steps = solution.steps.as_ref().unwrap();
    assert_eq!(steps, &vec![Direction::Down, Direction::Right]);
    assert_eq!(solution.get_solution_string(), Some("DR".to_string()));
}

#[test]
fn corridor_has_exactly_one_solution_with_three_turning_points() {
    let mut board = corridor_board();
    board.solve(10);
    let solution = board.solution.as_ref().unwrap();
    let steps = solution.steps.as_ref().unwrap();
    assert_eq!(
        steps,
        &vec![Direction::Down, Direction::Right, Direction::Down]
    );
    // One node expanded per distinct turning point: the start, the first
    // corner, and the second corner.
    assert_eq!(solution.edges_traversed, 3);

    let mut solver = glacier_slide::Solver::new(corridor_board());
    let result = solver.solve();
    assert!(result.is_solvable());
    assert_eq!(result.solutions, vec!["DRD".to_string()]);
}

#[test]
fn solver_paths_always_turn_orthogonally() {
    let mut board = corridor_board();
    board.solve(10);
    let steps = board.solution.as_ref().unwrap().steps.as_ref().unwrap().clone();
    for pair in steps.windows(2) {
        let vertical =
            |d: Direction| d == Direction::Up || d == Direction::Down;
        assert_ne!(vertical(pair[0]), vertical(pair[1]));
    }
}

#[test]
fn unsolvable_board_reports_no_steps() {
    // The single interior cell is a rock, so no slide moves at all.
    let mut board = Board::new(
        3,
        3,
        Point { row: 0, col: 1 },
        Point { row: 2, col: 1 },
        vec![Point { row: 1, col: 1 }],
    );
    board.solve(10);
    let solution = board.solution.as_ref().unwrap();
    assert!(solution.steps.is_none());
    assert_eq!(solution.get_solution_string(), None);
}

#[test]
fn queued_slide_animates_one_tile_per_tick() {
    let mut board = open_board_5x5();
    board.respond_to_input(PlayerInput::Slide(Direction::Down));
    assert_eq!(board.move_queue.len(), 1);

    // A second slide is rejected while the first is still in the queue.
    board.respond_to_input(PlayerInput::Slide(Direction::Down));
    assert_eq!(board.move_queue.len(), 1);

    // Three ticks consume the three-step slide one tile at a time.
    assert!(board.process_move().is_some());
    assert_eq!(board.player.0, Point { row: 1, col: 1 });
    assert_eq!(board.move_queue.len(), 1);
    assert!(board.process_move().is_some());
    assert_eq!(board.player.0, Point { row: 2, col: 1 });
    assert!(board.process_move().is_some());
    assert_eq!(board.player.0, Point { row: 3, col: 1 });
    assert_eq!(board.move_queue.len(), 0);
    assert!(board.process_move().is_none());
}

#[test]
fn reset_returns_player_to_start_and_restores_tiles() {
    let mut board = open_board_5x5();
    board.respond_to_input(PlayerInput::Slide(Direction::Down));
    while board.process_move().is_some() {}
    assert_eq!(board.player.0, Point { row: 3, col: 1 });
    assert_eq!(board.layout.grid[3][1], Tile::Player);
    // The vacated start cell shows the start marker again.
    assert_eq!(board.layout.grid[0][1], Tile::Start);

    board.respond_to_input(PlayerInput::Reset);
    assert_eq!(board.move_queue.len(), 1);
    assert!(board.process_move().is_some());
    assert_eq!(board.player.0, Point { row: 0, col: 1 });
    assert_eq!(board.layout.grid[0][1], Tile::Player);
    // The cell the player vacated is ice again, never a stray marker.
    assert_eq!(board.layout.grid[3][1], Tile::Ice);
}

#[test]
fn reset_at_start_queues_nothing() {
    let mut board = open_board_5x5();
    board.respond_to_input(PlayerInput::Reset);
    assert_eq!(board.move_queue.len(), 0);
}

#[test]
fn update_player_position_is_idempotent_at_current_cell() {
    let mut board = open_board_5x5();
    board.attach_game_state(GameState::new(3, 3, 15, 2, true, false, false));
    let before_player = board.player.0;
    let before_solved = board.game_state.as_ref().unwrap().levels_solved;
    let before_grid = board.layout.grid.clone();

    board.update_player_position(before_player.row, before_player.col);

    assert_eq!(board.player.0, before_player);
    assert_eq!(board.layout.grid, before_grid);
    assert!(!board.player_has_won);
    assert_eq!(
        board.game_state.as_ref().unwrap().levels_solved,
        before_solved
    );
}

#[test]
fn reaching_the_end_sets_won_and_counts_the_level() {
    let mut board = open_board_5x5();
    board.attach_game_state(GameState::new(3, 3, 15, 2, true, false, false));
    // Down to (3, 1), then right: the slide crosses (3, 2), (3, 3) and
    // enters the end opening at (3, 4).
    board.respond_to_input(PlayerInput::Slide(Direction::Down));
    while board.process_move().is_some() {}
    board.respond_to_input(PlayerInput::Slide(Direction::Right));
    while board.process_move().is_some() {}

    assert_eq!(board.player.0, Point { row: 3, col: 4 });
    assert!(board.player_won());
    assert!(board.player_has_won);
    assert_eq!(board.game_state.as_ref().unwrap().levels_solved, 1);

    // Input is ignored after a win.
    board.respond_to_input(PlayerInput::Slide(Direction::Left));
    assert_eq!(board.move_queue.len(), 0);
}

#[test]
fn exit_and_view_moves_pass_through_the_queue() {
    let mut board = open_board_5x5();
    board.attach_game_state(GameState::new(3, 3, 15, 2, true, false, false));
    board.respond_to_input(PlayerInput::ChangeView);
    board.respond_to_input(PlayerInput::ShowSolution);
    board.respond_to_input(PlayerInput::Exit);
    assert_eq!(board.move_queue.len(), 3);

    assert_eq!(board.process_move(), Some(Move::ChangeView));
    assert!(!board.game_state.as_ref().unwrap().player_focused_view);
    assert_eq!(board.process_move(), Some(Move::ShowSolution));
    assert!(board.game_state.as_ref().unwrap().display_solution);
    assert_eq!(board.process_move(), Some(Move::Exit));
    assert!(board.process_move().is_none());
}

#[test]
fn render_board_picks_the_configured_view() {
    let mut board = open_board_5x5();
    // Player-focused by default: a nine-line window.
    assert_eq!(board.render_board().len(), 9);

    board.attach_game_state(GameState::new(3, 3, 15, 2, false, false, false));
    // Full view: one line per board row.
    assert_eq!(board.render_board().len(), 5);
}

#[test]
fn solver_from_board_searches_a_clean_copy() {
    let mut played = corridor_board();
    // Move the player off the start before taking the snapshot.
    played.respond_to_input(PlayerInput::Slide(Direction::Down));
    while played.process_move().is_some() {}
    assert_ne!(played.player.0, played.layout.start.0);

    let mut solver = glacier_slide::Solver::from_board(&played);
    // The copy starts from the start cell and finds the same solution.
    assert_eq!(solver.board.player.0, played.layout.start.0);
    let result = solver.solve();
    assert_eq!(result.solutions, vec!["DRD".to_string()]);
    // The played board itself is untouched by the search.
    assert_eq!(played.player.0, Point { row: 3, col: 1 });
}
