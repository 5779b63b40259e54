use glacier_slide::{Board, GameConfig, GenerationError, Level, Point};

#[test]
fn generated_boards_are_solvable_with_enough_moves() {
    let config = GameConfig::new(7, 7, 15);
    let board = Board::generate_solvable_board(&config).unwrap();

    assert_eq!(board.layout.rows, 7);
    assert_eq!(board.layout.cols, 7);

    let solution = board.solution.as_ref().unwrap();
    let steps = solution.steps.as_ref().unwrap().clone();
    assert!(steps.len() >= 7);

    // Replay the solution on the board: every move slides at least one
    // tile, and the path ends exactly on the end cell.
    let mut replay = board;
    for dir in steps {
        let n = replay.steps_in_direction(&dir);
        assert!(n > 0);
        for _ in 0..n {
            replay.move_player(dir);
        }
    }
    assert!(replay.player_won());
}

#[test]
fn impossible_parameters_exhaust_the_retry_limit() {
    // A 3x3 board has one interior cell, always a rock at 100 percent, so
    // no slide ever moves and no candidate can reach five moves.
    let config = GameConfig::new(3, 5, 100);
    let err = match Board::generate_solvable_board(&config) {
        Ok(_) => panic!("expected generation to give up"),
        Err(e) => e,
    };
    assert_eq!(err, GenerationError::RetryLimitExceeded);
    assert!(err.message().contains("1,000,000 attempts"));
}

#[test]
fn layout_export_round_trips_through_the_parser() {
    let board = Board::new(
        5,
        5,
        Point { row: 0, col: 1 },
        Point { row: 4, col: 3 },
        vec![
            Point { row: 1, col: 2 },
            Point { row: 1, col: 3 },
            Point { row: 2, col: 2 },
            Point { row: 2, col: 3 },
        ],
    );
    let exported = board.grid_as_strings();
    assert_eq!(exported.len(), 5);
    assert_eq!(exported[0], "WSWWW");
    assert_eq!(exported[1], "W RRW");
    assert_eq!(exported[2], "W RRW");
    assert_eq!(exported[3], "W   W");
    assert_eq!(exported[4], "WWWEW");

    let level = Level::from_grid_strings(&exported).unwrap();
    assert_eq!(level.rows, 5);
    assert_eq!(level.cols, 5);
    assert_eq!(level.start, Point { row: 0, col: 1 });
    assert_eq!(level.end, Point { row: 4, col: 3 });
    assert_eq!(level.rocks.len(), 4);
    for rock in [
        Point { row: 1, col: 2 },
        Point { row: 1, col: 3 },
        Point { row: 2, col: 2 },
        Point { row: 2, col: 3 },
    ] {
        assert!(level.rocks.contains(&rock));
    }
    assert!(level.solutions.is_none());

    // Rebuilding from the parsed level gives back the same export.
    let rebuilt = Board::new(level.rows, level.cols, level.start, level.end, level.rocks);
    assert_eq!(rebuilt.grid_as_strings(), exported);
}

#[test]
fn generated_layout_export_round_trips() {
    let config = GameConfig::new(7, 7, 15);
    let board = Board::generate_solvable_board(&config).unwrap();
    let exported = board.grid_as_strings();
    let level = Level::from_grid_strings(&exported).unwrap();
    assert_eq!(level.rows, 7);
    assert_eq!(level.cols, 7);
    assert_eq!(level.start, board.layout.start.0);
    assert_eq!(level.end, board.layout.end.0);
    assert_eq!(level.rocks.len(), board.layout.rocks.len());
    for rock in &board.layout.rocks {
        assert!(level.rocks.contains(&rock.0));
    }
}

#[test]
fn malformed_grids_are_rejected() {
    // Too small.
    assert!(Level::from_grid_strings(&vec!["WW".to_string(), "WW".to_string()]).is_none());

    // Two start markers.
    let two_starts = vec![
        "WSWWW".to_string(),
        "WS  W".to_string(),
        "W   W".to_string(),
        "W   W".to_string(),
        "WWWEW".to_string(),
    ];
    assert!(Level::from_grid_strings(&two_starts).is_none());

    // No end marker.
    let no_end = vec![
        "WSWWW".to_string(),
        "W   W".to_string(),
        "W   W".to_string(),
        "W   W".to_string(),
        "WWWWW".to_string(),
    ];
    assert!(Level::from_grid_strings(&no_end).is_none());

    // Ragged rows.
    let ragged = vec![
        "WSWWW".to_string(),
        "W   W".to_string(),
        "W  W".to_string(),
        "W   W".to_string(),
        "WWWEW".to_string(),
    ];
    assert!(Level::from_grid_strings(&ragged).is_none());

    // An unknown character.
    let unknown = vec![
        "WSWWW".to_string(),
        "W x W".to_string(),
        "W   W".to_string(),
        "W   W".to_string(),
        "WWWEW".to_string(),
    ];
    assert!(Level::from_grid_strings(&unknown).is_none());
}
