use glacier_slide::{Direction, GameConfig, GameState, LevelArgs, Solution, Tile};

#[test]
fn direction_as_char_is_correct() {
    assert_eq!(Direction::Up.as_char(), 'U');
    assert_eq!(Direction::Down.as_char(), 'D');
    assert_eq!(Direction::Left.as_char(), 'L');
    assert_eq!(Direction::Right.as_char(), 'R');
}

#[test]
fn tile_as_char_maps_correctly() {
    assert_eq!(Tile::Wall.as_char(), 'W');
    assert_eq!(Tile::Rock.as_char(), 'R');
    assert_eq!(Tile::Start.as_char(), 'S');
    assert_eq!(Tile::End.as_char(), 'E');
    assert_eq!(Tile::Player.as_char(), 'P');
    assert_eq!(Tile::Ice.as_char(), ' ');
}

#[test]
fn solution_with_no_steps_returns_none() {
    let s = Solution {
        steps: None,
        edges_traversed: 5,
    };

    assert_eq!(s.get_solution_string(), None);
}

#[test]
fn solution_to_string_converts_directions_in_order() {
    let s = Solution {
        steps: Some(vec![
            Direction::Up,
            Direction::Right,
            Direction::Up,
            Direction::Down,
            Direction::Down,
            Direction::Left,
        ]),
        edges_traversed: 6,
    };

    assert_eq!(s.get_solution_string(), Some("URUDDL".to_string()));
}

#[test]
fn difficulty_names_map_to_their_configs() {
    let easy = GameConfig::get_config_from_difficulty("easy").unwrap();
    assert_eq!(easy.cols, 7);
    assert_eq!(easy.rows, 7);
    assert_eq!(easy.minimum_moves_required, 7);
    assert_eq!(easy.rock_probability, 15);

    let medium = GameConfig::get_config_from_difficulty("medium").unwrap();
    assert_eq!(medium.cols, 12);
    assert_eq!(medium.minimum_moves_required, 11);
    assert_eq!(medium.rock_probability, 15);

    let hard = GameConfig::get_config_from_difficulty("hard").unwrap();
    assert_eq!(hard.cols, 17);
    assert_eq!(hard.minimum_moves_required, 18);
    assert_eq!(hard.rock_probability, 10);

    let extreme = GameConfig::get_config_from_difficulty("extreme").unwrap();
    assert_eq!(extreme.cols, 20);
    assert_eq!(extreme.minimum_moves_required, 25);
    assert_eq!(extreme.rock_probability, 12);
}

#[test]
fn difficulty_matching_trims_and_ignores_case() {
    let a = GameConfig::get_config_from_difficulty("hARd").unwrap();
    assert_eq!(a.cols, 17);

    let b = GameConfig::get_config_from_difficulty("  easy  ").unwrap();
    assert_eq!(b.cols, 7);
}

#[test]
fn unknown_difficulty_is_rejected_with_message() {
    let err = GameConfig::get_config_from_difficulty("insane").unwrap_err();
    assert_eq!(
        err,
        "Unknown difficulty 'insane'. Expected one of: easy, medium, hard, or extreme."
    );
}

#[test]
fn game_state_from_level_args_applies_overrides() {
    let level = LevelArgs {
        difficulty: Some("easy".to_string()),
        columns: Some(10),
        rows: None,
        moves_required: Some(15),
        rock_percentage: None,
        full_level_view: true,
        debug: false,
    };
    let gs = GameState::from(level, false).unwrap();
    // Two border columns and rows are added around the playable area.
    assert_eq!(gs.config.cols, 12);
    assert_eq!(gs.config.rows, 9);
    assert_eq!(gs.config.minimum_moves_required, 15);
    assert_eq!(gs.config.rock_probability, 15);
    assert!(!gs.player_focused_view);
    assert_eq!(gs.levels_solved, 0);
}

#[test]
fn game_state_from_rejects_unknown_difficulty() {
    let level = LevelArgs {
        difficulty: Some("impossible".to_string()),
        columns: None,
        rows: None,
        moves_required: None,
        rock_percentage: None,
        full_level_view: false,
        debug: false,
    };
    assert!(GameState::from(level, false).is_err());
}

#[test]
fn introduction_section_has_all_lines() {
    let intro = glacier_slide::get_introduction_section();
    assert_eq!(intro.len(), 12);
    assert_eq!(intro[0], "Welcome to");
}
