use glacier_slide::{dimension_bounds, moves_required, rock_percentage, GameState, LevelArgs};

//////////////////////
// Bounds functions //
//////////////////////
#[test]
fn dimension_bounds_accepts_in_range_values() {
    assert_eq!(dimension_bounds("3").unwrap(), 3); // lower bound
    assert_eq!(dimension_bounds("10").unwrap(), 10); // middle value
    assert_eq!(dimension_bounds("20").unwrap(), 20); // upper bound
}

#[test]
fn dimension_bounds_rejects_out_of_range_values() {
    assert!(dimension_bounds("2").is_err()); // too low
    assert!(dimension_bounds("21").is_err()); // too high
}

#[test]
fn moves_required_accepts_in_range_values() {
    assert_eq!(moves_required("1").unwrap(), 1); // lower bound
    assert_eq!(moves_required("10").unwrap(), 10); // middle value
    assert_eq!(moves_required("35").unwrap(), 35); // upper bound
}

#[test]
fn moves_required_rejects_out_of_range_values() {
    assert!(moves_required("0").is_err()); // too low
    assert!(moves_required("36").is_err()); // too high
}

#[test]
fn rock_percentage_accepts_in_range_values() {
    assert_eq!(rock_percentage("5").unwrap(), 5); // lower bound
    assert_eq!(rock_percentage("25").unwrap(), 25); // middle value
    assert_eq!(rock_percentage("50").unwrap(), 50); // upper bound
}

#[test]
fn rock_percentage_rejects_out_of_range_values() {
    assert!(rock_percentage("4").is_err()); // too low
    assert!(rock_percentage("51").is_err()); // too high
}

#[test]
fn bounds_functions_reject_non_numbers() {
    assert!(dimension_bounds("").is_err());
    assert!(dimension_bounds("1x").is_err());
    assert!(rock_percentage("fifty").is_err());
}

fn level_args(difficulty: Option<&str>, rock_percentage_arg: Option<&str>) -> Option<LevelArgs> {
    // The host command line hands the library validated values; this
    // mirrors that path for a single difficulty and rock-percentage pair.
    let rock = match rock_percentage_arg {
        Some(raw) => match rock_percentage(raw) {
            Ok(v) => Some(v),
            Err(_) => return None,
        },
        None => None,
    };
    Some(LevelArgs {
        difficulty: difficulty.map(str::to_string),
        columns: None,
        rows: None,
        moves_required: None,
        rock_percentage: rock,
        full_level_view: false,
        debug: false,
    })
}

/////////////////////
// Play subcommand //
/////////////////////
#[test]
fn parse_play_rejects_invalid_difficulty() {
    // "insane" is not a valid difficulty
    let level = level_args(Some("insane"), None).unwrap();
    assert!(GameState::from(level, false).is_err());
}

#[test]
fn parse_play_rejects_out_of_range_rock_percentage() {
    // Below minimum (5)
    assert!(level_args(Some("easy"), Some("1")).is_none());

    // Above maximum (50)
    assert!(level_args(Some("easy"), Some("99")).is_none());
}

/////////////////////////
// Generate subcommand //
/////////////////////////
#[test]
fn parse_generate_rejects_out_of_range_rock_percentage() {
    // Below minimum (5)
    assert!(level_args(Some("easy"), Some("1")).is_none());

    // Above maximum (50)
    assert!(level_args(Some("easy"), Some("99")).is_none());
}
