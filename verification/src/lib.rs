//! A sliding-tile puzzle library: a player slides across frictionless ice
//! until hitting an obstacle, and must come to rest on the goal tile.
//!
//! The library covers the board model and its sliding physics, the move
//! queue that animates one tile per tick, the breadth-first solver, and the
//! generate-and-retry loop that produces random boards with a minimum
//! solution length.

mod board;
mod direction;
mod game;
mod game_state;
mod generator;
mod level;
mod moves;
mod parser;
mod point;
mod render;
mod rng;
mod solution;
mod solve;
mod solver;
mod tile;

pub use board::{construction_tile, dir_dc, dir_dr, pt_at, seq_has_point, turns_ok, Board, BoardLayout};
pub use direction::{Direction, Move, PlayerInput, Slide};
pub use game::get_introduction_section;
pub use game_state::{config_of_difficulty, eq_ignore_case, eq_ignore_case_char, first_non_space, is_space_char, last_non_space, spec_config, trimmed, GameConfig, GameState};
pub use generator::{border_non_corner, GenerationError};
pub use level::{allowed_char, export_char, export_chars, grid_parseable, grid_view, lemma_export_roundtrip, level_matches_grid, Level};
pub use parser::{all_digits, dec_val, digit_of, dimension_bounds, is_digit, moves_required, rock_percentage, Args, Command, LevelArgs, ServeArgs};
pub use moves::{inc_sat, lemma_passable_standable, lemma_slide_props, lemma_slide_steps_same, lemma_wf_frame, move_effect, same_static};
pub use point::Point;
pub use render::{arrow_chars, border_noise_chars, cell_chars, focused_lines, full_board_lines, noise_mix, noise_value, rocks_mixed, row_chars, tile_chars};
pub use solution::{direction_chars, Solution};
pub use solve::{count_false, legal_next, lemma_path_frame, lemma_path_passability, lemma_solution_frame, lemma_static_same_solutions, opposite};
pub use solver::{Solution as SolverSolution, Solver};
pub use tile::{End, Player, Rock, Start, Tile};
