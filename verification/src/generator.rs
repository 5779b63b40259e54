use vstd::prelude::*;
use crate::board::Board;
use crate::game_state::GameConfig;
use crate::point::Point;
use crate::rng::random_below;

verus! {

/// A border cell that is not a corner: the cells where the generator may
/// put the start and end openings.
pub open spec fn border_non_corner(rows: int, cols: int, p: Point) -> bool {
    ||| ((p.row == 0 || p.row == rows - 1) && 1 <= p.col < cols - 1)
    ||| ((p.col == 0 || p.col == cols - 1) && 1 <= p.row < rows - 1)
}

/// Why board generation gave up.
#[derive(Clone, Copy, PartialEq, Eq, Structural, Debug)]
pub enum GenerationError {
    /// No board meeting the minimum solution length was found within the
    /// retry ceiling; the request parameters are statistically
    /// near-impossible to satisfy.
    RetryLimitExceeded,
}

impl GenerationError {
    /// A human-readable description of the failure.
    pub fn message(&self) -> (m: &'static str)
        ensures
            m@ == "Could not find solvable level after 1,000,000 attempts. Adjust board parameters."@,
    {
        match self {
            GenerationError::RetryLimitExceeded => {
                "Could not find solvable level after 1,000,000 attempts. Adjust board parameters."
            },
        }
    }
}

impl Board {
    /// Two distinct cells drawn uniformly from the four border edges,
    /// corners excluded.
    fn get_random_start_and_end(cols: usize, rows: usize) -> (r: (Point, Point))
        requires
            3 <= cols <= 255,
            3 <= rows <= 255,
        ensures
            border_non_corner(rows as int, cols as int, r.0),
            border_non_corner(rows as int, cols as int, r.1),
            r.0 != r.1,
    {
        let mut candidates: Vec<Point> = Vec::new();
        let top_len = cols - 2;
        let side_len = rows - 2;
        let mut c: usize = 1;
        while c < cols - 1
            invariant
                3 <= cols <= 255,
                1 <= c <= cols - 1,
                candidates@.len() == c - 1,
                forall|i: int|
                    0 <= i < candidates@.len() ==> #[trigger] candidates@[i] == (Point {
                        row: 0,
                        col: (i + 1) as usize,
                    }),
            decreases cols - c,
        {
            candidates.push(Point { row: 0, col: c });
            c = c + 1;
        }
        let mut c: usize = 1;
        while c < cols - 1
            invariant
                3 <= cols <= 255,
                3 <= rows <= 255,
                top_len == cols - 2,
                1 <= c <= cols - 1,
                candidates@.len() == top_len + c - 1,
                forall|i: int|
                    0 <= i < top_len ==> #[trigger] candidates@[i] == (Point {
                        row: 0,
                        col: (i + 1) as usize,
                    }),
                forall|i: int|
                    top_len <= i < candidates@.len() ==> #[trigger] candidates@[i] == (Point {
                        row: (rows - 1) as usize,
                        col: (i - top_len + 1) as usize,
                    }),
            decreases cols - c,
        {
            candidates.push(Point { row: rows - 1, col: c });
            c = c + 1;
        }
        let mut r: usize = 1;
        while r < rows - 1
            invariant
                3 <= cols <= 255,
                3 <= rows <= 255,
                top_len == cols - 2,
                side_len == rows - 2,
                1 <= r <= rows - 1,
                candidates@.len() == 2 * top_len + r - 1,
                forall|i: int|
                    0 <= i < top_len ==> #[trigger] candidates@[i] == (Point {
                        row: 0,
                        col: (i + 1) as usize,
                    }),
                forall|i: int|
                    top_len <= i < 2 * top_len ==> #[trigger] candidates@[i] == (Point {
                        row: (rows - 1) as usize,
                        col: (i - top_len + 1) as usize,
                    }),
                forall|i: int|
                    2 * top_len <= i < candidates@.len() ==> #[trigger] candidates@[i] == (Point {
                        row: (i - 2 * top_len + 1) as usize,
                        col: 0,
                    }),
            decreases rows - r,
        {
            candidates.push(Point { row: r, col: 0 });
            r = r + 1;
        }
        let mut r: usize = 1;
        while r < rows - 1
            invariant
                3 <= cols <= 255,
                3 <= rows <= 255,
                top_len == cols - 2,
                side_len == rows - 2,
                1 <= r <= rows - 1,
                candidates@.len() == 2 * top_len + side_len + r - 1,
                forall|i: int|
                    0 <= i < top_len ==> #[trigger] candidates@[i] == (Point {
                        row: 0,
                        col: (i + 1) as usize,
                    }),
                forall|i: int|
                    top_len <= i < 2 * top_len ==> #[trigger] candidates@[i] == (Point {
                        row: (rows - 1) as usize,
                        col: (i - top_len + 1) as usize,
                    }),
                forall|i: int|
                    2 * top_len <= i < 2 * top_len + side_len ==> #[trigger] candidates@[i] == (
                    Point { row: (i - 2 * top_len + 1) as usize, col: 0 }),
                forall|i: int|
                    2 * top_len + side_len <= i < candidates@.len() ==> #[trigger] candidates@[i]
                        == (Point {
                        row: (i - 2 * top_len - side_len + 1) as usize,
                        col: (cols - 1) as usize,
                    }),
            decreases rows - r,
        {
            candidates.push(Point { row: r, col: cols - 1 });
            r = r + 1;
        }
        let total = candidates.len();
        let start_idx = random_below(total);
        let mut end_idx = random_below(total - 1);
        if end_idx >= start_idx {
            end_idx = end_idx + 1;
        }
        proof {
            assert(candidates@[start_idx as int] != candidates@[end_idx as int]);
            assert(border_non_corner(rows as int, cols as int, candidates@[start_idx as int]));
            assert(border_non_corner(rows as int, cols as int, candidates@[end_idx as int]));
        }
        (candidates[start_idx], candidates[end_idx])
    }

    /// Rolls whether the cell in column `col`, row `row` holds a rock,
    /// with the given percent probability.
    fn generate_rock(col: usize, row: usize, percent_probability: u8) -> (r: Option<Point>)
        ensures
            r matches Some(p) ==> p == (Point { col, row }),
            percent_probability == 0 ==> r is None,
            percent_probability >= 100 ==> r is Some,
    {
        let value = random_below(100) + 1;
        if value <= percent_probability as usize {
            Some(Point { col, row })
        } else {
            None
        }
    }

    /// One random candidate board: start and end on the border (corners
    /// excluded), each interior cell a rock with the configured
    /// probability.
    fn generate_random_board(game_config: &GameConfig) -> (b: Board)
        requires
            game_config.cols >= 3,
            game_config.rows >= 3,
        ensures
            b.wf(),
            b.layout.rows == game_config.rows,
            b.layout.cols == game_config.cols,
            border_non_corner(b.rows_i(), b.cols_i(), b.start_pt()),
            border_non_corner(b.rows_i(), b.cols_i(), b.end_pt()),
            b.player_pt() == b.start_pt(),
            b.move_queue@.len() == 0,
            !b.player_has_won,
            b.solution is None,
            b.game_state is None,
    {
        let cols = game_config.cols as usize;
        let rows = game_config.rows as usize;
        let (start, end) = Board::get_random_start_and_end(cols, rows);
        let mut rocks: Vec<Point> = Vec::new();
        let mut col: usize = 1;
        while col < cols - 1
            invariant
                3 <= cols <= 255,
                3 <= rows <= 255,
                1 <= col <= cols - 1,
                forall|i: int|
                    0 <= i < rocks@.len() ==> {
                        &&& 1 <= (#[trigger] rocks@[i]).row < rows - 1
                        &&& 1 <= rocks@[i].col < cols - 1
                    },
            decreases cols - col,
        {
            let mut row: usize = 1;
            while row < rows - 1
                invariant
                    3 <= cols <= 255,
                    3 <= rows <= 255,
                    1 <= col < cols - 1,
                    1 <= row <= rows - 1,
                    forall|i: int|
                        0 <= i < rocks@.len() ==> {
                            &&& 1 <= (#[trigger] rocks@[i]).row < rows - 1
                            &&& 1 <= rocks@[i].col < cols - 1
                        },
                decreases rows - row,
            {
                if let Some(p) = Board::generate_rock(col, row, game_config.rock_probability) {
                    rocks.push(p);
                }
                row = row + 1;
            }
            col = col + 1;
        }
        proof {
            assert(forall|i: int|
                0 <= i < rocks@.len() ==> #[trigger] rocks@[i] != start && rocks@[i] != end);
        }
        Board::new(rows, cols, start, end, rocks)
    }

    /// Generates random boards until one is solvable in at least
    /// `minimum_moves_required` moves, searching with a depth bound two
    /// beyond that minimum. The returned board carries its solution. Fails
    /// only when a million candidates in a row fall short.
    pub fn generate_solvable_board(game_config: &GameConfig) -> (r: Result<Board, GenerationError>)
        requires
            game_config.valid(),
        ensures
            match r {
                Ok(b) => {
                    &&& b.wf()
                    &&& b.layout.rows == game_config.rows
                    &&& b.layout.cols == game_config.cols
                    &&& border_non_corner(b.rows_i(), b.cols_i(), b.start_pt())
                    &&& border_non_corner(b.rows_i(), b.cols_i(), b.end_pt())
                    &&& b.player_pt() == b.start_pt()
                    &&& b.move_queue@.len() == 0
                    &&& !b.player_has_won
                    &&& b.game_state is None
                    &&& match b.solution {
                        Some(sol) => match sol.steps {
                            Some(s) => {
                                &&& b.is_solution(s@)
                                &&& s@.len() >= game_config.minimum_moves_required
                                &&& s@.len() <= game_config.minimum_moves_required + 3
                                &&& forall|p: Seq<crate::direction::Direction>|
                                    #[trigger] b.is_solution(p) ==> s@.len() <= p.len()
                            },
                            None => false,
                        },
                        None => false,
                    }
                },
                Err(e) => e == GenerationError::RetryLimitExceeded,
            },
    {
        let mut board_count: u32 = 0;
        while board_count < 1000000
            invariant
                game_config.valid(),
            decreases 1000000 - board_count,
        {
            board_count = board_count + 1;
            let mut board = Board::generate_random_board(game_config);
            let max_depth = game_config.minimum_moves_required + 2;
            board.solve(max_depth);
            let found = match &board.solution {
                Some(sol) => match &sol.steps {
                    Some(steps) => steps.len() >= game_config.minimum_moves_required as usize,
                    None => false,
                },
                None => false,
            };
            if found {
                return Ok(board);
            }
        }
        Err(GenerationError::RetryLimitExceeded)
    }
}

} // verus!
