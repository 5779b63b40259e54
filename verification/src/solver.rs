use vstd::prelude::*;
use crate::board::Board;
use crate::solution::direction_chars;

verus! {

/// What a full solver run reports: the solution strings found. The
/// breadth-first search returns at most the one shortest path it finds.
#[derive(Clone, Debug)]
pub struct Solution {
    pub solutions: Vec<String>,
}

impl Solution {
    /// True when the run found at least one solution.
    pub fn is_solvable(&self) -> (r: bool)
        ensures
            r == (self.solutions@.len() > 0),
    {
        self.solutions.len() > 0
    }
}

/// A solver bound to one board. It owns the board it searches, so the
/// search never leaves probe moves behind on a live game.
pub struct Solver {
    pub board: Board,
}

impl Solver {
    pub fn new(board: Board) -> (s: Solver)
        ensures
            s.board == board,
    {
        Solver { board }
    }

    /// A solver over a fresh copy of a board's static layout, with the
    /// player back at the start: the copy has exactly the same solutions
    /// as the board it was taken from.
    pub fn from_board(board: &Board) -> (s: Solver)
        requires
            board.wf(),
        ensures
            s.board.wf(),
            s.board.layout.rows == board.layout.rows,
            s.board.layout.cols == board.layout.cols,
            s.board.start_pt() == board.start_pt(),
            s.board.end_pt() == board.end_pt(),
            s.board.rock_pts() =~= board.rock_pts(),
            s.board.player_pt() == board.start_pt(),
            s.board.solution is None,
            forall|steps: Seq<crate::direction::Direction>| #[trigger] s.board.is_solution(steps)
                == board.is_solution(steps),
    {
        let rows = board.layout.rows;
        let cols = board.layout.cols;
        let mut rocks: Vec<crate::point::Point> = Vec::new();
        let mut i: usize = 0;
        while i < board.layout.rocks.len()
            invariant
                i <= board.layout.rocks@.len(),
                rocks@.len() == i,
                forall|j: int| 0 <= j < i ==> #[trigger] rocks@[j] == board.layout.rocks@[j].0,
            decreases board.layout.rocks@.len() - i,
        {
            rocks.push(board.layout.rocks[i].0);
            i = i + 1;
        }
        proof {
            assert(rocks@ =~= board.rock_pts());
        }
        let copy = Board::new(rows, cols, board.layout.start.0, board.layout.end.0, rocks);
        proof {
            assert(copy.wf());
            assert forall|steps: Seq<crate::direction::Direction>| #[trigger] copy.is_solution(
                steps,
            ) == board.is_solution(steps) by {
                crate::solve::lemma_static_same_solutions(*board, copy, steps);
            }
        }
        Solver { board: copy }
    }

    /// Runs the search to completion (the depth bound is far beyond any
    /// reachable path length) and reports the solution found, if any, as
    /// a direction string.
    pub fn solve(&mut self) -> (r: Solution)
        requires
            old(self).board.wf(),
        ensures
            final(self).board.wf(),
            final(self).board.layout == old(self).board.layout,
            final(self).board.player == old(self).board.player,
            match final(self).board.solution {
                Some(sol) => match sol.steps {
                    Some(st) => {
                        &&& r.solutions@.len() == 1
                        &&& r.solutions@[0]@ == direction_chars(st@)
                        &&& final(self).board.is_solution(st@)
                        &&& forall|p: Seq<crate::direction::Direction>|
                            #[trigger] final(self).board.is_solution(p) ==> st@.len() <= p.len()
                    },
                    None => r.solutions@.len() == 0 && (forall|p: Seq<crate::direction::Direction>|
                        #[trigger] final(self).board.is_solution(p) ==> p.len() > 65535),
                },
                None => false,
            },
    {
        self.board.solve(65535);
        let mut solutions: Vec<String> = Vec::new();
        match &self.board.solution {
            Some(sol) => {
                match sol.get_solution_string() {
                    Some(s) => {
                        solutions.push(s);
                    },
                    None => {},
                }
            },
            None => {},
        }
        Solution { solutions }
    }
}

} // verus!
