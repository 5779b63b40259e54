use vstd::prelude::*;
use crate::direction::Direction;

verus! {

/// The one-letter codes of a move sequence, in order.
pub open spec fn direction_chars(steps: Seq<Direction>) -> Seq<char> {
    steps.map_values(|d: Direction| d.char_of())
}

/// What a solver run produced: the move sequence if a path was found, and
/// how many graph nodes the search expanded (a diagnostic, not used for
/// correctness).
#[derive(Clone, Debug)]
pub struct Solution {
    pub steps: Option<Vec<Direction>>,
    pub edges_traversed: u32,
}

impl Solution {
    pub fn new() -> (s: Solution)
        ensures
            s.steps is None,
            s.edges_traversed == 0,
    {
        Solution { steps: None, edges_traversed: 0 }
    }

    /// The solution as a string of one-letter direction codes, or `None`
    /// when the search found no path.
    pub fn get_solution_string(&self) -> (r: Option<String>)
        ensures
            match r {
                Some(s) => {
                    &&& self.steps is Some
                    &&& s@ == direction_chars(self.steps->Some_0@)
                },
                None => self.steps is None,
            },
    {
        match &self.steps {
            None => None,
            Some(steps) => {
                let mut out = String::new();
                let mut i: usize = 0;
                proof {
                    assert(out@ =~= direction_chars(steps@.take(0)));
                }
                while i < steps.len()
                    invariant
                        i <= steps.len(),
                        out@ == direction_chars(steps@.take(i as int)),
                    decreases steps.len() - i,
                {
                    let d = steps[i];
                    match d {
                        Direction::Up => out.append("U"),
                        Direction::Down => out.append("D"),
                        Direction::Left => out.append("L"),
                        Direction::Right => out.append("R"),
                    }
                    proof {
                        reveal_strlit("U");
                        reveal_strlit("D");
                        reveal_strlit("L");
                        reveal_strlit("R");
                        assert(out@ =~= direction_chars(steps@.take(i + 1)));
                    }
                    i = i + 1;
                }
                proof {
                    assert(steps@.take(steps@.len() as int) =~= steps@);
                }
                Some(out)
            },
        }
    }
}

} // verus!
