use vstd::prelude::*;

verus! {

/// One of the four slide directions.
#[derive(Clone, Copy, PartialEq, Eq, Structural, Hash, Debug)]
pub enum Direction {
    Up,
    Down,
    Left,
    Right,
}

impl Direction {
    /// The one-letter code used when a solution is shown as a string.
    pub open spec fn char_of(self) -> char {
        match self {
            Direction::Up => 'U',
            Direction::Down => 'D',
            Direction::Left => 'L',
            Direction::Right => 'R',
        }
    }

    /// True of `Up` and `Down`; a slide changes the row exactly when its
    /// direction is vertical.
    pub open spec fn is_vertical(self) -> bool {
        self == Direction::Up || self == Direction::Down
    }

    /// Two directions are orthogonal when one is vertical and the other is
    /// horizontal. Consecutive solver moves must be orthogonal.
    pub open spec fn is_orthogonal_to(self, other: Direction) -> bool {
        self.is_vertical() != other.is_vertical()
    }

    pub fn as_char(self) -> (c: char)
        ensures
            c == self.char_of(),
    {
        match self {
            Direction::Up => 'U',
            Direction::Down => 'D',
            Direction::Left => 'L',
            Direction::Right => 'R',
        }
    }

    /// Every direction, in the order the solver tries them from the first
    /// position of a search.
    pub fn all() -> (dirs: Vec<Direction>)
        ensures
            dirs@ =~= seq![
                Direction::Up,
                Direction::Right,
                Direction::Down,
                Direction::Left,
            ],
    {
        let mut dirs: Vec<Direction> = Vec::new();
        dirs.push(Direction::Up);
        dirs.push(Direction::Right);
        dirs.push(Direction::Down);
        dirs.push(Direction::Left);
        dirs
    }
}

/// An in-flight multi-tile move: a direction and the steps still to take,
/// consumed one tile per simulation tick.
#[derive(Clone, Copy, PartialEq, Eq, Structural, Debug)]
pub struct Slide {
    pub steps: u8,
    pub direction: Direction,
}

impl Slide {
    pub fn new(steps: u8, direction: Direction) -> (s: Slide)
        ensures
            s == (Slide { steps, direction }),
    {
        Slide { steps, direction }
    }
}

/// A queued discrete action, consumed one entry per simulation tick.
#[derive(Clone, Copy, PartialEq, Eq, Structural, Debug)]
pub enum Move {
    SlidePlayer(Slide),
    Reset,
    ChangeView,
    ShowSolution,
    Exit,
}

/// A control intent from the input layer, before the board has decided
/// whether to queue anything for it. A slide intent carries only its
/// direction; the board computes the step count.
#[derive(Clone, Copy, PartialEq, Eq, Structural, Debug)]
pub enum PlayerInput {
    Slide(Direction),
    Reset,
    ChangeView,
    ShowSolution,
    Exit,
}

} // verus!
