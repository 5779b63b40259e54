use vstd::prelude::*;
use crate::point::Point;

verus! {

/// The player's current position, tracked independently of the grid.
#[derive(Clone, Copy, PartialEq, Eq, Structural, Debug)]
pub struct Player(pub Point);

/// The authoritative start position, tracked independently of the grid.
#[derive(Clone, Copy, PartialEq, Eq, Structural, Debug)]
pub struct Start(pub Point);

/// The authoritative end (goal) position, tracked independently of the grid.
#[derive(Clone, Copy, PartialEq, Eq, Structural, Debug)]
pub struct End(pub Point);

/// One rock obstacle.
#[derive(Clone, Copy, PartialEq, Eq, Structural, Debug)]
pub struct Rock(pub Point);

/// What a grid cell holds. `Wall` and `Rock` block a slide without being
/// entered; `Start`, `End`, `Ice` and the player's own cell are passable.
#[derive(Clone, Copy, PartialEq, Eq, Structural, Debug)]
pub enum Tile {
    Wall,
    Rock,
    Start,
    End,
    Player,
    Ice,
}

impl Tile {
    /// The one-character code used by the board-layout export.
    pub open spec fn char_of(self) -> char {
        match self {
            Tile::Wall => 'W',
            Tile::Rock => 'R',
            Tile::Start => 'S',
            Tile::End => 'E',
            Tile::Player => 'P',
            Tile::Ice => ' ',
        }
    }

    /// True of the tiles a slide passes through; false of those that halt it.
    pub open spec fn is_passable(self) -> bool {
        match self {
            Tile::Wall | Tile::Rock => false,
            _ => true,
        }
    }

    /// True of the tiles that halt a slide.
    pub fn blocks(&self) -> (b: bool)
        ensures
            b == !self.is_passable(),
    {
        match self {
            Tile::Wall | Tile::Rock => true,
            _ => false,
        }
    }

    pub fn as_char(&self) -> (c: char)
        ensures
            c == self.char_of(),
    {
        match self {
            Tile::Wall => 'W',
            Tile::Rock => 'R',
            Tile::Start => 'S',
            Tile::End => 'E',
            Tile::Player => 'P',
            Tile::Ice => ' ',
        }
    }
}

} // verus!
