use vstd::prelude::*;
use std::collections::VecDeque;
use crate::direction::{Direction, Move};
use crate::game_state::GameState;
use crate::point::Point;
use crate::solution::Solution;
use crate::tile::{End, Player, Rock, Start, Tile};

verus! {

/// True when `p` names the cell in row `r`, column `c`.
pub open spec fn pt_at(p: Point, r: int, c: int) -> bool {
    p.row == r && p.col == c
}

/// True when some point of `pts` names the cell in row `r`, column `c`.
pub open spec fn seq_has_point(pts: Seq<Point>, r: int, c: int) -> bool {
    exists|i: int| 0 <= i < pts.len() && pt_at(#[trigger] pts[i], r, c)
}

/// The row change of one step in direction `d`.
pub open spec fn dir_dr(d: Direction) -> int {
    match d {
        Direction::Up => -1,
        Direction::Down => 1,
        Direction::Left => 0,
        Direction::Right => 0,
    }
}

/// The column change of one step in direction `d`.
pub open spec fn dir_dc(d: Direction) -> int {
    match d {
        Direction::Up => 0,
        Direction::Down => 0,
        Direction::Left => -1,
        Direction::Right => 1,
    }
}

/// Consecutive moves of a solver path must change axis every time.
pub open spec fn turns_ok(s: Seq<Direction>) -> bool {
    forall|i: int| 0 <= i && i + 1 < s.len() ==> (#[trigger] s[i]).is_orthogonal_to(s[i + 1])
}

/// The tile that `Board::new` puts in row `r`, column `c`. Writes happen in
/// the order ice and walls, player at the start, end, rocks; a later write
/// wins where the inputs overlap.
pub open spec fn construction_tile(
    rows: int,
    cols: int,
    start: Point,
    end: Point,
    rocks: Seq<Point>,
    r: int,
    c: int,
) -> Tile {
    if seq_has_point(rocks, r, c) {
        Tile::Rock
    } else if pt_at(end, r, c) {
        Tile::End
    } else if pt_at(start, r, c) {
        Tile::Player
    } else if r == 0 || r == rows - 1 || c == 0 || c == cols - 1 {
        Tile::Wall
    } else {
        Tile::Ice
    }
}

/// The static, exportable part of a board: dimensions (border walls
/// included), the authoritative start and end, the rocks, and the grid of
/// tiles. The grid is derivable from the other fields but keeps a
/// human-readable picture of the level.
pub struct BoardLayout {
    pub rows: usize,
    pub cols: usize,
    pub start: Start,
    pub end: End,
    pub rocks: Vec<Rock>,
    pub grid: Vec<Vec<Tile>>,
}

/// A puzzle board. Coordinates start at (0, 0) in the top-left corner.
pub struct Board {
    pub layout: BoardLayout,
    pub player: Player,
    pub move_queue: VecDeque<Move>,
    pub player_has_won: bool,
    pub solution: Option<Solution>,
    pub game_state: Option<GameState>,
}

impl Board {
    pub open spec fn rows_i(self) -> int {
        self.layout.rows as int
    }

    pub open spec fn cols_i(self) -> int {
        self.layout.cols as int
    }

    pub open spec fn start_pt(self) -> Point {
        self.layout.start.0
    }

    pub open spec fn end_pt(self) -> Point {
        self.layout.end.0
    }

    pub open spec fn player_pt(self) -> Point {
        self.player.0
    }

    /// The rock positions, without their wrapper struct.
    pub open spec fn rock_pts(self) -> Seq<Point> {
        self.layout.rocks@.map_values(|rk: Rock| rk.0)
    }

    pub open spec fn in_bounds(self, r: int, c: int) -> bool {
        0 <= r < self.rows_i() && 0 <= c < self.cols_i()
    }

    /// The outermost ring of cells.
    pub open spec fn on_border(self, r: int, c: int) -> bool {
        r == 0 || r == self.rows_i() - 1 || c == 0 || c == self.cols_i() - 1
    }

    pub open spec fn is_interior(self, r: int, c: int) -> bool {
        self.in_bounds(r, c) && !self.on_border(r, c)
    }

    pub open spec fn has_rock(self, r: int, c: int) -> bool {
        seq_has_point(self.rock_pts(), r, c)
    }

    /// The tile a cell shows when the player is not on it.
    pub open spec fn base_tile(self, r: int, c: int) -> Tile {
        if pt_at(self.start_pt(), r, c) {
            Tile::Start
        } else if pt_at(self.end_pt(), r, c) {
            Tile::End
        } else if self.has_rock(r, c) {
            Tile::Rock
        } else if self.on_border(r, c) {
            Tile::Wall
        } else {
            Tile::Ice
        }
    }

    /// The tile a cell of a well-formed board shows: the player's cell shows
    /// the player, every other cell its underlying tile.
    pub open spec fn expected_tile(self, r: int, c: int) -> Tile {
        if pt_at(self.player_pt(), r, c) {
            Tile::Player
        } else {
            self.base_tile(r, c)
        }
    }

    /// What the grid actually holds in row `r`, column `c`.
    pub open spec fn tile_at(self, r: int, c: int) -> Tile {
        self.layout.grid@[r]@[c]
    }

    pub open spec fn wf_dims(self) -> bool {
        &&& 3 <= self.layout.rows <= 255
        &&& 3 <= self.layout.cols <= 255
        &&& self.layout.grid@.len() == self.layout.rows
        &&& forall|r: int|
            0 <= r < self.layout.grid@.len() ==> (#[trigger] self.layout.grid@[r])@.len()
                == self.layout.cols
    }

    /// The unchanging facts about a board's structure: sane dimensions,
    /// start and end in bounds and distinct, rocks in the interior and
    /// disjoint from start and end.
    pub open spec fn wf_static(self) -> bool {
        &&& self.wf_dims()
        &&& self.in_bounds(self.start_pt().row as int, self.start_pt().col as int)
        &&& self.in_bounds(self.end_pt().row as int, self.end_pt().col as int)
        &&& self.start_pt() != self.end_pt()
        &&& forall|i: int|
            0 <= i < self.rock_pts().len() ==> {
                &&& self.is_interior(
                    (#[trigger] self.rock_pts()[i]).row as int,
                    self.rock_pts()[i].col as int,
                )
                &&& self.rock_pts()[i] != self.start_pt()
                &&& self.rock_pts()[i] != self.end_pt()
            }
    }

    /// The player stands in bounds, never on a rock, and on the border only
    /// at the start or end opening.
    pub open spec fn player_ok(self) -> bool {
        &&& self.in_bounds(self.player_pt().row as int, self.player_pt().col as int)
        &&& !self.has_rock(self.player_pt().row as int, self.player_pt().col as int)
        &&& self.on_border(self.player_pt().row as int, self.player_pt().col as int) ==> (
        self.player_pt() == self.start_pt() || self.player_pt() == self.end_pt())
    }

    /// Every grid cell agrees with the tile the tracked positions predict.
    pub open spec fn grid_ok(self) -> bool {
        forall|r: int, c: int| self.in_bounds(r, c) ==> #[trigger] self.tile_at(r, c)
            == self.expected_tile(r, c)
    }

    /// Well-formedness of a live board.
    pub open spec fn wf(self) -> bool {
        &&& self.wf_static()
        &&& self.player_ok()
        &&& self.grid_ok()
    }

    /// A cell a slide can pass through: in bounds and not a wall or rock.
    /// Cells outside the board count as blocking, like walls.
    pub open spec fn passable(self, r: int, c: int) -> bool {
        self.in_bounds(r, c) && self.tile_at(r, c).is_passable()
    }

    /// A cell the player can come to rest on.
    pub open spec fn standable(self, r: int, c: int) -> bool {
        &&& self.in_bounds(r, c)
        &&& !self.has_rock(r, c)
        &&& (r == 0 || r == self.rows_i() - 1 || c == 0 || c == self.cols_i() - 1) ==> (pt_at(
            self.start_pt(),
            r,
            c,
        ) || pt_at(self.end_pt(), r, c))
    }

    /// An upper bound on how far a slide from (`r`, `c`) in direction `d`
    /// can still travel; used as the termination measure of `slide_steps`.
    pub open spec fn slide_measure(self, r: int, c: int, d: Direction) -> int {
        match d {
            Direction::Up => r,
            Direction::Down => self.rows_i() - r,
            Direction::Left => c,
            Direction::Right => self.cols_i() - c,
        }
    }

    /// How many cells a slide from (`r`, `c`) in direction `d` travels: it
    /// enters passable cells one at a time and halts in front of the first
    /// blocking cell (wall, rock, or the board edge).
    pub open spec fn slide_steps(self, r: int, c: int, d: Direction) -> nat
        decreases self.slide_measure(r, c, d),
    {
        if !self.in_bounds(r, c) {
            0
        } else if !self.passable(r + dir_dr(d), c + dir_dc(d)) {
            0
        } else {
            (1 + self.slide_steps(r + dir_dr(d), c + dir_dc(d), d)) as nat
        }
    }

    /// Where a slide from (`r`, `c`) in direction `d` comes to rest.
    pub open spec fn slide_dest(self, r: int, c: int, d: Direction) -> (int, int) {
        let n = self.slide_steps(r, c, d) as int;
        match d {
            Direction::Up => (r - n, c),
            Direction::Down => (r + n, c),
            Direction::Left => (r, c - n),
            Direction::Right => (r, c + n),
        }
    }

    /// Every move of `s`, taken as a full slide from (`r`, `c`) onwards,
    /// travels at least one cell.
    pub open spec fn path_ok(self, r: int, c: int, s: Seq<Direction>) -> bool
        decreases s.len(),
    {
        s.len() == 0 || {
            &&& self.slide_steps(r, c, s[0]) > 0
            &&& self.path_ok(self.slide_dest(r, c, s[0]).0, self.slide_dest(r, c, s[0]).1, s.skip(1))
        }
    }

    /// Where the moves of `s`, taken as full slides from (`r`, `c`), end.
    pub open spec fn path_dest(self, r: int, c: int, s: Seq<Direction>) -> (int, int)
        decreases s.len(),
    {
        if s.len() == 0 {
            (r, c)
        } else {
            self.path_dest(self.slide_dest(r, c, s[0]).0, self.slide_dest(r, c, s[0]).1, s.skip(1))
        }
    }

    /// What it means for a move sequence to solve this board: at least one
    /// move, every slide travels, consecutive moves change axis, and the
    /// last slide comes to rest exactly on the end cell.
    pub open spec fn is_solution(self, s: Seq<Direction>) -> bool {
        &&& s.len() >= 1
        &&& self.path_ok(self.start_pt().row as int, self.start_pt().col as int, s)
        &&& self.path_dest(self.start_pt().row as int, self.start_pt().col as int, s) == (
        self.end_pt().row as int, self.end_pt().col as int)
        &&& turns_ok(s)
    }

    /// Builds a board: border walls around ice, then the player on the
    /// start cell, the end marker, and the rocks, in that order, so a later
    /// write wins where the inputs overlap. When the inputs are consistent
    /// (start and end distinct, rocks interior and away from both), the
    /// result is well-formed.
    pub fn new(rows: usize, cols: usize, start: Point, end: Point, rocks: Vec<Point>) -> (b: Board)
        requires
            3 <= rows <= 255,
            3 <= cols <= 255,
            start.row < rows && start.col < cols,
            end.row < rows && end.col < cols,
            forall|i: int|
                0 <= i < rocks@.len() ==> (#[trigger] rocks@[i]).row < rows && rocks@[i].col < cols,
        ensures
            b.layout.rows == rows,
            b.layout.cols == cols,
            b.start_pt() == start,
            b.end_pt() == end,
            b.rock_pts() =~= rocks@,
            b.player_pt() == start,
            b.move_queue@.len() == 0,
            !b.player_has_won,
            b.solution is None,
            b.game_state is None,
            b.wf_dims(),
            forall|r: int, c: int|
                b.in_bounds(r, c) ==> #[trigger] b.tile_at(r, c) == construction_tile(
                    rows as int,
                    cols as int,
                    start,
                    end,
                    rocks@,
                    r,
                    c,
                ),
            (start != end && forall|i: int|
                0 <= i < rocks@.len() ==> {
                    &&& 1 <= (#[trigger] rocks@[i]).row < rows - 1
                    &&& 1 <= rocks@[i].col < cols - 1
                    &&& rocks@[i] != start
                    &&& rocks@[i] != end
                }) ==> b.wf(),
    {
        let mut grid: Vec<Vec<Tile>> = Vec::new();
        let mut r: usize = 0;
        while r < rows
            invariant
                r <= rows,
                3 <= rows <= 255,
                3 <= cols <= 255,
                start.row < rows && start.col < cols,
                end.row < rows && end.col < cols,
                grid@.len() == r,
                forall|ri: int| 0 <= ri < r ==> (#[trigger] grid@[ri])@.len() == cols,
                forall|ri: int, ci: int|
                    0 <= ri < r && 0 <= ci < cols ==> (#[trigger] grid@[ri]@[ci])
                        == construction_tile(rows as int, cols as int, start, end, rocks@, ri, ci),
            decreases rows - r,
        {
            let mut row_vec: Vec<Tile> = Vec::new();
            let mut c: usize = 0;
            while c < cols
                invariant
                    c <= cols,
                    3 <= rows <= 255,
                    3 <= cols <= 255,
                    r < rows,
                    start.row < rows && start.col < cols,
                    end.row < rows && end.col < cols,
                    row_vec@.len() == c,
                    forall|ci: int|
                        0 <= ci < c ==> (#[trigger] row_vec@[ci]) == construction_tile(
                            rows as int,
                            cols as int,
                            start,
                            end,
                            rocks@,
                            r as int,
                            ci,
                        ),
                decreases cols - c,
            {
                let t = if rocks_contain(&rocks, r, c) {
                    Tile::Rock
                } else if end.row == r && end.col == c {
                    Tile::End
                } else if start.row == r && start.col == c {
                    Tile::Player
                } else if r == 0 || r == rows - 1 || c == 0 || c == cols - 1 {
                    Tile::Wall
                } else {
                    Tile::Ice
                };
                row_vec.push(t);
                c = c + 1;
            }
            grid.push(row_vec);
            r = r + 1;
        }
        let mut rock_structs: Vec<Rock> = Vec::new();
        let mut i: usize = 0;
        while i < rocks.len()
            invariant
                i <= rocks@.len(),
                rock_structs@.len() == i,
                forall|j: int| 0 <= j < i ==> (#[trigger] rock_structs@[j]).0 == rocks@[j],
            decreases rocks@.len() - i,
        {
            rock_structs.push(Rock(rocks[i]));
            i = i + 1;
        }
        let b = Board {
            layout: BoardLayout {
                rows,
                cols,
                start: Start(start),
                end: End(end),
                rocks: rock_structs,
                grid,
            },
            player: Player(start),
            move_queue: VecDeque::new(),
            player_has_won: false,
            solution: None,
            game_state: None,
        };
        proof {
            assert(b.rock_pts() =~= rocks@);
            if start != end && forall|i: int|
                0 <= i < rocks@.len() ==> {
                    &&& 1 <= (#[trigger] rocks@[i]).row < rows - 1
                    &&& 1 <= rocks@[i].col < cols - 1
                    &&& rocks@[i] != start
                    &&& rocks@[i] != end
                } {
                assert forall|r: int, c: int| b.in_bounds(r, c) implies #[trigger] b.tile_at(r, c)
                    == b.expected_tile(r, c) by {
                    if b.has_rock(r, c) {
                        let i = choose|i: int|
                            0 <= i < b.rock_pts().len() && pt_at(#[trigger] b.rock_pts()[i], r, c);
                        assert(rocks@[i].row == r && rocks@[i].col == c);
                    }
                    if seq_has_point(rocks@, r, c) {
                        let i = choose|i: int|
                            0 <= i < rocks@.len() && pt_at(#[trigger] rocks@[i], r, c);
                        assert(pt_at(b.rock_pts()[i], r, c));
                    }
                }
                assert(b.wf());
            }
        }
        b
    }

    /// True when the player stands on the end cell.
    pub fn player_won(&self) -> (won: bool)
        ensures
            won == (self.player_pt() == self.end_pt()),
    {
        self.player.0 == self.layout.end.0
    }

    /// Game state is not needed while generating boards, but is attached
    /// when a level is played, so wins and view toggles can be recorded.
    pub fn attach_game_state(&mut self, game_state: GameState)
        ensures
            *final(self) == (Board { game_state: Some(game_state), ..*old(self) }),
    {
        self.game_state = Some(game_state);
    }
}

/// True when some point of `rocks` names the cell in row `r`, column `c`.
fn rocks_contain(rocks: &Vec<Point>, r: usize, c: usize) -> (b: bool)
    ensures
        b == seq_has_point(rocks@, r as int, c as int),
{
    let mut i: usize = 0;
    while i < rocks.len()
        invariant
            i <= rocks@.len(),
            forall|j: int| 0 <= j < i ==> !pt_at(#[trigger] rocks@[j], r as int, c as int),
        decreases rocks@.len() - i,
    {
        if rocks[i].row == r && rocks[i].col == c {
            return true;
        }
        i = i + 1;
    }
    false
}

} // verus!
