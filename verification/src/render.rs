use vstd::prelude::*;
use crate::board::Board;
use crate::point::Point;
use crate::tile::Tile;

verus! {

/// Parameters of the mixing function behind the border noise.
pub const NOISE_SEED: u64 = 0xcbf29ce484222325;

pub const NOISE_PRIME: u64 = 0x100000001b3;

/// Offset added to screen coordinates before mixing, so that the cells
/// just outside the board still have non-negative codes.
pub const NOISE_SHIFT: i64 = 512;

/// One round of the mixing function: exclusive-or, then a wrapping
/// multiply by the prime.
pub open spec fn noise_mix(h: u64, v: u64) -> u64 {
    (((h ^ v) as nat * NOISE_PRIME as nat) % 0x10000000000000000nat) as u64
}

/// The rocks folded into the hash, one coordinate pair at a time.
pub open spec fn rocks_mixed(rocks: Seq<Point>, i: int, h: u64) -> u64
    decreases rocks.len() - i,
{
    if i < 0 || i >= rocks.len() {
        h
    } else {
        rocks_mixed(rocks, i + 1, noise_mix(noise_mix(h, rocks[i].row as u64), rocks[i].col as u64))
    }
}

/// The deterministic noise value for the out-of-bounds cell with the
/// given shifted coordinate codes.
pub open spec fn noise_value(b: Board, col_code: u64, row_code: u64) -> u64 {
    rocks_mixed(b.rock_pts(), 0, noise_mix(noise_mix(NOISE_SEED, col_code), row_code))
}

/// The two-column picture of one rendered cell.
pub open spec fn arrow_chars(b: Board, start_position: bool, r: int, c: int) -> Seq<char> {
    if c == 0 {
        if start_position {
            "▷ "@
        } else {
            "◁ "@
        }
    } else if c == b.cols_i() - 1 {
        if start_position {
            " ◁"@
        } else {
            " ▷"@
        }
    } else if r == 0 {
        if start_position {
            "▽ "@
        } else {
            "△ "@
        }
    } else if start_position {
        "△ "@
    } else {
        "▽ "@
    }
}

/// What an in-bounds cell renders as.
pub open spec fn tile_chars(b: Board, r: int, c: int) -> Seq<char> {
    match b.tile_at(r, c) {
        Tile::Wall | Tile::Rock => "██"@,
        Tile::Player => "🟥"@,
        Tile::Ice => "  "@,
        Tile::Start => arrow_chars(b, true, r, c),
        Tile::End => arrow_chars(b, false, r, c),
    }
}

/// What an out-of-bounds cell renders as: mostly wall blocks, with gaps
/// chosen by a hash of the coordinates and the rocks, so the noise is
/// stable from frame to frame yet unpredictable.
pub open spec fn border_noise_chars(b: Board, r: int, c: int) -> Seq<char> {
    if noise_value(b, (c + NOISE_SHIFT) as u64, (r + NOISE_SHIFT) as u64) % 10 < 8 {
        "██"@
    } else {
        "  "@
    }
}

/// What any screen cell of the player-focused view renders as.
pub open spec fn cell_chars(b: Board, r: int, c: int) -> Seq<char> {
    if b.in_bounds(r, c) {
        tile_chars(b, r, c)
    } else {
        border_noise_chars(b, r, c)
    }
}

/// The rendered row of `count` cells starting at column `c`, left to
/// right.
pub open spec fn row_chars(b: Board, r: int, c: int, count: int) -> Seq<char>
    decreases count,
{
    if count <= 0 {
        Seq::empty()
    } else {
        row_chars(b, r, c, count - 1) + cell_chars(b, r, c + count - 1)
    }
}

/// The full-board picture: every row of the grid.
pub open spec fn full_board_lines(b: Board) -> Seq<Seq<char>> {
    Seq::new(b.rows_i() as nat, |r: int| row_chars(b, r, 0, b.cols_i()))
}

/// The player-focused picture: a nine-by-nine window centred on the
/// player, padded with border noise outside the board.
pub open spec fn focused_lines(b: Board) -> Seq<Seq<char>> {
    Seq::new(
        9nat,
        |i: int|
            row_chars(
                b,
                b.player_pt().row as int - 4 + i,
                b.player_pt().col as int - 4,
                9,
            ),
    )
}

impl Board {
    /// The deterministic noise hash: the coordinate codes and every rock
    /// folded into the seed with xor-and-multiply rounds.
    fn calculate_hash(&self, col_code: u64, row_code: u64) -> (h: u64)
        ensures
            h == noise_value(*self, col_code, row_code),
    {
        let mut h: u64 = NOISE_SEED;
        h = (h ^ col_code).wrapping_mul(NOISE_PRIME);
        h = (h ^ row_code).wrapping_mul(NOISE_PRIME);
        let mut i: usize = 0;
        while i < self.layout.rocks.len()
            invariant
                i <= self.layout.rocks@.len(),
                noise_value(*self, col_code, row_code) == rocks_mixed(
                    self.rock_pts(),
                    i as int,
                    h,
                ),
            decreases self.layout.rocks@.len() - i,
        {
            let p = self.layout.rocks[i].0;
            h = (h ^ (p.row as u64)).wrapping_mul(NOISE_PRIME);
            h = (h ^ (p.col as u64)).wrapping_mul(NOISE_PRIME);
            proof {
                assert(self.rock_pts()[i as int] == p);
            }
            i = i + 1;
        }
        h
    }

    /// The pair of arrow characters that mark the start or end opening,
    /// pointing into the board from whichever edge the cell sits on.
    fn create_arrows(&self, start_position: bool, p: Point) -> (out: String)
        requires
            self.wf_dims(),
        ensures
            out@ == arrow_chars(*self, start_position, p.row as int, p.col as int),
    {
        if p.col == 0 {
            if start_position {
                String::from_str("▷ ")
            } else {
                String::from_str("◁ ")
            }
        } else if p.col == self.layout.cols - 1 {
            if start_position {
                String::from_str(" ◁")
            } else {
                String::from_str(" ▷")
            }
        } else if p.row == 0 {
            if start_position {
                String::from_str("▽ ")
            } else {
                String::from_str("△ ")
            }
        } else if start_position {
            String::from_str("△ ")
        } else {
            String::from_str("▽ ")
        }
    }

    /// What the screen cell in row `row`, column `col` shows: the tile's
    /// picture inside the board, deterministic wall noise outside it.
    fn render_tile_at(&self, col: i64, row: i64, inside_bounds: bool) -> (out: String)
        requires
            self.wf(),
            -NOISE_SHIFT < col < NOISE_SHIFT,
            -NOISE_SHIFT < row < NOISE_SHIFT,
            inside_bounds == (0 <= row < self.rows_i() && 0 <= col < self.cols_i()),
        ensures
            out@ == cell_chars(*self, row as int, col as int),
    {
        if !inside_bounds {
            let v = self.calculate_hash((col + NOISE_SHIFT) as u64, (row + NOISE_SHIFT) as u64);
            if v % 10 < 8 {
                return String::from_str("██");
            } else {
                return String::from_str("  ");
            }
        }
        let col_usize = col as usize;
        let row_usize = row as usize;
        match self.layout.grid[row_usize][col_usize] {
            Tile::Wall | Tile::Rock => String::from_str("██"),
            Tile::Player => String::from_str("🟥"),
            Tile::Ice => String::from_str("  "),
            Tile::Start => self.create_arrows(true, Point { col: col_usize, row: row_usize }),
            Tile::End => self.create_arrows(false, Point { col: col_usize, row: row_usize }),
        }
    }

    /// The player-focused view: a nine-by-nine window of cells centred on
    /// the player, with wall noise past the board's edges.
    fn render_player_focused_board(&self) -> (out: Vec<String>)
        requires
            self.wf(),
        ensures
            out@.len() == 9,
            forall|i: int| 0 <= i < 9 ==> (#[trigger] out@[i])@ == focused_lines(*self)[i],
    {
        let depth: i64 = 4;
        let mut out: Vec<String> = Vec::new();
        let col_center = self.player.0.col as i64;
        let row_center = self.player.0.row as i64;
        let col_min = col_center - depth;
        let row_min = row_center - depth;
        let mut i: i64 = 0;
        while i < 9
            invariant
                self.wf(),
                0 <= i <= 9,
                col_center == self.player_pt().col as int,
                row_center == self.player_pt().row as int,
                col_min == col_center - 4,
                row_min == row_center - 4,
                out@.len() == i,
                forall|k: int| 0 <= k < i ==> (#[trigger] out@[k])@ == focused_lines(*self)[k],
            decreases 9 - i,
        {
            let row = row_min + i;
            let mut line = String::new();
            let mut j: i64 = 0;
            while j < 9
                invariant
                    self.wf(),
                    0 <= j <= 9,
                    0 <= i < 9,
                    col_center == self.player_pt().col as int,
                    row_center == self.player_pt().row as int,
                    col_min == col_center - 4,
                    row == row_center - 4 + i,
                    line@ == row_chars(*self, row as int, col_min as int, j as int),
                decreases 9 - j,
            {
                let col = col_min + j;
                let cell = self.render_tile_at(
                    col,
                    row,
                    col >= 0 && row >= 0 && col < self.layout.cols as i64 && row
                        < self.layout.rows as i64,
                );
                line.append(cell.as_str());
                j = j + 1;
            }
            proof {
                assert(line@ == focused_lines(*self)[i as int]);
            }
            out.push(line);
            i = i + 1;
        }
        out
    }

    /// The full-board view: every grid row rendered left to right.
    fn render_full_board(&self) -> (out: Vec<String>)
        requires
            self.wf(),
        ensures
            out@.len() == self.rows_i(),
            forall|r: int| 0 <= r < out@.len() ==> (#[trigger] out@[r])@ == full_board_lines(
                *self,
            )[r],
    {
        let rows = self.layout.rows;
        let cols = self.layout.cols;
        let mut out: Vec<String> = Vec::new();
        let mut r: usize = 0;
        while r < rows
            invariant
                self.wf(),
                rows == self.layout.rows,
                cols == self.layout.cols,
                r <= rows,
                out@.len() == r,
                forall|k: int| 0 <= k < r ==> (#[trigger] out@[k])@ == full_board_lines(*self)[k],
            decreases rows - r,
        {
            let mut line = String::new();
            let mut c: usize = 0;
            while c < cols
                invariant
                    self.wf(),
                    rows == self.layout.rows,
                    cols == self.layout.cols,
                    r < rows,
                    c <= cols,
                    line@ == row_chars(*self, r as int, 0, c as int),
                decreases cols - c,
            {
                let cell = self.render_tile_at(c as i64, r as i64, true);
                line.append(cell.as_str());
                c = c + 1;
            }
            proof {
                assert(line@ == full_board_lines(*self)[r as int]);
            }
            out.push(line);
            r = r + 1;
        }
        out
    }

    /// Renders the board in whichever view the game state selects; the
    /// player-focused view is the default when no state is attached.
    pub fn render_board(&self) -> (out: Vec<String>)
        requires
            self.wf(),
        ensures
            ({
                let focused = match self.game_state {
                    Some(gs) => gs.player_focused_view,
                    None => true,
                };
                if focused {
                    out@.len() == 9 && forall|i: int|
                        0 <= i < 9 ==> (#[trigger] out@[i])@ == focused_lines(*self)[i]
                } else {
                    out@.len() == self.rows_i() && forall|r: int|
                        0 <= r < out@.len() ==> (#[trigger] out@[r])@ == full_board_lines(
                            *self,
                        )[r]
                }
            }),
    {
        let player_focused_view = match &self.game_state {
            Some(gs) => gs.player_focused_view,
            None => true,
        };
        if player_focused_view {
            self.render_player_focused_board()
        } else {
            self.render_full_board()
        }
    }
}

} // verus!
