use vstd::prelude::*;
use crate::board::{pt_at, seq_has_point, Board};
use crate::point::Point;
use crate::tile::Tile;

verus! {

/// The character the layout export shows for the cell in row `r`, column
/// `c`: the cell's tile code, except that the start cell always shows the
/// start marker, even while the player stands on it.
pub open spec fn export_char(b: Board, r: int, c: int) -> char {
    if pt_at(b.start_pt(), r, c) {
        'S'
    } else {
        b.tile_at(r, c).char_of()
    }
}

/// The whole exported character grid of a board.
pub open spec fn export_chars(b: Board) -> Seq<Seq<char>> {
    Seq::new(
        b.rows_i() as nat,
        |r: int| Seq::new(b.cols_i() as nat, |c: int| export_char(b, r, c)),
    )
}

/// The character grids a `Level` can be read back from: a rectangle of
/// tile codes with exactly one start and one end marker.
pub open spec fn allowed_char(ch: char) -> bool {
    ch == 'S' || ch == 'E' || ch == 'R' || ch == 'W' || ch == ' '
}

pub open spec fn grid_parseable(g: Seq<Seq<char>>) -> bool {
    &&& 3 <= g.len() <= 255
    &&& 3 <= g[0].len() <= 255
    &&& forall|r: int| 0 <= r < g.len() ==> (#[trigger] g[r]).len() == g[0].len()
    &&& forall|r: int, c: int|
        0 <= r < g.len() && 0 <= c < g[0].len() ==> allowed_char(#[trigger] g[r][c])
    &&& exists|r: int, c: int| 0 <= r < g.len() && 0 <= c < g[0].len() && #[trigger] g[r][c] == 'S'
    &&& forall|r1: int, c1: int, r2: int, c2: int|
        0 <= r1 < g.len() && 0 <= c1 < g[0].len() && 0 <= r2 < g.len() && 0 <= c2 < g[0].len()
            && #[trigger] g[r1][c1] == 'S' && #[trigger] g[r2][c2] == 'S' ==> r1 == r2 && c1 == c2
    &&& exists|r: int, c: int| 0 <= r < g.len() && 0 <= c < g[0].len() && #[trigger] g[r][c] == 'E'
    &&& forall|r1: int, c1: int, r2: int, c2: int|
        0 <= r1 < g.len() && 0 <= c1 < g[0].len() && 0 <= r2 < g.len() && 0 <= c2 < g[0].len()
            && #[trigger] g[r1][c1] == 'E' && #[trigger] g[r2][c2] == 'E' ==> r1 == r2 && c1 == c2
}

/// How a `Level` corresponds to the character grid it was read from.
pub open spec fn level_matches_grid(g: Seq<Seq<char>>, lvl: Level) -> bool {
    &&& lvl.rows == g.len()
    &&& g.len() > 0 && lvl.cols == g[0].len()
    &&& lvl.start.row < lvl.rows && lvl.start.col < lvl.cols
    &&& g[lvl.start.row as int][lvl.start.col as int] == 'S'
    &&& forall|r: int, c: int|
        0 <= r < g.len() && 0 <= c < g[0].len() && #[trigger] g[r][c] == 'S' ==> pt_at(
            lvl.start,
            r,
            c,
        )
    &&& lvl.end.row < lvl.rows && lvl.end.col < lvl.cols
    &&& g[lvl.end.row as int][lvl.end.col as int] == 'E'
    &&& forall|r: int, c: int|
        0 <= r < g.len() && 0 <= c < g[0].len() && #[trigger] g[r][c] == 'E' ==> pt_at(
            lvl.end,
            r,
            c,
        )
    &&& forall|i: int|
        0 <= i < lvl.rocks@.len() ==> {
            &&& (#[trigger] lvl.rocks@[i]).row < lvl.rows
            &&& lvl.rocks@[i].col < lvl.cols
            &&& g[lvl.rocks@[i].row as int][lvl.rocks@[i].col as int] == 'R'
        }
    &&& forall|r: int, c: int|
        0 <= r < g.len() && 0 <= c < g[0].len() && #[trigger] g[r][c] == 'R' ==> seq_has_point(
            lvl.rocks@,
            r,
            c,
        )
    &&& forall|i: int, j: int|
        0 <= i < j < lvl.rocks@.len() ==> lvl.rocks@[i] != lvl.rocks@[j]
    &&& lvl.solutions is None
}

/// The character grids of a sequence of strings.
pub open spec fn grid_view(v: Seq<String>) -> Seq<Seq<char>> {
    v.map_values(|s: String| s@)
}

/// A level as it is stored on disk: the constructor's input, plus the
/// known solution strings when the file records them.
pub struct Level {
    pub cols: usize,
    pub rows: usize,
    pub start: Point,
    pub end: Point,
    pub rocks: Vec<Point>,
    pub solutions: Option<Vec<String>>,
}

impl Level {
    /// Reads a level back from an exported character grid: the unique `S`
    /// and `E` markers give start and end, the `R` cells the rocks.
    /// Returns `None` exactly when the grid is not a well-shaped export.
    pub fn from_grid_strings(grid: &Vec<String>) -> (res: Option<Level>)
        ensures
            res is Some <==> grid_parseable(grid_view(grid@)),
            res matches Some(lvl) ==> level_matches_grid(grid_view(grid@), lvl),
    {
        let ghost gv = grid_view(grid@);
        proof {
            assert forall|r: int| 0 <= r < grid@.len() implies #[trigger] gv[r] == grid@[r]@ by {}
        }
        let rows = grid.len();
        if rows < 3 || rows > 255 {
            return None;
        }
        let cols = grid[0].as_str().unicode_len();
        if cols < 3 || cols > 255 {
            return None;
        }
        let mut start_found: Option<Point> = None;
        let mut end_found: Option<Point> = None;
        let mut rocks: Vec<Point> = Vec::new();
        let mut r: usize = 0;
        while r < rows
            invariant
                rows == grid@.len(),
                3 <= rows <= 255,
                3 <= cols <= 255,
                gv == grid_view(grid@),
                gv.len() == rows,
                forall|rr: int| 0 <= rr < rows ==> #[trigger] gv[rr] == grid@[rr]@,
                cols == gv[0].len(),
                r <= rows,
                forall|rr: int| 0 <= rr < r ==> (#[trigger] gv[rr]).len() == cols,
                forall|rr: int, cc: int|
                    0 <= rr < r && 0 <= cc < cols ==> allowed_char(#[trigger] gv[rr][cc]),
                match start_found {
                    None => forall|rr: int, cc: int|
                        0 <= rr < r && 0 <= cc < cols ==> #[trigger] gv[rr][cc] != 'S',
                    Some(p) => {
                        &&& p.row < r && p.col < cols
                        &&& gv[p.row as int][p.col as int] == 'S'
                        &&& forall|rr: int, cc: int|
                            0 <= rr < r && 0 <= cc < cols && !pt_at(p, rr, cc)
                                ==> #[trigger] gv[rr][cc] != 'S'
                    },
                },
                match end_found {
                    None => forall|rr: int, cc: int|
                        0 <= rr < r && 0 <= cc < cols ==> #[trigger] gv[rr][cc] != 'E',
                    Some(p) => {
                        &&& p.row < r && p.col < cols
                        &&& gv[p.row as int][p.col as int] == 'E'
                        &&& forall|rr: int, cc: int|
                            0 <= rr < r && 0 <= cc < cols && !pt_at(p, rr, cc)
                                ==> #[trigger] gv[rr][cc] != 'E'
                    },
                },
                forall|i: int|
                    0 <= i < rocks@.len() ==> {
                        &&& (#[trigger] rocks@[i]).row < r
                        &&& rocks@[i].col < cols
                        &&& gv[rocks@[i].row as int][rocks@[i].col as int] == 'R'
                    },
                forall|rr: int, cc: int|
                    0 <= rr < r && 0 <= cc < cols && #[trigger] gv[rr][cc] == 'R'
                        ==> seq_has_point(rocks@, rr, cc),
                forall|i: int, j: int| 0 <= i < j < rocks@.len() ==> rocks@[i] != rocks@[j],
            decreases rows - r,
        {
            proof {
                assert(gv[r as int] == grid@[r as int]@);
            }
            if grid[r].as_str().unicode_len() != cols {
                proof {
                    assert(gv[r as int].len() != gv[0].len());
                    assert(!grid_parseable(gv));
                }
                return None;
            }
            let mut c: usize = 0;
            while c < cols
                invariant
                    rows == grid@.len(),
                    3 <= rows <= 255,
                    3 <= cols <= 255,
                    gv == grid_view(grid@),
                    gv.len() == rows,
                    forall|rr: int| 0 <= rr < rows ==> #[trigger] gv[rr] == grid@[rr]@,
                    cols == gv[0].len(),
                    r < rows,
                    c <= cols,
                    forall|rr: int| 0 <= rr <= r ==> (#[trigger] gv[rr]).len() == cols,
                    forall|rr: int, cc: int|
                        0 <= rr < rows && 0 <= cc < cols && (rr < r || (rr == r && cc < c))
                            ==> allowed_char(#[trigger] gv[rr][cc]),
                    match start_found {
                        None => forall|rr: int, cc: int|
                            0 <= rr < rows && 0 <= cc < cols && (rr < r || (rr == r && cc < c))
                                ==> #[trigger] gv[rr][cc] != 'S',
                        Some(p) => {
                            &&& (p.row < r || (p.row == r && p.col < c)) && p.row < rows && p.col
                                < cols
                            &&& gv[p.row as int][p.col as int] == 'S'
                            &&& forall|rr: int, cc: int|
                                0 <= rr < rows && 0 <= cc < cols && (rr < r || (rr == r && cc < c))
                                    && !pt_at(p, rr, cc) ==> #[trigger] gv[rr][cc] != 'S'
                        },
                    },
                    match end_found {
                        None => forall|rr: int, cc: int|
                            0 <= rr < rows && 0 <= cc < cols && (rr < r || (rr == r && cc < c))
                                ==> #[trigger] gv[rr][cc] != 'E',
                        Some(p) => {
                            &&& (p.row < r || (p.row == r && p.col < c)) && p.row < rows && p.col
                                < cols
                            &&& gv[p.row as int][p.col as int] == 'E'
                            &&& forall|rr: int, cc: int|
                                0 <= rr < rows && 0 <= cc < cols && (rr < r || (rr == r && cc < c))
                                    && !pt_at(p, rr, cc) ==> #[trigger] gv[rr][cc] != 'E'
                        },
                    },
                    forall|i: int|
                        0 <= i < rocks@.len() ==> {
                            &&& ((#[trigger] rocks@[i]).row < r || (rocks@[i].row == r
                                && rocks@[i].col < c)) && rocks@[i].row < rows
                            &&& rocks@[i].col < cols
                            &&& gv[rocks@[i].row as int][rocks@[i].col as int] == 'R'
                        },
                    forall|rr: int, cc: int|
                        0 <= rr < rows && 0 <= cc < cols && (rr < r || (rr == r && cc < c))
                            && #[trigger] gv[rr][cc] == 'R' ==> seq_has_point(rocks@, rr, cc),
                    forall|i: int, j: int| 0 <= i < j < rocks@.len() ==> rocks@[i] != rocks@[j],
                decreases cols - c,
            {
                proof {
                    assert(gv[r as int] == grid@[r as int]@);
                    assert(gv[r as int].len() == cols);
                }
                let ch = grid[r].as_str().get_char(c);
                if ch == 'S' {
                    if let Some(p) = start_found {
                        proof {
                            assert(gv[p.row as int][p.col as int] == 'S');
                            assert(gv[r as int][c as int] == 'S');
                            assert(!(p.row == r && p.col == c));
                            assert(!grid_parseable(gv));
                        }
                        return None;
                    }
                    start_found = Some(Point { row: r, col: c });
                } else if ch == 'E' {
                    if let Some(p) = end_found {
                        proof {
                            assert(gv[p.row as int][p.col as int] == 'E');
                            assert(gv[r as int][c as int] == 'E');
                            assert(!(p.row == r && p.col == c));
                            assert(!grid_parseable(gv));
                        }
                        return None;
                    }
                    end_found = Some(Point { row: r, col: c });
                } else if ch == 'R' {
                    proof {
                        assert forall|i: int| 0 <= i < rocks@.len() implies #[trigger] rocks@[i]
                            != (Point { row: r, col: c }) by {}
                    }
                    let ghost rocks0 = rocks@;
                    rocks.push(Point { row: r, col: c });
                    proof {
                        assert forall|rr: int, cc: int|
                            0 <= rr < rows && 0 <= cc < cols && (rr < r || (rr == r && cc < c))
                                && #[trigger] gv[rr][cc] == 'R' implies seq_has_point(
                            rocks@,
                            rr,
                            cc,
                        ) by {
                            assert(seq_has_point(rocks0, rr, cc));
                            let i = choose|i: int|
                                0 <= i < rocks0.len() && pt_at(#[trigger] rocks0[i], rr, cc);
                            assert(pt_at(rocks@[i], rr, cc));
                        }
                        assert(pt_at(
                            rocks@[rocks0.len() as int],
                            r as int,
                            c as int,
                        ));
                        assert(seq_has_point(rocks@, r as int, c as int));
                    }
                } else if !(ch == 'W' || ch == ' ') {
                    return None;
                }
                c = c + 1;
            }
            r = r + 1;
        }
        match (start_found, end_found) {
            (Some(s), Some(e)) => Some(
                Level { cols, rows, start: s, end: e, rocks, solutions: None },
            ),
            _ => None,
        }
    }
}

impl Board {
    /// The board-layout export: one string per row, one character per
    /// cell, with the start cell always shown as `S` even while the player
    /// stands on it.
    pub fn grid_as_strings(&self) -> (out: Vec<String>)
        requires
            self.wf(),
        ensures
            out@.len() == self.rows_i(),
            forall|r: int| 0 <= r < out@.len() ==> (#[trigger] out@[r])@ == export_chars(*self)[r],
    {
        let rows = self.layout.rows;
        let cols = self.layout.cols;
        let mut out: Vec<String> = Vec::new();
        let mut r: usize = 0;
        while r < rows
            invariant
                self.wf(),
                rows == self.layout.rows,
                cols == self.layout.cols,
                r <= rows,
                out@.len() == r,
                forall|rr: int|
                    0 <= rr < r ==> (#[trigger] out@[rr])@ == export_chars(*self)[rr],
            decreases rows - r,
        {
            let mut line = String::new();
            let mut c: usize = 0;
            while c < cols
                invariant
                    self.wf(),
                    rows == self.layout.rows,
                    cols == self.layout.cols,
                    r < rows,
                    c <= cols,
                    line@ =~= Seq::new(c as nat, |cc: int| export_char(*self, r as int, cc)),
                decreases cols - c,
            {
                if self.layout.start.0.row == r && self.layout.start.0.col == c {
                    line.append("S");
                } else {
                    match self.layout.grid[r][c] {
                        Tile::Wall => line.append("W"),
                        Tile::Rock => line.append("R"),
                        Tile::Start => line.append("S"),
                        Tile::End => line.append("E"),
                        Tile::Player => line.append("P"),
                        Tile::Ice => line.append(" "),
                    }
                }
                proof {
                    reveal_strlit("S");
                    reveal_strlit("W");
                    reveal_strlit("R");
                    reveal_strlit("E");
                    reveal_strlit("P");
                    reveal_strlit(" ");
                    assert(line@ =~= Seq::new(
                        (c + 1) as nat,
                        |cc: int| export_char(*self, r as int, cc),
                    ));
                }
                c = c + 1;
            }
            proof {
                assert(line@ =~= export_chars(*self)[r as int]);
            }
            out.push(line);
            r = r + 1;
        }
        out
    }
}

/// The round trip at the heart of the layout export: for a well-formed
/// board whose player stands on the start, the exported character grid is
/// parseable, and any level read back from it has exactly the board's
/// dimensions, start, end, and rock set.
pub proof fn lemma_export_roundtrip(b: Board)
    requires
        b.wf(),
        b.player_pt() == b.start_pt(),
    ensures
        grid_parseable(export_chars(b)),
        forall|lvl: Level| level_matches_grid(export_chars(b), lvl) ==> {
            &&& lvl.rows == b.layout.rows
            &&& lvl.cols == b.layout.cols
            &&& lvl.start == b.start_pt()
            &&& lvl.end == b.end_pt()
            &&& lvl.rocks@.to_set() =~= b.rock_pts().to_set()
        },
{
    let g = export_chars(b);
    assert forall|r: int, c: int| b.in_bounds(r, c) implies {
        &&& (g[r][c] == 'S' <==> pt_at(b.start_pt(), r, c))
        &&& (g[r][c] == 'E' <==> pt_at(b.end_pt(), r, c))
        &&& (g[r][c] == 'R' <==> b.has_rock(r, c))
        &&& allowed_char(g[r][c])
    } by {
        assert(g[r][c] == export_char(b, r, c));
        assert(b.tile_at(r, c) == b.expected_tile(r, c));
        if b.has_rock(r, c) {
            let i = choose|i: int|
                0 <= i < b.rock_pts().len() && pt_at(#[trigger] b.rock_pts()[i], r, c);
            assert(b.rock_pts()[i] != b.start_pt() && b.rock_pts()[i] != b.end_pt());
            assert(!pt_at(b.start_pt(), r, c) && !pt_at(b.end_pt(), r, c));
        }
    }
    let sr = b.start_pt().row as int;
    let sc = b.start_pt().col as int;
    let er = b.end_pt().row as int;
    let ec = b.end_pt().col as int;
    assert(g[sr][sc] == 'S');
    assert(g[er][ec] == 'E');
    assert(grid_parseable(g));
    assert forall|lvl: Level| level_matches_grid(g, lvl) implies {
        &&& lvl.rows == b.layout.rows
        &&& lvl.cols == b.layout.cols
        &&& lvl.start == b.start_pt()
        &&& lvl.end == b.end_pt()
        &&& lvl.rocks@.to_set() =~= b.rock_pts().to_set()
    } by {
        assert(pt_at(lvl.start, sr, sc));
        assert(pt_at(lvl.end, er, ec));
        assert forall|p: Point| #[trigger] lvl.rocks@.to_set().contains(p) implies b.rock_pts().to_set().contains(p) by {
            let i = choose|i: int| 0 <= i < lvl.rocks@.len() && lvl.rocks@[i] == p;
            assert(g[p.row as int][p.col as int] == 'R');
            assert(b.has_rock(p.row as int, p.col as int));
            let j = choose|j: int|
                0 <= j < b.rock_pts().len() && pt_at(#[trigger] b.rock_pts()[j], p.row as int, p.col as int);
            assert(b.rock_pts()[j] == p);
            assert(b.rock_pts().contains(p));
        }
        assert forall|p: Point| #[trigger] b.rock_pts().to_set().contains(p) implies lvl.rocks@.to_set().contains(p) by {
            let i = choose|i: int| 0 <= i < b.rock_pts().len() && b.rock_pts()[i] == p;
            assert(b.has_rock(p.row as int, p.col as int)) by {
                assert(pt_at(b.rock_pts()[i], p.row as int, p.col as int));
            }
            assert(b.in_bounds(p.row as int, p.col as int));
            assert(g[p.row as int][p.col as int] == 'R');
            assert(seq_has_point(lvl.rocks@, p.row as int, p.col as int));
            let j = choose|j: int|
                0 <= j < lvl.rocks@.len() && pt_at(#[trigger] lvl.rocks@[j], p.row as int, p.col as int);
            assert(lvl.rocks@[j] == p);
            assert(lvl.rocks@.contains(p));
        }
    }
}

} // verus!
