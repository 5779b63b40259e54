use vstd::prelude::*;
use crate::board::{dir_dc, dir_dr, turns_ok, Board};
use crate::direction::Direction;
use crate::moves::{
    lemma_passable_standable, lemma_slide_props, lemma_slide_steps_same, lemma_standable_passable,
    lemma_wf_frame,
};
use crate::point::Point;
use crate::solution::Solution;

verus! {

/// One frontier node of the breadth-first search: the moves taken so far
/// and the position they lead to.
struct SearchEntry {
    prefix: Vec<Direction>,
    pos: Point,
}

/// The direction that undoes `d`.
pub open spec fn opposite(d: Direction) -> Direction {
    match d {
        Direction::Up => Direction::Down,
        Direction::Down => Direction::Up,
        Direction::Left => Direction::Right,
        Direction::Right => Direction::Left,
    }
}

/// Whether `d` may follow the moves `p`: any direction may open a path,
/// and afterwards each move must change axis.
pub open spec fn legal_next(p: Seq<Direction>, d: Direction) -> bool {
    p.len() == 0 || p.last().is_orthogonal_to(d)
}

/// How many entries of `s` are false; drives the search's termination
/// measure and the explored-node count.
pub open spec fn count_false(s: Seq<bool>) -> nat
    decreases s.len(),
{
    if s.len() == 0 {
        0
    } else {
        (count_false(s.drop_last()) + if s.last() {
            0nat
        } else {
            1nat
        }) as nat
    }
}

proof fn lemma_count_false_update(s: Seq<bool>, i: int)
    requires
        0 <= i < s.len(),
        !s[i],
    ensures
        count_false(s.update(i, true)) + 1 == count_false(s),
    decreases s.len(),
{
    if i == s.len() - 1 {
        assert(s.update(i, true).drop_last() =~= s.drop_last());
        assert(s.update(i, true).last());
    } else {
        assert(s.update(i, true).drop_last() =~= s.drop_last().update(i, true));
        assert(s.update(i, true).last() == s.last());
        lemma_count_false_update(s.drop_last(), i);
    }
}

proof fn lemma_count_false_push(s: Seq<bool>, b: bool)
    ensures
        count_false(s.push(b)) == count_false(s) + if b {
            0nat
        } else {
            1nat
        },
{
    assert(s.push(b).drop_last() =~= s);
    assert(s.push(b).last() == b);
}

/// Appending a move extends a path: the new destination is the slide from
/// the old destination, and the longer path is valid exactly when the old
/// one was and the appended slide travels.
proof fn lemma_path_push(b: Board, r: int, c: int, s: Seq<Direction>, d: Direction)
    ensures
        b.path_dest(r, c, s.push(d)) == b.slide_dest(
            b.path_dest(r, c, s).0,
            b.path_dest(r, c, s).1,
            d,
        ),
        b.path_ok(r, c, s.push(d)) <==> (b.path_ok(r, c, s) && b.slide_steps(
            b.path_dest(r, c, s).0,
            b.path_dest(r, c, s).1,
            d,
        ) > 0),
    decreases s.len(),
{
    let t = s.push(d);
    if s.len() == 0 {
        assert(t[0] == d);
        assert(t.skip(1) =~= Seq::<Direction>::empty());
        let dest = b.slide_dest(r, c, d);
        assert(b.path_dest(r, c, t) == b.path_dest(dest.0, dest.1, t.skip(1)));
        assert(b.path_dest(dest.0, dest.1, t.skip(1)) == dest);
        assert(b.path_dest(r, c, s) == (r, c));
        assert(b.path_ok(dest.0, dest.1, t.skip(1)));
    } else {
        assert(t[0] == s[0]);
        assert(t.skip(1) =~= s.skip(1).push(d));
        let dest = b.slide_dest(r, c, s[0]);
        lemma_path_push(b, dest.0, dest.1, s.skip(1), d);
        assert(b.path_dest(r, c, t) == b.path_dest(dest.0, dest.1, t.skip(1)));
        assert(b.path_dest(r, c, s) == b.path_dest(dest.0, dest.1, s.skip(1)));
        assert(b.path_ok(r, c, t) <==> (b.slide_steps(r, c, s[0]) > 0 && b.path_ok(
            dest.0,
            dest.1,
            t.skip(1),
        )));
        assert(b.path_ok(r, c, s) <==> (b.slide_steps(r, c, s[0]) > 0 && b.path_ok(
            dest.0,
            dest.1,
            s.skip(1),
        )));
    }
}

/// The converse decomposition: a non-empty valid path is a valid path
/// followed by one travelling slide.
proof fn lemma_path_pop(b: Board, r: int, c: int, s: Seq<Direction>)
    requires
        s.len() > 0,
    ensures
        b.path_ok(r, c, s) <==> (b.path_ok(r, c, s.drop_last()) && b.slide_steps(
            b.path_dest(r, c, s.drop_last()).0,
            b.path_dest(r, c, s.drop_last()).1,
            s.last(),
        ) > 0),
        b.path_dest(r, c, s) == b.slide_dest(
            b.path_dest(r, c, s.drop_last()).0,
            b.path_dest(r, c, s.drop_last()).1,
            s.last(),
        ),
{
    assert(s.drop_last().push(s.last()) =~= s);
    lemma_path_push(b, r, c, s.drop_last(), s.last());
}

/// Appending a move orthogonal to the last one keeps a path's turns legal.
proof fn lemma_turns_push(s: Seq<Direction>, d: Direction)
    requires
        turns_ok(s),
        legal_next(s, d),
    ensures
        turns_ok(s.push(d)),
{
    let t = s.push(d);
    assert forall|i: int| 0 <= i && i + 1 < t.len() implies (#[trigger] t[i]).is_orthogonal_to(
        t[i + 1],
    ) by {
        if i + 1 < s.len() {
            assert(s[i].is_orthogonal_to(s[i + 1]));
        } else {
            assert(t[i] == s.last() && t[i + 1] == d);
        }
    }
}

/// The converse: a path with legal turns decomposes into a shorter one
/// and one legally appended move.
proof fn lemma_turns_pop(s: Seq<Direction>)
    requires
        turns_ok(s),
        s.len() > 0,
    ensures
        turns_ok(s.drop_last()),
        legal_next(s.drop_last(), s.last()),
{
    let s0 = s.drop_last();
    assert forall|i: int| 0 <= i && i + 1 < s0.len() implies (#[trigger] s0[i]).is_orthogonal_to(
        s0[i + 1],
    ) by {
        assert(s[i].is_orthogonal_to(s[i + 1]));
    }
    if s0.len() > 0 {
        assert(s[s.len() - 2].is_orthogonal_to(s[s.len() - 1]));
    }
}

/// A path from an in-bounds cell ends in bounds.
proof fn lemma_path_in_bounds(b: Board, r: int, c: int, s: Seq<Direction>)
    requires
        b.in_bounds(r, c),
    ensures
        b.in_bounds(b.path_dest(r, c, s).0, b.path_dest(r, c, s).1),
    decreases s.len(),
{
    if s.len() > 0 {
        lemma_slide_props(b, r, c, s[0]);
        let dest = b.slide_dest(r, c, s[0]);
        lemma_path_in_bounds(b, dest.0, dest.1, s.skip(1));
    }
}

/// A slide's corridor is open both ways: sliding back from wherever a
/// slide rests leads exactly where sliding back from its origin leads.
proof fn lemma_slide_back(b: Board, r: int, c: int, d: Direction)
    requires
        b.passable(r, c),
    ensures
        b.slide_dest(b.slide_dest(r, c, d).0, b.slide_dest(r, c, d).1, opposite(d))
            == b.slide_dest(r, c, opposite(d)),
    decreases b.slide_steps(r, c, d),
{
    let nr = r + dir_dr(d);
    let nc = c + dir_dc(d);
    if b.passable(nr, nc) {
        lemma_slide_back(b, nr, nc, d);
        assert(b.slide_dest(r, c, d) == b.slide_dest(nr, nc, d));
        assert(nr + dir_dr(opposite(d)) == r && nc + dir_dc(opposite(d)) == c);
        assert(b.slide_steps(nr, nc, opposite(d)) == 1 + b.slide_steps(r, c, opposite(d)));
        assert(b.slide_dest(nr, nc, opposite(d)) == b.slide_dest(r, c, opposite(d)));
    } else {
        assert(b.slide_steps(r, c, d) == 0);
    }
}

/// Distinct in-bounds cells have distinct row-major indices.
proof fn lemma_idx_injective(cols: int, r1: int, c1: int, r2: int, c2: int)
    requires
        0 <= c1 < cols,
        0 <= c2 < cols,
        r1 * cols + c1 == r2 * cols + c2,
    ensures
        r1 == r2 && c1 == c2,
{
    assert(r1 == r2 && c1 == c2) by (nonlinear_arith)
        requires
            0 <= c1 < cols,
            0 <= c2 < cols,
            r1 * cols + c1 == r2 * cols + c2,
    ;
}

/// A cell's row-major index lies within the grid's cell count.
proof fn lemma_idx_range(rows: int, cols: int, r: int, c: int)
    requires
        0 <= r < rows,
        0 <= c < cols,
    ensures
        0 <= r * cols + c < rows * cols,
{
    assert(0 <= r * cols + c < rows * cols) by (nonlinear_arith)
        requires
            0 <= r < rows,
            0 <= c < cols,
    ;
}

/// Paths and their destinations depend only on bounds and passability.
pub proof fn lemma_path_passability(a: Board, b: Board, r: int, c: int, s: Seq<Direction>)
    requires
        b.rows_i() == a.rows_i(),
        b.cols_i() == a.cols_i(),
        forall|ri: int, ci: int| a.in_bounds(ri, ci) ==> a.passable(ri, ci) == #[trigger] b.passable(
            ri,
            ci,
        ),
    ensures
        a.path_ok(r, c, s) == b.path_ok(r, c, s),
        a.path_dest(r, c, s) == b.path_dest(r, c, s),
    decreases s.len(),
{
    if s.len() > 0 {
        lemma_slide_steps_same(a, b, r, c, s[0]);
        let dest = a.slide_dest(r, c, s[0]);
        lemma_path_passability(a, b, dest.0, dest.1, s.skip(1));
    }
}

/// Paths and their destinations depend only on the layout.
pub proof fn lemma_path_frame(a: Board, b: Board, r: int, c: int, s: Seq<Direction>)
    requires
        b.layout == a.layout,
    ensures
        a.path_ok(r, c, s) == b.path_ok(r, c, s),
        a.path_dest(r, c, s) == b.path_dest(r, c, s),
{
    assert forall|ri: int, ci: int| a.in_bounds(ri, ci) implies a.passable(ri, ci)
        == #[trigger] b.passable(ri, ci) by {}
    lemma_path_passability(a, b, r, c, s);
}

/// Whether a move sequence solves a board depends only on the board's
/// static data: two well-formed boards with the same dimensions, start,
/// end, and rocks have exactly the same solutions, wherever their players
/// stand.
pub proof fn lemma_static_same_solutions(a: Board, b: Board, s: Seq<Direction>)
    requires
        a.wf(),
        b.wf(),
        b.rows_i() == a.rows_i(),
        b.cols_i() == a.cols_i(),
        b.start_pt() == a.start_pt(),
        b.end_pt() == a.end_pt(),
        b.rock_pts() =~= a.rock_pts(),
    ensures
        a.is_solution(s) == b.is_solution(s),
{
    assert forall|r: int, c: int| a.in_bounds(r, c) implies a.passable(r, c)
        == #[trigger] b.passable(r, c) by {
        assert(a.tile_at(r, c) == a.expected_tile(r, c));
        assert(b.tile_at(r, c) == b.expected_tile(r, c));
        assert(a.base_tile(r, c) == b.base_tile(r, c));
        if crate::board::pt_at(a.player_pt(), r, c) && !crate::board::pt_at(b.player_pt(), r, c) {
            assert(!a.has_rock(r, c));
            assert(b.expected_tile(r, c).is_passable());
        }
        if crate::board::pt_at(b.player_pt(), r, c) && !crate::board::pt_at(a.player_pt(), r, c) {
            assert(!b.has_rock(r, c));
            assert(a.expected_tile(r, c).is_passable());
        }
    }
    lemma_path_passability(a, b, a.start_pt().row as int, a.start_pt().col as int, s);
}

/// Whether a move sequence solves a board depends only on the layout.
pub proof fn lemma_solution_frame(a: Board, b: Board, s: Seq<Direction>)
    requires
        b.layout == a.layout,
    ensures
        a.is_solution(s) == b.is_solution(s),
{
    lemma_path_frame(a, b, a.start_pt().row as int, a.start_pt().col as int, s);
}

/// A copy of a move sequence.
fn clone_dirs(v: &Vec<Direction>) -> (r: Vec<Direction>)
    ensures
        r@ == v@,
{
    let mut r: Vec<Direction> = Vec::new();
    let mut i: usize = 0;
    while i < v.len()
        invariant
            i <= v@.len(),
            r@ =~= v@.take(i as int),
        decreases v@.len() - i,
    {
        r.push(v[i]);
        proof {
            assert(r@ =~= v@.take(i + 1));
        }
        i = i + 1;
    }
    proof {
        assert(v@.take(v@.len() as int) =~= v@);
    }
    r
}

impl Board {
    /// The cell where a slide from `z` in direction `d` rests, as a point.
    pub open spec fn slide_dest_pt(self, z: Point, d: Direction) -> Point {
        let w = self.slide_dest(z.row as int, z.col as int, d);
        Point { row: w.0 as usize, col: w.1 as usize }
    }

    /// Where the moves `s` from the start lead, as a point.
    pub open spec fn path_dest_pt(self, s: Seq<Direction>) -> Point {
        let w = self.path_dest(self.start_pt().row as int, self.start_pt().col as int, s);
        Point { row: w.0 as usize, col: w.1 as usize }
    }

    /// The conditions every frontier node of the search maintains.
    spec fn entry_ok(self, e: SearchEntry, max_depth: int) -> bool {
        &&& self.path_ok(self.start_pt().row as int, self.start_pt().col as int, e.prefix@)
        &&& self.path_dest(self.start_pt().row as int, self.start_pt().col as int, e.prefix@) == (
        e.pos.row as int, e.pos.col as int)
        &&& turns_ok(e.prefix@)
        &&& e.prefix@.len() <= max_depth + 1
        &&& self.standable(e.pos.row as int, e.pos.col as int)
        &&& e.prefix@.len() == 0 ==> e.pos == self.start_pt()
    }

    /// What the table records of one expanded position: the path it was
    /// first popped with, which is valid, turn-legal, ends there, and
    /// whose own expansion is recorded one entry up the chain.
    spec fn table_entry_ok(self, table: Map<Point, Seq<Direction>>, z: Point) -> bool {
        &&& self.path_ok(self.start_pt().row as int, self.start_pt().col as int, table[z])
        &&& turns_ok(table[z])
        &&& self.path_dest(self.start_pt().row as int, self.start_pt().col as int, table[z]) == (
        z.row as int, z.col as int)
        &&& self.standable(z.row as int, z.col as int)
        &&& (table[z].len() == 0 ==> z == self.start_pt())
        &&& z != self.end_pt()
        &&& (table[z].len() > 0 ==> {
            let par = self.path_dest_pt(table[z].drop_last());
            &&& table.dom().contains(par)
            &&& table[par] == table[z].drop_last()
        })
    }

    /// A well-formed expansion table: every entry is sound and the start
    /// was expanded with the empty path.
    spec fn table_ok(self, table: Map<Point, Seq<Direction>>) -> bool {
        &&& forall|z: Point| #[trigger] table.dom().contains(z) ==> self.table_entry_ok(table, z)
        &&& table.dom().contains(self.start_pt())
        &&& table[self.start_pt()].len() == 0
    }

    /// A queued entry's position chain is anchored in the table: its
    /// parent position was expanded with exactly the parent path.
    spec fn entry_linked(self, table: Map<Point, Seq<Direction>>, e: SearchEntry) -> bool {
        e.prefix@.len() == 0 || {
            let par = self.path_dest_pt(e.prefix@.drop_last());
            &&& table.dom().contains(par)
            &&& table[par] == e.prefix@.drop_last()
        }
    }

    /// Every legal travelling continuation of an expanded position leads
    /// to a position that is expanded (no later than one move deeper) or
    /// still waiting on the frontier.
    spec fn succ_covered(
        self,
        table: Map<Point, Seq<Direction>>,
        q: Seq<SearchEntry>,
        head: int,
        z: Point,
        d: Direction,
    ) -> bool {
        let w = self.slide_dest_pt(z, d);
        ||| (table.dom().contains(w) && table[w].len() <= table[z].len() + 1)
        ||| exists|i: int|
            head <= i < q.len() && (#[trigger] q[i]).pos == w && q[i].prefix@.len() <= table[z].len()
                + 1
    }

    spec fn table_closed_frontier(
        self,
        table: Map<Point, Seq<Direction>>,
        q: Seq<SearchEntry>,
        head: int,
    ) -> bool {
        forall|z: Point, d: Direction|
            #![trigger self.slide_dest_pt(z, d)]
            table.dom().contains(z) && legal_next(table[z], d) && self.slide_steps(
                z.row as int,
                z.col as int,
                d,
            ) > 0 ==> self.succ_covered(table, q, head, z, d)
    }

    /// The table with no frontier left below `bound`: every legal
    /// travelling continuation of an entry shallower than `bound` is
    /// itself in the table.
    spec fn table_closed(self, table: Map<Point, Seq<Direction>>, bound: int) -> bool {
        forall|z: Point, d: Direction|
            #![trigger self.slide_dest_pt(z, d)]
            table.dom().contains(z) && legal_next(table[z], d) && self.slide_steps(
                z.row as int,
                z.col as int,
                d,
            ) > 0 && table[z].len() + 1 <= bound ==> (table.dom().contains(self.slide_dest_pt(z, d))
                && table[self.slide_dest_pt(z, d)].len() <= table[z].len() + 1)
    }

    /// When every waiting frontier entry is deeper than `bound`, the table
    /// is closed up to `bound`.
    proof fn lemma_closed_of_frontier(
        self,
        table: Map<Point, Seq<Direction>>,
        q: Seq<SearchEntry>,
        head: int,
        bound: int,
    )
        requires
            self.table_closed_frontier(table, q, head),
            forall|i: int| head <= i < q.len() ==> (#[trigger] q[i]).prefix@.len() > bound,
        ensures
            self.table_closed(table, bound),
    {
        assert forall|z: Point, d: Direction|
            #![trigger self.slide_dest_pt(z, d)]
            table.dom().contains(z) && legal_next(table[z], d) && self.slide_steps(
                z.row as int,
                z.col as int,
                d,
            ) > 0 && table[z].len() + 1 <= bound implies (table.dom().contains(
            self.slide_dest_pt(z, d),
        ) && table[self.slide_dest_pt(z, d)].len() <= table[z].len() + 1) by {
            assert(self.succ_covered(table, q, head, z, d));
        }
    }

    /// The completeness core. A sound table that is closed up to `bound`
    /// already contains the endpoint of every legal path no longer than
    /// `bound`, recorded with a path no longer than that one. When a path
    /// arrives on the axis the recorded expansion did not probe, its only
    /// travelling continuation retraces the recorded path's last slide,
    /// which the recorded parent's own expansion covers.
    proof fn lemma_table_complete(
        self,
        table: Map<Point, Seq<Direction>>,
        bound: int,
        p: Seq<Direction>,
    )
        requires
            self.wf(),
            self.table_ok(table),
            self.table_closed(table, bound),
            self.path_ok(self.start_pt().row as int, self.start_pt().col as int, p),
            turns_ok(p),
            p.len() <= bound,
        ensures
            table.dom().contains(self.path_dest_pt(p)),
            table[self.path_dest_pt(p)].len() <= p.len(),
        decreases p.len(),
    {
        let sr = self.start_pt().row as int;
        let sc = self.start_pt().col as int;
        if p.len() == 0 {
            assert(self.path_dest(sr, sc, p) == (sr, sc));
            assert(self.path_dest_pt(p) == self.start_pt());
        } else {
            let p0 = p.drop_last();
            let d = p.last();
            lemma_path_pop(self, sr, sc, p);
            lemma_turns_pop(p);
            self.lemma_table_complete(table, bound, p0);
            lemma_path_in_bounds(self, sr, sc, p0);
            let zt = self.path_dest(sr, sc, p0);
            let z = self.path_dest_pt(p0);
            assert(z.row as int == zt.0 && z.col as int == zt.1);
            let q0 = table[z];
            assert(self.table_entry_ok(table, z));
            assert(self.path_dest(sr, sc, q0) == (z.row as int, z.col as int));
            assert(self.slide_steps(zt.0, zt.1, d) > 0);
            let wt = self.slide_dest(zt.0, zt.1, d);
            assert(self.path_dest(sr, sc, p) == wt);
            lemma_slide_props(self, zt.0, zt.1, d);
            assert(self.path_dest_pt(p) == self.slide_dest_pt(z, d));
            if legal_next(q0, d) {
                assert(table[z].len() + 1 <= p0.len() + 1 <= bound);
                assert(table.dom().contains(self.slide_dest_pt(z, d)) && table[self.slide_dest_pt(
                    z,
                    d,
                )].len() <= table[z].len() + 1);
            } else {
                assert(q0.len() > 0);
                let f = q0.last();
                assert(!f.is_orthogonal_to(d));
                lemma_path_pop(self, sr, sc, q0);
                lemma_turns_pop(q0);
                lemma_path_in_bounds(self, sr, sc, q0.drop_last());
                let ut = self.path_dest(sr, sc, q0.drop_last());
                let u = self.path_dest_pt(q0.drop_last());
                assert(u.row as int == ut.0 && u.col as int == ut.1);
                assert(table.dom().contains(u) && table[u] == q0.drop_last());
                assert(self.table_entry_ok(table, u));
                assert(self.slide_steps(ut.0, ut.1, f) > 0);
                assert(self.slide_dest(ut.0, ut.1, f) == (z.row as int, z.col as int));
                lemma_slide_props(self, ut.0, ut.1, f);
                assert(self.slide_steps(zt.0, zt.1, f) == 0);
                assert(d == opposite(f));
                lemma_standable_passable(self, ut.0, ut.1);
                lemma_slide_back(self, ut.0, ut.1, f);
                assert(wt == self.slide_dest(ut.0, ut.1, opposite(f)));
                if self.slide_steps(ut.0, ut.1, opposite(f)) == 0 {
                    assert(wt == (ut.0, ut.1));
                    assert(self.path_dest_pt(p) == u);
                    assert(table[u].len() == q0.len() - 1);
                    assert(table[z].len() <= p0.len());
                    assert(table[self.path_dest_pt(p)].len() <= p.len());
                } else {
                    assert(legal_next(table[u], opposite(f))) by {
                        if q0.drop_last().len() > 0 {
                            assert(q0.drop_last().last().is_orthogonal_to(f));
                            assert(opposite(f).is_vertical() == f.is_vertical());
                        }
                    }
                    assert(table[u].len() + 1 == q0.len() <= p0.len() <= bound);
                    assert(table.dom().contains(self.slide_dest_pt(u, opposite(f)))
                        && table[self.slide_dest_pt(u, opposite(f))].len() <= table[u].len() + 1);
                    assert(self.slide_dest_pt(u, opposite(f)) == self.path_dest_pt(p));
                    assert(table[self.path_dest_pt(p)].len() <= q0.len() <= p.len());
                }
            }
        }
    }

    /// The moves that may follow `previous_move`: any direction for the
    /// first move of a search, and only the two orthogonal ones after that.
    fn get_possible_moves(&self, previous_move: Option<&Direction>) -> (dirs: Vec<Direction>)
        ensures
            match previous_move {
                None => dirs@ =~= seq![
                    Direction::Up,
                    Direction::Right,
                    Direction::Down,
                    Direction::Left,
                ],
                Some(d) => {
                    if d.is_vertical() {
                        dirs@ =~= seq![Direction::Right, Direction::Left]
                    } else {
                        dirs@ =~= seq![Direction::Up, Direction::Down]
                    }
                },
            },
    {
        match previous_move {
            Some(Direction::Up) | Some(Direction::Down) => {
                let mut dirs: Vec<Direction> = Vec::new();
                dirs.push(Direction::Right);
                dirs.push(Direction::Left);
                dirs
            },
            Some(Direction::Left) | Some(Direction::Right) => {
                let mut dirs: Vec<Direction> = Vec::new();
                dirs.push(Direction::Up);
                dirs.push(Direction::Down);
                dirs
            },
            None => Direction::all(),
        }
    }

    /// Where a slide of `steps` cells from `pos` in direction `d` lands.
    fn slide_to(&self, pos: Point, d: Direction, steps: u8) -> (dest: Point)
        requires
            self.wf(),
            self.in_bounds(pos.row as int, pos.col as int),
            steps == self.slide_steps(pos.row as int, pos.col as int, d),
        ensures
            (dest.row as int, dest.col as int) == self.slide_dest(
                pos.row as int,
                pos.col as int,
                d,
            ),
            dest == self.slide_dest_pt(pos, d),
    {
        proof {
            lemma_slide_props(*self, pos.row as int, pos.col as int, d);
        }
        match d {
            Direction::Up => Point { row: pos.row - steps as usize, col: pos.col },
            Direction::Down => Point { row: pos.row + steps as usize, col: pos.col },
            Direction::Left => Point { row: pos.row, col: pos.col - steps as usize },
            Direction::Right => Point { row: pos.row, col: pos.col + steps as usize },
        }
    }

    /// Breadth-first search over slide destinations, seeded with the empty
    /// prefix at the start. Expanding a node probes the legal directions
    /// and enqueues each reachable destination; a visited set keyed by
    /// position prunes re-expansion; popping a prefix longer than
    /// `max_depth` abandons the search. Returns the first solution found,
    /// which is a shortest one, and the number of nodes expanded; when it
    /// returns nothing, no solution of length up to `max_depth` exists.
    #[verifier::rlimit(100)]
    fn search(&self, max_depth: u16) -> (res: (Option<Vec<Direction>>, u32))
        requires
            self.wf(),
        ensures
            match res.0 {
                Some(s) => {
                    &&& self.is_solution(s@)
                    &&& s@.len() <= max_depth as int + 1
                    &&& forall|p: Seq<Direction>|
                        #[trigger] self.is_solution(p) ==> s@.len() <= p.len()
                },
                None => forall|p: Seq<Direction>|
                    #[trigger] self.is_solution(p) ==> p.len() > max_depth as int,
            },
    {
        let rows = self.layout.rows;
        let cols = self.layout.cols;
        proof {
            assert(rows * cols <= 65025) by (nonlinear_arith)
                requires
                    rows <= 255,
                    cols <= 255,
            ;
        }
        let size = rows * cols;
        let mut visited: Vec<bool> = Vec::new();
        let mut k: usize = 0;
        while k < size
            invariant
                k <= size,
                visited@.len() == k,
                count_false(visited@) == k,
                forall|m: int| 0 <= m < visited@.len() ==> !(#[trigger] visited@[m]),
            decreases size - k,
        {
            proof {
                lemma_count_false_push(visited@, false);
            }
            visited.push(false);
            k = k + 1;
        }
        let mut edges: u32 = 0;
        let mut q: Vec<SearchEntry> = Vec::new();
        proof {
            self.lemma_start_standable();
        }
        q.push(SearchEntry { prefix: Vec::new(), pos: self.layout.start.0 });
        let ghost mut table: Map<Point, Seq<Direction>> = Map::empty();
        proof {
            assert forall|z: Point| self.in_bounds(z.row as int, z.col as int) implies (
            #[trigger] table.dom().contains(z) == visited@[z.row as int * cols
                + z.col as int]) by {
                lemma_idx_range(rows as int, cols as int, z.row as int, z.col as int);
            }
        }
        let mut head: usize = 0;
        let mut found: Option<Vec<Direction>> = None;
        loop
            invariant_except_break
                self.wf(),
                rows == self.layout.rows,
                cols == self.layout.cols,
                size == rows * cols,
                size <= 65025,
                visited@.len() == size,
                1 <= q@.len(),
                head <= q@.len(),
                found is None,
                edges + count_false(visited@) == size,
                q@[0].prefix@.len() == 0,
                forall|i: int|
                    0 <= i < q@.len() ==> self.entry_ok(#[trigger] q@[i], max_depth as int),
                forall|z: Point|
                    #[trigger] table.dom().contains(z) ==> self.table_entry_ok(table, z),
                forall|z: Point|
                    self.in_bounds(z.row as int, z.col as int) ==> (#[trigger] table.dom().contains(
                        z,
                    ) == visited@[z.row as int * cols + z.col as int]),
                head == 0 ==> forall|z: Point| !(#[trigger] table.dom().contains(z)),
                head >= 1 ==> table.dom().contains(self.start_pt())
                    && table[self.start_pt()].len() == 0,
                forall|i: int|
                    head <= i < q@.len() ==> self.entry_linked(table, #[trigger] q@[i]),
                self.table_closed_frontier(table, q@, head as int),
                forall|i: int, j: int|
                    head <= i <= j < q@.len() ==> (#[trigger] q@[i]).prefix@.len()
                        <= (#[trigger] q@[j]).prefix@.len(),
                forall|i: int, j: int|
                    head <= i < q@.len() && head <= j < q@.len() ==> (#[trigger] q@[j]).prefix@.len() <= (#[trigger] q@[i]).prefix@.len() + 1,
                forall|z: Point, i: int|
                    #![trigger table.dom().contains(z), q@[i]]
                    table.dom().contains(z) && head <= i < q@.len() ==> table[z].len()
                        <= q@[i].prefix@.len(),
            ensures
                match found {
                    Some(s) => {
                        &&& self.is_solution(s@)
                        &&& s@.len() <= max_depth as int + 1
                        &&& forall|p: Seq<Direction>|
                            #[trigger] self.is_solution(p) ==> s@.len() <= p.len()
                    },
                    None => {
                        &&& self.table_ok(table)
                        &&& self.table_closed(table, max_depth as int)
                    },
                },
            decreases 5 * count_false(visited@) + q@.len() - head,
        {
            if head >= q.len() {
                break ;
            }
            let pos = q[head].pos;
            let prefix = clone_dirs(&q[head].prefix);
            let ghost popped = q@[head as int];
            let ghost head0 = head as int;
            head = head + 1;
            if pos.row == self.layout.end.0.row && pos.col == self.layout.end.0.col {
                proof {
                    if prefix@.len() == 0 {
                        assert(popped.pos == self.start_pt());
                        assert(false);
                    }
                    assert(head0 >= 1);
                    assert forall|p: Seq<Direction>| #[trigger] self.is_solution(p) implies
                        prefix@.len() <= p.len() by {
                        if p.len() < prefix@.len() {
                            self.lemma_closed_of_frontier(table, q@, head0, p.len() as int);
                            self.lemma_table_complete(table, p.len() as int, p);
                            lemma_path_in_bounds(
                                *self,
                                self.start_pt().row as int,
                                self.start_pt().col as int,
                                p,
                            );
                            assert(self.path_dest_pt(p) == self.end_pt());
                            assert(self.table_entry_ok(table, self.end_pt()));
                            assert(false);
                        }
                    }
                }
                found = Some(prefix);
                break ;
            } else if prefix.len() > max_depth as usize {
                proof {
                    assert(head0 >= 1);
                    self.lemma_closed_of_frontier(table, q@, head0, max_depth as int);
                }
                break ;
            } else {
                proof {
                    assert(pos.row * cols + pos.col < size) by (nonlinear_arith)
                        requires
                            pos.row < rows,
                            pos.col < cols,
                            cols <= 255,
                            rows <= 255,
                            size == rows * cols,
                    ;
                }
                let idx = pos.row * cols + pos.col;
                if !visited[idx] {
                    proof {
                        lemma_count_false_update(visited@, idx as int);
                        assert(self.entry_ok(popped, max_depth as int));
                        assert(self.in_bounds(pos.row as int, pos.col as int));
                        assert(!table.dom().contains(pos));
                    }
                    let ghost table0 = table;
                    visited[idx] = true;
                    edges = edges + 1;
                    proof {
                        table = table.insert(pos, popped.prefix@);
                        assert forall|z: Point| self.in_bounds(z.row as int, z.col as int) implies (
                        #[trigger] table.dom().contains(z) == visited@[z.row as int * cols
                            + z.col as int]) by {
                            lemma_idx_range(rows as int, cols as int, z.row as int, z.col as int);
                            if z != pos {
                                if z.row as int * cols + z.col as int == pos.row as int * cols
                                    + pos.col as int {
                                    lemma_idx_injective(
                                        cols as int,
                                        z.row as int,
                                        z.col as int,
                                        pos.row as int,
                                        pos.col as int,
                                    );
                                    assert(false);
                                }
                                assert(table.dom().contains(z) == table0.dom().contains(z));
                            }
                        }
                        assert forall|z: Point| #[trigger] table.dom().contains(z) implies
                            self.table_entry_ok(table, z) by {
                            if z == pos {
                                assert(self.entry_ok(popped, max_depth as int));
                                assert(self.entry_linked(table0, popped));
                                assert(table[pos] == popped.prefix@);
                                if popped.prefix@.len() > 0 {
                                    let par = self.path_dest_pt(popped.prefix@.drop_last());
                                    assert(table0.dom().contains(par));
                                    assert(par != pos);
                                }
                            } else {
                                assert(self.table_entry_ok(table0, z));
                                assert(table[z] == table0[z]);
                                if table0[z].len() > 0 {
                                    let par = self.path_dest_pt(table0[z].drop_last());
                                    assert(table0.dom().contains(par));
                                    assert(par != pos);
                                }
                            }
                        }
                    }
                    let prev: Option<&Direction> = if prefix.len() > 0 {
                        Some(&prefix[prefix.len() - 1])
                    } else {
                        None
                    };
                    let dirs = self.get_possible_moves(prev);
                    let ghost q0v = q@;
                    let ghost vis1 = visited@;
                    let ghost table1 = table;
                    let mut j: usize = 0;
                    while j < dirs.len()
                        invariant
                            self.wf(),
                            rows == self.layout.rows,
                            cols == self.layout.cols,
                            size == rows * cols,
                            size <= 65025,
                            visited@ == vis1,
                            table == table1,
                            head == head0 + 1,
                            0 <= head0 < q0v.len(),
                            popped == q0v[head0],
                            pos == popped.pos,
                            prefix@ == popped.prefix@,
                            table1.dom().contains(pos),
                            table1[pos] == popped.prefix@,
                            j <= dirs@.len(),
                            dirs@.len() <= 4,
                            self.in_bounds(pos.row as int, pos.col as int),
                            self.entry_ok(popped, max_depth as int),
                            prefix@.len() <= max_depth as int,
                            forall|jj: int|
                                0 <= jj < dirs@.len() ==> legal_next(
                                    prefix@,
                                    #[trigger] dirs@[jj],
                                ),
                            q0v.len() <= q@.len() <= q0v.len() + j,
                            forall|i: int| 0 <= i < q0v.len() ==> #[trigger] q@[i] == q0v[i],
                            forall|i: int|
                                q0v.len() <= i < q@.len() ==> (#[trigger] q@[i]).prefix@.len()
                                    == popped.prefix@.len() + 1 && self.entry_linked(table1, q@[i])
                                    && self.entry_ok(q@[i], max_depth as int),
                            forall|m: int|
                                0 <= m < j && self.slide_steps(
                                    pos.row as int,
                                    pos.col as int,
                                    #[trigger] dirs@[m],
                                ) > 0 ==> exists|i: int|
                                    q0v.len() <= i < q@.len() && (#[trigger] q@[i]).pos
                                        == self.slide_dest_pt(pos, dirs@[m]),
                        decreases dirs@.len() - j,
                    {
                        let ghost qb = q@;
                        let d = dirs[j];
                        let steps = self.steps_from(pos, d);
                        if steps > 0 {
                            let mut child = clone_dirs(&prefix);
                            child.push(d);
                            let dest = self.slide_to(pos, d, steps);
                            proof {
                                lemma_path_push(
                                    *self,
                                    self.start_pt().row as int,
                                    self.start_pt().col as int,
                                    prefix@,
                                    d,
                                );
                                lemma_turns_push(prefix@, d);
                                lemma_slide_props(*self, pos.row as int, pos.col as int, d);
                                lemma_passable_standable(*self, dest.row as int, dest.col as int);
                                assert(child@ =~= prefix@.push(d));
                                assert(child@.drop_last() =~= prefix@);
                            }
                            q.push(SearchEntry { prefix: child, pos: dest });
                            proof {
                                let ghost ni = q@.len() - 1;
                                assert(q@[ni].pos == self.slide_dest_pt(pos, d));
                                assert(self.path_dest_pt(q@[ni].prefix@.drop_last()) == pos);
                                assert(self.entry_linked(table1, q@[ni]));
                            }
                        }
                        j = j + 1;
                        proof {
                            assert forall|m: int|
                                0 <= m < j && self.slide_steps(
                                    pos.row as int,
                                    pos.col as int,
                                    #[trigger] dirs@[m],
                                ) > 0 implies exists|i: int|
                                q0v.len() <= i < q@.len() && (#[trigger] q@[i]).pos
                                    == self.slide_dest_pt(pos, dirs@[m]) by {
                                if m < j - 1 {
                                    let i = choose|i: int|
                                        q0v.len() <= i < qb.len() && (#[trigger] qb[i]).pos
                                            == self.slide_dest_pt(pos, dirs@[m]);
                                    assert(q@[i] == qb[i]);
                                }
                            }
                        }
                    }
                    proof {
                        // Every legal travelling continuation of the new
                        // table entry was probed and enqueued.
                        assert forall|z: Point, d2: Direction|
                            #![trigger self.slide_dest_pt(z, d2)]
                            table.dom().contains(z) && legal_next(table[z], d2)
                                && self.slide_steps(z.row as int, z.col as int, d2) > 0 implies
                            self.succ_covered(table, q@, head as int, z, d2) by {
                            if z == pos {
                                assert(exists|m: int|
                                    0 <= m < dirs@.len() && #[trigger] dirs@[m] == d2) by {
                                    if prefix@.len() == 0 {
                                        match d2 {
                                            Direction::Up => assert(dirs@[0] == d2),
                                            Direction::Right => assert(dirs@[1] == d2),
                                            Direction::Down => assert(dirs@[2] == d2),
                                            Direction::Left => assert(dirs@[3] == d2),
                                        }
                                    } else {
                                        let dl = prefix@.last();
                                        if dl.is_vertical() {
                                            match d2 {
                                                Direction::Right => assert(dirs@[0] == d2),
                                                Direction::Left => assert(dirs@[1] == d2),
                                                _ => assert(false),
                                            }
                                        } else {
                                            match d2 {
                                                Direction::Up => assert(dirs@[0] == d2),
                                                Direction::Down => assert(dirs@[1] == d2),
                                                _ => assert(false),
                                            }
                                        }
                                    }
                                }
                                let m = choose|m: int|
                                    0 <= m < dirs@.len() && #[trigger] dirs@[m] == d2;
                                let i = choose|i: int|
                                    q0v.len() <= i < q@.len() && (#[trigger] q@[i]).pos
                                        == self.slide_dest_pt(pos, dirs@[m]);
                                assert(q@[i].prefix@.len() == table[z].len() + 1);
                                assert(head as int <= i < q@.len());
                            } else {
                                assert(table0.dom().contains(z));
                                assert(table[z] == table0[z]);
                                assert(self.succ_covered(table0, q0v, head0, z, d2));
                                let w = self.slide_dest_pt(z, d2);
                                if table0.dom().contains(w) && table0[w].len() <= table0[z].len()
                                    + 1 {
                                    assert(table.dom().contains(w)
                                        && table[w].len() <= table[z].len() + 1);
                                } else {
                                    let i = choose|i: int|
                                        head0 <= i < q0v.len() && (#[trigger] q0v[i]).pos == w
                                            && q0v[i].prefix@.len() <= table0[z].len() + 1;
                                    if i == head0 {
                                        assert(w == pos);
                                        assert(table[pos].len() == popped.prefix@.len());
                                        assert(table[pos].len() <= table[z].len() + 1);
                                    } else {
                                        assert(q@[i] == q0v[i]);
                                        assert(head as int <= i < q@.len());
                                    }
                                }
                            }
                        }
                        // The orders survive: the new children are exactly
                        // one deeper than the entry just expanded.
                        assert forall|i: int, j2: int|
                            head as int <= i <= j2 < q@.len() implies (#[trigger] q@[i]).prefix@.len()
                            <= (#[trigger] q@[j2]).prefix@.len() by {
                            if j2 >= q0v.len() && i < q0v.len() {
                                assert(q@[i] == q0v[i]);
                                assert(q0v[i].prefix@.len() <= q0v[head0].prefix@.len() + 1);
                            }
                        }
                        assert forall|i: int, j2: int|
                            head as int <= i < q@.len() && head as int <= j2 < q@.len()
                            implies (#[trigger] q@[j2]).prefix@.len()
                            <= (#[trigger] q@[i]).prefix@.len() + 1 by {
                            if i < q0v.len() {
                                assert(q@[i] == q0v[i]);
                                assert(q0v[head0].prefix@.len() <= q0v[i].prefix@.len());
                            }
                            if j2 < q0v.len() {
                                assert(q@[j2] == q0v[j2]);
                                assert(q0v[j2].prefix@.len() <= q0v[head0].prefix@.len() + 1);
                            }
                        }
                        assert forall|z: Point, i: int|
                            #![trigger table.dom().contains(z), q@[i]]
                            table.dom().contains(z) && head as int <= i < q@.len()
                            implies table[z].len() <= q@[i].prefix@.len() by {
                            if i < q0v.len() {
                                assert(q@[i] == q0v[i]);
                                assert(q0v[head0].prefix@.len() <= q0v[i].prefix@.len());
                            }
                            if z != pos {
                                assert(table0.dom().contains(z));
                                assert(table0[z].len() <= q0v[head0].prefix@.len());
                            }
                        }
                        assert forall|i: int| head as int <= i < q@.len() implies
                            self.entry_linked(table, #[trigger] q@[i]) by {
                            if i < q0v.len() {
                                assert(q@[i] == q0v[i]);
                                assert(self.entry_linked(table0, q0v[i]));
                                if q0v[i].prefix@.len() > 0 {
                                    let par = self.path_dest_pt(q0v[i].prefix@.drop_last());
                                    assert(table0.dom().contains(par));
                                    assert(table[par] == table0[par]);
                                }
                            }
                        }
                        assert(q@[0] == q0v[0]);
                    }
                } else {
                    proof {
                        assert(self.entry_ok(popped, max_depth as int));
                        assert(self.in_bounds(pos.row as int, pos.col as int));
                        assert(table.dom().contains(pos));
                        assert forall|z: Point, d2: Direction|
                            #![trigger self.slide_dest_pt(z, d2)]
                            table.dom().contains(z) && legal_next(table[z], d2)
                                && self.slide_steps(z.row as int, z.col as int, d2) > 0 implies
                            self.succ_covered(table, q@, head as int, z, d2) by {
                            assert(self.succ_covered(table, q@, head0, z, d2));
                            let w = self.slide_dest_pt(z, d2);
                            if !(table.dom().contains(w) && table[w].len() <= table[z].len() + 1) {
                                let i = choose|i: int|
                                    head0 <= i < q@.len() && (#[trigger] q@[i]).pos == w
                                        && q@[i].prefix@.len() <= table[z].len() + 1;
                                if i == head0 {
                                    assert(w == pos);
                                    assert(table[pos].len() <= q@[head0].prefix@.len());
                                    assert(table[pos].len() <= table[z].len() + 1);
                                    assert(false);
                                } else {
                                    assert(head as int <= i < q@.len());
                                }
                            }
                        }
                    }
                }
            }
        }
        proof {
            if found is None {
                assert forall|p: Seq<Direction>| #[trigger] self.is_solution(p) implies p.len()
                    > max_depth as int by {
                    if p.len() <= max_depth as int {
                        self.lemma_table_complete(table, max_depth as int, p);
                        lemma_path_in_bounds(
                            *self,
                            self.start_pt().row as int,
                            self.start_pt().col as int,
                            p,
                        );
                        assert(self.path_dest_pt(p) == self.end_pt());
                        assert(self.table_entry_ok(table, self.end_pt()));
                        assert(false);
                    }
                }
            }
        }
        (found, edges)
    }

    /// Runs the solver and stores the outcome on the board. A returned
    /// move sequence is a genuine solution (every slide travels,
    /// consecutive moves are orthogonal, it ends exactly on the end cell),
    /// is at most `max_depth + 1` moves long, and no solution is shorter;
    /// when no sequence is returned, the board has no solution of length
    /// up to `max_depth`. Nothing else on the board changes.
    pub fn solve(&mut self, max_depth: u16)
        requires
            old(self).wf(),
        ensures
            final(self).wf(),
            final(self).layout == old(self).layout,
            final(self).player == old(self).player,
            final(self).move_queue == old(self).move_queue,
            final(self).player_has_won == old(self).player_has_won,
            final(self).game_state == old(self).game_state,
            match final(self).solution {
                Some(sol) => match sol.steps {
                    Some(s) => {
                        &&& final(self).is_solution(s@)
                        &&& s@.len() <= max_depth as int + 1
                        &&& forall|p: Seq<Direction>|
                            #[trigger] final(self).is_solution(p) ==> s@.len() <= p.len()
                    },
                    None => forall|p: Seq<Direction>|
                        #[trigger] final(self).is_solution(p) ==> p.len() > max_depth as int,
                },
                None => false,
            },
    {
        let (steps, edges) = self.search(max_depth);
        self.solution = Some(Solution { steps, edges_traversed: edges });
        proof {
            lemma_wf_frame(*old(self), *self);
            assert forall|p: Seq<Direction>| #[trigger] self.is_solution(p) implies old(
                self,
            ).is_solution(p) by {
                lemma_solution_frame(*old(self), *self, p);
            }
            assert forall|p: Seq<Direction>| #[trigger] old(self).is_solution(p) implies
                self.is_solution(p) by {
                lemma_solution_frame(*old(self), *self, p);
            }
            match &self.solution {
                Some(sol) => match &sol.steps {
                    Some(s) => {
                        lemma_solution_frame(*old(self), *self, s@);
                    },
                    None => {},
                },
                None => {},
            }
        }
    }
}

} // verus!
