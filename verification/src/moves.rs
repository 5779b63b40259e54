use vstd::prelude::*;
use crate::board::{dir_dc, dir_dr, pt_at, Board};
use crate::direction::{Direction, Move, PlayerInput, Slide};
use crate::game_state::GameState;
use crate::point::Point;
use crate::tile::{Player, Tile};

verus! {

/// `x + 1`, capped at the largest `u16`.
pub open spec fn inc_sat(x: u16) -> u16 {
    if x < 0xFFFF {
        (x + 1) as u16
    } else {
        x
    }
}

/// The parts of a board no move ever changes: dimensions, start, end, and
/// the rocks.
pub open spec fn same_static(pre: Board, post: Board) -> bool {
    &&& post.layout.rows == pre.layout.rows
    &&& post.layout.cols == pre.layout.cols
    &&& post.layout.start == pre.layout.start
    &&& post.layout.end == pre.layout.end
    &&& post.layout.rocks == pre.layout.rocks
}

/// What relocating the player to row `nr`, column `nc` does to a board:
/// nothing at all when the player is already there; otherwise the player
/// moves, the new cell shows the player, the vacated cell is restored to
/// the tile under it, and reaching the end sets the won flag and counts the
/// level as solved.
pub open spec fn move_effect(pre: Board, post: Board, nr: int, nc: int) -> bool {
    if pt_at(pre.player_pt(), nr, nc) {
        &&& post.player == pre.player
        &&& post.layout.grid == pre.layout.grid
        &&& post.player_has_won == pre.player_has_won
        &&& post.game_state == pre.game_state
    } else {
        &&& post.player_pt() == (Point { row: nr as usize, col: nc as usize })
        &&& post.layout.grid@.len() == pre.layout.grid@.len()
        &&& forall|r: int|
            0 <= r < post.layout.grid@.len() ==> (#[trigger] post.layout.grid@[r])@.len()
                == pre.layout.grid@[r]@.len()
        &&& forall|r: int, c: int|
            pre.in_bounds(r, c) ==> #[trigger] post.tile_at(r, c) == (if r == nr && c == nc {
                Tile::Player
            } else if pt_at(pre.player_pt(), r, c) {
                pre.base_tile(r, c)
            } else {
                pre.tile_at(r, c)
            })
        &&& post.player_has_won == (pre.player_has_won || pt_at(pre.end_pt(), nr, nc))
        &&& post.game_state == (match pre.game_state {
            Some(gs) => Some(
                GameState {
                    levels_solved: if pt_at(pre.end_pt(), nr, nc) {
                        inc_sat(gs.levels_solved)
                    } else {
                        gs.levels_solved
                    },
                    ..gs
                },
            ),
            None => None,
        })
    }
}

impl Board {
    /// Queued slides sit only at the front of the queue, and never promise
    /// more steps than the player's current slide allows.
    pub open spec fn queue_wf(self) -> bool {
        forall|i: int|
            0 <= i < self.move_queue@.len() ==> match #[trigger] self.move_queue@[i] {
                Move::SlidePlayer(sl) => i == 0 && 1 <= sl.steps && sl.steps <= self.slide_steps(
                    self.player_pt().row as int,
                    self.player_pt().col as int,
                    sl.direction,
                ),
                _ => true,
            }
    }
}

/// A slide can travel at most to the board edge, and comes to rest in
/// bounds, on a passable cell whenever it travelled at all.
pub proof fn lemma_slide_props(b: Board, r: int, c: int, d: Direction)
    requires
        b.in_bounds(r, c),
    ensures
        b.slide_steps(r, c, d) <= (match d {
            Direction::Up => r,
            Direction::Down => b.rows_i() - 1 - r,
            Direction::Left => c,
            Direction::Right => b.cols_i() - 1 - c,
        }),
        b.in_bounds(b.slide_dest(r, c, d).0, b.slide_dest(r, c, d).1),
        b.slide_steps(r, c, d) > 0 ==> b.passable(b.slide_dest(r, c, d).0, b.slide_dest(r, c, d).1),
        b.slide_steps(b.slide_dest(r, c, d).0, b.slide_dest(r, c, d).1, d) == 0,
    decreases b.slide_measure(r, c, d),
{
    if b.passable(r + dir_dr(d), c + dir_dc(d)) {
        lemma_slide_props(b, r + dir_dr(d), c + dir_dc(d), d);
    }
}

/// On a well-formed board every passable cell is also standable: the open
/// border cells are exactly the start and end, and rocks block.
pub proof fn lemma_passable_standable(b: Board, r: int, c: int)
    requires
        b.wf(),
        b.passable(r, c),
    ensures
        b.standable(r, c),
{
    assert(b.tile_at(r, c) == b.expected_tile(r, c));
    if pt_at(b.player_pt(), r, c) {
        assert(b.standable(r, c));
    } else {
        if b.has_rock(r, c) {
            assert(!pt_at(b.start_pt(), r, c) && !pt_at(b.end_pt(), r, c)) by {
                let i = choose|i: int|
                    0 <= i < b.rock_pts().len() && pt_at(#[trigger] b.rock_pts()[i], r, c);
            }
            assert(b.base_tile(r, c) == Tile::Rock);
            assert(false);
        }
        if (r == 0 || r == b.rows_i() - 1 || c == 0 || c == b.cols_i() - 1) && !pt_at(
            b.start_pt(),
            r,
            c,
        ) && !pt_at(b.end_pt(), r, c) {
            assert(b.base_tile(r, c) == Tile::Wall);
            assert(false);
        }
    }
}

/// On a well-formed board every standable cell is passable: the player's
/// resting places are never walls or rocks.
pub proof fn lemma_standable_passable(b: Board, r: int, c: int)
    requires
        b.wf(),
        b.standable(r, c),
    ensures
        b.passable(r, c),
{
    assert(b.tile_at(r, c) == b.expected_tile(r, c));
    if !pt_at(b.player_pt(), r, c) {
        if b.has_rock(r, c) {
            assert(false);
        }
    }
}

impl Board {
    /// How far a slide from `pos` in direction `d` travels before an
    /// obstacle halts it. A cell outside the board blocks like a wall.
    pub(crate) fn steps_from(&self, pos: Point, d: Direction) -> (steps: u8)
        requires
            self.wf(),
            self.in_bounds(pos.row as int, pos.col as int),
        ensures
            steps == self.slide_steps(pos.row as int, pos.col as int, d),
    {
        proof {
            lemma_slide_props(*self, pos.row as int, pos.col as int, d);
        }
        let rows = self.layout.rows;
        let cols = self.layout.cols;
        let mut cur = pos;
        let mut steps: u8 = 0;
        match d {
            Direction::Up => {
                while cur.row > 0 && !self.layout.grid[cur.row - 1][cur.col].blocks()
                    invariant
                        self.wf(),
                        cur.col == pos.col,
                        cur.row + steps == pos.row,
                        self.in_bounds(cur.row as int, cur.col as int),
                        self.slide_steps(pos.row as int, pos.col as int, d) == steps
                            + self.slide_steps(cur.row as int, cur.col as int, d),
                        d == Direction::Up,
                    decreases cur.row,
                {
                    cur = Point { row: cur.row - 1, col: cur.col };
                    steps = steps + 1;
                }
            },
            Direction::Down => {
                while cur.row + 1 < rows && !self.layout.grid[cur.row + 1][cur.col].blocks()
                    invariant
                        self.wf(),
                        rows == self.layout.rows,
                        cur.col == pos.col,
                        cur.row == pos.row + steps,
                        self.in_bounds(cur.row as int, cur.col as int),
                        self.slide_steps(pos.row as int, pos.col as int, d) == steps
                            + self.slide_steps(cur.row as int, cur.col as int, d),
                        d == Direction::Down,
                    decreases rows - cur.row,
                {
                    cur = Point { row: cur.row + 1, col: cur.col };
                    steps = steps + 1;
                }
            },
            Direction::Left => {
                while cur.col > 0 && !self.layout.grid[cur.row][cur.col - 1].blocks()
                    invariant
                        self.wf(),
                        cur.row == pos.row,
                        cur.col + steps == pos.col,
                        self.in_bounds(cur.row as int, cur.col as int),
                        self.slide_steps(pos.row as int, pos.col as int, d) == steps
                            + self.slide_steps(cur.row as int, cur.col as int, d),
                        d == Direction::Left,
                    decreases cur.col,
                {
                    cur = Point { row: cur.row, col: cur.col - 1 };
                    steps = steps + 1;
                }
            },
            Direction::Right => {
                while cur.col + 1 < cols && !self.layout.grid[cur.row][cur.col + 1].blocks()
                    invariant
                        self.wf(),
                        cols == self.layout.cols,
                        cur.row == pos.row,
                        cur.col == pos.col + steps,
                        self.in_bounds(cur.row as int, cur.col as int),
                        self.slide_steps(pos.row as int, pos.col as int, d) == steps
                            + self.slide_steps(cur.row as int, cur.col as int, d),
                        d == Direction::Right,
                    decreases cols - cur.col,
                {
                    cur = Point { row: cur.row, col: cur.col + 1 };
                    steps = steps + 1;
                }
            },
        }
        steps
    }

    /// How far the player would slide in `direction` before an obstacle
    /// halts the walk. Returns 0 exactly when the adjacent cell already
    /// blocks: a wall, a rock, or the board edge.
    pub fn steps_in_direction(&self, direction: &Direction) -> (steps: u8)
        requires
            self.wf(),
        ensures
            steps == self.slide_steps(
                self.player_pt().row as int,
                self.player_pt().col as int,
                *direction,
            ),
            (steps == 0) <==> !self.passable(
                self.player_pt().row as int + dir_dr(*direction),
                self.player_pt().col as int + dir_dc(*direction),
            ),
    {
        self.steps_from(self.player.0, *direction)
    }

    /// Relocates the player to row `new_row`, column `new_col`. A no-op when
    /// the player is already there; otherwise the vacated cell is restored
    /// to the tile under it (start, end, or ice) and reaching the end sets
    /// the won flag and counts the level as solved.
    pub fn update_player_position(&mut self, new_row: usize, new_col: usize)
        requires
            old(self).wf(),
            old(self).standable(new_row as int, new_col as int),
        ensures
            final(self).wf(),
            same_static(*old(self), *final(self)),
            move_effect(*old(self), *final(self), new_row as int, new_col as int),
            final(self).move_queue == old(self).move_queue,
            final(self).solution == old(self).solution,
    {
        if self.player.0.row != new_row || self.player.0.col != new_col {
            let prev = self.player.0;
            self.player = Player(Point { row: new_row, col: new_col });
            self.layout.grid[new_row][new_col] = Tile::Player;
            if self.player_won() {
                self.player_has_won = true;
                match self.game_state {
                    Some(gs) => {
                        let solved = if gs.levels_solved < 65535 {
                            gs.levels_solved + 1
                        } else {
                            gs.levels_solved
                        };
                        self.game_state = Some(GameState { levels_solved: solved, ..gs });
                    },
                    None => {},
                }
            }
            if prev.row == self.layout.start.0.row && prev.col == self.layout.start.0.col {
                self.layout.grid[prev.row][prev.col] = Tile::Start;
            } else if prev.row == self.layout.end.0.row && prev.col == self.layout.end.0.col {
                self.layout.grid[prev.row][prev.col] = Tile::End;
            } else {
                self.layout.grid[prev.row][prev.col] = Tile::Ice;
            }
            proof {
                let pre = *old(self);
                let post = *self;
                assert(pre.base_tile(prev.row as int, prev.col as int) == (if pt_at(
                    pre.start_pt(),
                    prev.row as int,
                    prev.col as int,
                ) {
                    Tile::Start
                } else if pt_at(pre.end_pt(), prev.row as int, prev.col as int) {
                    Tile::End
                } else {
                    Tile::Ice
                })) by {
                    if pre.has_rock(prev.row as int, prev.col as int) {
                        assert(false);
                    }
                }
                assert forall|r: int, c: int| pre.in_bounds(r, c) implies #[trigger] post.tile_at(
                    r,
                    c,
                ) == (if r == new_row && c == new_col {
                    Tile::Player
                } else if pt_at(pre.player_pt(), r, c) {
                    pre.base_tile(r, c)
                } else {
                    pre.tile_at(r, c)
                }) by {}
                assert forall|r: int, c: int| post.in_bounds(r, c) implies #[trigger] post.tile_at(
                    r,
                    c,
                ) == post.expected_tile(r, c) by {
                    assert(pre.tile_at(r, c) == pre.expected_tile(r, c));
                }
                assert(post.wf());
            }
        }
    }

    /// Moves the player one cell in `dir`. The caller guarantees the slide
    /// is still travelling, so the adjacent cell is open.
    pub fn move_player(&mut self, dir: Direction)
        requires
            old(self).wf(),
            old(self).slide_steps(
                old(self).player_pt().row as int,
                old(self).player_pt().col as int,
                dir,
            ) >= 1,
        ensures
            final(self).wf(),
            same_static(*old(self), *final(self)),
            move_effect(
                *old(self),
                *final(self),
                old(self).player_pt().row as int + dir_dr(dir),
                old(self).player_pt().col as int + dir_dc(dir),
            ),
            final(self).move_queue == old(self).move_queue,
            final(self).solution == old(self).solution,
            final(self).slide_steps(
                final(self).player_pt().row as int,
                final(self).player_pt().col as int,
                dir,
            ) == old(self).slide_steps(
                old(self).player_pt().row as int,
                old(self).player_pt().col as int,
                dir,
            ) - 1,
    {
        proof {
            let pr = old(self).player_pt().row as int;
            let pc = old(self).player_pt().col as int;
            assert(old(self).passable(pr + dir_dr(dir), pc + dir_dc(dir)));
            lemma_passable_standable(*old(self), pr + dir_dr(dir), pc + dir_dc(dir));
        }
        let (new_row, new_col) = match dir {
            Direction::Up => (self.player.0.row - 1, self.player.0.col),
            Direction::Down => (self.player.0.row + 1, self.player.0.col),
            Direction::Left => (self.player.0.row, self.player.0.col - 1),
            Direction::Right => (self.player.0.row, self.player.0.col + 1),
        };
        self.update_player_position(new_row, new_col);
        proof {
            let pre = *old(self);
            let post = *self;
            let pr = pre.player_pt().row as int;
            let pc = pre.player_pt().col as int;
            let nr = pr + dir_dr(dir);
            let nc = pc + dir_dc(dir);
            assert(post.player_pt().row == nr && post.player_pt().col == nc);
            assert forall|r: int, c: int| post.in_bounds(r, c) implies post.passable(r, c)
                == pre.passable(r, c) by {
                assert(pre.tile_at(r, c) == pre.expected_tile(r, c));
                assert(post.tile_at(r, c) == post.expected_tile(r, c));
            }
            lemma_slide_steps_same(pre, post, nr, nc, dir);
            assert(pre.slide_steps(pr, pc, dir) == 1 + pre.slide_steps(nr, nc, dir));
        }
    }
}

/// Well-formedness and slide lengths depend only on the layout and the
/// player, so they survive changes to the queue, the stored solution, the
/// won flag, or the game state.
pub proof fn lemma_wf_frame(a: Board, b: Board)
    requires
        a.wf(),
        b.layout == a.layout,
        b.player == a.player,
    ensures
        b.wf(),
        forall|r: int, c: int, d: Direction| #[trigger] b.slide_steps(r, c, d) == a.slide_steps(
            r,
            c,
            d,
        ),
{
    assert forall|r: int, c: int| b.in_bounds(r, c) implies #[trigger] b.tile_at(r, c)
        == b.expected_tile(r, c) by {
        assert(a.tile_at(r, c) == a.expected_tile(r, c));
    }
    assert forall|r: int, c: int, d: Direction| #[trigger] b.slide_steps(r, c, d)
        == a.slide_steps(r, c, d) by {
        assert forall|ri: int, ci: int| a.in_bounds(ri, ci) implies a.passable(ri, ci)
            == #[trigger] b.passable(ri, ci) by {}
        lemma_slide_steps_same(a, b, r, c, d);
    }
}

impl Board {
    /// The start cell can always be stood on.
    pub(crate) proof fn lemma_start_standable(self)
        requires
            self.wf(),
        ensures
            self.standable(self.start_pt().row as int, self.start_pt().col as int),
    {
        let r = self.start_pt().row as int;
        let c = self.start_pt().col as int;
        if self.has_rock(r, c) {
            let i = choose|i: int|
                0 <= i < self.rock_pts().len() && pt_at(#[trigger] self.rock_pts()[i], r, c);
            assert(self.rock_pts()[i] == self.start_pt());
            assert(false);
        }
    }

    /// The slide the player could make in `direction`: the full step count,
    /// or nothing when the player is mid-slide (the queue is busy) or the
    /// adjacent cell already blocks.
    fn create_slide_move(&self, direction: &Direction) -> (m: Option<Move>)
        requires
            self.wf(),
        ensures
            ({
                let n = self.slide_steps(
                    self.player_pt().row as int,
                    self.player_pt().col as int,
                    *direction,
                );
                if self.move_queue@.len() == 0 && n > 0 {
                    m == Some(Move::SlidePlayer(Slide { steps: n as u8, direction: *direction }))
                } else {
                    m is None
                }
            }),
            self.slide_steps(
                self.player_pt().row as int,
                self.player_pt().col as int,
                *direction,
            ) <= 255,
    {
        proof {
            lemma_slide_props(
                *self,
                self.player_pt().row as int,
                self.player_pt().col as int,
                *direction,
            );
        }
        if self.move_queue.len() == 0 {
            let steps = self.steps_in_direction(direction);
            if steps > 0 {
                Some(Move::SlidePlayer(Slide::new(steps, *direction)))
            } else {
                None
            }
        } else {
            None
        }
    }

    /// Decides what a control intent does to the queue. Input is ignored
    /// once the player has won. A slide is rejected while the queue is busy,
    /// so one slide stays atomic; a reset clears the queue and queues itself
    /// only when the player is away from the start.
    pub fn respond_to_input(&mut self, input: PlayerInput)
        requires
            old(self).wf(),
            old(self).queue_wf(),
        ensures
            final(self).wf(),
            final(self).queue_wf(),
            final(self).layout == old(self).layout,
            final(self).player == old(self).player,
            final(self).player_has_won == old(self).player_has_won,
            final(self).solution == old(self).solution,
            final(self).game_state == old(self).game_state,
            final(self).move_queue@ == (if old(self).player_has_won {
                old(self).move_queue@
            } else {
                match input {
                    PlayerInput::Slide(d) => {
                        let n = old(self).slide_steps(
                            old(self).player_pt().row as int,
                            old(self).player_pt().col as int,
                            d,
                        );
                        if old(self).move_queue@.len() == 0 && n > 0 {
                            seq![Move::SlidePlayer(Slide { steps: n as u8, direction: d })]
                        } else {
                            old(self).move_queue@
                        }
                    },
                    PlayerInput::Reset => {
                        if old(self).player_pt() != old(self).start_pt() {
                            seq![Move::Reset]
                        } else {
                            Seq::<Move>::empty()
                        }
                    },
                    PlayerInput::ChangeView => old(self).move_queue@.push(Move::ChangeView),
                    PlayerInput::ShowSolution => old(self).move_queue@.push(Move::ShowSolution),
                    PlayerInput::Exit => old(self).move_queue@.push(Move::Exit),
                }
            }),
    {
        if !self.player_has_won {
            let move_opt: Option<Move> = match input {
                PlayerInput::Slide(d) => self.create_slide_move(&d),
                PlayerInput::Reset => Some(Move::Reset),
                PlayerInput::ChangeView => Some(Move::ChangeView),
                PlayerInput::ShowSolution => Some(Move::ShowSolution),
                PlayerInput::Exit => Some(Move::Exit),
            };
            if let Some(mv) = move_opt {
                match mv {
                    Move::Reset => {
                        self.move_queue.clear();
                        if self.player.0 != self.layout.start.0 {
                            self.move_queue.push_back(mv);
                            proof {
                                assert(self.move_queue@ =~= seq![Move::Reset]);
                            }
                        }
                    },
                    _ => {
                        self.move_queue.push_back(mv);
                    },
                }
            }
        }
        proof {
            lemma_wf_frame(*old(self), *self);
        }
    }

    /// Pops at most one queued action and carries it out: one tile of a
    /// slide (requeueing the remainder at the front), a reset to the start,
    /// a view or solution toggle, or an exit request, which is returned for
    /// the host to act on. Returns the processed action, or `None` when the
    /// queue was empty.
    pub fn process_move(&mut self) -> (processed: Option<Move>)
        requires
            old(self).wf(),
            old(self).queue_wf(),
        ensures
            final(self).wf(),
            final(self).queue_wf(),
            same_static(*old(self), *final(self)),
            final(self).solution == old(self).solution,
            old(self).move_queue@.len() == 0 ==> processed is None && *final(self) == *old(self),
            old(self).move_queue@.len() > 0 ==> {
                &&& processed == Some(old(self).move_queue@[0])
                &&& match old(self).move_queue@[0] {
                    Move::SlidePlayer(sl) => {
                        &&& move_effect(
                            *old(self),
                            *final(self),
                            old(self).player_pt().row as int + dir_dr(sl.direction),
                            old(self).player_pt().col as int + dir_dc(sl.direction),
                        )
                        &&& final(self).move_queue@ == (if sl.steps > 1 {
                            old(self).move_queue@.update(
                                0,
                                Move::SlidePlayer(
                                    Slide { steps: (sl.steps - 1) as u8, direction: sl.direction },
                                ),
                            )
                        } else {
                            old(self).move_queue@.skip(1)
                        })
                    },
                    Move::Reset => {
                        &&& move_effect(
                            *old(self),
                            *final(self),
                            old(self).start_pt().row as int,
                            old(self).start_pt().col as int,
                        )
                        &&& final(self).move_queue@ == old(self).move_queue@.skip(1)
                    },
                    Move::ShowSolution => {
                        &&& final(self).move_queue@ == old(self).move_queue@.skip(1)
                        &&& final(self).player == old(self).player
                        &&& final(self).layout == old(self).layout
                        &&& final(self).player_has_won == old(self).player_has_won
                        &&& final(self).game_state == (match old(self).game_state {
                            Some(gs) => Some(GameState { display_solution: true, ..gs }),
                            None => None,
                        })
                    },
                    Move::ChangeView => {
                        &&& final(self).move_queue@ == old(self).move_queue@.skip(1)
                        &&& final(self).player == old(self).player
                        &&& final(self).layout == old(self).layout
                        &&& final(self).player_has_won == old(self).player_has_won
                        &&& final(self).game_state == (match old(self).game_state {
                            Some(gs) => Some(
                                GameState {
                                    player_focused_view: !gs.player_focused_view,
                                    ..gs
                                },
                            ),
                            None => None,
                        })
                    },
                    Move::Exit => {
                        &&& final(self).move_queue@ == old(self).move_queue@.skip(1)
                        &&& final(self).player == old(self).player
                        &&& final(self).layout == old(self).layout
                        &&& final(self).player_has_won == old(self).player_has_won
                        &&& final(self).game_state == old(self).game_state
                    },
                }
            },
    {
        if self.move_queue.len() == 0 {
            return None;
        }
        let popped = self.move_queue.pop_front();
        proof {
            lemma_wf_frame(*old(self), *self);
        }
        match popped {
            None => None,
            Some(curr) => {
                match curr {
                    Move::SlidePlayer(slide) => {
                        if slide.steps > 1 {
                            self.move_queue.push_front(
                                Move::SlidePlayer(
                                    Slide { steps: slide.steps - 1, direction: slide.direction },
                                ),
                            );
                            proof {
                                lemma_wf_frame(*old(self), *self);
                            }
                        }
                        self.move_player(slide.direction);
                        proof {
                            if slide.steps > 1 {
                                assert(self.move_queue@ =~= old(self).move_queue@.update(
                                    0,
                                    Move::SlidePlayer(
                                        Slide {
                                            steps: (slide.steps - 1) as u8,
                                            direction: slide.direction,
                                        },
                                    ),
                                ));
                            }
                        }
                    },
                    Move::Reset => {
                        proof {
                            self.lemma_start_standable();
                        }
                        let srow = self.layout.start.0.row;
                        let scol = self.layout.start.0.col;
                        self.update_player_position(srow, scol);
                    },
                    Move::ShowSolution => {
                        match self.game_state {
                            Some(gs) => {
                                self.game_state = Some(GameState { display_solution: true, ..gs });
                            },
                            None => {},
                        }
                        proof {
                            lemma_wf_frame(*old(self), *self);
                        }
                    },
                    Move::ChangeView => {
                        match self.game_state {
                            Some(gs) => {
                                self.game_state = Some(
                                    GameState {
                                        player_focused_view: !gs.player_focused_view,
                                        ..gs
                                    },
                                );
                            },
                            None => {},
                        }
                        proof {
                            lemma_wf_frame(*old(self), *self);
                        }
                    },
                    Move::Exit => {
                        proof {
                            lemma_wf_frame(*old(self), *self);
                        }
                    },
                }
                Some(curr)
            },
        }
    }
}

/// Two boards that agree on bounds and passability agree on slide lengths.
pub proof fn lemma_slide_steps_same(a: Board, b: Board, r: int, c: int, d: Direction)
    requires
        a.rows_i() == b.rows_i(),
        a.cols_i() == b.cols_i(),
        forall|ri: int, ci: int| a.in_bounds(ri, ci) ==> a.passable(ri, ci) == #[trigger] b.passable(
            ri,
            ci,
        ),
    ensures
        a.slide_steps(r, c, d) == b.slide_steps(r, c, d),
    decreases a.slide_measure(r, c, d),
{
    if a.in_bounds(r, c) && a.passable(r + dir_dr(d), c + dir_dc(d)) {
        lemma_slide_steps_same(a, b, r + dir_dr(d), c + dir_dc(d), d);
    }
}

} // verus!
