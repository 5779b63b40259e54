use vstd::prelude::*;
use crate::parser::LevelArgs;

verus! {

/// Parameters for one puzzle: board dimensions (border walls included),
/// rock density as a percentage, and the minimum solution length the
/// generator must reach.
#[derive(Clone, Copy, PartialEq, Eq, Structural, Debug)]
pub struct GameConfig {
    pub cols: u8,
    pub rows: u8,
    /// Percent probability that an interior cell holds a rock.
    pub rock_probability: u8,
    pub minimum_moves_required: u16,
    pub debug: bool,
    pub board_only: bool,
}

impl GameConfig {
    /// The bounds under which the generator can work: a bordered grid needs
    /// three rows and columns, and the solver's depth bound
    /// (`minimum_moves_required + 2`) must fit in `u16`.
    pub open spec fn valid(self) -> bool {
        &&& self.cols >= 3
        &&& self.rows >= 3
        &&& self.minimum_moves_required <= 0xFFFD
    }

    pub fn new(columns_and_rows: u8, minimum_moves_required: u16, rock_probability: u8) -> (c:
        GameConfig)
        ensures
            c == (GameConfig {
                cols: columns_and_rows,
                rows: columns_and_rows,
                rock_probability,
                minimum_moves_required,
                debug: false,
                board_only: false,
            }),
    {
        GameConfig {
            cols: columns_and_rows,
            rows: columns_and_rows,
            minimum_moves_required,
            rock_probability,
            debug: false,
            board_only: false,
        }
    }
}

/// The whitespace characters the difficulty parser trims.
pub open spec fn is_space_char(ch: char) -> bool {
    ch == ' ' || ch == '\t' || ch == '\n' || ch == '\r'
}

/// The index of the first non-space character at or after `i`, or the
/// length when only spaces remain.
pub open spec fn first_non_space(s: Seq<char>, i: int) -> int
    decreases s.len() - i,
{
    if i < 0 || i >= s.len() {
        s.len() as int
    } else if !is_space_char(s[i]) {
        i
    } else {
        first_non_space(s, i + 1)
    }
}

/// One past the last non-space character strictly before `i`, or zero when
/// only spaces precede it.
pub open spec fn last_non_space(s: Seq<char>, i: int) -> int
    decreases i,
{
    if i <= 0 {
        0
    } else if !is_space_char(s[i - 1]) {
        i
    } else {
        last_non_space(s, i - 1)
    }
}

/// `s` with leading and trailing whitespace removed.
pub open spec fn trimmed(s: Seq<char>) -> Seq<char> {
    let lo = first_non_space(s, 0);
    let hi = last_non_space(s, s.len() as int);
    if lo < hi {
        s.subrange(lo, hi)
    } else {
        Seq::empty()
    }
}

/// Characters equal up to ASCII case.
pub open spec fn eq_ignore_case_char(a: char, b: char) -> bool {
    ||| a == b
    ||| ('A' <= a && a <= 'Z' && a as int + 32 == b as int)
    ||| ('A' <= b && b <= 'Z' && b as int + 32 == a as int)
}

/// Character sequences equal up to ASCII case.
pub open spec fn eq_ignore_case(a: Seq<char>, b: Seq<char>) -> bool {
    a.len() == b.len() && forall|i: int| 0 <= i < a.len() ==> eq_ignore_case_char(#[trigger] a[i], b[i])
}

/// The configuration a difficulty name stands for, or `None` for an
/// unknown name. Matching ignores ASCII case.
pub open spec fn config_of_difficulty(t: Seq<char>) -> Option<GameConfig> {
    if eq_ignore_case(t, "easy"@) {
        Some(spec_config(7, 7, 15))
    } else if eq_ignore_case(t, "medium"@) {
        Some(spec_config(12, 11, 15))
    } else if eq_ignore_case(t, "hard"@) {
        Some(spec_config(17, 18, 10))
    } else if eq_ignore_case(t, "extreme"@) {
        Some(spec_config(20, 25, 12))
    } else {
        None
    }
}

/// The configuration `GameConfig::new` builds.
pub open spec fn spec_config(columns_and_rows: u8, minimum_moves_required: u16, rock_probability: u8) -> GameConfig {
    GameConfig {
        cols: columns_and_rows,
        rows: columns_and_rows,
        rock_probability,
        minimum_moves_required,
        debug: false,
        board_only: false,
    }
}

fn is_space(ch: char) -> (b: bool)
    ensures
        b == is_space_char(ch),
{
    ch == ' ' || ch == '\t' || ch == '\n' || ch == '\r'
}

fn eq_ic(a: char, b: char) -> (r: bool)
    ensures
        r == eq_ignore_case_char(a, b),
{
    if a == b {
        true
    } else if a >= 'A' && a <= 'Z' && (a as u32) + 32 == (b as u32) {
        true
    } else {
        b >= 'A' && b <= 'Z' && (b as u32) + 32 == (a as u32)
    }
}

/// The bounds of `s` with surrounding whitespace trimmed away.
fn trim_bounds(s: &str) -> (bounds: (usize, usize))
    ensures
        bounds.0 == first_non_space(s@, 0),
        bounds.1 == last_non_space(s@, s@.len() as int),
        bounds.0 <= s@.len(),
        bounds.1 <= s@.len(),
{
    let n = s.unicode_len();
    let mut lo: usize = 0;
    while lo < n && is_space(s.get_char(lo))
        invariant
            lo <= n,
            n == s@.len(),
            first_non_space(s@, 0) == first_non_space(s@, lo as int),
        decreases n - lo,
    {
        lo = lo + 1;
    }
    let mut hi: usize = n;
    while hi > 0 && is_space(s.get_char(hi - 1))
        invariant
            hi <= n,
            n == s@.len(),
            last_non_space(s@, n as int) == last_non_space(s@, hi as int),
        decreases hi,
    {
        hi = hi - 1;
    }
    (lo, hi)
}

/// Whether `s[lo..hi]` equals `pat` up to ASCII case.
fn matches_ignore_case(s: &str, lo: usize, hi: usize, pat: &str) -> (r: bool)
    requires
        lo <= hi <= s@.len(),
    ensures
        r == eq_ignore_case(s@.subrange(lo as int, hi as int), pat@),
{
    let plen = pat.unicode_len();
    if hi - lo != plen {
        return false;
    }
    let mut i: usize = 0;
    while i < plen
        invariant
            i <= plen,
            plen == pat@.len(),
            lo <= hi <= s@.len(),
            hi - lo == plen,
            forall|j: int| 0 <= j < i ==> eq_ignore_case_char(#[trigger] s@[lo + j], pat@[j]),
        decreases plen - i,
    {
        if !eq_ic(s.get_char(lo + i), pat.get_char(i)) {
            proof {
                assert(s@.subrange(lo as int, hi as int)[i as int] == s@[lo + i]);
            }
            return false;
        }
        i = i + 1;
    }
    proof {
        assert forall|j: int| 0 <= j < plen implies eq_ignore_case_char(
            #[trigger] s@.subrange(lo as int, hi as int)[j],
            pat@[j],
        ) by {
            assert(s@.subrange(lo as int, hi as int)[j] == s@[lo + j]);
        }
    }
    true
}

impl GameConfig {
    /// The configuration a difficulty name stands for: the name is trimmed
    /// and matched ignoring ASCII case, and an unknown name is rejected
    /// with a message naming it.
    pub fn get_config_from_difficulty(s: &str) -> (r: Result<GameConfig, String>)
        ensures
            match config_of_difficulty(trimmed(s@)) {
                Some(c) => r == Ok::<GameConfig, String>(c),
                None => r matches Err(m) && m@ == "Unknown difficulty '"@ + s@
                    + "'. Expected one of: easy, medium, hard, or extreme."@,
            },
    {
        let (lo, hi) = trim_bounds(s);
        proof {
            reveal_strlit("easy");
            reveal_strlit("medium");
            reveal_strlit("hard");
            reveal_strlit("extreme");
        }
        if lo < hi {
            proof {
                assert(trimmed(s@) == s@.subrange(lo as int, hi as int));
            }
            if matches_ignore_case(s, lo, hi, "easy") {
                return Ok(GameConfig::new(7, 7, 15));
            }
            if matches_ignore_case(s, lo, hi, "medium") {
                return Ok(GameConfig::new(12, 11, 15));
            }
            if matches_ignore_case(s, lo, hi, "hard") {
                return Ok(GameConfig::new(17, 18, 10));
            }
            if matches_ignore_case(s, lo, hi, "extreme") {
                return Ok(GameConfig::new(20, 25, 12));
            }
        } else {
            proof {
                assert(trimmed(s@) == Seq::<char>::empty());
            }
        }
        let mut msg = String::from_str("Unknown difficulty '");
        msg.append(s);
        msg.append("'. Expected one of: easy, medium, hard, or extreme.");
        Err(msg)
    }
}

impl Default for GameConfig {
    fn default() -> (c: GameConfig)
        ensures
            c == (GameConfig {
                cols: 7,
                rows: 7,
                rock_probability: 15,
                minimum_moves_required: 7,
                debug: false,
                board_only: false,
            }),
    {
        GameConfig {
            cols: 7,
            rows: 7,
            minimum_moves_required: 7,
            rock_probability: 15,
            debug: false,
            board_only: false,
        }
    }
}

/// Mutable state that outlives a single board: the active configuration,
/// how many levels have been solved, and the two view toggles.
#[derive(Clone, Copy, PartialEq, Eq, Structural, Debug)]
pub struct GameState {
    pub config: GameConfig,
    pub levels_solved: u16,
    pub player_focused_view: bool,
    pub display_solution: bool,
}

impl GameState {
    /// Builds the state for a fresh session. The column and row counts are
    /// the playable interior; two is added to each for the border walls.
    pub fn new(
        cols: u8,
        rows: u8,
        rock_probability: u8,
        minimum_moves_required: u16,
        player_focused_view: bool,
        debug: bool,
        board_only: bool,
    ) -> (s: GameState)
        requires
            cols <= 253,
            rows <= 253,
        ensures
            s == (GameState {
                config: GameConfig {
                    cols: (cols + 2) as u8,
                    rows: (rows + 2) as u8,
                    rock_probability,
                    minimum_moves_required,
                    debug,
                    board_only,
                },
                levels_solved: 0,
                player_focused_view,
                display_solution: false,
            }),
    {
        GameState {
            config: GameConfig {
                cols: cols + 2,
                rows: rows + 2,
                rock_probability,
                minimum_moves_required,
                debug,
                board_only,
            },
            levels_solved: 0,
            player_focused_view,
            display_solution: false,
        }
    }

    /// Builds the state from parsed level options: the difficulty (or the
    /// default) gives a base configuration, which the explicit options
    /// override. An unknown difficulty name is rejected with its message.
    pub fn from(level: LevelArgs, board_only: bool) -> (r: Result<GameState, String>)
        requires
            level.columns matches Some(c) ==> c <= 253,
            level.rows matches Some(rw) ==> rw <= 253,
        ensures
            ({
                let base = match level.difficulty {
                    Some(d) => config_of_difficulty(trimmed(d@)),
                    None => Some(spec_config(7, 7, 15)),
                };
                match base {
                    None => r is Err,
                    Some(b) => r == Ok::<GameState, String>(
                        GameState {
                            config: GameConfig {
                                cols: ((match level.columns {
                                    Some(c) => c,
                                    None => b.cols,
                                }) + 2) as u8,
                                rows: ((match level.rows {
                                    Some(rw) => rw,
                                    None => b.rows,
                                }) + 2) as u8,
                                rock_probability: match level.rock_percentage {
                                    Some(p) => p,
                                    None => b.rock_probability,
                                },
                                minimum_moves_required: match level.moves_required {
                                    Some(m) => m,
                                    None => b.minimum_moves_required,
                                },
                                debug: level.debug,
                                board_only,
                            },
                            levels_solved: 0,
                            player_focused_view: !level.full_level_view,
                            display_solution: false,
                        },
                    ),
                }
            }),
    {
        let base_config = match &level.difficulty {
            Some(d) => match GameConfig::get_config_from_difficulty(d.as_str()) {
                Ok(c) => c,
                Err(m) => {
                    return Err(m);
                },
            },
            None => GameConfig::new(7, 7, 15),
        };
        let cols = match level.columns {
            Some(c) => c,
            None => base_config.cols,
        };
        let rows = match level.rows {
            Some(rw) => rw,
            None => base_config.rows,
        };
        let rock_probability = match level.rock_percentage {
            Some(p) => p,
            None => base_config.rock_probability,
        };
        let min_moves = match level.moves_required {
            Some(m) => m,
            None => base_config.minimum_moves_required,
        };
        Ok(
            GameState::new(
                cols,
                rows,
                rock_probability,
                min_moves,
                !level.full_level_view,
                level.debug,
                board_only,
            ),
        )
    }
}

} // verus!
