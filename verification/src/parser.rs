use vstd::prelude::*;

verus! {

/// A decimal digit.
pub open spec fn is_digit(c: char) -> bool {
    '0' <= c && c <= '9'
}

/// The value of one digit character; zero for anything else.
pub open spec fn digit_of(c: char) -> nat {
    if is_digit(c) {
        (c as int - 48) as nat
    } else {
        0
    }
}

/// A non-empty string of decimal digits.
pub open spec fn all_digits(s: Seq<char>) -> bool {
    s.len() > 0 && forall|i: int| 0 <= i < s.len() ==> is_digit(#[trigger] s[i])
}

/// The number a digit string denotes.
pub open spec fn dec_val(s: Seq<char>) -> nat
    decreases s.len(),
{
    if s.len() == 0 {
        0
    } else {
        dec_val(s.drop_last()) * 10 + digit_of(s.last())
    }
}

/// A digit string's value never shrinks as more digits are read.
proof fn lemma_dec_val_monotone(s: Seq<char>, i: int)
    requires
        0 <= i <= s.len(),
    ensures
        dec_val(s) >= dec_val(s.take(i)),
    decreases s.len() - i,
{
    if i < s.len() {
        assert(s.take(i + 1).drop_last() =~= s.take(i));
        assert(dec_val(s.take(i + 1)) == dec_val(s.take(i)) * 10 + digit_of(s.take(i + 1).last()));
        lemma_dec_val_monotone(s, i + 1);
    } else {
        assert(s.take(i) =~= s);
    }
}

/// Reads a plain decimal number of at most five digits' worth of value.
fn parse_decimal(s: &str) -> (r: Option<u32>)
    ensures
        match r {
            Some(v) => all_digits(s@) && v == dec_val(s@) && v <= 99999,
            None => !all_digits(s@) || dec_val(s@) > 99999,
        },
{
    let n = s.unicode_len();
    if n == 0 {
        return None;
    }
    let mut i: usize = 0;
    let mut acc: u32 = 0;
    while i < n
        invariant
            i <= n,
            n == s@.len(),
            acc == dec_val(s@.take(i as int)),
            acc <= 99999,
            forall|j: int| 0 <= j < i ==> is_digit(#[trigger] s@[j]),
        decreases n - i,
    {
        let c = s.get_char(i);
        if !(c >= '0' && c <= '9') {
            return None;
        }
        let d = (c as u32) - 48;
        let next = acc * 10 + d;
        proof {
            assert(s@.take(i + 1).drop_last() =~= s@.take(i as int));
            assert(s@.take(i + 1).last() == s@[i as int]);
            assert(dec_val(s@.take(i + 1)) == dec_val(s@.take(i as int)) * 10 + digit_of(
                s@[i as int],
            ));
        }
        if next > 99999 {
            proof {
                lemma_dec_val_monotone(s@, i + 1);
            }
            return None;
        }
        acc = next;
        i = i + 1;
    }
    proof {
        assert(s@.take(n as int) =~= s@);
    }
    Some(acc)
}

/// Validates a column or row count given on the command line: a decimal
/// number from 3 to 20.
pub fn dimension_bounds(s: &str) -> (r: Result<u8, String>)
    ensures
        match r {
            Ok(v) => all_digits(s@) && v == dec_val(s@) && 3 <= v <= 20,
            Err(_) => !(all_digits(s@) && 3 <= dec_val(s@) <= 20),
        },
{
    match parse_decimal(s) {
        Some(v) => {
            if 3 <= v && v <= 20 {
                Ok(v as u8)
            } else {
                Err(String::from_str("number must be between 3 and 20"))
            }
        },
        None => Err(String::from_str("expected a number between 3 and 20")),
    }
}

/// Validates a minimum-move count given on the command line: a decimal
/// number from 1 to 35.
pub fn moves_required(s: &str) -> (r: Result<u16, String>)
    ensures
        match r {
            Ok(v) => all_digits(s@) && v == dec_val(s@) && 1 <= v <= 35,
            Err(_) => !(all_digits(s@) && 1 <= dec_val(s@) <= 35),
        },
{
    match parse_decimal(s) {
        Some(v) => {
            if 1 <= v && v <= 35 {
                Ok(v as u16)
            } else {
                Err(String::from_str("number must be between 1 and 35"))
            }
        },
        None => Err(String::from_str("expected a number between 1 and 35")),
    }
}

/// Validates a rock percentage given on the command line: a decimal
/// number from 5 to 50.
pub fn rock_percentage(s: &str) -> (r: Result<u8, String>)
    ensures
        match r {
            Ok(v) => all_digits(s@) && v == dec_val(s@) && 5 <= v <= 50,
            Err(_) => !(all_digits(s@) && 5 <= dec_val(s@) <= 50),
        },
{
    match parse_decimal(s) {
        Some(v) => {
            if 5 <= v && v <= 50 {
                Ok(v as u8)
            } else {
                Err(String::from_str("number must be between 5 and 50"))
            }
        },
        None => Err(String::from_str("expected a number between 5 and 50")),
    }
}

/// A parsed command line. The host layer parses the actual arguments and
/// hands the library this plain value.
#[derive(Clone, Debug)]
pub struct Args {
    pub command: Command,
}

/// Which subcommand was requested.
#[derive(Clone, Debug)]
pub enum Command {
    /// Play the game in the terminal.
    Play(LevelArgs),
    /// Generate a solvable board and print it as JSON.
    Generate(LevelArgs),
    /// Run the HTTP server to generate solvable boards.
    Serve(ServeArgs),
}

/// Level options shared by the play and generate subcommands. `None` means
/// the option was not given and the difficulty's default applies.
#[derive(Clone, Debug)]
pub struct LevelArgs {
    pub difficulty: Option<String>,
    pub columns: Option<u8>,
    pub rows: Option<u8>,
    pub moves_required: Option<u16>,
    pub rock_percentage: Option<u8>,
    pub full_level_view: bool,
    pub debug: bool,
}

/// Options for the HTTP server subcommand.
#[derive(Clone, Debug)]
pub struct ServeArgs {
    pub bind: String,
}

} // verus!
