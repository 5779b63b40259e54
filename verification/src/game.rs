use vstd::prelude::*;

verus! {

/// The banner and key reference shown above the board, one line per
/// entry.
pub fn get_introduction_section() -> (out: Vec<String>)
    ensures
        out@.len() == 12,
{
    let mut out: Vec<String> = Vec::new();
    out.push(String::from_str("Welcome to"));
    out.push(String::from_str(r"   ______ __              _                _____  __ _      __    "));
    out.push(String::from_str(r"  / ____// /____ _ _____ (_)___   _____   / ___/ / /(_)____/ /___ "));
    out.push(String::from_str(r" / / __ / // __ `// ___// // _ \ / ___/   \__ \ / // // __  // _ \"));
    out.push(String::from_str(r"/ /_/ // // /_/ // /__ / //  __// /      ___/ // // // /_/ //  __/"));
    out.push(String::from_str(r"\____//_/ \__,_/ \___//_/ \___//_/      /____//_//_/ \__,_/ \___/ "));
    out.push(String::from_str("  "));
    out.push(String::from_str("  Use 'WASD' or the arrow keys to move."));
    out.push(String::from_str("  Press 'SPACE' to restart."));
    out.push(String::from_str("  Press 'V' or 'v' to change the view."));
    out.push(String::from_str("  Press 'G' or 'g' to give up and show the solution."));
    out.push(String::from_str("  Press 'Q' or 'Ctrl-C' to exit."));
    out
}

} // verus!
