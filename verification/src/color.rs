use vstd::prelude::*;

verus! {

/// The ANSI escape sequences the shell uses to colour its output.
pub struct ANSIColors;

impl ANSIColors {
    pub const GREEN: &'static str = "\u{001B}[32m";
    pub const BLUE: &'static str = "\u{001B}[34m";
    pub const YELLOW: &'static str = "\u{001B}[33m";
    pub const MAGENTA: &'static str = "\u{001B}[35m";
    pub const CYAN: &'static str = "\u{001B}[36m";
    pub const RESET: &'static str = "\u{001B}[0m";
}

/// The text wrapped in a colour sequence and the reset sequence.
pub open spec fn colorized(text: Seq<char>, color: Seq<char>) -> Seq<char> {
    color + text + ANSIColors::RESET@
}

/// Wraps `text` in `color`, followed by the reset sequence.
pub fn colorize(text: &str, color: &str) -> (res: String)
    ensures
        res@ == colorized(text@, color@),
{
    let mut out = String::from_str(color);
    out.append(text);
    out.append(ANSIColors::RESET);
    out
}

} // verus!
