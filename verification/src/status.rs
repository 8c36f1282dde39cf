//! The lines the terminal front end prints around each file: the count of
//! files to sort, the header of the current file and the final tally.
use vstd::prelude::*;
use vstd::string::*;
use crate::session::Progress;
use crate::text::{decimal, decimal_string};

verus! {

/// The opening line: how many files there are to sort, with the plural
/// when there is not exactly one.
pub open spec fn opening_text(total: nat) -> Seq<char> {
    decimal(total) + " file"@ + (if total == 1 { Seq::empty() } else { "s"@ })
        + " to sort. Press Ctrl+C to quit."@
}

/// The opening line.
pub fn opening_line(total: usize) -> (r: String)
    ensures
        r@ == opening_text(total as nat),
{
    let mut r = decimal_string(total as u64);
    r.append(" file");
    if total != 1 {
        r.append("s");
    }
    r.append(" to sort. Press Ctrl+C to quit.");
    r
}

/// The title of the current file: its one-based position, the number of
/// files and its original name.
pub open spec fn title_text(p: Progress, name: Seq<char>) -> Seq<char> {
    "["@ + decimal((p.index + 1) as nat) + "/"@ + decimal(p.total as nat) + "] "@ + name
}

/// The title of the current file.
pub fn file_title(p: Progress, name: &str) -> (r: String)
    requires
        p.index < u64::MAX,
    ensures
        r@ == title_text(p, name@),
{
    let mut r = String::from_str("[");
    r.append(decimal_string(p.index as u64 + 1).as_str());
    r.append("/");
    r.append(decimal_string(p.total as u64).as_str());
    r.append("] ");
    r.append(name);
    r
}

/// How many files were decided, of all of them.
pub open spec fn decided_text(p: Progress) -> Seq<char> {
    "("@ + decimal((p.moved + p.skipped) as nat) + "/"@ + decimal(p.total as nat) + ")"@
}

/// How many files were decided, of all of them.
pub fn decided_count(p: Progress) -> (r: String)
    requires
        p.moved + p.skipped <= u64::MAX,
    ensures
        r@ == decided_text(p),
{
    let mut r = String::from_str("(");
    r.append(decimal_string(p.moved as u64 + p.skipped as u64).as_str());
    r.append("/");
    r.append(decimal_string(p.total as u64).as_str());
    r.append(")");
    r
}

/// The closing tally.
pub open spec fn tally_text(p: Progress) -> Seq<char> {
    "Done. Moved: "@ + decimal(p.moved as nat) + ", Skipped: "@ + decimal(p.skipped as nat)
        + ", Total: "@ + decimal(p.total as nat)
}

/// The closing tally.
pub fn tally_line(p: Progress) -> (r: String)
    ensures
        r@ == tally_text(p),
{
    let mut r = String::from_str("Done. Moved: ");
    r.append(decimal_string(p.moved as u64).as_str());
    r.append(", Skipped: ");
    r.append(decimal_string(p.skipped as u64).as_str());
    r.append(", Total: ");
    r.append(decimal_string(p.total as u64).as_str());
    r
}

} // verus!
