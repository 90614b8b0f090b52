//! The command line flags.

use vstd::prelude::*;

use crate::text::str_eq;

verus! {

pub const ALL_FLAG_S: &'static str = "-a";
pub const ALL_FLAG_L: &'static str = "--all";
pub const MESSAGE_FLAG_S: &'static str = "-m";
pub const MESSAGE_FLAG_L: &'static str = "--message";
pub const TYPE_FLAG_S: &'static str = "-t";
pub const TYPE_FLAG_L: &'static str = "--type";
pub const WRITE_FLAG_S: &'static str = "-w";
pub const WRITE_FLAG_L: &'static str = "--write";
pub const PRETTY_PRINT_FLAG_S: &'static str = "-p";
pub const SIZE_FLAG_S: &'static str = "-s";

/// Whether a text is one of the flags.
pub open spec fn is_flag(s: Seq<char>) -> bool {
    ||| s == ALL_FLAG_S@
    ||| s == ALL_FLAG_L@
    ||| s == MESSAGE_FLAG_S@
    ||| s == MESSAGE_FLAG_L@
    ||| s == TYPE_FLAG_S@
    ||| s == TYPE_FLAG_L@
    ||| s == WRITE_FLAG_S@
    ||| s == WRITE_FLAG_L@
    ||| s == PRETTY_PRINT_FLAG_S@
    ||| s == SIZE_FLAG_S@
}

/// Tests `is_flag`.
pub fn contains_flag(s: &str) -> (r: bool)
    ensures
        r == is_flag(s@),
{
    str_eq(s, ALL_FLAG_S) || str_eq(s, ALL_FLAG_L) || str_eq(s, MESSAGE_FLAG_S) || str_eq(
        s,
        MESSAGE_FLAG_L,
    ) || str_eq(s, TYPE_FLAG_S) || str_eq(s, TYPE_FLAG_L) || str_eq(s, WRITE_FLAG_S) || str_eq(
        s,
        WRITE_FLAG_L,
    ) || str_eq(s, PRETTY_PRINT_FLAG_S) || str_eq(s, SIZE_FLAG_S)
}

} // verus!
