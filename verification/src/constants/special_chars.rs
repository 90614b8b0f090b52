use vstd::prelude::*;

verus! {

pub const CLI_FLAG_PREFIX_SHORT: &'static str = "-";
pub const CLI_FLAG_PREFIX_LONG: &'static str = "--";
pub const SPACE: char = ' ';
pub const EQUAL: char = '=';

} // verus!
