//! Prefixed to the path held in .gitrs/HEAD

use vstd::prelude::*;

verus! {

pub const HEAD_PREFIX_LEN: usize = 3;
pub const HEAD_REF_STR: &'static str = "ref";
pub const HEAD_TAG_STR: &'static str = "tag";
pub const HEAD_RMT_STR: &'static str = "rmt";

} // verus!
