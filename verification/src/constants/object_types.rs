use vstd::prelude::*;

verus! {

pub const BLOB_STR: &'static str = "blob";
pub const TREE_STR: &'static str = "tree";
pub const COMMIT_STR: &'static str = "commit";

} // verus!
