use vstd::prelude::*;

verus! {

#[derive(Debug, PartialEq, Eq, Structural, Clone, Copy)]
pub enum FileStatus {
    Untracked,
    Unmodified,
    Modified,
    Staged,
}

} // verus!
