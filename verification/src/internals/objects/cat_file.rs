//! Configuration of the cat-file command.

use vstd::prelude::*;

use crate::internals::hash::commit_hash::CommitHash;

verus! {

#[derive(Debug, PartialEq, Clone)]
pub struct CatFileConfig {
    pub values: Vec<CommitHash>,
    pub flags: CatFileMode,
}

impl CatFileConfig {
    pub fn new(values: Vec<CommitHash>, flags: CatFileMode) -> (r: Self)
        ensures
            r.values == values,
            r.flags == flags,
    {
        Self { values, flags }
    }
}

#[derive(Debug, PartialEq, Eq, Structural, Clone, Copy)]
pub enum CatFileMode {
    /// Display the type of an object
    Type,
    /// Display the content of an object (pretty printed)
    PrettyPrint,
    /// Display the size of an object
    Size,
}

} // verus!
