//! A snapshot of the working tree with its history link.

use vstd::prelude::*;

use crate::internals::hash::commit_hash::CommitHash;
use crate::internals::objects::tree::GitrsTree;

verus! {

#[derive(Debug, PartialEq)]
pub struct Commit {
    hash: CommitHash,
    /// Hash chained to parent.
    /// Parent is none if this is the initial commit.
    parent: Option<CommitHash>,
    /// Snapshot of the directory
    tree: GitrsTree,
    /// Seconds since the Unix epoch
    commit_time: u64,
    author: String,
    message: String,
}

} // verus!
