//! Errors of running a command.

use vstd::prelude::*;

use crate::internals::hash::commit_hash::CommitHash;

verus! {

#[derive(Debug)]
pub enum ExecuteError {
    /// Any error that occurs during Initialization
    InitError { msg: String },
    NonExistingHash { hash: CommitHash },
}

} // verus!
