use vstd::prelude::*;

verus! {

/// Why a directory cannot be hashed as a tree.
#[derive(Debug)]
pub enum HashTreeError<'a> {
    InvalidPath(&'a str),
}

} // verus!
