//! Hashing of objects: the hash type and the configuration of the
//! hash-object command.

pub mod commit_hash;
pub mod hash_tree;

use vstd::prelude::*;

use crate::internals::objects::ObjectType;

verus! {

#[derive(Debug, PartialEq, Clone)]
pub struct HashObjectConfig<'a> {
    pub value: &'a str,
    pub flags: HashObjectFlags,
}

impl<'a> HashObjectConfig<'a> {
    pub fn new(value: &'a str, flags: HashObjectFlags) -> (r: Self)
        ensures
            r.value == value,
            r.flags == flags,
    {
        Self { value, flags }
    }
}

#[derive(Debug, PartialEq, Eq, Structural, Clone, Copy)]
pub struct HashObjectFlags {
    pub tp: ObjectType,
    pub write: bool,
}

impl HashObjectFlags {
    pub fn new(tp: ObjectType, write: bool) -> (r: Self)
        ensures
            r.tp == tp,
            r.write == write,
    {
        Self { tp, write }
    }
}

} // verus!
