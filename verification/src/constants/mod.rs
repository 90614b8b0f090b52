//! Names, flags and file names the program uses.

pub mod const_cmds;
pub mod head_prefixes;
pub mod object_types;
pub mod special_chars;

use vstd::prelude::*;

verus! {

/// Hash that indicates that no parent exists.
/// A commit that has a null hash as a parent is the root (or initial) commit.
pub const NULL_HASH: &'static str = "NULL";

/// Default option for the "main/master" branch
pub const DEFAULT_BRANCH: &'static str = "main";

/// Base dir, like ".git/"
pub const BASE_DIR_NAME: &'static str = "gitrs";

/// config file name
pub const CONFIG_FILE: &'static str = "gitrsconfig";

/// similar to git's .git/HEAD file. Tracks the latest commit
pub const HEAD_FILE: &'static str = "HEAD";

/// like .gitrs/refs. Tracks referencable hashes (tags, branch-heads, etc.)
pub const REFS_DIR: &'static str = "refs";

/// Subdir of .gitrs/refs; like ./git/refs/heads; keeps track of heads of local branches
pub const HEADS_DIR: &'static str = "heads";

/// Subdir of .gitrs/; Contains the objects database
/// (key value pairs, the key being a CommitHash and the value being an object)
pub const OBJECTS_DIR: &'static str = "objects";

/// The staging area's file in .gitrs/
pub const INDEX_FILE: &'static str = "index";

/// Temporary folder that holds the content.
/// Makes it easier to track changes.
pub const CONTENT_DIR: &'static str = "gitrs_content";

} // verus!
