//! All allowed commands.

use vstd::prelude::*;

use crate::cli::{Token, TokenView};
use crate::internals::hash::commit_hash::CommitHash;
use crate::internals::hash::{HashObjectConfig, HashObjectFlags};
use crate::internals::objects::cat_file::{CatFileConfig, CatFileMode};

verus! {

/// All allowed commands are specified here
#[derive(Debug, Clone, PartialEq)]
pub enum Command<'a> {
    /// Initialize a gitrs project
    Init { default_branch: &'a str },
    /// Display status of currently tracked & untracked files.
    Status,
    /// Add file(s) to staging
    Add { files: Vec<&'a str> },
    /// Commit currently staged files
    Commit { message: &'a str },
    /// Display a log of previous commits
    Log,
    /// Remove a file from staging.
    Reset { files: Vec<&'a str> },
    /// Hash a file of the content directory
    HashFile { filename: Token<'a> },
    /// Build the tree of the content directory
    BuildTree,
    /// Hash (and possibly store) a blob or a tree
    HashObject(HashObjectConfig<'a>),
    /// Show stored objects
    CatFile(CatFileConfig),
}

/// What a command holds, with its texts as characters.
pub enum CommandView {
    Init { default_branch: Seq<char> },
    Status,
    Add { files: Seq<Seq<char>> },
    Commit { message: Seq<char> },
    Log,
    Reset { files: Seq<Seq<char>> },
    HashFile { filename: TokenView },
    BuildTree,
    HashObject { value: Seq<char>, flags: HashObjectFlags },
    CatFile { values: Seq<CommitHash>, mode: CatFileMode },
}

impl<'a> View for Command<'a> {
    type V = CommandView;

    open spec fn view(&self) -> CommandView {
        match self {
            Command::Init { default_branch } => CommandView::Init {
                default_branch: default_branch@,
            },
            Command::Status => CommandView::Status,
            Command::Add { files } => CommandView::Add {
                files: files@.map_values(|f: &'a str| f@),
            },
            Command::Commit { message } => CommandView::Commit { message: message@ },
            Command::Log => CommandView::Log,
            Command::Reset { files } => CommandView::Reset {
                files: files@.map_values(|f: &'a str| f@),
            },
            Command::HashFile { filename } => CommandView::HashFile { filename: filename@ },
            Command::BuildTree => CommandView::BuildTree,
            Command::HashObject(c) => CommandView::HashObject { value: c.value@, flags: c.flags },
            Command::CatFile(c) => CommandView::CatFile { values: c.values@, mode: c.flags },
        }
    }
}

} // verus!
