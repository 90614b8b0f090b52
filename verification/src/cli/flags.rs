use vstd::prelude::*;

verus! {

#[derive(Debug, Clone, Copy, PartialEq)]
pub enum CommandFlag<'a> {
    /// -a or --all
    All,
    /// -m or --message
    Message { msg: &'a str },
}

} // verus!
