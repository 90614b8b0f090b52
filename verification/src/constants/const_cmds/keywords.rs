//! The command names.

use vstd::prelude::*;

use crate::text::str_eq;

verus! {

pub const CMD_INIT: &'static str = "init";
pub const CMD_STATUS: &'static str = "status";
pub const CMD_ADD: &'static str = "add";
pub const CMD_COMMIT: &'static str = "commit";
pub const CMD_LOG: &'static str = "log";
pub const CMD_RESET: &'static str = "reset";
pub const CMD_HASH_FILE: &'static str = "hash-file";
pub const CMD_BUILD_TREE: &'static str = "build-tree";
pub const CMD_HASH_OBJECT: &'static str = "hash-object";
pub const CMD_CAT_FILE: &'static str = "cat-file";

/// Whether a text is one of the command names.
pub open spec fn is_keyword(s: Seq<char>) -> bool {
    ||| s == CMD_INIT@
    ||| s == CMD_STATUS@
    ||| s == CMD_ADD@
    ||| s == CMD_COMMIT@
    ||| s == CMD_LOG@
    ||| s == CMD_RESET@
    ||| s == CMD_HASH_FILE@
    ||| s == CMD_BUILD_TREE@
    ||| s == CMD_HASH_OBJECT@
    ||| s == CMD_CAT_FILE@
}

/// Tests `is_keyword`.
pub fn contains_keyword(s: &str) -> (r: bool)
    ensures
        r == is_keyword(s@),
{
    str_eq(s, CMD_INIT) || str_eq(s, CMD_STATUS) || str_eq(s, CMD_ADD) || str_eq(s, CMD_COMMIT)
        || str_eq(s, CMD_LOG) || str_eq(s, CMD_RESET) || str_eq(s, CMD_HASH_FILE) || str_eq(
        s,
        CMD_BUILD_TREE,
    ) || str_eq(s, CMD_HASH_OBJECT) || str_eq(s, CMD_CAT_FILE)
}

/// Every command name starts with a lower-case letter.
pub proof fn lemma_keyword_starts_with_letter(s: Seq<char>)
    ensures
        is_keyword(s) ==> s.len() > 0 && 'a' <= s[0] <= 'z',
{
    reveal_strlit("init");
    reveal_strlit("status");
    reveal_strlit("add");
    reveal_strlit("commit");
    reveal_strlit("log");
    reveal_strlit("reset");
    reveal_strlit("hash-file");
    reveal_strlit("build-tree");
    reveal_strlit("hash-object");
    reveal_strlit("cat-file");
}

/// The command names are distinct from one another.
pub proof fn law_keywords_distinct()
    ensures
        CMD_INIT@ != CMD_STATUS@ && CMD_INIT@ != CMD_ADD@ && CMD_INIT@ != CMD_COMMIT@
            && CMD_INIT@ != CMD_LOG@ && CMD_INIT@ != CMD_RESET@ && CMD_INIT@ != CMD_HASH_FILE@
            && CMD_INIT@ != CMD_BUILD_TREE@ && CMD_INIT@ != CMD_HASH_OBJECT@ && CMD_INIT@
            != CMD_CAT_FILE@,
        CMD_STATUS@ != CMD_ADD@ && CMD_STATUS@ != CMD_COMMIT@ && CMD_STATUS@ != CMD_LOG@
            && CMD_STATUS@ != CMD_RESET@ && CMD_STATUS@ != CMD_HASH_FILE@ && CMD_STATUS@
            != CMD_BUILD_TREE@ && CMD_STATUS@ != CMD_HASH_OBJECT@ && CMD_STATUS@ != CMD_CAT_FILE@,
        CMD_ADD@ != CMD_COMMIT@ && CMD_ADD@ != CMD_LOG@ && CMD_ADD@ != CMD_RESET@ && CMD_ADD@
            != CMD_HASH_FILE@ && CMD_ADD@ != CMD_BUILD_TREE@ && CMD_ADD@ != CMD_HASH_OBJECT@
            && CMD_ADD@ != CMD_CAT_FILE@,
        CMD_COMMIT@ != CMD_LOG@ && CMD_COMMIT@ != CMD_RESET@ && CMD_COMMIT@ != CMD_HASH_FILE@
            && CMD_COMMIT@ != CMD_BUILD_TREE@ && CMD_COMMIT@ != CMD_HASH_OBJECT@ && CMD_COMMIT@
            != CMD_CAT_FILE@,
        CMD_LOG@ != CMD_RESET@ && CMD_LOG@ != CMD_HASH_FILE@ && CMD_LOG@ != CMD_BUILD_TREE@
            && CMD_LOG@ != CMD_HASH_OBJECT@ && CMD_LOG@ != CMD_CAT_FILE@,
        CMD_RESET@ != CMD_HASH_FILE@ && CMD_RESET@ != CMD_BUILD_TREE@ && CMD_RESET@
            != CMD_HASH_OBJECT@ && CMD_RESET@ != CMD_CAT_FILE@,
        CMD_HASH_FILE@ != CMD_BUILD_TREE@ && CMD_HASH_FILE@ != CMD_HASH_OBJECT@ && CMD_HASH_FILE@
            != CMD_CAT_FILE@,
        CMD_BUILD_TREE@ != CMD_HASH_OBJECT@ && CMD_BUILD_TREE@ != CMD_CAT_FILE@,
        CMD_HASH_OBJECT@ != CMD_CAT_FILE@,
{
    reveal_strlit("init");
    reveal_strlit("status");
    reveal_strlit("add");
    reveal_strlit("commit");
    reveal_strlit("log");
    reveal_strlit("reset");
    reveal_strlit("hash-file");
    reveal_strlit("build-tree");
    reveal_strlit("hash-object");
    reveal_strlit("cat-file");
    assert(CMD_INIT@.len() == 4 && CMD_STATUS@.len() == 6 && CMD_ADD@.len() == 3
        && CMD_COMMIT@.len() == 6 && CMD_LOG@.len() == 3 && CMD_RESET@.len() == 5
        && CMD_HASH_FILE@.len() == 9 && CMD_BUILD_TREE@.len() == 10
        && CMD_HASH_OBJECT@.len() == 11 && CMD_CAT_FILE@.len() == 8);
    assert(CMD_STATUS@[0] == 's' && CMD_COMMIT@[0] == 'c' && CMD_ADD@[0] == 'a'
        && CMD_LOG@[0] == 'l');
}

} // verus!
