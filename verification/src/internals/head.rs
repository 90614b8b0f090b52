//! The HEAD file: which reference the working tree is on.

use vstd::prelude::*;
use vstd::string::StringExecFns;

use crate::constants::head_prefixes::{HEAD_REF_STR, HEAD_RMT_STR, HEAD_TAG_STR};
use crate::text::{
    is_whitespace, lemma_word_len, split_whitespace, split_words, str_eq, string_from_chars,
    word_len,
};

verus! {

broadcast use vstd::string::group_string_axioms;

#[derive(Debug, PartialEq, Eq, Structural, Clone, Copy)]
pub enum HeadPrefix {
    Ref,
    Remote,
    Tag,
}

/// The text that stands for a prefix in the HEAD file.
pub open spec fn spec_prefix_text(p: HeadPrefix) -> Seq<char> {
    match p {
        HeadPrefix::Ref => HEAD_REF_STR@,
        HeadPrefix::Remote => HEAD_RMT_STR@,
        HeadPrefix::Tag => HEAD_TAG_STR@,
    }
}

/// The prefix a text stands for.
pub open spec fn spec_prefix_of(s: Seq<char>) -> Option<HeadPrefix> {
    if s == HEAD_REF_STR@ {
        Some(HeadPrefix::Ref)
    } else if s == HEAD_TAG_STR@ {
        Some(HeadPrefix::Tag)
    } else if s == HEAD_RMT_STR@ {
        Some(HeadPrefix::Remote)
    } else {
        None
    }
}

/// The three prefix texts, as characters.
pub proof fn lemma_prefix_texts()
    ensures
        HEAD_REF_STR@ == seq!['r', 'e', 'f'],
        HEAD_TAG_STR@ == seq!['t', 'a', 'g'],
        HEAD_RMT_STR@ == seq!['r', 'm', 't'],
{
    reveal_strlit("ref");
    reveal_strlit("tag");
    reveal_strlit("rmt");
    assert(HEAD_REF_STR@ =~= seq!['r', 'e', 'f']);
    assert(HEAD_TAG_STR@ =~= seq!['t', 'a', 'g']);
    assert(HEAD_RMT_STR@ =~= seq!['r', 'm', 't']);
}

impl HeadPrefix {
    pub fn to_str(&self) -> (r: &'static str)
        ensures
            r@ == spec_prefix_text(*self),
    {
        match self {
            Self::Ref => HEAD_REF_STR,
            Self::Remote => HEAD_RMT_STR,
            Self::Tag => HEAD_TAG_STR,
        }
    }

    pub fn from_str(s: &str) -> (r: Option<Self>)
        ensures
            r == spec_prefix_of(s@),
    {
        if str_eq(s, HEAD_REF_STR) {
            Some(Self::Ref)
        } else if str_eq(s, HEAD_TAG_STR) {
            Some(Self::Tag)
        } else if str_eq(s, HEAD_RMT_STR) {
            Some(Self::Remote)
        } else {
            None
        }
    }
}

/// Reading the text of a prefix gives back the prefix.
pub proof fn law_head_prefix_roundtrip(p: HeadPrefix)
    ensures
        spec_prefix_of(spec_prefix_text(p)) == Some(p),
{
    lemma_prefix_texts();
}

/// The line stored in .gitrs/HEAD: "<prefix>: <path>\n".
pub open spec fn spec_head_line(path: Seq<char>, prefix: HeadPrefix) -> Seq<char> {
    spec_prefix_text(prefix) + seq![':', ' '] + path + seq!['\n']
}

/// Convert a path to the format in which it will be stored in .gitrs/HEAD
pub fn path_to_head_format(path: &str, prefix: HeadPrefix) -> (r: String)
    ensures
        r@ == spec_head_line(path@, prefix),
{
    let mut s = prefix.to_str().to_string();
    let sep = ": ";
    let nl = "\n";
    proof {
        reveal_strlit(": ");
        reveal_strlit("\n");
    }
    s.append(sep);
    s.append(path);
    s.append(nl);
    assert(s@ =~= spec_head_line(path@, prefix));
    s
}

/// What the HEAD file's text holds: exactly two words, the first of which
/// starts with the three characters of a prefix; the second word is the
/// path. Any other text is corrupt.
pub open spec fn spec_parse_head(s: Seq<char>) -> Option<(HeadPrefix, Seq<char>)> {
    let words = split_words(s);
    if words.len() == 2 && words[0].len() >= 3 {
        match spec_prefix_of(words[0].take(3)) {
            Some(p) => Some((p, words[1])),
            None => None,
        }
    } else {
        None
    }
}

/// Reads the text stored in .gitrs/HEAD ("<prefix>: <path>\n"): the prefix
/// and the path, or `None` when the text is corrupt.
pub fn parse_head_content(s: &str) -> (r: Option<(HeadPrefix, String)>)
    ensures
        match spec_parse_head(s@) {
            None => r is None,
            Some((p, path)) => r matches Some((q, t)) && q == p && t@ == path,
        },
{
    let words = split_whitespace(s);
    let ghost ws = words@.map_values(|w: Vec<char>| w@);
    if words.len() != 2 {
        return None;
    }
    assert(words@[0]@ == ws[0]);
    assert(words@[1]@ == ws[1]);
    if words[0].len() < 3 {
        return None;
    }
    let mut head: Vec<char> = Vec::new();
    head.push(words[0][0]);
    head.push(words[0][1]);
    head.push(words[0][2]);
    assert(head@ =~= ws[0].take(3));
    let head_text = string_from_chars(&head);
    match HeadPrefix::from_str(head_text.as_str()) {
        Some(p) => {
            let path = string_from_chars(&words[1]);
            Some((p, path))
        },
        None => None,
    }
}

/// Reading the line written for a nonempty path without white space gives
/// back the prefix and the path.
pub proof fn law_head_line_roundtrip(path: Seq<char>, prefix: HeadPrefix)
    requires
        path.len() > 0,
        forall|i: int| 0 <= i < path.len() ==> !is_whitespace(#[trigger] path[i]),
    ensures
        spec_parse_head(spec_head_line(path, prefix)) == Some((prefix, path)),
{
    lemma_prefix_texts();
    let p = spec_prefix_text(prefix);
    let line = spec_head_line(path, prefix);
    assert(p.len() == 3);
    // the first word: the prefix and ':'
    assert forall|j: int| 0 <= j < 4 implies !is_whitespace(#[trigger] line[j]) by {
        if j < 3 {
            assert(line[j] == p[j]);
        } else {
            assert(line[j] == ':');
        }
    }
    assert(line[4] == ' ');
    lemma_word_len(line, 4);
    let rest1 = line.skip(4);
    assert(split_words(line) == seq![line.take(4)] + split_words(rest1));
    // the space
    assert(rest1[0] == ' ');
    let rest2 = rest1.drop_first();
    assert(rest2 =~= path + seq!['\n']);
    assert(split_words(rest1) == split_words(rest2));
    // the path
    assert forall|j: int| 0 <= j < path.len() implies !is_whitespace(#[trigger] rest2[j]) by {
        assert(rest2[j] == path[j]);
    }
    assert(rest2[path.len() as int] == '\n');
    lemma_word_len(rest2, path.len() as int);
    assert(rest2.take(path.len() as int) =~= path);
    let rest3 = rest2.skip(path.len() as int);
    assert(rest3 =~= seq!['\n']);
    assert(split_words(rest2) == seq![path] + split_words(rest3));
    // the newline
    assert(rest3.drop_first() =~= Seq::<char>::empty());
    assert(split_words(rest3) == split_words(Seq::<char>::empty()));
    assert(split_words(Seq::<char>::empty()) =~= Seq::<Seq<char>>::empty());
    let words = split_words(line);
    assert(words =~= seq![line.take(4), path]);
    assert(line.take(4).take(3) =~= p);
}

} // verus!
