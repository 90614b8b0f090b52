//! Turns the raw arguments into tokens.

use std::collections::VecDeque;
use vstd::prelude::*;

use crate::cli::{ParseCliError, Token, TokenView};
use crate::constants::const_cmds::flags::{
    contains_flag, is_flag, ALL_FLAG_L, ALL_FLAG_S, MESSAGE_FLAG_L, MESSAGE_FLAG_S,
    PRETTY_PRINT_FLAG_S, SIZE_FLAG_S, TYPE_FLAG_L, TYPE_FLAG_S, WRITE_FLAG_L, WRITE_FLAG_S,
};
use crate::constants::const_cmds::keywords::{
    contains_keyword, is_keyword, lemma_keyword_starts_with_letter, CMD_ADD, CMD_BUILD_TREE,
    CMD_CAT_FILE, CMD_COMMIT, CMD_HASH_FILE, CMD_HASH_OBJECT, CMD_INIT, CMD_LOG, CMD_RESET,
    CMD_STATUS,
};
use crate::constants::special_chars::{EQUAL, SPACE};
use crate::text::{parse_u32, spec_parse_u32, str_chars, str_contains_char};

verus! {

/// The token an argument becomes: a command name; text holding a space; a
/// known flag (which starts with '-'); a number that fits in `u32`; or else
/// text.
pub open spec fn spec_token_of(a: Seq<char>) -> TokenView {
    if is_keyword(a) {
        TokenView::TCommand(a)
    } else if a.contains(' ') {
        TokenView::TString(a)
    } else if a.len() > 0 && a[0] == '-' && is_flag(a) {
        TokenView::TFlag(a)
    } else if spec_parse_u32(a) is Some {
        TokenView::TNumber(spec_parse_u32(a).unwrap())
    } else {
        TokenView::TString(a)
    }
}

/// Whether an argument can be lexed: key-value pairs ("k=v") are not
/// supported yet, so an argument that is not a command name and holds no
/// space must not hold '='.
pub open spec fn spec_arg_lexable(a: Seq<char>) -> bool {
    is_keyword(a) || a.contains(' ') || !a.contains('=')
}

/// Whether every argument can be lexed.
pub open spec fn spec_args_lexable(args: Seq<String>) -> bool {
    forall|i: int| 0 <= i < args.len() ==> spec_arg_lexable(#[trigger] args[i]@)
}

/// The tokens of the arguments, in order.
pub open spec fn spec_tokens_of(args: Seq<String>) -> Seq<TokenView> {
    args.map_values(|a: String| spec_token_of(a@))
}

/// Tests `spec_args_lexable`.
pub fn args_lexable(args: &[String]) -> (r: bool)
    ensures
        r == spec_args_lexable(args@),
{
    let mut i: usize = 0;
    while i < args.len()
        invariant
            0 <= i <= args@.len(),
            forall|j: int| 0 <= j < i ==> spec_arg_lexable(#[trigger] args@[j]@),
        decreases args@.len() - i,
    {
        let a = args[i].as_str();
        if !(contains_keyword(a) || str_contains_char(a, SPACE) || !str_contains_char(a, EQUAL)) {
            assert(!spec_arg_lexable(args@[i as int]@));
            return false;
        }
        i += 1;
    }
    true
}

pub struct Lexer<'a> {
    /// The tokens not read yet, in order.
    pub tokens: VecDeque<Token<'a>>,
}

impl<'a> Lexer<'a> {
    /// The tokens not read yet, as views.
    pub open spec fn spec_tokens(&self) -> Seq<TokenView> {
        self.tokens@.map_values(|t: Token<'a>| t@)
    }

    pub fn new(args: &'a [String]) -> (r: Result<Self, ParseCliError<'a>>)
        requires
            spec_args_lexable(args@),
        ensures
            r matches Ok(l) && l.spec_tokens() == spec_tokens_of(args@),
    {
        match Self::tokenize(args) {
            Ok(tokens) => Ok(Self { tokens }),
            Err(e) => Err(e),
        }
    }

    /// Reads the next token.
    pub fn next(&mut self) -> (r: Option<Token<'a>>)
        ensures
            old(self).tokens@.len() == 0 ==> r is None && final(self).tokens@ == old(self).tokens@,
            old(self).tokens@.len() > 0 ==> r == Some(old(self).tokens@[0])
                && final(self).tokens@ == old(self).tokens@.drop_first(),
            old(self).spec_tokens().len() == 0 ==> r is None && final(self).spec_tokens() == old(self).spec_tokens(),
            old(self).spec_tokens().len() > 0 ==> (r matches Some(t) && t@ == old(self).spec_tokens()[0]
                && final(self).spec_tokens() == old(self).spec_tokens().drop_first()),
    {
        let r = self.tokens.pop_front();
        assert(self.spec_tokens() =~= old(self).spec_tokens().drop_first() || old(self).tokens@.len() == 0);
        r
    }

    /// The next token, without reading it.
    pub fn peek(&mut self) -> (r: Option<Token<'a>>)
        ensures
            final(self).tokens@ == old(self).tokens@,
            old(self).tokens@.len() == 0 ==> r is None,
            old(self).tokens@.len() > 0 ==> r == Some(old(self).tokens@[0]),
            final(self).spec_tokens() == old(self).spec_tokens(),
            old(self).spec_tokens().len() == 0 ==> r is None,
            old(self).spec_tokens().len() > 0 ==> (r matches Some(t) && t@ == old(self).spec_tokens()[0]),
    {
        if self.tokens.len() > 0 {
            Some(self.tokens[0])
        } else {
            None
        }
    }

    /// Whether every token has been read.
    pub fn is_empty(&self) -> (r: bool)
        ensures
            r == (self.tokens@.len() == 0),
    {
        self.tokens.len() == 0
    }

    /// Build tokens from raw arguments.
    fn tokenize(args: &'a [String]) -> (r: Result<VecDeque<Token<'a>>, ParseCliError<'a>>)
        requires
            spec_args_lexable(args@),
        ensures
            r matches Ok(ts) && ts@.map_values(|t: Token<'a>| t@) == spec_tokens_of(args@),
    {
        let mut tokens: VecDeque<Token<'a>> = VecDeque::new();
        let mut i: usize = 0;
        while i < args.len()
            invariant
                0 <= i <= args@.len(),
                spec_args_lexable(args@),
                tokens@.map_values(|t: Token<'a>| t@) == spec_tokens_of(args@).take(i as int),
            decreases args@.len() - i,
        {
            let arg: &'a str = args[i].as_str();
            let ghost a = arg@;
            assert(a == args@[i as int]@);
            let token = if contains_keyword(arg) {
                Token::TCommand(arg)
            } else if str_contains_char(arg, SPACE) {
                Token::TString(arg)
            } else if str_contains_char(arg, EQUAL) {
                proof {
                    assert(spec_arg_lexable(args@[i as int]@));
                    assert(false);
                }
                Token::TString(arg)
            } else {
                let cs = str_chars(arg);
                if cs.len() > 0 && cs[0] == '-' && contains_flag(arg) {
                    Token::TFlag(arg)
                } else {
                    match parse_u32(arg) {
                        Some(number) => Token::TNumber(number),
                        None => Token::TString(arg),
                    }
                }
            };
            assert(token@ == spec_token_of(a));
            let ghost old_tokens = tokens@;
            tokens.push_back(token);
            proof {
                assert(spec_tokens_of(args@).take(i + 1) =~= spec_tokens_of(args@).take(
                    i as int,
                ).push(spec_token_of(a)));
                assert(tokens@.map_values(|t: Token<'a>| t@) =~= old_tokens.map_values(
                    |t: Token<'a>| t@,
                ).push(token@));
            }
            i += 1;
        }
        assert(spec_tokens_of(args@).take(i as int) =~= spec_tokens_of(args@));
        Ok(tokens)
    }
}

/// Every flag the program defines is lexed as a flag.
pub proof fn law_flags_lex_as_flags()
    ensures
        forall|c: Seq<char>|
            #![trigger spec_token_of(c)]
            c == ALL_FLAG_S@ || c == ALL_FLAG_L@ || c == MESSAGE_FLAG_S@ || c == MESSAGE_FLAG_L@
                || c == TYPE_FLAG_S@ || c == TYPE_FLAG_L@ || c == WRITE_FLAG_S@ || c
                == WRITE_FLAG_L@ || c == PRETTY_PRINT_FLAG_S@ || c == SIZE_FLAG_S@ ==> is_flag(c)
                && spec_token_of(c) == TokenView::TFlag(c),
{
    reveal_strlit("-a");
    reveal_strlit("--all");
    reveal_strlit("-m");
    reveal_strlit("--message");
    reveal_strlit("-t");
    reveal_strlit("--type");
    reveal_strlit("-w");
    reveal_strlit("--write");
    reveal_strlit("-p");
    reveal_strlit("-s");
    assert forall|c: Seq<char>|
        c == ALL_FLAG_S@ || c == ALL_FLAG_L@ || c == MESSAGE_FLAG_S@ || c == MESSAGE_FLAG_L@ || c
            == TYPE_FLAG_S@ || c == TYPE_FLAG_L@ || c == WRITE_FLAG_S@ || c == WRITE_FLAG_L@ || c
            == PRETTY_PRINT_FLAG_S@ || c == SIZE_FLAG_S@ implies is_flag(c) && spec_token_of(c)
        == TokenView::TFlag(c) by {
        lemma_keyword_starts_with_letter(c);
        assert(c[0] == '-');
        if c.contains(' ') {
            let k = choose|k: int| 0 <= k < c.len() && c[k] == ' ';
            assert(c[k] != ' ');
        }
    }
}

/// Every command name is lexed as a command.
pub proof fn law_keywords_lex_as_commands()
    ensures
        forall|c: Seq<char>|
            #![trigger spec_token_of(c)]
            c == CMD_INIT@ || c == CMD_STATUS@ || c == CMD_ADD@ || c == CMD_COMMIT@ || c
                == CMD_LOG@ || c == CMD_RESET@ || c == CMD_HASH_FILE@ || c == CMD_BUILD_TREE@ || c
                == CMD_HASH_OBJECT@ || c == CMD_CAT_FILE@ ==> is_keyword(c) && spec_token_of(c)
                == TokenView::TCommand(c),
{
}

} // verus!
