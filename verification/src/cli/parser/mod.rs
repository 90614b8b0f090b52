//! Turns tokens into a command.

pub mod parse_cat_file;
pub mod parse_hash_object;

use vstd::prelude::*;

use crate::cli::lexer::{spec_args_lexable, spec_tokens_of, Lexer};
use crate::cli::parser::parse_cat_file::{parse_cat_file, spec_parse_cat_file};
use crate::cli::parser::parse_hash_object::{
    hash_object_complete, parse_hash_object, spec_hash_object_complete, spec_ho_flags,
    spec_parse_hash_object,
};
use crate::cli::{ParseCliError, ParseCliErrorView, Token, TokenView};
use crate::command::{Command, CommandView};
use crate::constants::const_cmds::keywords::{
    CMD_ADD, CMD_BUILD_TREE, CMD_CAT_FILE, CMD_COMMIT, CMD_HASH_FILE, CMD_HASH_OBJECT, CMD_INIT,
    CMD_LOG, CMD_RESET, CMD_STATUS,
};
use crate::constants::DEFAULT_BRANCH;
use crate::text::str_eq;

verus! {

broadcast use vstd::string::group_string_axioms;

/// A parse result, with commands and errors as views.
pub open spec fn parse_result_view<'a>(r: Result<Command<'a>, ParseCliError<'a>>) -> Result<
    CommandView,
    ParseCliErrorView,
> {
    match r {
        Ok(c) => Ok(c@),
        Err(e) => Err(e@),
    }
}

/// Whether the command is one whose parsing is not written yet.
pub open spec fn spec_is_pending_command(c: Seq<char>) -> bool {
    c == CMD_ADD@ || c == CMD_COMMIT@ || c == CMD_LOG@ || c == CMD_RESET@
}

/// Whether the tokens can be parsed without stopping: the command is not
/// one whose parsing is pending (add, commit, log, reset), and a
/// hash-object command has exactly one value after its flags.
pub open spec fn spec_parse_supported(ts: Seq<TokenView>) -> bool {
    ts.len() > 0 ==> match ts[0] {
        TokenView::TCommand(c) => {
            &&& (c != CMD_STATUS@ ==> !spec_is_pending_command(c))
            &&& ((c != CMD_STATUS@ && c != CMD_INIT@ && c != CMD_HASH_FILE@ && c
                != CMD_BUILD_TREE@ && c == CMD_HASH_OBJECT@) ==> spec_hash_object_complete(
                ts.drop_first(),
            ))
        },
        _ => true,
    }
}

/// The command that the tokens make.
pub open spec fn spec_parse(ts: Seq<TokenView>) -> Result<CommandView, ParseCliErrorView> {
    if ts.len() > 0 {
        match ts[0] {
            TokenView::TCommand(c) => {
                let rest = ts.drop_first();
                if c == CMD_STATUS@ {
                    if rest.len() > 0 {
                        Err(
                            ParseCliErrorView::InvalidArgumentForCommand {
                                cmd: CMD_STATUS@,
                                invalid_arg: rest[0],
                            },
                        )
                    } else {
                        Ok(CommandView::Status)
                    }
                } else if spec_is_pending_command(c) {
                    arbitrary()
                } else if c == CMD_INIT@ {
                    if rest.len() > 0 {
                        Err(
                            ParseCliErrorView::InvalidArgumentForCommand {
                                cmd: CMD_INIT@,
                                invalid_arg: rest[0],
                            },
                        )
                    } else {
                        Ok(CommandView::Init { default_branch: DEFAULT_BRANCH@ })
                    }
                } else if c == CMD_HASH_FILE@ {
                    if rest.len() > 1 {
                        Err(ParseCliErrorView::TooManyArguments)
                    } else if rest.len() == 0 {
                        Err(ParseCliErrorView::MissingArgument("Filename"@))
                    } else {
                        Ok(CommandView::HashFile { filename: rest[0] })
                    }
                } else if c == CMD_BUILD_TREE@ {
                    if rest.len() > 0 {
                        Err(ParseCliErrorView::TooManyArguments)
                    } else {
                        Ok(CommandView::BuildTree)
                    }
                } else if c == CMD_HASH_OBJECT@ {
                    spec_parse_hash_object(rest)
                } else if c == CMD_CAT_FILE@ {
                    spec_parse_cat_file(rest)
                } else {
                    Err(ParseCliErrorView::InvalidCommand(c))
                }
            },
            _ => Err(ParseCliErrorView::MissingCommand),
        }
    } else {
        Err(ParseCliErrorView::MissingCommand)
    }
}

/// The tokens left unread after parsing.
pub open spec fn spec_parse_rest(ts: Seq<TokenView>) -> Seq<TokenView> {
    if ts.len() > 0 {
        let rest = ts.drop_first();
        let one_more = if rest.len() > 0 {
            rest.drop_first()
        } else {
            rest
        };
        match ts[0] {
            TokenView::TCommand(c) => {
                if c == CMD_STATUS@ || (!spec_is_pending_command(c) && c == CMD_INIT@) {
                    one_more
                } else if spec_is_pending_command(c) {
                    arbitrary()
                } else if c == CMD_HASH_FILE@ {
                    if rest.len() == 1 {
                        one_more
                    } else {
                        rest
                    }
                } else if c == CMD_HASH_OBJECT@ && c != CMD_BUILD_TREE@ {
                    spec_ho_flags(rest, None, false).1
                } else if c == CMD_CAT_FILE@ && c != CMD_BUILD_TREE@ {
                    one_more
                } else {
                    rest
                }
            },
            _ => rest,
        }
    } else {
        ts
    }
}

pub struct Parser<'a> {
    lexer: Lexer<'a>,
}

impl<'a> Parser<'a> {
    /// The tokens not read yet.
    pub closed spec fn spec_tokens(&self) -> Seq<TokenView> {
        self.lexer.spec_tokens()
    }

    pub fn new(args: &'a [String]) -> (r: Result<Self, ParseCliError<'a>>)
        requires
            spec_args_lexable(args@),
        ensures
            r matches Ok(p) && p.spec_tokens() == spec_tokens_of(args@),
    {
        match Lexer::new(args) {
            Ok(lexer) => Ok(Self { lexer }),
            Err(e) => Err(e),
        }
    }

    /// Tests `spec_parse_supported` without reading any token.
    pub fn parse_is_supported(&self) -> (r: bool)
        ensures
            r == spec_parse_supported(self.spec_tokens()),
    {
        if self.lexer.tokens.len() == 0 {
            return true;
        }
        let ghost ts = self.lexer.spec_tokens();
        assert(ts[0] == self.lexer.tokens@[0]@);
        match self.lexer.tokens[0] {
            Token::TCommand(c) => {
                if str_eq(c, CMD_STATUS) {
                    true
                } else if str_eq(c, CMD_ADD) || str_eq(c, CMD_COMMIT) || str_eq(c, CMD_LOG)
                    || str_eq(c, CMD_RESET) {
                    false
                } else if str_eq(c, CMD_INIT) || str_eq(c, CMD_HASH_FILE) || str_eq(
                    c,
                    CMD_BUILD_TREE,
                ) || !str_eq(c, CMD_HASH_OBJECT) {
                    true
                } else {
                    let mut rest = Lexer { tokens: self.lexer.tokens.clone() };
                    assert(rest.tokens@ == self.lexer.tokens@);
                    rest.next();
                    hash_object_complete(&rest)
                }
            },
            _ => true,
        }
    }

    pub fn parse(&mut self) -> (r: Result<Command<'a>, ParseCliError<'a>>)
        requires
            spec_parse_supported(old(self).spec_tokens()),
        ensures
            parse_result_view(r) == spec_parse(old(self).spec_tokens()),
            final(self).spec_tokens() == spec_parse_rest(old(self).spec_tokens()),
    {
        if let Some(Token::TCommand(cmd)) = self.lexer.next() {
            if str_eq(cmd, CMD_STATUS) {
                return self.parse_status();
            } else if str_eq(cmd, CMD_ADD) || str_eq(cmd, CMD_COMMIT) || str_eq(cmd, CMD_LOG)
                || str_eq(cmd, CMD_RESET) {
                proof {
                    assert(false);
                }
                return Err(ParseCliError::MissingCommand);
            } else if str_eq(cmd, CMD_INIT) {
                return self.parse_init();
            } else if str_eq(cmd, CMD_HASH_FILE) {
                return self.parse_hash_file();
            } else if str_eq(cmd, CMD_BUILD_TREE) {
                return self.parse_build_tree();
            } else if str_eq(cmd, CMD_HASH_OBJECT) {
                return parse_hash_object(&mut self.lexer);
            } else if str_eq(cmd, CMD_CAT_FILE) {
                return parse_cat_file(&mut self.lexer);
            } else {
                return Err(ParseCliError::InvalidCommand(cmd.to_string()));
            }
        }
        Err(ParseCliError::MissingCommand)
    }

    fn parse_status(&mut self) -> (r: Result<Command<'a>, ParseCliError<'a>>)
        ensures
            ({
                let ts = old(self).spec_tokens();
                &&& ts.len() > 0 ==> parse_result_view(r) == Err::<CommandView, ParseCliErrorView>(
                    ParseCliErrorView::InvalidArgumentForCommand {
                        cmd: CMD_STATUS@,
                        invalid_arg: ts[0],
                    },
                ) && final(self).spec_tokens() == ts.drop_first()
                &&& ts.len() == 0 ==> parse_result_view(r) == Ok::<CommandView, ParseCliErrorView>(
                    CommandView::Status,
                ) && final(self).spec_tokens() == ts
            }),
    {
        if !self.lexer.is_empty() {
            match self.lexer.next() {
                Some(t) => {
                    return Err(
                        ParseCliError::InvalidArgumentForCommand { cmd: CMD_STATUS, invalid_arg: t },
                    );
                },
                None => {
                    proof {
                        assert(false);
                    }
                    return Err(ParseCliError::MissingCommand);
                },
            }
        }
        Ok(Command::Status)
    }

    fn parse_init(&mut self) -> (r: Result<Command<'a>, ParseCliError<'a>>)
        ensures
            ({
                let ts = old(self).spec_tokens();
                &&& ts.len() > 0 ==> parse_result_view(r) == Err::<CommandView, ParseCliErrorView>(
                    ParseCliErrorView::InvalidArgumentForCommand { cmd: CMD_INIT@, invalid_arg: ts[0] },
                ) && final(self).spec_tokens() == ts.drop_first()
                &&& ts.len() == 0 ==> parse_result_view(r) == Ok::<CommandView, ParseCliErrorView>(
                    CommandView::Init { default_branch: DEFAULT_BRANCH@ },
                ) && final(self).spec_tokens() == ts
            }),
    {
        if !self.lexer.is_empty() {
            match self.lexer.next() {
                Some(t) => {
                    return Err(
                        ParseCliError::InvalidArgumentForCommand { cmd: CMD_INIT, invalid_arg: t },
                    );
                },
                None => {
                    proof {
                        assert(false);
                    }
                    return Err(ParseCliError::MissingCommand);
                },
            }
        }
        Ok(Command::Init { default_branch: DEFAULT_BRANCH })
    }

    fn parse_hash_file(&mut self) -> (r: Result<Command<'a>, ParseCliError<'a>>)
        ensures
            ({
                let ts = old(self).spec_tokens();
                &&& ts.len() > 1 ==> parse_result_view(r) == Err::<CommandView, ParseCliErrorView>(
                    ParseCliErrorView::TooManyArguments,
                ) && final(self).spec_tokens() == ts
                &&& ts.len() == 0 ==> parse_result_view(r) == Err::<CommandView, ParseCliErrorView>(
                    ParseCliErrorView::MissingArgument("Filename"@),
                ) && final(self).spec_tokens() == ts
                &&& ts.len() == 1 ==> parse_result_view(r) == Ok::<CommandView, ParseCliErrorView>(
                    CommandView::HashFile { filename: ts[0] },
                ) && final(self).spec_tokens() == ts.drop_first()
            }),
    {
        if self.lexer.tokens.len() > 1 {
            return Err(ParseCliError::TooManyArguments);
        } else if self.lexer.is_empty() {
            return Err(ParseCliError::MissingArgument("Filename"));
        }
        match self.lexer.next() {
            Some(filename) => Ok(Command::HashFile { filename }),
            None => {
                proof {
                    assert(false);
                }
                Err(ParseCliError::MissingCommand)
            },
        }
    }

    fn parse_build_tree(&mut self) -> (r: Result<Command<'a>, ParseCliError<'a>>)
        ensures
            final(self).spec_tokens() == old(self).spec_tokens(),
            old(self).spec_tokens().len() > 0 ==> parse_result_view(r) == Err::<
                CommandView,
                ParseCliErrorView,
            >(ParseCliErrorView::TooManyArguments),
            old(self).spec_tokens().len() == 0 ==> parse_result_view(r) == Ok::<
                CommandView,
                ParseCliErrorView,
            >(CommandView::BuildTree),
    {
        if !self.lexer.is_empty() {
            return Err(ParseCliError::TooManyArguments);
        }
        Ok(Command::BuildTree)
    }
}

/// Each command name leads to its own command: status, init and
/// build-tree alone give that command, hash-file with one argument hashes
/// that argument, and hash-object and cat-file parse what follows them as
/// their own arguments.
pub proof fn law_commands_by_name(t: TokenView, rest: Seq<TokenView>)
    ensures
        spec_parse(seq![TokenView::TCommand(CMD_STATUS@)]) == Ok::<CommandView, ParseCliErrorView>(
            CommandView::Status,
        ),
        spec_parse(seq![TokenView::TCommand(CMD_INIT@)]) == Ok::<CommandView, ParseCliErrorView>(
            CommandView::Init { default_branch: DEFAULT_BRANCH@ },
        ),
        spec_parse(seq![TokenView::TCommand(CMD_BUILD_TREE@)]) == Ok::<CommandView, ParseCliErrorView>(
            CommandView::BuildTree,
        ),
        spec_parse(seq![TokenView::TCommand(CMD_HASH_FILE@), t]) == Ok::<
            CommandView,
            ParseCliErrorView,
        >(CommandView::HashFile { filename: t }),
        spec_parse(seq![TokenView::TCommand(CMD_HASH_OBJECT@)] + rest) == spec_parse_hash_object(rest),
        spec_parse(seq![TokenView::TCommand(CMD_CAT_FILE@)] + rest) == spec_parse_cat_file(rest),
{
    reveal_strlit("init");
    reveal_strlit("status");
    reveal_strlit("add");
    reveal_strlit("commit");
    reveal_strlit("log");
    reveal_strlit("reset");
    reveal_strlit("hash-file");
    reveal_strlit("build-tree");
    reveal_strlit("hash-object");
    reveal_strlit("cat-file");
    assert(CMD_INIT@.len() == 4 && CMD_STATUS@.len() == 6 && CMD_ADD@.len() == 3
        && CMD_COMMIT@.len() == 6 && CMD_LOG@.len() == 3 && CMD_RESET@.len() == 5
        && CMD_HASH_FILE@.len() == 9 && CMD_BUILD_TREE@.len() == 10
        && CMD_HASH_OBJECT@.len() == 11 && CMD_CAT_FILE@.len() == 8);
    assert(CMD_STATUS@[0] == 's' && CMD_COMMIT@[0] == 'c' && CMD_ADD@[0] == 'a'
        && CMD_LOG@[0] == 'l');
    assert(seq![TokenView::TCommand(CMD_STATUS@)].drop_first() =~= Seq::<TokenView>::empty());
    assert(seq![TokenView::TCommand(CMD_INIT@)].drop_first() =~= Seq::<TokenView>::empty());
    assert(seq![TokenView::TCommand(CMD_BUILD_TREE@)].drop_first() =~= Seq::<TokenView>::empty());
    assert(seq![TokenView::TCommand(CMD_HASH_FILE@), t].drop_first() =~= seq![t]);
    assert((seq![TokenView::TCommand(CMD_HASH_OBJECT@)] + rest).drop_first() =~= rest);
    assert((seq![TokenView::TCommand(CMD_CAT_FILE@)] + rest).drop_first() =~= rest);
    assert((seq![TokenView::TCommand(CMD_HASH_OBJECT@)] + rest)[0] == TokenView::TCommand(
        CMD_HASH_OBJECT@,
    ));
    assert((seq![TokenView::TCommand(CMD_CAT_FILE@)] + rest)[0] == TokenView::TCommand(CMD_CAT_FILE@));
}

} // verus!
