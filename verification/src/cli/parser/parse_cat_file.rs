//! Parsing the arguments of the cat-file command.

use vstd::prelude::*;

use crate::cli::lexer::Lexer;
use crate::cli::parser::parse_result_view;
use crate::cli::{ParseCliError, ParseCliErrorView, Token, TokenView};
use crate::command::{Command, CommandView};
use crate::constants::const_cmds::flags::{PRETTY_PRINT_FLAG_S, SIZE_FLAG_S, TYPE_FLAG_S};
use crate::constants::const_cmds::keywords::CMD_CAT_FILE;
use crate::internals::hash::commit_hash::CommitHash;
use crate::internals::objects::cat_file::{CatFileConfig, CatFileMode};
use crate::cli::lexer::spec_token_of;
use crate::constants::const_cmds::keywords::lemma_keyword_starts_with_letter;
use crate::text::{
    decimal_numeral, is_digit, lemma_decimal_numeral, lemma_parse_decimal_numeral, parse_u64,
    spec_parse_u64, str_eq,
};

verus! {

/// The display mode that the first token names.
pub open spec fn spec_cat_file_mode(ts: Seq<TokenView>) -> Result<CatFileMode, ParseCliErrorView> {
    let missing = Err(ParseCliErrorView::MissingArgument("Cat file flag (-p, -t, ...)"@));
    if ts.len() > 0 {
        match ts[0] {
            TokenView::TFlag(f) => {
                if f == TYPE_FLAG_S@ {
                    Ok(CatFileMode::Type)
                } else if f == PRETTY_PRINT_FLAG_S@ {
                    Ok(CatFileMode::PrettyPrint)
                } else if f == SIZE_FLAG_S@ {
                    Ok(CatFileMode::Size)
                } else {
                    Err(ParseCliErrorView::UnknownFlag(f))
                }
            },
            _ => missing,
        }
    } else {
        missing
    }
}

/// The hash a token holds: a number token (a hash short enough to lex as a
/// number), or text that is a `u64` numeral.
pub open spec fn spec_hash_value(t: TokenView, cmd: Seq<char>) -> Result<
    CommitHash,
    ParseCliErrorView,
> {
    match t {
        TokenView::TNumber(n) => Ok(CommitHash { hash: n as u64 }),
        TokenView::TString(v) => match spec_parse_u64(v) {
            Some(h) => Ok(CommitHash { hash: h }),
            None => Err(
                ParseCliErrorView::InvalidArgumentForCommand {
                    cmd,
                    invalid_arg: TokenView::TString(v),
                },
            ),
        },
        _ => Err(ParseCliErrorView::InvalidValue { arg_name: "Value"@, value: t }),
    }
}

/// The hashes the tokens hold, in order; the first token that holds none
/// gives the error.
pub open spec fn spec_values(ts: Seq<TokenView>) -> Result<Seq<CommitHash>, ParseCliErrorView>
    decreases ts.len(),
{
    if ts.len() == 0 {
        Ok(seq![])
    } else {
        match spec_values(ts.drop_last()) {
            Err(e) => Err(e),
            Ok(hs) => match spec_hash_value(ts.last(), CMD_CAT_FILE@) {
                Ok(h) => Ok(hs.push(h)),
                Err(e) => Err(e),
            },
        }
    }
}

/// The command that the tokens after "cat-file" make: a mode flag, then
/// one or more hashes.
pub open spec fn spec_parse_cat_file(ts: Seq<TokenView>) -> Result<CommandView, ParseCliErrorView> {
    match spec_cat_file_mode(ts) {
        Err(e) => Err(e),
        Ok(mode) => match spec_values(ts.drop_first()) {
            Err(e) => Err(e),
            Ok(hs) => if hs.len() == 0 {
                Err(ParseCliErrorView::MissingArgument("Hash Value"@))
            } else {
                Ok(CommandView::CatFile { values: hs, mode })
            },
        },
    }
}

/// Parses the arguments of cat-file.
pub fn parse_cat_file<'a>(lexer: &mut Lexer<'a>) -> (r: Result<Command<'a>, ParseCliError<'a>>)
    ensures
        parse_result_view(r) == spec_parse_cat_file(old(lexer).spec_tokens()),
        final(lexer).spec_tokens() == (if old(lexer).spec_tokens().len() > 0 {
            old(lexer).spec_tokens().drop_first()
        } else {
            old(lexer).spec_tokens()
        }),
{
    let flags = match parse_cat_file_flags(lexer) {
        Ok(f) => f,
        Err(e) => {
            return Err(e);
        },
    };
    let values = match parse_values(lexer) {
        Ok(v) => v,
        Err(e) => {
            return Err(e);
        },
    };
    if values.len() == 0 {
        return Err(ParseCliError::MissingArgument("Hash Value"));
    }
    Ok(Command::CatFile(CatFileConfig::new(values, flags)))
}

/// Parse flags for cat-file command.
fn parse_cat_file_flags<'a>(lexer: &mut Lexer<'a>) -> (r: Result<CatFileMode, ParseCliError<'a>>)
    ensures
        final(lexer).spec_tokens() == (if old(lexer).spec_tokens().len() > 0 {
            old(lexer).spec_tokens().drop_first()
        } else {
            old(lexer).spec_tokens()
        }),
        match r {
            Ok(m) => spec_cat_file_mode(old(lexer).spec_tokens()) == Ok::<CatFileMode, ParseCliErrorView>(m),
            Err(e) => spec_cat_file_mode(old(lexer).spec_tokens()) == Err::<CatFileMode, ParseCliErrorView>(e@),
        },
{
    if let Some(Token::TFlag(flag)) = lexer.next() {
        if str_eq(flag, TYPE_FLAG_S) {
            Ok(CatFileMode::Type)
        } else if str_eq(flag, PRETTY_PRINT_FLAG_S) {
            Ok(CatFileMode::PrettyPrint)
        } else if str_eq(flag, SIZE_FLAG_S) {
            Ok(CatFileMode::Size)
        } else {
            Err(ParseCliError::UnknownFlag(flag))
        }
    } else {
        Err(ParseCliError::MissingArgument("Cat file flag (-p, -t, ...)"))
    }
}

/// Parse values for cat-file command.
/// Values are hashes separated by spaces.
/// Example:
///     $ gitrs cat-file -p <hash_1> <hash_2> ... <hash_n>
fn parse_values<'a>(lexer: &Lexer<'a>) -> (r: Result<Vec<CommitHash>, ParseCliError<'a>>)
    ensures
        match r {
            Ok(v) => spec_values(lexer.spec_tokens()) == Ok::<Seq<CommitHash>, ParseCliErrorView>(v@),
            Err(e) => spec_values(lexer.spec_tokens()) == Err::<Seq<CommitHash>, ParseCliErrorView>(e@),
        },
{
    let ghost ts = lexer.spec_tokens();
    let mut values: Vec<CommitHash> = Vec::new();
    let mut i: usize = 0;
    while i < lexer.tokens.len()
        invariant
            ts == lexer.spec_tokens(),
            0 <= i <= ts.len(),
            spec_values(ts.take(i as int)) == Ok::<Seq<CommitHash>, ParseCliErrorView>(values@),
        decreases ts.len() - i,
    {
        let t = lexer.tokens[i];
        proof {
            assert(ts.take(i + 1).drop_last() =~= ts.take(i as int));
            assert(ts.take(i + 1).last() == t@);
        }
        match parse_hash_value(&t, CMD_CAT_FILE) {
            Ok(h) => {
                values.push(h);
            },
            Err(e) => {
                proof {
                    lemma_values_prefix_error(ts, i as int + 1);
                }
                return Err(e);
            },
        }
        i += 1;
    }
    assert(ts.take(i as int) =~= ts);
    Ok(values)
}

/// An error in reading a prefix of the tokens is the error of reading all
/// of them.
proof fn lemma_values_prefix_error(ts: Seq<TokenView>, n: int)
    requires
        0 <= n <= ts.len(),
        spec_values(ts.take(n)) is Err,
    ensures
        spec_values(ts) == spec_values(ts.take(n)),
    decreases ts.len(),
{
    if n == ts.len() {
        assert(ts.take(n) =~= ts);
    } else {
        assert(ts.drop_last().take(n) =~= ts.take(n));
        lemma_values_prefix_error(ts.drop_last(), n);
    }
}

/// Parses a single hash value.
fn parse_hash_value<'a>(t: &Token<'a>, cmd_str: &'static str) -> (r: Result<CommitHash, ParseCliError<'a>>)
    ensures
        match r {
            Ok(h) => spec_hash_value(t@, cmd_str@) == Ok::<CommitHash, ParseCliErrorView>(h),
            Err(e) => spec_hash_value(t@, cmd_str@) == Err::<CommitHash, ParseCliErrorView>(e@),
        },
{
    let value = match t {
        Token::TString(val) => *val,
        Token::TNumber(n) => {
            return Ok(CommitHash { hash: *n as u64 });
        },
        _ => {
            return Err(ParseCliError::InvalidValue { arg_name: "Value", value: *t });
        },
    };
    match parse_u64(value) {
        Some(h) => Ok(CommitHash { hash: h }),
        None => Err(
            ParseCliError::InvalidArgumentForCommand {
                cmd: cmd_str,
                invalid_arg: Token::TString(value),
            },
        ),
    }
}

/// The decimal text of every hash, as `to_str` writes it, lexes to a token
/// that reads back as that hash: a number token when it fits in `u32`,
/// text otherwise.
pub proof fn law_hash_text_lexes_to_hash(h: CommitHash, cmd: Seq<char>)
    ensures
        spec_hash_value(TokenView::TString(decimal_numeral(h.hash as nat)), cmd) == Ok::<
            CommitHash,
            ParseCliErrorView,
        >(h),
        spec_hash_value(spec_token_of(decimal_numeral(h.hash as nat)), cmd) == Ok::<
            CommitHash,
            ParseCliErrorView,
        >(h),
{
    let d = decimal_numeral(h.hash as nat);
    lemma_decimal_numeral(h.hash as nat);
    lemma_parse_decimal_numeral(h.hash);
    assert(is_digit(d[0]));
    lemma_keyword_starts_with_letter(d);
    if d.contains(' ') {
        let k = choose|k: int| 0 <= k < d.len() && d[k] == ' ';
        assert(is_digit(d[k]));
    }
}

/// Each display flag of cat-file selects its own mode, whatever follows it:
/// `-t` the type, `-p` the content and `-s` the size.
pub proof fn law_cat_file_flag_modes(rest: Seq<TokenView>)
    ensures
        spec_cat_file_mode(seq![TokenView::TFlag(TYPE_FLAG_S@)] + rest) == Ok::<
            CatFileMode,
            ParseCliErrorView,
        >(CatFileMode::Type),
        spec_cat_file_mode(seq![TokenView::TFlag(PRETTY_PRINT_FLAG_S@)] + rest) == Ok::<
            CatFileMode,
            ParseCliErrorView,
        >(CatFileMode::PrettyPrint),
        spec_cat_file_mode(seq![TokenView::TFlag(SIZE_FLAG_S@)] + rest) == Ok::<
            CatFileMode,
            ParseCliErrorView,
        >(CatFileMode::Size),
{
    reveal_strlit("-t");
    reveal_strlit("-p");
    reveal_strlit("-s");
    assert(TYPE_FLAG_S@[1] == 't' && PRETTY_PRINT_FLAG_S@[1] == 'p' && SIZE_FLAG_S@[1] == 's');
    assert(PRETTY_PRINT_FLAG_S@ != TYPE_FLAG_S@);
    assert(SIZE_FLAG_S@ != TYPE_FLAG_S@);
    assert(SIZE_FLAG_S@ != PRETTY_PRINT_FLAG_S@);
    assert((seq![TokenView::TFlag(TYPE_FLAG_S@)] + rest)[0] == TokenView::TFlag(TYPE_FLAG_S@));
    assert((seq![TokenView::TFlag(PRETTY_PRINT_FLAG_S@)] + rest)[0] == TokenView::TFlag(
        PRETTY_PRINT_FLAG_S@,
    ));
    assert((seq![TokenView::TFlag(SIZE_FLAG_S@)] + rest)[0] == TokenView::TFlag(SIZE_FLAG_S@));
}

/// The hashes written as text, one token each, read back as those hashes,
/// in the order they were given.
pub proof fn law_cat_file_values_in_order(hs: Seq<u64>)
    ensures
        spec_values(hs.map_values(|h: u64| TokenView::TString(decimal_numeral(h as nat)))) == Ok::<
            Seq<CommitHash>,
            ParseCliErrorView,
        >(hs.map_values(|h: u64| CommitHash { hash: h })),
    decreases hs.len(),
{
    let ts = hs.map_values(|h: u64| TokenView::TString(decimal_numeral(h as nat)));
    if hs.len() == 0 {
        assert(hs.map_values(|h: u64| CommitHash { hash: h }) =~= Seq::<CommitHash>::empty());
    } else {
        let init = hs.drop_last();
        law_cat_file_values_in_order(init);
        assert(ts.drop_last() =~= init.map_values(
            |h: u64| TokenView::TString(decimal_numeral(h as nat)),
        ));
        law_hash_text_lexes_to_hash(CommitHash { hash: hs.last() }, CMD_CAT_FILE@);
        assert(ts.last() == TokenView::TString(decimal_numeral(hs.last() as nat)));
        assert(init.map_values(|h: u64| CommitHash { hash: h }).push(CommitHash { hash: hs.last() })
            =~= hs.map_values(|h: u64| CommitHash { hash: h }));
    }
}

} // verus!
