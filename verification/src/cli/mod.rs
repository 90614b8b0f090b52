//! The command line: tokens, the lexer and the parser.

pub mod flags;
pub mod lexer;
pub mod parser;

use vstd::prelude::*;

verus! {

#[derive(Debug, Clone, Copy, PartialEq)]
pub enum Token<'a> {
    TNumber(u32),
    TString(&'a str),
    TFlag(&'a str),
    TCommand(&'a str),
}

/// What a token holds, with its text as characters.
pub enum TokenView {
    TNumber(u32),
    TString(Seq<char>),
    TFlag(Seq<char>),
    TCommand(Seq<char>),
}

impl<'a> View for Token<'a> {
    type V = TokenView;

    open spec fn view(&self) -> TokenView {
        match *self {
            Token::TNumber(n) => TokenView::TNumber(n),
            Token::TString(s) => TokenView::TString(s@),
            Token::TFlag(s) => TokenView::TFlag(s@),
            Token::TCommand(s) => TokenView::TCommand(s@),
        }
    }
}

#[derive(Debug)]
pub enum ParseCliError<'a> {
    InvalidToken(Token<'a>),
    UnknownFlag(&'a str),
    MissingCommand,
    MissingArgument(&'static str),
    MissingValueForArg { arg: Token<'a> },
    InvalidCommand(String),
    InvalidArgumentForCommand { cmd: &'static str, invalid_arg: Token<'a> },
    InvalidValue { arg_name: &'static str, value: Token<'a> },
    TooManyArguments,
}

/// What a parse error holds, with its texts as characters.
pub enum ParseCliErrorView {
    InvalidToken(TokenView),
    UnknownFlag(Seq<char>),
    MissingCommand,
    MissingArgument(Seq<char>),
    MissingValueForArg { arg: TokenView },
    InvalidCommand(Seq<char>),
    InvalidArgumentForCommand { cmd: Seq<char>, invalid_arg: TokenView },
    InvalidValue { arg_name: Seq<char>, value: TokenView },
    TooManyArguments,
}

impl<'a> View for ParseCliError<'a> {
    type V = ParseCliErrorView;

    open spec fn view(&self) -> ParseCliErrorView {
        match *self {
            ParseCliError::InvalidToken(t) => ParseCliErrorView::InvalidToken(t@),
            ParseCliError::UnknownFlag(s) => ParseCliErrorView::UnknownFlag(s@),
            ParseCliError::MissingCommand => ParseCliErrorView::MissingCommand,
            ParseCliError::MissingArgument(s) => ParseCliErrorView::MissingArgument(s@),
            ParseCliError::MissingValueForArg { arg } => ParseCliErrorView::MissingValueForArg {
                arg: arg@,
            },
            ParseCliError::InvalidCommand(s) => ParseCliErrorView::InvalidCommand(s@),
            ParseCliError::InvalidArgumentForCommand {
                cmd,
                invalid_arg,
            } => ParseCliErrorView::InvalidArgumentForCommand {
                cmd: cmd@,
                invalid_arg: invalid_arg@,
            },
            ParseCliError::InvalidValue { arg_name, value } => ParseCliErrorView::InvalidValue {
                arg_name: arg_name@,
                value: value@,
            },
            ParseCliError::TooManyArguments => ParseCliErrorView::TooManyArguments,
        }
    }
}

} // verus!
