//! Parsing the arguments of the hash-object command.

use vstd::prelude::*;

use crate::cli::lexer::Lexer;
use crate::cli::parser::parse_result_view;
use crate::cli::{ParseCliError, ParseCliErrorView, Token, TokenView};
use crate::command::{Command, CommandView};
use crate::constants::const_cmds::flags::{TYPE_FLAG_L, TYPE_FLAG_S, WRITE_FLAG_L, WRITE_FLAG_S};
use crate::constants::object_types::{BLOB_STR, COMMIT_STR, TREE_STR};
use crate::internals::hash::{HashObjectConfig, HashObjectFlags};
use crate::internals::objects::ObjectType;
use crate::text::str_eq;

verus! {

/// The object type named after a type flag `f`, read from the tokens that
/// follow the flag.
pub open spec fn spec_type_flag(ts: Seq<TokenView>, f: Seq<char>) -> Result<
    ObjectType,
    ParseCliErrorView,
> {
    if ts.len() > 0 {
        match ts[0] {
            TokenView::TString(s) => {
                if s == BLOB_STR@ {
                    Ok(ObjectType::Blob)
                } else if s == TREE_STR@ {
                    Ok(ObjectType::Tree)
                } else if s == COMMIT_STR@ {
                    Ok(ObjectType::Commit)
                } else {
                    Err(
                        ParseCliErrorView::InvalidValue {
                            arg_name: if f == TYPE_FLAG_L@ {
                                TYPE_FLAG_L@
                            } else {
                                TYPE_FLAG_S@
                            },
                            value: TokenView::TString(s),
                        },
                    )
                }
            },
            _ => Err(ParseCliErrorView::MissingValueForArg { arg: TokenView::TFlag(f) }),
        }
    } else {
        Err(ParseCliErrorView::MissingValueForArg { arg: TokenView::TFlag(f) })
    }
}

/// The flags of hash-object, read while the next token is a flag, after
/// the type `tp` and the write switch `write` were read; with the tokens
/// left unread.
pub open spec fn spec_ho_flags(ts: Seq<TokenView>, tp: Option<ObjectType>, write: bool) -> (
    Result<HashObjectFlags, ParseCliErrorView>,
    Seq<TokenView>,
)
    decreases ts.len(),
{
    let done = (
        Ok(
            HashObjectFlags {
                tp: match tp {
                    Some(t) => t,
                    None => ObjectType::Blob,
                },
                write,
            },
        ),
        ts,
    );
    if ts.len() > 0 {
        match ts[0] {
            TokenView::TFlag(f) => {
                let rest = ts.drop_first();
                if f == WRITE_FLAG_S@ || f == WRITE_FLAG_L@ {
                    spec_ho_flags(rest, tp, true)
                } else if f == TYPE_FLAG_S@ || f == TYPE_FLAG_L@ {
                    match spec_type_flag(rest, f) {
                        Ok(t) => spec_ho_flags(rest.drop_first(), Some(t), write),
                        Err(e) => (
                            Err(e),
                            if rest.len() > 0 {
                                rest.drop_first()
                            } else {
                                rest
                            },
                        ),
                    }
                } else {
                    (Err(ParseCliErrorView::UnknownFlag(f)), ts)
                }
            },
            _ => done,
        }
    } else {
        done
    }
}

/// Whether hash-object can parse the tokens without stopping: once the
/// flags are read, exactly one token (the value) must be left.
pub open spec fn spec_hash_object_complete(ts: Seq<TokenView>) -> bool {
    match spec_ho_flags(ts, None, false) {
        (Ok(_), rem) => rem.len() == 1,
        (Err(_), _) => true,
    }
}

/// The command that the tokens after "hash-object" make.
pub open spec fn spec_parse_hash_object(ts: Seq<TokenView>) -> Result<CommandView, ParseCliErrorView> {
    match spec_ho_flags(ts, None, false) {
        (Err(e), _) => Err(e),
        (Ok(flags), rem) => match rem[0] {
            TokenView::TString(v) => Ok(CommandView::HashObject { value: v, flags }),
            _ => Err(
                ParseCliErrorView::InvalidValue {
                    arg_name: "Value"@,
                    value: TokenView::TString("Add this here"@),
                },
            ),
        },
    }
}

/// Parses the arguments of hash-object: its flags, then its one value.
pub fn parse_hash_object<'a>(lexer: &mut Lexer<'a>) -> (r: Result<Command<'a>, ParseCliError<'a>>)
    requires
        spec_hash_object_complete(old(lexer).spec_tokens()),
    ensures
        parse_result_view(r) == spec_parse_hash_object(old(lexer).spec_tokens()),
        final(lexer).spec_tokens() == spec_ho_flags(old(lexer).spec_tokens(), None, false).1,
{
    let ho_flags = match parse_hash_object_flags(lexer) {
        Ok(f) => f,
        Err(e) => {
            return Err(e);
        },
    };
    let value = match extract_value(lexer) {
        Ok(v) => v,
        Err(e) => {
            return Err(e);
        },
    };
    Ok(Command::HashObject(HashObjectConfig::new(value, ho_flags)))
}

/// Tests `spec_hash_object_complete` without reading any token.
pub fn hash_object_complete<'a>(lexer: &Lexer<'a>) -> (r: bool)
    ensures
        r == spec_hash_object_complete(lexer.spec_tokens()),
{
    let ghost ts = lexer.spec_tokens();
    let n: usize = lexer.tokens.len();
    let mut i: usize = 0;
    let mut tp: Option<ObjectType> = None;
    let mut write: bool = false;
    assert(ts.skip(0) =~= ts);
    while i < n
        invariant
            ts == lexer.spec_tokens(),
            n == ts.len(),
            0 <= i <= n,
            spec_ho_flags(ts, None, false) == spec_ho_flags(ts.skip(i as int), tp, write),
        decreases n - i,
    {
        let ghost rest = ts.skip(i as int);
        assert(rest[0] == lexer.tokens@[i as int]@);
        match lexer.tokens[i] {
            Token::TFlag(flag) => {
                assert(rest.drop_first() =~= ts.skip(i + 1));
                if str_eq(flag, WRITE_FLAG_S) || str_eq(flag, WRITE_FLAG_L) {
                    write = true;
                    i += 1;
                } else if str_eq(flag, TYPE_FLAG_S) || str_eq(flag, TYPE_FLAG_L) {
                    if i + 1 < n {
                        assert(ts.skip(i + 1)[0] == lexer.tokens@[i + 1]@);
                        assert(ts.skip(i + 1).drop_first() =~= ts.skip(i + 2));
                        match lexer.tokens[i + 1] {
                            Token::TString(s) => {
                                if str_eq(s, BLOB_STR) {
                                    tp = Some(ObjectType::Blob);
                                } else if str_eq(s, TREE_STR) {
                                    tp = Some(ObjectType::Tree);
                                } else if str_eq(s, COMMIT_STR) {
                                    tp = Some(ObjectType::Commit);
                                } else {
                                    return true;
                                }
                                i += 2;
                            },
                            _ => {
                                return true;
                            },
                        }
                    } else {
                        return true;
                    }
                } else {
                    return true;
                }
            },
            _ => {
                return i + 1 == n;
            },
        }
    }
    assert(ts.skip(i as int) =~= Seq::<TokenView>::empty());
    false
}

fn parse_hash_object_flags<'a>(lexer: &mut Lexer<'a>) -> (r: Result<HashObjectFlags, ParseCliError<'a>>)
    ensures
        ({
            let (res, rem) = spec_ho_flags(old(lexer).spec_tokens(), None, false);
            &&& final(lexer).spec_tokens() == rem
            &&& match r {
                Ok(f) => res == Ok::<HashObjectFlags, ParseCliErrorView>(f),
                Err(e) => res == Err::<HashObjectFlags, ParseCliErrorView>(e@),
            }
        }),
{
    let ghost ts = lexer.spec_tokens();
    let mut tp: Option<ObjectType> = None;
    let mut write: bool = false;
    loop
        invariant
            ts == old(lexer).spec_tokens(),
            spec_ho_flags(ts, None, false) == spec_ho_flags(lexer.spec_tokens(), tp, write),
        decreases lexer.spec_tokens().len(),
    {
        match lexer.peek() {
            Some(Token::TFlag(flag)) => {
                if str_eq(flag, WRITE_FLAG_S) || str_eq(flag, WRITE_FLAG_L) {
                    lexer.next();
                    write = true;
                } else if str_eq(flag, TYPE_FLAG_S) || str_eq(flag, TYPE_FLAG_L) {
                    lexer.next();
                    match parse_type_flag(lexer, flag) {
                        Ok(t) => {
                            tp = Some(t);
                        },
                        Err(e) => {
                            return Err(e);
                        },
                    }
                } else {
                    return Err(ParseCliError::UnknownFlag(flag));
                }
            },
            _ => {
                let t = match tp {
                    Some(t) => t,
                    None => ObjectType::Blob,
                };
                return Ok(HashObjectFlags::new(t, write));
            },
        }
    }
}

/// Reads the value, without consuming it.
fn extract_value<'a>(lexer: &mut Lexer<'a>) -> (r: Result<&'a str, ParseCliError<'a>>)
    ensures
        final(lexer).spec_tokens() == old(lexer).spec_tokens(),
        match r {
            Ok(v) => old(lexer).spec_tokens().len() > 0 && old(lexer).spec_tokens()[0]
                == TokenView::TString(v@),
            Err(e) => !(old(lexer).spec_tokens().len() > 0 && old(lexer).spec_tokens()[0] is TString)
                && e@ == ParseCliErrorView::InvalidValue {
                arg_name: "Value"@,
                value: TokenView::TString("Add this here"@),
            },
        },
{
    if let Some(Token::TString(val)) = lexer.peek() {
        Ok(val)
    } else {
        Err(ParseCliError::InvalidValue { arg_name: "Value", value: Token::TString("Add this here") })
    }
}

fn parse_type_flag<'a>(lexer: &mut Lexer<'a>, flag: &'a str) -> (r: Result<ObjectType, ParseCliError<'a>>)
    ensures
        final(lexer).spec_tokens() == (if old(lexer).spec_tokens().len() > 0 {
            old(lexer).spec_tokens().drop_first()
        } else {
            old(lexer).spec_tokens()
        }),
        match r {
            Ok(t) => spec_type_flag(old(lexer).spec_tokens(), flag@) == Ok::<ObjectType, ParseCliErrorView>(t),
            Err(e) => spec_type_flag(old(lexer).spec_tokens(), flag@) == Err::<ObjectType, ParseCliErrorView>(e@),
        },
{
    if let Some(Token::TString(type_str)) = lexer.next() {
        if str_eq(type_str, BLOB_STR) {
            Ok(ObjectType::Blob)
        } else if str_eq(type_str, TREE_STR) {
            Ok(ObjectType::Tree)
        } else if str_eq(type_str, COMMIT_STR) {
            Ok(ObjectType::Commit)
        } else {
            Err(
                ParseCliError::InvalidValue {
                    arg_name: if str_eq(flag, TYPE_FLAG_L) {
                        TYPE_FLAG_L
                    } else {
                        TYPE_FLAG_S
                    },
                    value: Token::TString(type_str),
                },
            )
        }
    } else {
        Err(ParseCliError::MissingValueForArg { arg: Token::TFlag(flag) })
    }
}

/// The name of each object type, as hash-object's type flag takes it.
pub open spec fn object_type_name(t: ObjectType) -> Seq<char> {
    match t {
        ObjectType::Blob => BLOB_STR@,
        ObjectType::Tree => TREE_STR@,
        ObjectType::Commit => COMMIT_STR@,
    }
}

/// The type flag reads the type that the text after it names, whatever
/// follows.
pub proof fn law_type_flag_names(t: ObjectType, rest: Seq<TokenView>, f: Seq<char>)
    ensures
        spec_type_flag(seq![TokenView::TString(object_type_name(t))] + rest, f) == Ok::<
            ObjectType,
            ParseCliErrorView,
        >(t),
{
    reveal_strlit("blob");
    reveal_strlit("tree");
    reveal_strlit("commit");
    assert(BLOB_STR@[0] == 'b' && TREE_STR@[0] == 't' && COMMIT_STR@[0] == 'c');
    assert(BLOB_STR@ != TREE_STR@ && BLOB_STR@ != COMMIT_STR@ && TREE_STR@ != COMMIT_STR@);
    assert((seq![TokenView::TString(object_type_name(t))] + rest)[0] == TokenView::TString(
        object_type_name(t),
    ));
}

/// hash-object with a write flag, short or long, then one value hashes
/// that value as a blob and writes it; with a type flag and a type name
/// first, it hashes it as that type.
pub proof fn law_hash_object_flags(v: Seq<char>, t: ObjectType)
    ensures
        spec_parse_hash_object(seq![TokenView::TFlag(WRITE_FLAG_S@), TokenView::TString(v)])
            == Ok::<CommandView, ParseCliErrorView>(
            CommandView::HashObject { value: v, flags: HashObjectFlags { tp: ObjectType::Blob, write: true } },
        ),
        spec_parse_hash_object(seq![TokenView::TFlag(WRITE_FLAG_L@), TokenView::TString(v)])
            == Ok::<CommandView, ParseCliErrorView>(
            CommandView::HashObject { value: v, flags: HashObjectFlags { tp: ObjectType::Blob, write: true } },
        ),
        spec_parse_hash_object(seq![TokenView::TString(v)]) == Ok::<CommandView, ParseCliErrorView>(
            CommandView::HashObject { value: v, flags: HashObjectFlags { tp: ObjectType::Blob, write: false } },
        ),
        spec_parse_hash_object(
            seq![
                TokenView::TFlag(TYPE_FLAG_S@),
                TokenView::TString(object_type_name(t)),
                TokenView::TString(v),
            ],
        ) == Ok::<CommandView, ParseCliErrorView>(
            CommandView::HashObject { value: v, flags: HashObjectFlags { tp: t, write: false } },
        ),
{
    reveal_strlit("-w");
    reveal_strlit("--write");
    reveal_strlit("-t");
    reveal_strlit("--type");
    assert(WRITE_FLAG_S@[1] == 'w' && TYPE_FLAG_S@[1] == 't' && WRITE_FLAG_L@[2] == 'w');
    assert(TYPE_FLAG_S@ != WRITE_FLAG_S@ && TYPE_FLAG_S@ != WRITE_FLAG_L@);
    let one = seq![TokenView::TString(v)];
    assert(seq![TokenView::TFlag(WRITE_FLAG_S@), TokenView::TString(v)].drop_first() =~= one);
    assert(seq![TokenView::TFlag(WRITE_FLAG_L@), TokenView::TString(v)].drop_first() =~= one);
    assert(spec_ho_flags(one, None, true) == (
        Ok::<HashObjectFlags, ParseCliErrorView>(HashObjectFlags { tp: ObjectType::Blob, write: true }),
        one,
    ));
    assert(spec_ho_flags(one, None, false) == (
        Ok::<HashObjectFlags, ParseCliErrorView>(HashObjectFlags { tp: ObjectType::Blob, write: false }),
        one,
    ));
    let ts = seq![
        TokenView::TFlag(TYPE_FLAG_S@),
        TokenView::TString(object_type_name(t)),
        TokenView::TString(v),
    ];
    let rest = ts.drop_first();
    assert(rest =~= seq![TokenView::TString(object_type_name(t))] + one);
    law_type_flag_names(t, one, TYPE_FLAG_S@);
    assert(rest.drop_first() =~= one);
    assert(spec_ho_flags(one, Some(t), false) == (
        Ok::<HashObjectFlags, ParseCliErrorView>(HashObjectFlags { tp: t, write: false }),
        one,
    ));
}

} // verus!
