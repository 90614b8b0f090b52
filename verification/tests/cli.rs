use gitrs::cli::lexer::{args_lexable, Lexer};
use gitrs::cli::parser::parse_cat_file::parse_cat_file;
use gitrs::cli::parser::parse_hash_object::{hash_object_complete, parse_hash_object};
use gitrs::cli::parser::Parser;
use gitrs::cli::{ParseCliError, Token};
use gitrs::command::Command;
use gitrs::internals::hash::commit_hash::CommitHash;
use gitrs::internals::hash::HashObjectFlags;
use gitrs::internals::objects::cat_file::CatFileMode;
use gitrs::internals::objects::ObjectType;

fn args(v: &[&str]) -> Vec<String> {
    v.iter().map(|s| s.to_string()).collect()
}

#[test]
fn lexer_classifies_arguments() {
    let a = args(&["cat-file", "-p", "a b", "42", "+7", "4294967296", "-x", "--all", "word"]);
    let mut l = Lexer::new(&a).unwrap();
    let expected = [
        Token::TCommand("cat-file"),
        Token::TFlag("-p"),
        Token::TString("a b"),
        Token::TNumber(42),
        Token::TNumber(7),
        Token::TString("4294967296"),
        Token::TString("-x"),
        Token::TFlag("--all"),
        Token::TString("word"),
    ];
    for t in expected {
        assert_eq!(l.peek(), Some(t));
        assert_eq!(l.next(), Some(t));
    }
    assert!(l.is_empty());
    assert_eq!(l.peek(), None);
    assert_eq!(l.next(), None);
}

#[test]
fn lexer_key_value_pairs_are_not_lexable() {
    assert!(!args_lexable(&args(&["a=b"])));
    assert!(args_lexable(&args(&["a = b", "init", "x"])));
}

#[test]
fn parse_init_and_status() {
    let a = args(&["init"]);
    let mut p = Parser::new(&a).unwrap();
    assert!(p.parse_is_supported());
    assert_eq!(p.parse().unwrap(), Command::Init { default_branch: "main" });

    let a = args(&["init", "x"]);
    let mut p = Parser::new(&a).unwrap();
    match p.parse() {
        Err(ParseCliError::InvalidArgumentForCommand { cmd, invalid_arg }) => {
            assert_eq!(cmd, "init");
            assert_eq!(invalid_arg, Token::TString("x"));
        }
        other => panic!("unexpected: {:?}", other),
    }

    let a = args(&["status"]);
    let mut p = Parser::new(&a).unwrap();
    assert_eq!(p.parse().unwrap(), Command::Status);

    let a = args(&["status", "3"]);
    let mut p = Parser::new(&a).unwrap();
    assert!(matches!(
        p.parse(),
        Err(ParseCliError::InvalidArgumentForCommand { cmd: "status", invalid_arg: Token::TNumber(3) })
    ));
}

#[test]
fn parse_missing_command() {
    let a = args(&[]);
    let mut p = Parser::new(&a).unwrap();
    assert!(matches!(p.parse(), Err(ParseCliError::MissingCommand)));
    let a = args(&["-p", "init"]);
    let mut p = Parser::new(&a).unwrap();
    assert!(matches!(p.parse(), Err(ParseCliError::MissingCommand)));
}

#[test]
fn pending_commands_are_not_supported() {
    for c in ["add", "commit", "log", "reset"] {
        let a = args(&[c]);
        let p = Parser::new(&a).unwrap();
        assert!(!p.parse_is_supported());
    }
}

#[test]
fn parse_hash_file_and_build_tree() {
    let a = args(&["hash-file", "f.txt"]);
    let mut p = Parser::new(&a).unwrap();
    assert_eq!(p.parse().unwrap(), Command::HashFile { filename: Token::TString("f.txt") });
    let a = args(&["hash-file"]);
    let mut p = Parser::new(&a).unwrap();
    assert!(matches!(p.parse(), Err(ParseCliError::MissingArgument("Filename"))));
    let a = args(&["hash-file", "a", "b"]);
    let mut p = Parser::new(&a).unwrap();
    assert!(matches!(p.parse(), Err(ParseCliError::TooManyArguments)));
    let a = args(&["build-tree"]);
    let mut p = Parser::new(&a).unwrap();
    assert_eq!(p.parse().unwrap(), Command::BuildTree);
    let a = args(&["build-tree", "x"]);
    let mut p = Parser::new(&a).unwrap();
    assert!(matches!(p.parse(), Err(ParseCliError::TooManyArguments)));
}

#[test]
fn parse_hash_object_command() {
    let a = args(&["hash-object", "-w", "--type", "tree", "dir"]);
    let mut p = Parser::new(&a).unwrap();
    assert!(p.parse_is_supported());
    match p.parse().unwrap() {
        Command::HashObject(c) => {
            assert_eq!(c.value, "dir");
            assert_eq!(c.flags, HashObjectFlags::new(ObjectType::Tree, true));
        }
        other => panic!("unexpected: {:?}", other),
    }
    let a = args(&["hash-object", "file.txt"]);
    let mut p = Parser::new(&a).unwrap();
    match p.parse().unwrap() {
        Command::HashObject(c) => {
            assert_eq!(c.value, "file.txt");
            assert_eq!(c.flags, HashObjectFlags::new(ObjectType::Blob, false));
        }
        other => panic!("unexpected: {:?}", other),
    }
}

#[test]
fn hash_object_errors() {
    let a = args(&["-t", "blub", "x"]);
    let mut l = Lexer::new(&a).unwrap();
    match parse_hash_object(&mut l) {
        Err(ParseCliError::InvalidValue { arg_name, value }) => {
            assert_eq!(arg_name, "-t");
            assert_eq!(value, Token::TString("blub"));
        }
        other => panic!("unexpected: {:?}", other),
    }
    let a = args(&["--type", "blub", "x"]);
    let mut l = Lexer::new(&a).unwrap();
    assert!(matches!(
        parse_hash_object(&mut l),
        Err(ParseCliError::InvalidValue { arg_name: "--type", value: Token::TString("blub") })
    ));
    let a = args(&["-t"]);
    let mut l = Lexer::new(&a).unwrap();
    assert!(matches!(
        parse_hash_object(&mut l),
        Err(ParseCliError::MissingValueForArg { arg: Token::TFlag("-t") })
    ));
    let a = args(&["-p", "x"]);
    let mut l = Lexer::new(&a).unwrap();
    assert!(matches!(parse_hash_object(&mut l), Err(ParseCliError::UnknownFlag("-p"))));
    let a = args(&["-w", "12"]);
    let mut l = Lexer::new(&a).unwrap();
    assert!(hash_object_complete(&l));
    assert!(matches!(
        parse_hash_object(&mut l),
        Err(ParseCliError::InvalidValue { arg_name: "Value", value: Token::TString("Add this here") })
    ));
    let a = args(&["-w", "x", "y"]);
    let l = Lexer::new(&a).unwrap();
    assert!(!hash_object_complete(&l));
    let a = args(&["-w"]);
    let l = Lexer::new(&a).unwrap();
    assert!(!hash_object_complete(&l));
}

#[test]
fn parse_cat_file_command() {
    let a = args(&["cat-file", "-p", "12345678901", "+98765432109"]);
    let mut p = Parser::new(&a).unwrap();
    match p.parse().unwrap() {
        Command::CatFile(c) => {
            assert_eq!(c.flags, CatFileMode::PrettyPrint);
            assert_eq!(
                c.values,
                vec![CommitHash { hash: 12345678901 }, CommitHash { hash: 98765432109 }]
            );
        }
        other => panic!("unexpected: {:?}", other),
    }
}

#[test]
fn cat_file_errors() {
    let a = args(&["-t"]);
    let mut l = Lexer::new(&a).unwrap();
    assert!(matches!(parse_cat_file(&mut l), Err(ParseCliError::MissingArgument("Hash Value"))));
    let a = args(&["--all", "12345678901"]);
    let mut l = Lexer::new(&a).unwrap();
    assert!(matches!(parse_cat_file(&mut l), Err(ParseCliError::UnknownFlag("--all"))));
    let a = args(&["x"]);
    let mut l = Lexer::new(&a).unwrap();
    assert!(matches!(
        parse_cat_file(&mut l),
        Err(ParseCliError::MissingArgument("Cat file flag (-p, -t, ...)"))
    ));
    // a value that is neither a hash text nor a number
    let a = args(&["-s", "-t"]);
    let mut l = Lexer::new(&a).unwrap();
    assert!(matches!(
        parse_cat_file(&mut l),
        Err(ParseCliError::InvalidValue { arg_name: "Value", value: Token::TFlag("-t") })
    ));
    let a = args(&["-s", "99999999999999999999999"]);
    let mut l = Lexer::new(&a).unwrap();
    assert!(matches!(
        parse_cat_file(&mut l),
        Err(ParseCliError::InvalidArgumentForCommand { cmd: "cat-file", invalid_arg: Token::TString("99999999999999999999999") })
    ));
}

#[test]
fn hash_text_goes_through_cat_file() {
    let h = CommitHash::new("some content");
    let text = h.to_str();
    let a = vec!["cat-file".to_string(), "-t".to_string(), text];
    let mut p = Parser::new(&a).unwrap();
    match p.parse() {
        Ok(Command::CatFile(c)) => assert_eq!(c.values, vec![h]),
        other => panic!("unexpected: {:?}", other),
    }
}

#[test]
fn short_hash_goes_through_cat_file() {
    // "42" is lexed as a number token, and read as the hash it displays
    let a = args(&["cat-file", "-t", "42", "4294967295", "4294967296"]);
    let mut p = Parser::new(&a).unwrap();
    match p.parse() {
        Ok(Command::CatFile(c)) => {
            assert_eq!(c.flags, CatFileMode::Type);
            assert_eq!(
                c.values,
                vec![CommitHash { hash: 42 }, CommitHash { hash: 4294967295 }, CommitHash { hash: 4294967296 }]
            );
        }
        other => panic!("unexpected: {:?}", other),
    }
}
