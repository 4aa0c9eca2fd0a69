use fileql::query_language::lexer::{lex, Token};
use fileql::query_language::parser::{parse, Command};

fn w(s: &str) -> Token {
    Token::Command(s.to_string())
}
fn id(s: &str) -> Token {
    Token::Identifier(s.to_string())
}
fn lit(s: &str) -> Token {
    Token::StringLiteral(s.to_string())
}

#[test]
fn parse_search_with_name_and_path() {
    let c = parse(vec![w("SEARCH"), id("name"), lit("x.txt"), id("IN"), lit("/tmp")]).unwrap();
    match c {
        Command::Search { name, in_path } => {
            assert_eq!(name.as_deref(), Some("x.txt"));
            assert_eq!(in_path, "/tmp");
        }
        other => panic!("unexpected {:?}", other),
    }
}

#[test]
fn parse_search_later_clause_wins_and_semicolon_ends() {
    let c = parse(vec![
        w("SEARCH"),
        id("IN"),
        lit("a"),
        id("IN"),
        lit("b"),
        Token::Semicolon,
        Token::Colon,
    ])
    .unwrap();
    match c {
        Command::Search { name, in_path } => {
            assert_eq!(name, None);
            assert_eq!(in_path, "b");
        }
        other => panic!("unexpected {:?}", other),
    }
}

#[test]
fn parse_search_errors() {
    assert_eq!(
        parse(vec![w("SEARCH"), id("name"), lit("x")]).unwrap_err(),
        "SEARCH command requires an 'IN' clause"
    );
    assert_eq!(
        parse(vec![w("SEARCH"), id("name"), Token::Colon]).unwrap_err(),
        "Expected a string literal after 'name'"
    );
    assert_eq!(
        parse(vec![w("SEARCH"), id("IN")]).unwrap_err(),
        "Expected a string literal after 'IN'"
    );
    assert_eq!(
        parse(vec![w("SEARCH"), Token::Comma]).unwrap_err(),
        "Unexpected token in SEARCH command"
    );
    assert_eq!(
        parse(vec![w("SEARCH"), id("path"), lit("x")]).unwrap_err(),
        "Unexpected token in SEARCH command"
    );
}

#[test]
fn parse_requires_a_command_word() {
    assert_eq!(parse(vec![]).unwrap_err(), "Expected a command");
    assert_eq!(parse(vec![Token::Colon]).unwrap_err(), "Expected a command");
    assert_eq!(parse(vec![w("LIST")]).unwrap_err(), "Unknown command: LIST");
}

#[test]
fn parse_delete_and_add() {
    match parse(vec![w("DELETE"), id("IN"), lit("d")]).unwrap() {
        Command::Delete { name, in_path } => {
            assert_eq!(name, None);
            assert_eq!(in_path, "d");
        }
        other => panic!("unexpected {:?}", other),
    }
    assert_eq!(
        parse(vec![w("DELETE"), id("name"), lit("n")]).unwrap_err(),
        "DELETE command requires an 'IN' clause"
    );
    match parse(vec![w("ADD"), id("name"), lit("f"), id("content"), lit("hi")]).unwrap() {
        Command::Add { name, content } => {
            assert_eq!(name, "f");
            assert_eq!(content.as_deref(), Some("hi"));
        }
        other => panic!("unexpected {:?}", other),
    }
    assert_eq!(
        parse(vec![w("ADD"), id("content"), lit("hi")]).unwrap_err(),
        "ADD command requires a 'name' clause"
    );
    assert_eq!(
        parse(vec![w("ADD"), id("IN"), lit("hi")]).unwrap_err(),
        "Unexpected token in ADD command"
    );
}

#[test]
fn lexed_input_never_parses() {
    for input in [
        "SEARCH name \"x\" IN \"y\"",
        "SEARCH",
        "DELETE IN \"y\";",
        "ADD name \"f\" content \"c\"",
        "LIST",
        "",
    ] {
        assert!(parse(lex(input).unwrap()).is_err(), "{}", input);
    }
}

#[test]
fn clause_order_does_not_matter() {
    let a = parse(vec![w("SEARCH"), id("name"), lit("n"), id("IN"), lit("p")]).unwrap();
    let b = parse(vec![w("SEARCH"), id("IN"), lit("p"), id("name"), lit("n")]).unwrap();
    assert_eq!(format!("{:?}", a), format!("{:?}", b));
}

#[test]
fn reordering_that_keeps_the_last_clauses_reads_the_same() {
    let a = parse(vec![
        w("SEARCH"),
        id("IN"),
        lit("a"),
        id("name"),
        lit("x"),
        id("IN"),
        lit("b"),
        id("name"),
        lit("y"),
    ])
    .unwrap();
    let b = parse(vec![w("SEARCH"), id("name"), lit("z"), id("IN"), lit("b"), id("name"), lit("y")])
        .unwrap();
    match &a {
        Command::Search { name, in_path } => {
            assert_eq!(name.as_deref(), Some("y"));
            assert_eq!(in_path, "b");
        }
        other => panic!("unexpected {:?}", other),
    }
    assert_eq!(format!("{:?}", a), format!("{:?}", b));
}
