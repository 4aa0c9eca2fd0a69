use fileql::query_language::lexer::{f64_bits_equal, lex, Token};

fn word(s: &str) -> Token {
    Token::Command(s.to_string())
}

#[test]
fn lex_words_and_punctuation() {
    assert_eq!(
        lex("SEARCH name : , ;").unwrap(),
        vec![word("SEARCH"), word("name"), Token::Colon, Token::Comma, Token::Semicolon]
    );
}

#[test]
fn lex_empty_and_blank_input() {
    assert_eq!(lex("").unwrap(), vec![]);
    assert_eq!(lex(" \t\n ").unwrap(), vec![]);
}

#[test]
fn lex_string_literal() {
    assert_eq!(
        lex("\"a b\" x").unwrap(),
        vec![Token::StringLiteral("a b".to_string()), word("x")]
    );
}

#[test]
fn lex_string_literal_drops_character_after_closing_quote() {
    assert_eq!(lex("\"abc\"x").unwrap(), vec![Token::StringLiteral("abc".to_string())]);
    assert_eq!(
        lex("\"abc\";;").unwrap(),
        vec![Token::StringLiteral("abc".to_string()), Token::Semicolon]
    );
}

#[test]
fn lex_unterminated_string_literal() {
    assert_eq!(lex("\"open").unwrap(), vec![Token::StringLiteral("open".to_string())]);
    assert_eq!(lex("\"").unwrap(), vec![Token::StringLiteral(String::new())]);
}

#[test]
fn lex_word_consumes_its_terminator() {
    assert_eq!(lex("ab:cd").unwrap(), vec![word("ab"), word("cd")]);
    assert_eq!(lex("a_1 b2").unwrap(), vec![word("a_1"), word("b2")]);
}

#[test]
fn lex_unicode_words() {
    assert_eq!(lex("名前 été").unwrap(), vec![word("名前"), word("été")]);
}

#[test]
fn lex_rejects_unexpected_characters() {
    assert_eq!(lex("1").unwrap_err(), "Unexpected character: 1");
    assert_eq!(lex("SEARCH @").unwrap_err(), "Unexpected character: @");
    assert_eq!(lex("'x'").unwrap_err(), "Unexpected character: '");
}

#[test]
fn lex_never_yields_identifiers() {
    for input in ["SEARCH name \"x\" IN \"y\"", "a, b; c: \"d\"", "ADD name \"f\""] {
        for t in lex(input).unwrap() {
            assert!(!matches!(t, Token::Identifier(_) | Token::NumberLiteral(_)));
        }
    }
}

#[test]
fn token_equality_follows_f64_for_numbers() {
    let nan = Token::NumberLiteral(f64::NAN.to_bits());
    assert!(nan != Token::NumberLiteral(f64::NAN.to_bits()));
    assert!(Token::NumberLiteral(0.0f64.to_bits()) == Token::NumberLiteral((-0.0f64).to_bits()));
    assert!(Token::NumberLiteral(1.5f64.to_bits()) == Token::NumberLiteral(1.5f64.to_bits()));
    assert!(Token::NumberLiteral(1.5f64.to_bits()) != Token::NumberLiteral(2.5f64.to_bits()));
    assert!(Token::Identifier("a".to_string()) != Token::Command("a".to_string()));
    for (a, b) in [(1.0f64, 1.0f64), (0.0, -0.0), (f64::NAN, f64::NAN), (f64::INFINITY, f64::INFINITY), (1.0, 2.0)] {
        assert_eq!(f64_bits_equal(a.to_bits(), b.to_bits()), a == b);
    }
}
