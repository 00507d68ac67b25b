use rlox::error::RloxSyntaxError;
use rlox::number::Number;
use rlox::scanner::Scanner;
use rlox::token::{get_keyword_token_type, Literal, Token, TokenType};

fn token(kind: TokenType, lexeme: &str, line: usize) -> Token {
    Token::new(kind, lexeme.to_string(), None, line).unwrap()
}

fn number(lexeme: &str, value: &str, line: usize) -> Token {
    let literal = Literal::Number(Number::parse(value).unwrap());
    Token::new(TokenType::Number, lexeme.to_string(), Some(literal), line).unwrap()
}

fn string(text: &str, line: usize) -> Token {
    let literal = Literal::String(text.to_string());
    Token::new(TokenType::String, format!("\"{}\"", text), Some(literal), line).unwrap()
}

fn fault(line: usize, description: &str) -> RloxSyntaxError {
    RloxSyntaxError { line_number: line, description: description.to_string() }
}

fn kinds(source: &str) -> Vec<TokenType> {
    let scanner = Scanner::new(source.to_string());
    scanner.tokens().iter().map(|t| *t.token_type()).collect()
}

#[test]
fn given_valid_input() {
    let source = String::from("if(example_var){ print \"hi!\"; }");
    let scanner = Scanner::new(source);
    let received_tokens = scanner.tokens();
    let expected_tokens = &vec![
        Token::new(TokenType::If, "if".to_string(), None, 1).unwrap(),
        Token::new(TokenType::LeftParen, "(".to_string(), None, 1).unwrap(),
        Token::new(TokenType::Identifier, "example_var".to_string(), None, 1).unwrap(),
        Token::new(TokenType::RightParen, ")".to_string(), None, 1).unwrap(),
        Token::new(TokenType::LeftBrace, "{".to_string(), None, 1).unwrap(),
        Token::new(TokenType::Print, "print".to_string(), None, 1).unwrap(),
        Token::new(
            TokenType::String,
            "\"hi!\"".to_string(),
            Some(Literal::String("hi!".to_string())),
            1,
        )
        .unwrap(),
        Token::new(TokenType::Semicolon, ";".to_string(), None, 1).unwrap(),
        Token::new(TokenType::RightBrace, "}".to_string(), None, 1).unwrap(),
        Token::new(TokenType::Eof, "".to_string(), None, 1).unwrap(),
    ];
    assert_eq!(expected_tokens, received_tokens);
    assert!(scanner.errors().is_empty());
}

#[test]
fn empty_source_is_end_of_stream_alone() {
    let scanner = Scanner::new(String::new());
    assert_eq!(scanner.tokens(), &vec![token(TokenType::Eof, "", 1)]);
    assert!(scanner.errors().is_empty());
}

#[test]
fn punctuation_gives_one_token_per_character() {
    let scanner = Scanner::new("(){},.-+;*".to_string());
    let expected = vec![
        token(TokenType::LeftParen, "(", 1),
        token(TokenType::RightParen, ")", 1),
        token(TokenType::LeftBrace, "{", 1),
        token(TokenType::RightBrace, "}", 1),
        token(TokenType::Comma, ",", 1),
        token(TokenType::Dot, ".", 1),
        token(TokenType::Minus, "-", 1),
        token(TokenType::Plus, "+", 1),
        token(TokenType::Semicolon, ";", 1),
        token(TokenType::Star, "*", 1),
        token(TokenType::Eof, "", 1),
    ];
    assert_eq!(scanner.tokens(), &expected);
    assert!(scanner.errors().is_empty());
}

#[test]
fn repeated_punctuation_keeps_its_order() {
    assert_eq!(
        kinds("))((;;"),
        vec![
            TokenType::RightParen,
            TokenType::RightParen,
            TokenType::LeftParen,
            TokenType::LeftParen,
            TokenType::Semicolon,
            TokenType::Semicolon,
            TokenType::Eof,
        ]
    );
}

#[test]
fn bang_equal_is_one_token() {
    let scanner = Scanner::new("!=".to_string());
    assert_eq!(
        scanner.tokens(),
        &vec![token(TokenType::BangEqual, "!=", 1), token(TokenType::Eof, "", 1)]
    );
}

#[test]
fn operators_prefer_the_longer_form() {
    assert_eq!(
        kinds("! != = == < <= > >="),
        vec![
            TokenType::Bang,
            TokenType::BangEqual,
            TokenType::Equal,
            TokenType::EqualEqual,
            TokenType::Less,
            TokenType::LessEqual,
            TokenType::Greater,
            TokenType::GreaterEqual,
            TokenType::Eof,
        ]
    );
    assert_eq!(
        kinds("==="),
        vec![TokenType::EqualEqual, TokenType::Equal, TokenType::Eof]
    );
}

#[test]
fn bang_alone_is_bang() {
    let scanner = Scanner::new("!".to_string());
    assert_eq!(
        scanner.tokens(),
        &vec![token(TokenType::Bang, "!", 1), token(TokenType::Eof, "", 1)]
    );
}

#[test]
fn comment_contributes_no_token() {
    let scanner = Scanner::new("// comment\n123".to_string());
    assert_eq!(
        scanner.tokens(),
        &vec![number("123", "123", 2), token(TokenType::Eof, "", 2)]
    );
    assert!(scanner.errors().is_empty());
    match scanner.tokens()[0].literal() {
        Some(Literal::Number(n)) => assert_eq!(n.text().parse::<f64>().unwrap(), 123.0),
        other => panic!("no number: {:?}", other),
    }
}

#[test]
fn comment_runs_to_the_end_of_the_source() {
    assert_eq!(kinds("1 // the rest"), vec![TokenType::Number, TokenType::Eof]);
    assert_eq!(kinds("//"), vec![TokenType::Eof]);
}

#[test]
fn slash_alone_is_division() {
    let scanner = Scanner::new("8 / 2".to_string());
    assert_eq!(
        scanner.tokens(),
        &vec![
            number("8", "8", 1),
            token(TokenType::Slash, "/", 1),
            number("2", "2", 1),
            token(TokenType::Eof, "", 1),
        ]
    );
}

#[test]
fn unterminated_string_is_reported() {
    let scanner = Scanner::new("\"abc".to_string());
    assert_eq!(scanner.errors(), &vec![fault(1, "Unterminated string.")]);
    assert_eq!(scanner.tokens(), &vec![token(TokenType::Eof, "", 1)]);
}

#[test]
fn unterminated_string_is_reported_on_its_first_line() {
    let scanner = Scanner::new("1\n\n\"abc\ndef\n".to_string());
    assert_eq!(scanner.errors(), &vec![fault(3, "Unterminated string.")]);
    assert_eq!(
        scanner.tokens(),
        &vec![number("1", "1", 1), token(TokenType::Eof, "", 5)]
    );
}

#[test]
fn string_over_several_lines() {
    let scanner = Scanner::new("\"a\nb\" x".to_string());
    assert_eq!(
        scanner.tokens(),
        &vec![
            string("a\nb", 2),
            token(TokenType::Identifier, "x", 2),
            token(TokenType::Eof, "", 2),
        ]
    );
}

#[test]
fn empty_string_literal() {
    let scanner = Scanner::new("\"\"".to_string());
    assert_eq!(scanner.tokens(), &vec![string("", 1), token(TokenType::Eof, "", 1)]);
}

#[test]
fn unexpected_character_is_reported_and_scanning_goes_on() {
    let scanner = Scanner::new("1 @ 2\n# 3".to_string());
    assert_eq!(
        scanner.errors(),
        &vec![fault(1, "Unexpected character."), fault(2, "Unexpected character.")]
    );
    assert_eq!(
        scanner.tokens(),
        &vec![
            number("1", "1", 1),
            number("2", "2", 1),
            number("3", "3", 2),
            token(TokenType::Eof, "", 2),
        ]
    );
}

#[test]
fn number_with_fraction() {
    let scanner = Scanner::new("45.67".to_string());
    assert_eq!(
        scanner.tokens(),
        &vec![number("45.67", "45.67", 1), token(TokenType::Eof, "", 1)]
    );
}

#[test]
fn number_stops_before_a_trailing_point() {
    let scanner = Scanner::new("123.".to_string());
    assert_eq!(
        scanner.tokens(),
        &vec![
            number("123", "123", 1),
            token(TokenType::Dot, ".", 1),
            token(TokenType::Eof, "", 1),
        ]
    );
}

#[test]
fn number_takes_one_point_only() {
    let scanner = Scanner::new("1.2.3".to_string());
    assert_eq!(
        scanner.tokens(),
        &vec![
            number("1.2", "1.2", 1),
            token(TokenType::Dot, ".", 1),
            number("3", "3", 1),
            token(TokenType::Eof, "", 1),
        ]
    );
}

#[test]
fn number_literal_is_the_value_not_the_lexeme() {
    let scanner = Scanner::new("007.500".to_string());
    assert_eq!(
        scanner.tokens(),
        &vec![number("007.500", "7.5", 1), token(TokenType::Eof, "", 1)]
    );
    let scanner = Scanner::new("10.0".to_string());
    assert_eq!(
        scanner.tokens(),
        &vec![number("10.0", "10", 1), token(TokenType::Eof, "", 1)]
    );
}

#[test]
fn identifiers_and_keywords() {
    assert_eq!(
        kinds("and class else false for fun if nil or print return super this true var while"),
        vec![
            TokenType::And,
            TokenType::Class,
            TokenType::Else,
            TokenType::False,
            TokenType::For,
            TokenType::Fun,
            TokenType::If,
            TokenType::Nil,
            TokenType::Or,
            TokenType::Print,
            TokenType::Return,
            TokenType::Super,
            TokenType::This,
            TokenType::True,
            TokenType::Var,
            TokenType::While,
            TokenType::Eof,
        ]
    );
    let scanner = Scanner::new("_x1 classy été".to_string());
    assert_eq!(
        scanner.tokens(),
        &vec![
            token(TokenType::Identifier, "_x1", 1),
            token(TokenType::Identifier, "classy", 1),
            token(TokenType::Identifier, "été", 1),
            token(TokenType::Eof, "", 1),
        ]
    );
}

#[test]
fn keyword_table() {
    assert_eq!(get_keyword_token_type("while"), Some(TokenType::While));
    assert_eq!(get_keyword_token_type("nil"), Some(TokenType::Nil));
    assert_eq!(get_keyword_token_type("While"), None);
    assert_eq!(get_keyword_token_type(""), None);
}

#[test]
fn lines_are_counted_from_one() {
    let scanner = Scanner::new("a\nb\r\n\tc".to_string());
    assert_eq!(
        scanner.tokens(),
        &vec![
            token(TokenType::Identifier, "a", 1),
            token(TokenType::Identifier, "b", 2),
            token(TokenType::Identifier, "c", 3),
            token(TokenType::Eof, "", 3),
        ]
    );
}

#[test]
fn token_is_displayed_with_its_kind() {
    assert_eq!(token(TokenType::Print, "print", 1).to_string(), "Print print");
    assert_eq!(string("hello, world", 1).to_string(), "String \"hello, world\"");
    assert_eq!(token(TokenType::Eof, "", 1).to_string(), "Eof ");
}

#[test]
fn tokens_differ_in_any_attribute() {
    let a = number("1", "1", 1);
    assert_eq!(a, number("1", "1", 1));
    assert_ne!(a, number("1", "1", 2));
    assert_ne!(a, number("1", "2", 1));
    assert_ne!(a, number("01", "1", 1));
    assert_ne!(a, token(TokenType::Number, "1", 1));
    assert_eq!(a, a.clone());
}

#[test]
fn numerals() {
    assert_eq!(Number::parse("0").unwrap().text(), "0");
    assert_eq!(Number::parse("000").unwrap().text(), "0");
    assert_eq!(Number::parse("0.50").unwrap().text(), "0.5");
    assert_eq!(Number::parse("12.000").unwrap().text(), "12");
    assert_eq!(Number::parse("45.67").unwrap().text(), "45.67");
    assert!(Number::parse("").is_none());
    assert!(Number::parse("1.").is_none());
    assert!(Number::parse(".5").is_none());
    assert!(Number::parse("1.2.3").is_none());
    assert!(Number::parse("1a").is_none());
    assert!(Number::parse("-1").is_none());
}

#[test]
fn kinds_are_named_as_they_are_written() {
    for kind in [
        TokenType::LeftParen,
        TokenType::BangEqual,
        TokenType::Identifier,
        TokenType::String,
        TokenType::Number,
        TokenType::While,
        TokenType::Eof,
    ] {
        assert_eq!(kind.name(), format!("{:?}", kind));
    }
}

#[test]
fn numbers_are_equal_where_their_values_are() {
    assert_eq!(Number::parse("1.50"), Number::parse("01.5"));
    assert_eq!(Number::parse("0"), Number::parse("0.000"));
    assert_ne!(Number::parse("1.5"), Number::parse("1.05"));
    assert_ne!(Number::parse("10"), Number::parse("1"));
    let n = Number::parse("45.670").unwrap();
    assert_eq!(n.text().parse::<f64>().unwrap(), 45.67);
    assert_eq!(n.clone(), n);
}

#[test]
fn characters_beyond_ascii() {
    let scanner = Scanner::new("💝".to_string());
    assert_eq!(scanner.errors(), &vec![fault(1, "Unexpected character.")]);
    assert_eq!(scanner.tokens(), &vec![token(TokenType::Eof, "", 1)]);
    // A superscript digit is numeric and not alphabetic: it continues an
    // identifier and begins none.
    let scanner = Scanner::new("x² ²".to_string());
    assert_eq!(scanner.errors(), &vec![fault(1, "Unexpected character.")]);
    assert_eq!(
        scanner.tokens(),
        &vec![token(TokenType::Identifier, "x²", 1), token(TokenType::Eof, "", 1)]
    );
    let scanner = Scanner::new("\"日本\" 京".to_string());
    assert_eq!(
        scanner.tokens(),
        &vec![
            string("日本", 1),
            token(TokenType::Identifier, "京", 1),
            token(TokenType::Eof, "", 1),
        ]
    );
}
