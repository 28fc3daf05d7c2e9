//! The scanner, over every token shape the language has.
use rlox::scanner::Scanner;
use rlox::token::{ErrorToken, Token, TokenType};

/// Scans a whole source, keeping diagnostics, stopping before the sentinel.
fn scan(source: &str) -> Vec<Result<Token, ErrorToken>> {
    let mut scanner = Scanner::new(source.as_bytes().to_vec());
    let mut out = Vec::new();
    loop {
        match scanner.next_token() {
            Ok(t) => {
                if t.id == TokenType::EOF {
                    return out;
                }
                out.push(Ok(t));
            }
            Err(e) => out.push(Err(e)),
        }
    }
}

fn token(id: TokenType, lexeme: &str, line: u32) -> Result<Token, ErrorToken> {
    Ok(Token::new(id, lexeme.as_bytes().to_vec(), line))
}

#[test]
fn single_char_token() {
    let source = "() {} , . - + ; * / ";
    let expected: Vec<Result<Token, ErrorToken>> = vec![
        token(TokenType::LeftParen, "(", 1),
        token(TokenType::RightParen, ")", 1),
        token(TokenType::LeftBrace, "{", 1),
        token(TokenType::RightBrace, "}", 1),
        token(TokenType::Comma, ",", 1),
        token(TokenType::Dot, ".", 1),
        token(TokenType::Minus, "-", 1),
        token(TokenType::Plus, "+", 1),
        token(TokenType::Semicolon, ";", 1),
        token(TokenType::Star, "*", 1),
        token(TokenType::Slash, "/", 1),
    ];
    assert_eq!(expected, scan(source));
}

#[test]
fn multi_char_token() {
    let source = "!!=>>==<<===";
    let expected: Vec<Result<Token, ErrorToken>> = vec![
        token(TokenType::Bang, "!", 1),
        token(TokenType::BangEqual, "!=", 1),
        token(TokenType::Greater, ">", 1),
        token(TokenType::GreaterEqual, ">=", 1),
        token(TokenType::Equal, "=", 1),
        token(TokenType::Less, "<", 1),
        token(TokenType::LessEqual, "<=", 1),
        token(TokenType::EqualEqual, "==", 1),
    ];
    assert_eq!(expected, scan(source));
}

#[test]
fn number() {
    let input = "123 123.456";
    let expected: Vec<Result<Token, ErrorToken>> = ["123", "123.456"]
        .into_iter()
        .map(|x| token(TokenType::Number, x, 1))
        .collect();
    for (want, got) in expected.into_iter().zip(scan(input)) {
        assert_eq!(want, got);
    }
}

#[test]
fn comments() {
    let input = "// this is a comment\n*";
    assert_eq!(vec![token(TokenType::Star, "*", 2)], scan(input));
}

#[test]
fn identifiers() {
    let input =
        "and class else false for fun if nil or print return super this true var while me";
    let expected_kinds = [
        TokenType::And,
        TokenType::Class,
        TokenType::Else,
        TokenType::False,
        TokenType::For,
        TokenType::Fun,
        TokenType::If,
        TokenType::Nil,
        TokenType::Or,
        TokenType::Print,
        TokenType::Return,
        TokenType::Super,
        TokenType::This,
        TokenType::True,
        TokenType::Var,
        TokenType::While,
        TokenType::Identifier,
    ];
    let expected: Vec<Result<Token, ErrorToken>> = input
        .split_whitespace()
        .zip(expected_kinds.into_iter())
        .map(|x| token(x.1, x.0, 1))
        .collect();
    for (want, got) in expected.into_iter().zip(scan(input)) {
        assert_eq!(want, got);
    }
}

#[test]
fn string() {
    let input = "\"hello\"";
    let expected = token(TokenType::String, "\"hello\"", 1);
    assert_eq!(vec![expected], scan(input));
}

#[test]
fn unterminated_string() {
    let got = scan("\"oops");
    assert_eq!(1, got.len());
    match &got[0] {
        Err(e) => {
            assert_eq!(e.message, b"Unterminated string.".to_vec());
            assert_eq!(e.line, 1);
        }
        Ok(t) => panic!("expected a diagnostic, got {:?}", t),
    }
}

#[test]
fn unexpected_character() {
    let got = scan("@");
    assert_eq!(1, got.len());
    match &got[0] {
        Err(e) => assert_eq!(e.message, b"Unexpected character.".to_vec()),
        Ok(t) => panic!("expected a diagnostic, got {:?}", t),
    }
}
