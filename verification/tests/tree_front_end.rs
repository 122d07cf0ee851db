use rslox::tree::expr::Literal;
use rslox::tree::parser::Parser;
use rslox::tree::report::{error, token_error};
use rslox::tree::scanner::Scanner;
use rslox::tree::token::{Token, TokenType};

fn scan(source: &str) -> (Vec<Token>, Vec<String>) {
    let mut scanner = Scanner::new(source.chars().collect());
    let tokens = scanner.scan_tokens();
    (tokens, scanner.errors)
}

fn kinds(source: &str) -> Vec<TokenType> {
    scan(source).0.into_iter().map(|t| t.token_type).collect()
}

#[test]
fn scans_statement_tokens() {
    assert_eq!(
        kinds("var x = 5;"),
        vec![
            TokenType::Var,
            TokenType::Identifier,
            TokenType::Equal,
            TokenType::Number,
            TokenType::Semicolon,
            TokenType::Eof,
        ]
    );
}

#[test]
fn nestable_block_comments() {
    assert_eq!(
        kinds("1 /* a /* nested */ b */ 2"),
        vec![TokenType::Number, TokenType::Number, TokenType::Eof]
    );
}

#[test]
fn number_literal_keeps_its_text() {
    let (tokens, errors) = scan("12.25");
    assert!(errors.is_empty());
    match &tokens[0].literal {
        Literal::Number(text) => {
            let s: String = text.iter().collect();
            assert_eq!(s, "12.25");
            assert_eq!(s.parse::<f64>().unwrap(), 12.25);
        }
        other => panic!("expected a number literal, got {other:?}"),
    }
}

#[test]
fn string_literal_is_trimmed() {
    let (tokens, _) = scan("\"hello\"");
    match &tokens[0].literal {
        Literal::Str(text) => {
            let s: String = text.iter().collect();
            assert_eq!(s, "hello");
        }
        other => panic!("expected a string literal, got {other:?}"),
    }
}

#[test]
fn unexpected_character_is_collected() {
    let (tokens, errors) = scan("@");
    assert_eq!(tokens.len(), 1);
    assert_eq!(errors.len(), 1);
    assert_eq!(errors[0], "[line 0] Error: Unexpected character.");
}

#[test]
fn parser_navigation() {
    let (tokens, _) = scan("1 + 2");
    let mut parser = Parser::new(tokens);
    assert!(!parser.is_at_end());
    assert!(parser.match_type(&[TokenType::Number]));
    assert!(!parser.match_type(&[TokenType::Minus]));
    assert!(parser.match_type(&[TokenType::Minus, TokenType::Plus]));
    assert!(parser.consume(TokenType::Number, "Expect a number.").is_ok());
    assert!(parser.is_at_end());
    assert!(parser.consume(TokenType::Number, "Expect a number.").is_err());
}

#[test]
fn parser_synchronize_stops_at_statement_start() {
    let (tokens, _) = scan("1 2 ; var x");
    let mut parser = Parser::new(tokens);
    parser.synchronize();
    // It runs past the semicolon and stops before the statement keyword.
    assert!(parser.match_type(&[TokenType::Var]));
}

#[test]
fn report_formats() {
    assert_eq!(error(3, "boom"), "[line 3] Error: boom");
    let t = Token {
        token_type: TokenType::Plus,
        lexeme: vec!['+'],
        line_num: 2,
        literal: Literal::Nil,
    };
    assert_eq!(token_error(&t, "nope"), "[line 2] Error at '+': nope");
    let e = Token {
        token_type: TokenType::Eof,
        lexeme: Vec::new(),
        line_num: 9,
        literal: Literal::Nil,
    };
    assert_eq!(token_error(&e, "gone"), "[line 9] Error at end: gone");
}

#[test]
fn parses_standard_precedence() {
    let (tokens, _) = scan("1 + 2 * 3");
    let mut parser = Parser::new(tokens);
    let expr = parser.parse().unwrap();
    // The multiplication binds tighter: (+ 1 (* 2 3)).
    match expr {
        rslox::tree::expr::Expr::Binary(b) => {
            assert_eq!(b.operator.token_type, TokenType::Plus);
            assert!(matches!(*b.left, rslox::tree::expr::Expr::Literal(_)));
            match *b.right {
                rslox::tree::expr::Expr::Binary(inner) => {
                    assert_eq!(inner.operator.token_type, TokenType::Star);
                }
                other => panic!("expected a product, got {other:?}"),
            }
        }
        other => panic!("expected a sum, got {other:?}"),
    }
}

#[test]
fn parses_grouping_and_unary() {
    let (tokens, _) = scan("-(1 + 2)");
    let mut parser = Parser::new(tokens);
    let expr = parser.parse().unwrap();
    match expr {
        rslox::tree::expr::Expr::Unary(u) => {
            assert_eq!(u.operator.token_type, TokenType::Minus);
            assert!(matches!(*u.right, rslox::tree::expr::Expr::Grouping(_)));
        }
        other => panic!("expected a negation, got {other:?}"),
    }
}

#[test]
fn parse_reports_the_original_failures() {
    let (tokens, _) = scan("(1 + 2");
    let mut parser = Parser::new(tokens);
    assert_eq!(parser.parse().unwrap_err(), "Expect ')' after expression.");
    let (tokens, _) = scan("+");
    let mut parser = Parser::new(tokens);
    assert_eq!(parser.parse().unwrap_err(), "Expect expression.");
}
