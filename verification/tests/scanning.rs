use rslox::compiler::number_literals;
use rslox::scanner::{Scanner, TokenType};
use rslox::value::{num_eq, num_gt, num_lt, num_neg};

fn kinds(source: &str) -> Vec<TokenType> {
    let mut scanner = Scanner::new(source);
    let mut out = Vec::new();
    loop {
        let t = scanner.scan_token();
        let k = t.token_type;
        out.push(k);
        if k == TokenType::EOF {
            return out;
        }
    }
}

#[test]
fn scans_punctuation_and_operators() {
    assert_eq!(
        kinds("( ) { } , . - + ; / * ! != = == > >= < <="),
        vec![
            TokenType::LeftParen,
            TokenType::RightParen,
            TokenType::LeftBrace,
            TokenType::RightBrace,
            TokenType::Comma,
            TokenType::Dot,
            TokenType::Minus,
            TokenType::Plus,
            TokenType::Semicolon,
            TokenType::Slash,
            TokenType::Star,
            TokenType::Bang,
            TokenType::BangEqual,
            TokenType::Equal,
            TokenType::EqualEqual,
            TokenType::Greater,
            TokenType::GreaterEqual,
            TokenType::Less,
            TokenType::LessEqual,
            TokenType::EOF,
        ]
    );
}

#[test]
fn scans_keywords_and_identifiers() {
    assert_eq!(
        kinds("and class else false for fun if nil or print return super this true var while andy"),
        vec![
            TokenType::And,
            TokenType::Class,
            TokenType::Else,
            TokenType::False,
            TokenType::For,
            TokenType::Fun,
            TokenType::If,
            TokenType::Nil,
            TokenType::Or,
            TokenType::Print,
            TokenType::Return,
            TokenType::Super,
            TokenType::This,
            TokenType::True,
            TokenType::Var,
            TokenType::While,
            TokenType::Identifier,
            TokenType::EOF,
        ]
    );
}

#[test]
fn scans_numbers_strings_and_comments() {
    assert_eq!(
        kinds("12 3.5 \"hi\" // comment\n7"),
        vec![
            TokenType::Number,
            TokenType::Number,
            TokenType::String,
            TokenType::Number,
            TokenType::EOF,
        ]
    );
}

#[test]
fn tracks_lines_and_lexemes() {
    let mut scanner = Scanner::new("1\n 2.5\n\"a\nb\"");
    let t1 = scanner.scan_token();
    assert_eq!((t1.token_type, t1.line, t1.lexeme), (TokenType::Number, 1, "1"));
    let t2 = scanner.scan_token();
    assert_eq!((t2.token_type, t2.line, t2.lexeme), (TokenType::Number, 2, "2.5"));
    let t3 = scanner.scan_token();
    // A multi-line string is reported at the line where it ends.
    assert_eq!((t3.token_type, t3.line, t3.lexeme), (TokenType::String, 4, "\"a\nb\""));
}

#[test]
fn error_tokens_carry_messages() {
    let mut scanner = Scanner::new("@");
    let t = scanner.scan_token();
    assert_eq!(t.token_type, TokenType::Error);
    assert_eq!(t.lexeme, "Unexpected character.");
    let mut scanner = Scanner::new("\"open");
    let t = scanner.scan_token();
    assert_eq!(t.token_type, TokenType::Error);
    assert_eq!(t.lexeme, "Unterminated string.");
}

#[test]
fn number_literals_in_order() {
    let ls = number_literals("1.5 + (2 * 30) - nope");
    assert_eq!(ls, vec!["1.5".to_string(), "2".to_string(), "30".to_string()]);
}

#[test]
fn bit_level_ops_agree_with_ieee() {
    let samples: Vec<f64> = vec![
        0.0,
        -0.0,
        1.0,
        -1.0,
        3.5,
        -3.5,
        f64::INFINITY,
        f64::NEG_INFINITY,
        f64::NAN,
        f64::MIN_POSITIVE,
        -f64::MIN_POSITIVE,
        1e308,
        -1e308,
    ];
    for &x in &samples {
        for &y in &samples {
            let (a, b) = (x.to_bits(), y.to_bits());
            assert_eq!(num_eq(a, b), x == y, "eq {x} {y}");
            assert_eq!(num_lt(a, b), x < y, "lt {x} {y}");
            assert_eq!(num_gt(a, b), x > y, "gt {x} {y}");
        }
        assert_eq!(f64::from_bits(num_neg(x.to_bits())).to_bits(), (-x).to_bits());
    }
}
