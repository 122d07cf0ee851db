//! The eager scanner of the tree-walking front end: walks the whole
//! source once and returns the token list, always terminated by an
//! end-of-input token. Unexpected characters and unterminated strings do
//! not stop the scan; they are collected as diagnostics for the host to
//! print.

use vstd::prelude::*;
use vstd::string::*;
use crate::tree::expr::Literal;
use crate::tree::token::{Token, TokenType};
use crate::tree::report;

verus! {

/// The scanner: the source as characters, the tokens gathered so far, the
/// bounds of the lexeme being scanned, a line counter, and the
/// diagnostics recorded so far.
pub struct Scanner {
    pub source: Vec<char>,
    pub tokens: Vec<Token>,
    pub start_index: usize,
    pub current_index: usize,
    pub line_num: usize,
    pub errors: Vec<String>,
}

impl Scanner {
    /// Cursor and counters are within bounds.
    pub open spec fn wf(self) -> bool {
        &&& self.start_index <= self.current_index <= self.source@.len()
        &&& self.line_num <= self.current_index
        &&& self.source@.len() < usize::MAX
    }

    /// A scanner at the beginning of `source`.
    pub fn new(source: Vec<char>) -> (r: Self)
        requires
            source@.len() < usize::MAX,
        ensures
            r.wf(),
            r.source@ == source@,
            r.tokens@.len() == 0,
            r.errors@.len() == 0,
            r.current_index == 0,
    {
        Scanner {
            source,
            tokens: Vec::new(),
            start_index: 0,
            current_index: 0,
            line_num: 0,
            errors: Vec::new(),
        }
    }

    /// Scans the whole source and returns its tokens, the last one always
    /// of the end-of-input kind. Diagnostics for unexpected characters
    /// and unterminated strings stay in `errors`.
    pub fn scan_tokens(&mut self) -> (r: Vec<Token>)
        requires
            old(self).wf(),
        ensures
            final(self).wf(),
            r@.len() >= 1,
            r@[r@.len() - 1].token_type == TokenType::Eof,
    {
        while !(self.current_index >= self.source.len())
            invariant
                self.wf(),
            decreases self.source@.len() - self.current_index,
        {
            // We are at the beginning of the next lexeme.
            self.start_index = self.current_index;
            self.scan_token();
        }
        let line_num = self.line_num;
        self.tokens.push(
            Token {
                token_type: TokenType::Eof,
                lexeme: Vec::new(),
                line_num,
                literal: Literal::Nil,
            },
        );
        let mut out: Vec<Token> = Vec::new();
        core::mem::swap(&mut out, &mut self.tokens);
        out
    }

    /// The whole source is consumed.
    fn is_at_end(&self) -> (r: bool)
        ensures
            r == (self.current_index >= self.source@.len()),
    {
        self.current_index >= self.source.len()
    }

    /// Consumes and returns one character.
    fn advance(&mut self) -> (c: char)
        requires
            old(self).wf(),
            old(self).current_index < old(self).source@.len(),
        ensures
            final(self).wf(),
            final(self).source == old(self).source,
            final(self).tokens == old(self).tokens,
            final(self).errors == old(self).errors,
            final(self).start_index == old(self).start_index,
            final(self).line_num == old(self).line_num,
            final(self).current_index == old(self).current_index + 1,
            c == old(self).source@[old(self).current_index as int],
    {
        let c = self.source[self.current_index];
        self.current_index = self.current_index + 1;
        c
    }

    /// Appends a token spanning the lexeme being scanned.
    fn add_token(&mut self, token_type: TokenType, literal: Literal)
        requires
            old(self).wf(),
        ensures
            final(self).wf(),
            final(self).source == old(self).source,
            final(self).errors == old(self).errors,
            final(self).start_index == old(self).start_index,
            final(self).current_index == old(self).current_index,
            final(self).line_num == old(self).line_num,
            final(self).tokens@.len() == old(self).tokens@.len() + 1,
    {
        let mut lexeme: Vec<char> = Vec::new();
        let mut i: usize = self.start_index;
        while i < self.current_index
            invariant
                self.wf(),
                old(self).start_index <= i <= self.current_index,
                self.source == old(self).source,
                self.start_index == old(self).start_index,
                self.current_index == old(self).current_index,
            decreases self.current_index - i,
        {
            let c = self.source[i];
            lexeme.push(c);
            i = i + 1;
        }
        let line_num = self.line_num;
        self.tokens.push(Token { token_type, lexeme, line_num, literal });
    }

    /// Scans one lexeme, consuming at least one character.
    fn scan_token(&mut self)
        requires
            old(self).wf(),
            old(self).current_index < old(self).source@.len(),
        ensures
            final(self).wf(),
            final(self).source == old(self).source,
            final(self).current_index > old(self).current_index,
    {
        let c = self.advance();
        match c {
            '(' => self.add_token(TokenType::LeftParen, Literal::Nil),
            ')' => self.add_token(TokenType::RightParen, Literal::Nil),
            '{' => self.add_token(TokenType::LeftBrace, Literal::Nil),
            '}' => self.add_token(TokenType::RightBrace, Literal::Nil),
            ',' => self.add_token(TokenType::Comma, Literal::Nil),
            '.' => self.add_token(TokenType::Dot, Literal::Nil),
            '-' => self.add_token(TokenType::Minus, Literal::Nil),
            '+' => self.add_token(TokenType::Plus, Literal::Nil),
            ';' => self.add_token(TokenType::Semicolon, Literal::Nil),
            '*' => self.add_token(TokenType::Star, Literal::Nil),
            '!' => {
                if self.match_char('=') {
                    self.add_token(TokenType::BangEqual, Literal::Nil);
                } else {
                    self.add_token(TokenType::Bang, Literal::Nil);
                }
            },
            '=' => {
                if self.match_char('=') {
                    self.add_token(TokenType::EqualEqual, Literal::Nil);
                } else {
                    self.add_token(TokenType::Equal, Literal::Nil);
                }
            },
            '<' => {
                if self.match_char('=') {
                    self.add_token(TokenType::LessEqual, Literal::Nil);
                } else {
                    self.add_token(TokenType::Less, Literal::Nil);
                }
            },
            '>' => {
                if self.match_char('=') {
                    self.add_token(TokenType::GreaterEqual, Literal::Nil);
                } else {
                    self.add_token(TokenType::Greater, Literal::Nil);
                }
            },
            '/' => {
                if self.match_char('/') {
                    // A comment goes until the end of the line.
                    while self.peek() != '\n' && !(self.current_index >= self.source.len())
                        invariant
                            self.wf(),
                            self.source == old(self).source,
                            self.current_index >= old(self).current_index,
                        decreases self.source@.len() - self.current_index,
                    {
                        self.advance();
                    }
                } else if self.match_char('*') {
                    self.block_comment();
                } else {
                    self.add_token(TokenType::Slash, Literal::Nil);
                }
            },
            ' ' | '\r' | '\t' => (),
            '\n' => {
                self.line_num = self.line_num + 1;
            },
            '"' => self.string(),
            c2 => {
                if c2 >= '0' && c2 <= '9' {
                    self.number();
                } else if (c2 >= 'a' && c2 <= 'z') || (c2 >= 'A' && c2 <= 'Z') || c2 == '_' {
                    self.identifier();
                } else {
                    let line_num = self.line_num;
                    let msg = report::error(line_num, "Unexpected character.");
                    self.errors.push(msg);
                }
            },
        }
    }

    /// Consumes the next character when it is `expected`.
    fn match_char(&mut self, expected: char) -> (r: bool)
        requires
            old(self).wf(),
        ensures
            final(self).wf(),
            final(self).source == old(self).source,
            final(self).tokens == old(self).tokens,
            final(self).errors == old(self).errors,
            final(self).start_index == old(self).start_index,
            final(self).line_num == old(self).line_num,
            final(self).current_index >= old(self).current_index,
            final(self).current_index <= old(self).current_index + 1,
    {
        if self.is_at_end() {
            return false;
        }
        if self.source[self.current_index] != expected {
            return false;
        }
        self.current_index = self.current_index + 1;
        true
    }

    /// The next character, or NUL at the end of input.
    fn peek(&self) -> (c: char)
        requires
            self.wf(),
        ensures
            c == (if self.current_index < self.source@.len() {
                self.source@[self.current_index as int]
            } else {
                '\u{0}'
            }),
            c != '\u{0}' ==> self.current_index < self.source@.len(),
    {
        if self.is_at_end() {
            '\u{0}'
        } else {
            self.source[self.current_index]
        }
    }

    /// The character after the next, or NUL.
    fn peek_next(&self) -> (c: char)
        requires
            self.wf(),
        ensures
            c != '\u{0}' ==> self.current_index + 1 < self.source@.len(),
    {
        if self.current_index + 1 >= self.source.len() {
            return '\u{0}';
        }
        self.source[self.current_index + 1]
    }

    /// Scans the remainder of a string literal; an unterminated one is a
    /// diagnostic, not a token.
    fn string(&mut self)
        requires
            old(self).wf(),
            old(self).current_index > old(self).start_index,
        ensures
            final(self).wf(),
            final(self).source == old(self).source,
            final(self).current_index >= old(self).current_index,
    {
        while self.peek() != '"' && !(self.current_index >= self.source.len())
            invariant
                self.wf(),
                self.source == old(self).source,
                self.current_index >= old(self).current_index,
                self.start_index == old(self).start_index,
            decreases self.source@.len() - self.current_index,
        {
            let c = self.peek();
            self.advance();
            if c == '\n' {
                self.line_num = self.line_num + 1;
            }
        }
        if self.is_at_end() {
            let line_num = self.line_num;
            let msg = report::error(line_num, "Unterminated string.");
            self.errors.push(msg);
            return ;
        }
        // the closing ".
        self.advance();
        // Trim the surrounding quotes.
        let mut text: Vec<char> = Vec::new();
        let mut i: usize = self.start_index + 1;
        while i + 1 < self.current_index
            invariant
                self.wf(),
                self.source == old(self).source,
                i <= self.current_index,
            decreases self.current_index - i,
        {
            let c = self.source[i];
            text.push(c);
            i = i + 1;
        }
        self.add_token(TokenType::Str, Literal::Str(text));
    }

    /// Scans the remainder of a number literal; its text is kept for the
    /// host to parse.
    fn number(&mut self)
        requires
            old(self).wf(),
        ensures
            final(self).wf(),
            final(self).source == old(self).source,
            final(self).current_index >= old(self).current_index,
    {
        while self.peek_is_digit()
            invariant
                self.wf(),
                self.source == old(self).source,
                self.current_index >= old(self).current_index,
            decreases self.source@.len() - self.current_index,
        {
            self.advance();
        }
        // Look for a fractional part.
        let p = self.peek();
        let pn = self.peek_next();
        if p == '.' && pn >= '0' && pn <= '9' {
            // Consume the "."
            self.advance();
            while self.peek_is_digit()
                invariant
                    self.wf(),
                    self.source == old(self).source,
                    self.current_index >= old(self).current_index,
                decreases self.source@.len() - self.current_index,
            {
                self.advance();
            }
        }
        let mut text: Vec<char> = Vec::new();
        let mut i: usize = self.start_index;
        while i < self.current_index
            invariant
                self.wf(),
                self.source == old(self).source,
            decreases self.current_index - i,
        {
            let c = self.source[i];
            text.push(c);
            i = i + 1;
        }
        self.add_token(TokenType::Number, Literal::Number(text));
    }

    /// The next character is a decimal digit.
    fn peek_is_digit(&self) -> (r: bool)
        requires
            self.wf(),
        ensures
            r ==> self.current_index < self.source@.len(),
    {
        if self.is_at_end() {
            false
        } else {
            let c = self.source[self.current_index];
            c >= '0' && c <= '9'
        }
    }

    /// Scans the remainder of an identifier or keyword.
    fn identifier(&mut self)
        requires
            old(self).wf(),
        ensures
            final(self).wf(),
            final(self).source == old(self).source,
            final(self).current_index >= old(self).current_index,
    {
        while self.peek_is_ident()
            invariant
                self.wf(),
                self.source == old(self).source,
                self.current_index >= old(self).current_index,
            decreases self.source@.len() - self.current_index,
        {
            self.advance();
        }
        let mut text: Vec<char> = Vec::new();
        let mut i: usize = self.start_index;
        while i < self.current_index
            invariant
                self.wf(),
                self.source == old(self).source,
            decreases self.current_index - i,
        {
            let c = self.source[i];
            text.push(c);
            i = i + 1;
        }
        let token_type = keyword_type(&text);
        self.add_token(token_type, Literal::Nil);
    }

    /// The next character may continue an identifier.
    fn peek_is_ident(&self) -> (r: bool)
        requires
            self.wf(),
        ensures
            r ==> self.current_index < self.source@.len(),
    {
        if self.is_at_end() {
            false
        } else {
            let c = self.source[self.current_index];
            (c >= 'a' && c <= 'z') || (c >= 'A' && c <= 'Z') || c == '_' || (c >= '0' && c <= '9')
        }
    }

    /// Skips a block comment, which may nest.
    fn block_comment(&mut self)
        requires
            old(self).wf(),
        ensures
            final(self).wf(),
            final(self).source == old(self).source,
            final(self).current_index >= old(self).current_index,
        decreases old(self).source@.len() - old(self).current_index, 0int,
    {
        while !(self.current_index >= self.source.len())
            invariant
                self.wf(),
                self.source == old(self).source,
                self.current_index >= old(self).current_index,
            decreases self.source@.len() - self.current_index,
        {
            let c = self.advance();
            match c {
                '*' => {
                    // end
                    if self.match_char('/') {
                        return ;
                    }
                },
                '/' => {
                    // start
                    if self.match_char('*') {
                        self.block_comment();
                    }
                },
                '\n' => {
                    self.line_num = self.line_num + 1;
                },
                _ => (),
            }
        }
    }
}

/// The keyword kind of an identifier's text, `Identifier` when it is no
/// reserved word.
pub fn keyword_type(text: &Vec<char>) -> (r: TokenType)
{
    if eq_chars(text, "and") {
        TokenType::And
    } else if eq_chars(text, "class") {
        TokenType::Class
    } else if eq_chars(text, "else") {
        TokenType::Else
    } else if eq_chars(text, "false") {
        TokenType::False
    } else if eq_chars(text, "for") {
        TokenType::For
    } else if eq_chars(text, "fun") {
        TokenType::Fun
    } else if eq_chars(text, "if") {
        TokenType::If
    } else if eq_chars(text, "nil") {
        TokenType::Nil
    } else if eq_chars(text, "or") {
        TokenType::Or
    } else if eq_chars(text, "print") {
        TokenType::Print
    } else if eq_chars(text, "return") {
        TokenType::Return
    } else if eq_chars(text, "super") {
        TokenType::Super
    } else if eq_chars(text, "this") {
        TokenType::This
    } else if eq_chars(text, "true") {
        TokenType::True
    } else if eq_chars(text, "var") {
        TokenType::Var
    } else if eq_chars(text, "while") {
        TokenType::While
    } else {
        TokenType::Identifier
    }
}

/// The characters equal the text of `s`.
pub fn eq_chars(text: &Vec<char>, s: &str) -> (r: bool)
    ensures
        r == (text@ == s@),
{
    let n = s.unicode_len();
    if text.len() != n {
        proof {
            assert(text@ != s@);
        }
        return false;
    }
    let mut i: usize = 0;
    while i < n
        invariant
            n == s@.len(),
            text@.len() == n,
            i <= n,
            forall|j: int| 0 <= j < i ==> text@[j] == s@[j],
        decreases n - i,
    {
        if text[i] != s.get_char(i) {
            return false;
        }
        i = i + 1;
    }
    proof {
        assert(text@ =~= s@);
    }
    true
}

} // verus!
