//! The lexer of the bytecode pipeline: turns source text into a lazy
//! sequence of tokens, skipping whitespace and line comments. The
//! specification side models the token at any position of the source as a
//! pure function of the text, and `scan_token` is proved to produce it.

use vstd::prelude::*;
use vstd::string::*;

verus! {

/// The kind of a token.
#[derive(Default, Debug, PartialEq, Eq, Clone, Copy, Hash, Structural)]
pub enum TokenType {
    // Single-character tokens.
    LeftParen,
    RightParen,
    LeftBrace,
    RightBrace,
    Comma,
    Dot,
    Minus,
    Plus,
    Semicolon,
    Slash,
    Star,
    // One or two character tokens.
    Bang,
    BangEqual,
    Equal,
    EqualEqual,
    Greater,
    GreaterEqual,
    Less,
    LessEqual,
    // Literals.
    Identifier,
    String,
    Number,
    // Keywords.
    And,
    Class,
    Else,
    False,
    For,
    Fun,
    If,
    Nil,
    Or,
    Print,
    Return,
    Super,
    This,
    True,
    Var,
    While,
    Error,
    #[default]
    EOF,
}

/// A token: its kind, the line it came from, and its text. For error
/// tokens the text is the diagnostic message instead of a source slice.
#[derive(Clone, Copy)]
pub struct Token<'a> {
    pub token_type: TokenType,
    pub line: usize,
    pub lexeme: &'a str,
}

/// The character at position `p`, with the NUL character standing for any
/// position outside the text, exactly as the scanner's own cursor sees it.
pub open spec fn char_at(src: Seq<char>, p: int) -> char {
    if 0 <= p < src.len() {
        src[p]
    } else {
        '\u{0}'
    }
}

/// The scanner is at the end of input: past the text, or at an embedded
/// NUL character, which it treats as a terminator.
pub open spec fn at_end(src: Seq<char>, p: int) -> bool {
    char_at(src, p) == '\u{0}'
}

/// An ASCII decimal digit.
pub open spec fn is_digit_c(c: char) -> bool {
    '0' <= c && c <= '9'
}

/// A letter or underscore, the characters that may begin an identifier.
pub open spec fn is_alpha_c(c: char) -> bool {
    ('a' <= c && c <= 'z') || ('A' <= c && c <= 'Z') || c == '_'
}

/// Position and line after skipping whitespace and line comments from `p`.
/// With `in_comment`, the scan is inside a line comment and consumes
/// everything up to the next newline, which it leaves in place.
pub open spec fn ws_end(src: Seq<char>, p: int, line: int, in_comment: bool) -> (int, int)
    decreases src.len() - p, (if in_comment {
        1int
    } else {
        0int
    }),
{
    if p < 0 || p >= src.len() {
        (p, line)
    } else if in_comment {
        if char_at(src, p) == '\u{0}' || char_at(src, p) == '\n' {
            ws_end(src, p, line, false)
        } else {
            ws_end(src, p + 1, line, true)
        }
    } else {
        let c = char_at(src, p);
        if c == ' ' || c == '\r' || c == '\t' {
            ws_end(src, p + 1, line, false)
        } else if c == '\n' {
            ws_end(src, p + 1, line + 1, false)
        } else if c == '/' && char_at(src, p + 1) == '/' {
            ws_end(src, p + 2, line, true)
        } else {
            (p, line)
        }
    }
}

/// End of a run of identifier characters starting at `p`.
pub open spec fn ident_end(src: Seq<char>, p: int) -> int
    decreases src.len() - p,
{
    if 0 <= p < src.len() && (is_alpha_c(src[p]) || is_digit_c(src[p])) && src[p] != '\u{0}' {
        ident_end(src, p + 1)
    } else {
        p
    }
}

/// End of a run of decimal digits starting at `p`.
pub open spec fn digits_end(src: Seq<char>, p: int) -> int
    decreases src.len() - p,
{
    if 0 <= p < src.len() && is_digit_c(src[p]) {
        digits_end(src, p + 1)
    } else {
        p
    }
}

/// First position at or after `p` holding a closing quote or the end of
/// input.
pub open spec fn str_end(src: Seq<char>, p: int) -> int
    decreases src.len() - p,
{
    if 0 <= p < src.len() && src[p] != '"' && src[p] != '\u{0}' {
        str_end(src, p + 1)
    } else {
        p
    }
}

/// Number of newline characters in `src[a..b]`.
pub open spec fn newlines(src: Seq<char>, a: int, b: int) -> int
    decreases b - a,
{
    if a < b {
        (if char_at(src, a) == '\n' {
            1int
        } else {
            0int
        }) + newlines(src, a + 1, b)
    } else {
        0
    }
}

/// The lexeme from `start` on equals `rest`, and nothing follows it: then
/// the keyword kind `tt`, else a plain identifier.
pub open spec fn kw(lex: Seq<char>, start: int, rest: Seq<char>, tt: TokenType) -> TokenType {
    if lex.len() == start + rest.len() && lex.subrange(start, start + rest.len()) == rest {
        tt
    } else {
        TokenType::Identifier
    }
}

/// The keyword kind of an identifier lexeme, `Identifier` when it is none
/// of the fixed reserved words.
pub open spec fn keyword_kind(lex: Seq<char>) -> TokenType {
    let n = lex.len() as int;
    let c0 = if n > 0 {
        lex[0]
    } else {
        '\u{0}'
    };
    if c0 == 'a' {
        kw(lex, 1, "nd"@, TokenType::And)
    } else if c0 == 'c' {
        kw(lex, 1, "lass"@, TokenType::Class)
    } else if c0 == 'e' {
        kw(lex, 1, "lse"@, TokenType::Else)
    } else if c0 == 'f' {
        if n > 1 && lex[1] == 'a' {
            kw(lex, 2, "lse"@, TokenType::False)
        } else if n > 1 && lex[1] == 'o' {
            kw(lex, 2, "r"@, TokenType::For)
        } else if n > 1 && lex[1] == 'u' {
            kw(lex, 2, "n"@, TokenType::Fun)
        } else {
            TokenType::Identifier
        }
    } else if c0 == 'i' {
        kw(lex, 1, "f"@, TokenType::If)
    } else if c0 == 'n' {
        kw(lex, 1, "il"@, TokenType::Nil)
    } else if c0 == 'o' {
        kw(lex, 1, "r"@, TokenType::Or)
    } else if c0 == 'p' {
        kw(lex, 1, "rint"@, TokenType::Print)
    } else if c0 == 'r' {
        kw(lex, 1, "eturn"@, TokenType::Return)
    } else if c0 == 's' {
        kw(lex, 1, "uper"@, TokenType::Super)
    } else if c0 == 't' {
        if n > 1 && lex[1] == 'h' {
            kw(lex, 2, "is"@, TokenType::This)
        } else if n > 1 && lex[1] == 'r' {
            kw(lex, 2, "ue"@, TokenType::True)
        } else {
            TokenType::Identifier
        }
    } else if c0 == 'v' {
        kw(lex, 1, "ar"@, TokenType::Var)
    } else if c0 == 'w' {
        kw(lex, 1, "hile"@, TokenType::While)
    } else {
        TokenType::Identifier
    }
}

/// A token as the specification sees it: kind, text, reported line, the
/// cursor position after it, and the line counter after it.
pub struct SpecTok {
    pub kind: TokenType,
    pub lexeme: Seq<char>,
    pub line: int,
    pub end: int,
    pub line_after: int,
}

/// The token that scanning from position `pos` on line `line` yields.
pub open spec fn scan_spec(src: Seq<char>, pos: int, line: int) -> SpecTok {
    let (p, l) = ws_end(src, pos, line, false);
    let c = char_at(src, p);
    if c == '\u{0}' {
        SpecTok { kind: TokenType::EOF, lexeme: src.subrange(p, p), line: l, end: p, line_after: l }
    } else if is_alpha_c(c) {
        let e = ident_end(src, p + 1);
        SpecTok {
            kind: keyword_kind(src.subrange(p, e)),
            lexeme: src.subrange(p, e),
            line: l,
            end: e,
            line_after: l,
        }
    } else if is_digit_c(c) {
        let d1 = digits_end(src, p + 1);
        let e = if char_at(src, d1) == '.' && is_digit_c(char_at(src, d1 + 1)) {
            digits_end(src, d1 + 1)
        } else {
            d1
        };
        SpecTok {
            kind: TokenType::Number,
            lexeme: src.subrange(p, e),
            line: l,
            end: e,
            line_after: l,
        }
    } else if c == '"' {
        let e = str_end(src, p + 1);
        let l2 = l + newlines(src, p + 1, e);
        if at_end(src, e) {
            SpecTok {
                kind: TokenType::Error,
                lexeme: "Unterminated string."@,
                line: l2,
                end: e,
                line_after: l2,
            }
        } else {
            SpecTok {
                kind: TokenType::String,
                lexeme: src.subrange(p, e + 1),
                line: l2,
                end: e + 1,
                line_after: l2,
            }
        }
    } else {
        let two = char_at(src, p + 1) == '=';
        let (kind, w) = if c == '(' {
            (TokenType::LeftParen, 1int)
        } else if c == ')' {
            (TokenType::RightParen, 1int)
        } else if c == '{' {
            (TokenType::LeftBrace, 1int)
        } else if c == '}' {
            (TokenType::RightBrace, 1int)
        } else if c == ';' {
            (TokenType::Semicolon, 1int)
        } else if c == ',' {
            (TokenType::Comma, 1int)
        } else if c == '.' {
            (TokenType::Dot, 1int)
        } else if c == '-' {
            (TokenType::Minus, 1int)
        } else if c == '+' {
            (TokenType::Plus, 1int)
        } else if c == '/' {
            (TokenType::Slash, 1int)
        } else if c == '*' {
            (TokenType::Star, 1int)
        } else if c == '!' {
            if two {
                (TokenType::BangEqual, 2int)
            } else {
                (TokenType::Bang, 1int)
            }
        } else if c == '=' {
            if two {
                (TokenType::EqualEqual, 2int)
            } else {
                (TokenType::Equal, 1int)
            }
        } else if c == '<' {
            if two {
                (TokenType::LessEqual, 2int)
            } else {
                (TokenType::Less, 1int)
            }
        } else if c == '>' {
            if two {
                (TokenType::GreaterEqual, 2int)
            } else {
                (TokenType::Greater, 1int)
            }
        } else {
            (TokenType::Error, 1int)
        };
        if kind == TokenType::Error {
            SpecTok {
                kind: TokenType::Error,
                lexeme: "Unexpected character."@,
                line: l,
                end: p + 1,
                line_after: l,
            }
        } else {
            SpecTok { kind, lexeme: src.subrange(p, p + w), line: l, end: p + w, line_after: l }
        }
    }
}

/// The lexer: a cursor over the source text, the start of the token being
/// scanned, and a line counter.
pub struct Scanner<'a> {
    pub source: &'a str,
    pub len: usize,
    pub start: usize,
    pub current: usize,
    pub line: usize,
}

impl<'a> Scanner<'a> {
    /// The scanner's cursor and counters are within bounds.
    pub open spec fn wf(self) -> bool {
        &&& self.len == self.source@.len()
        &&& self.start <= self.current <= self.len
        &&& 1 <= self.line <= self.current + 1
        &&& self.source@.len() < usize::MAX
    }

    /// The text being scanned.
    pub open spec fn src(self) -> Seq<char> {
        self.source@
    }

    /// The cursor position.
    pub open spec fn pos(self) -> int {
        self.current as int
    }

    /// The start of the token being scanned.
    pub open spec fn tok_start(self) -> int {
        self.start as int
    }

    /// The current line.
    pub open spec fn line_no(self) -> int {
        self.line as int
    }

    /// A scanner at the beginning of `source`, on line 1.
    pub fn new(source: &'a str) -> (r: Self)
        requires
            source@.len() < usize::MAX,
        ensures
            r.wf(),
            r.src() == source@,
            r.pos() == 0,
            r.line_no() == 1,
    {
        let len = source.unicode_len();
        Scanner { source, len, start: 0, current: 0, line: 1 }
    }

    /// The character at position `i`, NUL outside the text.
    fn char_at(&self, i: usize) -> (c: char)
        requires
            self.wf(),
        ensures
            c == char_at(self.src(), i as int),
    {
        if i < self.len {
            self.source.get_char(i)
        } else {
            '\u{0}'
        }
    }

    /// The scanner is at the end of input.
    fn is_at_end(&self) -> (r: bool)
        requires
            self.wf(),
        ensures
            r == at_end(self.src(), self.pos()),
    {
        self.char_at(self.current) == '\u{0}'
    }

    /// A token of the given kind spanning the text scanned so far.
    fn make_token(&self, token_type: TokenType) -> (r: Token<'a>)
        requires
            self.wf(),
        ensures
            r.token_type == token_type,
            r.line == self.line,
            r.lexeme@ == self.src().subrange(self.tok_start(), self.pos()),
    {
        Token {
            token_type,
            line: self.line,
            lexeme: self.source.substring_char(self.start, self.current),
        }
    }

    /// An error token carrying a diagnostic message as its text.
    fn error_token(&self, message: &'static str) -> (r: Token<'a>)
        requires
            self.wf(),
        ensures
            r.token_type == TokenType::Error,
            r.line == self.line,
            r.lexeme@ == message@,
    {
        Token { token_type: TokenType::Error, line: self.line, lexeme: message }
    }

    /// Consumes and returns one character.
    fn advance(&mut self) -> (c: char)
        requires
            old(self).wf(),
            !at_end(old(self).src(), old(self).pos()),
        ensures
            final(self).wf(),
            final(self).source == old(self).source,
            final(self).len == old(self).len,
            final(self).start == old(self).start,
            final(self).line == old(self).line,
            final(self).current == old(self).current + 1,
            c == char_at(old(self).src(), old(self).pos()),
    {
        self.current = self.current + 1;
        self.char_at(self.current - 1)
    }

    /// Consumes the next character when it is `expected`.
    fn match_char(&mut self, expected: char) -> (r: bool)
        requires
            old(self).wf(),
            expected != '\u{0}',
        ensures
            final(self).wf(),
            final(self).source == old(self).source,
            final(self).len == old(self).len,
            final(self).start == old(self).start,
            final(self).line == old(self).line,
            r == (char_at(old(self).src(), old(self).pos()) == expected),
            final(self).current == old(self).current + (if r {
                1int
            } else {
                0int
            }),
    {
        if self.is_at_end() {
            return false;
        }
        if self.char_at(self.current) != expected {
            return false;
        }
        self.current = self.current + 1;
        true
    }

    /// The next character, without consuming it.
    fn peek(&self) -> (c: char)
        requires
            self.wf(),
        ensures
            c == char_at(self.src(), self.pos()),
    {
        self.char_at(self.current)
    }

    /// The character after the next one, without consuming anything.
    fn peek_next(&self) -> (c: char)
        requires
            self.wf(),
        ensures
            c == (if at_end(self.src(), self.pos()) {
                '\u{0}'
            } else {
                char_at(self.src(), self.pos() + 1)
            }),
    {
        if self.is_at_end() {
            return '\u{0}';
        }
        self.char_at(self.current + 1)
    }

    /// An ASCII decimal digit.
    fn is_digit(&self, c: char) -> (r: bool)
        ensures
            r == is_digit_c(c),
    {
        c >= '0' && c <= '9'
    }

    /// A letter or underscore.
    fn is_alpha(&self, c: char) -> (r: bool)
        ensures
            r == is_alpha_c(c),
    {
        (c >= 'a' && c <= 'z') || (c >= 'A' && c <= 'Z') || c == '_'
    }

    /// The next character is a decimal digit.
    fn peek_is_digit(&self) -> (r: bool)
        requires
            self.wf(),
        ensures
            r == is_digit_c(char_at(self.src(), self.pos())),
    {
        let c = self.peek();
        self.is_digit(c)
    }

    /// The next character may continue an identifier.
    fn peek_is_ident(&self) -> (r: bool)
        requires
            self.wf(),
        ensures
            r == (is_alpha_c(char_at(self.src(), self.pos())) || is_digit_c(
                char_at(self.src(), self.pos()),
            )),
    {
        let c = self.peek();
        let a = self.is_alpha(c);
        let d = self.is_digit(c);
        a || d
    }

    /// Skips whitespace and line comments, advancing the line counter on
    /// each newline.
    fn skip_whitespace(&mut self)
        requires
            old(self).wf(),
        ensures
            final(self).wf(),
            final(self).source == old(self).source,
            final(self).len == old(self).len,
            final(self).start == old(self).start,
            (final(self).current as int, final(self).line as int) == ws_end(
                old(self).src(),
                old(self).pos(),
                old(self).line_no(),
                false,
            ),
    {
        loop
            invariant
                self.wf(),
                self.source == old(self).source,
                self.len == old(self).len,
                self.start == old(self).start,
                ws_end(self.src(), self.pos(), self.line_no(), false) == ws_end(
                    old(self).src(),
                    old(self).pos(),
                    old(self).line_no(),
                    false,
                ),
            decreases self.src().len() - self.pos(),
        {
            let c = self.peek();
            if c == ' ' || c == '\r' || c == '\t' {
                self.advance();
            } else if c == '\n' {
                self.advance();
                self.line = self.line + 1;
            } else if c == '/' {
                if self.peek_next() == '/' {
                    proof {
                        assert(ws_end(self.src(), self.pos(), self.line_no(), false) == ws_end(
                            self.src(),
                            self.pos() + 2,
                            self.line_no(),
                            true,
                        ));
                        assert(ws_end(self.src(), self.pos(), self.line_no(), true) == ws_end(
                            self.src(),
                            self.pos() + 1,
                            self.line_no(),
                            true,
                        ));
                        assert(ws_end(self.src(), self.pos() + 1, self.line_no(), true) == ws_end(
                            self.src(),
                            self.pos() + 2,
                            self.line_no(),
                            true,
                        ));
                    }
                    let ghost entered: int = self.pos();
                    // A comment goes until the end of the line.
                    while self.peek() != '\n' && !self.is_at_end()
                        invariant
                            self.wf(),
                            self.source == old(self).source,
                            self.len == old(self).len,
                            self.start == old(self).start,
                            entered <= self.pos(),
                            entered < self.src().len(),
                            char_at(self.src(), entered) == '/',
                            ws_end(self.src(), self.pos(), self.line_no(), true) == ws_end(
                                old(self).src(),
                                old(self).pos(),
                                old(self).line_no(),
                                false,
                            ),
                        decreases self.src().len() - self.pos(),
                    {
                        self.advance();
                    }
                    proof {
                        assert(self.pos() > entered);
                        assert(ws_end(self.src(), self.pos(), self.line_no(), true) == ws_end(
                            self.src(),
                            self.pos(),
                            self.line_no(),
                            false,
                        ));
                    }
                } else {
                    return;
                }
            } else {
                return;
            }
        }
    }

    /// Scans the remainder of a string literal, the opening quote already
    /// consumed; an unterminated one yields an error token.
    fn string(&mut self) -> (r: Token<'a>)
        requires
            old(self).wf(),
        ensures
            final(self).wf(),
            final(self).source == old(self).source,
            final(self).len == old(self).len,
            final(self).start == old(self).start,
            ({
                let e = str_end(old(self).src(), old(self).pos());
                let l2 = old(self).line_no() + newlines(old(self).src(), old(self).pos(), e);
                &&& final(self).line as int == l2
                &&& r.line as int == l2
                &&& if at_end(old(self).src(), e) {
                    &&& final(self).current as int == e
                    &&& r.token_type == TokenType::Error
                    &&& r.lexeme@ == "Unterminated string."@
                } else {
                    &&& final(self).current as int == e + 1
                    &&& r.token_type == TokenType::String
                    &&& r.lexeme@ == old(self).src().subrange(old(self).tok_start(), e + 1)
                }
            }),
    {
        let ghost e = str_end(old(self).src(), old(self).pos());
        proof {
            lemma_str_end_ge(self.src(), self.pos());
        }
        while self.peek() != '"' && !self.is_at_end()
            invariant
                self.wf(),
                self.source == old(self).source,
                self.len == old(self).len,
                self.start == old(self).start,
                e == str_end(self.src(), self.pos()),
                self.pos() <= e,
                self.line_no() + newlines(self.src(), self.pos(), e) == old(self).line_no()
                    + newlines(old(self).src(), old(self).pos(), e),
            decreases self.src().len() - self.pos(),
        {
            proof {
                lemma_str_end_ge(self.src(), self.pos() + 1);
            }
            let c = self.peek();
            self.advance();
            if c == '\n' {
                self.line = self.line + 1;
            }
        }
        proof {
            assert(self.pos() == e);
        }
        if self.is_at_end() {
            return self.error_token("Unterminated string.");
        }
        // The closing quote.
        self.advance();
        self.make_token(TokenType::String)
    }

    /// Scans the remainder of a number literal: more digits, then an
    /// optional fraction introduced by a dot followed by a digit.
    fn number(&mut self) -> (r: Token<'a>)
        requires
            old(self).wf(),
        ensures
            final(self).wf(),
            final(self).source == old(self).source,
            final(self).len == old(self).len,
            final(self).start == old(self).start,
            final(self).line == old(self).line,
            ({
                let d1 = digits_end(old(self).src(), old(self).pos());
                let e = if char_at(old(self).src(), d1) == '.' && is_digit_c(
                    char_at(old(self).src(), d1 + 1),
                ) {
                    digits_end(old(self).src(), d1 + 1)
                } else {
                    d1
                };
                &&& final(self).current as int == e
                &&& r.token_type == TokenType::Number
                &&& r.line == old(self).line
                &&& r.lexeme@ == old(self).src().subrange(old(self).tok_start(), e)
            }),
    {
        let ghost d1 = digits_end(old(self).src(), old(self).pos());
        proof {
            lemma_digits_end_ge(self.src(), self.pos());
        }
        while self.peek_is_digit()
            invariant
                self.wf(),
                self.source == old(self).source,
                self.len == old(self).len,
                self.start == old(self).start,
                self.line == old(self).line,
                d1 == digits_end(self.src(), self.pos()),
                self.pos() <= d1,
            decreases self.src().len() - self.pos(),
        {
            proof {
                lemma_digits_end_ge(self.src(), self.pos() + 1);
            }
            self.advance();
        }
        proof {
            assert(self.pos() == d1);
        }
        // Look for a fractional part.
        let p = self.peek();
        let pn = self.peek_next();
        if p == '.' && self.is_digit(pn) {
            // Consume the ".".
            self.advance();
            let ghost e = digits_end(old(self).src(), d1 + 1);
            proof {
                lemma_digits_end_ge(self.src(), self.pos());
            }
            while self.peek_is_digit()
                invariant
                    self.wf(),
                    self.source == old(self).source,
                    self.len == old(self).len,
                    self.start == old(self).start,
                    self.line == old(self).line,
                    e == digits_end(self.src(), self.pos()),
                    self.pos() <= e,
                decreases self.src().len() - self.pos(),
            {
                proof {
                    lemma_digits_end_ge(self.src(), self.pos() + 1);
                }
                self.advance();
            }
            proof {
                assert(self.pos() == e);
            }
        }
        self.make_token(TokenType::Number)
    }

    /// Scans the remainder of an identifier and classifies it.
    fn identifier(&mut self) -> (r: Token<'a>)
        requires
            old(self).wf(),
        ensures
            final(self).wf(),
            final(self).source == old(self).source,
            final(self).len == old(self).len,
            final(self).start == old(self).start,
            final(self).line == old(self).line,
            ({
                let e = ident_end(old(self).src(), old(self).pos());
                &&& final(self).current as int == e
                &&& r.token_type == keyword_kind(
                    old(self).src().subrange(old(self).tok_start(), e),
                )
                &&& r.line == old(self).line
                &&& r.lexeme@ == old(self).src().subrange(old(self).tok_start(), e)
            }),
    {
        let ghost e = ident_end(old(self).src(), old(self).pos());
        proof {
            lemma_ident_end_ge(self.src(), self.pos());
        }
        while self.peek_is_ident()
            invariant
                self.wf(),
                self.source == old(self).source,
                self.len == old(self).len,
                self.start == old(self).start,
                self.line == old(self).line,
                e == ident_end(self.src(), self.pos()),
                self.pos() <= e,
            decreases self.src().len() - self.pos(),
        {
            proof {
                lemma_ident_end_ge(self.src(), self.pos() + 1);
            }
            self.advance();
        }
        proof {
            assert(self.pos() == e);
        }
        let token_type = self.identifier_type();
        self.make_token(token_type)
    }

    /// Classifies the text scanned so far as a keyword or an identifier.
    fn identifier_type(&self) -> (r: TokenType)
        requires
            self.wf(),
        ensures
            r == keyword_kind(self.src().subrange(self.tok_start(), self.pos())),
    {
        proof {
            reveal_strlit("nd");
            reveal_strlit("lass");
            reveal_strlit("lse");
            reveal_strlit("r");
            reveal_strlit("n");
            reveal_strlit("f");
            reveal_strlit("il");
            reveal_strlit("rint");
            reveal_strlit("eturn");
            reveal_strlit("uper");
            reveal_strlit("is");
            reveal_strlit("ue");
            reveal_strlit("ar");
            reveal_strlit("hile");
        }
        match self.char_at(self.start) {
            'a' => self.check_keyword(1, 2, "nd", TokenType::And),
            'c' => self.check_keyword(1, 4, "lass", TokenType::Class),
            'e' => self.check_keyword(1, 3, "lse", TokenType::Else),
            'f' => {
                if self.current - self.start > 1 {
                    match self.char_at(self.start + 1) {
                        'a' => self.check_keyword(2, 3, "lse", TokenType::False),
                        'o' => self.check_keyword(2, 1, "r", TokenType::For),
                        'u' => self.check_keyword(2, 1, "n", TokenType::Fun),
                        _ => TokenType::Identifier,
                    }
                } else {
                    TokenType::Identifier
                }
            },
            'i' => self.check_keyword(1, 1, "f", TokenType::If),
            'n' => self.check_keyword(1, 2, "il", TokenType::Nil),
            'o' => self.check_keyword(1, 1, "r", TokenType::Or),
            'p' => self.check_keyword(1, 4, "rint", TokenType::Print),
            'r' => self.check_keyword(1, 5, "eturn", TokenType::Return),
            's' => self.check_keyword(1, 4, "uper", TokenType::Super),
            't' => {
                if self.current - self.start > 1 {
                    match self.char_at(self.start + 1) {
                        'h' => self.check_keyword(2, 2, "is", TokenType::This),
                        'r' => self.check_keyword(2, 2, "ue", TokenType::True),
                        _ => TokenType::Identifier,
                    }
                } else {
                    TokenType::Identifier
                }
            },
            'v' => self.check_keyword(1, 2, "ar", TokenType::Var),
            'w' => self.check_keyword(1, 4, "hile", TokenType::While),
            _ => TokenType::Identifier,
        }
    }

    /// Compares the tail of the text scanned so far against the rest of a
    /// keyword.
    fn check_keyword(
        &self,
        start: usize,
        length: usize,
        rest: &str,
        token_type: TokenType,
    ) -> (r: TokenType)
        requires
            self.wf(),
            rest@.len() == length,
            start + length < usize::MAX,
            token_type != TokenType::Identifier,
        ensures
            r == kw(
                self.src().subrange(self.tok_start(), self.pos()),
                start as int,
                rest@,
                token_type,
            ),
    {
        let ghost lex = self.src().subrange(self.tok_start(), self.pos());
        if self.current - self.start == start + length {
            let mut i: usize = 0;
            let mut ok = true;
            while i < length
                invariant
                    self.wf(),
                    rest@.len() == length,
                    i <= length,
                    self.current - self.start == start + length,
                    lex == self.src().subrange(self.tok_start(), self.pos()),
                    ok <==> (forall|j: int|
                        0 <= j < i ==> char_at(self.src(), self.tok_start() + start + j)
                            == rest@[j]),
                decreases length - i,
            {
                let a = self.char_at(self.start + start + i);
                let b = rest.get_char(i);
                if a != b {
                    ok = false;
                }
                i = i + 1;
            }
            if ok {
                proof {
                    assert(lex.subrange(start as int, start + length as int) =~= rest@);
                }
                token_type
            } else {
                proof {
                    assert(lex.subrange(start as int, start + length as int) != rest@) by {
                        let j = choose|j: int|
                            !(0 <= j < length ==> char_at(
                                self.src(),
                                self.tok_start() + start + j,
                            ) == rest@[j]);
                        assert(lex.subrange(start as int, start + length as int)[j] != rest@[j]);
                    }
                }
                TokenType::Identifier
            }
        } else {
            TokenType::Identifier
        }
    }

    /// Scans and returns the next token of the source text.
    pub fn scan_token(&mut self) -> (r: Token<'a>)
        requires
            old(self).wf(),
        ensures
            final(self).wf(),
            final(self).source == old(self).source,
            final(self).len == old(self).len,
            ({
                let st = scan_spec(old(self).src(), old(self).pos(), old(self).line_no());
                &&& final(self).current as int == st.end
                &&& final(self).line as int == st.line_after
                &&& r.token_type == st.kind
                &&& r.line as int == st.line
                &&& r.lexeme@ == st.lexeme
            }),
    {
        self.skip_whitespace();
        self.start = self.current;
        if self.is_at_end() {
            return self.make_token(TokenType::EOF);
        }
        let c = self.advance();
        if self.is_alpha(c) {
            return self.identifier();
        }
        if self.is_digit(c) {
            return self.number();
        }
        match c {
            '(' => return self.make_token(TokenType::LeftParen),
            ')' => return self.make_token(TokenType::RightParen),
            '{' => return self.make_token(TokenType::LeftBrace),
            '}' => return self.make_token(TokenType::RightBrace),
            ';' => return self.make_token(TokenType::Semicolon),
            ',' => return self.make_token(TokenType::Comma),
            '.' => return self.make_token(TokenType::Dot),
            '-' => return self.make_token(TokenType::Minus),
            '+' => return self.make_token(TokenType::Plus),
            '/' => return self.make_token(TokenType::Slash),
            '*' => return self.make_token(TokenType::Star),
            '!' => {
                let token_type = if self.match_char('=') {
                    TokenType::BangEqual
                } else {
                    TokenType::Bang
                };
                return self.make_token(token_type);
            },
            '=' => {
                let token_type = if self.match_char('=') {
                    TokenType::EqualEqual
                } else {
                    TokenType::Equal
                };
                return self.make_token(token_type);
            },
            '<' => {
                let token_type = if self.match_char('=') {
                    TokenType::LessEqual
                } else {
                    TokenType::Less
                };
                return self.make_token(token_type);
            },
            '>' => {
                let token_type = if self.match_char('=') {
                    TokenType::GreaterEqual
                } else {
                    TokenType::Greater
                };
                return self.make_token(token_type);
            },
            '"' => return self.string(),
            _ => {},
        }
        self.error_token("Unexpected character.")
    }
}

/// The end of a string-literal scan lies at or after its start.
pub proof fn lemma_str_end_ge(src: Seq<char>, p: int)
    ensures
        str_end(src, p) >= p,
        p <= src.len() ==> str_end(src, p) <= src.len(),
    decreases src.len() - p,
{
    if 0 <= p < src.len() && src[p] != '"' && src[p] != '\u{0}' {
        lemma_str_end_ge(src, p + 1);
    }
}

/// The end of a digit run lies at or after its start.
pub proof fn lemma_digits_end_ge(src: Seq<char>, p: int)
    ensures
        digits_end(src, p) >= p,
        p <= src.len() ==> digits_end(src, p) <= src.len(),
    decreases src.len() - p,
{
    if 0 <= p < src.len() && is_digit_c(src[p]) {
        lemma_digits_end_ge(src, p + 1);
    }
}

/// The end of an identifier run lies at or after its start.
pub proof fn lemma_ident_end_ge(src: Seq<char>, p: int)
    ensures
        ident_end(src, p) >= p,
        p <= src.len() ==> ident_end(src, p) <= src.len(),
    decreases src.len() - p,
{
    if 0 <= p < src.len() && (is_alpha_c(src[p]) || is_digit_c(src[p])) && src[p] != '\u{0}' {
        lemma_ident_end_ge(src, p + 1);
    }
}

/// A range of text holds at most one newline per character.
pub proof fn lemma_newlines_bound(src: Seq<char>, a: int, b: int)
    ensures
        0 <= newlines(src, a, b),
        a <= b ==> newlines(src, a, b) <= b - a,
    decreases b - a,
{
    if a < b {
        lemma_newlines_bound(src, a + 1, b);
    }
}


/// Skipping whitespace moves forward, stays within the text, and never
/// lowers the line counter.
pub proof fn lemma_ws_end_bounds(src: Seq<char>, p: int, line: int, in_comment: bool)
    requires
        0 <= p <= src.len(),
    ensures
        p <= ws_end(src, p, line, in_comment).0 <= src.len(),
        ws_end(src, p, line, in_comment).1 >= line,
    decreases src.len() - p, (if in_comment {
        1int
    } else {
        0int
    }),
{
    if p < src.len() {
        if in_comment {
            if char_at(src, p) == '\u{0}' || char_at(src, p) == '\n' {
                lemma_ws_end_bounds(src, p, line, false);
            } else {
                lemma_ws_end_bounds(src, p + 1, line, true);
            }
        } else {
            let c = char_at(src, p);
            if c == ' ' || c == '\r' || c == '\t' {
                lemma_ws_end_bounds(src, p + 1, line, false);
            } else if c == '\n' {
                lemma_ws_end_bounds(src, p + 1, line + 1, false);
            } else if c == '/' && char_at(src, p + 1) == '/' {
                if p + 2 <= src.len() {
                    lemma_ws_end_bounds(src, p + 2, line, true);
                } else {
                    assert(char_at(src, p + 1) == '\u{0}');
                }
            }
        }
    }
}

/// Scanning a token moves forward and stays within the text; any token but
/// the end-of-input token consumes at least one character.
pub proof fn lemma_scan_bounds(src: Seq<char>, pos: int, line: int)
    requires
        0 <= pos <= src.len(),
    ensures
        pos <= scan_spec(src, pos, line).end <= src.len(),
        scan_spec(src, pos, line).kind != TokenType::EOF ==> scan_spec(src, pos, line).end > pos,
        scan_spec(src, pos, line).line >= line,
        scan_spec(src, pos, line).line_after >= scan_spec(src, pos, line).line,
{
    lemma_ws_end_bounds(src, pos, line, false);
    let ghost sp = ws_end(src, pos, line, false);
    lemma_newlines_bound(src, sp.0 + 1, str_end(src, sp.0 + 1));
    let (p, l) = ws_end(src, pos, line, false);
    let c = char_at(src, p);
    if c != '\u{0}' {
        assert(p < src.len());
        if is_alpha_c(c) {
            lemma_ident_end_ge(src, p + 1);
        } else if is_digit_c(c) {
            lemma_digits_end_ge(src, p + 1);
            let d1 = digits_end(src, p + 1);
            if char_at(src, d1) == '.' && is_digit_c(char_at(src, d1 + 1)) {
                lemma_digits_end_ge(src, d1 + 1);
                assert(d1 + 1 <= src.len());
            }
        } else if c == '"' {
            lemma_str_end_ge(src, p + 1);
            let e = str_end(src, p + 1);
            if !at_end(src, e) {
                assert(e < src.len());
            }
        } else {
            if char_at(src, p + 1) == '=' {
                assert(p + 1 < src.len());
            }
        }
    }
}

} // verus!
