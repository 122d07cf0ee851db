//! The recursive descent parser scaffold of the tree-walking front end:
//! the token cursor and its navigation, lookahead, expectation, and the
//! statement-boundary synchronization that error recovery will use.

use vstd::prelude::*;
use crate::tree::expr::{Binary, Expr, Literal, Unary};
use crate::tree::token::{Token, TokenType};

verus! {

/// The parser: its token list, always terminated by an end-of-input
/// token, and a cursor into it.
pub struct Parser {
    pub tokens: Vec<Token>,
    pub current: usize,
}

impl Parser {
    /// The token list is terminated and the cursor within it.
    pub open spec fn wf(self) -> bool {
        &&& self.tokens@.len() >= 1
        &&& self.tokens@[self.tokens@.len() - 1].token_type == TokenType::Eof
        &&& self.current < self.tokens@.len()
    }

    /// A parser at the beginning of `tokens`.
    pub fn new(tokens: Vec<Token>) -> (r: Parser)
        requires
            tokens@.len() >= 1,
            tokens@[tokens@.len() - 1].token_type == TokenType::Eof,
        ensures
            r.wf(),
            r.tokens == tokens,
            r.current == 0,
    {
        Parser { tokens, current: 0 }
    }

    /// The kind of the current token.
    fn check(&self, token_type: TokenType) -> (r: bool)
        requires
            self.wf(),
        ensures
            r == (self.tokens@[self.current as int].token_type == token_type && token_type
                != TokenType::Eof),
    {
        let t = self.tokens[self.current].token_type;
        t == token_type && t != TokenType::Eof
    }

    /// Consumes the current token when it is of one of the given kinds.
    pub fn match_type(&mut self, token_types: &[TokenType]) -> (r: bool)
        requires
            old(self).wf(),
        ensures
            final(self).wf(),
            final(self).tokens == old(self).tokens,
            final(self).current >= old(self).current,
            final(self).current <= old(self).current + 1,
            r == (final(self).current == old(self).current + 1),
    {
        let n = token_types.len();
        let mut k: usize = 0;
        while k < n
            invariant
                self.wf(),
                self.tokens == old(self).tokens,
                self.current == old(self).current,
                n == token_types@.len(),
                k <= n,
            decreases n - k,
        {
            let t = token_types[k];
            if self.check(t) {
                self.advance();
                return true;
            }
            k = k + 1;
        }
        false
    }

    /// Consumes the current token unless at the end of input.
    pub fn advance(&mut self) -> (r: Token)
        requires
            old(self).wf(),
        ensures
            final(self).wf(),
            final(self).tokens == old(self).tokens,
            final(self).current >= old(self).current,
            final(self).current <= old(self).current + 1,
            old(self).tokens@[old(self).current as int].token_type != TokenType::Eof
                ==> final(self).current == old(self).current + 1,
    {
        let n = self.tokens.len();
        if !self.is_at_end() {
            proof {
                assert(self.current < n);
            }
            self.current = self.current + 1;
            proof {
                assert(self.current < n) by {
                    assert(self.tokens@[n - 1].token_type == TokenType::Eof);
                }
            }
        }
        self.previous()
    }

    /// The cursor stands at the end of input.
    pub fn is_at_end(&self) -> (r: bool)
        requires
            self.wf(),
        ensures
            r == (self.tokens@[self.current as int].token_type == TokenType::Eof),
    {
        let t = self.tokens[self.current].token_type;
        t == TokenType::Eof
    }

    /// The current token.
    pub fn peek(&self) -> (r: Token)
        requires
            self.wf(),
    {
        self.tokens[self.current].clone()
    }

    /// The token just consumed; the first token when none was.
    pub fn previous(&self) -> (r: Token)
        requires
            self.wf(),
    {
        if self.current >= 1 {
            self.tokens[self.current - 1].clone()
        } else {
            self.tokens[0].clone()
        }
    }

    /// Consumes the current token when it is of the expected kind, else
    /// hands back the message for the host to report at the current
    /// token.
    pub fn consume<'a>(&mut self, token_type: TokenType, message: &'a str) -> (r: Result<
        Token,
        &'a str,
    >)
        requires
            old(self).wf(),
        ensures
            final(self).wf(),
            final(self).tokens == old(self).tokens,
            final(self).current >= old(self).current,
            r is Ok <==> (old(self).tokens@[old(self).current as int].token_type == token_type
                && token_type != TokenType::Eof),
    {
        if self.check(token_type) {
            return Ok(self.advance());
        }
        Err(message)
    }


    /// Parses one expression. Where the original front end died on a
    /// malformed input, the message it would have died with is handed
    /// back for the host to raise.
    pub fn parse(&mut self) -> (r: Result<Expr, &'static str>)
        requires
            old(self).wf(),
        ensures
            final(self).wf(),
            final(self).tokens == old(self).tokens,
    {
        self.expression()
    }

    /// expression -> equality ;
    fn expression(&mut self) -> (r: Result<Expr, &'static str>)
        requires
            old(self).wf(),
        ensures
            final(self).wf(),
            final(self).tokens == old(self).tokens,
            final(self).current >= old(self).current,
        decreases old(self).tokens@.len() - old(self).current, 7int,
    {
        self.equality()
    }

    /// equality -> comparison ( ( "!=" | "==" ) comparison )* ;
    fn equality(&mut self) -> (r: Result<Expr, &'static str>)
        requires
            old(self).wf(),
        ensures
            final(self).wf(),
            final(self).tokens == old(self).tokens,
            final(self).current >= old(self).current,
        decreases old(self).tokens@.len() - old(self).current, 6int,
    {
        let mut expr = match self.comparison() {
            Ok(e) => e,
            Err(m) => {
                return Err(m);
            },
        };
        while self.match_type(&[TokenType::BangEqual, TokenType::EqualEqual])
            invariant
                self.wf(),
                self.tokens == old(self).tokens,
                self.current >= old(self).current,
            decreases self.tokens@.len() - self.current,
        {
            let operator = self.previous();
            let right = match self.comparison() {
                Ok(e) => e,
                Err(m) => {
                    return Err(m);
                },
            };
            expr = Expr::Binary(
                Binary { left: Box::new(expr), operator, right: Box::new(right) },
            );
        }
        Ok(expr)
    }

    /// comparison -> term ( ( ">" | ">=" | "<" | "<=" ) term )* ;
    fn comparison(&mut self) -> (r: Result<Expr, &'static str>)
        requires
            old(self).wf(),
        ensures
            final(self).wf(),
            final(self).tokens == old(self).tokens,
            final(self).current >= old(self).current,
        decreases old(self).tokens@.len() - old(self).current, 5int,
    {
        let mut expr = match self.term() {
            Ok(e) => e,
            Err(m) => {
                return Err(m);
            },
        };
        while self.match_type(
            &[
                TokenType::Greater,
                TokenType::GreaterEqual,
                TokenType::Less,
                TokenType::LessEqual,
            ],
        )
            invariant
                self.wf(),
                self.tokens == old(self).tokens,
                self.current >= old(self).current,
            decreases self.tokens@.len() - self.current,
        {
            let operator = self.previous();
            let right = match self.term() {
                Ok(e) => e,
                Err(m) => {
                    return Err(m);
                },
            };
            expr = Expr::Binary(
                Binary { left: Box::new(expr), operator, right: Box::new(right) },
            );
        }
        Ok(expr)
    }

    /// term -> factor ( ( "-" | "+" ) factor )* ;
    fn term(&mut self) -> (r: Result<Expr, &'static str>)
        requires
            old(self).wf(),
        ensures
            final(self).wf(),
            final(self).tokens == old(self).tokens,
            final(self).current >= old(self).current,
        decreases old(self).tokens@.len() - old(self).current, 4int,
    {
        let mut expr = match self.factor() {
            Ok(e) => e,
            Err(m) => {
                return Err(m);
            },
        };
        while self.match_type(&[TokenType::Minus, TokenType::Plus])
            invariant
                self.wf(),
                self.tokens == old(self).tokens,
                self.current >= old(self).current,
            decreases self.tokens@.len() - self.current,
        {
            let operator = self.previous();
            let right = match self.factor() {
                Ok(e) => e,
                Err(m) => {
                    return Err(m);
                },
            };
            expr = Expr::Binary(
                Binary { left: Box::new(expr), operator, right: Box::new(right) },
            );
        }
        Ok(expr)
    }

    /// factor -> unary ( ( "/" | "*" ) unary )* ;
    fn factor(&mut self) -> (r: Result<Expr, &'static str>)
        requires
            old(self).wf(),
        ensures
            final(self).wf(),
            final(self).tokens == old(self).tokens,
            final(self).current >= old(self).current,
        decreases old(self).tokens@.len() - old(self).current, 3int,
    {
        let mut expr = match self.unary() {
            Ok(e) => e,
            Err(m) => {
                return Err(m);
            },
        };
        while self.match_type(&[TokenType::Slash, TokenType::Star])
            invariant
                self.wf(),
                self.tokens == old(self).tokens,
                self.current >= old(self).current,
            decreases self.tokens@.len() - self.current,
        {
            let operator = self.previous();
            let right = match self.unary() {
                Ok(e) => e,
                Err(m) => {
                    return Err(m);
                },
            };
            expr = Expr::Binary(
                Binary { left: Box::new(expr), operator, right: Box::new(right) },
            );
        }
        Ok(expr)
    }

    /// unary -> ( "!" | "-" ) unary | primary ;
    fn unary(&mut self) -> (r: Result<Expr, &'static str>)
        requires
            old(self).wf(),
        ensures
            final(self).wf(),
            final(self).tokens == old(self).tokens,
            final(self).current >= old(self).current,
        decreases old(self).tokens@.len() - old(self).current, 2int,
    {
        if self.match_type(&[TokenType::Bang, TokenType::Minus]) {
            let operator = self.previous();
            let right = match self.unary() {
                Ok(e) => e,
                Err(m) => {
                    return Err(m);
                },
            };
            return Ok(Expr::Unary(Unary { operator, right: Box::new(right) }));
        }
        self.primary()
    }

    /// primary -> NUMBER | STRING | "true" | "false" | "nil"
    ///          | "(" expression ")" ;
    fn primary(&mut self) -> (r: Result<Expr, &'static str>)
        requires
            old(self).wf(),
        ensures
            final(self).wf(),
            final(self).tokens == old(self).tokens,
            final(self).current >= old(self).current,
        decreases old(self).tokens@.len() - old(self).current, 1int,
    {
        if self.match_type(&[TokenType::False]) {
            return Ok(Expr::Literal(Literal::Bool(false)));
        }
        if self.match_type(&[TokenType::True]) {
            return Ok(Expr::Literal(Literal::Bool(true)));
        }
        if self.match_type(&[TokenType::Nil]) {
            return Ok(Expr::Literal(Literal::Nil));
        }
        if self.match_type(&[TokenType::Number]) {
            let t = self.previous();
            return Ok(Expr::Literal(t.literal));
        }
        if self.match_type(&[TokenType::Str]) {
            let t = self.previous();
            return Ok(Expr::Literal(t.literal));
        }
        if self.match_type(&[TokenType::LeftParen]) {
            let expr = match self.expression() {
                Ok(e) => e,
                Err(m) => {
                    return Err(m);
                },
            };
            match self.consume(TokenType::RightParen, "Expect ')' after expression.") {
                Ok(_) => {},
                Err(m) => {
                    return Err(m);
                },
            }
            return Ok(Expr::Grouping(Box::new(expr)));
        }
        Err("Expect expression.")
    }

    /// Skips ahead to a likely statement boundary: past a semicolon, or
    /// to a keyword that begins a statement, or to the end of input.
    pub fn synchronize(&mut self)
        requires
            old(self).wf(),
        ensures
            final(self).wf(),
            final(self).tokens == old(self).tokens,
    {
        self.advance();
        while !self.is_at_end()
            invariant
                self.wf(),
                self.tokens == old(self).tokens,
            decreases self.tokens@.len() - self.current,
        {
            let prev_type = if self.current >= 1 {
                self.tokens[self.current - 1].token_type
            } else {
                self.tokens[0].token_type
            };
            if prev_type == TokenType::Semicolon {
                return ;
            }
            let next_type = self.tokens[self.current].token_type;
            match next_type {
                TokenType::Class | TokenType::Fun | TokenType::Var | TokenType::For
                    | TokenType::If | TokenType::While | TokenType::Print | TokenType::Return => {
                    return ;
                },
                _ => {},
            }
            self.advance();
        }
    }
}

} // verus!
