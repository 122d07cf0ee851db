//! The compiler: a Pratt (precedence-climbing) parser that pulls tokens
//! from the lexer one at a time and emits bytecode directly, with no
//! intermediate tree. The specification side parses the same token stream
//! into an expression, and `compile` is proved to emit exactly the code
//! generated for it, to succeed exactly when the source is one well-formed
//! expression, and to record a diagnostic otherwise.
//!
//! Number literals are IEEE 754 doubles, which verified code cannot parse;
//! the compiler is handed the encodings of the source's number literals up
//! front, in order of appearance (see [`number_literals`]).

use vstd::prelude::*;
use vstd::string::*;
use crate::ast::{Ast, BinOp, EvalR, UnOp, bin_opcodes, cg, depth, eval, lemma_cg_lens, lemma_cg_correct, seg_at};
use crate::chunk::{Chunk, OpCode};
use crate::vm::{ExecOutcome, STACK_MAX, chunk_exec};
use crate::scanner::{Scanner, Token, TokenType, at_end, ws_end, scan_spec, lemma_scan_bounds};
use crate::text::{dec_digits, append_usize};
use crate::value::Value;

verus! {

pub const PREC_NONE: u8 = 0;

pub const PREC_ASSIGNMENT: u8 = 1;

pub const PREC_OR: u8 = 2;

pub const PREC_AND: u8 = 3;

pub const PREC_EQUALITY: u8 = 4;

pub const PREC_COMPARISON: u8 = 5;

pub const PREC_TERM: u8 = 6;

pub const PREC_FACTOR: u8 = 7;

pub const PREC_UNARY: u8 = 8;

pub const PREC_CALL: u8 = 9;

pub const PREC_PRIMARY: u8 = 10;

/// The infix precedence of a token kind; `PREC_NONE` for tokens that are
/// no binary operator.
pub open spec fn infix_prec_s(t: TokenType) -> u8 {
    match t {
        TokenType::Minus => PREC_TERM,
        TokenType::Plus => PREC_TERM,
        TokenType::Slash => PREC_FACTOR,
        TokenType::Star => PREC_FACTOR,
        TokenType::BangEqual => PREC_EQUALITY,
        TokenType::EqualEqual => PREC_EQUALITY,
        TokenType::Greater => PREC_COMPARISON,
        TokenType::GreaterEqual => PREC_COMPARISON,
        TokenType::Less => PREC_COMPARISON,
        TokenType::LessEqual => PREC_COMPARISON,
        _ => PREC_NONE,
    }
}

/// The binary operator a token kind stands for.
pub open spec fn bin_of(t: TokenType) -> BinOp {
    match t {
        TokenType::Minus => BinOp::Subtract,
        TokenType::Plus => BinOp::Add,
        TokenType::Slash => BinOp::Divide,
        TokenType::Star => BinOp::Multiply,
        TokenType::BangEqual => BinOp::NotEqual,
        TokenType::EqualEqual => BinOp::Equal,
        TokenType::Greater => BinOp::Greater,
        TokenType::GreaterEqual => BinOp::GreaterEq,
        TokenType::Less => BinOp::Less,
        TokenType::LessEqual => BinOp::LessEq,
        _ => BinOp::Add,
    }
}

/// The next scan position: the token's end where that makes progress and
/// stays within the text, the next character otherwise. For the tokens the
/// scanner actually produces the two always coincide.
pub open spec fn bump(src: Seq<char>, pos: int, e: int) -> int {
    if pos < e && e <= src.len() {
        e
    } else {
        pos + 1
    }
}

/// How many number tokens the stream holds from `(pos, line)` on.
pub open spec fn num_count(src: Seq<char>, pos: int, line: int) -> int
    decreases src.len() - pos,
{
    if pos < 0 || pos >= src.len() {
        0
    } else {
        let t = scan_spec(src, pos, line);
        if t.kind == TokenType::EOF {
            0
        } else {
            (if t.kind == TokenType::Number {
                1int
            } else {
                0int
            }) + num_count(src, bump(src, pos, t.end), t.line_after)
        }
    }
}

/// The stream from `(pos, line)` on holds no error token.
pub open spec fn lex_ok(src: Seq<char>, pos: int, line: int) -> bool
    decreases src.len() - pos,
{
    if pos < 0 || pos >= src.len() {
        true
    } else {
        let t = scan_spec(src, pos, line);
        if t.kind == TokenType::EOF {
            true
        } else if t.kind == TokenType::Error {
            false
        } else {
            lex_ok(src, bump(src, pos, t.end), t.line_after)
        }
    }
}

/// The scan state after skipping the error tokens at `(pos, line)`.
pub open spec fn skip_errs(src: Seq<char>, pos: int, line: int) -> (int, int)
    decreases src.len() - pos,
{
    if pos < 0 || pos >= src.len() {
        (pos, line)
    } else {
        let t = scan_spec(src, pos, line);
        if t.kind == TokenType::Error {
            skip_errs(src, bump(src, pos, t.end), t.line_after)
        } else {
            (pos, line)
        }
    }
}

/// What parsing one sub-expression comes to: whether it succeeded, the
/// expression, the scan state of the then-current token, the number
/// literals consumed so far, and the line of the last consumed token.
pub struct PRes {
    pub ok: bool,
    pub ast: Ast,
    pub pos: int,
    pub line: int,
    pub ni: int,
    pub prev_line: usize,
}

/// A failed parse.
pub open spec fn sp_fail(pos: int, line: int, ni: int) -> PRes {
    PRes { ok: false, ast: Ast::NilLit { line: 0 }, pos, line, ni, prev_line: 0 }
}

/// The token kinds that may begin an expression.
pub open spec fn has_prefix_s(t: TokenType) -> bool {
    ||| t == TokenType::Number
    ||| t == TokenType::True
    ||| t == TokenType::False
    ||| t == TokenType::Nil
    ||| t == TokenType::LeftParen
    ||| t == TokenType::Minus
    ||| t == TokenType::Bang
}

/// Consumes one token and parses it as a prefix: a literal, a grouping,
/// or a unary operator applied to an operand of unary precedence.
#[verifier::opaque]
pub open spec fn sp_prefix(src: Seq<char>, pos: int, line: int, nums: Seq<u64>, ni: int) -> PRes
    decreases src.len() - pos, 2int,
{
    if pos < 0 || pos >= src.len() {
        sp_fail(pos, line, ni)
    } else {
        let t = scan_spec(src, pos, line);
        let pos1 = bump(src, pos, t.end);
        let line1 = t.line_after;
        if t.kind == TokenType::Number {
            let bits = if 0 <= ni < nums.len() {
                nums[ni]
            } else {
                0
            };
            PRes {
                ok: true,
                ast: Ast::Num { bits, line: t.line as usize },
                pos: pos1,
                line: line1,
                ni: ni + 1,
                prev_line: t.line as usize,
            }
        } else if t.kind == TokenType::True {
            PRes {
                ok: true,
                ast: Ast::BoolLit { value: true, line: t.line as usize },
                pos: pos1,
                line: line1,
                ni,
                prev_line: t.line as usize,
            }
        } else if t.kind == TokenType::False {
            PRes {
                ok: true,
                ast: Ast::BoolLit { value: false, line: t.line as usize },
                pos: pos1,
                line: line1,
                ni,
                prev_line: t.line as usize,
            }
        } else if t.kind == TokenType::Nil {
            PRes {
                ok: true,
                ast: Ast::NilLit { line: t.line as usize },
                pos: pos1,
                line: line1,
                ni,
                prev_line: t.line as usize,
            }
        } else if t.kind == TokenType::LeftParen {
            let inner = sp_prec(src, pos1, line1, PREC_ASSIGNMENT, nums, ni);
            if !inner.ok {
                inner
            } else {
                let t2 = scan_spec(src, inner.pos, inner.line);
                if t2.kind == TokenType::RightParen {
                    PRes {
                        ok: true,
                        ast: inner.ast,
                        pos: bump(src, pos, bump(src, inner.pos, t2.end)),
                        line: t2.line_after,
                        ni: inner.ni,
                        prev_line: t2.line as usize,
                    }
                } else {
                    sp_fail(inner.pos, inner.line, inner.ni)
                }
            }
        } else if t.kind == TokenType::Minus || t.kind == TokenType::Bang {
            let op = if t.kind == TokenType::Minus {
                UnOp::Negate
            } else {
                UnOp::Not
            };
            let r = sp_prec(src, pos1, line1, PREC_UNARY, nums, ni);
            if !r.ok {
                r
            } else {
                PRes {
                    ok: true,
                    ast: Ast::Unary { op, line: r.prev_line, sub: Box::new(r.ast) },
                    pos: bump(src, pos, r.pos),
                    line: r.line,
                    ni: r.ni,
                    prev_line: r.prev_line,
                }
            }
        } else {
            sp_fail(pos, line, ni)
        }
    }
}

/// Parses one expression of precedence at least `min`: a prefix, then
/// every following binary operator of precedence at least `min`, each
/// binding its right operand one level higher, which makes operators of
/// equal precedence associate to the left.
#[verifier::opaque]
pub open spec fn sp_prec(
    src: Seq<char>,
    pos: int,
    line: int,
    min: u8,
    nums: Seq<u64>,
    ni: int,
) -> PRes
    decreases src.len() - pos, 3int,
{
    if pos < 0 || pos >= src.len() {
        sp_fail(pos, line, ni)
    } else {
        let p = sp_prefix(src, pos, line, nums, ni);
        if !p.ok {
            p
        } else {
            sp_loop(src, p.ast, bump(src, pos, p.pos), p.line, min, nums, p.ni, p.prev_line)
        }
    }
}

/// Folds in the binary operators of precedence at least `min` that follow
/// an already-parsed left operand.
#[verifier::opaque]
pub open spec fn sp_loop(
    src: Seq<char>,
    left: Ast,
    pos: int,
    line: int,
    min: u8,
    nums: Seq<u64>,
    ni: int,
    prev_line: usize,
) -> PRes
    decreases src.len() - pos, 1int,
{
    if pos < 0 || pos >= src.len() || min == 0 {
        PRes { ok: true, ast: left, pos, line, ni, prev_line }
    } else {
        let t = scan_spec(src, pos, line);
        if infix_prec_s(t.kind) >= min {
            let r = sp_prec(
                src,
                bump(src, pos, t.end),
                t.line_after,
                (infix_prec_s(t.kind) + 1) as u8,
                nums,
                ni,
            );
            if !r.ok {
                r
            } else {
                sp_loop(
                    src,
                    Ast::Binary {
                        op: bin_of(t.kind),
                        line: r.prev_line,
                        lhs: Box::new(left),
                        rhs: Box::new(r.ast),
                    },
                    bump(src, pos, r.pos),
                    r.line,
                    min,
                    nums,
                    r.ni,
                    r.prev_line,
                )
            }
        } else {
            PRes { ok: true, ast: left, pos, line, ni, prev_line }
        }
    }
}

/// The whole source compiles: no error tokens, one expression parses, and
/// nothing but the end of input follows it.
pub open spec fn compile_ok(src: Seq<char>, nums: Seq<u64>) -> bool {
    let r = sp_prec(src, 0, 1, PREC_ASSIGNMENT, nums, 0);
    &&& lex_ok(src, 0, 1)
    &&& r.ok
    &&& scan_spec(src, r.pos, r.line).kind == TokenType::EOF
}

/// The expression the source parses to.
pub open spec fn compile_ast(src: Seq<char>, nums: Seq<u64>) -> Ast {
    sp_prec(src, 0, 1, PREC_ASSIGNMENT, nums, 0).ast
}

/// A successful prefix parse moves forward and stays within the text.
pub proof fn lemma_sp_prefix_pos(src: Seq<char>, pos: int, line: int, nums: Seq<u64>, ni: int)
    ensures
        sp_prefix(src, pos, line, nums, ni).ok ==> pos < sp_prefix(
            src,
            pos,
            line,
            nums,
            ni,
        ).pos <= src.len(),
{
    reveal(sp_prefix);
    if 0 <= pos < src.len() {
        let t = scan_spec(src, pos, line);
        lemma_scan_bounds(src, pos, line);
    }
}

/// A successful parse moves forward and stays within the text.
#[verifier::rlimit(100)]
#[verifier::spinoff_prover]
pub proof fn lemma_sp_pos(src: Seq<char>, pos: int, line: int, min: u8, nums: Seq<u64>, ni: int)
    ensures
        sp_prec(src, pos, line, min, nums, ni).ok ==> pos < sp_prec(
            src,
            pos,
            line,
            min,
            nums,
            ni,
        ).pos <= src.len(),
{
    reveal(sp_prefix);
    reveal(sp_prec);
    let p = sp_prefix(src, pos, line, nums, ni);
    lemma_sp_prefix_pos(src, pos, line, nums, ni);
    if p.ok {
        lemma_sp_loop_pos(
            src,
            p.ast,
            bump(src, pos, p.pos),
            p.line,
            min,
            nums,
            p.ni,
            p.prev_line,
        );
    }
}

/// A successful operator fold moves forward and stays within the text.
#[verifier::rlimit(100)]
#[verifier::spinoff_prover]
pub proof fn lemma_sp_loop_pos(
    src: Seq<char>,
    left: Ast,
    pos: int,
    line: int,
    min: u8,
    nums: Seq<u64>,
    ni: int,
    prev_line: usize,
)
    requires
        pos <= src.len(),
    ensures
        sp_loop(src, left, pos, line, min, nums, ni, prev_line).ok ==> pos <= sp_loop(
            src,
            left,
            pos,
            line,
            min,
            nums,
            ni,
            prev_line,
        ).pos <= src.len(),
    decreases src.len() - pos, 1int,
{
    reveal_with_fuel(sp_loop, 2);
    if 0 <= pos < src.len() && min != 0 {
        let t = scan_spec(src, pos, line);
        if infix_prec_s(t.kind) >= min {
            let r = sp_prec(
                src,
                bump(src, pos, t.end),
                t.line_after,
                (infix_prec_s(t.kind) + 1) as u8,
                nums,
                ni,
            );
            if r.ok {
                lemma_sp_loop_pos(
                    src,
                    Ast::Binary {
                        op: bin_of(t.kind),
                        line: r.prev_line,
                        lhs: Box::new(left),
                        rhs: Box::new(r.ast),
                    },
                    bump(src, pos, r.pos),
                    r.line,
                    min,
                    nums,
                    r.ni,
                    r.prev_line,
                );
            }
        }
    }
}

/// How many error tokens' worth of skipping preserves the stream's number
/// count, where the skipped region ends, and that it ends clean.
pub proof fn lemma_skip_errs(src: Seq<char>, pos: int, line: int)
    requires
        0 <= pos <= src.len(),
    ensures
        pos <= skip_errs(src, pos, line).0 <= src.len(),
        scan_spec(src, skip_errs(src, pos, line).0, skip_errs(src, pos, line).1).kind
            != TokenType::Error,
        num_count(src, skip_errs(src, pos, line).0, skip_errs(src, pos, line).1) == num_count(
            src,
            pos,
            line,
        ),
        skip_errs(src, pos, line).1 >= line,
    decreases src.len() - pos,
{
    if pos < src.len() {
        let t = scan_spec(src, pos, line);
        if t.kind == TokenType::Error {
            lemma_scan_bounds(src, pos, line);
            lemma_skip_errs(src, bump(src, pos, t.end), t.line_after);
        }
    } else {
        assert(at_end(src, pos));
    }
}

/// An error-free stream begins with a clean token, and stays error-free
/// past it.
pub proof fn lemma_lex_step(src: Seq<char>, pos: int, line: int)
    requires
        0 <= pos <= src.len(),
        lex_ok(src, pos, line),
    ensures
        scan_spec(src, pos, line).kind != TokenType::Error,
        scan_spec(src, pos, line).kind != TokenType::EOF ==> lex_ok(
            src,
            bump(src, pos, scan_spec(src, pos, line).end),
            scan_spec(src, pos, line).line_after,
        ),
{
    if pos >= src.len() {
        assert(at_end(src, pos));
    }
}

/// The number count of a stream is never negative.
pub proof fn lemma_num_count_nonneg(src: Seq<char>, pos: int, line: int)
    ensures
        num_count(src, pos, line) >= 0,
    decreases src.len() - pos,
{
    if 0 <= pos < src.len() {
        let t = scan_spec(src, pos, line);
        if t.kind != TokenType::EOF {
            lemma_num_count_nonneg(src, bump(src, pos, t.end), t.line_after);
        }
    }
}

/// The diagnostic line for a compile error: the source line, where the
/// error sits (at the end of input, at a lexeme, or nowhere for an error
/// token, whose message is self-describing), and the message.
pub open spec fn err_text(
    line: usize,
    kind: TokenType,
    lexeme: Seq<char>,
    message: Seq<char>,
) -> Seq<char> {
    "[line "@ + dec_digits(line as nat) + "] Error"@ + (if kind == TokenType::EOF {
        " at end"@
    } else if kind == TokenType::Error {
        Seq::<char>::empty()
    } else {
        " at '"@ + lexeme + "'"@
    }) + ": "@ + message
}

/// The parser's two-token window and its error flags.
pub struct Parser<'a> {
    pub current: Token<'a>,
    pub previous: Token<'a>,
    pub has_error: bool,
    pub panic_mode: bool,
}

/// The compiler: a scanner, the parser window, the unit being built, the
/// diagnostics recorded so far, and the encodings of the source's number
/// literals with an index to the next unconsumed one. `cur_from` tracks
/// the scan state the current token was produced from.
pub struct Compiler<'a> {
    pub scanner: Scanner<'a>,
    pub parser: Parser<'a>,
    pub compiling_chunk: Chunk,
    pub diagnostics: Vec<String>,
    pub numbers: Vec<u64>,
    pub num_idx: usize,
    pub cur_from: Ghost<(int, int)>,
}

impl<'a> Compiler<'a> {
    /// The source text.
    pub open spec fn src(self) -> Seq<char> {
        self.scanner.source@
    }

    /// Basic well-formedness: the scanner is sound, panic mode implies a
    /// recorded error, an error implies a diagnostic, and the unit's line
    /// table matches its code.
    pub open spec fn cwf(self) -> bool {
        &&& self.scanner.wf()
        &&& (self.parser.panic_mode ==> self.parser.has_error)
        &&& (self.parser.has_error ==> self.diagnostics@.len() >= 1)
        &&& self.compiling_chunk.code@.len() == self.compiling_chunk.lines@.len()
    }

    /// The current token is the one scanned at `cur_from`, it is no error
    /// token, and the scanner stands right after it.
    pub open spec fn cur_ok(self) -> bool {
        let t = scan_spec(self.src(), self.cur_from@.0, self.cur_from@.1);
        &&& 0 <= self.cur_from@.0 <= self.src().len()
        &&& 1 <= self.cur_from@.1
        &&& t.kind != TokenType::Error
        &&& self.parser.current.token_type == t.kind
        &&& self.parser.current.line as int == t.line
        &&& self.parser.current.lexeme@ == t.lexeme
        &&& self.scanner.pos() == t.end
        &&& self.scanner.line_no() == t.line_after
    }

    /// The unconsumed number encodings are those of the number tokens from
    /// the current token on.
    pub open spec fn nums_ok(self) -> bool {
        &&& 0 <= self.num_idx <= self.numbers@.len()
        &&& self.num_idx + num_count(self.src(), self.cur_from@.0, self.cur_from@.1)
            == self.numbers@.len()
    }

    /// While no error is recorded, the remaining stream is error-free
    /// exactly when the whole source is.
    pub open spec fn lex_inv(self) -> bool {
        !self.parser.has_error ==> (lex_ok(self.src(), 0, 1) <==> lex_ok(
            self.src(),
            self.cur_from@.0,
            self.cur_from@.1,
        ))
    }

    /// Records a compile error at `token`, unless panic mode already
    /// suppresses reports; the first error enters panic mode.
    fn error_at(&mut self, token: Token<'a>, message: &str)
        requires
            old(self).parser.panic_mode ==> old(self).parser.has_error,
        ensures
            old(self).parser.panic_mode ==> *final(self) == *old(self),
            !old(self).parser.panic_mode ==> ({
                &&& final(self).parser.panic_mode
                &&& final(self).parser.has_error
                &&& final(self).parser.current == old(self).parser.current
                &&& final(self).parser.previous == old(self).parser.previous
                &&& final(self).scanner == old(self).scanner
                &&& final(self).compiling_chunk == old(self).compiling_chunk
                &&& final(self).numbers == old(self).numbers
                &&& final(self).num_idx == old(self).num_idx
                &&& final(self).cur_from == old(self).cur_from
                &&& final(self).diagnostics@.len() == old(self).diagnostics@.len() + 1
                &&& final(self).diagnostics@.subrange(0, old(self).diagnostics@.len() as int)
                    == old(self).diagnostics@
                &&& final(self).diagnostics@[old(self).diagnostics@.len() as int]@ == err_text(
                    token.line,
                    token.token_type,
                    token.lexeme@,
                    message@,
                )
            }),
    {
        if self.parser.panic_mode {
            return ;
        }
        self.parser.panic_mode = true;
        let mut out = String::new();
        proof {
            reveal_strlit("[line ");
            reveal_strlit("] Error");
            reveal_strlit(" at end");
            reveal_strlit(" at '");
            reveal_strlit("'");
            reveal_strlit(": ");
        }
        out.append("[line ");
        append_usize(&mut out, token.line);
        out.append("] Error");
        if token.token_type == TokenType::EOF {
            out.append(" at end");
        } else if token.token_type == TokenType::Error {
        } else {
            out.append(" at '");
            out.append(token.lexeme);
            out.append("'");
        }
        out.append(": ");
        out.append(message);
        proof {
            assert(out@ =~= err_text(token.line, token.token_type, token.lexeme@, message@));
        }
        self.diagnostics.push(out);
        self.parser.has_error = true;
        proof {
            assert(final(self).diagnostics@.subrange(0, old(self).diagnostics@.len() as int)
                =~= old(self).diagnostics@);
        }
    }

    /// Records a compile error at the current token.
    fn error_at_current(&mut self, message: &str)
        requires
            old(self).parser.panic_mode ==> old(self).parser.has_error,
        ensures
            old(self).parser.panic_mode ==> *final(self) == *old(self),
            !old(self).parser.panic_mode ==> ({
                &&& final(self).parser.panic_mode
                &&& final(self).parser.has_error
                &&& final(self).parser.current == old(self).parser.current
                &&& final(self).parser.previous == old(self).parser.previous
                &&& final(self).scanner == old(self).scanner
                &&& final(self).compiling_chunk == old(self).compiling_chunk
                &&& final(self).numbers == old(self).numbers
                &&& final(self).num_idx == old(self).num_idx
                &&& final(self).cur_from == old(self).cur_from
                &&& final(self).diagnostics@.len() == old(self).diagnostics@.len() + 1
                &&& final(self).diagnostics@.subrange(0, old(self).diagnostics@.len() as int)
                    == old(self).diagnostics@
                &&& final(self).diagnostics@[old(self).diagnostics@.len() as int]@ == err_text(
                    old(self).parser.current.line,
                    old(self).parser.current.token_type,
                    old(self).parser.current.lexeme@,
                    message@,
                )
            }),
    {
        let token = self.parser.current;
        self.error_at(token, message);
    }

    /// Records a compile error at the token just consumed.
    fn error(&mut self, message: &str)
        requires
            old(self).parser.panic_mode ==> old(self).parser.has_error,
        ensures
            old(self).parser.panic_mode ==> *final(self) == *old(self),
            !old(self).parser.panic_mode ==> ({
                &&& final(self).parser.panic_mode
                &&& final(self).parser.has_error
                &&& final(self).parser.current == old(self).parser.current
                &&& final(self).parser.previous == old(self).parser.previous
                &&& final(self).scanner == old(self).scanner
                &&& final(self).compiling_chunk == old(self).compiling_chunk
                &&& final(self).numbers == old(self).numbers
                &&& final(self).num_idx == old(self).num_idx
                &&& final(self).cur_from == old(self).cur_from
                &&& final(self).diagnostics@.len() == old(self).diagnostics@.len() + 1
                &&& final(self).diagnostics@.subrange(0, old(self).diagnostics@.len() as int)
                    == old(self).diagnostics@
            }),
    {
        let token = self.parser.previous;
        self.error_at(token, message);
    }

    /// Pulls the next token, reporting and skipping error tokens.
    fn advance(&mut self)
        requires
            old(self).scanner.wf(),
            old(self).parser.panic_mode ==> old(self).parser.has_error,
            old(self).parser.has_error ==> old(self).diagnostics@.len() >= 1,
        ensures
            final(self).scanner.wf(),
            final(self).scanner.source == old(self).scanner.source,
            final(self).compiling_chunk == old(self).compiling_chunk,
            final(self).numbers == old(self).numbers,
            final(self).num_idx == old(self).num_idx,
            final(self).parser.previous == old(self).parser.current,
            final(self).parser.panic_mode ==> final(self).parser.has_error,
            final(self).parser.has_error ==> final(self).diagnostics@.len() >= 1,
            old(self).parser.panic_mode ==> final(self).parser.panic_mode,
            final(self).diagnostics@.len() >= old(self).diagnostics@.len(),
            ({
                let p0 = old(self).scanner.pos();
                let l0 = old(self).scanner.line_no();
                let sk = skip_errs(old(self).scanner.source@, p0, l0);
                let t = scan_spec(old(self).scanner.source@, sk.0, sk.1);
                &&& final(self).cur_from@ == sk
                &&& final(self).parser.current.token_type == t.kind
                &&& final(self).parser.current.line as int == t.line
                &&& final(self).parser.current.lexeme@ == t.lexeme
                &&& final(self).scanner.pos() == t.end
                &&& final(self).scanner.line_no() == t.line_after
                &&& t.kind != TokenType::Error
                &&& final(self).parser.has_error == (old(self).parser.has_error || scan_spec(
                    old(self).scanner.source@,
                    p0,
                    l0,
                ).kind == TokenType::Error)
                &&& (scan_spec(old(self).scanner.source@, p0, l0).kind != TokenType::Error
                    ==> final(self).diagnostics == old(self).diagnostics
                        && final(self).parser.panic_mode == old(self).parser.panic_mode
                        && final(self).parser.has_error == old(self).parser.has_error)
            }),
    {
        self.parser.previous = self.parser.current;
        let ghost p0 = self.scanner.pos();
        let ghost l0 = self.scanner.line_no();
        let ghost src = self.scanner.source@;
        loop
            invariant
                self.scanner.wf(),
                self.scanner.source == old(self).scanner.source,
                self.compiling_chunk == old(self).compiling_chunk,
                self.numbers == old(self).numbers,
                self.num_idx == old(self).num_idx,
                self.parser.previous == old(self).parser.current,
                self.parser.panic_mode ==> self.parser.has_error,
                self.parser.has_error ==> self.diagnostics@.len() >= 1,
                old(self).parser.panic_mode ==> self.parser.panic_mode,
                self.diagnostics@.len() >= old(self).diagnostics@.len(),
                src == self.scanner.source@,
                p0 == old(self).scanner.pos(),
                l0 == old(self).scanner.line_no(),
                0 <= self.scanner.pos() <= src.len(),
                skip_errs(src, self.scanner.pos(), self.scanner.line_no()) == skip_errs(
                    src,
                    p0,
                    l0,
                ),
                (self.scanner.pos() == p0 && self.scanner.line_no() == l0 && self.parser.has_error
                    == old(self).parser.has_error && self.diagnostics == old(self).diagnostics
                    && self.parser.panic_mode == old(self).parser.panic_mode) || (scan_spec(
                    src,
                    p0,
                    l0,
                ).kind == TokenType::Error && self.parser.has_error),
            decreases src.len() - self.scanner.pos(),
        {
            let ghost gp = self.scanner.pos();
            let ghost gl = self.scanner.line_no();
            let tok = self.scanner.scan_token();
            self.parser.current = tok;
            proof {
                lemma_scan_bounds(src, gp, gl);
            }
            if !(tok.token_type == TokenType::Error) {
                proof {
                    self.cur_from@ = (gp, gl);
                }
                return ;
            }
            let lex = self.parser.current.lexeme;
            self.error_at_current(lex);
        }
    }

    /// Consumes the current token when it is of the expected kind, else
    /// records the given error.
    fn consume(&mut self, token_type: TokenType, message: &str)
        requires
            old(self).cwf(),
            old(self).cur_ok(),
        ensures
            final(self).scanner.source == old(self).scanner.source,
            final(self).scanner.wf(),
            final(self).compiling_chunk == old(self).compiling_chunk,
            final(self).numbers == old(self).numbers,
            final(self).num_idx == old(self).num_idx,
            final(self).parser.panic_mode ==> final(self).parser.has_error,
            final(self).parser.has_error ==> final(self).diagnostics@.len() >= 1,
            old(self).parser.has_error ==> final(self).parser.has_error,
            old(self).parser.panic_mode ==> final(self).parser.panic_mode,
            final(self).diagnostics@.len() >= old(self).diagnostics@.len(),
            if old(self).parser.current.token_type == token_type {
                let p0 = old(self).scanner.pos();
                let l0 = old(self).scanner.line_no();
                let sk = skip_errs(old(self).scanner.source@, p0, l0);
                let t = scan_spec(old(self).scanner.source@, sk.0, sk.1);
                &&& final(self).cur_from@ == sk
                &&& final(self).parser.current.token_type == t.kind
                &&& final(self).parser.current.line as int == t.line
                &&& final(self).parser.current.lexeme@ == t.lexeme
                &&& final(self).scanner.pos() == t.end
                &&& final(self).scanner.line_no() == t.line_after
                &&& t.kind != TokenType::Error
                &&& final(self).parser.previous == old(self).parser.current
                &&& final(self).parser.has_error == (old(self).parser.has_error || scan_spec(
                    old(self).scanner.source@,
                    p0,
                    l0,
                ).kind == TokenType::Error)
                &&& (scan_spec(old(self).scanner.source@, p0, l0).kind != TokenType::Error
                    ==> final(self).diagnostics == old(self).diagnostics
                        && final(self).parser.panic_mode == old(self).parser.panic_mode)
            } else {
                &&& final(self).parser.has_error
                &&& final(self).cur_from == old(self).cur_from
                &&& final(self).parser.current == old(self).parser.current
                &&& final(self).parser.previous == old(self).parser.previous
                &&& final(self).scanner == old(self).scanner
            },
    {
        if self.parser.current.token_type == token_type {
            self.advance();
            return ;
        }
        self.error_at_current(message);
    }

    /// Appends one instruction under the line of the token just consumed.
    fn emit_byte(&mut self, byte: OpCode)
        ensures
            final(self).compiling_chunk.code@ == old(self).compiling_chunk.code@.push(byte),
            final(self).compiling_chunk.lines@ == old(self).compiling_chunk.lines@.push(
                old(self).parser.previous.line,
            ),
            final(self).compiling_chunk.constants@ == old(self).compiling_chunk.constants@,
            final(self).scanner == old(self).scanner,
            final(self).parser == old(self).parser,
            final(self).diagnostics == old(self).diagnostics,
            final(self).numbers == old(self).numbers,
            final(self).num_idx == old(self).num_idx,
            final(self).cur_from == old(self).cur_from,
    {
        let line = self.parser.previous.line;
        self.compiling_chunk.write(byte, line);
    }

    /// Appends two instructions under one line.
    fn emit_bytes(&mut self, byte1: OpCode, byte2: OpCode)
        ensures
            final(self).compiling_chunk.code@ == old(self).compiling_chunk.code@.push(byte1).push(
                byte2,
            ),
            final(self).compiling_chunk.lines@ == old(self).compiling_chunk.lines@.push(
                old(self).parser.previous.line,
            ).push(old(self).parser.previous.line),
            final(self).compiling_chunk.constants@ == old(self).compiling_chunk.constants@,
            final(self).scanner == old(self).scanner,
            final(self).parser == old(self).parser,
            final(self).diagnostics == old(self).diagnostics,
            final(self).numbers == old(self).numbers,
            final(self).num_idx == old(self).num_idx,
            final(self).cur_from == old(self).cur_from,
    {
        self.emit_byte(byte1);
        self.emit_byte(byte2);
    }

    /// Appends the trailing return instruction.
    fn emit_return(&mut self)
        ensures
            final(self).compiling_chunk.code@ == old(self).compiling_chunk.code@.push(
                OpCode::Return,
            ),
            final(self).compiling_chunk.lines@ == old(self).compiling_chunk.lines@.push(
                old(self).parser.previous.line,
            ),
            final(self).compiling_chunk.constants@ == old(self).compiling_chunk.constants@,
            final(self).scanner == old(self).scanner,
            final(self).parser == old(self).parser,
            final(self).diagnostics == old(self).diagnostics,
            final(self).numbers == old(self).numbers,
            final(self).num_idx == old(self).num_idx,
            final(self).cur_from == old(self).cur_from,
    {
        self.emit_byte(OpCode::Return);
    }

    /// Appends a value to the pool and returns its index.
    fn make_constant(&mut self, value: Value) -> (r: usize)
        ensures
            final(self).compiling_chunk.constants@ == old(self).compiling_chunk.constants@.push(
                value,
            ),
            final(self).compiling_chunk.code@ == old(self).compiling_chunk.code@,
            final(self).compiling_chunk.lines@ == old(self).compiling_chunk.lines@,
            r == old(self).compiling_chunk.constants@.len(),
            final(self).scanner == old(self).scanner,
            final(self).parser == old(self).parser,
            final(self).diagnostics == old(self).diagnostics,
            final(self).numbers == old(self).numbers,
            final(self).num_idx == old(self).num_idx,
            final(self).cur_from == old(self).cur_from,
    {
        self.compiling_chunk.add_constant(value)
    }

    /// Appends a value to the pool and the instruction that loads it.
    fn emit_constant(&mut self, value: Value)
        ensures
            final(self).compiling_chunk.code@ == old(self).compiling_chunk.code@.push(
                OpCode::Constant(old(self).compiling_chunk.constants@.len() as usize),
            ),
            final(self).compiling_chunk.lines@ == old(self).compiling_chunk.lines@.push(
                old(self).parser.previous.line,
            ),
            final(self).compiling_chunk.constants@ == old(self).compiling_chunk.constants@.push(
                value,
            ),
            final(self).scanner == old(self).scanner,
            final(self).parser == old(self).parser,
            final(self).diagnostics == old(self).diagnostics,
            final(self).numbers == old(self).numbers,
            final(self).num_idx == old(self).num_idx,
            final(self).cur_from == old(self).cur_from,
    {
        let index = self.make_constant(value);
        self.emit_byte(OpCode::Constant(index));
    }
}




/// One unfolding of the operator fold: at an operator of sufficient
/// precedence, the fold parses the right operand one level higher and
/// continues with the combined expression.
#[verifier::rlimit(100)]
#[verifier::spinoff_prover]
pub proof fn lemma_sp_loop_unfold(
    src: Seq<char>,
    left: Ast,
    pos: int,
    line: int,
    min: u8,
    nums: Seq<u64>,
    ni: int,
    prev_line: usize,
)
    requires
        0 <= pos < src.len(),
        1 <= min,
        infix_prec_s(scan_spec(src, pos, line).kind) >= min,
    ensures
        ({
            let t = scan_spec(src, pos, line);
            let r = sp_prec(
                src,
                bump(src, pos, t.end),
                t.line_after,
                (infix_prec_s(t.kind) + 1) as u8,
                nums,
                ni,
            );
            &&& (!r.ok ==> sp_loop(src, left, pos, line, min, nums, ni, prev_line) == r)
            &&& (r.ok ==> sp_loop(src, left, pos, line, min, nums, ni, prev_line) == sp_loop(
                src,
                Ast::Binary {
                    op: bin_of(t.kind),
                    line: r.prev_line,
                    lhs: Box::new(left),
                    rhs: Box::new(r.ast),
                },
                bump(src, pos, r.pos),
                r.line,
                min,
                nums,
                r.ni,
                r.prev_line,
            ))
        }),
{
    reveal_with_fuel(sp_loop, 2);
}

/// The operator fold stops at a token below the wanted precedence or at
/// the end of the text, returning the left operand unchanged.
pub proof fn lemma_sp_loop_exit(
    src: Seq<char>,
    left: Ast,
    pos: int,
    line: int,
    min: u8,
    nums: Seq<u64>,
    ni: int,
    prev_line: usize,
)
    requires
        1 <= min,
        pos >= src.len() || infix_prec_s(scan_spec(src, pos, line).kind) < min,
        0 <= pos,
    ensures
        sp_loop(src, left, pos, line, min, nums, ni, prev_line) == (PRes {
            ok: true,
            ast: left,
            pos,
            line,
            ni,
            prev_line,
        }),
{
    reveal_with_fuel(sp_loop, 2);
}

/// Code generation of a binary node is the two operands' code followed by
/// the operator's instructions, each under the node's line.
pub proof fn lemma_cg_binary(op: BinOp, line: usize, lhs: Ast, rhs: Ast, bl: int)
    ensures
        ({
            let outl = cg(lhs, bl);
            let outr = cg(rhs, bl + outl.consts.len());
            let out2 = cg(Ast::Binary { op, line, lhs: Box::new(lhs), rhs: Box::new(rhs) }, bl);
            &&& out2.code == outl.code + outr.code + bin_opcodes(op)
            &&& out2.lines == outl.lines + outr.lines + Seq::new(
                bin_opcodes(op).len(),
                |i: int| line,
            )
            &&& out2.consts == outl.consts + outr.consts
        }),
{
    let outl = cg(lhs, bl);
    let outr = cg(rhs, bl + outl.consts.len());
    let out2 = cg(Ast::Binary { op, line, lhs: Box::new(lhs), rhs: Box::new(rhs) }, bl);
    assert(out2.code =~= outl.code + outr.code + bin_opcodes(op));
    assert(out2.lines =~= outl.lines + outr.lines + Seq::new(bin_opcodes(op).len(), |i: int| line));
    assert(out2.consts =~= outl.consts + outr.consts);
}

/// What one `advance` does to the stream state: the skipped region keeps
/// the number count, an error-free stream stays error-free and skips
/// nothing, and the end of input repeats itself.
pub proof fn lemma_advance_state(src: Seq<char>, pos: int, line: int)
    requires
        0 <= pos <= src.len(),
        1 <= line,
    ensures
        ({
            let t = scan_spec(src, pos, line);
            let st1 = skip_errs(src, t.end, t.line_after);
            &&& 0 <= st1.0 <= src.len()
            &&& 1 <= st1.1
            &&& t.end <= st1.0
            &&& num_count(src, pos, line) == (if t.kind == TokenType::Number {
                1int
            } else {
                0int
            }) + num_count(src, st1.0, st1.1)
            &&& scan_spec(src, st1.0, st1.1).kind != TokenType::Error
            &&& (lex_ok(src, pos, line) ==> st1 == (t.end, t.line_after) && lex_ok(
                src,
                st1.0,
                st1.1,
            ))
            &&& (t.kind == TokenType::EOF ==> scan_spec(src, t.end, t.line_after).kind
                == TokenType::EOF && scan_spec(src, t.end, t.line_after).end == t.end && scan_spec(
                src,
                t.end,
                t.line_after,
            ).line_after == t.line_after && num_count(src, pos, line) == 0)
            &&& (t.kind != TokenType::Error && scan_spec(src, t.end, t.line_after).kind
                != TokenType::Error ==> (lex_ok(src, pos, line) <==> lex_ok(
                src,
                t.end,
                t.line_after,
            )))
        }),
{
    let t = scan_spec(src, pos, line);
    lemma_scan_bounds(src, pos, line);
    lemma_skip_errs(src, t.end, t.line_after);
    let st1 = skip_errs(src, t.end, t.line_after);
    lemma_num_count_nonneg(src, st1.0, st1.1);
    if t.kind == TokenType::EOF {
        assert(at_end(src, t.end));
        assert(ws_end(src, t.end, t.line_after, false) == (t.end, t.line_after));
        assert(scan_spec(src, t.end, t.line_after).kind == TokenType::EOF);
        assert(skip_errs(src, t.end, t.line_after) == (t.end, t.line_after));
        if pos < src.len() {
            assert(num_count(src, pos, line) == 0);
        }
    } else {
        assert(pos < src.len());
        assert(bump(src, pos, t.end) == t.end);
        assert(num_count(src, pos, line) == (if t.kind == TokenType::Number {
            1int
        } else {
            0int
        }) + num_count(src, t.end, t.line_after));
        if lex_ok(src, pos, line) {
            lemma_lex_step(src, pos, line);
            assert(lex_ok(src, t.end, t.line_after));
            lemma_lex_step(src, t.end, t.line_after);
            assert(skip_errs(src, t.end, t.line_after) == (t.end, t.line_after));
        }
    }
    if lex_ok(src, pos, line) && t.kind == TokenType::EOF {
        assert(lex_ok(src, st1.0, st1.1));
    }
    if t.kind != TokenType::Error && scan_spec(src, t.end, t.line_after).kind != TokenType::Error {
        if t.kind == TokenType::EOF {
            assert(lex_ok(src, pos, line));
            assert(lex_ok(src, t.end, t.line_after));
        } else {
            assert(pos < src.len());
            assert(bump(src, pos, t.end) == t.end);
            assert(lex_ok(src, pos, line) == lex_ok(src, t.end, t.line_after));
        }
    }
}


impl<'a> Compiler<'a> {
    /// `self` extends `base` by the code generated for `a`, with the
    /// current token scanned at `st` and `ni` number literals consumed,
    /// and no new error or diagnostic.
    pub open spec fn extended(self, base: Compiler<'a>, a: Ast, st: (int, int), ni: int) -> bool {
        let out = cg(a, base.compiling_chunk.constants@.len() as int);
        &&& self.compiling_chunk.code@ == base.compiling_chunk.code@ + out.code
        &&& self.compiling_chunk.lines@ == base.compiling_chunk.lines@ + out.lines
        &&& self.compiling_chunk.constants@ == base.compiling_chunk.constants@ + out.consts
        &&& self.cur_from@ == st
        &&& self.num_idx as int == ni
        &&& self.parser.has_error == base.parser.has_error
        &&& self.parser.panic_mode == base.parser.panic_mode
        &&& self.diagnostics == base.diagnostics
    }

    /// The bundle every parsing step preserves.
    pub open spec fn pwf(self) -> bool {
        &&& self.cwf()
        &&& self.cur_ok()
        &&& self.nums_ok()
        &&& self.lex_inv()
    }

    /// What every parsing function promises besides its own result: state
    /// soundness, an untouched source and number table, monotone errors
    /// and diagnostics, and forward movement.
    pub open spec fn step_frame(self, base: Compiler<'a>) -> bool {
        &&& self.pwf()
        &&& self.scanner.source == base.scanner.source
        &&& self.numbers == base.numbers
        &&& (base.parser.has_error ==> self.parser.has_error)
        &&& (base.parser.panic_mode ==> self.parser.panic_mode)
        &&& self.diagnostics@.len() >= base.diagnostics@.len()
        &&& self.cur_from@.0 >= base.cur_from@.0
    }

    /// The infix precedence of a token kind, from the rule table.
    fn rule_precedence(&self, token_type: TokenType) -> (r: u8)
        ensures
            r == infix_prec_s(token_type),
    {
        match token_type {
            TokenType::Minus => PREC_TERM,
            TokenType::Plus => PREC_TERM,
            TokenType::Slash => PREC_FACTOR,
            TokenType::Star => PREC_FACTOR,
            TokenType::BangEqual => PREC_EQUALITY,
            TokenType::EqualEqual => PREC_EQUALITY,
            TokenType::Greater => PREC_COMPARISON,
            TokenType::GreaterEqual => PREC_COMPARISON,
            TokenType::Less => PREC_COMPARISON,
            TokenType::LessEqual => PREC_COMPARISON,
            _ => PREC_NONE,
        }
    }

    /// Emits the constant-load instruction for the number literal just
    /// consumed, whose encoding is next in the number table.
    fn number(&mut self)
        requires
            old(self).num_idx < old(self).numbers@.len(),
        ensures
            final(self).compiling_chunk.code@ == old(self).compiling_chunk.code@.push(
                OpCode::Constant(old(self).compiling_chunk.constants@.len() as usize),
            ),
            final(self).compiling_chunk.lines@ == old(self).compiling_chunk.lines@.push(
                old(self).parser.previous.line,
            ),
            final(self).compiling_chunk.constants@ == old(self).compiling_chunk.constants@.push(
                Value::Number(old(self).numbers@[old(self).num_idx as int]),
            ),
            final(self).num_idx == old(self).num_idx + 1,
            final(self).scanner == old(self).scanner,
            final(self).parser == old(self).parser,
            final(self).diagnostics == old(self).diagnostics,
            final(self).numbers == old(self).numbers,
            final(self).cur_from == old(self).cur_from,
    {
        let n = self.numbers.len();
        let value = self.numbers[self.num_idx];
        self.num_idx = self.num_idx + 1;
        self.emit_constant(Value::Number(value));
    }

    /// Emits the instruction for the literal keyword just consumed.
    fn literal(&mut self)
        requires
            old(self).parser.previous.token_type == TokenType::False || old(
                self,
            ).parser.previous.token_type == TokenType::Nil || old(self).parser.previous.token_type
                == TokenType::True,
        ensures
            final(self).compiling_chunk.code@ == old(self).compiling_chunk.code@.push(
                match old(self).parser.previous.token_type {
                    TokenType::False => OpCode::False,
                    TokenType::Nil => OpCode::Nil,
                    _ => OpCode::True,
                },
            ),
            final(self).compiling_chunk.lines@ == old(self).compiling_chunk.lines@.push(
                old(self).parser.previous.line,
            ),
            final(self).compiling_chunk.constants@ == old(self).compiling_chunk.constants@,
            final(self).num_idx == old(self).num_idx,
            final(self).scanner == old(self).scanner,
            final(self).parser == old(self).parser,
            final(self).diagnostics == old(self).diagnostics,
            final(self).numbers == old(self).numbers,
            final(self).cur_from == old(self).cur_from,
    {
        match self.parser.previous.token_type {
            TokenType::False => self.emit_byte(OpCode::False),
            TokenType::Nil => self.emit_byte(OpCode::Nil),
            TokenType::True => self.emit_byte(OpCode::True),
            _ => {
                proof {
                    assert(false);
                }
            },
        }
    }

    /// Parses the expression inside a grouping, whose opening delimiter
    /// was just consumed, and requires the matching closing one.
    #[verifier::rlimit(50)]
    fn grouping(&mut self)
        requires
            old(self).pwf(),
        ensures
            final(self).step_frame(*old(self)),
            ({
                let src = old(self).src();
                let inner = sp_prec(
                    src,
                    old(self).cur_from@.0,
                    old(self).cur_from@.1,
                    PREC_ASSIGNMENT,
                    old(self).numbers@,
                    old(self).num_idx as int,
                );
                let t2 = scan_spec(src, inner.pos, inner.line);
                lex_ok(src, old(self).cur_from@.0, old(self).cur_from@.1) ==> {
                    &&& (inner.ok && t2.kind == TokenType::RightParen ==> final(self).extended(
                        *old(self),
                        inner.ast,
                        (bump(src, inner.pos, t2.end), t2.line_after),
                        inner.ni,
                    ) && final(self).parser.previous.line as int == t2.line && lex_ok(
                        src,
                        bump(src, inner.pos, t2.end),
                        t2.line_after,
                    ))
                    &&& (!(inner.ok && t2.kind == TokenType::RightParen) ==> final(self).parser.has_error)
                }
            }),
        decreases old(self).src().len() - old(self).cur_from@.0, 4int,
    {
        let ghost base = *self;
        let ghost src = self.src();
        let ghost l_entry = lex_ok(src, self.cur_from@.0, self.cur_from@.1);
        let ghost inner = sp_prec(
            src,
            self.cur_from@.0,
            self.cur_from@.1,
            PREC_ASSIGNMENT,
            self.numbers@,
            self.num_idx as int,
        );
        proof {
            lemma_sp_pos(
                src,
                self.cur_from@.0,
                self.cur_from@.1,
                PREC_ASSIGNMENT,
                self.numbers@,
                self.num_idx as int,
            );
        }
        self.expression();
        let ghost mid = *self;
        let ghost t2 = scan_spec(src, inner.pos, inner.line);
        self.consume(TokenType::RightParen, "Expect ')' after expression.");
        proof {
            if mid.parser.current.token_type == TokenType::RightParen {
                lemma_scan_bounds(src, mid.cur_from@.0, mid.cur_from@.1);
                lemma_advance_state(src, mid.cur_from@.0, mid.cur_from@.1);
                lemma_num_count_nonneg(src, self.cur_from@.0, self.cur_from@.1);
            }
            if l_entry && inner.ok && t2.kind == TokenType::RightParen {
                assert(mid.extended(base, inner.ast, (inner.pos, inner.line), inner.ni));
                assert(lex_ok(src, inner.pos, inner.line));
                assert(mid.parser.current.token_type == t2.kind);
                lemma_advance_state(src, inner.pos, inner.line);
                assert(skip_errs(src, t2.end, t2.line_after) == (t2.end, t2.line_after));
                assert(bump(src, inner.pos, t2.end) == t2.end) by {
                    lemma_scan_bounds(src, inner.pos, inner.line);
                }
                assert(self.extended(
                    base,
                    inner.ast,
                    (bump(src, inner.pos, t2.end), t2.line_after),
                    inner.ni,
                ));
            }
        }
    }

    /// Parses any expression.
    fn expression(&mut self)
        requires
            old(self).pwf(),
        ensures
            final(self).step_frame(*old(self)),
            ({
                let src = old(self).src();
                let r = sp_prec(
                    src,
                    old(self).cur_from@.0,
                    old(self).cur_from@.1,
                    PREC_ASSIGNMENT,
                    old(self).numbers@,
                    old(self).num_idx as int,
                );
                lex_ok(src, old(self).cur_from@.0, old(self).cur_from@.1) ==> {
                    &&& (r.ok ==> final(self).extended(*old(self), r.ast, (r.pos, r.line), r.ni)
                        && final(self).parser.previous.line as int == r.prev_line && lex_ok(
                        src,
                        r.pos,
                        r.line,
                    ))
                    &&& (!r.ok ==> final(self).parser.has_error)
                }
            }),
        decreases old(self).src().len() - old(self).cur_from@.0, 3int,
    {
        self.parse_precedence(PREC_ASSIGNMENT);
    }

    /// Parses the operand of the unary operator just consumed and emits
    /// the operator's instruction.
    #[verifier::rlimit(50)]
    fn unary(&mut self)
        requires
            old(self).pwf(),
            old(self).parser.previous.token_type == TokenType::Minus || old(
                self,
            ).parser.previous.token_type == TokenType::Bang,
        ensures
            final(self).step_frame(*old(self)),
            ({
                let src = old(self).src();
                let op = if old(self).parser.previous.token_type == TokenType::Minus {
                    UnOp::Negate
                } else {
                    UnOp::Not
                };
                let r = sp_prec(
                    src,
                    old(self).cur_from@.0,
                    old(self).cur_from@.1,
                    PREC_UNARY,
                    old(self).numbers@,
                    old(self).num_idx as int,
                );
                lex_ok(src, old(self).cur_from@.0, old(self).cur_from@.1) ==> {
                    &&& (r.ok ==> final(self).extended(
                        *old(self),
                        Ast::Unary { op, line: r.prev_line, sub: Box::new(r.ast) },
                        (r.pos, r.line),
                        r.ni,
                    ) && lex_ok(src, r.pos, r.line) && final(self).parser.previous.line
                        == r.prev_line)
                    &&& (!r.ok ==> final(self).parser.has_error)
                }
            }),
        decreases old(self).src().len() - old(self).cur_from@.0, 4int,
    {
        let ghost base = *self;
        let ghost src = self.src();
        let ghost l_entry = lex_ok(src, self.cur_from@.0, self.cur_from@.1);
        let ghost r = sp_prec(
            src,
            self.cur_from@.0,
            self.cur_from@.1,
            PREC_UNARY,
            self.numbers@,
            self.num_idx as int,
        );
        let operator_type = self.parser.previous.token_type;
        // Compile the operand.
        self.parse_precedence(PREC_UNARY);
        // Emit the operator instruction.
        let ghost mid = *self;
        match operator_type {
            TokenType::Bang => self.emit_byte(OpCode::Not),
            TokenType::Minus => self.emit_byte(OpCode::Negate),
            _ => {
                proof {
                    assert(false);
                }
            },
        }
        proof {
            if l_entry && r.ok {
                let op = if operator_type == TokenType::Minus {
                    UnOp::Negate
                } else {
                    UnOp::Not
                };
                let a = Ast::Unary { op, line: r.prev_line, sub: Box::new(r.ast) };
                let out = cg(a, base.compiling_chunk.constants@.len() as int);
                assert(mid.parser.previous.line == r.prev_line);
                assert(self.compiling_chunk.code@ =~= base.compiling_chunk.code@ + out.code);
                assert(self.compiling_chunk.lines@ =~= base.compiling_chunk.lines@ + out.lines);
                assert(self.compiling_chunk.constants@ =~= base.compiling_chunk.constants@
                    + out.consts);
            }
        }
    }

    /// Parses the right operand of the binary operator just consumed, one
    /// precedence level up for left associativity, and emits the
    /// operator's instruction or two-instruction composition.
    #[verifier::rlimit(50)]
    fn binary(&mut self)
        requires
            old(self).pwf(),
            infix_prec_s(old(self).parser.previous.token_type) >= 1,
        ensures
            final(self).step_frame(*old(self)),
            ({
                let src = old(self).src();
                let kind = old(self).parser.previous.token_type;
                let r = sp_prec(
                    src,
                    old(self).cur_from@.0,
                    old(self).cur_from@.1,
                    (infix_prec_s(kind) + 1) as u8,
                    old(self).numbers@,
                    old(self).num_idx as int,
                );
                lex_ok(src, old(self).cur_from@.0, old(self).cur_from@.1) ==> {
                    &&& (r.ok ==> ({
                        let base_k = old(self).compiling_chunk.constants@.len() as int;
                        let out = cg(r.ast, base_k);
                        let ops = bin_opcodes(bin_of(kind));
                        &&& final(self).compiling_chunk.code@ == old(
                            self,
                        ).compiling_chunk.code@ + out.code + ops
                        &&& final(self).compiling_chunk.lines@ == old(
                            self,
                        ).compiling_chunk.lines@ + out.lines + Seq::new(
                            ops.len(),
                            |i: int| r.prev_line,
                        )
                        &&& final(self).compiling_chunk.constants@ == old(
                            self,
                        ).compiling_chunk.constants@ + out.consts
                        &&& final(self).cur_from@ == (r.pos, r.line)
                        &&& final(self).num_idx as int == r.ni
                        &&& final(self).parser.has_error == old(self).parser.has_error
                        &&& final(self).parser.panic_mode == old(self).parser.panic_mode
                        &&& final(self).diagnostics == old(self).diagnostics
                        &&& final(self).parser.previous.line == r.prev_line
                        &&& lex_ok(src, r.pos, r.line)
                    }))
                    &&& (!r.ok ==> final(self).parser.has_error)
                }
            }),
        decreases old(self).src().len() - old(self).cur_from@.0, 4int,
    {
        let ghost base = *self;
        let ghost src = self.src();
        let ghost l_entry = lex_ok(src, self.cur_from@.0, self.cur_from@.1);
        let operator_type = self.parser.previous.token_type;
        let rule_prec = self.rule_precedence(operator_type);
        let ghost r = sp_prec(
            src,
            self.cur_from@.0,
            self.cur_from@.1,
            (infix_prec_s(operator_type) + 1) as u8,
            self.numbers@,
            self.num_idx as int,
        );
        self.parse_precedence(rule_prec + 1);
        let ghost mid = *self;
        match operator_type {
            TokenType::BangEqual => self.emit_bytes(OpCode::Equal, OpCode::Not),
            TokenType::EqualEqual => self.emit_byte(OpCode::Equal),
            TokenType::Greater => self.emit_byte(OpCode::Greater),
            TokenType::GreaterEqual => self.emit_bytes(OpCode::Less, OpCode::Not),
            TokenType::Less => self.emit_byte(OpCode::Less),
            TokenType::LessEqual => self.emit_bytes(OpCode::Greater, OpCode::Not),
            TokenType::Plus => self.emit_byte(OpCode::Add),
            TokenType::Minus => self.emit_byte(OpCode::Subtract),
            TokenType::Star => self.emit_byte(OpCode::Multiply),
            TokenType::Slash => self.emit_byte(OpCode::Divide),
            _ => {
                proof {
                    assert(false);
                }
            },
        }
        proof {
            if l_entry && r.ok {
                let base_k = base.compiling_chunk.constants@.len() as int;
                let out = cg(r.ast, base_k);
                let ops = bin_opcodes(bin_of(operator_type));
                assert(mid.parser.previous.line == r.prev_line);
                assert(self.compiling_chunk.code@ =~= base.compiling_chunk.code@ + out.code
                    + ops);
                assert(self.compiling_chunk.lines@ =~= base.compiling_chunk.lines@ + out.lines
                    + Seq::new(ops.len(), |i: int| r.prev_line));
                assert(self.compiling_chunk.constants@ =~= base.compiling_chunk.constants@
                    + out.consts);
            }
        }
    }

    /// Consumes one token and compiles it as a prefix: a literal, a
    /// grouping, or a unary operator. Returns whether the consumed token
    /// can begin an expression; when it cannot, the error is recorded.
    #[verifier::rlimit(100)]
    #[verifier::spinoff_prover]
    fn parse_prefix(&mut self) -> (r: bool)
        requires
            old(self).pwf(),
        ensures
            final(self).step_frame(*old(self)),
            r == has_prefix_s(
                scan_spec(old(self).src(), old(self).cur_from@.0, old(self).cur_from@.1).kind,
            ),
            r ==> final(self).cur_from@.0 > old(self).cur_from@.0,
            !r ==> final(self).parser.has_error && !sp_prefix(
                old(self).src(),
                old(self).cur_from@.0,
                old(self).cur_from@.1,
                old(self).numbers@,
                old(self).num_idx as int,
            ).ok,
            ({
                let src = old(self).src();
                let p = sp_prefix(
                    src,
                    old(self).cur_from@.0,
                    old(self).cur_from@.1,
                    old(self).numbers@,
                    old(self).num_idx as int,
                );
                lex_ok(src, old(self).cur_from@.0, old(self).cur_from@.1) ==> {
                    &&& (p.ok ==> final(self).extended(*old(self), p.ast, (p.pos, p.line), p.ni)
                        && final(self).parser.previous.line == p.prev_line && lex_ok(
                        src,
                        p.pos,
                        p.line,
                    ))
                    &&& (!p.ok ==> final(self).parser.has_error)
                }
            }),
        decreases old(self).src().len() - old(self).cur_from@.0, 1int,
    {
        let ghost base = *self;
        let ghost src = self.src();
        let ghost pos0 = self.cur_from@.0;
        let ghost line0 = self.cur_from@.1;
        let ghost nums = self.numbers@;
        let ghost ni0 = self.num_idx as int;
        let ghost l_entry = lex_ok(src, pos0, line0);
        let ghost t0 = scan_spec(src, pos0, line0);
        let ghost p_spec = sp_prefix(src, pos0, line0, nums, ni0);
        proof {
                reveal(sp_prefix);
            lemma_scan_bounds(src, pos0, line0);
            lemma_advance_state(src, pos0, line0);
            lemma_num_count_nonneg(
                src,
                skip_errs(src, t0.end, t0.line_after).0,
                skip_errs(src, t0.end, t0.line_after).1,
            );
            if pos0 >= src.len() {
                assert(t0.kind == TokenType::EOF);
            }
        }
        self.advance();
        let prev_type = self.parser.previous.token_type;
        match prev_type {
            TokenType::LeftParen => {
                self.grouping();
                proof {
                reveal(sp_prefix);
                    if l_entry {
                        let inner = sp_prec(src, t0.end, t0.line_after, PREC_ASSIGNMENT, nums, ni0);
                        let t2 = scan_spec(src, inner.pos, inner.line);
                        lemma_sp_pos(src, t0.end, t0.line_after, PREC_ASSIGNMENT, nums, ni0);
                        if inner.ok {
                            lemma_scan_bounds(src, inner.pos, inner.line);
                            if t2.kind == TokenType::RightParen {
                                assert(bump(src, inner.pos, t2.end) == t2.end);
                                assert(bump(src, pos0, t2.end) == t2.end);
                                assert(self.extended(base, p_spec.ast, (p_spec.pos, p_spec.line), p_spec.ni));
                            }
                        }
                    }
                    assert(self.cur_from@.0 > pos0);
                }
                true
            },
            TokenType::Minus | TokenType::Bang => {
                self.unary();
                proof {
                reveal(sp_prefix);
                    if l_entry {
                        let rr = sp_prec(src, t0.end, t0.line_after, PREC_UNARY, nums, ni0);
                        lemma_sp_pos(src, t0.end, t0.line_after, PREC_UNARY, nums, ni0);
                        if rr.ok {
                            assert(bump(src, pos0, rr.pos) == rr.pos);
                            assert(self.extended(base, p_spec.ast, (p_spec.pos, p_spec.line), p_spec.ni));
                        }
                    }
                    assert(self.cur_from@.0 > pos0);
                }
                true
            },
            TokenType::Number => {
                self.number();
                proof {
                reveal(sp_prefix);
                    if l_entry {
                        let bl = base.compiling_chunk.constants@.len() as int;
                        let out = cg(p_spec.ast, bl);
                        assert(self.compiling_chunk.code@ =~= base.compiling_chunk.code@
                            + out.code);
                        assert(self.compiling_chunk.lines@ =~= base.compiling_chunk.lines@
                            + out.lines);
                        assert(self.compiling_chunk.constants@ =~= base.compiling_chunk.constants@
                            + out.consts);
                        assert(self.extended(base, p_spec.ast, (p_spec.pos, p_spec.line), p_spec.ni));
                    }
                    assert(self.cur_from@.0 > pos0);
                }
                true
            },
            TokenType::False | TokenType::Nil | TokenType::True => {
                self.literal();
                proof {
                reveal(sp_prefix);
                    if l_entry {
                        let bl = base.compiling_chunk.constants@.len() as int;
                        let out = cg(p_spec.ast, bl);
                        assert(self.compiling_chunk.code@ =~= base.compiling_chunk.code@
                            + out.code);
                        assert(self.compiling_chunk.lines@ =~= base.compiling_chunk.lines@
                            + out.lines);
                        assert(self.compiling_chunk.constants@ =~= base.compiling_chunk.constants@
                            + out.consts);
                        assert(self.extended(base, p_spec.ast, (p_spec.pos, p_spec.line), p_spec.ni));
                    }
                    assert(self.cur_from@.0 > pos0);
                }
                true
            },
            _ => {
                self.error("Expect expression.");
                proof {
                reveal(sp_prefix);
                    assert(!p_spec.ok);
                }
                false
            },
        }
    }

    /// One infix step: consumes the operator at the current token and
    /// compiles its right operand and instruction.
    #[verifier::rlimit(100)]
    #[verifier::spinoff_prover]
    fn infix_step(&mut self, precedence: u8)
        requires
            old(self).pwf(),
            1 <= precedence,
            infix_prec_s(
                scan_spec(old(self).src(), old(self).cur_from@.0, old(self).cur_from@.1).kind,
            ) >= precedence,
        ensures
            final(self).step_frame(*old(self)),
            final(self).cur_from@.0 > old(self).cur_from@.0,
            ({
                let src = old(self).src();
                let posl = old(self).cur_from@.0;
                let linel = old(self).cur_from@.1;
                let tl = scan_spec(src, posl, linel);
                let rr = sp_prec(
                    src,
                    bump(src, posl, tl.end),
                    tl.line_after,
                    (infix_prec_s(tl.kind) + 1) as u8,
                    old(self).numbers@,
                    old(self).num_idx as int,
                );
                lex_ok(src, posl, linel) ==> {
                    &&& (rr.ok ==> ({
                        let base_k = old(self).compiling_chunk.constants@.len() as int;
                        let out = cg(rr.ast, base_k);
                        let ops = bin_opcodes(bin_of(tl.kind));
                        &&& final(self).compiling_chunk.code@ == old(
                            self,
                        ).compiling_chunk.code@ + out.code + ops
                        &&& final(self).compiling_chunk.lines@ == old(
                            self,
                        ).compiling_chunk.lines@ + out.lines + Seq::new(
                            ops.len(),
                            |i: int| rr.prev_line,
                        )
                        &&& final(self).compiling_chunk.constants@ == old(
                            self,
                        ).compiling_chunk.constants@ + out.consts
                        &&& final(self).cur_from@ == (rr.pos, rr.line)
                        &&& final(self).num_idx as int == rr.ni
                        &&& final(self).parser.has_error == old(self).parser.has_error
                        &&& final(self).parser.panic_mode == old(self).parser.panic_mode
                        &&& final(self).diagnostics == old(self).diagnostics
                        &&& final(self).parser.previous.line == rr.prev_line
                        &&& lex_ok(src, rr.pos, rr.line)
                    }))
                    &&& (!rr.ok ==> final(self).parser.has_error)
                }
            }),
        decreases old(self).src().len() - old(self).cur_from@.0, 1int,
    {
        let ghost src = self.src();
        let ghost posl = self.cur_from@.0;
        let ghost linel = self.cur_from@.1;
        let ghost tl = scan_spec(src, posl, linel);
        proof {
            lemma_scan_bounds(src, posl, linel);
            lemma_advance_state(src, posl, linel);
            assert(posl < src.len()) by {
                if posl >= src.len() {
                    assert(tl.kind == TokenType::EOF);
                }
            }
            assert(bump(src, posl, tl.end) == tl.end);
        }
        self.advance();
        self.binary();
    }

    /// The heart of the parser: compiles one token as a prefix, then folds
    /// in every following binary operator of at least the given
    /// precedence.
    #[verifier::rlimit(100)]
    #[verifier::spinoff_prover]
    fn parse_precedence(&mut self, precedence: u8)
        requires
            old(self).pwf(),
            1 <= precedence,
        ensures
            final(self).step_frame(*old(self)),
            ({
                let src = old(self).src();
                let r = sp_prec(
                    src,
                    old(self).cur_from@.0,
                    old(self).cur_from@.1,
                    precedence,
                    old(self).numbers@,
                    old(self).num_idx as int,
                );
                lex_ok(src, old(self).cur_from@.0, old(self).cur_from@.1) ==> {
                    &&& (r.ok ==> final(self).extended(*old(self), r.ast, (r.pos, r.line), r.ni)
                        && final(self).parser.previous.line as int == r.prev_line && lex_ok(
                        src,
                        r.pos,
                        r.line,
                    ))
                    &&& (!r.ok ==> final(self).parser.has_error)
                }
            }),
        decreases old(self).src().len() - old(self).cur_from@.0, 2int,
    {
        let ghost base = *self;
        let ghost src = self.src();
        let ghost pos0 = self.cur_from@.0;
        let ghost line0 = self.cur_from@.1;
        let ghost nums = self.numbers@;
        let ghost ni0 = self.num_idx as int;
        let ghost l_entry = lex_ok(src, pos0, line0);
        let ghost p_spec = sp_prefix(src, pos0, line0, nums, ni0);
        let ghost r_spec = sp_prec(src, pos0, line0, precedence, nums, ni0);
        let had_prefix = self.parse_prefix();
        if !had_prefix {
            proof {
                reveal(sp_prec);
                assert(!r_spec.ok);
            }
            return ;
        }
        let ghost mut acc: Ast = p_spec.ast;
        let ghost mut tracking: bool = false;
        proof {
            reveal(sp_prec);
            lemma_sp_prefix_pos(src, pos0, line0, nums, ni0);
            if l_entry {
                if p_spec.ok {
                    tracking = true;
                    assert(bump(src, pos0, p_spec.pos) == p_spec.pos);
                    assert(r_spec == sp_loop(
                        src,
                        acc,
                        self.cur_from@.0,
                        self.cur_from@.1,
                        precedence,
                        nums,
                        self.num_idx as int,
                        self.parser.previous.line,
                    ));
                } else {
                    assert(!r_spec.ok && self.parser.has_error);
                }
            }
        }
        loop
            invariant
                base == *old(self),
                pos0 == old(self).cur_from@.0,
                line0 == old(self).cur_from@.1,
                src == old(self).src(),
                nums == old(self).numbers@,
                ni0 == old(self).num_idx as int,
                l_entry == lex_ok(src, pos0, line0),
                r_spec == sp_prec(src, pos0, line0, precedence, nums, ni0),
                self.pwf(),
                self.scanner.source == base.scanner.source,
                self.numbers == base.numbers,
                base.parser.has_error ==> self.parser.has_error,
                base.parser.panic_mode ==> self.parser.panic_mode,
                self.diagnostics@.len() >= base.diagnostics@.len(),
                pos0 < self.cur_from@.0,
                src == self.src(),
                l_entry ==> (if tracking {
                    &&& r_spec == sp_loop(
                        src,
                        acc,
                        self.cur_from@.0,
                        self.cur_from@.1,
                        precedence,
                        nums,
                        self.num_idx as int,
                        self.parser.previous.line,
                    )
                    &&& self.extended(base, acc, self.cur_from@, self.num_idx as int)
                    &&& lex_ok(src, self.cur_from@.0, self.cur_from@.1)
                } else {
                    !r_spec.ok && self.parser.has_error
                }),
                1 <= precedence,
            decreases self.src().len() - self.cur_from@.0,
        {
            let cur_type = self.parser.current.token_type;
            let cur_prec = self.rule_precedence(cur_type);
            if !(precedence <= cur_prec) {
                proof {
                    if l_entry && tracking {
                        lemma_sp_loop_exit(
                            src,
                            acc,
                            self.cur_from@.0,
                            self.cur_from@.1,
                            precedence,
                            nums,
                            self.num_idx as int,
                            self.parser.previous.line,
                        );
                    }
                }
                return ;
            }
            let ghost posl = self.cur_from@.0;
            let ghost linel = self.cur_from@.1;
            let ghost tl = scan_spec(src, posl, linel);
            let ghost nil = self.num_idx as int;
            let ghost accl = acc;
            let ghost prevl = self.parser.previous.line;
            let ghost basec = self.compiling_chunk;
            self.infix_step(precedence);
            proof {
                if l_entry && tracking {
                    let rr = sp_prec(
                        src,
                        bump(src, posl, tl.end),
                        tl.line_after,
                        (infix_prec_s(tl.kind) + 1) as u8,
                        nums,
                        nil,
                    );
                    lemma_sp_loop_unfold(src, accl, posl, linel, precedence, nums, nil, prevl);
                    if rr.ok {
                        lemma_sp_pos(
                            src,
                            bump(src, posl, tl.end),
                            tl.line_after,
                            (infix_prec_s(tl.kind) + 1) as u8,
                            nums,
                            nil,
                        );
                        assert(bump(src, posl, rr.pos) == rr.pos);
                        let acc2 = Ast::Binary {
                            op: bin_of(tl.kind),
                            line: rr.prev_line,
                            lhs: Box::new(accl),
                            rhs: Box::new(rr.ast),
                        };
                        acc = acc2;
                        let bl = base.compiling_chunk.constants@.len() as int;
                        lemma_cg_binary(bin_of(tl.kind), rr.prev_line, accl, rr.ast, bl);
                        let out2 = cg(acc2, bl);
                        assert(self.compiling_chunk.code@ =~= base.compiling_chunk.code@
                            + out2.code);
                        assert(self.compiling_chunk.lines@ =~= base.compiling_chunk.lines@
                            + out2.lines);
                        assert(self.compiling_chunk.constants@ =~= base.compiling_chunk.constants@
                            + out2.consts);
                        assert(self.extended(base, acc, self.cur_from@, self.num_idx as int));
                    } else {
                        assert(!r_spec.ok && self.parser.has_error);
                        tracking = false;
                    }
                }
            }
        }
    }
}


impl<'a> Compiler<'a> {
    /// A compiler over `source`, handed the IEEE 754 encodings of the
    /// source's number literals in order of appearance (see
    /// [`number_literals`]).
    pub fn new(source: &'a str, numbers: Vec<u64>) -> (r: Self)
        requires
            source@.len() < usize::MAX,
            numbers@.len() == num_count(source@, 0, 1),
        ensures
            r.fresh(),
            r.src() == source@,
            r.numbers == numbers,
    {
        Compiler {
            scanner: Scanner::new(source),
            parser: Parser {
                current: Token { token_type: TokenType::EOF, line: 0, lexeme: "" },
                previous: Token { token_type: TokenType::EOF, line: 0, lexeme: "" },
                has_error: false,
                panic_mode: false,
            },
            compiling_chunk: Chunk::new(),
            diagnostics: Vec::new(),
            numbers,
            num_idx: 0,
            cur_from: Ghost((0, 1)),
        }
    }

    /// A compiler that has not started: the scanner at the beginning, no
    /// errors, no diagnostics, and the number table complete.
    pub open spec fn fresh(self) -> bool {
        &&& self.scanner.wf()
        &&& self.scanner.pos() == 0
        &&& self.scanner.line_no() == 1
        &&& !self.parser.has_error
        &&& !self.parser.panic_mode
        &&& self.num_idx == 0
        &&& self.numbers@.len() == num_count(self.src(), 0, 1)
        &&& self.diagnostics@.len() == 0
    }

    /// Appends the trailing return instruction that ends every unit.
    fn end_compiler(&mut self)
        ensures
            final(self).compiling_chunk.code@ == old(self).compiling_chunk.code@.push(
                OpCode::Return,
            ),
            final(self).compiling_chunk.lines@ == old(self).compiling_chunk.lines@.push(
                old(self).parser.previous.line,
            ),
            final(self).compiling_chunk.constants@ == old(self).compiling_chunk.constants@,
            final(self).scanner == old(self).scanner,
            final(self).parser == old(self).parser,
            final(self).diagnostics == old(self).diagnostics,
            final(self).numbers == old(self).numbers,
            final(self).num_idx == old(self).num_idx,
            final(self).cur_from == old(self).cur_from,
    {
        self.emit_return();
    }

    /// Compiles the source to a unit: scans and parses one expression,
    /// requires the end of input after it, and appends a trailing return.
    /// Returns the unit exactly when no error was recorded, which is
    /// exactly when the source is lexically clean and one well-formed
    /// expression; the unit is then the generated code of the expression
    /// the source parses to. On failure at least one diagnostic is
    /// recorded.
    #[verifier::rlimit(100)]
    #[verifier::spinoff_prover]
    pub fn compile(&mut self) -> (r: Option<Chunk>)
        requires
            old(self).fresh(),
        ensures
            ({
                let src = old(self).src();
                let nums = old(self).numbers@;
                let pr = sp_prec(src, 0, 1, PREC_ASSIGNMENT, nums, 0);
                match r {
                    Some(chunk) => {
                        &&& compile_ok(src, nums)
                        &&& chunk.code@ == cg(pr.ast, 0).code.push(OpCode::Return)
                        &&& chunk.lines@ == cg(pr.ast, 0).lines.push(
                            (scan_spec(src, pr.pos, pr.line).line) as usize,
                        )
                        &&& chunk.constants@ == cg(pr.ast, 0).consts
                        &&& final(self).diagnostics@.len() == 0
                    },
                    None => {
                        &&& !compile_ok(src, nums)
                        &&& final(self).diagnostics@.len() >= 1
                    },
                }
            }),
    {
        let ghost src = self.src();
        let ghost nums = self.numbers@;
        let ghost l0 = lex_ok(src, 0, 1);
        let ghost pr = sp_prec(src, 0, 1, PREC_ASSIGNMENT, nums, 0);
        self.compiling_chunk = Chunk::new();
        proof {
            lemma_advance_state(src, 0, 1);
            lemma_skip_errs(src, 0, 1);
            lemma_num_count_nonneg(src, skip_errs(src, 0, 1).0, skip_errs(src, 0, 1).1);
        }
        self.advance();
        proof {
            if l0 {
                assert(scan_spec(src, 0, 1).kind != TokenType::Error) by {
                    lemma_lex_step(src, 0, 1);
                }
                assert(skip_errs(src, 0, 1) == (0int, 1int));
                assert(self.cur_from@ == (0int, 1int));
            }
            if !self.parser.has_error {
                assert(skip_errs(src, 0, 1) == (self.cur_from@.0, self.cur_from@.1));
            }
        }
        let ghost mid0 = *self;
        self.expression();
        let ghost mid1 = *self;
        let ghost t_end = scan_spec(src, pr.pos, pr.line);
        proof {
            if l0 && pr.ok {
                assert(mid1.extended(mid0, pr.ast, (pr.pos, pr.line), pr.ni));
                lemma_sp_pos(src, 0, 1, PREC_ASSIGNMENT, nums, 0);
                lemma_advance_state(src, pr.pos, pr.line);
            }
        }
        self.consume(TokenType::EOF, "Expect end of expression.");
        self.end_compiler();
        proof {
            if compile_ok(src, nums) {
                assert(l0 && pr.ok && t_end.kind == TokenType::EOF);
                assert(!mid0.parser.has_error);
                assert(mid1.parser.current.token_type == TokenType::EOF);
                assert(!self.parser.has_error);
            }
            if !self.parser.has_error {
                assert(lex_ok(src, self.cur_from@.0, self.cur_from@.1)) by {
                    assert(scan_spec(src, self.cur_from@.0, self.cur_from@.1).kind
                        == self.parser.current.token_type);
                }
                assert(l0);
                assert(pr.ok) by {
                    assert(mid0.cur_from@ == (0int, 1int));
                }
                assert(mid1.parser.current.token_type == t_end.kind);
                assert(t_end.kind == TokenType::EOF);
                assert(compile_ok(src, nums));
            }
        }
        if self.parser.has_error {
            None
        } else {
            let mut out = Chunk::new();
            core::mem::swap(&mut out, &mut self.compiling_chunk);
            proof {
                assert(out.code@ =~= cg(pr.ast, 0).code.push(OpCode::Return));
                assert(out.lines@ =~= cg(pr.ast, 0).lines.push((t_end.line) as usize));
                assert(out.constants@ =~= cg(pr.ast, 0).consts);
            }
            Some(out)
        }
    }
}


/// The central theorem of the language: a unit the compiler produced —
/// the generated code of the expression the source parses to, under
/// standard operator precedence and left associativity, with the trailing
/// return — computes exactly that expression's evaluation, whatever
/// arithmetic responses the host gives: the machine finishes with its
/// value, fails on its type fault with the inspected operands still on
/// the stack, or suspends on its pending arithmetic request. The one
/// hypothesis beyond the compiler's own contract is that the expression
/// fits the machine's fixed operand stack.
pub proof fn lemma_compiled_unit_correct(
    src: Seq<char>,
    nums: Seq<u64>,
    chunk: Chunk,
    rs: Seq<u64>,
)
    requires
        compile_ok(src, nums),
        ({
            let pr = sp_prec(src, 0, 1, PREC_ASSIGNMENT, nums, 0);
            &&& chunk.code@ == cg(pr.ast, 0).code.push(OpCode::Return)
            &&& chunk.lines@ == cg(pr.ast, 0).lines.push(
                (scan_spec(src, pr.pos, pr.line).line) as usize,
            )
            &&& chunk.constants@ == cg(pr.ast, 0).consts
        }),
        depth(compile_ast(src, nums)) <= STACK_MAX,
        chunk.constants@.len() <= usize::MAX,
    ensures
        ({
            let e = compile_ast(src, nums);
            match eval(e, rs) {
                EvalR::Val { v, used } => chunk_exec(chunk, 0, Seq::empty(), rs)
                    == (ExecOutcome::Done { value: v, stack: Seq::empty() }),
                EvalR::Fault { line, unary, ops } => chunk_exec(chunk, 0, Seq::empty(), rs)
                    == (ExecOutcome::Fail { line, unary, stack: ops }),
                EvalR::Short { op, a, b } => chunk_exec(chunk, 0, Seq::empty(), rs)
                    == (ExecOutcome::Need { op, a, b }),
            }
        }),
{
    let pr = sp_prec(src, 0, 1, PREC_ASSIGNMENT, nums, 0);
    let e = pr.ast;
    let out = cg(e, 0);
    lemma_cg_lens(e, 0);
    let n = out.code.len() as int;
    assert(chunk.code@.subrange(0, n) =~= out.code);
    assert(chunk.lines@.subrange(0, n) =~= out.lines);
    assert(chunk.constants@.subrange(0, out.consts.len() as int) =~= out.consts);
    assert(seg_at(chunk, 0, 0, e));
    lemma_cg_correct(e, chunk, 0, Seq::empty(), rs, 0);
    match eval(e, rs) {
        EvalR::Val { v, used } => {
            let s1 = Seq::empty().push(v);
            assert(chunk.code@[n] == OpCode::Return);
            assert(chunk_exec(chunk, n, s1, rs.skip(used)) == (ExecOutcome::Done {
                value: v,
                stack: s1.take(0),
            }));
            assert(s1.take(0) =~= Seq::<crate::value::Value>::empty());
        },
        EvalR::Fault { line, unary, ops } => {
            assert(Seq::empty() + ops =~= ops);
        },
        EvalR::Short { op, a, b } => {
        },
    }
}

/// The lexemes of the number tokens of a stream, in order.
pub open spec fn num_lexemes(src: Seq<char>, pos: int, line: int) -> Seq<Seq<char>>
    decreases src.len() - pos,
{
    if pos < 0 || pos >= src.len() {
        Seq::empty()
    } else {
        let t = scan_spec(src, pos, line);
        if t.kind == TokenType::EOF {
            Seq::empty()
        } else if t.kind == TokenType::Number {
            seq![t.lexeme] + num_lexemes(src, bump(src, pos, t.end), t.line_after)
        } else {
            num_lexemes(src, bump(src, pos, t.end), t.line_after)
        }
    }
}

/// The number streams agree in length.
pub proof fn lemma_num_lexemes_len(src: Seq<char>, pos: int, line: int)
    ensures
        num_lexemes(src, pos, line).len() == num_count(src, pos, line),
    decreases src.len() - pos,
{
    if 0 <= pos < src.len() {
        let t = scan_spec(src, pos, line);
        if t.kind != TokenType::EOF {
            lemma_num_lexemes_len(src, bump(src, pos, t.end), t.line_after);
        }
    }
}

/// Scans the whole source and returns the text of each number literal, in
/// order of appearance. The host parses each into an IEEE 754 double and
/// hands the encodings to [`Compiler::new`].
pub fn number_literals(source: &str) -> (r: Vec<String>)
    requires
        source@.len() < usize::MAX,
    ensures
        r@.len() == num_count(source@, 0, 1),
        forall|i: int|
            0 <= i < r@.len() ==> (#[trigger] r@[i])@ == num_lexemes(source@, 0, 1)[i],
{
    let ghost src = source@;
    let mut scanner = Scanner::new(source);
    let mut out: Vec<String> = Vec::new();
    proof {
        lemma_num_lexemes_len(src, 0, 1);
    }
    loop
        invariant
            src == source@,
            scanner.wf(),
            scanner.source@ == src,
            0 <= scanner.pos() <= src.len(),
            num_lexemes(src, 0, 1) == out@.map_values(|s: String| s@) + num_lexemes(
                src,
                scanner.pos(),
                scanner.line_no(),
            ),
            num_count(src, 0, 1) == out@.len() + num_count(src, scanner.pos(), scanner.line_no()),
        decreases src.len() - scanner.pos(),
    {
        let ghost p = scanner.pos();
        let ghost l = scanner.line_no();
        let ghost t = scan_spec(src, p, l);
        proof {
            lemma_scan_bounds(src, p, l);
            lemma_num_lexemes_len(src, p, l);
            lemma_num_lexemes_len(src, bump(src, p, t.end), t.line_after);
        }
        let tok = scanner.scan_token();
        if tok.token_type == TokenType::EOF {
            proof {
                if p < src.len() {
                    assert(num_lexemes(src, p, l) =~= Seq::<Seq<char>>::empty());
                } else {
                    assert(num_lexemes(src, p, l) =~= Seq::<Seq<char>>::empty());
                }
                assert(num_lexemes(src, 0, 1) =~= out@.map_values(|s: String| s@));
                lemma_num_lexemes_len(src, 0, 1);
            }
            return out;
        }
        proof {
            assert(p < src.len());
            assert(bump(src, p, t.end) == t.end);
        }
        if tok.token_type == TokenType::Number {
            let owned = String::from_str(tok.lexeme);
            out.push(owned);
            proof {
                assert(out@.map_values(|s: String| s@) =~= old_map_plus(out@, t.lexeme));
                assert(num_lexemes(src, 0, 1) =~= out@.map_values(|s: String| s@) + num_lexemes(
                    src,
                    scanner.pos(),
                    scanner.line_no(),
                ));
            }
        }
    }
}

/// The views of a string list after pushing one more string.
pub open spec fn old_map_plus(v: Seq<String>, last: Seq<char>) -> Seq<Seq<char>> {
    v.subrange(0, v.len() - 1).map_values(|s: String| s@).push(last)
}

} // verus!