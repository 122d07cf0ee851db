//! The specification-level syntax of the language: the expression an input
//! parses to, what evaluating it means, the code the compiler must emit
//! for it, and the proof that executing that code computes its value.
//!
//! Evaluation is relative to the sequence of responses the host gives for
//! the arithmetic operations, in evaluation order; everything else —
//! comparison, equality, negation, truthiness — is fully determined here.

use vstd::prelude::*;
use crate::chunk::{Chunk, OpCode};
use crate::value::{Value, falsey, val_eq, f64_gt, f64_lt, f64_neg};
use crate::vm::{ArithOp, ExecOutcome, chunk_exec, arith_exec, STACK_MAX};

verus! {

/// A unary operator of the language.
#[derive(Clone, Copy, Debug, PartialEq, Eq, Structural)]
pub enum UnOp {
    Not,
    Negate,
}

/// A binary operator of the language. The compound comparisons stand for
/// their two-instruction composition, never for a native ordering.
#[derive(Clone, Copy, Debug, PartialEq, Eq, Structural)]
pub enum BinOp {
    Equal,
    NotEqual,
    Greater,
    GreaterEq,
    Less,
    LessEq,
    Add,
    Subtract,
    Multiply,
    Divide,
}

/// An expression, each node carrying the source line its instruction is
/// recorded under: for a literal its own line, for an operator the line of
/// the last token of its (right) operand, which is the token that was
/// current when the instruction was emitted.
pub enum Ast {
    Num { bits: u64, line: usize },
    BoolLit { value: bool, line: usize },
    NilLit { line: usize },
    Unary { op: UnOp, line: usize, sub: Box<Ast> },
    Binary { op: BinOp, line: usize, lhs: Box<Ast>, rhs: Box<Ast> },
}

/// What evaluating an expression under a response sequence comes to:
/// a value consuming `used` responses; a type fault at `line`, with the
/// operand values `ops` that were under inspection; or an exhausted
/// response sequence, suspended on the operation `op`.
pub enum EvalR {
    Val { v: Value, used: int },
    Fault { line: usize, unary: bool, ops: Seq<Value> },
    Short { op: ArithOp, a: u64, b: u64 },
}

/// The arithmetic request a binary operator raises.
pub open spec fn arith_of(op: BinOp) -> ArithOp {
    match op {
        BinOp::Add => ArithOp::Add,
        BinOp::Subtract => ArithOp::Subtract,
        BinOp::Multiply => ArithOp::Multiply,
        BinOp::Divide => ArithOp::Divide,
        _ => ArithOp::Add,
    }
}

/// Applies a binary operator to two evaluated operands; `rest` is the
/// response sequence after the operands consumed `used` of it.
pub open spec fn bin_apply(
    op: BinOp,
    line: usize,
    a: Value,
    b: Value,
    rest: Seq<u64>,
    used: int,
) -> EvalR {
    match op {
        BinOp::Equal => EvalR::Val { v: Value::Bool(val_eq(a, b)), used },
        BinOp::NotEqual => EvalR::Val { v: Value::Bool(!val_eq(a, b)), used },
        _ => {
            if a is Number && b is Number {
                let x = a->Number_0;
                let y = b->Number_0;
                match op {
                    BinOp::Greater => EvalR::Val { v: Value::Bool(f64_gt(x, y)), used },
                    BinOp::GreaterEq => EvalR::Val { v: Value::Bool(!f64_lt(x, y)), used },
                    BinOp::Less => EvalR::Val { v: Value::Bool(f64_lt(x, y)), used },
                    BinOp::LessEq => EvalR::Val { v: Value::Bool(!f64_gt(x, y)), used },
                    _ => {
                        if rest.len() > 0 {
                            EvalR::Val { v: Value::Number(rest[0]), used: used + 1 }
                        } else {
                            EvalR::Short { op: arith_of(op), a: x, b: y }
                        }
                    },
                }
            } else {
                EvalR::Fault { line, unary: false, ops: seq![a, b] }
            }
        },
    }
}

/// Evaluation of an expression under the responses `rs`.
pub open spec fn eval(e: Ast, rs: Seq<u64>) -> EvalR
    decreases e,
{
    match e {
        Ast::Num { bits, line } => EvalR::Val { v: Value::Number(bits), used: 0 },
        Ast::BoolLit { value, line } => EvalR::Val { v: Value::Bool(value), used: 0 },
        Ast::NilLit { line } => EvalR::Val { v: Value::Nil, used: 0 },
        Ast::Unary { op, line, sub } => {
            match eval(*sub, rs) {
                EvalR::Val { v, used } => {
                    match op {
                        UnOp::Not => EvalR::Val { v: Value::Bool(falsey(v)), used },
                        UnOp::Negate => {
                            if v is Number {
                                EvalR::Val { v: Value::Number(f64_neg(v->Number_0)), used }
                            } else {
                                EvalR::Fault { line, unary: true, ops: seq![v] }
                            }
                        },
                    }
                },
                other => other,
            }
        },
        Ast::Binary { op, line, lhs, rhs } => {
            match eval(*lhs, rs) {
                EvalR::Val { v: a, used: u1 } => {
                    match eval(*rhs, rs.skip(u1)) {
                        EvalR::Val { v: b, used: u2 } => bin_apply(
                            op,
                            line,
                            a,
                            b,
                            rs.skip(u1 + u2),
                            u1 + u2,
                        ),
                        EvalR::Fault { line: l2, unary, ops } => EvalR::Fault {
                            line: l2,
                            unary,
                            ops: seq![a] + ops,
                        },
                        short => short,
                    }
                },
                other => other,
            }
        },
    }
}

/// The instructions a unary operator compiles to.
pub open spec fn un_opcode(op: UnOp) -> OpCode {
    match op {
        UnOp::Not => OpCode::Not,
        UnOp::Negate => OpCode::Negate,
    }
}

/// The instructions a binary operator compiles to. Operators without a
/// dedicated instruction are two primitives applied in sequence.
pub open spec fn bin_opcodes(op: BinOp) -> Seq<OpCode> {
    match op {
        BinOp::Equal => seq![OpCode::Equal],
        BinOp::NotEqual => seq![OpCode::Equal, OpCode::Not],
        BinOp::Greater => seq![OpCode::Greater],
        BinOp::GreaterEq => seq![OpCode::Less, OpCode::Not],
        BinOp::Less => seq![OpCode::Less],
        BinOp::LessEq => seq![OpCode::Greater, OpCode::Not],
        BinOp::Add => seq![OpCode::Add],
        BinOp::Subtract => seq![OpCode::Subtract],
        BinOp::Multiply => seq![OpCode::Multiply],
        BinOp::Divide => seq![OpCode::Divide],
    }
}

/// The code, line table and constant pool an expression compiles to, with
/// its constants placed from index `base` of the pool.
pub struct CgOut {
    pub code: Seq<OpCode>,
    pub lines: Seq<usize>,
    pub consts: Seq<Value>,
}

/// Code generation for an expression.
pub open spec fn cg(e: Ast, base: int) -> CgOut
    decreases e,
{
    match e {
        Ast::Num { bits, line } => CgOut {
            code: seq![OpCode::Constant(base as usize)],
            lines: seq![line],
            consts: seq![Value::Number(bits)],
        },
        Ast::BoolLit { value, line } => CgOut {
            code: seq![
                if value {
                    OpCode::True
                } else {
                    OpCode::False
                },
            ],
            lines: seq![line],
            consts: Seq::empty(),
        },
        Ast::NilLit { line } => CgOut {
            code: seq![OpCode::Nil],
            lines: seq![line],
            consts: Seq::empty(),
        },
        Ast::Unary { op, line, sub } => {
            let s = cg(*sub, base);
            CgOut { code: s.code.push(un_opcode(op)), lines: s.lines.push(line), consts: s.consts }
        },
        Ast::Binary { op, line, lhs, rhs } => {
            let l = cg(*lhs, base);
            let r = cg(*rhs, base + l.consts.len());
            let ops = bin_opcodes(op);
            CgOut {
                code: l.code + r.code + ops,
                lines: l.lines + r.lines + Seq::new(ops.len(), |i: int| line),
                consts: l.consts + r.consts,
            }
        },
    }
}

/// The operand stack room an expression's code needs.
pub open spec fn depth(e: Ast) -> int
    decreases e,
{
    match e {
        Ast::Num { .. } => 1,
        Ast::BoolLit { .. } => 1,
        Ast::NilLit { .. } => 1,
        Ast::Unary { sub, .. } => depth(*sub),
        Ast::Binary { lhs, rhs, .. } => {
            let dl = depth(*lhs);
            let dr = depth(*rhs) + 1;
            if dl >= dr {
                dl
            } else {
                dr
            }
        },
    }
}

/// Every expression needs at least one stack slot.
pub proof fn lemma_depth_pos(e: Ast)
    ensures
        depth(e) >= 1,
    decreases e,
{
    match e {
        Ast::Unary { sub, .. } => lemma_depth_pos(*sub),
        Ast::Binary { lhs, .. } => lemma_depth_pos(*lhs),
        _ => {},
    }
}

/// Code and line table of an expression have equal length; the generated
/// code never shrinks the pool.
pub proof fn lemma_cg_lens(e: Ast, base: int)
    ensures
        cg(e, base).code.len() == cg(e, base).lines.len(),
        cg(e, base).code.len() >= 1,
    decreases e,
{
    match e {
        Ast::Unary { sub, .. } => lemma_cg_lens(*sub, base),
        Ast::Binary { op, lhs, rhs, .. } => {
            lemma_cg_lens(*lhs, base);
            lemma_cg_lens(*rhs, base + cg(*lhs, base).consts.len());
        },
        _ => {},
    }
}

/// A successful evaluation consumes at most the responses it was given.
pub proof fn lemma_eval_used(e: Ast, rs: Seq<u64>)
    ensures
        eval(e, rs) matches EvalR::Val { used, .. } ==> 0 <= used <= rs.len(),
    decreases e,
{
    match e {
        Ast::Unary { sub, .. } => lemma_eval_used(*sub, rs),
        Ast::Binary { op, lhs, rhs, .. } => {
            lemma_eval_used(*lhs, rs);
            match eval(*lhs, rs) {
                EvalR::Val { v: a, used: u1 } => {
                    lemma_eval_used(*rhs, rs.skip(u1));
                },
                _ => {},
            }
        },
        _ => {},
    }
}


/// The generated code of `e` sits in `c` at instruction `i`, its constants
/// at pool index `base`.
pub open spec fn seg_at(c: Chunk, i: int, base: int, e: Ast) -> bool {
    let out = cg(e, base);
    &&& 0 <= i
    &&& 0 <= base
    &&& i + out.code.len() <= c.code@.len()
    &&& base + out.consts.len() <= c.constants@.len()
    &&& c.code@.subrange(i, i + out.code.len()) == out.code
    &&& c.lines@.subrange(i, i + out.code.len()) == out.lines
    &&& c.constants@.subrange(base, base + out.consts.len() as int) == out.consts
}

/// Executing the code generated for `e` from instruction `i` with stack
/// `s` computes `eval(e, rs)`: a value is pushed and execution continues
/// after the segment; a type fault becomes the machine's runtime failure
/// with the inspected operands still in place; exhausted responses become
/// a suspension on the pending operation.
#[verifier::rlimit(60)]
pub proof fn lemma_cg_correct(e: Ast, c: Chunk, i: int, s: Seq<Value>, rs: Seq<u64>, base: int)
    requires
        seg_at(c, i, base, e),
        c.lines@.len() == c.code@.len(),
        c.constants@.len() <= usize::MAX,
        s.len() + depth(e) <= STACK_MAX,
    ensures
        match eval(e, rs) {
            EvalR::Val { v, used } => 0 <= used <= rs.len() && chunk_exec(c, i, s, rs)
                == chunk_exec(c, i + cg(e, base).code.len(), s.push(v), rs.skip(used)),
            EvalR::Fault { line, unary, ops } => chunk_exec(c, i, s, rs) == (ExecOutcome::Fail {
                line,
                unary,
                stack: s + ops,
            }),
            EvalR::Short { op, a, b } => chunk_exec(c, i, s, rs) == (ExecOutcome::Need {
                op,
                a,
                b,
            }),
        },
    decreases e,
{
    lemma_cg_lens(e, base);
    let out = cg(e, base);
    match e {
        Ast::Num { bits, line } => {
            assert(c.code@.subrange(i, i + out.code.len() as int)[0] == out.code[0]);
            assert(c.lines@.subrange(i, i + out.code.len() as int)[0] == out.lines[0]);
            assert(c.constants@.subrange(base, base + out.consts.len() as int)[0] == out.consts[0]);
            assert(c.code@[i] == OpCode::Constant(base as usize));
            assert(c.constants@[base] == Value::Number(bits));
            assert(rs.skip(0) =~= rs);
        },
        Ast::BoolLit { value, line } => {
            assert(c.code@.subrange(i, i + out.code.len() as int)[0] == out.code[0]);
            assert(c.code@[i] == (if value {
                OpCode::True
            } else {
                OpCode::False
            }));
            assert(rs.skip(0) =~= rs);
        },
        Ast::NilLit { line } => {
            assert(c.code@.subrange(i, i + out.code.len() as int)[0] == out.code[0]);
            assert(c.code@[i] == OpCode::Nil);
            assert(rs.skip(0) =~= rs);
        },
        Ast::Unary { op, line, sub } => {
            let sout = cg(*sub, base);
            lemma_cg_lens(*sub, base);
            let slen = sout.code.len() as int;
            assert(c.code@.subrange(i, i + slen) =~= sout.code) by {
                assert forall|k: int| 0 <= k < slen implies c.code@.subrange(i, i + slen)[k]
                    == sout.code[k] by {
                    assert(out.code[k] == sout.code[k]);
                    assert(c.code@.subrange(i, i + out.code.len() as int)[k] == out.code[k]);
                }
            }
            assert(c.lines@.subrange(i, i + slen) =~= sout.lines) by {
                assert forall|k: int| 0 <= k < slen implies c.lines@.subrange(i, i + slen)[k]
                    == sout.lines[k] by {
                    assert(out.lines[k] == sout.lines[k]);
                    assert(c.lines@.subrange(i, i + out.code.len() as int)[k] == out.lines[k]);
                }
            }
            lemma_cg_correct(*sub, c, i, s, rs, base);
            let j = i + slen;
            assert(c.code@[j] == un_opcode(op)) by {
                assert(c.code@.subrange(i, i + out.code.len() as int)[slen] == out.code[slen]);
            }
            assert(c.lines@[j] == line) by {
                assert(c.lines@.subrange(i, i + out.code.len() as int)[slen] == out.lines[slen]);
            }
            match eval(*sub, rs) {
                EvalR::Val { v, used } => {
                    let s2 = s.push(v);
                    let rs2 = rs.skip(used);
                    match op {
                        UnOp::Not => {
                            assert(s2.take(s2.len() - 1) =~= s);
                            assert(chunk_exec(c, j, s2, rs2) == chunk_exec(
                                c,
                                j + 1,
                                s.push(Value::Bool(falsey(v))),
                                rs2,
                            ));
                        },
                        UnOp::Negate => {
                            if v is Number {
                                assert(s2.take(s2.len() - 1) =~= s);
                                assert(chunk_exec(c, j, s2, rs2) == chunk_exec(
                                    c,
                                    j + 1,
                                    s.push(Value::Number(f64_neg(v->Number_0))),
                                    rs2,
                                ));
                            } else {
                                assert(s2 =~= s + seq![v]);
                                assert(chunk_exec(c, j, s2, rs2) == (ExecOutcome::Fail {
                                    line,
                                    unary: true,
                                    stack: s2,
                                }));
                            }
                        },
                    }
                },
                _ => {},
            }
        },
        Ast::Binary { op, line, lhs, rhs } => {
            let lout = cg(*lhs, base);
            lemma_cg_lens(*lhs, base);
            let llen = lout.code.len() as int;
            let base2 = base + lout.consts.len() as int;
            let rout = cg(*rhs, base2);
            lemma_cg_lens(*rhs, base2);
            let rlen = rout.code.len() as int;
            let ops = bin_opcodes(op);
            let j = i + llen + rlen;
            lemma_depth_pos(*lhs);
            lemma_depth_pos(*rhs);
            assert(c.code@.subrange(i, i + llen) =~= lout.code) by {
                assert forall|k: int| 0 <= k < llen implies c.code@.subrange(i, i + llen)[k]
                    == lout.code[k] by {
                    assert(out.code[k] == lout.code[k]);
                    assert(c.code@.subrange(i, i + out.code.len() as int)[k] == out.code[k]);
                }
            }
            assert(c.lines@.subrange(i, i + llen) =~= lout.lines) by {
                assert forall|k: int| 0 <= k < llen implies c.lines@.subrange(i, i + llen)[k]
                    == lout.lines[k] by {
                    assert(out.lines[k] == lout.lines[k]);
                    assert(c.lines@.subrange(i, i + out.code.len() as int)[k] == out.lines[k]);
                }
            }
            assert(c.constants@.subrange(base, base + lout.consts.len() as int) =~= lout.consts)
                by {
                assert forall|k: int| 0 <= k < lout.consts.len() as int implies c.constants@
                    .subrange(base, base + lout.consts.len() as int)[k] == lout.consts[k] by {
                    assert(out.consts[k] == lout.consts[k]);
                    assert(c.constants@.subrange(base, base + out.consts.len() as int)[k]
                        == out.consts[k]);
                }
            }
            assert(c.code@.subrange(i + llen, i + llen + rlen) =~= rout.code) by {
                assert forall|k: int| 0 <= k < rlen implies c.code@.subrange(
                    i + llen,
                    i + llen + rlen,
                )[k] == rout.code[k] by {
                    assert(out.code[llen + k] == rout.code[k]);
                    assert(c.code@.subrange(i, i + out.code.len() as int)[llen + k] == out.code[
                        llen + k
                    ]);
                }
            }
            assert(c.lines@.subrange(i + llen, i + llen + rlen) =~= rout.lines) by {
                assert forall|k: int| 0 <= k < rlen implies c.lines@.subrange(
                    i + llen,
                    i + llen + rlen,
                )[k] == rout.lines[k] by {
                    assert(out.lines[llen + k] == rout.lines[k]);
                    assert(c.lines@.subrange(i, i + out.code.len() as int)[llen + k] == out.lines[
                        llen + k
                    ]);
                }
            }
            assert(c.constants@.subrange(base2, base2 + rout.consts.len() as int) =~= rout.consts)
                by {
                assert forall|k: int| 0 <= k < rout.consts.len() as int implies c.constants@
                    .subrange(base2, base2 + rout.consts.len() as int)[k] == rout.consts[k] by {
                    assert(out.consts[lout.consts.len() + k] == rout.consts[k]);
                    assert(c.constants@.subrange(base, base + out.consts.len() as int)[lout.consts.len() + k]
                        == out.consts[lout.consts.len() + k]);
                }
            }
            assert(c.code@.subrange(i, i + out.code.len() as int)[llen + rlen] == out.code[llen
                + rlen]);
            assert(c.lines@.subrange(i, i + out.code.len() as int)[llen + rlen] == out.lines[llen
                + rlen]);
            assert(c.code@[j] == ops[0] && c.lines@[j] == line);
            if ops.len() == 2 {
                assert(c.code@.subrange(i, i + out.code.len() as int)[llen + rlen + 1]
                    == out.code[llen + rlen + 1]);
                assert(c.lines@.subrange(i, i + out.code.len() as int)[llen + rlen + 1]
                    == out.lines[llen + rlen + 1]);
                assert(c.code@[j + 1] == ops[1] && c.lines@[j + 1] == line);
            }
            lemma_cg_correct(*lhs, c, i, s, rs, base);
            match eval(*lhs, rs) {
                EvalR::Val { v: a, used: u1 } => {
                    let s1 = s.push(a);
                    let rs1 = rs.skip(u1);
                    lemma_cg_correct(*rhs, c, i + llen, s1, rs1, base2);
                    lemma_eval_used(*rhs, rs1);
                    match eval(*rhs, rs1) {
                        EvalR::Val { v: b, used: u2 } => {
                            let s2 = s1.push(b);
                            let rs2 = rs1.skip(u2);
                            assert(rs2 =~= rs.skip(u1 + u2));
                            assert(s2.take(s2.len() - 2) =~= s);
                            assert(s2[s2.len() - 1] == b && s2[s2.len() - 2] == a);
                            match op {
                                BinOp::Equal => {
                                    assert(chunk_exec(c, j, s2, rs2) == chunk_exec(
                                        c,
                                        j + 1,
                                        s.push(Value::Bool(val_eq(a, b))),
                                        rs2,
                                    ));
                                },
                                BinOp::NotEqual => {
                                    let s3 = s.push(Value::Bool(val_eq(a, b)));
                                    assert(chunk_exec(c, j, s2, rs2) == chunk_exec(
                                        c,
                                        j + 1,
                                        s3,
                                        rs2,
                                    ));
                                    assert(s3.take(s3.len() - 1) =~= s);
                                    assert(chunk_exec(c, j + 1, s3, rs2) == chunk_exec(
                                        c,
                                        j + 2,
                                        s.push(Value::Bool(!val_eq(a, b))),
                                        rs2,
                                    ));
                                },
                                BinOp::Greater => {
                                    if a is Number && b is Number {
                                        assert(chunk_exec(c, j, s2, rs2) == chunk_exec(
                                            c,
                                            j + 1,
                                            s.push(Value::Bool(f64_gt(a->Number_0, b->Number_0))),
                                            rs2,
                                        ));
                                    } else {
                                        assert(s2 =~= s + seq![a, b]);
                                    }
                                },
                                BinOp::Less => {
                                    if a is Number && b is Number {
                                        assert(chunk_exec(c, j, s2, rs2) == chunk_exec(
                                            c,
                                            j + 1,
                                            s.push(Value::Bool(f64_lt(a->Number_0, b->Number_0))),
                                            rs2,
                                        ));
                                    } else {
                                        assert(s2 =~= s + seq![a, b]);
                                    }
                                },
                                BinOp::GreaterEq => {
                                    if a is Number && b is Number {
                                        let s3 = s.push(
                                            Value::Bool(f64_lt(a->Number_0, b->Number_0)),
                                        );
                                        assert(chunk_exec(c, j, s2, rs2) == chunk_exec(
                                            c,
                                            j + 1,
                                            s3,
                                            rs2,
                                        ));
                                        assert(s3.take(s3.len() - 1) =~= s);
                                        assert(chunk_exec(c, j + 1, s3, rs2) == chunk_exec(
                                            c,
                                            j + 2,
                                            s.push(
                                                Value::Bool(!f64_lt(a->Number_0, b->Number_0)),
                                            ),
                                            rs2,
                                        ));
                                    } else {
                                        assert(s2 =~= s + seq![a, b]);
                                    }
                                },
                                BinOp::LessEq => {
                                    if a is Number && b is Number {
                                        let s3 = s.push(
                                            Value::Bool(f64_gt(a->Number_0, b->Number_0)),
                                        );
                                        assert(chunk_exec(c, j, s2, rs2) == chunk_exec(
                                            c,
                                            j + 1,
                                            s3,
                                            rs2,
                                        ));
                                        assert(s3.take(s3.len() - 1) =~= s);
                                        assert(chunk_exec(c, j + 1, s3, rs2) == chunk_exec(
                                            c,
                                            j + 2,
                                            s.push(
                                                Value::Bool(!f64_gt(a->Number_0, b->Number_0)),
                                            ),
                                            rs2,
                                        ));
                                    } else {
                                        assert(s2 =~= s + seq![a, b]);
                                    }
                                },
                                _ => {
                                    let aop = arith_of(op);
                                    assert(chunk_exec(c, j, s2, rs2) == arith_exec(
                                        c,
                                        j,
                                        s2,
                                        rs2,
                                        aop,
                                    ));
                                    if a is Number && b is Number {
                                        if rs2.len() > 0 {
                                            assert(rs2.skip(1) =~= rs.skip(u1 + u2 + 1));
                                            assert(chunk_exec(c, j, s2, rs2) == chunk_exec(
                                                c,
                                                j + 1,
                                                s.push(Value::Number(rs2[0])),
                                                rs2.skip(1),
                                            ));
                                        }
                                    } else {
                                        assert(s2 =~= s + seq![a, b]);
                                    }
                                },
                            }
                        },
                        EvalR::Fault { line: l2, unary, ops: fops } => {
                            assert(s1 + fops =~= s + (seq![a] + fops));
                        },
                        _ => {},
                    }
                },
                _ => {},
            }
        },
    }
}

} // verus!
