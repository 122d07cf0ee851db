//! The virtual machine: a dispatch loop over a fixed-capacity operand
//! stack, executing one compiled unit.
//!
//! The four arithmetic operations work on IEEE 754 doubles, which verified
//! code cannot compute. The machine therefore runs as a session with its
//! host: `start` executes until it either finishes or reaches an arithmetic
//! instruction, in which case it suspends and hands the two operand
//! encodings out; the host computes the double operation and hands the
//! encoded result to `resume`, which continues the run. The specification
//! models a run as a pure function of the compiled unit and the sequence of
//! responses, so everything but the arithmetic itself is proved: operand
//! order, type checking, error reporting, and the stack discipline.

use vstd::prelude::*;
use vstd::string::*;
use crate::chunk::{Chunk, OpCode};
use crate::text::{dec_digits, append_usize};
use crate::value::{Value, falsey, val_eq, f64_gt, f64_lt, f64_neg, value_eq, num_gt, num_lt,
    num_neg};

verus! {

/// Capacity of the operand stack.
pub const STACK_MAX: usize = 256;

/// How one interpretation ended.
#[derive(Clone, Copy, Debug, PartialEq, Eq, Structural)]
pub enum InterpretResult {
    Success,
    ComplileError,
    RuntimeError,
}

/// An arithmetic operation delegated to the host.
#[derive(Clone, Copy, Debug, PartialEq, Eq, Structural)]
pub enum ArithOp {
    Add,
    Subtract,
    Multiply,
    Divide,
}

/// What a call into the machine came back with: a finished run, or a
/// suspension carrying the operands of an arithmetic instruction.
#[derive(Clone, Copy, Debug, PartialEq, Eq, Structural)]
pub enum StepOutcome {
    Finished(InterpretResult),
    NeedArith { op: ArithOp, a: u64, b: u64 },
}

/// The outcome of executing a compiled unit from a given state, as the
/// specification sees it. `Fail` keeps the stack exactly as it was just
/// before the failed instruction.
pub enum ExecOutcome {
    Done { value: Value, stack: Seq<Value> },
    Fail { line: usize, unary: bool, stack: Seq<Value> },
    Need { op: ArithOp, a: u64, b: u64 },
    Stuck,
}

/// The source line recorded for instruction `ip`.
pub open spec fn line_of(c: Chunk, ip: int) -> usize {
    if 0 <= ip < c.lines@.len() {
        c.lines@[ip]
    } else {
        0
    }
}

/// Execution of `c` from instruction `ip` with operand stack `stack`,
/// consuming one encoding from `rs` for each arithmetic instruction whose
/// operands pass the type check. `Stuck` stands for the states the machine
/// must never reach: running off the end of the code, an invalid constant
/// index, stack overflow or underflow.
pub open spec fn chunk_exec(c: Chunk, ip: int, stack: Seq<Value>, rs: Seq<u64>) -> ExecOutcome
    decreases c.code@.len() - ip, 2int,
{
    if ip < 0 || ip >= c.code@.len() {
        ExecOutcome::Stuck
    } else {
        let line = line_of(c, ip);
        match c.code@[ip] {
            OpCode::Constant(ci) => {
                if ci < c.constants@.len() && stack.len() < STACK_MAX {
                    chunk_exec(c, ip + 1, stack.push(c.constants@[ci as int]), rs)
                } else {
                    ExecOutcome::Stuck
                }
            },
            OpCode::Nil => {
                if stack.len() < STACK_MAX {
                    chunk_exec(c, ip + 1, stack.push(Value::Nil), rs)
                } else {
                    ExecOutcome::Stuck
                }
            },
            OpCode::True => {
                if stack.len() < STACK_MAX {
                    chunk_exec(c, ip + 1, stack.push(Value::Bool(true)), rs)
                } else {
                    ExecOutcome::Stuck
                }
            },
            OpCode::False => {
                if stack.len() < STACK_MAX {
                    chunk_exec(c, ip + 1, stack.push(Value::Bool(false)), rs)
                } else {
                    ExecOutcome::Stuck
                }
            },
            OpCode::Equal => {
                if stack.len() >= 2 {
                    let b = stack[stack.len() - 1];
                    let a = stack[stack.len() - 2];
                    chunk_exec(
                        c,
                        ip + 1,
                        stack.take(stack.len() - 2).push(Value::Bool(val_eq(a, b))),
                        rs,
                    )
                } else {
                    ExecOutcome::Stuck
                }
            },
            OpCode::Greater => {
                if stack.len() >= 2 {
                    let b = stack[stack.len() - 1];
                    let a = stack[stack.len() - 2];
                    if a is Number && b is Number {
                        chunk_exec(
                            c,
                            ip + 1,
                            stack.take(stack.len() - 2).push(
                                Value::Bool(f64_gt(a->Number_0, b->Number_0)),
                            ),
                            rs,
                        )
                    } else {
                        ExecOutcome::Fail { line, unary: false, stack }
                    }
                } else {
                    ExecOutcome::Stuck
                }
            },
            OpCode::Less => {
                if stack.len() >= 2 {
                    let b = stack[stack.len() - 1];
                    let a = stack[stack.len() - 2];
                    if a is Number && b is Number {
                        chunk_exec(
                            c,
                            ip + 1,
                            stack.take(stack.len() - 2).push(
                                Value::Bool(f64_lt(a->Number_0, b->Number_0)),
                            ),
                            rs,
                        )
                    } else {
                        ExecOutcome::Fail { line, unary: false, stack }
                    }
                } else {
                    ExecOutcome::Stuck
                }
            },
            OpCode::Add => arith_exec(c, ip, stack, rs, ArithOp::Add),
            OpCode::Subtract => arith_exec(c, ip, stack, rs, ArithOp::Subtract),
            OpCode::Multiply => arith_exec(c, ip, stack, rs, ArithOp::Multiply),
            OpCode::Divide => arith_exec(c, ip, stack, rs, ArithOp::Divide),
            OpCode::Not => {
                if stack.len() >= 1 {
                    let v = stack[stack.len() - 1];
                    chunk_exec(
                        c,
                        ip + 1,
                        stack.take(stack.len() - 1).push(Value::Bool(falsey(v))),
                        rs,
                    )
                } else {
                    ExecOutcome::Stuck
                }
            },
            OpCode::Negate => {
                if stack.len() >= 1 {
                    let v = stack[stack.len() - 1];
                    if v is Number {
                        chunk_exec(
                            c,
                            ip + 1,
                            stack.take(stack.len() - 1).push(Value::Number(f64_neg(v->Number_0))),
                            rs,
                        )
                    } else {
                        ExecOutcome::Fail { line, unary: true, stack }
                    }
                } else {
                    ExecOutcome::Stuck
                }
            },
            OpCode::Return => {
                if stack.len() >= 1 {
                    ExecOutcome::Done {
                        value: stack[stack.len() - 1],
                        stack: stack.take(stack.len() - 1),
                    }
                } else {
                    ExecOutcome::Stuck
                }
            },
        }
    }
}

/// One arithmetic instruction: peek-check both operands, then either fail,
/// suspend for a response, or consume one and continue.
pub open spec fn arith_exec(
    c: Chunk,
    ip: int,
    stack: Seq<Value>,
    rs: Seq<u64>,
    op: ArithOp,
) -> ExecOutcome
    decreases c.code@.len() - ip, 1int,
{
    if 0 <= ip < c.code@.len() && stack.len() >= 2 {
        let b = stack[stack.len() - 1];
        let a = stack[stack.len() - 2];
        if a is Number && b is Number {
            if rs.len() > 0 {
                chunk_exec(
                    c,
                    ip + 1,
                    stack.take(stack.len() - 2).push(Value::Number(rs[0])),
                    rs.skip(1),
                )
            } else {
                ExecOutcome::Need { op, a: a->Number_0, b: b->Number_0 }
            }
        } else {
            ExecOutcome::Fail { line: line_of(c, ip), unary: false, stack }
        }
    } else {
        ExecOutcome::Stuck
    }
}

/// Static stack analysis: from instruction `ip` with `depth` operands on
/// the stack, execution stays within the stack bounds, every constant
/// index is valid, and a return instruction is reached. This is what rules
/// `Stuck` out, whatever the operand types and responses turn out to be.
pub open spec fn ok_from(c: Chunk, ip: int, depth: int) -> bool
    decreases c.code@.len() - ip,
{
    if ip < 0 || ip >= c.code@.len() {
        false
    } else {
        match c.code@[ip] {
            OpCode::Constant(ci) => ci < c.constants@.len() && depth < STACK_MAX && ok_from(
                c,
                ip + 1,
                depth + 1,
            ),
            OpCode::Nil => depth < STACK_MAX && ok_from(c, ip + 1, depth + 1),
            OpCode::True => depth < STACK_MAX && ok_from(c, ip + 1, depth + 1),
            OpCode::False => depth < STACK_MAX && ok_from(c, ip + 1, depth + 1),
            OpCode::Equal => depth >= 2 && ok_from(c, ip + 1, depth - 1),
            OpCode::Greater => depth >= 2 && ok_from(c, ip + 1, depth - 1),
            OpCode::Less => depth >= 2 && ok_from(c, ip + 1, depth - 1),
            OpCode::Add => depth >= 2 && ok_from(c, ip + 1, depth - 1),
            OpCode::Subtract => depth >= 2 && ok_from(c, ip + 1, depth - 1),
            OpCode::Multiply => depth >= 2 && ok_from(c, ip + 1, depth - 1),
            OpCode::Divide => depth >= 2 && ok_from(c, ip + 1, depth - 1),
            OpCode::Not => depth >= 1 && ok_from(c, ip + 1, depth),
            OpCode::Negate => depth >= 1 && ok_from(c, ip + 1, depth),
            OpCode::Return => depth >= 1,
        }
    }
}

/// The static analysis is sound: from an analysed state, execution is
/// never stuck, whatever the responses.
pub proof fn lemma_ok_from_not_stuck(c: Chunk, ip: int, stack: Seq<Value>, rs: Seq<u64>)
    requires
        ok_from(c, ip, stack.len() as int),
        stack.len() <= STACK_MAX,
    ensures
        !(chunk_exec(c, ip, stack, rs) matches ExecOutcome::Stuck),
    decreases c.code@.len() - ip, 1int,
{
    let d = stack.len() as int;
    match c.code@[ip] {
        OpCode::Constant(ci) => {
            lemma_ok_from_not_stuck(c, ip + 1, stack.push(c.constants@[ci as int]), rs);
        },
        OpCode::Nil => {
            lemma_ok_from_not_stuck(c, ip + 1, stack.push(Value::Nil), rs);
        },
        OpCode::True => {
            lemma_ok_from_not_stuck(c, ip + 1, stack.push(Value::Bool(true)), rs);
        },
        OpCode::False => {
            lemma_ok_from_not_stuck(c, ip + 1, stack.push(Value::Bool(false)), rs);
        },
        OpCode::Equal => {
            let b = stack[d - 1];
            let a = stack[d - 2];
            lemma_ok_from_not_stuck(
                c,
                ip + 1,
                stack.take(d - 2).push(Value::Bool(val_eq(a, b))),
                rs,
            );
        },
        OpCode::Greater => {
            let b = stack[d - 1];
            let a = stack[d - 2];
            if a is Number && b is Number {
                lemma_ok_from_not_stuck(
                    c,
                    ip + 1,
                    stack.take(d - 2).push(Value::Bool(f64_gt(a->Number_0, b->Number_0))),
                    rs,
                );
            }
        },
        OpCode::Less => {
            let b = stack[d - 1];
            let a = stack[d - 2];
            if a is Number && b is Number {
                lemma_ok_from_not_stuck(
                    c,
                    ip + 1,
                    stack.take(d - 2).push(Value::Bool(f64_lt(a->Number_0, b->Number_0))),
                    rs,
                );
            }
        },
        OpCode::Add => {
            lemma_arith_not_stuck(c, ip, stack, rs, ArithOp::Add);
        },
        OpCode::Subtract => {
            lemma_arith_not_stuck(c, ip, stack, rs, ArithOp::Subtract);
        },
        OpCode::Multiply => {
            lemma_arith_not_stuck(c, ip, stack, rs, ArithOp::Multiply);
        },
        OpCode::Divide => {
            lemma_arith_not_stuck(c, ip, stack, rs, ArithOp::Divide);
        },
        OpCode::Not => {
            let v = stack[d - 1];
            lemma_ok_from_not_stuck(c, ip + 1, stack.take(d - 1).push(Value::Bool(falsey(v))), rs);
        },
        OpCode::Negate => {
            let v = stack[d - 1];
            if v is Number {
                lemma_ok_from_not_stuck(
                    c,
                    ip + 1,
                    stack.take(d - 1).push(Value::Number(f64_neg(v->Number_0))),
                    rs,
                );
            }
        },
        OpCode::Return => {
        },
    }
}

/// The arithmetic case of the soundness argument.
proof fn lemma_arith_not_stuck(c: Chunk, ip: int, stack: Seq<Value>, rs: Seq<u64>, op: ArithOp)
    requires
        ok_from(c, ip, stack.len() as int),
        stack.len() <= STACK_MAX,
        0 <= ip < c.code@.len(),
        stack.len() >= 2,
        ok_from(c, ip + 1, stack.len() - 1),
    ensures
        !(arith_exec(c, ip, stack, rs, op) matches ExecOutcome::Stuck),
    decreases c.code@.len() - ip, 0int,
{
    let d = stack.len() as int;
    let b = stack[d - 1];
    let a = stack[d - 2];
    if a is Number && b is Number {
        if rs.len() > 0 {
            lemma_ok_from_not_stuck(
                c,
                ip + 1,
                stack.take(d - 2).push(Value::Number(rs[0])),
                rs.skip(1),
            );
        }
    }
}

/// Checks the static stack analysis of a whole unit: executed from an
/// empty stack, it stays within bounds and reaches a return instruction.
pub fn chunk_runnable(chunk: &Chunk) -> (r: bool)
    ensures
        r == ok_from(*chunk, 0, 0),
{
    let n = chunk.code.len();
    let mut ip: usize = 0;
    let mut depth: usize = 0;
    loop
        invariant
            ip <= n,
            n == chunk.code@.len(),
            depth <= STACK_MAX,
            ok_from(*chunk, 0, 0) == if ip < n {
                ok_from(*chunk, ip as int, depth as int)
            } else {
                false
            },
        decreases n - ip,
    {
        if ip >= n {
            return false;
        }
        let ghost ip0 = ip as int;
        let ghost d0 = depth as int;
        let op = chunk.code[ip];
        match op {
            OpCode::Constant(ci) => {
                if !(ci < chunk.constants.len() && depth < STACK_MAX) {
                    return false;
                }
                depth = depth + 1;
                proof {
                    assert(ok_from(*chunk, ip0, d0) == ok_from(*chunk, ip0 + 1, depth as int));
                }
            },
            OpCode::Nil | OpCode::True | OpCode::False => {
                if !(depth < STACK_MAX) {
                    return false;
                }
                depth = depth + 1;
                proof {
                    assert(ok_from(*chunk, ip0, d0) == ok_from(*chunk, ip0 + 1, depth as int));
                }
            },
            OpCode::Equal | OpCode::Greater | OpCode::Less | OpCode::Add | OpCode::Subtract
                | OpCode::Multiply | OpCode::Divide => {
                if !(depth >= 2) {
                    return false;
                }
                depth = depth - 1;
                proof {
                    assert(ok_from(*chunk, ip0, d0) == ok_from(*chunk, ip0 + 1, depth as int));
                }
            },
            OpCode::Not | OpCode::Negate => {
                if !(depth >= 1) {
                    return false;
                }
                proof {
                    assert(ok_from(*chunk, ip0, d0) == ok_from(*chunk, ip0 + 1, depth as int));
                }
            },
            OpCode::Return => {
                return depth >= 1;
            },
        }
        ip = ip + 1;
        proof {
            if ip < n {
            } else {
                assert(!ok_from(*chunk, ip as int, depth as int));
            }
        }
    }
}


/// The virtual machine: one compiled unit, an instruction pointer, and a
/// fixed-capacity operand stack. `output` is the value a return
/// instruction emitted; `errors` are the diagnostic lines a runtime error
/// produced; `resp` records the arithmetic responses consumed so far.
pub struct VM {
    pub chunk: Chunk,
    pub ip: usize,
    pub stack: Vec<Value>,
    pub output: Option<Value>,
    pub errors: Vec<String>,
    pub resp: Ghost<Seq<u64>>,
}

impl VM {
    /// The running machine's tie to the specification: executing from the
    /// current state with any future responses is executing the whole unit
    /// with the recorded responses and those appended; and no responses
    /// can run the unit into a stuck state.
    pub open spec fn session_inv(self) -> bool {
        &&& self.chunk.code@.len() == self.chunk.lines@.len()
        &&& self.stack@.len() <= STACK_MAX
        &&& forall|fut: Seq<u64>|
            #[trigger] chunk_exec(self.chunk, self.ip as int, self.stack@, fut) == chunk_exec(
                self.chunk,
                0,
                Seq::empty(),
                self.resp@ + fut,
            )
        &&& forall|rs: Seq<u64>|
            !(#[trigger] chunk_exec(self.chunk, 0, Seq::empty(), rs) matches ExecOutcome::Stuck)
    }

    /// Suspended at an arithmetic instruction whose two operands are
    /// numbers, awaiting the host's response.
    pub open spec fn suspended(self) -> bool {
        &&& self.session_inv()
        &&& self.ip < self.chunk.code@.len()
        &&& {
            ||| self.chunk.code@[self.ip as int] is Add
            ||| self.chunk.code@[self.ip as int] is Subtract
            ||| self.chunk.code@[self.ip as int] is Multiply
            ||| self.chunk.code@[self.ip as int] is Divide
        }
        &&& self.stack@.len() >= 2
        &&& self.stack@[self.stack@.len() - 1] is Number
        &&& self.stack@[self.stack@.len() - 2] is Number
    }

    /// The machine's state and the returned outcome agree with the
    /// specified execution of its unit under the recorded responses,
    /// `base_errors` being the diagnostics from before the run.
    pub open spec fn step_post(self, r: StepOutcome, base_errors: Seq<String>) -> bool {
        let out = chunk_exec(self.chunk, 0, Seq::empty(), self.resp@);
        match out {
            ExecOutcome::Done { value, stack } => {
                &&& r == StepOutcome::Finished(InterpretResult::Success)
                &&& self.output == Some(value)
                &&& self.stack@ == stack
                &&& self.errors@ == base_errors
            },
            ExecOutcome::Fail { line, unary, stack } => {
                &&& r == StepOutcome::Finished(InterpretResult::RuntimeError)
                &&& self.output is None
                &&& self.stack@ == stack
                &&& self.errors@.len() == base_errors.len() + 2
                &&& self.errors@.subrange(0, base_errors.len() as int) == base_errors
                &&& self.errors@[base_errors.len() as int]@ == (if unary {
                    "Operand must be a number."@
                } else {
                    "Operands must be numbers."@
                })
                &&& self.errors@[base_errors.len() as int + 1]@ == "[line "@ + dec_digits(line as nat)
                    + "] in script"@
            },
            ExecOutcome::Need { op, a, b } => {
                &&& r == (StepOutcome::NeedArith { op, a, b })
                &&& self.suspended()
                &&& self.output is None
                &&& self.errors@ == base_errors
            },
            ExecOutcome::Stuck => false,
        }
    }

    /// A fresh machine holding an empty unit.
    pub fn new() -> (r: Self)
        ensures
            r.chunk.code@ == Seq::<OpCode>::empty(),
            r.output is None,
            r.errors@ == Seq::<String>::empty(),
    {
        VM {
            chunk: Chunk::new(),
            ip: 0,
            stack: Vec::new(),
            output: None,
            errors: Vec::new(),
            resp: Ghost(Seq::empty()),
        }
    }

    /// Records a runtime error: the message, then the source line of the
    /// instruction just executed.
    fn runtime_error(&mut self, message: &str)
        requires
            1 <= old(self).ip,
            old(self).ip <= old(self).chunk.lines@.len(),
        ensures
            final(self).chunk == old(self).chunk,
            final(self).ip == old(self).ip,
            final(self).stack == old(self).stack,
            final(self).output == old(self).output,
            final(self).resp == old(self).resp,
            final(self).errors@.len() == old(self).errors@.len() + 2,
            final(self).errors@.subrange(0, old(self).errors@.len() as int) == old(self).errors@,
            final(self).errors@[old(self).errors@.len() as int]@ == message@,
            final(self).errors@[old(self).errors@.len() as int + 1]@ == "[line "@ + dec_digits(
                old(self).chunk.lines@[old(self).ip - 1] as nat,
            ) + "] in script"@,
    {
        let line = self.chunk.lines[self.ip - 1];
        let mut located = String::new();
        proof {
            reveal_strlit("[line ");
            reveal_strlit("] in script");
        }
        located.append("[line ");
        append_usize(&mut located, line);
        located.append("] in script");
        proof {
            assert(located@ =~= "[line "@ + dec_digits(line as nat) + "] in script"@);
        }
        let owned = String::from_str(message);
        self.errors.push(owned);
        self.errors.push(located);
        proof {
            assert(final(self).errors@.subrange(0, old(self).errors@.len() as int) =~= old(
                self,
            ).errors@);
        }
    }

    /// Pushes a value onto the operand stack.
    fn push(&mut self, value: Value)
        requires
            old(self).stack@.len() < STACK_MAX,
        ensures
            final(self).chunk == old(self).chunk,
            final(self).ip == old(self).ip,
            final(self).output == old(self).output,
            final(self).errors == old(self).errors,
            final(self).resp == old(self).resp,
            final(self).stack@ == old(self).stack@.push(value),
    {
        self.stack.push(value);
    }

    /// Pops the top of the operand stack.
    fn pop(&mut self) -> (r: Value)
        requires
            old(self).stack@.len() >= 1,
        ensures
            final(self).chunk == old(self).chunk,
            final(self).ip == old(self).ip,
            final(self).output == old(self).output,
            final(self).errors == old(self).errors,
            final(self).resp == old(self).resp,
            final(self).stack@ == old(self).stack@.take(old(self).stack@.len() - 1),
            r == old(self).stack@[old(self).stack@.len() - 1],
    {
        let r = self.stack.pop().unwrap();
        proof {
            assert(final(self).stack@ =~= old(self).stack@.take(old(self).stack@.len() - 1));
        }
        r
    }

    /// The value `distance` slots below the top of the stack.
    fn peek(&self, distance: usize) -> (r: Value)
        requires
            distance < self.stack@.len(),
        ensures
            r == self.stack@[self.stack@.len() - 1 - distance],
    {
        self.stack[self.stack.len() - 1 - distance]
    }

    /// Installs a compiled unit and runs it from the start; the unit must
    /// pass the static stack analysis. Runs until the first arithmetic
    /// instruction, a runtime error, or the return instruction.
    pub fn start(&mut self, chunk: Chunk) -> (r: StepOutcome)
        requires
            ok_from(chunk, 0, 0),
            chunk.code@.len() == chunk.lines@.len(),
        ensures
            final(self).chunk == chunk,
            final(self).step_post(r, Seq::<String>::empty()),
    {
        self.chunk = chunk;
        self.ip = 0;
        self.stack = Vec::new();
        self.output = None;
        self.errors = Vec::new();
        self.resp = Ghost(Seq::empty());
        proof {
            assert forall|fut: Seq<u64>|
                #[trigger] chunk_exec(self.chunk, self.ip as int, self.stack@, fut) == chunk_exec(
                    self.chunk,
                    0,
                    Seq::empty(),
                    self.resp@ + fut,
                ) by {
                assert(self.resp@ + fut =~= fut);
            }
            assert forall|rs: Seq<u64>|
                !(#[trigger] chunk_exec(self.chunk, 0, Seq::empty(), rs)
                    matches ExecOutcome::Stuck) by {
                lemma_ok_from_not_stuck(self.chunk, 0, Seq::empty(), rs);
            }
        }
        self.run_steps()
    }

    /// Hands the machine the encoded result of the arithmetic operation it
    /// suspended on, and continues the run.
    pub fn resume(&mut self, result: u64) -> (r: StepOutcome)
        requires
            old(self).suspended(),
            old(self).output is None,
        ensures
            final(self).chunk == old(self).chunk,
            final(self).resp@ == old(self).resp@ + seq![result],
            final(self).step_post(r, old(self).errors@),
    {
        let ghost c = self.chunk;
        let ghost ip0 = self.ip as int;
        let ghost stack0 = self.stack@;
        let ghost resp0 = self.resp@;
        let n = self.chunk.code.len();
        proof {
            assert(self.ip < n);
        }
        self.pop();
        self.pop();
        self.push(Value::Number(result));
        self.ip = self.ip + 1;
        proof {
            self.resp@ = resp0 + seq![result];
        }
        proof {
            let d = stack0.len() as int;
            assert forall|fut: Seq<u64>|
                #[trigger] chunk_exec(c, self.ip as int, self.stack@, fut) == chunk_exec(
                    c,
                    0,
                    Seq::empty(),
                    self.resp@ + fut,
                ) by {
                let rsx = seq![result] + fut;
                assert(chunk_exec(c, ip0, stack0, rsx) == chunk_exec(
                    c,
                    0,
                    Seq::empty(),
                    resp0 + rsx,
                ));
                assert(rsx.skip(1) =~= fut);
                assert(rsx[0] == result);
                if c.code@[ip0] is Add {
                    assert(chunk_exec(c, ip0, stack0, rsx) == arith_exec(
                        c,
                        ip0,
                        stack0,
                        rsx,
                        ArithOp::Add,
                    ));
                } else if c.code@[ip0] is Subtract {
                    assert(chunk_exec(c, ip0, stack0, rsx) == arith_exec(
                        c,
                        ip0,
                        stack0,
                        rsx,
                        ArithOp::Subtract,
                    ));
                } else if c.code@[ip0] is Multiply {
                    assert(chunk_exec(c, ip0, stack0, rsx) == arith_exec(
                        c,
                        ip0,
                        stack0,
                        rsx,
                        ArithOp::Multiply,
                    ));
                } else {
                    assert(chunk_exec(c, ip0, stack0, rsx) == arith_exec(
                        c,
                        ip0,
                        stack0,
                        rsx,
                        ArithOp::Divide,
                    ));
                }
                assert(self.stack@ =~= stack0.take(d - 2).push(Value::Number(result)));
                assert(resp0 + rsx =~= self.resp@ + fut);
            }
        }
        self.run_steps()
    }

    /// The dispatch loop: executes instructions until the run finishes or
    /// suspends on an arithmetic instruction.
    fn run_steps(&mut self) -> (r: StepOutcome)
        requires
            old(self).session_inv(),
            old(self).output is None,
        ensures
            final(self).chunk == old(self).chunk,
            final(self).resp == old(self).resp,
            final(self).step_post(r, old(self).errors@),
    {
        loop
            invariant
                self.session_inv(),
                self.chunk == old(self).chunk,
                self.resp == old(self).resp,
                self.errors == old(self).errors,
                self.output is None,
            decreases self.chunk.code@.len() - self.ip,
        {
            let ghost c = self.chunk;
            let ghost ip0 = self.ip as int;
            let ghost stack0 = self.stack@;
            let ghost d = stack0.len() as int;
            proof {
                assert(self.resp@ + Seq::<u64>::empty() =~= self.resp@);
                assert(chunk_exec(c, ip0, stack0, Seq::empty()) == chunk_exec(
                    c,
                    0,
                    Seq::empty(),
                    self.resp@,
                ));
                assert(!(chunk_exec(c, 0, Seq::empty(), self.resp@) matches ExecOutcome::Stuck));
                assert(ip0 < c.code@.len());
            }
            let n = self.chunk.code.len();
            let instruction = self.chunk.code[self.ip];
            proof {
                assert(self.ip < n);
            }
            self.ip = self.ip + 1;
            match instruction {
                OpCode::Constant(constant_index) => {
                    let v = self.chunk.constants[constant_index];
                    self.push(v);
                },
                OpCode::Nil => self.push(Value::Nil),
                OpCode::True => self.push(Value::Bool(true)),
                OpCode::False => self.push(Value::Bool(false)),
                OpCode::Equal => {
                    let b = self.pop();
                    let a = self.pop();
                    self.push(Value::Bool(value_eq(a, b)));
                    proof {
                        assert(self.stack@ =~= stack0.take(d - 2).push(
                            Value::Bool(val_eq(stack0[d - 2], stack0[d - 1])),
                        ));
                    }
                },
                OpCode::Greater => {
                    let p_b = self.peek(0);
                    let p_a = self.peek(1);
                    if let (Value::Number(a), Value::Number(b)) = (p_a, p_b) {
                        self.pop();
                        self.pop();
                        self.push(Value::Bool(num_gt(a, b)));
                        proof {
                            assert(self.stack@ =~= stack0.take(d - 2).push(
                                Value::Bool(f64_gt(a, b)),
                            ));
                        }
                    } else {
                        proof {
                            assert(chunk_exec(c, ip0, stack0, Seq::empty()) == (ExecOutcome::Fail {
                                line: line_of(c, ip0),
                                unary: false,
                                stack: stack0,
                            }));
                        }
                        self.runtime_error("Operands must be numbers.");
                        return StepOutcome::Finished(InterpretResult::RuntimeError);
                    }
                },
                OpCode::Less => {
                    let p_b = self.peek(0);
                    let p_a = self.peek(1);
                    if let (Value::Number(a), Value::Number(b)) = (p_a, p_b) {
                        self.pop();
                        self.pop();
                        self.push(Value::Bool(num_lt(a, b)));
                        proof {
                            assert(self.stack@ =~= stack0.take(d - 2).push(
                                Value::Bool(f64_lt(a, b)),
                            ));
                        }
                    } else {
                        proof {
                            assert(chunk_exec(c, ip0, stack0, Seq::empty()) == (ExecOutcome::Fail {
                                line: line_of(c, ip0),
                                unary: false,
                                stack: stack0,
                            }));
                        }
                        self.runtime_error("Operands must be numbers.");
                        return StepOutcome::Finished(InterpretResult::RuntimeError);
                    }
                },
                OpCode::Add | OpCode::Subtract | OpCode::Multiply | OpCode::Divide => {
                    let p_b = self.peek(0);
                    let p_a = self.peek(1);
                    if let (Value::Number(a), Value::Number(b)) = (p_a, p_b) {
                        self.ip = self.ip - 1;
                        let op = match instruction {
                            OpCode::Add => ArithOp::Add,
                            OpCode::Subtract => ArithOp::Subtract,
                            OpCode::Multiply => ArithOp::Multiply,
                            _ => ArithOp::Divide,
                        };
                        proof {
                            if instruction is Add {
                                assert(chunk_exec(c, ip0, stack0, Seq::empty()) == arith_exec(
                                    c, ip0, stack0, Seq::empty(), ArithOp::Add,
                                ));
                            } else if instruction is Subtract {
                                assert(chunk_exec(c, ip0, stack0, Seq::empty()) == arith_exec(
                                    c, ip0, stack0, Seq::empty(), ArithOp::Subtract,
                                ));
                            } else if instruction is Multiply {
                                assert(chunk_exec(c, ip0, stack0, Seq::empty()) == arith_exec(
                                    c, ip0, stack0, Seq::empty(), ArithOp::Multiply,
                                ));
                            } else {
                                assert(chunk_exec(c, ip0, stack0, Seq::empty()) == arith_exec(
                                    c, ip0, stack0, Seq::empty(), ArithOp::Divide,
                                ));
                            }
                            assert(chunk_exec(c, ip0, stack0, Seq::empty()) == (ExecOutcome::Need {
                                op,
                                a,
                                b,
                            }));
                        }
                        return StepOutcome::NeedArith { op, a, b };
                    } else {
                        proof {
                            if instruction is Add {
                                assert(chunk_exec(c, ip0, stack0, Seq::empty()) == arith_exec(
                                    c, ip0, stack0, Seq::empty(), ArithOp::Add,
                                ));
                            } else if instruction is Subtract {
                                assert(chunk_exec(c, ip0, stack0, Seq::empty()) == arith_exec(
                                    c, ip0, stack0, Seq::empty(), ArithOp::Subtract,
                                ));
                            } else if instruction is Multiply {
                                assert(chunk_exec(c, ip0, stack0, Seq::empty()) == arith_exec(
                                    c, ip0, stack0, Seq::empty(), ArithOp::Multiply,
                                ));
                            } else {
                                assert(chunk_exec(c, ip0, stack0, Seq::empty()) == arith_exec(
                                    c, ip0, stack0, Seq::empty(), ArithOp::Divide,
                                ));
                            }
                            assert(chunk_exec(c, ip0, stack0, Seq::empty()) == (ExecOutcome::Fail {
                                line: line_of(c, ip0),
                                unary: false,
                                stack: stack0,
                            }));
                        }
                        self.runtime_error("Operands must be numbers.");
                        return StepOutcome::Finished(InterpretResult::RuntimeError);
                    }
                },
                OpCode::Not => {
                    let v = self.pop();
                    let f = self.is_falsey(v);
                    self.push(Value::Bool(f));
                    proof {
                        assert(self.stack@ =~= stack0.take(d - 1).push(
                            Value::Bool(falsey(stack0[d - 1])),
                        ));
                    }
                },
                OpCode::Negate => {
                    let value = self.peek(0);
                    if let Value::Number(num) = value {
                        self.pop();
                        self.push(Value::Number(num_neg(num)));
                        proof {
                            assert(self.stack@ =~= stack0.take(d - 1).push(
                                Value::Number(f64_neg(num)),
                            ));
                        }
                    } else {
                        proof {
                            assert(chunk_exec(c, ip0, stack0, Seq::empty()) == (ExecOutcome::Fail {
                                line: line_of(c, ip0),
                                unary: true,
                                stack: stack0,
                            }));
                        }
                        self.runtime_error("Operand must be a number.");
                        return StepOutcome::Finished(InterpretResult::RuntimeError);
                    }
                },
                OpCode::Return => {
                    proof {
                        assert(chunk_exec(c, ip0, stack0, Seq::empty()) == (ExecOutcome::Done {
                            value: stack0[d - 1],
                            stack: stack0.take(d - 1),
                        }));
                    }
                    let v = self.pop();
                    self.output = Some(v);
                    return StepOutcome::Finished(InterpretResult::Success);
                },
            }
            proof {
                assert forall|fut: Seq<u64>|
                    #[trigger] chunk_exec(c, self.ip as int, self.stack@, fut) == chunk_exec(
                        c,
                        0,
                        Seq::empty(),
                        self.resp@ + fut,
                    ) by {
                    assert(chunk_exec(c, ip0, stack0, fut) == chunk_exec(
                        c,
                        0,
                        Seq::empty(),
                        self.resp@ + fut,
                    ));
                }
            }
        }
    }

    /// The two values that count as false: `nil` and `false`.
    fn is_falsey(&self, value: Value) -> (r: bool)
        ensures
            r == falsey(value),
    {
        match value {
            Value::Nil => true,
            Value::Bool(b) => !b,
            Value::Number(_) => false,
        }
    }
}

} // verus!
