//! A compiled unit of bytecode: the instruction sequence, an append-only
//! constant pool, and the source line that produced each instruction, the
//! last two kept in strict one-to-one positional correspondence with the
//! instructions.

use vstd::prelude::*;
use crate::value::Value;

verus! {

/// An operation of the virtual machine. `Constant` carries an index into
/// the constant pool; every other operation is bare.
#[derive(Clone, Copy, Debug, PartialEq, Eq, Structural)]
pub enum OpCode {
    Constant(usize),
    Nil,
    True,
    False,
    Equal,
    Greater,
    Less,
    Add,
    Subtract,
    Multiply,
    Divide,
    Negate,
    Not,
    Return,
}

/// A compiled unit.
#[derive(Clone)]
pub struct Chunk {
    pub code: Vec<OpCode>,
    pub constants: Vec<Value>,
    pub lines: Vec<usize>,
}

/// Well-formedness of a compiled unit: one source line per instruction, and
/// every constant-referencing instruction's index valid within the pool.
pub open spec fn chunk_wf(code: Seq<OpCode>, constants: Seq<Value>, lines: Seq<usize>) -> bool {
    &&& code.len() == lines.len()
    &&& forall|i: int|
        0 <= i < code.len() ==> (#[trigger] code[i] matches OpCode::Constant(ci) ==> ci
            < constants.len())
}

impl Chunk {
    /// The unit's own well-formedness.
    pub open spec fn wf(self) -> bool {
        chunk_wf(self.code@, self.constants@, self.lines@)
    }

    /// An empty unit.
    pub fn new() -> (r: Self)
        ensures
            r.code@ == Seq::<OpCode>::empty(),
            r.constants@ == Seq::<Value>::empty(),
            r.lines@ == Seq::<usize>::empty(),
            r.wf(),
    {
        Chunk { code: Vec::new(), constants: Vec::new(), lines: Vec::new() }
    }

    /// Appends one instruction together with the source line it came from.
    pub fn write(&mut self, opcode: OpCode, line: usize)
        ensures
            final(self).code@ == old(self).code@.push(opcode),
            final(self).lines@ == old(self).lines@.push(line),
            final(self).constants@ == old(self).constants@,
    {
        self.code.push(opcode);
        self.lines.push(line);
    }

    /// Appends a value to the constant pool and returns its index.
    pub fn add_constant(&mut self, value: Value) -> (r: usize)
        ensures
            final(self).constants@ == old(self).constants@.push(value),
            final(self).code@ == old(self).code@,
            final(self).lines@ == old(self).lines@,
            r == old(self).constants@.len(),
    {
        self.constants.push(value);
        self.constants.len() - 1
    }
}

} // verus!
