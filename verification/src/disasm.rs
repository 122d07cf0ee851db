//! The disassembler: a pure renderer of a compiled unit, one line per
//! instruction. Each line carries a zero-padded offset, the source line —
//! or a blank marker when it repeats the previous instruction's — the
//! instruction's name, and for constant loads the pool index and the
//! rendered constant. Rendering a number constant takes IEEE 754
//! formatting, so the host hands in the text of each pool entry.

use vstd::prelude::*;
use vstd::string::*;
use crate::chunk::{Chunk, OpCode};
use crate::text::{dec_digits, pad_left, pad_right, append_usize_padded, append_str_padded};

verus! {

/// The printed name of an instruction.
pub open spec fn op_name(op: OpCode) -> Seq<char> {
    match op {
        OpCode::Constant(_) => "Constant"@,
        OpCode::Nil => "Nil"@,
        OpCode::True => "True"@,
        OpCode::False => "False"@,
        OpCode::Equal => "Equal"@,
        OpCode::Greater => "Greater"@,
        OpCode::Less => "Less"@,
        OpCode::Add => "Add"@,
        OpCode::Subtract => "Substract"@,
        OpCode::Multiply => "Multiplay"@,
        OpCode::Divide => "Divide"@,
        OpCode::Not => "Not"@,
        OpCode::Negate => "Negate"@,
        OpCode::Return => "Return"@,
    }
}

/// The rendering of one instruction: offset, source line or repeat
/// marker, name, and for a constant load the index and the pool entry's
/// text.
pub open spec fn disasm_line(c: Chunk, offset: int, consts_text: Seq<Seq<char>>) -> Seq<char> {
    let head = pad_left(dec_digits(offset as nat), '0', 4) + " "@ + (if offset > 0 && c.lines@[
        offset
    ] == c.lines@[offset - 1] {
        "   | "@
    } else {
        pad_left(dec_digits(c.lines@[offset] as nat), '0', 4) + " "@
    });
    match c.code@[offset] {
        OpCode::Constant(ci) => head + pad_right("Constant"@, ' ', 16) + " "@ + pad_left(
            dec_digits(ci as nat),
            ' ',
            4,
        ) + " '"@ + consts_text[ci as int] + "'"@,
        op => head + op_name(op),
    }
}

/// Renders one instruction of a unit.
pub fn disassemble_instruction(chunk: &Chunk, offset: usize, consts_text: &Vec<String>) -> (r:
    String)
    requires
        offset < chunk.code@.len(),
        chunk.code@.len() == chunk.lines@.len(),
        chunk.wf(),
        consts_text@.len() == chunk.constants@.len(),
    ensures
        r@ == disasm_line(*chunk, offset as int, consts_text@.map_values(|s: String| s@)),
{
    let mut out = String::new();
    proof {
        reveal_strlit(" ");
        reveal_strlit("   | ");
        reveal_strlit(" '");
        reveal_strlit("'");
        reveal_strlit("Constant");
    }
    append_usize_padded(&mut out, offset, '0', 4);
    out.append(" ");
    if offset > 0 && chunk.lines[offset] == chunk.lines[offset - 1] {
        out.append("   | ");
    } else {
        let line = chunk.lines[offset];
        append_usize_padded(&mut out, line, '0', 4);
        out.append(" ");
    }
    match chunk.code[offset] {
        OpCode::Constant(index) => {
            append_str_padded(&mut out, "Constant", 16);
            out.append(" ");
            append_usize_padded(&mut out, index, ' ', 4);
            out.append(" '");
            let t = &consts_text[index];
            out.append(t.as_str());
            out.append("'");
            proof {
                assert(out@ =~= disasm_line(
                    *chunk,
                    offset as int,
                    consts_text@.map_values(|s: String| s@),
                ));
            }
        },
        op => {
            let name: &'static str = match op {
                OpCode::Nil => "Nil",
                OpCode::True => "True",
                OpCode::False => "False",
                OpCode::Equal => "Equal",
                OpCode::Greater => "Greater",
                OpCode::Less => "Less",
                OpCode::Add => "Add",
                OpCode::Subtract => "Substract",
                OpCode::Multiply => "Multiplay",
                OpCode::Divide => "Divide",
                OpCode::Not => "Not",
                OpCode::Negate => "Negate",
                _ => "Return",
            };
            out.append(name);
            proof {
                assert(op_name(chunk.code@[offset as int]) == name@);
                assert(out@ =~= disasm_line(
                    *chunk,
                    offset as int,
                    consts_text@.map_values(|s: String| s@),
                ));
            }
        },
    }
    out
}

/// Renders a whole unit: a header line naming it, then exactly one line
/// per instruction; consecutive instructions from one source line show
/// the blank repeat marker on all but the first.
pub fn disassemble_chunk(chunk: &Chunk, name: &str, consts_text: &Vec<String>) -> (r: Vec<String>)
    requires
        chunk.code@.len() == chunk.lines@.len(),
        chunk.wf(),
        consts_text@.len() == chunk.constants@.len(),
    ensures
        r@.len() == 1 + chunk.code@.len(),
        r@[0]@ == "== "@ + name@ + " =="@,
        forall|i: int|
            0 <= i < chunk.code@.len() ==> (#[trigger] r@[i + 1])@ == disasm_line(
                *chunk,
                i,
                consts_text@.map_values(|s: String| s@),
            ),
{
    let mut out: Vec<String> = Vec::new();
    let mut header = String::new();
    proof {
        reveal_strlit("== ");
        reveal_strlit(" ==");
    }
    header.append("== ");
    header.append(name);
    header.append(" ==");
    out.push(header);
    let n = chunk.code.len();
    let mut index: usize = 0;
    while index < n
        invariant
            n == chunk.code@.len(),
            chunk.code@.len() == chunk.lines@.len(),
            chunk.wf(),
            consts_text@.len() == chunk.constants@.len(),
            index <= n,
            out@.len() == 1 + index,
            out@[0]@ == "== "@ + name@ + " =="@,
            forall|i: int|
                0 <= i < index ==> (#[trigger] out@[i + 1])@ == disasm_line(
                    *chunk,
                    i,
                    consts_text@.map_values(|s: String| s@),
                ),
        decreases n - index,
    {
        let line = disassemble_instruction(chunk, index, consts_text);
        out.push(line);
        index = index + 1;
    }
    out
}

} // verus!
