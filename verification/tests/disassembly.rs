use rslox::chunk::Chunk;
use rslox::compiler::{number_literals, Compiler};
use rslox::disasm::{disassemble_chunk, disassemble_instruction};
use rslox::value::Value;

fn compile(source: &str) -> Chunk {
    let lexemes = number_literals(source);
    let mut nums: Vec<u64> = Vec::new();
    for lx in &lexemes {
        nums.push(lx.parse::<f64>().unwrap().to_bits());
    }
    let mut compiler = Compiler::new(source, nums);
    compiler.compile().unwrap()
}

fn const_texts(chunk: &Chunk) -> Vec<String> {
    let mut out = Vec::new();
    for v in &chunk.constants {
        out.push(match v {
            Value::Bool(b) => format!("{b}"),
            Value::Nil => "nil".to_string(),
            Value::Number(bits) => format!("{}", f64::from_bits(*bits)),
        });
    }
    out
}

#[test]
fn one_line_per_instruction() {
    let chunk = compile("1 + 2 * 3");
    let texts = const_texts(&chunk);
    let lines = disassemble_chunk(&chunk, "code", &texts);
    assert_eq!(lines.len(), 1 + chunk.code.len());
    assert_eq!(lines[0], "== code ==");
}

#[test]
fn repeated_source_lines_show_the_marker() {
    let chunk = compile("1 +\n2");
    let texts = const_texts(&chunk);
    let lines = disassemble_chunk(&chunk, "code", &texts);
    // Constant 1 on line 1; constant 2 on line 2; Add and Return follow
    // on line 2 and show the repeat marker.
    assert_eq!(lines[1], "0000 0001 Constant            0 '1'");
    assert_eq!(lines[2], "0001 0002 Constant            1 '2'");
    assert_eq!(lines[3], "0002    | Add");
    assert_eq!(lines[4], "0003    | Return");
}

#[test]
fn single_instruction_rendering() {
    let chunk = compile("1.5");
    let texts = const_texts(&chunk);
    let line = disassemble_instruction(&chunk, 0, &texts);
    assert_eq!(line, "0000 0001 Constant            0 '1.5'");
}
