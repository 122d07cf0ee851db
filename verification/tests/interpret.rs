use rslox::compiler::{number_literals, Compiler};
use rslox::value::Value;
use rslox::vm::{chunk_runnable, ArithOp, InterpretResult, StepOutcome, VM};

/// Drives one compile-and-run cycle, doing the IEEE 754 work the library
/// delegates: parsing number literals and computing arithmetic.
fn interpret(source: &str) -> (InterpretResult, Option<Value>, Vec<String>, Vec<String>) {
    let lexemes = number_literals(source);
    let mut nums: Vec<u64> = Vec::new();
    for lx in &lexemes {
        nums.push(lx.parse::<f64>().unwrap().to_bits());
    }
    let mut compiler = Compiler::new(source, nums);
    let chunk = match compiler.compile() {
        Some(c) => c,
        None => {
            return (
                InterpretResult::ComplileError,
                None,
                compiler.diagnostics,
                Vec::new(),
            )
        }
    };
    assert!(chunk_runnable(&chunk));
    let mut vm = VM::new();
    let mut out = vm.start(chunk);
    loop {
        match out {
            StepOutcome::Finished(r) => {
                return (r, vm.output, compiler.diagnostics, vm.errors)
            }
            StepOutcome::NeedArith { op, a, b } => {
                let x = f64::from_bits(a);
                let y = f64::from_bits(b);
                let v = match op {
                    ArithOp::Add => x + y,
                    ArithOp::Subtract => x - y,
                    ArithOp::Multiply => x * y,
                    ArithOp::Divide => x / y,
                };
                out = vm.resume(v.to_bits());
            }
        }
    }
}

fn eval_number(source: &str) -> f64 {
    match interpret(source) {
        (InterpretResult::Success, Some(Value::Number(bits)), _, _) => f64::from_bits(bits),
        other => panic!("expected a number, got {:?}", other.0),
    }
}

fn eval_bool(source: &str) -> bool {
    match interpret(source) {
        (InterpretResult::Success, Some(Value::Bool(b)), _, _) => b,
        other => panic!("expected a boolean, got {:?}", other.0),
    }
}

#[test]
fn precedence_mul_before_add() {
    assert_eq!(eval_number("1 + 2 * 3"), 7.0);
}

#[test]
fn grouping_overrides_precedence() {
    assert_eq!(eval_number("(1 + 2) * 3"), 9.0);
}

#[test]
fn left_associative_subtraction() {
    assert_eq!(eval_number("10 - 3 - 2"), 5.0);
}

#[test]
fn division_and_fractions() {
    assert_eq!(eval_number("7 / 2"), 3.5);
    assert_eq!(eval_number("1.5 + 2.25"), 3.75);
}

#[test]
fn canonical_composite_example() {
    assert!(eval_bool("!(5 - 4 > 3 * 2 == !nil)"));
}

#[test]
fn truthiness() {
    assert!(eval_bool("!nil"));
    assert!(eval_bool("!false"));
    assert!(!eval_bool("!0"));
    assert!(!eval_bool("!true"));
}

#[test]
fn equality_across_variants_is_false() {
    assert!(!eval_bool("1 == true"));
    assert!(!eval_bool("nil == false"));
    assert!(!eval_bool("0 == nil"));
}

#[test]
fn equality_within_variants() {
    assert!(eval_bool("2 == 2"));
    assert!(eval_bool("nil == nil"));
    assert!(eval_bool("true == true"));
    assert!(!eval_bool("2 == 3"));
    assert!(eval_bool("2 != 3"));
}

#[test]
fn comparison_chain_via_composition() {
    assert!(eval_bool("1 < 2"));
    assert!(eval_bool("2 <= 2"));
    assert!(eval_bool("3 > 2"));
    assert!(eval_bool("2 >= 2"));
    assert!(!eval_bool("2 > 2"));
}

#[test]
fn negate_numbers() {
    assert_eq!(eval_number("-5"), -5.0);
    assert_eq!(eval_number("--5"), 5.0);
    assert_eq!(eval_number("-(1 + 2)"), -3.0);
}

#[test]
fn runtime_error_negate_nil_keeps_stack() {
    let (r, out, _, errors) = interpret("-nil");
    assert_eq!(r, InterpretResult::RuntimeError);
    assert!(out.is_none());
    assert_eq!(errors.len(), 2);
    assert_eq!(errors[0], "Operand must be a number.");
    assert_eq!(errors[1], "[line 1] in script");
}

#[test]
fn runtime_error_binary_keeps_stack_depth() {
    // The failed instruction must leave the operand stack exactly as it
    // was just before it: both operands still in place.
    let lexemes = number_literals("true < 1");
    let mut nums: Vec<u64> = Vec::new();
    for lx in &lexemes {
        nums.push(lx.parse::<f64>().unwrap().to_bits());
    }
    let mut compiler = Compiler::new("true < 1", nums);
    let chunk = compiler.compile().unwrap();
    assert!(chunk_runnable(&chunk));
    let mut vm = VM::new();
    let out = vm.start(chunk);
    assert_eq!(out, StepOutcome::Finished(InterpretResult::RuntimeError));
    assert_eq!(vm.stack.len(), 2);
    assert_eq!(vm.errors[0], "Operands must be numbers.");
}

#[test]
fn missing_paren_is_one_compile_error() {
    let (r, _, diagnostics, _) = interpret("(1 + 2");
    assert_eq!(r, InterpretResult::ComplileError);
    assert_eq!(diagnostics.len(), 1);
    assert_eq!(diagnostics[0], "[line 1] Error at end: Expect ')' after expression.");
}

#[test]
fn expect_expression_error() {
    let (r, _, diagnostics, _) = interpret("+");
    assert_eq!(r, InterpretResult::ComplileError);
    assert_eq!(diagnostics.len(), 1);
    assert_eq!(diagnostics[0], "[line 1] Error at '+': Expect expression.");
}

#[test]
fn unexpected_character_error() {
    let (r, _, diagnostics, _) = interpret("1 @ 2");
    assert_eq!(r, InterpretResult::ComplileError);
    assert!(!diagnostics.is_empty());
    assert_eq!(diagnostics[0], "[line 1] Error: Unexpected character.");
}

#[test]
fn division_by_zero_is_infinity() {
    let v = eval_number("1 / 0");
    assert!(v.is_infinite() && v.is_sign_positive());
    let w = eval_number("-1 / 0");
    assert!(w.is_infinite() && w.is_sign_negative());
}

#[test]
fn nan_comparisons_follow_composition() {
    // 0/0 is NaN; every ordering against NaN is false, so the composed
    // `>=` (less-then-not) yields true where a native ordering would not.
    assert!(!eval_bool("0 / 0 < 1"));
    assert!(!eval_bool("0 / 0 > 1"));
    assert!(eval_bool("0 / 0 >= 1"));
    assert!(eval_bool("0 / 0 <= 1"));
    assert!(!eval_bool("0 / 0 == 0 / 0"));
    assert!(eval_bool("0 / 0 != 0 / 0"));
}

#[test]
fn multi_line_error_reports_line() {
    let (r, _, _, errors) = interpret("1 +\n\nnil");
    assert_eq!(r, InterpretResult::RuntimeError);
    assert_eq!(errors[1], "[line 3] in script");
}

#[test]
fn deep_nesting_fails_the_stack_analysis() {
    // The operand stack has a fixed capacity and the machine refuses to
    // run a unit that could overflow it; the original design leaves the
    // behaviour on overflow unspecified.
    let mut source = String::new();
    for _ in 0..300 {
        source.push_str("1+(");
    }
    source.push('1');
    for _ in 0..300 {
        source.push(')');
    }
    let lexemes = number_literals(&source);
    let mut nums: Vec<u64> = Vec::new();
    for lx in &lexemes {
        nums.push(lx.parse::<f64>().unwrap().to_bits());
    }
    let mut compiler = Compiler::new(&source, nums);
    let chunk = compiler.compile().unwrap();
    assert!(!chunk_runnable(&chunk));
}
