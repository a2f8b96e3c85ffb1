use closure_vm::lexer::Lexer;
use closure_vm::parser::{Parser, Program};
use closure_vm::semantics::{Event, RuntimeError};
use closure_vm::symbols::Symbol;
use closure_vm::syntax::ParseError;
use closure_vm::token::{Token, TokenKind};
use closure_vm::value::Value;
use closure_vm::opcode::Opcode;
use closure_vm::vm::VirtualMachine;

fn tokenize(source: &str) -> Vec<Token> {
    let mut lexer = Lexer::new(source);
    let mut tokens = Vec::new();
    loop {
        let mut token = lexer.next_token();
        if token.kind == TokenKind::Float {
            let number: f64 = token.text.parse().unwrap();
            token = token.with_value(number.to_bits());
        }
        let end = token.kind == TokenKind::End;
        tokens.push(token);
        if end {
            return tokens;
        }
    }
}

fn as_float(value: Value) -> f64 {
    match value {
        Value::Int(i) => i as f64,
        Value::Float(bits) => f64::from_bits(bits),
        _ => panic!("not a number"),
    }
}

fn float_op(op: Opcode, lhs: Value, rhs: Value) -> Value {
    let a = as_float(lhs);
    let b = as_float(rhs);
    match op {
        Opcode::Add => Value::Float((a + b).to_bits()),
        Opcode::Subtract => Value::Float((a - b).to_bits()),
        Opcode::Multiply => Value::Float((a * b).to_bits()),
        Opcode::Divide => Value::Float((a / b).to_bits()),
        Opcode::Modulus => Value::Float((a % b).to_bits()),
        Opcode::Equal => Value::Bool(a == b),
        Opcode::NotEqual => Value::Bool(a != b),
        Opcode::Less => Value::Bool(a < b),
        Opcode::Greater => Value::Bool(a > b),
        Opcode::LessOrEqual => Value::Bool(a <= b),
        Opcode::GreaterOrEqual => Value::Bool(a >= b),
        _ => panic!("no binary operation"),
    }
}

fn show(value: Value) -> String {
    match value {
        Value::Int(i) => format!("{}", i),
        Value::Float(bits) => format!("{}", f64::from_bits(bits)),
        Value::Bool(b) => format!("{}", b),
        Value::Nil => format!("none"),
        Value::Closure(_) => format!("func"),
        Value::RustValue(_) => format!("list"),
    }
}

fn execute(vm: &mut VirtualMachine, program: &Program, entry: usize) -> Result<Vec<String>, RuntimeError> {
    let mut printed = Vec::new();
    vm.start(program, entry)?;
    loop {
        match vm.run(program, 1_000_000)? {
            Event::Continue => panic!("the program runs too long"),
            Event::Print(value) => printed.push(show(value)),
            Event::FloatOp { op, lhs, rhs } => vm.push(float_op(op, lhs, rhs)),
            Event::Finished => return Ok(printed),
        }
    }
}

fn run(source: &str) -> Result<Vec<String>, RuntimeError> {
    let tokens = tokenize(source);
    let mut program = Program::new();
    let scope = Parser::parse(&tokens, &mut program, vec![Symbol::return_symbol()]);
    assert!(scope.is_ok());
    let mut vm = VirtualMachine::new();
    execute(&mut vm, &program, 0)
}

#[test]
fn precedence_of_product_over_sum() {
    assert_eq!(run("print 1 + 2 * 3"), Ok(vec![format!("7")]));
}

#[test]
fn compound_assignment() {
    assert_eq!(run("var x = 10; x += 5; x *= 2; print x"), Ok(vec![format!("30")]));
}

#[test]
fn while_loop_counts() {
    assert_eq!(
        run("var i = 0; while i < 3 { print i; i += 1 }"),
        Ok(vec![format!("0"), format!("1"), format!("2")])
    );
}

#[test]
fn counter_closure() {
    let source = "var make = func() {\n    var n = 0\n    return func() { n += 1; return n }\n}\nvar c = make()\nprint c(); print c(); print c()";
    assert_eq!(run(source), Ok(vec![format!("1"), format!("2"), format!("3")]));
}

#[test]
fn arity_mismatch_is_fatal() {
    let source = "var f = func(a, b) { return a }\nprint f(1)";
    assert_eq!(run(source), Err(RuntimeError::ArityMismatch));
}

#[test]
fn incomplete_input_asks_for_more() {
    let tokens = tokenize("var f = func() {");
    let mut program = Program::new();
    let result = Parser::parse(&tokens, &mut program, vec![Symbol::return_symbol()]);
    assert_eq!(result, Err(ParseError::EndOfInput));
    assert_eq!(program.funcs.len(), 0);
    assert_eq!(program.symbols.len(), 1);
}
