use closure_vm::func::Func;
use closure_vm::heap::HeapPtr;
use closure_vm::lexer::Lexer;
use closure_vm::opcode::Opcode;
use closure_vm::parser::{Parser, Program};
use closure_vm::semantics::{Event, RuntimeError};
use closure_vm::symbols::{Symbol, Symbols};
use closure_vm::token::{Token, TokenKind};
use closure_vm::value::{ClosureValueRef, DispValue, RustValue, Value};
use closure_vm::vm::VirtualMachine;

fn lex(source: &str) -> Vec<Token> {
    let mut lexer = Lexer::new(source);
    let mut tokens = Vec::new();
    loop {
        let mut token = lexer.next_token();
        if token.kind == TokenKind::Float {
            let number: f64 = token.text.parse().unwrap();
            token = token.with_value(number.to_bits());
        }
        let end = token.kind == TokenKind::End;
        tokens.push(token);
        if end {
            return tokens;
        }
    }
}

fn float(value: Value) -> f64 {
    match value {
        Value::Int(i) => i as f64,
        Value::Float(bits) => f64::from_bits(bits),
        _ => panic!("not a number"),
    }
}

fn host(op: Opcode, lhs: Value, rhs: Value) -> Value {
    let a = float(lhs);
    let b = float(rhs);
    match op {
        Opcode::Add => Value::Float((a + b).to_bits()),
        Opcode::Subtract => Value::Float((a - b).to_bits()),
        Opcode::Multiply => Value::Float((a * b).to_bits()),
        Opcode::Divide => Value::Float((a / b).to_bits()),
        Opcode::Modulus => Value::Float((a % b).to_bits()),
        Opcode::Equal => Value::Bool(a == b),
        Opcode::NotEqual => Value::Bool(a != b),
        Opcode::Less => Value::Bool(a < b),
        Opcode::Greater => Value::Bool(a > b),
        Opcode::LessOrEqual => Value::Bool(a <= b),
        Opcode::GreaterOrEqual => Value::Bool(a >= b),
        _ => panic!("no binary operation"),
    }
}

fn text(value: Value) -> String {
    match value {
        Value::Int(i) => format!("{}", i),
        Value::Float(bits) => format!("{}", f64::from_bits(bits)),
        Value::Bool(b) => format!("{}", b),
        Value::Nil => format!("none"),
        Value::Closure(_) => format!("func"),
        Value::RustValue(_) => format!("list"),
    }
}

fn drive(vm: &mut VirtualMachine, program: &Program, entry: usize) -> Result<Vec<String>, RuntimeError> {
    let mut printed = Vec::new();
    vm.start(program, entry)?;
    loop {
        match vm.run(program, 1_000_000)? {
            Event::Continue => panic!("the program runs too long"),
            Event::Print(value) => printed.push(text(value)),
            Event::FloatOp { op, lhs, rhs } => vm.push(host(op, lhs, rhs)),
            Event::Finished => return Ok(printed),
        }
    }
}

fn output(source: &str) -> Result<Vec<String>, RuntimeError> {
    let mut program = Program::new();
    let scope = Parser::parse(&lex(source), &mut program, vec![Symbol::return_symbol()]);
    assert!(scope.is_ok());
    let mut vm = VirtualMachine::new();
    drive(&mut vm, &program, 0)
}

fn lines(expected: &[&str]) -> Result<Vec<String>, RuntimeError> {
    Ok(expected.iter().map(|line| format!("{}", line)).collect())
}

fn raw(bytecode: Vec<u8>) -> Program {
    Program {
        funcs: vec![Func { bytecode, param_count: 0, closure_scope: vec![], param_names: vec![] }],
        symbols: Symbols::new(),
    }
}

fn raw_output(bytecode: Vec<u8>) -> Result<Vec<String>, RuntimeError> {
    let program = raw(bytecode);
    let mut vm = VirtualMachine::new();
    drive(&mut vm, &program, 0)
}

#[test]
fn integer_arithmetic() {
    assert_eq!(output("print 7 - 10"), lines(&["-3"]));
    assert_eq!(output("print 7 / 2"), lines(&["3"]));
    assert_eq!(output("print (0 - 7) / 2"), lines(&["-3"]));
    assert_eq!(output("print 7 % 3"), lines(&["1"]));
    assert_eq!(output("print (0 - 7) % 3"), lines(&["-1"]));
    assert_eq!(output("print 7 % (0 - 3)"), lines(&["1"]));
    assert_eq!(output("print 6 * 7"), lines(&["42"]));
}

#[test]
fn integer_arithmetic_wraps() {
    assert_eq!(output("print 9223372036854775807 + 1"), lines(&["-9223372036854775808"]));
    assert_eq!(output("print 0 - 9223372036854775807 - 2"), lines(&["9223372036854775807"]));
    assert_eq!(output("print 9223372036854775807 * 2"), lines(&["-2"]));
    assert_eq!(output("print 18446744073709551615"), lines(&["-1"]));
}

#[test]
fn division_by_zero_is_fatal() {
    assert_eq!(output("print 1 / 0"), Err(RuntimeError::DivisionByZero));
    assert_eq!(output("print 1 % 0"), Err(RuntimeError::DivisionByZero));
}

#[test]
fn quotient_that_does_not_fit_is_fatal() {
    assert_eq!(
        output("print (0 - 9223372036854775807 - 1) / (0 - 1)"),
        Err(RuntimeError::ArithmeticOverflow)
    );
    assert_eq!(
        output("print (0 - 9223372036854775807 - 1) % (0 - 1)"),
        Err(RuntimeError::ArithmeticOverflow)
    );
}

#[test]
fn comparisons_of_integers() {
    assert_eq!(
        output("print 1 < 2 print 2 < 2 print 2 <= 2 print 3 > 2 print 2 >= 3"),
        lines(&["true", "false", "true", "true", "false"])
    );
}

#[test]
fn equality_within_a_type() {
    assert_eq!(
        output("print 1 == 1 print 1 != 1 print true == true print true == false print none == none print none != none"),
        lines(&["true", "false", "true", "false", "true", "false"])
    );
}

#[test]
fn equality_across_types_is_false() {
    assert_eq!(
        output("print 1 == true print none == 0 print 1 != none print 1 == 1.0 print 1 != 1.0"),
        lines(&["false", "false", "true", "false", "true"])
    );
}

#[test]
fn closures_are_equal_to_nothing() {
    assert_eq!(
        output("var f = func() { } print f == f print f != f"),
        lines(&["false", "true"])
    );
}

#[test]
fn floats_go_through_the_host() {
    assert_eq!(output("print 1.5 + 2"), lines(&["3.5"]));
    assert_eq!(output("print 1 / 2.0"), lines(&["0.5"]));
    assert_eq!(output("print 2.5 * 2.0 - 1"), lines(&["4"]));
    assert_eq!(output("print 1.5 < 2 print 2.0 == 2.0 print 2.5 != 2.5 print 3 >= 3.5"),
        lines(&["true", "true", "false", "false"]));
    assert_eq!(output("print 1.0 / 0"), lines(&["inf"]));
}

#[test]
fn float_operation_is_an_event() {
    let mut program = Program::new();
    Parser::parse(&lex("print 1.5 - 2"), &mut program, vec![Symbol::return_symbol()]).unwrap();
    let mut vm = VirtualMachine::new();
    vm.start(&program, 0).unwrap();
    let before = vm.stack_len();
    match vm.run(&program, 100) {
        Ok(Event::FloatOp { op, lhs, rhs }) => {
            assert_eq!(op, Opcode::Subtract);
            assert!(matches!(lhs, Value::Float(0x3ff8_0000_0000_0000)));
            assert!(matches!(rhs, Value::Int(2)));
        }
        _ => panic!("no float operation"),
    }
    assert_eq!(vm.stack_len(), before);
    vm.push(Value::Float((-0.5f64).to_bits()));
    assert!(matches!(vm.run(&program, 100), Ok(Event::Print(Value::Float(bits))) if f64::from_bits(bits) == -0.5));
    assert!(matches!(vm.run(&program, 100), Ok(Event::Finished)));
    assert!(vm.is_finished());
    assert!(matches!(vm.step(&program), Ok(Event::Finished)));
}

#[test]
fn type_mismatch_is_fatal() {
    assert_eq!(output("print true + 1"), Err(RuntimeError::TypeMismatch));
    assert_eq!(output("print none < 1"), Err(RuntimeError::TypeMismatch));
    assert_eq!(output("print 1.5 * none"), Err(RuntimeError::TypeMismatch));
    assert_eq!(output("if 1 { }"), Err(RuntimeError::TypeMismatch));
    assert_eq!(output("while none { }"), Err(RuntimeError::TypeMismatch));
    assert_eq!(output("var f = func() { } print f - 1"), Err(RuntimeError::TypeMismatch));
}

#[test]
fn call_of_no_closure_is_fatal() {
    assert_eq!(output("var f = 1 f()"), Err(RuntimeError::NotCallable));
    assert_eq!(output("var f = none print f(1)"), Err(RuntimeError::NotCallable));
}

#[test]
fn arity_is_checked() {
    assert_eq!(output("var f = func(a, b) { } f(1)"), Err(RuntimeError::ArityMismatch));
    assert_eq!(output("var f = func() { } f(1)"), Err(RuntimeError::ArityMismatch));
    assert_eq!(output("var f = func(a, b) { } f(1, 2, 3)"), Err(RuntimeError::ArityMismatch));
    assert_eq!(output("var f = func(a, b) { return b } print f(1, 2)"), lines(&["2"]));
}

#[test]
fn function_without_return_gives_none() {
    assert_eq!(output("var f = func() { } print f()"), lines(&["none"]));
}

#[test]
fn expression_body_returns() {
    assert_eq!(output("var twice = func(n) n * 2 print twice(21)"), lines(&["42"]));
}

#[test]
fn recursion_through_a_capture() {
    let source = "var fact = none\nfact = func(n) { if n < 2 { return 1 } else { return n * fact(n - 1) } }\nprint fact(10)";
    assert_eq!(output(source), lines(&["3628800"]));
}

#[test]
fn if_and_else() {
    assert_eq!(output("if 1 < 2 { print 1 } else { print 2 }"), lines(&["1"]));
    assert_eq!(output("if 1 > 2 { print 1 } else { print 2 }"), lines(&["2"]));
    assert_eq!(output("if 1 > 2 { print 1 } print 3"), lines(&["3"]));
    assert_eq!(
        output("var x = 5 if x < 3 { print 1 } else if x < 6 { print 2 } else { print 3 }"),
        lines(&["2"])
    );
}

#[test]
fn block_locals_do_not_leak_onto_the_stack() {
    assert_eq!(
        output("var a = 1 if true { var b = 2 var c = 3 print b + c } var d = 4 print a + d"),
        lines(&["5", "5"])
    );
}

#[test]
fn lists_know_their_length() {
    assert_eq!(output("print list().len"), lines(&["0"]));
    assert_eq!(output("var l = list(1, true, none) print l.len"), lines(&["3"]));
    assert_eq!(output("print list(1, 2) == list(1, 2)"), lines(&["false"]));
}

#[test]
fn list_keeps_its_elements_in_order() {
    let mut program = Program::new();
    Parser::parse(&lex("var l = list(10, 20, 30)"), &mut program, vec![Symbol::return_symbol()])
        .unwrap();
    let mut vm = VirtualMachine::new();
    assert_eq!(drive(&mut vm, &program, 0), lines(&[]));
    assert_eq!(vm.stack_len(), 2);
    let ptr = match vm.stack_value(1) {
        Value::RustValue(ptr) => ptr,
        _ => panic!("no list"),
    };
    let RustValue::List(list) = vm.heap().object(ptr);
    assert_eq!(list.len(), 3);
    let mut iter = list.slice.iter();
    assert!(matches!(iter.next(vm.heap()), Some(Value::Int(10))));
    assert!(matches!(iter.next(vm.heap()), Some(Value::Int(20))));
    assert!(matches!(iter.next(vm.heap()), Some(Value::Int(30))));
    assert!(iter.next(vm.heap()).is_none());
}

#[test]
fn unknown_property_is_fatal() {
    assert_eq!(output("print list(1).size"), Err(RuntimeError::UnknownProperty));
    assert_eq!(output("print list(1).len.len"), Err(RuntimeError::NotAnExtension));
    assert_eq!(output("print 1 .len"), Err(RuntimeError::NotAnExtension));
    assert_eq!(raw_output(vec![19, 0, 0, 0, 0, 20, 9, 30]), Err(RuntimeError::UnknownProperty));
}

#[test]
fn return_at_the_top_level_is_fatal() {
    assert_eq!(output("return 1"), Err(RuntimeError::ReturnOutsideCall));
}

#[test]
fn reserved_opcode_is_fatal() {
    assert_eq!(raw_output(vec![15, 23, 0, 30]), Err(RuntimeError::Unimplemented));
}

#[test]
fn stack_underflow_is_fatal() {
    assert_eq!(raw_output(vec![27, 2, 30]), Err(RuntimeError::StackUnderflow));
    assert_eq!(raw_output(vec![27, 1, 0, 30]), Err(RuntimeError::StackUnderflow));
    assert_eq!(raw_output(vec![19, 0, 0, 0, 2, 30]), Err(RuntimeError::StackUnderflow));
    assert_eq!(raw_output(vec![27, 1, 22, 30]), Err(RuntimeError::StackUnderflow));
}

#[test]
fn broken_code_is_fatal() {
    assert_eq!(raw_output(vec![]), Err(RuntimeError::InvalidCode));
    assert_eq!(raw_output(vec![15]), Err(RuntimeError::InvalidCode));
    assert_eq!(raw_output(vec![99]), Err(RuntimeError::InvalidCode));
    assert_eq!(raw_output(vec![11, 0, 0]), Err(RuntimeError::InvalidCode));
    assert_eq!(raw_output(vec![25, 0, 0, 1, 0]), Err(RuntimeError::InvalidCode));
    assert_eq!(raw_output(vec![17, 1, 30]), Err(RuntimeError::InvalidCode));
    assert_eq!(raw_output(vec![15, 21, 5, 30]), Err(RuntimeError::InvalidCode));
    assert_eq!(raw_output(vec![18, 0, 30]), Err(RuntimeError::InvalidCode));
    assert_eq!(raw_output(vec![15, 24, 0, 30]), Err(RuntimeError::InvalidCode));
    assert_eq!(raw_output(vec![16, 0, 0, 0, 7, 30]), Err(RuntimeError::InvalidCode));
}

#[test]
fn start_needs_an_entry_function_without_captures() {
    let mut program = raw(vec![30]);
    let mut vm = VirtualMachine::new();
    assert_eq!(vm.start(&program, 1), Err(RuntimeError::InvalidCode));
    program.funcs[0].closure_scope.push(closure_vm::func::ClosureValue::Stack(0));
    assert_eq!(vm.start(&program, 0), Err(RuntimeError::InvalidCode));
    assert!(vm.is_finished());
    let mut full = VirtualMachine::with_capacity(0);
    assert_eq!(full.start(&raw(vec![30]), 0), Err(RuntimeError::HeapExhausted));
}

#[test]
fn full_heap_is_fatal() {
    let mut program = Program::new();
    Parser::parse(
        &lex("var i = 0 while true { var l = list(i, i) }"),
        &mut program,
        vec![Symbol::return_symbol()],
    )
    .unwrap();
    let mut vm = VirtualMachine::with_capacity(100);
    assert_eq!(drive(&mut vm, &program, 0), Err(RuntimeError::HeapExhausted));
    assert!(!vm.heap().has_room(3));
}

#[test]
fn budget_stops_a_loop() {
    let mut program = Program::new();
    Parser::parse(&lex("while true { }"), &mut program, vec![Symbol::return_symbol()]).unwrap();
    let mut vm = VirtualMachine::new();
    vm.start(&program, 0).unwrap();
    assert!(matches!(vm.run(&program, 1000), Ok(Event::Continue)));
    assert!(matches!(vm.run(&program, 0), Ok(Event::Continue)));
    assert!(!vm.is_finished());
}

#[test]
fn steps_move_the_stack_by_the_effect_of_each_opcode() {
    let program = raw(vec![15, 13, 11, 0, 0, 0, 0, 0, 0, 0, 5, 17, 3, 0, 21, 1, 27, 2, 30]);
    let mut vm = VirtualMachine::new();
    vm.start(&program, 0).unwrap();
    let mut heights = vec![vm.stack_len()];
    loop {
        match vm.step(&program) {
            Ok(Event::Finished) => break,
            Ok(_) => heights.push(vm.stack_len()),
            Err(_) => panic!("no error expected"),
        }
    }
    assert_eq!(heights, vec![1, 2, 3, 4, 5, 4, 3, 1]);
    assert!(matches!(vm.stack_value(0), Value::Nil));
}

#[test]
fn counter_survives_its_frame() {
    let source = "var make = func(n) {\n return func() { n += 1; return n }\n}\nvar a = make(10)\nvar b = make(10)\nprint a() print a() print b() print a()";
    assert_eq!(output(source), lines(&["11", "12", "11", "13"]));
}

#[test]
fn return_drops_the_parameters_and_nothing_else() {
    let mut program = Program::new();
    let source = "var f = func(p) { return p }\nvar g = func(p) { var n = 5 return 7 }\nvar a = f(1)";
    let scope = Parser::parse(&lex(source), &mut program, vec![Symbol::return_symbol()]).unwrap();
    let mut vm = VirtualMachine::new();
    assert_eq!(drive(&mut vm, &program, 0), lines(&[]));
    assert_eq!(scope.len(), 4);
    assert_eq!(vm.stack_len(), 4);
    assert!(matches!(vm.stack_value(3), Value::Int(1)));
    let entry = program.funcs.len();
    Parser::parse(&lex("print g(2)"), &mut program, scope).unwrap();
    assert_eq!(drive(&mut vm, &program, entry), lines(&["2"]));
    assert_eq!(vm.stack_len(), 5);
    assert!(matches!(vm.stack_value(4), Value::Int(7)));
}

#[test]
fn parameter_is_promoted_when_the_function_returns() {
    let source = "var adder = func(n) { return func(m) { return n + m } }\nvar add2 = adder(2)\nvar add5 = adder(5)\nprint add2(1) print add5(1) print add2(10)";
    assert_eq!(output(source), lines(&["3", "6", "12"]));
}

#[test]
fn promotion_closes_the_cell_once() {
    let mut program = Program::new();
    let source = "var adder = func(n) { return func(m) { n += m; return n } }\nvar add = adder(2)";
    Parser::parse(&lex(source), &mut program, vec![Symbol::return_symbol()]).unwrap();
    let mut vm = VirtualMachine::new();
    vm.start(&program, 0).unwrap();
    let mut seen_open = false;
    loop {
        let event = vm.step(&program).unwrap();
        if vm.heap().cell_count() == 1 {
            match vm.heap().cell(HeapPtr { index: 0 }) {
                ClosureValueRef::Stack(slot) => {
                    assert_eq!(slot, 3);
                    seen_open = true;
                }
                ClosureValueRef::Heap(ptr) => {
                    assert!(seen_open);
                    assert_eq!(ptr, HeapPtr { index: 0 });
                }
            }
        }
        if matches!(event, Event::Finished) {
            break;
        }
    }
    assert!(seen_open);
    assert!(matches!(vm.heap().cell(HeapPtr { index: 0 }), ClosureValueRef::Heap(HeapPtr { index: 0 })));
    assert!(matches!(vm.heap().value(HeapPtr { index: 0 }), Value::Int(2)));
    assert_eq!(vm.heap().value_count(), 1);
}

#[test]
fn shared_capture() {
    let source = "var pair = func() {\n    var n = 0\n    var inc = func() { n += 1 }\n    var get = func() { return n }\n    return list(inc, get)\n}\nvar p = pair()\nprint p.len";
    let mut program = Program::new();
    Parser::parse(&lex(source), &mut program, vec![Symbol::return_symbol()]).unwrap();
    let mut vm = VirtualMachine::new();
    assert_eq!(drive(&mut vm, &program, 0), lines(&["2"]));
    let list = match vm.stack_value(2) {
        Value::RustValue(ptr) => match vm.heap().object(ptr) {
            RustValue::List(list) => list,
        },
        _ => panic!("no list"),
    };
    let mut iter = list.slice.iter();
    let inc = iter.next(vm.heap()).unwrap();
    let get = iter.next(vm.heap()).unwrap();
    let cell_of = |vm: &VirtualMachine, closure: Value| match closure {
        Value::Closure(ptr) => {
            let record = vm.heap().closure(ptr);
            assert_eq!(record.closure_values.length, 1);
            vm.heap().capture(record.closure_values.start)
        }
        _ => panic!("no closure"),
    };
    let inc_cell = vm.heap().cell(cell_of(&vm, inc));
    let get_cell = vm.heap().cell(cell_of(&vm, get));
    match (inc_cell, get_cell) {
        (ClosureValueRef::Stack(a), ClosureValueRef::Stack(b)) => assert_eq!(a, b),
        (ClosureValueRef::Heap(a), ClosureValueRef::Heap(b)) => assert_eq!(a, b),
        _ => panic!("the closures do not share their variable"),
    }
    program.funcs.push(Func {
        bytecode: vec![28, 0, 22, 30],
        param_count: 0,
        closure_scope: vec![],
        param_names: vec![],
    });
    let driver = program.funcs.len() - 1;
    for expected in ["1", "2", "3"] {
        vm.push(Value::Nil);
        vm.push(inc);
        assert_eq!(drive(&mut vm, &program, driver), lines(&["none"]));
        vm.push(Value::Nil);
        vm.push(get);
        assert_eq!(drive(&mut vm, &program, driver), lines(&[expected]));
    }
}

#[test]
fn closures_made_at_one_site_share_a_capture_of_a_capture() {
    let source = "var x = 0\nvar outer = func() {\n var a = func() { x += 1; return x }\n var b = func() { x += 10; return x }\n print a() print b() print a()\n}\nouter()\nprint x";
    assert_eq!(output(source), lines(&["1", "11", "12", "12"]));
}

#[test]
fn no_upvalue_dangles() {
    let source = "var keep = none\nvar make = func(n) { return func(m) { n += m; return func() { return n + m } } }\nvar a = make(1)\nvar b = a(2)\nvar c = a(10)\nif true { var t = 5 var g = func() { return t } keep = g }\nprint b() print c() print keep()";
    let mut program = Program::new();
    Parser::parse(&lex(source), &mut program, vec![Symbol::return_symbol()]).unwrap();
    let mut vm = VirtualMachine::new();
    vm.start(&program, 0).unwrap();
    let mut printed = Vec::new();
    loop {
        let event = vm.step(&program).unwrap();
        for index in 0..vm.heap().cell_count() {
            match vm.heap().cell(HeapPtr { index }) {
                ClosureValueRef::Stack(slot) => assert!(slot < vm.stack_len()),
                ClosureValueRef::Heap(ptr) => assert!(ptr.index < vm.heap().value_count()),
            }
        }
        for index in 0..vm.heap().closure_count() {
            let record = vm.heap().closure(HeapPtr { index });
            for offset in 0..record.closure_values.length {
                let cell = vm.heap().capture(record.closure_values.start + offset);
                assert!(cell.index < vm.heap().cell_count());
            }
        }
        match event {
            Event::Print(value) => printed.push(text(value)),
            Event::Finished => break,
            _ => {}
        }
    }
    assert_eq!(printed, vec![format!("15"), format!("23"), format!("5")]);
    assert!(vm.heap().cell_count() >= 4);
}

#[test]
fn machine_keeps_its_stack_between_runs() {
    let mut program = Program::new();
    let mut vm = VirtualMachine::new();
    let scope =
        Parser::parse(&lex("var x = 41"), &mut program, vec![Symbol::return_symbol()]).unwrap();
    assert_eq!(drive(&mut vm, &program, 0), lines(&[]));
    assert_eq!(vm.stack_len(), 2);
    let entry = program.funcs.len();
    let scope = Parser::parse(&lex("x += 1 var f = func() { return x }"), &mut program, scope).unwrap();
    assert_eq!(drive(&mut vm, &program, entry), lines(&[]));
    let entry = program.funcs.len();
    Parser::parse(&lex("x = x * 2 print f()"), &mut program, scope).unwrap();
    assert_eq!(drive(&mut vm, &program, entry), lines(&["84"]));
    assert_eq!(vm.call_depth(), 0);
    assert_eq!(vm.current_call().frame, 0);
}

#[test]
fn new_machine_has_only_the_return_slot() {
    let vm = VirtualMachine::new();
    assert!(vm.is_finished());
    assert_eq!(vm.stack_len(), 1);
    assert!(matches!(vm.stack_value(0), Value::Nil));
    assert_eq!(vm.call_depth(), 0);
    assert_eq!(vm.heap().closure_count(), 0);
}

#[test]
fn pop_and_drop_by_hand() {
    let mut vm = VirtualMachine::new();
    vm.push(Value::Int(1));
    vm.push(Value::Int(2));
    vm.push(Value::Int(3));
    assert!(matches!(vm.pop(), Ok(Value::Int(3))));
    assert_eq!(vm.drop_n(2), Ok(()));
    assert_eq!(vm.stack_len(), 1);
    assert_eq!(vm.drop_n(2), Err(RuntimeError::StackUnderflow));
    assert_eq!(vm.stack_len(), 0);
    assert!(matches!(vm.pop(), Err(RuntimeError::StackUnderflow)));
}

#[test]
fn closure_shows_the_names_of_its_parameters() {
    let mut program = Program::new();
    Parser::parse(
        &lex("var f = func(first, second) { } var g = func() { }"),
        &mut program,
        vec![Symbol::return_symbol()],
    )
    .unwrap();
    let mut vm = VirtualMachine::new();
    assert_eq!(drive(&mut vm, &program, 0), lines(&[]));
    let f = DispValue::new(vm.stack_value(1), &program);
    assert_eq!(f.param_names(vm.heap()), Some(vec![format!("first"), format!("second")]));
    let g = DispValue::new(vm.stack_value(2), &program);
    assert_eq!(g.param_names(vm.heap()), Some(vec![]));
    assert_eq!(DispValue::new(Value::Int(1), &program).param_names(vm.heap()), None);
    let stray = DispValue::new(Value::Closure(HeapPtr { index: 99 }), &program);
    assert_eq!(stray.param_names(vm.heap()), None);
}
