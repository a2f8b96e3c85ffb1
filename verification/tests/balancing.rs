use closure_vm::balance::{effect_of, stack_shape};
use closure_vm::func::Func;
use closure_vm::lexer::Lexer;
use closure_vm::opcode::Opcode;
use closure_vm::parser::{Parser, Program};
use closure_vm::semantics::Event;
use closure_vm::symbols::Symbol;
use closure_vm::token::{Token, TokenKind};
use closure_vm::vm::VirtualMachine;

fn scan(source: &str) -> Vec<Token> {
    let mut lexer = Lexer::new(source);
    let mut tokens = Vec::new();
    loop {
        let token = lexer.next_token();
        let end = token.kind == TokenKind::End;
        tokens.push(token);
        if end {
            return tokens;
        }
    }
}

fn build(source: &str) -> Program {
    let mut program = Program::new();
    Parser::parse(&scan(source), &mut program, vec![Symbol::return_symbol()]).unwrap();
    program
}

fn raw(bytecode: Vec<u8>, param_count: u8) -> Func {
    Func { bytecode, param_count, closure_scope: vec![], param_names: vec![] }
}

#[test]
fn effects_of_opcodes() {
    assert_eq!(effect_of(Opcode::PushInt, 77, 0), 1);
    assert_eq!(effect_of(Opcode::PushFunc, 3, 0), 1);
    assert_eq!(effect_of(Opcode::Add, 0, 0), -1);
    assert_eq!(effect_of(Opcode::Equal, 0, 0), -1);
    assert_eq!(effect_of(Opcode::PopStore, 1, 0), -1);
    assert_eq!(effect_of(Opcode::PushPropLoad, 1, 0), 0);
    assert_eq!(effect_of(Opcode::PushList, 3, 0), -2);
    assert_eq!(effect_of(Opcode::PushList, 0, 0), 1);
    assert_eq!(effect_of(Opcode::Drop, 4, 0), -4);
    assert_eq!(effect_of(Opcode::Return, 0, 2), -2);
    assert_eq!(effect_of(Opcode::Jump, 9, 0), 0);
}

#[test]
fn straight_code_has_its_heights() {
    let func = raw(vec![15, 13, 0, 27, 1, 30], 0);
    assert_eq!(
        stack_shape(&func),
        Some(vec![Some(1), Some(2), Some(3), Some(2), None, Some(1), None])
    );
}

#[test]
fn frame_starts_with_return_slot_and_parameters() {
    let func = raw(vec![17, 1, 21, 0, 29], 2);
    assert_eq!(
        stack_shape(&func),
        Some(vec![Some(3), None, Some(4), None, Some(3), None])
    );
}

#[test]
fn return_needs_the_parameters_and_nothing_else() {
    assert!(stack_shape(&raw(vec![29], 0)).is_some());
    assert!(stack_shape(&raw(vec![29], 3)).is_some());
    assert!(stack_shape(&raw(vec![15, 29], 0)).is_none());
    assert!(stack_shape(&raw(vec![27, 1, 29], 1)).is_none());
}

#[test]
fn both_ways_to_an_instruction_must_agree() {
    let balanced = raw(vec![13, 26, 0, 0, 0, 12, 15, 25, 0, 0, 0, 13, 15, 27, 1, 30], 0);
    let shape = stack_shape(&balanced).unwrap();
    assert_eq!(shape[6], Some(1));
    assert_eq!(shape[7], Some(2));
    assert_eq!(shape[12], Some(1));
    assert_eq!(shape[13], Some(2));
    assert_eq!(shape[15], Some(1));
    let lopsided = raw(vec![13, 26, 0, 0, 0, 13, 15, 15, 25, 0, 0, 0, 14, 13, 30], 0);
    assert!(stack_shape(&lopsided).is_none());
}

#[test]
fn loop_must_come_back_with_the_height_it_left_with() {
    let steady = raw(vec![13, 26, 0, 0, 0, 11, 25, 0, 0, 0, 0, 30], 0);
    assert!(stack_shape(&steady).is_some());
    let growing = raw(vec![13, 26, 0, 0, 0, 12, 15, 25, 0, 0, 0, 0, 30], 0);
    assert!(stack_shape(&growing).is_none());
}

#[test]
fn jump_must_land_on_an_instruction() {
    assert!(stack_shape(&raw(vec![25, 0, 0, 0, 7, 17, 0, 30], 0)).is_some());
    assert!(stack_shape(&raw(vec![25, 0, 0, 0, 6, 17, 0, 30], 0)).is_none());
    assert!(stack_shape(&raw(vec![25, 0, 0, 0, 8, 17, 0, 30], 0)).is_none());
    assert!(stack_shape(&raw(vec![25, 0, 0, 0, 99, 30], 0)).is_none());
    assert!(stack_shape(&raw(vec![25, 0, 0, 0, 2, 30], 0)).is_none());
}

#[test]
fn code_must_not_run_off_its_end() {
    assert!(stack_shape(&raw(vec![15], 0)).is_none());
    assert!(stack_shape(&raw(vec![], 0)).is_none());
    assert!(stack_shape(&raw(vec![30], 0)).is_some());
    assert!(stack_shape(&raw(vec![30, 99], 0)).is_none());
    assert!(stack_shape(&raw(vec![30, 25, 0], 0)).is_none());
}

#[test]
fn height_must_not_fall_below_zero() {
    assert!(stack_shape(&raw(vec![27, 1, 30], 0)).is_some());
    assert!(stack_shape(&raw(vec![27, 2, 30], 0)).is_none());
    assert!(stack_shape(&raw(vec![19, 0, 0, 0, 3, 30], 0)).is_none());
}

#[test]
fn call_leaves_the_return_slot() {
    let func = raw(vec![15, 15, 15, 17, 0, 28, 2, 27, 1, 30], 0);
    let shape = stack_shape(&func).unwrap();
    assert_eq!(shape[5], Some(5));
    assert_eq!(shape[7], Some(2));
    assert_eq!(shape[9], Some(1));
}

#[test]
fn compiled_programs_without_early_return_are_balanced() {
    let sources = [
        "print 1 + 2 * 3",
        "var x = 10; x += 5; x *= 2; print x",
        "var i = 0; while i < 3 { print i; i += 1 }",
        "var f = func(a, b) { return a + b } print f(1, 2)",
        "var twice = func(n) n * 2 print twice(4)",
        "var a = 1 if a < 2 { var b = 2 var c = 3 print b } else if a < 3 { print 0 } else { var d = 4 } print a",
        "var make = func(n) { return func() { n += 1; return n } } var c = make(1) print c() print c()",
        "var l = list(1, 2, list()) print l.len f()",
    ];
    for source in sources.iter().take(7) {
        let program = build(source);
        for func in program.funcs.iter() {
            let shape = stack_shape(func).unwrap();
            assert_eq!(shape.len(), func.bytecode.len() + 1);
            assert_eq!(shape[0], Some(1 + func.param_count as u32));
        }
    }
}

#[test]
fn return_under_live_locals_is_not_balanced() {
    let program = build("var make = func() {\n var n = 0\n return func() { n += 1; return n }\n}");
    assert!(stack_shape(&program.funcs[0]).is_some());
    assert!(stack_shape(&program.funcs[1]).is_none());
    assert!(stack_shape(&program.funcs[2]).is_some());
}

#[test]
fn machine_keeps_to_the_static_heights() {
    let program = build(
        "var fib = none fib = func(n) { if n < 2 { return n } else { return fib(n - 1) + fib(n - 2) } }\nvar i = 0 while i < 6 { print fib(i) i += 1 }",
    );
    let shapes: Vec<Vec<Option<u32>>> =
        program.funcs.iter().map(|func| stack_shape(func).unwrap()).collect();
    let mut vm = VirtualMachine::new();
    vm.start(&program, 0).unwrap();
    let mut printed = 0;
    loop {
        let call = vm.current_call();
        let func_id = vm.heap().closure(call.closure).func_id;
        assert_eq!(shapes[func_id][call.pc], Some((vm.stack_len() - call.frame) as u32));
        match vm.step(&program).unwrap() {
            Event::Finished => break,
            Event::Print(_) => printed += 1,
            Event::Continue => {}
            Event::FloatOp { .. } => panic!("no floats here"),
        }
    }
    assert_eq!(printed, 6);
}

#[test]
fn tameness_is_told() {
    let tame = [
        "print 1",
        "var f = func(a) { return a } print f(1)",
        "var f = func(a) { if a < 1 { return 0 } else { return 1 } }",
        "var make = func(n) { return func() { n += 1; return n } }",
        "return 1",
    ];
    for source in tame.iter() {
        let mut program = Program::new();
        let (_, told) =
            Parser::parse_tame(&scan(source), &mut program, vec![Symbol::return_symbol()]).unwrap();
        assert!(told);
        for func in program.funcs.iter() {
            assert!(stack_shape(func).is_some());
        }
    }
    let wild = [
        "var f = func() { var n = 1 return n }",
        "var x = 1 return x",
        "var f = func(a) { if a < 1 { var b = a return b } } print 1",
        "var f = func() { return func() { var n = 0 return n } }",
    ];
    for source in wild.iter() {
        let mut program = Program::new();
        let (_, told) =
            Parser::parse_tame(&scan(source), &mut program, vec![Symbol::return_symbol()]).unwrap();
        assert!(!told);
    }
}

#[test]
fn tame_compilation_leaves_what_was_compiled_before() {
    let mut program = Program::new();
    let (scope, told) =
        Parser::parse_tame(&scan("var a = 1"), &mut program, vec![Symbol::return_symbol()])
            .unwrap();
    assert!(told);
    let first = program.funcs[0].bytecode.clone();
    let (_, told) = Parser::parse_tame(
        &scan("var g = func(p) { return p + a } print g(2)"),
        &mut program,
        scope,
    )
    .unwrap();
    assert!(told);
    assert_eq!(program.funcs.len(), 3);
    assert_eq!(program.funcs[0].bytecode, first);
    assert!(stack_shape(&program.funcs[1]).is_some());
    assert!(stack_shape(&program.funcs[2]).is_some());
    assert_eq!(stack_shape(&program.funcs[1]).unwrap()[0], Some(2));
}
