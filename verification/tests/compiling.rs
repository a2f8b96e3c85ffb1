use closure_vm::func::{assemble, ClosureValue, DispFunc, Func};
use closure_vm::lexer::Lexer;
use closure_vm::parser::{Parser, Program};
use closure_vm::symbols::Symbol;
use closure_vm::syntax::{InvalidInput, ParseError, Precedence};
use closure_vm::token::{Token, TokenKind};

fn tokenize(source: &str) -> Vec<Token> {
    let mut lexer = Lexer::new(source);
    let mut tokens = Vec::new();
    loop {
        let mut token = lexer.next_token();
        if token.kind == TokenKind::Float {
            let number: f64 = token.text.parse().unwrap();
            token = token.with_value(number.to_bits());
        }
        let end = token.kind == TokenKind::End;
        tokens.push(token);
        if end {
            return tokens;
        }
    }
}

fn compile(source: &str) -> Program {
    let mut program = Program::new();
    let result = Parser::parse(&tokenize(source), &mut program, vec![Symbol::return_symbol()]);
    assert!(result.is_ok());
    program
}

fn failure(source: &str) -> ParseError {
    let mut program = Program::new();
    let result = Parser::parse(&tokenize(source), &mut program, vec![Symbol::return_symbol()]);
    assert_eq!(program.funcs.len(), 0);
    assert_eq!(program.symbols.len(), 1);
    result.unwrap_err()
}

fn invalid(offset: usize) -> ParseError {
    ParseError::InvalidInput(InvalidInput { offset })
}

fn push_int(value: u8) -> Vec<u8> {
    vec![11, 0, 0, 0, 0, 0, 0, 0, value]
}

fn code(parts: &[&[u8]]) -> Vec<u8> {
    parts.concat()
}

#[test]
fn empty_program_only_finishes() {
    let program = compile("");
    assert_eq!(program.funcs.len(), 1);
    assert_eq!(program.funcs[0].bytecode, vec![30]);
    assert_eq!(program.funcs[0].param_count, 0);
    assert!(program.funcs[0].closure_scope.is_empty());
}

#[test]
fn product_binds_tighter_than_sum() {
    let program = compile("print 1 + 2 * 3");
    assert_eq!(
        program.funcs[0].bytecode,
        code(&[&push_int(1), &push_int(2), &push_int(3), &[2, 0, 22, 30]])
    );
}

#[test]
fn operators_of_one_precedence_group_to_the_left() {
    let program = compile("print 1 - 2 - 3");
    assert_eq!(
        program.funcs[0].bytecode,
        code(&[&push_int(1), &push_int(2), &[1], &push_int(3), &[1, 22, 30]])
    );
}

#[test]
fn relation_binds_tighter_than_equality() {
    let program = compile("print 1 < 2 == true");
    assert_eq!(program.funcs[0].bytecode, code(&[&push_int(1), &push_int(2), &[7, 13, 5, 22, 30]]));
}

#[test]
fn sum_binds_tighter_than_relation() {
    let program = compile("print 1 >= 2 % 3 + 4");
    assert_eq!(
        program.funcs[0].bytecode,
        code(&[&push_int(1), &push_int(2), &push_int(3), &[4], &push_int(4), &[0, 10, 22, 30]])
    );
}

#[test]
fn parentheses_group() {
    let program = compile("print (1 + 2) * 3");
    assert_eq!(
        program.funcs[0].bytecode,
        code(&[&push_int(1), &push_int(2), &[0], &push_int(3), &[2, 22, 30]])
    );
}

#[test]
fn literals() {
    let program = compile("print true print false print none print 2.5");
    assert_eq!(
        program.funcs[0].bytecode,
        vec![13, 22, 14, 22, 15, 22, 12, 0x40, 0x04, 0, 0, 0, 0, 0, 0, 22, 30]
    );
}

#[test]
fn variable_is_the_slot_its_value_was_pushed_to() {
    let mut program = Program::new();
    let scope = Parser::parse(
        &tokenize("var x = 10; x += 5; x *= 2; print x"),
        &mut program,
        vec![Symbol::return_symbol()],
    )
    .unwrap();
    assert_eq!(scope, vec![Symbol::from_index(0), Symbol::from_index(1)]);
    assert_eq!(program.symbols.get_name(Symbol::from_index(1)), "x");
    assert_eq!(
        program.funcs[0].bytecode,
        code(&[&push_int(10), &push_int(5), &[17, 1, 0, 21, 1], &push_int(2), &[17, 1, 2, 21, 1, 17, 1, 22, 30]])
    );
}

#[test]
fn assignment_stores() {
    let program = compile("var x = 1 x = 2");
    assert_eq!(program.funcs[0].bytecode, code(&[&push_int(1), &push_int(2), &[21, 1, 30]]));
}

#[test]
fn later_definition_shadows() {
    let program = compile("var x = 1 var x = 2 print x");
    assert_eq!(program.funcs[0].bytecode, code(&[&push_int(1), &push_int(2), &[17, 2, 22, 30]]));
}

#[test]
fn variable_is_not_in_scope_in_its_own_initialiser() {
    assert_eq!(failure("var x = 1 var y = y"), invalid(18));
    assert_eq!(failure("var f = func() { return f }"), invalid(24));
    let program = compile("var x = 1 var x = x + 1 print x");
    assert_eq!(
        program.funcs[0].bytecode,
        code(&[&push_int(1), &[17, 1], &push_int(1), &[0, 17, 2, 22, 30]])
    );
}

#[test]
fn if_jumps_over_its_block() {
    let program = compile("if true { print 1 }");
    assert_eq!(
        program.funcs[0].bytecode,
        code(&[&[13, 26, 0, 0, 0, 16], &push_int(1), &[22, 30]])
    );
}

#[test]
fn else_is_jumped_over_by_the_then_block() {
    let program = compile("if false { print 1 } else { print 2 }");
    assert_eq!(
        program.funcs[0].bytecode,
        code(&[&[14, 26, 0, 0, 0, 21], &push_int(1), &[22, 25, 0, 0, 0, 31], &push_int(2), &[22, 30]])
    );
}

#[test]
fn else_if_chains() {
    let program = compile("if false { } else if true { } else { print 3 }");
    assert_eq!(
        program.funcs[0].bytecode,
        code(&[
            &[14, 26, 0, 0, 0, 11, 25, 0, 0, 0, 32],
            &[13, 26, 0, 0, 0, 22, 25, 0, 0, 0, 32],
            &push_int(3),
            &[22, 30],
        ])
    );
}

#[test]
fn while_jumps_back_to_its_condition() {
    let program = compile("var i = 0; while i < 3 { print i; i += 1 }");
    assert_eq!(
        program.funcs[0].bytecode,
        code(&[
            &push_int(0),
            &[17, 1],
            &push_int(3),
            &[7, 26, 0, 0, 0, 48, 17, 1, 22],
            &push_int(1),
            &[17, 1, 0, 21, 1, 25, 0, 0, 0, 9, 30],
        ])
    );
}

#[test]
fn block_drops_its_locals() {
    let program = compile("var a = 1 if true { var b = 2 var c = 3 } var d = 4 print d");
    assert_eq!(
        program.funcs[0].bytecode,
        code(&[
            &push_int(1),
            &[13, 26, 0, 0, 0, 35],
            &push_int(2),
            &push_int(3),
            &[27, 2],
            &push_int(4),
            &[17, 2, 22, 30],
        ])
    );
}

#[test]
fn call_pushes_return_slot_arguments_and_callee() {
    let program = compile("var f = none f(1, 2) print f()");
    assert_eq!(
        program.funcs[0].bytecode,
        code(&[&[15, 15], &push_int(1), &push_int(2), &[17, 1, 28, 2, 27, 1, 15, 17, 1, 28, 0, 22, 30]])
    );
}

#[test]
fn list_literal_counts_its_elements() {
    let program = compile("print list(1, 2) print list()");
    assert_eq!(
        program.funcs[0].bytecode,
        code(&[&push_int(1), &push_int(2), &[19, 0, 0, 0, 2, 22, 19, 0, 0, 0, 0, 22, 30]])
    );
}

#[test]
fn property_access_chains() {
    let program = compile("var p = none print p.len.len");
    assert_eq!(program.symbols.get_name(Symbol::from_index(2)), "len");
    assert_eq!(program.funcs[0].bytecode, vec![15, 17, 1, 20, 2, 20, 2, 22, 30]);
}

#[test]
fn function_with_block_body() {
    let program = compile("var f = func(a, b) { return a + b }");
    assert_eq!(program.funcs.len(), 2);
    assert_eq!(program.funcs[0].bytecode, vec![16, 0, 0, 0, 1, 30]);
    assert_eq!(program.funcs[1].bytecode, vec![17, 1, 17, 2, 0, 21, 0, 29, 29]);
    assert_eq!(program.funcs[1].param_count, 2);
    assert_eq!(program.funcs[1].param_names, vec![Symbol::from_index(2), Symbol::from_index(3)]);
    assert!(program.funcs[1].closure_scope.is_empty());
}

#[test]
fn function_with_expression_body_returns_its_value() {
    let program = compile("var twice = func(n) n * 2");
    assert_eq!(program.funcs[1].bytecode, code(&[&[17, 1], &push_int(2), &[2, 21, 0, 29]]));
    assert_eq!(program.funcs[1].param_count, 1);
}

#[test]
fn nested_functions_get_their_index_at_the_keyword() {
    let program = compile("var a = func() { var b = func() { } } var c = func() { }");
    assert_eq!(program.funcs.len(), 4);
    assert_eq!(program.funcs[0].bytecode, vec![16, 0, 0, 0, 1, 16, 0, 0, 0, 3, 30]);
    assert_eq!(program.funcs[1].bytecode, vec![16, 0, 0, 0, 2, 27, 1, 29]);
    assert_eq!(program.funcs[2].bytecode, vec![29]);
    assert_eq!(program.funcs[3].bytecode, vec![29]);
}

#[test]
fn capture_of_an_enclosing_local() {
    let program = compile("var n = 0 var get = func() { return n }");
    assert_eq!(program.funcs[1].closure_scope, vec![ClosureValue::Stack(1)]);
    assert_eq!(program.funcs[1].bytecode, vec![18, 0, 21, 0, 29, 29]);
}

#[test]
fn capture_is_threaded_through_the_function_between() {
    let program = compile(
        "var x = 1 var outer = func() { var y = 2 return func() { return x + y } }",
    );
    assert_eq!(program.funcs.len(), 3);
    assert_eq!(program.funcs[1].closure_scope, vec![ClosureValue::Stack(1)]);
    assert_eq!(
        program.funcs[2].closure_scope,
        vec![ClosureValue::Outer(0), ClosureValue::Stack(1)]
    );
    assert_eq!(program.funcs[2].bytecode, vec![18, 0, 18, 1, 0, 21, 0, 29, 29]);
}

#[test]
fn one_capture_for_one_variable() {
    let program = compile("var n = 0 var f = func() { n = n + n n += 1 }");
    assert_eq!(program.funcs[1].closure_scope, vec![ClosureValue::Stack(1)]);
}

#[test]
fn compound_assignment_to_a_capture() {
    let program = compile("var n = 0 var inc = func() { n += 1 }");
    assert_eq!(program.funcs[1].bytecode, code(&[&push_int(1), &[18, 0, 0, 24, 0, 29]]));
}

#[test]
fn end_of_input_wants_more() {
    assert_eq!(failure("var"), ParseError::EndOfInput);
    assert_eq!(failure("var x ="), ParseError::EndOfInput);
    assert_eq!(failure("print"), ParseError::EndOfInput);
    assert_eq!(failure("print 1 +"), ParseError::EndOfInput);
    assert_eq!(failure("if true {"), ParseError::EndOfInput);
    assert_eq!(failure("while x"), ParseError::InvalidInput(InvalidInput { offset: 6 }));
    assert_eq!(failure("var f = func(a,"), ParseError::EndOfInput);
    assert_eq!(failure("print list(1, 2"), ParseError::EndOfInput);
    assert_eq!(failure("var f = func() { var make = func() {"), ParseError::EndOfInput);
}

#[test]
fn invalid_input_names_the_offending_token() {
    assert_eq!(failure("print )"), invalid(6));
    assert_eq!(failure("var 1 = 2"), invalid(4));
    assert_eq!(failure("var x 2"), invalid(6));
    assert_eq!(failure("1 + 2"), invalid(0));
    assert_eq!(failure("print 1 }"), invalid(8));
    assert_eq!(failure("var x = 1 x 2"), invalid(12));
    assert_eq!(failure("if true print 1"), invalid(8));
    assert_eq!(failure("print (1 + 2"), ParseError::EndOfInput);
    assert_eq!(failure("print (1 + 2 }"), invalid(13));
    assert_eq!(failure("var f = func(1) { }"), invalid(13));
    assert_eq!(failure("print #"), invalid(6));
}

#[test]
fn unknown_name_is_invalid_where_it_stands() {
    assert_eq!(failure("print y"), invalid(6));
    assert_eq!(failure("var x = 1 print x + yy"), invalid(20));
    assert_eq!(failure("y = 1"), invalid(0));
    assert_eq!(failure("var x = 1\nzz += 1"), invalid(10));
    assert_eq!(failure("print g(1)"), invalid(6));
    assert_eq!(failure("var f = func() { return hidden }"), invalid(24));
}

#[test]
fn local_of_a_block_is_gone_behind_it() {
    assert_eq!(failure("if true { var b = 1 } print b"), invalid(28));
}

#[test]
fn strings_and_logic_are_no_values_yet() {
    assert_eq!(failure("print \"text\""), invalid(6));
    assert_eq!(failure("print true && false"), invalid(11));
    assert_eq!(failure("print !true"), invalid(6));
}

#[test]
fn most_locals() {
    let mut source = String::new();
    for i in 0..254 {
        source.push_str(&format!("var v{} = {}\n", i, i));
    }
    let program = compile(&source);
    assert_eq!(program.funcs[0].bytecode.len(), 254 * 9 + 1);
    source.push_str("var last = 0");
    assert_eq!(failure(&source), invalid(source.len()));
    source.push_str(" print 1");
    assert_eq!(failure(&source), invalid(source.len() - 7));
}

#[test]
fn most_arguments() {
    let mut call = String::from("var f = none f(");
    for _ in 0..255 {
        call.push_str("1,");
    }
    let ok = format!("{}{}", call.trim_end_matches(','), ")");
    let program = compile(&ok);
    let bytes = &program.funcs[0].bytecode;
    assert_eq!(bytes[bytes.len() - 5..], [28, 255, 27, 1, 30]);
    let offset = call.len();
    let bad = format!("{}1)", call);
    assert_eq!(failure(&bad), invalid(offset));
}

#[test]
fn property_needs_a_small_symbol() {
    let mut source = String::from("var p = list() print p.len ");
    for i in 0..130 {
        source.push_str(&format!("if true {{ var a{} = 0 var b{} = 0 }} ", i, i));
    }
    let ok = format!("{}print p.len", source);
    let program = compile(&ok);
    assert_eq!(program.symbols.len(), 263);
    assert_eq!(program.symbols.get_name(Symbol::from_index(2)), "len");
    let bad = format!("{}print p.size print 1", source);
    assert_eq!(failure(&bad), invalid(source.len() + 13));
}

#[test]
fn failed_attempt_leaves_the_program_as_it_was() {
    let mut program = Program::new();
    Parser::parse(&tokenize("var a = func() { }"), &mut program, vec![Symbol::return_symbol()])
        .unwrap();
    assert_eq!(program.funcs.len(), 2);
    assert_eq!(program.symbols.len(), 2);
    let before: Vec<Vec<u8>> = program.funcs.iter().map(|f| f.bytecode.clone()).collect();
    let scope = vec![Symbol::return_symbol(), Symbol::from_index(1)];
    let result = Parser::parse(
        &tokenize("var fresh = func(p) { var q = func() { return p } ) }"),
        &mut program,
        scope.clone(),
    );
    assert_eq!(result, Err(invalid(50)));
    assert_eq!(program.funcs.len(), 2);
    assert_eq!(program.symbols.len(), 2);
    let after: Vec<Vec<u8>> = program.funcs.iter().map(|f| f.bytecode.clone()).collect();
    assert_eq!(before, after);
    let result = Parser::parse(&tokenize("var fresh = func(p) {"), &mut program, scope);
    assert_eq!(result, Err(ParseError::EndOfInput));
    assert_eq!(program.funcs.len(), 2);
    assert_eq!(program.symbols.len(), 2);
}

#[test]
fn continuation_compiles_like_the_whole_input() {
    let whole = "var make = func() {\nvar n = 0\nreturn func() { n += 1; return n }\n}\n";
    let mut at_once = Program::new();
    Parser::parse(&tokenize(whole), &mut at_once, vec![Symbol::return_symbol()]).unwrap();
    let mut in_parts = Program::new();
    let mut source = String::new();
    for line in whole.lines() {
        source.push_str(line);
        source.push('\n');
        let result = Parser::parse(&tokenize(&source), &mut in_parts, vec![Symbol::return_symbol()]);
        if line != "}" {
            assert_eq!(result, Err(ParseError::EndOfInput));
            assert_eq!(in_parts.funcs.len(), 0);
        } else {
            assert!(result.is_ok());
        }
    }
    assert_eq!(in_parts.funcs.len(), at_once.funcs.len());
    for (a, b) in in_parts.funcs.iter().zip(at_once.funcs.iter()) {
        assert_eq!(a.bytecode, b.bytecode);
        assert_eq!(a.param_count, b.param_count);
        assert_eq!(a.closure_scope, b.closure_scope);
        assert_eq!(a.param_names, b.param_names);
    }
    assert_eq!(in_parts.symbols.len(), at_once.symbols.len());
}

#[test]
fn later_compilation_appends_and_sees_the_locals() {
    let mut program = Program::new();
    let scope = Parser::parse(&tokenize("var x = 1"), &mut program, vec![Symbol::return_symbol()])
        .unwrap();
    assert_eq!(scope.len(), 2);
    let first = program.funcs[0].bytecode.clone();
    let scope = Parser::parse(&tokenize("var y = x print y"), &mut program, scope).unwrap();
    assert_eq!(scope.len(), 3);
    assert_eq!(program.funcs.len(), 2);
    assert_eq!(program.funcs[0].bytecode, first);
    assert_eq!(program.funcs[1].bytecode, vec![17, 1, 17, 2, 22, 30]);
    assert_eq!(program.funcs[1].param_count, 1);
    assert_eq!(program.funcs[1].param_names, vec![Symbol::from_index(1)]);
}

#[test]
fn tokens_without_an_end_token_end_where_they_end() {
    let mut tokens = tokenize("print 1");
    tokens.pop();
    let mut program = Program::new();
    assert!(Parser::parse(&tokens, &mut program, vec![Symbol::return_symbol()]).is_ok());
    assert_eq!(program.funcs[0].bytecode, code(&[&push_int(1), &[22, 30]]));
    let mut tokens = tokenize("print 1 +");
    tokens.pop();
    assert_eq!(
        Parser::parse(&tokens, &mut program, vec![Symbol::return_symbol()]),
        Err(ParseError::EndOfInput)
    );
}

#[test]
fn every_compiled_function_lists_and_assembles_to_itself() {
    let program = compile(
        "var make = func(step) {\n var n = 0\n return func() { n += step; if n > 10 { n = 0 } else { print n }; return n }\n}\nvar c = make(2)\nvar i = 0\nwhile i < 3 { print c(); i += 1 }\nprint list(1, 2.5, c).len",
    );
    assert_eq!(program.funcs.len(), 3);
    for func in program.funcs.iter() {
        let lines = DispFunc::new(func, &program.symbols).lines().unwrap();
        assert_eq!(assemble(&lines), func.bytecode);
        let mut offset = 0;
        for line in lines.iter() {
            assert_eq!(line.offset, offset);
            offset += 1 + line.opcode.operand_len();
        }
        assert_eq!(offset, func.bytecode.len());
    }
}

#[test]
fn empty_function_is_the_placeholder() {
    let func = Func::default();
    assert!(func.bytecode.is_empty());
    assert_eq!(func.param_count, 0);
    assert!(func.closure_scope.is_empty());
    assert!(func.param_names.is_empty());
}

#[test]
fn precedence_order() {
    assert_eq!(Precedence::Product.rank(), 0);
    assert_eq!(Precedence::Sum.rank(), 1);
    assert_eq!(Precedence::Relational.rank(), 2);
    assert_eq!(Precedence::Equality.rank(), 3);
    assert_eq!(Precedence::Top.rank(), 4);
}
