//! Every part of the compilation reads tokens and never reads past the
//! end: the guard that the definition of the language puts behind each part
//! never fires.

use vstd::prelude::*;
use crate::opcode::Opcode;
use crate::symbols::Symbol;
use crate::syntax::{
    assign_operator, binary_operator, kind_at, offset_at, parse_assign_op, parse_block,
    parse_call, parse_else, parse_expr, parse_func, parse_if, parse_infix, parse_infix_op,
    parse_items, parse_list, parse_named, parse_params, parse_program, parse_property,
    parse_stmt, parse_stmts, parse_value, parse_var, parse_while, proceed, ParseError,
    ParseState, Precedence,
};
use crate::func::Jump;
use crate::token::{Token, TokenKind};

verus! {

/// The result, if it is a state, lies behind `from` and inside the tokens.
pub open spec fn advanced(
    tokens: Seq<Token>,
    from: ParseState,
    result: Result<ParseState, ParseError>,
) -> bool {
    result matches Ok(after) ==> from.pos < after.pos <= tokens.len()
}

/// A result that lies behind `from` and inside the tokens passes the guard
/// as it is.
pub proof fn lemma_guard_idle(
    tokens: Seq<Token>,
    from: ParseState,
    result: Result<ParseState, ParseError>,
)
    requires
        advanced(tokens, from, result),
    ensures
        proceed(tokens, from, result) == result,
{
}

/// The parameters of a function literal read at least one token.
pub proof fn lemma_params_advance(tokens: Seq<Token>, state: ParseState)
    requires
        0 <= state.pos <= tokens.len(),
    ensures
        advanced(tokens, state, parse_params(tokens, state)),
    decreases tokens.len() - state.pos,
{
    match state.expect_ident(tokens) {
        Err(_) => {},
        Ok((named, symbol)) => {
            let defined = ParseState { func: named.func.define_param(symbol), ..named };
            if kind_at(tokens, defined.pos) == TokenKind::Comma {
                lemma_params_advance(tokens, defined.next());
            }
        },
    }
}

/// A property access reads its dot and its name.
pub proof fn lemma_property_advances(tokens: Seq<Token>, state: ParseState)
    requires
        0 <= state.pos < tokens.len(),
    ensures
        advanced(tokens, state, parse_property(tokens, state)),
{
}

/// A call reads at least its parentheses.
pub proof fn lemma_call_advances(tokens: Seq<Token>, state: ParseState, symbol: Symbol, at: usize)
    requires
        0 <= state.pos <= tokens.len(),
    ensures
        advanced(tokens, state, parse_call(tokens, state, symbol, at)),
    decreases tokens.len() - state.pos, 0nat,
{
    if kind_at(tokens, state.pos) == TokenKind::OpenBrace {
        let inside = state.next().emit_op(Opcode::PushNone);
        lemma_list_advances(tokens, inside, u8::MAX as nat);
    }
}

/// Expressions with commas between them read at least one token.
pub proof fn lemma_items_advance(tokens: Seq<Token>, state: ParseState, count: nat, limit: nat)
    requires
        0 <= state.pos <= tokens.len(),
    ensures
        parse_items(tokens, state, count, limit) matches Ok((after, _)) ==> state.pos < after.pos
            <= tokens.len(),
        advanced(tokens, state, parse_expr(tokens, state)),
    decreases tokens.len() - state.pos, 4nat,
{
    lemma_expr_advances(tokens, state);
    if count < limit {
        match proceed(tokens, state, parse_expr(tokens, state)) {
            Err(_) => {},
            Ok(parsed) => {
                if kind_at(tokens, parsed.pos) == TokenKind::Comma {
                    lemma_items_advance(tokens, parsed.next(), count + 1, limit);
                }
            },
        }
    }
}

/// What stands between parentheses reads at least the closing one.
pub proof fn lemma_list_advances(tokens: Seq<Token>, state: ParseState, limit: nat)
    requires
        0 <= state.pos <= tokens.len(),
    ensures
        parse_list(tokens, state, limit) matches Ok((after, _)) ==> state.pos < after.pos
            <= tokens.len(),
    decreases tokens.len() - state.pos, 5nat,
{
    if kind_at(tokens, state.pos) != TokenKind::CloseBrace {
        lemma_items_advance(tokens, state, 0, limit);
    }
}

/// The head of a function literal, from its opening parenthesis to its
/// closing one, passes the guard as it is, and a function literal reads at
/// least its parentheses and its body.
pub proof fn lemma_func_advances(tokens: Seq<Token>, state: ParseState)
    requires
        0 <= state.pos <= tokens.len(),
    ensures
        advanced(tokens, state, parse_func(tokens, state)),
    decreases tokens.len() - state.pos, 0nat,
{
    let index = state.funcs.len();
    if index <= u32::MAX {
        let opened = ParseState {
            funcs: state.funcs.push(crate::func::FuncView::empty()),
            func: state.func.emit(
                crate::func::wide_instruction(Opcode::PushFunc, index as u32),
            ).child(),
            ..state
        };
        match opened.expect(tokens, TokenKind::OpenBrace) {
            Err(_) => {},
            Ok(inside) => {
                let params = if kind_at(tokens, inside.pos) == TokenKind::CloseBrace {
                    Ok(inside.next())
                } else {
                    match parse_params(tokens, inside) {
                        Err(error) => Err(error),
                        Ok(named) => named.expect(tokens, TokenKind::CloseBrace),
                    }
                };
                if kind_at(tokens, inside.pos) != TokenKind::CloseBrace {
                    lemma_params_advance(tokens, inside);
                }
                assert(advanced(tokens, state, params));
                match proceed(tokens, state, params) {
                    Err(_) => {},
                    Ok(head) => {
                        if kind_at(tokens, head.pos) == TokenKind::OpenCurlyBrace {
                            lemma_block_advances(tokens, head);
                        } else {
                            lemma_expr_advances(tokens, head);
                        }
                    },
                }
            },
        }
    }
}

/// A value reads at least one token.
pub proof fn lemma_value_advances(tokens: Seq<Token>, state: ParseState)
    requires
        0 <= state.pos <= tokens.len(),
    ensures
        advanced(tokens, state, parse_value(tokens, state)),
    decreases tokens.len() - state.pos, 1nat,
{
    match kind_at(tokens, state.pos) {
        TokenKind::Ident => match state.expect_ident(tokens) {
            Err(_) => {},
            Ok((named, symbol)) => {
                if kind_at(tokens, named.pos) == TokenKind::OpenBrace {
                    lemma_call_advances(tokens, named, symbol, offset_at(tokens, state.pos));
                }
            },
        },
        TokenKind::OpenBrace => {
            lemma_expr_advances(tokens, state.next());
        },
        TokenKind::List => match state.next().expect(tokens, TokenKind::OpenBrace) {
            Err(_) => {},
            Ok(inside) => {
                lemma_list_advances(tokens, inside, u32::MAX as nat);
            },
        },
        TokenKind::Func => {
            lemma_func_advances(tokens, state.next());
        },
        _ => {},
    }
}

/// The right operand of a binary operator reads at least the operator and
/// a value, and the value passes the guard as it is.
pub proof fn lemma_infix_op_advances(
    tokens: Seq<Token>,
    state: ParseState,
    precedence: Precedence,
    opcode: Opcode,
)
    requires
        0 <= state.pos <= tokens.len(),
    ensures
        advanced(tokens, state, parse_infix_op(tokens, state, precedence, opcode)),
        state.pos < tokens.len() ==> advanced(tokens, state, parse_value(tokens, state.next())),
    decreases tokens.len() - state.pos, 0nat,
{
    if state.pos < tokens.len() {
        lemma_value_advances(tokens, state.next());
        match proceed(tokens, state, parse_value(tokens, state.next())) {
            Err(_) => {},
            Ok(value) => {
                lemma_infix_stays(tokens, value, precedence);
            },
        }
    }
}

/// What follows a value gives no token back and stays inside the tokens;
/// each property access and each operator with its operand passes the
/// guard as it is.
pub proof fn lemma_infix_stays(tokens: Seq<Token>, state: ParseState, precedence: Precedence)
    requires
        0 <= state.pos <= tokens.len(),
    ensures
        parse_infix(tokens, state, precedence) matches Ok(after) ==> state.pos <= after.pos
            <= tokens.len(),
        kind_at(tokens, state.pos) == TokenKind::Dot ==> advanced(
            tokens,
            state,
            parse_property(tokens, state),
        ),
    decreases tokens.len() - state.pos, 2nat,
{
    let kind = kind_at(tokens, state.pos);
    if kind == TokenKind::Dot {
        lemma_property_advances(tokens, state);
        match proceed(tokens, state, parse_property(tokens, state)) {
            Err(_) => {},
            Ok(parsed) => {
                lemma_infix_stays(tokens, parsed, precedence);
            },
        }
    } else {
        match binary_operator(kind) {
            Some((binding, opcode)) => {
                if precedence.level() > binding.level() {
                    lemma_infix_op_advances(tokens, state, binding, opcode);
                    match proceed(tokens, state, parse_infix_op(tokens, state, binding, opcode)) {
                        Err(_) => {},
                        Ok(parsed) => {
                            lemma_infix_stays(tokens, parsed, precedence);
                        },
                    }
                }
            },
            None => {},
        }
    }
}

/// An expression reads at least one token, and its value passes the guard
/// as it is.
pub proof fn lemma_expr_advances(tokens: Seq<Token>, state: ParseState)
    requires
        0 <= state.pos <= tokens.len(),
    ensures
        advanced(tokens, state, parse_expr(tokens, state)),
        advanced(tokens, state, parse_value(tokens, state)),
    decreases tokens.len() - state.pos, 3nat,
{
    lemma_value_advances(tokens, state);
    match proceed(tokens, state, parse_value(tokens, state)) {
        Err(_) => {},
        Ok(value) => {
            lemma_infix_stays(tokens, value, Precedence::Top);
        },
    }
}

/// A compound assignment reads at least its operator and an expression.
pub proof fn lemma_assign_op_advances(
    tokens: Seq<Token>,
    state: ParseState,
    symbol: Symbol,
    at: usize,
    opcode: Opcode,
)
    requires
        0 <= state.pos <= tokens.len(),
    ensures
        advanced(tokens, state, parse_assign_op(tokens, state, symbol, at, opcode)),
    decreases tokens.len() - state.pos, 0nat,
{
    if state.pos < tokens.len() {
        lemma_expr_advances(tokens, state.next());
    }
}

/// The `else` of an `if` statement reads at least its keyword and a
/// block.
pub proof fn lemma_else_advances(tokens: Seq<Token>, state: ParseState, skip: Jump)
    requires
        0 <= state.pos <= tokens.len(),
    ensures
        advanced(tokens, state, parse_else(tokens, state, skip)),
    decreases tokens.len() - state.pos, 0nat,
{
    if state.pos < tokens.len() {
        match state.next().jump(tokens, Opcode::Jump) {
            Err(_) => {},
            Ok((left, exit)) => match left.land(tokens, skip) {
                Err(_) => {},
                Ok(landed) => {
                    if kind_at(tokens, landed.pos) == TokenKind::If {
                        lemma_if_advances(tokens, landed);
                    } else {
                        lemma_block_advances(tokens, landed);
                    }
                },
            },
        }
    }
}

/// An `if` statement reads at least its keyword, a condition and a block,
/// and its condition and its block pass the guard as they are.
pub proof fn lemma_if_advances(tokens: Seq<Token>, state: ParseState)
    requires
        0 <= state.pos <= tokens.len(),
    ensures
        advanced(tokens, state, parse_if(tokens, state)),
        state.pos < tokens.len() ==> advanced(tokens, state, parse_expr(tokens, state.next())),
    decreases tokens.len() - state.pos, 0nat,
{
    if state.pos < tokens.len() {
        lemma_expr_advances(tokens, state.next());
        match proceed(tokens, state, parse_expr(tokens, state.next())) {
            Err(_) => {},
            Ok(condition) => match condition.jump(tokens, Opcode::JumpIfNot) {
                Err(_) => {},
                Ok((tested, skip)) => {
                    lemma_block_advances(tokens, tested);
                    match proceed(tokens, state, parse_block(tokens, tested)) {
                        Err(_) => {},
                        Ok(then) => {
                            if kind_at(tokens, then.pos) == TokenKind::Else {
                                lemma_else_advances(tokens, then, skip);
                            }
                        },
                    }
                },
            },
        }
    }
}

/// A `while` statement reads at least a condition and a block, and its
/// condition passes the guard as it is.
pub proof fn lemma_while_advances(tokens: Seq<Token>, state: ParseState)
    requires
        0 <= state.pos <= tokens.len(),
    ensures
        advanced(tokens, state, parse_while(tokens, state)),
        advanced(tokens, state, parse_expr(tokens, state)),
    decreases tokens.len() - state.pos, 4nat,
{
    lemma_expr_advances(tokens, state);
    match proceed(tokens, state, parse_expr(tokens, state)) {
        Err(_) => {},
        Ok(condition) => match condition.jump(tokens, Opcode::JumpIfNot) {
            Err(_) => {},
            Ok((tested, leave)) => {
                lemma_block_advances(tokens, tested);
            },
        },
    }
}

/// A `var` statement reads at least a name, `=` and an expression.
pub proof fn lemma_var_advances(tokens: Seq<Token>, state: ParseState)
    requires
        0 <= state.pos <= tokens.len(),
    ensures
        advanced(tokens, state, parse_var(tokens, state)),
    decreases tokens.len() - state.pos, 0nat,
{
    match state.expect_ident(tokens) {
        Err(_) => {},
        Ok((named, symbol)) => match proceed(
            tokens,
            state,
            named.expect(tokens, TokenKind::Equals),
        ) {
            Err(_) => {},
            Ok(assigned) => {
                lemma_expr_advances(tokens, assigned);
            },
        },
    }
}

/// What follows the name at the start of a statement reads at least one
/// token.
pub proof fn lemma_named_advances(tokens: Seq<Token>, state: ParseState, symbol: Symbol, at: usize)
    requires
        0 <= state.pos <= tokens.len(),
    ensures
        advanced(tokens, state, parse_named(tokens, state, symbol, at)),
    decreases tokens.len() - state.pos, 1nat,
{
    let kind = kind_at(tokens, state.pos);
    if kind == TokenKind::OpenBrace {
        lemma_call_advances(tokens, state, symbol, at);
    } else if kind == TokenKind::Equals {
        lemma_expr_advances(tokens, state.next());
    } else {
        match assign_operator(kind) {
            Some(opcode) => lemma_assign_op_advances(tokens, state, symbol, at, opcode),
            None => {},
        }
    }
}

/// A statement reads at least one token.
pub proof fn lemma_stmt_advances(tokens: Seq<Token>, state: ParseState)
    requires
        0 <= state.pos <= tokens.len(),
    ensures
        advanced(tokens, state, parse_stmt(tokens, state)),
    decreases tokens.len() - state.pos, 1nat,
{
    match kind_at(tokens, state.pos) {
        TokenKind::While => lemma_while_advances(tokens, state.next()),
        TokenKind::If => lemma_if_advances(tokens, state),
        TokenKind::Var => lemma_var_advances(tokens, state.next()),
        TokenKind::Print => lemma_expr_advances(tokens, state.next()),
        TokenKind::Return => lemma_expr_advances(tokens, state.next()),
        TokenKind::Ident => match state.expect_ident(tokens) {
            Err(_) => {},
            Ok((named, symbol)) => {
                lemma_named_advances(tokens, named, symbol, offset_at(tokens, state.pos));
            },
        },
        _ => {},
    }
}

/// The statements of a block read at least the closing brace, and each
/// statement passes the guard as it is.
pub proof fn lemma_stmts_advance(tokens: Seq<Token>, state: ParseState)
    requires
        0 <= state.pos <= tokens.len(),
    ensures
        advanced(tokens, state, parse_stmts(tokens, state)),
        advanced(tokens, state, parse_stmt(tokens, state)),
    decreases tokens.len() - state.pos, 2nat,
{
    lemma_stmt_advances(tokens, state);
    if kind_at(tokens, state.pos) != TokenKind::CloseCurlyBrace {
        match proceed(tokens, state, parse_stmt(tokens, state)) {
            Err(_) => {},
            Ok(parsed) => {
                lemma_stmts_advance(tokens, parsed);
            },
        }
    }
}

/// A block reads at least its braces.
pub proof fn lemma_block_advances(tokens: Seq<Token>, state: ParseState)
    requires
        0 <= state.pos <= tokens.len(),
    ensures
        advanced(tokens, state, parse_block(tokens, state)),
    decreases tokens.len() - state.pos, 0nat,
{
    if kind_at(tokens, state.pos) == TokenKind::OpenCurlyBrace {
        lemma_stmts_advance(tokens, state.next());
    }
}

/// A program is read to the end of its tokens.
pub proof fn lemma_program_reads_all(tokens: Seq<Token>, state: ParseState)
    requires
        0 <= state.pos <= tokens.len(),
    ensures
        parse_program(tokens, state) matches Ok(after) ==> state.pos <= after.pos <= tokens.len()
            && kind_at(tokens, after.pos) == TokenKind::End,
    decreases tokens.len() - state.pos,
{
    if kind_at(tokens, state.pos) != TokenKind::End {
        lemma_stmt_advances(tokens, state);
        match proceed(tokens, state, parse_stmt(tokens, state)) {
            Err(_) => {},
            Ok(parsed) => {
                lemma_program_reads_all(tokens, parsed);
            },
        }
    }
}

} // verus!
