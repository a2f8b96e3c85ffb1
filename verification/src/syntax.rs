//! The language, as a mathematical function: which token sequences are
//! programs, and the bytecode that each one compiles to.
//!
//! The compiler reads the tokens once, from left to right, and emits code as
//! it goes. A state of the compilation is the index of the next token, the
//! table of functions, the table of names, and the builder of the function
//! under compilation with the builders of the functions that enclose it.

use vstd::prelude::*;
use crate::bytes::u64_be;
use crate::func::{
    short_instruction, wide_instruction, BuilderView, FuncView, Jump, JumpTarget, Variable,
    MAX_LOCALS,
};
use crate::opcode::Opcode;
use crate::symbols::{interned_id, interned_table, Symbol};
use crate::token::{Token, TokenKind};

verus! {

/// Why a token sequence is no program.
#[derive(Debug, Clone, Copy, PartialEq, Eq, Structural)]
pub enum ParseError {
    /// The tokens are no program, whatever may follow them.
    InvalidInput(InvalidInput),
    /// The tokens end where the program cannot end: more input may make
    /// them a program.
    EndOfInput,
}

/// Where the source text stops being a program: the byte offset of the
/// token that cannot stand where it stands.
#[derive(Debug, Clone, Copy, PartialEq, Eq, Structural)]
pub struct InvalidInput {
    pub offset: usize,
}

/// How tightly a binary operator binds; the tightest comes first.
#[derive(Debug, Clone, Copy, PartialEq, Eq, Structural)]
pub enum Precedence {
    Product,
    Sum,
    Relational,
    Equality,
    Top,
}

impl Precedence {
    /// The place of the precedence in the order: 0 binds tightest.
    pub open spec fn level(self) -> int {
        match self {
            Precedence::Product => 0,
            Precedence::Sum => 1,
            Precedence::Relational => 2,
            Precedence::Equality => 3,
            Precedence::Top => 4,
        }
    }
}

/// A state of the compilation.
pub struct ParseState {
    /// The index of the next token.
    pub pos: int,
    /// The table of functions.
    pub funcs: Seq<FuncView>,
    /// The table of names.
    pub names: Seq<Seq<char>>,
    /// The builder of the function under compilation.
    pub func: BuilderView,
    /// Whether every `return` statement so far stands where no local but
    /// the parameters is in scope, so that its frame holds the return slot
    /// and the parameters and nothing else.
    pub tame: bool,
}

/// The longest code that a function can have: jump targets are four bytes.
/// An instruction is at most nine bytes long, so code within this bound
/// can take a jump and a target behind it.
pub const MAX_CODE: usize = 0xffff_0000;

/// The kind of the token at `pos`; behind the last token there is only
/// `End`.
pub open spec fn kind_at(tokens: Seq<Token>, pos: int) -> TokenKind {
    if 0 <= pos < tokens.len() {
        tokens[pos].kind
    } else {
        TokenKind::End
    }
}

/// The byte offset of the token at `pos`; behind the last token, that of
/// the last token.
pub open spec fn offset_at(tokens: Seq<Token>, pos: int) -> usize {
    if 0 <= pos < tokens.len() {
        tokens[pos].offset
    } else if tokens.len() > 0 {
        tokens[tokens.len() - 1].offset
    } else {
        0
    }
}

/// The error for a token that cannot stand at `pos`: at the end of the
/// tokens more input is wanted, elsewhere the input is invalid.
pub open spec fn error_at(tokens: Seq<Token>, pos: int) -> ParseError {
    if kind_at(tokens, pos) == TokenKind::End {
        ParseError::EndOfInput
    } else {
        invalid_at(tokens, pos)
    }
}

/// The error for input that is invalid at `pos`.
pub open spec fn invalid_at(tokens: Seq<Token>, pos: int) -> ParseError {
    ParseError::InvalidInput(InvalidInput { offset: offset_at(tokens, pos) })
}

/// The binary operator that a token is: its precedence and its opcode.
pub open spec fn binary_operator(kind: TokenKind) -> Option<(Precedence, Opcode)> {
    match kind {
        TokenKind::Plus => Some((Precedence::Sum, Opcode::Add)),
        TokenKind::Minus => Some((Precedence::Sum, Opcode::Subtract)),
        TokenKind::Multiply => Some((Precedence::Product, Opcode::Multiply)),
        TokenKind::Divide => Some((Precedence::Product, Opcode::Divide)),
        TokenKind::Modulus => Some((Precedence::Product, Opcode::Modulus)),
        TokenKind::DoubleEquals => Some((Precedence::Equality, Opcode::Equal)),
        TokenKind::NotEqual => Some((Precedence::Equality, Opcode::NotEqual)),
        TokenKind::Less => Some((Precedence::Relational, Opcode::Less)),
        TokenKind::LessOrEqual => Some((Precedence::Relational, Opcode::LessOrEqual)),
        TokenKind::Greater => Some((Precedence::Relational, Opcode::Greater)),
        TokenKind::GreaterOrEqual => Some((Precedence::Relational, Opcode::GreaterOrEqual)),
        _ => None,
    }
}

/// The arithmetic operation of a compound assignment.
pub open spec fn assign_operator(kind: TokenKind) -> Option<Opcode> {
    match kind {
        TokenKind::PlusEquals => Some(Opcode::Add),
        TokenKind::MinusEquals => Some(Opcode::Subtract),
        TokenKind::MultiplyEquals => Some(Opcode::Multiply),
        TokenKind::DivideEquals => Some(Opcode::Divide),
        TokenKind::ModulusEquals => Some(Opcode::Modulus),
        _ => None,
    }
}

/// The result of a part of the compilation that must have read a token:
/// a part that has not is stuck, which no part ever is.
pub open spec fn proceed(
    tokens: Seq<Token>,
    from: ParseState,
    result: Result<ParseState, ParseError>,
) -> Result<ParseState, ParseError> {
    match result {
        Ok(state) => if from.pos < state.pos <= tokens.len() {
            Ok(state)
        } else {
            Err(ParseError::EndOfInput)
        },
        Err(error) => Err(error),
    }
}

impl ParseState {
    /// The state behind the next token.
    pub open spec fn next(self) -> ParseState {
        ParseState { pos: self.pos + 1, ..self }
    }

    /// The state with `bytes` appended to the code of the function under
    /// compilation.
    pub open spec fn emit(self, bytes: Seq<u8>) -> ParseState {
        ParseState { func: self.func.emit(bytes), ..self }
    }

    /// The state with an instruction without operand emitted.
    pub open spec fn emit_op(self, opcode: Opcode) -> ParseState {
        self.emit(seq![opcode.byte()])
    }

    /// The state at a `return` statement: tame as before if no local but
    /// the parameters is in scope.
    pub open spec fn returning(self) -> ParseState {
        ParseState {
            tame: self.tame && self.func.scope.len() == 1 + self.func.param_count,
            ..self
        }
    }

    /// Reads the token of kind `kind` that must stand next.
    pub open spec fn expect(self, tokens: Seq<Token>, kind: TokenKind) -> Result<
        ParseState,
        ParseError,
    > {
        if kind_at(tokens, self.pos) == kind {
            Ok(self.next())
        } else {
            Err(error_at(tokens, self.pos))
        }
    }

    /// Interns `name`. The table of names can hold no more names than
    /// there are symbol ids.
    pub open spec fn intern(self, tokens: Seq<Token>, name: Seq<char>) -> Result<
        (ParseState, Symbol),
        ParseError,
    > {
        if self.names.len() >= u32::MAX {
            Err(invalid_at(tokens, self.pos))
        } else {
            Ok(
                (
                    ParseState { names: interned_table(self.names, name), ..self },
                    Symbol(interned_id(self.names, name) as u32),
                ),
            )
        }
    }

    /// Reads the identifier that must stand next and interns its name.
    pub open spec fn expect_ident(self, tokens: Seq<Token>) -> Result<
        (ParseState, Symbol),
        ParseError,
    > {
        if kind_at(tokens, self.pos) == TokenKind::Ident {
            self.next().intern(tokens, tokens[self.pos].text@)
        } else {
            Err(error_at(tokens, self.pos))
        }
    }

    /// Resolves the variable named `symbol`, which the source names at byte
    /// offset `at`. A name that resolves to nothing is invalid input.
    pub open spec fn resolve(self, symbol: Symbol, at: usize) -> Result<
        (ParseState, Variable),
        ParseError,
    > {
        let (found, func) = self.func.resolve(symbol);
        match found {
            Some(variable) => Ok((ParseState { func, ..self }, variable)),
            None => Err(ParseError::InvalidInput(InvalidInput { offset: at })),
        }
    }

    /// Emits the code that pushes the value of the variable named
    /// `symbol`.
    pub open spec fn load(self, symbol: Symbol, at: usize) -> Result<ParseState, ParseError> {
        match self.resolve(symbol, at) {
            Ok((state, variable)) => Ok(state.emit(BuilderView::load_code(variable))),
            Err(error) => Err(error),
        }
    }

    /// Emits the code that pops a value into the variable named `symbol`.
    pub open spec fn store(self, symbol: Symbol, at: usize) -> Result<ParseState, ParseError> {
        match self.resolve(symbol, at) {
            Ok((state, variable)) => Ok(state.emit(BuilderView::store_code(variable))),
            Err(error) => Err(error),
        }
    }

    /// Brings a new local into scope. A function can have `MAX_LOCALS`
    /// locals in scope and no more.
    pub open spec fn define(self, tokens: Seq<Token>, symbol: Symbol) -> Result<
        ParseState,
        ParseError,
    > {
        if self.func.scope.len() >= MAX_LOCALS {
            Err(invalid_at(tokens, self.pos))
        } else {
            Ok(ParseState { func: self.func.define(symbol), ..self })
        }
    }

    /// Emits a forward jump with the opcode `opcode`, to be connected
    /// later. The code of a function can be `MAX_CODE` bytes long and no
    /// longer.
    pub open spec fn jump(self, tokens: Seq<Token>, opcode: Opcode) -> Result<
        (ParseState, Jump),
        ParseError,
    > {
        if self.func.bytecode.len() > MAX_CODE {
            Err(invalid_at(tokens, self.pos))
        } else {
            Ok(
                (
                    self.emit(wide_instruction(opcode, 0)),
                    Jump { offset: (self.func.bytecode.len() + 1) as u32 },
                ),
            )
        }
    }

    /// Connects `jump` to the place behind the code emitted so far.
    pub open spec fn land(self, tokens: Seq<Token>, jump: Jump) -> Result<ParseState, ParseError> {
        if self.func.bytecode.len() > MAX_CODE {
            Err(invalid_at(tokens, self.pos))
        } else {
            Ok(
                ParseState {
                    func: self.func.connect(
                        jump,
                        JumpTarget { offset: self.func.bytecode.len() as u32 },
                    ),
                    ..self
                },
            )
        }
    }
}

/// The names of the parameters of a function literal, behind its opening
/// parenthesis and before its closing one: identifiers with commas between
/// them. Each becomes a parameter of the function under compilation.
pub open spec fn parse_params(tokens: Seq<Token>, state: ParseState) -> Result<
    ParseState,
    ParseError,
>
    decreases tokens.len() - state.pos,
{
    match state.expect_ident(tokens) {
        Err(error) => Err(error),
        Ok((named, symbol)) => if named.func.scope.len() >= MAX_LOCALS || named.func.scope.len()
            != named.func.param_count + 1 {
            Err(invalid_at(tokens, named.pos))
        } else {
            let defined = ParseState { func: named.func.define_param(symbol), ..named };
            if kind_at(tokens, defined.pos) == TokenKind::Comma {
                if state.pos < defined.pos < tokens.len() {
                    parse_params(tokens, defined.next())
                } else {
                    Err(ParseError::EndOfInput)
                }
            } else {
                Ok(defined)
            }
        },
    }
}

/// A property access: a dot and the name of the property.
pub open spec fn parse_property(tokens: Seq<Token>, state: ParseState) -> Result<
    ParseState,
    ParseError,
> {
    match state.next().expect_ident(tokens) {
        Err(error) => Err(error),
        Ok((named, symbol)) => if symbol.0 > u8::MAX {
            Err(invalid_at(tokens, named.pos))
        } else {
            Ok(named.emit(short_instruction(Opcode::PushPropLoad, symbol.0 as u8)))
        },
    }
}

/// A call of the variable named `symbol`, from its opening parenthesis on:
/// the code pushes `none` for the return slot, then the arguments from left
/// to right, then the callee, and calls it.
pub open spec fn parse_call(tokens: Seq<Token>, state: ParseState, symbol: Symbol, at: usize) -> Result<
    ParseState,
    ParseError,
>
    decreases tokens.len() - state.pos, 0nat,
{
    if kind_at(tokens, state.pos) != TokenKind::OpenBrace {
        Err(error_at(tokens, state.pos))
    } else {
        match parse_list(tokens, state.next().emit_op(Opcode::PushNone), u8::MAX as nat) {
            Err(error) => Err(error),
            Ok((parsed, count)) => match parsed.load(symbol, at) {
                Err(error) => Err(error),
                Ok(loaded) => Ok(loaded.emit(short_instruction(Opcode::Call, count as u8))),
            },
        }
    }
}

/// Expressions with commas between them, of which `count` are read
/// already; at most `limit` in all. Yields their number.
pub open spec fn parse_items(tokens: Seq<Token>, state: ParseState, count: nat, limit: nat) -> Result<
    (ParseState, nat),
    ParseError,
>
    decreases tokens.len() - state.pos, 4nat,
{
    if count >= limit {
        Err(invalid_at(tokens, state.pos))
    } else {
        match proceed(tokens, state, parse_expr(tokens, state)) {
            Err(error) => Err(error),
            Ok(parsed) => if kind_at(tokens, parsed.pos) == TokenKind::Comma {
                parse_items(tokens, parsed.next(), count + 1, limit)
            } else {
                Ok((parsed, count + 1))
            },
        }
    }
}

/// What stands between parentheses, behind the opening one, and the closing
/// one: nothing, or expressions with commas between them.
pub open spec fn parse_list(tokens: Seq<Token>, state: ParseState, limit: nat) -> Result<
    (ParseState, nat),
    ParseError,
>
    decreases tokens.len() - state.pos, 5nat,
{
    if kind_at(tokens, state.pos) == TokenKind::CloseBrace {
        Ok((state.next(), 0))
    } else {
        match parse_items(tokens, state, 0, limit) {
            Err(error) => Err(error),
            Ok((parsed, count)) => match parsed.expect(tokens, TokenKind::CloseBrace) {
                Err(error) => Err(error),
                Ok(closed) => Ok((closed, count)),
            },
        }
    }
}

/// A function literal, behind the keyword `func`. The function gets the
/// next free index at once; the enclosing function pushes a closure of it.
/// Its body is a block, or an expression whose value it returns.
pub open spec fn parse_func(tokens: Seq<Token>, state: ParseState) -> Result<ParseState, ParseError>
    decreases tokens.len() - state.pos, 0nat,
{
    let index = state.funcs.len();
    if index > u32::MAX {
        Err(invalid_at(tokens, state.pos))
    } else {
        let opened = ParseState {
            funcs: state.funcs.push(FuncView::empty()),
            func: state.func.emit(wide_instruction(Opcode::PushFunc, index as u32)).child(),
            ..state
        };
        match opened.expect(tokens, TokenKind::OpenBrace) {
            Err(error) => Err(error),
            Ok(inside) => {
                let params = if kind_at(tokens, inside.pos) == TokenKind::CloseBrace {
                    Ok(inside.next())
                } else {
                    match parse_params(tokens, inside) {
                        Err(error) => Err(error),
                        Ok(named) => named.expect(tokens, TokenKind::CloseBrace),
                    }
                };
                match proceed(tokens, state, params) {
                    Err(error) => Err(error),
                    Ok(head) => {
                        let body = if kind_at(tokens, head.pos) == TokenKind::OpenCurlyBrace {
                            parse_block(tokens, head)
                        } else {
                            match parse_expr(tokens, head) {
                                Err(error) => Err(error),
                                Ok(value) => Ok(
                                    value.emit(short_instruction(Opcode::PopStore, 0)),
                                ),
                            }
                        };
                        match body {
                            Err(error) => Err(error),
                            Ok(done) => {
                                let ended = done.emit_op(Opcode::Return);
                                match ended.func.outer {
                                    None => Err(ParseError::EndOfInput),
                                    Some(outer) => if index >= ended.funcs.len() {
                                        Err(ParseError::EndOfInput)
                                    } else {
                                        Ok(
                                            ParseState {
                                                funcs: ended.funcs.update(
                                                    index as int,
                                                    ended.func.built(),
                                                ),
                                                func: *outer,
                                                ..ended
                                            },
                                        )
                                    },
                                }
                            },
                        }
                    },
                }
            },
        }
    }
}

/// A value: a variable, a call, a literal, an expression in parentheses, a
/// list literal or a function literal.
pub open spec fn parse_value(tokens: Seq<Token>, state: ParseState) -> Result<
    ParseState,
    ParseError,
>
    decreases tokens.len() - state.pos, 1nat,
{
    match kind_at(tokens, state.pos) {
        TokenKind::Ident => match state.expect_ident(tokens) {
            Err(error) => Err(error),
            Ok((named, symbol)) => if kind_at(tokens, named.pos) == TokenKind::OpenBrace {
                parse_call(tokens, named, symbol, offset_at(tokens, state.pos))
            } else {
                named.load(symbol, offset_at(tokens, state.pos))
            },
        },
        TokenKind::Int => Ok(
            state.next().emit(seq![Opcode::PushInt.byte()] + u64_be(tokens[state.pos].value)),
        ),
        TokenKind::Float => Ok(
            state.next().emit(seq![Opcode::PushFloat.byte()] + u64_be(tokens[state.pos].value)),
        ),
        TokenKind::True => Ok(state.next().emit_op(Opcode::PushTrue)),
        TokenKind::False => Ok(state.next().emit_op(Opcode::PushFalse)),
        TokenKind::Nil => Ok(state.next().emit_op(Opcode::PushNone)),
        TokenKind::OpenBrace => match parse_expr(tokens, state.next()) {
            Err(error) => Err(error),
            Ok(parsed) => parsed.expect(tokens, TokenKind::CloseBrace),
        },
        TokenKind::List => match state.next().expect(tokens, TokenKind::OpenBrace) {
            Err(error) => Err(error),
            Ok(inside) => match parse_list(tokens, inside, u32::MAX as nat) {
                Err(error) => Err(error),
                Ok((parsed, count)) => Ok(
                    parsed.emit(wide_instruction(Opcode::PushList, count as u32)),
                ),
            },
        },
        TokenKind::Func => parse_func(tokens, state.next()),
        _ => Err(error_at(tokens, state.pos)),
    }
}

/// The right operand of a binary operator and the operator: the operand
/// is a value with everything behind it that binds tighter than the
/// operator, so that operators of one precedence group to the left.
pub open spec fn parse_infix_op(
    tokens: Seq<Token>,
    state: ParseState,
    precedence: Precedence,
    opcode: Opcode,
) -> Result<ParseState, ParseError>
    decreases tokens.len() - state.pos, 0nat,
{
    if state.pos >= tokens.len() {
        Err(ParseError::EndOfInput)
    } else {
        match proceed(tokens, state, parse_value(tokens, state.next())) {
            Err(error) => Err(error),
            Ok(value) => match parse_infix(tokens, value, precedence) {
                Err(error) => Err(error),
                Ok(operand) => Ok(operand.emit_op(opcode)),
            },
        }
    }
}

/// What follows a value: property accesses, and binary operators that bind
/// tighter than `precedence`, each with its right operand.
pub open spec fn parse_infix(tokens: Seq<Token>, state: ParseState, precedence: Precedence) -> Result<
    ParseState,
    ParseError,
>
    decreases tokens.len() - state.pos, 2nat,
{
    let kind = kind_at(tokens, state.pos);
    if kind == TokenKind::Dot {
        match proceed(tokens, state, parse_property(tokens, state)) {
            Err(error) => Err(error),
            Ok(parsed) => parse_infix(tokens, parsed, precedence),
        }
    } else {
        match binary_operator(kind) {
            Some((binding, opcode)) => if precedence.level() > binding.level() {
                match proceed(tokens, state, parse_infix_op(tokens, state, binding, opcode)) {
                    Err(error) => Err(error),
                    Ok(parsed) => parse_infix(tokens, parsed, precedence),
                }
            } else {
                Ok(state)
            },
            None => Ok(state),
        }
    }
}

/// An expression: a value and what follows it.
pub open spec fn parse_expr(tokens: Seq<Token>, state: ParseState) -> Result<ParseState, ParseError>
    decreases tokens.len() - state.pos, 3nat,
{
    match proceed(tokens, state, parse_value(tokens, state)) {
        Err(error) => Err(error),
        Ok(value) => parse_infix(tokens, value, Precedence::Top),
    }
}

/// A compound assignment to the variable named `symbol`, from its operator
/// on: the code pushes the value of the expression, then that of the
/// variable, applies the operation and stores the result.
pub open spec fn parse_assign_op(
    tokens: Seq<Token>,
    state: ParseState,
    symbol: Symbol,
    at: usize,
    opcode: Opcode,
) -> Result<ParseState, ParseError>
    decreases tokens.len() - state.pos, 0nat,
{
    if state.pos >= tokens.len() {
        Err(ParseError::EndOfInput)
    } else {
        match parse_expr(tokens, state.next()) {
            Err(error) => Err(error),
            Ok(parsed) => match parsed.resolve(symbol, at) {
                Err(error) => Err(error),
                Ok((resolved, variable)) => Ok(
                    resolved.emit(BuilderView::load_code(variable)).emit_op(opcode).emit(
                        BuilderView::store_code(variable),
                    ),
                ),
            },
        }
    }
}

/// The `else` of an `if` statement, from its keyword on, with a block or
/// with another `if` statement. `skip` is the jump that leaves the block
/// before the `else` when the condition is false.
pub open spec fn parse_else(tokens: Seq<Token>, state: ParseState, skip: Jump) -> Result<
    ParseState,
    ParseError,
>
    decreases tokens.len() - state.pos, 0nat,
{
    if state.pos >= tokens.len() {
        Err(ParseError::EndOfInput)
    } else {
        match state.next().jump(tokens, Opcode::Jump) {
            Err(error) => Err(error),
            Ok((left, exit)) => match left.land(tokens, skip) {
                Err(error) => Err(error),
                Ok(landed) => {
                    let other = if kind_at(tokens, landed.pos) == TokenKind::If {
                        parse_if(tokens, landed)
                    } else {
                        parse_block(tokens, landed)
                    };
                    match other {
                        Err(error) => Err(error),
                        Ok(done) => done.land(tokens, exit),
                    }
                },
            },
        }
    }
}

/// An `if` statement, from its keyword on: a condition, a block, and
/// perhaps `else` with a block or with another `if` statement.
pub open spec fn parse_if(tokens: Seq<Token>, state: ParseState) -> Result<ParseState, ParseError>
    decreases tokens.len() - state.pos, 0nat,
{
    if state.pos >= tokens.len() {
        Err(ParseError::EndOfInput)
    } else {
        match proceed(tokens, state, parse_expr(tokens, state.next())) {
            Err(error) => Err(error),
            Ok(condition) => match condition.jump(tokens, Opcode::JumpIfNot) {
                Err(error) => Err(error),
                Ok((tested, skip)) => match proceed(tokens, state, parse_block(tokens, tested)) {
                    Err(error) => Err(error),
                    Ok(then) => if kind_at(tokens, then.pos) == TokenKind::Else {
                        parse_else(tokens, then, skip)
                    } else {
                        then.land(tokens, skip)
                    },
                },
            },
        }
    }
}

/// A `while` statement, behind its keyword: a condition and a block.
pub open spec fn parse_while(tokens: Seq<Token>, state: ParseState) -> Result<
    ParseState,
    ParseError,
>
    decreases tokens.len() - state.pos, 4nat,
{
    if state.func.bytecode.len() > MAX_CODE {
        Err(invalid_at(tokens, state.pos))
    } else {
        let top = JumpTarget { offset: state.func.bytecode.len() as u32 };
        match proceed(tokens, state, parse_expr(tokens, state)) {
            Err(error) => Err(error),
            Ok(condition) => match condition.jump(tokens, Opcode::JumpIfNot) {
                Err(error) => Err(error),
                Ok((tested, leave)) => match parse_block(tokens, tested) {
                    Err(error) => Err(error),
                    Ok(body) => match body.jump(tokens, Opcode::Jump) {
                        Err(error) => Err(error),
                        Ok((looped, repeat)) => (ParseState {
                            func: looped.func.connect(repeat, top),
                            ..looped
                        }).land(tokens, leave),
                    },
                },
            },
        }
    }
}

/// A `var` statement, behind its keyword: a name, `=` and an expression.
/// The value that the expression leaves on the stack becomes the new
/// local; the name is in scope behind the statement, not in the
/// expression.
pub open spec fn parse_var(tokens: Seq<Token>, state: ParseState) -> Result<ParseState, ParseError>
    decreases tokens.len() - state.pos, 0nat,
{
    match state.expect_ident(tokens) {
        Err(error) => Err(error),
        Ok((named, symbol)) => match proceed(
            tokens,
            state,
            named.expect(tokens, TokenKind::Equals),
        ) {
            Err(error) => Err(error),
            Ok(assigned) => match parse_expr(tokens, assigned) {
                Err(error) => Err(error),
                Ok(parsed) => parsed.define(tokens, symbol),
            },
        },
    }
}

/// What follows the name at the start of a statement, which is the
/// variable named `symbol`: the arguments of a call, whose result the
/// statement drops, or an assignment.
pub open spec fn parse_named(tokens: Seq<Token>, state: ParseState, symbol: Symbol, at: usize) -> Result<
    ParseState,
    ParseError,
>
    decreases tokens.len() - state.pos, 1nat,
{
    let kind = kind_at(tokens, state.pos);
    if kind == TokenKind::OpenBrace {
        match parse_call(tokens, state, symbol, at) {
            Err(error) => Err(error),
            Ok(called) => Ok(called.emit(short_instruction(Opcode::Drop, 1))),
        }
    } else if kind == TokenKind::Equals {
        match parse_expr(tokens, state.next()) {
            Err(error) => Err(error),
            Ok(parsed) => parsed.store(symbol, at),
        }
    } else {
        match assign_operator(kind) {
            Some(opcode) => parse_assign_op(tokens, state, symbol, at, opcode),
            None => Err(error_at(tokens, state.pos)),
        }
    }
}

/// A statement. A semicolon alone is a statement that does nothing, so
/// that semicolons may stand between statements.
pub open spec fn parse_stmt(tokens: Seq<Token>, state: ParseState) -> Result<ParseState, ParseError>
    decreases tokens.len() - state.pos, 1nat,
{
    match kind_at(tokens, state.pos) {
        TokenKind::SemiColon => Ok(state.next()),
        TokenKind::While => parse_while(tokens, state.next()),
        TokenKind::If => parse_if(tokens, state),
        TokenKind::Var => parse_var(tokens, state.next()),
        TokenKind::Print => match parse_expr(tokens, state.next()) {
            Err(error) => Err(error),
            Ok(parsed) => Ok(parsed.emit_op(Opcode::PopPrint)),
        },
        TokenKind::Return => match parse_expr(tokens, state.next()) {
            Err(error) => Err(error),
            Ok(parsed) => Ok(
                parsed.returning().emit(short_instruction(Opcode::PopStore, 0)).emit_op(
                    Opcode::Return,
                ),
            ),
        },
        TokenKind::Ident => match state.expect_ident(tokens) {
            Err(error) => Err(error),
            Ok((named, symbol)) => parse_named(tokens, named, symbol, offset_at(tokens, state.pos)),
        },
        _ => Err(error_at(tokens, state.pos)),
    }
}

/// The statements of a block and its closing brace.
pub open spec fn parse_stmts(tokens: Seq<Token>, state: ParseState) -> Result<
    ParseState,
    ParseError,
>
    decreases tokens.len() - state.pos, 2nat,
{
    if kind_at(tokens, state.pos) == TokenKind::CloseCurlyBrace {
        Ok(state.next())
    } else {
        match proceed(tokens, state, parse_stmt(tokens, state)) {
            Err(error) => Err(error),
            Ok(parsed) => parse_stmts(tokens, parsed),
        }
    }
}

/// A block: statements between braces. The locals that its statements
/// define go out of scope at its end, where the code drops their slots.
pub open spec fn parse_block(tokens: Seq<Token>, state: ParseState) -> Result<
    ParseState,
    ParseError,
>
    decreases tokens.len() - state.pos, 0nat,
{
    if kind_at(tokens, state.pos) != TokenKind::OpenCurlyBrace {
        Err(error_at(tokens, state.pos))
    } else {
        match parse_stmts(tokens, state.next()) {
            Err(error) => Err(error),
            Ok(parsed) => {
                let defined = parsed.func.scope.len() - state.func.scope.len();
                if defined > 0 {
                    Ok(ParseState { func: parsed.func.free(defined as u8), ..parsed })
                } else {
                    Ok(parsed)
                }
            },
        }
    }
}

/// The statements of a program, up to the end of the tokens.
pub open spec fn parse_program(tokens: Seq<Token>, state: ParseState) -> Result<
    ParseState,
    ParseError,
>
    decreases tokens.len() - state.pos,
{
    if kind_at(tokens, state.pos) == TokenKind::End {
        Ok(state)
    } else {
        match proceed(tokens, state, parse_stmt(tokens, state)) {
            Err(error) => Err(error),
            Ok(parsed) => parse_program(tokens, parsed),
        }
    }
}

/// The state in which the compilation of a top-level function starts: at
/// the first token, with a place for the function in the table.
pub open spec fn start_state(
    funcs: Seq<FuncView>,
    names: Seq<Seq<char>>,
    params: Seq<Symbol>,
) -> ParseState {
    ParseState {
        pos: 0,
        funcs: funcs.push(FuncView::empty()),
        names,
        func: BuilderView::root(params),
        tame: true,
    }
}

/// Whether `tokens` compile, and every `return` statement in them stands
/// where no local but the parameters is in scope.
pub open spec fn compiles_tamely(
    tokens: Seq<Token>,
    funcs: Seq<FuncView>,
    names: Seq<Seq<char>>,
    params: Seq<Symbol>,
) -> bool {
    parse_program(tokens, start_state(funcs, names, params)) matches Ok(parsed) && parsed.tame
}

/// Compiles `tokens` as the next top-level function of a program with the
/// functions `funcs` and the names `names`, where `params` are the locals
/// in scope at its start, the return slot first. Yields the tables of the
/// program with the compiled functions added, where the top-level function
/// stands at the index `funcs.len()`, and the locals in scope at the end.
pub open spec fn compile(
    tokens: Seq<Token>,
    funcs: Seq<FuncView>,
    names: Seq<Seq<char>>,
    params: Seq<Symbol>,
) -> Result<(Seq<FuncView>, Seq<Seq<char>>, Seq<Symbol>), ParseError> {
    match parse_program(tokens, start_state(funcs, names, params)) {
        Err(error) => Err(error),
        Ok(parsed) => {
            let ended = parsed.emit_op(Opcode::Finish);
            Ok(
                (
                    ended.funcs.update(funcs.len() as int, ended.func.built()),
                    ended.names,
                    ended.func.scope,
                ),
            )
        },
    }
}

} // verus!
