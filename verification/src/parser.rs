//! The single-pass compiler: tokens in, bytecode out.

use vstd::prelude::*;
use crate::emitted::{func_lists, lemma_compiled_code_lists};
use crate::heights::{added, lemma_tame_program_balanced};
use crate::func::{
    lemma_skeleton, BuilderView, Func, FuncBuilder, FuncView, Jump, Variable, MAX_LOCALS,
};
use crate::opcode::Opcode;
use crate::symbols::{lemma_intern_names, Symbol, Symbols};
use crate::syntax::{
    assign_operator, binary_operator, compile, error_at, invalid_at, kind_at, offset_at,
    parse_assign_op, parse_block, parse_call, parse_else, parse_expr, parse_func, parse_if,
    parse_infix, parse_infix_op, parse_items, parse_list, parse_named, parse_params,
    parse_program, parse_property, compiles_tamely, parse_stmt, parse_stmts, parse_value,
    parse_var, parse_while, start_state, InvalidInput, ParseError, ParseState, Precedence,
    MAX_CODE,
};
use crate::token::{Token, TokenKind};

verus! {

/// The compiled artifact: the table of functions and the symbol table.
/// Function indices are stable; a later compilation only appends.
pub struct Program {
    pub funcs: Vec<Func>,
    pub symbols: Symbols,
}

/// What a program holds.
pub struct ProgramView {
    pub funcs: Seq<FuncView>,
    pub names: Seq<Seq<char>>,
}

/// What a table of functions holds.
pub open spec fn funcs_view(funcs: Seq<Func>) -> Seq<FuncView> {
    Seq::new(funcs.len(), |i: int| funcs[i]@)
}

impl View for Program {
    type V = ProgramView;

    open spec fn view(&self) -> ProgramView {
        ProgramView { funcs: funcs_view(self.funcs@), names: self.symbols@ }
    }
}

impl Program {
    /// A program with no function and only the name of the return slot.
    pub fn new() -> (program: Program)
        ensures
            program.funcs@.len() == 0,
            program.symbols@ == seq!["return"@],
            program@ == (ProgramView { funcs: Seq::empty(), names: seq!["return"@] }),
    {
        let program = Program { funcs: Vec::new(), symbols: Symbols::new() };
        assert(program@.funcs =~= Seq::empty());
        program
    }
}

impl Precedence {
    /// The place of the precedence in the order: 0 binds tightest.
    pub fn rank(self) -> (rank: u8)
        ensures
            rank == self.level(),
    {
        match self {
            Precedence::Product => 0,
            Precedence::Sum => 1,
            Precedence::Relational => 2,
            Precedence::Equality => 3,
            Precedence::Top => 4,
        }
    }
}

impl InvalidInput {
    /// The byte offset of the token that cannot stand where it stands.
    pub fn offset(&self) -> (offset: usize)
        ensures
            offset == self.offset,
    {
        self.offset
    }
}

/// The binary operator that a token is: its precedence and its opcode.
pub fn binary_operator_of(kind: TokenKind) -> (operator: Option<(Precedence, Opcode)>)
    ensures
        operator == binary_operator(kind),
{
    match kind {
        TokenKind::Plus => Some((Precedence::Sum, Opcode::Add)),
        TokenKind::Minus => Some((Precedence::Sum, Opcode::Subtract)),
        TokenKind::Multiply => Some((Precedence::Product, Opcode::Multiply)),
        TokenKind::Divide => Some((Precedence::Product, Opcode::Divide)),
        TokenKind::Modulus => Some((Precedence::Product, Opcode::Modulus)),
        TokenKind::DoubleEquals => Some((Precedence::Equality, Opcode::Equal)),
        TokenKind::NotEqual => Some((Precedence::Equality, Opcode::NotEqual)),
        TokenKind::Less => Some((Precedence::Relational, Opcode::Less)),
        TokenKind::LessOrEqual => Some((Precedence::Relational, Opcode::LessOrEqual)),
        TokenKind::Greater => Some((Precedence::Relational, Opcode::Greater)),
        TokenKind::GreaterOrEqual => Some((Precedence::Relational, Opcode::GreaterOrEqual)),
        _ => None,
    }
}

/// The arithmetic operation of a compound assignment.
pub fn assign_operator_of(kind: TokenKind) -> (operator: Option<Opcode>)
    ensures
        operator == assign_operator(kind),
{
    match kind {
        TokenKind::PlusEquals => Some(Opcode::Add),
        TokenKind::MinusEquals => Some(Opcode::Subtract),
        TokenKind::MultiplyEquals => Some(Opcode::Multiply),
        TokenKind::DivideEquals => Some(Opcode::Divide),
        TokenKind::ModulusEquals => Some(Opcode::Modulus),
        _ => None,
    }
}

impl ParseState {
    /// The state is one of a compilation of `tokens`: it stands inside the
    /// tokens, and its builder is well formed.
    pub open spec fn sound(self, tokens: Seq<Token>) -> bool {
        0 <= self.pos <= tokens.len() && self.func.wf()
    }

    /// The tables of this state hold what the tables of `earlier` hold, in
    /// the same places, and perhaps more behind it.
    pub open spec fn extends(self, earlier: ParseState) -> bool {
        &&& earlier.funcs.len() <= self.funcs.len()
        &&& earlier.names.len() <= self.names.len()
        &&& forall|i: int| 0 <= i < earlier.funcs.len() ==> self.funcs[i] == earlier.funcs[i]
        &&& forall|i: int| 0 <= i < earlier.names.len() ==> self.names[i] == earlier.names[i]
    }

    /// This state comes after `earlier` in the compilation of one
    /// function: no token was given back, no code and no local of the
    /// function was taken away but where a block ended, and the enclosing
    /// functions are as they were, but for captures that were added.
    pub open spec fn follows(self, earlier: ParseState) -> bool {
        &&& earlier.pos <= self.pos
        &&& self.func.param_count == earlier.func.param_count
        &&& earlier.func.scope.len() <= self.func.scope.len()
        &&& earlier.func.bytecode.len() <= self.func.bytecode.len()
        &&& self.func.outer_skeleton() == earlier.func.outer_skeleton()
    }
}

/// The program after an attempt to compile `tokens` into it: with the
/// compiled functions and the new names if the tokens are a program, as it
/// was if they are not.
pub open spec fn compiled_program(
    tokens: Seq<Token>,
    program: ProgramView,
    params: Seq<Symbol>,
) -> ProgramView {
    match compile(tokens, program.funcs, program.names, params) {
        Ok((funcs, names, _)) => ProgramView { funcs, names },
        Err(_) => program,
    }
}

/// An input that is no program leaves no trace: to compile `full` after an
/// attempt at `partial` has failed, because it was incomplete or invalid,
/// gives what compiling `full` at once gives. So a line that asks for a
/// continuation can be compiled again with its continuation.
pub proof fn lemma_failed_attempt_leaves_no_trace(
    partial: Seq<Token>,
    full: Seq<Token>,
    program: ProgramView,
    params: Seq<Symbol>,
)
    requires
        compile(partial, program.funcs, program.names, params) is Err,
    ensures
        compiled_program(partial, program, params) == program,
        compiled_program(full, compiled_program(partial, program, params), params)
            == compiled_program(full, program, params),
        compile(
            full,
            compiled_program(partial, program, params).funcs,
            compiled_program(partial, program, params).names,
            params,
        ) == compile(full, program.funcs, program.names, params),
{
}

/// A part of the compilation did what the language defines: it came to
/// the state or to the error `expected`, reading at least one token if
/// `strict`. The tables of the program have only grown, whatever came of
/// it.
pub open spec fn agrees(
    tokens: Seq<Token>,
    before: ParseState,
    after: ParseState,
    expected: Result<ParseState, ParseError>,
    result: Result<(), ParseError>,
    strict: bool,
) -> bool {
    &&& after.extends(before)
    &&& match expected {
        Ok(state) => {
            &&& result is Ok
            &&& after == state
            &&& after.sound(tokens)
            &&& after.follows(before)
            &&& strict ==> before.pos < after.pos
        },
        Err(error) => result == Err::<(), ParseError>(error),
    }
}

/// The compiler at work: the tokens, the place in them, the program, and
/// the builder of the function under compilation.
pub struct Parser<'a> {
    tokens: &'a Vec<Token>,
    pos: usize,
    program: Program,
    func: FuncBuilder,
    tame: bool,
}

impl<'a> View for Parser<'a> {
    type V = ParseState;

    closed spec fn view(&self) -> ParseState {
        ParseState {
            pos: self.pos as int,
            funcs: self.program@.funcs,
            names: self.program@.names,
            func: self.func@,
            tame: self.tame,
        }
    }
}

impl<'a> Parser<'a> {
    /// The tokens under compilation.
    pub closed spec fn input(&self) -> Seq<Token> {
        self.tokens@
    }

    /// The kind of the next token.
    fn kind(&self) -> (kind: TokenKind)
        ensures
            kind == kind_at(self.input(), self@.pos),
            kind != TokenKind::End ==> self@.pos < self.input().len(),
    {
        if self.pos < self.tokens.len() {
            self.tokens[self.pos].kind
        } else {
            TokenKind::End
        }
    }

    /// The byte offset of the next token.
    fn offset(&self) -> (offset: usize)
        ensures
            offset == offset_at(self.input(), self@.pos),
    {
        let len = self.tokens.len();
        if self.pos < len {
            self.tokens[self.pos].offset
        } else if len > 0 {
            self.tokens[len - 1].offset
        } else {
            0
        }
    }

    /// The error for the next token, which cannot stand where it stands.
    fn parse_error(&self) -> (error: ParseError)
        ensures
            error == error_at(self.input(), self@.pos),
    {
        match self.kind() {
            TokenKind::End => ParseError::EndOfInput,
            _ => ParseError::InvalidInput(InvalidInput { offset: self.offset() }),
        }
    }

    /// The error for input that is invalid at the next token.
    fn invalid(&self) -> (error: ParseError)
        ensures
            error == invalid_at(self.input(), self@.pos),
    {
        ParseError::InvalidInput(InvalidInput { offset: self.offset() })
    }

    /// Moves behind the next token.
    fn next_token(&mut self)
        requires
            old(self)@.pos < old(self).input().len(),
        ensures
            final(self).input() == old(self).input(),
            final(self)@ == old(self)@.next(),
    {
        assert(self.tokens@.len() == self.tokens.len());
        self.pos += 1;
    }

    /// Moves behind the next token if it is of kind `kind`.
    fn eat_token(&mut self, kind: TokenKind) -> (eaten: bool)
        requires
            kind != TokenKind::End,
        ensures
            final(self).input() == old(self).input(),
            eaten == (kind_at(old(self).input(), old(self)@.pos) == kind),
            final(self)@ == if eaten {
                old(self)@.next()
            } else {
                old(self)@
            },
    {
        if self.kind() == kind {
            self.next_token();
            true
        } else {
            false
        }
    }

    /// Reads the token of kind `kind` that must stand next.
    fn expect_token(&mut self, kind: TokenKind) -> (result: Result<(), ParseError>)
        requires
            kind != TokenKind::End,
        ensures
            final(self).input() == old(self).input(),
            match old(self)@.expect(old(self).input(), kind) {
                Ok(state) => result is Ok && final(self)@ == state,
                Err(error) => result == Err::<(), ParseError>(error) && final(self)@ == old(self)@,
            },
    {
        if self.eat_token(kind) {
            Ok(())
        } else {
            Err(self.parse_error())
        }
    }

    /// Reads the identifier that must stand next and interns its name.
    fn expect_ident(&mut self) -> (result: Result<Symbol, ParseError>)
        ensures
            final(self).input() == old(self).input(),
            final(self)@.extends(old(self)@),
            final(self)@.func == old(self)@.func,
            match old(self)@.expect_ident(old(self).input()) {
                Ok((state, symbol)) => result == Ok::<Symbol, ParseError>(symbol) && final(self)@
                    == state,
                Err(error) => result == Err::<Symbol, ParseError>(error),
            },
    {
        match self.kind() {
            TokenKind::Ident => {},
            _ => {
                return Err(self.parse_error());
            },
        }
        let tokens = self.tokens;
        let name = tokens[self.pos].text.as_str();
        self.next_token();
        if self.program.symbols.len() >= u32::MAX as usize {
            return Err(self.invalid());
        }
        proof {
            lemma_intern_names(self.program.symbols@, name@);
        }
        let symbol = self.program.symbols.add(name);
        Ok(symbol)
    }

    /// Resolves the variable named `symbol`.
    fn resolve(&mut self, symbol: Symbol, at: usize) -> (result: Result<Variable, ParseError>)
        requires
            old(self)@.func.wf(),
        ensures
            final(self).input() == old(self).input(),
            final(self)@.extends(old(self)@),
            final(self)@.pos == old(self)@.pos,
            match old(self)@.resolve(symbol, at) {
                Ok((state, variable)) => result == Ok::<Variable, ParseError>(variable) && final(self)@ == state && state.func.wf() && state.follows(old(self)@),
                Err(error) => result == Err::<Variable, ParseError>(error),
            },
    {
        match self.func.resolve_var(symbol) {
            Some(variable) => Ok(variable),
            None => Err(ParseError::InvalidInput(InvalidInput { offset: at })),
        }
    }

    /// Emits the code that pushes the value of the variable named
    /// `symbol`.
    fn load(&mut self, symbol: Symbol, at: usize) -> (result: Result<(), ParseError>)
        requires
            old(self)@.sound(old(self).input()),
        ensures
            final(self).input() == old(self).input(),
            agrees(
                old(self).input(),
                old(self)@,
                final(self)@,
                old(self)@.load(symbol, at),
                result,
                false,
            ),
    {
        let variable = match self.resolve(symbol, at) {
            Ok(variable) => variable,
            Err(error) => {
                return Err(error);
            },
        };
        self.func.push_var(variable);
        Ok(())
    }

    /// Emits the code that pops a value into the variable named `symbol`.
    fn store(&mut self, symbol: Symbol, at: usize) -> (result: Result<(), ParseError>)
        requires
            old(self)@.sound(old(self).input()),
        ensures
            final(self).input() == old(self).input(),
            agrees(
                old(self).input(),
                old(self)@,
                final(self)@,
                old(self)@.store(symbol, at),
                result,
                false,
            ),
    {
        let variable = match self.resolve(symbol, at) {
            Ok(variable) => variable,
            Err(error) => {
                return Err(error);
            },
        };
        self.func.pop_var(variable);
        Ok(())
    }

    /// Emits a forward jump, to be connected later.
    fn jump(&mut self, opcode: Opcode) -> (result: Result<Jump, ParseError>)
        requires
            opcode == Opcode::Jump || opcode == Opcode::JumpIfNot,
        ensures
            final(self).input() == old(self).input(),
            match old(self)@.jump(old(self).input(), opcode) {
                Ok((state, jump)) => result == Ok::<Jump, ParseError>(jump) && final(self)@
                    == state,
                Err(error) => result == Err::<Jump, ParseError>(error) && final(self)@ == old(self)@,
            },
    {
        if self.func.code_len() > MAX_CODE {
            return Err(self.invalid());
        }
        match opcode {
            Opcode::Jump => Ok(self.func.push_jump()),
            _ => Ok(self.func.push_jump_if_not()),
        }
    }

    /// Connects `jump` to the place behind the code emitted so far.
    fn land(&mut self, jump: Jump) -> (result: Result<(), ParseError>)
        requires
            jump.offset + 4 <= old(self)@.func.bytecode.len(),
        ensures
            final(self).input() == old(self).input(),
            match old(self)@.land(old(self).input(), jump) {
                Ok(state) => result is Ok && final(self)@ == state,
                Err(error) => result == Err::<(), ParseError>(error) && final(self)@ == old(self)@,
            },
    {
        if self.func.code_len() > MAX_CODE {
            return Err(self.invalid());
        }
        let target = self.func.create_jump_target();
        self.func.connect_jump(jump, &target);
        Ok(())
    }

    /// Takes the builder out and leaves a vacant one.
    fn take_func(&mut self) -> (func: FuncBuilder)
        ensures
            func@ == old(self)@.func,
            final(self).input() == old(self).input(),
            final(self)@.pos == old(self)@.pos,
            final(self)@.funcs == old(self)@.funcs,
            final(self)@.names == old(self)@.names,
            final(self)@.tame == old(self)@.tame,
    {
        let mut func = FuncBuilder::vacant();
        core::mem::swap(&mut self.func, &mut func);
        func
    }

    /// A property access: a dot and the name of the property.
    fn parse_property(&mut self) -> (result: Result<(), ParseError>)
        requires
            old(self)@.sound(old(self).input()),
            kind_at(old(self).input(), old(self)@.pos) == TokenKind::Dot,
        ensures
            final(self).input() == old(self).input(),
            agrees(
                old(self).input(),
                old(self)@,
                final(self)@,
                parse_property(old(self).input(), old(self)@),
                result,
                true,
            ),
    {
        self.next_token();
        let symbol = match self.expect_ident() {
            Ok(symbol) => symbol,
            Err(error) => {
                return Err(error);
            },
        };
        if symbol.id() > u8::MAX as u32 {
            return Err(self.invalid());
        }
        self.func.emit_short(Opcode::PushPropLoad, symbol.id() as u8);
        Ok(())
    }

    /// Expressions with commas between them; yields their number.
    fn parse_items(&mut self, limit: u32) -> (result: Result<u32, ParseError>)
        requires
            old(self)@.sound(old(self).input()),
        ensures
            final(self).input() == old(self).input(),
            final(self)@.extends(old(self)@),
            match parse_items(old(self).input(), old(self)@, 0, limit as nat) {
                Ok((state, count)) => {
                    &&& result == Ok::<u32, ParseError>(count as u32)
                    &&& count <= limit
                    &&& final(self)@ == state
                    &&& state.sound(old(self).input())
                    &&& state.follows(old(self)@)
                    &&& old(self)@.pos < state.pos
                },
                Err(error) => result == Err::<u32, ParseError>(error),
            },
        decreases old(self).input().len() - old(self)@.pos, 4nat,
    {
        let ghost tokens = self.tokens@;
        let ghost entry = self@;
        let mut count: u32 = 0;
        loop
            invariant
                self.tokens@ == tokens,
                tokens == old(self).input(),
                entry == old(self)@,
                self@.sound(tokens),
                self@.extends(entry),
                self@.follows(entry),
                count <= limit,
                count > 0 ==> entry.pos < self@.pos,
                parse_items(tokens, entry, 0, limit as nat) == parse_items(
                    tokens,
                    self@,
                    count as nat,
                    limit as nat,
                ),
            decreases tokens.len() - self@.pos,
        {
            if count >= limit {
                return Err(self.invalid());
            }
            let ghost before = self@;
            match self.parse_expr() {
                Ok(_) => {},
                Err(error) => {
                    return Err(error);
                },
            }
            count += 1;
            if !self.eat_token(TokenKind::Comma) {
                return Ok(count);
            }
        }
    }

    /// What stands between parentheses, behind the opening one, and the
    /// closing one; yields the number of expressions.
    fn parse_list(&mut self, limit: u32) -> (result: Result<u32, ParseError>)
        requires
            old(self)@.sound(old(self).input()),
        ensures
            final(self).input() == old(self).input(),
            final(self)@.extends(old(self)@),
            match parse_list(old(self).input(), old(self)@, limit as nat) {
                Ok((state, count)) => {
                    &&& result == Ok::<u32, ParseError>(count as u32)
                    &&& count <= limit
                    &&& final(self)@ == state
                    &&& state.sound(old(self).input())
                    &&& state.follows(old(self)@)
                    &&& old(self)@.pos < state.pos
                },
                Err(error) => result == Err::<u32, ParseError>(error),
            },
        decreases old(self).input().len() - old(self)@.pos, 5nat,
    {
        if self.eat_token(TokenKind::CloseBrace) {
            return Ok(0);
        }
        let count = match self.parse_items(limit) {
            Ok(count) => count,
            Err(error) => {
                return Err(error);
            },
        };
        match self.expect_token(TokenKind::CloseBrace) {
            Ok(_) => Ok(count),
            Err(error) => Err(error),
        }
    }

    /// A call of the variable named `symbol`, from its opening parenthesis
    /// on.
    fn parse_call(&mut self, symbol: Symbol, at: usize) -> (result: Result<(), ParseError>)
        requires
            old(self)@.sound(old(self).input()),
        ensures
            final(self).input() == old(self).input(),
            agrees(
                old(self).input(),
                old(self)@,
                final(self)@,
                parse_call(old(self).input(), old(self)@, symbol, at),
                result,
                true,
            ),
        decreases old(self).input().len() - old(self)@.pos, 0nat,
    {
        let ghost entry = self@;
        match self.kind() {
            TokenKind::OpenBrace => {},
            _ => {
                return Err(self.parse_error());
            },
        }
        self.next_token();
        self.func.emit(Opcode::PushNone);
        let ghost opened = self@;
        let count = match self.parse_list(u8::MAX as u32) {
            Ok(count) => count,
            Err(error) => {
                return Err(error);
            },
        };
        let ghost listed = self@;
        match self.load(symbol, at) {
            Ok(_) => {},
            Err(error) => {
                return Err(error);
            },
        }
        self.func.emit_short(Opcode::Call, count as u8);
        Ok(())
    }

    /// The names of the parameters of a function literal.
    fn parse_params(&mut self) -> (result: Result<(), ParseError>)
        requires
            old(self)@.sound(old(self).input()),
        ensures
            final(self).input() == old(self).input(),
            final(self)@.extends(old(self)@),
            match parse_params(old(self).input(), old(self)@) {
                Ok(state) => {
                    &&& result is Ok
                    &&& final(self)@ == state
                    &&& state.sound(old(self).input())
                    &&& old(self)@.pos < state.pos
                    &&& state.func.outer == old(self)@.func.outer
                },
                Err(error) => result == Err::<(), ParseError>(error),
            },
    {
        let ghost tokens = self.tokens@;
        let ghost entry = self@;
        loop
            invariant
                self.tokens@ == tokens,
                tokens == old(self).input(),
                entry == old(self)@,
                self@.sound(tokens),
                self@.extends(entry),
                entry.pos <= self@.pos,
                self@.func.outer == entry.func.outer,
                parse_params(tokens, entry) == parse_params(tokens, self@),
            decreases tokens.len() - self@.pos,
        {
            let symbol = match self.expect_ident() {
                Ok(symbol) => symbol,
                Err(error) => {
                    return Err(error);
                },
            };
            if self.func.stack_size() as usize >= MAX_LOCALS || self.func.stack_size()
                != self.func.param_count() + 1 {
                return Err(self.invalid());
            }
            self.func.define_param(symbol);
            if !self.eat_token(TokenKind::Comma) {
                return Ok(());
            }
        }
    }

    /// A function literal, behind the keyword `func`.
    fn parse_func(&mut self) -> (result: Result<(), ParseError>)
        requires
            old(self)@.sound(old(self).input()),
        ensures
            final(self).input() == old(self).input(),
            agrees(
                old(self).input(),
                old(self)@,
                final(self)@,
                parse_func(old(self).input(), old(self)@),
                result,
                true,
            ),
        decreases old(self).input().len() - old(self)@.pos, 0nat,
    {
        let ghost tokens = self.tokens@;
        let ghost entry = self@;
        let index = self.program.funcs.len();
        if index > u32::MAX as usize {
            return Err(self.invalid());
        }
        self.program.funcs.push(Func::default());
        self.func.emit_wide(Opcode::PushFunc, index as u32);
        let ghost pushed = self@.func;
        let parent = self.take_func();
        self.func = parent.new_child();
        let ghost opened = self@;
        proof {
            assert(opened.funcs =~= entry.funcs.push(FuncView::empty()));
            assert(pushed.wf());
            assert(opened.func == pushed.child());
            assert(opened.extends(entry));
            lemma_skeleton(pushed);
            lemma_skeleton(entry.func);
        }
        match self.expect_token(TokenKind::OpenBrace) {
            Ok(_) => {},
            Err(error) => {
                return Err(error);
            },
        }
        match self.kind() {
            TokenKind::CloseBrace => {
                self.next_token();
            },
            _ => {
                match self.parse_params() {
                    Ok(_) => {},
                    Err(error) => {
                        return Err(error);
                    },
                }
                match self.expect_token(TokenKind::CloseBrace) {
                    Ok(_) => {},
                    Err(error) => {
                        return Err(error);
                    },
                }
            },
        }
        let ghost head = self@;
        proof {
            assert(head.func.outer == opened.func.outer);
            assert(head.sound(tokens));
            assert(head.extends(entry));
        }
        match self.kind() {
            TokenKind::OpenCurlyBrace => {
                match self.parse_block() {
                    Ok(_) => {},
                    Err(error) => {
                        return Err(error);
                    },
                }
            },
            _ => {
                match self.parse_expr() {
                    Ok(_) => {},
                    Err(error) => {
                        return Err(error);
                    },
                }
                self.func.emit_short(Opcode::PopStore, 0);
            },
        }
        self.func.emit(Opcode::Return);
        let ghost ended = self@;
        proof {
            assert(ended.func.outer_skeleton() == opened.func.outer_skeleton());
            assert(opened.func.outer_skeleton() == pushed.skeleton());
            lemma_skeleton(ended.func);
            assert(ended.func.wf());
            assert(ended.extends(entry));
        }
        let child = self.take_func();
        let (built, outer) = child.build();
        match outer {
            Some(outer) => {
                self.func = outer;
            },
            None => {
                return Err(ParseError::EndOfInput);
            },
        }
        self.program.funcs.set(index, built);
        proof {
            let last = self@;
            assert(last.funcs =~= ended.funcs.update(index as int, ended.func.built()));
            assert(last.func.skeleton() == pushed.skeleton());
            lemma_skeleton(last.func);
            assert(last.func.wf());
            assert(last.follows(entry));
            assert(last.extends(entry));
        }
        Ok(())
    }

    /// A value.
    fn parse_value(&mut self) -> (result: Result<(), ParseError>)
        requires
            old(self)@.sound(old(self).input()),
        ensures
            final(self).input() == old(self).input(),
            agrees(
                old(self).input(),
                old(self)@,
                final(self)@,
                parse_value(old(self).input(), old(self)@),
                result,
                true,
            ),
        decreases old(self).input().len() - old(self)@.pos, 1nat,
    {
        let ghost entry = self@;
        let at = self.offset();
        match self.kind() {
            TokenKind::Ident => {
                let symbol = match self.expect_ident() {
                    Ok(symbol) => symbol,
                    Err(error) => {
                        return Err(error);
                    },
                };
                let ghost named = self@;
                let outcome = match self.kind() {
                    TokenKind::OpenBrace => self.parse_call(symbol, at),
                    _ => self.load(symbol, at),
                };
                outcome
            },
            TokenKind::Int => {
                let tokens = self.tokens;
                let value = tokens[self.pos].value;
                self.next_token();
                self.func.emit_long(Opcode::PushInt, value);
                Ok(())
            },
            TokenKind::Float => {
                let tokens = self.tokens;
                let value = tokens[self.pos].value;
                self.next_token();
                self.func.emit_long(Opcode::PushFloat, value);
                Ok(())
            },
            TokenKind::True => {
                self.next_token();
                self.func.emit(Opcode::PushTrue);
                Ok(())
            },
            TokenKind::False => {
                self.next_token();
                self.func.emit(Opcode::PushFalse);
                Ok(())
            },
            TokenKind::Nil => {
                self.next_token();
                self.func.emit(Opcode::PushNone);
                Ok(())
            },
            TokenKind::OpenBrace => {
                self.next_token();
                let ghost inside = self@;
                match self.parse_expr() {
                    Ok(_) => {},
                    Err(error) => {
                        return Err(error);
                    },
                }
                self.expect_token(TokenKind::CloseBrace)
            },
            TokenKind::List => {
                self.next_token();
                match self.expect_token(TokenKind::OpenBrace) {
                    Ok(_) => {},
                    Err(error) => {
                        return Err(error);
                    },
                }
                let ghost inside = self@;
                let count = match self.parse_list(u32::MAX) {
                    Ok(count) => count,
                    Err(error) => {
                        return Err(error);
                    },
                };
                self.func.emit_wide(Opcode::PushList, count);
                Ok(())
            },
            TokenKind::Func => {
                self.next_token();
                let ghost inside = self@;
                let outcome = self.parse_func();
                outcome
            },
            _ => Err(self.parse_error()),
        }
    }

    /// The right operand of a binary operator and the operator.
    fn parse_infix_op(&mut self, precedence: Precedence, opcode: Opcode) -> (result: Result<
        (),
        ParseError,
    >)
        requires
            old(self)@.sound(old(self).input()),
            old(self)@.pos < old(self).input().len(),
        ensures
            final(self).input() == old(self).input(),
            agrees(
                old(self).input(),
                old(self)@,
                final(self)@,
                parse_infix_op(old(self).input(), old(self)@, precedence, opcode),
                result,
                true,
            ),
        decreases old(self).input().len() - old(self)@.pos, 0nat,
    {
        let ghost entry = self@;
        self.next_token();
        let ghost inside = self@;
        match self.parse_value() {
            Ok(_) => {},
            Err(error) => {
                return Err(error);
            },
        }
        let ghost value = self@;
        match self.parse_infix(precedence) {
            Ok(_) => {},
            Err(error) => {
                return Err(error);
            },
        }
        self.func.emit(opcode);
        Ok(())
    }

    /// What follows a value.
    fn parse_infix(&mut self, precedence: Precedence) -> (result: Result<(), ParseError>)
        requires
            old(self)@.sound(old(self).input()),
        ensures
            final(self).input() == old(self).input(),
            agrees(
                old(self).input(),
                old(self)@,
                final(self)@,
                parse_infix(old(self).input(), old(self)@, precedence),
                result,
                false,
            ),
        decreases old(self).input().len() - old(self)@.pos, 2nat,
    {
        let ghost tokens = self.tokens@;
        let ghost entry = self@;
        loop
            invariant
                self.tokens@ == tokens,
                tokens == old(self).input(),
                entry == old(self)@,
                self@.sound(tokens),
                self@.extends(entry),
                self@.follows(entry),
                parse_infix(tokens, entry, precedence) == parse_infix(tokens, self@, precedence),
            decreases tokens.len() - self@.pos,
        {
            let ghost before = self@;
            let kind = self.kind();
            match kind {
                TokenKind::Dot => {
                    match self.parse_property() {
                        Ok(_) => {},
                        Err(error) => {
                            return Err(error);
                        },
                    }
                },
                _ => {
                    match binary_operator_of(kind) {
                        Some((binding, opcode)) => {
                            if precedence.rank() > binding.rank() {
                                match self.parse_infix_op(binding, opcode) {
                                    Ok(_) => {},
                                    Err(error) => {
                                        return Err(error);
                                    },
                                }
                            } else {
                                return Ok(());
                            }
                        },
                        None => {
                            return Ok(());
                        },
                    }
                },
            }
        }
    }

    /// An expression.
    fn parse_expr(&mut self) -> (result: Result<(), ParseError>)
        requires
            old(self)@.sound(old(self).input()),
        ensures
            final(self).input() == old(self).input(),
            agrees(
                old(self).input(),
                old(self)@,
                final(self)@,
                parse_expr(old(self).input(), old(self)@),
                result,
                true,
            ),
        decreases old(self).input().len() - old(self)@.pos, 3nat,
    {
        let ghost entry = self@;
        match self.parse_value() {
            Ok(_) => {},
            Err(error) => {
                return Err(error);
            },
        }
        let ghost value = self@;
        let outcome = self.parse_infix(Precedence::Top);
        outcome
    }

    /// A compound assignment, from its operator on.
    fn parse_assign_op(&mut self, symbol: Symbol, at: usize, opcode: Opcode) -> (result: Result<
        (),
        ParseError,
    >)
        requires
            old(self)@.sound(old(self).input()),
            old(self)@.pos < old(self).input().len(),
        ensures
            final(self).input() == old(self).input(),
            agrees(
                old(self).input(),
                old(self)@,
                final(self)@,
                parse_assign_op(old(self).input(), old(self)@, symbol, at, opcode),
                result,
                true,
            ),
        decreases old(self).input().len() - old(self)@.pos, 0nat,
    {
        let ghost entry = self@;
        self.next_token();
        let ghost inside = self@;
        match self.parse_expr() {
            Ok(_) => {},
            Err(error) => {
                return Err(error);
            },
        }
        let ghost parsed = self@;
        let variable = match self.resolve(symbol, at) {
            Ok(variable) => variable,
            Err(error) => {
                return Err(error);
            },
        };
        self.func.push_var(variable);
        self.func.emit(opcode);
        self.func.pop_var(variable);
        Ok(())
    }

    /// The `else` of an `if` statement, from its keyword on.
    fn parse_else(&mut self, skip: Jump) -> (result: Result<(), ParseError>)
        requires
            old(self)@.sound(old(self).input()),
            old(self)@.pos < old(self).input().len(),
            skip.offset + 4 <= old(self)@.func.bytecode.len(),
        ensures
            final(self).input() == old(self).input(),
            agrees(
                old(self).input(),
                old(self)@,
                final(self)@,
                parse_else(old(self).input(), old(self)@, skip),
                result,
                true,
            ),
        decreases old(self).input().len() - old(self)@.pos, 0nat,
    {
        self.next_token();
        let exit = match self.jump(Opcode::Jump) {
            Ok(jump) => jump,
            Err(error) => {
                return Err(error);
            },
        };
        match self.land(skip) {
            Ok(_) => {},
            Err(error) => {
                return Err(error);
            },
        }
        let outcome = match self.kind() {
            TokenKind::If => self.parse_if(),
            _ => self.parse_block(),
        };
        match outcome {
            Ok(_) => {},
            Err(error) => {
                return Err(error);
            },
        }
        self.land(exit)
    }

    /// An `if` statement, from its keyword on.
    fn parse_if(&mut self) -> (result: Result<(), ParseError>)
        requires
            old(self)@.sound(old(self).input()),
            old(self)@.pos < old(self).input().len(),
        ensures
            final(self).input() == old(self).input(),
            agrees(
                old(self).input(),
                old(self)@,
                final(self)@,
                parse_if(old(self).input(), old(self)@),
                result,
                true,
            ),
        decreases old(self).input().len() - old(self)@.pos, 0nat,
    {
        self.next_token();
        match self.parse_expr() {
            Ok(_) => {},
            Err(error) => {
                return Err(error);
            },
        }
        let skip = match self.jump(Opcode::JumpIfNot) {
            Ok(jump) => jump,
            Err(error) => {
                return Err(error);
            },
        };
        match self.parse_block() {
            Ok(_) => {},
            Err(error) => {
                return Err(error);
            },
        }
        match self.kind() {
            TokenKind::Else => self.parse_else(skip),
            _ => self.land(skip),
        }
    }

    /// A `while` statement, behind its keyword.
    fn parse_while(&mut self) -> (result: Result<(), ParseError>)
        requires
            old(self)@.sound(old(self).input()),
        ensures
            final(self).input() == old(self).input(),
            agrees(
                old(self).input(),
                old(self)@,
                final(self)@,
                parse_while(old(self).input(), old(self)@),
                result,
                true,
            ),
        decreases old(self).input().len() - old(self)@.pos, 4nat,
    {
        let ghost entry = self@;
        if self.func.code_len() > MAX_CODE {
            return Err(self.invalid());
        }
        let top = self.func.create_jump_target();
        match self.parse_expr() {
            Ok(_) => {},
            Err(error) => {
                return Err(error);
            },
        }
        let ghost condition = self@;
        let leave = match self.jump(Opcode::JumpIfNot) {
            Ok(jump) => jump,
            Err(error) => {
                return Err(error);
            },
        };
        let ghost tested = self@;
        match self.parse_block() {
            Ok(_) => {},
            Err(error) => {
                return Err(error);
            },
        }
        let ghost body = self@;
        let repeat = match self.jump(Opcode::Jump) {
            Ok(jump) => jump,
            Err(error) => {
                return Err(error);
            },
        };
        self.func.connect_jump(repeat, &top);
        self.land(leave)
    }

    /// A `var` statement, behind its keyword.
    fn parse_var(&mut self) -> (result: Result<(), ParseError>)
        requires
            old(self)@.sound(old(self).input()),
        ensures
            final(self).input() == old(self).input(),
            agrees(
                old(self).input(),
                old(self)@,
                final(self)@,
                parse_var(old(self).input(), old(self)@),
                result,
                true,
            ),
        decreases old(self).input().len() - old(self)@.pos, 0nat,
    {
        let symbol = match self.expect_ident() {
            Ok(symbol) => symbol,
            Err(error) => {
                return Err(error);
            },
        };
        match self.expect_token(TokenKind::Equals) {
            Ok(_) => {},
            Err(error) => {
                return Err(error);
            },
        }
        match self.parse_expr() {
            Ok(_) => {},
            Err(error) => {
                return Err(error);
            },
        }
        if self.func.stack_size() as usize >= MAX_LOCALS {
            return Err(self.invalid());
        }
        self.func.define_var(symbol);
        Ok(())
    }

    /// What follows the name at the start of a statement.
    fn parse_named(&mut self, symbol: Symbol, at: usize) -> (result: Result<(), ParseError>)
        requires
            old(self)@.sound(old(self).input()),
        ensures
            final(self).input() == old(self).input(),
            agrees(
                old(self).input(),
                old(self)@,
                final(self)@,
                parse_named(old(self).input(), old(self)@, symbol, at),
                result,
                true,
            ),
        decreases old(self).input().len() - old(self)@.pos, 1nat,
    {
        let kind = self.kind();
        match kind {
            TokenKind::OpenBrace => {
                match self.parse_call(symbol, at) {
                    Ok(_) => {},
                    Err(error) => {
                        return Err(error);
                    },
                }
                self.func.emit_short(Opcode::Drop, 1);
                Ok(())
            },
            TokenKind::Equals => {
                self.next_token();
                match self.parse_expr() {
                    Ok(_) => {},
                    Err(error) => {
                        return Err(error);
                    },
                }
                self.store(symbol, at)
            },
            _ => {
                match assign_operator_of(kind) {
                    Some(opcode) => self.parse_assign_op(symbol, at, opcode),
                    None => Err(self.parse_error()),
                }
            },
        }
    }

    /// A statement.
    fn parse_stmt(&mut self) -> (result: Result<(), ParseError>)
        requires
            old(self)@.sound(old(self).input()),
        ensures
            final(self).input() == old(self).input(),
            agrees(
                old(self).input(),
                old(self)@,
                final(self)@,
                parse_stmt(old(self).input(), old(self)@),
                result,
                true,
            ),
        decreases old(self).input().len() - old(self)@.pos, 1nat,
    {
        let at = self.offset();
        match self.kind() {
            TokenKind::SemiColon => {
                self.next_token();
                Ok(())
            },
            TokenKind::While => {
                self.next_token();
                self.parse_while()
            },
            TokenKind::If => self.parse_if(),
            TokenKind::Var => {
                self.next_token();
                self.parse_var()
            },
            TokenKind::Print => {
                self.next_token();
                match self.parse_expr() {
                    Ok(_) => {},
                    Err(error) => {
                        return Err(error);
                    },
                }
                self.func.emit(Opcode::PopPrint);
                Ok(())
            },
            TokenKind::Return => {
                self.next_token();
                match self.parse_expr() {
                    Ok(_) => {},
                    Err(error) => {
                        return Err(error);
                    },
                }
                if self.func.stack_size() != self.func.param_count() + 1 {
                    self.tame = false;
                }
                self.func.emit_short(Opcode::PopStore, 0);
                self.func.emit(Opcode::Return);
                Ok(())
            },
            TokenKind::Ident => {
                let symbol = match self.expect_ident() {
                    Ok(symbol) => symbol,
                    Err(error) => {
                        return Err(error);
                    },
                };
                self.parse_named(symbol, at)
            },
            _ => Err(self.parse_error()),
        }
    }

    /// A block.
    fn parse_block(&mut self) -> (result: Result<(), ParseError>)
        requires
            old(self)@.sound(old(self).input()),
        ensures
            final(self).input() == old(self).input(),
            agrees(
                old(self).input(),
                old(self)@,
                final(self)@,
                parse_block(old(self).input(), old(self)@),
                result,
                true,
            ),
        decreases old(self).input().len() - old(self)@.pos, 0nat,
    {
        let ghost tokens = self.tokens@;
        let ghost entry = self@;
        let start = self.func.stack_size();
        match self.kind() {
            TokenKind::OpenCurlyBrace => {},
            _ => {
                return Err(self.parse_error());
            },
        }
        self.next_token();
        loop
            invariant
                self.tokens@ == tokens,
                tokens == old(self).input(),
                entry == old(self)@,
                entry.sound(tokens),
                kind_at(tokens, entry.pos) == TokenKind::OpenCurlyBrace,
                start == entry.func.scope.len(),
                entry.pos < self@.pos,
                self@.sound(tokens),
                self@.extends(entry),
                self@.follows(entry),
                parse_stmts(tokens, entry.next()) == parse_stmts(tokens, self@),
            decreases tokens.len() - self@.pos,
        {
            let ghost before = self@;
            match self.kind() {
                TokenKind::CloseCurlyBrace => {
                    self.next_token();
                    let size = self.func.stack_size();
                    if size > start {
                        self.func.free_vars(size - start);
                    }
                    return Ok(());
                },
                _ => {},
            }
            match self.parse_stmt() {
                Ok(_) => {},
                Err(error) => {
                    return Err(error);
                },
            }
        }
    }

    /// The statements of a program, up to the end of the tokens.
    fn parse_program(&mut self) -> (result: Result<(), ParseError>)
        requires
            old(self)@.sound(old(self).input()),
        ensures
            final(self).input() == old(self).input(),
            agrees(
                old(self).input(),
                old(self)@,
                final(self)@,
                parse_program(old(self).input(), old(self)@),
                result,
                false,
            ),
    {
        let ghost tokens = self.tokens@;
        let ghost entry = self@;
        loop
            invariant
                self.tokens@ == tokens,
                tokens == old(self).input(),
                entry == old(self)@,
                self@.sound(tokens),
                self@.extends(entry),
                self@.follows(entry),
                parse_program(tokens, entry) == parse_program(tokens, self@),
            decreases tokens.len() - self@.pos,
        {
            let ghost before = self@;
            match self.kind() {
                TokenKind::End => {
                    return Ok(());
                },
                _ => {},
            }
            match self.parse_stmt() {
                Ok(_) => {},
                Err(error) => {
                    return Err(error);
                },
            }
        }
    }

    /// Compiles `tokens` as the next top-level function of `program`,
    /// where `params` are the locals in scope at its start, the return
    /// slot first. On success the program holds the compiled functions,
    /// the top-level function at the index that was the number of its
    /// functions, and the result is the locals in scope at the end. On an
    /// error the program is as it was.
    pub fn parse(tokens: &'a Vec<Token>, program: &mut Program, params: Vec<Symbol>) -> (result:
        Result<Vec<Symbol>, ParseError>)
        requires
            1 <= params@.len() <= MAX_LOCALS,
        ensures
            final(program)@ == compiled_program(tokens@, old(program)@, params@),
            (forall|i: int|
                0 <= i < old(program)@.funcs.len() ==> func_lists(#[trigger] old(program)@.funcs[i]))
                ==> (forall|i: int|
                0 <= i < final(program)@.funcs.len() ==> func_lists(
                    #[trigger] final(program)@.funcs[i],
                )),
            compiles_tamely(tokens@, old(program)@.funcs, old(program)@.names, params@) ==> added(
                old(program)@.funcs,
                final(program)@.funcs,
            ),
            match compile(tokens@, old(program)@.funcs, old(program)@.names, params@) {
                Ok((funcs, names, scope)) => {
                    &&& result matches Ok(locals)
                    &&& locals@ == scope
                    &&& 1 <= scope.len() <= MAX_LOCALS
                    &&& final(program)@ == (ProgramView { funcs, names })
                },
                Err(error) => result == Err::<Vec<Symbol>, ParseError>(error) && final(program)@
                    == old(program)@,
            },
    {
        match Parser::parse_tame(tokens, program, params) {
            Ok((scope, _)) => Ok(scope),
            Err(error) => Err(error),
        }
    }

    /// Compiles like `parse`, and tells with the locals whether every
    /// `return` statement of the tokens stands where no local but the
    /// parameters is in scope: then every function that was compiled is
    /// balanced under some static model of its stack.
    pub fn parse_tame(tokens: &'a Vec<Token>, program: &mut Program, params: Vec<Symbol>) -> (result:
        Result<(Vec<Symbol>, bool), ParseError>)
        requires
            1 <= params@.len() <= MAX_LOCALS,
        ensures
            final(program)@ == compiled_program(tokens@, old(program)@, params@),
            (forall|i: int|
                0 <= i < old(program)@.funcs.len() ==> func_lists(#[trigger] old(program)@.funcs[i]))
                ==> (forall|i: int|
                0 <= i < final(program)@.funcs.len() ==> func_lists(
                    #[trigger] final(program)@.funcs[i],
                )),
            compiles_tamely(tokens@, old(program)@.funcs, old(program)@.names, params@) ==> added(
                old(program)@.funcs,
                final(program)@.funcs,
            ),
            match compile(tokens@, old(program)@.funcs, old(program)@.names, params@) {
                Ok((funcs, names, scope)) => {
                    &&& result matches Ok((locals, tame))
                    &&& locals@ == scope
                    &&& tame == compiles_tamely(
                        tokens@,
                        old(program)@.funcs,
                        old(program)@.names,
                        params@,
                    )
                    &&& 1 <= scope.len() <= MAX_LOCALS
                    &&& final(program)@ == (ProgramView { funcs, names })
                },
                Err(error) => result == Err::<(Vec<Symbol>, bool), ParseError>(error) && final(program)@ == old(program)@,
            },
    {
        proof {
            if compile(tokens@, program@.funcs, program@.names, params@) is Ok && (forall|i: int|
                0 <= i < program@.funcs.len() ==> func_lists(#[trigger] program@.funcs[i])) {
                lemma_compiled_code_lists(tokens@, program@.funcs, program@.names, params@);
            }
            if compiles_tamely(tokens@, program@.funcs, program@.names, params@) {
                lemma_tame_program_balanced(tokens@, program@.funcs, program@.names, params@);
            }
        }
        let index = program.funcs.len();
        let names = program.symbols.len();
        let mut owned = Program::new();
        core::mem::swap(program, &mut owned);
        let ghost given = owned@;
        owned.funcs.push(Func::default());
        let mut parser = Parser {
            tokens,
            pos: 0,
            program: owned,
            func: FuncBuilder::new(params),
            tame: true,
        };
        let ghost start = parser@;
        proof {
            assert(start.funcs =~= given.funcs.push(FuncView::empty()));
            assert(start.names == given.names);
            assert(start.func == BuilderView::root(params@));
            assert(start.pos == 0);
            assert(given == old(program)@);
            assert(start == start_state(given.funcs, given.names, params@));
        }
        let outcome = parser.parse_program();
        let ghost parsed = parser@;
        let Parser { tokens: _, pos: _, program: mut compiled, func, tame } = parser;
        proof {
            assert(compiled@.funcs == parsed.funcs);
            assert(compiled@.names == parsed.names);
            assert(func@ == parsed.func);
            assert(tame == parsed.tame);
            assert(parsed.extends(start));
        }
        match outcome {
            Err(error) => {
                compiled.funcs.truncate(index);
                compiled.symbols.truncate(names);
                proof {
                    assert forall|i: int| 0 <= i < index implies compiled@.funcs[i] == given.funcs[i] by {
                        assert(parsed.funcs[i] == start.funcs[i]);
                    }
                    assert(compiled@.funcs =~= given.funcs);
                    assert(compiled@.names =~= given.names);
                }
                *program = compiled;
                Err(error)
            },
            Ok(_) => {
                let mut func = func;
                func.emit(Opcode::Finish);
                let scope = func.scope();
                let (built, _) = func.build();
                compiled.funcs.set(index, built);
                proof {
                    assert(compiled@.funcs =~= parsed.funcs.update(index as int, built@));
                }
                *program = compiled;
                Ok((scope, tame))
            },
        }
    }
}

} // verus!
