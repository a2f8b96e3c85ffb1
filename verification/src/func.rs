//! Compiled functions, their bytecode and the builder that emits it.

use vstd::prelude::*;
use crate::bytes::{
    be_u32, be_u64, lemma_be_u32_round_trip, lemma_be_u64_round_trip, push_u32, push_u64, read_u32,
    read_u64, u32_be, u64_be, write_u32,
};
use crate::opcode::Opcode;
use crate::symbols::{Symbol, Symbols};

verus! {

/// How a function gets one of its captured variables when a closure over
/// it is made: from a capture of the enclosing function (`Outer`, by capture
/// index) or from a local of the enclosing function (`Stack`, by slot).
#[derive(Debug, Clone, Copy, PartialEq, Eq, Structural)]
pub enum ClosureValue {
    Outer(u8),
    Stack(u8),
}

/// A compiled function.
#[derive(Debug, Clone)]
pub struct Func {
    pub bytecode: Vec<u8>,
    pub param_count: u8,
    pub closure_scope: Vec<ClosureValue>,
    pub param_names: Vec<Symbol>,
}

/// What a compiled function holds.
pub struct FuncView {
    pub bytecode: Seq<u8>,
    pub param_count: u8,
    pub closure_scope: Seq<ClosureValue>,
    pub param_names: Seq<Symbol>,
}

impl View for Func {
    type V = FuncView;

    open spec fn view(&self) -> FuncView {
        FuncView {
            bytecode: self.bytecode@,
            param_count: self.param_count,
            closure_scope: self.closure_scope@,
            param_names: self.param_names@,
        }
    }
}

impl FuncView {
    /// The function with no code, no parameters and no captures.
    pub open spec fn empty() -> FuncView {
        FuncView {
            bytecode: Seq::empty(),
            param_count: 0,
            closure_scope: Seq::empty(),
            param_names: Seq::empty(),
        }
    }
}

impl Default for Func {
    fn default() -> (func: Func)
        ensures
            func@ == FuncView::empty(),
    {
        Func {
            bytecode: Vec::new(),
            param_count: 0,
            closure_scope: Vec::new(),
            param_names: Vec::new(),
        }
    }
}

/// One decoded instruction: its opcode, its operand as a number (0 where
/// the opcode has none) and the offset of the instruction after it.
#[derive(Debug, Clone, Copy)]
pub struct Instruction {
    pub opcode: Opcode,
    pub operand: u64,
    pub next: usize,
}

/// The number that the operand bytes of an instruction stand for.
pub open spec fn operand_value(bytes: Seq<u8>) -> u64 {
    if bytes.len() == 1 {
        bytes[0] as u64
    } else if bytes.len() == 4 {
        be_u32(bytes) as u64
    } else if bytes.len() == 8 {
        be_u64(bytes)
    } else {
        0
    }
}

/// The instruction at offset `pc` of `code`; `None` if `pc` is past the
/// end, the byte there is no opcode, or the operand runs past the end.
pub open spec fn decode_at(code: Seq<u8>, pc: int) -> Option<Instruction> {
    if pc < 0 || pc >= code.len() {
        None
    } else {
        match Opcode::of_byte(code[pc]) {
            None => None,
            Some(opcode) => {
                let next = pc + 1 + opcode.operand_width();
                if next > code.len() || next > usize::MAX {
                    None
                } else {
                    Some(
                        Instruction {
                            opcode,
                            operand: operand_value(code.subrange(pc + 1, next)),
                            next: next as usize,
                        },
                    )
                }
            },
        }
    }
}

/// Decodes the instruction at offset `pc` of `code`.
pub fn decode(code: &Vec<u8>, pc: usize) -> (instruction: Option<Instruction>)
    ensures
        instruction == decode_at(code@, pc as int),
{
    if pc >= code.len() {
        return None;
    }
    let opcode = match Opcode::from_byte(code[pc]) {
        Some(opcode) => opcode,
        None => {
            return None;
        },
    };
    let width = opcode.operand_len();
    if width > code.len() - pc - 1 {
        return None;
    }
    let next = pc + 1 + width;
    let ghost bytes = code@.subrange(pc + 1, next as int);
    let operand: u64 = if width == 1 {
        assert(bytes[0] == code@[pc + 1]);
        code[pc + 1] as u64
    } else if width == 4 {
        read_u32(code, pc + 1) as u64
    } else if width == 8 {
        read_u64(code, pc + 1)
    } else {
        0
    };
    Some(Instruction { opcode, operand, next })
}

/// A forward jump whose target is not known yet: the offset of the four
/// operand bytes that wait for it.
#[derive(Debug, Clone, Copy)]
pub struct Jump {
    pub offset: u32,
}

/// A place in the bytecode that jumps can go to.
#[derive(Debug, Clone, Copy)]
pub struct JumpTarget {
    pub offset: u32,
}

/// What a name resolves to: a local of the function, by slot, or one of
/// its captures, by index.
#[derive(Debug, Clone, Copy, PartialEq, Eq, Structural)]
pub enum Variable {
    Stack(u8),
    Closure(u8),
}

/// The state of compiling one function: the locals in scope, the captures
/// resolved so far, the bytecode emitted so far, and the builder of the
/// enclosing function, if there is one.
pub struct FuncBuilder {
    bytecode: Vec<u8>,
    param_count: u8,
    closure_scope: Vec<ClosureValue>,
    scope: Vec<Symbol>,
    outer: Option<Box<FuncBuilder>>,
}

/// What a builder holds.
pub struct BuilderView {
    pub bytecode: Seq<u8>,
    pub param_count: u8,
    pub closure_scope: Seq<ClosureValue>,
    pub scope: Seq<Symbol>,
    pub outer: Option<Box<BuilderView>>,
}

/// Most locals that a function can have in scope at once, return slot
/// included: a slot is one byte and so is the count of locals.
pub const MAX_LOCALS: usize = 255;

/// Most captures that a function can have: a capture index is one byte.
pub const MAX_CAPTURES: usize = 256;

/// The slot of the local named `symbol`: the last one of that name, since
/// a later definition shadows an earlier one.
pub open spec fn find_local(scope: Seq<Symbol>, symbol: Symbol) -> Option<int>
    decreases scope.len(),
{
    if scope.len() == 0 {
        None
    } else if scope.last() == symbol {
        Some(scope.len() - 1)
    } else {
        find_local(scope.drop_last(), symbol)
    }
}

/// The bytes of an instruction with a one-byte operand.
pub open spec fn short_instruction(opcode: Opcode, operand: u8) -> Seq<u8> {
    seq![opcode.byte(), operand]
}

/// The bytes of an instruction with a four-byte operand.
pub open spec fn wide_instruction(opcode: Opcode, operand: u32) -> Seq<u8> {
    seq![opcode.byte()] + u32_be(operand)
}

/// The code with the four bytes from `offset` on replaced by the
/// big-endian bytes of `target`.
pub open spec fn patched(code: Seq<u8>, offset: int, target: u32) -> Seq<u8> {
    code.subrange(0, offset) + u32_be(target) + code.subrange(offset + 4, code.len() as int)
}

impl BuilderView {
    /// The builder of a function with the locals `params`, of which the
    /// first is the return slot and the others are parameters.
    pub open spec fn root(params: Seq<Symbol>) -> BuilderView {
        BuilderView {
            bytecode: Seq::empty(),
            param_count: if params.len() == 0 {
                0u8
            } else {
                (params.len() - 1) as u8
            },
            closure_scope: Seq::empty(),
            scope: params,
            outer: None,
        }
    }

    /// The builder of a function nested in the function of `self`: its
    /// only local is the return slot.
    pub open spec fn child(self) -> BuilderView {
        BuilderView {
            bytecode: Seq::empty(),
            param_count: 0,
            closure_scope: Seq::empty(),
            scope: seq![Symbol::return_slot()],
            outer: Some(Box::new(self)),
        }
    }

    /// The builder with `bytes` appended to its code.
    pub open spec fn emit(self, bytes: Seq<u8>) -> BuilderView {
        BuilderView { bytecode: self.bytecode + bytes, ..self }
    }

    /// The builder with one more local.
    pub open spec fn define(self, symbol: Symbol) -> BuilderView {
        BuilderView { scope: self.scope.push(symbol), ..self }
    }

    /// The builder with one more parameter.
    pub open spec fn define_param(self, symbol: Symbol) -> BuilderView {
        BuilderView {
            scope: self.scope.push(symbol),
            param_count: (self.param_count + 1) as u8,
            ..self
        }
    }

    /// The builder after the `n` locals defined last went out of scope:
    /// they are gone, and the code drops their slots.
    pub open spec fn free(self, n: u8) -> BuilderView {
        BuilderView {
            scope: self.scope.take(self.scope.len() - n),
            bytecode: self.bytecode + short_instruction(Opcode::Drop, n),
            ..self
        }
    }

    /// The builder with the jump `jump` connected to `target`.
    pub open spec fn connect(self, jump: Jump, target: JumpTarget) -> BuilderView {
        BuilderView { bytecode: patched(self.bytecode, jump.offset as int, target.offset), ..self }
    }

    /// Number of functions that enclose the function of the builder.
    pub open spec fn depth(self) -> nat
        decreases self,
    {
        match self.outer {
            None => 0,
            Some(outer) => 1 + outer.depth(),
        }
    }

    /// The descriptor can be resolved in a frame of the function of
    /// `self`: it names a local or a capture that the function has.
    pub open spec fn has(self, descriptor: ClosureValue) -> bool {
        match descriptor {
            ClosureValue::Stack(slot) => slot < self.scope.len(),
            ClosureValue::Outer(index) => index < self.closure_scope.len(),
        }
    }

    /// What resolving names leaves as it is, in this builder and in those
    /// that enclose it, innermost first: the code, the number of
    /// parameters and the locals in scope. Resolving may add captures and
    /// changes nothing else.
    pub open spec fn skeleton(self) -> Seq<(Seq<u8>, u8, Seq<Symbol>)>
        decreases self,
    {
        seq![(self.bytecode, self.param_count, self.scope)] + self.outer_skeleton()
    }

    /// The skeleton of the enclosing builders.
    pub open spec fn outer_skeleton(self) -> Seq<(Seq<u8>, u8, Seq<Symbol>)>
        decreases self, 0nat,
    {
        match self.outer {
            None => Seq::empty(),
            Some(outer) => outer.skeleton(),
        }
    }

    /// The builder respects the limits of the encoding, its parameters are
    /// in scope, each of its capture descriptors names a local or a
    /// capture of the enclosing function, and the same holds of the
    /// builders of all enclosing functions.
    pub open spec fn wf(self) -> bool
        decreases self,
    {
        &&& 1 + self.param_count <= self.scope.len() <= MAX_LOCALS
        &&& self.closure_scope.len() <= MAX_CAPTURES
        &&& match self.outer {
            None => self.closure_scope.len() == 0,
            Some(outer) => outer.wf() && forall|i: int|
                0 <= i < self.closure_scope.len() ==> outer.has(#[trigger] self.closure_scope[i]),
        }
    }

    /// The name of the variable that the capture at `index` captures: the
    /// descriptor chain followed outwards to the local it ends at.
    pub open spec fn capture_symbol(self, index: int) -> Symbol
        decreases self,
    {
        match self.outer {
            None => Symbol::return_slot(),
            Some(outer) => match self.closure_scope[index] {
                ClosureValue::Stack(slot) => outer.scope[slot as int],
                ClosureValue::Outer(next) => outer.capture_symbol(next as int),
            },
        }
    }

    /// The first capture at or after index `from` that captures the
    /// variable named `symbol`.
    pub open spec fn find_capture(self, symbol: Symbol, from: int) -> Option<int>
        decreases self.closure_scope.len() - from,
    {
        if from < 0 || from >= self.closure_scope.len() {
            None
        } else if self.capture_symbol(from) == symbol {
            Some(from)
        } else {
            self.find_capture(symbol, from + 1)
        }
    }

    /// The builder with one more capture, and its index; `None`, and the
    /// builder as it is, if the function has as many captures as it can.
    pub open spec fn add_capture(self, descriptor: ClosureValue) -> (Option<u8>, BuilderView) {
        if self.closure_scope.len() >= MAX_CAPTURES {
            (None, self)
        } else {
            (
                Some(self.closure_scope.len() as u8),
                BuilderView { closure_scope: self.closure_scope.push(descriptor), ..self },
            )
        }
    }

    /// Resolves `symbol` as a capture: the index of the capture, and the
    /// builder after resolution. A name that is no capture yet is looked
    /// up in the enclosing function, as a local and then as a capture, and
    /// becomes a new capture if it is found there; this may add captures to
    /// enclosing functions in turn. `None` if no enclosing function knows
    /// the name, or if a function on the way has no room for a capture.
    pub open spec fn resolve_capture(self, symbol: Symbol) -> (Option<u8>, BuilderView)
        decreases self,
    {
        match self.find_capture(symbol, 0) {
            Some(index) => (Some(index as u8), self),
            None => match self.outer {
                None => (None, self),
                Some(outer) => match find_local(outer.scope, symbol) {
                    Some(slot) => self.add_capture(ClosureValue::Stack(slot as u8)),
                    None => {
                        let (found, resolved) = outer.resolve_capture(symbol);
                        let inner = BuilderView { outer: Some(Box::new(resolved)), ..self };
                        match found {
                            Some(index) => inner.add_capture(ClosureValue::Outer(index)),
                            None => (None, inner),
                        }
                    },
                },
            },
        }
    }

    /// Resolves `symbol`: a local of the function if there is one of that
    /// name, else a capture.
    pub open spec fn resolve(self, symbol: Symbol) -> (Option<Variable>, BuilderView) {
        match find_local(self.scope, symbol) {
            Some(slot) => (Some(Variable::Stack(slot as u8)), self),
            None => {
                let (found, resolved) = self.resolve_capture(symbol);
                match found {
                    Some(index) => (Some(Variable::Closure(index)), resolved),
                    None => (None, resolved),
                }
            },
        }
    }

    /// The code that pushes the value of `variable`.
    pub open spec fn load_code(variable: Variable) -> Seq<u8> {
        match variable {
            Variable::Stack(slot) => short_instruction(Opcode::PushLoad, slot),
            Variable::Closure(index) => short_instruction(Opcode::PushClosureLoad, index),
        }
    }

    /// The code that pops a value into `variable`.
    pub open spec fn store_code(variable: Variable) -> Seq<u8> {
        match variable {
            Variable::Stack(slot) => short_instruction(Opcode::PopStore, slot),
            Variable::Closure(index) => short_instruction(Opcode::PopClosureStore, index),
        }
    }

    /// The compiled function that the builder stands for.
    pub open spec fn built(self) -> FuncView {
        FuncView {
            bytecode: self.bytecode,
            param_count: self.param_count,
            closure_scope: self.closure_scope,
            param_names: self.scope.subrange(1, 1 + self.param_count),
        }
    }
}

impl View for FuncBuilder {
    type V = BuilderView;

    closed spec fn view(&self) -> BuilderView {
        self.model()
    }
}

impl FuncBuilder {
    /// What the builder holds, enclosing builders included.
    spec fn model(&self) -> BuilderView
        decreases self,
    {
        BuilderView {
            bytecode: self.bytecode@,
            param_count: self.param_count,
            closure_scope: self.closure_scope@,
            scope: self.scope@,
            outer: match self.outer {
                None => None,
                Some(outer) => Some(Box::new(outer.model())),
            },
        }
    }

    /// The locals in scope, by slot.
    pub fn scope(&self) -> (scope: Vec<Symbol>)
        ensures
            scope@ == self@.scope,
    {
        let mut scope: Vec<Symbol> = Vec::new();
        let mut i: usize = 0;
        while i < self.scope.len()
            invariant
                i <= self.scope.len(),
                scope@ == self.scope@.take(i as int),
            decreases self.scope.len() - i,
        {
            scope.push(self.scope[i]);
            i += 1;
            assert(scope@ =~= self.scope@.take(i as int));
        }
        assert(self.scope@.take(self.scope.len() as int) =~= self.scope@);
        scope
    }

    /// A builder for a function with the locals `params`: the first is the
    /// return slot, the others are its parameters.
    pub fn new(params: Vec<Symbol>) -> (builder: FuncBuilder)
        requires
            1 <= params@.len() <= MAX_LOCALS,
        ensures
            builder@ == BuilderView::root(params@),
            builder@.wf(),
    {
        FuncBuilder {
            bytecode: Vec::new(),
            param_count: (params.len() - 1) as u8,
            scope: params,
            closure_scope: Vec::new(),
            outer: None,
        }
    }

    /// A builder that stands for no function: what is left where a builder
    /// was taken from.
    pub fn vacant() -> (builder: FuncBuilder)
        ensures
            builder@ == BuilderView::root(seq![Symbol::return_slot()]),
            builder@.wf(),
    {
        let mut scope: Vec<Symbol> = Vec::new();
        scope.push(Symbol::return_symbol());
        let builder = FuncBuilder {
            bytecode: Vec::new(),
            param_count: 0,
            scope,
            closure_scope: Vec::new(),
            outer: None,
        };
        assert(builder@.scope =~= seq![Symbol::return_slot()]);
        builder
    }

    /// A builder for a function nested in the function of this builder,
    /// which becomes its enclosing builder.
    pub fn new_child(self) -> (child: FuncBuilder)
        ensures
            child@ == self@.child(),
            self@.wf() ==> child@.wf(),
    {
        let mut scope: Vec<Symbol> = Vec::new();
        scope.push(Symbol::return_symbol());
        let child = FuncBuilder {
            bytecode: Vec::new(),
            param_count: 0,
            scope,
            closure_scope: Vec::new(),
            outer: Some(Box::new(self)),
        };
        assert(child@.scope =~= seq![Symbol::return_slot()]);
        child
    }

    /// Appends `bytes` to the code.
    pub fn push_bytes(&mut self, bytes: &[u8])
        ensures
            final(self)@ == old(self)@.emit(bytes@),
    {
        let mut i: usize = 0;
        while i < bytes.len()
            invariant
                i <= bytes@.len(),
                self@ == old(self)@.emit(bytes@.take(i as int)),
            decreases bytes@.len() - i,
        {
            self.bytecode.push(bytes[i]);
            i += 1;
            assert(self.bytecode@ =~= old(self).bytecode@ + bytes@.take(i as int));
        }
        assert(bytes@.take(bytes@.len() as int) =~= bytes@);
    }

    /// Appends an instruction without operand.
    pub fn emit(&mut self, opcode: Opcode)
        ensures
            final(self)@ == old(self)@.emit(seq![opcode.byte()]),
    {
        self.bytecode.push(opcode.to_byte());
        assert(self.bytecode@ =~= old(self).bytecode@ + seq![opcode.byte()]);
    }

    /// Appends an instruction with a one-byte operand.
    pub fn emit_short(&mut self, opcode: Opcode, operand: u8)
        ensures
            final(self)@ == old(self)@.emit(short_instruction(opcode, operand)),
    {
        self.bytecode.push(opcode.to_byte());
        self.bytecode.push(operand);
        assert(self.bytecode@ =~= old(self).bytecode@ + short_instruction(opcode, operand));
    }

    /// Appends an instruction with a four-byte operand.
    pub fn emit_wide(&mut self, opcode: Opcode, operand: u32)
        ensures
            final(self)@ == old(self)@.emit(wide_instruction(opcode, operand)),
    {
        self.bytecode.push(opcode.to_byte());
        push_u32(&mut self.bytecode, operand);
        assert(self.bytecode@ =~= old(self).bytecode@ + wide_instruction(opcode, operand));
    }

    /// Appends an instruction with an eight-byte operand.
    pub fn emit_long(&mut self, opcode: Opcode, operand: u64)
        ensures
            final(self)@ == old(self)@.emit(seq![opcode.byte()] + crate::bytes::u64_be(operand)),
    {
        self.bytecode.push(opcode.to_byte());
        crate::bytes::push_u64(&mut self.bytecode, operand);
        assert(self.bytecode@ =~= old(self).bytecode@ + (seq![opcode.byte()]
            + crate::bytes::u64_be(operand)));
    }

    /// Number of bytes of code emitted so far.
    pub fn code_len(&self) -> (len: usize)
        ensures
            len == self@.bytecode.len(),
    {
        self.bytecode.len()
    }

    /// Number of captures resolved so far.
    pub fn capture_count(&self) -> (count: usize)
        ensures
            count == self@.closure_scope.len(),
    {
        self.closure_scope.len()
    }

    /// Number of parameters.
    pub fn param_count(&self) -> (count: u8)
        ensures
            count == self@.param_count,
    {
        self.param_count
    }

    /// The slot of the local named `symbol`, if there is one: the one
    /// defined last.
    pub fn resolve_stack_var(&self, symbol: Symbol) -> (slot: Option<u8>)
        requires
            self@.scope.len() <= MAX_LOCALS,
        ensures
            slot == match find_local(self@.scope, symbol) {
                Some(index) => Some(index as u8),
                None => None,
            },
            slot matches Some(index) ==> index < self@.scope.len(),
    {
        let mut i = self.scope.len();
        assert(self.scope@.take(i as int) =~= self.scope@);
        while i > 0
            invariant
                i <= self.scope.len(),
                self.scope@.len() <= MAX_LOCALS,
                find_local(self.scope@, symbol) == find_local(self.scope@.take(i as int), symbol),
            decreases i,
        {
            i -= 1;
            assert(self.scope@.take(i + 1).drop_last() =~= self.scope@.take(i as int));
            if self.scope[i] == symbol {
                return Some(i as u8);
            }
        }
        None
    }

    /// The name of the variable that the capture at `index` captures.
    pub fn closure_var_symbol(&self, index: u8) -> (symbol: Symbol)
        requires
            self@.wf(),
            index < self@.closure_scope.len(),
        ensures
            symbol == self@.capture_symbol(index as int),
        decreases self,
    {
        match &self.outer {
            None => Symbol::return_symbol(),
            Some(outer) => {
                assert(outer@.has(self@.closure_scope[index as int]));
                match self.closure_scope[index as usize] {
                    ClosureValue::Stack(slot) => outer.scope[slot as usize],
                    ClosureValue::Outer(next) => outer.closure_var_symbol(next),
                }
            },
        }
    }

    /// The index of the first capture that captures the variable named
    /// `symbol`, if there is one.
    fn find_capture(&self, symbol: Symbol) -> (found: Option<u8>)
        requires
            self@.wf(),
        ensures
            found == match self@.find_capture(symbol, 0) {
                Some(index) => Some(index as u8),
                None => None,
            },
            found matches Some(index) ==> index < self@.closure_scope.len(),
    {
        let mut i: usize = 0;
        while i < self.closure_scope.len()
            invariant
                self@.wf(),
                i <= self.closure_scope.len(),
                self.closure_scope@.len() == self@.closure_scope.len(),
                self@.find_capture(symbol, 0) == self@.find_capture(symbol, i as int),
            decreases self.closure_scope.len() - i,
        {
            if self.closure_var_symbol(i as u8) == symbol {
                return Some(i as u8);
            }
            i += 1;
        }
        None
    }

    /// Adds a capture, if the function has room for one.
    fn add_capture(&mut self, descriptor: ClosureValue) -> (index: Option<u8>)
        requires
            old(self)@.wf(),
            old(self)@.outer matches Some(outer) && outer.has(descriptor),
        ensures
            final(self)@.wf(),
            (index, final(self)@) == old(self)@.add_capture(descriptor),
    {
        let count = self.closure_scope.len();
        if count >= MAX_CAPTURES {
            return None;
        }
        self.closure_scope.push(descriptor);
        proof {
            let outer = old(self)@.outer->0;
            assert forall|i: int| 0 <= i < self@.closure_scope.len() implies outer.has(
                #[trigger] self@.closure_scope[i],
            ) by {
                if i < count {
                    assert(outer.has(old(self)@.closure_scope[i]));
                }
            }
        }
        Some(count as u8)
    }

    /// Resolves `symbol` as a capture of the function; see
    /// `BuilderView::resolve_capture`.
    pub fn resolve_closure_var(&mut self, symbol: Symbol) -> (index: Option<u8>)
        requires
            old(self)@.wf(),
        ensures
            final(self)@.wf(),
            (index, final(self)@) == old(self)@.resolve_capture(symbol),
            index matches Some(i) ==> i < final(self)@.closure_scope.len(),
            final(self)@.skeleton() == old(self)@.skeleton(),
            old(self)@.closure_scope.len() <= final(self)@.closure_scope.len(),
            forall|i: int|
                0 <= i < old(self)@.closure_scope.len() ==> final(self)@.closure_scope[i] == old(
                    self,
                )@.closure_scope[i],
        decreases old(self)@.depth(),
    {
        let ghost before = self@;
        match self.find_capture(symbol) {
            Some(index) => {
                return Some(index);
            },
            None => {},
        }
        let descriptor = match &mut self.outer {
            None => {
                return None;
            },
            Some(outer) => {
                let ghost enclosing = outer@;
                assert(before.outer == Some(Box::new(enclosing)));
                assert(enclosing.wf());
                match outer.resolve_stack_var(symbol) {
                    Some(slot) => ClosureValue::Stack(slot),
                    None => {
                        let found = outer.resolve_closure_var(symbol);
                        proof {
                            let resolved = outer@;
                            assert forall|i: int|
                                0 <= i < before.closure_scope.len() implies resolved.has(
                                #[trigger] before.closure_scope[i],
                            ) by {
                                assert(enclosing.has(before.closure_scope[i]));
                            }
                        }
                        match found {
                            Some(index) => ClosureValue::Outer(index),
                            None => {
                                return None;
                            },
                        }
                    },
                }
            },
        };
        self.add_capture(descriptor)
    }

    /// Resolves `symbol`: a local of the function if there is one of that
    /// name, else a capture.
    pub fn resolve_var(&mut self, symbol: Symbol) -> (variable: Option<Variable>)
        requires
            old(self)@.wf(),
        ensures
            final(self)@.wf(),
            (variable, final(self)@) == old(self)@.resolve(symbol),
            final(self)@.skeleton() == old(self)@.skeleton(),
            final(self)@.outer_skeleton() == old(self)@.outer_skeleton(),
            final(self)@.bytecode == old(self)@.bytecode,
            final(self)@.scope == old(self)@.scope,
            final(self)@.param_count == old(self)@.param_count,
    {
        proof {
            lemma_skeleton(self@);
        }
        let variable = match self.resolve_stack_var(symbol) {
            Some(slot) => Some(Variable::Stack(slot)),
            None => {
                match self.resolve_closure_var(symbol) {
                    Some(index) => Some(Variable::Closure(index)),
                    None => None,
                }
            },
        };
        proof {
            lemma_skeleton(self@);
        }
        variable
    }

    /// Emits the code that pushes the value of `var`.
    pub fn push_var(&mut self, var: Variable)
        ensures
            final(self)@ == old(self)@.emit(BuilderView::load_code(var)),
    {
        match var {
            Variable::Stack(slot) => self.emit_short(Opcode::PushLoad, slot),
            Variable::Closure(index) => self.emit_short(Opcode::PushClosureLoad, index),
        }
    }

    /// Emits the code that pops a value into `var`.
    pub fn pop_var(&mut self, var: Variable)
        ensures
            final(self)@ == old(self)@.emit(BuilderView::store_code(var)),
    {
        match var {
            Variable::Stack(slot) => self.emit_short(Opcode::PopStore, slot),
            Variable::Closure(index) => self.emit_short(Opcode::PopClosureStore, index),
        }
    }

    /// Brings a new local into scope, in the next free slot.
    pub fn define_var(&mut self, symbol: Symbol)
        requires
            old(self)@.scope.len() < MAX_LOCALS,
        ensures
            final(self)@ == old(self)@.define(symbol),
            old(self)@.wf() ==> final(self)@.wf(),
    {
        self.scope.push(symbol);
    }

    /// Brings a new parameter into scope. Parameters come before all other
    /// locals.
    pub fn define_param(&mut self, symbol: Symbol)
        requires
            old(self)@.scope.len() < MAX_LOCALS,
            old(self)@.scope.len() == old(self)@.param_count + 1,
        ensures
            final(self)@ == old(self)@.define_param(symbol),
            old(self)@.wf() ==> final(self)@.wf(),
    {
        self.define_var(symbol);
        self.param_count += 1;
    }

    /// Number of locals in scope, return slot included.
    pub fn stack_size(&self) -> (size: u8)
        requires
            self@.scope.len() <= MAX_LOCALS,
        ensures
            size == self@.scope.len(),
    {
        self.scope.len() as u8
    }

    /// Takes the `n` locals defined last out of scope and emits the code
    /// that drops their slots.
    pub fn free_vars(&mut self, n: u8)
        requires
            n + 1 + old(self)@.param_count <= old(self)@.scope.len(),
        ensures
            final(self)@ == old(self)@.free(n),
            old(self)@.wf() ==> final(self)@.wf(),
    {
        self.scope.truncate(self.scope.len() - n as usize);
        self.emit_short(Opcode::Drop, n);
    }

    /// Emits a jump whose target is connected later.
    pub fn push_jump(&mut self) -> (jump: Jump)
        requires
            old(self)@.bytecode.len() < u32::MAX,
        ensures
            final(self)@ == old(self)@.emit(wide_instruction(Opcode::Jump, 0)),
            jump.offset == old(self)@.bytecode.len() + 1,
    {
        let offset = (self.bytecode.len() + 1) as u32;
        self.emit_wide(Opcode::Jump, 0);
        Jump { offset }
    }

    /// Emits a conditional jump whose target is connected later.
    pub fn push_jump_if_not(&mut self) -> (jump: Jump)
        requires
            old(self)@.bytecode.len() < u32::MAX,
        ensures
            final(self)@ == old(self)@.emit(wide_instruction(Opcode::JumpIfNot, 0)),
            jump.offset == old(self)@.bytecode.len() + 1,
    {
        let offset = (self.bytecode.len() + 1) as u32;
        self.emit_wide(Opcode::JumpIfNot, 0);
        Jump { offset }
    }

    /// The place behind the code emitted so far, as a target for jumps.
    pub fn create_jump_target(&mut self) -> (target: JumpTarget)
        requires
            old(self)@.bytecode.len() <= u32::MAX,
        ensures
            final(self)@ == old(self)@,
            target.offset == old(self)@.bytecode.len(),
    {
        JumpTarget { offset: self.bytecode.len() as u32 }
    }

    /// Writes `target` into the operand of `jump`.
    pub fn connect_jump(&mut self, jump: Jump, target: &JumpTarget)
        requires
            jump.offset + 4 <= old(self)@.bytecode.len(),
        ensures
            final(self)@ == old(self)@.connect(jump, *target),
    {
        write_u32(&mut self.bytecode, jump.offset as usize, target.offset);
    }

    /// Ends the compilation of the function: the compiled function, and
    /// the builder of the enclosing function, if there is one.
    pub fn build(self) -> (built: (Func, Option<FuncBuilder>))
        requires
            1 + self@.param_count <= self@.scope.len(),
        ensures
            built.0@ == self@.built(),
            match built.1 {
                Some(outer) => self@.outer == Some(Box::new(outer@)),
                None => self@.outer is None,
            },
    {
        let mut param_names: Vec<Symbol> = Vec::new();
        let mut i: usize = 1;
        let count = self.param_count as usize;
        while i <= count
            invariant
                1 <= i <= count + 1,
                count < self.scope.len(),
                param_names@ == self.scope@.subrange(1, i as int),
            decreases count + 1 - i,
        {
            param_names.push(self.scope[i]);
            i += 1;
            assert(param_names@ =~= self.scope@.subrange(1, i as int));
        }
        let func = Func {
            bytecode: self.bytecode,
            param_count: self.param_count,
            closure_scope: self.closure_scope,
            param_names,
        };
        let outer = match self.outer {
            Some(outer) => Some(*outer),
            None => None,
        };
        (func, outer)
    }
}

/// The skeleton of a builder starts with the builder itself; the skeleton
/// of its enclosing builders follows.
pub proof fn lemma_skeleton(builder: BuilderView)
    ensures
        builder.skeleton().len() == 1 + builder.outer_skeleton().len(),
        builder.skeleton()[0] == (builder.bytecode, builder.param_count, builder.scope),
        builder.skeleton().drop_first() == builder.outer_skeleton(),
        builder.outer is Some <==> builder.outer_skeleton().len() > 0,
{
    assert(builder.skeleton().drop_first() =~= builder.outer_skeleton());
    match builder.outer {
        None => {},
        Some(outer) => {
            assert(outer.skeleton().len() > 0);
        },
    }
}

/// A cursor over bytecode.
pub struct Reader<'a> {
    pub bytecode: &'a Vec<u8>,
    pub offset: usize,
}

impl<'a> Reader<'a> {
    /// The next `n` bytes; the cursor moves behind them.
    pub fn take_bytes(&mut self, n: usize) -> (bytes: &'a [u8])
        requires
            old(self).offset + n <= old(self).bytecode@.len(),
        ensures
            bytes@ == old(self).bytecode@.subrange(
                old(self).offset as int,
                old(self).offset + n,
            ),
            final(self).offset == old(self).offset + n,
            final(self).bytecode == old(self).bytecode,
    {
        let code: &'a Vec<u8> = self.bytecode;
        assert(code@.len() == code.len());
        let bytes = vstd::slice::slice_subrange(code.as_slice(), self.offset, self.offset + n);
        self.offset += n;
        bytes
    }
}

/// One line of a disassembly listing: the offset of an instruction, its
/// opcode, and its operand as a number (0 where the opcode has none).
#[derive(Debug, Clone, Copy)]
pub struct Line {
    pub offset: usize,
    pub opcode: Opcode,
    pub operand: u64,
}

/// The bytes of an operand of `width` bytes that stands for `operand`.
pub open spec fn operand_bytes(width: nat, operand: u64) -> Seq<u8> {
    if width == 1 {
        seq![operand as u8]
    } else if width == 4 {
        u32_be(operand as u32)
    } else if width == 8 {
        u64_be(operand)
    } else {
        Seq::empty()
    }
}

/// The bytes of the instruction that a line shows.
pub open spec fn encoded(line: Line) -> Seq<u8> {
    seq![line.opcode.byte()] + operand_bytes(line.opcode.operand_width(), line.operand)
}

/// The bytecode that a listing shows: the instructions of its lines, one
/// after the other.
pub open spec fn assembled(lines: Seq<Line>) -> Seq<u8>
    decreases lines.len(),
{
    if lines.len() == 0 {
        Seq::empty()
    } else {
        assembled(lines.drop_last()) + encoded(lines.last())
    }
}

/// The listing of `code` from offset `pc` on: one line for each
/// instruction; `None` if the code from there on is no sequence of whole
/// instructions.
pub open spec fn listing_from(code: Seq<u8>, pc: int) -> Option<Seq<Line>>
    decreases code.len() - pc,
{
    if pc < 0 || pc >= code.len() {
        Some(Seq::empty())
    } else {
        match decode_at(code, pc) {
            None => None,
            Some(instruction) => match listing_from(code, instruction.next as int) {
                None => None,
                Some(rest) => Some(
                    seq![
                        Line {
                            offset: pc as usize,
                            opcode: instruction.opcode,
                            operand: instruction.operand,
                        },
                    ] + rest,
                ),
            },
        }
    }
}

/// The listing of `code`.
pub open spec fn listing(code: Seq<u8>) -> Option<Seq<Line>> {
    listing_from(code, 0)
}

/// A compiled function, ready to be listed.
#[derive(Clone, Copy)]
pub struct DispFunc<'a> {
    pub symbols: &'a Symbols,
    pub func: &'a Func,
}

impl<'a> DispFunc<'a> {
    pub fn new(func: &'a Func, symbols: &'a Symbols) -> (disp: DispFunc<'a>)
        ensures
            disp.func == func,
            disp.symbols == symbols,
    {
        DispFunc { func, symbols }
    }

    /// The disassembly of the function: a line for each instruction of its
    /// bytecode, in order; `None` if the bytecode is no sequence of whole
    /// instructions.
    pub fn lines(&self) -> (lines: Option<Vec<Line>>)
        ensures
            match listing(self.func.bytecode@) {
                Some(listed) => lines matches Some(l) && l@ == listed,
                None => lines is None,
            },
    {
        let code = &self.func.bytecode;
        let mut lines: Vec<Line> = Vec::new();
        let mut pc: usize = 0;
        while pc < code.len()
            invariant
                pc <= code@.len(),
                code == &self.func.bytecode,
                listing(code@) == match listing_from(code@, pc as int) {
                    Some(rest) => Some(lines@ + rest),
                    None => None,
                },
            decreases code@.len() - pc,
        {
            match decode(code, pc) {
                None => {
                    return None;
                },
                Some(instruction) => {
                    let ghost before = lines@;
                    let line = Line {
                        offset: pc,
                        opcode: instruction.opcode,
                        operand: instruction.operand,
                    };
                    lines.push(line);
                    proof {
                        match listing_from(code@, instruction.next as int) {
                            Some(rest) => {
                                assert(before + (seq![line] + rest) =~= lines@ + rest);
                            },
                            None => {},
                        }
                    }
                    pc = instruction.next;
                },
            }
        }
        assert(lines@ + Seq::<Line>::empty() =~= lines@);
        Some(lines)
    }
}

/// The bytecode that a listing shows.
pub fn assemble(lines: &Vec<Line>) -> (code: Vec<u8>)
    ensures
        code@ == assembled(lines@),
{
    let mut code: Vec<u8> = Vec::new();
    let mut i: usize = 0;
    while i < lines.len()
        invariant
            i <= lines@.len(),
            code@ == assembled(lines@.take(i as int)),
        decreases lines@.len() - i,
    {
        let line = lines[i];
        let ghost before = code@;
        code.push(line.opcode.to_byte());
        let width = line.opcode.operand_len();
        if width == 1 {
            code.push(line.operand as u8);
        } else if width == 4 {
            push_u32(&mut code, line.operand as u32);
        } else if width == 8 {
            push_u64(&mut code, line.operand);
        }
        i += 1;
        proof {
            assert(lines@.take(i as int).drop_last() =~= lines@.take(i - 1));
            assert(code@ =~= before + encoded(line));
        }
    }
    assert(lines@.take(lines@.len() as int) =~= lines@);
    code
}

/// A decoded instruction is made of the bytes that its line shows.
pub proof fn lemma_decode_encoded(code: Seq<u8>, pc: int)
    requires
        decode_at(code, pc) is Some,
    ensures
        ({
            let instruction = decode_at(code, pc)->0;
            let line = Line {
                offset: pc as usize,
                opcode: instruction.opcode,
                operand: instruction.operand,
            };
            &&& pc < instruction.next <= code.len()
            &&& instruction.next == pc + encoded(line).len()
            &&& code.subrange(pc, instruction.next as int) == encoded(line)
        }),
{
    let instruction = decode_at(code, pc)->0;
    let line = Line { offset: pc as usize, opcode: instruction.opcode, operand: instruction.operand };
    let width = instruction.opcode.operand_width();
    let bytes = code.subrange(pc + 1, pc + 1 + width);
    if width == 4 {
        lemma_be_u32_round_trip(bytes);
    } else if width == 8 {
        lemma_be_u64_round_trip(bytes);
    }
    assert(operand_bytes(width, instruction.operand) =~= bytes);
    assert(code.subrange(pc, instruction.next as int) =~= encoded(line));
}

/// A listing shows all of the code: put together again, its lines are the
/// code from `pc` on.
pub proof fn lemma_listing_assembles(code: Seq<u8>, pc: int)
    requires
        0 <= pc <= code.len(),
        listing_from(code, pc) is Some,
    ensures
        assembled(listing_from(code, pc)->0) == code.subrange(pc, code.len() as int),
    decreases code.len() - pc,
{
    if pc < code.len() {
        lemma_decode_encoded(code, pc);
        let instruction = decode_at(code, pc)->0;
        let line = Line {
            offset: pc as usize,
            opcode: instruction.opcode,
            operand: instruction.operand,
        };
        let rest = listing_from(code, instruction.next as int)->0;
        lemma_listing_assembles(code, instruction.next as int);
        lemma_assembled_concat(seq![line], rest);
        lemma_assembled_one(line);
        assert(code.subrange(pc, code.len() as int) =~= code.subrange(pc, instruction.next as int)
            + code.subrange(instruction.next as int, code.len() as int));
    } else {
        assert(code.subrange(pc, code.len() as int) =~= Seq::<u8>::empty());
    }
}

/// The bytecode of a listing of one line is the instruction of that line.
pub proof fn lemma_assembled_one(line: Line)
    ensures
        assembled(seq![line]) == encoded(line),
{
    let one = seq![line];
    assert(one.drop_last() =~= Seq::<Line>::empty());
    assert(assembled(one.drop_last()) =~= Seq::<u8>::empty());
    assert(assembled(one) =~= encoded(line));
}

/// The bytecode of two listings in a row is the bytecode of the first
/// followed by that of the second.
pub proof fn lemma_assembled_concat(first: Seq<Line>, second: Seq<Line>)
    ensures
        assembled(first + second) == assembled(first) + assembled(second),
    decreases second.len(),
{
    if second.len() == 0 {
        assert(first + second =~= first);
        assert(assembled(first) + assembled(second) =~= assembled(first));
    } else {
        lemma_assembled_concat(first, second.drop_last());
        assert((first + second).drop_last() =~= first + second.drop_last());
        assert(assembled(first + second) =~= assembled(first) + assembled(second));
    }
}

/// Disassembly loses nothing: the lines of the listing of a bytecode, put
/// together again, are that bytecode, byte for byte; the first line
/// stands at offset 0 and each further line where the line before it
/// ends.
pub proof fn lemma_disassembly_round_trip(code: Seq<u8>)
    requires
        listing(code) is Some,
    ensures
        assembled(listing(code)->0) == code,
{
    lemma_listing_assembles(code, 0);
    assert(code.subrange(0, code.len() as int) =~= code);
}

/// Each line of a listing stands at the offset at which the code before
/// it, put together from the lines before it, ends.
pub proof fn lemma_listing_offsets(code: Seq<u8>, pc: int, index: int)
    requires
        0 <= pc <= code.len(),
        listing_from(code, pc) is Some,
        0 <= index < listing_from(code, pc)->0.len(),
    ensures
        listing_from(code, pc)->0[index].offset == pc + assembled(
            listing_from(code, pc)->0.take(index),
        ).len(),
    decreases index,
{
    let lines = listing_from(code, pc)->0;
    lemma_decode_encoded(code, pc);
    let instruction = decode_at(code, pc)->0;
    let rest = listing_from(code, instruction.next as int)->0;
    if index == 0 {
        assert(lines.take(0) =~= Seq::<Line>::empty());
    } else {
        lemma_listing_offsets(code, instruction.next as int, index - 1);
        assert(lines[index] == rest[index - 1]);
        assert(lines.take(index) =~= seq![lines[0]] + rest.take(index - 1));
        lemma_assembled_concat(seq![lines[0]], rest.take(index - 1));
        lemma_assembled_one(lines[0]);
    }
}

} // verus!
