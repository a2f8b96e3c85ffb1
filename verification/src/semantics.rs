//! What the virtual machine does, as a mathematical function: the state of
//! the machine and the step it takes from each state.

use vstd::prelude::*;
use crate::bytes::i64_of_bits;
use crate::func::{decode_at, ClosureValue, Func};
use crate::heap::{HeapPtr, HeapSlice, HeapView};
use crate::list::List;
use crate::opcode::Opcode;
use crate::value::{Closure, ClosureValueRef, RustValue, Value};

verus! {

/// A call frame: the offset of the next instruction, the stack index of the
/// frame's return slot, and the closure that runs.
#[derive(Debug, Clone, Copy)]
pub struct Call {
    pub pc: usize,
    pub frame: usize,
    pub closure: HeapPtr,
}

/// Why the machine stops for good.
#[derive(Debug, Clone, Copy, PartialEq, Eq, Structural)]
pub enum RuntimeError {
    /// A call passes another number of arguments than the callee takes.
    ArityMismatch,
    /// An operand of an arithmetic operation, of an ordered comparison or
    /// of a conditional jump has the wrong type.
    TypeMismatch,
    /// The callee of a call is no closure.
    NotCallable,
    /// A property is read of a value that is no extension value.
    NotAnExtension,
    /// The extension value has no property of that name.
    UnknownProperty,
    /// An instruction needs more values than the stack holds.
    StackUnderflow,
    /// The heap is full.
    HeapExhausted,
    /// The opcode is reserved and has no implementation.
    Unimplemented,
    /// An integer is divided by zero.
    DivisionByZero,
    /// The quotient of two integers does not fit an integer.
    ArithmeticOverflow,
    /// A function returns although no call is open.
    ReturnOutsideCall,
    /// The bytecode is broken: no instruction at the program counter, or an
    /// operand that names no function, no local or no capture.
    InvalidCode,
}

/// What a step asks of the host.
#[derive(Debug, Clone, Copy)]
pub enum Event {
    /// Nothing: the machine can take its next step.
    Continue,
    /// The host prints the value.
    Print(Value),
    /// The host computes `lhs op rhs`, where at least one operand is a
    /// float, and hands the result back: a float for an arithmetic
    /// operation, a boolean for a comparison.
    FloatOp { op: Opcode, lhs: Value, rhs: Value },
    /// The program has run to its end.
    Finished,
}

/// The state of the machine.
pub struct Machine {
    /// The frame that runs.
    pub call: Call,
    /// The data stack, bottom first.
    pub stack: Seq<Value>,
    /// The frames of the callers, outermost first.
    pub frames: Seq<Call>,
    /// The heap.
    pub heap: HeapView,
    /// Whether the program has run to its end.
    pub finished: bool,
}

/// Some upvalue cell is open on stack slot `slot`.
pub open spec fn has_open(cells: Seq<ClosureValueRef>, slot: int) -> bool {
    exists|i: int| 0 <= i < cells.len() && #[trigger] cells[i] == ClosureValueRef::Stack(
        slot as usize,
    )
}

/// The cells after every cell that was open on `slot` was closed onto the
/// value cell `target`.
pub open spec fn close_cells(cells: Seq<ClosureValueRef>, slot: int, target: HeapPtr) -> Seq<
    ClosureValueRef,
> {
    Seq::new(
        cells.len(),
        |i: int|
            if cells[i] == ClosureValueRef::Stack(slot as usize) {
                ClosureValueRef::Heap(target)
            } else {
                cells[i]
            },
    )
}

/// The operations on two numbers that yield a number.
pub open spec fn is_arithmetic(op: Opcode) -> bool {
    op is Add || op is Subtract || op is Multiply || op is Divide || op is Modulus
}

/// The ordered comparisons.
pub open spec fn is_ordering(op: Opcode) -> bool {
    op is Less || op is Greater || op is LessOrEqual || op is GreaterOrEqual
}

/// What an arithmetic operation yields on two integers: sums, differences
/// and products wrap around; quotient and remainder truncate towards zero.
pub open spec fn int_arithmetic(op: Opcode, lhs: i64, rhs: i64) -> Result<i64, RuntimeError>
    recommends
        is_arithmetic(op),
{
    match op {
        Opcode::Add => Ok(lhs.wrapping_add(rhs)),
        Opcode::Subtract => Ok(lhs.wrapping_sub(rhs)),
        Opcode::Multiply => Ok(lhs.wrapping_mul(rhs)),
        Opcode::Divide => if rhs == 0 {
            Err(RuntimeError::DivisionByZero)
        } else {
            match lhs.checked_div(rhs) {
                Some(quotient) => Ok(quotient),
                None => Err(RuntimeError::ArithmeticOverflow),
            }
        },
        _ => if rhs == 0 {
            Err(RuntimeError::DivisionByZero)
        } else {
            match lhs.checked_rem(rhs) {
                Some(remainder) => Ok(remainder),
                None => Err(RuntimeError::ArithmeticOverflow),
            }
        },
    }
}

/// What an ordered comparison yields on two integers.
pub open spec fn int_ordering(op: Opcode, lhs: i64, rhs: i64) -> bool
    recommends
        is_ordering(op),
{
    match op {
        Opcode::Less => lhs < rhs,
        Opcode::Greater => lhs > rhs,
        Opcode::LessOrEqual => lhs <= rhs,
        _ => lhs >= rhs,
    }
}

impl HeapView {
    /// The handle in `value`, if it holds one, points into this heap.
    pub open spec fn valid_value(self, value: Value) -> bool {
        match value {
            Value::Closure(ptr) => ptr.index < self.closures.len(),
            Value::RustValue(ptr) => ptr.index < self.objects.len(),
            _ => true,
        }
    }

    /// The handle points to an upvalue cell of this heap.
    pub open spec fn valid_cell_handle(self, ptr: HeapPtr) -> bool {
        ptr.index < self.cells.len()
    }

    /// The upvalue vector of the closure lies inside this heap.
    pub open spec fn valid_closure(self, closure: Closure) -> bool {
        closure.closure_values.within(self.captures.len())
    }

    /// The frame runs a closure of this heap.
    pub open spec fn valid_call(self, call: Call) -> bool {
        call.closure.index < self.closures.len()
    }

    /// The extension object lies inside this heap.
    pub open spec fn valid_object(self, object: RustValue) -> bool {
        match object {
            RustValue::List(list) => list.slice.within(self.values.len()) && list.slice.length
                <= u32::MAX,
        }
    }

    /// Every arena, and the capacity, fits the index type of the machine.
    pub open spec fn fits(self) -> bool {
        &&& self.closures.len() <= usize::MAX
        &&& self.captures.len() <= usize::MAX
        &&& self.cells.len() <= usize::MAX
        &&& self.values.len() <= usize::MAX
        &&& self.objects.len() <= usize::MAX
        &&& self.capacity <= usize::MAX
    }

    /// Every handle that a record of this heap holds points to a record of
    /// this heap. (Of an open upvalue cell this says nothing: its stack
    /// slot is the machine's affair.)
    pub open spec fn closed_under_handles(self) -> bool {
        &&& forall|i: int| 0 <= i < self.values.len() ==> self.valid_value(#[trigger] self.values[i])
        &&& forall|i: int|
            0 <= i < self.cells.len() ==> (#[trigger] self.cells[i] matches ClosureValueRef::Heap(
                ptr,
            ) ==> ptr.index < self.values.len())
        &&& forall|i: int|
            0 <= i < self.captures.len() ==> self.valid_cell_handle(#[trigger] self.captures[i])
        &&& forall|i: int|
            0 <= i < self.closures.len() ==> self.valid_closure(#[trigger] self.closures[i])
        &&& forall|i: int|
            0 <= i < self.objects.len() ==> self.valid_object(#[trigger] self.objects[i])
    }
}

impl Machine {
    /// No handle of the machine dangles: every value on the stack and every
    /// record of the heap points to records of the heap, every open upvalue
    /// cell to a live stack slot, and every frame to a closure (the running
    /// frame of a finished machine excepted, which runs nothing).
    pub open spec fn valid(self) -> bool {
        &&& self.heap.fits()
        &&& self.stack.len() <= usize::MAX
        &&& self.heap.closed_under_handles()
        &&& forall|i: int|
            0 <= i < self.stack.len() ==> self.heap.valid_value(#[trigger] self.stack[i])
        &&& forall|i: int|
            0 <= i < self.heap.cells.len() ==> (
            #[trigger] self.heap.cells[i] matches ClosureValueRef::Stack(slot) ==> slot
                < self.stack.len())
        &&& self.finished || self.heap.valid_call(self.call)
        &&& forall|i: int| 0 <= i < self.frames.len() ==> self.heap.valid_call(#[trigger] self.frames[i])
    }

    /// The machine with the program counter of the running frame at `pc`.
    pub open spec fn at(self, pc: usize) -> Machine {
        Machine { call: Call { pc, ..self.call }, ..self }
    }

    /// The machine with `value` pushed.
    pub open spec fn push(self, value: Value) -> Machine {
        Machine { stack: self.stack.push(value), ..self }
    }

    /// Pops the top of the stack. If upvalue cells are open on that slot,
    /// its value first moves into a new value cell of the heap and those
    /// cells are closed onto it.
    pub open spec fn pop(self) -> Result<(Machine, Value), RuntimeError> {
        if self.stack.len() == 0 {
            Err(RuntimeError::StackUnderflow)
        } else {
            let top = self.stack.len() - 1;
            let value = self.stack[top];
            if !has_open(self.heap.cells, top) {
                Ok((Machine { stack: self.stack.drop_last(), ..self }, value))
            } else if !self.heap.has_room(1) {
                Err(RuntimeError::HeapExhausted)
            } else {
                let target = HeapPtr { index: self.heap.values.len() as usize };
                Ok(
                    (
                        Machine {
                            stack: self.stack.drop_last(),
                            heap: HeapView {
                                cells: close_cells(self.heap.cells, top, target),
                                values: self.heap.values.push(value),
                                ..self.heap
                            },
                            ..self
                        },
                        value,
                    ),
                )
            }
        }
    }

    /// Pops the top `n` slots, top first.
    pub open spec fn drop_n(self, n: nat) -> Result<Machine, RuntimeError>
        decreases n,
    {
        if n == 0 {
            Ok(self)
        } else {
            match self.pop() {
                Err(error) => Err(error),
                Ok((next, _)) => next.drop_n((n - 1) as nat),
            }
        }
    }

    /// The closure record of the running frame.
    pub open spec fn closure(self) -> Closure {
        self.heap.closures[self.call.closure.index as int]
    }

    /// The handle of the upvalue cell at `index` of the running closure.
    pub open spec fn upvalue(self, index: int) -> Option<HeapPtr> {
        let slice = self.closure().closure_values;
        if 0 <= index < slice.length {
            Some(self.heap.captures[slice.start + index])
        } else {
            None
        }
    }

    /// The value of the captured variable behind the upvalue cell `cell`:
    /// the stack slot while the cell is open, the value cell once closed.
    pub open spec fn read_cell(self, cell: HeapPtr) -> Value {
        match self.heap.cells[cell.index as int] {
            ClosureValueRef::Stack(slot) => self.stack[slot as int],
            ClosureValueRef::Heap(ptr) => self.heap.values[ptr.index as int],
        }
    }

    /// The machine after `value` was stored into the captured variable
    /// behind the upvalue cell `cell`.
    pub open spec fn write_cell(self, cell: HeapPtr, value: Value) -> Machine {
        match self.heap.cells[cell.index as int] {
            ClosureValueRef::Stack(slot) => Machine {
                stack: self.stack.update(slot as int, value),
                ..self
            },
            ClosureValueRef::Heap(ptr) => Machine {
                heap: self.heap.set_value(ptr.index as int, value),
                ..self
            },
        }
    }

    /// What `lhs op rhs` does once both operands are popped.
    pub open spec fn apply_binary(self, op: Opcode, lhs: Value, rhs: Value) -> Result<
        (Machine, Event),
        RuntimeError,
    > {
        if op is Equal || op is NotEqual {
            if lhs is Float && rhs is Float {
                Ok((self, Event::FloatOp { op, lhs, rhs }))
            } else {
                Ok((self.push(Value::Bool(lhs.same(rhs) == (op is Equal))), Event::Continue))
            }
        } else {
            match (lhs, rhs) {
                (Value::Int(a), Value::Int(b)) => if is_ordering(op) {
                    Ok((self.push(Value::Bool(int_ordering(op, a, b))), Event::Continue))
                } else {
                    match int_arithmetic(op, a, b) {
                        Ok(result) => Ok((self.push(Value::Int(result)), Event::Continue)),
                        Err(error) => Err(error),
                    }
                },
                _ => if lhs.is_number() && rhs.is_number() {
                    Ok((self, Event::FloatOp { op, lhs, rhs }))
                } else {
                    Err(RuntimeError::TypeMismatch)
                },
            }
        }
    }

    /// A binary operation: pops the right operand, then the left one.
    pub open spec fn binary(self, op: Opcode) -> Result<(Machine, Event), RuntimeError> {
        match self.pop() {
            Err(error) => Err(error),
            Ok((first, rhs)) => match first.pop() {
                Err(error) => Err(error),
                Ok((second, lhs)) => second.apply_binary(op, lhs, rhs),
            },
        }
    }

    /// `PushLoad`: pushes a copy of the local in `slot`.
    pub open spec fn load(self, slot: int) -> Result<(Machine, Event), RuntimeError> {
        let index = self.call.frame + slot;
        if index >= self.stack.len() {
            Err(RuntimeError::InvalidCode)
        } else {
            Ok((self.push(self.stack[index]), Event::Continue))
        }
    }

    /// `PopStore`: pops a value into the local in `slot`.
    pub open spec fn store(self, slot: int) -> Result<(Machine, Event), RuntimeError> {
        match self.pop() {
            Err(error) => Err(error),
            Ok((next, value)) => {
                let index = next.call.frame + slot;
                if index >= next.stack.len() {
                    Err(RuntimeError::InvalidCode)
                } else {
                    Ok((Machine { stack: next.stack.update(index, value), ..next }, Event::Continue))
                }
            },
        }
    }

    /// `PushClosureLoad`: pushes the value of the captured variable at
    /// `index`.
    pub open spec fn closure_load(self, index: int) -> Result<(Machine, Event), RuntimeError> {
        match self.upvalue(index) {
            None => Err(RuntimeError::InvalidCode),
            Some(cell) => Ok((self.push(self.read_cell(cell)), Event::Continue)),
        }
    }

    /// `PopClosureStore`: pops a value into the captured variable at
    /// `index`.
    pub open spec fn closure_store(self, index: int) -> Result<(Machine, Event), RuntimeError> {
        match self.pop() {
            Err(error) => Err(error),
            Ok((next, value)) => match next.upvalue(index) {
                None => Err(RuntimeError::InvalidCode),
                Some(cell) => Ok((next.write_cell(cell, value), Event::Continue)),
            },
        }
    }

    /// `PushPropLoad`: pops an extension value and pushes its property
    /// named by the symbol `symbol`.
    pub open spec fn prop_load(self, symbol: int, names: Seq<Seq<char>>) -> Result<
        (Machine, Event),
        RuntimeError,
    > {
        match self.pop() {
            Err(error) => Err(error),
            Ok((next, value)) => match value {
                Value::RustValue(ptr) => match next.heap.objects[ptr.index as int].property(
                    symbol,
                    names,
                ) {
                    Some(property) => Ok((next.push(property), Event::Continue)),
                    None => Err(RuntimeError::UnknownProperty),
                },
                _ => Err(RuntimeError::NotAnExtension),
            },
        }
    }

    /// Resolves one capture descriptor in the running frame: a capture of
    /// the running closure is shared by handle; a local of the running
    /// frame gets a new open cell on its stack slot.
    pub open spec fn capture(self, descriptor: ClosureValue) -> Result<
        (Machine, HeapPtr),
        RuntimeError,
    > {
        match descriptor {
            ClosureValue::Outer(index) => match self.upvalue(index as int) {
                Some(cell) => Ok((self, cell)),
                None => Err(RuntimeError::InvalidCode),
            },
            ClosureValue::Stack(slot) => {
                let index = self.call.frame + slot;
                if index >= self.stack.len() {
                    Err(RuntimeError::InvalidCode)
                } else if !self.heap.has_room(1) {
                    Err(RuntimeError::HeapExhausted)
                } else {
                    Ok(
                        (
                            Machine {
                                heap: self.heap.push_cell(ClosureValueRef::Stack(index as usize)),
                                ..self
                            },
                            HeapPtr { index: self.heap.cells.len() as usize },
                        ),
                    )
                }
            },
        }
    }

    /// Resolves the descriptors from index `from` on, in order, and appends
    /// their cells to `cells`.
    pub open spec fn capture_from(
        self,
        descriptors: Seq<ClosureValue>,
        from: int,
        cells: Seq<HeapPtr>,
    ) -> Result<(Machine, Seq<HeapPtr>), RuntimeError>
        decreases descriptors.len() - from,
    {
        if from < 0 || from >= descriptors.len() {
            Ok((self, cells))
        } else {
            match self.capture(descriptors[from]) {
                Err(error) => Err(error),
                Ok((next, cell)) => next.capture_from(descriptors, from + 1, cells.push(cell)),
            }
        }
    }

    /// `PushFunc`: makes a closure of function `index` in the running
    /// frame and pushes it.
    pub open spec fn push_func(self, index: int, funcs: Seq<Func>) -> Result<
        (Machine, Event),
        RuntimeError,
    > {
        if index >= funcs.len() {
            Err(RuntimeError::InvalidCode)
        } else {
            match self.capture_from(funcs[index].closure_scope@, 0, Seq::empty()) {
                Err(error) => Err(error),
                Ok((next, cells)) => if !next.heap.has_room(cells.len() + 1) {
                    Err(RuntimeError::HeapExhausted)
                } else {
                    Ok(
                        (
                            Machine {
                                heap: next.heap.push_closure(index as usize, cells),
                                stack: next.stack.push(
                                    Value::Closure(
                                        HeapPtr { index: next.heap.closures.len() as usize },
                                    ),
                                ),
                                ..next
                            },
                            Event::Continue,
                        ),
                    )
                },
            }
        }
    }

    /// `PushList`: moves the top `length` values into a new list, the one
    /// pushed last as its last element, and pushes the list.
    pub open spec fn push_list(self, length: int) -> Result<(Machine, Event), RuntimeError> {
        if length > self.stack.len() {
            Err(RuntimeError::StackUnderflow)
        } else if !self.heap.has_room(length as nat) {
            Err(RuntimeError::HeapExhausted)
        } else {
            let list = List {
                slice: HeapSlice {
                    start: self.heap.values.len() as usize,
                    length: length as usize,
                },
            };
            let filled = Machine {
                heap: HeapView {
                    values: self.heap.values + self.stack.skip(self.stack.len() - length),
                    ..self.heap
                },
                ..self
            };
            match filled.drop_n(length as nat) {
                Err(error) => Err(error),
                Ok(next) => if !next.heap.has_room(1) {
                    Err(RuntimeError::HeapExhausted)
                } else {
                    Ok(
                        (
                            Machine {
                                heap: next.heap.push_object(RustValue::List(list)),
                                stack: next.stack.push(
                                    Value::RustValue(
                                        HeapPtr { index: next.heap.objects.len() as usize },
                                    ),
                                ),
                                ..next
                            },
                            Event::Continue,
                        ),
                    )
                },
            }
        }
    }

    /// `Call`: pops the callee and opens a frame on the `argc` arguments
    /// and the return slot below them.
    pub open spec fn enter(self, argc: int, funcs: Seq<Func>) -> Result<
        (Machine, Event),
        RuntimeError,
    > {
        match self.pop() {
            Err(error) => Err(error),
            Ok((next, callee)) => match callee {
                Value::Closure(ptr) => {
                    let func_id = next.heap.closures[ptr.index as int].func_id;
                    if func_id >= funcs.len() {
                        Err(RuntimeError::InvalidCode)
                    } else if funcs[func_id as int].param_count != argc {
                        Err(RuntimeError::ArityMismatch)
                    } else if next.stack.len() < argc + 1 {
                        Err(RuntimeError::StackUnderflow)
                    } else {
                        Ok(
                            (
                                Machine {
                                    frames: next.frames.push(next.call),
                                    call: Call {
                                        pc: 0,
                                        frame: (next.stack.len() - argc - 1) as usize,
                                        closure: ptr,
                                    },
                                    ..next
                                },
                                Event::Continue,
                            ),
                        )
                    }
                },
                _ => Err(RuntimeError::NotCallable),
            },
        }
    }

    /// `Return`: pops as many slots as the running function has
    /// parameters, then resumes the caller.
    pub open spec fn leave(self, funcs: Seq<Func>) -> Result<(Machine, Event), RuntimeError> {
        let func_id = self.closure().func_id;
        if func_id >= funcs.len() {
            Err(RuntimeError::InvalidCode)
        } else {
            match self.drop_n(funcs[func_id as int].param_count as nat) {
                Err(error) => Err(error),
                Ok(next) => if next.frames.len() == 0 {
                    Err(RuntimeError::ReturnOutsideCall)
                } else {
                    Ok(
                        (
                            Machine {
                                call: next.frames.last(),
                                frames: next.frames.drop_last(),
                                ..next
                            },
                            Event::Continue,
                        ),
                    )
                },
            }
        }
    }

    /// `JumpIfNot`: pops a boolean and jumps to `target` if it is false.
    pub open spec fn jump_if_not(self, target: usize) -> Result<(Machine, Event), RuntimeError> {
        match self.pop() {
            Err(error) => Err(error),
            Ok((next, value)) => match value {
                Value::Bool(condition) => if condition {
                    Ok((next, Event::Continue))
                } else {
                    Ok((next.at(target), Event::Continue))
                },
                _ => Err(RuntimeError::TypeMismatch),
            },
        }
    }

    /// What the instruction `opcode operand` does to a machine whose
    /// program counter already stands behind it.
    pub open spec fn execute(
        self,
        opcode: Opcode,
        operand: u64,
        funcs: Seq<Func>,
        names: Seq<Seq<char>>,
    ) -> Result<(Machine, Event), RuntimeError> {
        match opcode {
            Opcode::PushInt => Ok((self.push(Value::Int(i64_of_bits(operand))), Event::Continue)),
            Opcode::PushFloat => Ok((self.push(Value::Float(operand)), Event::Continue)),
            Opcode::PushTrue => Ok((self.push(Value::Bool(true)), Event::Continue)),
            Opcode::PushFalse => Ok((self.push(Value::Bool(false)), Event::Continue)),
            Opcode::PushNone => Ok((self.push(Value::Nil), Event::Continue)),
            Opcode::PushFunc => self.push_func(operand as int, funcs),
            Opcode::PushLoad => self.load(operand as int),
            Opcode::PushClosureLoad => self.closure_load(operand as int),
            Opcode::PushList => self.push_list(operand as int),
            Opcode::PushPropLoad => self.prop_load(operand as int, names),
            Opcode::PopStore => self.store(operand as int),
            Opcode::PopPrint => match self.pop() {
                Err(error) => Err(error),
                Ok((next, value)) => Ok((next, Event::Print(value))),
            },
            Opcode::PopPropStore => Err(RuntimeError::Unimplemented),
            Opcode::PopClosureStore => self.closure_store(operand as int),
            Opcode::Jump => Ok((self.at(operand as usize), Event::Continue)),
            Opcode::JumpIfNot => self.jump_if_not(operand as usize),
            Opcode::Drop => match self.drop_n(operand as nat) {
                Err(error) => Err(error),
                Ok(next) => Ok((next, Event::Continue)),
            },
            Opcode::Call => self.enter(operand as int, funcs),
            Opcode::Return => self.leave(funcs),
            Opcode::Finish => Ok((Machine { finished: true, ..self }, Event::Finished)),
            _ => self.binary(opcode),
        }
    }

    /// The machine made ready to run the function `entry` from its first
    /// instruction, as the top level: in a frame at the bottom of the
    /// stack, with no caller. The entry function captures nothing.
    pub open spec fn start(self, entry: int, funcs: Seq<Func>) -> Result<Machine, RuntimeError> {
        if entry < 0 || entry >= funcs.len() || funcs[entry].closure_scope@.len() != 0 {
            Err(RuntimeError::InvalidCode)
        } else if !self.heap.has_room(1) {
            Err(RuntimeError::HeapExhausted)
        } else {
            Ok(
                Machine {
                    call: Call {
                        pc: 0,
                        frame: 0,
                        closure: HeapPtr { index: self.heap.closures.len() as usize },
                    },
                    frames: Seq::empty(),
                    heap: self.heap.push_closure(entry as usize, Seq::empty()),
                    finished: false,
                    ..self
                },
            )
        }
    }

    /// Up to `budget` steps: the machine runs on while its steps ask
    /// nothing of the host, and stops at the first event that does, at the
    /// first error, or when the budget is spent (with `Continue`).
    pub open spec fn run(self, funcs: Seq<Func>, names: Seq<Seq<char>>, budget: nat) -> Result<
        (Machine, Event),
        RuntimeError,
    >
        decreases budget,
    {
        if budget == 0 {
            Ok((self, Event::Continue))
        } else {
            match self.step(funcs, names) {
                Err(error) => Err(error),
                Ok((next, event)) => if event is Continue {
                    next.run(funcs, names, (budget - 1) as nat)
                } else {
                    Ok((next, event))
                },
            }
        }
    }

    /// One step of the machine over the functions `funcs` and the symbol
    /// names `names`: the new state and what the host has to do, or the
    /// error that ends the run. A finished machine stays as it is.
    pub open spec fn step(self, funcs: Seq<Func>, names: Seq<Seq<char>>) -> Result<
        (Machine, Event),
        RuntimeError,
    > {
        if self.finished {
            Ok((self, Event::Finished))
        } else {
            let func_id = self.closure().func_id;
            if func_id >= funcs.len() {
                Err(RuntimeError::InvalidCode)
            } else {
                match decode_at(funcs[func_id as int].bytecode@, self.call.pc as int) {
                    None => Err(RuntimeError::InvalidCode),
                    Some(instruction) => self.at(instruction.next).execute(
                        instruction.opcode,
                        instruction.operand,
                        funcs,
                        names,
                    ),
                }
            }
        }
    }
}

} // verus!
