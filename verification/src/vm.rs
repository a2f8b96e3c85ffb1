//! The virtual machine: executes bytecode one instruction at a time.

use std::collections::HashMap;
use vstd::prelude::*;
use vstd::std_specs::hash::group_hash_axioms;
use crate::func::{decode, ClosureValue};
use crate::heap::{Heap, HeapPtr, HeapView};
use crate::list::List;
use crate::opcode::Opcode;
use crate::parser::Program;
use crate::semantics::{close_cells, has_open, Call, Event, Machine, RuntimeError};
use crate::semantics::{int_arithmetic, int_ordering, is_arithmetic, is_ordering};
use crate::soundness::{
    lemma_binary_valid, lemma_capture_from_valid, lemma_capture_valid,
    lemma_closure_load_valid, lemma_drop_valid, lemma_enter_valid, lemma_leave_valid,
    lemma_load_valid, lemma_operand_fits, lemma_pop_valid, lemma_prop_load_valid,
    lemma_push_func_valid, lemma_push_list_valid, lemma_push_valid, lemma_start_valid,
    lemma_store_valid, lemma_upvalue_valid, lemma_write_cell_valid,
};
use crate::func::Instruction;
use crate::func::decode_at;

use crate::value::{Closure, ClosureValueRef, RustValue, Value};

verus! {

/// The machine: data stack, call stack, heap, and the registry that maps a
/// stack slot to the open upvalue cells on it.
pub struct VirtualMachine {
    call: Call,
    stack: Vec<Value>,
    call_stack: Vec<Call>,
    heap: Heap,
    finished: bool,
    closure_ref_map: HashMap<usize, Vec<HeapPtr>>,
}

/// The cells after those cells open on `slot` whose handles stand in `done`
/// were closed onto `target`.
pub open spec fn close_listed(
    cells: Seq<ClosureValueRef>,
    slot: int,
    target: HeapPtr,
    done: Seq<HeapPtr>,
) -> Seq<ClosureValueRef> {
    Seq::new(
        cells.len(),
        |i: int|
            if cells[i] == ClosureValueRef::Stack(slot as usize) && done.contains(
                HeapPtr { index: i as usize },
            ) {
                ClosureValueRef::Heap(target)
            } else {
                cells[i]
            },
    )
}

impl View for VirtualMachine {
    type V = Machine;

    closed spec fn view(&self) -> Machine {
        Machine {
            call: self.call,
            stack: self.stack@,
            frames: self.call_stack@,
            heap: self.heap@,
            finished: self.finished,
        }
    }
}

impl VirtualMachine {
    /// Every cell that the registry lists under a slot is open on that
    /// slot.
    spec fn registry_sound(&self) -> bool {
        forall|slot: usize, j: int|
            self.closure_ref_map@.contains_key(slot) && 0 <= j < self.closure_ref_map@[slot]@.len()
                ==> {
                let ptr = #[trigger] self.closure_ref_map@[slot]@[j];
                ptr.index < self.heap@.cells.len() && self.heap@.cells[ptr.index as int]
                    == ClosureValueRef::Stack(slot)
            }
    }

    /// Every open cell is listed in the registry under its slot.
    spec fn registry_complete(&self) -> bool {
        forall|i: int|
            0 <= i < self.heap@.cells.len() ==> (
            #[trigger] self.heap@.cells[i] matches ClosureValueRef::Stack(slot)
                ==> self.closure_ref_map@.contains_key(slot) && self.closure_ref_map@[slot]@.contains(
                HeapPtr { index: i as usize },
            ))
    }

    /// The machine is well formed: no handle dangles, and the registry
    /// lists under each stack slot exactly the upvalue cells open on it.
    pub closed spec fn wf(&self) -> bool {
        &&& self@.valid()
        &&& self.registry_sound()
        &&& self.registry_complete()
    }

    /// A well-formed machine has no dangling handle.
    pub proof fn lemma_wf_valid(&self)
        requires
            self.wf(),
        ensures
            self@.valid(),
    {
    }

    /// A machine with an empty heap of the given capacity and a stack that
    /// holds the return slot of the top level. It has nothing to run yet.
    pub fn with_capacity(capacity: usize) -> (vm: VirtualMachine)
        ensures
            vm.wf(),
            vm@.finished,
            vm@.stack == seq![Value::Nil],
            vm@.frames.len() == 0,
            vm@.heap.used() == 0,
            vm@.heap.capacity == capacity,
    {
        let mut stack: Vec<Value> = Vec::new();
        stack.push(Value::Nil);
        let vm = VirtualMachine {
            call: Call { pc: 0, frame: 0, closure: HeapPtr { index: 0 } },
            stack,
            call_stack: Vec::new(),
            heap: Heap::with_capacity(capacity),
            finished: true,
            closure_ref_map: HashMap::new(),
        };
        proof {
            vm.heap.lemma_sizes();
            assert(vm@.stack =~= seq![Value::Nil]);
        }
        vm
    }

    /// A machine whose heap grows as far as the host's memory allows.
    pub fn new() -> (vm: VirtualMachine)
        ensures
            vm.wf(),
            vm@.finished,
            vm@.stack == seq![Value::Nil],
            vm@.frames.len() == 0,
            vm@.heap.used() == 0,
    {
        VirtualMachine::with_capacity(usize::MAX)
    }

    /// Pushes `value`. After a step that asked for a float operation the
    /// host hands the result to the machine this way.
    pub fn push(&mut self, value: Value)
        requires
            old(self).wf(),
            old(self)@.heap.valid_value(value),
        ensures
            final(self).wf(),
            final(self)@ == old(self)@.push(value),
    {
        self.stack.push(value);
        proof {
            assert(self.stack@.len() == self.stack.len());
            lemma_push_valid(old(self)@, value);
        }
    }

    /// Pops the top of the stack; the cells open on that slot are closed
    /// first. On an error the machine is unchanged.
    pub fn pop(&mut self) -> (result: Result<Value, RuntimeError>)
        requires
            old(self).wf(),
        ensures
            final(self).wf(),
            match old(self)@.pop() {
                Ok((next, value)) => result == Ok::<Value, RuntimeError>(value) && final(self)@
                    == next,
                Err(error) => result == Err::<Value, RuntimeError>(error) && final(self)@ == old(
                    self,
                )@,
            },
    {
        broadcast use group_hash_axioms;

        let len = self.stack.len();
        if len == 0 {
            return Err(RuntimeError::StackUnderflow);
        }
        let top = len - 1;
        let ghost cells = self.heap@.cells;
        let listed = match self.closure_ref_map.get(&top) {
            Some(list) => list.len() > 0,
            None => false,
        };
        proof {
            if listed {
                let ptr = self.closure_ref_map@[top]@[0];
                assert(cells[ptr.index as int] == ClosureValueRef::Stack(top));
            }
            if has_open(cells, top as int) {
                let i = choose|i: int|
                    0 <= i < cells.len() && #[trigger] cells[i] == ClosureValueRef::Stack(top);
                assert(self.closure_ref_map@[top]@.contains(HeapPtr { index: i as usize }));
            }
            assert(listed == has_open(cells, top as int));
        }
        if !listed {
            self.closure_ref_map.remove(&top);
            let value = self.stack.pop().unwrap();
            proof {
                assert(self@.stack =~= old(self)@.stack.drop_last());
                assert forall|i: int| 0 <= i < cells.len() implies (
                #[trigger] cells[i] matches ClosureValueRef::Stack(slot) ==> slot < top) by {
                    if cells[i] == ClosureValueRef::Stack(top) {
                        assert(has_open(cells, top as int));
                    }
                }
            }
            return Ok(value);
        }
        if !self.heap.has_room(1) {
            return Err(RuntimeError::HeapExhausted);
        }
        let list = self.closure_ref_map.remove(&top).unwrap();
        let value = self.stack[top];
        let target = self.heap.alloc_value(value).unwrap();
        assert(self.heap@.cells =~= close_listed(cells, top as int, target, list@.take(0)));
        let mut i: usize = 0;
        while i < list.len()
            invariant
                i <= list.len(),
                old(self).wf(),
                top + 1 == old(self).stack.len(),
                cells == old(self).heap@.cells,
                value == old(self).stack@[top as int],
                target == (HeapPtr { index: old(self).heap@.values.len() as usize }),
                old(self).closure_ref_map@.contains_key(top),
                list == old(self).closure_ref_map@[top],
                self.closure_ref_map@ == old(self).closure_ref_map@.remove(top),
                self.stack == old(self).stack,
                self.call_stack == old(self).call_stack,
                self.call == old(self).call,
                self.finished == old(self).finished,
                self.heap@ == (HeapView {
                    cells: close_listed(cells, top as int, target, list@.take(i as int)),
                    values: old(self).heap@.values.push(value),
                    ..old(self).heap@
                }),
            decreases list.len() - i,
        {
            let ptr = list[i];
            assert(ptr == old(self).closure_ref_map@[top]@[i as int]);
            self.heap.set_cell(ptr, ClosureValueRef::Heap(target));
            proof {
                let before = list@.take(i as int);
                let after = list@.take(i + 1);
                assert(after =~= before.push(ptr));
                assert forall|k: int| 0 <= k < cells.len() implies #[trigger] self.heap@.cells[k]
                    == close_listed(cells, top as int, target, after)[k] by {
                    let handle = HeapPtr { index: k as usize };
                    if before.contains(handle) {
                        let j = choose|j: int| 0 <= j < before.len() && before[j] == handle;
                        assert(after[j] == handle);
                    }
                    if k == ptr.index {
                        assert(after[i as int] == handle);
                    }
                    if after.contains(handle) && k != ptr.index {
                        let j = choose|j: int| 0 <= j < after.len() && after[j] == handle;
                        assert(before[j] == handle);
                    }
                }
                assert(self.heap@.cells =~= close_listed(cells, top as int, target, after));
            }
            i += 1;
        }
        self.stack.pop();
        proof {
            assert(list@.take(list.len() as int) =~= list@);
            assert(self@.stack =~= old(self)@.stack.drop_last());
            assert(close_listed(cells, top as int, target, list@) =~= close_cells(
                cells,
                top as int,
                target,
            ));
            let next = old(self)@.pop()->Ok_0.0;
            assert(self@ == next);
            lemma_pop_valid(old(self)@);
            assert forall|slot: usize, j: int|
                self.closure_ref_map@.contains_key(slot) && 0 <= j
                    < self.closure_ref_map@[slot]@.len() implies {
                let ptr = #[trigger] self.closure_ref_map@[slot]@[j];
                ptr.index < self.heap@.cells.len() && self.heap@.cells[ptr.index as int]
                    == ClosureValueRef::Stack(slot)
            } by {
                let ptr = old(self).closure_ref_map@[slot]@[j];
                assert(cells[ptr.index as int] == ClosureValueRef::Stack(slot));
            }
            assert forall|i: int| 0 <= i < self.heap@.cells.len() implies (
            #[trigger] self.heap@.cells[i] matches ClosureValueRef::Stack(slot)
                ==> self.closure_ref_map@.contains_key(slot)
                && self.closure_ref_map@[slot]@.contains(HeapPtr { index: i as usize })) by {
                if self.heap@.cells[i] is Stack {
                    assert(cells[i] == self.heap@.cells[i]);
                }
            }
        }
        Ok(value)
    }
}

/// Whether `op` is one of the four ordered comparisons.
pub fn ordering(op: Opcode) -> (yes: bool)
    ensures
        yes == is_ordering(op),
{
    match op {
        Opcode::Less | Opcode::Greater | Opcode::LessOrEqual | Opcode::GreaterOrEqual => true,
        _ => false,
    }
}

/// Applies an arithmetic operation to two integers.
pub fn arithmetic_op(op: Opcode, lhs: i64, rhs: i64) -> (result: Result<i64, RuntimeError>)
    requires
        is_arithmetic(op),
    ensures
        result == int_arithmetic(op, lhs, rhs),
{
    match op {
        Opcode::Add => Ok(lhs.wrapping_add(rhs)),
        Opcode::Subtract => Ok(lhs.wrapping_sub(rhs)),
        Opcode::Multiply => Ok(lhs.wrapping_mul(rhs)),
        Opcode::Divide => {
            if rhs == 0 {
                Err(RuntimeError::DivisionByZero)
            } else {
                match lhs.checked_div(rhs) {
                    Some(quotient) => Ok(quotient),
                    None => Err(RuntimeError::ArithmeticOverflow),
                }
            }
        },
        _ => {
            if rhs == 0 {
                Err(RuntimeError::DivisionByZero)
            } else {
                match lhs.checked_rem(rhs) {
                    Some(remainder) => Ok(remainder),
                    None => Err(RuntimeError::ArithmeticOverflow),
                }
            }
        },
    }
}

/// Applies an ordered comparison to two integers.
pub fn comparison_op(op: Opcode, lhs: i64, rhs: i64) -> (result: bool)
    requires
        is_ordering(op),
    ensures
        result == int_ordering(op, lhs, rhs),
{
    match op {
        Opcode::Less => lhs < rhs,
        Opcode::Greater => lhs > rhs,
        Opcode::LessOrEqual => lhs <= rhs,
        _ => lhs >= rhs,
    }
}

impl VirtualMachine {
    /// Pops the top `n` slots, top first; the cells open on them are
    /// closed.
    pub fn drop_n(&mut self, n: usize) -> (result: Result<(), RuntimeError>)
        requires
            old(self).wf(),
        ensures
            final(self).wf(),
            match old(self)@.drop_n(n as nat) {
                Ok(next) => result is Ok && final(self)@ == next,
                Err(error) => result == Err::<(), RuntimeError>(error),
            },
    {
        let mut i: usize = 0;
        while i < n
            invariant
                i <= n,
                self.wf(),
                old(self)@.drop_n(n as nat) == self@.drop_n((n - i) as nat),
            decreases n - i,
        {
            match self.pop() {
                Err(error) => {
                    return Err(error);
                },
                Ok(_) => {},
            }
            i += 1;
        }
        Ok(())
    }

    /// Decodes the instruction at the program counter.
    fn fetch(&self, program: &Program) -> (result: Result<Instruction, RuntimeError>)
        requires
            self.wf(),
            !self@.finished,
        ensures
            result == (if self@.closure().func_id >= program.funcs@.len() {
                Err::<Instruction, RuntimeError>(RuntimeError::InvalidCode)
            } else {
                match decode_at(
                    program.funcs@[self@.closure().func_id as int].bytecode@,
                    self@.call.pc as int,
                ) {
                    None => Err(RuntimeError::InvalidCode),
                    Some(instruction) => Ok(instruction),
                }
            }),
    {
        let closure = self.heap.closure(self.call.closure);
        if closure.func_id >= program.funcs.len() {
            return Err(RuntimeError::InvalidCode);
        }
        match decode(&program.funcs[closure.func_id].bytecode, self.call.pc) {
            None => Err(RuntimeError::InvalidCode),
            Some(instruction) => Ok(instruction),
        }
    }

    /// Runs a binary operation.
    fn binary(&mut self, op: Opcode) -> (result: Result<Event, RuntimeError>)
        requires
            old(self).wf(),
            is_arithmetic(op) || is_ordering(op) || op is Equal || op is NotEqual,
        ensures
            final(self).wf(),
            match old(self)@.binary(op) {
                Ok((next, event)) => result == Ok::<Event, RuntimeError>(event) && final(self)@
                    == next,
                Err(error) => result == Err::<Event, RuntimeError>(error),
            },
    {
        proof {
            if old(self)@.binary(op) is Ok {
                lemma_binary_valid(old(self)@, op);
            }
        }
        let rhs = match self.pop() {
            Ok(value) => value,
            Err(error) => {
                return Err(error);
            },
        };
        let lhs = match self.pop() {
            Ok(value) => value,
            Err(error) => {
                return Err(error);
            },
        };
        match op {
            Opcode::Equal | Opcode::NotEqual => {
                match lhs.equals(&rhs) {
                    None => Ok(Event::FloatOp { op, lhs, rhs }),
                    Some(same) => {
                        let wanted = match op {
                            Opcode::Equal => true,
                            _ => false,
                        };
                        self.stack.push(Value::Bool(same == wanted));
                        Ok(Event::Continue)
                    },
                }
            },
            _ => {
                match (lhs, rhs) {
                    (Value::Int(a), Value::Int(b)) => {
                        if ordering(op) {
                            self.stack.push(Value::Bool(comparison_op(op, a, b)));
                            Ok(Event::Continue)
                        } else {
                            match arithmetic_op(op, a, b) {
                                Ok(value) => {
                                    self.stack.push(Value::Int(value));
                                    Ok(Event::Continue)
                                },
                                Err(error) => Err(error),
                            }
                        }
                    },
                    (Value::Int(_), Value::Float(_))
                    | (Value::Float(_), Value::Int(_))
                    | (Value::Float(_), Value::Float(_)) => Ok(Event::FloatOp { op, lhs, rhs }),
                    _ => Err(RuntimeError::TypeMismatch),
                }
            },
        }
    }

    /// `PushLoad`.
    fn load(&mut self, slot: u8) -> (result: Result<Event, RuntimeError>)
        requires
            old(self).wf(),
        ensures
            final(self).wf(),
            match old(self)@.load(slot as int) {
                Ok((next, event)) => result == Ok::<Event, RuntimeError>(event) && final(self)@
                    == next,
                Err(error) => result == Err::<Event, RuntimeError>(error),
            },
    {
        let len = self.stack.len();
        if self.call.frame >= len || slot as usize >= len - self.call.frame {
            return Err(RuntimeError::InvalidCode);
        }
        let value = self.stack[self.call.frame + slot as usize];
        self.stack.push(value);
        proof {
            assert(self.stack@.len() == self.stack.len());
            lemma_load_valid(old(self)@, slot as int);
        }
        Ok(Event::Continue)
    }

    /// `PopStore`.
    fn store(&mut self, slot: u8) -> (result: Result<Event, RuntimeError>)
        requires
            old(self).wf(),
        ensures
            final(self).wf(),
            match old(self)@.store(slot as int) {
                Ok((next, event)) => result == Ok::<Event, RuntimeError>(event) && final(self)@
                    == next,
                Err(error) => result == Err::<Event, RuntimeError>(error),
            },
    {
        let value = match self.pop() {
            Ok(value) => value,
            Err(error) => {
                return Err(error);
            },
        };
        let len = self.stack.len();
        if self.call.frame >= len || slot as usize >= len - self.call.frame {
            return Err(RuntimeError::InvalidCode);
        }
        self.stack.set(self.call.frame + slot as usize, value);
        proof {
            lemma_store_valid(old(self)@, slot as int);
        }
        Ok(Event::Continue)
    }

    /// `JumpIfNot`.
    fn jump_if_not(&mut self, target: usize) -> (result: Result<Event, RuntimeError>)
        requires
            old(self).wf(),
        ensures
            final(self).wf(),
            match old(self)@.jump_if_not(target) {
                Ok((next, event)) => result == Ok::<Event, RuntimeError>(event) && final(self)@
                    == next,
                Err(error) => result == Err::<Event, RuntimeError>(error),
            },
    {
        match self.pop() {
            Err(error) => Err(error),
            Ok(Value::Bool(condition)) => {
                if !condition {
                    self.call.pc = target;
                }
                Ok(Event::Continue)
            },
            Ok(_) => Err(RuntimeError::TypeMismatch),
        }
    }
}

impl VirtualMachine {
    /// The handle of the upvalue cell at `index` of the running closure.
    fn upvalue(&self, index: u8) -> (cell: Option<HeapPtr>)
        requires
            self.wf(),
            !self@.finished,
        ensures
            cell == self@.upvalue(index as int),
            cell matches Some(handle) ==> handle.index < self@.heap.cells.len(),
    {
        proof {
            self.heap.lemma_sizes();
            assert(self@.heap.valid_closure(self@.heap.closures[self@.call.closure.index as int]));
            if self@.upvalue(index as int) is Some {
                lemma_upvalue_valid(self@, index as int);
            }
        }
        let closure = self.heap.closure(self.call.closure);
        if (index as usize) < closure.closure_values.length {
            Some(self.heap.capture(closure.closure_values.start + index as usize))
        } else {
            None
        }
    }

    /// The value of the captured variable behind an upvalue cell.
    fn read_cell(&self, cell: HeapPtr) -> (value: Value)
        requires
            self.wf(),
            cell.index < self@.heap.cells.len(),
        ensures
            value == self@.read_cell(cell),
    {
        match self.heap.cell(cell) {
            ClosureValueRef::Stack(slot) => self.stack[slot],
            ClosureValueRef::Heap(ptr) => self.heap.value(ptr),
        }
    }

    /// Stores into the captured variable behind an upvalue cell.
    fn write_cell(&mut self, cell: HeapPtr, value: Value)
        requires
            old(self).wf(),
            cell.index < old(self)@.heap.cells.len(),
            old(self)@.heap.valid_value(value),
        ensures
            final(self).wf(),
            final(self)@ == old(self)@.write_cell(cell, value),
    {
        proof {
            lemma_write_cell_valid(self@, cell, value);
        }
        match self.heap.cell(cell) {
            ClosureValueRef::Stack(slot) => {
                self.stack.set(slot, value);
            },
            ClosureValueRef::Heap(ptr) => {
                self.heap.set_value(ptr, value);
            },
        }
    }

    /// `PushClosureLoad`.
    fn closure_load(&mut self, index: u8) -> (result: Result<Event, RuntimeError>)
        requires
            old(self).wf(),
            !old(self)@.finished,
        ensures
            final(self).wf(),
            match old(self)@.closure_load(index as int) {
                Ok((next, event)) => result == Ok::<Event, RuntimeError>(event) && final(self)@
                    == next,
                Err(error) => result == Err::<Event, RuntimeError>(error),
            },
    {
        match self.upvalue(index) {
            None => Err(RuntimeError::InvalidCode),
            Some(cell) => {
                let value = self.read_cell(cell);
                self.stack.push(value);
                proof {
                    assert(self.stack@.len() == self.stack.len());
                    lemma_closure_load_valid(old(self)@, index as int);
                }
                Ok(Event::Continue)
            },
        }
    }

    /// `PopClosureStore`.
    fn closure_store(&mut self, index: u8) -> (result: Result<Event, RuntimeError>)
        requires
            old(self).wf(),
            !old(self)@.finished,
        ensures
            final(self).wf(),
            match old(self)@.closure_store(index as int) {
                Ok((next, event)) => result == Ok::<Event, RuntimeError>(event) && final(self)@
                    == next,
                Err(error) => result == Err::<Event, RuntimeError>(error),
            },
    {
        proof {
            if old(self)@.pop() is Ok {
                lemma_pop_valid(old(self)@);
            }
        }
        let value = match self.pop() {
            Ok(value) => value,
            Err(error) => {
                return Err(error);
            },
        };
        match self.upvalue(index) {
            None => Err(RuntimeError::InvalidCode),
            Some(cell) => {
                self.write_cell(cell, value);
                Ok(Event::Continue)
            },
        }
    }

    /// `PushPropLoad`.
    fn prop_load(&mut self, symbol: u8, program: &Program) -> (result: Result<Event, RuntimeError>)
        requires
            old(self).wf(),
        ensures
            final(self).wf(),
            match old(self)@.prop_load(symbol as int, program.symbols@) {
                Ok((next, event)) => result == Ok::<Event, RuntimeError>(event) && final(self)@
                    == next,
                Err(error) => result == Err::<Event, RuntimeError>(error),
            },
    {
        proof {
            if old(self)@.pop() is Ok {
                lemma_pop_valid(old(self)@);
            }
            if old(self)@.prop_load(symbol as int, program.symbols@) is Ok {
                lemma_prop_load_valid(old(self)@, symbol as int, program.symbols@);
            }
        }
        let value = match self.pop() {
            Ok(value) => value,
            Err(error) => {
                return Err(error);
            },
        };
        match value {
            Value::RustValue(ptr) => {
                assert(self@.heap.valid_object(self@.heap.objects[ptr.index as int]));
                match self.heap.object(ptr).get_property(symbol, &program.symbols) {
                    Some(property) => {
                        self.stack.push(property);
                        Ok(Event::Continue)
                    },
                    None => Err(RuntimeError::UnknownProperty),
                }
            },
            _ => Err(RuntimeError::NotAnExtension),
        }
    }

    /// Resolves one capture descriptor in the running frame. On an error
    /// the machine is unchanged.
    fn capture(&mut self, descriptor: ClosureValue) -> (result: Result<HeapPtr, RuntimeError>)
        requires
            old(self).wf(),
            !old(self)@.finished,
        ensures
            final(self).wf(),
            match old(self)@.capture(descriptor) {
                Ok((next, cell)) => result == Ok::<HeapPtr, RuntimeError>(cell) && final(self)@
                    == next,
                Err(error) => result == Err::<HeapPtr, RuntimeError>(error) && final(self)@
                    == old(self)@,
            },
    {
        broadcast use group_hash_axioms;

        proof {
            if old(self)@.capture(descriptor) is Ok {
                lemma_capture_valid(old(self)@, descriptor);
            }
        }
        match descriptor {
            ClosureValue::Outer(index) => {
                match self.upvalue(index) {
                    Some(cell) => Ok(cell),
                    None => Err(RuntimeError::InvalidCode),
                }
            },
            ClosureValue::Stack(slot) => {
                let len = self.stack.len();
                if self.call.frame >= len || slot as usize >= len - self.call.frame {
                    return Err(RuntimeError::InvalidCode);
                }
                let index = self.call.frame + slot as usize;
                let ghost cells = self.heap@.cells;
                let ptr = match self.heap.alloc_cell(ClosureValueRef::Stack(index)) {
                    Some(ptr) => ptr,
                    None => {
                        return Err(RuntimeError::HeapExhausted);
                    },
                };
                let mut list = match self.closure_ref_map.remove(&index) {
                    Some(list) => list,
                    None => Vec::new(),
                };
                let ghost listed = list@;
                list.push(ptr);
                self.closure_ref_map.insert(index, list);
                proof {
                    assert forall|slot: usize, j: int|
                        self.closure_ref_map@.contains_key(slot) && 0 <= j
                            < self.closure_ref_map@[slot]@.len() implies {
                        let entry = #[trigger] self.closure_ref_map@[slot]@[j];
                        entry.index < self.heap@.cells.len() && self.heap@.cells[entry.index as int]
                            == ClosureValueRef::Stack(slot)
                    } by {
                        if slot == index {
                            if j < listed.len() {
                                let entry = old(self).closure_ref_map@[slot]@[j];
                                assert(cells[entry.index as int] == ClosureValueRef::Stack(slot));
                            }
                        } else {
                            let entry = old(self).closure_ref_map@[slot]@[j];
                            assert(cells[entry.index as int] == ClosureValueRef::Stack(slot));
                        }
                    }
                    assert forall|i: int| 0 <= i < self.heap@.cells.len() implies (
                    #[trigger] self.heap@.cells[i] matches ClosureValueRef::Stack(slot)
                        ==> self.closure_ref_map@.contains_key(slot)
                        && self.closure_ref_map@[slot]@.contains(HeapPtr { index: i as usize })) by {
                        if i < cells.len() {
                            assert(self.heap@.cells[i] == cells[i]);
                            if let ClosureValueRef::Stack(slot) = cells[i] {
                                let handle = HeapPtr { index: i as usize };
                                let before = old(self).closure_ref_map@[slot]@;
                                assert(before.contains(handle));
                                if slot == index {
                                    let j = choose|j: int|
                                        0 <= j < before.len() && before[j] == handle;
                                    assert(list@[j] == handle);
                                }
                            }
                        } else {
                            assert(list@[listed.len() as int] == ptr);
                        }
                    }
                }
                Ok(ptr)
            },
        }
    }

    /// `PushFunc`.
    fn push_func(&mut self, index: usize, program: &Program) -> (result: Result<
        Event,
        RuntimeError,
    >)
        requires
            old(self).wf(),
            !old(self)@.finished,
        ensures
            final(self).wf(),
            match old(self)@.push_func(index as int, program.funcs@) {
                Ok((next, event)) => result == Ok::<Event, RuntimeError>(event) && final(self)@
                    == next,
                Err(error) => result == Err::<Event, RuntimeError>(error),
            },
    {
        if index >= program.funcs.len() {
            return Err(RuntimeError::InvalidCode);
        }
        let func = &program.funcs[index];
        let ghost descriptors = func.closure_scope@;
        let mut cells: Vec<HeapPtr> = Vec::new();
        let mut i: usize = 0;
        while i < func.closure_scope.len()
            invariant
                i <= func.closure_scope.len(),
                descriptors == func.closure_scope@,
                index < program.funcs@.len(),
                *func == program.funcs@[index as int],
                self.wf(),
                !self@.finished,
                forall|k: int|
                    0 <= k < cells@.len() ==> self@.heap.valid_cell_handle(#[trigger] cells@[k]),
                old(self)@.capture_from(descriptors, 0, Seq::empty()) == self@.capture_from(
                    descriptors,
                    i as int,
                    cells@,
                ),
            decreases func.closure_scope.len() - i,
        {
            let ghost before = self@;
            let ghost listed = cells@;
            proof {
                if before.capture(descriptors[i as int]) is Ok {
                    lemma_capture_valid(before, descriptors[i as int]);
                }
            }
            match self.capture(func.closure_scope[i]) {
                Err(error) => {
                    assert(before.capture_from(descriptors, i as int, listed) == Err::<
                        (Machine, Seq<HeapPtr>),
                        RuntimeError,
                    >(error));
                    return Err(error);
                },
                Ok(cell) => {
                    cells.push(cell);
                },
            }
            proof {
                assert forall|k: int| 0 <= k < cells@.len() implies self@.heap.valid_cell_handle(
                    #[trigger] cells@[k],
                ) by {
                    if k < listed.len() {
                        assert(before.heap.valid_cell_handle(listed[k]));
                    }
                }
            }
            i += 1;
        }
        proof {
            lemma_capture_from_valid(old(self)@, descriptors, 0, Seq::empty());
        }
        match self.heap.alloc_closure(index, &cells) {
            None => Err(RuntimeError::HeapExhausted),
            Some(ptr) => {
                self.stack.push(Value::Closure(ptr));
                proof {
                    assert(self.stack@.len() == self.stack.len());
                    lemma_push_func_valid(old(self)@, index as int, program.funcs@);
                }
                Ok(Event::Continue)
            },
        }
    }

    /// `PushList`.
    fn push_list(&mut self, length: usize) -> (result: Result<Event, RuntimeError>)
        requires
            old(self).wf(),
            length <= u32::MAX,
        ensures
            final(self).wf(),
            match old(self)@.push_list(length as int) {
                Ok((next, event)) => result == Ok::<Event, RuntimeError>(event) && final(self)@
                    == next,
                Err(error) => result == Err::<Event, RuntimeError>(error),
            },
    {
        if length > self.stack.len() {
            return Err(RuntimeError::StackUnderflow);
        }
        let list = match List::new(&mut self.heap, length, &self.stack) {
            Some(list) => list,
            None => {
                return Err(RuntimeError::HeapExhausted);
            },
        };
        proof {
            self.heap.lemma_sizes();
            let filled = self@;
            let elements = old(self)@.stack.skip(old(self)@.stack.len() - length);
            assert forall|i: int|
                0 <= i < filled.heap.values.len() implies filled.heap.valid_value(
                #[trigger] filled.heap.values[i],
            ) by {
                if i < old(self)@.heap.values.len() {
                    assert(old(self)@.heap.valid_value(old(self)@.heap.values[i]));
                } else {
                    let k = i - old(self)@.heap.values.len() + old(self)@.stack.len() - length;
                    assert(filled.heap.values[i] == old(self)@.stack[k]);
                    assert(old(self)@.heap.valid_value(old(self)@.stack[k]));
                }
            }
            assert forall|i: int| 0 <= i < filled.heap.cells.len() implies (
            #[trigger] filled.heap.cells[i] matches ClosureValueRef::Heap(ptr) ==> ptr.index
                < filled.heap.values.len()) by {
                let cell = old(self)@.heap.cells[i];
            }
            assert forall|i: int|
                0 <= i < filled.heap.objects.len() implies filled.heap.valid_object(
                #[trigger] filled.heap.objects[i],
            ) by {
                assert(old(self)@.heap.valid_object(old(self)@.heap.objects[i]));
            }
            assert forall|i: int| 0 <= i < filled.stack.len() implies filled.heap.valid_value(
                #[trigger] filled.stack[i],
            ) by {
                assert(old(self)@.heap.valid_value(old(self)@.stack[i]));
            }
            assert(filled.valid());
            assert(self.wf());
            if filled.drop_n(length as nat) is Ok {
                lemma_drop_valid(filled, length as nat);
            }
        }
        match self.drop_n(length) {
            Err(error) => {
                return Err(error);
            },
            Ok(_) => {},
        }
        match self.heap.alloc_object(RustValue::List(list)) {
            None => Err(RuntimeError::HeapExhausted),
            Some(ptr) => {
                self.stack.push(Value::RustValue(ptr));
                proof {
                    assert(self.stack@.len() == self.stack.len());
                    lemma_push_list_valid(old(self)@, length as int);
                }
                Ok(Event::Continue)
            },
        }
    }

    /// `Call`.
    fn enter(&mut self, argc: u8, program: &Program) -> (result: Result<Event, RuntimeError>)
        requires
            old(self).wf(),
            !old(self)@.finished,
        ensures
            final(self).wf(),
            match old(self)@.enter(argc as int, program.funcs@) {
                Ok((next, event)) => result == Ok::<Event, RuntimeError>(event) && final(self)@
                    == next,
                Err(error) => result == Err::<Event, RuntimeError>(error),
            },
    {
        proof {
            if old(self)@.pop() is Ok {
                lemma_pop_valid(old(self)@);
            }
            if old(self)@.enter(argc as int, program.funcs@) is Ok {
                lemma_enter_valid(old(self)@, argc as int, program.funcs@);
            }
        }
        let callee = match self.pop() {
            Ok(value) => value,
            Err(error) => {
                return Err(error);
            },
        };
        match callee {
            Value::Closure(ptr) => {
                let closure = self.heap.closure(ptr);
                if closure.func_id >= program.funcs.len() {
                    return Err(RuntimeError::InvalidCode);
                }
                if program.funcs[closure.func_id].param_count != argc {
                    return Err(RuntimeError::ArityMismatch);
                }
                if self.stack.len() <= argc as usize {
                    return Err(RuntimeError::StackUnderflow);
                }
                self.call_stack.push(self.call);
                self.call = Call { pc: 0, frame: self.stack.len() - argc as usize - 1, closure: ptr };
                Ok(Event::Continue)
            },
            _ => Err(RuntimeError::NotCallable),
        }
    }

    /// `Return`.
    fn leave(&mut self, program: &Program) -> (result: Result<Event, RuntimeError>)
        requires
            old(self).wf(),
            !old(self)@.finished,
        ensures
            final(self).wf(),
            match old(self)@.leave(program.funcs@) {
                Ok((next, event)) => result == Ok::<Event, RuntimeError>(event) && final(self)@
                    == next,
                Err(error) => result == Err::<Event, RuntimeError>(error),
            },
    {
        let closure = self.heap.closure(self.call.closure);
        if closure.func_id >= program.funcs.len() {
            return Err(RuntimeError::InvalidCode);
        }
        let count = program.funcs[closure.func_id].param_count;
        proof {
            if old(self)@.leave(program.funcs@) is Ok {
                lemma_leave_valid(old(self)@, program.funcs@);
            }
        }
        match self.drop_n(count as usize) {
            Err(error) => {
                return Err(error);
            },
            Ok(_) => {},
        }
        match self.call_stack.pop() {
            None => Err(RuntimeError::ReturnOutsideCall),
            Some(call) => {
                self.call = call;
                proof {
                    assert(self@.frames =~= old(self)@.drop_n(count as nat)->Ok_0.frames.drop_last());
                }
                Ok(Event::Continue)
            },
        }
    }

    /// Makes the machine ready to run the function `entry_func` of
    /// `program` as the top level, on the stack as it stands. On an error
    /// the machine is unchanged.
    pub fn start(&mut self, program: &Program, entry_func: usize) -> (result: Result<
        (),
        RuntimeError,
    >)
        requires
            old(self).wf(),
        ensures
            final(self).wf(),
            match old(self)@.start(entry_func as int, program.funcs@) {
                Ok(next) => result is Ok && final(self)@ == next,
                Err(error) => result == Err::<(), RuntimeError>(error) && final(self)@ == old(
                    self,
                )@,
            },
    {
        if entry_func >= program.funcs.len() || program.funcs[entry_func].closure_scope.len() != 0 {
            return Err(RuntimeError::InvalidCode);
        }
        proof {
            if old(self)@.start(entry_func as int, program.funcs@) is Ok {
                lemma_start_valid(old(self)@, entry_func as int, program.funcs@);
            }
        }
        let none: Vec<HeapPtr> = Vec::new();
        match self.heap.alloc_closure(entry_func, &none) {
            None => Err(RuntimeError::HeapExhausted),
            Some(closure) => {
                self.call = Call { pc: 0, frame: 0, closure };
                self.call_stack = Vec::new();
                self.finished = false;
                proof {
                    assert(self@.frames =~= Seq::empty());
                }
                Ok(())
            },
        }
    }

    /// One step: runs the instruction at the program counter of the
    /// running frame. A finished machine stays as it is.
    pub fn step(&mut self, program: &Program) -> (result: Result<Event, RuntimeError>)
        requires
            old(self).wf(),
        ensures
            final(self).wf(),
            match old(self)@.step(program.funcs@, program.symbols@) {
                Ok((next, event)) => result == Ok::<Event, RuntimeError>(event) && final(self)@
                    == next,
                Err(error) => result == Err::<Event, RuntimeError>(error),
            },
    {
        if self.finished {
            return Ok(Event::Finished);
        }
        let instruction = match self.fetch(program) {
            Ok(instruction) => instruction,
            Err(error) => {
                return Err(error);
            },
        };
        proof {
            lemma_operand_fits(
                program.funcs@[self@.closure().func_id as int].bytecode@,
                self@.call.pc as int,
            );
        }
        self.call.pc = instruction.next;
        let operand = instruction.operand;
        match instruction.opcode {
            Opcode::PushInt => {
                self.stack.push(Value::Int(crate::bytes::int_from_bits(operand)));
                proof {
                    assert(self.stack@.len() == self.stack.len());
                    lemma_push_valid(old(self)@.at(instruction.next), self@.stack.last());
                }
                Ok(Event::Continue)
            },
            Opcode::PushFloat => {
                self.stack.push(Value::Float(operand));
                proof {
                    assert(self.stack@.len() == self.stack.len());
                    lemma_push_valid(old(self)@.at(instruction.next), self@.stack.last());
                }
                Ok(Event::Continue)
            },
            Opcode::PushTrue => {
                self.stack.push(Value::Bool(true));
                proof {
                    assert(self.stack@.len() == self.stack.len());
                    lemma_push_valid(old(self)@.at(instruction.next), self@.stack.last());
                }
                Ok(Event::Continue)
            },
            Opcode::PushFalse => {
                self.stack.push(Value::Bool(false));
                proof {
                    assert(self.stack@.len() == self.stack.len());
                    lemma_push_valid(old(self)@.at(instruction.next), self@.stack.last());
                }
                Ok(Event::Continue)
            },
            Opcode::PushNone => {
                self.stack.push(Value::Nil);
                proof {
                    assert(self.stack@.len() == self.stack.len());
                    lemma_push_valid(old(self)@.at(instruction.next), self@.stack.last());
                }
                Ok(Event::Continue)
            },
            Opcode::PushFunc => self.push_func(operand as usize, program),
            Opcode::PushLoad => self.load(operand as u8),
            Opcode::PushClosureLoad => self.closure_load(operand as u8),
            Opcode::PushList => self.push_list(operand as usize),
            Opcode::PushPropLoad => self.prop_load(operand as u8, program),
            Opcode::PopStore => self.store(operand as u8),
            Opcode::PopPrint => {
                match self.pop() {
                    Ok(value) => Ok(Event::Print(value)),
                    Err(error) => Err(error),
                }
            },
            Opcode::PopPropStore => Err(RuntimeError::Unimplemented),
            Opcode::PopClosureStore => self.closure_store(operand as u8),
            Opcode::Jump => {
                self.call.pc = operand as usize;
                Ok(Event::Continue)
            },
            Opcode::JumpIfNot => self.jump_if_not(operand as usize),
            Opcode::Drop => {
                match self.drop_n(operand as usize) {
                    Ok(_) => Ok(Event::Continue),
                    Err(error) => Err(error),
                }
            },
            Opcode::Call => self.enter(operand as u8, program),
            Opcode::Return => self.leave(program),
            Opcode::Finish => {
                self.finished = true;
                Ok(Event::Finished)
            },
            Opcode::Add
            | Opcode::Subtract
            | Opcode::Multiply
            | Opcode::Divide
            | Opcode::Modulus
            | Opcode::Equal
            | Opcode::NotEqual
            | Opcode::Less
            | Opcode::Greater
            | Opcode::LessOrEqual
            | Opcode::GreaterOrEqual => self.binary(instruction.opcode),
        }
    }

    /// Runs up to `budget` steps and stops at the first one that asks
    /// something of the host, at the first error, or when the budget is
    /// spent, which it reports as `Continue`.
    pub fn run(&mut self, program: &Program, budget: u64) -> (result: Result<Event, RuntimeError>)
        requires
            old(self).wf(),
        ensures
            final(self).wf(),
            match old(self)@.run(program.funcs@, program.symbols@, budget as nat) {
                Ok((next, event)) => result == Ok::<Event, RuntimeError>(event) && final(self)@
                    == next,
                Err(error) => result == Err::<Event, RuntimeError>(error),
            },
    {
        let mut left = budget;
        while left > 0
            invariant
                self.wf(),
                old(self)@.run(program.funcs@, program.symbols@, budget as nat) == self@.run(
                    program.funcs@,
                    program.symbols@,
                    left as nat,
                ),
            decreases left,
        {
            match self.step(program) {
                Err(error) => {
                    return Err(error);
                },
                Ok(Event::Continue) => {},
                Ok(event) => {
                    return Ok(event);
                },
            }
            left -= 1;
        }
        Ok(Event::Continue)
    }

    /// Whether the program has run to its end.
    pub fn is_finished(&self) -> (finished: bool)
        ensures
            finished == self@.finished,
    {
        self.finished
    }

    /// Number of values on the stack.
    pub fn stack_len(&self) -> (len: usize)
        ensures
            len == self@.stack.len(),
    {
        self.stack.len()
    }

    /// The value in the stack slot `index`, counted from the bottom.
    pub fn stack_value(&self, index: usize) -> (value: Value)
        requires
            index < self@.stack.len(),
        ensures
            value == self@.stack[index as int],
    {
        self.stack[index]
    }

    /// The heap of the machine.
    pub fn heap(&self) -> (heap: &Heap)
        ensures
            heap@ == self@.heap,
    {
        &self.heap
    }

    /// The frame that runs.
    pub fn current_call(&self) -> (call: Call)
        ensures
            call == self@.call,
    {
        self.call
    }

    /// Number of calls that wait for the running frame to return.
    pub fn call_depth(&self) -> (depth: usize)
        ensures
            depth == self@.frames.len(),
    {
        self.call_stack.len()
    }
}

} // verus!
