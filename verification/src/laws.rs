//! What holds of every run of the machine: upvalue cells close once and
//! for good, closures over one variable see one variable, and every
//! instruction moves the stack height by the amount that its opcode gives.

use vstd::prelude::*;
use crate::func::{decode_at, ClosureValue, Func};
use crate::heap::{HeapPtr, HeapView};
use crate::opcode::Opcode;
use crate::semantics::Machine;
use crate::soundness::{
    heap_grown, lemma_capture_from_valid, lemma_capture_valid, lemma_drop_valid,
    lemma_heap_grown_twice, lemma_pop_valid, lemma_upvalue_valid,
};
use crate::value::{ClosureValueRef, Value};

verus! {

/// Storing into a captured variable overwrites at most one value cell and
/// leaves every other record of the heap as it is.
pub proof fn lemma_write_cell_grows(machine: Machine, cell: HeapPtr, value: Value)
    requires
        machine.valid(),
        machine.heap.valid_cell_handle(cell),
    ensures
        heap_grown(machine.heap, machine.write_cell(cell, value).heap),
        machine.write_cell(cell, value).stack.len() == machine.stack.len(),
{
}

/// Whatever an instruction does, the heap only grows: no record goes, a
/// closed upvalue cell keeps pointing to its value cell, and an open one
/// stays open on its slot or is closed.
pub proof fn lemma_execute_grows(
    machine: Machine,
    opcode: Opcode,
    operand: u64,
    funcs: Seq<Func>,
    names: Seq<Seq<char>>,
)
    requires
        machine.valid(),
        !machine.finished,
        machine.execute(opcode, operand, funcs, names) is Ok,
    ensures
        heap_grown(machine.heap, machine.execute(opcode, operand, funcs, names)->Ok_0.0.heap),
{
    let after = machine.execute(opcode, operand, funcs, names)->Ok_0.0;
    match opcode {
        Opcode::PushInt | Opcode::PushFloat | Opcode::PushTrue | Opcode::PushFalse | Opcode::PushNone => {},
        Opcode::PushFunc => {
            let descriptors = funcs[operand as int].closure_scope@;
            lemma_capture_from_valid(machine, descriptors, 0, Seq::empty());
        },
        Opcode::PushLoad => {},
        Opcode::PushClosureLoad => {},
        Opcode::PushList => {
            let length = operand as int;
            let elements = machine.stack.skip(machine.stack.len() - length);
            let filled = Machine {
                heap: HeapView { values: machine.heap.values + elements, ..machine.heap },
                ..machine
            };
            lemma_filled_valid(machine, length);
            lemma_drop_valid(filled, length as nat);
            let next = filled.drop_n(length as nat)->Ok_0;
            assert(heap_grown(machine.heap, filled.heap));
            lemma_heap_grown_twice(machine.heap, filled.heap, next.heap);
            lemma_heap_grown_twice(machine.heap, next.heap, after.heap);
        },
        Opcode::PushPropLoad => lemma_pop_valid(machine),
        Opcode::PopStore => lemma_pop_valid(machine),
        Opcode::PopPrint => lemma_pop_valid(machine),
        Opcode::PopPropStore => {},
        Opcode::PopClosureStore => {
            lemma_pop_valid(machine);
            let next = machine.pop()->Ok_0.0;
            lemma_upvalue_valid(next, operand as int);
            lemma_write_cell_grows(next, next.upvalue(operand as int)->0, machine.pop()->Ok_0.1);
            lemma_heap_grown_twice(machine.heap, next.heap, after.heap);
        },
        Opcode::Jump => {},
        Opcode::JumpIfNot => lemma_pop_valid(machine),
        Opcode::Drop => lemma_drop_valid(machine, operand as nat),
        Opcode::Call => lemma_pop_valid(machine),
        Opcode::Return => {
            lemma_drop_valid(machine, funcs[machine.closure().func_id as int].param_count as nat);
        },
        Opcode::Finish => {},
        _ => {
            lemma_pop_valid(machine);
            let first = machine.pop()->Ok_0.0;
            lemma_pop_valid(first);
            let second = first.pop()->Ok_0.0;
            lemma_heap_grown_twice(machine.heap, first.heap, second.heap);
        },
    }
}

/// A machine whose heap got the top `length` values of the stack as new
/// value cells is free of dangling handles if it was before.
pub proof fn lemma_filled_valid(machine: Machine, length: int)
    requires
        machine.valid(),
        0 <= length <= machine.stack.len(),
        machine.heap.has_room(length as nat),
    ensures
        (Machine {
            heap: HeapView {
                values: machine.heap.values + machine.stack.skip(machine.stack.len() - length),
                ..machine.heap
            },
            ..machine
        }).valid(),
{
    let filled = Machine {
        heap: HeapView {
            values: machine.heap.values + machine.stack.skip(machine.stack.len() - length),
            ..machine.heap
        },
        ..machine
    };
    assert forall|i: int| 0 <= i < filled.heap.values.len() implies filled.heap.valid_value(
        #[trigger] filled.heap.values[i],
    ) by {
        if i < machine.heap.values.len() {
            assert(machine.heap.valid_value(machine.heap.values[i]));
        } else {
            let k = i - machine.heap.values.len() + machine.stack.len() - length;
            assert(filled.heap.values[i] == machine.stack[k]);
            assert(machine.heap.valid_value(machine.stack[k]));
        }
    }
    assert forall|i: int| 0 <= i < filled.heap.cells.len() implies (
    #[trigger] filled.heap.cells[i] matches ClosureValueRef::Heap(ptr) ==> ptr.index
        < filled.heap.values.len()) by {
        let cell = machine.heap.cells[i];
    }
    assert forall|i: int| 0 <= i < filled.heap.objects.len() implies filled.heap.valid_object(
        #[trigger] filled.heap.objects[i],
    ) by {
        assert(machine.heap.valid_object(machine.heap.objects[i]));
    }
    assert forall|i: int| 0 <= i < filled.stack.len() implies filled.heap.valid_value(
        #[trigger] filled.stack[i],
    ) by {
        assert(machine.heap.valid_value(machine.stack[i]));
    }
}

/// An upvalue cell is closed at most once: over any step a closed cell
/// stays closed onto the same value cell, and an open cell stays open on
/// the same slot or becomes closed. No step removes a cell.
pub proof fn lemma_step_closes_once(
    machine: Machine,
    funcs: Seq<Func>,
    names: Seq<Seq<char>>,
    cell: int,
)
    requires
        machine.valid(),
        machine.step(funcs, names) is Ok,
        0 <= cell < machine.heap.cells.len(),
    ensures
        cell < machine.step(funcs, names)->Ok_0.0.heap.cells.len(),
        machine.heap.cells[cell] is Heap ==> machine.step(funcs, names)->Ok_0.0.heap.cells[cell]
            == machine.heap.cells[cell],
        machine.heap.cells[cell] is Stack ==> machine.step(funcs, names)->Ok_0.0.heap.cells[cell]
            == machine.heap.cells[cell] || machine.step(funcs, names)->Ok_0.0.heap.cells[cell]
            is Heap,
{
    if !machine.finished {
        let code = funcs[machine.closure().func_id as int].bytecode@;
        let instruction = decode_at(code, machine.call.pc as int)->0;
        lemma_execute_grows(
            machine.at(instruction.next),
            instruction.opcode,
            instruction.operand,
            funcs,
            names,
        );
        let next = machine.step(funcs, names)->Ok_0.0;
        assert(next.heap.cells[cell] == machine.heap.cells[cell] || (machine.heap.cells[cell]
            is Stack && next.heap.cells[cell] is Heap));
    }
}

/// A closed upvalue cell is read and written in its value cell: the stack
/// has no part in it.
pub proof fn lemma_closed_cell_access(machine: Machine, cell: HeapPtr, target: HeapPtr, value: Value)
    requires
        0 <= cell.index < machine.heap.cells.len(),
        machine.heap.cells[cell.index as int] == ClosureValueRef::Heap(target),
        target.index < machine.heap.values.len(),
    ensures
        machine.read_cell(cell) == machine.heap.values[target.index as int],
        machine.write_cell(cell, value).stack == machine.stack,
        machine.write_cell(cell, value).heap.values == machine.heap.values.update(
            target.index as int,
            value,
        ),
        machine.write_cell(cell, value).heap.cells == machine.heap.cells,
        machine.write_cell(cell, value).read_cell(cell) == value,
{
}

/// Two closures made in one frame over one captured variable see one
/// variable. Where the variable is a capture of the running closure, both
/// get the very same upvalue cell. Where it is a local of the running
/// frame, each gets a cell of its own, open on the same stack slot: what
/// is stored through one is read through the other.
pub proof fn lemma_sibling_closures_share(machine: Machine, descriptor: ClosureValue, value: Value)
    requires
        machine.valid(),
        !machine.finished,
        machine.capture(descriptor) is Ok,
        machine.capture(descriptor)->Ok_0.0.capture(descriptor) is Ok,
    ensures
        ({
            let first = machine.capture(descriptor)->Ok_0.1;
            let between = machine.capture(descriptor)->Ok_0.0;
            let second = between.capture(descriptor)->Ok_0.1;
            let after = between.capture(descriptor)->Ok_0.0;
            &&& descriptor is Outer ==> first == second
            &&& after.heap.cells[first.index as int] == after.heap.cells[second.index as int]
            &&& after.read_cell(first) == after.read_cell(second)
            &&& after.write_cell(first, value).read_cell(second) == value
            &&& after.write_cell(second, value).read_cell(first) == value
        }),
{
    lemma_capture_valid(machine, descriptor);
    let first = machine.capture(descriptor)->Ok_0.1;
    let between = machine.capture(descriptor)->Ok_0.0;
    lemma_capture_valid(between, descriptor);
    let second = between.capture(descriptor)->Ok_0.1;
    let after = between.capture(descriptor)->Ok_0.0;
    match after.heap.cells[first.index as int] {
        ClosureValueRef::Stack(slot) => {},
        ClosureValueRef::Heap(ptr) => {
            assert(ptr.index < after.heap.values.len());
        },
    }
}

/// When a stack slot goes, all cells that were open on it are closed onto
/// one and the same value cell, which holds the value that the slot held:
/// closures that shared the variable keep sharing it.
pub proof fn lemma_pop_closes_together(machine: Machine, first: HeapPtr, second: HeapPtr)
    requires
        machine.valid(),
        machine.pop() is Ok,
        first.index < machine.heap.cells.len(),
        second.index < machine.heap.cells.len(),
        machine.heap.cells[first.index as int] == ClosureValueRef::Stack(
            (machine.stack.len() - 1) as usize,
        ),
        machine.heap.cells[second.index as int] == machine.heap.cells[first.index as int],
    ensures
        ({
            let after = machine.pop()->Ok_0.0;
            &&& after.heap.cells[first.index as int] is Heap
            &&& after.heap.cells[first.index as int] == after.heap.cells[second.index as int]
            &&& after.read_cell(first) == machine.read_cell(first)
            &&& after.read_cell(second) == machine.read_cell(first)
        }),
{
    let top = machine.stack.len() - 1;
    assert(crate::semantics::has_open(machine.heap.cells, top));
}

/// By how much an instruction moves the height of the stack, given the
/// number of parameters of the function that runs it.
pub open spec fn stack_effect(opcode: Opcode, operand: u64, param_count: u8) -> int {
    match opcode {
        Opcode::PushInt
        | Opcode::PushFloat
        | Opcode::PushTrue
        | Opcode::PushFalse
        | Opcode::PushNone
        | Opcode::PushFunc
        | Opcode::PushLoad
        | Opcode::PushClosureLoad => 1,
        Opcode::PushList => 1 - operand,
        Opcode::PushPropLoad | Opcode::Jump | Opcode::Finish | Opcode::PopPropStore => 0,
        Opcode::PopStore
        | Opcode::PopPrint
        | Opcode::PopClosureStore
        | Opcode::JumpIfNot
        | Opcode::Call => -1,
        Opcode::Drop => -operand,
        Opcode::Return => -(param_count as int),
        _ => -1,
    }
}

/// Every instruction that the machine executes moves the height of the
/// stack by the effect of its opcode. A step that asks the host for a
/// float operation leaves the stack one short of it: the host pushes the
/// result.
pub proof fn lemma_step_stack_height(machine: Machine, funcs: Seq<Func>, names: Seq<Seq<char>>)
    requires
        machine.valid(),
        !machine.finished,
        machine.step(funcs, names) is Ok,
    ensures
        ({
            let func = funcs[machine.closure().func_id as int];
            let instruction = decode_at(func.bytecode@, machine.call.pc as int)->0;
            let next = machine.step(funcs, names)->Ok_0.0;
            let event = machine.step(funcs, names)->Ok_0.1;
            next.stack.len() == machine.stack.len() + stack_effect(
                instruction.opcode,
                instruction.operand,
                func.param_count,
            ) - if event is FloatOp {
                1int
            } else {
                0int
            }
        }),
{
    let func = funcs[machine.closure().func_id as int];
    let instruction = decode_at(func.bytecode@, machine.call.pc as int)->0;
    let at = machine.at(instruction.next);
    let operand = instruction.operand;
    match instruction.opcode {
        Opcode::PushInt | Opcode::PushFloat | Opcode::PushTrue | Opcode::PushFalse | Opcode::PushNone => {},
        Opcode::PushFunc => {
            lemma_capture_from_valid(at, funcs[operand as int].closure_scope@, 0, Seq::empty());
        },
        Opcode::PushLoad => {},
        Opcode::PushClosureLoad => {},
        Opcode::PushList => {
            let length = operand as int;
            let filled = Machine {
                heap: HeapView {
                    values: at.heap.values + at.stack.skip(at.stack.len() - length),
                    ..at.heap
                },
                ..at
            };
            lemma_filled_valid(at, length);
            lemma_drop_valid(filled, length as nat);
        },
        Opcode::PushPropLoad => lemma_pop_valid(at),
        Opcode::PopStore => lemma_pop_valid(at),
        Opcode::PopPrint => lemma_pop_valid(at),
        Opcode::PopPropStore => {},
        Opcode::PopClosureStore => {
            lemma_pop_valid(at);
            let next = at.pop()->Ok_0.0;
            lemma_upvalue_valid(next, operand as int);
        },
        Opcode::Jump => {},
        Opcode::JumpIfNot => lemma_pop_valid(at),
        Opcode::Drop => lemma_drop_valid(at, operand as nat),
        Opcode::Call => lemma_pop_valid(at),
        Opcode::Return => lemma_drop_valid(at, func.param_count as nat),
        Opcode::Finish => {},
        _ => {
            lemma_pop_valid(at);
            lemma_pop_valid(at.pop()->Ok_0.0);
        },
    }
}

} // verus!
