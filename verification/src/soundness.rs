//! No step of the machine makes a handle dangle.

use vstd::prelude::*;
use crate::func::{decode_at, ClosureValue, Func};
use crate::heap::{HeapPtr, HeapView};
use crate::opcode::Opcode;
use crate::semantics::{has_open, Machine};
use crate::value::{ClosureValueRef, RustValue, Value};

verus! {

/// One heap holds at least what another holds: every arena has grown at
/// its end only, but for value cells, which may also have been
/// overwritten, and for upvalue cells: a closed cell stays as it is, and an
/// open cell stays as it is or has been closed.
pub open spec fn heap_grown(earlier: HeapView, later: HeapView) -> bool {
    &&& earlier.closures.len() <= later.closures.len()
    &&& earlier.captures.len() <= later.captures.len()
    &&& earlier.cells.len() <= later.cells.len()
    &&& earlier.values.len() <= later.values.len()
    &&& earlier.objects.len() <= later.objects.len()
    &&& forall|i: int| 0 <= i < earlier.closures.len() ==> later.closures[i] == earlier.closures[i]
    &&& forall|i: int| 0 <= i < earlier.captures.len() ==> later.captures[i] == earlier.captures[i]
    &&& forall|i: int| 0 <= i < earlier.objects.len() ==> later.objects[i] == earlier.objects[i]
    &&& forall|i: int|
        0 <= i < earlier.cells.len() ==> #[trigger] later.cells[i] == earlier.cells[i] || (
        earlier.cells[i] is Stack && later.cells[i] is Heap)
}

/// Growth of heaps is transitive.
pub proof fn lemma_heap_grown_twice(first: HeapView, second: HeapView, third: HeapView)
    requires
        heap_grown(first, second),
        heap_grown(second, third),
    ensures
        heap_grown(first, third),
{
    assert forall|i: int| 0 <= i < first.cells.len() implies #[trigger] third.cells[i]
        == first.cells[i] || (first.cells[i] is Stack && third.cells[i] is Heap) by {
        let middle = second.cells[i];
    }
}

/// Pushing a value that points into the heap keeps a machine free of
/// dangling handles.
pub proof fn lemma_push_valid(machine: Machine, value: Value)
    requires
        machine.valid(),
        machine.heap.valid_value(value),
        machine.stack.len() < usize::MAX,
    ensures
        machine.push(value).valid(),
{
    let next = machine.push(value);
    assert forall|i: int| 0 <= i < next.stack.len() implies next.heap.valid_value(
        #[trigger] next.stack[i],
    ) by {
        if i < machine.stack.len() {
            assert(machine.heap.valid_value(machine.stack[i]));
        }
    }
    assert forall|i: int| 0 <= i < next.heap.cells.len() implies (
    #[trigger] next.heap.cells[i] matches ClosureValueRef::Stack(slot) ==> slot
        < next.stack.len()) by {
        let cell = machine.heap.cells[i];
    }
}

/// Popping keeps a machine free of dangling handles, and the popped value
/// points into the heap as it is after the pop.
pub proof fn lemma_pop_valid(machine: Machine)
    requires
        machine.valid(),
        machine.pop() is Ok,
    ensures
        machine.pop()->Ok_0.0.valid(),
        machine.pop()->Ok_0.0.heap.valid_value(machine.pop()->Ok_0.1),
        machine.pop()->Ok_0.0.stack.len() + 1 == machine.stack.len(),
        machine.pop()->Ok_0.0.finished == machine.finished,
        machine.pop()->Ok_0.0.call == machine.call,
        machine.pop()->Ok_0.0.frames == machine.frames,
        heap_grown(machine.heap, machine.pop()->Ok_0.0.heap),
{
    let next = machine.pop()->Ok_0.0;
    let top = machine.stack.len() - 1;
    assert(machine.heap.valid_value(machine.stack[top]));
    assert forall|i: int| 0 <= i < next.stack.len() implies next.heap.valid_value(
        #[trigger] next.stack[i],
    ) by {
        assert(machine.heap.valid_value(machine.stack[i]));
    }
    assert forall|i: int| 0 <= i < next.heap.values.len() implies next.heap.valid_value(
        #[trigger] next.heap.values[i],
    ) by {
        if i < machine.heap.values.len() {
            assert(machine.heap.valid_value(machine.heap.values[i]));
        }
    }
    assert forall|i: int| 0 <= i < next.heap.cells.len() implies (
    #[trigger] next.heap.cells[i] matches ClosureValueRef::Stack(slot) ==> slot
        < next.stack.len()) by {
        if next.heap.cells[i] is Stack {
            assert(next.heap.cells[i] == machine.heap.cells[i]);
            if machine.heap.cells[i] == ClosureValueRef::Stack(top as usize) {
                assert(has_open(machine.heap.cells, top));
            }
        }
    }
    assert forall|i: int| 0 <= i < next.heap.cells.len() implies (
    #[trigger] next.heap.cells[i] matches ClosureValueRef::Heap(ptr) ==> ptr.index
        < next.heap.values.len()) by {
        let cell = machine.heap.cells[i];
    }
    assert forall|i: int| 0 <= i < next.heap.objects.len() implies next.heap.valid_object(
        #[trigger] next.heap.objects[i],
    ) by {
        assert(machine.heap.valid_object(machine.heap.objects[i]));
    }
    assert forall|i: int| 0 <= i < next.heap.captures.len() implies next.heap.valid_cell_handle(
        #[trigger] next.heap.captures[i],
    ) by {
        assert(machine.heap.valid_cell_handle(machine.heap.captures[i]));
    }
    assert forall|i: int| 0 <= i < next.frames.len() implies next.heap.valid_call(
        #[trigger] next.frames[i],
    ) by {
        assert(machine.heap.valid_call(machine.frames[i]));
    }
}

/// Popping several slots keeps a machine free of dangling handles.
pub proof fn lemma_drop_valid(machine: Machine, n: nat)
    requires
        machine.valid(),
        machine.drop_n(n) is Ok,
    ensures
        machine.drop_n(n)->Ok_0.valid(),
        machine.drop_n(n)->Ok_0.stack.len() + n == machine.stack.len(),
        machine.drop_n(n)->Ok_0.finished == machine.finished,
        machine.drop_n(n)->Ok_0.call == machine.call,
        machine.drop_n(n)->Ok_0.frames == machine.frames,
        heap_grown(machine.heap, machine.drop_n(n)->Ok_0.heap),
    decreases n,
{
    if n > 0 {
        lemma_pop_valid(machine);
        let next = machine.pop()->Ok_0.0;
        lemma_drop_valid(next, (n - 1) as nat);
    }
}

/// A binary operation keeps a machine free of dangling handles.
pub proof fn lemma_binary_valid(machine: Machine, op: Opcode)
    requires
        machine.valid(),
        machine.binary(op) is Ok,
    ensures
        machine.binary(op)->Ok_0.0.valid(),
{
    lemma_pop_valid(machine);
    let first = machine.pop()->Ok_0.0;
    let rhs = machine.pop()->Ok_0.1;
    lemma_pop_valid(first);
    let second = first.pop()->Ok_0.0;
    let lhs = first.pop()->Ok_0.1;
    let next = second.apply_binary(op, lhs, rhs)->Ok_0.0;
    if next != second {
        let pushed = next.stack.last();
        assert(next == second.push(pushed));
        lemma_push_valid(second, pushed);
    }
}

/// Loading a local keeps a machine free of dangling handles.
pub proof fn lemma_load_valid(machine: Machine, slot: int)
    requires
        machine.valid(),
        machine.stack.len() < usize::MAX,
        0 <= slot,
        machine.load(slot) is Ok,
    ensures
        machine.load(slot)->Ok_0.0.valid(),
{
    let index = machine.call.frame + slot;
    assert(machine.heap.valid_value(machine.stack[index]));
    lemma_push_valid(machine, machine.stack[index]);
}

/// Overwriting a stack slot with a value that points into the heap keeps
/// a machine free of dangling handles.
pub proof fn lemma_update_valid(machine: Machine, index: int, value: Value)
    requires
        machine.valid(),
        0 <= index < machine.stack.len(),
        machine.heap.valid_value(value),
    ensures
        (Machine { stack: machine.stack.update(index, value), ..machine }).valid(),
{
    let next = Machine { stack: machine.stack.update(index, value), ..machine };
    assert forall|i: int| 0 <= i < next.stack.len() implies next.heap.valid_value(
        #[trigger] next.stack[i],
    ) by {
        if i != index {
            assert(machine.heap.valid_value(machine.stack[i]));
        }
    }
}

/// Storing into a local keeps a machine free of dangling handles.
pub proof fn lemma_store_valid(machine: Machine, slot: int)
    requires
        machine.valid(),
        0 <= slot,
        machine.store(slot) is Ok,
    ensures
        machine.store(slot)->Ok_0.0.valid(),
{
    lemma_pop_valid(machine);
    let next = machine.pop()->Ok_0.0;
    lemma_update_valid(next, next.call.frame + slot, machine.pop()->Ok_0.1);
}

/// A conditional jump keeps a machine free of dangling handles.
pub proof fn lemma_jump_if_not_valid(machine: Machine, target: usize)
    requires
        machine.valid(),
        machine.jump_if_not(target) is Ok,
    ensures
        machine.jump_if_not(target)->Ok_0.0.valid(),
{
    lemma_pop_valid(machine);
}

/// The upvalue cells of the running closure are cells of the heap, and the
/// captured variable behind each holds a value that points into the heap.
pub proof fn lemma_upvalue_valid(machine: Machine, index: int)
    requires
        machine.valid(),
        !machine.finished,
        machine.upvalue(index) is Some,
    ensures
        machine.heap.valid_cell_handle(machine.upvalue(index)->0),
        machine.heap.valid_value(machine.read_cell(machine.upvalue(index)->0)),
{
    let closure = machine.closure();
    assert(machine.heap.valid_closure(machine.heap.closures[machine.call.closure.index as int]));
    let cell = machine.heap.captures[closure.closure_values.start + index];
    assert(machine.heap.valid_cell_handle(cell));
    match machine.heap.cells[cell.index as int] {
        ClosureValueRef::Stack(slot) => {
            assert(machine.heap.valid_value(machine.stack[slot as int]));
        },
        ClosureValueRef::Heap(ptr) => {
            assert(machine.heap.valid_value(machine.heap.values[ptr.index as int]));
        },
    }
}

/// Loading a captured variable keeps a machine free of dangling handles.
pub proof fn lemma_closure_load_valid(machine: Machine, index: int)
    requires
        machine.valid(),
        !machine.finished,
        machine.stack.len() < usize::MAX,
        machine.closure_load(index) is Ok,
    ensures
        machine.closure_load(index)->Ok_0.0.valid(),
{
    lemma_upvalue_valid(machine, index);
    lemma_push_valid(machine, machine.read_cell(machine.upvalue(index)->0));
}

/// Storing a value that points into the heap into a captured variable
/// keeps a machine free of dangling handles.
pub proof fn lemma_write_cell_valid(machine: Machine, cell: HeapPtr, value: Value)
    requires
        machine.valid(),
        machine.heap.valid_cell_handle(cell),
        machine.heap.valid_value(value),
    ensures
        machine.write_cell(cell, value).valid(),
{
    let next = machine.write_cell(cell, value);
    match machine.heap.cells[cell.index as int] {
        ClosureValueRef::Stack(slot) => {
            lemma_update_valid(machine, slot as int, value);
        },
        ClosureValueRef::Heap(ptr) => {
            assert forall|i: int| 0 <= i < next.heap.values.len() implies next.heap.valid_value(
                #[trigger] next.heap.values[i],
            ) by {
                if i != ptr.index {
                    assert(machine.heap.valid_value(machine.heap.values[i]));
                }
            }
            assert forall|i: int| 0 <= i < next.stack.len() implies next.heap.valid_value(
                #[trigger] next.stack[i],
            ) by {
                assert(machine.heap.valid_value(machine.stack[i]));
            }
            assert forall|i: int| 0 <= i < next.heap.objects.len() implies next.heap.valid_object(
                #[trigger] next.heap.objects[i],
            ) by {
                assert(machine.heap.valid_object(machine.heap.objects[i]));
            }
            assert forall|i: int|
                0 <= i < next.heap.captures.len() implies next.heap.valid_cell_handle(
                #[trigger] next.heap.captures[i],
            ) by {
                assert(machine.heap.valid_cell_handle(machine.heap.captures[i]));
            }
            assert forall|i: int| 0 <= i < next.heap.closures.len() implies next.heap.valid_closure(
                #[trigger] next.heap.closures[i],
            ) by {
                assert(machine.heap.valid_closure(machine.heap.closures[i]));
            }
            assert forall|i: int| 0 <= i < next.frames.len() implies next.heap.valid_call(
                #[trigger] next.frames[i],
            ) by {
                assert(machine.heap.valid_call(machine.frames[i]));
            }
        },
    }
}

/// Storing into a captured variable keeps a machine free of dangling
/// handles.
pub proof fn lemma_closure_store_valid(machine: Machine, index: int)
    requires
        machine.valid(),
        !machine.finished,
        machine.closure_store(index) is Ok,
    ensures
        machine.closure_store(index)->Ok_0.0.valid(),
{
    lemma_pop_valid(machine);
    let next = machine.pop()->Ok_0.0;
    lemma_upvalue_valid(next, index);
    lemma_write_cell_valid(next, next.upvalue(index)->0, machine.pop()->Ok_0.1);
}

/// Reading a property keeps a machine free of dangling handles.
pub proof fn lemma_prop_load_valid(machine: Machine, symbol: int, names: Seq<Seq<char>>)
    requires
        machine.valid(),
        machine.prop_load(symbol, names) is Ok,
    ensures
        machine.prop_load(symbol, names)->Ok_0.0.valid(),
{
    lemma_pop_valid(machine);
    let next = machine.pop()->Ok_0.0;
    let after = machine.prop_load(symbol, names)->Ok_0.0;
    lemma_push_valid(next, after.stack.last());
}

/// A heap that another record was appended to, with nothing else changed,
/// stays closed under its handles if the new record is.
pub proof fn lemma_append_valid(machine: Machine, next: Machine)
    requires
        machine.valid(),
        next.heap.fits(),
        heap_grown(machine.heap, next.heap),
        next.heap.values == machine.heap.values,
        next.stack == machine.stack,
        next.frames == machine.frames,
        next.finished || next.heap.valid_call(next.call),
        forall|i: int|
            0 <= i < machine.heap.cells.len() ==> next.heap.cells[i] == machine.heap.cells[i],
        forall|i: int|
            machine.heap.cells.len() <= i < next.heap.cells.len() ==> (
            #[trigger] next.heap.cells[i] matches ClosureValueRef::Stack(slot) ==> slot
                < next.stack.len()),
        forall|i: int|
            machine.heap.cells.len() <= i < next.heap.cells.len() ==> (
            #[trigger] next.heap.cells[i] matches ClosureValueRef::Heap(ptr) ==> ptr.index
                < next.heap.values.len()),
        forall|i: int|
            machine.heap.captures.len() <= i < next.heap.captures.len()
                ==> next.heap.valid_cell_handle(#[trigger] next.heap.captures[i]),
        forall|i: int|
            machine.heap.closures.len() <= i < next.heap.closures.len() ==> next.heap.valid_closure(
                #[trigger] next.heap.closures[i],
            ),
        forall|i: int|
            machine.heap.objects.len() <= i < next.heap.objects.len() ==> next.heap.valid_object(
                #[trigger] next.heap.objects[i],
            ),
    ensures
        next.valid(),
{
    assert forall|i: int| 0 <= i < next.heap.values.len() implies next.heap.valid_value(
        #[trigger] next.heap.values[i],
    ) by {
        assert(machine.heap.valid_value(machine.heap.values[i]));
    }
    assert forall|i: int| 0 <= i < next.stack.len() implies next.heap.valid_value(
        #[trigger] next.stack[i],
    ) by {
        assert(machine.heap.valid_value(machine.stack[i]));
    }
    assert forall|i: int| 0 <= i < next.heap.cells.len() implies (
    #[trigger] next.heap.cells[i] matches ClosureValueRef::Heap(ptr) ==> ptr.index
        < next.heap.values.len()) by {
        if i < machine.heap.cells.len() {
            let cell = machine.heap.cells[i];
        }
    }
    assert forall|i: int| 0 <= i < next.heap.cells.len() implies (
    #[trigger] next.heap.cells[i] matches ClosureValueRef::Stack(slot) ==> slot
        < next.stack.len()) by {
        if i < machine.heap.cells.len() {
            let cell = machine.heap.cells[i];
        }
    }
    assert forall|i: int| 0 <= i < next.heap.captures.len() implies next.heap.valid_cell_handle(
        #[trigger] next.heap.captures[i],
    ) by {
        if i < machine.heap.captures.len() {
            assert(machine.heap.valid_cell_handle(machine.heap.captures[i]));
        }
    }
    assert forall|i: int| 0 <= i < next.heap.closures.len() implies next.heap.valid_closure(
        #[trigger] next.heap.closures[i],
    ) by {
        if i < machine.heap.closures.len() {
            assert(machine.heap.valid_closure(machine.heap.closures[i]));
        }
    }
    assert forall|i: int| 0 <= i < next.heap.objects.len() implies next.heap.valid_object(
        #[trigger] next.heap.objects[i],
    ) by {
        if i < machine.heap.objects.len() {
            assert(machine.heap.valid_object(machine.heap.objects[i]));
        }
    }
    assert forall|i: int| 0 <= i < next.frames.len() implies next.heap.valid_call(
        #[trigger] next.frames[i],
    ) by {
        assert(machine.heap.valid_call(machine.frames[i]));
    }
}

/// Resolving a capture descriptor keeps a machine free of dangling
/// handles, and yields a cell of the heap.
pub proof fn lemma_capture_valid(machine: Machine, descriptor: ClosureValue)
    requires
        machine.valid(),
        !machine.finished,
        machine.capture(descriptor) is Ok,
    ensures
        machine.capture(descriptor)->Ok_0.0.valid(),
        machine.capture(descriptor)->Ok_0.0.heap.valid_cell_handle(
            machine.capture(descriptor)->Ok_0.1,
        ),
        machine.capture(descriptor)->Ok_0.0.stack == machine.stack,
        machine.capture(descriptor)->Ok_0.0.call == machine.call,
        machine.capture(descriptor)->Ok_0.0.frames == machine.frames,
        machine.capture(descriptor)->Ok_0.0.finished == machine.finished,
        machine.capture(descriptor)->Ok_0.0.heap.closures == machine.heap.closures,
        heap_grown(machine.heap, machine.capture(descriptor)->Ok_0.0.heap),
{
    match descriptor {
        ClosureValue::Outer(index) => {
            lemma_upvalue_valid(machine, index as int);
        },
        ClosureValue::Stack(slot) => {
            lemma_append_valid(machine, machine.capture(descriptor)->Ok_0.0);
        },
    }
}

/// Resolving capture descriptors keeps a machine free of dangling
/// handles, and yields cells of the heap.
pub proof fn lemma_capture_from_valid(
    machine: Machine,
    descriptors: Seq<ClosureValue>,
    from: int,
    cells: Seq<HeapPtr>,
)
    requires
        machine.valid(),
        !machine.finished,
        0 <= from,
        forall|i: int| 0 <= i < cells.len() ==> machine.heap.valid_cell_handle(#[trigger] cells[i]),
        machine.capture_from(descriptors, from, cells) is Ok,
    ensures
        machine.capture_from(descriptors, from, cells)->Ok_0.0.valid(),
        forall|i: int|
            0 <= i < machine.capture_from(descriptors, from, cells)->Ok_0.1.len()
                ==> machine.capture_from(descriptors, from, cells)->Ok_0.0.heap.valid_cell_handle(
                #[trigger] machine.capture_from(descriptors, from, cells)->Ok_0.1[i],
            ),
        machine.capture_from(descriptors, from, cells)->Ok_0.0.stack == machine.stack,
        machine.capture_from(descriptors, from, cells)->Ok_0.0.call == machine.call,
        machine.capture_from(descriptors, from, cells)->Ok_0.0.frames == machine.frames,
        machine.capture_from(descriptors, from, cells)->Ok_0.0.finished == machine.finished,
        machine.capture_from(descriptors, from, cells)->Ok_0.0.heap.closures
            == machine.heap.closures,
        heap_grown(machine.heap, machine.capture_from(descriptors, from, cells)->Ok_0.0.heap),
    decreases descriptors.len() - from,
{
    if from < descriptors.len() {
        lemma_capture_valid(machine, descriptors[from]);
        let next = machine.capture(descriptors[from])->Ok_0.0;
        let cell = machine.capture(descriptors[from])->Ok_0.1;
        let more = cells.push(cell);
        assert forall|i: int| 0 <= i < more.len() implies next.heap.valid_cell_handle(
            #[trigger] more[i],
        ) by {
            if i < cells.len() {
                assert(machine.heap.valid_cell_handle(cells[i]));
            }
        }
        lemma_capture_from_valid(next, descriptors, from + 1, more);
    }
}

/// Making a closure keeps a machine free of dangling handles.
pub proof fn lemma_push_func_valid(machine: Machine, index: int, funcs: Seq<Func>)
    requires
        machine.valid(),
        !machine.finished,
        machine.stack.len() < usize::MAX,
        0 <= index,
        machine.push_func(index, funcs) is Ok,
    ensures
        machine.push_func(index, funcs)->Ok_0.0.valid(),
{
    let descriptors = funcs[index].closure_scope@;
    lemma_capture_from_valid(machine, descriptors, 0, Seq::empty());
    let next = machine.capture_from(descriptors, 0, Seq::empty())->Ok_0.0;
    let cells = machine.capture_from(descriptors, 0, Seq::empty())->Ok_0.1;
    let made = Machine { heap: next.heap.push_closure(index as usize, cells), ..next };
    assert forall|i: int|
        next.heap.captures.len() <= i < made.heap.captures.len() implies made.heap.valid_cell_handle(
        #[trigger] made.heap.captures[i],
    ) by {
        assert(made.heap.captures[i] == cells[i - next.heap.captures.len()]);
        assert(next.heap.valid_cell_handle(cells[i - next.heap.captures.len()]));
    }
    lemma_append_valid(next, made);
    lemma_push_valid(made, Value::Closure(HeapPtr { index: next.heap.closures.len() as usize }));
}

/// Making a list keeps a machine free of dangling handles.
pub proof fn lemma_push_list_valid(machine: Machine, length: int)
    requires
        machine.valid(),
        machine.stack.len() - length < usize::MAX,
        0 <= length <= u32::MAX,
        machine.push_list(length) is Ok,
    ensures
        machine.push_list(length)->Ok_0.0.valid(),
{
    let elements = machine.stack.skip(machine.stack.len() - length);
    let filled = Machine {
        heap: HeapView { values: machine.heap.values + elements, ..machine.heap },
        ..machine
    };
    assert forall|i: int| 0 <= i < filled.heap.values.len() implies filled.heap.valid_value(
        #[trigger] filled.heap.values[i],
    ) by {
        if i < machine.heap.values.len() {
            assert(machine.heap.valid_value(machine.heap.values[i]));
        } else {
            let k = i - machine.heap.values.len() + machine.stack.len() - length;
            assert(filled.heap.values[i] == machine.stack[k]);
            assert(machine.heap.valid_value(machine.stack[k]));
        }
    }
    assert forall|i: int| 0 <= i < filled.heap.cells.len() implies (
    #[trigger] filled.heap.cells[i] matches ClosureValueRef::Heap(ptr) ==> ptr.index
        < filled.heap.values.len()) by {
        let cell = machine.heap.cells[i];
    }
    assert forall|i: int| 0 <= i < filled.heap.objects.len() implies filled.heap.valid_object(
        #[trigger] filled.heap.objects[i],
    ) by {
        assert(machine.heap.valid_object(machine.heap.objects[i]));
    }
    assert forall|i: int| 0 <= i < filled.stack.len() implies filled.heap.valid_value(
        #[trigger] filled.stack[i],
    ) by {
        assert(machine.heap.valid_value(machine.stack[i]));
    }
    assert(filled.valid());
    lemma_drop_valid(filled, length as nat);
    let next = filled.drop_n(length as nat)->Ok_0;
    let object = machine.push_list(length)->Ok_0.0.heap.objects.last();
    let made = Machine { heap: next.heap.push_object(object), ..next };
    lemma_append_valid(next, made);
    lemma_push_valid(made, Value::RustValue(HeapPtr { index: next.heap.objects.len() as usize }));
}

/// A call keeps a machine free of dangling handles.
pub proof fn lemma_enter_valid(machine: Machine, argc: int, funcs: Seq<Func>)
    requires
        machine.valid(),
        !machine.finished,
        machine.enter(argc, funcs) is Ok,
    ensures
        machine.enter(argc, funcs)->Ok_0.0.valid(),
{
    lemma_pop_valid(machine);
    let next = machine.pop()->Ok_0.0;
    let entered = machine.enter(argc, funcs)->Ok_0.0;
    assert forall|i: int| 0 <= i < entered.frames.len() implies entered.heap.valid_call(
        #[trigger] entered.frames[i],
    ) by {
        if i < next.frames.len() {
            assert(next.heap.valid_call(next.frames[i]));
        }
    }
}

/// A return keeps a machine free of dangling handles.
pub proof fn lemma_leave_valid(machine: Machine, funcs: Seq<Func>)
    requires
        machine.valid(),
        !machine.finished,
        machine.leave(funcs) is Ok,
    ensures
        machine.leave(funcs)->Ok_0.0.valid(),
{
    let count = funcs[machine.closure().func_id as int].param_count as nat;
    lemma_drop_valid(machine, count);
    let next = machine.drop_n(count)->Ok_0;
    let left = machine.leave(funcs)->Ok_0.0;
    assert(next.heap.valid_call(next.frames[next.frames.len() - 1]));
    assert forall|i: int| 0 <= i < left.frames.len() implies left.heap.valid_call(
        #[trigger] left.frames[i],
    ) by {
        assert(next.heap.valid_call(next.frames[i]));
    }
}

/// Making a machine ready to run keeps it free of dangling handles.
pub proof fn lemma_start_valid(machine: Machine, entry: int, funcs: Seq<Func>)
    requires
        machine.valid(),
        machine.start(entry, funcs) is Ok,
    ensures
        machine.start(entry, funcs)->Ok_0.valid(),
{
    let next = machine.start(entry, funcs)->Ok_0;
    let grown = Machine { heap: next.heap, call: next.call, finished: false, ..machine };
    assert(next.heap.captures =~= machine.heap.captures);
    lemma_append_valid(machine, grown);
}

/// The operand of a decoded instruction fits the width that its opcode
/// gives it.
pub proof fn lemma_operand_fits(code: Seq<u8>, pc: int)
    requires
        decode_at(code, pc) is Some,
    ensures
        decode_at(code, pc)->0.opcode.operand_width() == 0 ==> decode_at(code, pc)->0.operand == 0,
        decode_at(code, pc)->0.opcode.operand_width() == 1 ==> decode_at(code, pc)->0.operand
            <= u8::MAX,
        decode_at(code, pc)->0.opcode.operand_width() == 4 ==> decode_at(code, pc)->0.operand
            <= u32::MAX,
        pc < decode_at(code, pc)->0.next <= code.len(),
{
}

/// No instruction makes a handle dangle: whatever an instruction does to
/// a machine that is free of dangling handles, the machine stays so.
pub proof fn lemma_execute_valid(
    machine: Machine,
    opcode: Opcode,
    operand: u64,
    funcs: Seq<Func>,
    names: Seq<Seq<char>>,
)
    requires
        machine.valid(),
        !machine.finished,
        machine.stack.len() < usize::MAX,
        opcode.operand_width() <= 4 ==> operand <= u32::MAX,
        machine.execute(opcode, operand, funcs, names) is Ok,
    ensures
        machine.execute(opcode, operand, funcs, names)->Ok_0.0.valid(),
{
    match opcode {
        Opcode::PushInt | Opcode::PushFloat | Opcode::PushTrue | Opcode::PushFalse | Opcode::PushNone => {
            lemma_push_valid(
                machine,
                machine.execute(opcode, operand, funcs, names)->Ok_0.0.stack.last(),
            );
        },
        Opcode::PushFunc => lemma_push_func_valid(machine, operand as int, funcs),
        Opcode::PushLoad => lemma_load_valid(machine, operand as int),
        Opcode::PushClosureLoad => lemma_closure_load_valid(machine, operand as int),
        Opcode::PushList => lemma_push_list_valid(machine, operand as int),
        Opcode::PushPropLoad => lemma_prop_load_valid(machine, operand as int, names),
        Opcode::PopStore => lemma_store_valid(machine, operand as int),
        Opcode::PopPrint => lemma_pop_valid(machine),
        Opcode::PopPropStore => {},
        Opcode::PopClosureStore => lemma_closure_store_valid(machine, operand as int),
        Opcode::Jump => {},
        Opcode::JumpIfNot => lemma_jump_if_not_valid(machine, operand as usize),
        Opcode::Drop => lemma_drop_valid(machine, operand as nat),
        Opcode::Call => lemma_enter_valid(machine, operand as int, funcs),
        Opcode::Return => lemma_leave_valid(machine, funcs),
        Opcode::Finish => {},
        _ => lemma_binary_valid(machine, opcode),
    }
}

/// No step makes a handle dangle: every upvalue of every closure keeps
/// pointing to a live stack slot or to a value cell of the heap, whatever
/// the bytecode is.
pub proof fn lemma_step_valid(machine: Machine, funcs: Seq<Func>, names: Seq<Seq<char>>)
    requires
        machine.valid(),
        machine.stack.len() < usize::MAX,
        machine.step(funcs, names) is Ok,
    ensures
        machine.step(funcs, names)->Ok_0.0.valid(),
{
    if !machine.finished {
        let code = funcs[machine.closure().func_id as int].bytecode@;
        lemma_operand_fits(code, machine.call.pc as int);
        let instruction = decode_at(code, machine.call.pc as int)->0;
        lemma_execute_valid(
            machine.at(instruction.next),
            instruction.opcode,
            instruction.operand,
            funcs,
            names,
        );
    }
}

} // verus!
