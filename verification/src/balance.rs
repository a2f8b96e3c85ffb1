//! The static model of the stack: the height that the stack of a frame has
//! at each instruction of a function, told from the bytecode alone, and the
//! proof that the machine keeps to it.

use vstd::prelude::*;
use crate::func::{decode, decode_at, ClosureValue, Func, FuncView};
use crate::heap::HeapPtr;
use crate::heap::HeapView;
use crate::laws::{lemma_execute_grows, lemma_step_stack_height, stack_effect};
use crate::opcode::Opcode;
use crate::semantics::{Call, Event, Machine, RuntimeError};
use crate::value::Closure;
use crate::soundness::{heap_grown, lemma_drop_valid, lemma_operand_fits, lemma_pop_valid};
use crate::value::Value;

verus! {

/// The static heights of a function: for each offset of its code, the
/// number of slots that the frame holds when the machine is about to run
/// the instruction at that offset, the return slot included; `None` for an
/// offset that the model does not reach.
pub type Shape = Seq<Option<int>>;

/// The model that heights of 32 bits stand for.
pub open spec fn widen(heights: Seq<Option<u32>>) -> Shape {
    Seq::new(
        heights.len(),
        |offset: int|
            match heights[offset] {
                Some(height) => Some(height as int),
                None => None,
            },
    )
}

/// The model gives the offset `pc` the height `height`.
pub open spec fn has_height(shape: Shape, pc: int, height: int) -> bool {
    &&& 0 <= pc < shape.len()
    &&& shape[pc] is Some
    &&& shape[pc]->0 == height
}

/// The least height that a frame must have for the instruction to find
/// its operands in the frame: the values that it pops, and the local that
/// it loads or stores.
pub open spec fn needs(opcode: Opcode, operand: u64) -> int {
    match opcode {
        Opcode::PushInt
        | Opcode::PushFloat
        | Opcode::PushTrue
        | Opcode::PushFalse
        | Opcode::PushNone
        | Opcode::PushFunc
        | Opcode::PushClosureLoad
        | Opcode::Jump
        | Opcode::Finish
        | Opcode::PopPropStore
        | Opcode::Return => 0,
        Opcode::PushLoad => operand + 1,
        Opcode::PopStore => operand + 2,
        Opcode::PushList | Opcode::Drop => operand as int,
        Opcode::PushPropLoad | Opcode::PopPrint | Opcode::PopClosureStore | Opcode::JumpIfNot => 1,
        Opcode::Call => operand + 2,
        _ => 2,
    }
}

/// The heights around the instruction at `pc` fit together: each
/// instruction that can run next finds the height that this one leaves.
/// A call leaves its return slot in the place of the return slot, the
/// arguments and the callee; a return needs the frame to hold the return
/// slot and the parameters and nothing else.
pub open spec fn fits_at(code: Seq<u8>, param_count: u8, shape: Shape, pc: int) -> bool {
    shape[pc] matches Some(height) ==> (match decode_at(code, pc) {
        None => false,
        Some(instruction) => {
            let next = instruction.next as int;
            let operand = instruction.operand as int;
            match instruction.opcode {
                Opcode::Jump => has_height(shape, operand, height as int),
                Opcode::JumpIfNot => has_height(shape, operand, height - 1) && has_height(
                    shape,
                    next,
                    height - 1,
                ),
                Opcode::Return => height == 1 + param_count,
                Opcode::Finish => true,
                Opcode::Call => has_height(shape, next, height - 1 - operand),
                _ => has_height(
                    shape,
                    next,
                    height + stack_effect(instruction.opcode, instruction.operand, param_count),
                ),
            }
        },
    })
}

/// The instruction at `pc`, if the model reaches it, finds its operands in
/// the frame.
pub open spec fn roomy_at(code: Seq<u8>, shape: Shape, pc: int) -> bool {
    shape[pc] matches Some(height) ==> (decode_at(code, pc) matches Some(instruction)
        && height >= needs(instruction.opcode, instruction.operand))
}

/// The function is balanced under the model `shape`: the model starts with
/// the return slot and the parameters, its heights fit together at every
/// instruction that it reaches, and every such instruction finds its
/// operands in the frame.
pub open spec fn balanced(func: FuncView, shape: Shape) -> bool {
    &&& shape.len() == func.bytecode.len() + 1
    &&& shape[0] == Some(1 + func.param_count as int)
    &&& forall|pc: int|
        0 <= pc < shape.len() ==> #[trigger] fits_at(func.bytecode, func.param_count, shape, pc)
    &&& forall|pc: int| 0 <= pc < shape.len() ==> #[trigger] roomy_at(func.bytecode, shape, pc)
}

/// Every function of the program is balanced under its model.
pub open spec fn all_balanced(funcs: Seq<Func>, shapes: Seq<Shape>) -> bool {
    &&& shapes.len() == funcs.len()
    &&& forall|f: int| 0 <= f < funcs.len() ==> balanced((#[trigger] funcs[f])@, shapes[f])
}

/// The frame `call` runs a function of the program, and the model of that
/// function gives its program counter the height that a stack of `top`
/// slots means for the frame.
pub open spec fn frame_agrees(
    heap: HeapView,
    funcs: Seq<Func>,
    shapes: Seq<Shape>,
    call: Call,
    top: int,
) -> bool {
    &&& call.closure.index < heap.closures.len()
    &&& heap.closures[call.closure.index as int].func_id < funcs.len()
    &&& has_height(
        shapes[heap.closures[call.closure.index as int].func_id as int],
        call.pc as int,
        top - call.frame,
    )
}

/// Where the frame above the waiting frame `index` starts.
pub open spec fn callee_base(machine: Machine, index: int) -> int {
    if index + 1 < machine.frames.len() {
        machine.frames[index + 1].frame as int
    } else {
        machine.call.frame as int
    }
}

/// The machine agrees with the static model: the height of the stack is
/// the base of the running frame plus the static height at its program
/// counter, and each waiting frame will find, when its callee has
/// returned, the height that the model gives to the instruction behind its
/// call.
pub open spec fn agrees(machine: Machine, funcs: Seq<Func>, shapes: Seq<Shape>) -> bool {
    &&& frame_agrees(machine.heap, funcs, shapes, machine.call, machine.stack.len() as int)
    &&& forall|index: int|
        0 <= index < machine.frames.len() ==> frame_agrees(
            machine.heap,
            funcs,
            shapes,
            #[trigger] machine.frames[index],
            callee_base(machine, index) + 1,
        )
}

/// A frame that agreed with the model in a heap agrees with it in every
/// heap grown from that one.
pub proof fn lemma_frame_agrees_on(
    earlier: HeapView,
    later: HeapView,
    funcs: Seq<Func>,
    shapes: Seq<Shape>,
    call: Call,
    top: int,
)
    requires
        heap_grown(earlier, later),
        frame_agrees(earlier, funcs, shapes, call, top),
    ensures
        frame_agrees(later, funcs, shapes, call, top),
{
}

/// Stack balance: in a program whose functions are balanced, the machine
/// keeps agreeing with the static model. After every step that the host
/// has nothing to answer, the height of the stack is the base of the
/// running frame plus the static height at the program counter, in the
/// running frame and, on return, in every waiting frame; after a step that
/// asks for a float operation this holds as soon as the host has pushed
/// the result.
pub proof fn lemma_step_agrees(
    machine: Machine,
    funcs: Seq<Func>,
    names: Seq<Seq<char>>,
    shapes: Seq<Shape>,
    answer: Value,
)
    requires
        machine.valid(),
        !machine.finished,
        all_balanced(funcs, shapes),
        agrees(machine, funcs, shapes),
        machine.step(funcs, names) is Ok,
    ensures
        ({
            let next = machine.step(funcs, names)->Ok_0.0;
            let event = machine.step(funcs, names)->Ok_0.1;
            &&& (event is Continue || event is Print) ==> agrees(next, funcs, shapes)
            &&& event is FloatOp ==> agrees(next.push(answer), funcs, shapes)
            &&& event is Finished ==> next.finished
        }),
{
    let func_id = machine.closure().func_id as int;
    let func = funcs[func_id];
    let shape = shapes[func_id];
    let code = func.bytecode@;
    let pc = machine.call.pc as int;
    let height = machine.stack.len() - machine.call.frame;
    assert(balanced(funcs[func_id]@, shapes[func_id]));
    assert(fits_at(code, func.param_count, shape, pc));
    let instruction = decode_at(code, pc)->0;
    let at = machine.at(instruction.next);
    let next = machine.step(funcs, names)->Ok_0.0;
    let event = machine.step(funcs, names)->Ok_0.1;
    lemma_operand_fits(code, pc);
    lemma_step_stack_height(machine, funcs, names);
    lemma_execute_grows(at, instruction.opcode, instruction.operand, funcs, names);
    assert forall|index: int| 0 <= index < machine.frames.len() implies frame_agrees(
        next.heap,
        funcs,
        shapes,
        #[trigger] machine.frames[index],
        callee_base(machine, index) + 1,
    ) by {
        lemma_frame_agrees_on(
            machine.heap,
            next.heap,
            funcs,
            shapes,
            machine.frames[index],
            callee_base(machine, index) + 1,
        );
    }
    match instruction.opcode {
        Opcode::Call => {
            lemma_pop_valid(at);
            let popped = at.pop()->Ok_0.0;
            let callee = at.pop()->Ok_0.1->Closure_0;
            let target = popped.heap.closures[callee.index as int].func_id as int;
            assert(balanced(funcs[target]@, shapes[target]));
            assert forall|index: int| 0 <= index < next.frames.len() implies frame_agrees(
                next.heap,
                funcs,
                shapes,
                #[trigger] next.frames[index],
                callee_base(next, index) + 1,
            ) by {
                if index < machine.frames.len() {
                    assert(next.frames[index] == machine.frames[index]);
                    assert(callee_base(next, index) == callee_base(machine, index));
                } else {
                    lemma_frame_agrees_on(
                        machine.heap,
                        next.heap,
                        funcs,
                        shapes,
                        at.call,
                        at.call.frame + (height - 1 - instruction.operand),
                    );
                }
            }
        },
        Opcode::Return => {
            lemma_drop_valid(at, func.param_count as nat);
            let last = machine.frames.len() - 1;
            assert(next.call == machine.frames[last]);
            assert(callee_base(machine, last) == machine.call.frame);
            assert forall|index: int| 0 <= index < next.frames.len() implies frame_agrees(
                next.heap,
                funcs,
                shapes,
                #[trigger] next.frames[index],
                callee_base(next, index) + 1,
            ) by {
                assert(next.frames[index] == machine.frames[index]);
                assert(callee_base(next, index) == callee_base(machine, index));
            }
        },
        Opcode::Jump => {},
        Opcode::JumpIfNot => {
            lemma_pop_valid(at);
        },
        Opcode::Finish => {},
        _ => {
            lemma_step_keeps_frame(machine, funcs, names);
            if event is FloatOp {
                assert(next.push(answer).stack.len() == next.stack.len() + 1);
            }
        },
    }
}

/// An instruction that neither jumps, calls nor returns leaves the machine
/// in its frame, at the instruction behind it.
pub proof fn lemma_step_keeps_frame(machine: Machine, funcs: Seq<Func>, names: Seq<Seq<char>>)
    requires
        machine.valid(),
        !machine.finished,
        machine.step(funcs, names) is Ok,
        ({
            let func = funcs[machine.closure().func_id as int];
            let opcode = decode_at(func.bytecode@, machine.call.pc as int)->0.opcode;
            !(opcode is Jump) && !(opcode is JumpIfNot) && !(opcode is Call) && !(opcode is Return)
        }),
    ensures
        ({
            let func = funcs[machine.closure().func_id as int];
            let instruction = decode_at(func.bytecode@, machine.call.pc as int)->0;
            let next = machine.step(funcs, names)->Ok_0.0;
            &&& next.call == machine.at(instruction.next).call
            &&& next.frames == machine.frames
        }),
{
    let func = funcs[machine.closure().func_id as int];
    let instruction = decode_at(func.bytecode@, machine.call.pc as int)->0;
    let at = machine.at(instruction.next);
    let operand = instruction.operand;
    match instruction.opcode {
        Opcode::PushFunc => {
            crate::soundness::lemma_capture_from_valid(
                at,
                funcs[operand as int].closure_scope@,
                0,
                Seq::empty(),
            );
        },
        Opcode::PushList => {
            let length = operand as int;
            let filled = Machine {
                heap: HeapView {
                    values: at.heap.values + at.stack.skip(at.stack.len() - length),
                    ..at.heap
                },
                ..at
            };
            crate::laws::lemma_filled_valid(at, length);
            lemma_drop_valid(filled, length as nat);
        },
        Opcode::PushPropLoad | Opcode::PopStore | Opcode::PopPrint => lemma_pop_valid(at),
        Opcode::PopClosureStore => {
            lemma_pop_valid(at);
        },
        Opcode::Drop => lemma_drop_valid(at, operand as nat),
        Opcode::PushInt
        | Opcode::PushFloat
        | Opcode::PushTrue
        | Opcode::PushFalse
        | Opcode::PushNone
        | Opcode::PushLoad
        | Opcode::PushClosureLoad
        | Opcode::PopPropStore
        | Opcode::Finish
        | Opcode::Jump
        | Opcode::JumpIfNot
        | Opcode::Call
        | Opcode::Return => {},
        _ => {
            lemma_pop_valid(at);
            lemma_pop_valid(at.pop()->Ok_0.0);
        },
    }
}

/// The closure runs a function of the program.
pub open spec fn runs_known(closure: Closure, funcs: Seq<Func>) -> bool {
    closure.func_id < funcs.len()
}

/// Every closure of the heap runs a function of the program.
pub open spec fn linked(heap: HeapView, funcs: Seq<Func>) -> bool {
    forall|i: int| 0 <= i < heap.closures.len() ==> runs_known(#[trigger] heap.closures[i], funcs)
}

/// A step makes closures of functions of the program only.
pub proof fn lemma_step_linked(machine: Machine, funcs: Seq<Func>, names: Seq<Seq<char>>)
    requires
        machine.valid(),
        !machine.finished,
        linked(machine.heap, funcs),
        funcs.len() <= usize::MAX,
        machine.step(funcs, names) is Ok,
    ensures
        linked(machine.step(funcs, names)->Ok_0.0.heap, funcs),
{
    let func = funcs[machine.closure().func_id as int];
    let instruction = decode_at(func.bytecode@, machine.call.pc as int)->0;
    let at = machine.at(instruction.next);
    let next = machine.step(funcs, names)->Ok_0.0;
    lemma_operand_fits(func.bytecode@, machine.call.pc as int);
    lemma_execute_grows(at, instruction.opcode, instruction.operand, funcs, names);
    if instruction.opcode is PushFunc {
        let index = instruction.operand as int;
        crate::soundness::lemma_capture_from_valid(
            at,
            funcs[index].closure_scope@,
            0,
            Seq::empty(),
        );
        let captured = at.capture_from(funcs[index].closure_scope@, 0, Seq::empty())->Ok_0.0;
        assert forall|i: int| 0 <= i < next.heap.closures.len() implies runs_known(
            #[trigger] next.heap.closures[i],
            funcs,
        ) by {
            if i < machine.heap.closures.len() {
                assert(runs_known(machine.heap.closures[i], funcs));
                assert(captured.heap.closures[i] == machine.heap.closures[i]);
            }
        }
    } else {
        lemma_step_makes_no_closure(machine, funcs, names);
        assert forall|i: int| 0 <= i < next.heap.closures.len() implies runs_known(
            #[trigger] next.heap.closures[i],
            funcs,
        ) by {
            assert(runs_known(machine.heap.closures[i], funcs));
        }
    }
}

/// Only `PushFunc` makes a closure.
pub proof fn lemma_step_makes_no_closure(machine: Machine, funcs: Seq<Func>, names: Seq<Seq<char>>)
    requires
        machine.valid(),
        !machine.finished,
        machine.step(funcs, names) is Ok,
        !(decode_at(
            funcs[machine.closure().func_id as int].bytecode@,
            machine.call.pc as int,
        )->0.opcode is PushFunc),
    ensures
        machine.step(funcs, names)->Ok_0.0.heap.closures == machine.heap.closures,
{
    let func = funcs[machine.closure().func_id as int];
    let instruction = decode_at(func.bytecode@, machine.call.pc as int)->0;
    let at = machine.at(instruction.next);
    let operand = instruction.operand;
    match instruction.opcode {
        Opcode::PushList => {
            let length = operand as int;
            let filled = Machine {
                heap: HeapView {
                    values: at.heap.values + at.stack.skip(at.stack.len() - length),
                    ..at.heap
                },
                ..at
            };
            lemma_drop_closures(filled, length as nat);
        },
        Opcode::PushPropLoad
        | Opcode::PopStore
        | Opcode::PopPrint
        | Opcode::JumpIfNot
        | Opcode::PopClosureStore
        | Opcode::Call => lemma_drop_closures(at, 1),
        Opcode::Drop => lemma_drop_closures(at, operand as nat),
        Opcode::Return => lemma_drop_closures(at, func.param_count as nat),
        Opcode::PushInt
        | Opcode::PushFloat
        | Opcode::PushTrue
        | Opcode::PushFalse
        | Opcode::PushNone
        | Opcode::PushLoad
        | Opcode::PushClosureLoad
        | Opcode::PopPropStore
        | Opcode::Finish
        | Opcode::PushFunc
        | Opcode::Jump => {},
        _ => {
            lemma_drop_closures(at, 1);
            if at.pop() is Ok {
                lemma_drop_closures(at.pop()->Ok_0.0, 1);
            }
        },
    }
}

/// Popping makes no closure, and runs short of values only if the stack
/// holds fewer than are popped.
pub proof fn lemma_drop_closures(machine: Machine, n: nat)
    ensures
        machine.drop_n(n) matches Ok(after) ==> after.heap.closures == machine.heap.closures
            && after.stack.len() + n == machine.stack.len() && after.call == machine.call
            && after.frames == machine.frames && after.heap.objects == machine.heap.objects,
        n == 1 ==> (machine.pop() matches Ok((after, _)) ==> machine.drop_n(1) == Ok::<
            Machine,
            RuntimeError,
        >(after)),
        n == 1 ==> (machine.pop() matches Err(error) ==> machine.drop_n(1) == Err::<
            Machine,
            RuntimeError,
        >(error)),
        machine.drop_n(n) matches Err(error) ==> error == RuntimeError::HeapExhausted || (error
            == RuntimeError::StackUnderflow && machine.stack.len() < n),
    decreases n,
{
    if n > 0 {
        match machine.pop() {
            Err(_) => {},
            Ok((next, _)) => {
                lemma_drop_closures(next, (n - 1) as nat);
            },
        }
    }
    if n == 1 {
        match machine.pop() {
            Err(_) => {},
            Ok((next, _)) => {
                assert(next.drop_n(0) == Ok::<Machine, RuntimeError>(next));
            },
        }
    }
}

/// Resolving capture descriptors fails only where a descriptor names a
/// local or a capture that is not there, or where the heap is full.
pub proof fn lemma_capture_errors(
    machine: Machine,
    descriptors: Seq<ClosureValue>,
    from: int,
    cells: Seq<HeapPtr>,
)
    ensures
        machine.capture_from(descriptors, from, cells) matches Err(error) ==> error
            == RuntimeError::InvalidCode || error == RuntimeError::HeapExhausted,
    decreases descriptors.len() - from,
{
    if 0 <= from < descriptors.len() {
        match machine.capture(descriptors[from]) {
            Err(_) => {},
            Ok((next, cell)) => {
                lemma_capture_errors(next, descriptors, from + 1, cells.push(cell));
            },
        }
    }
}

/// In a program whose functions are balanced, every instruction finds
/// what it needs in its frame: the machine never runs short of values on
/// the stack, and it never finds its code broken but where an instruction
/// names a capture or a function that is not there.
pub proof fn lemma_step_finds_operands(
    machine: Machine,
    funcs: Seq<Func>,
    names: Seq<Seq<char>>,
    shapes: Seq<Shape>,
)
    requires
        machine.valid(),
        !machine.finished,
        all_balanced(funcs, shapes),
        agrees(machine, funcs, shapes),
        linked(machine.heap, funcs),
    ensures
        machine.step(funcs, names) != Err::<(Machine, Event), RuntimeError>(
            RuntimeError::StackUnderflow,
        ),
        machine.step(funcs, names) == Err::<(Machine, Event), RuntimeError>(
            RuntimeError::InvalidCode,
        ) ==> ({
            let func = funcs[machine.closure().func_id as int];
            let opcode = decode_at(func.bytecode@, machine.call.pc as int)->0.opcode;
            opcode is PushClosureLoad || opcode is PopClosureStore || opcode is PushFunc
        }),
{
    let func_id = machine.closure().func_id as int;
    let func = funcs[func_id];
    let shape = shapes[func_id];
    let code = func.bytecode@;
    let pc = machine.call.pc as int;
    let height = machine.stack.len() - machine.call.frame;
    assert(balanced(funcs[func_id]@, shapes[func_id]));
    assert(fits_at(code, func.param_count, shape, pc));
    assert(roomy_at(code, shape, pc));
    let instruction = decode_at(code, pc)->0;
    let at = machine.at(instruction.next);
    let operand = instruction.operand;
    lemma_operand_fits(code, pc);
    match instruction.opcode {
        Opcode::PushList => {
            let length = operand as int;
            if at.heap.has_room(length as nat) {
                let filled = Machine {
                    heap: HeapView {
                        values: at.heap.values + at.stack.skip(at.stack.len() - length),
                        ..at.heap
                    },
                    ..at
                };
                lemma_drop_closures(filled, length as nat);
            }
        },
        Opcode::PushPropLoad
        | Opcode::PopStore
        | Opcode::PopPrint
        | Opcode::JumpIfNot
        | Opcode::PopClosureStore => {
            lemma_drop_closures(at, 1);
        },
        Opcode::Call => {
            lemma_drop_closures(at, 1);
            if at.pop() is Ok {
                lemma_pop_valid(at);
                let popped = at.pop()->Ok_0.0;
                match at.pop()->Ok_0.1 {
                    Value::Closure(ptr) => {
                        assert(runs_known(machine.heap.closures[ptr.index as int], funcs));
                        assert(popped.heap.closures[ptr.index as int]
                            == machine.heap.closures[ptr.index as int]);
                    },
                    _ => {},
                }
            }
        },
        Opcode::Drop => lemma_drop_closures(at, operand as nat),
        Opcode::Return => lemma_drop_closures(at, func.param_count as nat),
        Opcode::PushFunc => {
            if operand < funcs.len() {
                lemma_capture_errors(at, funcs[operand as int].closure_scope@, 0, Seq::empty());
            }
        },
        Opcode::PushInt
        | Opcode::PushFloat
        | Opcode::PushTrue
        | Opcode::PushFalse
        | Opcode::PushNone
        | Opcode::PushLoad
        | Opcode::PushClosureLoad
        | Opcode::PopPropStore
        | Opcode::Finish
        | Opcode::Jump => {},
        _ => {
            lemma_drop_closures(at, 1);
            if at.pop() is Ok {
                lemma_drop_closures(at.pop()->Ok_0.0, 1);
            }
        },
    }
}

/// A machine that was made ready to run a balanced function on a stack
/// that holds the return slot and the locals that the function takes as
/// its parameters agrees with the static model.
pub proof fn lemma_start_agrees(machine: Machine, entry: int, funcs: Seq<Func>, shapes: Seq<Shape>)
    requires
        all_balanced(funcs, shapes),
        machine.heap.fits(),
        funcs.len() <= usize::MAX,
        machine.start(entry, funcs) is Ok,
        machine.stack.len() == 1 + funcs[entry].param_count,
    ensures
        agrees(machine.start(entry, funcs)->Ok_0, funcs, shapes),
{
    assert(balanced(funcs[entry]@, shapes[entry]));
}

/// The model with the height `height` recorded for `target`, which can run
/// behind the instruction at `from`. `None` if the model has another
/// height for the target already, or if the target lies at or before the
/// instruction and the model has not reached it: the heights behind such a
/// target would have to be told again.
pub open spec fn record(shape: Shape, from: int, target: int, height: int) -> Option<Shape> {
    if target < 0 || target >= shape.len() || height < 0 || height > u32::MAX {
        None
    } else {
        match shape[target] {
            Some(known) => if known == height {
                Some(shape)
            } else {
                None
            },
            None => if target <= from {
                None
            } else {
                Some(shape.update(target, Some(height)))
            },
        }
    }
}

/// The model after the instruction at `pc` has told the heights of the
/// instructions that can run behind it.
pub open spec fn visit(code: Seq<u8>, param_count: u8, shape: Shape, pc: int) -> Option<Shape> {
    match shape[pc] {
        None => Some(shape),
        Some(height) => {
            let instruction = decode_at(code, pc)->0;
            let next = instruction.next as int;
            let operand = instruction.operand as int;
            if height < needs(instruction.opcode, instruction.operand) {
                None
            } else {
                match instruction.opcode {
                Opcode::Jump => record(shape, pc, operand, height as int),
                Opcode::JumpIfNot => match record(shape, pc, operand, height - 1) {
                    None => None,
                    Some(jumped) => record(jumped, pc, next, height - 1),
                },
                Opcode::Return => if height == 1 + param_count {
                    Some(shape)
                } else {
                    None
                },
                Opcode::Finish => Some(shape),
                Opcode::Call => record(shape, pc, next, height - 1 - operand),
                _ => record(
                    shape,
                    pc,
                    next,
                    height + stack_effect(instruction.opcode, instruction.operand, param_count),
                ),
                }
            }
        },
    }
}

/// The model has no height between the offsets `from` and `to`.
pub open spec fn blank_between(shape: Shape, from: int, to: int) -> bool {
    forall|offset: int| from < offset < to ==> (#[trigger] shape[offset]) is None
}

/// The model after one pass over the code from `pc` on, instruction by
/// instruction. `None` if the code is no sequence of whole instructions,
/// if two ways to an instruction give it different heights, if an
/// instruction does not find its operands in the frame, if a jump goes
/// into the middle of an instruction or behind the end of the code, or if
/// a height does not fit 32 bits.
pub open spec fn scan(code: Seq<u8>, param_count: u8, shape: Shape, pc: int) -> Option<Shape>
    decreases code.len() - pc,
{
    if pc < 0 || pc >= code.len() {
        if shape[code.len() as int] is None {
            Some(shape)
        } else {
            None
        }
    } else {
        match decode_at(code, pc) {
            None => None,
            Some(instruction) => match visit(code, param_count, shape, pc) {
                None => None,
                Some(visited) => if blank_between(visited, pc, instruction.next as int) {
                    scan(code, param_count, visited, instruction.next as int)
                } else {
                    None
                },
            },
        }
    }
}

/// The model that knows only how a frame starts: with the return slot and
/// the parameters.
pub open spec fn entry_shape(len: nat, param_count: u8) -> Shape {
    Seq::new(
        len + 1,
        |offset: int|
            if offset == 0 {
                Some(1 + param_count as int)
            } else {
                None
            },
    )
}

/// The static heights of a function, told in one pass over its code, if
/// the pass can tell them.
pub open spec fn static_shape(func: FuncView) -> Option<Shape> {
    if func.bytecode.len() >= usize::MAX {
        None
    } else {
        scan(func.bytecode, func.param_count, entry_shape(func.bytecode.len(), func.param_count), 0)
    }
}

/// One model knows all that another knows.
pub open spec fn extends(later: Shape, earlier: Shape) -> bool {
    &&& later.len() == earlier.len()
    &&& forall|offset: int|
        0 <= offset < earlier.len() && (#[trigger] earlier[offset]) is Some ==> later[offset]
            == earlier[offset]
}

/// A recorded height is known afterwards, and nothing that was known or
/// that lies at or before the instruction changes.
pub proof fn lemma_record(shape: Shape, from: int, target: int, height: int)
    requires
        record(shape, from, target, height) is Some,
    ensures
        has_height(record(shape, from, target, height)->0, target, height),
        extends(record(shape, from, target, height)->0, shape),
        forall|offset: int|
            0 <= offset <= from && offset < shape.len() ==> (#[trigger] record(
                shape,
                from,
                target,
                height,
            )->0[offset]) == shape[offset],
{
}

/// Heights that fit together at an instruction that a model reaches fit
/// together in every model that knows more.
pub proof fn lemma_fits_in_more(
    code: Seq<u8>,
    param_count: u8,
    earlier: Shape,
    later: Shape,
    pc: int,
)
    requires
        0 <= pc < earlier.len(),
        fits_at(code, param_count, earlier, pc),
        extends(later, earlier),
        later[pc] == earlier[pc],
    ensures
        fits_at(code, param_count, later, pc),
{
    if earlier[pc] is Some {
        let instruction = decode_at(code, pc)->0;
        let next = instruction.next as int;
        let operand = instruction.operand as int;
        if 0 <= next < earlier.len() {
            let known = earlier[next];
        }
        if 0 <= operand < earlier.len() {
            let known = earlier[operand];
        }
    }
}

/// What a pass over the code yields is a model under which the function
/// is balanced from `pc` on, if it is balanced up to there.
pub proof fn lemma_scan_balanced(code: Seq<u8>, param_count: u8, shape: Shape, pc: int)
    requires
        shape.len() == code.len() + 1,
        0 <= pc <= code.len(),
        forall|offset: int|
            0 <= offset < pc ==> #[trigger] fits_at(code, param_count, shape, offset),
        forall|offset: int| 0 <= offset < pc ==> #[trigger] roomy_at(code, shape, offset),
        scan(code, param_count, shape, pc) is Some,
    ensures
        extends(scan(code, param_count, shape, pc)->0, shape),
        forall|offset: int|
            0 <= offset < shape.len() ==> #[trigger] fits_at(
                code,
                param_count,
                scan(code, param_count, shape, pc)->0,
                offset,
            ),
        forall|offset: int|
            0 <= offset < shape.len() ==> #[trigger] roomy_at(
                code,
                scan(code, param_count, shape, pc)->0,
                offset,
            ),
        forall|offset: int|
            0 <= offset < pc ==> (#[trigger] scan(code, param_count, shape, pc)->0[offset])
                == shape[offset],
    decreases code.len() - pc,
{
    if pc < code.len() {
        let instruction = decode_at(code, pc)->0;
        let next = instruction.next as int;
        let operand = instruction.operand as int;
        let visited = visit(code, param_count, shape, pc)->0;
        lemma_operand_fits(code, pc);
        match shape[pc] {
            None => {},
            Some(height) => {
                match instruction.opcode {
                    Opcode::Jump => {
                        lemma_record(shape, pc, operand, height as int);
                    },
                    Opcode::JumpIfNot => {
                        lemma_record(shape, pc, operand, height - 1);
                        let jumped = record(shape, pc, operand, height - 1)->0;
                        lemma_record(jumped, pc, next, height - 1);
                    },
                    Opcode::Return => {},
                    Opcode::Finish => {},
                    Opcode::Call => {
                        lemma_record(shape, pc, next, height - 1 - operand);
                    },
                    _ => {
                        lemma_record(
                            shape,
                            pc,
                            next,
                            height + stack_effect(
                                instruction.opcode,
                                instruction.operand,
                                param_count,
                            ),
                        );
                    },
                }
            },
        }
        assert(extends(visited, shape));
        assert(visited[pc] == shape[pc]);
        assert(fits_at(code, param_count, visited, pc));
        assert forall|offset: int| 0 <= offset < next implies #[trigger] fits_at(
            code,
            param_count,
            visited,
            offset,
        ) by {
            if offset < pc {
                lemma_fits_in_more(code, param_count, shape, visited, offset);
            } else if offset > pc {
                assert(visited[offset] is None);
            }
        }
        assert forall|offset: int| 0 <= offset < next implies #[trigger] roomy_at(
            code,
            visited,
            offset,
        ) by {
            if offset < pc {
                assert(roomy_at(code, shape, offset));
                assert(visited[offset] == shape[offset]);
            } else if offset > pc {
                assert(visited[offset] is None);
            }
        }
        lemma_scan_balanced(code, param_count, visited, next);
        let last = scan(code, param_count, visited, next)->0;
        assert forall|offset: int|
            0 <= offset < shape.len() && (#[trigger] shape[offset]) is Some implies last[offset]
            == shape[offset] by {
            assert(visited[offset] == shape[offset]);
        }
    }
}

/// The static heights that a pass can tell make the function balanced.
pub proof fn lemma_static_shape_balanced(func: FuncView)
    requires
        static_shape(func) is Some,
    ensures
        balanced(func, static_shape(func)->0),
{
    let start = entry_shape(func.bytecode.len(), func.param_count);
    lemma_scan_balanced(func.bytecode, func.param_count, start, 0);
}

/// By how much an instruction moves the height of the stack.
pub fn effect_of(opcode: Opcode, operand: u64, param_count: u8) -> (effect: i64)
    requires
        opcode.operand_width() <= 4 ==> operand <= u32::MAX,
    ensures
        effect == stack_effect(opcode, operand, param_count),
{
    match opcode {
        Opcode::PushInt
        | Opcode::PushFloat
        | Opcode::PushTrue
        | Opcode::PushFalse
        | Opcode::PushNone
        | Opcode::PushFunc
        | Opcode::PushLoad
        | Opcode::PushClosureLoad => 1,
        Opcode::PushList => 1 - operand as i64,
        Opcode::PushPropLoad | Opcode::Jump | Opcode::Finish | Opcode::PopPropStore => 0,
        Opcode::PopStore
        | Opcode::PopPrint
        | Opcode::PopClosureStore
        | Opcode::JumpIfNot
        | Opcode::Call => -1,
        Opcode::Drop => -(operand as i64),
        Opcode::Return => -(param_count as i64),
        _ => -1,
    }
}

/// The least height that a frame must have for the instruction to find
/// its operands in the frame.
pub fn need_of(opcode: Opcode, operand: u64) -> (need: i64)
    requires
        opcode.operand_width() <= 4 ==> operand <= u32::MAX,
    ensures
        need == needs(opcode, operand),
{
    match opcode {
        Opcode::PushInt
        | Opcode::PushFloat
        | Opcode::PushTrue
        | Opcode::PushFalse
        | Opcode::PushNone
        | Opcode::PushFunc
        | Opcode::PushClosureLoad
        | Opcode::Jump
        | Opcode::Finish
        | Opcode::PopPropStore
        | Opcode::Return => 0,
        Opcode::PushLoad => operand as i64 + 1,
        Opcode::PopStore => operand as i64 + 2,
        Opcode::PushList | Opcode::Drop => operand as i64,
        Opcode::PushPropLoad | Opcode::PopPrint | Opcode::PopClosureStore | Opcode::JumpIfNot => 1,
        Opcode::Call => operand as i64 + 2,
        _ => 2,
    }
}

/// Records the height `height` for `target` in the model; `false`, and
/// the model as it was, if that cannot be.
fn note(shape: &mut Vec<Option<u32>>, from: usize, target: u64, height: i64) -> (done: bool)
    requires
        from < old(shape)@.len(),
    ensures
        match record(widen(old(shape)@), from as int, target as int, height as int) {
            Some(recorded) => done && widen(final(shape)@) == recorded,
            None => !done && final(shape)@ == old(shape)@,
        },
{
    if target >= shape.len() as u64 || height < 0 || height > u32::MAX as i64 {
        return false;
    }
    let index = target as usize;
    match shape[index] {
        Some(known) => known as i64 == height,
        None => {
            if index <= from {
                false
            } else {
                shape.set(index, Some(height as u32));
                assert(widen(shape@) =~= widen(old(shape)@).update(
                    target as int,
                    Some(height as int),
                ));
                true
            }
        },
    }
}

/// The static heights of a function: for each offset of its code, the
/// height of the frame before the instruction there, as one pass over the
/// code tells it; `None` if the pass cannot tell them.
pub fn stack_shape(func: &Func) -> (shape: Option<Vec<Option<u32>>>)
    ensures
        match static_shape(func@) {
            Some(heights) => shape matches Some(told) && widen(told@) == heights && balanced(
                func@,
                heights,
            ),
            None => shape is None,
        },
{
    let code = &func.bytecode;
    let len = code.len();
    if len >= usize::MAX {
        return None;
    }
    proof {
        if static_shape(func@) is Some {
            lemma_static_shape_balanced(func@);
        }
    }
    let mut shape: Vec<Option<u32>> = Vec::new();
    shape.push(Some(1 + func.param_count as u32));
    assert(widen(shape@) =~= entry_shape(0, func.param_count));
    let mut i: usize = 0;
    while i < len
        invariant
            i <= len,
            len < usize::MAX,
            widen(shape@) == entry_shape(i as nat, func.param_count),
        decreases len - i,
    {
        let ghost before = shape@;
        shape.push(None);
        i += 1;
        assert(widen(shape@) =~= widen(before).push(None));
        assert(widen(shape@) =~= entry_shape(i as nat, func.param_count));
    }
    let mut pc: usize = 0;
    while pc < len
        invariant
            pc <= len,
            len == code@.len(),
            len < usize::MAX,
            code == &func.bytecode,
            shape@.len() == len + 1,
            static_shape(func@) == scan(code@, func.param_count, widen(shape@), pc as int),
        decreases len - pc,
    {
        let instruction = match decode(code, pc) {
            Some(instruction) => instruction,
            None => {
                return None;
            },
        };
        proof {
            lemma_operand_fits(code@, pc as int);
        }
        let operand = instruction.operand;
        let next = instruction.next;
        let ghost before = widen(shape@);
        match shape[pc] {
            None => {},
            Some(known) => {
                let height = known as i64;
                if height < need_of(instruction.opcode, operand) {
                    return None;
                }
                let fits = match instruction.opcode {
                    Opcode::Jump => note(&mut shape, pc, operand, height),
                    Opcode::JumpIfNot => {
                        if note(&mut shape, pc, operand, height - 1) {
                            note(&mut shape, pc, next as u64, height - 1)
                        } else {
                            false
                        }
                    },
                    Opcode::Return => height == 1 + func.param_count as i64,
                    Opcode::Finish => true,
                    Opcode::Call => note(&mut shape, pc, next as u64, height - 1 - operand as i64),
                    _ => note(
                        &mut shape,
                        pc,
                        next as u64,
                        height + effect_of(instruction.opcode, operand, func.param_count),
                    ),
                };
                if !fits {
                    assert(visit(code@, func.param_count, before, pc as int) is None);
                    return None;
                }
            },
        }
        assert(visit(code@, func.param_count, before, pc as int) == Some(widen(shape@)));
        let mut offset = pc + 1;
        while offset < next
            invariant
                pc < offset <= next <= len,
                len == code@.len(),
                shape@.len() == len + 1,
                next == instruction.next,
                decode_at(code@, pc as int) == Some(instruction),
                visit(code@, func.param_count, before, pc as int) == Some(widen(shape@)),
                static_shape(func@) == scan(code@, func.param_count, before, pc as int),
                blank_between(widen(shape@), pc as int, offset as int),
            decreases next - offset,
        {
            if shape[offset].is_some() {
                assert(widen(shape@)[offset as int] is Some);
                assert(!blank_between(widen(shape@), pc as int, next as int));
                return None;
            }
            offset += 1;
        }
        pc = next;
    }
    if shape[len].is_some() {
        return None;
    }
    Some(shape)
}

} // verus!
