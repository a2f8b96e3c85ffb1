//! The static model of the compiler: while it emits the code of a function
//! it knows how many slots the frame holds, the locals in scope and the
//! values of the expression under way. This module draws the heights of
//! the whole function from that and shows that they make the function
//! balanced, where every `return` stands with no local but the parameters
//! in scope.

use vstd::prelude::*;
use crate::balance::{balanced, blank_between, fits_at, has_height, needs, roomy_at, Shape};
use crate::bytes::{lemma_u32_round_trip, lemma_u64_round_trip, u32_be, u64_be};
use crate::emitted::lemma_decode_local;
use crate::func::{
    decode_at, find_local, lemma_skeleton, operand_bytes, patched, short_instruction,
    wide_instruction, BuilderView, ClosureValue, FuncView, Jump, JumpTarget, Variable,
    MAX_LOCALS,
};
use crate::symbols::Symbol;
use crate::syntax::{
    assign_operator, binary_operator, compile, compiles_tamely, kind_at, offset_at,
    parse_assign_op, parse_block, parse_call, parse_else, parse_expr, parse_func, parse_if,
    parse_infix, parse_infix_op, parse_items, parse_list, parse_named, parse_params,
    parse_program, parse_property, parse_stmt, parse_stmts, parse_value, parse_var,
    parse_while, proceed, start_state, ParseError, ParseState, Precedence, MAX_CODE,
};
use crate::token::TokenKind;
use crate::token::Token;
use crate::laws::stack_effect;
use crate::opcode::{lemma_opcode_round_trip, Opcode};

verus! {

/// A jump that waits for its target: the offset of its operand, and the
/// height that the frame will have where the jump lands.
pub struct Waiting {
    pub offset: int,
    pub expect: int,
}

/// The height that an instruction leaves for the instruction behind it.
pub open spec fn leaves(opcode: Opcode, operand: u64, param_count: u8, height: int) -> int {
    if opcode is Call {
        height - 1 - operand
    } else {
        height + stack_effect(opcode, operand, param_count)
    }
}

/// The instruction at `pc`, if the model reaches it, finds its operands in
/// the frame, and the instructions that can run behind it find the heights
/// that it leaves; of a jump that waits for its target, the target is
/// left open.
pub open spec fn settled_at(
    code: Seq<u8>,
    param_count: u8,
    shape: Shape,
    waiting: Seq<Waiting>,
    pc: int,
) -> bool {
    shape[pc] matches Some(height) ==> (match decode_at(code, pc) {
        None => false,
        Some(instruction) => {
            let next = instruction.next as int;
            let operand = instruction.operand as int;
            &&& height >= needs(instruction.opcode, instruction.operand)
            &&& blank_between(shape, pc, next)
            &&& match instruction.opcode {
                Opcode::Jump => waiting.contains(Waiting { offset: pc + 1, expect: height })
                    || has_height(shape, operand, height),
                Opcode::JumpIfNot => has_height(shape, next, height - 1) && (waiting.contains(
                    Waiting { offset: pc + 1, expect: height - 1 },
                ) || has_height(shape, operand, height - 1)),
                Opcode::Return => height == 1 + param_count,
                Opcode::Finish => true,
                _ => has_height(
                    shape,
                    next,
                    leaves(instruction.opcode, instruction.operand, param_count, height),
                ),
            }
        },
    })
}

/// The jump `jump` is a jump of the code that the model reaches, and it
/// expects at its target the height that it leaves.
pub open spec fn waits_at(code: Seq<u8>, shape: Shape, jump: Waiting) -> bool {
    &&& 1 <= jump.offset
    &&& jump.offset + 4 <= code.len()
    &&& shape[jump.offset - 1] is Some
    &&& if code[jump.offset - 1] == Opcode::Jump.byte() {
        jump.expect == shape[jump.offset - 1]->0
    } else {
        code[jump.offset - 1] == Opcode::JumpIfNot.byte() && jump.expect == shape[jump.offset
            - 1]->0 - 1
    }
}

/// The model `shape` is a draft for the code emitted so far: it starts
/// with the return slot and the parameters, it has the height `height` for
/// the instruction that is emitted next, and all instructions emitted so
/// far are settled, but for the targets of the jumps in `waiting`. (Code
/// too long for the index type of the machine is no concern.)
pub open spec fn drafted(
    code: Seq<u8>,
    param_count: u8,
    shape: Shape,
    height: int,
    waiting: Seq<Waiting>,
) -> bool {
    &&& forall|k: int| 0 <= k < waiting.len() ==> inside(code, #[trigger] waiting[k])
    &&& code.len() <= usize::MAX ==> {
        &&& shape.len() == code.len() + 1
        &&& shape[code.len() as int] == Some(height)
        &&& code.len() > 0 ==> shape[0] == Some(1 + param_count as int)
        &&& forall|pc: int|
            0 <= pc < code.len() ==> #[trigger] settled_at(code, param_count, shape, waiting, pc)
        &&& forall|k: int| 0 <= k < waiting.len() ==> waits_at(code, shape, #[trigger] waiting[k])
    }
}

/// The operand of the jump lies inside the code.
pub open spec fn inside(code: Seq<u8>, jump: Waiting) -> bool {
    1 <= jump.offset && jump.offset + 4 <= code.len()
}

/// The model with the heights for one more instruction of `size` bytes,
/// which leaves the height `height`.
pub open spec fn grown(shape: Shape, size: int, height: int) -> Shape {
    shape + Seq::new((size - 1) as nat, |offset: int| None::<int>) + seq![Some(height)]
}

/// The bytes of an instruction decode to the instruction, wherever they
/// stand at the end of a code.
pub proof fn lemma_decode_emitted(code: Seq<u8>, opcode: Opcode, operand: u64)
    requires
        opcode.operand_width() == 0 ==> operand == 0,
        opcode.operand_width() == 1 ==> operand <= u8::MAX,
        opcode.operand_width() == 4 ==> operand <= u32::MAX,
        code.len() + 1 + opcode.operand_width() <= usize::MAX,
    ensures
        ({
            let bytes = seq![opcode.byte()] + crate::func::operand_bytes(
                opcode.operand_width(),
                operand,
            );
            &&& decode_at(code + bytes, code.len() as int) is Some
            &&& decode_at(code + bytes, code.len() as int)->0.opcode == opcode
            &&& decode_at(code + bytes, code.len() as int)->0.operand == operand
            &&& decode_at(code + bytes, code.len() as int)->0.next == code.len() + bytes.len()
            &&& bytes.len() == 1 + opcode.operand_width()
        }),
{
    let payload = crate::func::operand_bytes(opcode.operand_width(), operand);
    let bytes = seq![opcode.byte()] + payload;
    let whole = code + bytes;
    let at = code.len() as int;
    lemma_opcode_round_trip(opcode);
    if opcode.operand_width() == 4 {
        lemma_u32_round_trip(operand as u32);
    } else if opcode.operand_width() == 8 {
        lemma_u64_round_trip(operand);
    }
    assert(whole[at] == opcode.byte());
    assert(whole.subrange(at + 1, at + 1 + opcode.operand_width()) =~= payload);
}

/// What was settled in a draft stays settled when an instruction is
/// emitted behind the code.
pub proof fn lemma_settled_stays(
    code: Seq<u8>,
    param_count: u8,
    shape: Shape,
    waiting: Seq<Waiting>,
    longer: Seq<u8>,
    more: Shape,
    pc: int,
)
    requires
        0 <= pc < code.len(),
        shape.len() == code.len() + 1,
        settled_at(code, param_count, shape, waiting, pc),
        code.len() <= longer.len() <= usize::MAX,
        longer.take(code.len() as int) == code,
        shape.len() <= more.len(),
        more.take(shape.len() as int) == shape,
    ensures
        settled_at(longer, param_count, more, waiting, pc),
{
    assert(more[pc] == more.take(shape.len() as int)[pc]);
    if shape[pc] is Some {
        let instruction = decode_at(code, pc)->0;
        let next = instruction.next as int;
        let operand = instruction.operand as int;
        assert(next <= code.len());
        assert(code.subrange(pc, next) =~= longer.take(code.len() as int).subrange(pc, next));
        assert(longer.subrange(pc, next) =~= longer.take(code.len() as int).subrange(pc, next));
        lemma_decode_local(code, longer, pc, pc);
        assert(more[next] == more.take(shape.len() as int)[next]);
        if 0 <= operand < shape.len() {
            assert(more[operand] == more.take(shape.len() as int)[operand]);
        }
        assert forall|offset: int| pc < offset < next implies (#[trigger] more[offset]) is None by {
            assert(more[offset] == more.take(shape.len() as int)[offset]);
            assert(shape[offset] is None);
        }
    }
}

/// A jump that waits in a draft waits on when an instruction is emitted
/// behind the code.
pub proof fn lemma_waits_on(code: Seq<u8>, shape: Shape, longer: Seq<u8>, more: Shape, jump: Waiting)
    requires
        shape.len() == code.len() + 1,
        waits_at(code, shape, jump),
        code.len() <= longer.len(),
        longer.take(code.len() as int) == code,
        shape.len() <= more.len(),
        more.take(shape.len() as int) == shape,
    ensures
        waits_at(longer, more, jump),
{
    assert(more[jump.offset - 1] == more.take(shape.len() as int)[jump.offset - 1]);
    assert(longer[jump.offset - 1] == longer.take(code.len() as int)[jump.offset - 1]);
}

/// The draft after an instruction was emitted that runs on to the
/// instruction behind it.
pub proof fn lemma_draft_emit(
    code: Seq<u8>,
    param_count: u8,
    shape: Shape,
    height: int,
    waiting: Seq<Waiting>,
    opcode: Opcode,
    operand: u64,
)
    requires
        drafted(code, param_count, shape, height, waiting),
        opcode.operand_width() == 0 ==> operand == 0,
        opcode.operand_width() == 1 ==> operand <= u8::MAX,
        opcode.operand_width() == 4 ==> operand <= u32::MAX,
        !(opcode is Jump) && !(opcode is JumpIfNot) && !(opcode is Return) && !(opcode is Finish),
        height >= needs(opcode, operand),
        code.len() == 0 ==> height == 1 + param_count,
    ensures
        ({
            let bytes = seq![opcode.byte()] + crate::func::operand_bytes(
                opcode.operand_width(),
                operand,
            );
            let left = leaves(opcode, operand, param_count, height);
            drafted(code + bytes, param_count, grown(shape, bytes.len() as int, left), left, waiting)
        }),
{
    let bytes = seq![opcode.byte()] + crate::func::operand_bytes(opcode.operand_width(), operand);
    let left = leaves(opcode, operand, param_count, height);
    let longer = code + bytes;
    let more = grown(shape, bytes.len() as int, left);
    if longer.len() <= usize::MAX {
        lemma_decode_emitted(code, opcode, operand);
        lemma_draft_grown(code, param_count, shape, height, waiting, bytes, left);
        let at = code.len() as int;
        assert(more[at] == shape[at]);
        assert(has_height(more, at + bytes.len(), left));
        assert(settled_at(longer, param_count, more, waiting, at));
    }
}

/// What grows with a draft when the bytes of an instruction are emitted:
/// all that was settled stays settled, all jumps wait on, and the model
/// has no height inside the new instruction.
pub proof fn lemma_draft_grown(
    code: Seq<u8>,
    param_count: u8,
    shape: Shape,
    height: int,
    waiting: Seq<Waiting>,
    bytes: Seq<u8>,
    left: int,
)
    requires
        drafted(code, param_count, shape, height, waiting),
        bytes.len() >= 1,
        code.len() + bytes.len() <= usize::MAX,
        code.len() == 0 ==> height == 1 + param_count,
    ensures
        ({
            let longer = code + bytes;
            let more = grown(shape, bytes.len() as int, left);
            &&& more.len() == longer.len() + 1
            &&& more[longer.len() as int] == Some(left)
            &&& more[0] == Some(1 + param_count as int)
            &&& more[code.len() as int] == Some(height)
            &&& more.take(shape.len() as int) == shape
            &&& longer.take(code.len() as int) == code
            &&& blank_between(more, code.len() as int, longer.len() as int)
            &&& forall|pc: int|
                0 <= pc < code.len() ==> #[trigger] settled_at(
                    longer,
                    param_count,
                    more,
                    waiting,
                    pc,
                )
            &&& forall|pc: int| code.len() < pc < longer.len() ==> (#[trigger] more[pc]) is None
            &&& forall|k: int|
                0 <= k < waiting.len() ==> waits_at(longer, more, #[trigger] waiting[k])
        }),
{
    let longer = code + bytes;
    let more = grown(shape, bytes.len() as int, left);
    assert forall|k: int| 0 <= k < waiting.len() implies inside(longer, #[trigger] waiting[k]) by {
        assert(inside(code, waiting[k]));
    }
    assert(more.take(shape.len() as int) =~= shape);
    assert(longer.take(code.len() as int) =~= code);
    assert forall|pc: int| 0 <= pc < code.len() implies #[trigger] settled_at(
        longer,
        param_count,
        more,
        waiting,
        pc,
    ) by {
        lemma_settled_stays(code, param_count, shape, waiting, longer, more, pc);
    }
    assert forall|k: int| 0 <= k < waiting.len() implies waits_at(
        longer,
        more,
        #[trigger] waiting[k],
    ) by {
        lemma_waits_on(code, shape, longer, more, waiting[k]);
    }
}

/// The draft after a `Return` or a `Finish` was emitted: nothing runs on
/// from there, and the model takes the height `resume` for what is
/// emitted behind it.
pub proof fn lemma_draft_stop(
    code: Seq<u8>,
    param_count: u8,
    shape: Shape,
    height: int,
    waiting: Seq<Waiting>,
    opcode: Opcode,
    resume: int,
)
    requires
        drafted(code, param_count, shape, height, waiting),
        opcode is Return || opcode is Finish,
        opcode is Return ==> height == 1 + param_count,
        height >= 0,
        code.len() == 0 ==> height == 1 + param_count,
    ensures
        drafted(code + seq![opcode.byte()], param_count, grown(shape, 1, resume), resume, waiting),
{
    let bytes = seq![opcode.byte()];
    let longer = code + bytes;
    let more = grown(shape, 1, resume);
    if longer.len() <= usize::MAX {
        lemma_decode_emitted(code, opcode, 0);
        assert(bytes =~= seq![opcode.byte()] + crate::func::operand_bytes(0, 0));
        lemma_draft_grown(code, param_count, shape, height, waiting, bytes, resume);
        let at = code.len() as int;
        assert(settled_at(longer, param_count, more, waiting, at));
    }
}

/// The draft after a forward jump was emitted: the jump waits for its
/// target, where it expects the height that it leaves. Behind a
/// conditional jump the code runs on with that height; behind an
/// unconditional one nothing runs on, and the model takes the height
/// `resume`.
pub proof fn lemma_draft_jump(
    code: Seq<u8>,
    param_count: u8,
    shape: Shape,
    height: int,
    waiting: Seq<Waiting>,
    opcode: Opcode,
    resume: int,
)
    requires
        drafted(code, param_count, shape, height, waiting),
        opcode is Jump || opcode is JumpIfNot,
        opcode is JumpIfNot ==> height >= 1 && resume == height - 1,
        height >= 0,
        code.len() == 0 ==> height == 1 + param_count,
    ensures
        ({
            let expect = if opcode is Jump {
                height
            } else {
                height - 1
            };
            drafted(
                code + crate::func::wide_instruction(opcode, 0),
                param_count,
                grown(shape, 5, resume),
                resume,
                waiting.push(Waiting { offset: code.len() as int + 1, expect }),
            )
        }),
{
    let bytes = crate::func::wide_instruction(opcode, 0);
    let longer = code + bytes;
    let more = grown(shape, 5, resume);
    let expect = if opcode is Jump {
        height
    } else {
        height - 1
    };
    let jump = Waiting { offset: code.len() as int + 1, expect };
    let longer_waiting = waiting.push(jump);
    if longer.len() <= usize::MAX {
        lemma_decode_emitted(code, opcode, 0);
        lemma_u32_round_trip(0);
        assert(bytes =~= seq![opcode.byte()] + crate::func::operand_bytes(4, 0));
        lemma_draft_grown(code, param_count, shape, height, waiting, bytes, resume);
        let at = code.len() as int;
        assert(longer_waiting[waiting.len() as int] == jump);
        assert(longer_waiting.contains(jump));
        assert(settled_at(longer, param_count, more, longer_waiting, at));
        assert forall|pc: int| 0 <= pc < longer.len() implies #[trigger] settled_at(
            longer,
            param_count,
            more,
            longer_waiting,
            pc,
        ) by {
            if pc < code.len() {
                assert(settled_at(longer, param_count, more, waiting, pc));
                if more[pc] is Some {
                    let height_there = more[pc]->0;
                    let one = Waiting { offset: pc + 1, expect: height_there };
                    let other = Waiting { offset: pc + 1, expect: height_there - 1 };
                    if waiting.contains(one) {
                        let k = choose|k: int| 0 <= k < waiting.len() && waiting[k] == one;
                        assert(longer_waiting[k] == one);
                    }
                    if waiting.contains(other) {
                        let k = choose|k: int| 0 <= k < waiting.len() && waiting[k] == other;
                        assert(longer_waiting[k] == other);
                    }
                }
            }
        }
        assert(longer[at] == opcode.byte());
        assert forall|k: int| 0 <= k < longer_waiting.len() implies waits_at(
            longer,
            more,
            #[trigger] longer_waiting[k],
        ) by {
            if k < waiting.len() {
                assert(longer_waiting[k] == waiting[k]);
            }
        }
    }
}

/// A jump that waits goes on waiting when another jump is connected.
pub proof fn lemma_still_waiting(waiting: Seq<Waiting>, index: int, jump: Waiting)
    requires
        0 <= index < waiting.len(),
        waiting.contains(jump),
        jump.offset != waiting[index].offset,
    ensures
        waiting.remove(index).contains(jump),
{
    let k = choose|k: int| 0 <= k < waiting.len() && waiting[k] == jump;
    if k < index {
        assert(waiting.remove(index)[k] == jump);
    } else {
        assert(waiting.remove(index)[k - 1] == jump);
    }
}

/// Connecting a jump leaves every other instruction that the model
/// reaches as it is.
pub proof fn lemma_land_elsewhere(
    code: Seq<u8>,
    param_count: u8,
    shape: Shape,
    height: int,
    waiting: Seq<Waiting>,
    index: int,
    target: u32,
    pc: int,
)
    requires
        drafted(code, param_count, shape, height, waiting),
        code.len() <= usize::MAX,
        0 <= index < waiting.len(),
        0 <= pc < code.len(),
        pc != waiting[index].offset - 1,
        shape[pc] is Some,
    ensures
        decode_at(patched(code, waiting[index].offset, target), pc) == decode_at(code, pc),
        pc + 1 != waiting[index].offset,
{
    let jump = waiting[index];
    let after = patched(code, jump.offset, target);
    let start = jump.offset - 1;
    assert(waits_at(code, shape, jump));
    assert(settled_at(code, param_count, shape, waiting, start));
    assert(settled_at(code, param_count, shape, waiting, pc));
    crate::opcode::lemma_byte_round_trip(code[start]);
    let next = decode_at(code, pc)->0.next as int;
    if pc < start {
        if next > start {
            assert(shape[start] is None);
        }
    } else {
        if pc < start + 5 {
            assert(shape[pc] is None);
        }
    }
    assert(code.subrange(pc, next) =~= after.subrange(pc, next));
    lemma_decode_local(code, after, pc, pc);
}

/// Connecting a jump gives it its target and leaves its opcode as it is.
pub proof fn lemma_land_there(
    code: Seq<u8>,
    param_count: u8,
    shape: Shape,
    height: int,
    waiting: Seq<Waiting>,
    index: int,
    target: u32,
)
    requires
        drafted(code, param_count, shape, height, waiting),
        code.len() <= usize::MAX,
        0 <= index < waiting.len(),
    ensures
        ({
            let start = waiting[index].offset - 1;
            let after = patched(code, waiting[index].offset, target);
            &&& decode_at(code, start) is Some
            &&& decode_at(after, start) is Some
            &&& decode_at(after, start)->0.opcode == decode_at(code, start)->0.opcode
            &&& decode_at(after, start)->0.next == decode_at(code, start)->0.next
            &&& decode_at(after, start)->0.next == start + 5
            &&& decode_at(after, start)->0.operand == target
            &&& after.len() == code.len()
            &&& decode_at(code, start)->0.opcode is Jump || decode_at(code, start)->0.opcode
                is JumpIfNot
            &&& decode_at(code, start)->0.opcode is Jump <==> code[start] == Opcode::Jump.byte()
        }),
{
    let jump = waiting[index];
    let after = patched(code, jump.offset, target);
    let start = jump.offset - 1;
    assert(waits_at(code, shape, jump));
    assert(settled_at(code, param_count, shape, waiting, start));
    lemma_u32_round_trip(target);
    assert(after[start] == code[start]);
    crate::opcode::lemma_byte_round_trip(code[start]);
    assert(after.subrange(start + 1, start + 5) =~= u32_be(target));
}

/// The draft after a waiting jump was connected to a target for which the
/// model has the height that the jump expects.
pub proof fn lemma_draft_land(
    code: Seq<u8>,
    param_count: u8,
    shape: Shape,
    height: int,
    waiting: Seq<Waiting>,
    index: int,
    target: u32,
)
    requires
        drafted(code, param_count, shape, height, waiting),
        0 <= index < waiting.len(),
        has_height(shape, target as int, waiting[index].expect),
    ensures
        drafted(
            patched(code, waiting[index].offset, target),
            param_count,
            shape,
            height,
            waiting.remove(index),
        ),
{
    let jump = waiting[index];
    let after = patched(code, jump.offset, target);
    let fewer = waiting.remove(index);
    if code.len() <= usize::MAX {
        let start = jump.offset - 1;
        lemma_land_there(code, param_count, shape, height, waiting, index, target);
        assert(waits_at(code, shape, jump));
        assert forall|pc: int| 0 <= pc < after.len() implies #[trigger] settled_at(
            after,
            param_count,
            shape,
            fewer,
            pc,
        ) by {
            assert(settled_at(code, param_count, shape, waiting, pc));
            if shape[pc] is Some {
                let there = shape[pc]->0;
                if pc != start {
                    lemma_land_elsewhere(
                        code,
                        param_count,
                        shape,
                        height,
                        waiting,
                        index,
                        target,
                        pc,
                    );
                    let one = Waiting { offset: pc + 1, expect: there };
                    let other = Waiting { offset: pc + 1, expect: there - 1 };
                    if waiting.contains(one) {
                        lemma_still_waiting(waiting, index, one);
                    }
                    if waiting.contains(other) {
                        lemma_still_waiting(waiting, index, other);
                    }
                }
            }
        }
        assert forall|k: int| 0 <= k < fewer.len() implies waits_at(
            after,
            shape,
            #[trigger] fewer[k],
        ) by {
            let before = if k < index {
                k
            } else {
                k + 1
            };
            assert(fewer[k] == waiting[before]);
            let other = waiting[before];
            assert(waits_at(code, shape, other));
            if other.offset != jump.offset {
                lemma_land_elsewhere(
                    code,
                    param_count,
                    shape,
                    height,
                    waiting,
                    index,
                    target,
                    other.offset - 1,
                );
                assert(after[other.offset - 1] == code[other.offset - 1]) by {
                    assert(settled_at(code, param_count, shape, waiting, start));
                    if start < other.offset - 1 < start + 5 {
                        assert(shape[other.offset - 1] is None);
                    }
                }
            }
        }
    }
}

/// A local that is found has a slot in the scope.
pub proof fn lemma_find_local(scope: Seq<Symbol>, symbol: Symbol)
    ensures
        find_local(scope, symbol) matches Some(slot) ==> 0 <= slot < scope.len(),
    decreases scope.len(),
{
    if scope.len() > 0 && scope.last() != symbol {
        lemma_find_local(scope.drop_last(), symbol);
    }
}

/// Resolving a name as a capture keeps a builder well formed and changes
/// its captures only.
pub proof fn lemma_resolve_capture_wf(builder: BuilderView, symbol: Symbol)
    requires
        builder.wf(),
    ensures
        builder.resolve_capture(symbol).1.wf(),
        builder.resolve_capture(symbol).1.skeleton() == builder.skeleton(),
        builder.resolve_capture(symbol).1.bytecode == builder.bytecode,
        builder.resolve_capture(symbol).1.scope == builder.scope,
        builder.resolve_capture(symbol).1.param_count == builder.param_count,
        builder.closure_scope.len() <= builder.resolve_capture(symbol).1.closure_scope.len(),
        forall|i: int|
            0 <= i < builder.closure_scope.len() ==> builder.resolve_capture(
                symbol,
            ).1.closure_scope[i] == builder.closure_scope[i],
        builder.resolve_capture(symbol).0 matches Some(index) ==> index
            < builder.resolve_capture(symbol).1.closure_scope.len(),
    decreases builder,
{
    lemma_find_capture(builder, symbol, 0);
    match builder.find_capture(symbol, 0) {
        Some(_) => {},
        None => match builder.outer {
            None => {},
            Some(outer) => {
                lemma_find_local(outer.scope, symbol);
                match find_local(outer.scope, symbol) {
                    Some(slot) => {
                        let added = builder.add_capture(ClosureValue::Stack(slot as u8)).1;
                        assert forall|i: int|
                            0 <= i < added.closure_scope.len() implies outer.has(
                            #[trigger] added.closure_scope[i],
                        ) by {
                            if i < builder.closure_scope.len() {
                                assert(outer.has(builder.closure_scope[i]));
                            }
                        }
                    },
                    None => {
                        lemma_resolve_capture_wf(*outer, symbol);
                        let (found, resolved) = outer.resolve_capture(symbol);
                        let inner = BuilderView { outer: Some(Box::new(resolved)), ..builder };
                        assert forall|i: int|
                            0 <= i < inner.closure_scope.len() implies resolved.has(
                            #[trigger] inner.closure_scope[i],
                        ) by {
                            assert(outer.has(builder.closure_scope[i]));
                        }
                        assert(inner.wf());
                        match found {
                            Some(index) => {
                                let added = inner.add_capture(ClosureValue::Outer(index)).1;
                                assert forall|i: int|
                                    0 <= i < added.closure_scope.len() implies resolved.has(
                                    #[trigger] added.closure_scope[i],
                                ) by {
                                    if i < inner.closure_scope.len() {
                                        assert(resolved.has(inner.closure_scope[i]));
                                    }
                                }
                            },
                            None => {},
                        }
                    },
                }
            },
        },
    }
}

/// A capture that is found is a capture of the builder.
pub proof fn lemma_find_capture(builder: BuilderView, symbol: Symbol, from: int)
    requires
        0 <= from,
    ensures
        builder.find_capture(symbol, from) matches Some(index) ==> from <= index
            < builder.closure_scope.len(),
    decreases builder.closure_scope.len() - from,
{
    if from < builder.closure_scope.len() && builder.capture_symbol(from) != symbol {
        lemma_find_capture(builder, symbol, from + 1);
    }
}

/// Resolving a name keeps a builder well formed and changes its captures
/// only; a local that it finds is in scope.
pub proof fn lemma_resolve_wf(builder: BuilderView, symbol: Symbol)
    requires
        builder.wf(),
    ensures
        builder.resolve(symbol).1.wf(),
        builder.resolve(symbol).1.bytecode == builder.bytecode,
        builder.resolve(symbol).1.scope == builder.scope,
        builder.resolve(symbol).1.param_count == builder.param_count,
        builder.resolve(symbol).1.outer_skeleton() == builder.outer_skeleton(),
        builder.resolve(symbol).0 matches Some(Variable::Stack(slot)) ==> slot
            < builder.scope.len(),
{
    lemma_find_local(builder.scope, symbol);
    lemma_resolve_capture_wf(builder, symbol);
    lemma_skeleton(builder);
    lemma_skeleton(builder.resolve(symbol).1);
}

/// The state has a draft: its builder is well formed, and the model
/// `shape` is a draft for its code in which the frame holds the locals in
/// scope and `extra` values above them.
pub open spec fn shaped(state: ParseState, shape: Shape, extra: int, waiting: Seq<Waiting>) -> bool {
    &&& state.func.wf()
    &&& extra >= 0
    &&& drafted(
        state.func.bytecode,
        state.func.param_count,
        shape,
        state.func.scope.len() + extra,
        waiting,
    )
    &&& state.func.bytecode.len() == 0 ==> extra == 0 && state.func.scope.len() == 1
        + state.func.param_count
}

/// What the parts of the compilation share when they go on within one
/// function: the parameters, the enclosing functions, and what the table
/// of functions held.
pub open spec fn kept(from: ParseState, to: ParseState) -> bool {
    &&& to.func.param_count == from.func.param_count
    &&& to.func.outer_skeleton() == from.func.outer_skeleton()
    &&& from.func.bytecode.len() <= to.func.bytecode.len()
    &&& added(from.funcs, to.funcs)
}

/// The table `to` holds what the table `from` held, in the same places,
/// and behind it functions that are balanceable.
pub open spec fn added(from: Seq<FuncView>, to: Seq<FuncView>) -> bool {
    &&& from.len() <= to.len()
    &&& forall|i: int| 0 <= i < from.len() ==> #[trigger] to[i] == from[i]
    &&& forall|i: int| from.len() <= i < to.len() ==> balanceable(#[trigger] to[i])
}

/// The function has a model under which it is balanced.
pub open spec fn balanceable(func: FuncView) -> bool {
    func.bytecode.len() <= usize::MAX ==> exists|shape: Shape| balanced(func, shape)
}

/// The draft of a state after an instruction was emitted that runs on to
/// the instruction behind it.
pub proof fn lemma_shaped_emit(
    state: ParseState,
    shape: Shape,
    extra: int,
    waiting: Seq<Waiting>,
    opcode: Opcode,
    operand: u64,
    bytes: Seq<u8>,
) -> (out: Shape)
    requires
        shaped(state, shape, extra, waiting),
        opcode.operand_width() == 0 ==> operand == 0,
        opcode.operand_width() == 1 ==> operand <= u8::MAX,
        opcode.operand_width() == 4 ==> operand <= u32::MAX,
        !(opcode is Jump) && !(opcode is JumpIfNot) && !(opcode is Return) && !(opcode is Finish),
        state.func.scope.len() + extra >= needs(opcode, operand),
        leaves(opcode, operand, state.func.param_count, state.func.scope.len() + extra)
            >= state.func.scope.len(),
        bytes == seq![opcode.byte()] + operand_bytes(opcode.operand_width(), operand),
    ensures
        shaped(
            state.emit(bytes),
            out,
            leaves(opcode, operand, state.func.param_count, state.func.scope.len() + extra)
                - state.func.scope.len(),
            waiting,
        ),
        kept(state, state.emit(bytes)),
        state.emit(bytes).func.scope == state.func.scope,
        out == grown(
            shape,
            bytes.len() as int,
            leaves(opcode, operand, state.func.param_count, state.func.scope.len() + extra),
        ),
{
    let height = state.func.scope.len() + extra;
    lemma_draft_emit(
        state.func.bytecode,
        state.func.param_count,
        shape,
        height,
        waiting,
        opcode,
        operand,
    );
    assert(state.emit(bytes).func.outer_skeleton() == state.func.outer_skeleton());
    assert(state.emit(bytes).func.wf());
    grown(shape, bytes.len() as int, leaves(opcode, operand, state.func.param_count, height))
}

/// The draft after an instruction without operand was emitted.
pub proof fn lemma_shaped_op(
    state: ParseState,
    shape: Shape,
    extra: int,
    waiting: Seq<Waiting>,
    opcode: Opcode,
) -> (out: Shape)
    requires
        shaped(state, shape, extra, waiting),
        opcode.operand_width() == 0,
        !(opcode is Return) && !(opcode is Finish),
        state.func.scope.len() + extra >= needs(opcode, 0),
        extra + stack_effect(opcode, 0, state.func.param_count) >= 0,
    ensures
        shaped(
            state.emit_op(opcode),
            out,
            extra + stack_effect(opcode, 0, state.func.param_count),
            waiting,
        ),
        kept(state, state.emit_op(opcode)),
        state.emit_op(opcode).func.scope == state.func.scope,
        shape.len() <= out.len(),
        out.take(shape.len() as int) == shape,
{
    let bytes = seq![opcode.byte()];
    assert(bytes =~= seq![opcode.byte()] + operand_bytes(0, 0));
    lemma_grown_keeps(
        shape,
        1,
        leaves(opcode, 0, state.func.param_count, state.func.scope.len() + extra),
    );
    lemma_shaped_emit(state, shape, extra, waiting, opcode, 0, bytes)
}

/// The draft after an instruction with a one-byte operand was emitted.
pub proof fn lemma_shaped_short(
    state: ParseState,
    shape: Shape,
    extra: int,
    waiting: Seq<Waiting>,
    opcode: Opcode,
    operand: u8,
) -> (out: Shape)
    requires
        shaped(state, shape, extra, waiting),
        opcode.operand_width() == 1,
        state.func.scope.len() + extra >= needs(opcode, operand as u64),
        leaves(opcode, operand as u64, state.func.param_count, state.func.scope.len() + extra)
            >= state.func.scope.len(),
    ensures
        shaped(
            state.emit(short_instruction(opcode, operand)),
            out,
            leaves(opcode, operand as u64, state.func.param_count, state.func.scope.len() + extra)
                - state.func.scope.len(),
            waiting,
        ),
        kept(state, state.emit(short_instruction(opcode, operand))),
        state.emit(short_instruction(opcode, operand)).func.scope == state.func.scope,
        shape.len() <= out.len(),
        out.take(shape.len() as int) == shape,
{
    let bytes = short_instruction(opcode, operand);
    assert(bytes =~= seq![opcode.byte()] + operand_bytes(1, operand as u64));
    lemma_grown_keeps(
        shape,
        2,
        leaves(opcode, operand as u64, state.func.param_count, state.func.scope.len() + extra),
    );
    lemma_shaped_emit(state, shape, extra, waiting, opcode, operand as u64, bytes)
}

/// The draft after an instruction with a four-byte operand was emitted
/// that pushes one value.
pub proof fn lemma_shaped_wide(
    state: ParseState,
    shape: Shape,
    extra: int,
    waiting: Seq<Waiting>,
    opcode: Opcode,
    operand: u32,
) -> (out: Shape)
    requires
        shaped(state, shape, extra, waiting),
        opcode is PushFunc || opcode is PushList,
        opcode is PushList ==> extra >= operand,
    ensures
        shaped(
            state.emit(wide_instruction(opcode, operand)),
            out,
            if opcode is PushList {
                extra + 1 - operand
            } else {
                extra + 1
            },
            waiting,
        ),
        kept(state, state.emit(wide_instruction(opcode, operand))),
        state.emit(wide_instruction(opcode, operand)).func.scope == state.func.scope,
        shape.len() <= out.len(),
        out.take(shape.len() as int) == shape,
{
    let bytes = wide_instruction(opcode, operand);
    lemma_u32_round_trip(operand);
    assert(bytes =~= seq![opcode.byte()] + operand_bytes(4, operand as u64));
    lemma_grown_keeps(
        shape,
        5,
        leaves(opcode, operand as u64, state.func.param_count, state.func.scope.len() + extra),
    );
    lemma_shaped_emit(state, shape, extra, waiting, opcode, operand as u64, bytes)
}

/// The draft after a literal was pushed.
pub proof fn lemma_shaped_long(
    state: ParseState,
    shape: Shape,
    extra: int,
    waiting: Seq<Waiting>,
    opcode: Opcode,
    operand: u64,
) -> (out: Shape)
    requires
        shaped(state, shape, extra, waiting),
        opcode is PushInt || opcode is PushFloat,
    ensures
        shaped(state.emit(seq![opcode.byte()] + u64_be(operand)), out, extra + 1, waiting),
        kept(state, state.emit(seq![opcode.byte()] + u64_be(operand))),
        state.emit(seq![opcode.byte()] + u64_be(operand)).func.scope == state.func.scope,
        shape.len() <= out.len(),
        out.take(shape.len() as int) == shape,
{
    let bytes = seq![opcode.byte()] + u64_be(operand);
    lemma_u64_round_trip(operand);
    assert(bytes =~= seq![opcode.byte()] + operand_bytes(8, operand));
    lemma_grown_keeps(
        shape,
        9,
        leaves(opcode, operand, state.func.param_count, state.func.scope.len() + extra),
    );
    lemma_shaped_emit(state, shape, extra, waiting, opcode, operand, bytes)
}

/// Resolving a name leaves the draft as it is.
pub proof fn lemma_shaped_resolve(
    state: ParseState,
    shape: Shape,
    extra: int,
    waiting: Seq<Waiting>,
    symbol: Symbol,
    at: usize,
)
    requires
        shaped(state, shape, extra, waiting),
        state.resolve(symbol, at) is Ok,
    ensures
        shaped(state.resolve(symbol, at)->Ok_0.0, shape, extra, waiting),
        kept(state, state.resolve(symbol, at)->Ok_0.0),
        state.resolve(symbol, at)->Ok_0.0.func.scope == state.func.scope,
        state.resolve(symbol, at)->Ok_0.0.funcs == state.funcs,
        state.resolve(symbol, at)->Ok_0.0.tame == state.tame,
        state.resolve(symbol, at)->Ok_0.1 matches Variable::Stack(slot) ==> slot
            < state.func.scope.len(),
{
    lemma_resolve_wf(state.func, symbol);
}

/// The draft after the value of a variable was pushed.
pub proof fn lemma_shaped_load(
    state: ParseState,
    shape: Shape,
    extra: int,
    waiting: Seq<Waiting>,
    symbol: Symbol,
    at: usize,
) -> (out: Shape)
    requires
        shaped(state, shape, extra, waiting),
        state.load(symbol, at) is Ok,
    ensures
        shaped(state.load(symbol, at)->Ok_0, out, extra + 1, waiting),
        kept(state, state.load(symbol, at)->Ok_0),
        state.load(symbol, at)->Ok_0.func.scope == state.func.scope,
        state.load(symbol, at)->Ok_0.tame == state.tame,
{
    lemma_shaped_resolve(state, shape, extra, waiting, symbol, at);
    let resolved = state.resolve(symbol, at)->Ok_0.0;
    match state.resolve(symbol, at)->Ok_0.1 {
        Variable::Stack(slot) => lemma_shaped_short(
            resolved,
            shape,
            extra,
            waiting,
            Opcode::PushLoad,
            slot,
        ),
        Variable::Closure(index) => lemma_shaped_short(
            resolved,
            shape,
            extra,
            waiting,
            Opcode::PushClosureLoad,
            index,
        ),
    }
}

/// The draft after a value was popped into a variable.
pub proof fn lemma_shaped_store(
    state: ParseState,
    shape: Shape,
    extra: int,
    waiting: Seq<Waiting>,
    symbol: Symbol,
    at: usize,
) -> (out: Shape)
    requires
        shaped(state, shape, extra, waiting),
        extra >= 1,
        state.store(symbol, at) is Ok,
    ensures
        shaped(state.store(symbol, at)->Ok_0, out, extra - 1, waiting),
        kept(state, state.store(symbol, at)->Ok_0),
        state.store(symbol, at)->Ok_0.func.scope == state.func.scope,
        state.store(symbol, at)->Ok_0.tame == state.tame,
{
    lemma_shaped_resolve(state, shape, extra, waiting, symbol, at);
    let resolved = state.resolve(symbol, at)->Ok_0.0;
    match state.resolve(symbol, at)->Ok_0.1 {
        Variable::Stack(slot) => lemma_shaped_short(
            resolved,
            shape,
            extra,
            waiting,
            Opcode::PopStore,
            slot,
        ),
        Variable::Closure(index) => lemma_shaped_short(
            resolved,
            shape,
            extra,
            waiting,
            Opcode::PopClosureStore,
            index,
        ),
    }
}

/// The draft after a forward jump was emitted: the jump waits. A
/// conditional jump pops its condition; an unconditional jump stands
/// between statements.
pub proof fn lemma_shaped_jump(
    tokens: Seq<Token>,
    state: ParseState,
    shape: Shape,
    extra: int,
    waiting: Seq<Waiting>,
    opcode: Opcode,
) -> (out: Shape)
    requires
        shaped(state, shape, extra, waiting),
        opcode is Jump || opcode is JumpIfNot,
        opcode is JumpIfNot ==> extra >= 1,
        opcode is Jump ==> extra == 0,
        state.jump(tokens, opcode) is Ok,
    ensures
        ({
            let after = state.jump(tokens, opcode)->Ok_0.0;
            let jump = state.jump(tokens, opcode)->Ok_0.1;
            let left = if opcode is Jump {
                0
            } else {
                extra - 1
            };
            &&& shaped(
                after,
                out,
                left,
                waiting.push(
                    Waiting { offset: jump.offset as int, expect: state.func.scope.len() + left },
                ),
            )
            &&& kept(state, after)
            &&& after.func.scope == state.func.scope
            &&& after.pos == state.pos
            &&& after.tame == state.tame
            &&& after.funcs == state.funcs
            &&& jump.offset == state.func.bytecode.len() + 1
            &&& after.func.bytecode.len() == state.func.bytecode.len() + 5
            &&& forall|k: int| 0 <= k < waiting.len() ==> (#[trigger] waiting[k]).offset < jump.offset
            &&& shape.len() <= out.len()
            &&& out.take(shape.len() as int) == shape
        }),
{
    let height = state.func.scope.len() + extra;
    let left = if opcode is Jump {
        0
    } else {
        extra - 1
    };
    lemma_draft_jump(
        state.func.bytecode,
        state.func.param_count,
        shape,
        height,
        waiting,
        opcode,
        state.func.scope.len() + left,
    );
    let after = state.jump(tokens, opcode)->Ok_0.0;
    assert(after.func.outer_skeleton() == state.func.outer_skeleton());
    assert(after.func.wf());
    assert forall|k: int| 0 <= k < waiting.len() implies (#[trigger] waiting[k]).offset
        < state.func.bytecode.len() + 1 by {
        assert(inside(state.func.bytecode, waiting[k]));
    }
    lemma_grown_keeps(shape, 5, state.func.scope.len() + left);
    grown(shape, 5, state.func.scope.len() + left)
}

/// The draft after the jump that waits at `index` was connected to the
/// place behind the code emitted so far.
pub proof fn lemma_shaped_land(
    tokens: Seq<Token>,
    state: ParseState,
    shape: Shape,
    extra: int,
    waiting: Seq<Waiting>,
    index: int,
    jump: Jump,
)
    requires
        shaped(state, shape, extra, waiting),
        0 <= index < waiting.len(),
        waiting[index].offset == jump.offset,
        waiting[index].expect == state.func.scope.len() + extra,
        state.land(tokens, jump) is Ok,
    ensures
        shaped(state.land(tokens, jump)->Ok_0, shape, extra, waiting.remove(index)),
        kept(state, state.land(tokens, jump)->Ok_0),
        state.land(tokens, jump)->Ok_0.func.scope == state.func.scope,
        state.land(tokens, jump)->Ok_0.pos == state.pos,
        state.land(tokens, jump)->Ok_0.tame == state.tame,
        state.land(tokens, jump)->Ok_0.funcs == state.funcs,
        state.land(tokens, jump)->Ok_0.func.bytecode.len() == state.func.bytecode.len(),
{
    let target = state.func.bytecode.len() as u32;
    lemma_draft_land(
        state.func.bytecode,
        state.func.param_count,
        shape,
        state.func.scope.len() + extra,
        waiting,
        index,
        target,
    );
    let after = state.land(tokens, jump)->Ok_0;
    assert(inside(state.func.bytecode, waiting[index]));
    assert(after.func.bytecode.len() == state.func.bytecode.len());
    assert(after.func.outer_skeleton() == state.func.outer_skeleton());
    assert(after.func.wf());
}

/// The draft after the jump that waits at `index` was connected back to a
/// place for which the model has the height that the jump expects.
pub proof fn lemma_shaped_connect(
    state: ParseState,
    shape: Shape,
    extra: int,
    waiting: Seq<Waiting>,
    index: int,
    jump: Jump,
    target: JumpTarget,
)
    requires
        shaped(state, shape, extra, waiting),
        0 <= index < waiting.len(),
        waiting[index].offset == jump.offset,
        has_height(shape, target.offset as int, waiting[index].expect),
    ensures
        shaped(
            ParseState { func: state.func.connect(jump, target), ..state },
            shape,
            extra,
            waiting.remove(index),
        ),
        kept(state, ParseState { func: state.func.connect(jump, target), ..state }),
        state.func.connect(jump, target).scope == state.func.scope,
        state.func.connect(jump, target).bytecode.len() == state.func.bytecode.len(),
{
    lemma_draft_land(
        state.func.bytecode,
        state.func.param_count,
        shape,
        state.func.scope.len() + extra,
        waiting,
        index,
        target.offset,
    );
    let after = ParseState { func: state.func.connect(jump, target), ..state };
    assert(inside(state.func.bytecode, waiting[index]));
    assert(after.func.bytecode.len() == state.func.bytecode.len());
    assert(after.func.outer_skeleton() == state.func.outer_skeleton());
    assert(after.func.wf());
}

/// The draft after a `Return` was emitted where the frame holds the
/// return slot and the parameters and nothing else.
pub proof fn lemma_shaped_return(
    state: ParseState,
    shape: Shape,
    waiting: Seq<Waiting>,
) -> (out: Shape)
    requires
        shaped(state, shape, 0, waiting),
        state.func.scope.len() == 1 + state.func.param_count,
    ensures
        shaped(state.emit_op(Opcode::Return), out, 0, waiting),
        kept(state, state.emit_op(Opcode::Return)),
        state.emit_op(Opcode::Return).func.scope == state.func.scope,
        shape.len() <= out.len(),
        out.take(shape.len() as int) == shape,
{
    lemma_grown_keeps(shape, 1, state.func.scope.len() as int);
    let height = state.func.scope.len() as int;
    lemma_draft_stop(
        state.func.bytecode,
        state.func.param_count,
        shape,
        height,
        waiting,
        Opcode::Return,
        height,
    );
    let after = state.emit_op(Opcode::Return);
    assert(after.func.outer_skeleton() == state.func.outer_skeleton());
    assert(after.func.wf());
    grown(shape, 1, height)
}

/// A draft in which no jump waits, with a last `Return` or `Finish`
/// emitted, makes the function balanced.
pub proof fn lemma_draft_finish(
    code: Seq<u8>,
    param_count: u8,
    shape: Shape,
    height: int,
    opcode: Opcode,
    func: FuncView,
)
    requires
        drafted(code, param_count, shape, height, Seq::empty()),
        opcode is Return || opcode is Finish,
        opcode is Return ==> height == 1 + param_count,
        height >= 0,
        code.len() == 0 ==> height == 1 + param_count,
        func.bytecode == code + seq![opcode.byte()],
        func.param_count == param_count,
    ensures
        balanceable(func),
{
    let longer = code + seq![opcode.byte()];
    if longer.len() <= usize::MAX {
        let none = Seq::<Waiting>::empty();
        lemma_draft_stop(code, param_count, shape, height, none, opcode, 0);
        let more = grown(shape, 1, 0);
        let last = more.update(longer.len() as int, None);
        lemma_decode_emitted(code, opcode, 0);
        assert(seq![opcode.byte()] =~= seq![opcode.byte()] + operand_bytes(0, 0));
        assert forall|pc: int| 0 <= pc < last.len() implies #[trigger] fits_at(
            longer,
            param_count,
            last,
            pc,
        ) by {
            if pc < longer.len() {
                assert(settled_at(longer, param_count, more, none, pc));
                if pc < code.len() {
                    assert(settled_at(code, param_count, shape, none, pc));
                    assert(more[pc] == shape[pc]);
                    if shape[pc] is Some {
                        let instruction = decode_at(code, pc)->0;
                        assert(code.subrange(pc, instruction.next as int) =~= longer.subrange(
                            pc,
                            instruction.next as int,
                        ));
                        lemma_decode_local(code, longer, pc, pc);
                    }
                }
            }
        }
        assert forall|pc: int| 0 <= pc < last.len() implies #[trigger] roomy_at(
            longer,
            last,
            pc,
        ) by {
            if pc < longer.len() {
                assert(settled_at(longer, param_count, more, none, pc));
            }
        }
        assert(balanced(func, last));
    }
}

/// What a part of the compilation is given, if all is tame so far: a
/// draft for the state.
pub open spec fn given(state: ParseState, shape: Shape, extra: int, waiting: Seq<Waiting>) -> bool {
    state.tame ==> shaped(state, shape, extra, waiting)
}

/// What a part of the compilation hands on, if all is tame behind it: all
/// was tame before it, the state behind it has a draft that keeps the
/// heights told so far, and the functions that the part has added to the
/// table are balanceable.
pub open spec fn taken(
    state: ParseState,
    shape: Shape,
    after: ParseState,
    out: Shape,
    extra: int,
    waiting: Seq<Waiting>,
) -> bool {
    after.tame ==> {
        &&& state.tame
        &&& shaped(after, out, extra, waiting)
        &&& kept(state, after)
        &&& shape.len() <= out.len()
        &&& out.take(shape.len() as int) == shape
    }
}

/// The model keeps the heights told so far when heights are told for one
/// more instruction.
pub proof fn lemma_grown_keeps(shape: Shape, size: int, height: int)
    requires
        size >= 1,
    ensures
        shape.len() <= grown(shape, size, height).len(),
        grown(shape, size, height).take(shape.len() as int) == shape,
{
    assert(grown(shape, size, height).take(shape.len() as int) =~= shape);
}

/// Keeping heights is transitive.
pub proof fn lemma_keeps_twice(first: Shape, second: Shape, third: Shape)
    requires
        first.len() <= second.len() <= third.len(),
        second.take(first.len() as int) == first,
        third.take(second.len() as int) == second,
    ensures
        third.take(first.len() as int) == first,
{
    assert(third.take(first.len() as int) =~= third.take(second.len() as int).take(
        first.len() as int,
    ));
}

/// A state that differs from a given one in what it reads and in its names
/// only hands on what was given.
pub proof fn lemma_model_moved(
    from: ParseState,
    to: ParseState,
    shape: Shape,
    extra: int,
    waiting: Seq<Waiting>,
)
    requires
        given(from, shape, extra, waiting),
        to.func == from.func,
        to.funcs == from.funcs,
        to.tame == from.tame,
    ensures
        taken(from, shape, to, shape, extra, waiting),
        given(to, shape, extra, waiting),
{
    assert(shape.take(shape.len() as int) =~= shape);
}

/// Handing on what was handed on.
pub proof fn lemma_taken_twice(
    first: ParseState,
    one: Shape,
    second: ParseState,
    two: Shape,
    third: ParseState,
    three: Shape,
    middle: int,
    tight: Seq<Waiting>,
    extra: int,
    waiting: Seq<Waiting>,
)
    requires
        taken(first, one, second, two, middle, tight),
        taken(second, two, third, three, extra, waiting),
    ensures
        taken(first, one, third, three, extra, waiting),
{
    if third.tame {
        lemma_keeps_twice(one, two, three);
    }
}

/// An instruction without operand, emitted.
pub proof fn lemma_model_op(
    state: ParseState,
    shape: Shape,
    extra: int,
    waiting: Seq<Waiting>,
    opcode: Opcode,
) -> (out: Shape)
    requires
        given(state, shape, extra, waiting),
        opcode.operand_width() == 0,
        !(opcode is Return) && !(opcode is Finish),
        state.tame ==> state.func.scope.len() + extra >= needs(opcode, 0),
        state.tame ==> extra + stack_effect(opcode, 0, state.func.param_count) >= 0,
    ensures
        taken(
            state,
            shape,
            state.emit_op(opcode),
            out,
            extra + stack_effect(opcode, 0, state.func.param_count),
            waiting,
        ),
        state.emit_op(opcode).func.scope == state.func.scope,
{
    if state.tame {
        lemma_shaped_op(state, shape, extra, waiting, opcode)
    } else {
        shape
    }
}

/// An instruction with a one-byte operand, emitted.
pub proof fn lemma_model_short(
    state: ParseState,
    shape: Shape,
    extra: int,
    waiting: Seq<Waiting>,
    opcode: Opcode,
    operand: u8,
    left: int,
) -> (out: Shape)
    requires
        given(state, shape, extra, waiting),
        opcode.operand_width() == 1,
        state.tame ==> state.func.scope.len() + extra >= needs(opcode, operand as u64),
        state.tame ==> left >= 0 && left + state.func.scope.len() == leaves(
            opcode,
            operand as u64,
            state.func.param_count,
            state.func.scope.len() + extra,
        ),
    ensures
        taken(state, shape, state.emit(short_instruction(opcode, operand)), out, left, waiting),
        state.emit(short_instruction(opcode, operand)).func.scope == state.func.scope,
{
    if state.tame {
        lemma_shaped_short(state, shape, extra, waiting, opcode, operand)
    } else {
        shape
    }
}

/// The value of a variable, pushed.
pub proof fn lemma_model_load(
    state: ParseState,
    shape: Shape,
    extra: int,
    waiting: Seq<Waiting>,
    symbol: Symbol,
    at: usize,
) -> (out: Shape)
    requires
        given(state, shape, extra, waiting),
    ensures
        state.load(symbol, at) matches Ok(after) ==> taken(
            state,
            shape,
            after,
            out,
            extra + 1,
            waiting,
        ) && (after.tame ==> after.func.scope == state.func.scope),
{
    if state.tame && state.load(symbol, at) is Ok {
        lemma_shaped_resolve(state, shape, extra, waiting, symbol, at);
        let resolved = state.resolve(symbol, at)->Ok_0.0;
        assert(given(resolved, shape, extra, waiting));
        match state.resolve(symbol, at)->Ok_0.1 {
            Variable::Stack(slot) => lemma_model_short(
                resolved,
                shape,
                extra,
                waiting,
                Opcode::PushLoad,
                slot,
                extra + 1,
            ),
            Variable::Closure(index) => lemma_model_short(
                resolved,
                shape,
                extra,
                waiting,
                Opcode::PushClosureLoad,
                index,
                extra + 1,
            ),
        }
    } else {
        shape
    }
}

/// A value, popped into a variable.
pub proof fn lemma_model_store(
    state: ParseState,
    shape: Shape,
    extra: int,
    waiting: Seq<Waiting>,
    symbol: Symbol,
    at: usize,
) -> (out: Shape)
    requires
        given(state, shape, extra, waiting),
        state.tame ==> extra >= 1,
    ensures
        state.store(symbol, at) matches Ok(after) ==> taken(
            state,
            shape,
            after,
            out,
            extra - 1,
            waiting,
        ) && (after.tame ==> after.func.scope == state.func.scope),
{
    if state.tame && state.store(symbol, at) is Ok {
        lemma_shaped_resolve(state, shape, extra, waiting, symbol, at);
        let resolved = state.resolve(symbol, at)->Ok_0.0;
        assert(given(resolved, shape, extra, waiting));
        match state.resolve(symbol, at)->Ok_0.1 {
            Variable::Stack(slot) => lemma_model_short(
                resolved,
                shape,
                extra,
                waiting,
                Opcode::PopStore,
                slot,
                extra - 1,
            ),
            Variable::Closure(index) => lemma_model_short(
                resolved,
                shape,
                extra,
                waiting,
                Opcode::PopClosureStore,
                index,
                extra - 1,
            ),
        }
    } else {
        shape
    }
}

/// A forward jump, emitted.
pub proof fn lemma_model_jump(
    tokens: Seq<Token>,
    state: ParseState,
    shape: Shape,
    extra: int,
    waiting: Seq<Waiting>,
    opcode: Opcode,
) -> (out: Shape)
    requires
        given(state, shape, extra, waiting),
        opcode is Jump || opcode is JumpIfNot,
        state.tame ==> (opcode is JumpIfNot ==> extra == 1),
        state.tame ==> (opcode is Jump ==> extra == 0),
    ensures
        state.jump(tokens, opcode) matches Ok((after, jump)) ==> {
            &&& taken(
                state,
                shape,
                after,
                out,
                0,
                waiting.push(
                    Waiting { offset: jump.offset as int, expect: state.func.scope.len() as int },
                ),
            )
            &&& after.func.scope == state.func.scope
            &&& after.pos == state.pos
            &&& after.tame == state.tame
        },
{
    if state.tame && state.jump(tokens, opcode) is Ok {
        lemma_shaped_jump(tokens, state, shape, extra, waiting, opcode)
    } else {
        shape
    }
}

/// A waiting jump, connected to the place behind the code.
pub proof fn lemma_model_land(
    tokens: Seq<Token>,
    state: ParseState,
    shape: Shape,
    waiting: Seq<Waiting>,
    index: int,
    jump: Jump,
)
    requires
        given(state, shape, 0, waiting),
        state.tame ==> 0 <= index < waiting.len() && waiting[index].offset == jump.offset
            && waiting[index].expect == state.func.scope.len(),
    ensures
        state.land(tokens, jump) matches Ok(after) ==> {
            &&& taken(state, shape, after, shape, 0, waiting.remove(index))
            &&& after.func.scope == state.func.scope
            &&& after.pos == state.pos
            &&& after.tame == state.tame
        },
{
    if state.tame && state.land(tokens, jump) is Ok {
        lemma_shaped_land(tokens, state, shape, 0, waiting, index, jump);
        assert(shape.take(shape.len() as int) =~= shape);
    }
}

/// An instruction with a four-byte operand that pushes one value,
/// emitted.
pub proof fn lemma_model_wide(
    state: ParseState,
    shape: Shape,
    extra: int,
    waiting: Seq<Waiting>,
    opcode: Opcode,
    operand: u32,
) -> (out: Shape)
    requires
        given(state, shape, extra, waiting),
        opcode is PushFunc || opcode is PushList,
        state.tame ==> (opcode is PushList ==> extra >= operand),
    ensures
        taken(
            state,
            shape,
            state.emit(wide_instruction(opcode, operand)),
            out,
            if opcode is PushList {
                extra + 1 - operand
            } else {
                extra + 1
            },
            waiting,
        ),
        state.emit(wide_instruction(opcode, operand)).func.scope == state.func.scope,
{
    if state.tame {
        lemma_shaped_wide(state, shape, extra, waiting, opcode, operand)
    } else {
        shape
    }
}

/// A literal, pushed.
pub proof fn lemma_model_long(
    state: ParseState,
    shape: Shape,
    extra: int,
    waiting: Seq<Waiting>,
    opcode: Opcode,
    operand: u64,
) -> (out: Shape)
    requires
        given(state, shape, extra, waiting),
        opcode is PushInt || opcode is PushFloat,
    ensures
        taken(
            state,
            shape,
            state.emit(seq![opcode.byte()] + u64_be(operand)),
            out,
            extra + 1,
            waiting,
        ),
        state.emit(seq![opcode.byte()] + u64_be(operand)).func.scope == state.func.scope,
{
    if state.tame {
        lemma_shaped_long(state, shape, extra, waiting, opcode, operand)
    } else {
        shape
    }
}

/// The parameters of a function literal emit nothing and keep the frame
/// at the return slot and the parameters.
pub proof fn lemma_params_model(tokens: Seq<Token>, state: ParseState)
    requires
        state.func.wf(),
        state.func.bytecode.len() == 0,
        state.func.scope.len() == 1 + state.func.param_count,
    ensures
        parse_params(tokens, state) matches Ok(after) ==> {
            &&& after.func.wf()
            &&& after.func.bytecode == state.func.bytecode
            &&& after.func.scope.len() == 1 + after.func.param_count
            &&& after.func.outer == state.func.outer
            &&& after.funcs == state.funcs
            &&& after.tame == state.tame
        },
    decreases tokens.len() - state.pos,
{
    match state.expect_ident(tokens) {
        Err(_) => {},
        Ok((named, symbol)) => {
            if !(named.func.scope.len() >= MAX_LOCALS || named.func.scope.len()
                != named.func.param_count + 1) {
                let defined = ParseState { func: named.func.define_param(symbol), ..named };
                assert(defined.func.wf());
                if kind_at(tokens, defined.pos) == TokenKind::Comma && state.pos < defined.pos
                    < tokens.len() {
                    lemma_params_model(tokens, defined.next());
                }
            }
        },
    }
}

/// A property access, modelled: it leaves the height as it is.
pub proof fn lemma_property_model(
    tokens: Seq<Token>,
    state: ParseState,
    shape: Shape,
    extra: int,
    waiting: Seq<Waiting>,
) -> (out: Shape)
    requires
        given(state, shape, extra, waiting),
        state.tame ==> extra >= 1,
    ensures
        parse_property(tokens, state) matches Ok(after) ==> taken(
            state,
            shape,
            after,
            out,
            extra,
            waiting,
        ) && (after.tame ==> after.func.scope == state.func.scope),
{
    match state.next().expect_ident(tokens) {
        Err(_) => shape,
        Ok((named, symbol)) => {
            lemma_model_moved(state, named, shape, extra, waiting);
            if symbol.0 <= u8::MAX {
                let out = lemma_model_short(
                    named,
                    shape,
                    extra,
                    waiting,
                    Opcode::PushPropLoad,
                    symbol.0 as u8,
                    extra,
                );
                lemma_taken_twice(
                    state,
                    shape,
                    named,
                    shape,
                    named.emit(short_instruction(Opcode::PushPropLoad, symbol.0 as u8)),
                    out,
                    extra,
                    waiting,
                    extra,
                    waiting,
                );
                out
            } else {
                shape
            }
        },
    }
}

/// A call, modelled: it leaves one value, its return slot.
pub proof fn lemma_call_model(
    tokens: Seq<Token>,
    state: ParseState,
    shape: Shape,
    extra: int,
    waiting: Seq<Waiting>,
    symbol: Symbol,
    at: usize,
) -> (out: Shape)
    requires
        given(state, shape, extra, waiting),
    ensures
        parse_call(tokens, state, symbol, at) matches Ok(after) ==> taken(
            state,
            shape,
            after,
            out,
            extra + 1,
            waiting,
        ) && (after.tame ==> after.func.scope == state.func.scope),
    decreases tokens.len() - state.pos, 0nat,
{
    if kind_at(tokens, state.pos) == TokenKind::OpenBrace {
        lemma_model_moved(state, state.next(), shape, extra, waiting);
        let one = lemma_model_op(state.next(), shape, extra, waiting, Opcode::PushNone);
        let inside = state.next().emit_op(Opcode::PushNone);
        lemma_taken_twice(
            state,
            shape,
            state.next(),
            shape,
            inside,
            one,
            extra,
            waiting,
            extra + 1,
            waiting,
        );
        let two = lemma_list_model(tokens, inside, one, extra + 1, waiting, u8::MAX as nat);
        match parse_list(tokens, inside, u8::MAX as nat) {
            Err(_) => shape,
            Ok((parsed, count)) => {
                lemma_taken_twice(
                    state,
                    shape,
                    inside,
                    one,
                    parsed,
                    two,
                    extra + 1,
                    waiting,
                    extra + 1 + count,
                    waiting,
                );
                let three = lemma_model_load(parsed, two, extra + 1 + count, waiting, symbol, at);
                match parsed.load(symbol, at) {
                    Err(_) => shape,
                    Ok(loaded) => {
                        lemma_taken_twice(
                            state,
                            shape,
                            parsed,
                            two,
                            loaded,
                            three,
                            extra + 1 + count,
                            waiting,
                            extra + 2 + count,
                            waiting,
                        );
                        let four = lemma_model_short(
                            loaded,
                            three,
                            extra + 2 + count,
                            waiting,
                            Opcode::Call,
                            count as u8,
                            extra + 1,
                        );
                        lemma_taken_twice(
                            state,
                            shape,
                            loaded,
                            three,
                            loaded.emit(short_instruction(Opcode::Call, count as u8)),
                            four,
                            extra + 2 + count,
                            waiting,
                            extra + 1,
                            waiting,
                        );
                        four
                    },
                }
            },
        }
    } else {
        shape
    }
}

/// Expressions with commas between them, modelled: each leaves one
/// value.
pub proof fn lemma_items_model(
    tokens: Seq<Token>,
    state: ParseState,
    shape: Shape,
    extra: int,
    waiting: Seq<Waiting>,
    count: nat,
    limit: nat,
) -> (out: Shape)
    requires
        given(state, shape, extra, waiting),
    ensures
        parse_items(tokens, state, count, limit) matches Ok((after, total)) ==> taken(
            state,
            shape,
            after,
            out,
            extra + total - count,
            waiting,
        ) && (after.tame ==> after.func.scope == state.func.scope) && count < total <= limit,
    decreases tokens.len() - state.pos, 4nat,
{
    if count < limit {
        let one = lemma_expr_model(tokens, state, shape, extra, waiting);
        match proceed(tokens, state, parse_expr(tokens, state)) {
            Err(_) => shape,
            Ok(parsed) => {
                if kind_at(tokens, parsed.pos) == TokenKind::Comma {
                    lemma_model_moved(parsed, parsed.next(), one, extra + 1, waiting);
                    let two = lemma_items_model(
                        tokens,
                        parsed.next(),
                        one,
                        extra + 1,
                        waiting,
                        count + 1,
                        limit,
                    );
                    match parse_items(tokens, parsed.next(), count + 1, limit) {
                        Err(_) => shape,
                        Ok((after, total)) => {
                            lemma_taken_twice(
                                state,
                                shape,
                                parsed,
                                one,
                                parsed.next(),
                                one,
                                extra + 1,
                                waiting,
                                extra + 1,
                                waiting,
                            );
                            lemma_taken_twice(
                                state,
                                shape,
                                parsed.next(),
                                one,
                                after,
                                two,
                                extra + 1,
                                waiting,
                                extra + total - count,
                                waiting,
                            );
                            two
                        },
                    }
                } else {
                    one
                }
            },
        }
    } else {
        shape
    }
}

/// What stands between parentheses, modelled: each expression leaves one
/// value.
pub proof fn lemma_list_model(
    tokens: Seq<Token>,
    state: ParseState,
    shape: Shape,
    extra: int,
    waiting: Seq<Waiting>,
    limit: nat,
) -> (out: Shape)
    requires
        given(state, shape, extra, waiting),
    ensures
        parse_list(tokens, state, limit) matches Ok((after, total)) ==> taken(
            state,
            shape,
            after,
            out,
            extra + total,
            waiting,
        ) && (after.tame ==> after.func.scope == state.func.scope) && total <= limit,
    decreases tokens.len() - state.pos, 5nat,
{
    if kind_at(tokens, state.pos) == TokenKind::CloseBrace {
        lemma_model_moved(state, state.next(), shape, extra, waiting);
        shape
    } else {
        let one = lemma_items_model(tokens, state, shape, extra, waiting, 0, limit);
        match parse_items(tokens, state, 0, limit) {
            Err(_) => shape,
            Ok((parsed, total)) => {
                if parsed.expect(tokens, TokenKind::CloseBrace) is Ok {
                    lemma_model_moved(parsed, parsed.next(), one, extra + total, waiting);
                    lemma_taken_twice(
                        state,
                        shape,
                        parsed,
                        one,
                        parsed.next(),
                        one,
                        extra + total,
                        waiting,
                        extra + total,
                        waiting,
                    );
                }
                one
            },
        }
    }
}

/// A value, modelled: it leaves one value.
pub proof fn lemma_value_model(
    tokens: Seq<Token>,
    state: ParseState,
    shape: Shape,
    extra: int,
    waiting: Seq<Waiting>,
) -> (out: Shape)
    requires
        given(state, shape, extra, waiting),
    ensures
        parse_value(tokens, state) matches Ok(after) ==> taken(
            state,
            shape,
            after,
            out,
            extra + 1,
            waiting,
        ) && (after.tame ==> after.func.scope == state.func.scope),
    decreases tokens.len() - state.pos, 1nat,
{
    match kind_at(tokens, state.pos) {
        TokenKind::Ident => match state.expect_ident(tokens) {
            Err(_) => shape,
            Ok((named, symbol)) => {
                lemma_model_moved(state, named, shape, extra, waiting);
                let at = offset_at(tokens, state.pos);
                if kind_at(tokens, named.pos) == TokenKind::OpenBrace {
                    let out = lemma_call_model(tokens, named, shape, extra, waiting, symbol, at);
                    match parse_call(tokens, named, symbol, at) {
                        Err(_) => {},
                        Ok(after) => {
                            lemma_taken_twice(
                                state,
                                shape,
                                named,
                                shape,
                                after,
                                out,
                                extra,
                                waiting,
                                extra + 1,
                                waiting,
                            );
                        },
                    }
                    out
                } else {
                    let out = lemma_model_load(named, shape, extra, waiting, symbol, at);
                    match named.load(symbol, at) {
                        Err(_) => {},
                        Ok(after) => {
                            lemma_taken_twice(
                                state,
                                shape,
                                named,
                                shape,
                                after,
                                out,
                                extra,
                                waiting,
                                extra + 1,
                                waiting,
                            );
                        },
                    }
                    out
                }
            },
        },
        TokenKind::Int => {
            lemma_model_moved(state, state.next(), shape, extra, waiting);
            let out = lemma_model_long(
                state.next(),
                shape,
                extra,
                waiting,
                Opcode::PushInt,
                tokens[state.pos].value,
            );
            lemma_taken_twice(
                state,
                shape,
                state.next(),
                shape,
                parse_value(tokens, state)->Ok_0,
                out,
                extra,
                waiting,
                extra + 1,
                waiting,
            );
            out
        },
        TokenKind::Float => {
            lemma_model_moved(state, state.next(), shape, extra, waiting);
            let out = lemma_model_long(
                state.next(),
                shape,
                extra,
                waiting,
                Opcode::PushFloat,
                tokens[state.pos].value,
            );
            lemma_taken_twice(
                state,
                shape,
                state.next(),
                shape,
                parse_value(tokens, state)->Ok_0,
                out,
                extra,
                waiting,
                extra + 1,
                waiting,
            );
            out
        },
        TokenKind::True | TokenKind::False | TokenKind::Nil => {
            let opcode = match kind_at(tokens, state.pos) {
                TokenKind::True => Opcode::PushTrue,
                TokenKind::False => Opcode::PushFalse,
                _ => Opcode::PushNone,
            };
            lemma_model_moved(state, state.next(), shape, extra, waiting);
            let out = lemma_model_op(state.next(), shape, extra, waiting, opcode);
            lemma_taken_twice(
                state,
                shape,
                state.next(),
                shape,
                parse_value(tokens, state)->Ok_0,
                out,
                extra,
                waiting,
                extra + 1,
                waiting,
            );
            out
        },
        TokenKind::OpenBrace => {
            lemma_model_moved(state, state.next(), shape, extra, waiting);
            let out = lemma_expr_model(tokens, state.next(), shape, extra, waiting);
            match parse_expr(tokens, state.next()) {
                Err(_) => {},
                Ok(parsed) => {
                    lemma_taken_twice(
                        state,
                        shape,
                        state.next(),
                        shape,
                        parsed,
                        out,
                        extra,
                        waiting,
                        extra + 1,
                        waiting,
                    );
                    if parsed.expect(tokens, TokenKind::CloseBrace) is Ok {
                        lemma_model_moved(parsed, parsed.next(), out, extra + 1, waiting);
                        lemma_taken_twice(
                            state,
                            shape,
                            parsed,
                            out,
                            parsed.next(),
                            out,
                            extra + 1,
                            waiting,
                            extra + 1,
                            waiting,
                        );
                    }
                },
            }
            out
        },
        TokenKind::List => {
            lemma_model_moved(state, state.next(), shape, extra, waiting);
            match state.next().expect(tokens, TokenKind::OpenBrace) {
                Err(_) => shape,
                Ok(inside) => {
                    lemma_model_moved(state, inside, shape, extra, waiting);
                    let one = lemma_list_model(
                        tokens,
                        inside,
                        shape,
                        extra,
                        waiting,
                        u32::MAX as nat,
                    );
                    match parse_list(tokens, inside, u32::MAX as nat) {
                        Err(_) => shape,
                        Ok((parsed, count)) => {
                            lemma_taken_twice(
                                state,
                                shape,
                                inside,
                                shape,
                                parsed,
                                one,
                                extra,
                                waiting,
                                extra + count,
                                waiting,
                            );
                            let two = lemma_model_wide(
                                parsed,
                                one,
                                extra + count,
                                waiting,
                                Opcode::PushList,
                                count as u32,
                            );
                            lemma_taken_twice(
                                state,
                                shape,
                                parsed,
                                one,
                                parse_value(tokens, state)->Ok_0,
                                two,
                                extra + count,
                                waiting,
                                extra + 1,
                                waiting,
                            );
                            two
                        },
                    }
                },
            }
        },
        TokenKind::Func => {
            lemma_model_moved(state, state.next(), shape, extra, waiting);
            let out = lemma_func_model(tokens, state.next(), shape, extra, waiting);
            match parse_func(tokens, state.next()) {
                Err(_) => {},
                Ok(after) => {
                    lemma_taken_twice(
                        state,
                        shape,
                        state.next(),
                        shape,
                        after,
                        out,
                        extra,
                        waiting,
                        extra + 1,
                        waiting,
                    );
                },
            }
            out
        },
        _ => shape,
    }
}

/// The right operand of a binary operator, and the operator, modelled:
/// together they leave the height as it is.
pub proof fn lemma_infix_op_model(
    tokens: Seq<Token>,
    state: ParseState,
    shape: Shape,
    extra: int,
    waiting: Seq<Waiting>,
    precedence: Precedence,
    opcode: Opcode,
) -> (out: Shape)
    requires
        given(state, shape, extra, waiting),
        state.tame ==> extra >= 1,
        opcode.operand_width() == 0,
        stack_effect(opcode, 0, 0) == -1,
        needs(opcode, 0) == 2,
    ensures
        parse_infix_op(tokens, state, precedence, opcode) matches Ok(after) ==> taken(
            state,
            shape,
            after,
            out,
            extra,
            waiting,
        ) && (after.tame ==> after.func.scope == state.func.scope),
    decreases tokens.len() - state.pos, 0nat,
{
    if state.pos < tokens.len() {
        lemma_model_moved(state, state.next(), shape, extra, waiting);
        let one = lemma_value_model(tokens, state.next(), shape, extra, waiting);
        match proceed(tokens, state, parse_value(tokens, state.next())) {
            Err(_) => shape,
            Ok(value) => {
                lemma_taken_twice(
                    state,
                    shape,
                    state.next(),
                    shape,
                    value,
                    one,
                    extra,
                    waiting,
                    extra + 1,
                    waiting,
                );
                let two = lemma_infix_model(tokens, value, one, extra + 1, waiting, precedence);
                match parse_infix(tokens, value, precedence) {
                    Err(_) => shape,
                    Ok(operand) => {
                        lemma_taken_twice(
                            state,
                            shape,
                            value,
                            one,
                            operand,
                            two,
                            extra + 1,
                            waiting,
                            extra + 1,
                            waiting,
                        );
                        let three = lemma_model_op(operand, two, extra + 1, waiting, opcode);
                        lemma_taken_twice(
                            state,
                            shape,
                            operand,
                            two,
                            operand.emit_op(opcode),
                            three,
                            extra + 1,
                            waiting,
                            extra,
                            waiting,
                        );
                        three
                    },
                }
            },
        }
    } else {
        shape
    }
}

/// What follows a value, modelled: it leaves the height as it is.
pub proof fn lemma_infix_model(
    tokens: Seq<Token>,
    state: ParseState,
    shape: Shape,
    extra: int,
    waiting: Seq<Waiting>,
    precedence: Precedence,
) -> (out: Shape)
    requires
        given(state, shape, extra, waiting),
        state.tame ==> extra >= 1,
    ensures
        parse_infix(tokens, state, precedence) matches Ok(after) ==> taken(
            state,
            shape,
            after,
            out,
            extra,
            waiting,
        ) && (after.tame ==> after.func.scope == state.func.scope),
    decreases tokens.len() - state.pos, 2nat,
{
    let kind = kind_at(tokens, state.pos);
    lemma_model_moved(state, state, shape, extra, waiting);
    if kind == TokenKind::Dot {
        let one = lemma_property_model(tokens, state, shape, extra, waiting);
        match proceed(tokens, state, parse_property(tokens, state)) {
            Err(_) => shape,
            Ok(parsed) => {
                let two = lemma_infix_model(tokens, parsed, one, extra, waiting, precedence);
                match parse_infix(tokens, parsed, precedence) {
                    Err(_) => {},
                    Ok(after) => {
                        lemma_taken_twice(
                            state,
                            shape,
                            parsed,
                            one,
                            after,
                            two,
                            extra,
                            waiting,
                            extra,
                            waiting,
                        );
                    },
                }
                two
            },
        }
    } else {
        match binary_operator(kind) {
            Some((binding, opcode)) => {
                if precedence.level() > binding.level() {
                    let one = lemma_infix_op_model(
                        tokens,
                        state,
                        shape,
                        extra,
                        waiting,
                        binding,
                        opcode,
                    );
                    match proceed(tokens, state, parse_infix_op(tokens, state, binding, opcode)) {
                        Err(_) => shape,
                        Ok(parsed) => {
                            let two = lemma_infix_model(
                                tokens,
                                parsed,
                                one,
                                extra,
                                waiting,
                                precedence,
                            );
                            match parse_infix(tokens, parsed, precedence) {
                                Err(_) => {},
                                Ok(after) => {
                                    lemma_taken_twice(
                                        state,
                                        shape,
                                        parsed,
                                        one,
                                        after,
                                        two,
                                        extra,
                                        waiting,
                                        extra,
                                        waiting,
                                    );
                                },
                            }
                            two
                        },
                    }
                } else {
                    shape
                }
            },
            None => shape,
        }
    }
}

/// An expression, modelled: it leaves one value.
pub proof fn lemma_expr_model(
    tokens: Seq<Token>,
    state: ParseState,
    shape: Shape,
    extra: int,
    waiting: Seq<Waiting>,
) -> (out: Shape)
    requires
        given(state, shape, extra, waiting),
    ensures
        parse_expr(tokens, state) matches Ok(after) ==> taken(
            state,
            shape,
            after,
            out,
            extra + 1,
            waiting,
        ) && (after.tame ==> after.func.scope == state.func.scope),
    decreases tokens.len() - state.pos, 3nat,
{
    let one = lemma_value_model(tokens, state, shape, extra, waiting);
    match proceed(tokens, state, parse_value(tokens, state)) {
        Err(_) => shape,
        Ok(value) => {
            let two = lemma_infix_model(tokens, value, one, extra + 1, waiting, Precedence::Top);
            match parse_infix(tokens, value, Precedence::Top) {
                Err(_) => {},
                Ok(after) => {
                    lemma_taken_twice(
                        state,
                        shape,
                        value,
                        one,
                        after,
                        two,
                        extra + 1,
                        waiting,
                        extra + 1,
                        waiting,
                    );
                },
            }
            two
        },
    }
}

/// The body of a function literal, modelled from the state behind its
/// parameters on: with its last `Return`, the function is balanceable.
pub proof fn lemma_body_model(tokens: Seq<Token>, head: ParseState)
    requires
        head.tame ==> head.func.wf() && head.func.bytecode.len() == 0 && head.func.scope.len()
            == 1 + head.func.param_count,
    ensures
        ({
            let body = if kind_at(tokens, head.pos) == TokenKind::OpenCurlyBrace {
                parse_block(tokens, head)
            } else {
                match parse_expr(tokens, head) {
                    Err(error) => Err(error),
                    Ok(value) => Ok(value.emit(short_instruction(Opcode::PopStore, 0))),
                }
            };
            body matches Ok(done) ==> (done.tame ==> {
                &&& head.tame
                &&& done.func.wf()
                &&& kept(head, done)
                &&& balanceable(done.emit_op(Opcode::Return).func.built())
            })
        }),
    decreases tokens.len() - head.pos, 6nat,
{
    let start = seq![Some(1 + head.func.param_count as int)];
    let none = Seq::<Waiting>::empty();
    if head.tame {
        assert(shaped(head, start, 0, none));
    }
    if kind_at(tokens, head.pos) == TokenKind::OpenCurlyBrace {
        let inner = lemma_block_model(tokens, head, start, none);
        match parse_block(tokens, head) {
            Err(_) => {},
            Ok(done) => {
                if done.tame {
                    lemma_draft_finish(
                        done.func.bytecode,
                        done.func.param_count,
                        inner,
                        done.func.scope.len() as int,
                        Opcode::Return,
                        done.emit_op(Opcode::Return).func.built(),
                    );
                }
            },
        }
    } else {
        let one = lemma_expr_model(tokens, head, start, 0, none);
        match parse_expr(tokens, head) {
            Err(_) => {},
            Ok(value) => {
                let two = lemma_model_short(value, one, 1, none, Opcode::PopStore, 0, 0);
                let done = value.emit(short_instruction(Opcode::PopStore, 0));
                if done.tame {
                    lemma_draft_finish(
                        done.func.bytecode,
                        done.func.param_count,
                        two,
                        done.func.scope.len() as int,
                        Opcode::Return,
                        done.emit_op(Opcode::Return).func.built(),
                    );
                }
            },
        }
    }
}

/// The state behind the keyword `func`, with a place in the table
/// reserved for the new function and a builder opened for it.
pub open spec fn opened_func(state: ParseState) -> ParseState {
    ParseState {
        funcs: state.funcs.push(FuncView::empty()),
        func: state.func.emit(
            wide_instruction(Opcode::PushFunc, state.funcs.len() as u32),
        ).child(),
        ..state
    }
}

/// The head of a function literal, from its opening parenthesis to its
/// closing one.
pub open spec fn func_head(tokens: Seq<Token>, state: ParseState) -> Result<
    ParseState,
    ParseError,
> {
    match opened_func(state).expect(tokens, TokenKind::OpenBrace) {
        Err(error) => Err(error),
        Ok(inside) => if kind_at(tokens, inside.pos) == TokenKind::CloseBrace {
            Ok(inside.next())
        } else {
            match parse_params(tokens, inside) {
                Err(error) => Err(error),
                Ok(named) => named.expect(tokens, TokenKind::CloseBrace),
            }
        },
    }
}

/// The head of a function literal, modelled: behind it the new function
/// has no code, and its frame holds the return slot and the parameters.
pub proof fn lemma_head_model(tokens: Seq<Token>, state: ParseState)
    requires
        state.funcs.len() <= u32::MAX,
        state.tame ==> state.func.wf(),
    ensures
        func_head(tokens, state) matches Ok(head) ==> {
            &&& head.tame == state.tame
            &&& state.tame ==> {
                &&& head.func.wf()
                &&& head.funcs == state.funcs.push(FuncView::empty())
                &&& head.func.bytecode.len() == 0
                &&& head.func.scope.len() == 1 + head.func.param_count
                &&& head.func.outer_skeleton() == state.func.emit(
                    wide_instruction(Opcode::PushFunc, state.funcs.len() as u32),
                ).skeleton()
                &&& state.funcs.len() < head.funcs.len()
            }
        },
{
    let opened = opened_func(state);
    let pushed = state.func.emit(wide_instruction(Opcode::PushFunc, state.funcs.len() as u32));
    match opened.expect(tokens, TokenKind::OpenBrace) {
        Err(_) => {},
        Ok(inside) => {
            if state.tame {
                assert(pushed.wf());
                assert(opened.func.wf());
                assert(opened.func.scope.len() == 1);
                lemma_params_model(tokens, inside);
            } else if kind_at(tokens, inside.pos) != TokenKind::CloseBrace {
                lemma_params_tame(tokens, inside);
            }
            match func_head(tokens, state) {
                Err(_) => {},
                Ok(head) => {
                    if state.tame {
                        assert(head.func.outer == opened.func.outer);
                        assert(head.funcs == opened.funcs);
                    }
                },
            }
        },
    }
}

/// The parameters of a function literal change nothing about returns.
pub proof fn lemma_params_tame(tokens: Seq<Token>, state: ParseState)
    ensures
        parse_params(tokens, state) matches Ok(after) ==> after.tame == state.tame,
    decreases tokens.len() - state.pos,
{
    match state.expect_ident(tokens) {
        Err(_) => {},
        Ok((named, symbol)) => {
            let defined = ParseState { func: named.func.define_param(symbol), ..named };
            if kind_at(tokens, defined.pos) == TokenKind::Comma && state.pos < defined.pos
                < tokens.len() {
                lemma_params_tame(tokens, defined.next());
            }
        },
    }
}

/// A function literal is its head, its body, a `Return`, and the new
/// function put into the table.
pub proof fn lemma_func_unfolds(tokens: Seq<Token>, state: ParseState)
    ensures
        parse_func(tokens, state) == (if state.funcs.len() > u32::MAX {
            Err::<ParseState, ParseError>(crate::syntax::invalid_at(tokens, state.pos))
        } else {
            match proceed(tokens, state, func_head(tokens, state)) {
                Err(error) => Err(error),
                Ok(head) => {
                    let body = if kind_at(tokens, head.pos) == TokenKind::OpenCurlyBrace {
                        parse_block(tokens, head)
                    } else {
                        match parse_expr(tokens, head) {
                            Err(error) => Err(error),
                            Ok(value) => Ok(value.emit(short_instruction(Opcode::PopStore, 0))),
                        }
                    };
                    match body {
                        Err(error) => Err(error),
                        Ok(done) => {
                            let ended = done.emit_op(Opcode::Return);
                            match ended.func.outer {
                                None => Err(ParseError::EndOfInput),
                                Some(outer) => if state.funcs.len() >= ended.funcs.len() {
                                    Err(ParseError::EndOfInput)
                                } else {
                                    Ok(
                                        ParseState {
                                            funcs: ended.funcs.update(
                                                state.funcs.len() as int,
                                                ended.func.built(),
                                            ),
                                            func: *outer,
                                            ..ended
                                        },
                                    )
                                },
                            }
                        },
                    }
                },
            }
        }),
{
}

/// A function literal, modelled: the enclosing function pushes one value,
/// and the new function, which has its own model, is balanceable.
pub proof fn lemma_func_model(
    tokens: Seq<Token>,
    state: ParseState,
    shape: Shape,
    extra: int,
    waiting: Seq<Waiting>,
) -> (out: Shape)
    requires
        given(state, shape, extra, waiting),
    ensures
        parse_func(tokens, state) matches Ok(after) ==> taken(
            state,
            shape,
            after,
            out,
            extra + 1,
            waiting,
        ) && (after.tame ==> after.func.scope == state.func.scope),
    decreases tokens.len() - state.pos, 7nat,
{
    lemma_func_unfolds(tokens, state);
    if state.funcs.len() <= u32::MAX {
        let out = lemma_model_wide(
            state,
            shape,
            extra,
            waiting,
            Opcode::PushFunc,
            state.funcs.len() as u32,
        );
        lemma_head_model(tokens, state);
        match proceed(tokens, state, func_head(tokens, state)) {
            Err(_) => {},
            Ok(head) => {
                lemma_body_model(tokens, head);
                lemma_func_end_model(tokens, state, shape, extra, waiting, head, out);
            },
        }
        out
    } else {
        shape
    }
}

/// The end of a function literal, modelled: the function goes into the
/// table, and the enclosing function goes on with its draft.
pub proof fn lemma_func_end_model(
    tokens: Seq<Token>,
    state: ParseState,
    shape: Shape,
    extra: int,
    waiting: Seq<Waiting>,
    head: ParseState,
    out: Shape,
)
    requires
        state.funcs.len() <= u32::MAX,
        head.tame == state.tame,
        state.tame ==> {
            let pushed = state.func.emit(
                wide_instruction(Opcode::PushFunc, state.funcs.len() as u32),
            );
            &&& shaped(
                ParseState { func: pushed, ..state },
                out,
                extra + 1,
                waiting,
            )
            &&& shape.len() <= out.len()
            &&& out.take(shape.len() as int) == shape
            &&& head.func.outer_skeleton() == pushed.skeleton()
            &&& head.funcs == state.funcs.push(FuncView::empty())
        },
        ({
            let body = if kind_at(tokens, head.pos) == TokenKind::OpenCurlyBrace {
                parse_block(tokens, head)
            } else {
                match parse_expr(tokens, head) {
                    Err(error) => Err(error),
                    Ok(value) => Ok(value.emit(short_instruction(Opcode::PopStore, 0))),
                }
            };
            body matches Ok(done) ==> (done.tame ==> {
                &&& head.tame
                &&& done.func.wf()
                &&& kept(head, done)
                &&& balanceable(done.emit_op(Opcode::Return).func.built())
            })
        }),
    ensures
        ({
            let index = state.funcs.len();
            let body = if kind_at(tokens, head.pos) == TokenKind::OpenCurlyBrace {
                parse_block(tokens, head)
            } else {
                match parse_expr(tokens, head) {
                    Err(error) => Err(error),
                    Ok(value) => Ok(value.emit(short_instruction(Opcode::PopStore, 0))),
                }
            };
            body matches Ok(done) ==> (done.emit_op(Opcode::Return).func.outer matches Some(outer)
                ==> (index < done.funcs.len() ==> {
                let ended = done.emit_op(Opcode::Return);
                let after = ParseState {
                    funcs: ended.funcs.update(index as int, ended.func.built()),
                    func: *outer,
                    ..ended
                };
                taken(state, shape, after, out, extra + 1, waiting) && (after.tame
                    ==> after.func.scope == state.func.scope)
            }))
        }),
{
    let index = state.funcs.len();
    let pushed = state.func.emit(wide_instruction(Opcode::PushFunc, index as u32));
    let body = if kind_at(tokens, head.pos) == TokenKind::OpenCurlyBrace {
        parse_block(tokens, head)
    } else {
        match parse_expr(tokens, head) {
            Err(error) => Err(error),
            Ok(value) => Ok(value.emit(short_instruction(Opcode::PopStore, 0))),
        }
    };
    match body {
        Err(_) => {},
        Ok(done) => {
            let ended = done.emit_op(Opcode::Return);
            match ended.func.outer {
                None => {},
                Some(outer) => {
                    if index < done.funcs.len() && done.tame {
                        let after = ParseState {
                            funcs: ended.funcs.update(index as int, ended.func.built()),
                            func: *outer,
                            ..ended
                        };
                        lemma_skeleton(pushed);
                        assert(ended.func.outer_skeleton() == done.func.outer_skeleton());
                        assert(outer.skeleton() == pushed.skeleton());
                        lemma_skeleton(*outer);
                        assert(after.func.bytecode == pushed.bytecode);
                        assert(after.func.scope == pushed.scope);
                        assert(after.func.param_count == pushed.param_count);
                        assert(after.func.outer_skeleton() == state.func.outer_skeleton());
                        assert(done.func.wf());
                        assert(outer.wf());
                        assert forall|i: int| 0 <= i < state.funcs.len() implies #[trigger] after.funcs[i]
                            == state.funcs[i] by {
                            assert(done.funcs[i] == head.funcs[i]);
                        }
                        assert forall|i: int|
                            state.funcs.len() <= i < after.funcs.len() implies balanceable(
                            #[trigger] after.funcs[i],
                        ) by {
                            if i != index {
                                assert(balanceable(done.funcs[i]));
                            }
                        }
                        assert(shaped(after, out, extra + 1, waiting));
                    }
                },
            }
        },
    }
}

/// The draft after the `n` locals defined last went out of scope.
pub proof fn lemma_shaped_free(
    state: ParseState,
    shape: Shape,
    waiting: Seq<Waiting>,
    n: u8,
) -> (out: Shape)
    requires
        shaped(state, shape, 0, waiting),
        1 <= n,
        n + 1 + state.func.param_count <= state.func.scope.len(),
    ensures
        shaped(ParseState { func: state.func.free(n), ..state }, out, 0, waiting),
        kept(state, ParseState { func: state.func.free(n), ..state }),
        shape.len() <= out.len(),
        out.take(shape.len() as int) == shape,
{
    let height = state.func.scope.len() as int;
    let bytes = short_instruction(Opcode::Drop, n);
    assert(bytes =~= seq![Opcode::Drop.byte()] + operand_bytes(1, n as u64));
    lemma_draft_emit(
        state.func.bytecode,
        state.func.param_count,
        shape,
        height,
        waiting,
        Opcode::Drop,
        n as u64,
    );
    let freed = ParseState { func: state.func.free(n), ..state };
    assert(freed.func.outer_skeleton() == state.func.outer_skeleton());
    assert(freed.func.wf());
    lemma_grown_keeps(shape, 2, height - n);
    grown(shape, 2, height - n)
}

/// A block, modelled: at its end the frame holds the locals that it held
/// at its start.
pub proof fn lemma_block_model(
    tokens: Seq<Token>,
    state: ParseState,
    shape: Shape,
    waiting: Seq<Waiting>,
) -> (out: Shape)
    requires
        given(state, shape, 0, waiting),
    ensures
        parse_block(tokens, state) matches Ok(after) ==> taken(
            state,
            shape,
            after,
            out,
            0,
            waiting,
        ) && (after.tame ==> after.func.scope == state.func.scope),
    decreases tokens.len() - state.pos, 0nat,
{
    if kind_at(tokens, state.pos) == TokenKind::OpenCurlyBrace {
        lemma_model_moved(state, state.next(), shape, 0, waiting);
        let one = lemma_stmts_model(tokens, state.next(), shape, waiting);
        match parse_stmts(tokens, state.next()) {
            Err(_) => shape,
            Ok(parsed) => {
                lemma_taken_twice(
                    state,
                    shape,
                    state.next(),
                    shape,
                    parsed,
                    one,
                    0,
                    waiting,
                    0,
                    waiting,
                );
                let defined = parsed.func.scope.len() - state.func.scope.len();
                if defined > 0 && parsed.tame {
                    assert(parsed.func.scope.take(state.func.scope.len() as int)
                        == state.func.scope);
                    let two = lemma_shaped_free(parsed, one, waiting, defined as u8);
                    let freed = ParseState { func: parsed.func.free(defined as u8), ..parsed };
                    assert(freed.func.scope =~= state.func.scope);
                    lemma_keeps_twice(shape, one, two);
                    two
                } else {
                    one
                }
            },
        }
    } else {
        shape
    }
}

/// The statements of a block, modelled: between statements the frame
/// holds the locals in scope and nothing else.
pub proof fn lemma_stmts_model(
    tokens: Seq<Token>,
    state: ParseState,
    shape: Shape,
    waiting: Seq<Waiting>,
) -> (out: Shape)
    requires
        given(state, shape, 0, waiting),
    ensures
        parse_stmts(tokens, state) matches Ok(after) ==> taken(
            state,
            shape,
            after,
            out,
            0,
            waiting,
        ) && (after.tame ==> more_scope(state, after)),
    decreases tokens.len() - state.pos, 2nat,
{
    if kind_at(tokens, state.pos) == TokenKind::CloseCurlyBrace {
        lemma_model_moved(state, state.next(), shape, 0, waiting);
        assert(state.func.scope.take(state.func.scope.len() as int) =~= state.func.scope);
        shape
    } else {
        let one = lemma_stmt_model(tokens, state, shape, waiting);
        match proceed(tokens, state, parse_stmt(tokens, state)) {
            Err(_) => shape,
            Ok(parsed) => {
                let two = lemma_stmts_model(tokens, parsed, one, waiting);
                match parse_stmts(tokens, parsed) {
                    Err(_) => {},
                    Ok(after) => {
                        lemma_taken_twice(
                            state,
                            shape,
                            parsed,
                            one,
                            after,
                            two,
                            0,
                            waiting,
                            0,
                            waiting,
                        );
                        if after.tame {
                            lemma_more_scope_twice(state, parsed, after);
                        }
                    },
                }
                two
            },
        }
    }
}

/// The locals in scope in `to` are those in scope in `from`, and perhaps
/// more behind them.
pub open spec fn more_scope(from: ParseState, to: ParseState) -> bool {
    &&& from.func.scope.len() <= to.func.scope.len()
    &&& to.func.scope.take(from.func.scope.len() as int) == from.func.scope
}

/// More locals behind more locals are more locals.
pub proof fn lemma_more_scope_twice(first: ParseState, second: ParseState, third: ParseState)
    requires
        more_scope(first, second),
        more_scope(second, third),
    ensures
        more_scope(first, third),
{
    assert(third.func.scope.take(first.func.scope.len() as int) =~= third.func.scope.take(
        second.func.scope.len() as int,
    ).take(first.func.scope.len() as int));
}

/// The same locals are no fewer locals.
pub proof fn lemma_same_scope(from: ParseState, to: ParseState)
    requires
        to.func.scope == from.func.scope,
    ensures
        more_scope(from, to),
{
    assert(to.func.scope.take(from.func.scope.len() as int) =~= from.func.scope);
}

/// A compound assignment, modelled.
pub proof fn lemma_assign_op_model(
    tokens: Seq<Token>,
    state: ParseState,
    shape: Shape,
    waiting: Seq<Waiting>,
    symbol: Symbol,
    at: usize,
    opcode: Opcode,
) -> (out: Shape)
    requires
        given(state, shape, 0, waiting),
        opcode.operand_width() == 0,
        stack_effect(opcode, 0, 0) == -1,
        needs(opcode, 0) == 2,
    ensures
        parse_assign_op(tokens, state, symbol, at, opcode) matches Ok(after) ==> taken(
            state,
            shape,
            after,
            out,
            0,
            waiting,
        ) && (after.tame ==> after.func.scope == state.func.scope),
    decreases tokens.len() - state.pos, 0nat,
{
    if state.pos < tokens.len() {
        lemma_model_moved(state, state.next(), shape, 0, waiting);
        let one = lemma_expr_model(tokens, state.next(), shape, 0, waiting);
        match parse_expr(tokens, state.next()) {
            Err(_) => shape,
            Ok(parsed) => {
                lemma_taken_twice(
                    state,
                    shape,
                    state.next(),
                    shape,
                    parsed,
                    one,
                    0,
                    waiting,
                    1,
                    waiting,
                );
                match parsed.resolve(symbol, at) {
                    Err(_) => shape,
                    Ok((resolved, variable)) => {
                        if parsed.tame {
                            lemma_shaped_resolve(parsed, one, 1, waiting, symbol, at);
                        }
                        let (load, store, operand) = match variable {
                            Variable::Stack(slot) => (Opcode::PushLoad, Opcode::PopStore, slot),
                            Variable::Closure(index) => (
                                Opcode::PushClosureLoad,
                                Opcode::PopClosureStore,
                                index,
                            ),
                        };
                        let two = lemma_model_short(resolved, one, 1, waiting, load, operand, 2);
                        let loaded = resolved.emit(BuilderView::load_code(variable));
                        let three = lemma_model_op(loaded, two, 2, waiting, opcode);
                        let applied = loaded.emit_op(opcode);
                        let four = lemma_model_short(applied, three, 1, waiting, store, operand, 0);
                        let stored = applied.emit(BuilderView::store_code(variable));
                        if stored.tame {
                            lemma_keeps_twice(one, two, three);
                            lemma_keeps_twice(one, three, four);
                            lemma_keeps_twice(shape, one, four);
                        }
                        four
                    },
                }
            },
        }
    } else {
        shape
    }
}

/// The `else` of an `if` statement, modelled: the jump that leaves the
/// block before it lands at its block.
pub proof fn lemma_else_model(
    tokens: Seq<Token>,
    state: ParseState,
    shape: Shape,
    waiting: Seq<Waiting>,
    index: int,
    skip: Jump,
) -> (out: Shape)
    requires
        given(state, shape, 0, waiting),
        state.tame ==> 0 <= index < waiting.len() && waiting[index].offset == skip.offset
            && waiting[index].expect == state.func.scope.len(),
    ensures
        parse_else(tokens, state, skip) matches Ok(after) ==> taken(
            state,
            shape,
            after,
            out,
            0,
            waiting.remove(index),
        ) && (after.tame ==> after.func.scope == state.func.scope),
    decreases tokens.len() - state.pos, 0nat,
{
    if state.pos < tokens.len() {
        lemma_model_moved(state, state.next(), shape, 0, waiting);
        let one = lemma_model_jump(tokens, state.next(), shape, 0, waiting, Opcode::Jump);
        match state.next().jump(tokens, Opcode::Jump) {
            Err(_) => shape,
            Ok((left, exit)) => {
                let more = waiting.push(
                    Waiting { offset: exit.offset as int, expect: state.func.scope.len() as int },
                );
                lemma_model_land(tokens, left, one, more, index, skip);
                match left.land(tokens, skip) {
                    Err(_) => shape,
                    Ok(landed) => {
                        let open = more.remove(index);
                        let two = if kind_at(tokens, landed.pos) == TokenKind::If {
                            lemma_if_model(tokens, landed, one, open)
                        } else {
                            lemma_block_model(tokens, landed, one, open)
                        };
                        let other = if kind_at(tokens, landed.pos) == TokenKind::If {
                            parse_if(tokens, landed)
                        } else {
                            parse_block(tokens, landed)
                        };
                        match other {
                            Err(_) => shape,
                            Ok(done) => {
                                if done.tame {
                                    assert(open[waiting.len() - 1] == more[waiting.len() as int]);
                                }
                                lemma_model_land(tokens, done, two, open, waiting.len() - 1, exit);
                                match done.land(tokens, exit) {
                                    Err(_) => {},
                                    Ok(after) => {
                                        if after.tame {
                                            assert(open.remove(waiting.len() - 1)
                                                =~= waiting.remove(index));
                                            lemma_keeps_twice(shape, one, two);
                                        }
                                    },
                                }
                                two
                            },
                        }
                    },
                }
            },
        }
    } else {
        shape
    }
}

/// An `if` statement, modelled.
pub proof fn lemma_if_model(
    tokens: Seq<Token>,
    state: ParseState,
    shape: Shape,
    waiting: Seq<Waiting>,
) -> (out: Shape)
    requires
        given(state, shape, 0, waiting),
    ensures
        parse_if(tokens, state) matches Ok(after) ==> taken(
            state,
            shape,
            after,
            out,
            0,
            waiting,
        ) && (after.tame ==> after.func.scope == state.func.scope),
    decreases tokens.len() - state.pos, 0nat,
{
    if state.pos < tokens.len() {
        lemma_model_moved(state, state.next(), shape, 0, waiting);
        let one = lemma_expr_model(tokens, state.next(), shape, 0, waiting);
        match proceed(tokens, state, parse_expr(tokens, state.next())) {
            Err(_) => shape,
            Ok(condition) => {
                let two = lemma_model_jump(tokens, condition, one, 1, waiting, Opcode::JumpIfNot);
                match condition.jump(tokens, Opcode::JumpIfNot) {
                    Err(_) => shape,
                    Ok((tested, skip)) => {
                        let more = waiting.push(
                            Waiting {
                                offset: skip.offset as int,
                                expect: state.func.scope.len() as int,
                            },
                        );
                        let three = lemma_block_model(tokens, tested, two, more);
                        match proceed(tokens, state, parse_block(tokens, tested)) {
                            Err(_) => shape,
                            Ok(then) => {
                                if then.tame {
                                    lemma_keeps_twice(shape, one, two);
                                    lemma_keeps_twice(shape, two, three);
                                    assert(more.remove(waiting.len() as int) =~= waiting);
                                }
                                if kind_at(tokens, then.pos) == TokenKind::Else {
                                    let four = lemma_else_model(
                                        tokens,
                                        then,
                                        three,
                                        more,
                                        waiting.len() as int,
                                        skip,
                                    );
                                    match parse_else(tokens, then, skip) {
                                        Err(_) => {},
                                        Ok(after) => {
                                            if after.tame {
                                                lemma_keeps_twice(shape, three, four);
                                            }
                                        },
                                    }
                                    four
                                } else {
                                    lemma_model_land(
                                        tokens,
                                        then,
                                        three,
                                        more,
                                        waiting.len() as int,
                                        skip,
                                    );
                                    three
                                }
                            },
                        }
                    },
                }
            },
        }
    } else {
        shape
    }
}

/// A `while` statement, modelled: the jump at the end of its block comes
/// back to the condition with the height that the condition started
/// with.
pub proof fn lemma_while_model(
    tokens: Seq<Token>,
    state: ParseState,
    shape: Shape,
    waiting: Seq<Waiting>,
) -> (out: Shape)
    requires
        given(state, shape, 0, waiting),
    ensures
        parse_while(tokens, state) matches Ok(after) ==> taken(
            state,
            shape,
            after,
            out,
            0,
            waiting,
        ) && (after.tame ==> after.func.scope == state.func.scope),
    decreases tokens.len() - state.pos, 4nat,
{
    if state.func.bytecode.len() <= MAX_CODE {
        let top = JumpTarget { offset: state.func.bytecode.len() as u32 };
        let one = lemma_expr_model(tokens, state, shape, 0, waiting);
        match proceed(tokens, state, parse_expr(tokens, state)) {
            Err(_) => shape,
            Ok(condition) => {
                let two = lemma_model_jump(tokens, condition, one, 1, waiting, Opcode::JumpIfNot);
                match condition.jump(tokens, Opcode::JumpIfNot) {
                    Err(_) => shape,
                    Ok((tested, leave)) => {
                        let more = waiting.push(
                            Waiting {
                                offset: leave.offset as int,
                                expect: state.func.scope.len() as int,
                            },
                        );
                        let three = lemma_block_model(tokens, tested, two, more);
                        match parse_block(tokens, tested) {
                            Err(_) => shape,
                            Ok(body) => {
                                let four = lemma_model_jump(
                                    tokens,
                                    body,
                                    three,
                                    0,
                                    more,
                                    Opcode::Jump,
                                );
                                match body.jump(tokens, Opcode::Jump) {
                                    Err(_) => shape,
                                    Ok((looped, repeat)) => {
                                        let most = more.push(
                                            Waiting {
                                                offset: repeat.offset as int,
                                                expect: state.func.scope.len() as int,
                                            },
                                        );
                                        let closed = ParseState {
                                            func: looped.func.connect(repeat, top),
                                            ..looped
                                        };
                                        if looped.tame {
                                            lemma_keeps_twice(shape, one, two);
                                            lemma_keeps_twice(shape, two, three);
                                            lemma_keeps_twice(shape, three, four);
                                            assert(four[top.offset as int] == four.take(
                                                shape.len() as int,
                                            )[top.offset as int]);
                                            lemma_shaped_connect(
                                                looped,
                                                four,
                                                0,
                                                most,
                                                more.len() as int,
                                                repeat,
                                                top,
                                            );
                                            assert(most.remove(more.len() as int) =~= more);
                                            assert(more.remove(waiting.len() as int) =~= waiting);
                                        }
                                        lemma_model_land(
                                            tokens,
                                            closed,
                                            four,
                                            more,
                                            waiting.len() as int,
                                            leave,
                                        );
                                        four
                                    },
                                }
                            },
                        }
                    },
                }
            },
        }
    } else {
        shape
    }
}

/// A `var` statement, modelled: the value of its expression is the new
/// local.
pub proof fn lemma_var_model(
    tokens: Seq<Token>,
    state: ParseState,
    shape: Shape,
    waiting: Seq<Waiting>,
) -> (out: Shape)
    requires
        given(state, shape, 0, waiting),
    ensures
        parse_var(tokens, state) matches Ok(after) ==> taken(
            state,
            shape,
            after,
            out,
            0,
            waiting,
        ) && (after.tame ==> more_scope(state, after)),
    decreases tokens.len() - state.pos, 0nat,
{
    match state.expect_ident(tokens) {
        Err(_) => shape,
        Ok((named, symbol)) => match proceed(
            tokens,
            state,
            named.expect(tokens, TokenKind::Equals),
        ) {
            Err(_) => shape,
            Ok(assigned) => {
                lemma_model_moved(state, assigned, shape, 0, waiting);
                let one = lemma_expr_model(tokens, assigned, shape, 0, waiting);
                match parse_expr(tokens, assigned) {
                    Err(_) => shape,
                    Ok(parsed) => {
                        match parsed.define(tokens, symbol) {
                            Err(_) => {},
                            Ok(defined) => {
                                if defined.tame {
                                    assert(defined.func.outer_skeleton()
                                        == parsed.func.outer_skeleton());
                                    assert(defined.func.wf());
                                    assert(defined.func.scope.take(
                                        state.func.scope.len() as int,
                                    ) =~= state.func.scope);
                                }
                            },
                        }
                        one
                    },
                }
            },
        },
    }
}

/// What follows the name at the start of a statement, modelled.
pub proof fn lemma_named_model(
    tokens: Seq<Token>,
    state: ParseState,
    shape: Shape,
    waiting: Seq<Waiting>,
    symbol: Symbol,
    at: usize,
) -> (out: Shape)
    requires
        given(state, shape, 0, waiting),
    ensures
        parse_named(tokens, state, symbol, at) matches Ok(after) ==> taken(
            state,
            shape,
            after,
            out,
            0,
            waiting,
        ) && (after.tame ==> after.func.scope == state.func.scope),
    decreases tokens.len() - state.pos, 1nat,
{
    let kind = kind_at(tokens, state.pos);
    if kind == TokenKind::OpenBrace {
        let one = lemma_call_model(tokens, state, shape, 0, waiting, symbol, at);
        match parse_call(tokens, state, symbol, at) {
            Err(_) => shape,
            Ok(called) => {
                let two = lemma_model_short(called, one, 1, waiting, Opcode::Drop, 1, 0);
                lemma_taken_twice(
                    state,
                    shape,
                    called,
                    one,
                    called.emit(short_instruction(Opcode::Drop, 1)),
                    two,
                    1,
                    waiting,
                    0,
                    waiting,
                );
                two
            },
        }
    } else if kind == TokenKind::Equals {
        lemma_model_moved(state, state.next(), shape, 0, waiting);
        let one = lemma_expr_model(tokens, state.next(), shape, 0, waiting);
        match parse_expr(tokens, state.next()) {
            Err(_) => shape,
            Ok(parsed) => {
                lemma_taken_twice(
                    state,
                    shape,
                    state.next(),
                    shape,
                    parsed,
                    one,
                    0,
                    waiting,
                    1,
                    waiting,
                );
                let two = lemma_model_store(parsed, one, 1, waiting, symbol, at);
                match parsed.store(symbol, at) {
                    Err(_) => {},
                    Ok(after) => {
                        lemma_taken_twice(
                            state,
                            shape,
                            parsed,
                            one,
                            after,
                            two,
                            1,
                            waiting,
                            0,
                            waiting,
                        );
                    },
                }
                two
            },
        }
    } else {
        match assign_operator(kind) {
            Some(opcode) => lemma_assign_op_model(tokens, state, shape, waiting, symbol, at, opcode),
            None => shape,
        }
    }
}

/// A statement, modelled: before it and behind it the frame holds the
/// locals in scope and nothing else.
pub proof fn lemma_stmt_model(
    tokens: Seq<Token>,
    state: ParseState,
    shape: Shape,
    waiting: Seq<Waiting>,
) -> (out: Shape)
    requires
        given(state, shape, 0, waiting),
    ensures
        parse_stmt(tokens, state) matches Ok(after) ==> taken(
            state,
            shape,
            after,
            out,
            0,
            waiting,
        ) && (after.tame ==> more_scope(state, after)),
    decreases tokens.len() - state.pos, 1nat,
{
    lemma_model_moved(state, state.next(), shape, 0, waiting);
    match kind_at(tokens, state.pos) {
        TokenKind::SemiColon => {
            lemma_same_scope(state, state.next());
            shape
        },
        TokenKind::While => {
            let out = lemma_while_model(tokens, state.next(), shape, waiting);
            match parse_while(tokens, state.next()) {
                Err(_) => {},
                Ok(after) => {
                    lemma_taken_twice(
                        state,
                        shape,
                        state.next(),
                        shape,
                        after,
                        out,
                        0,
                        waiting,
                        0,
                        waiting,
                    );
                    if after.tame {
                        lemma_same_scope(state, after);
                    }
                },
            }
            out
        },
        TokenKind::If => {
            let out = lemma_if_model(tokens, state, shape, waiting);
            match parse_if(tokens, state) {
                Err(_) => {},
                Ok(after) => {
                    if after.tame {
                        lemma_same_scope(state, after);
                    }
                },
            }
            out
        },
        TokenKind::Var => {
            let out = lemma_var_model(tokens, state.next(), shape, waiting);
            match parse_var(tokens, state.next()) {
                Err(_) => {},
                Ok(after) => {
                    lemma_taken_twice(
                        state,
                        shape,
                        state.next(),
                        shape,
                        after,
                        out,
                        0,
                        waiting,
                        0,
                        waiting,
                    );
                },
            }
            out
        },
        TokenKind::Print => {
            let one = lemma_expr_model(tokens, state.next(), shape, 0, waiting);
            match parse_expr(tokens, state.next()) {
                Err(_) => shape,
                Ok(parsed) => {
                    let two = lemma_model_op(parsed, one, 1, waiting, Opcode::PopPrint);
                    if parsed.tame {
                        lemma_keeps_twice(shape, one, two);
                        lemma_same_scope(state, parsed.emit_op(Opcode::PopPrint));
                    }
                    two
                },
            }
        },
        TokenKind::Return => {
            let one = lemma_expr_model(tokens, state.next(), shape, 0, waiting);
            match parse_expr(tokens, state.next()) {
                Err(_) => shape,
                Ok(parsed) => {
                    let returning = parsed.returning();
                    let two = lemma_model_short(returning, one, 1, waiting, Opcode::PopStore, 0, 0);
                    let stored = returning.emit(short_instruction(Opcode::PopStore, 0));
                    if stored.tame {
                        let three = lemma_shaped_return(stored, two, waiting);
                        lemma_keeps_twice(shape, one, two);
                        lemma_keeps_twice(shape, two, three);
                        lemma_same_scope(state, stored.emit_op(Opcode::Return));
                        three
                    } else {
                        shape
                    }
                },
            }
        },
        TokenKind::Ident => match state.expect_ident(tokens) {
            Err(_) => shape,
            Ok((named, symbol)) => {
                lemma_model_moved(state, named, shape, 0, waiting);
                let at = offset_at(tokens, state.pos);
                let out = lemma_named_model(tokens, named, shape, waiting, symbol, at);
                match parse_named(tokens, named, symbol, at) {
                    Err(_) => {},
                    Ok(after) => {
                        lemma_taken_twice(
                            state,
                            shape,
                            named,
                            shape,
                            after,
                            out,
                            0,
                            waiting,
                            0,
                            waiting,
                        );
                        if after.tame {
                            lemma_same_scope(state, after);
                        }
                    },
                }
                out
            },
        },
        _ => shape,
    }
}

/// The statements of a program, modelled.
pub proof fn lemma_program_model(tokens: Seq<Token>, state: ParseState, shape: Shape) -> (out:
    Shape)
    requires
        given(state, shape, 0, Seq::empty()),
    ensures
        parse_program(tokens, state) matches Ok(after) ==> taken(
            state,
            shape,
            after,
            out,
            0,
            Seq::empty(),
        ),
    decreases tokens.len() - state.pos,
{
    let none = Seq::<Waiting>::empty();
    lemma_model_moved(state, state, shape, 0, none);
    if kind_at(tokens, state.pos) != TokenKind::End {
        let one = lemma_stmt_model(tokens, state, shape, none);
        match proceed(tokens, state, parse_stmt(tokens, state)) {
            Err(_) => shape,
            Ok(parsed) => {
                let two = lemma_program_model(tokens, parsed, one);
                match parse_program(tokens, parsed) {
                    Err(_) => {},
                    Ok(after) => {
                        lemma_taken_twice(
                            state,
                            shape,
                            parsed,
                            one,
                            after,
                            two,
                            0,
                            none,
                            0,
                            none,
                        );
                    },
                }
                two
            },
        }
    } else {
        shape
    }
}

/// Stack balance of compiled code: where every `return` statement of a
/// program stands with no local but the parameters in scope, every
/// function that the compiler makes of the program is balanced under some
/// model of its stack, and the functions that the table held are as they
/// were. With `lemma_step_agrees`, the machine then keeps the height of its
/// stack, at every instruction of every such function, at what the model
/// says.
pub proof fn lemma_tame_program_balanced(
    tokens: Seq<Token>,
    funcs: Seq<FuncView>,
    names: Seq<Seq<char>>,
    params: Seq<Symbol>,
)
    requires
        1 <= params.len() <= MAX_LOCALS,
        compiles_tamely(tokens, funcs, names, params),
    ensures
        compile(tokens, funcs, names, params) is Ok,
        added(funcs, compile(tokens, funcs, names, params)->Ok_0.0),
        funcs.len() < compile(tokens, funcs, names, params)->Ok_0.0.len(),
{
    let start = start_state(funcs, names, params);
    let first = seq![Some(params.len() as int)];
    let none = Seq::<Waiting>::empty();
    assert(start.func.wf());
    assert(shaped(start, first, 0, none));
    let out = lemma_program_model(tokens, start, first);
    let parsed = parse_program(tokens, start)->Ok_0;
    let ended = parsed.emit_op(Opcode::Finish);
    lemma_draft_finish(
        parsed.func.bytecode,
        parsed.func.param_count,
        out,
        parsed.func.scope.len() as int,
        Opcode::Finish,
        ended.func.built(),
    );
    let compiled = compile(tokens, funcs, names, params)->Ok_0.0;
    assert forall|i: int| 0 <= i < funcs.len() implies #[trigger] compiled[i] == funcs[i] by {
        assert(parsed.funcs[i] == start.funcs[i]);
    }
    assert forall|i: int| funcs.len() <= i < compiled.len() implies balanceable(
        #[trigger] compiled[i],
    ) by {
        if i != funcs.len() {
            assert(balanceable(parsed.funcs[i]));
        }
    }
}

/// A table of functions that are all balanceable has a model for each of
/// its functions: under these models the program is balanced, and the
/// machine that runs it keeps to them.
pub proof fn lemma_balanceable_program(funcs: Seq<crate::func::Func>) -> (shapes: Seq<Shape>)
    requires
        forall|i: int| 0 <= i < funcs.len() ==> balanceable((#[trigger] funcs[i])@),
    ensures
        crate::balance::all_balanced(funcs, shapes),
{
    let shapes = Seq::new(
        funcs.len(),
        |i: int| choose|shape: Shape| balanced(funcs[i]@, shape),
    );
    assert forall|f: int| 0 <= f < funcs.len() implies balanced(
        (#[trigger] funcs[f])@,
        shapes[f],
    ) by {
        assert(balanceable(funcs[f]@));
        assert(funcs[f].bytecode@.len() == funcs[f].bytecode.len());
    }
    shapes
}

} // verus!
