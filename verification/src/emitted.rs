//! What holds of every compiled function: its bytecode is a sequence of
//! whole instructions, so that it can be listed and run from instruction to
//! instruction.

use vstd::prelude::*;
use crate::bytes::{lemma_u32_round_trip, lemma_u64_round_trip, u32_be, u64_be};
use crate::func::{
    decode_at, lemma_skeleton, listing, listing_from, patched, short_instruction,
    wide_instruction, BuilderView, FuncView, Jump, JumpTarget, Variable,
};
use crate::opcode::Opcode;
use crate::symbols::Symbol;
use crate::syntax::{
    assign_operator, binary_operator, compile, kind_at, offset_at, parse_assign_op,
    parse_block, parse_call, parse_else, parse_expr, parse_func, parse_if, parse_infix,
    parse_infix_op, parse_items, parse_list, parse_named, parse_params, parse_program,
    parse_property, parse_stmt, parse_stmts, parse_value, parse_var, parse_while, proceed,
    ParseState, Precedence,
};
use crate::token::{Token, TokenKind};

verus! {

/// The code is a sequence of whole instructions. (Code too long for the
/// index type of the machine is no concern: no machine holds it.)
pub open spec fn lists(code: Seq<u8>) -> bool {
    code.len() <= usize::MAX ==> listing(code) is Some
}

/// The four bytes from `offset` on are the operand of a jump, and the
/// code before the jump is a sequence of whole instructions.
pub open spec fn jump_at(code: Seq<u8>, offset: int) -> bool {
    &&& 1 <= offset
    &&& offset + 4 <= code.len()
    &&& code[offset - 1] == Opcode::Jump.byte() || code[offset - 1] == Opcode::JumpIfNot.byte()
    &&& lists(code.take(offset - 1))
}

/// What an instruction decodes to depends on its own bytes only: the same
/// bytes at another place, or in another code, decode to the same
/// instruction.
pub proof fn lemma_decode_local(a: Seq<u8>, b: Seq<u8>, pa: int, pb: int)
    requires
        decode_at(a, pa) is Some,
        0 <= pb,
        pb + (decode_at(a, pa)->0.next - pa) <= b.len(),
        b.len() <= usize::MAX,
        a.subrange(pa, decode_at(a, pa)->0.next as int) == b.subrange(
            pb,
            pb + (decode_at(a, pa)->0.next - pa),
        ),
    ensures
        decode_at(b, pb) is Some,
        decode_at(b, pb)->0.opcode == decode_at(a, pa)->0.opcode,
        decode_at(b, pb)->0.operand == decode_at(a, pa)->0.operand,
        decode_at(b, pb)->0.next - pb == decode_at(a, pa)->0.next - pa,
        pa < decode_at(a, pa)->0.next <= a.len(),
{
    let next = decode_at(a, pa)->0.next as int;
    let size = next - pa;
    let bytes = a.subrange(pa, next);
    assert(bytes[0] == a[pa]);
    assert(b.subrange(pb, pb + size)[0] == b[pb]);
    assert(a.subrange(pa + 1, next) =~= bytes.subrange(1, size));
    assert(b.subrange(pb + 1, pb + size) =~= b.subrange(pb, pb + size).subrange(1, size));
}

/// Whether the code from an offset on is a sequence of whole instructions
/// depends on the bytes from that offset on only.
pub proof fn lemma_listing_local(a: Seq<u8>, b: Seq<u8>, pa: int, pb: int)
    requires
        0 <= pa <= a.len(),
        0 <= pb <= b.len(),
        b.len() <= usize::MAX,
        a.subrange(pa, a.len() as int) == b.subrange(pb, b.len() as int),
        listing_from(a, pa) is Some,
    ensures
        listing_from(b, pb) is Some,
    decreases a.len() - pa,
{
    assert(a.len() - pa == a.subrange(pa, a.len() as int).len());
    assert(b.len() - pb == b.subrange(pb, b.len() as int).len());
    if pa < a.len() {
        let next = decode_at(a, pa)->0.next as int;
        assert(a.subrange(pa, next) =~= a.subrange(pa, a.len() as int).subrange(0, next - pa));
        assert(b.subrange(pb, pb + (next - pa)) =~= b.subrange(pb, b.len() as int).subrange(
            0,
            next - pa,
        ));
        lemma_decode_local(a, b, pa, pb);
        let other = decode_at(b, pb)->0.next as int;
        assert(a.subrange(next, a.len() as int) =~= a.subrange(pa, a.len() as int).subrange(
            next - pa,
            a.len() - pa,
        ));
        assert(b.subrange(other, b.len() as int) =~= b.subrange(pb, b.len() as int).subrange(
            next - pa,
            a.len() - pa,
        ));
        lemma_listing_local(a, b, next, other);
    }
}

/// Whole instructions behind whole instructions are whole instructions.
pub proof fn lemma_listing_append(code: Seq<u8>, extra: Seq<u8>, pc: int)
    requires
        0 <= pc <= code.len(),
        code.len() + extra.len() <= usize::MAX,
        listing_from(code, pc) is Some,
        listing(extra) is Some,
    ensures
        listing_from(code + extra, pc) is Some,
    decreases code.len() - pc,
{
    let whole = code + extra;
    if pc < code.len() {
        let next = decode_at(code, pc)->0.next as int;
        assert(next <= code.len());
        assert(code.subrange(pc, next) =~= whole.subrange(pc, next));
        lemma_decode_local(code, whole, pc, pc);
        lemma_listing_append(code, extra, next);
    } else {
        assert(extra.subrange(0, extra.len() as int) =~= whole.subrange(pc, whole.len() as int));
        lemma_listing_local(extra, whole, 0, pc);
    }
}

/// Code that lists, with code that lists behind it, lists.
pub proof fn lemma_lists_append(code: Seq<u8>, extra: Seq<u8>)
    requires
        lists(code),
        lists(extra),
    ensures
        lists(code + extra),
{
    if (code + extra).len() <= usize::MAX {
        lemma_listing_append(code, extra, 0);
    }
}

/// One instruction lists.
pub proof fn lemma_lists_instruction(opcode: Opcode, operand: Seq<u8>)
    requires
        operand.len() == opcode.operand_width(),
    ensures
        lists(seq![opcode.byte()] + operand),
{
    let code = seq![opcode.byte()] + operand;
    crate::opcode::lemma_opcode_round_trip(opcode);
    assert(code[0] == opcode.byte());
    if code.len() <= usize::MAX {
        assert(decode_at(code, 0) is Some);
        assert(decode_at(code, 0)->0.next == code.len());
        assert(listing_from(code, code.len() as int) is Some);
    }
}

/// Where the code up to an offset lists and the code as a whole lists, the
/// code from that offset on is a sequence of whole instructions too: an
/// instruction starts at the offset.
pub proof fn lemma_listing_resumes(code: Seq<u8>, offset: int, pc: int)
    requires
        0 <= pc <= offset <= code.len(),
        code.len() <= usize::MAX,
        listing_from(code.take(offset), pc) is Some,
        listing_from(code, pc) is Some,
    ensures
        listing_from(code, offset) is Some,
    decreases offset - pc,
{
    if pc < offset {
        let front = code.take(offset);
        let next = decode_at(front, pc)->0.next as int;
        assert(next <= offset);
        assert(front.subrange(pc, next) =~= code.subrange(pc, next));
        lemma_decode_local(front, code, pc, pc);
        lemma_listing_resumes(code, offset, next);
    }
}

/// Connecting a jump keeps the code a sequence of whole instructions.
pub proof fn lemma_patched_lists(code: Seq<u8>, offset: int, target: u32)
    requires
        lists(code),
        jump_at(code, offset),
    ensures
        lists(patched(code, offset, target)),
        patched(code, offset, target).len() == code.len(),
{
    let after = patched(code, offset, target);
    let start = offset - 1;
    if code.len() <= usize::MAX {
        lemma_listing_resumes(code, start, 0);
        let opcode = decode_at(code, start)->0.opcode;
        crate::opcode::lemma_byte_round_trip(code[start]);
        assert(opcode.operand_width() == 4);
        assert(decode_at(code, start)->0.next == offset + 4);
        let front = code.take(start);
        let back = after.subrange(start, after.len() as int);
        assert(back[0] == code[start]);
        assert(decode_at(back, 0) is Some);
        assert(decode_at(back, 0)->0.next == 5);
        assert(code.subrange(offset + 4, code.len() as int) =~= back.subrange(
            5,
            back.len() as int,
        ));
        lemma_listing_local(code, back, offset + 4, 5);
        assert(listing(back) is Some);
        lemma_listing_append(front, back, 0);
        assert(front + back =~= after);
    }
}

/// A jump stays where it is when code is emitted behind it.
pub proof fn lemma_jump_stays(code: Seq<u8>, longer: Seq<u8>, offset: int)
    requires
        jump_at(code, offset),
        code.len() <= longer.len(),
        longer.take(code.len() as int) == code,
    ensures
        jump_at(longer, offset),
{
    assert(longer.take(offset - 1) =~= code.take(offset - 1));
    assert(longer[offset - 1] == longer.take(code.len() as int)[offset - 1]);
}

/// A jump stays where it is when a jump before it or behind it is
/// connected.
pub proof fn lemma_jump_survives(code: Seq<u8>, offset: int, other: int, target: u32)
    requires
        jump_at(code, offset),
        jump_at(code, other),
        other + 4 <= offset - 1 || offset + 4 <= other - 1,
    ensures
        jump_at(patched(code, other, target), offset),
{
    let after = patched(code, other, target);
    if other + 4 <= offset - 1 {
        let front = code.take(offset - 1);
        assert(front.take(other - 1) =~= code.take(other - 1));
        lemma_patched_lists(front, other, target);
        assert(after.take(offset - 1) =~= patched(front, other, target));
    } else {
        assert(after.take(offset - 1) =~= code.take(offset - 1));
    }
}

/// A jump that was just emitted at the end of code that lists is a jump.
pub proof fn lemma_jump_emitted(code: Seq<u8>, opcode: Opcode)
    requires
        lists(code),
        opcode == Opcode::Jump || opcode == Opcode::JumpIfNot,
    ensures
        jump_at(code + wide_instruction(opcode, 0), (code.len() + 1) as int),
        lists(code + wide_instruction(opcode, 0)),
{
    let longer = code + wide_instruction(opcode, 0);
    assert(longer.take(code.len() as int) =~= code);
    lemma_lists_instruction(opcode, u32_be(0));
    lemma_lists_append(code, wide_instruction(opcode, 0));
}

/// The code of the builder in this place of a skeleton lists.
pub open spec fn frame_lists(frame: (Seq<u8>, u8, Seq<Symbol>)) -> bool {
    lists(frame.0)
}

/// The code of the function lists.
pub open spec fn func_lists(func: FuncView) -> bool {
    lists(func.bytecode)
}

/// All code of a state of the compilation lists: that of the functions in
/// the table, that of the function under compilation, and that of the
/// functions that enclose it.
pub open spec fn neat(state: ParseState) -> bool {
    &&& forall|i: int| 0 <= i < state.funcs.len() ==> func_lists(#[trigger] state.funcs[i])
    &&& lists(state.func.bytecode)
    &&& forall|i: int|
        0 <= i < state.func.outer_skeleton().len() ==> frame_lists(
            #[trigger] state.func.outer_skeleton()[i],
        )
}

/// The compilation went on from one state to another within one function:
/// it gave no token back, it kept the code that the function had and
/// emitted behind it, and it left the enclosing functions as they were,
/// but for captures.
pub open spec fn onward(from: ParseState, to: ParseState) -> bool {
    &&& from.pos <= to.pos
    &&& from.func.bytecode.len() <= to.func.bytecode.len()
    &&& to.func.bytecode.take(from.func.bytecode.len() as int) == from.func.bytecode
    &&& to.func.outer_skeleton() == from.func.outer_skeleton()
    &&& from.funcs.len() <= to.funcs.len()
}

/// Going on is transitive.
pub proof fn lemma_onward_twice(first: ParseState, second: ParseState, third: ParseState)
    requires
        onward(first, second),
        onward(second, third),
    ensures
        onward(first, third),
{
    let len = first.func.bytecode.len() as int;
    assert(third.func.bytecode.take(len) =~= third.func.bytecode.take(
        second.func.bytecode.len() as int,
    ).take(len));
}

/// A state goes on to itself.
pub proof fn lemma_onward_self(state: ParseState)
    ensures
        onward(state, state),
{
    assert(state.func.bytecode.take(state.func.bytecode.len() as int) =~= state.func.bytecode);
}

/// Emitting code that lists keeps a state neat.
pub proof fn lemma_emit(state: ParseState, bytes: Seq<u8>)
    requires
        neat(state),
        lists(bytes),
    ensures
        neat(state.emit(bytes)),
        onward(state, state.emit(bytes)),
{
    lemma_lists_append(state.func.bytecode, bytes);
    assert((state.func.bytecode + bytes).take(state.func.bytecode.len() as int)
        =~= state.func.bytecode);
    assert(state.emit(bytes).func.outer_skeleton() == state.func.outer_skeleton());
}

/// Emitting an instruction without operand keeps a state neat.
pub proof fn lemma_emit_op(state: ParseState, opcode: Opcode)
    requires
        neat(state),
        opcode.operand_width() == 0,
    ensures
        neat(state.emit_op(opcode)),
        onward(state, state.emit_op(opcode)),
{
    lemma_lists_instruction(opcode, Seq::empty());
    assert(seq![opcode.byte()] + Seq::<u8>::empty() =~= seq![opcode.byte()]);
    lemma_emit(state, seq![opcode.byte()]);
}

/// Emitting an instruction with a one-byte operand keeps a state neat.
pub proof fn lemma_emit_short(state: ParseState, opcode: Opcode, operand: u8)
    requires
        neat(state),
        opcode.operand_width() == 1,
    ensures
        neat(state.emit(short_instruction(opcode, operand))),
        onward(state, state.emit(short_instruction(opcode, operand))),
{
    lemma_lists_instruction(opcode, seq![operand]);
    assert(seq![opcode.byte()] + seq![operand] =~= short_instruction(opcode, operand));
    lemma_emit(state, short_instruction(opcode, operand));
}

/// Emitting an instruction with a four-byte operand keeps a state neat.
pub proof fn lemma_emit_wide(state: ParseState, opcode: Opcode, operand: u32)
    requires
        neat(state),
        opcode.operand_width() == 4,
    ensures
        neat(state.emit(wide_instruction(opcode, operand))),
        onward(state, state.emit(wide_instruction(opcode, operand))),
{
    lemma_u32_round_trip(operand);
    lemma_lists_instruction(opcode, u32_be(operand));
    lemma_emit(state, wide_instruction(opcode, operand));
}

/// Emitting an instruction with an eight-byte operand keeps a state neat.
pub proof fn lemma_emit_long(state: ParseState, opcode: Opcode, operand: u64)
    requires
        neat(state),
        opcode.operand_width() == 8,
    ensures
        neat(state.emit(seq![opcode.byte()] + u64_be(operand))),
        onward(state, state.emit(seq![opcode.byte()] + u64_be(operand))),
{
    lemma_u64_round_trip(operand);
    lemma_lists_instruction(opcode, u64_be(operand));
    lemma_emit(state, seq![opcode.byte()] + u64_be(operand));
}

/// Resolving a name as a capture changes captures only.
pub proof fn lemma_resolve_capture_skeleton(builder: BuilderView, symbol: Symbol)
    ensures
        builder.resolve_capture(symbol).1.skeleton() == builder.skeleton(),
    decreases builder,
{
    match builder.find_capture(symbol, 0) {
        Some(_) => {},
        None => match builder.outer {
            None => {},
            Some(outer) => {
                lemma_resolve_capture_skeleton(*outer, symbol);
            },
        },
    }
}

/// Resolving a name changes captures only.
pub proof fn lemma_resolve_skeleton(builder: BuilderView, symbol: Symbol)
    ensures
        builder.resolve(symbol).1.skeleton() == builder.skeleton(),
        builder.resolve(symbol).1.bytecode == builder.bytecode,
        builder.resolve(symbol).1.outer_skeleton() == builder.outer_skeleton(),
{
    lemma_resolve_capture_skeleton(builder, symbol);
    lemma_skeleton(builder);
    lemma_skeleton(builder.resolve(symbol).1);
}

/// Resolving a name keeps a state neat and emits nothing.
pub proof fn lemma_resolve(state: ParseState, symbol: Symbol, at: usize)
    requires
        neat(state),
        state.resolve(symbol, at) is Ok,
    ensures
        neat(state.resolve(symbol, at)->Ok_0.0),
        onward(state, state.resolve(symbol, at)->Ok_0.0),
        state.resolve(symbol, at)->Ok_0.0.func.bytecode == state.func.bytecode,
        state.resolve(symbol, at)->Ok_0.0.pos == state.pos,
        state.resolve(symbol, at)->Ok_0.0.funcs == state.funcs,
{
    lemma_resolve_skeleton(state.func, symbol);
    lemma_onward_self(state);
}

/// Loading a variable keeps a state neat.
pub proof fn lemma_load(state: ParseState, symbol: Symbol, at: usize)
    requires
        neat(state),
        state.load(symbol, at) is Ok,
    ensures
        neat(state.load(symbol, at)->Ok_0),
        onward(state, state.load(symbol, at)->Ok_0),
        state.load(symbol, at)->Ok_0.pos == state.pos,
{
    lemma_resolve(state, symbol, at);
    let resolved = state.resolve(symbol, at)->Ok_0.0;
    match state.resolve(symbol, at)->Ok_0.1 {
        Variable::Stack(slot) => lemma_emit_short(resolved, Opcode::PushLoad, slot),
        Variable::Closure(index) => lemma_emit_short(resolved, Opcode::PushClosureLoad, index),
    }
    lemma_onward_twice(state, resolved, state.load(symbol, at)->Ok_0);
}

/// Storing into a variable keeps a state neat.
pub proof fn lemma_store(state: ParseState, symbol: Symbol, at: usize)
    requires
        neat(state),
        state.store(symbol, at) is Ok,
    ensures
        neat(state.store(symbol, at)->Ok_0),
        onward(state, state.store(symbol, at)->Ok_0),
        state.store(symbol, at)->Ok_0.pos == state.pos,
{
    lemma_resolve(state, symbol, at);
    let resolved = state.resolve(symbol, at)->Ok_0.0;
    match state.resolve(symbol, at)->Ok_0.1 {
        Variable::Stack(slot) => lemma_emit_short(resolved, Opcode::PopStore, slot),
        Variable::Closure(index) => lemma_emit_short(resolved, Opcode::PopClosureStore, index),
    }
    lemma_onward_twice(state, resolved, state.store(symbol, at)->Ok_0);
}

/// Emitting a jump keeps a state neat, and the jump is a jump.
pub proof fn lemma_jump(tokens: Seq<Token>, state: ParseState, opcode: Opcode)
    requires
        neat(state),
        opcode == Opcode::Jump || opcode == Opcode::JumpIfNot,
        state.jump(tokens, opcode) is Ok,
    ensures
        neat(state.jump(tokens, opcode)->Ok_0.0),
        onward(state, state.jump(tokens, opcode)->Ok_0.0),
        state.jump(tokens, opcode)->Ok_0.0.pos == state.pos,
        jump_at(
            state.jump(tokens, opcode)->Ok_0.0.func.bytecode,
            state.jump(tokens, opcode)->Ok_0.1.offset as int,
        ),
        state.jump(tokens, opcode)->Ok_0.1.offset == state.func.bytecode.len() + 1,
        state.jump(tokens, opcode)->Ok_0.0.func.bytecode.len() == state.func.bytecode.len() + 5,
{
    lemma_jump_emitted(state.func.bytecode, opcode);
    lemma_emit_wide(state, opcode, 0);
}

/// Connecting a jump keeps a state neat and changes the operand of the
/// jump only.
pub proof fn lemma_connect(state: ParseState, jump: Jump, target: JumpTarget)
    requires
        neat(state),
        jump_at(state.func.bytecode, jump.offset as int),
    ensures
        neat(ParseState { func: state.func.connect(jump, target), ..state }),
        state.func.connect(jump, target).bytecode.len() == state.func.bytecode.len(),
        state.func.connect(jump, target).outer_skeleton() == state.func.outer_skeleton(),
        forall|base: int|
            0 <= base < jump.offset ==> #[trigger] state.func.connect(jump, target).bytecode.take(
                base,
            ) == state.func.bytecode.take(base),
{
    lemma_patched_lists(state.func.bytecode, jump.offset as int, target.offset);
    assert(state.func.connect(jump, target).outer_skeleton() == state.func.outer_skeleton());
    assert forall|base: int| 0 <= base < jump.offset implies #[trigger] state.func.connect(
        jump,
        target,
    ).bytecode.take(base) == state.func.bytecode.take(base) by {
        assert(state.func.connect(jump, target).bytecode.take(base) =~= state.func.bytecode.take(
            base,
        ));
    }
}

/// Landing a jump keeps a state neat and changes the operand of the jump
/// only.
pub proof fn lemma_land(tokens: Seq<Token>, state: ParseState, jump: Jump, base: int)
    requires
        neat(state),
        jump_at(state.func.bytecode, jump.offset as int),
        0 <= base < jump.offset,
        state.land(tokens, jump) is Ok,
    ensures
        neat(state.land(tokens, jump)->Ok_0),
        state.land(tokens, jump)->Ok_0.pos == state.pos,
        state.land(tokens, jump)->Ok_0.funcs == state.funcs,
        state.land(tokens, jump)->Ok_0.func.bytecode.len() == state.func.bytecode.len(),
        state.land(tokens, jump)->Ok_0.func.outer_skeleton() == state.func.outer_skeleton(),
        state.land(tokens, jump)->Ok_0.func.bytecode.take(base) == state.func.bytecode.take(base),
{
    let target = JumpTarget { offset: state.func.bytecode.len() as u32 };
    lemma_connect(state, jump, target);
}

/// A state that went on from another still has the code of that one in
/// front, whatever jump behind that code is connected since.
pub proof fn lemma_onward_by_prefix(from: ParseState, middle: ParseState, to: ParseState)
    requires
        onward(from, middle),
        middle.pos <= to.pos,
        middle.funcs.len() <= to.funcs.len(),
        middle.func.bytecode.len() <= to.func.bytecode.len(),
        to.func.outer_skeleton() == middle.func.outer_skeleton(),
        to.func.bytecode.take(from.func.bytecode.len() as int) == middle.func.bytecode.take(
            from.func.bytecode.len() as int,
        ),
    ensures
        onward(from, to),
{
    let len = from.func.bytecode.len() as int;
    assert(middle.func.bytecode.take(len) =~= from.func.bytecode);
}

/// A state that differs from a neat one in its place and its names only
/// is neat, and the compilation went on to it.
pub proof fn lemma_moved(from: ParseState, to: ParseState)
    requires
        neat(from),
        from.pos <= to.pos,
        to.funcs == from.funcs,
        to.func.bytecode == from.func.bytecode,
        to.func.outer == from.func.outer,
    ensures
        neat(to),
        onward(from, to),
{
    assert(to.func.outer_skeleton() == from.func.outer_skeleton());
    assert(to.func.bytecode.take(from.func.bytecode.len() as int) =~= from.func.bytecode);
}

/// The parameters of a function literal emit nothing.
pub proof fn lemma_parse_params(tokens: Seq<Token>, state: ParseState)
    requires
        neat(state),
    ensures
        parse_params(tokens, state) matches Ok(after) ==> neat(after) && onward(state, after),
    decreases tokens.len() - state.pos,
{
    match state.expect_ident(tokens) {
        Err(_) => {},
        Ok((named, symbol)) => {
            let defined = ParseState { func: named.func.define_param(symbol), ..named };
            lemma_moved(state, defined);
            if kind_at(tokens, defined.pos) == TokenKind::Comma && state.pos < defined.pos
                < tokens.len() {
                lemma_moved(defined, defined.next());
                lemma_parse_params(tokens, defined.next());
                if parse_params(tokens, defined.next()) is Ok {
                    lemma_onward_twice(state, defined, defined.next());
                    lemma_onward_twice(
                        state,
                        defined.next(),
                        parse_params(tokens, defined.next())->Ok_0,
                    );
                }
            }
        },
    }
}

/// A property access keeps a state neat.
pub proof fn lemma_parse_property(tokens: Seq<Token>, state: ParseState)
    requires
        neat(state),
    ensures
        parse_property(tokens, state) matches Ok(after) ==> neat(after) && onward(state, after),
{
    match state.next().expect_ident(tokens) {
        Err(_) => {},
        Ok((named, symbol)) => {
            lemma_moved(state, named);
            if symbol.0 <= u8::MAX {
                lemma_emit_short(named, Opcode::PushPropLoad, symbol.0 as u8);
                lemma_onward_twice(
                    state,
                    named,
                    named.emit(short_instruction(Opcode::PushPropLoad, symbol.0 as u8)),
                );
            }
        },
    }
}

/// A call keeps a state neat.
pub proof fn lemma_parse_call(tokens: Seq<Token>, state: ParseState, symbol: Symbol, at: usize)
    requires
        neat(state),
    ensures
        parse_call(tokens, state, symbol, at) matches Ok(after) ==> neat(after) && onward(
            state,
            after,
        ),
    decreases tokens.len() - state.pos, 0nat,
{
    if kind_at(tokens, state.pos) == TokenKind::OpenBrace {
        let inside = state.next().emit_op(Opcode::PushNone);
        lemma_moved(state, state.next());
        lemma_emit_op(state.next(), Opcode::PushNone);
        lemma_onward_twice(state, state.next(), inside);
        lemma_parse_list(tokens, inside, u8::MAX as nat);
        match parse_list(tokens, inside, u8::MAX as nat) {
            Err(_) => {},
            Ok((parsed, count)) => {
                lemma_onward_twice(state, inside, parsed);
                if parsed.load(symbol, at) is Ok {
                    lemma_load(parsed, symbol, at);
                    let loaded = parsed.load(symbol, at)->Ok_0;
                    lemma_onward_twice(state, parsed, loaded);
                    lemma_emit_short(loaded, Opcode::Call, count as u8);
                    lemma_onward_twice(
                        state,
                        loaded,
                        loaded.emit(short_instruction(Opcode::Call, count as u8)),
                    );
                }
            },
        }
    }
}

/// Expressions with commas between them keep a state neat.
pub proof fn lemma_parse_items(tokens: Seq<Token>, state: ParseState, count: nat, limit: nat)
    requires
        neat(state),
    ensures
        parse_items(tokens, state, count, limit) matches Ok((after, _)) ==> neat(after) && onward(
            state,
            after,
        ),
    decreases tokens.len() - state.pos, 4nat,
{
    if count < limit {
        lemma_parse_expr(tokens, state);
        match proceed(tokens, state, parse_expr(tokens, state)) {
            Err(_) => {},
            Ok(parsed) => {
                if kind_at(tokens, parsed.pos) == TokenKind::Comma {
                    lemma_moved(parsed, parsed.next());
                    lemma_parse_items(tokens, parsed.next(), count + 1, limit);
                    if parse_items(tokens, parsed.next(), count + 1, limit) is Ok {
                        lemma_onward_twice(state, parsed, parsed.next());
                        lemma_onward_twice(
                            state,
                            parsed.next(),
                            parse_items(tokens, parsed.next(), count + 1, limit)->Ok_0.0,
                        );
                    }
                }
            },
        }
    }
}

/// What stands between parentheses keeps a state neat.
pub proof fn lemma_parse_list(tokens: Seq<Token>, state: ParseState, limit: nat)
    requires
        neat(state),
    ensures
        parse_list(tokens, state, limit) matches Ok((after, _)) ==> neat(after) && onward(
            state,
            after,
        ),
    decreases tokens.len() - state.pos, 5nat,
{
    if kind_at(tokens, state.pos) == TokenKind::CloseBrace {
        lemma_moved(state, state.next());
    } else {
        lemma_parse_items(tokens, state, 0, limit);
        match parse_items(tokens, state, 0, limit) {
            Err(_) => {},
            Ok((parsed, _)) => {
                if parsed.expect(tokens, TokenKind::CloseBrace) is Ok {
                    lemma_moved(parsed, parsed.next());
                    lemma_onward_twice(state, parsed, parsed.next());
                }
            },
        }
    }
}

/// A function literal keeps a state neat: the code of the new function
/// lists, and so does the code that pushes its closure.
pub proof fn lemma_parse_func(tokens: Seq<Token>, state: ParseState)
    requires
        neat(state),
    ensures
        parse_func(tokens, state) matches Ok(after) ==> neat(after) && onward(state, after),
    decreases tokens.len() - state.pos, 0nat,
{
    let index = state.funcs.len();
    if index <= u32::MAX {
        let pushed = state.func.emit(wide_instruction(Opcode::PushFunc, index as u32));
        let opened = ParseState {
            funcs: state.funcs.push(FuncView::empty()),
            func: pushed.child(),
            ..state
        };
        lemma_emit_wide(state, Opcode::PushFunc, index as u32);
        lemma_skeleton(pushed);
        assert(lists(Seq::<u8>::empty()));
        assert(opened.func.outer_skeleton() == pushed.skeleton());
        assert forall|i: int| 0 <= i < opened.func.outer_skeleton().len() implies frame_lists(
            #[trigger] opened.func.outer_skeleton()[i],
        ) by {
            if i > 0 {
                assert(pushed.skeleton()[i] == pushed.skeleton().drop_first()[i - 1]);
                assert(frame_lists(state.func.outer_skeleton()[i - 1]));
            }
        }
        assert(neat(opened));
        match opened.expect(tokens, TokenKind::OpenBrace) {
            Err(_) => {},
            Ok(inside) => {
                lemma_moved(opened, inside);
                let params = if kind_at(tokens, inside.pos) == TokenKind::CloseBrace {
                    Ok(inside.next())
                } else {
                    match parse_params(tokens, inside) {
                        Err(error) => Err(error),
                        Ok(named) => named.expect(tokens, TokenKind::CloseBrace),
                    }
                };
                if kind_at(tokens, inside.pos) == TokenKind::CloseBrace {
                    lemma_moved(inside, inside.next());
                } else {
                    lemma_parse_params(tokens, inside);
                    if parse_params(tokens, inside) is Ok {
                        let named = parse_params(tokens, inside)->Ok_0;
                        if named.expect(tokens, TokenKind::CloseBrace) is Ok {
                            lemma_moved(named, named.next());
                            lemma_onward_twice(inside, named, named.next());
                        }
                    }
                }
                match proceed(tokens, state, params) {
                    Err(_) => {},
                    Ok(head) => {
                        lemma_onward_twice(opened, inside, head);
                        let body = if kind_at(tokens, head.pos) == TokenKind::OpenCurlyBrace {
                            parse_block(tokens, head)
                        } else {
                            match parse_expr(tokens, head) {
                                Err(error) => Err(error),
                                Ok(value) => Ok(
                                    value.emit(short_instruction(Opcode::PopStore, 0)),
                                ),
                            }
                        };
                        if kind_at(tokens, head.pos) == TokenKind::OpenCurlyBrace {
                            lemma_parse_block(tokens, head);
                        } else {
                            lemma_parse_expr(tokens, head);
                            if parse_expr(tokens, head) is Ok {
                                let value = parse_expr(tokens, head)->Ok_0;
                                lemma_emit_short(value, Opcode::PopStore, 0);
                                lemma_onward_twice(head, value, body->Ok_0);
                            }
                        }
                        match body {
                            Err(_) => {},
                            Ok(done) => {
                                let ended = done.emit_op(Opcode::Return);
                                lemma_emit_op(done, Opcode::Return);
                                lemma_onward_twice(head, done, ended);
                                lemma_onward_twice(opened, head, ended);
                                match ended.func.outer {
                                    None => {},
                                    Some(outer) => {
                                        if index < ended.funcs.len() {
                                            let after = ParseState {
                                                funcs: ended.funcs.update(
                                                    index as int,
                                                    ended.func.built(),
                                                ),
                                                func: *outer,
                                                ..ended
                                            };
                                            assert(outer.skeleton() == pushed.skeleton());
                                            lemma_skeleton(*outer);
                                            assert(after.func.bytecode == pushed.bytecode);
                                            assert(after.func.outer_skeleton()
                                                == state.func.outer_skeleton());
                                            assert forall|i: int|
                                                0 <= i < after.funcs.len() implies func_lists(
                                                #[trigger] after.funcs[i],
                                            ) by {
                                                if i != index {
                                                    assert(func_lists(ended.funcs[i]));
                                                }
                                            }
                                            assert(neat(after));
                                            assert(pushed.bytecode.take(
                                                state.func.bytecode.len() as int,
                                            ) =~= state.func.bytecode);
                                        }
                                    },
                                }
                            },
                        }
                    },
                }
            },
        }
    }
}

/// A value keeps a state neat.
pub proof fn lemma_parse_value(tokens: Seq<Token>, state: ParseState)
    requires
        neat(state),
    ensures
        parse_value(tokens, state) matches Ok(after) ==> neat(after) && onward(state, after),
    decreases tokens.len() - state.pos, 1nat,
{
    match kind_at(tokens, state.pos) {
        TokenKind::Ident => match state.expect_ident(tokens) {
            Err(_) => {},
            Ok((named, symbol)) => {
                lemma_moved(state, named);
                let at = offset_at(tokens, state.pos);
                if kind_at(tokens, named.pos) == TokenKind::OpenBrace {
                    lemma_parse_call(tokens, named, symbol, at);
                    if parse_call(tokens, named, symbol, at) is Ok {
                        lemma_onward_twice(
                            state,
                            named,
                            parse_call(tokens, named, symbol, at)->Ok_0,
                        );
                    }
                } else if named.load(symbol, at) is Ok {
                    lemma_load(named, symbol, at);
                    lemma_onward_twice(state, named, named.load(symbol, at)->Ok_0);
                }
            },
        },
        TokenKind::Int => {
            lemma_moved(state, state.next());
            lemma_emit_long(state.next(), Opcode::PushInt, tokens[state.pos].value);
            lemma_onward_twice(state, state.next(), parse_value(tokens, state)->Ok_0);
        },
        TokenKind::Float => {
            lemma_moved(state, state.next());
            lemma_emit_long(state.next(), Opcode::PushFloat, tokens[state.pos].value);
            lemma_onward_twice(state, state.next(), parse_value(tokens, state)->Ok_0);
        },
        TokenKind::True => {
            lemma_moved(state, state.next());
            lemma_emit_op(state.next(), Opcode::PushTrue);
            lemma_onward_twice(state, state.next(), parse_value(tokens, state)->Ok_0);
        },
        TokenKind::False => {
            lemma_moved(state, state.next());
            lemma_emit_op(state.next(), Opcode::PushFalse);
            lemma_onward_twice(state, state.next(), parse_value(tokens, state)->Ok_0);
        },
        TokenKind::Nil => {
            lemma_moved(state, state.next());
            lemma_emit_op(state.next(), Opcode::PushNone);
            lemma_onward_twice(state, state.next(), parse_value(tokens, state)->Ok_0);
        },
        TokenKind::OpenBrace => {
            lemma_moved(state, state.next());
            lemma_parse_expr(tokens, state.next());
            match parse_expr(tokens, state.next()) {
                Err(_) => {},
                Ok(parsed) => {
                    lemma_onward_twice(state, state.next(), parsed);
                    if parsed.expect(tokens, TokenKind::CloseBrace) is Ok {
                        lemma_moved(parsed, parsed.next());
                        lemma_onward_twice(state, parsed, parsed.next());
                    }
                },
            }
        },
        TokenKind::List => {
            lemma_moved(state, state.next());
            match state.next().expect(tokens, TokenKind::OpenBrace) {
                Err(_) => {},
                Ok(inside) => {
                    lemma_moved(state, inside);
                    lemma_parse_list(tokens, inside, u32::MAX as nat);
                    match parse_list(tokens, inside, u32::MAX as nat) {
                        Err(_) => {},
                        Ok((parsed, count)) => {
                            lemma_onward_twice(state, inside, parsed);
                            lemma_emit_wide(parsed, Opcode::PushList, count as u32);
                            lemma_onward_twice(state, parsed, parse_value(tokens, state)->Ok_0);
                        },
                    }
                },
            }
        },
        TokenKind::Func => {
            lemma_moved(state, state.next());
            lemma_parse_func(tokens, state.next());
            if parse_func(tokens, state.next()) is Ok {
                lemma_onward_twice(state, state.next(), parse_func(tokens, state.next())->Ok_0);
            }
        },
        _ => {},
    }
}

/// The right operand of a binary operator, and the operator, keep a state
/// neat.
pub proof fn lemma_parse_infix_op(
    tokens: Seq<Token>,
    state: ParseState,
    precedence: Precedence,
    opcode: Opcode,
)
    requires
        neat(state),
        opcode.operand_width() == 0,
    ensures
        parse_infix_op(tokens, state, precedence, opcode) matches Ok(after) ==> neat(after)
            && onward(state, after),
    decreases tokens.len() - state.pos, 0nat,
{
    if state.pos < tokens.len() {
        lemma_moved(state, state.next());
        lemma_parse_value(tokens, state.next());
        match proceed(tokens, state, parse_value(tokens, state.next())) {
            Err(_) => {},
            Ok(value) => {
                lemma_onward_twice(state, state.next(), value);
                lemma_parse_infix(tokens, value, precedence);
                match parse_infix(tokens, value, precedence) {
                    Err(_) => {},
                    Ok(operand) => {
                        lemma_onward_twice(state, value, operand);
                        lemma_emit_op(operand, opcode);
                        lemma_onward_twice(state, operand, operand.emit_op(opcode));
                    },
                }
            },
        }
    }
}

/// What follows a value keeps a state neat.
pub proof fn lemma_parse_infix(tokens: Seq<Token>, state: ParseState, precedence: Precedence)
    requires
        neat(state),
    ensures
        parse_infix(tokens, state, precedence) matches Ok(after) ==> neat(after) && onward(
            state,
            after,
        ),
    decreases tokens.len() - state.pos, 2nat,
{
    let kind = kind_at(tokens, state.pos);
    lemma_onward_self(state);
    if kind == TokenKind::Dot {
        lemma_parse_property(tokens, state);
        match proceed(tokens, state, parse_property(tokens, state)) {
            Err(_) => {},
            Ok(parsed) => {
                lemma_parse_infix(tokens, parsed, precedence);
                if parse_infix(tokens, parsed, precedence) is Ok {
                    lemma_onward_twice(
                        state,
                        parsed,
                        parse_infix(tokens, parsed, precedence)->Ok_0,
                    );
                }
            },
        }
    } else {
        match binary_operator(kind) {
            Some((binding, opcode)) => {
                if precedence.level() > binding.level() {
                    lemma_parse_infix_op(tokens, state, binding, opcode);
                    match proceed(tokens, state, parse_infix_op(tokens, state, binding, opcode)) {
                        Err(_) => {},
                        Ok(parsed) => {
                            lemma_parse_infix(tokens, parsed, precedence);
                            if parse_infix(tokens, parsed, precedence) is Ok {
                                lemma_onward_twice(
                                    state,
                                    parsed,
                                    parse_infix(tokens, parsed, precedence)->Ok_0,
                                );
                            }
                        },
                    }
                }
            },
            None => {},
        }
    }
}

/// An expression keeps a state neat.
pub proof fn lemma_parse_expr(tokens: Seq<Token>, state: ParseState)
    requires
        neat(state),
    ensures
        parse_expr(tokens, state) matches Ok(after) ==> neat(after) && onward(state, after),
    decreases tokens.len() - state.pos, 3nat,
{
    lemma_parse_value(tokens, state);
    match proceed(tokens, state, parse_value(tokens, state)) {
        Err(_) => {},
        Ok(value) => {
            lemma_parse_infix(tokens, value, Precedence::Top);
            if parse_infix(tokens, value, Precedence::Top) is Ok {
                lemma_onward_twice(state, value, parse_infix(tokens, value, Precedence::Top)->Ok_0);
            }
        },
    }
}

/// A compound assignment keeps a state neat.
pub proof fn lemma_parse_assign_op(
    tokens: Seq<Token>,
    state: ParseState,
    symbol: Symbol,
    at: usize,
    opcode: Opcode,
)
    requires
        neat(state),
        opcode.operand_width() == 0,
    ensures
        parse_assign_op(tokens, state, symbol, at, opcode) matches Ok(after) ==> neat(after)
            && onward(state, after),
    decreases tokens.len() - state.pos, 0nat,
{
    if state.pos < tokens.len() {
        lemma_moved(state, state.next());
        lemma_parse_expr(tokens, state.next());
        match parse_expr(tokens, state.next()) {
            Err(_) => {},
            Ok(parsed) => {
                lemma_onward_twice(state, state.next(), parsed);
                if parsed.resolve(symbol, at) is Ok {
                    lemma_resolve(parsed, symbol, at);
                    let resolved = parsed.resolve(symbol, at)->Ok_0.0;
                    let variable = parsed.resolve(symbol, at)->Ok_0.1;
                    lemma_onward_twice(state, parsed, resolved);
                    let loaded = resolved.emit(BuilderView::load_code(variable));
                    match variable {
                        Variable::Stack(slot) => {
                            lemma_emit_short(resolved, Opcode::PushLoad, slot);
                        },
                        Variable::Closure(index) => {
                            lemma_emit_short(resolved, Opcode::PushClosureLoad, index);
                        },
                    }
                    lemma_onward_twice(state, resolved, loaded);
                    let applied = loaded.emit_op(opcode);
                    lemma_emit_op(loaded, opcode);
                    lemma_onward_twice(state, loaded, applied);
                    match variable {
                        Variable::Stack(slot) => {
                            lemma_emit_short(applied, Opcode::PopStore, slot);
                        },
                        Variable::Closure(index) => {
                            lemma_emit_short(applied, Opcode::PopClosureStore, index);
                        },
                    }
                    lemma_onward_twice(
                        state,
                        applied,
                        applied.emit(BuilderView::store_code(variable)),
                    );
                }
            },
        }
    }
}

/// The `else` of an `if` statement keeps a state neat; of the code that
/// was there before it, it changes the operand of the jump `skip` only.
pub proof fn lemma_parse_else(tokens: Seq<Token>, state: ParseState, skip: Jump, base: int)
    requires
        neat(state),
        jump_at(state.func.bytecode, skip.offset as int),
        0 <= base < skip.offset,
    ensures
        parse_else(tokens, state, skip) matches Ok(after) ==> {
            &&& neat(after)
            &&& state.pos <= after.pos
            &&& state.funcs.len() <= after.funcs.len()
            &&& state.func.bytecode.len() <= after.func.bytecode.len()
            &&& after.func.outer_skeleton() == state.func.outer_skeleton()
            &&& after.func.bytecode.take(base) == state.func.bytecode.take(base)
        },
    decreases tokens.len() - state.pos, 0nat,
{
    if state.pos < tokens.len() {
        lemma_moved(state, state.next());
        if state.next().jump(tokens, Opcode::Jump) is Ok {
            lemma_jump(tokens, state.next(), Opcode::Jump);
            let left = state.next().jump(tokens, Opcode::Jump)->Ok_0.0;
            let exit = state.next().jump(tokens, Opcode::Jump)->Ok_0.1;
            lemma_jump_stays(state.func.bytecode, left.func.bytecode, skip.offset as int);
            if left.land(tokens, skip) is Ok {
                lemma_land(tokens, left, skip, base);
                let landed = left.land(tokens, skip)->Ok_0;
                lemma_jump_survives(
                    left.func.bytecode,
                    exit.offset as int,
                    skip.offset as int,
                    left.func.bytecode.len() as u32,
                );
                let other = if kind_at(tokens, landed.pos) == TokenKind::If {
                    parse_if(tokens, landed)
                } else {
                    parse_block(tokens, landed)
                };
                if kind_at(tokens, landed.pos) == TokenKind::If {
                    lemma_parse_if(tokens, landed);
                } else {
                    lemma_parse_block(tokens, landed);
                }
                match other {
                    Err(_) => {},
                    Ok(done) => {
                        lemma_jump_stays(
                            landed.func.bytecode,
                            done.func.bytecode,
                            exit.offset as int,
                        );
                        if done.land(tokens, exit) is Ok {
                            lemma_land(tokens, done, exit, base);
                            let after = done.land(tokens, exit)->Ok_0;
                            assert(done.func.bytecode.take(base) =~= done.func.bytecode.take(
                                landed.func.bytecode.len() as int,
                            ).take(base));
                            assert(left.func.bytecode.take(base) =~= left.func.bytecode.take(
                                state.func.bytecode.len() as int,
                            ).take(base));
                        }
                    },
                }
            }
        }
    }
}

/// An `if` statement keeps a state neat.
pub proof fn lemma_parse_if(tokens: Seq<Token>, state: ParseState)
    requires
        neat(state),
    ensures
        parse_if(tokens, state) matches Ok(after) ==> neat(after) && onward(state, after),
    decreases tokens.len() - state.pos, 0nat,
{
    if state.pos < tokens.len() {
        lemma_moved(state, state.next());
        lemma_parse_expr(tokens, state.next());
        match proceed(tokens, state, parse_expr(tokens, state.next())) {
            Err(_) => {},
            Ok(condition) => {
                lemma_onward_twice(state, state.next(), condition);
                if condition.jump(tokens, Opcode::JumpIfNot) is Ok {
                    lemma_jump(tokens, condition, Opcode::JumpIfNot);
                    let tested = condition.jump(tokens, Opcode::JumpIfNot)->Ok_0.0;
                    let skip = condition.jump(tokens, Opcode::JumpIfNot)->Ok_0.1;
                    lemma_onward_twice(state, condition, tested);
                    lemma_parse_block(tokens, tested);
                    match proceed(tokens, state, parse_block(tokens, tested)) {
                        Err(_) => {},
                        Ok(then) => {
                            lemma_onward_twice(state, tested, then);
                            lemma_jump_stays(
                                tested.func.bytecode,
                                then.func.bytecode,
                                skip.offset as int,
                            );
                            let base = state.func.bytecode.len() as int;
                            if kind_at(tokens, then.pos) == TokenKind::Else {
                                lemma_parse_else(tokens, then, skip, base);
                                if parse_else(tokens, then, skip) is Ok {
                                    lemma_onward_by_prefix(
                                        state,
                                        then,
                                        parse_else(tokens, then, skip)->Ok_0,
                                    );
                                }
                            } else if then.land(tokens, skip) is Ok {
                                lemma_land(tokens, then, skip, base);
                                lemma_onward_by_prefix(state, then, then.land(tokens, skip)->Ok_0);
                            }
                        },
                    }
                }
            },
        }
    }
}

/// A `while` statement keeps a state neat.
pub proof fn lemma_parse_while(tokens: Seq<Token>, state: ParseState)
    requires
        neat(state),
    ensures
        parse_while(tokens, state) matches Ok(after) ==> neat(after) && onward(state, after),
    decreases tokens.len() - state.pos, 4nat,
{
    let base = state.func.bytecode.len() as int;
    let top = JumpTarget { offset: state.func.bytecode.len() as u32 };
    lemma_parse_expr(tokens, state);
    match proceed(tokens, state, parse_expr(tokens, state)) {
        Err(_) => {},
        Ok(condition) => {
            if condition.jump(tokens, Opcode::JumpIfNot) is Ok {
                lemma_jump(tokens, condition, Opcode::JumpIfNot);
                let tested = condition.jump(tokens, Opcode::JumpIfNot)->Ok_0.0;
                let leave = condition.jump(tokens, Opcode::JumpIfNot)->Ok_0.1;
                lemma_onward_twice(state, condition, tested);
                lemma_parse_block(tokens, tested);
                match parse_block(tokens, tested) {
                    Err(_) => {},
                    Ok(body) => {
                        lemma_onward_twice(state, tested, body);
                        lemma_jump_stays(
                            tested.func.bytecode,
                            body.func.bytecode,
                            leave.offset as int,
                        );
                        if body.jump(tokens, Opcode::Jump) is Ok {
                            lemma_jump(tokens, body, Opcode::Jump);
                            let looped = body.jump(tokens, Opcode::Jump)->Ok_0.0;
                            let repeat = body.jump(tokens, Opcode::Jump)->Ok_0.1;
                            lemma_onward_twice(state, body, looped);
                            lemma_jump_stays(
                                body.func.bytecode,
                                looped.func.bytecode,
                                leave.offset as int,
                            );
                            lemma_connect(looped, repeat, top);
                            let closed = ParseState {
                                func: looped.func.connect(repeat, top),
                                ..looped
                            };
                            lemma_jump_survives(
                                looped.func.bytecode,
                                leave.offset as int,
                                repeat.offset as int,
                                top.offset,
                            );
                            assert(closed.func.bytecode.take(base) == looped.func.bytecode.take(
                                base,
                            ));
                            lemma_onward_by_prefix(state, looped, closed);
                            if closed.land(tokens, leave) is Ok {
                                lemma_land(tokens, closed, leave, base);
                                lemma_onward_by_prefix(
                                    state,
                                    closed,
                                    closed.land(tokens, leave)->Ok_0,
                                );
                            }
                        }
                    },
                }
            }
        },
    }
}

/// A `var` statement keeps a state neat.
pub proof fn lemma_parse_var(tokens: Seq<Token>, state: ParseState)
    requires
        neat(state),
    ensures
        parse_var(tokens, state) matches Ok(after) ==> neat(after) && onward(state, after),
    decreases tokens.len() - state.pos, 0nat,
{
    match state.expect_ident(tokens) {
        Err(_) => {},
        Ok((named, symbol)) => match proceed(
            tokens,
            state,
            named.expect(tokens, TokenKind::Equals),
        ) {
            Err(_) => {},
            Ok(assigned) => {
                lemma_moved(state, assigned);
                lemma_parse_expr(tokens, assigned);
                match parse_expr(tokens, assigned) {
                    Err(_) => {},
                    Ok(parsed) => {
                        lemma_onward_twice(state, assigned, parsed);
                        match parsed.define(tokens, symbol) {
                            Err(_) => {},
                            Ok(defined) => {
                                lemma_moved(parsed, defined);
                                lemma_onward_twice(state, parsed, defined);
                            },
                        }
                    },
                }
            },
        },
    }
}

/// What follows the name at the start of a statement keeps a state neat.
pub proof fn lemma_parse_named(tokens: Seq<Token>, state: ParseState, symbol: Symbol, at: usize)
    requires
        neat(state),
    ensures
        parse_named(tokens, state, symbol, at) matches Ok(after) ==> neat(after) && onward(
            state,
            after,
        ),
    decreases tokens.len() - state.pos, 1nat,
{
    let kind = kind_at(tokens, state.pos);
    if kind == TokenKind::OpenBrace {
        lemma_parse_call(tokens, state, symbol, at);
        match parse_call(tokens, state, symbol, at) {
            Err(_) => {},
            Ok(called) => {
                lemma_emit_short(called, Opcode::Drop, 1);
                lemma_onward_twice(
                    state,
                    called,
                    called.emit(short_instruction(Opcode::Drop, 1)),
                );
            },
        }
    } else if kind == TokenKind::Equals {
        lemma_moved(state, state.next());
        lemma_parse_expr(tokens, state.next());
        match parse_expr(tokens, state.next()) {
            Err(_) => {},
            Ok(parsed) => {
                lemma_onward_twice(state, state.next(), parsed);
                if parsed.store(symbol, at) is Ok {
                    lemma_store(parsed, symbol, at);
                    lemma_onward_twice(state, parsed, parsed.store(symbol, at)->Ok_0);
                }
            },
        }
    } else {
        match assign_operator(kind) {
            Some(opcode) => lemma_parse_assign_op(tokens, state, symbol, at, opcode),
            None => {},
        }
    }
}

/// A statement keeps a state neat.
pub proof fn lemma_parse_stmt(tokens: Seq<Token>, state: ParseState)
    requires
        neat(state),
    ensures
        parse_stmt(tokens, state) matches Ok(after) ==> neat(after) && onward(state, after),
    decreases tokens.len() - state.pos, 1nat,
{
    match kind_at(tokens, state.pos) {
        TokenKind::SemiColon => {
            lemma_moved(state, state.next());
        },
        TokenKind::While => {
            lemma_moved(state, state.next());
            lemma_parse_while(tokens, state.next());
            if parse_while(tokens, state.next()) is Ok {
                lemma_onward_twice(state, state.next(), parse_while(tokens, state.next())->Ok_0);
            }
        },
        TokenKind::If => {
            lemma_parse_if(tokens, state);
        },
        TokenKind::Var => {
            lemma_moved(state, state.next());
            lemma_parse_var(tokens, state.next());
            if parse_var(tokens, state.next()) is Ok {
                lemma_onward_twice(state, state.next(), parse_var(tokens, state.next())->Ok_0);
            }
        },
        TokenKind::Print => {
            lemma_moved(state, state.next());
            lemma_parse_expr(tokens, state.next());
            match parse_expr(tokens, state.next()) {
                Err(_) => {},
                Ok(parsed) => {
                    lemma_onward_twice(state, state.next(), parsed);
                    lemma_emit_op(parsed, Opcode::PopPrint);
                    lemma_onward_twice(state, parsed, parsed.emit_op(Opcode::PopPrint));
                },
            }
        },
        TokenKind::Return => {
            lemma_moved(state, state.next());
            lemma_parse_expr(tokens, state.next());
            match parse_expr(tokens, state.next()) {
                Err(_) => {},
                Ok(parsed) => {
                    lemma_onward_twice(state, state.next(), parsed);
                    lemma_moved(parsed, parsed.returning());
                    let stored = parsed.returning().emit(short_instruction(Opcode::PopStore, 0));
                    lemma_emit_short(parsed.returning(), Opcode::PopStore, 0);
                    lemma_onward_twice(state, parsed, parsed.returning());
                    lemma_onward_twice(state, parsed.returning(), stored);
                    lemma_emit_op(stored, Opcode::Return);
                    lemma_onward_twice(state, stored, stored.emit_op(Opcode::Return));
                },
            }
        },
        TokenKind::Ident => match state.expect_ident(tokens) {
            Err(_) => {},
            Ok((named, symbol)) => {
                lemma_moved(state, named);
                let at = offset_at(tokens, state.pos);
                lemma_parse_named(tokens, named, symbol, at);
                if parse_named(tokens, named, symbol, at) is Ok {
                    lemma_onward_twice(state, named, parse_named(tokens, named, symbol, at)->Ok_0);
                }
            },
        },
        _ => {},
    }
}

/// The statements of a block keep a state neat.
pub proof fn lemma_parse_stmts(tokens: Seq<Token>, state: ParseState)
    requires
        neat(state),
    ensures
        parse_stmts(tokens, state) matches Ok(after) ==> neat(after) && onward(state, after),
    decreases tokens.len() - state.pos, 2nat,
{
    if kind_at(tokens, state.pos) == TokenKind::CloseCurlyBrace {
        lemma_moved(state, state.next());
    } else {
        lemma_parse_stmt(tokens, state);
        match proceed(tokens, state, parse_stmt(tokens, state)) {
            Err(_) => {},
            Ok(parsed) => {
                lemma_parse_stmts(tokens, parsed);
                if parse_stmts(tokens, parsed) is Ok {
                    lemma_onward_twice(state, parsed, parse_stmts(tokens, parsed)->Ok_0);
                }
            },
        }
    }
}

/// A block keeps a state neat.
pub proof fn lemma_parse_block(tokens: Seq<Token>, state: ParseState)
    requires
        neat(state),
    ensures
        parse_block(tokens, state) matches Ok(after) ==> neat(after) && onward(state, after),
    decreases tokens.len() - state.pos, 0nat,
{
    if kind_at(tokens, state.pos) == TokenKind::OpenCurlyBrace {
        lemma_moved(state, state.next());
        lemma_parse_stmts(tokens, state.next());
        match parse_stmts(tokens, state.next()) {
            Err(_) => {},
            Ok(parsed) => {
                lemma_onward_twice(state, state.next(), parsed);
                let defined = parsed.func.scope.len() - state.func.scope.len();
                if defined > 0 {
                    let freed = ParseState { func: parsed.func.free(defined as u8), ..parsed };
                    lemma_emit_short(parsed, Opcode::Drop, defined as u8);
                    let dropped = parsed.emit(short_instruction(Opcode::Drop, defined as u8));
                    assert(freed.func.bytecode == dropped.func.bytecode);
                    lemma_moved(dropped, freed);
                    lemma_onward_twice(parsed, dropped, freed);
                    lemma_onward_twice(state, parsed, freed);
                }
            },
        }
    }
}

/// The statements of a program keep a state neat.
pub proof fn lemma_parse_program(tokens: Seq<Token>, state: ParseState)
    requires
        neat(state),
    ensures
        parse_program(tokens, state) matches Ok(after) ==> neat(after) && onward(state, after),
    decreases tokens.len() - state.pos,
{
    lemma_onward_self(state);
    if kind_at(tokens, state.pos) != TokenKind::End {
        lemma_parse_stmt(tokens, state);
        match proceed(tokens, state, parse_stmt(tokens, state)) {
            Err(_) => {},
            Ok(parsed) => {
                lemma_parse_program(tokens, parsed);
                if parse_program(tokens, parsed) is Ok {
                    lemma_onward_twice(state, parsed, parse_program(tokens, parsed)->Ok_0);
                }
            },
        }
    }
}

/// The compiler emits whole instructions: if the code of every function of
/// a program lists, then so does the code of every function of the program
/// after a compilation, of those that the compilation added too. So every
/// compiled function can be disassembled, and its listing assembles to its
/// code again.
pub proof fn lemma_compiled_code_lists(
    tokens: Seq<Token>,
    funcs: Seq<FuncView>,
    names: Seq<Seq<char>>,
    params: Seq<Symbol>,
)
    requires
        forall|i: int| 0 <= i < funcs.len() ==> func_lists(#[trigger] funcs[i]),
        compile(tokens, funcs, names, params) is Ok,
    ensures
        funcs.len() < compile(tokens, funcs, names, params)->Ok_0.0.len(),
        forall|i: int|
            0 <= i < compile(tokens, funcs, names, params)->Ok_0.0.len() ==> func_lists(
                #[trigger] compile(tokens, funcs, names, params)->Ok_0.0[i],
            ),
{
    let start = crate::syntax::start_state(funcs, names, params);
    assert(lists(Seq::<u8>::empty()));
    assert forall|i: int| 0 <= i < start.funcs.len() implies func_lists(
        #[trigger] start.funcs[i],
    ) by {
        if i < funcs.len() {
            assert(func_lists(funcs[i]));
        }
    }
    assert(start.func.outer_skeleton() =~= Seq::empty());
    lemma_parse_program(tokens, start);
    let parsed = parse_program(tokens, start)->Ok_0;
    lemma_emit_op(parsed, Opcode::Finish);
    let ended = parsed.emit_op(Opcode::Finish);
    let compiled = compile(tokens, funcs, names, params)->Ok_0.0;
    assert forall|i: int| 0 <= i < compiled.len() implies func_lists(#[trigger] compiled[i]) by {
        if i != funcs.len() {
            assert(func_lists(ended.funcs[i]));
        }
    }
}

} // verus!
