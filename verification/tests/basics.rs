use closure_vm::bytes::{int_from_bits, int_to_bits, push_u32, push_u64, read_u32, read_u64, write_u32};
use closure_vm::func::{
    assemble, decode, ClosureValue, DispFunc, Func, FuncBuilder, Line, Reader, Variable,
};
use closure_vm::heap::{Heap, HeapPtr, HeapSlice};
use closure_vm::list::List;
use closure_vm::opcode::{Opcode, OPCODE_COUNT};
use closure_vm::symbols::{Symbol, Symbols, RETURN_ID};
use closure_vm::value::{Closure, ClosureValueRef, RustValue, Value};

#[test]
fn opcode_bytes_round_trip() {
    for byte in 0..OPCODE_COUNT {
        let opcode = Opcode::from_byte(byte).unwrap();
        assert_eq!(opcode.to_byte(), byte);
    }
    for byte in OPCODE_COUNT..=255 {
        assert_eq!(Opcode::from_byte(byte), None);
    }
}

#[test]
fn opcode_bytes_are_in_the_order_of_the_table() {
    assert_eq!(Opcode::Add.to_byte(), 0);
    assert_eq!(Opcode::GreaterOrEqual.to_byte(), 10);
    assert_eq!(Opcode::PushInt.to_byte(), 11);
    assert_eq!(Opcode::PushPropLoad.to_byte(), 20);
    assert_eq!(Opcode::PopStore.to_byte(), 21);
    assert_eq!(Opcode::Jump.to_byte(), 25);
    assert_eq!(Opcode::Finish.to_byte(), 30);
    assert_eq!(Opcode::from_byte(27), Some(Opcode::Drop));
}

#[test]
fn operand_widths() {
    assert_eq!(Opcode::Add.operand_len(), 0);
    assert_eq!(Opcode::Return.operand_len(), 0);
    assert_eq!(Opcode::PushLoad.operand_len(), 1);
    assert_eq!(Opcode::Call.operand_len(), 1);
    assert_eq!(Opcode::Drop.operand_len(), 1);
    assert_eq!(Opcode::Jump.operand_len(), 4);
    assert_eq!(Opcode::PushFunc.operand_len(), 4);
    assert_eq!(Opcode::PushList.operand_len(), 4);
    assert_eq!(Opcode::PushInt.operand_len(), 8);
    assert_eq!(Opcode::PushFloat.operand_len(), 8);
    assert_eq!(Opcode::PushClosureLoad.name(), "PushClosureLoad");
}

#[test]
fn operands_are_big_endian() {
    let mut bytes = vec![9u8];
    push_u32(&mut bytes, 0x0102_0304);
    assert_eq!(bytes, vec![9, 1, 2, 3, 4]);
    push_u64(&mut bytes, 0x1122_3344_5566_7788);
    assert_eq!(bytes, vec![9, 1, 2, 3, 4, 0x11, 0x22, 0x33, 0x44, 0x55, 0x66, 0x77, 0x88]);
    assert_eq!(read_u32(&bytes, 1), 0x0102_0304);
    assert_eq!(read_u32(&bytes, 0), 0x0901_0203);
    assert_eq!(read_u64(&bytes, 5), 0x1122_3344_5566_7788);
    write_u32(&mut bytes, 1, 0xdead_beef);
    assert_eq!(bytes[..6], [9, 0xde, 0xad, 0xbe, 0xef, 0x11]);
    assert_eq!(bytes.len(), 13);
}

#[test]
fn integers_in_twos_complement() {
    assert_eq!(int_from_bits(0), 0);
    assert_eq!(int_from_bits(u64::MAX), -1);
    assert_eq!(int_from_bits(0x8000_0000_0000_0000), i64::MIN);
    assert_eq!(int_from_bits(0x7fff_ffff_ffff_ffff), i64::MAX);
    assert_eq!(int_to_bits(-1), u64::MAX);
    assert_eq!(int_to_bits(i64::MIN), 0x8000_0000_0000_0000);
    assert_eq!(int_to_bits(7), 7);
}

#[test]
fn interning_gives_the_same_id_again() {
    let mut symbols = Symbols::new();
    assert_eq!(symbols.len(), 1);
    assert_eq!(symbols.get_name(Symbol::return_symbol()), "return");
    assert_eq!(Symbol::return_symbol().id(), RETURN_ID);
    let a = symbols.add("alpha");
    let b = symbols.add("beta");
    assert_eq!(a.id(), 1);
    assert_eq!(b.id(), 2);
    assert_eq!(symbols.add("alpha"), a);
    assert_eq!(symbols.add("beta"), b);
    assert_eq!(symbols.len(), 3);
    assert_eq!(symbols.add("return"), Symbol::from_index(0));
    assert_eq!(symbols.get_name(a), "alpha");
    assert_eq!(symbols.get_name(b), "beta");
}

#[test]
fn interning_tells_cases_apart() {
    let mut symbols = Symbols::new();
    let lower = symbols.add("name");
    let upper = symbols.add("Name");
    assert_ne!(lower, upper);
    assert!(symbols.has_name(lower, "name"));
    assert!(!symbols.has_name(lower, "Name"));
    assert!(!symbols.has_name(Symbol::from_index(9), "name"));
}

#[test]
fn symbols_can_be_forgotten_from_the_end() {
    let mut symbols = Symbols::new();
    symbols.add("a");
    symbols.add("b");
    symbols.truncate(2);
    assert_eq!(symbols.len(), 2);
    assert_eq!(symbols.add("b").id(), 2);
    symbols.truncate(10);
    assert_eq!(symbols.len(), 3);
}

#[test]
fn heap_hands_out_stable_handles() {
    let mut heap = Heap::new();
    let first = heap.alloc_value(Value::Int(1)).unwrap();
    let second = heap.alloc_value(Value::Bool(true)).unwrap();
    assert_eq!(first, HeapPtr { index: 0 });
    assert_eq!(second, HeapPtr { index: 1 });
    assert!(matches!(heap.value(first), Value::Int(1)));
    heap.set_value(first, Value::Int(5));
    assert!(matches!(heap.value(first), Value::Int(5)));
    assert!(matches!(heap.value(second), Value::Bool(true)));
    assert_eq!(heap.value_count(), 2);
}

#[test]
fn heap_slice_starts_as_none() {
    let mut heap = Heap::new();
    heap.alloc_value(Value::Int(1));
    let slice = heap.alloc_slice(3).unwrap();
    assert_eq!(slice, HeapSlice { start: 1, length: 3 });
    assert_eq!(slice.len(), 3);
    let mut iter = slice.iter();
    let mut seen = 0;
    while let Some(value) = iter.next(&heap) {
        assert!(matches!(value, Value::Nil));
        seen += 1;
    }
    assert_eq!(seen, 3);
    assert!(iter.next(&heap).is_none());
}

#[test]
fn heap_slice_can_be_filled() {
    let mut heap = Heap::new();
    let slice = heap.alloc_slice(2).unwrap();
    let mut cursor = slice.iter_mut();
    assert!(cursor.put(&mut heap, Value::Int(10)));
    assert!(cursor.put(&mut heap, Value::Int(20)));
    assert!(!cursor.put(&mut heap, Value::Int(30)));
    assert!(matches!(heap.value(HeapPtr { index: 0 }), Value::Int(10)));
    assert!(matches!(heap.value(HeapPtr { index: 1 }), Value::Int(20)));
    assert_eq!(heap.value_count(), 2);
}

#[test]
fn full_heap_refuses() {
    let mut heap = Heap::with_capacity(2);
    assert!(heap.has_room(2));
    assert!(!heap.has_room(3));
    assert!(heap.alloc_slice(3).is_none());
    assert!(heap.alloc_value(Value::Nil).is_some());
    assert!(heap.alloc_cell(ClosureValueRef::Stack(0)).is_some());
    assert!(!heap.has_room(1));
    assert!(heap.alloc_value(Value::Nil).is_none());
    assert!(heap.alloc_cell(ClosureValueRef::Stack(0)).is_none());
    assert!(heap.alloc_closure(0, &vec![]).is_none());
    assert!(heap.alloc_object(RustValue::List(List { slice: HeapSlice { start: 0, length: 0 } })).is_none());
    assert!(heap.alloc_slice(0).is_some());
    assert_eq!(heap.value_count(), 1);
    assert_eq!(heap.cell_count(), 1);
}

#[test]
fn closure_record_keeps_its_upvalue_vector() {
    let mut heap = Heap::new();
    let a = heap.alloc_cell(ClosureValueRef::Stack(3)).unwrap();
    let b = heap.alloc_cell(ClosureValueRef::Heap(HeapPtr { index: 0 })).unwrap();
    let first = heap.alloc_closure(7, &vec![a, b]).unwrap();
    let second = heap.alloc_closure(8, &vec![b]).unwrap();
    let Closure { func_id, closure_values } = heap.closure(first);
    assert_eq!(func_id, 7);
    assert_eq!(closure_values, HeapSlice { start: 0, length: 2 });
    assert_eq!(heap.capture(0), a);
    assert_eq!(heap.capture(1), b);
    assert_eq!(heap.closure(second).closure_values, HeapSlice { start: 2, length: 1 });
    assert_eq!(heap.capture(2), b);
    assert!(matches!(heap.cell(a), ClosureValueRef::Stack(3)));
    heap.set_cell(a, ClosureValueRef::Heap(HeapPtr { index: 4 }));
    assert!(matches!(heap.cell(a), ClosureValueRef::Heap(HeapPtr { index: 4 })));
    assert_eq!(heap.closure_count(), 2);
}

#[test]
fn list_takes_the_top_of_the_stack_in_order() {
    let mut heap = Heap::new();
    let stack = vec![Value::Int(1), Value::Int(2), Value::Int(3)];
    let list = List::new(&mut heap, 2, &stack).unwrap();
    assert_eq!(list.len(), 2);
    assert_eq!(list.slice, HeapSlice { start: 0, length: 2 });
    assert!(matches!(heap.value(HeapPtr { index: 0 }), Value::Int(2)));
    assert!(matches!(heap.value(HeapPtr { index: 1 }), Value::Int(3)));
    assert_eq!(stack.len(), 3);
}

#[test]
fn list_of_nothing() {
    let mut heap = Heap::new();
    let list = List::new(&mut heap, 0, &vec![Value::Nil]).unwrap();
    assert_eq!(list.len(), 0);
    assert_eq!(heap.value_count(), 0);
}

#[test]
fn list_needs_room() {
    let mut heap = Heap::with_capacity(1);
    assert!(List::new(&mut heap, 2, &vec![Value::Nil, Value::Nil]).is_none());
    assert_eq!(heap.value_count(), 0);
}

#[test]
fn list_has_a_length_and_nothing_else() {
    let mut symbols = Symbols::new();
    let len = symbols.add("len");
    let size = symbols.add("size");
    let list = List { slice: HeapSlice { start: 5, length: 4 } };
    assert!(matches!(list.get_property(len.id() as u8, &symbols), Some(Value::Int(4))));
    assert!(list.get_property(size.id() as u8, &symbols).is_none());
    assert!(list.get_property(0, &symbols).is_none());
    assert!(list.get_property(77, &symbols).is_none());
    let object = RustValue::List(list);
    assert!(matches!(object.get_property(len.id() as u8, &symbols), Some(Value::Int(4))));
}

#[test]
fn equality_of_values() {
    assert_eq!(Value::Int(3).equals(&Value::Int(3)), Some(true));
    assert_eq!(Value::Int(3).equals(&Value::Int(4)), Some(false));
    assert_eq!(Value::Bool(true).equals(&Value::Bool(true)), Some(true));
    assert_eq!(Value::Nil.equals(&Value::Nil), Some(true));
    assert_eq!(Value::Int(0).equals(&Value::Bool(false)), Some(false));
    assert_eq!(Value::Int(1).equals(&Value::Float(0x3ff0_0000_0000_0000)), Some(false));
    assert_eq!(Value::Nil.equals(&Value::Int(0)), Some(false));
    let closure = Value::Closure(HeapPtr { index: 0 });
    assert_eq!(closure.equals(&closure), Some(false));
    assert_eq!(Value::Float(1).equals(&Value::Float(1)), None);
}

#[test]
fn builder_resolves_the_last_local_of_a_name() {
    let x = Symbol::from_index(1);
    let y = Symbol::from_index(2);
    let mut builder = FuncBuilder::new(vec![Symbol::return_symbol(), x, y]);
    assert_eq!(builder.param_count(), 2);
    assert_eq!(builder.stack_size(), 3);
    builder.define_var(x);
    assert_eq!(builder.resolve_stack_var(x), Some(3));
    assert_eq!(builder.resolve_stack_var(y), Some(2));
    assert_eq!(builder.resolve_stack_var(Symbol::return_symbol()), Some(0));
    assert_eq!(builder.resolve_stack_var(Symbol::from_index(9)), None);
    assert_eq!(builder.resolve_var(x), Some(Variable::Stack(3)));
    assert_eq!(builder.resolve_var(Symbol::from_index(9)), None);
    builder.free_vars(1);
    assert_eq!(builder.resolve_stack_var(x), Some(1));
    assert_eq!(builder.scope(), vec![Symbol::return_symbol(), x, y]);
}

#[test]
fn builder_threads_captures_through_enclosing_functions() {
    let x = Symbol::from_index(1);
    let y = Symbol::from_index(2);
    let mut outer = FuncBuilder::new(vec![Symbol::return_symbol()]);
    outer.define_var(x);
    outer.define_var(y);
    let middle = outer.new_child();
    let mut inner = middle.new_child();
    assert_eq!(inner.resolve_var(y), Some(Variable::Closure(0)));
    assert_eq!(inner.resolve_var(x), Some(Variable::Closure(1)));
    assert_eq!(inner.resolve_var(y), Some(Variable::Closure(0)));
    assert_eq!(inner.resolve_closure_var(x), Some(1));
    assert_eq!(inner.closure_var_symbol(0), y);
    assert_eq!(inner.closure_var_symbol(1), x);
    assert_eq!(inner.capture_count(), 2);
    assert_eq!(inner.resolve_var(Symbol::from_index(5)), None);
    assert_eq!(inner.capture_count(), 2);
    let (built_inner, middle) = inner.build();
    assert_eq!(built_inner.closure_scope, vec![ClosureValue::Outer(0), ClosureValue::Outer(1)]);
    let mut middle = middle.unwrap();
    assert_eq!(middle.capture_count(), 2);
    assert_eq!(middle.resolve_var(x), Some(Variable::Closure(1)));
    let (built_middle, outer) = middle.build();
    assert_eq!(built_middle.closure_scope, vec![ClosureValue::Stack(2), ClosureValue::Stack(1)]);
    let (built_outer, none) = outer.unwrap().build();
    assert!(built_outer.closure_scope.is_empty());
    assert!(none.is_none());
}

#[test]
fn builder_prefers_a_local_to_a_capture() {
    let x = Symbol::from_index(1);
    let mut outer = FuncBuilder::new(vec![Symbol::return_symbol()]);
    outer.define_var(x);
    let mut inner = outer.new_child();
    assert_eq!(inner.resolve_var(x), Some(Variable::Closure(0)));
    inner.define_param(x);
    assert_eq!(inner.resolve_var(x), Some(Variable::Stack(1)));
    let (built, _) = inner.build();
    assert_eq!(built.param_count, 1);
    assert_eq!(built.param_names, vec![x]);
}

#[test]
fn builder_emits_and_patches_jumps() {
    let mut builder = FuncBuilder::new(vec![Symbol::return_symbol()]);
    builder.push_bytes(&[Opcode::PushTrue.to_byte()]);
    let skip = builder.push_jump_if_not();
    builder.push_var(Variable::Stack(0));
    builder.pop_var(Variable::Closure(2));
    let exit = builder.push_jump();
    let middle = builder.create_jump_target();
    builder.connect_jump(skip, &middle);
    builder.emit(Opcode::PushNone);
    let end = builder.create_jump_target();
    builder.connect_jump(exit, &end);
    assert_eq!(skip.offset, 2);
    assert_eq!(exit.offset, 11);
    assert_eq!(middle.offset, 15);
    assert_eq!(end.offset, 16);
    assert_eq!(builder.code_len(), 16);
    let (built, _) = builder.build();
    assert_eq!(
        built.bytecode,
        vec![13, 26, 0, 0, 0, 15, 17, 0, 24, 2, 25, 0, 0, 0, 16, 15]
    );
    assert_eq!(built.param_count, 0);
    assert!(built.param_names.is_empty());
}

#[test]
fn builder_emits_operands_of_every_width() {
    let mut builder = FuncBuilder::new(vec![Symbol::return_symbol()]);
    builder.emit_short(Opcode::Drop, 3);
    builder.emit_wide(Opcode::PushList, 0x0102_0304);
    builder.emit_long(Opcode::PushInt, 0xffff_ffff_ffff_fffe);
    let (built, _) = builder.build();
    assert_eq!(
        built.bytecode,
        vec![27, 3, 19, 1, 2, 3, 4, 11, 0xff, 0xff, 0xff, 0xff, 0xff, 0xff, 0xff, 0xfe]
    );
}

#[test]
fn decoding_one_instruction() {
    let code = vec![11, 0, 0, 0, 0, 0, 0, 1, 2, 25, 0, 0, 1, 0, 17, 9, 30];
    let first = decode(&code, 0).unwrap();
    assert_eq!(first.opcode, Opcode::PushInt);
    assert_eq!(first.operand, 0x102);
    assert_eq!(first.next, 9);
    let second = decode(&code, 9).unwrap();
    assert_eq!(second.opcode, Opcode::Jump);
    assert_eq!(second.operand, 256);
    assert_eq!(second.next, 14);
    let third = decode(&code, 14).unwrap();
    assert_eq!(third.opcode, Opcode::PushLoad);
    assert_eq!(third.operand, 9);
    assert_eq!(third.next, 16);
    let last = decode(&code, 16).unwrap();
    assert_eq!(last.opcode, Opcode::Finish);
    assert_eq!(last.operand, 0);
    assert_eq!(last.next, 17);
    assert!(decode(&code, 17).is_none());
    assert!(decode(&vec![200], 0).is_none());
    assert!(decode(&vec![25, 0, 0], 0).is_none());
}

#[test]
fn reader_takes_bytes_in_order() {
    let code = vec![1u8, 2, 3, 4, 5];
    let mut reader = Reader { bytecode: &code, offset: 0 };
    assert_eq!(reader.take_bytes(1), &[1]);
    assert_eq!(reader.take_bytes(3), &[2, 3, 4]);
    assert_eq!(reader.offset, 4);
    assert_eq!(reader.take_bytes(0), &[] as &[u8]);
    assert_eq!(reader.take_bytes(1), &[5]);
    assert_eq!(reader.offset, 5);
}

#[test]
fn listing_assembles_to_the_same_bytes() {
    let code = vec![11, 0, 0, 0, 0, 0, 0, 0, 7, 17, 1, 0, 26, 0, 0, 0, 20, 27, 2, 22, 30];
    let func = Func { bytecode: code.clone(), param_count: 0, closure_scope: vec![], param_names: vec![] };
    let symbols = Symbols::new();
    let lines: Vec<Line> = DispFunc::new(&func, &symbols).lines().unwrap();
    assert_eq!(lines.len(), 7);
    assert_eq!(lines[0].offset, 0);
    assert_eq!(lines[0].opcode, Opcode::PushInt);
    assert_eq!(lines[0].operand, 7);
    assert_eq!(lines[1].offset, 9);
    assert_eq!(lines[2].offset, 11);
    assert_eq!(lines[3].offset, 12);
    assert_eq!(lines[3].opcode, Opcode::JumpIfNot);
    assert_eq!(lines[3].operand, 20);
    assert_eq!(lines[4].offset, 17);
    assert_eq!(lines[5].offset, 19);
    assert_eq!(lines[6].offset, 20);
    assert_eq!(assemble(&lines), code);
}

#[test]
fn broken_code_has_no_listing() {
    let symbols = Symbols::new();
    let cut = Func { bytecode: vec![30, 11, 0, 0], param_count: 0, closure_scope: vec![], param_names: vec![] };
    assert!(DispFunc::new(&cut, &symbols).lines().is_none());
    let unknown = Func { bytecode: vec![30, 31], param_count: 0, closure_scope: vec![], param_names: vec![] };
    assert!(DispFunc::new(&unknown, &symbols).lines().is_none());
    let empty = Func::default();
    assert_eq!(DispFunc::new(&empty, &symbols).lines().unwrap().len(), 0);
}
