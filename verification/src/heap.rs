//! The heap: an arena that only grows. A handle is the index of a record
//! in its arena and stays valid for the life of the heap.

use vstd::prelude::*;
use crate::value::{Closure, ClosureValueRef, RustValue, Value};

verus! {

/// A stable handle to one record of the heap. Which arena it indexes
/// follows from where it stands: in a closure value, in an upvalue vector,
/// in a closed upvalue cell or in an extension value.
#[derive(Debug, Clone, Copy, PartialEq, Eq, Structural)]
pub struct HeapPtr {
    pub index: usize,
}

/// A stable handle to `length` consecutive records of one arena.
#[derive(Debug, Clone, Copy, PartialEq, Eq, Structural)]
pub struct HeapSlice {
    pub start: usize,
    pub length: usize,
}

/// A cursor that reads the values of a slice, first to last.
#[derive(Debug, Clone, Copy)]
pub struct HeapSliceIter {
    pub slice: HeapSlice,
    pub index: usize,
}

/// A cursor that overwrites the values of a slice, first to last.
#[derive(Debug, Clone, Copy)]
pub struct HeapSliceIterMut {
    pub slice: HeapSlice,
    pub index: usize,
}

/// The arenas of the heap and the number of records it may hold in all.
pub struct Heap {
    closures: Vec<Closure>,
    captures: Vec<HeapPtr>,
    cells: Vec<ClosureValueRef>,
    values: Vec<Value>,
    objects: Vec<RustValue>,
    capacity: usize,
}

/// What a heap holds.
pub struct HeapView {
    /// The closure records.
    pub closures: Seq<Closure>,
    /// The upvalue vectors of all closures, one after the other.
    pub captures: Seq<HeapPtr>,
    /// The upvalue cells.
    pub cells: Seq<ClosureValueRef>,
    /// The value cells: closed upvalues and the elements of lists.
    pub values: Seq<Value>,
    /// The extension objects.
    pub objects: Seq<RustValue>,
    /// The number of records the heap may hold in all.
    pub capacity: nat,
}

impl HeapSlice {
    /// The slice lies inside an arena of `len` records.
    pub open spec fn within(self, len: nat) -> bool {
        self.start + self.length <= len
    }

    /// The records of `arena` that the slice covers.
    pub open spec fn of<T>(self, arena: Seq<T>) -> Seq<T>
        recommends
            self.within(arena.len()),
    {
        arena.subrange(self.start as int, self.start + self.length)
    }

    /// Number of records in the slice.
    pub fn len(&self) -> (len: usize)
        ensures
            len == self.length,
    {
        self.length
    }

    /// A cursor at the first value of the slice.
    pub fn iter(&self) -> (iter: HeapSliceIter)
        ensures
            iter.slice == *self,
            iter.index == 0,
    {
        HeapSliceIter { slice: *self, index: 0 }
    }

    /// A writing cursor at the first value of the slice.
    pub fn iter_mut(&self) -> (iter: HeapSliceIterMut)
        ensures
            iter.slice == *self,
            iter.index == 0,
    {
        HeapSliceIterMut { slice: *self, index: 0 }
    }
}

impl HeapSliceIter {
    /// The next value of the slice, or `None` once all were read.
    pub fn next(&mut self, heap: &Heap) -> (item: Option<Value>)
        requires
            old(self).slice.within(heap@.values.len()),
        ensures
            final(self).slice == old(self).slice,
            old(self).index < old(self).slice.length ==> item == Some(
                heap@.values[old(self).slice.start + old(self).index],
            ) && final(self).index == old(self).index + 1,
            old(self).index >= old(self).slice.length ==> item is None && final(self).index == old(
                self,
            ).index,
    {
        proof {
            heap.lemma_sizes();
        }
        if self.index < self.slice.length {
            let value = heap.value(HeapPtr { index: self.slice.start + self.index });
            self.index += 1;
            Some(value)
        } else {
            None
        }
    }
}

impl HeapSliceIterMut {
    /// Overwrites the next value of the slice; `false`, and nothing
    /// written, once the cursor is at the end.
    pub fn put(&mut self, heap: &mut Heap, value: Value) -> (written: bool)
        requires
            old(self).slice.within(old(heap)@.values.len()),
        ensures
            final(self).slice == old(self).slice,
            written == (old(self).index < old(self).slice.length),
            written ==> final(heap)@ == old(heap)@.set_value(
                old(self).slice.start + old(self).index,
                value,
            ) && final(self).index == old(self).index + 1,
            !written ==> final(heap)@ == old(heap)@ && final(self).index == old(self).index,
    {
        proof {
            heap.lemma_sizes();
        }
        if self.index < self.slice.length {
            heap.set_value(HeapPtr { index: self.slice.start + self.index }, value);
            self.index += 1;
            true
        } else {
            false
        }
    }
}

impl HeapView {
    /// Number of records in the heap.
    pub open spec fn used(self) -> nat {
        self.closures.len() + self.captures.len() + self.cells.len() + self.values.len()
            + self.objects.len()
    }

    /// The heap can take `n` more records.
    pub open spec fn has_room(self, n: nat) -> bool {
        self.used() + n <= self.capacity
    }

    /// The heap with one more value cell.
    pub open spec fn push_value(self, value: Value) -> HeapView {
        HeapView { values: self.values.push(value), ..self }
    }

    /// The heap with `length` more value cells, each holding `none`.
    pub open spec fn push_values(self, length: nat) -> HeapView {
        HeapView { values: self.values + Seq::new(length, |i: int| Value::Nil), ..self }
    }

    /// The heap with the value cell at `index` overwritten.
    pub open spec fn set_value(self, index: int, value: Value) -> HeapView {
        HeapView { values: self.values.update(index, value), ..self }
    }

    /// The heap with one more upvalue cell.
    pub open spec fn push_cell(self, cell: ClosureValueRef) -> HeapView {
        HeapView { cells: self.cells.push(cell), ..self }
    }

    /// The heap with the upvalue cell at `index` overwritten.
    pub open spec fn set_cell(self, index: int, cell: ClosureValueRef) -> HeapView {
        HeapView { cells: self.cells.update(index, cell), ..self }
    }

    /// The heap with one more closure, whose upvalue vector is `upvalues`.
    pub open spec fn push_closure(self, func_id: usize, upvalues: Seq<HeapPtr>) -> HeapView {
        HeapView {
            closures: self.closures.push(
                Closure {
                    func_id,
                    closure_values: HeapSlice {
                        start: self.captures.len() as usize,
                        length: upvalues.len() as usize,
                    },
                },
            ),
            captures: self.captures + upvalues,
            ..self
        }
    }

    /// The heap with one more extension object.
    pub open spec fn push_object(self, object: RustValue) -> HeapView {
        HeapView { objects: self.objects.push(object), ..self }
    }
}

impl View for Heap {
    type V = HeapView;

    closed spec fn view(&self) -> HeapView {
        HeapView {
            closures: self.closures@,
            captures: self.captures@,
            cells: self.cells@,
            values: self.values@,
            objects: self.objects@,
            capacity: self.capacity as nat,
        }
    }
}

impl Heap {
    /// An empty heap that grows as far as the machine allows.
    pub fn new() -> (heap: Heap)
        ensures
            heap@.used() == 0,
            heap@.capacity == usize::MAX,
    {
        Heap::with_capacity(usize::MAX)
    }

    /// An empty heap that may hold `capacity` records.
    pub fn with_capacity(capacity: usize) -> (heap: Heap)
        ensures
            heap@.used() == 0,
            heap@.capacity == capacity,
    {
        Heap {
            closures: Vec::new(),
            captures: Vec::new(),
            cells: Vec::new(),
            values: Vec::new(),
            objects: Vec::new(),
            capacity,
        }
    }

    /// Every arena of a heap, and its capacity, fits the machine's index
    /// type.
    pub proof fn lemma_sizes(&self)
        ensures
            self@.closures.len() <= usize::MAX,
            self@.captures.len() <= usize::MAX,
            self@.cells.len() <= usize::MAX,
            self@.values.len() <= usize::MAX,
            self@.objects.len() <= usize::MAX,
            self@.capacity <= usize::MAX,
    {
        assert(self.closures@.len() == self.closures.len());
        assert(self.captures@.len() == self.captures.len());
        assert(self.cells@.len() == self.cells.len());
        assert(self.values@.len() == self.values.len());
        assert(self.objects@.len() == self.objects.len());
    }

    /// Whether the heap can take `n` more records.
    pub fn has_room(&self, n: usize) -> (room: bool)
        ensures
            room == self@.has_room(n as nat),
    {
        let used: u128 = self.closures.len() as u128 + self.captures.len() as u128
            + self.cells.len() as u128 + self.values.len() as u128 + self.objects.len() as u128;
        used + n as u128 <= self.capacity as u128
    }

    /// Stores `data` in a new value cell. `None`, and the heap unchanged,
    /// if the heap is full.
    pub fn alloc_value(&mut self, data: Value) -> (ptr: Option<HeapPtr>)
        ensures
            ptr == if old(self)@.has_room(1) {
                Some(HeapPtr { index: old(self)@.values.len() as usize })
            } else {
                None
            },
            final(self)@ == if old(self)@.has_room(1) {
                old(self)@.push_value(data)
            } else {
                old(self)@
            },
    {
        if !self.has_room(1) {
            return None;
        }
        let index = self.values.len();
        self.values.push(data);
        Some(HeapPtr { index })
    }

    /// Reserves `length` consecutive value cells, each holding `none`.
    /// `None`, and the heap unchanged, if the heap lacks the room.
    pub fn alloc_slice(&mut self, length: usize) -> (slice: Option<HeapSlice>)
        ensures
            slice == if old(self)@.has_room(length as nat) {
                Some(HeapSlice { start: old(self)@.values.len() as usize, length })
            } else {
                None
            },
            final(self)@ == if old(self)@.has_room(length as nat) {
                old(self)@.push_values(length as nat)
            } else {
                old(self)@
            },
    {
        if !self.has_room(length) {
            return None;
        }
        let start = self.values.len();
        let mut i: usize = 0;
        while i < length
            invariant
                i <= length,
                start == old(self)@.values.len(),
                old(self)@.used() + length <= usize::MAX,
                self@ == old(self)@.push_values(i as nat),
            decreases length - i,
        {
            self.values.push(Value::Nil);
            i += 1;
            assert(self@.values =~= old(self)@.push_values(i as nat).values);
        }
        Some(HeapSlice { start, length })
    }

    /// Stores a new upvalue cell. `None`, and the heap unchanged, if the
    /// heap is full.
    pub fn alloc_cell(&mut self, cell: ClosureValueRef) -> (ptr: Option<HeapPtr>)
        ensures
            ptr == if old(self)@.has_room(1) {
                Some(HeapPtr { index: old(self)@.cells.len() as usize })
            } else {
                None
            },
            final(self)@ == if old(self)@.has_room(1) {
                old(self)@.push_cell(cell)
            } else {
                old(self)@
            },
    {
        if !self.has_room(1) {
            return None;
        }
        let index = self.cells.len();
        self.cells.push(cell);
        Some(HeapPtr { index })
    }

    /// Stores a new closure record together with its upvalue vector.
    /// `None`, and the heap unchanged, if the heap lacks the room for the
    /// record and the vector.
    pub fn alloc_closure(&mut self, func_id: usize, upvalues: &Vec<HeapPtr>) -> (ptr: Option<
        HeapPtr,
    >)
        ensures
            ptr == if old(self)@.has_room(upvalues@.len() + 1) {
                Some(HeapPtr { index: old(self)@.closures.len() as usize })
            } else {
                None
            },
            final(self)@ == if old(self)@.has_room(upvalues@.len() + 1) {
                old(self)@.push_closure(func_id, upvalues@)
            } else {
                old(self)@
            },
    {
        let count = upvalues.len();
        if count == usize::MAX || !self.has_room(count + 1) {
            return None;
        }
        let start = self.captures.len();
        let mut i: usize = 0;
        while i < count
            invariant
                i <= count,
                count == upvalues@.len(),
                start == old(self)@.captures.len(),
                old(self)@.used() + count + 1 <= usize::MAX,
                self@ == (HeapView {
                    captures: old(self)@.captures + upvalues@.take(i as int),
                    ..old(self)@
                }),
            decreases count - i,
        {
            self.captures.push(upvalues[i]);
            i += 1;
            assert(self@.captures =~= old(self)@.captures + upvalues@.take(i as int));
        }
        assert(upvalues@.take(count as int) =~= upvalues@);
        let index = self.closures.len();
        self.closures.push(Closure { func_id, closure_values: HeapSlice { start, length: count } });
        Some(HeapPtr { index })
    }

    /// Stores a new extension object. `None`, and the heap unchanged, if
    /// the heap is full.
    pub fn alloc_object(&mut self, object: RustValue) -> (ptr: Option<HeapPtr>)
        ensures
            ptr == if old(self)@.has_room(1) {
                Some(HeapPtr { index: old(self)@.objects.len() as usize })
            } else {
                None
            },
            final(self)@ == if old(self)@.has_room(1) {
                old(self)@.push_object(object)
            } else {
                old(self)@
            },
    {
        if !self.has_room(1) {
            return None;
        }
        let index = self.objects.len();
        self.objects.push(object);
        Some(HeapPtr { index })
    }

    /// The value in the value cell `ptr`.
    pub fn value(&self, ptr: HeapPtr) -> (value: Value)
        requires
            ptr.index < self@.values.len(),
        ensures
            value == self@.values[ptr.index as int],
    {
        self.values[ptr.index]
    }

    /// Overwrites the value cell `ptr`.
    pub fn set_value(&mut self, ptr: HeapPtr, value: Value)
        requires
            ptr.index < old(self)@.values.len(),
        ensures
            final(self)@ == old(self)@.set_value(ptr.index as int, value),
    {
        self.values.set(ptr.index, value);
    }

    /// The upvalue cell `ptr`.
    pub fn cell(&self, ptr: HeapPtr) -> (cell: ClosureValueRef)
        requires
            ptr.index < self@.cells.len(),
        ensures
            cell == self@.cells[ptr.index as int],
    {
        self.cells[ptr.index]
    }

    /// Overwrites the upvalue cell `ptr`.
    pub fn set_cell(&mut self, ptr: HeapPtr, cell: ClosureValueRef)
        requires
            ptr.index < old(self)@.cells.len(),
        ensures
            final(self)@ == old(self)@.set_cell(ptr.index as int, cell),
    {
        self.cells.set(ptr.index, cell);
    }

    /// The closure record `ptr`.
    pub fn closure(&self, ptr: HeapPtr) -> (closure: Closure)
        requires
            ptr.index < self@.closures.len(),
        ensures
            closure == self@.closures[ptr.index as int],
    {
        self.closures[ptr.index]
    }

    /// The entry at `index` of the table of upvalue vectors.
    pub fn capture(&self, index: usize) -> (ptr: HeapPtr)
        requires
            index < self@.captures.len(),
        ensures
            ptr == self@.captures[index as int],
    {
        self.captures[index]
    }

    /// The extension object `ptr`.
    pub fn object(&self, ptr: HeapPtr) -> (object: RustValue)
        requires
            ptr.index < self@.objects.len(),
        ensures
            object == self@.objects[ptr.index as int],
    {
        self.objects[ptr.index]
    }

    /// Number of closure records.
    pub fn closure_count(&self) -> (count: usize)
        ensures
            count == self@.closures.len(),
    {
        self.closures.len()
    }

    /// Number of value cells.
    pub fn value_count(&self) -> (count: usize)
        ensures
            count == self@.values.len(),
    {
        self.values.len()
    }

    /// Number of upvalue cells.
    pub fn cell_count(&self) -> (count: usize)
        ensures
            count == self@.cells.len(),
    {
        self.cells.len()
    }

    /// Number of extension objects.
    pub fn object_count(&self) -> (count: usize)
        ensures
            count == self@.objects.len(),
    {
        self.objects.len()
    }
}

} // verus!
