//! The built-in list: an extension value over a slice of value cells.

use vstd::prelude::*;
use crate::heap::{Heap, HeapSlice};
use crate::symbols::{Symbol, Symbols};
use crate::value::Value;

verus! {

/// A list: a slice of the heap's value cells.
#[derive(Debug, Clone, Copy)]
pub struct List {
    pub slice: HeapSlice,
}

impl List {
    /// The elements of the list in the heap `heap`.
    pub open spec fn elements(self, heap: crate::heap::HeapView) -> Seq<Value>
        recommends
            self.slice.within(heap.values.len()),
    {
        self.slice.of(heap.values)
    }

    /// Copies the top `length` values of `stack` into a new list; the
    /// value pushed last becomes the last element. `None`, with the heap
    /// unchanged, if the heap lacks the room.
    pub fn new(heap: &mut Heap, length: usize, stack: &Vec<Value>) -> (list: Option<List>)
        requires
            length <= stack@.len(),
        ensures
            list is Some <==> old(heap)@.has_room(length as nat),
            list is None ==> final(heap)@ == old(heap)@,
            list matches Some(l) ==> {
                &&& l.slice == HeapSlice { start: old(heap)@.values.len() as usize, length }
                &&& final(heap)@ == (crate::heap::HeapView {
                    values: old(heap)@.values + stack@.skip(stack@.len() - length),
                    ..old(heap)@
                })
            },
    {
        proof {
            heap.lemma_sizes();
        }
        let slice = match heap.alloc_slice(length) {
            Some(slice) => slice,
            None => {
                return None;
            },
        };
        let base = stack.len() - length;
        let mut cursor = slice.iter_mut();
        let mut i: usize = 0;
        while i < length
            invariant
                i <= length,
                base + length == stack.len(),
                cursor.slice == slice,
                cursor.index == i,
                slice == (HeapSlice { start: old(heap)@.values.len() as usize, length }),
                old(heap)@.values.len() + length <= usize::MAX,
                heap@ == (crate::heap::HeapView {
                    values: old(heap)@.values + stack@.subrange(base as int, base + i) + Seq::new(
                        (length - i) as nat,
                        |k: int| Value::Nil,
                    ),
                    ..old(heap)@
                }),
            decreases length - i,
        {
            let written = cursor.put(heap, stack[base + i]);
            i += 1;
            assert(heap@.values =~= old(heap)@.values + stack@.subrange(base as int, base + i)
                + Seq::new((length - i) as nat, |k: int| Value::Nil));
        }
        assert(heap@.values =~= old(heap)@.values + stack@.skip(stack@.len() - length));
        Some(List { slice })
    }

    /// The property of the list that the symbol with id `index` names, in
    /// a table with the names `names`: its length for `len`, and nothing
    /// for any other name.
    pub open spec fn property(self, index: int, names: Seq<Seq<char>>) -> Option<Value> {
        if 0 <= index < names.len() && names[index] == "len"@ {
            Some(Value::Int(self.slice.length as i64))
        } else {
            None
        }
    }

    /// The property of the list that the symbol with id `index` names.
    pub fn get_property(&self, index: u8, symbols: &Symbols) -> (value: Option<Value>)
        requires
            self.slice.length <= i64::MAX,
        ensures
            value == self.property(index as int, symbols@),
    {
        if symbols.has_name(Symbol(index as u32), "len") {
            Some(Value::Int(self.len() as i64))
        } else {
            None
        }
    }

    /// Number of elements.
    pub fn len(&self) -> (len: usize)
        ensures
            len == self.slice.length,
    {
        self.slice.len()
    }
}

} // verus!
