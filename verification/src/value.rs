//! Runtime values and the records that closures are made of.

use vstd::prelude::*;
use crate::func::Func;
use crate::heap::{Heap, HeapPtr, HeapSlice};
use crate::parser::Program;
use crate::symbols::{Symbol, Symbols};
use crate::list::List;

verus! {

/// A runtime value. A float is held as its IEEE 754 bit pattern; a closure
/// and an extension value are handles into the heap.
#[derive(Debug, Clone, Copy)]
pub enum Value {
    Int(i64),
    Float(u64),
    Bool(bool),
    Closure(HeapPtr),
    RustValue(HeapPtr),
    Nil,
}

/// A closure record: the function it runs and its upvalue vector, a slice
/// of the heap's table of cell handles, one handle per capture descriptor.
#[derive(Debug, Clone, Copy)]
pub struct Closure {
    pub func_id: usize,
    pub closure_values: HeapSlice,
}

/// An upvalue cell: open while the captured local lives on the stack,
/// closed once its value has moved into a value cell of the heap.
#[derive(Debug, Clone, Copy)]
pub enum ClosureValueRef {
    Stack(usize),
    Heap(HeapPtr),
}

/// An extension value: a heap object with named properties.
#[derive(Debug, Clone, Copy)]
pub enum RustValue {
    List(List),
}

impl Value {
    /// A number: an integer or a float.
    pub open spec fn is_number(self) -> bool {
        self is Int || self is Float
    }

    /// A value that holds no handle into the heap.
    pub open spec fn is_plain(self) -> bool {
        !(self is Closure) && !(self is RustValue)
    }

    /// What `==` of the language gives on two values of which at most one
    /// is a float: equal integers, equal booleans and two `none` are equal,
    /// everything else is not.
    pub open spec fn same(self, other: Value) -> bool {
        match (self, other) {
            (Value::Int(a), Value::Int(b)) => a == b,
            (Value::Bool(a), Value::Bool(b)) => a == b,
            (Value::Nil, Value::Nil) => true,
            _ => false,
        }
    }

    /// Equality of the language. `None` for two floats, which only the host
    /// can compare; else `Some` of what `same` says.
    pub fn equals(&self, other: &Value) -> (result: Option<bool>)
        ensures
            result is None <==> (*self is Float && *other is Float),
            result matches Some(b) ==> b == self.same(*other),
    {
        match (*self, *other) {
            (Value::Float(_), Value::Float(_)) => None,
            (Value::Int(a), Value::Int(b)) => Some(a == b),
            (Value::Bool(a), Value::Bool(b)) => Some(a == b),
            (Value::Nil, Value::Nil) => Some(true),
            _ => Some(false),
        }
    }
}

impl RustValue {
    /// The property of the extension value that the symbol with id `index`
    /// names, if it has one of that name.
    pub open spec fn property(self, index: int, names: Seq<Seq<char>>) -> Option<Value> {
        match self {
            RustValue::List(list) => list.property(index, names),
        }
    }

    /// The property of the extension value that the symbol with id `index`
    /// names, if it has one of that name.
    pub fn get_property(&self, index: u8, symbols: &Symbols) -> (value: Option<Value>)
        requires
            *self matches RustValue::List(list) ==> list.slice.length <= i64::MAX,
        ensures
            value == self.property(index as int, symbols@),
    {
        match self {
            RustValue::List(list) => list.get_property(index, symbols),
        }
    }
}

/// A value together with the program it belongs to, ready to be shown.
#[derive(Clone, Copy)]
pub struct DispValue<'a> {
    pub program: &'a Program,
    pub value: Value,
}

impl<'a> DispValue<'a> {
    pub fn new(value: Value, program: &'a Program) -> (disp: DispValue<'a>)
        ensures
            disp.value == value,
            disp.program == program,
    {
        DispValue { program, value }
    }

    /// The function that the value runs, if the value is a closure of
    /// `heap` over a function of the program.
    pub open spec fn function(self, heap: crate::heap::HeapView) -> Option<Func> {
        match self.value {
            Value::Closure(ptr) => if ptr.index < heap.closures.len() && heap.closures[ptr.index as int].func_id
                < self.program.funcs@.len() {
                Some(self.program.funcs@[heap.closures[ptr.index as int].func_id as int])
            } else {
                None
            },
            _ => None,
        }
    }

    /// The program has a name for `symbol`.
    pub open spec fn knows(self, symbol: Symbol) -> bool {
        symbol.0 < self.program.symbols@.len()
    }

    /// The program has a name for each of `symbols`.
    pub open spec fn knows_all(self, symbols: Seq<Symbol>) -> bool {
        forall|i: int| 0 <= i < symbols.len() ==> self.knows(#[trigger] symbols[i])
    }

    /// The names of the parameters of the function that the value runs:
    /// what stands between the parentheses when a closure is shown.
    /// `None` if the value is no closure of `heap` over a function of the
    /// program, or if the program does not know a name.
    pub fn param_names(&self, heap: &Heap) -> (names: Option<Vec<String>>)
        ensures
            match self.function(heap@) {
                None => names is None,
                Some(func) => if self.knows_all(func.param_names@) {
                    &&& names matches Some(listed)
                    &&& listed@.len() == func.param_names@.len()
                    &&& forall|i: int|
                        0 <= i < listed@.len() ==> (#[trigger] listed@[i])@
                            == self.program.symbols@[func.param_names@[i].0 as int]
                } else {
                    names is None
                },
            },
    {
        let ptr = match self.value {
            Value::Closure(ptr) => ptr,
            _ => {
                return None;
            },
        };
        if ptr.index >= heap.closure_count() {
            return None;
        }
        let func_id = heap.closure(ptr).func_id;
        if func_id >= self.program.funcs.len() {
            return None;
        }
        let func = &self.program.funcs[func_id];
        let mut names: Vec<String> = Vec::new();
        let mut i: usize = 0;
        while i < func.param_names.len()
            invariant
                i <= func.param_names@.len(),
                self.function(heap@) == Some(*func),
                names@.len() == i,
                forall|k: int| 0 <= k < i ==> self.knows(#[trigger] func.param_names@[k]),
                forall|k: int|
                    0 <= k < i ==> (#[trigger] names@[k])@
                        == self.program.symbols@[func.param_names@[k].0 as int],
            decreases func.param_names@.len() - i,
        {
            let symbol = func.param_names[i];
            if symbol.id() as usize >= self.program.symbols.len() {
                assert(!self.knows(func.param_names@[i as int]));
                assert(!self.knows_all(func.param_names@));
                return None;
            }
            let name = self.program.symbols.get_name(symbol).to_owned();
            names.push(name);
            i += 1;
        }
        Some(names)
    }
}

} // verus!
