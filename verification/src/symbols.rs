//! Interning of identifiers into small integer ids.

use vstd::prelude::*;
use vstd::string::StringExecFns;

verus! {

/// The id of an interned name.
#[derive(Debug, Clone, Copy, PartialEq, Eq, Structural)]
pub struct Symbol(pub u32);

/// The id of the pseudo-name of the return slot, local 0 of every frame.
pub const RETURN_ID: u32 = 0;

/// An append-only table of names; the id of a name is its index.
#[derive(Debug, Clone)]
pub struct Symbols {
    symbols: Vec<String>,
}

/// The first index at or after `start` that holds `name`, or the length of
/// `names` if there is none.
pub open spec fn find_from(names: Seq<Seq<char>>, name: Seq<char>, start: int) -> int
    decreases names.len() - start,
{
    if start < 0 || start >= names.len() {
        names.len() as int
    } else if names[start] == name {
        start
    } else {
        find_from(names, name, start + 1)
    }
}

/// The id that interning `name` yields on the table `names`.
pub open spec fn interned_id(names: Seq<Seq<char>>, name: Seq<char>) -> int {
    find_from(names, name, 0)
}

/// The table after interning `name`: unchanged if the name is known,
/// else longer by that name.
pub open spec fn interned_table(names: Seq<Seq<char>>, name: Seq<char>) -> Seq<Seq<char>> {
    if interned_id(names, name) == names.len() {
        names.push(name)
    } else {
        names
    }
}

/// No name stands twice in the table.
pub open spec fn distinct_names(names: Seq<Seq<char>>) -> bool {
    forall|i: int, j: int| 0 <= i < j < names.len() ==> names[i] != names[j]
}

impl Symbol {
    pub open spec fn spec_id(&self) -> u32 {
        self.0
    }

    #[verifier::when_used_as_spec(spec_id)]
    pub fn id(&self) -> (id: u32)
        ensures
            id == self.0,
    {
        self.0
    }

    /// The pseudo-name of the return slot.
    pub open spec fn return_slot() -> Symbol {
        Symbol(RETURN_ID)
    }

    /// The pseudo-name of the return slot.
    #[verifier::when_used_as_spec(return_slot)]
    pub fn return_symbol() -> (symbol: Symbol)
        ensures
            symbol == Symbol::return_slot(),
    {
        Symbol(RETURN_ID)
    }

    pub fn from_index(index: u32) -> (symbol: Symbol)
        ensures
            symbol == Symbol(index),
    {
        Symbol(index)
    }
}

impl View for Symbols {
    type V = Seq<Seq<char>>;

    closed spec fn view(&self) -> Seq<Seq<char>> {
        Seq::new(self.symbols@.len(), |i: int| self.symbols@[i]@)
    }
}

impl Symbols {
    /// A table that holds only the name of the return slot, with id 0.
    pub fn new() -> (table: Symbols)
        ensures
            table@ == seq!["return"@],
    {
        let mut symbols: Vec<String> = Vec::new();
        symbols.push(String::from_str("return"));
        let table = Symbols { symbols };
        assert(table@ =~= seq!["return"@]);
        table
    }

    /// Number of names in the table.
    pub fn len(&self) -> (len: usize)
        ensures
            len == self@.len(),
    {
        self.symbols.len()
    }

    /// Interns `name`: the id of its first occurrence if the table holds it,
    /// else the id of a new entry at the end.
    pub fn add(&mut self, name: &str) -> (symbol: Symbol)
        requires
            old(self)@.len() < u32::MAX,
        ensures
            symbol.0 == interned_id(old(self)@, name@),
            final(self)@ == interned_table(old(self)@, name@),
    {
        let owned = name.to_owned();
        let mut i: usize = 0;
        while i < self.symbols.len()
            invariant
                i <= self.symbols.len(),
                *self == *old(self),
                owned@ == name@,
                self@.len() == self.symbols.len(),
                self@.len() < u32::MAX,
                forall|k: int| 0 <= k < self.symbols.len() ==> self@[k] == #[trigger] self.symbols@[k]@,
                find_from(self@, name@, 0) == find_from(self@, name@, i as int),
            decreases self.symbols.len() - i,
        {
            if self.symbols[i] == owned {
                return Symbol(i as u32);
            }
            i += 1;
        }
        self.symbols.push(owned);
        assert(self@ =~= old(self)@.push(name@));
        Symbol(i as u32)
    }

    /// The name that `symbol` stands for.
    pub fn get_name(&self, symbol: Symbol) -> (name: &str)
        requires
            symbol.0 < self@.len(),
        ensures
            name@ == self@[symbol.0 as int],
    {
        self.symbols[symbol.0 as usize].as_str()
    }

    /// Whether `symbol` is in the table and stands for `name`.
    pub fn has_name(&self, symbol: Symbol, name: &str) -> (same: bool)
        ensures
            same == (symbol.0 < self@.len() && self@[symbol.0 as int] == name@),
    {
        let index = symbol.0 as usize;
        if index >= self.symbols.len() {
            return false;
        }
        let owned = name.to_owned();
        self.symbols[index] == owned
    }

    /// Forgets the names with ids `len` and above.
    pub fn truncate(&mut self, len: usize)
        ensures
            final(self)@ == if len <= old(self)@.len() {
                old(self)@.take(len as int)
            } else {
                old(self)@
            },
    {
        self.symbols.truncate(len);
        assert(self@ =~= if len <= old(self)@.len() {
            old(self)@.take(len as int)
        } else {
            old(self)@
        });
    }
}

/// What `find_from` finds: the first match at or after `start`.
pub proof fn lemma_find_from(names: Seq<Seq<char>>, name: Seq<char>, start: int)
    requires
        0 <= start <= names.len(),
    ensures
        start <= find_from(names, name, start) <= names.len(),
        find_from(names, name, start) < names.len() ==> names[find_from(names, name, start)]
            == name,
        forall|j: int| start <= j < find_from(names, name, start) ==> names[j] != name,
    decreases names.len() - start,
{
    if start < names.len() && names[start] != name {
        lemma_find_from(names, name, start + 1);
    }
}

/// Interning is idempotent: a second interning of the same name yields the
/// same id and leaves the table as the first left it.
pub proof fn lemma_intern_twice(names: Seq<Seq<char>>, name: Seq<char>)
    ensures
        interned_id(interned_table(names, name), name) == interned_id(names, name),
        interned_table(interned_table(names, name), name) == interned_table(names, name),
{
    let id = interned_id(names, name);
    let table = interned_table(names, name);
    lemma_find_from(names, name, 0);
    lemma_find_from(table, name, 0);
    assert(table[id] == name);
    if interned_id(table, name) < id {
        let j = interned_id(table, name);
        assert(names[j] == table[j]);
    }
}

/// The id of an interned name names it, and the ids given out earlier keep
/// their names.
pub proof fn lemma_intern_names(names: Seq<Seq<char>>, name: Seq<char>)
    ensures
        0 <= interned_id(names, name) < interned_table(names, name).len(),
        interned_table(names, name)[interned_id(names, name)] == name,
        names.len() <= interned_table(names, name).len() <= names.len() + 1,
        forall|i: int| 0 <= i < names.len() ==> interned_table(names, name)[i] == names[i],
{
    lemma_find_from(names, name, 0);
}

/// Interning keeps the names of a table distinct.
pub proof fn lemma_intern_distinct(names: Seq<Seq<char>>, name: Seq<char>)
    requires
        distinct_names(names),
    ensures
        distinct_names(interned_table(names, name)),
{
    lemma_find_from(names, name, 0);
}

/// Two names get the same id from a table exactly if they are the same
/// name, once both are interned.
pub proof fn lemma_intern_injective(names: Seq<Seq<char>>, a: Seq<char>, b: Seq<char>)
    ensures
        interned_id(interned_table(names, a), b) == interned_id(names, a) <==> a == b,
{
    let table = interned_table(names, a);
    lemma_intern_twice(names, a);
    lemma_intern_names(names, a);
    lemma_find_from(table, b, 0);
    lemma_find_from(table, a, 0);
}

} // verus!
