//! String interning: names become small integers, and back.

use vstd::prelude::*;

verus! {

/// An interned name.
pub type Symbol = usize;

/// The table of interned names. A symbol is the position of its name.
#[derive(Debug)]
pub struct Interner {
    names: Vec<String>,
}

/// The table after `s` was interned: the same, or longer by `s`.
pub open spec fn interned(names: Seq<Seq<char>>, s: Seq<char>) -> Seq<Seq<char>> {
    if names.contains(s) {
        names
    } else {
        names.push(s)
    }
}

/// The symbol of a name that the table holds.
pub open spec fn symbol_in(names: Seq<Seq<char>>, s: Seq<char>) -> Symbol {
    names.index_of(s) as Symbol
}

/// The name of a symbol; nothing where the table does not know it.
pub open spec fn name_text(names: Seq<Seq<char>>, sym: Symbol) -> Seq<char> {
    if sym < names.len() {
        names[sym as int]
    } else {
        Seq::empty()
    }
}

/// No name stands in the table twice.
pub open spec fn distinct_names(names: Seq<Seq<char>>) -> bool {
    forall|i: int, j: int| 0 <= i < j < names.len() ==> names[i] != names[j]
}

impl View for Interner {
    type V = Seq<Seq<char>>;

    closed spec fn view(&self) -> Seq<Seq<char>> {
        self.names@.map_values(|s: String| s@)
    }
}

impl Interner {
    /// No name stands in the table twice.
    #[verifier::type_invariant]
    spec fn names_distinct(self) -> bool {
        distinct_names(self@)
    }

    /// A table without names.
    pub fn new() -> (res: Interner)
        ensures
            res@ == Seq::<Seq<char>>::empty(),
    {
        let names: Vec<String> = Vec::new();
        assert(names@.map_values(|s: String| s@) =~= Seq::<Seq<char>>::empty());
        Interner { names }
    }

    /// Every table holds each of its names once.
    pub fn check_distinct(&self)
        ensures
            distinct_names(self@),
    {
        proof {
            use_type_invariant(self);
        }
    }

    /// The number of interned names.
    pub fn len(&self) -> (res: usize)
        ensures
            res == self@.len(),
    {
        self.names.len()
    }

    /// The symbol of a name that was interned before.
    pub fn lookup(&self, s: &str) -> (res: Option<Symbol>)
        ensures
            match res {
                Some(sym) => sym < self@.len() && self@[sym as int] == s@,
                None => !self@.contains(s@),
            },
    {
        let wanted: String = s.to_owned();
        let mut i: usize = 0;
        while i < self.names.len()
            invariant
                wanted@ == s@,
                i <= self.names@.len(),
                forall|j: int| 0 <= j < i ==> self@[j] != s@,
            decreases self.names@.len() - i,
        {
            if self.names[i] == wanted {
                return Some(i);
            }
            i += 1;
        }
        None
    }

    /// Intern a name: the symbol it has, or a new one behind all others.
    pub fn insert(&mut self, s: &str) -> (res: Symbol)
        ensures
            final(self)@ == interned(old(self)@, s@),
            res < final(self)@.len(),
            final(self)@[res as int] == s@,
            res == symbol_in(final(self)@, s@),
            !old(self)@.contains(s@) ==> res == old(self)@.len(),
            distinct_names(final(self)@),
    {
        proof {
            use_type_invariant(&*self);
        }
        if let Some(sym) = self.lookup(s) {
            proof {
                lemma_symbol_in(self@, sym, s@);
            }
            return sym;
        }
        let ghost before = self@;
        let mut names: Vec<String> = Vec::new();
        core::mem::swap(&mut names, &mut self.names);
        let sym: Symbol = names.len();
        names.push(s.to_owned());
        assert(names@.map_values(|s: String| s@) =~= before.push(s@));
        self.names = names;
        proof {
            lemma_symbol_in(self@, sym, s@);
        }
        sym
    }

    /// The name of a symbol.
    pub fn get(&self, sym: Symbol) -> (res: &str)
        requires
            sym < self@.len(),
        ensures
            res@ == self@[sym as int],
    {
        self.names[sym].as_str()
    }

    /// The name of a symbol; nothing where the table does not know it.
    pub fn text(&self, sym: Symbol) -> (res: &str)
        ensures
            res@ == name_text(self@, sym),
    {
        if sym < self.names.len() {
            self.names[sym].as_str()
        } else {
            proof {
                reveal_strlit("");
            }
            assert(""@ =~= Seq::<char>::empty());
            ""
        }
    }

    /// A copy of the table.
    pub fn copy(&self) -> (res: Interner)
        ensures
            res@ == self@,
    {
        let mut names: Vec<String> = Vec::new();
        let mut i: usize = 0;
        while i < self.names.len()
            invariant
                i <= self.names@.len(),
                names@.len() == i,
                forall|j: int| 0 <= j < i ==> names@[j]@ == self.names@[j]@,
            decreases self.names@.len() - i,
        {
            names.push(self.names[i].clone());
            i += 1;
        }
        proof {
            use_type_invariant(self);
            assert(names@.map_values(|s: String| s@) =~= self@);
        }
        Interner { names }
    }
}

impl Default for Interner {
    fn default() -> (res: Interner)
        ensures
            res@ == Seq::<Seq<char>>::empty(),
    {
        Interner::new()
    }
}

impl Clone for Interner {
    fn clone(&self) -> (res: Interner)
        ensures
            res@ == self@,
    {
        self.copy()
    }
}

/// In a table of distinct names a name has one symbol.
pub proof fn lemma_symbol_in(names: Seq<Seq<char>>, sym: Symbol, s: Seq<char>)
    requires
        distinct_names(names),
        sym < names.len(),
        names[sym as int] == s,
    ensures
        symbol_in(names, s) == sym,
{
    let i = names.index_of(s);
    assert(names.contains(s));
    assert(0 <= i < names.len() && names[i] == s);
    if i < sym {
        assert(names[i] != names[sym as int]);
    } else if sym < i {
        assert(names[sym as int] != names[i]);
    }
}

/// Interning a name again changes nothing.
pub proof fn interning_twice_is_interning_once(names: Seq<Seq<char>>, s: Seq<char>)
    ensures
        interned(interned(names, s), s) == interned(names, s),
{
    if !names.contains(s) {
        assert(names.push(s)[names.len() as int] == s);
    }
}

/// Interning one name keeps every symbol that was given before.
pub proof fn interning_keeps_symbols(names: Seq<Seq<char>>, s: Seq<char>, sym: Symbol)
    requires
        sym < names.len(),
    ensures
        interned(names, s).len() >= names.len(),
        interned(names, s)[sym as int] == names[sym as int],
{
}

/// In a table of distinct names two symbols are equal just when their names are.
pub proof fn symbols_tell_names_apart(names: Seq<Seq<char>>, a: Symbol, b: Symbol)
    requires
        distinct_names(names),
        a < names.len(),
        b < names.len(),
    ensures
        names[a as int] == names[b as int] <==> a == b,
{
    if a < b {
        assert(names[a as int] != names[b as int]);
    } else if b < a {
        assert(names[b as int] != names[a as int]);
    }
}

} // verus!
