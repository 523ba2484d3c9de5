//! The single global namespace: identifier names mapped to dense storage
//! slots. Slots are assigned monotonically; redefining a name shadows the
//! earlier binding but never reuses or invalidates its slot. The table
//! only grows — there is no deletion.

use vstd::prelude::*;

verus! {

/// One binding: a name and the global slot it was assigned.
pub struct Symbol {
    pub name: String,
    pub index: usize,
}

impl Clone for Symbol {
    fn clone(&self) -> (r: Self)
        ensures
            r.name@ == self.name@,
            r.index == self.index,
    {
        Symbol { name: self.name.clone(), index: self.index }
    }
}

/// What a name resolves to in a sequence of bindings: the latest binding
/// of that name, if any (later bindings shadow earlier ones).
pub open spec fn resolve_model(
    entries: Seq<(Seq<char>, int)>,
    name: Seq<char>,
) -> Option<(Seq<char>, int)>
    decreases entries.len(),
{
    if entries.len() == 0 {
        None
    } else if entries.last().0 == name {
        Some(entries.last())
    } else {
        resolve_model(entries.drop_last(), name)
    }
}

/// Bindings past position `i` that never match the name do not affect
/// resolution: it equals resolution in the prefix before them.
pub proof fn lemma_resolve_model_skip(
    entries: Seq<(Seq<char>, int)>,
    name: Seq<char>,
    i: int,
)
    requires
        0 <= i <= entries.len(),
        forall|k: int| i <= k < entries.len() ==> entries[k].0 != name,
    ensures
        resolve_model(entries, name) == resolve_model(entries.subrange(0, i), name),
    decreases entries.len(),
{
    if i == entries.len() {
        assert(entries.subrange(0, i) =~= entries);
    } else {
        assert(entries.last().0 != name);
        assert(entries.drop_last() =~= entries.subrange(0, entries.len() - 1));
        lemma_resolve_model_skip(entries.drop_last(), name, i);
        assert(entries.drop_last().subrange(0, i) =~= entries.subrange(0, i));
    }
}

/// Defining a name and resolving it immediately returns that fresh
/// binding, whatever stood in the table before: the new symbol shadows
/// every earlier one of the same name.
pub proof fn lemma_define_shadows(
    entries: Seq<(Seq<char>, int)>,
    name: Seq<char>,
    index: int,
)
    ensures
        resolve_model(entries.push((name, index)), name) == Some((name, index)),
{
    assert(entries.push((name, index)).last() == (name, index));
}

/// The symbol table: the ordered sequence of every binding ever made.
pub struct SymbolTable {
    pub entries: Vec<Symbol>,
}

impl View for SymbolTable {
    type V = Seq<(Seq<char>, int)>;

    open spec fn view(&self) -> Seq<(Seq<char>, int)> {
        Seq::new(
            self.entries@.len(),
            |i: int| (self.entries@[i].name@, self.entries@[i].index as int),
        )
    }
}

impl Default for SymbolTable {
    fn default() -> (r: Self)
        ensures
            r@ == Seq::<(Seq<char>, int)>::empty(),
    {
        let t = SymbolTable { entries: Vec::new() };
        proof {
            assert(t@ =~= Seq::<(Seq<char>, int)>::empty());
        }
        t
    }
}

impl SymbolTable {
    /// Creates or shadows a binding for `name`, assigning the next free
    /// slot (one slot per definition ever made). Always succeeds.
    pub fn define(&mut self, name: String) -> (r: Symbol)
        ensures
            final(self)@ == old(self)@.push((name@, old(self)@.len() as int)),
            r.name@ == name@,
            r.index as int == old(self)@.len() as int,
    {
        let index: usize = self.entries.len();
        let symbol = Symbol { name: name.clone(), index };
        self.entries.push(Symbol { name, index });
        proof {
            assert(self@ =~= old(self)@.push((symbol.name@, old(self)@.len() as int)));
        }
        symbol
    }

    /// Pure lookup: the latest binding of `name`, or `None` when the name
    /// was never defined.
    pub fn resolve(&self, name: &String) -> (r: Option<Symbol>)
        ensures
            match r {
                Some(s) => resolve_model(self@, name@) == Some((s.name@, s.index as int)),
                None => resolve_model(self@, name@) is None,
            },
    {
        let n: usize = self.entries.len();
        let mut i: usize = n;
        while i > 0
            invariant
                i <= n,
                n == self.entries@.len(),
                forall|k: int| i as int <= k < n as int ==> self@[k].0 != name@,
            decreases i,
        {
            i = i - 1;
            if self.entries[i].name == *name {
                let found = self.entries[i].clone();
                proof {
                    lemma_resolve_model_skip(self@, name@, i as int + 1);
                    assert(self@.subrange(0, i as int + 1).last() == self@[i as int]);
                }
                return Some(found);
            }
        }
        proof {
            lemma_resolve_model_skip(self@, name@, 0);
            assert(self@.subrange(0, 0) =~= Seq::<(Seq<char>, int)>::empty());
        }
        None
    }
}

} // verus!
