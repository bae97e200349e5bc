//! Identifiers and the symbol interner.
use vstd::prelude::*;
use crate::span::Span;

verus! {

/// An interned symbol: an index into a [`SymbolInterner`].
#[derive(PartialEq, Eq, Clone, Copy, Debug, Structural)]
pub struct SymbolId(pub usize);

/// Names a user-defined type: an index into the resolved type declarations.
#[derive(PartialEq, Eq, Clone, Copy, Debug, Structural)]
pub struct TypeId(pub usize);

/// Names a function: an index into the resolved functions.
#[derive(PartialEq, Eq, Clone, Copy, Debug, Structural)]
pub struct FunctionId(pub usize);

/// A name as written in the source: the interned symbol and where it was written.
#[derive(PartialEq, Eq, Clone, Copy, Debug, Structural)]
pub struct Identifier {
    pub id: SymbolId,
    pub span: Span,
}

impl Identifier {
    pub fn span(&self) -> (r: Span)
        ensures
            r == self.span,
    {
        self.span
    }
}

/// A dotted path of identifiers, such as `std.io.print`.
pub struct Path {
    pub identifiers: Vec<Identifier>,
}

/// Stores each distinct symbol text once and hands out its index.
pub struct SymbolInterner {
    symbols: Vec<String>,
}

impl SymbolInterner {
    /// The interned texts, in order of their ids.
    pub closed spec fn texts(&self) -> Seq<Seq<char>> {
        self.symbols@.map_values(|s: String| s@)
    }

    /// No text is stored twice.
    pub closed spec fn wf(&self) -> bool {
        forall|i: int, j: int|
            0 <= i < j < self.texts().len() ==> #[trigger] self.texts()[i] != #[trigger] self.texts()[j]
    }

    pub fn new() -> (r: SymbolInterner)
        ensures
            r.texts() == Seq::<Seq<char>>::empty(),
            r.wf(),
    {
        let r = SymbolInterner { symbols: Vec::new() };
        assert(r.texts() =~= Seq::<Seq<char>>::empty());
        r
    }

    pub fn len(&self) -> (r: usize)
        ensures
            r == self.texts().len(),
    {
        self.symbols.len()
    }

    /// Returns the id of `internee`, storing it first if it is new.
    pub fn insert(&mut self, internee: String) -> (r: SymbolId)
        requires
            old(self).wf(),
        ensures
            final(self).wf(),
            old(self).texts().contains(internee@) ==> final(self).texts() == old(self).texts(),
            !old(self).texts().contains(internee@) ==> final(self).texts() == old(self).texts().push(
                internee@,
            ),
            r.0 < final(self).texts().len(),
            final(self).texts()[r.0 as int] == internee@,
    {
        let mut i: usize = 0;
        while i < self.symbols.len()
            invariant
                i <= self.symbols.len(),
                self.wf(),
                *self == *old(self),
                forall|j: int| 0 <= j < i ==> self.texts()[j] != internee@,
            decreases self.symbols.len() - i,
        {
            if self.symbols[i] == internee {
                assert(self.texts()[i as int] == internee@);
                return SymbolId(i);
            }
            i += 1;
        }
        let ghost before = self.texts();
        let id = self.symbols.len();
        self.symbols.push(internee);
        assert(self.texts() =~= before.push(internee@));
        assert(!before.contains(internee@)) by {
            if before.contains(internee@) {
                let k = choose|k: int| 0 <= k < before.len() && before[k] == internee@;
                assert(self.texts()[k] != internee@);
            }
        }
        SymbolId(id)
    }

    /// The text of an interned symbol.
    pub fn get(&self, id: SymbolId) -> (r: &String)
        requires
            id.0 < self.texts().len(),
        ensures
            r@ == self.texts()[id.0 as int],
    {
        &self.symbols[id.0]
    }
}

/// What `get` gives back after `insert` is the text that was inserted, and inserting
/// a text that is already present hands back the id it already had.
pub proof fn law_interner_insert_then_get(before: SymbolInterner, after: SymbolInterner, text: Seq<char>, id: SymbolId)
    requires
        before.wf(),
        after.wf(),
        id.0 < after.texts().len(),
        after.texts()[id.0 as int] == text,
        before.texts().contains(text) ==> after.texts() == before.texts(),
        !before.texts().contains(text) ==> after.texts() == before.texts().push(text),
    ensures
        forall|j: int| 0 <= j < before.texts().len() ==> after.texts()[j] == before.texts()[j],
        forall|j: int| 0 <= j < before.texts().len() && before.texts()[j] == text ==> j == id.0,
{
    assert forall|j: int| 0 <= j < before.texts().len() && before.texts()[j] == text implies j == id.0 by {
        if j != id.0 {
            if j < id.0 {
                assert(after.texts()[j] == after.texts()[id.0 as int]);
            } else {
                assert(after.texts()[id.0 as int] == after.texts()[j]);
            }
        }
    }
}

} // verus!
