//! The per-book symbol directory: the accepted symbols in construction
//! order, with a rustc-hash map from symbol to its slot, so that each symbol
//! owns one slot in a book's matcher vector.

use vstd::prelude::*;

use crate::fxmap::{fx_map_get, fx_map_insert};
use crate::order::SymbolId;

verus! {

/// The accepted symbols and the map from symbol to slot.
pub struct SymbolIndex {
    pub ids: Vec<SymbolId>,
    pub index: rustc_hash::FxHashMap<SymbolId, usize>,
}

impl SymbolIndex {
    /// The symbols are pairwise distinct and the map takes exactly the
    /// symbol at slot `i` to `i`.
    pub open spec fn wf(self) -> bool {
        &&& self.ids@.no_duplicates()
        &&& forall|s: SymbolId| self.index@.contains_key(s) <==> self.ids@.contains(s)
        &&& forall|i: int|
            0 <= i < self.ids@.len() ==> self.index@[#[trigger] self.ids@[i]] == i as usize
    }

    /// The set of accepted symbols.
    pub open spec fn symbols(self) -> Set<SymbolId> {
        self.ids@.to_set()
    }

    /// The slot owned by a symbol.
    pub open spec fn spec_slot(self, sym: SymbolId) -> int
        recommends
            self.symbols().contains(sym),
    {
        self.index@[sym] as int
    }

    /// A directory over the given symbols, one slot each, in the order the
    /// set hands them out.
    pub fn new(symbols: &rustc_hash::FxHashSet<SymbolId>) -> (r: Self)
        ensures
            r.wf(),
            r.symbols() == symbols@,
    {
        let ids = crate::fxmap::fx_set_to_vec(symbols);
        let mut index: rustc_hash::FxHashMap<SymbolId, usize> = Default::default();
        let mut i: usize = 0;
        while i < ids.len()
            invariant
                0 <= i <= ids@.len(),
                ids@.no_duplicates(),
                forall|s: SymbolId| #[trigger]
                    index@.contains_key(s) <==> ids@.subrange(0, i as int).contains(s),
                forall|j: int| 0 <= j < i ==> index@[#[trigger] ids@[j]] == j as usize,
                forall|s: SymbolId| ids@.contains(s) <==> symbols@.contains(s),
            decreases ids@.len() - i,
        {
            let sym = ids[i];
            fx_map_insert(&mut index, sym, i);
            proof {
                assert forall|s: SymbolId| #[trigger] index@.contains_key(s) implies ids@.subrange(
                    0,
                    i + 1,
                ).contains(s) by {
                    if s == sym {
                        assert(ids@.subrange(0, i + 1)[i as int] == sym);
                    } else {
                        let j = choose|j: int|
                            0 <= j < i && #[trigger] ids@.subrange(0, i as int)[j] == s;
                        assert(ids@.subrange(0, i + 1)[j] == s);
                    }
                }
                assert forall|s: SymbolId| ids@.subrange(0, i + 1).contains(s) implies #[trigger]
                index@.contains_key(s) by {
                    let j = choose|j: int| 0 <= j < i + 1 && #[trigger] ids@.subrange(0, i + 1)[j] == s;
                    if j < i {
                        assert(ids@.subrange(0, i as int)[j] == s);
                    }
                }
                assert forall|j: int| 0 <= j < i + 1 implies index@[#[trigger] ids@[j]]
                    == j as usize by {
                    if j < i {
                        assert(ids@[j] != sym);
                    }
                }
            }
            i = i + 1;
        }
        proof {
            assert(ids@.subrange(0, ids@.len() as int) =~= ids@);
            assert(ids@.to_set() =~= symbols@);
        }
        SymbolIndex { ids, index }
    }

    /// The slot owned by the symbol, or `None` for a symbol the directory
    /// does not accept.
    pub fn slot_of(&self, sym: SymbolId) -> (r: Option<usize>)
        requires
            self.wf(),
        ensures
            match r {
                Some(i) => self.symbols().contains(sym) && i < self.ids@.len()
                    && self.ids@[i as int] == sym && i == self.spec_slot(sym),
                None => !self.symbols().contains(sym),
            },
    {
        let r = fx_map_get(&self.index, sym);
        let n = self.ids.len();
        proof {
            assert(self.ids@.len() <= usize::MAX);
            if self.index@.contains_key(sym) {
                assert(self.ids@.contains(sym));
                let j = choose|j: int| 0 <= j < self.ids@.len() && #[trigger] self.ids@[j] == sym;
                assert(self.ids@[j] == sym);
                assert(self.index@[self.ids@[j]] == j as usize);
                assert(self.index@[sym] as int == j);
                assert(self.ids@[self.index@[sym] as int] == sym);
                assert(self.ids@.to_set().contains(sym));
            }
        }
        r
    }

    /// An accepted symbol's slot is in range and holds that symbol.
    pub proof fn lemma_slot_in_range(&self, sym: SymbolId)
        requires
            self.wf(),
            self.symbols().contains(sym),
        ensures
            0 <= self.spec_slot(sym) < self.ids@.len(),
            self.ids@[self.spec_slot(sym)] == sym,
    {
        assert(self.ids@.contains(sym));
        let j = choose|j: int| 0 <= j < self.ids@.len() && #[trigger] self.ids@[j] == sym;
        assert(self.index@[self.ids@[j]] == j as usize);
        vstd::std_specs::vec::axiom_spec_len(&self.ids);
        assert(self.ids@.len() <= usize::MAX);
        assert(self.spec_slot(sym) == j);
    }

    /// Two distinct accepted symbols own distinct slots.
    pub proof fn lemma_distinct_slots(&self, s1: SymbolId, s2: SymbolId)
        requires
            self.wf(),
            self.symbols().contains(s1),
            self.symbols().contains(s2),
            s1 != s2,
        ensures
            self.spec_slot(s1) != self.spec_slot(s2),
    {
        self.lemma_slot_in_range(s1);
        self.lemma_slot_in_range(s2);
    }

    /// How many symbols the directory accepts.
    pub fn len(&self) -> (n: usize)
        ensures
            n == self.ids@.len(),
    {
        self.ids.len()
    }
}

} // verus!
