//! Sparse-set storage: each component has a set of its own, which finds the value of an
//! entity by the entity's slot. No value moves when an entity gains or loses another
//! component.

use crate::column::Column;
use crate::component::{ComponentId, Components, ComponentsView};
use vstd::prelude::*;

verus! {

/// The values of one component: packed densely, and indexed by entity slot.
#[derive(Debug)]
pub struct SparseSet {
    dense: Vec<usize>,
    values: Column,
    sparse: Vec<Option<usize>>,
}

impl SparseSet {
    /// The value of each entity slot that has one.
    pub closed spec fn map(&self) -> Map<usize, Seq<u8>> {
        Map::new(
            |s: usize| s < self.sparse@.len() && self.sparse@[s as int] is Some,
            |s: usize| self.values.rows()[self.sparse@[s as int].unwrap() as int],
        )
    }

    /// The size in bytes of one value.
    pub closed spec fn size(&self) -> usize {
        self.values.size()
    }

    /// Well-formedness: every value belongs to one slot, which knows where it is.
    pub closed spec fn inv(&self) -> bool {
        &&& self.values.inv()
        &&& self.values.rows().len() == self.dense@.len()
        &&& forall|s: int|
            0 <= s < self.sparse@.len() ==> match #[trigger] self.sparse@[s] {
                Some(d) => d < self.dense@.len() && self.dense@[d as int] == s,
                None => true,
            }
        &&& forall|d: int|
            0 <= d < self.dense@.len() ==> {
                let s = #[trigger] self.dense@[d];
                s < self.sparse@.len() && self.sparse@[s as int] == Some(d as usize)
            }
    }

    /// Every value has the size of the set.
    pub proof fn lemma_sizes(&self)
        requires
            self.inv(),
        ensures
            forall|s: usize| #[trigger]
                self.map().contains_key(s) ==> self.map()[s].len() == self.size(),
    {
        assert forall|s: usize| #[trigger] self.map().contains_key(s) implies self.map()[s].len()
            == self.size() by {
            self.values.lemma_row_len(self.sparse@[s as int].unwrap() as int);
        }
    }

    /// An empty set for values of `item_size` bytes.
    pub fn new(item_size: usize) -> (r: SparseSet)
        ensures
            r.inv(),
            r.size() == item_size,
            r.map() == Map::<usize, Seq<u8>>::empty(),
    {
        let r = SparseSet { dense: Vec::new(), values: Column::new(item_size), sparse: Vec::new() };
        assert(r.map() =~= Map::<usize, Seq<u8>>::empty());
        r
    }

    /// The value of the entity in `slot`, if it has one.
    pub fn get(&self, slot: usize) -> (r: Option<&[u8]>)
        requires
            self.inv(),
        ensures
            r is Some <==> self.map().contains_key(slot),
            r is Some ==> r.unwrap()@ == self.map()[slot],
    {
        if slot >= self.sparse.len() {
            return None;
        }
        match self.sparse[slot] {
            Some(d) => Some(self.values.get(d)),
            None => None,
        }
    }

    /// Whether this set is `before` with the value in place `d` replaced by `m`.
    pub closed spec fn written(&self, before: &SparseSet, d: int, m: Seq<u8>) -> bool {
        &&& self.dense@ == before.dense@
        &&& self.sparse@ == before.sparse@
        &&& self.values.inv()
        &&& self.values.size() == before.values.size()
        &&& self.values.rows() == before.values.rows().update(d, m)
    }

    /// The place of the value of the entity in `slot`.
    pub closed spec fn place(&self, slot: usize) -> int {
        self.sparse@[slot as int].unwrap() as int
    }

    /// What a set is after the value of the entity in `slot` was written in place.
    pub proof fn lemma_written(&self, before: &SparseSet, slot: usize, m: Seq<u8>)
        requires
            before.inv(),
            before.map().contains_key(slot),
            self.written(before, before.place(slot), m),
        ensures
            self.inv(),
            self.size() == before.size(),
            self.map() == before.map().insert(slot, m),
    {
        let d = before.place(slot);
        assert(before.dense@[d] == slot);
        assert forall|s: usize| #[trigger] self.map().contains_key(s) implies self.map()[s]
            == before.map().insert(slot, m)[s] by {
            if s != slot {
                let d2 = before.sparse@[s as int].unwrap();
                assert(before.dense@[d2 as int] == s);
            }
        }
        assert(self.map() =~= before.map().insert(slot, m));
    }

    /// The value of the entity in `slot`, if it has one, for writing in place. What the
    /// set is afterwards is stated for a slice that still has its length, as every
    /// mutable slice has.
    pub fn get_mut(&mut self, slot: usize) -> (r: Option<&mut [u8]>)
        requires
            old(self).inv(),
        ensures
            r is Some <==> old(self).map().contains_key(slot),
            r is Some ==> r.unwrap()@ == old(self).map()[slot],
            r is None ==> *final(self) == *old(self),
            r is Some && final(r.unwrap())@.len() == r.unwrap()@.len() ==> final(self).written(
                old(self),
                old(self).place(slot),
                final(r.unwrap())@,
            ),
    {
        if slot >= self.sparse.len() {
            return None;
        }
        match self.sparse[slot] {
            Some(d) => Some(self.values.get_mut(d)),
            None => None,
        }
    }

    /// Gives the entity in `slot` the value `bytes`, and returns the value replaced, if
    /// any.
    pub fn insert(&mut self, slot: usize, bytes: &[u8]) -> (r: Option<Vec<u8>>)
        requires
            old(self).inv(),
            bytes@.len() == old(self).size(),
        ensures
            final(self).inv(),
            final(self).size() == old(self).size(),
            final(self).map() == old(self).map().insert(slot, bytes@),
            r is Some <==> old(self).map().contains_key(slot),
            r is Some ==> r.unwrap()@ == old(self).map()[slot],
    {
        let ghost before = *self;
        while self.sparse.len() <= slot
            invariant
                self.inv(),
                self.size() == before.size(),
                self.map() == before.map(),
            decreases slot + 1 - self.sparse@.len(),
        {
            let ghost prev = *self;
            self.sparse.push(None);
            proof {
                assert forall|d: int| 0 <= d < self.dense@.len() implies {
                    let s = #[trigger] self.dense@[d];
                    s < self.sparse@.len() && self.sparse@[s as int] == Some(d as usize)
                } by {
                    let s = prev.dense@[d];
                    assert(prev.sparse@[s as int] == Some(d as usize));
                }
                assert(self.map() =~= prev.map());
            }
        }
        let ghost grown = *self;
        match self.sparse[slot] {
            Some(d) => {
                let prev = self.values.replace(d, bytes);
                proof {
                    assert forall|s: usize| #[trigger]
                        self.map().contains_key(s) implies self.map()[s] == grown.map().insert(
                        slot,
                        bytes@,
                    )[s] by {
                        if s != slot {
                            let d2 = grown.sparse@[s as int].unwrap();
                            assert(grown.dense@[d2 as int] == s);
                            assert(grown.dense@[d as int] == slot);
                        }
                    }
                    assert(self.map() =~= grown.map().insert(slot, bytes@));
                }
                Some(prev)
            },
            None => {
                let d = self.dense.len();
                self.dense.push(slot);
                assert(self.dense.len() == d + 1);
                self.values.push(bytes);
                self.sparse[slot] = Some(d);
                proof {
                    assert forall|s: int| 0 <= s < self.sparse@.len() implies match #[trigger] self.sparse@[s] {
                        Some(d2) => d2 < self.dense@.len() && self.dense@[d2 as int] == s,
                        None => true,
                    } by {
                        if s != slot {
                            assert(self.sparse@[s] == grown.sparse@[s]);
                        }
                    }
                    assert forall|d2: int| 0 <= d2 < self.dense@.len() implies {
                        let s = #[trigger] self.dense@[d2];
                        s < self.sparse@.len() && self.sparse@[s as int] == Some(d2 as usize)
                    } by {
                        if d2 != d {
                            let s = grown.dense@[d2];
                            assert(grown.sparse@[s as int] == Some(d2 as usize));
                        }
                    }
                    assert forall|s: usize| #[trigger]
                        self.map().contains_key(s) implies self.map()[s] == grown.map().insert(
                        slot,
                        bytes@,
                    )[s] by {
                        if s != slot {
                            assert(self.sparse@[s as int] == grown.sparse@[s as int]);
                        }
                    }
                    assert(self.map() =~= grown.map().insert(slot, bytes@));
                }
                None
            },
        }
    }

    /// Takes the value of the entity in `slot` out of the set and returns it, if there
    /// is one. The value that stood last takes the freed place.
    pub fn remove(&mut self, slot: usize) -> (r: Option<Vec<u8>>)
        requires
            old(self).inv(),
        ensures
            final(self).inv(),
            final(self).size() == old(self).size(),
            final(self).map() == old(self).map().remove(slot),
            r is Some <==> old(self).map().contains_key(slot),
            r is Some ==> r.unwrap()@ == old(self).map()[slot],
    {
        if slot >= self.sparse.len() {
            assert(self.map().remove(slot) =~= self.map());
            return None;
        }
        let ghost before = *self;
        match self.sparse[slot] {
            Some(d) => {
                let last = self.dense.len() - 1;
                let moved = self.dense[last];
                proof {
                    assert(before.dense@[last as int] == moved);
                    assert(before.sparse@[moved as int] == Some(last));
                    assert(before.dense@[d as int] == slot);
                }
                let out = self.values.swap_remove(d);
                self.dense.swap_remove(d);
                if d != last {
                    self.sparse[moved] = Some(d);
                }
                self.sparse[slot] = None;
                proof {
                    assert(self.dense.len() == self.dense@.len());
                    assert forall|s: int| 0 <= s < self.sparse@.len() implies match #[trigger] self.sparse@[s] {
                        Some(d2) => d2 < self.dense@.len() && self.dense@[d2 as int] == s,
                        None => true,
                    } by {
                        if s != slot && !(s == moved && d != last) {
                            assert(self.sparse@[s] == before.sparse@[s]);
                            match before.sparse@[s] {
                                Some(d2) => {
                                    assert(before.dense@[d2 as int] == s);
                                },
                                None => {},
                            }
                        }
                    }
                    assert forall|d2: int| 0 <= d2 < self.dense@.len() implies {
                        let s = #[trigger] self.dense@[d2];
                        s < self.sparse@.len() && self.sparse@[s as int] == Some(d2 as usize)
                    } by {
                        if d2 != d {
                            let s = before.dense@[d2];
                            assert(before.sparse@[s as int] == Some(d2 as usize));
                        }
                    }
                    assert forall|s: usize| #[trigger]
                        self.map().contains_key(s) implies self.map()[s] == before.map().remove(
                        slot,
                    )[s] by {
                        if !(s == moved && d != last) {
                            assert(self.sparse@[s as int] == before.sparse@[s as int]);
                            let d2 = before.sparse@[s as int].unwrap();
                            assert(before.dense@[d2 as int] == s);
                        }
                    }
                    assert(self.map() =~= before.map().remove(slot));
                }
                Some(out)
            },
            None => {
                assert(self.map().remove(slot) =~= self.map());
                None
            },
        }
    }
}

/// The sparse sets of all components.
#[derive(Debug)]
pub struct SparseSets {
    sets: Vec<SparseSet>,
}

impl SparseSets {
    /// The values of component `c` by entity slot.
    pub closed spec fn column(&self, c: usize) -> Map<usize, Seq<u8>> {
        if c < self.sets@.len() {
            self.sets@[c as int].map()
        } else {
            Map::empty()
        }
    }

    /// Well-formedness with respect to the registry `reg`: every set is well-formed and
    /// holds values of the size that `reg` records for its component.
    pub closed spec fn inv(&self, reg: ComponentsView) -> bool {
        &&& self.sets@.len() <= reg.descriptors.len()
        &&& forall|c: int|
            0 <= c < self.sets@.len() ==> (#[trigger] self.sets@[c]).inv() && self.sets@[c].size()
                == reg.descriptors[c].size
    }

    /// Registrations that come later do not disturb the sets.
    pub proof fn lemma_registry_grows(&self, reg: ComponentsView, later: ComponentsView)
        requires
            self.inv(reg),
            reg.is_prefix_of(later),
        ensures
            self.inv(later),
    {
        assert forall|c: int| 0 <= c < self.sets@.len() implies (#[trigger] self.sets@[c]).inv()
            && self.sets@[c].size() == later.descriptors[c].size by {
            assert(later.descriptors[c] == reg.descriptors[c]);
        }
    }

    /// Every value is of a registered component and has the registered size.
    pub proof fn lemma_column(&self, reg: ComponentsView, c: usize)
        requires
            self.inv(reg),
        ensures
            forall|s: usize| #[trigger]
                self.column(c).contains_key(s) ==> c < reg.descriptors.len() && self.column(
                    c,
                )[s].len() == reg.descriptors[c as int].size,
    {
        if c < self.sets@.len() {
            self.sets@[c as int].lemma_sizes();
        }
    }

    /// No sets.
    pub fn new() -> (r: SparseSets)
        ensures
            forall|reg: ComponentsView| #[trigger] r.inv(reg),
            forall|c: usize| #[trigger] r.column(c) == Map::<usize, Seq<u8>>::empty(),
    {
        SparseSets { sets: Vec::new() }
    }

    /// The value that the entity in `slot` has for component `c`, if any.
    pub fn get(&self, reg: &Components, slot: usize, c: usize) -> (r: Option<&[u8]>)
        requires
            self.inv(reg@),
        ensures
            r is Some <==> self.column(c).contains_key(slot),
            r is Some ==> r.unwrap()@ == self.column(c)[slot],
    {
        if c < self.sets.len() {
            self.sets[c].get(slot)
        } else {
            None
        }
    }

    /// Whether these sets are `before` with the value of the entity in `slot` for
    /// component `c` replaced by `m`.
    pub closed spec fn written(&self, before: &SparseSets, slot: usize, c: usize, m: Seq<u8>) -> bool {
        &&& self.sets@.len() == before.sets@.len()
        &&& forall|x: int|
            0 <= x < self.sets@.len() && x != c ==> #[trigger] self.sets@[x] == before.sets@[x]
        &&& self.sets@[c as int].written(
            &before.sets@[c as int],
            before.sets@[c as int].place(slot),
            m,
        )
    }

    /// What the sets are after one value was written in place.
    pub proof fn lemma_written(
        &self,
        before: &SparseSets,
        reg: ComponentsView,
        slot: usize,
        c: usize,
        m: Seq<u8>,
    )
        requires
            before.inv(reg),
            before.column(c).contains_key(slot),
            self.written(before, slot, c, m),
        ensures
            self.inv(reg),
            self.column(c) == before.column(c).insert(slot, m),
            forall|x: usize| x != c ==> #[trigger] self.column(x) == before.column(x),
    {
        self.sets@[c as int].lemma_written(&before.sets@[c as int], slot, m);
        assert forall|x: usize| x != c implies #[trigger] self.column(x) == before.column(x) by {
            if x < before.sets@.len() {
                assert(self.sets@[x as int] == before.sets@[x as int]);
            }
        }
        assert forall|x: int| 0 <= x < self.sets@.len() implies (#[trigger] self.sets@[x]).inv()
            && self.sets@[x].size() == reg.descriptors[x].size by {
            if x != c {
                assert(self.sets@[x] == before.sets@[x]);
            }
        }
    }

    /// The value that the entity in `slot` has for component `c`, if any, for writing
    /// in place. What the sets are afterwards is stated for a slice that still has its
    /// length, as every mutable slice has.
    pub fn get_mut(&mut self, reg: &Components, slot: usize, c: usize) -> (r: Option<&mut [u8]>)
        requires
            old(self).inv(reg@),
        ensures
            r is Some <==> old(self).column(c).contains_key(slot),
            r is Some ==> r.unwrap()@ == old(self).column(c)[slot],
            r is None ==> *final(self) == *old(self),
            r is Some && final(r.unwrap())@.len() == r.unwrap()@.len() ==> final(self).written(
                old(self),
                slot,
                c,
                final(r.unwrap())@,
            ),
    {
        if c >= self.sets.len() {
            return None;
        }
        match self.sets[c].get(slot) {
            Some(_) => self.sets[c].get_mut(slot),
            None => None,
        }
    }

    /// Gives the entity in `slot` the value `bytes` for component `c`, and returns the
    /// value replaced, if any.
    pub fn insert(&mut self, reg: &Components, slot: usize, c: usize, bytes: &[u8]) -> (r: Option<
        Vec<u8>,
    >)
        requires
            old(self).inv(reg@),
            reg.inv(),
            c < reg@.descriptors.len(),
            bytes@.len() == reg@.descriptors[c as int].size,
        ensures
            final(self).inv(reg@),
            final(self).column(c) == old(self).column(c).insert(slot, bytes@),
            forall|x: usize| x != c ==> #[trigger] final(self).column(x) == old(self).column(x),
            r is Some <==> old(self).column(c).contains_key(slot),
            r is Some ==> r.unwrap()@ == old(self).column(c)[slot],
    {
        while self.sets.len() <= c
            invariant
                self.inv(reg@),
                reg.inv(),
                c < reg@.descriptors.len(),
                forall|x: usize| #[trigger] self.column(x) == old(self).column(x),
            decreases c + 1 - self.sets@.len(),
        {
            let ghost prev = *self;
            let size = match reg.get_info(ComponentId::new(self.sets.len())) {
                Some(d) => d.layout().size(),
                None => 0,
            };
            self.sets.push(SparseSet::new(size));
            proof {
                assert forall|x: usize| #[trigger] self.column(x) == prev.column(x) by {
                    if x < prev.sets@.len() {
                        assert(self.sets@[x as int] == prev.sets@[x as int]);
                    }
                }
            }
        }
        let ghost grown = *self;
        assert(grown.column(c) == old(self).column(c));
        let r = self.sets[c].insert(slot, bytes);
        proof {
            assert forall|x: usize| x != c implies grown.column(x) == old(self).column(x) by {}
            assert forall|x: usize| x != c implies #[trigger] self.column(x) == grown.column(
                x,
            ) by {
                if x < grown.sets@.len() {
                    assert(self.sets@[x as int] == grown.sets@[x as int]);
                }
            }
        }
        r
    }

    /// Takes component `c` from the entity in `slot` and returns the value, if the
    /// entity had one.
    pub fn remove(&mut self, reg: &Components, slot: usize, c: usize) -> (r: Option<Vec<u8>>)
        requires
            old(self).inv(reg@),
        ensures
            final(self).inv(reg@),
            final(self).column(c) == old(self).column(c).remove(slot),
            forall|x: usize| x != c ==> #[trigger] final(self).column(x) == old(self).column(x),
            r is Some <==> old(self).column(c).contains_key(slot),
            r is Some ==> r.unwrap()@ == old(self).column(c)[slot],
    {
        if c >= self.sets.len() {
            assert(self.column(c).remove(slot) =~= self.column(c));
            return None;
        }
        let ghost before = *self;
        let r = self.sets[c].remove(slot);
        proof {
            assert forall|x: usize| x != c implies #[trigger] self.column(x) == before.column(
                x,
            ) by {
                if x < before.sets@.len() {
                    assert(self.sets@[x as int] == before.sets@[x as int]);
                }
            }
        }
        r
    }
}

} // verus!
