//! Table storage: every entity with table components has one row, in the table of
//! exactly its set of table components.
//!
//! Giving an entity a component it lacks, or taking one away, moves the whole row to
//! another table. The values cross over untouched; the row that stood last in the table
//! left behind takes the freed place.

use crate::archetype::{
    lemma_index_of,
    lemma_row_map_insert,
    lemma_row_map_remove,
    row_map,
    strictly_ascending,
    views,
    Archetype,
};
use crate::component::{ComponentId, Components, ComponentsView};
use vstd::prelude::*;
use vstd::slice::slice_to_vec;

verus! {

/// Where the row of an entity stands.
#[derive(Clone, Copy, Debug, PartialEq, Eq, Structural)]
pub struct Location {
    /// The table.
    pub archetype: usize,
    /// The row in the table.
    pub row: usize,
}

/// All tables, and the place of each entity's row.
#[derive(Debug)]
pub struct Tables {
    archetypes: Vec<Archetype>,
    locations: Vec<Option<Location>>,
}

/// Overwriting one value of a row changes one entry of the row's map.
pub proof fn lemma_row_map_update(s: Seq<usize>, v: Seq<Seq<u8>>, pos: int, b: Seq<u8>)
    requires
        strictly_ascending(s),
        s.len() == v.len(),
        0 <= pos < s.len(),
    ensures
        row_map(s, v).contains_key(s[pos]),
        row_map(s, v)[s[pos]] == v[pos],
        row_map(s, v.update(pos, b)) == row_map(s, v).insert(s[pos], b),
{
    lemma_index_of(s, pos);
    assert forall|x: usize| s.contains(x) implies v.update(pos, b)[s.index_of(x)] == (if x
        == s[pos] {
        b
    } else {
        v[s.index_of(x)]
    }) by {
        let i = s.index_of(x);
        lemma_index_of(s, i);
    }
    assert(row_map(s, v.update(pos, b)) =~= row_map(s, v).insert(s[pos], b));
}

impl Tables {
    /// The place of the row of the entity in `slot`, if it has one.
    pub closed spec fn location(&self, slot: usize) -> Option<Location> {
        if slot < self.locations@.len() {
            self.locations@[slot as int]
        } else {
            None
        }
    }

    /// Whether the entity in `slot` has a row.
    pub open spec fn has_row(&self, slot: usize) -> bool {
        self.location(slot) is Some
    }

    /// The table values of the entity in `slot`, by component.
    pub closed spec fn row_of(&self, slot: usize) -> Map<usize, Seq<u8>> {
        match self.location(slot) {
            Some(loc) => self.archetypes@[loc.archetype as int].values(loc.row as int),
            None => Map::empty(),
        }
    }

    /// Well-formedness: there is one table for a set of components, and every row is
    /// the row of one entity, which knows its place.
    pub closed spec fn wf(&self) -> bool {
        &&& forall|a: int|
            0 <= a < self.archetypes@.len() ==> (#[trigger] self.archetypes@[a]).inv()
        &&& forall|a: int, b: int|
            0 <= a < b < self.archetypes@.len() ==> (#[trigger] self.archetypes@[a]).components()
                != (#[trigger] self.archetypes@[b]).components()
        &&& forall|s: int|
            0 <= s < self.locations@.len() ==> match #[trigger] self.locations@[s] {
                Some(loc) => {
                    &&& loc.archetype < self.archetypes@.len()
                    &&& loc.row < self.archetypes@[loc.archetype as int].slots().len()
                    &&& self.archetypes@[loc.archetype as int].slots()[loc.row as int] == s
                },
                None => true,
            }
        &&& forall|a: int, r: int|
            0 <= a < self.archetypes@.len() && 0 <= r < self.archetypes@[a].slots().len() ==> {
                let s = #[trigger] self.archetypes@[a].slots()[r];
                &&& s < self.locations@.len()
                &&& self.locations@[s as int] == Some(
                    Location { archetype: a as usize, row: r as usize },
                )
            }
    }

    /// Whether every column holds values of the size that `reg` records for its
    /// component.
    pub closed spec fn sized(&self, reg: ComponentsView) -> bool {
        forall|a: int, k: int|
            0 <= a < self.archetypes@.len() && 0 <= k < self.archetypes@[a].components().len()
                ==> {
                let c = #[trigger] self.archetypes@[a].components()[k];
                &&& c < reg.descriptors.len()
                &&& self.archetypes@[a].sizes()[k] == reg.descriptors[c as int].size
            }
    }

    /// Well-formedness with respect to the registry `reg`.
    pub open spec fn inv(&self, reg: ComponentsView) -> bool {
        self.wf() && self.sized(reg)
    }

    /// Registrations that come later do not disturb the tables.
    pub proof fn lemma_registry_grows(&self, reg: ComponentsView, later: ComponentsView)
        requires
            self.inv(reg),
            reg.is_prefix_of(later),
        ensures
            self.inv(later),
    {
        assert forall|a: int, k: int|
            0 <= a < self.archetypes@.len() && 0 <= k < self.archetypes@[a].components().len()
            implies {
            let c = #[trigger] self.archetypes@[a].components()[k];
            &&& c < later.descriptors.len()
            &&& self.archetypes@[a].sizes()[k] == later.descriptors[c as int].size
        } by {
            let c = self.archetypes@[a].components()[k];
            assert(later.descriptors[c as int] == reg.descriptors[c as int]);
        }
    }

    /// An entity without a row has no table values; one with a row has values of
    /// registered components, each of the registered size.
    pub proof fn lemma_row(&self, reg: ComponentsView, slot: usize)
        requires
            self.inv(reg),
        ensures
            !self.has_row(slot) ==> self.row_of(slot) == Map::<usize, Seq<u8>>::empty(),
            forall|c: usize| #[trigger]
                self.row_of(slot).contains_key(c) ==> c < reg.descriptors.len() && self.row_of(
                    slot,
                )[c].len() == reg.descriptors[c as int].size,
    {
        match self.location(slot) {
            Some(loc) => {
                let arch = self.archetypes@[loc.archetype as int];
                assert(self.locations@[slot as int] == Some(loc));
                arch.lemma_shape();
                assert forall|c: usize| #[trigger]
                    self.row_of(slot).contains_key(c) implies c < reg.descriptors.len()
                    && self.row_of(slot)[c].len() == reg.descriptors[c as int].size by {
                    let k = arch.components().index_of(c);
                    assert(arch.components()[k] == c);
                    assert(arch.row(loc.row as int)[k].len() == arch.sizes()[k]);
                }
            },
            None => {},
        }
    }

    /// No tables and no rows.
    pub fn new() -> (t: Tables)
        ensures
            t.wf(),
            forall|reg: ComponentsView| #[trigger] t.sized(reg),
            forall|slot: usize| !(#[trigger] t.has_row(slot)),
            forall|slot: usize| #[trigger] t.row_of(slot) == Map::<usize, Seq<u8>>::empty(),
    {
        Tables { archetypes: Vec::new(), locations: Vec::new() }
    }

    /// The value that the entity in `slot` has for component `c`, if any.
    pub fn get(&self, slot: usize, c: usize) -> (r: Option<&[u8]>)
        requires
            self.wf(),
        ensures
            r is Some <==> self.row_of(slot).contains_key(c),
            r is Some ==> r.unwrap()@ == self.row_of(slot)[c],
    {
        if slot >= self.locations.len() {
            return None;
        }
        match self.locations[slot] {
            Some(loc) => {
                let arch = &self.archetypes[loc.archetype];
                let (pos, found) = arch.position(c);
                if found {
                    proof {
                        arch.lemma_shape();
                        lemma_index_of(arch.components(), pos as int);
                    }
                    Some(arch.get(pos, loc.row))
                } else {
                    None
                }
            },
            None => None,
        }
    }

    /// Whether these tables are `before` with the value of the entity in `slot` for
    /// component `c` replaced by `m`.
    pub closed spec fn written(&self, before: &Tables, slot: usize, c: usize, m: Seq<u8>) -> bool {
        let loc = before.location(slot).unwrap();
        let a = loc.archetype as int;
        &&& self.locations@ == before.locations@
        &&& self.archetypes@.len() == before.archetypes@.len()
        &&& forall|x: int|
            0 <= x < self.archetypes@.len() && x != a ==> #[trigger] self.archetypes@[x]
                == before.archetypes@[x]
        &&& self.archetypes@[a].written(
            &before.archetypes@[a],
            before.archetypes@[a].components().index_of(c),
            loc.row as int,
            m,
        )
    }

    /// What the tables are after one value was written in place.
    pub proof fn lemma_written(
        &self,
        before: &Tables,
        reg: ComponentsView,
        slot: usize,
        c: usize,
        m: Seq<u8>,
    )
        requires
            before.inv(reg),
            before.row_of(slot).contains_key(c),
            self.written(before, slot, c, m),
        ensures
            self.inv(reg),
            self.row_of(slot) == before.row_of(slot).insert(c, m),
            forall|s: usize| s != slot ==> #[trigger] self.row_of(s) == before.row_of(s),
            forall|s: usize| #[trigger] self.has_row(s) == before.has_row(s),
    {
        let loc = before.location(slot).unwrap();
        let a = loc.archetype as int;
        let was = before.archetypes@[a];
        let now = self.archetypes@[a];
        let k = was.components().index_of(c);
        assert(before.locations@[slot as int] == Some(loc));
        was.lemma_shape();
        assert(was.components().contains(c));
        assert(0 <= k < was.components().len() && was.components()[k] == c);
        now.lemma_written(&was, k, loc.row as int, m);
        lemma_row_map_update(was.components(), was.row(loc.row as int), k, m);
        assert forall|x: int, q: int|
            0 <= x < self.archetypes@.len() && 0 <= q < self.archetypes@[x].slots().len()
            implies {
            let s = #[trigger] self.archetypes@[x].slots()[q];
            &&& s < self.locations@.len()
            &&& self.locations@[s as int] == Some(
                Location { archetype: x as usize, row: q as usize },
            )
        } by {
            let s = before.archetypes@[x].slots()[q];
            assert(before.locations@[s as int] == Some(
                Location { archetype: x as usize, row: q as usize },
            ));
        }
        assert forall|s: int| 0 <= s < self.locations@.len() implies match #[trigger] self.locations@[s] {
            Some(l2) => {
                &&& l2.archetype < self.archetypes@.len()
                &&& l2.row < self.archetypes@[l2.archetype as int].slots().len()
                &&& self.archetypes@[l2.archetype as int].slots()[l2.row as int] == s
            },
            None => true,
        } by {
            assert(self.locations@[s] == before.locations@[s]);
        }
        self.lemma_sized_kept(before, reg);
        assert forall|s: usize| s != slot implies #[trigger] self.row_of(s) == before.row_of(
            s,
        ) by {
            if s < self.locations@.len() {
                match before.locations@[s as int] {
                    Some(l2) => {
                        if l2.archetype == a {
                            assert(was.slots()[l2.row as int] == s);
                            assert(was.slots()[loc.row as int] == slot);
                            assert(now.row(l2.row as int) == was.row(l2.row as int));
                        }
                    },
                    None => {},
                }
            }
        }
    }

    /// The value that the entity in `slot` has for component `c`, if any, for writing
    /// in place. What the tables are afterwards is stated for a slice that still has its
    /// length, as every mutable slice has.
    pub fn get_mut(&mut self, slot: usize, c: usize) -> (r: Option<&mut [u8]>)
        requires
            old(self).wf(),
        ensures
            r is Some <==> old(self).row_of(slot).contains_key(c),
            r is Some ==> r.unwrap()@ == old(self).row_of(slot)[c],
            r is None ==> *final(self) == *old(self),
            r is Some && final(r.unwrap())@.len() == r.unwrap()@.len() ==> final(self).written(
                old(self),
                slot,
                c,
                final(r.unwrap())@,
            ),
    {
        if slot >= self.locations.len() {
            return None;
        }
        match self.locations[slot] {
            Some(loc) => {
                let (pos, found) = self.archetypes[loc.archetype].position(c);
                if found {
                    proof {
                        self.archetypes@[loc.archetype as int].lemma_shape();
                        lemma_index_of(
                            self.archetypes@[loc.archetype as int].components(),
                            pos as int,
                        );
                    }
                    Some(self.archetypes[loc.archetype].get_mut(pos, loc.row))
                } else {
                    None
                }
            },
            None => None,
        }
    }

    /// Makes room for the place of the entity in `slot`.
    fn ensure_slot(&mut self, slot: usize)
        requires
            old(self).wf(),
        ensures
            final(self).wf(),
            final(self).archetypes@ == old(self).archetypes@,
            slot < final(self).locations@.len(),
            forall|s: usize| #[trigger] final(self).location(s) == old(self).location(s),
            forall|s: usize| #[trigger] final(self).row_of(s) == old(self).row_of(s),
    {
        while self.locations.len() <= slot
            invariant
                self.wf(),
                self.archetypes@ == old(self).archetypes@,
                forall|s: usize| #[trigger] self.location(s) == old(self).location(s),
            decreases slot + 1 - self.locations@.len(),
        {
            let ghost prev = *self;
            self.locations.push(None);
            proof {
                assert forall|s: usize| #[trigger] self.location(s) == prev.location(s) by {}
                assert forall|a: int, r: int|
                    0 <= a < self.archetypes@.len() && 0 <= r < self.archetypes@[a].slots().len()
                    implies {
                    let s = #[trigger] self.archetypes@[a].slots()[r];
                    &&& s < self.locations@.len()
                    &&& self.locations@[s as int] == Some(
                        Location { archetype: a as usize, row: r as usize },
                    )
                } by {
                    let s = prev.archetypes@[a].slots()[r];
                    assert(prev.locations@[s as int] == Some(
                        Location { archetype: a as usize, row: r as usize },
                    ));
                }
            }
        }
    }

    /// Takes the row of the entity in `slot` out of its table and returns the values.
    fn detach(&mut self, slot: usize) -> (out: Vec<Vec<u8>>)
        requires
            old(self).wf(),
            old(self).location(slot) is Some,
        ensures
            final(self).wf(),
            final(self).location(slot) is None,
            final(self).locations@.len() == old(self).locations@.len(),
            final(self).archetypes@.len() == old(self).archetypes@.len(),
            forall|a: int|
                0 <= a < old(self).archetypes@.len() ==> (#[trigger] final(self).archetypes@[a]).components() == old(self).archetypes@[a].components()
                    && final(self).archetypes@[a].sizes() == old(self).archetypes@[a].sizes(),
            forall|s: usize|
                s != slot ==> (#[trigger] final(self).location(s) is Some) == (old(
                    self,
                ).location(s) is Some),
            forall|s: usize| s != slot ==> #[trigger] final(self).row_of(s) == old(self).row_of(s),
            views(out@) == old(self).archetypes@[old(self).location(
                slot,
            ).unwrap().archetype as int].row(old(self).location(slot).unwrap().row as int),
    {
        let ghost before = *self;
        let loc = match self.locations[slot] {
            Some(l) => l,
            None => Location { archetype: 0, row: 0 },
        };
        let a = loc.archetype;
        let r = loc.row;
        assert(before.locations@[slot as int] == Some(loc));
        let last = self.archetypes[a].len() - 1;
        let moved = self.archetypes[a].slot(last);
        proof {
            assert(before.archetypes@[a as int].slots()[last as int] == moved);
            assert(before.locations@[moved as int] == Some(Location { archetype: a, row: last }));
            assert(before.archetypes@[a as int].slots()[r as int] == slot);
        }
        let out = self.archetypes[a].take_row(r);
        if r != last {
            self.locations[moved] = Some(Location { archetype: a, row: r });
        }
        self.locations[slot] = None;
        proof {
            let now = self.archetypes@[a as int];
            let was = before.archetypes@[a as int];
            assert(forall|x: int|
                0 <= x < self.archetypes@.len() && x != a ==> self.archetypes@[x]
                    == before.archetypes@[x]);
            assert forall|s: int| 0 <= s < self.locations@.len() implies match #[trigger] self.locations@[s] {
                Some(l2) => {
                    &&& l2.archetype < self.archetypes@.len()
                    &&& l2.row < self.archetypes@[l2.archetype as int].slots().len()
                    &&& self.archetypes@[l2.archetype as int].slots()[l2.row as int] == s
                },
                None => true,
            } by {
                if s != slot && !(s == moved && r != last) {
                    assert(self.locations@[s] == before.locations@[s]);
                    match before.locations@[s] {
                        Some(l2) => {
                            if l2.archetype == a {
                                assert(was.slots()[l2.row as int] == s);
                            }
                        },
                        None => {},
                    }
                }
            }
            assert forall|x: int, q: int|
                0 <= x < self.archetypes@.len() && 0 <= q < self.archetypes@[x].slots().len()
                implies {
                let s = #[trigger] self.archetypes@[x].slots()[q];
                &&& s < self.locations@.len()
                &&& self.locations@[s as int] == Some(
                    Location { archetype: x as usize, row: q as usize },
                )
            } by {
                assert(self.archetypes.len() == self.archetypes@.len());
                if x != a {
                    let s = before.archetypes@[x].slots()[q];
                    assert(self.archetypes@[x].slots()[q] == s);
                    assert(before.locations@[s as int] == Some(
                        Location { archetype: x as usize, row: q as usize },
                    ));
                    assert(s != slot);
                    assert(s != moved);
                } else if q != r {
                    let s = was.slots()[q];
                    assert(now.slots()[q] == s);
                    assert(before.locations@[s as int] == Some(
                        Location { archetype: x as usize, row: q as usize },
                    ));
                    assert(s != slot);
                    assert(s != moved);
                } else {
                    assert(now.slots()[q] == moved);
                    assert(r != last);
                    assert(moved != slot);
                }
            }
            assert forall|s: usize| s != slot implies #[trigger] self.row_of(s) == before.row_of(
                s,
            ) by {
                if s < self.locations@.len() {
                    if s == moved && r != last {
                        assert(now.row(r as int) == was.row(last as int));
                    } else {
                        assert(self.locations@[s as int] == before.locations@[s as int]);
                        match before.locations@[s as int] {
                            Some(l2) => {
                                if l2.archetype == a {
                                    assert(was.slots()[l2.row as int] == s);
                                    assert(now.row(l2.row as int) == was.row(l2.row as int));
                                }
                            },
                            None => {},
                        }
                    }
                }
            }
        }
        out
    }

    /// The table for exactly the components of `target`, which is made if there is none.
    fn find_or_create(&mut self, reg: &Components, target: Vec<usize>) -> (dst: usize)
        requires
            old(self).wf(),
            old(self).sized(reg@),
            reg.inv(),
            strictly_ascending(target@),
            forall|k: int| 0 <= k < target@.len() ==> target@[k] < reg@.descriptors.len(),
        ensures
            final(self).wf(),
            final(self).sized(reg@),
            dst < final(self).archetypes@.len(),
            final(self).archetypes@[dst as int].components() == target@,
            final(self).locations@ == old(self).locations@,
            old(self).archetypes@.len() <= final(self).archetypes@.len(),
            forall|a: int|
                0 <= a < old(self).archetypes@.len() ==> #[trigger] final(self).archetypes@[a]
                    == old(self).archetypes@[a],
            forall|s: usize| #[trigger] final(self).location(s) == old(self).location(s),
            forall|s: usize| #[trigger] final(self).row_of(s) == old(self).row_of(s),
    {
        let mut i: usize = 0;
        while i < self.archetypes.len()
            invariant
                i <= self.archetypes@.len(),
                self.wf(),
                self.sized(reg@),
                self.archetypes@ == old(self).archetypes@,
                self.locations@ == old(self).locations@,
                forall|j: int| 0 <= j < i ==> (#[trigger] self.archetypes@[j]).components() != target@,
            decreases self.archetypes@.len() - i,
        {
            if self.archetypes[i].has_components(&target) {
                return i;
            }
            i = i + 1;
        }
        let mut sizes: Vec<usize> = Vec::new();
        let mut k: usize = 0;
        while k < target.len()
            invariant
                k <= target@.len(),
                sizes@.len() == k,
                reg.inv(),
                forall|j: int| 0 <= j < target@.len() ==> target@[j] < reg@.descriptors.len(),
                forall|j: int|
                    0 <= j < k ==> sizes@[j] == reg@.descriptors[target@[j] as int].size,
            decreases target@.len() - k,
        {
            match reg.get_info(ComponentId::new(target[k])) {
                Some(d) => {
                    sizes.push(d.layout().size());
                },
                None => {
                    sizes.push(0);
                },
            }
            k = k + 1;
        }
        let ghost components = target@;
        let arch = Archetype::new(target, &sizes);
        let dst = self.archetypes.len();
        self.archetypes.push(arch);
        proof {
            assert forall|s: int| 0 <= s < self.locations@.len() implies match #[trigger] self.locations@[s] {
                Some(l2) => {
                    &&& l2.archetype < self.archetypes@.len()
                    &&& l2.row < self.archetypes@[l2.archetype as int].slots().len()
                    &&& self.archetypes@[l2.archetype as int].slots()[l2.row as int] == s
                },
                None => true,
            } by {
                assert(self.locations@[s] == old(self).locations@[s]);
            }
            assert forall|a: int, q: int|
                0 <= a < self.archetypes@.len() && 0 <= q < self.archetypes@[a].slots().len()
                implies {
                let s = #[trigger] self.archetypes@[a].slots()[q];
                &&& s < self.locations@.len()
                &&& self.locations@[s as int] == Some(
                    Location { archetype: a as usize, row: q as usize },
                )
            } by {
                assert(a < dst);
                let s = old(self).archetypes@[a].slots()[q];
                assert(old(self).locations@[s as int] == Some(
                    Location { archetype: a as usize, row: q as usize },
                ));
            }
            assert forall|a: int, j: int|
                0 <= a < self.archetypes@.len() && 0 <= j < self.archetypes@[a].components().len()
                implies {
                let c = #[trigger] self.archetypes@[a].components()[j];
                &&& c < reg@.descriptors.len()
                &&& self.archetypes@[a].sizes()[j] == reg@.descriptors[c as int].size
            } by {
                if a < dst {
                    let c = old(self).archetypes@[a].components()[j];
                    assert(old(self).archetypes@[a].sizes()[j] == reg@.descriptors[c as int].size);
                }
            }
            assert forall|s: usize| #[trigger] self.row_of(s) == old(self).row_of(s) by {
                if s < self.locations@.len() {
                    assert(self.locations@[s as int] == old(self).locations@[s as int]);
                }
            }
        }
        dst
    }

    /// Appends a row with `values` for the entity in `slot` to table `dst`.
    fn place(&mut self, slot: usize, dst: usize, values: &Vec<Vec<u8>>)
        requires
            old(self).wf(),
            slot < old(self).locations@.len(),
            old(self).location(slot) is None,
            dst < old(self).archetypes@.len(),
            values@.len() == old(self).archetypes@[dst as int].components().len(),
            forall|k: int|
                0 <= k < values@.len() ==> (#[trigger] values@[k])@.len() == old(
                    self,
                ).archetypes@[dst as int].sizes()[k],
        ensures
            final(self).wf(),
            final(self).location(slot) is Some,
            final(self).archetypes@.len() == old(self).archetypes@.len(),
            forall|a: int|
                0 <= a < old(self).archetypes@.len() ==> (#[trigger] final(self).archetypes@[a]).components() == old(self).archetypes@[a].components()
                    && final(self).archetypes@[a].sizes() == old(self).archetypes@[a].sizes(),
            final(self).row_of(slot) == row_map(
                old(self).archetypes@[dst as int].components(),
                views(values@),
            ),
            forall|s: usize|
                s != slot ==> (#[trigger] final(self).location(s) is Some) == (old(
                    self,
                ).location(s) is Some),
            forall|s: usize| s != slot ==> #[trigger] final(self).row_of(s) == old(self).row_of(s),
    {
        let ghost before = *self;
        let row = self.archetypes[dst].len();
        self.archetypes[dst].push_row(slot, values);
        self.locations[slot] = Some(Location { archetype: dst, row });
        proof {
            let now = self.archetypes@[dst as int];
            let was = before.archetypes@[dst as int];
            assert(forall|x: int|
                0 <= x < self.archetypes@.len() && x != dst ==> self.archetypes@[x]
                    == before.archetypes@[x]);
            assert forall|s: int| 0 <= s < self.locations@.len() implies match #[trigger] self.locations@[s] {
                Some(l2) => {
                    &&& l2.archetype < self.archetypes@.len()
                    &&& l2.row < self.archetypes@[l2.archetype as int].slots().len()
                    &&& self.archetypes@[l2.archetype as int].slots()[l2.row as int] == s
                },
                None => true,
            } by {
                if s != slot {
                    assert(self.locations@[s] == before.locations@[s]);
                }
            }
            assert forall|x: int, q: int|
                0 <= x < self.archetypes@.len() && 0 <= q < self.archetypes@[x].slots().len()
                implies {
                let s = #[trigger] self.archetypes@[x].slots()[q];
                &&& s < self.locations@.len()
                &&& self.locations@[s as int] == Some(
                    Location { archetype: x as usize, row: q as usize },
                )
            } by {
                if x != dst || q != row {
                    let s = before.archetypes@[x].slots()[q];
                    assert(before.locations@[s as int] == Some(
                        Location { archetype: x as usize, row: q as usize },
                    ));
                }
            }
            assert forall|s: usize| s != slot implies #[trigger] self.row_of(s) == before.row_of(
                s,
            ) by {
                if s < self.locations@.len() {
                    assert(self.locations@[s as int] == before.locations@[s as int]);
                    match before.locations@[s as int] {
                        Some(l2) => {
                            if l2.archetype == dst {
                                assert(now.row(l2.row as int) == was.row(l2.row as int));
                            }
                        },
                        None => {},
                    }
                }
            }
        }
    }

    /// The tables keep their columns, so they keep the sizes that `reg` records.
    proof fn lemma_sized_kept(&self, before: &Tables, reg: ComponentsView)
        requires
            before.sized(reg),
            self.archetypes@.len() == before.archetypes@.len(),
            forall|a: int|
                0 <= a < before.archetypes@.len() ==> (#[trigger] self.archetypes@[a]).components()
                    == before.archetypes@[a].components() && self.archetypes@[a].sizes()
                    == before.archetypes@[a].sizes(),
        ensures
            self.sized(reg),
    {
        assert forall|a: int, k: int|
            0 <= a < self.archetypes@.len() && 0 <= k < self.archetypes@[a].components().len()
            implies {
            let c = #[trigger] self.archetypes@[a].components()[k];
            &&& c < reg.descriptors.len()
            &&& self.archetypes@[a].sizes()[k] == reg.descriptors[c as int].size
        } by {
            let c = before.archetypes@[a].components()[k];
            assert(before.archetypes@[a].sizes()[k] == reg.descriptors[c as int].size);
        }
    }

    /// Gives the entity in `slot` the value `bytes` for component `c`, and returns the
    /// value that it replaces, if any. An entity that lacked the component moves to the
    /// table of its new set of components, with all its values.
    pub fn insert(&mut self, reg: &Components, slot: usize, c: usize, bytes: &[u8]) -> (r: Option<
        Vec<u8>,
    >)
        requires
            old(self).inv(reg@),
            reg.inv(),
            c < reg@.descriptors.len(),
            bytes@.len() == reg@.descriptors[c as int].size,
        ensures
            final(self).inv(reg@),
            final(self).has_row(slot),
            final(self).row_of(slot) == old(self).row_of(slot).insert(c, bytes@),
            forall|s: usize| s != slot ==> #[trigger] final(self).has_row(s) == old(self).has_row(s),
            forall|s: usize| s != slot ==> #[trigger] final(self).row_of(s) == old(self).row_of(s),
            r is Some <==> old(self).row_of(slot).contains_key(c),
            r is Some ==> r.unwrap()@ == old(self).row_of(slot)[c],
    {
        self.ensure_slot(slot);
        let ghost start = *self;
        match self.locations[slot] {
            Some(loc) => {
                let ghost arch = start.archetypes@[loc.archetype as int];
                let ghost comps = arch.components();
                let ghost vals = arch.row(loc.row as int);
                proof {
                    assert(start.locations@[slot as int] == Some(loc));
                    arch.lemma_shape();
                }
                let (pos, found) = self.archetypes[loc.archetype].position(c);
                if found {
                    proof {
                        lemma_row_map_update(comps, vals, pos as int, bytes@);
                        assert(arch.sizes()[pos as int] == reg@.descriptors[c as int].size);
                    }
                    let prev = self.archetypes[loc.archetype].replace(pos, loc.row, bytes);
                    proof {
                        self.lemma_sized_kept(&start, reg@);
                        let now = self.archetypes@[loc.archetype as int];
                        assert(forall|x: int|
                            0 <= x < self.archetypes@.len() && x != loc.archetype
                                ==> self.archetypes@[x] == start.archetypes@[x]);
                        assert forall|x: int, q: int|
                            0 <= x < self.archetypes@.len() && 0 <= q
                                < self.archetypes@[x].slots().len() implies {
                            let s = #[trigger] self.archetypes@[x].slots()[q];
                            &&& s < self.locations@.len()
                            &&& self.locations@[s as int] == Some(
                                Location { archetype: x as usize, row: q as usize },
                            )
                        } by {
                            let s = start.archetypes@[x].slots()[q];
                            assert(start.locations@[s as int] == Some(
                                Location { archetype: x as usize, row: q as usize },
                            ));
                        }
                        assert forall|s: usize| s != slot implies #[trigger] self.row_of(s)
                            == start.row_of(s) by {
                            if s < self.locations@.len() {
                                match start.locations@[s as int] {
                                    Some(l2) => {
                                        if l2.archetype == loc.archetype {
                                            assert(arch.slots()[l2.row as int] == s);
                                            assert(arch.slots()[loc.row as int] == slot);
                                            assert(now.row(l2.row as int) == arch.row(
                                                l2.row as int,
                                            ));
                                        }
                                    },
                                    None => {},
                                }
                            }
                        }
                    }
                    Some(prev)
                } else {
                    let mut target = slice_to_vec(self.archetypes[loc.archetype].list());
                    target.insert(pos, c);
                    let mut values = self.detach(slot);
                    assert(views(values@) == vals);
                    assert(values@.len() == views(values@).len());
                    values.insert(pos, slice_to_vec(bytes));
                    proof {
                        lemma_row_map_insert(comps, vals, pos as int, c, bytes@);
                        self.lemma_sized_kept(&start, reg@);
                        assert(views(values@) =~= vals.insert(pos as int, bytes@));
                        assert forall|k: int| 0 <= k < target@.len() implies target@[k]
                            < reg@.descriptors.len() by {
                            if k < pos {
                                assert(target@[k] == comps[k]);
                            } else if k > pos {
                                assert(target@[k] == comps[k - 1]);
                            }
                        }
                    }
                    let dst = self.find_or_create(reg, target);
                    proof {
                        let to = self.archetypes@[dst as int];
                        assert forall|k: int| 0 <= k < values@.len() implies (
                        #[trigger] values@[k])@.len() == to.sizes()[k] by {
                            assert(to.sizes()[k] == reg@.descriptors[to.components()[k] as int].size);
                            assert(views(values@)[k] == values@[k]@);
                            if k < pos {
                                assert(to.components()[k] == comps[k]);
                                assert(vals[k].len() == arch.sizes()[k]);
                            } else if k > pos {
                                assert(to.components()[k] == comps[k - 1]);
                                assert(vals[k - 1].len() == arch.sizes()[k - 1]);
                            }
                        }
                    }
                    let ghost found_at = *self;
                    self.place(slot, dst, &values);
                    proof {
                        self.lemma_sized_kept(&found_at, reg@);
                    }
                    None
                }
            },
            None => {
                let mut target: Vec<usize> = Vec::new();
                target.push(c);
                let mut values: Vec<Vec<u8>> = Vec::new();
                values.push(slice_to_vec(bytes));
                proof {
                    lemma_row_map_insert(
                        Seq::<usize>::empty(),
                        Seq::<Seq<u8>>::empty(),
                        0,
                        c,
                        bytes@,
                    );
                    assert(target@ =~= Seq::<usize>::empty().insert(0, c));
                    assert(views(values@) =~= Seq::<Seq<u8>>::empty().insert(0, bytes@));
                    assert(row_map(Seq::<usize>::empty(), Seq::<Seq<u8>>::empty())
                        =~= Map::<usize, Seq<u8>>::empty());
                }
                let dst = self.find_or_create(reg, target);
                proof {
                    let to = self.archetypes@[dst as int];
                    assert(to.sizes()[0] == reg@.descriptors[to.components()[0] as int].size);
                }
                let ghost found_at = *self;
                self.place(slot, dst, &values);
                proof {
                    self.lemma_sized_kept(&found_at, reg@);
                }
                None
            },
        }
    }

    /// Takes component `c` from the entity in `slot` and returns the value, if the
    /// entity had one. The entity moves to the table of its remaining components, with
    /// their values; with none remaining it has no row.
    pub fn remove(&mut self, reg: &Components, slot: usize, c: usize) -> (r: Option<Vec<u8>>)
        requires
            old(self).inv(reg@),
            reg.inv(),
        ensures
            final(self).inv(reg@),
            final(self).has_row(slot) ==> old(self).has_row(slot),
            final(self).row_of(slot) == old(self).row_of(slot).remove(c),
            forall|s: usize| s != slot ==> #[trigger] final(self).has_row(s) == old(self).has_row(s),
            forall|s: usize| s != slot ==> #[trigger] final(self).row_of(s) == old(self).row_of(s),
            r is Some <==> old(self).row_of(slot).contains_key(c),
            r is Some ==> r.unwrap()@ == old(self).row_of(slot)[c],
    {
        if slot >= self.locations.len() {
            assert(self.row_of(slot).remove(c) =~= self.row_of(slot));
            return None;
        }
        let ghost start = *self;
        match self.locations[slot] {
            Some(loc) => {
                let ghost arch = start.archetypes@[loc.archetype as int];
                let ghost comps = arch.components();
                let ghost vals = arch.row(loc.row as int);
                proof {
                    assert(start.locations@[slot as int] == Some(loc));
                    arch.lemma_shape();
                }
                let (pos, found) = self.archetypes[loc.archetype].position(c);
                if !found {
                    assert(self.row_of(slot).remove(c) =~= self.row_of(slot));
                    return None;
                }
                let mut target = slice_to_vec(self.archetypes[loc.archetype].list());
                target.remove(pos);
                let mut values = self.detach(slot);
                let ghost whole = values@;
                assert(views(whole) == vals);
                assert(whole.len() == views(whole).len());
                let taken = values.remove(pos);
                proof {
                    lemma_row_map_remove(comps, vals, pos as int);
                    self.lemma_sized_kept(&start, reg@);
                    assert(views(values@) =~= vals.remove(pos as int));
                    assert(views(whole)[pos as int] == whole[pos as int]@);
                }
                if target.len() == 0 {
                    proof {
                        assert(row_map(target@, views(values@)) =~= Map::<usize, Seq<u8>>::empty());
                    }
                    return Some(taken);
                }
                proof {
                    assert forall|k: int| 0 <= k < target@.len() implies target@[k]
                        < reg@.descriptors.len() by {
                        if k < pos {
                            assert(target@[k] == comps[k]);
                        } else {
                            assert(target@[k] == comps[k + 1]);
                        }
                    }
                }
                let dst = self.find_or_create(reg, target);
                proof {
                    let to = self.archetypes@[dst as int];
                    assert forall|k: int| 0 <= k < values@.len() implies (#[trigger] values@[k])@.len()
                        == to.sizes()[k] by {
                        assert(to.sizes()[k] == reg@.descriptors[to.components()[k] as int].size);
                        assert(views(values@)[k] == values@[k]@);
                        if k < pos {
                            assert(to.components()[k] == comps[k]);
                            assert(vals[k].len() == arch.sizes()[k]);
                        } else {
                            assert(to.components()[k] == comps[k + 1]);
                            assert(vals[k + 1].len() == arch.sizes()[k + 1]);
                        }
                    }
                }
                let ghost found_at = *self;
                self.place(slot, dst, &values);
                proof {
                    self.lemma_sized_kept(&found_at, reg@);
                }
                Some(taken)
            },
            None => {
                assert(self.row_of(slot).remove(c) =~= self.row_of(slot));
                None
            },
        }
    }

    /// Takes the row of the entity in `slot` away, with all its values.
    pub fn remove_row(&mut self, reg: &Components, slot: usize)
        requires
            old(self).inv(reg@),
        ensures
            final(self).inv(reg@),
            !final(self).has_row(slot),
            final(self).row_of(slot) == Map::<usize, Seq<u8>>::empty(),
            forall|s: usize| s != slot ==> #[trigger] final(self).has_row(s) == old(self).has_row(s),
            forall|s: usize| s != slot ==> #[trigger] final(self).row_of(s) == old(self).row_of(s),
    {
        if slot < self.locations.len() {
            match self.locations[slot] {
                Some(_) => {
                    let ghost start = *self;
                    let _ = self.detach(slot);
                    proof {
                        self.lemma_sized_kept(&start, reg@);
                    }
                },
                None => {},
            }
        }
    }
}

} // verus!
