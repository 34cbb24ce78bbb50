//! The world: entities, the registry of component types, and the values that entities
//! hold for components.
//!
//! Every operation is stated over [`WorldView`], the world as a mathematical value. An
//! entity or a component that is not there is no error: the operation reports it and
//! changes nothing.
//!
//! A value that leaves the world, because it is removed or replaced or because its entity
//! is despawned, is moved to the queue of dropped values together with the destructor
//! capability of its component. Each value enters the queue once, at the moment it leaves
//! the storage. The embedding program takes the queue and runs the destructors.

use crate::component::{
    ComponentDescriptor,
    ComponentId,
    Components,
    ComponentsView,
    DescriptorView,
    DropFn,
    StorageType,
};
use crate::entity::{Entities, EntitiesView, Entity};
use crate::sparse_set::SparseSets;
use crate::tables::Tables;
use vstd::prelude::*;
use vstd::slice::slice_to_vec;

verus! {

/// A dropped value as a mathematical value.
pub struct DroppedView {
    pub entity: Entity,
    pub component: ComponentId,
    pub drop_fn: DropFn,
    pub bytes: Seq<u8>,
}

/// A value that has left the world and is owed its destructor.
#[derive(Debug)]
pub struct Dropped {
    /// The entity that held the value.
    pub entity: Entity,
    /// The component of the value.
    pub component: ComponentId,
    /// What is owed to the value.
    pub drop_fn: DropFn,
    /// The value.
    pub bytes: Vec<u8>,
}

impl View for Dropped {
    type V = DroppedView;

    open spec fn view(&self) -> DroppedView {
        DroppedView {
            entity: self.entity,
            component: self.component,
            drop_fn: self.drop_fn,
            bytes: self.bytes@,
        }
    }
}

/// The contents of a queue of dropped values.
pub open spec fn dropped_views(queue: Seq<Dropped>) -> Seq<DroppedView> {
    Seq::new(queue.len(), |i: int| queue[i]@)
}

/// The contents of an optional byte slice.
pub open spec fn opt_view(r: Option<&[u8]>) -> Option<Seq<u8>> {
    match r {
        Some(s) => Some(s@),
        None => None,
    }
}

/// The world as a mathematical value.
pub struct WorldView {
    /// The state of the entity allocator.
    pub entities: EntitiesView,
    /// The registered component types.
    pub components: ComponentsView,
    /// The stored values, by entity slot and component index.
    pub values: Map<(usize, usize), Seq<u8>>,
    /// The values that have left the world and were not taken yet, oldest first.
    pub dropped: Seq<DroppedView>,
}

impl WorldView {
    /// The world with no entity, no component type and no value.
    pub open spec fn empty() -> WorldView {
        WorldView {
            entities: EntitiesView::empty(),
            components: ComponentsView { descriptors: Seq::empty() },
            values: Map::empty(),
            dropped: Seq::empty(),
        }
    }

    /// Well-formedness: only live entities hold values, only for registered components,
    /// and every value has the size registered for its component.
    pub open spec fn inv(self) -> bool {
        &&& self.entities.inv()
        &&& self.components.len() <= usize::MAX
        &&& forall|s: usize, c: usize| #[trigger]
            self.values.contains_key((s, c)) ==> {
                &&& s < self.entities.len()
                &&& self.entities.alive[s as int]
                &&& c < self.components.len()
                &&& self.values[(s, c)].len() == self.components.descriptors[c as int].size
            }
    }

    /// Whether `e` names a live entity.
    pub open spec fn is_alive(self, e: Entity) -> bool {
        self.entities.is_alive(e)
    }

    /// The value that `e` holds for `c`: none if `e` is not alive or holds no such
    /// value.
    pub open spec fn get(self, e: Entity, c: ComponentId) -> Option<Seq<u8>> {
        if self.entities.is_alive(e) && self.values.contains_key((e.index, c.index)) {
            Some(self.values[(e.index, c.index)])
        } else {
            None
        }
    }

    /// Whether `v` can be stored as the value of `e` for `c`: `e` is alive, `c` is
    /// registered, and `v` has the registered size.
    pub open spec fn accepts(self, e: Entity, c: ComponentId, v: Seq<u8>) -> bool {
        &&& self.entities.is_alive(e)
        &&& self.components.contains(c)
        &&& v.len() == self.components.get(c).size
    }

    /// The record of the value of `e` for the component at index `c` leaving the world.
    pub open spec fn drop_of(self, e: Entity, c: usize) -> DroppedView {
        DroppedView {
            entity: e,
            component: ComponentId { index: c },
            drop_fn: self.components.descriptors[c as int].drop_fn,
            bytes: self.values[(e.index, c)],
        }
    }

    /// The world after a spawn.
    pub open spec fn spawn(self) -> WorldView {
        WorldView {
            entities: self.entities.spawn(),
            components: self.components,
            values: self.values,
            dropped: self.dropped,
        }
    }

    /// The world after the dynamic registration of `d`.
    pub open spec fn register_dynamic(self, d: DescriptorView) -> WorldView {
        WorldView {
            entities: self.entities,
            components: self.components.register_dynamic(d),
            values: self.values,
            dropped: self.dropped,
        }
    }

    /// The world after the static registration of `d`.
    pub open spec fn register_static(self, d: DescriptorView) -> WorldView {
        WorldView {
            entities: self.entities,
            components: self.components.register_static(d),
            values: self.values,
            dropped: self.dropped,
        }
    }

    /// The world after `insert(e, c, v)`. Where the value is not accepted, nothing
    /// changes. Otherwise `v` is the value of `e` for `c`, and the value that it replaces,
    /// if any, is dropped.
    pub open spec fn insert(self, e: Entity, c: ComponentId, v: Seq<u8>) -> WorldView {
        if !self.accepts(e, c, v) {
            self
        } else {
            WorldView {
                entities: self.entities,
                components: self.components,
                values: self.values.insert((e.index, c.index), v),
                dropped: if self.values.contains_key((e.index, c.index)) {
                    self.dropped.push(self.drop_of(e, c.index))
                } else {
                    self.dropped
                },
            }
        }
    }

    /// The world after `remove(e, c)`. Where `e` holds no value for `c`, nothing
    /// changes. Otherwise the value is dropped.
    pub open spec fn remove(self, e: Entity, c: ComponentId) -> WorldView {
        if self.get(e, c) is Some {
            WorldView {
                entities: self.entities,
                components: self.components,
                values: self.values.remove((e.index, c.index)),
                dropped: self.dropped.push(self.drop_of(e, c.index)),
            }
        } else {
            self
        }
    }

    /// The records of the values that `e` holds for the components below index `n`, in
    /// ascending order of component.
    pub open spec fn drops_upto(self, e: Entity, n: nat) -> Seq<DroppedView>
        decreases n,
    {
        if n == 0 {
            Seq::empty()
        } else {
            let c = (n - 1) as usize;
            if self.values.contains_key((e.index, c)) {
                self.drops_upto(e, (n - 1) as nat).push(self.drop_of(e, c))
            } else {
                self.drops_upto(e, (n - 1) as nat)
            }
        }
    }

    /// The values that remain when the entity in `slot` loses all of its own.
    pub open spec fn values_without(self, slot: usize) -> Map<(usize, usize), Seq<u8>> {
        Map::new(
            |k: (usize, usize)| self.values.contains_key(k) && k.0 != slot,
            |k: (usize, usize)| self.values[k],
        )
    }

    /// The world after `despawn(e)`. Where `e` is not alive, nothing changes. Otherwise
    /// every value of `e` is dropped, in ascending order of component, and `e` is
    /// despawned.
    pub open spec fn despawn(self, e: Entity) -> WorldView {
        if !self.entities.is_alive(e) {
            self
        } else {
            WorldView {
                entities: self.entities.despawn(e),
                components: self.components,
                values: self.values_without(e.index),
                dropped: self.dropped + self.drops_upto(e, self.components.len()),
            }
        }
    }

    /// The world after the value of `e` for `c` was overwritten in place with `v`:
    /// nothing else changes and nothing is dropped.
    pub open spec fn write(self, e: Entity, c: ComponentId, v: Seq<u8>) -> WorldView {
        WorldView {
            entities: self.entities,
            components: self.components,
            values: self.values.insert((e.index, c.index), v),
            dropped: self.dropped,
        }
    }

    /// The world after the queue of dropped values was taken.
    pub open spec fn take_dropped(self) -> WorldView {
        WorldView {
            entities: self.entities,
            components: self.components,
            values: self.values,
            dropped: Seq::empty(),
        }
    }
}

/// The world.
#[derive(Debug)]
pub struct World {
    entities: Entities,
    components: Components,
    tables: Tables,
    sparse_sets: SparseSets,
    dropped: Vec<Dropped>,
}

impl View for World {
    type V = WorldView;

    closed spec fn view(&self) -> WorldView {
        WorldView {
            entities: self.entities@,
            components: self.components@,
            values: Map::new(
                |k: (usize, usize)| self.stored(k.0, k.1) is Some,
                |k: (usize, usize)| self.stored(k.0, k.1).unwrap(),
            ),
            dropped: dropped_views(self.dropped@),
        }
    }
}

impl World {
    /// The value stored for the entity in `slot` and the component at index `c`: in the
    /// tables or in the sparse sets, as the storage type of the component says.
    pub closed spec fn stored(&self, slot: usize, c: usize) -> Option<Seq<u8>> {
        if c < self.components@.len() {
            match self.components@.descriptors[c as int].storage_type {
                StorageType::Table => {
                    if self.tables.row_of(slot).contains_key(c) {
                        Some(self.tables.row_of(slot)[c])
                    } else {
                        None
                    }
                },
                StorageType::SparseSet => {
                    if self.sparse_sets.column(c).contains_key(slot) {
                        Some(self.sparse_sets.column(c)[slot])
                    } else {
                        None
                    }
                },
            }
        } else {
            None
        }
    }

    /// Well-formedness of the world.
    pub closed spec fn inv(&self) -> bool {
        &&& self.entities.inv()
        &&& self.components.inv()
        &&& self.tables.inv(self.components@)
        &&& self.sparse_sets.inv(self.components@)
        &&& forall|s: usize| #[trigger]
            self.tables.has_row(s) ==> s < self.entities@.len() && self.entities@.alive[s as int]
        &&& forall|s: usize, c: usize| #[trigger]
            self.sparse_sets.column(c).contains_key(s) ==> s < self.entities@.len()
                && self.entities@.alive[s as int]
    }

    /// A well-formed world has a well-formed view.
    pub proof fn lemma_view(&self)
        requires
            self.inv(),
        ensures
            self@.inv(),
    {
        self.components.lemma_inv();
        assert forall|s: usize, c: usize| #[trigger] self@.values.contains_key((s, c)) implies {
            &&& s < self@.entities.len()
            &&& self@.entities.alive[s as int]
            &&& c < self@.components.len()
            &&& self@.values[(s, c)].len() == self@.components.descriptors[c as int].size
        } by {
            assert(self.stored(s, c) is Some);
            self.tables.lemma_row(self.components@, s);
            self.sparse_sets.lemma_column(self.components@, c);
            if self.tables.row_of(s).contains_key(c) {
                assert(self.tables.has_row(s));
            }
        }
    }

    /// The world with no entity, no component type and no value.
    pub fn new() -> (w: World)
        ensures
            w.inv(),
            w@ == WorldView::empty(),
    {
        let w = World {
            entities: Entities::new(),
            components: Components::new(),
            tables: Tables::new(),
            sparse_sets: SparseSets::new(),
            dropped: Vec::new(),
        };
        proof {
            assert(w@.values =~= Map::<(usize, usize), Seq<u8>>::empty());
            assert(w@.dropped =~= Seq::<DroppedView>::empty());
            assert(w@.components.descriptors =~= Seq::<DescriptorView>::empty());
        }
        w
    }

    /// The registry of component types.
    pub fn components(&self) -> (r: &Components)
        requires
            self.inv(),
        ensures
            r.inv(),
            r@ == self@.components,
    {
        &self.components
    }

    /// The entity allocator.
    pub fn entities(&self) -> (r: &Entities)
        requires
            self.inv(),
        ensures
            r.inv(),
            r@ == self@.entities,
    {
        &self.entities
    }

    /// Whether `e` names a live entity.
    pub fn is_alive(&self, e: Entity) -> (r: bool)
        requires
            self.inv(),
        ensures
            r == self@.is_alive(e),
    {
        self.entities.is_alive(e)
    }

    /// The stored values do not depend on registrations that come later.
    proof fn lemma_registered(&self, before: &World)
        requires
            before.inv(),
            self.entities == before.entities,
            self.tables == before.tables,
            self.sparse_sets == before.sparse_sets,
            self.dropped == before.dropped,
            self.components.inv(),
            before.components@.is_prefix_of(self.components@),
        ensures
            self.inv(),
            self@.values == before@.values,
            self@.dropped == before@.dropped,
    {
        self.tables.lemma_registry_grows(before.components@, self.components@);
        self.sparse_sets.lemma_registry_grows(before.components@, self.components@);
        assert forall|k: (usize, usize)| self.stored(k.0, k.1) == before.stored(k.0, k.1) by {
            before.tables.lemma_row(before.components@, k.0);
            before.sparse_sets.lemma_column(before.components@, k.1);
            if k.1 < before.components@.len() {
                assert(self.components@.descriptors[k.1 as int]
                    == before.components@.descriptors[k.1 as int]);
            }
        }
        assert(self@.values =~= before@.values);
    }

    /// Registers `descriptor` as a new component type and returns its id, which no
    /// earlier registration has.
    pub fn init_component_dynamic(&mut self, descriptor: ComponentDescriptor) -> (id: ComponentId)
        requires
            old(self).inv(),
            descriptor.inv(),
        ensures
            final(self).inv(),
            final(self)@ == old(self)@.register_dynamic(descriptor@),
            id == old(self)@.components.next_id(),
            id != ComponentId::invalid_spec(),
            final(self)@.components.contains(id),
            final(self)@.components.get(id) == descriptor@,
    {
        let ghost before = *self;
        let id = self.components.register_dynamic(descriptor);
        proof {
            self.lemma_registered(&before);
        }
        id
    }

    /// Registers the program type that `descriptor` describes, unless it is registered
    /// already, and returns its id.
    pub fn init_component_static(&mut self, descriptor: ComponentDescriptor) -> (id: ComponentId)
        requires
            old(self).inv(),
            descriptor.inv(),
        ensures
            final(self).inv(),
            final(self)@ == old(self)@.register_static(descriptor@),
            id == old(self)@.components.static_id(descriptor@),
            id != ComponentId::invalid_spec(),
            final(self)@.components.contains(id),
    {
        let ghost before = *self;
        let id = self.components.register_static(descriptor);
        proof {
            self.lemma_registered(&before);
        }
        id
    }

    /// Spawns an entity, which holds no value.
    pub fn spawn(&mut self) -> (e: Entity)
        requires
            old(self).inv(),
        ensures
            final(self).inv(),
            final(self)@ == old(self)@.spawn(),
            e == old(self)@.entities.spawned(),
            final(self)@.is_alive(e),
            !old(self)@.is_alive(e),
            forall|c: ComponentId| #[trigger] final(self)@.get(e, c) is None,
    {
        let ghost before = *self;
        proof {
            before.lemma_view();
        }
        let e = self.entities.spawn();
        proof {
            assert(self@.values =~= before@.values);
            assert forall|c: ComponentId| #[trigger] self@.get(e, c) is None by {
                if before@.values.contains_key((e.index, c.index)) {
                    assert(before@.entities.alive[e.index as int]);
                }
            }
        }
        e
    }

    /// The value that `e` holds for `c`, if `e` is alive and holds one.
    pub fn get(&self, e: Entity, c: ComponentId) -> (r: Option<&[u8]>)
        requires
            self.inv(),
        ensures
            opt_view(r) == self@.get(e, c),
    {
        if !self.entities.is_alive(e) {
            return None;
        }
        match self.components.get_info(c) {
            Some(info) => {
                match info.storage_type() {
                    StorageType::Table => self.tables.get(e.index, c.index),
                    StorageType::SparseSet => self.sparse_sets.get(
                        &self.components,
                        e.index,
                        c.index,
                    ),
                }
            },
            None => None,
        }
    }

    /// Whether this world is `before` with the value of `e` for `c` replaced by `m`.
    pub closed spec fn written(&self, before: &World, e: Entity, c: ComponentId, m: Seq<u8>) -> bool {
        &&& self.entities == before.entities
        &&& self.components == before.components
        &&& self.dropped == before.dropped
        &&& match before.components@.descriptors[c.index as int].storage_type {
            StorageType::Table => self.sparse_sets == before.sparse_sets && self.tables.written(
                &before.tables,
                e.index,
                c.index,
                m,
            ),
            StorageType::SparseSet => self.tables == before.tables && self.sparse_sets.written(
                &before.sparse_sets,
                e.index,
                c.index,
                m,
            ),
        }
    }

    /// What the world is after the value of `e` for `c` was written in place: the value
    /// has changed, nothing else has, and nothing was dropped.
    pub proof fn lemma_written(&self, before: &World, e: Entity, c: ComponentId, m: Seq<u8>)
        requires
            before.inv(),
            before@.get(e, c) is Some,
            self.written(before, e, c, m),
        ensures
            self.inv(),
            self@ == before@.write(e, c, m),
    {
        assert(before.stored(e.index, c.index) is Some);
        match before.components@.descriptors[c.index as int].storage_type {
            StorageType::Table => {
                self.tables.lemma_written(
                    &before.tables,
                    before.components@,
                    e.index,
                    c.index,
                    m,
                );
            },
            StorageType::SparseSet => {
                self.sparse_sets.lemma_written(
                    &before.sparse_sets,
                    before.components@,
                    e.index,
                    c.index,
                    m,
                );
            },
        }
        assert forall|k: (usize, usize)| self.stored(k.0, k.1) == (if k == (e.index, c.index) {
            Some(m)
        } else {
            before.stored(k.0, k.1)
        }) by {}
        assert(self@.values =~= before@.values.insert((e.index, c.index), m));
        assert forall|s: usize, x: usize| #[trigger]
            self.sparse_sets.column(x).contains_key(s) implies s < self.entities@.len()
            && self.entities@.alive[s as int] by {
            if x == c.index && s == e.index {
            } else {
                assert(before.sparse_sets.column(x).contains_key(s));
            }
        }
        assert forall|s: usize| #[trigger] self.tables.has_row(s) implies s
            < self.entities@.len() && self.entities@.alive[s as int] by {
            assert(before.tables.has_row(s));
        }
    }

    /// The value that `e` holds for `c`, if `e` is alive and holds one, for writing in
    /// place. Nothing but the bytes of that value can change through the slice, and
    /// nothing is dropped. What the world is afterwards is stated for a slice that still
    /// has its length, as every mutable slice has.
    pub fn get_mut(&mut self, e: Entity, c: ComponentId) -> (r: Option<&mut [u8]>)
        requires
            old(self).inv(),
        ensures
            r is Some <==> old(self)@.get(e, c) is Some,
            r is Some ==> Some(r.unwrap()@) == old(self)@.get(e, c),
            r is None ==> *final(self) == *old(self),
            r is Some && final(r.unwrap())@.len() == r.unwrap()@.len() ==> final(self).written(
                old(self),
                e,
                c,
                final(r.unwrap())@,
            ),
    {
        if !self.entities.is_alive(e) {
            return None;
        }
        let kind = match self.components.get_info(c) {
            Some(info) => info.storage_type(),
            None => {
                return None;
            },
        };
        match kind {
            StorageType::Table => self.tables.get_mut(e.index, c.index),
            StorageType::SparseSet => self.sparse_sets.get_mut(&self.components, e.index, c.index),
        }
    }

    /// Stores `bytes` as the value of `e` for `c`. Returns `false`, and changes nothing,
    /// where `e` is not alive, `c` is not registered, or `bytes` has not the size
    /// registered for `c`. A value that is replaced is dropped.
    pub fn insert(&mut self, e: Entity, c: ComponentId, bytes: &[u8]) -> (ok: bool)
        requires
            old(self).inv(),
        ensures
            final(self).inv(),
            ok == old(self)@.accepts(e, c, bytes@),
            final(self)@ == old(self)@.insert(e, c, bytes@),
            ok ==> final(self)@.get(e, c) == Some(bytes@),
    {
        if !self.entities.is_alive(e) {
            return false;
        }
        let (kind, drop_fn, size) = match self.components.get_info(c) {
            Some(info) => (info.storage_type(), info.drop_fn(), info.layout().size()),
            None => {
                return false;
            },
        };
        if bytes.len() != size {
            return false;
        }
        let ghost before = *self;
        let replaced = match kind {
            StorageType::Table => self.tables.insert(&self.components, e.index, c.index, bytes),
            StorageType::SparseSet => self.sparse_sets.insert(
                &self.components,
                e.index,
                c.index,
                bytes,
            ),
        };
        match replaced {
            Some(bytes) => {
                self.dropped.push(Dropped { entity: e, component: c, drop_fn, bytes });
            },
            None => {},
        }
        proof {
            assert forall|k: (usize, usize)| self.stored(k.0, k.1) == (if k == (e.index, c.index) {
                Some(bytes@)
            } else {
                before.stored(k.0, k.1)
            }) by {}
            assert(self@.values =~= before@.values.insert((e.index, c.index), bytes@));
            assert(before.stored(e.index, c.index) is Some <==> before@.values.contains_key(
                (e.index, c.index),
            ));
            assert(self@.dropped =~= before@.insert(e, c, bytes@).dropped);
            assert(c == ComponentId { index: c.index });
        }
        true
    }

    /// Takes the value that `e` holds for `c` out of the world. Returns `false`, and
    /// changes nothing, where `e` is not alive or holds no value for `c`. The value is
    /// dropped.
    pub fn remove(&mut self, e: Entity, c: ComponentId) -> (ok: bool)
        requires
            old(self).inv(),
        ensures
            final(self).inv(),
            ok == (old(self)@.get(e, c) is Some),
            final(self)@ == old(self)@.remove(e, c),
            final(self)@.get(e, c) is None,
    {
        if !self.entities.is_alive(e) {
            return false;
        }
        let (kind, drop_fn) = match self.components.get_info(c) {
            Some(info) => (info.storage_type(), info.drop_fn()),
            None => {
                return false;
            },
        };
        let ghost before = *self;
        let removed = match kind {
            StorageType::Table => self.tables.remove(&self.components, e.index, c.index),
            StorageType::SparseSet => self.sparse_sets.remove(&self.components, e.index, c.index),
        };
        let ok = match removed {
            Some(bytes) => {
                self.dropped.push(Dropped { entity: e, component: c, drop_fn, bytes });
                true
            },
            None => false,
        };
        proof {
            assert forall|k: (usize, usize)| self.stored(k.0, k.1) == (if k == (e.index, c.index) {
                None
            } else {
                before.stored(k.0, k.1)
            }) by {}
            assert(c == ComponentId { index: c.index });
            if ok {
                assert(self@.values =~= before@.values.remove((e.index, c.index)));
                assert(self@.dropped =~= before@.remove(e, c).dropped);
            } else {
                assert(self@.values =~= before@.values);
                assert(self@.dropped =~= before@.dropped);
            }
        }
        ok
    }

    /// Despawns `e`. Returns `false`, and changes nothing, where `e` is not alive.
    /// Otherwise every value that `e` holds is dropped first, in ascending order of
    /// component, and then the identity `e` is ended for good.
    pub fn despawn(&mut self, e: Entity) -> (ok: bool)
        requires
            old(self).inv(),
        ensures
            final(self).inv(),
            ok == old(self)@.is_alive(e),
            final(self)@ == old(self)@.despawn(e),
            !final(self)@.is_alive(e),
            forall|c: ComponentId| #[trigger] final(self)@.get(e, c) is None,
    {
        if !self.entities.is_alive(e) {
            return false;
        }
        let ghost before = *self;
        let slot = e.index;
        let n = self.components.len();
        let mut c: usize = 0;
        while c < n
            invariant
                c <= n,
                n == self.components@.len(),
                before.inv(),
                self.inv(),
                before@.is_alive(e),
                slot == e.index,
                self.entities == before.entities,
                self.components == before.components,
                self.tables == before.tables,
                forall|x: usize|
                    #![trigger self.sparse_sets.column(x)]
                    self.sparse_sets.column(x) == (if x < c {
                        before.sparse_sets.column(x).remove(slot)
                    } else {
                        before.sparse_sets.column(x)
                    }),
                dropped_views(self.dropped@) == before@.dropped + before@.drops_upto(e, c as nat),
            decreases n - c,
        {
            let ghost prev = *self;
            let (kind, drop_fn) = match self.components.get_info(ComponentId::new(c)) {
                Some(info) => (info.storage_type(), info.drop_fn()),
                None => (StorageType::Table, DropFn::Noop),
            };
            let in_table = match kind {
                StorageType::Table => match self.tables.get(slot, c) {
                    Some(v) => Some(slice_to_vec(v)),
                    None => None,
                },
                StorageType::SparseSet => None,
            };
            let in_set = self.sparse_sets.remove(&self.components, slot, c);
            let leaving = match kind {
                StorageType::Table => in_table,
                StorageType::SparseSet => in_set,
            };
            proof {
                assert(prev.sparse_sets.column(c) == before.sparse_sets.column(c));
                assert forall|x: usize|
                    #![trigger self.sparse_sets.column(x)]
                    self.sparse_sets.column(x) == (if x < c + 1 {
                        before.sparse_sets.column(x).remove(slot)
                    } else {
                        before.sparse_sets.column(x)
                    }) by {
                    if x != c {
                        assert(self.sparse_sets.column(x) == prev.sparse_sets.column(x));
                    }
                }
                assert forall|s: usize, x: usize| #[trigger]
                    self.sparse_sets.column(x).contains_key(s) implies s < self.entities@.len()
                    && self.entities@.alive[s as int] by {
                    assert(before.sparse_sets.column(x).contains_key(s));
                }
                assert(before.stored(slot, c) is Some <==> before@.values.contains_key((slot, c)));
                assert(opt_seq(leaving) == before.stored(slot, c));
            }
            match leaving {
                Some(bytes) => {
                    self.dropped.push(
                        Dropped { entity: e, component: ComponentId::new(c), drop_fn, bytes },
                    );
                    proof {
                        assert(dropped_views(self.dropped@) =~= dropped_views(prev.dropped@).push(
                            before@.drop_of(e, c),
                        ));
                        assert(before@.drops_upto(e, (c + 1) as nat) == before@.drops_upto(
                            e,
                            c as nat,
                        ).push(before@.drop_of(e, c)));
                    }
                },
                None => {
                    proof {
                        assert(before@.drops_upto(e, (c + 1) as nat) == before@.drops_upto(
                            e,
                            c as nat,
                        ));
                    }
                },
            }
            c = c + 1;
        }
        let ghost emptied = *self;
        self.tables.remove_row(&self.components, slot);
        self.entities.despawn(e);
        proof {
            assert forall|s: usize| #[trigger] self.tables.has_row(s) implies s
                < self.entities@.len() && self.entities@.alive[s as int] by {
                assert(before.tables.has_row(s));
            }
            assert forall|s: usize, x: usize| #[trigger]
                self.sparse_sets.column(x).contains_key(s) implies s < self.entities@.len()
                && self.entities@.alive[s as int] by {
                before.sparse_sets.lemma_column(before.components@, x);
                assert(before.sparse_sets.column(x).contains_key(s));
            }
            assert forall|k: (usize, usize)| self.stored(k.0, k.1) == (if k.0 == slot {
                None
            } else {
                before.stored(k.0, k.1)
            }) by {
                assert(self.sparse_sets.column(k.1) == before.sparse_sets.column(k.1).remove(slot)
                    || self.sparse_sets.column(k.1) == before.sparse_sets.column(k.1));
            }
            assert(self@.values =~= before@.values_without(slot));
        }
        true
    }

    /// Takes the queue of dropped values, oldest first, and leaves it empty.
    pub fn take_dropped(&mut self) -> (out: Vec<Dropped>)
        requires
            old(self).inv(),
        ensures
            final(self).inv(),
            final(self)@ == old(self)@.take_dropped(),
            dropped_views(out@) == old(self)@.dropped,
    {
        let ghost before = *self;
        let mut out: Vec<Dropped> = Vec::new();
        core::mem::swap(&mut self.dropped, &mut out);
        proof {
            assert(self@.values =~= before@.values);
            assert(self@.dropped =~= Seq::<DroppedView>::empty());
        }
        out
    }

    /// A view of the live entity `e`, through which its values are read; none where `e`
    /// is not alive.
    pub fn get_entity(&self, e: Entity) -> (r: Option<EntityRef<'_>>)
        requires
            self.inv(),
        ensures
            r is Some <==> self@.is_alive(e),
            r is Some ==> r.unwrap().inv() && r.unwrap().world_view() == self@
                && r.unwrap().entity() == e,
    {
        if self.entities.is_alive(e) {
            Some(EntityRef { world: self, entity: e })
        } else {
            None
        }
    }
}

impl World {
    /// A view of the live entity `e`, through which its values are read and written;
    /// none where `e` is not alive. The world is what the view leaves behind.
    pub fn get_entity_mut(&mut self, e: Entity) -> (r: Option<EntityMut<'_>>)
        requires
            old(self).inv(),
        ensures
            r is Some <==> old(self)@.is_alive(e),
            r is Some ==> r.unwrap().inv() && *r.unwrap().world == *old(self)
                && r.unwrap().entity == e,
            r is Some ==> *final(self) == *final(r.unwrap().world),
            r is None ==> *final(self) == *old(self),
    {
        if self.entities.is_alive(e) {
            Some(EntityMut { world: self, entity: e })
        } else {
            None
        }
    }
}

/// A live entity of a world, for reading and writing.
pub struct EntityMut<'w> {
    /// The world of the entity.
    pub world: &'w mut World,
    /// The identity of the entity.
    pub entity: Entity,
}

impl<'w> EntityMut<'w> {
    /// Well-formedness: the world is well-formed and the entity is alive in it.
    pub open spec fn inv(&self) -> bool {
        self.world.inv() && self.world@.is_alive(self.entity)
    }

    /// The world of the entity as a mathematical value.
    pub open spec fn world_view(&self) -> WorldView {
        self.world@
    }

    /// The identity of the entity.
    pub fn id(&self) -> (e: Entity)
        ensures
            e == self.entity,
    {
        self.entity
    }

    /// The value that the entity holds for `c`, if any.
    pub fn get_dynamic(&self, c: ComponentId) -> (r: Option<&[u8]>)
        requires
            self.inv(),
        ensures
            opt_view(r) == self.world_view().get(self.entity, c),
    {
        self.world.get(self.entity, c)
    }

    /// The value that the entity holds for `c`, if any, for writing in place.
    pub fn get_mut_dynamic(&mut self, c: ComponentId) -> (r: Option<&mut [u8]>)
        requires
            old(self).inv(),
        ensures
            final(self).entity == old(self).entity,
            *final(final(self).world) == *final(old(self).world),
            r is Some <==> old(self).world@.get(old(self).entity, c) is Some,
            r is Some ==> Some(r.unwrap()@) == old(self).world@.get(old(self).entity, c),
            r is None ==> *final(self).world == *old(self).world,
            r is Some && final(r.unwrap())@.len() == r.unwrap()@.len() ==> final(self).world.written(old(self).world, old(self).entity, c, final(r.unwrap())@),
    {
        self.world.get_mut(self.entity, c)
    }

    /// Stores `bytes` as the value of the entity for `c`, as [`World::insert`] does.
    pub fn insert_dynamic(&mut self, c: ComponentId, bytes: &[u8]) -> (ok: bool)
        requires
            old(self).inv(),
        ensures
            final(self).inv(),
            final(self).entity == old(self).entity,
            *final(final(self).world) == *final(old(self).world),
            ok == old(self).world@.accepts(old(self).entity, c, bytes@),
            final(self).world@ == old(self).world@.insert(old(self).entity, c, bytes@),
    {
        self.world.insert(self.entity, c, bytes)
    }

    /// Takes the value that the entity holds for `c` out of the world, as
    /// [`World::remove`] does.
    pub fn remove_dynamic(&mut self, c: ComponentId) -> (ok: bool)
        requires
            old(self).inv(),
        ensures
            final(self).inv(),
            final(self).entity == old(self).entity,
            *final(final(self).world) == *final(old(self).world),
            ok == (old(self).world@.get(old(self).entity, c) is Some),
            final(self).world@ == old(self).world@.remove(old(self).entity, c),
    {
        self.world.remove(self.entity, c)
    }
}

/// The contents of an optional byte vector.
pub open spec fn opt_seq(r: Option<Vec<u8>>) -> Option<Seq<u8>> {
    match r {
        Some(v) => Some(v@),
        None => None,
    }
}

/// A live entity of a world, for reading.
pub struct EntityRef<'w> {
    world: &'w World,
    entity: Entity,
}

impl<'w> EntityRef<'w> {
    /// Well-formedness: the world is well-formed and the entity is alive in it.
    pub closed spec fn inv(&self) -> bool {
        self.world.inv() && self.world@.is_alive(self.entity)
    }

    /// The world of the entity.
    pub closed spec fn world_view(&self) -> WorldView {
        self.world@
    }

    /// The identity of the entity.
    pub closed spec fn entity(&self) -> Entity {
        self.entity
    }

    /// The identity of the entity.
    pub fn id(&self) -> (e: Entity)
        ensures
            e == self.entity(),
    {
        self.entity
    }

    /// Whether the entity holds a value for `c`.
    pub fn contains_id(&self, c: ComponentId) -> (r: bool)
        requires
            self.inv(),
        ensures
            r == (self.world_view().get(self.entity(), c) is Some),
    {
        match self.world.get(self.entity, c) {
            Some(_) => true,
            None => false,
        }
    }

    /// The value that the entity holds for `c`, if any.
    pub fn get_dynamic(&self, c: ComponentId) -> (r: Option<&'w [u8]>)
        requires
            self.inv(),
        ensures
            opt_view(r) == self.world_view().get(self.entity(), c),
    {
        self.world.get(self.entity, c)
    }
}

} // verus!
