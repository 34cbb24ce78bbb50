//! Entity identities and the allocator that issues and recycles them.
//!
//! An identity names a slot and the generation of that slot it was issued for. A slot's
//! generation grows each time its entity is despawned, so an identity kept by a caller
//! after the despawn never names the slot's next occupant.

use vstd::prelude::*;

verus! {

/// The identity of one record of the world.
#[derive(Clone, Copy, Debug, PartialEq, Eq, Structural, Hash)]
pub struct Entity {
    /// The slot the entity occupies.
    pub index: usize,
    /// The generation of the slot at the time the identity was issued.
    pub generation: u32,
}

impl Entity {
    /// The identity made of the given slot and generation.
    pub fn new(index: usize, generation: u32) -> (e: Entity)
        ensures
            e.index == index,
            e.generation == generation,
    {
        Entity { index, generation }
    }

    /// The slot of this identity.
    pub fn index(&self) -> (i: usize)
        ensures
            i == self.index,
    {
        self.index
    }

    /// The generation of this identity.
    pub fn generation(&self) -> (g: u32)
        ensures
            g == self.generation,
    {
        self.generation
    }
}

/// One step in the history of an allocator.
pub enum EntityOp {
    /// A spawn.
    Spawn,
    /// A despawn of the given identity, which may be stale.
    Despawn(Entity),
}

/// The state of an allocator as a mathematical value.
pub struct EntitiesView {
    /// The current generation of each slot.
    pub generations: Seq<u32>,
    /// Whether each slot holds a live entity.
    pub alive: Seq<bool>,
    /// The slots waiting for reuse; the last one is reused first.
    pub free: Seq<usize>,
}

impl EntitiesView {
    /// The allocator that has issued nothing.
    pub open spec fn empty() -> EntitiesView {
        EntitiesView { generations: Seq::empty(), alive: Seq::empty(), free: Seq::empty() }
    }

    /// Well-formedness: the free list names each waiting slot once, and none that is alive.
    pub open spec fn inv(self) -> bool {
        &&& self.generations.len() == self.alive.len()
        &&& self.generations.len() <= usize::MAX
        &&& forall|k: int|
            0 <= k < self.free.len() ==> (#[trigger] self.free[k]) < self.alive.len()
                && !self.alive[self.free[k] as int]
        &&& forall|j: int, k: int|
            0 <= j < k < self.free.len() ==> #[trigger] self.free[j] != #[trigger] self.free[k]
    }

    /// The number of slots ever created.
    pub open spec fn len(self) -> nat {
        self.generations.len()
    }

    /// Whether `e` names the live occupant of its slot.
    pub open spec fn is_alive(self, e: Entity) -> bool {
        &&& e.index < self.generations.len()
        &&& self.alive[e.index as int]
        &&& self.generations[e.index as int] == e.generation
    }

    /// Whether `e` can never be alive again: its slot has moved on to a later generation,
    /// or was taken out of use at the generation of `e`.
    pub open spec fn is_expired(self, e: Entity) -> bool {
        &&& e.index < self.generations.len()
        &&& {
            ||| e.generation < self.generations[e.index as int]
            ||| {
                &&& e.generation == self.generations[e.index as int]
                &&& !self.alive[e.index as int]
                &&& !self.free.contains(e.index)
            }
        }
    }

    /// Whether a spawn has a slot to give: a waiting one, or room for a new one.
    pub open spec fn can_spawn(self) -> bool {
        self.free.len() > 0 || self.generations.len() < usize::MAX
    }

    /// The identity that the next spawn issues.
    pub open spec fn spawned(self) -> Entity {
        if self.free.len() > 0 {
            Entity {
                index: self.free.last(),
                generation: self.generations[self.free.last() as int],
            }
        } else {
            Entity { index: self.generations.len() as usize, generation: 0 }
        }
    }

    /// The state after a spawn: the slot waiting last is reused, or a new slot is added.
    pub open spec fn spawn(self) -> EntitiesView {
        if self.free.len() > 0 {
            EntitiesView {
                generations: self.generations,
                alive: self.alive.update(self.free.last() as int, true),
                free: self.free.drop_last(),
            }
        } else if self.generations.len() < usize::MAX {
            EntitiesView {
                generations: self.generations.push(0),
                alive: self.alive.push(true),
                free: self.free,
            }
        } else {
            self
        }
    }

    /// The state after a despawn of `e`. A stale identity changes nothing. Otherwise the
    /// slot's generation grows by one and the slot waits for reuse; a slot whose
    /// generation cannot grow is taken out of use for good.
    pub open spec fn despawn(self, e: Entity) -> EntitiesView {
        if !self.is_alive(e) {
            self
        } else if e.generation == u32::MAX {
            EntitiesView {
                generations: self.generations,
                alive: self.alive.update(e.index as int, false),
                free: self.free,
            }
        } else {
            EntitiesView {
                generations: self.generations.update(e.index as int, (e.generation + 1) as u32),
                alive: self.alive.update(e.index as int, false),
                free: self.free.push(e.index),
            }
        }
    }

    /// The state after one step.
    pub open spec fn apply(self, op: EntityOp) -> EntitiesView {
        match op {
            EntityOp::Spawn => self.spawn(),
            EntityOp::Despawn(e) => self.despawn(e),
        }
    }

    /// The state after the steps of `ops`, first to last.
    pub open spec fn run(self, ops: Seq<EntityOp>) -> EntitiesView
        decreases ops.len(),
    {
        if ops.len() == 0 {
            self
        } else {
            self.run(ops.drop_last()).apply(ops.last())
        }
    }

    /// A step keeps the state well-formed and keeps every expired identity expired.
    pub proof fn lemma_apply(self, op: EntityOp)
        requires
            self.inv(),
        ensures
            self.apply(op).inv(),
            forall|e: Entity| self.is_expired(e) ==> #[trigger] self.apply(op).is_expired(e),
    {
        let next = self.apply(op);
        match op {
            EntityOp::Spawn => {
                if self.free.len() > 0 {
                    let s = self.free.last();
                    assert(self.free[self.free.len() - 1] == s);
                    assert forall|e: Entity| self.is_expired(e) implies #[trigger] next.is_expired(
                        e,
                    ) by {
                        if e.index == s {
                            assert(self.free.contains(s));
                        } else if next.free.contains(e.index) {
                            let k = choose|k: int|
                                0 <= k < next.free.len() && next.free[k] == e.index;
                            assert(self.free[k] == e.index);
                        }
                    }
                }
            },
            EntityOp::Despawn(d) => {
                if self.is_alive(d) {
                    assert(!self.free.contains(d.index)) by {
                        if self.free.contains(d.index) {
                            let k = choose|k: int|
                                0 <= k < self.free.len() && self.free[k] == d.index;
                            assert(!self.alive[self.free[k] as int]);
                        }
                    }
                    assert forall|e: Entity| self.is_expired(e) implies #[trigger] next.is_expired(
                        e,
                    ) by {
                        if e.index != d.index && next.free.contains(e.index) {
                            let k = choose|k: int|
                                0 <= k < next.free.len() && next.free[k] == e.index;
                            assert(self.free[k] == e.index);
                        }
                    }
                }
            },
        }
    }

    /// A run of steps keeps the state well-formed and keeps every expired identity expired.
    pub proof fn lemma_run(self, ops: Seq<EntityOp>)
        requires
            self.inv(),
        ensures
            self.run(ops).inv(),
            forall|e: Entity| self.is_expired(e) ==> #[trigger] self.run(ops).is_expired(e),
        decreases ops.len(),
    {
        if ops.len() > 0 {
            let before = self.run(ops.drop_last());
            self.lemma_run(ops.drop_last());
            before.lemma_apply(ops.last());
            assert forall|e: Entity| self.is_expired(e) implies #[trigger] self.run(
                ops,
            ).is_expired(e) by {
                assert(before.is_expired(e));
                assert(before.apply(ops.last()).is_expired(e));
            }
        }
    }

    /// A successful despawn leaves the identity expired.
    pub proof fn lemma_despawn_expires(self, e: Entity)
        requires
            self.inv(),
            self.is_alive(e),
        ensures
            self.despawn(e).is_expired(e),
            self.despawn(e).inv(),
    {
        self.lemma_apply(EntityOp::Despawn(e));
        if self.free.contains(e.index) {
            let k = choose|k: int| 0 <= k < self.free.len() && self.free[k] == e.index;
            assert(!self.alive[self.free[k] as int]);
        }
    }

    /// An expired identity is not alive, and the next spawn issues a later generation
    /// than any identity that has expired in the slot it reuses.
    pub proof fn lemma_expired(self, e: Entity)
        requires
            self.inv(),
            self.is_expired(e),
        ensures
            !self.is_alive(e),
            self.spawned().index == e.index ==> self.spawned().generation > e.generation,
    {
        if self.free.len() > 0 && self.spawned().index == e.index {
            assert(self.free[self.free.len() - 1] == e.index);
            assert(self.free.contains(e.index));
        }
    }

    /// Once despawned, an identity is never alive again, whatever spawns and despawns
    /// follow; and every later spawn into its slot issues a strictly greater generation.
    pub proof fn lemma_despawned_never_returns(self, e: Entity, ops: Seq<EntityOp>)
        requires
            self.inv(),
            self.is_alive(e),
        ensures
            !self.despawn(e).run(ops).is_alive(e),
            ops.len() > 0 && ops.last() == EntityOp::Spawn ==> {
                let before = self.despawn(e).run(ops.drop_last());
                before.spawned().index == e.index ==> before.spawned().generation > e.generation
            },
    {
        let start = self.despawn(e);
        self.lemma_despawn_expires(e);
        start.lemma_run(ops);
        assert(start.run(ops).is_expired(e));
        start.run(ops).lemma_expired(e);
        if ops.len() > 0 {
            start.lemma_run(ops.drop_last());
            let before = start.run(ops.drop_last());
            assert(before.is_expired(e));
            before.lemma_expired(e);
        }
    }
}

/// The allocator of entity identities.
#[derive(Debug)]
pub struct Entities {
    generations: Vec<u32>,
    alive: Vec<bool>,
    free: Vec<usize>,
}

impl View for Entities {
    type V = EntitiesView;

    closed spec fn view(&self) -> EntitiesView {
        EntitiesView { generations: self.generations@, alive: self.alive@, free: self.free@ }
    }
}

impl Entities {
    /// Well-formedness of the allocator.
    pub open spec fn inv(&self) -> bool {
        self@.inv()
    }

    /// An allocator that has issued nothing.
    pub fn new() -> (r: Entities)
        ensures
            r.inv(),
            r@ == EntitiesView::empty(),
    {
        Entities { generations: Vec::new(), alive: Vec::new(), free: Vec::new() }
    }

    /// The number of slots ever created.
    pub fn len(&self) -> (n: usize)
        requires
            self.inv(),
        ensures
            n == self@.len(),
    {
        self.generations.len()
    }

    /// Whether `e` names the live occupant of its slot.
    pub fn is_alive(&self, e: Entity) -> (r: bool)
        requires
            self.inv(),
        ensures
            r == self@.is_alive(e),
    {
        e.index < self.generations.len() && self.alive[e.index] && self.generations[e.index]
            == e.generation
    }

    /// Issues an identity: that of the slot despawned last among those waiting, or of a
    /// new slot at generation zero where none waits.
    pub fn spawn(&mut self) -> (e: Entity)
        requires
            old(self).inv(),
        ensures
            final(self).inv(),
            old(self)@.can_spawn(),
            e == old(self)@.spawned(),
            final(self)@ == old(self)@.spawn(),
            final(self)@.is_alive(e),
            !old(self)@.is_alive(e),
    {
        proof {
            self@.lemma_apply(EntityOp::Spawn);
        }
        match self.free.pop() {
            Some(index) => {
                assert(index == old(self).free@.last());
                assert(self.free@ =~= old(self).free@.drop_last());
                let generation = self.generations[index];
                self.alive[index] = true;
                Entity { index, generation }
            },
            None => {
                let index = self.generations.len();
                self.generations.push(0);
                self.alive.push(true);
                assert(self.generations.len() == index + 1);
                assert(self.free@ =~= old(self).free@);
                Entity { index, generation: 0 }
            },
        }
    }

    /// Ends the life of `e`. Returns `false`, and changes nothing, when `e` is not alive.
    pub fn despawn(&mut self, e: Entity) -> (r: bool)
        requires
            old(self).inv(),
        ensures
            final(self).inv(),
            r == old(self)@.is_alive(e),
            final(self)@ == old(self)@.despawn(e),
            !final(self)@.is_alive(e),
            r ==> final(self)@.is_expired(e),
    {
        proof {
            self@.lemma_apply(EntityOp::Despawn(e));
        }
        if !self.is_alive(e) {
            return false;
        }
        proof {
            self@.lemma_despawn_expires(e);
        }
        self.alive[e.index] = false;
        if e.generation < u32::MAX {
            self.generations[e.index] = e.generation + 1;
            self.free.push(e.index);
        }
        true
    }
}

} // verus!
