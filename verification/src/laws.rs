//! What holds of every world, stated over [`WorldView`] and proved.

use crate::component::{ComponentId, DescriptorView};
use crate::entity::{Entity, EntityOp};
use crate::world::{DroppedView, WorldView};
use vstd::prelude::*;

verus! {

/// The number of records in `d` for the component at index `c`.
pub open spec fn count_component(d: Seq<DroppedView>, c: usize) -> nat
    decreases d.len(),
{
    if d.len() == 0 {
        0
    } else {
        count_component(d.drop_last(), c) + if d.last().component.index == c {
            1nat
        } else {
            0nat
        }
    }
}

/// The records that `despawn(e)` adds to the queue of dropped values.
pub open spec fn despawn_drops(w: WorldView, e: Entity) -> Seq<DroppedView> {
    w.despawn(e).dropped.skip(w.dropped.len() as int)
}

/// Every operation keeps the world well-formed.
pub proof fn lemma_operations_keep_inv(w: WorldView, e: Entity, c: ComponentId, v: Seq<u8>)
    requires
        w.inv(),
    ensures
        w.spawn().inv(),
        w.insert(e, c, v).inv(),
        w.remove(e, c).inv(),
        w.despawn(e).inv(),
        w.take_dropped().inv(),
{
    w.entities.lemma_apply(EntityOp::Spawn);
    w.entities.lemma_apply(EntityOp::Despawn(e));
    let s = w.spawn();
    assert forall|x: usize, y: usize| #[trigger] s.values.contains_key((x, y)) implies x
        < s.entities.len() && s.entities.alive[x as int] by {
        assert(w.values.contains_key((x, y)));
    }
    let d = w.despawn(e);
    assert forall|x: usize, y: usize| #[trigger] d.values.contains_key((x, y)) implies x
        < d.entities.len() && d.entities.alive[x as int] && y < d.components.len()
        && d.values[(x, y)].len() == d.components.descriptors[y as int].size by {
        assert(w.values.contains_key((x, y)));
    }
    let i = w.insert(e, c, v);
    assert forall|x: usize, y: usize| #[trigger] i.values.contains_key((x, y)) implies x
        < i.entities.len() && i.entities.alive[x as int] && y < i.components.len()
        && i.values[(x, y)].len() == i.components.descriptors[y as int].size by {
        if (x, y) != (e.index, c.index) {
            assert(w.values.contains_key((x, y)));
        }
    }
    let r = w.remove(e, c);
    assert forall|x: usize, y: usize| #[trigger] r.values.contains_key((x, y)) implies x
        < r.entities.len() && r.entities.alive[x as int] && y < r.components.len()
        && r.values[(x, y)].len() == r.components.descriptors[y as int].size by {
        assert(w.values.contains_key((x, y)));
    }
}

/// After `insert(e, c, v)` the value of `e` for `c` is `v`, whatever the storage type of
/// `c`, and no other value has changed.
pub proof fn lemma_insert_then_get(w: WorldView, e: Entity, c: ComponentId, v: Seq<u8>)
    requires
        w.inv(),
        w.accepts(e, c, v),
    ensures
        w.insert(e, c, v).get(e, c) == Some(v),
        forall|e2: Entity, c2: ComponentId|
            (e2.index != e.index || c2 != c) ==> #[trigger] w.insert(e, c, v).get(e2, c2) == w.get(
                e2,
                c2,
            ),
{
}

/// Removing a value drops it once: the queue of dropped values grows by the one record
/// of that value, the value is gone, and a second removal finds nothing to drop.
pub proof fn lemma_remove_drops_once(w: WorldView, e: Entity, c: ComponentId)
    requires
        w.inv(),
        w.get(e, c) is Some,
    ensures
        w.remove(e, c).get(e, c) is None,
        w.remove(e, c).dropped == w.dropped.push(w.drop_of(e, c.index)),
        w.drop_of(e, c.index).bytes == w.get(e, c).unwrap(),
        w.drop_of(e, c.index).component == c,
        w.remove(e, c).remove(e, c) == w.remove(e, c),
        forall|e2: Entity, c2: ComponentId|
            (e2.index != e.index || c2 != c) ==> #[trigger] w.remove(e, c).get(e2, c2) == w.get(
                e2,
                c2,
            ),
{
}

/// The records of the values of `e` for the components below `n`: one for each value
/// that `e` holds, none for a component that `e` does not hold.
pub proof fn lemma_drops_upto(w: WorldView, e: Entity, n: nat, c: usize)
    requires
        n <= usize::MAX,
    ensures
        count_component(w.drops_upto(e, n), c) == (if c < n && w.values.contains_key(
            (e.index, c),
        ) {
            1nat
        } else {
            0nat
        }),
        forall|i: int|
            0 <= i < w.drops_upto(e, n).len() ==> {
                let r = #[trigger] w.drops_upto(e, n)[i];
                &&& r.component.index < n
                &&& w.values.contains_key((e.index, r.component.index))
                &&& r == w.drop_of(e, r.component.index)
            },
    decreases n,
{
    if n > 0 {
        let prev = w.drops_upto(e, (n - 1) as nat);
        lemma_drops_upto(w, e, (n - 1) as nat, c);
        let last = (n - 1) as usize;
        if w.values.contains_key((e.index, last)) {
            assert(w.drops_upto(e, n) == prev.push(w.drop_of(e, last)));
            assert(prev.push(w.drop_of(e, last)).drop_last() =~= prev);
        }
    }
}

/// Despawning an entity drops each of its values once: for every component the queue
/// of dropped values gains one record if the entity held a value for it, and none
/// otherwise. Each record holds the value that was stored. Afterwards the entity is not
/// alive and holds no value, and the values of other entities are as they were.
pub proof fn lemma_despawn_drops_each_once(w: WorldView, e: Entity, c: ComponentId)
    requires
        w.inv(),
        w.is_alive(e),
    ensures
        count_component(despawn_drops(w, e), c.index) == (if w.get(e, c) is Some {
            1nat
        } else {
            0nat
        }),
        forall|i: int|
            0 <= i < despawn_drops(w, e).len() ==> {
                let r = #[trigger] despawn_drops(w, e)[i];
                &&& r.entity == e
                &&& w.get(e, r.component) == Some(r.bytes)
            },
        !w.despawn(e).is_alive(e),
        w.despawn(e).get(e, c) is None,
        forall|s: usize| s != e.index ==> (#[trigger] w.despawn(e).values.contains_key((s, c.index)))
            == w.values.contains_key((s, c.index)),
        forall|s: usize|
            s != e.index && w.values.contains_key((s, c.index)) ==> #[trigger] w.despawn(
                e,
            ).values[(s, c.index)] == w.values[(s, c.index)],
{
    let n = w.components.len();
    lemma_drops_upto(w, e, n, c.index);
    assert(despawn_drops(w, e) =~= w.drops_upto(e, n));
    assert forall|i: int| 0 <= i < despawn_drops(w, e).len() implies {
        let r = #[trigger] despawn_drops(w, e)[i];
        &&& r.entity == e
        &&& w.get(e, r.component) == Some(r.bytes)
    } by {
        let r = w.drops_upto(e, n)[i];
        assert(r.component == ComponentId { index: r.component.index });
    }
}

/// A row that moves between tables keeps its values: after inserting a value for `a`,
/// then one for `b`, then removing the value for `a`, the value for `b` is the one
/// that was inserted.
pub proof fn lemma_migration_round_trip(
    w: WorldView,
    e: Entity,
    a: ComponentId,
    b: ComponentId,
    va: Seq<u8>,
    vb: Seq<u8>,
)
    requires
        w.inv(),
        a != b,
        w.accepts(e, a, va),
        w.accepts(e, b, vb),
    ensures
        w.insert(e, a, va).insert(e, b, vb).remove(e, a).get(e, b) == Some(vb),
        w.insert(e, a, va).insert(e, b, vb).remove(e, a).get(e, a) is None,
{
}

/// One step in the history of a world.
pub enum WorldOp {
    Spawn,
    Despawn(Entity),
    Insert(Entity, ComponentId, Seq<u8>),
    Remove(Entity, ComponentId),
    RegisterDynamic(DescriptorView),
    RegisterStatic(DescriptorView),
    TakeDropped,
}

/// The world after one step.
pub open spec fn apply(w: WorldView, op: WorldOp) -> WorldView {
    match op {
        WorldOp::Spawn => w.spawn(),
        WorldOp::Despawn(e) => w.despawn(e),
        WorldOp::Insert(e, c, v) => w.insert(e, c, v),
        WorldOp::Remove(e, c) => w.remove(e, c),
        WorldOp::RegisterDynamic(d) => w.register_dynamic(d),
        WorldOp::RegisterStatic(d) => w.register_static(d),
        WorldOp::TakeDropped => w.take_dropped(),
    }
}

/// The world after the steps of `ops`, first to last.
pub open spec fn run(w: WorldView, ops: Seq<WorldOp>) -> WorldView
    decreases ops.len(),
{
    if ops.len() == 0 {
        w
    } else {
        apply(run(w, ops.drop_last()), ops.last())
    }
}

/// A step keeps the world well-formed, keeps every registration under its id, and keeps
/// every expired identity expired.
pub proof fn lemma_apply(w: WorldView, op: WorldOp)
    requires
        w.inv(),
    ensures
        apply(w, op).inv(),
        w.components.is_prefix_of(apply(w, op).components),
        forall|e: Entity| w.entities.is_expired(e) ==> #[trigger] apply(w, op).entities.is_expired(
            e,
        ),
{
    let next = apply(w, op);
    match op {
        WorldOp::Spawn => {
            w.entities.lemma_apply(EntityOp::Spawn);
            lemma_operations_keep_inv(w, arbitrary(), arbitrary(), arbitrary());
        },
        WorldOp::Despawn(e) => {
            w.entities.lemma_apply(EntityOp::Despawn(e));
            lemma_operations_keep_inv(w, e, arbitrary(), arbitrary());
        },
        WorldOp::Insert(e, c, v) => {
            lemma_operations_keep_inv(w, e, c, v);
        },
        WorldOp::Remove(e, c) => {
            lemma_operations_keep_inv(w, e, c, arbitrary());
        },
        WorldOp::RegisterDynamic(d) => {
            assert forall|x: usize, y: usize| #[trigger]
                next.values.contains_key((x, y)) implies y < next.components.len()
                && next.values[(x, y)].len() == next.components.descriptors[y as int].size by {
                assert(w.values.contains_key((x, y)));
            }
        },
        WorldOp::RegisterStatic(d) => {
            assert forall|x: usize, y: usize| #[trigger]
                next.values.contains_key((x, y)) implies y < next.components.len()
                && next.values[(x, y)].len() == next.components.descriptors[y as int].size by {
                assert(w.values.contains_key((x, y)));
            }
        },
        WorldOp::TakeDropped => {},
    }
}

/// A run of steps keeps the world well-formed, keeps every registration under its id,
/// and keeps every expired identity expired.
pub proof fn lemma_run(w: WorldView, ops: Seq<WorldOp>)
    requires
        w.inv(),
    ensures
        run(w, ops).inv(),
        w.components.is_prefix_of(run(w, ops).components),
        forall|e: Entity| w.entities.is_expired(e) ==> #[trigger] run(w, ops).entities.is_expired(
            e,
        ),
    decreases ops.len(),
{
    if ops.len() > 0 {
        let before = run(w, ops.drop_last());
        lemma_run(w, ops.drop_last());
        lemma_apply(before, ops.last());
        assert forall|e: Entity| w.entities.is_expired(e) implies #[trigger] run(
            w,
            ops,
        ).entities.is_expired(e) by {
            assert(before.entities.is_expired(e));
            assert(apply(before, ops.last()).entities.is_expired(e));
        }
    }
}

/// A despawned entity never returns: after `despawn(e)` and whatever steps follow, `e`
/// is not alive and holds no value, and a spawn into the slot of `e` issues a strictly
/// greater generation.
pub proof fn lemma_despawned_stays_dead(w: WorldView, e: Entity, ops: Seq<WorldOp>, c: ComponentId)
    requires
        w.inv(),
        w.is_alive(e),
    ensures
        !run(w.despawn(e), ops).is_alive(e),
        run(w.despawn(e), ops).get(e, c) is None,
        run(w.despawn(e), ops).entities.spawned().index == e.index ==> run(
            w.despawn(e),
            ops,
        ).entities.spawned().generation > e.generation,
{
    let d = w.despawn(e);
    w.entities.lemma_despawn_expires(e);
    lemma_operations_keep_inv(w, e, c, arbitrary());
    lemma_run(d, ops);
    run(d, ops).entities.lemma_expired(e);
}

} // verus!
