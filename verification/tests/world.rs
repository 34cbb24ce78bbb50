use bevy_world::component::{
    ComponentDescriptor, ComponentId, Components, DropFn, Layout, StorageType,
};
use bevy_world::entity::{Entities, Entity};
use bevy_world::world::World;

fn descriptor(name: &str, kind: StorageType, size: usize, align: usize) -> ComponentDescriptor {
    ComponentDescriptor::new_dynamic(
        name.to_string(),
        kind,
        true,
        None,
        Layout::from_size_align(size, align).unwrap(),
        DropFn::Noop,
    )
}

fn position_bytes(x: f32, y: f32, z: f32) -> Vec<u8> {
    let mut out = Vec::new();
    out.extend_from_slice(&x.to_ne_bytes());
    out.extend_from_slice(&y.to_ne_bytes());
    out.extend_from_slice(&z.to_ne_bytes());
    out
}

#[test]
fn position_scenario() {
    let mut world = World::new();
    let position = world.init_component_dynamic(descriptor("Position", StorageType::Table, 12, 4));
    let e0 = world.spawn();
    let value = position_bytes(1.0, 2.0, 3.0);
    assert!(world.insert(e0, position, &value));
    assert_eq!(world.get(e0, position), Some(&value[..]));
    assert!(world.despawn(e0));
    assert_eq!(world.get(e0, position), None);
    assert!(!world.is_alive(e0));
}

#[test]
fn get_on_dead_entity_is_none() {
    let mut world = World::new();
    let c = world.init_component_dynamic(descriptor("A", StorageType::Table, 1, 1));
    let dead = Entity::new(7, 0);
    assert_eq!(world.get(dead, c), None);
    let e = world.spawn();
    world.insert(e, c, &[5]);
    world.despawn(e);
    assert_eq!(world.get(e, c), None);
    assert!(world.get_mut(e, c).is_none());
    assert!(!world.insert(e, c, &[6]));
    assert!(!world.remove(e, c));
    assert!(!world.despawn(e));
}

#[test]
fn spawn_reuses_the_slot_despawned_last_with_a_later_generation() {
    let mut entities = Entities::new();
    let a = entities.spawn();
    let b = entities.spawn();
    let c = entities.spawn();
    assert_eq!(a, Entity::new(0, 0));
    assert_eq!(b, Entity::new(1, 0));
    assert_eq!(c, Entity::new(2, 0));
    assert_eq!(entities.len(), 3);
    assert!(entities.despawn(a));
    assert!(entities.despawn(c));
    assert!(!entities.despawn(a));
    assert!(!entities.is_alive(a));
    assert!(!entities.is_alive(c));
    assert!(entities.is_alive(b));
    let d = entities.spawn();
    assert_eq!(d, Entity::new(2, 1));
    let e = entities.spawn();
    assert_eq!(e, Entity::new(0, 1));
    let f = entities.spawn();
    assert_eq!(f, Entity::new(3, 0));
    assert!(!entities.is_alive(a));
    assert!(!entities.is_alive(c));
    assert!(entities.is_alive(d));
    assert!(entities.is_alive(e));
    assert!(!entities.is_alive(Entity::new(9, 0)));
    assert!(!entities.despawn(Entity::new(9, 0)));
    assert!(!entities.is_alive(Entity::new(0, 2)));
}

#[test]
fn a_slot_at_the_last_generation_is_taken_out_of_use() {
    let mut entities = Entities::new();
    let mut e = entities.spawn();
    let mut rounds: u32 = 0;
    while rounds < 3 {
        assert!(entities.despawn(e));
        let next = entities.spawn();
        assert_eq!(next.index, e.index);
        assert_eq!(next.generation, e.generation + 1);
        assert!(!entities.is_alive(e));
        e = next;
        rounds += 1;
    }
    assert_eq!(e, Entity::new(0, 3));
}

#[test]
fn dynamic_registrations_get_new_ids_and_static_ones_are_recognised() {
    let mut components = Components::new();
    let a = components.register_dynamic(descriptor("Same", StorageType::Table, 4, 4));
    let b = components.register_dynamic(descriptor("Same", StorageType::Table, 4, 4));
    assert_ne!(a, b);
    assert_eq!(a, ComponentId::new(0));
    assert_eq!(b, ComponentId::new(1));
    let keyed = |key: u64| {
        ComponentDescriptor::new_dynamic(
            "Keyed".to_string(),
            StorageType::SparseSet,
            false,
            Some(key),
            Layout::from_size_align(8, 8).unwrap(),
            DropFn::Callback(3),
        )
    };
    let s1 = components.register_static(keyed(77));
    let s2 = components.register_static(keyed(77));
    let s3 = components.register_static(keyed(78));
    assert_eq!(s1, s2);
    assert_eq!(s1, ComponentId::new(2));
    assert_eq!(s3, ComponentId::new(3));
    assert_eq!(components.len(), 4);
    assert_eq!(components.get_id_by_name("Same"), Some(a));
    assert_eq!(components.get_id_by_name("Keyed"), Some(s1));
    assert_eq!(components.get_id_by_name("Nonexistent"), None);
    assert_eq!(components.get_id_by_key(78), Some(s3));
    assert_eq!(components.get_id_by_key(79), None);
    let info = components.get_info(s1).unwrap();
    assert_eq!(info.name(), "Keyed");
    assert_eq!(info.storage_type(), StorageType::SparseSet);
    assert!(!info.is_send_and_sync());
    assert_eq!(info.type_key(), Some(77));
    assert_eq!(info.layout().size(), 8);
    assert_eq!(info.layout().align(), 8);
    assert_eq!(info.drop_fn(), DropFn::Callback(3));
    assert!(components.get_info(ComponentId::new(4)).is_none());
    assert!(components.get_info(ComponentId::invalid()).is_none());
}

#[test]
fn layouts_are_validated() {
    assert!(Layout::from_size_align(12, 4).is_some());
    assert!(Layout::from_size_align(0, 1).is_some());
    assert!(Layout::from_size_align(12, 0).is_none());
    assert!(Layout::from_size_align(12, 3).is_none());
    assert!(Layout::from_size_align(12, 6).is_none());
    assert!(Layout::from_size_align(usize::MAX, 1).is_none());
    assert!(Layout::from_size_align(isize::MAX as usize, 1).is_some());
    assert!(Layout::from_size_align(isize::MAX as usize, 2).is_none());
    assert!(Layout::from_size_align(isize::MAX as usize - 1, 2).is_some());
    let l = Layout::from_size_align(24, 8).unwrap();
    assert_eq!(l.size(), 24);
    assert_eq!(l.align(), 8);
    assert!(bevy_world::component::is_power_of_two(1));
    assert!(bevy_world::component::is_power_of_two(4096));
    assert!(!bevy_world::component::is_power_of_two(0));
    assert!(!bevy_world::component::is_power_of_two(12));
}

#[test]
fn insert_then_get_for_every_storage_kind() {
    let mut world = World::new();
    let table = world.init_component_dynamic(descriptor("T", StorageType::Table, 3, 1));
    let sparse = world.init_component_dynamic(descriptor("S", StorageType::SparseSet, 2, 1));
    let zero = world.init_component_dynamic(descriptor("Z", StorageType::Table, 0, 1));
    let e = world.spawn();
    assert!(world.insert(e, table, &[1, 2, 3]));
    assert!(world.insert(e, sparse, &[4, 5]));
    assert!(world.insert(e, zero, &[]));
    assert_eq!(world.get(e, table), Some(&[1u8, 2, 3][..]));
    assert_eq!(world.get(e, sparse), Some(&[4u8, 5][..]));
    assert_eq!(world.get(e, zero), Some(&[][..]));
    assert!(!world.insert(e, table, &[1, 2]));
    assert!(!world.insert(e, sparse, &[1, 2, 3]));
    assert!(!world.insert(e, ComponentId::new(9), &[1]));
    assert!(!world.insert(e, ComponentId::invalid(), &[]));
    assert_eq!(world.get(e, ComponentId::new(9)), None);
    assert_eq!(world.get(e, table), Some(&[1u8, 2, 3][..]));
    assert!(world.take_dropped().is_empty());
}

#[test]
fn replacing_a_value_drops_the_old_one() {
    let mut world = World::new();
    let mut d = descriptor("T", StorageType::Table, 2, 2);
    d = ComponentDescriptor::new_dynamic(
        d.name().to_string(),
        d.storage_type(),
        d.is_send_and_sync(),
        None,
        d.layout(),
        DropFn::Callback(11),
    );
    let c = world.init_component_dynamic(d);
    let e = world.spawn();
    assert!(world.insert(e, c, &[1, 1]));
    assert!(world.insert(e, c, &[2, 2]));
    assert_eq!(world.get(e, c), Some(&[2u8, 2][..]));
    let dropped = world.take_dropped();
    assert_eq!(dropped.len(), 1);
    assert_eq!(dropped[0].entity, e);
    assert_eq!(dropped[0].component, c);
    assert_eq!(dropped[0].drop_fn, DropFn::Callback(11));
    assert_eq!(dropped[0].bytes, vec![1, 1]);
    assert!(world.take_dropped().is_empty());
}

#[test]
fn remove_drops_once_and_the_value_is_gone() {
    for kind in [StorageType::Table, StorageType::SparseSet] {
        let mut world = World::new();
        let c = world.init_component_dynamic(descriptor("C", kind, 2, 1));
        let other = world.init_component_dynamic(descriptor("O", kind, 1, 1));
        let e = world.spawn();
        let f = world.spawn();
        world.insert(e, c, &[7, 8]);
        world.insert(e, other, &[9]);
        world.insert(f, c, &[1, 2]);
        assert!(world.remove(e, c));
        assert_eq!(world.get(e, c), None);
        assert!(world.get_mut(e, c).is_none());
        assert_eq!(world.get(e, other), Some(&[9u8][..]));
        assert_eq!(world.get(f, c), Some(&[1u8, 2][..]));
        assert!(!world.remove(e, c));
        let dropped = world.take_dropped();
        assert_eq!(dropped.len(), 1);
        assert_eq!(dropped[0].entity, e);
        assert_eq!(dropped[0].component, c);
        assert_eq!(dropped[0].bytes, vec![7, 8]);
    }
}

#[test]
fn despawn_drops_each_value_once() {
    let mut world = World::new();
    let a = world.init_component_dynamic(descriptor("A", StorageType::Table, 1, 1));
    let b = world.init_component_dynamic(descriptor("B", StorageType::SparseSet, 2, 1));
    let c = world.init_component_dynamic(descriptor("C", StorageType::Table, 3, 1));
    let unused = world.init_component_dynamic(descriptor("U", StorageType::Table, 1, 1));
    let e = world.spawn();
    let keep = world.spawn();
    world.insert(e, c, &[3, 3, 3]);
    world.insert(e, a, &[1]);
    world.insert(e, b, &[2, 2]);
    world.insert(keep, a, &[10]);
    world.insert(keep, b, &[20, 20]);
    assert!(world.despawn(e));
    let dropped = world.take_dropped();
    assert_eq!(dropped.len(), 3);
    assert_eq!(dropped[0].component, a);
    assert_eq!(dropped[0].bytes, vec![1]);
    assert_eq!(dropped[1].component, b);
    assert_eq!(dropped[1].bytes, vec![2, 2]);
    assert_eq!(dropped[2].component, c);
    assert_eq!(dropped[2].bytes, vec![3, 3, 3]);
    for d in &dropped {
        assert_eq!(d.entity, e);
    }
    assert_eq!(world.get(e, a), None);
    assert_eq!(world.get(e, b), None);
    assert_eq!(world.get(e, c), None);
    assert_eq!(world.get(e, unused), None);
    assert_eq!(world.get(keep, a), Some(&[10u8][..]));
    assert_eq!(world.get(keep, b), Some(&[20u8, 20][..]));
    assert!(!world.despawn(e));
    assert!(world.take_dropped().is_empty());
    let again = world.spawn();
    assert_eq!(again, Entity::new(e.index, e.generation + 1));
    assert_eq!(world.get(again, a), None);
    assert_eq!(world.get(again, b), None);
    assert_eq!(world.get(e, a), None);
}

#[test]
fn a_row_keeps_its_values_when_it_moves_between_tables() {
    let mut world = World::new();
    let a = world.init_component_dynamic(descriptor("A", StorageType::Table, 2, 1));
    let b = world.init_component_dynamic(descriptor("B", StorageType::Table, 4, 4));
    let e = world.spawn();
    assert!(world.insert(e, a, &[1, 2]));
    assert!(world.insert(e, b, &[9, 8, 7, 6]));
    assert!(world.remove(e, a));
    assert_eq!(world.get(e, b), Some(&[9u8, 8, 7, 6][..]));
    assert_eq!(world.get(e, a), None);
}

#[test]
fn rows_of_other_entities_survive_moves_and_removals() {
    let mut world = World::new();
    let a = world.init_component_dynamic(descriptor("A", StorageType::Table, 2, 1));
    let b = world.init_component_dynamic(descriptor("B", StorageType::Table, 1, 1));
    let c = world.init_component_dynamic(descriptor("C", StorageType::Table, 3, 1));
    let mut entities = Vec::new();
    let mut i: u8 = 0;
    while i < 6 {
        let e = world.spawn();
        assert!(world.insert(e, a, &[i, i + 100]));
        entities.push(e);
        i += 1;
    }
    // Inserted out of order: the columns are kept in order of component id.
    assert!(world.insert(entities[1], c, &[1, 1, 1]));
    assert!(world.insert(entities[1], b, &[11]));
    assert!(world.insert(entities[4], b, &[44]));
    assert!(world.insert(entities[0], c, &[0, 0, 0]));
    assert!(world.remove(entities[2], a));
    assert!(world.despawn(entities[3]));
    assert!(world.remove(entities[1], c));
    let expect_a: [Option<[u8; 2]>; 6] =
        [Some([0, 100]), Some([1, 101]), None, None, Some([4, 104]), Some([5, 105])];
    let expect_b: [Option<[u8; 1]>; 6] = [None, Some([11]), None, None, Some([44]), None];
    let expect_c: [Option<[u8; 3]>; 6] = [Some([0, 0, 0]), None, None, None, None, None];
    let mut k = 0;
    while k < 6 {
        assert_eq!(world.get(entities[k], a), expect_a[k].as_ref().map(|v| &v[..]));
        assert_eq!(world.get(entities[k], b), expect_b[k].as_ref().map(|v| &v[..]));
        assert_eq!(world.get(entities[k], c), expect_c[k].as_ref().map(|v| &v[..]));
        k += 1;
    }
    assert!(world.is_alive(entities[2]));
    assert!(!world.is_alive(entities[3]));
}

#[test]
fn sparse_values_stay_when_table_rows_move() {
    let mut world = World::new();
    let t1 = world.init_component_dynamic(descriptor("T1", StorageType::Table, 1, 1));
    let s = world.init_component_dynamic(descriptor("S", StorageType::SparseSet, 2, 2));
    let t2 = world.init_component_dynamic(descriptor("T2", StorageType::Table, 1, 1));
    let e = world.spawn();
    let f = world.spawn();
    let g = world.spawn();
    for (i, x) in [e, f, g].iter().enumerate() {
        assert!(world.insert(*x, s, &[i as u8, 50]));
        assert!(world.insert(*x, t1, &[i as u8]));
    }
    assert!(world.insert(f, t2, &[77]));
    assert!(world.remove(e, s));
    assert!(world.remove(f, t1));
    assert_eq!(world.get(e, s), None);
    assert_eq!(world.get(f, s), Some(&[1u8, 50][..]));
    assert_eq!(world.get(g, s), Some(&[2u8, 50][..]));
    assert_eq!(world.get(f, t2), Some(&[77u8][..]));
    assert_eq!(world.get(f, t1), None);
    assert_eq!(world.get(g, t1), Some(&[2u8][..]));
}

#[test]
fn values_are_written_in_place_through_get_mut() {
    for kind in [StorageType::Table, StorageType::SparseSet] {
        let mut world = World::new();
        let c = world.init_component_dynamic(descriptor("C", kind, 3, 1));
        let e = world.spawn();
        let f = world.spawn();
        world.insert(e, c, &[1, 2, 3]);
        world.insert(f, c, &[4, 5, 6]);
        {
            let slice = world.get_mut(f, c).unwrap();
            assert_eq!(slice.len(), 3);
            slice[1] = 50;
        }
        assert_eq!(world.get(e, c), Some(&[1u8, 2, 3][..]));
        assert_eq!(world.get(f, c), Some(&[4u8, 50, 6][..]));
        assert!(world.get_mut(e, ComponentId::new(5)).is_none());
        assert!(world.take_dropped().is_empty());
    }
}

#[test]
fn entity_views_read_and_write_one_entity() {
    let mut world = World::new();
    let c = world.init_component_dynamic(descriptor("C", StorageType::Table, 1, 1));
    let e = world.spawn();
    assert!(world.get_entity(Entity::new(3, 0)).is_none());
    assert!(world.get_entity_mut(Entity::new(3, 0)).is_none());
    {
        let mut view = world.get_entity_mut(e).unwrap();
        assert_eq!(view.id(), e);
        assert!(view.insert_dynamic(c, &[8]));
        assert_eq!(view.get_dynamic(c), Some(&[8u8][..]));
        view.get_mut_dynamic(c).unwrap()[0] = 9;
    }
    {
        let view = world.get_entity(e).unwrap();
        assert_eq!(view.id(), e);
        assert!(view.contains_id(c));
        assert_eq!(view.get_dynamic(c), Some(&[9u8][..]));
        assert_eq!(view.get_dynamic(ComponentId::new(1)), None);
    }
    {
        let mut view = world.get_entity_mut(e).unwrap();
        assert!(view.remove_dynamic(c));
        assert!(!view.remove_dynamic(c));
    }
    assert!(!world.get_entity(e).unwrap().contains_id(c));
}

#[test]
fn the_registry_and_the_allocator_are_reached_through_the_world() {
    let mut world = World::new();
    let key = ComponentDescriptor::new_dynamic(
        "K".to_string(),
        StorageType::Table,
        true,
        Some(5),
        Layout::from_size_align(1, 1).unwrap(),
        DropFn::Noop,
    );
    let a = world.init_component_static(key.clone());
    let b = world.init_component_static(key);
    assert_eq!(a, b);
    assert!(a.is_valid());
    assert!(!ComponentId::invalid().is_valid());
    assert_eq!(a.index(), 0);
    assert_eq!(world.components().len(), 1);
    let e = world.spawn();
    assert_eq!(e.index(), 0);
    assert_eq!(e.generation(), 0);
    assert!(world.entities().is_alive(e));
    assert_eq!(world.entities().len(), 1);
}
