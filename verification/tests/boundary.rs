use bevy_world::component::{ComponentId, StorageType};
use bevy_world::ffi::{
    decode_name, get, get_component_id_by_name, get_mut, register_component, spawn_entity,
    world_new,
};

#[test]
fn unknown_name_gives_the_invalid_id() {
    let mut world = world_new();
    assert_eq!(get_component_id_by_name(&world, b"Nonexistent"), ComponentId::invalid());
    let id = register_component(&mut world, b"Position", StorageType::Table, true, 12, 4);
    assert_eq!(id, ComponentId::new(0));
    assert_eq!(get_component_id_by_name(&world, b"Position"), id);
    assert_eq!(get_component_id_by_name(&world, b"Nonexistent"), ComponentId::invalid());
    assert_eq!(get_component_id_by_name(&world, b"position"), ComponentId::invalid());
    assert_eq!(get_component_id_by_name(&world, b""), ComponentId::invalid());
}

#[test]
fn names_that_are_not_utf8_fail_with_the_sentinel() {
    let mut world = world_new();
    let bad: [u8; 3] = [b'a', 0xff, b'b'];
    assert_eq!(
        register_component(&mut world, &bad, StorageType::Table, true, 4, 4),
        ComponentId::invalid()
    );
    assert_eq!(world.components().len(), 0);
    assert_eq!(get_component_id_by_name(&world, &bad), ComponentId::invalid());
    assert_eq!(decode_name(&bad), None);
    assert_eq!(decode_name("h\u{e9}llo".as_bytes()), Some("h\u{e9}llo"));
    // An overlong encoding and a lone surrogate are not UTF-8.
    assert_eq!(decode_name(&[0xc0, 0x80]), None);
    assert_eq!(decode_name(&[0xed, 0xa0, 0x80]), None);
}

#[test]
fn layouts_that_are_not_valid_fail_with_the_sentinel() {
    let mut world = world_new();
    assert_eq!(
        register_component(&mut world, b"A", StorageType::Table, true, 4, 3),
        ComponentId::invalid()
    );
    assert_eq!(
        register_component(&mut world, b"A", StorageType::Table, true, 4, 0),
        ComponentId::invalid()
    );
    assert_eq!(world.components().len(), 0);
    let a = register_component(&mut world, b"A", StorageType::SparseSet, false, 4, 4);
    let b = register_component(&mut world, b"A", StorageType::SparseSet, false, 4, 4);
    assert_eq!(a, ComponentId::new(0));
    assert_eq!(b, ComponentId::new(1));
    assert_eq!(get_component_id_by_name(&world, b"A"), a);
    let info = world.components().get_info(a).unwrap();
    assert_eq!(info.name(), "A");
    assert_eq!(info.storage_type(), StorageType::SparseSet);
    assert!(!info.is_send_and_sync());
    assert_eq!(info.layout().size(), 4);
    assert_eq!(info.layout().align(), 4);
}

#[test]
fn values_cross_the_boundary_as_bytes() {
    let mut world = world_new();
    let c = register_component(&mut world, b"C", StorageType::Table, true, 2, 1);
    let e = spawn_entity(&mut world);
    assert_eq!(get(&world, e, c), None);
    assert!(get_mut(&mut world, e, c).is_none());
    assert!(world.insert(e, c, &[1, 2]));
    assert_eq!(get(&world, e, c), Some(&[1u8, 2][..]));
    get_mut(&mut world, e, c).unwrap()[0] = 7;
    assert_eq!(get(&world, e, c), Some(&[7u8, 2][..]));
    assert!(world.despawn(e));
    assert_eq!(get(&world, e, c), None);
    assert!(get_mut(&mut world, e, c).is_none());
}
