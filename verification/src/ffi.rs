//! The flat boundary: each operation of the world as a function of primitive values and
//! byte slices, for callers that know nothing of the types of this library.
//!
//! A call that cannot do its work returns a sentinel, the invalid component id or an
//! absent slice, and changes nothing. A name crosses the boundary as bytes; bytes that
//! are not UTF-8 are such a failure.

use crate::component::{
    ComponentDescriptor,
    ComponentId,
    DescriptorView,
    DropFn,
    Layout,
    StorageType,
};
use crate::entity::Entity;
use crate::world::{opt_view, World};
use vstd::layout::valid_layout;
use vstd::prelude::*;
use vstd::utf8::{decode_utf8, encode_utf8, encode_utf8_decode_utf8, valid_utf8};

verus! {

/// The error of `core::str::from_utf8`, of which nothing is read here.
#[verifier::external_type_specification]
#[verifier::external_body]
pub struct ExUtf8Error(core::str::Utf8Error);

/// `core::str::from_utf8` succeeds on exactly the byte slices that are UTF-8, and the
/// string slice that it then returns is made of those bytes.
pub assume_specification[ core::str::from_utf8 ](v: &[u8]) -> (r: Result<
    &str,
    core::str::Utf8Error,
>)
    ensures
        r is Ok <==> valid_utf8(v@),
        r is Ok ==> encode_utf8(r.unwrap()@) == v@,
;

/// The characters of a name given as bytes: none if the bytes are not UTF-8.
pub open spec fn name_of(bytes: Seq<u8>) -> Option<Seq<char>> {
    if valid_utf8(bytes) {
        Some(decode_utf8(bytes))
    } else {
        None
    }
}

/// The name given as bytes, where the bytes are UTF-8.
pub fn decode_name(bytes: &[u8]) -> (r: Option<&str>)
    ensures
        r is Some <==> name_of(bytes@) is Some,
        r is Some ==> Some(r.unwrap()@) == name_of(bytes@),
{
    match core::str::from_utf8(bytes) {
        Ok(s) => {
            proof {
                encode_utf8_decode_utf8(s@);
            }
            Some(s)
        },
        Err(_) => None,
    }
}

/// The description that `register_component` registers: none if the name is not UTF-8
/// or the size and alignment make no valid layout. The component has no destructor and
/// no type key.
pub open spec fn registration(
    name: Seq<u8>,
    storage_type: StorageType,
    is_send_and_sync: bool,
    size: usize,
    align: usize,
) -> Option<DescriptorView> {
    if valid_utf8(name) && valid_layout(size, align) {
        Some(
            DescriptorView {
                name: decode_utf8(name),
                storage_type,
                is_send_and_sync,
                type_key: None,
                size,
                align,
                drop_fn: DropFn::Noop,
            },
        )
    } else {
        None
    }
}

/// A new, empty world.
pub fn world_new() -> (w: World)
    ensures
        w.inv(),
        w@ == crate::world::WorldView::empty(),
{
    World::new()
}

/// Registers a component type that exists only at run time, described by its name, its
/// storage type, its thread-safety flag and the size and alignment of one value. Returns
/// the new id; or the invalid id, with the world unchanged, where the name is not UTF-8
/// or the size and alignment make no valid layout.
pub fn register_component(
    world: &mut World,
    name: &[u8],
    storage_type: StorageType,
    is_send_and_sync: bool,
    size: usize,
    align: usize,
) -> (id: ComponentId)
    requires
        old(world).inv(),
    ensures
        final(world).inv(),
        match registration(name@, storage_type, is_send_and_sync, size, align) {
            Some(d) => {
                &&& final(world)@ == old(world)@.register_dynamic(d)
                &&& id == old(world)@.components.next_id()
                &&& id != ComponentId::invalid_spec()
                &&& final(world)@.components.get(id) == d
            },
            None => *final(world) == *old(world) && id == ComponentId::invalid_spec(),
        },
{
    let name = match decode_name(name) {
        Some(s) => s,
        None => {
            return ComponentId::invalid();
        },
    };
    let layout = match Layout::from_size_align(size, align) {
        Some(l) => l,
        None => {
            return ComponentId::invalid();
        },
    };
    let descriptor = ComponentDescriptor::new_dynamic(
        name.to_owned(),
        storage_type,
        is_send_and_sync,
        None,
        layout,
        DropFn::Noop,
    );
    world.init_component_dynamic(descriptor)
}

/// Spawns an entity, which holds no value.
pub fn spawn_entity(world: &mut World) -> (e: Entity)
    requires
        old(world).inv(),
    ensures
        final(world).inv(),
        final(world)@ == old(world)@.spawn(),
        e == old(world)@.entities.spawned(),
        final(world)@.is_alive(e),
{
    world.spawn()
}

/// The value that `entity` holds for `component`; absent where the entity is not alive
/// or holds no such value.
pub fn get(world: &World, entity: Entity, component: ComponentId) -> (r: Option<&[u8]>)
    requires
        world.inv(),
    ensures
        opt_view(r) == world@.get(entity, component),
{
    match world.get_entity(entity) {
        Some(entity) => entity.get_dynamic(component),
        None => None,
    }
}

/// The value that `entity` holds for `component`, for writing in place; absent where the
/// entity is not alive or holds no such value. The caller has the value to itself for as
/// long as it keeps the slice.
pub fn get_mut(world: &mut World, entity: Entity, component: ComponentId) -> (r: Option<
    &mut [u8],
>)
    requires
        old(world).inv(),
    ensures
        r is Some <==> old(world)@.get(entity, component) is Some,
        r is Some ==> Some(r.unwrap()@) == old(world)@.get(entity, component),
        r is None ==> *final(world) == *old(world),
        r is Some && final(r.unwrap())@.len() == r.unwrap()@.len() ==> final(world).written(
            old(world),
            entity,
            component,
            final(r.unwrap())@,
        ),
{
    world.get_mut(entity, component)
}

/// The id of the component type registered first under `name`; the invalid id where the
/// name is not UTF-8 or no component type has it.
pub fn get_component_id_by_name(world: &World, name: &[u8]) -> (id: ComponentId)
    requires
        world.inv(),
    ensures
        match name_of(name@) {
            Some(n) => if world@.components.has_name(n) {
                world@.components.is_first_named(n, id.index as int)
            } else {
                id == ComponentId::invalid_spec()
            },
            None => id == ComponentId::invalid_spec(),
        },
{
    let name = match decode_name(name) {
        Some(s) => s,
        None => {
            return ComponentId::invalid();
        },
    };
    match world.components().get_id_by_name(name) {
        Some(id) => id,
        None => ComponentId::invalid(),
    }
}

} // verus!
