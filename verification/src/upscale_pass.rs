//! The pass that draws each view, as rendered, onto the texture it is shown on.
//!
//! A view is an entity of the render world with three components: the target of the
//! view, the bind group made for it, and the mark of an extracted view. The library
//! registers the components, decides which views get a bind group and which are
//! drawn, and attaches the bind groups; the renderer makes the bind groups and draws.

use crate::component::{ComponentDescriptor, ComponentId, DescriptorView, DropFn, Layout, StorageType};
use crate::entity::Entity;
use crate::world::{World, WorldView};
use vstd::bytes::{spec_u64_from_le_bytes, spec_u64_to_le_bytes, u64_from_le_bytes, u64_to_le_bytes};
use vstd::slice::slice_subrange;
use vstd::prelude::*;

verus! {

/// The type key of the target of a view.
pub const VIEW_TARGET_KEY: u64 = 0x7669_6577_5f74_6774;

/// The type key of the bind group of a view.
pub const VIEW_BIND_GROUP_KEY: u64 = 0x7669_6577_5f62_6e64;

/// The type key of the mark of an extracted view.
pub const EXTRACTED_VIEW_KEY: u64 = 0x6578_7472_5f76_6965;

/// The description of the target of a view: the numbers of the texture view rendered to
/// and of the texture it is shown on.
pub open spec fn view_target() -> DescriptorView {
    DescriptorView {
        name: "ViewTarget"@,
        storage_type: StorageType::Table,
        is_send_and_sync: true,
        type_key: Some(VIEW_TARGET_KEY),
        size: 16,
        align: 1,
        drop_fn: DropFn::Noop,
    }
}

/// The description of the bind group of a view: the number of the bind group.
pub open spec fn view_bind_group() -> DescriptorView {
    DescriptorView {
        name: "ViewBindGroup"@,
        storage_type: StorageType::Table,
        is_send_and_sync: true,
        type_key: Some(VIEW_BIND_GROUP_KEY),
        size: 8,
        align: 1,
        drop_fn: DropFn::Noop,
    }
}

/// The description of the mark of an extracted view, which holds nothing.
pub open spec fn extracted_view() -> DescriptorView {
    DescriptorView {
        name: "ExtractedView"@,
        storage_type: StorageType::Table,
        is_send_and_sync: true,
        type_key: Some(EXTRACTED_VIEW_KEY),
        size: 0,
        align: 1,
        drop_fn: DropFn::Noop,
    }
}

/// The node of the render graph that runs the pass.
#[derive(Clone, Copy, Debug, PartialEq, Eq, Structural)]
pub struct UpscalePassNode {
    pub view_target: ComponentId,
    pub view_bind_group: ComponentId,
    pub extracted_view: ComponentId,
}

/// One draw of the pass: the view, the number of the texture it is shown on, and the
/// number of its bind group.
#[derive(Clone, Copy, Debug, PartialEq, Eq, Structural)]
pub struct UpscaleDraw {
    pub view: Entity,
    pub upscaled_texture: u64,
    pub bind_group: u64,
}

/// One view that waits for its bind group: the view, and the number of the texture view
/// that it is rendered to.
#[derive(Clone, Copy, Debug, PartialEq, Eq, Structural)]
pub struct ViewToBind {
    pub view: Entity,
    pub rendered: u64,
}

/// The draw of the view `e` in `w`: none unless `e` is alive and holds all three
/// components of a view, with a target of sixteen bytes and a bind group of eight. The
/// second half of the target is the number of the texture that the view is shown on.
pub open spec fn draw_of(node: UpscalePassNode, w: WorldView, e: Entity) -> Option<UpscaleDraw> {
    let target = w.get(e, node.view_target);
    let bind_group = w.get(e, node.view_bind_group);
    if target is Some && bind_group is Some && w.get(e, node.extracted_view) is Some
        && target.unwrap().len() == 16 && bind_group.unwrap().len() == 8 {
        Some(
            UpscaleDraw {
                view: e,
                upscaled_texture: spec_u64_from_le_bytes(target.unwrap().subrange(8, 16)),
                bind_group: spec_u64_from_le_bytes(bind_group.unwrap()),
            },
        )
    } else {
        None
    }
}

/// The view `e` as one that waits for its bind group in `w`: none unless `e` is alive
/// and holds a target of sixteen bytes. The first half of the target is the number of
/// the texture view that the view is rendered to.
pub open spec fn bind_of(node: UpscalePassNode, w: WorldView, e: Entity) -> Option<ViewToBind> {
    let target = w.get(e, node.view_target);
    if target is Some && target.unwrap().len() == 16 {
        Some(ViewToBind { view: e, rendered: spec_u64_from_le_bytes(target.unwrap().subrange(0, 8)) })
    } else {
        None
    }
}

/// The draws of the views among `views` that the node draws in `w`, in their order.
pub open spec fn drawn(node: UpscalePassNode, w: WorldView, views: Seq<Entity>) -> Seq<UpscaleDraw>
    decreases views.len(),
{
    if views.len() == 0 {
        Seq::empty()
    } else {
        match draw_of(node, w, views.last()) {
            Some(d) => drawn(node, w, views.drop_last()).push(d),
            None => drawn(node, w, views.drop_last()),
        }
    }
}

/// The views among `views` that wait for their bind group in `w`, in their order.
pub open spec fn to_bind(node: UpscalePassNode, w: WorldView, views: Seq<Entity>) -> Seq<ViewToBind>
    decreases views.len(),
{
    if views.len() == 0 {
        Seq::empty()
    } else {
        match bind_of(node, w, views.last()) {
            Some(b) => to_bind(node, w, views.drop_last()).push(b),
            None => to_bind(node, w, views.drop_last()),
        }
    }
}

impl UpscalePassNode {
    /// The node for `render_world`, in which the components of a view are registered
    /// unless they are already.
    pub fn new(render_world: &mut World) -> (node: UpscalePassNode)
        requires
            old(render_world).inv(),
        ensures
            final(render_world).inv(),
            final(render_world)@ == old(render_world)@.register_static(
                view_target(),
            ).register_static(view_bind_group()).register_static(extracted_view()),
            node.view_target == old(render_world)@.components.static_id(view_target()),
            node.view_bind_group == old(render_world)@.register_static(
                view_target(),
            ).components.static_id(view_bind_group()),
            node.extracted_view == old(render_world)@.register_static(
                view_target(),
            ).register_static(view_bind_group()).components.static_id(extracted_view()),
    {
        let view_target = render_world.init_component_static(
            ComponentDescriptor::new_dynamic(
                "ViewTarget".to_owned(),
                StorageType::Table,
                true,
                Some(VIEW_TARGET_KEY),
                Layout::packed(16),
                DropFn::Noop,
            ),
        );
        let view_bind_group = render_world.init_component_static(
            ComponentDescriptor::new_dynamic(
                "ViewBindGroup".to_owned(),
                StorageType::Table,
                true,
                Some(VIEW_BIND_GROUP_KEY),
                Layout::packed(8),
                DropFn::Noop,
            ),
        );
        let extracted_view = render_world.init_component_static(
            ComponentDescriptor::new_dynamic(
                "ExtractedView".to_owned(),
                StorageType::Table,
                true,
                Some(EXTRACTED_VIEW_KEY),
                Layout::packed(0),
                DropFn::Noop,
            ),
        );
        UpscalePassNode { view_target, view_bind_group, extracted_view }
    }

    /// The draw of the view `e` in `world`, if the node draws it.
    pub fn draws(&self, world: &World, e: Entity) -> (r: Option<UpscaleDraw>)
        requires
            world.inv(),
        ensures
            r == draw_of(*self, world@, e),
    {
        let target = match world.get(e, self.view_target) {
            Some(bytes) => bytes,
            None => {
                return None;
            },
        };
        let bind_group = match world.get(e, self.view_bind_group) {
            Some(bytes) => bytes,
            None => {
                return None;
            },
        };
        match world.get(e, self.extracted_view) {
            Some(_) => {},
            None => {
                return None;
            },
        }
        if target.len() != 16 || bind_group.len() != 8 {
            return None;
        }
        Some(
            UpscaleDraw {
                view: e,
                upscaled_texture: u64_from_le_bytes(slice_subrange(target, 8, 16)),
                bind_group: u64_from_le_bytes(bind_group),
            },
        )
    }

    /// The view `e` as one that waits for its bind group in `world`, if it has a target.
    pub fn binds(&self, world: &World, e: Entity) -> (r: Option<ViewToBind>)
        requires
            world.inv(),
        ensures
            r == bind_of(*self, world@, e),
    {
        match world.get(e, self.view_target) {
            Some(target) => {
                if target.len() == 16 {
                    Some(
                        ViewToBind {
                            view: e,
                            rendered: u64_from_le_bytes(slice_subrange(target, 0, 8)),
                        },
                    )
                } else {
                    None
                }
            },
            None => None,
        }
    }

    /// The draws of this frame: those of the views among `views` that the node draws,
    /// in their order.
    pub fn run(&self, world: &World, views: &[Entity]) -> (out: Vec<UpscaleDraw>)
        requires
            world.inv(),
        ensures
            out@ == drawn(*self, world@, views@),
    {
        let mut out: Vec<UpscaleDraw> = Vec::new();
        let mut i: usize = 0;
        while i < views.len()
            invariant
                i <= views@.len(),
                world.inv(),
                out@ == drawn(*self, world@, views@.take(i as int)),
            decreases views@.len() - i,
        {
            proof {
                assert(views@.take(i + 1).drop_last() =~= views@.take(i as int));
                assert(views@.take(i + 1).last() == views@[i as int]);
            }
            match self.draws(world, views[i]) {
                Some(d) => {
                    out.push(d);
                },
                None => {},
            }
            i = i + 1;
        }
        assert(views@.take(i as int) =~= views@);
        out
    }

    /// The views among `views` for which a bind group is to be made, in their order:
    /// those that are alive and have a target.
    pub fn views_to_bind(&self, world: &World, views: &[Entity]) -> (out: Vec<ViewToBind>)
        requires
            world.inv(),
        ensures
            out@ == to_bind(*self, world@, views@),
    {
        let mut out: Vec<ViewToBind> = Vec::new();
        let mut i: usize = 0;
        while i < views.len()
            invariant
                i <= views@.len(),
                world.inv(),
                out@ == to_bind(*self, world@, views@.take(i as int)),
            decreases views@.len() - i,
        {
            proof {
                assert(views@.take(i + 1).drop_last() =~= views@.take(i as int));
                assert(views@.take(i + 1).last() == views@[i as int]);
            }
            match self.binds(world, views[i]) {
                Some(b) => {
                    out.push(b);
                },
                None => {},
            }
            i = i + 1;
        }
        assert(views@.take(i as int) =~= views@);
        out
    }
}

/// Attaches the bind group with number `bind_group` to the view `e`. Returns `false`,
/// and changes nothing, where `e` is not alive or the components of a view are not
/// registered in `world`.
pub fn queue_view_bind_groups(
    world: &mut World,
    node: &UpscalePassNode,
    e: Entity,
    bind_group: u64,
) -> (ok: bool)
    requires
        old(world).inv(),
    ensures
        final(world).inv(),
        ok == old(world)@.accepts(e, node.view_bind_group, spec_u64_to_le_bytes(bind_group)),
        final(world)@ == old(world)@.insert(
            e,
            node.view_bind_group,
            spec_u64_to_le_bytes(bind_group),
        ),
{
    let bytes = u64_to_le_bytes(bind_group);
    world.insert(e, node.view_bind_group, bytes.as_slice())
}

} // verus!
