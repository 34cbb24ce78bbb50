use bevy_world::camera::{
    camera_needs_update, camera_system, changed_window_ids, CameraState, CameraTarget,
    DepthCalculation, ImageSize, WindowSize, PRIMARY_WINDOW,
};
use bevy_world::component::{ComponentId, StorageType};
use bevy_world::entity::Entity;
use bevy_world::main_pass_driver::{
    Camera2d, Camera3d, DriverStep, MainPassDriverNode, SubGraph, SubGraphRun,
};
use bevy_world::mipmap_queue::{
    MipPass, MipmapGenerationMode, MipmapGenerationNode, MipmapQueue, MipmapQueueRequest,
    RenderDevice, RENDER_ATTACHMENT,
};
use bevy_world::upscale_pass::{
    queue_view_bind_groups, UpscaleDraw, UpscalePassNode, ViewToBind, EXTRACTED_VIEW_KEY,
    VIEW_BIND_GROUP_KEY, VIEW_TARGET_KEY,
};
use bevy_world::world::World;

#[test]
fn mipmaps_are_made_by_render_passes() {
    let device = RenderDevice { id: 1 };
    let mode = MipmapGenerationMode::preferred(&device);
    assert_eq!(mode, MipmapGenerationMode::Render);
    assert_eq!(mode.required_texture_usages().bits, 16);
    assert_eq!(RENDER_ATTACHMENT, wgpu::TextureUsages::RENDER_ATTACHMENT.bits());
    assert_eq!(
        mode.required_texture_usages().bits,
        wgpu::TextureUsages::RENDER_ATTACHMENT.bits()
    );
}

#[test]
fn the_queue_hands_out_requests_in_order() {
    let mut queue = MipmapQueue::new();
    assert_eq!(queue.len(), 0);
    assert_eq!(queue.dequeue(), None);
    queue.enqueue(MipmapGenerationMode::Render, 10, 4, 7);
    queue.enqueue(MipmapGenerationMode::Render, 11, 1, 8);
    assert_eq!(queue.len(), 2);
    assert_eq!(
        queue.dequeue(),
        Some(MipmapQueueRequest {
            mipmap_mode: MipmapGenerationMode::Render,
            texture: 10,
            mip_count: 4,
            texture_format: 7
        })
    );
    assert_eq!(queue.dequeue().unwrap().texture, 11);
    assert_eq!(queue.dequeue(), None);
}

#[test]
fn the_node_takes_the_queue_and_plans_the_passes() {
    let mut queue = MipmapQueue::new();
    queue.enqueue(MipmapGenerationMode::Render, 10, 4, 7);
    queue.enqueue(MipmapGenerationMode::Render, 11, 1, 8);
    queue.enqueue(MipmapGenerationMode::Render, 12, 0, 7);
    queue.enqueue(MipmapGenerationMode::Render, 13, 2, 9);
    let mut node = MipmapGenerationNode::new();
    assert!(node.init_pipeline(9));
    assert!(!node.init_pipeline(9));
    assert!(node.has_pipeline(9));
    assert!(!node.has_pipeline(7));
    let made = node.update(&mut queue);
    assert_eq!(made, vec![7, 8]);
    assert_eq!(queue.len(), 0);
    assert!(node.has_pipeline(7));
    assert!(node.has_pipeline(8));
    let pass = |texture, texture_format, source_mip, target_mip| MipPass {
        texture,
        texture_format,
        source_mip,
        target_mip,
    };
    assert_eq!(
        node.run(),
        vec![pass(10, 7, 0, 1), pass(10, 7, 1, 2), pass(10, 7, 2, 3), pass(13, 9, 0, 1)]
    );
    // The next frame has nothing due.
    let made = node.update(&mut queue);
    assert!(made.is_empty());
    assert!(node.run().is_empty());
    let request = MipmapQueueRequest {
        mipmap_mode: MipmapGenerationMode::Render,
        texture: 1,
        mip_count: 3,
        texture_format: 2,
    };
    assert_eq!(
        MipmapGenerationNode::generate_mipmaps_render(&request),
        vec![pass(1, 2, 0, 1), pass(1, 2, 1, 2)]
    );
}

#[test]
fn camera_defaults() {
    assert_eq!(DepthCalculation::default(), DepthCalculation::Distance);
    assert_eq!(CameraTarget::default(), CameraTarget::Window(PRIMARY_WINDOW));
    assert_eq!(CameraTarget::default(), CameraTarget::Window(0));
}

#[test]
fn the_size_of_a_target_is_that_of_its_window_or_image() {
    let windows = [
        WindowSize { id: 0, physical_width: 1280, physical_height: 720 },
        WindowSize { id: 5, physical_width: 640, physical_height: 480 },
        WindowSize { id: 5, physical_width: 1, physical_height: 1 },
    ];
    let images = [ImageSize { handle: 9, width: 256, height: 128 }];
    assert_eq!(CameraTarget::Window(0).physical_size(&windows, &images), Some((1280, 720)));
    assert_eq!(CameraTarget::Window(5).physical_size(&windows, &images), Some((640, 480)));
    assert_eq!(CameraTarget::Window(6).physical_size(&windows, &images), None);
    assert_eq!(CameraTarget::Texture(9).physical_size(&windows, &images), Some((256, 128)));
    assert_eq!(CameraTarget::Texture(0).physical_size(&windows, &images), None);
    assert_eq!(CameraTarget::Window(0).physical_size(&[], &[]), None);
}

#[test]
fn changed_windows_are_listed_once_the_latest_first() {
    assert_eq!(changed_window_ids(&[1, 2, 1, 3], &[4, 2, 5]), vec![3, 1, 2, 5, 4]);
    assert_eq!(changed_window_ids(&[], &[]), Vec::<u128>::new());
    assert_eq!(changed_window_ids(&[7, 7, 7], &[]), vec![7]);
    assert_eq!(changed_window_ids(&[], &[1, 2]), vec![2, 1]);
}

#[test]
fn a_camera_is_updated_when_its_target_or_projection_changed() {
    let windows = vec![3u128, 1];
    let textures = [8u64];
    let window = CameraTarget::Window(1);
    let other_window = CameraTarget::Window(2);
    let texture = CameraTarget::Texture(8);
    let other_texture = CameraTarget::Texture(9);
    assert!(camera_needs_update(&window, &windows, &textures, false, false));
    assert!(!camera_needs_update(&other_window, &windows, &textures, false, false));
    assert!(camera_needs_update(&other_window, &windows, &textures, true, false));
    assert!(camera_needs_update(&other_window, &windows, &textures, false, true));
    assert!(camera_needs_update(&texture, &windows, &textures, false, false));
    assert!(!camera_needs_update(&other_texture, &windows, &textures, false, false));
    assert!(!camera_needs_update(&window, &Vec::new(), &[], false, false));
}

#[test]
fn the_main_passes_run_for_the_cameras_that_exist() {
    let node = MainPassDriverNode::new();
    let a = Camera2d { entity: Entity::new(1, 0), swap_chain_texture: 10 };
    let b = Camera3d { entity: Entity::new(2, 3), swap_chain_texture: 10, depth_texture: 20 };
    let run_2d =
        SubGraphRun { graph: SubGraph::Draw2d, camera: a.entity, color: 10, depth: None };
    let run_3d =
        SubGraphRun { graph: SubGraph::Draw3d, camera: b.entity, color: 10, depth: Some(20) };
    assert!(node.run(None, None).is_empty());
    assert_eq!(node.run(Some(a), None), vec![run_2d]);
    assert_eq!(node.run(None, Some(b)), vec![run_3d]);
    assert_eq!(node.run(Some(a), Some(b)), vec![run_2d, run_3d]);
}

#[test]
fn a_failed_sub_graph_ends_the_main_passes() {
    let node = MainPassDriverNode::new();
    let a = Camera2d { entity: Entity::new(1, 0), swap_chain_texture: 10 };
    let b = Camera3d { entity: Entity::new(2, 3), swap_chain_texture: 10, depth_texture: 20 };
    let plan = node.run(Some(a), Some(b));
    let ok: Result<(), &str> = Ok(());
    assert!(matches!(node.next(&plan, 0, ok), DriverStep::Run(r) if r == plan[0]));
    assert!(matches!(node.next(&plan, 1, Err("lost")), DriverStep::Done(Err("lost"))));
    assert!(matches!(node.next(&plan, 1, ok), DriverStep::Run(r) if r == plan[1]));
    assert!(matches!(node.next(&plan, 2, Err("late")), DriverStep::Done(Err("late"))));
    assert!(matches!(node.next(&plan, 2, ok), DriverStep::Done(Ok(()))));
    assert!(matches!(node.next(&Vec::new(), 0, ok), DriverStep::Done(Ok(()))));
    // Driving the plan with a first run that fails makes one run and returns its error.
    let mut made = Vec::new();
    let mut ran = 0;
    let mut last: Result<(), &str> = Ok(());
    let outcome = loop {
        match node.next(&plan, ran, last) {
            DriverStep::Run(run) => {
                made.push(run.graph);
                last = Err("2d failed");
                ran += 1;
            }
            DriverStep::Done(outcome) => break outcome,
        }
    };
    assert_eq!(made, vec![SubGraph::Draw2d]);
    assert_eq!(outcome, Err("2d failed"));
}

#[test]
fn the_upscale_pass_registers_its_components_once_and_draws_whole_views() {
    let mut world = World::new();
    let before = bevy_world::ffi::register_component(
        &mut world,
        b"Other",
        StorageType::Table,
        true,
        4,
        4,
    );
    let node = UpscalePassNode::new(&mut world);
    assert_eq!(before, ComponentId::new(0));
    assert_eq!(node.view_target, ComponentId::new(1));
    assert_eq!(node.view_bind_group, ComponentId::new(2));
    assert_eq!(node.extracted_view, ComponentId::new(3));
    let again = UpscalePassNode::new(&mut world);
    assert_eq!(again, node);
    assert_eq!(world.components().len(), 4);
    assert_eq!(world.components().get_id_by_key(VIEW_TARGET_KEY), Some(node.view_target));
    assert_eq!(world.components().get_id_by_key(VIEW_BIND_GROUP_KEY), Some(node.view_bind_group));
    assert_eq!(world.components().get_id_by_key(EXTRACTED_VIEW_KEY), Some(node.extracted_view));
    assert_eq!(world.components().get_id_by_name("ViewTarget"), Some(node.view_target));
    assert_eq!(world.components().get_info(node.view_target).unwrap().layout().size(), 16);
    assert_eq!(world.components().get_info(node.view_bind_group).unwrap().layout().size(), 8);
    assert_eq!(world.components().get_info(node.extracted_view).unwrap().layout().size(), 0);

    let whole = world.spawn();
    let no_bind_group = world.spawn();
    let not_extracted = world.spawn();
    let gone = world.spawn();
    let mut target = Vec::new();
    target.extend_from_slice(&7u64.to_le_bytes());
    target.extend_from_slice(&9u64.to_le_bytes());
    for e in [whole, no_bind_group, not_extracted, gone] {
        assert!(world.insert(e, node.view_target, &target));
    }
    for e in [whole, no_bind_group, gone] {
        assert!(world.insert(e, node.extracted_view, &[]));
    }
    let bare = world.spawn();
    assert_eq!(
        node.views_to_bind(&world, &[bare, whole, Entity::new(99, 0), gone]),
        vec![ViewToBind { view: whole, rendered: 7 }, ViewToBind { view: gone, rendered: 7 }]
    );
    assert_eq!(node.binds(&world, bare), None);
    assert!(queue_view_bind_groups(&mut world, &node, whole, 0x0102_0304_0506_0708));
    assert!(queue_view_bind_groups(&mut world, &node, not_extracted, 2));
    assert!(queue_view_bind_groups(&mut world, &node, gone, 3));
    assert_eq!(world.get(whole, node.view_bind_group), Some(&[8u8, 7, 6, 5, 4, 3, 2, 1][..]));
    assert!(world.despawn(gone));
    assert!(!queue_view_bind_groups(&mut world, &node, gone, 4));
    let draw = UpscaleDraw { view: whole, upscaled_texture: 9, bind_group: 0x0102_0304_0506_0708 };
    assert_eq!(node.draws(&world, whole), Some(draw));
    assert_eq!(node.draws(&world, no_bind_group), None);
    assert_eq!(node.draws(&world, not_extracted), None);
    assert_eq!(node.draws(&world, gone), None);
    assert_eq!(node.run(&world, &[gone, not_extracted, whole, no_bind_group, whole]), vec![draw, draw]);
    assert!(node.run(&world, &[]).is_empty());
    assert_eq!(node.views_to_bind(&world, &[gone]), Vec::new());
}

#[test]
fn the_camera_system_updates_cameras_whose_target_exists_and_changed() {
    let windows = [WindowSize { id: 1, physical_width: 10, physical_height: 20 }];
    let images = [ImageSize { handle: 8, width: 4, height: 4 }];
    let camera = |target, added, projection_changed| CameraState { target, added, projection_changed };
    let cameras = [
        camera(CameraTarget::Window(1), false, false),
        camera(CameraTarget::Window(2), true, true),
        camera(CameraTarget::Texture(8), false, false),
        camera(CameraTarget::Texture(8), true, false),
        camera(CameraTarget::Texture(9), false, true),
    ];
    assert_eq!(
        camera_system(&[1], &[], &[], &windows, &images, &cameras),
        vec![true, false, false, true, false]
    );
    assert_eq!(
        camera_system(&[], &[2], &[8], &windows, &images, &cameras),
        vec![false, false, true, true, false]
    );
    assert_eq!(
        camera_system(&[], &[], &[], &windows, &images, &cameras),
        vec![false, false, false, true, false]
    );
    assert!(camera_system(&[1], &[1], &[8], &windows, &images, &[]).is_empty());
}
