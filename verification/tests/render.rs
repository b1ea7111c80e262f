use blitz::barriers::{barrier_queue_families, transition_masks, Access, ImageLayout, Stage, TransitionMasks, UnsupportedTransition, QUEUE_FAMILY_IGNORED};
use blitz::render::{
    check_physical_device, choose_depth_format, choose_extent, choose_present_mode, choose_surface_format,
    depth_format_candidates, extensions_supported,
    next_frame, queue_family_indices, sharing_families, swapchain_image_count, FrameCap, PresentMode,
    QueueFamily, QueueFamilyIndices, RenderSettings, SuitabilityError, SurfaceFormat,
};

#[test]
fn frames_cycle_through_the_slots() {
    assert_eq!(next_frame(0), 1);
    assert_eq!(next_frame(1), 0);
}

#[test]
fn mailbox_is_preferred_over_fifo() {
    assert_eq!(choose_present_mode(&vec![PresentMode::Fifo, PresentMode::Mailbox]), PresentMode::Mailbox);
    assert_eq!(choose_present_mode(&vec![PresentMode::Immediate]), PresentMode::Fifo);
    assert_eq!(PresentMode::FifoLatestReady.name(), "FIFO_LATEST_READY");
    assert_eq!(PresentMode::Other(9).name(), "Error");
}

#[test]
fn srgb_bgra_is_preferred_else_the_first_format() {
    let other = SurfaceFormat { format: 44, color_space: 0 };
    let srgb = SurfaceFormat { format: 50, color_space: 0 };
    assert_eq!(choose_surface_format(&vec![other, srgb]), srgb);
    assert_eq!(choose_surface_format(&vec![other]), other);
}

#[test]
fn extent_follows_the_surface_or_the_clamped_window() {
    assert_eq!(choose_extent((800, 600), (1, 1), (4096, 4096), (1024, 768)), (800, 600));
    assert_eq!(choose_extent((u32::MAX, u32::MAX), (100, 100), (1000, 700), (1024, 50)), (1000, 100));
}

#[test]
fn one_image_more_than_the_minimum_within_the_maximum() {
    assert_eq!(swapchain_image_count(2, 0), 3);
    assert_eq!(swapchain_image_count(2, 8), 3);
    assert_eq!(swapchain_image_count(3, 3), 3);
}

#[test]
fn distinct_queue_families_share_images() {
    assert_eq!(sharing_families(0, 1), vec![0, 1]);
    assert!(sharing_families(2, 2).is_empty());
}

fn fam(graphics: bool, transfer: bool, present: bool) -> QueueFamily {
    QueueFamily { graphics, transfer, present }
}

#[test]
fn queue_families_pick_the_first_of_each_role() {
    let families = vec![fam(true, true, false), fam(false, true, true), fam(true, false, true)];
    assert_eq!(queue_family_indices(&families), Some(QueueFamilyIndices { graphics: 0, transfer: 1, present: 1 }));
    assert_eq!(queue_family_indices(&vec![fam(true, true, true)]), None);
}

#[test]
fn devices_are_checked_in_order() {
    let good = vec![fam(true, false, true), fam(false, true, false)];
    assert_eq!(check_physical_device(false, false, false, &good, 0, 0), Err(SuitabilityError::NotDiscrete));
    assert_eq!(check_physical_device(true, false, true, &good, 1, 1), Err(SuitabilityError::NoGeometryShader));
    assert_eq!(check_physical_device(true, true, false, &good, 1, 1), Err(SuitabilityError::MissingExtensions));
    assert_eq!(
        check_physical_device(true, true, true, &vec![fam(true, true, true)], 1, 1),
        Err(SuitabilityError::MissingQueueFamilies)
    );
    assert_eq!(
        check_physical_device(true, true, true, &good, 0, 1),
        Err(SuitabilityError::InsufficientSwapchainSupport)
    );
    assert_eq!(
        check_physical_device(true, true, true, &good, 2, 1),
        Ok(QueueFamilyIndices { graphics: 0, transfer: 1, present: 0 })
    );
    assert_eq!(SuitabilityError::MissingExtensions.message(), "Missing required device extensions.");
}

#[test]
fn every_required_extension_must_be_listed() {
    let available = vec![String::from("VK_KHR_swapchain"), String::from("VK_EXT_other")];
    assert!(extensions_supported(&vec![String::from("VK_KHR_swapchain")], &available));
    assert!(!extensions_supported(&vec![String::from("VK_KHR_missing")], &available));
    assert!(extensions_supported(&vec![], &available));
}

#[test]
fn vsync_changes_ask_for_a_rebuild_and_lift_the_cap() {
    let mut s = RenderSettings::new(false);
    assert!(s.set_fps_limit(PresentMode::Mailbox, Some(5000)));
    assert_eq!(s.fps_limit, Some(FrameCap::PerSecond(999)));
    assert!(!s.set_fps_limit(PresentMode::Fifo, Some(30)));
    assert_eq!(s.fps_limit, Some(FrameCap::PerSecond(999)));
    assert!(!s.set_fps_limit(PresentMode::FifoLatestReady, Some(30)));
    assert_eq!(s.fps_limit, Some(FrameCap::RefreshRate));
    s.set_vsync(true);
    assert_eq!(s.fps_limit, None);
    assert!(s.take_rebuild());
    assert!(!s.take_rebuild());
    s.set_vsync(true);
    assert!(!s.take_rebuild());
    s.request_resize();
    assert!(s.take_rebuild());
    assert!(s.set_fps_limit(PresentMode::Immediate, Some(0)));
    assert_eq!(s.fps_limit, Some(FrameCap::PerSecond(1)));
}

#[test]
fn layout_transitions_have_fixed_masks() {
    assert_eq!(
        transition_masks(ImageLayout::Undefined, ImageLayout::TransferDstOptimal),
        Ok(TransitionMasks { src_access: Access::NoAccess, dst_access: Access::TransferWrite, src_stage: Stage::TopOfPipe, dst_stage: Stage::Copy })
    );
    assert_eq!(
        transition_masks(ImageLayout::TransferDstOptimal, ImageLayout::ShaderReadOnlyOptimal),
        Ok(TransitionMasks { src_access: Access::TransferWrite, dst_access: Access::ShaderRead, src_stage: Stage::Copy, dst_stage: Stage::FragmentShader })
    );
    let bad = transition_masks(ImageLayout::ShaderReadOnlyOptimal, ImageLayout::Undefined).unwrap_err();
    assert_eq!(bad, UnsupportedTransition { old_layout: ImageLayout::ShaderReadOnlyOptimal, new_layout: ImageLayout::Undefined });
    assert_eq!(bad.message(), "Unsupported image layout transition!");
    assert_eq!(barrier_queue_families(None), (QUEUE_FAMILY_IGNORED, QUEUE_FAMILY_IGNORED));
    assert_eq!(barrier_queue_families(Some((1, 2))), (1, 2));
}

#[test]
fn depth_format_is_the_first_usable_candidate() {
    assert_eq!(depth_format_candidates(), vec![126, 130, 129]);
    assert_eq!(choose_depth_format(&vec![(126, false), (130, true), (129, true)]), Some(130));
    assert_eq!(choose_depth_format(&vec![(126, true), (130, true)]), Some(126));
    assert_eq!(choose_depth_format(&vec![(126, false), (130, false)]), None);
    assert_eq!(choose_depth_format(&vec![]), None);
}
