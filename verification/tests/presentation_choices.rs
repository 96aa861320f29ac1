use sample_range::presentation::{
    choose_extent, choose_image_count, choose_present_mode, choose_queue_families,
    choose_surface_format, layout_barrier, next_frame, queue_families_to_create,
    swapchain_sharing, Access, Barrier, Extent, ImageLayout, Stage, SurfaceFormat,
    COLOR_SPACE_SRGB_NONLINEAR, FORMAT_B8G8R8A8_SRGB, PRESENT_MODE_FIFO, PRESENT_MODE_MAILBOX,
};

#[test]
fn surface_format_prefers_srgb_bgra() {
    let other = SurfaceFormat { format: 44, color_space: 0 };
    let wanted = SurfaceFormat { format: FORMAT_B8G8R8A8_SRGB, color_space: COLOR_SPACE_SRGB_NONLINEAR };
    assert_eq!(choose_surface_format(&[other, wanted]), wanted);
    assert_eq!(choose_surface_format(&[other]), other);
    let wrong_space = SurfaceFormat { format: FORMAT_B8G8R8A8_SRGB, color_space: 7 };
    assert_eq!(choose_surface_format(&[wrong_space, other]), wrong_space);
}

#[test]
fn present_mode_prefers_mailbox() {
    assert_eq!(choose_present_mode(&[0, 2, 1]), PRESENT_MODE_MAILBOX);
    assert_eq!(choose_present_mode(&[0, 2]), PRESENT_MODE_FIFO);
    assert_eq!(choose_present_mode(&[]), PRESENT_MODE_FIFO);
}

#[test]
fn extent_uses_current_or_clamps() {
    let e = |w, h| Extent { width: w, height: h };
    assert_eq!(choose_extent(e(800, 600), e(1280, 720), e(1, 1), e(4096, 4096)), e(800, 600));
    assert_eq!(
        choose_extent(e(u32::MAX, u32::MAX), e(1280, 720), e(1, 1), e(1000, 4096)),
        e(1000, 720)
    );
    assert_eq!(
        choose_extent(e(u32::MAX, 0), e(0, 0), e(16, 16), e(4096, 4096)),
        e(16, 16)
    );
}

#[test]
fn image_count_rule() {
    assert_eq!(choose_image_count(2, 0), 3);
    assert_eq!(choose_image_count(2, 8), 3);
    assert_eq!(choose_image_count(3, 3), 3);
}

#[test]
fn queue_families_take_last_match() {
    let g = [true, false, true];
    let p = [false, true, true];
    assert_eq!(choose_queue_families(&g, &p, true), Some((2, 2)));
    assert_eq!(choose_queue_families(&[true, false], &[false, true], true), Some((0, 1)));
    assert_eq!(choose_queue_families(&g, &p, false), None);
    assert_eq!(choose_queue_families(&[false], &[true], true), None);
}

#[test]
fn queue_creation_and_sharing() {
    assert_eq!(queue_families_to_create(0, 0), vec![0]);
    assert_eq!(queue_families_to_create(0, 2), vec![0, 2]);
    assert_eq!(swapchain_sharing(1, 1), (false, vec![]));
    assert_eq!(swapchain_sharing(1, 3), (true, vec![1, 3]));
}

#[test]
fn frame_ring() {
    assert_eq!(next_frame(0), 1);
    assert_eq!(next_frame(1), 0);
}

#[test]
fn layout_barriers() {
    assert_eq!(
        layout_barrier(ImageLayout::Undefined, ImageLayout::TransferDst),
        Barrier { src_access: Access::Nothing, dst_access: Access::TransferWrite, src_stage: Stage::TopOfPipe, dst_stage: Stage::Transfer }
    );
    assert_eq!(
        layout_barrier(ImageLayout::TransferDst, ImageLayout::ShaderReadOnly),
        Barrier { src_access: Access::TransferWrite, dst_access: Access::ShaderRead, src_stage: Stage::Transfer, dst_stage: Stage::FragmentShader }
    );
}
