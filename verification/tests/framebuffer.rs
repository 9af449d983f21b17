use apollo18_renderer::{Framebuffer, RenderError, Srgb8};

fn pixel(frame: &Framebuffer, x: u32, y: u32) -> [u8; 4] {
    let offset = ((y * frame.width() + x) * 4) as usize;
    frame.pixels()[offset..offset + 4].try_into().expect("pixel should contain four channels")
}

#[test]
fn new_frame_is_filled_with_opaque_background() {
    let frame = Framebuffer::new(3, 2, Srgb8::from_hex(0x18_18_18)).expect("frame should be valid");
    assert_eq!((frame.width(), frame.height()), (3, 2));
    assert_eq!(frame.pixels().len(), 24);
    assert!(frame.pixels().chunks_exact(4).all(|pixel| pixel == [0x18, 0x18, 0x18, 0xff]));
}

#[test]
fn empty_frames_are_rejected() {
    let background = Srgb8::from_hex(0);
    assert_eq!(
        Framebuffer::new(0, 5, background),
        Err(RenderError::EmptyFrame { width: 0, height: 5 })
    );
    assert_eq!(
        Framebuffer::new(5, 0, background),
        Err(RenderError::EmptyFrame { width: 5, height: 0 })
    );
}

#[test]
fn frames_beyond_addressable_memory_are_rejected() {
    let result = Framebuffer::new(u32::MAX, u32::MAX, Srgb8::from_hex(0));
    assert_eq!(
        result,
        Err(RenderError::FrameTooLarge { width: u32::MAX, height: u32::MAX })
    );
}

#[test]
fn set_pixel_changes_exactly_one_pixel() {
    let background = Srgb8::from_hex(0x18_18_18);
    let mut frame = Framebuffer::new(4, 3, background).expect("frame should be valid");
    let before = frame.clone();
    frame.set_pixel(2, 1, Srgb8::red());

    assert_eq!(pixel(&frame, 2, 1), [0xff, 0, 0, 0xff]);
    for y in 0..3 {
        for x in 0..4 {
            if (x, y) != (2, 1) {
                assert_eq!(pixel(&frame, x, y), pixel(&before, x, y));
            }
        }
    }
}

#[test]
fn render_errors_describe_the_requested_dimensions() {
    assert_eq!(
        RenderError::EmptyFrame { width: 0, height: 600 }.to_string(),
        "frame dimensions must be non-zero, got 0x600"
    );
    assert_eq!(
        RenderError::FrameTooLarge { width: 4294967295, height: 12 }.to_string(),
        "frame dimensions are too large, got 4294967295x12"
    );
}

#[test]
fn painted_frames_keep_their_size_and_stay_opaque() {
    let mut frame = Framebuffer::new(5, 4, Srgb8::from_hex(0x102030)).expect("frame should be valid");
    for step in 0..40u32 {
        frame.set_pixel(step % 5, (step * 3) % 4, Srgb8::from_hex(step * 0x010203));
    }
    let copy = frame.clone();
    for current in [&frame, &copy] {
        assert_eq!((current.width(), current.height()), (5, 4));
        assert_eq!(current.pixels().len(), 5 * 4 * 4);
        assert!(current.pixels().chunks(4).all(|pixel| pixel[3] == 0xff));
    }
    assert_eq!(frame, copy);
}
