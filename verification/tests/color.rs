use apollo18_renderer::color::{background, Srgb8};

#[test]
fn color_hex_color_uses_red_green_blue_byte_order() {
    assert_eq!(Srgb8::from_hex(0x12_34_56).channels(), [0x12, 0x34, 0x56]);
}

#[test]
fn primary_colors_have_one_full_channel() {
    assert_eq!(Srgb8::red().channels(), [0xff, 0, 0]);
    assert_eq!(Srgb8::green().channels(), [0, 0xff, 0]);
    assert_eq!(Srgb8::blue().channels(), [0, 0, 0xff]);
    assert_eq!(Srgb8::from_hex(0xff_00_00), Srgb8::red());
}

#[test]
fn hex_color_ignores_bits_above_the_blue_green_red_bytes() {
    assert_eq!(Srgb8::from_hex(0xab_12_34_56).channels(), [0x12, 0x34, 0x56]);
}

#[test]
fn background_is_dark_gray() {
    assert_eq!(background().channels(), [0x18, 0x18, 0x18]);
}

#[test]
fn channels_round_trip() {
    let color = Srgb8::from_channels([12, 128, 241]);
    assert_eq!(color.channels(), [12, 128, 241]);
}
