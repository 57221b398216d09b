use raytracer::color::Color;
use raytracer::fixed::SCALE;
use raytracer::framebuffer::FrameBuffer;
use raytracer::math::Vec3;

const S: i128 = SCALE;

#[test]
fn rgb_packs_full_and_zero_channels() {
    assert_eq!(Color::rgb(S, 0, 0).to_rgb_bytes(), 0xFF0000);
    assert_eq!(Color::rgb(0, S, 0).to_rgb_bytes(), 0x00FF00);
    assert_eq!(Color::rgb(0, 0, S).to_rgb_bytes(), 0x0000FF);
    assert_eq!(Color::rgb(0, 0, 0).to_rgb_bytes(), 0);
    assert_eq!(Color::rgb(S, S, S).to_rgb_bytes(), 0xFFFFFF);
}

#[test]
fn rgb_packing_truncates() {
    // 0.5 * 255 = 127.5, truncated to 127.
    assert_eq!(Color::rgb(S / 2, S / 2, S / 2).to_rgb_bytes(), 0x7F7F7F);
    // One fifth has a truncated representation, so 0.2 * 255 lands just
    // under 51.
    assert_eq!(Color::rgb(S / 5, 0, 0).to_rgb_bytes(), 50 << 16);
}

#[test]
fn packing_clamps_out_of_range_channels() {
    // Values outside [0, 1] must clamp, never bleed into other channels
    // or panic.
    let too_hot = Color::Rgb(Vec3::new(3 * S, -S, S / 2));
    assert_eq!(too_hot.to_rgb_bytes(), 0xFF007F);
    let negative = Color::Rgb(Vec3::new(-5, -5, -5));
    assert_eq!(negative.to_rgb_bytes(), 0);
}

#[test]
fn argb_packs_opacity_in_the_top_byte() {
    let c = Color::argb(S, S, 0, 0);
    assert_eq!(c.to_rgb_bytes(), 0xFF_FF0000);
    let half = Color::argb(S / 2, 0, 0, S);
    assert_eq!(half.to_rgb_bytes(), 0x7F_0000FF);
}

#[test]
fn alpha_of_plain_color_is_one() {
    assert_eq!(Color::rgb(S / 4, S / 4, S / 4).alpha(), S);
    assert_eq!(Color::argb(S / 8, 0, 0, 0).alpha(), S / 8);
}

#[test]
fn framebuffer_is_row_major() {
    let mut fb = FrameBuffer::new(4, 3);
    assert_eq!(fb.width, 4);
    assert_eq!(fb.height, 3);
    assert_eq!(fb.buf.len(), 12);
    for k in 0..12 {
        assert_eq!(fb.buf[k], 0);
    }
    fb.set_pixel(2, 1, 0xABCDEF);
    assert_eq!(fb.pixel(2, 1), 0xABCDEF);
    assert_eq!(fb.buf[1 * 4 + 2], 0xABCDEF);
    assert_eq!(fb.pixel(1, 2), 0);
    fb.set_pixel(0, 0, 7);
    assert_eq!(fb.buf[0], 7);
    assert_eq!(fb.pixel(2, 1), 0xABCDEF);
}
