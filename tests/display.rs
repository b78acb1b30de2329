use chip8_lib::cpu::font_bytes;
use chip8_lib::display::{xor_sprite_pair, DisplayController, FRAME_BYTES};

fn zero_glyph() -> Vec<u8> {
    font_bytes()[0..5].to_vec()
}

// Draw a sprite to frame buffer that evenly fits into a single byte
#[test]
fn draw_even() {
    let mut dct = DisplayController::default();
    let sprite: Vec<u8> = zero_glyph();
    let vf = dct.draw(0, 0, sprite);
    // Since frame buffer starts zeroed, there can be no collisions
    assert_eq!(vf, 0);
    assert_eq!(dct.frame_byte(dct.get_idx(0, 0)), 0xF0);
    assert_eq!(dct.frame_byte(dct.get_idx(0, 1)), 0x90);
    assert_eq!(dct.frame_byte(dct.get_idx(0, 2)), 0x90);
    assert_eq!(dct.frame_byte(dct.get_idx(0, 3)), 0x90);
    assert_eq!(dct.frame_byte(dct.get_idx(0, 4)), 0xF0);
}

// Draw a sprite to frame buffer that overflows into a second byte
#[test]
fn draw_offset() {
    let mut dct = DisplayController::default();
    let sprite: Vec<u8> = zero_glyph();
    let vf = dct.draw(1, 0, sprite);
    assert_eq!(vf, 0);
    assert_eq!(dct.frame_byte(dct.get_idx(0, 0)), 0x78);
    assert_eq!(dct.frame_byte(dct.get_idx(0, 1)), 0x48);
    assert_eq!(dct.frame_byte(dct.get_idx(0, 2)), 0x48);
    assert_eq!(dct.frame_byte(dct.get_idx(0, 3)), 0x48);
    assert_eq!(dct.frame_byte(dct.get_idx(0, 4)), 0x78);
}

// Draw a sprite to frame buffer that collides with a set pixel
#[test]
fn draw_collision() {
    let mut dct = DisplayController::default();
    let sprite: Vec<u8> = zero_glyph();
    _ = dct.draw(1, 0, sprite);
    let sprite: Vec<u8> = zero_glyph();
    let vf = dct.draw(1, 0, sprite);
    assert_eq!(vf, 1);
    assert!(dct.frame().iter().all(|b| *b == 0));
}

#[test]
fn draw_twice_aligned_collides() {
    let mut dct = DisplayController::default();
    assert_eq!(dct.draw(8, 3, zero_glyph()), 0);
    assert_eq!(dct.draw(8, 3, zero_glyph()), 1);
}

#[test]
fn draw_keeps_bits_outside_sprite() {
    let mut dct = DisplayController::default();
    dct.draw(0, 0, vec![0x81]);
    assert_eq!(dct.draw(3, 0, vec![0xF0]), 0);
    // 0x81 ^ (0xF0 >> 3) = 0x81 ^ 0x1E
    assert_eq!(dct.frame_byte(0), 0x9F);
    assert_eq!(dct.frame_byte(1), 0x00);
    // a pixel turned off reports a collision
    assert_eq!(dct.draw(7, 0, vec![0x80]), 1);
    assert_eq!(dct.frame_byte(0), 0x9E);
}

#[test]
fn draw_wraps_at_right_edge_within_row() {
    let mut dct = DisplayController::default();
    assert_eq!(dct.draw(60, 2, vec![0xFF]), 0);
    assert_eq!(dct.frame_byte(2 * 8 + 7), 0x0F);
    assert_eq!(dct.frame_byte(2 * 8), 0xF0);
    assert_eq!(dct.frame_byte(3 * 8), 0x00);
}

#[test]
fn draw_wraps_at_bottom() {
    let mut dct = DisplayController::default();
    assert_eq!(dct.draw(0, 30, zero_glyph()), 0);
    assert_eq!(dct.frame_byte(30 * 8), 0xF0);
    assert_eq!(dct.frame_byte(31 * 8), 0x90);
    assert_eq!(dct.frame_byte(0), 0x90);
    assert_eq!(dct.frame_byte(8), 0x90);
    assert_eq!(dct.frame_byte(16), 0xF0);
}

#[test]
fn clear_screen_zeroes() {
    let mut dct = DisplayController::default();
    dct.draw(13, 17, vec![0xFF, 0x3C]);
    dct.clear_screen();
    let fb = dct.frame();
    assert_eq!(fb.len(), FRAME_BYTES);
    assert!(fb.iter().all(|b| *b == 0));
}

#[test]
fn sprite_pair_split() {
    assert_eq!(xor_sprite_pair(0, 0, 0xF0, 1), (0x78, 0x00));
    assert_eq!(xor_sprite_pair(0, 0, 0xFF, 4), (0x0F, 0xF0));
    assert_eq!(xor_sprite_pair(0xFF, 0x01, 0x81, 7), (0xFE, 0x03));
    assert_eq!(xor_sprite_pair(0x0F, 0x55, 0xFF, 0), (0xF0, 0x55));
}
