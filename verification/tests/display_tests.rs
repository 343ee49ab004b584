use chip8::display::{Display, PixelBuffer, DISPLAY_AREA, DISPLAY_HEIGHT, DISPLAY_WIDTH};

fn blank() -> Display {
    Display::new(64, 32)
}

#[test]
fn new_display_is_blank() {
    let d = blank();
    assert_eq!(d.width, 64);
    assert_eq!(d.height, 32);
    assert_eq!(d.pixels.len(), DISPLAY_AREA);
    assert!(d.pixels.iter().all(|&p| !p));
}

#[test]
fn clear_turns_every_pixel_off() {
    let mut d = blank();
    d.draw_sprite(0, 0, &vec![0xFF]);
    assert!(d.pixels.iter().any(|&p| p));
    d.clear();
    assert!(d.pixels.iter().all(|&p| !p));
}

#[test]
fn draw_sets_the_sprite_bit_pattern() {
    let mut d = blank();
    let collision = d.draw_sprite(0, 0, &vec![0b1010_0001]);
    assert!(!collision);
    let f = d.frame();
    assert!(f.get_pixel(0, 0));
    assert!(!f.get_pixel(1, 0));
    assert!(f.get_pixel(2, 0));
    assert!(!f.get_pixel(3, 0));
    assert!(f.get_pixel(7, 0));
    assert!(!f.get_pixel(8, 0));
}

#[test]
fn draw_twice_restores_prior_state_and_reports_collision() {
    let mut d = blank();
    // some pre-existing pixels
    let pre = vec![0b0001_1000u8, 0b0010_0100];
    d.draw_sprite(3, 5, &pre);
    let before = d.pixels.clone();
    let sprite = vec![0xF0u8, 0x90, 0x90, 0x90, 0xF0];
    let first = d.draw_sprite(4, 4, &sprite);
    let second = d.draw_sprite(4, 4, &sprite);
    // the first draw turned pixels on, so the second must collide
    assert!(second);
    assert_eq!(d.pixels, before);
    let _ = first;
}

#[test]
fn collision_is_reported_when_a_lit_pixel_is_erased() {
    let mut d = blank();
    assert!(!d.draw_sprite(0, 0, &vec![0b1000_0000]));
    // overlaps the lit pixel at (0,0)
    assert!(d.draw_sprite(0, 0, &vec![0b1111_1111]));
    // the overlapping pixel was erased by the XOR
    assert!(!d.frame().get_pixel(0, 0));
    assert!(d.frame().get_pixel(1, 0));
}

#[test]
fn sprite_wraps_at_the_right_edge() {
    let mut d = blank();
    // x = width-1: first column at x=63, second column wraps to x=0
    d.draw_sprite(63, 0, &vec![0b1100_0000]);
    let f = d.frame();
    assert!(f.get_pixel(63, 0));
    assert!(f.get_pixel(0, 0));
    assert!(!f.get_pixel(1, 0));
    assert!(!f.get_pixel(62, 0));
}

#[test]
fn sprite_wraps_at_the_bottom_edge() {
    let mut d = blank();
    // y = height-1: first row at y=31, second row wraps to y=0
    d.draw_sprite(0, 31, &vec![0b1000_0000, 0b1000_0000]);
    let f = d.frame();
    assert!(f.get_pixel(0, 31));
    assert!(f.get_pixel(0, 0));
    assert!(!f.get_pixel(0, 1));
    assert!(!f.get_pixel(0, 30));
}

#[test]
fn coordinates_are_reduced_into_the_grid() {
    let mut d = blank();
    // 70 mod 64 == 6, 40 mod 32 == 8
    d.draw_sprite(70, 40, &vec![0b1000_0000]);
    assert!(d.frame().get_pixel(6, 8));
}

#[test]
fn sprite_rows_beyond_the_grid_height_are_skipped() {
    let mut d = blank();
    let mut sprite = vec![0u8; 33];
    sprite[32] = 0xFF; // would wrap onto row 0 if not skipped
    let collision = d.draw_sprite(0, 0, &sprite);
    assert!(!collision);
    assert!(d.pixels.iter().all(|&p| !p));
}

#[test]
fn empty_sprite_draws_nothing() {
    let mut d = blank();
    assert!(!d.draw_sprite(10, 10, &Vec::new()));
    assert!(d.pixels.iter().all(|&p| !p));
}

#[test]
fn frame_matches_the_grid() {
    let mut d = blank();
    d.draw_sprite(1, 2, &vec![0b1000_0000]);
    let f = d.frame();
    assert_eq!(f.pixels, d.pixels);
    assert!(f.get_pixel(1, 2));
}

#[test]
fn pixel_buffer_default_is_blank() {
    let f = PixelBuffer::default();
    assert_eq!(f.pixels.len(), DISPLAY_AREA);
    assert!(f.pixels.iter().all(|&p| !p));
}

#[test]
fn pixel_buffer_set_and_get() {
    let mut f = PixelBuffer::default();
    f.set_pixel(5, 7, true);
    assert!(f.get_pixel(5, 7));
    f.set_pixel(5, 7, false);
    assert!(!f.get_pixel(5, 7));
}

#[test]
fn pixel_buffer_out_of_range_reads_false_and_writes_nothing() {
    let mut f = PixelBuffer::default();
    f.set_pixel(DISPLAY_WIDTH, 0, true);
    f.set_pixel(0, DISPLAY_HEIGHT, true);
    assert!(f.pixels.iter().all(|&p| !p));
    assert!(!f.get_pixel(DISPLAY_WIDTH, 0));
    assert!(!f.get_pixel(0, DISPLAY_HEIGHT));
}

#[test]
fn pixel_buffer_clear() {
    let mut f = PixelBuffer::default();
    f.set_pixel(3, 3, true);
    f.clear();
    assert!(f.pixels.iter().all(|&p| !p));
}
