use raycaster::framebuffer::Framebuffer;

#[test]
fn new_framebuffer_is_black_with_white_pen() {
    let fb = Framebuffer::new(4, 3);
    assert_eq!(fb.width, 4);
    assert_eq!(fb.height, 3);
    assert_eq!(fb.buffer.len(), 12);
    assert!(fb.buffer.iter().all(|&p| p == 0));
    assert_eq!(fb.background_color, 0x000000);
    assert_eq!(fb.current_color, 0xFFFFFF);
}

#[test]
fn new_framebuffer_of_zero_width_is_empty() {
    let mut fb = Framebuffer::new(0, 5);
    assert!(fb.buffer.is_empty());
    fb.point(0, 0);
    fb.clear();
    assert!(fb.buffer.is_empty());
}

#[test]
fn point_paints_one_pixel_with_the_pen() {
    let mut fb = Framebuffer::new(4, 3);
    fb.set_current_color(0x123456);
    fb.point(2, 1);
    for (i, &p) in fb.buffer.iter().enumerate() {
        if i == 1 * 4 + 2 {
            assert_eq!(p, 0x123456);
        } else {
            assert_eq!(p, 0);
        }
    }
}

#[test]
fn point_uses_default_white_pen() {
    let mut fb = Framebuffer::new(2, 2);
    fb.point(1, 1);
    assert_eq!(fb.buffer, vec![0, 0, 0, 0xFFFFFF]);
}

#[test]
fn point_outside_the_grid_is_ignored() {
    let mut fb = Framebuffer::new(4, 3);
    fb.set_current_color(0xABCDEF);
    fb.point(4, 0);
    fb.point(0, 3);
    fb.point(100, 100);
    assert!(fb.buffer.iter().all(|&p| p == 0));
}

#[test]
fn clear_paints_every_pixel_with_the_background() {
    let mut fb = Framebuffer::new(3, 3);
    fb.point(0, 0);
    fb.point(2, 2);
    fb.set_background_color(0x333355);
    fb.clear();
    assert!(fb.buffer.iter().all(|&p| p == 0x333355));
    assert_eq!(fb.current_color, 0xFFFFFF);
}

#[test]
fn clear_twice_is_the_same_as_once() {
    let mut fb = Framebuffer::new(3, 2);
    fb.set_background_color(7);
    fb.point(1, 1);
    fb.clear();
    let once = fb.buffer.clone();
    fb.clear();
    assert_eq!(fb.buffer, once);
}

#[test]
fn setting_colours_leaves_the_pixels() {
    let mut fb = Framebuffer::new(2, 2);
    fb.point(0, 1);
    let before = fb.buffer.clone();
    fb.set_background_color(1);
    fb.set_current_color(2);
    assert_eq!(fb.buffer, before);
    assert_eq!(fb.background_color, 1);
    assert_eq!(fb.current_color, 2);
}

#[test]
fn glyph_pixel_is_moved_by_the_bounding_box() {
    let mut fb = Framebuffer::new(5, 4);
    fb.plot_glyph_pixel(5, 1, -3, 2, 0xFFFFFF);
    // lands on (2, 3)
    assert_eq!(fb.buffer[3 * 5 + 2], 0xFFFFFF);
    assert_eq!(fb.buffer.iter().filter(|&&p| p != 0).count(), 1);
    assert_eq!(fb.current_color, 0xFFFFFF);
}

#[test]
fn glyph_pixel_does_not_use_the_pen() {
    let mut fb = Framebuffer::new(3, 3);
    fb.set_current_color(9);
    fb.plot_glyph_pixel(0, 0, 1, 1, 0x00FF00);
    assert_eq!(fb.buffer[1 * 3 + 1], 0x00FF00);
    assert_eq!(fb.current_color, 9);
}

#[test]
fn glyph_pixel_off_the_grid_is_ignored() {
    let mut fb = Framebuffer::new(3, 3);
    fb.plot_glyph_pixel(0, 0, -1, 0, 5);
    fb.plot_glyph_pixel(3, 0, 0, 0, 5);
    fb.plot_glyph_pixel(0, 2, 0, 1, 5);
    fb.plot_glyph_pixel(0, 0, 0, -5, 5);
    assert!(fb.buffer.iter().all(|&p| p == 0));
}
