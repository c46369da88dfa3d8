use raycaster::color::Color;
use raycaster::framebuffer::{Framebuffer, INFINITE_DEPTH};

#[test]
fn new_frame_is_black_and_infinitely_deep() {
    let fb = Framebuffer::new(3, 2);
    assert_eq!(fb.width(), 3);
    assert_eq!(fb.height(), 2);
    assert_eq!(fb.color_at(2, 1), Color::black());
    assert_eq!(fb.get_depth(0, 0), INFINITE_DEPTH);
}

#[test]
fn depth_outside_frame_is_infinite() {
    let mut fb = Framebuffer::new(3, 2);
    assert!(fb.set_pixel_with_depth(1, 1, 5));
    assert_eq!(fb.get_depth(3, 0), INFINITE_DEPTH);
    assert_eq!(fb.get_depth(0, 2), INFINITE_DEPTH);
    assert!(!fb.set_pixel_with_depth(3, 0, 1));
}

#[test]
fn depth_keeps_nearest_and_first_writer_wins_ties() {
    let mut fb = Framebuffer::new(2, 2);
    let red = Color::new(200, 0, 0, 255);
    let green = Color::new(0, 200, 0, 255);
    let blue = Color::new(0, 0, 200, 255);
    fb.set_current_color(red);
    assert!(fb.set_pixel_with_depth(1, 0, 30));
    fb.set_current_color(green);
    assert!(fb.set_pixel_with_depth(1, 0, 10));
    fb.set_current_color(blue);
    assert!(!fb.set_pixel_with_depth(1, 0, 10));
    assert!(!fb.set_pixel_with_depth(1, 0, 20));
    assert_eq!(fb.get_depth(1, 0), 10);
    assert_eq!(fb.color_at(1, 0), green);
}

#[test]
fn write_after_clear_succeeds() {
    let mut fb = Framebuffer::new(4, 4);
    fb.set_background_color(Color::new(50, 50, 100, 255));
    assert!(fb.set_pixel_with_depth(2, 3, 1));
    fb.clear();
    assert_eq!(fb.get_depth(2, 3), INFINITE_DEPTH);
    assert_eq!(fb.color_at(2, 3), Color::new(50, 50, 100, 255));
    assert!(fb.set_pixel_with_depth(2, 3, INFINITE_DEPTH - 1));
}

#[test]
fn plain_pixel_ignores_depth() {
    let mut fb = Framebuffer::new(2, 2);
    assert!(fb.set_pixel_with_depth(0, 0, 1));
    fb.set_current_color(Color::new(1, 2, 3, 255));
    fb.set_pixel(0, 0);
    fb.set_pixel(5, 5);
    assert_eq!(fb.color_at(0, 0), Color::new(1, 2, 3, 255));
    assert_eq!(fb.get_depth(0, 0), 1);
}
