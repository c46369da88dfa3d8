use raycaster::color::Color;
use raycaster::texture::{get_pixel_color, Image, SpriteSheet, TextureManager};

fn ramp(w: u32, h: u32) -> Image {
    let mut px = Vec::new();
    for y in 0..h {
        for x in 0..w {
            px.push(Color::new(x as u8, y as u8, 7, 255));
        }
    }
    Image::from_pixels(w, h, px).unwrap()
}

#[test]
fn image_needs_matching_pixel_count() {
    assert!(Image::from_pixels(2, 2, vec![Color::black(); 3]).is_none());
    assert!(Image::from_pixels(2, 2, vec![Color::black(); 4]).is_some());
}

#[test]
fn pixel_lookup_is_row_major_and_white_outside() {
    let img = ramp(4, 3);
    assert_eq!(get_pixel_color(&img, 3, 2), Color::new(3, 2, 7, 255));
    assert_eq!(get_pixel_color(&img, 4, 0), Color::white());
    assert_eq!(get_pixel_color(&img, -1, 0), Color::white());
}

#[test]
fn sampler_clamps_and_falls_back_to_white() {
    let mut tm = TextureManager::new();
    tm.insert_image('#', ramp(4, 3));
    assert_eq!(tm.get_pixel_color('#', 1, 1), Color::new(1, 1, 7, 255));
    assert_eq!(tm.get_pixel_color('#', 100, 100), Color::new(3, 2, 7, 255));
    assert_eq!(tm.get_pixel_color('?', 0, 0), Color::white());
    tm.insert_image('z', Image::solid(0, 0, Color::red()));
    assert_eq!(tm.get_pixel_color('z', 0, 0), Color::white());
}

#[test]
fn insert_replaces_binding() {
    let mut tm = TextureManager::new();
    tm.insert_image('#', Image::solid(2, 2, Color::red()));
    tm.insert_image('#', Image::solid(2, 2, Color::blue()));
    assert_eq!(tm.get_pixel_color('#', 0, 0), Color::blue());
}

#[test]
fn sprite_frames_offset_into_sheet() {
    let mut tm = TextureManager::new();
    let sheet = SpriteSheet::new(ramp(8, 6), 4, 3);
    assert_eq!((sheet.frame_width, sheet.frame_height), (2, 2));
    tm.insert_sprite_sheet('a', sheet);
    assert!(tm.has_sprite_sheet('a'));
    assert!(!tm.has_sprite_sheet('b'));
    assert_eq!(tm.get_sprite_frame_size('a'), Some((2, 2)));
    assert_eq!(tm.get_sprite_frame_size('b'), None);
    assert_eq!(tm.get_sprite_frame_color('a', 2, 1, 1, 0), Color::new(5, 2, 7, 255));
    assert_eq!(tm.get_sprite_frame_color('a', 9, 9, 1, 1), Color::new(7, 5, 7, 255));
}

#[test]
fn sprite_frame_without_sheet_uses_plain_texture() {
    let mut tm = TextureManager::new();
    tm.insert_image('e', ramp(4, 4));
    assert_eq!(tm.get_sprite_frame_color('e', 3, 3, 2, 1), Color::new(2, 1, 7, 255));
}
