use raycaster::color::{is_transparent_color, Color};

#[test]
fn magic_color_is_transparent() {
    assert!(is_transparent_color(Color::transparent_key()));
    assert!(is_transparent_color(Color::new(152, 0, 136, 255)));
}

#[test]
fn near_black_and_near_white_are_transparent() {
    assert!(is_transparent_color(Color::new(10, 10, 10, 255)));
    assert!(is_transparent_color(Color::new(240, 240, 240, 255)));
    assert!(is_transparent_color(Color::white()));
}

#[test]
fn low_alpha_and_gray_bands_are_transparent() {
    assert!(is_transparent_color(Color::new(200, 30, 30, 127)));
    assert!(is_transparent_color(Color::new(64, 64, 64, 255)));
    assert!(is_transparent_color(Color::new(100, 110, 90, 255)));
}

#[test]
fn ordinary_colors_are_opaque() {
    assert!(!is_transparent_color(Color::new(200, 30, 30, 255)));
    assert!(!is_transparent_color(Color::new(200, 30, 30, 128)));
    assert!(!is_transparent_color(Color::new(25, 10, 10, 255)));
    assert!(!is_transparent_color(Color::new(231, 231, 230, 255)));
    assert!(!is_transparent_color(Color::new(50, 85, 86, 255)));
}

#[test]
fn classifier_answers_for_every_gray() {
    for v in 0..=255u8 {
        let dropped = is_transparent_color(Color::new(v, v, v, 255));
        let expected = (50..=115).contains(&v) || v < 25 || v > 230;
        assert_eq!(dropped, expected, "gray {}", v);
    }
}
