use raycaster::caster::{cast_ray, BOUNDARY};
use raycaster::framebuffer::Framebuffer;
use raycaster::geometry::{Heading, Point, UNIT};
use raycaster::player::Player;

fn grid(rows: &[&str]) -> Vec<Vec<char>> {
    rows.iter().map(|r| r.chars().collect()).collect()
}

fn heading(angle: f64) -> Heading {
    let c = (angle.cos() * UNIT as f64).round() as i64;
    let s = (angle.sin() * UNIT as f64).round() as i64;
    Heading::new(c, s).unwrap()
}

fn player_at(x: i64, y: i64) -> Player {
    Player::new(Point::new(x * UNIT, y * UNIT), 0, 1047198, 10000)
}

#[test]
fn ray_hits_diagonal_wall_near_its_corner() {
    let maze = grid(&["   ", " # ", "   "]);
    let mut fb = Framebuffer::new(4, 4);
    let player = player_at(32, 32);
    let r = cast_ray(&mut fb, &maze, &player, &heading(std::f64::consts::FRAC_PI_4), 64, false);
    assert_eq!(r.impact, '#');
    let straight = (32.0f64 * 32.0 * 2.0).sqrt();
    assert!((r.distance as f64 - straight).abs() <= 1.0, "distance {}", r.distance);
}

#[test]
fn ray_distance_counts_unit_steps() {
    let maze = grid(&["   |  "]);
    let mut fb = Framebuffer::new(4, 4);
    let player = player_at(50, 50);
    let r = cast_ray(&mut fb, &maze, &player, &Heading::new(UNIT, 0).unwrap(), 100, false);
    assert_eq!(r.impact, '|');
    assert_eq!(r.distance, 250);
    assert!(r.tx <= 127);
}

#[test]
fn ray_leaving_grid_reports_boundary() {
    let maze = grid(&["    ", "    "]);
    let mut fb = Framebuffer::new(4, 4);
    let player = player_at(50, 50);
    let r = cast_ray(&mut fb, &maze, &player, &Heading::new(-UNIT, 0).unwrap(), 100, false);
    assert_eq!(r.impact, BOUNDARY);
    assert_eq!(r.distance, 51);
    assert_eq!(r.tx, 0);
    let down = cast_ray(&mut fb, &maze, &player, &Heading::new(0, UNIT).unwrap(), 100, false);
    assert_eq!(down.impact, BOUNDARY);
    assert_eq!(down.distance, 150);
}

#[test]
fn ray_walks_through_spawn_marker() {
    let maze = grid(&[" p +"]);
    let mut fb = Framebuffer::new(4, 4);
    let player = player_at(5, 5);
    let r = cast_ray(&mut fb, &maze, &player, &Heading::new(UNIT, 0).unwrap(), 10, false);
    assert_eq!(r.impact, '+');
    assert_eq!(r.distance, 25);
}

#[test]
fn ray_texture_column_uses_x_offset_inside_cell() {
    let maze = grid(&["  ", "# "]);
    let mut fb = Framebuffer::new(4, 4);
    let player = player_at(50, 50);
    let r = cast_ray(&mut fb, &maze, &player, &Heading::new(0, UNIT).unwrap(), 100, false);
    assert_eq!(r.impact, '#');
    assert_eq!(r.distance, 50);
    assert_eq!(r.tx, 50 * 127 / 100);
}

#[test]
fn ray_hit_is_a_map_wall_or_boundary_for_many_angles() {
    let maze = grid(&["+-----+", "|     |", "|  #  |", "|     |", "+-----+"]);
    let mut fb = Framebuffer::new(4, 4);
    let player = player_at(150, 150);
    for k in 0..64 {
        let a = k as f64 * std::f64::consts::PI / 32.0;
        let r = cast_ray(&mut fb, &maze, &player, &heading(a), 100, false);
        let in_map = maze.iter().any(|row| row.contains(&r.impact));
        assert!(r.impact == BOUNDARY || (in_map && r.impact != ' ' && r.impact != 'p'));
    }
}

#[test]
fn ray_draws_trace_only_when_asked() {
    let maze = grid(&["    "]);
    let mut fb = Framebuffer::new(40, 10);
    let player = player_at(2, 5);
    cast_ray(&mut fb, &maze, &player, &Heading::new(UNIT, 0).unwrap(), 10, false);
    assert_eq!(fb.color_at(5, 5), raycaster::color::Color::black());
    cast_ray(&mut fb, &maze, &player, &Heading::new(UNIT, 0).unwrap(), 10, true);
    assert_eq!(fb.color_at(5, 5), raycaster::color::Color::whitesmoke());
    assert_eq!(fb.get_depth(5, 5), u64::MAX);
}
