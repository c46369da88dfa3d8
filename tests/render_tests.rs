use raycaster::color::Color;
use raycaster::enemy::{AnimationState, Enemy};
use raycaster::framebuffer::{Framebuffer, INFINITE_DEPTH};
use raycaster::geometry::{Heading, Point, Trigonometry, UNIT};
use raycaster::player::Player;
use raycaster::render::{
    check_goal_reached, draw_cell, draw_sprite, fill_backdrop, has_line_of_sight,
    render_enemies, render_maze, render_world, render_world_with_rays, SKY_DEPTH,
};
use raycaster::texture::{Image, TextureManager};

struct FloatTrig;

impl Trigonometry for FloatTrig {
    fn unit_vector(&self, angle: i64) -> Heading {
        let a = angle as f64 / 1_000_000.0;
        let c = (a.cos() * UNIT as f64).round() as i64;
        let s = (a.sin() * UNIT as f64).round() as i64;
        Heading::new(c, s).unwrap_or_else(|| Heading::new(UNIT, 0).unwrap())
    }

    fn angle_of(&self, dx: i64, dy: i64) -> i64 {
        ((dy as f64).atan2(dx as f64) * 1_000_000.0).round() as i64
    }
}

fn grid(rows: &[&str]) -> Vec<Vec<char>> {
    rows.iter().map(|r| r.chars().collect()).collect()
}

fn u(v: i64) -> i64 {
    v * UNIT
}

fn red_textures() -> TextureManager {
    let mut tm = TextureManager::new();
    tm.insert_image('#', Image::solid(8, 8, Color::red()));
    tm.insert_image('e', Image::solid(8, 8, Color::red()));
    tm
}

#[test]
fn backdrop_flat_in_performance_mode() {
    let mut fb = Framebuffer::new(3, 4);
    fill_backdrop(&mut fb, true);
    assert_eq!(fb.color_at(0, 1), Color::new(120, 40, 40, 255));
    assert_eq!(fb.color_at(2, 2), Color::new(30, 8, 8, 255));
    assert_eq!(fb.get_depth(1, 3), SKY_DEPTH);
}

#[test]
fn backdrop_gradients_in_quality_mode() {
    let mut fb = Framebuffer::new(2, 5);
    fill_backdrop(&mut fb, false);
    assert_eq!(fb.color_at(0, 0), Color::new(60, 20, 20, 255));
    assert_eq!(fb.color_at(1, 1), Color::new(108, 36, 32, 255));
    assert_eq!(fb.color_at(0, 2), Color::new(10, 5, 5, 255));
    assert_eq!(fb.color_at(0, 3), Color::new(30, 9, 9, 255));
    assert_eq!(fb.get_depth(0, 4), SKY_DEPTH);
    assert_eq!(fb.color_at(0, 4), Color::new(50, 13, 13, 255));
}

#[test]
fn wall_column_height_depth_and_fog() {
    let maze = grid(&["   #"]);
    let player = Player::new(Point::new(u(50), u(50)), 0, 1047198, 0);
    let tm = red_textures();
    let dirs = vec![Heading::new(UNIT, 0).unwrap(); 2];
    let mut fb = Framebuffer::new(2, 100);
    render_world_with_rays(&mut fb, &maze, 100, &player, &tm, false, &dirs);
    assert_eq!(fb.get_depth(0, 42), SKY_DEPTH);
    assert_eq!(fb.get_depth(0, 43), 250 * UNIT as u64);
    assert_eq!(fb.get_depth(1, 56), 250 * UNIT as u64);
    assert_eq!(fb.get_depth(1, 57), SKY_DEPTH);
    assert_eq!(fb.color_at(0, 50), Color::new(201, 44, 60, 255));
    let mut quick = Framebuffer::new(2, 100);
    render_world_with_rays(&mut quick, &maze, 100, &player, &tm, true, &dirs);
    assert_eq!(quick.color_at(1, 50), Color::red());
}

#[test]
fn render_world_casts_center_column_ahead() {
    let maze = grid(&["    #"]);
    let player = Player::new(Point::new(u(50), u(50)), 0, 1047198, 0);
    let tm = red_textures();
    let mut fb = Framebuffer::new(2, 100);
    render_world(&mut fb, &maze, 100, &player, &tm, true, &FloatTrig);
    assert_eq!(fb.get_depth(1, 50), 350 * UNIT as u64);
}

#[test]
fn near_wall_fills_whole_column() {
    let maze = grid(&[" #"]);
    let player = Player::new(Point::new(u(90), u(50)), 0, 1047198, 0);
    let tm = red_textures();
    let dirs = vec![Heading::new(UNIT, 0).unwrap()];
    let mut fb = Framebuffer::new(1, 10);
    render_world_with_rays(&mut fb, &maze, 100, &player, &tm, true, &dirs);
    for y in 0..10 {
        assert_eq!(fb.get_depth(0, y), 10 * UNIT as u64);
    }
}

#[test]
fn line_of_sight_stops_at_walls() {
    let maze = grid(&["     ", "  #  ", "     "]);
    assert!(has_line_of_sight(Point::new(u(50), u(50)), Point::new(u(450), u(50)), &maze, 100));
    assert!(!has_line_of_sight(Point::new(u(50), u(150)), Point::new(u(450), u(150)), &maze, 100));
    assert!(has_line_of_sight(Point::new(u(50), u(50)), Point::new(u(50), u(50)), &maze, 100));
}

#[test]
fn only_walls_block_sight() {
    let maze = grid(&["     ", " pg  ", "     "]);
    assert!(has_line_of_sight(Point::new(u(50), u(150)), Point::new(u(450), u(150)), &maze, 100));
    assert!(has_line_of_sight(Point::new(-u(90), u(50)), Point::new(-u(10), u(50)), &grid(&["+ "]), 100));
}

#[test]
fn sprite_square_is_centered_and_clipped_at_the_edge() {
    let maze = grid(&["      ", "      ", "      "]);
    let player = Player::new(Point::new(u(100), u(100)), 0, 1047198, 0);
    let enemy = Enemy::new(u(300), u(100), 'a');
    let tm = red_textures();
    let mut fb = Framebuffer::new(100, 100);
    draw_sprite(&mut fb, &player, &enemy, &tm, &maze, 100, -523599);
    assert_eq!(fb.color_at(0, 50), Color::red());
    assert_eq!(fb.color_at(17, 50), Color::red());
    assert_eq!(fb.get_depth(18, 50), INFINITE_DEPTH);
}

#[test]
fn goal_is_reached_near_its_center() {
    let maze = grid(&["  g ", "    "]);
    let at = |x: i64, y: i64| Player::new(Point::new(u(x), u(y)), 0, 1047198, 0);
    assert!(check_goal_reached(&at(250, 50), &maze, 100));
    assert!(check_goal_reached(&at(190, 50), &maze, 100));
    assert!(!check_goal_reached(&at(150, 50), &maze, 100));
    assert!(!check_goal_reached(&at(50, 150), &maze, 100));
}

#[test]
fn cell_square_is_painted_white() {
    let mut fb = Framebuffer::new(10, 10);
    draw_cell(&mut fb, 2, 3, 4, '#');
    assert_eq!(fb.color_at(2, 3), Color::white());
    assert_eq!(fb.color_at(5, 6), Color::white());
    assert_eq!(fb.color_at(6, 3), Color::black());
    assert_eq!(fb.color_at(2, 7), Color::black());
    let mut empty = Framebuffer::new(10, 10);
    draw_cell(&mut empty, 2, 3, 4, ' ');
    assert_eq!(empty.color_at(3, 4), Color::black());
}

#[test]
fn top_down_map_shows_walls_and_rays() {
    let maze = grid(&["#   ", "    "]);
    let player = Player::new(Point::new(u(15), u(15)), 0, 1047198, 0);
    let mut fb = Framebuffer::new(40, 20);
    render_maze(&mut fb, &maze, 10, &player, &FloatTrig);
    assert_eq!(fb.color_at(3, 3), Color::white());
    assert_eq!(fb.color_at(24, 16), Color::whitesmoke());
    assert_eq!(fb.get_depth(24, 16), INFINITE_DEPTH);
}

#[test]
fn sprite_is_composited_in_front_of_far_pixels() {
    let maze = grid(&["      ", "      ", "      "]);
    let player = Player::new(Point::new(u(100), u(100)), 0, 1047198, 0);
    let enemy = Enemy::new(u(300), u(100), 'a');
    let tm = red_textures();
    let mut fb = Framebuffer::new(100, 100);
    fill_backdrop(&mut fb, true);
    draw_sprite(&mut fb, &player, &enemy, &tm, &maze, 100, 0);
    assert_eq!(fb.color_at(50, 50), Color::red());
    assert_eq!(fb.get_depth(50, 50), 200 * UNIT as u64);
    assert_eq!(fb.get_depth(10, 50), SKY_DEPTH);
}

#[test]
fn sprite_behind_nearer_pixels_is_hidden() {
    let maze = grid(&["      ", "      ", "      "]);
    let player = Player::new(Point::new(u(100), u(100)), 0, 1047198, 0);
    let enemy = Enemy::new(u(300), u(100), 'a');
    let tm = red_textures();
    let mut fb = Framebuffer::new(100, 100);
    fb.set_current_color(Color::blue());
    assert!(fb.set_pixel_with_depth(50, 50, 10));
    draw_sprite(&mut fb, &player, &enemy, &tm, &maze, 100, FloatTrig.angle_of(u(200), 0));
    assert_eq!(fb.color_at(50, 50), Color::blue());
    assert_eq!(fb.get_depth(50, 50), 10);
    assert_eq!(fb.color_at(51, 50), Color::red());
}

#[test]
fn sprite_outside_view_or_range_is_skipped() {
    let maze = grid(&["      ", "      ", "      "]);
    let player = Player::new(Point::new(u(100), u(100)), 0, 1047198, 0);
    let tm = red_textures();
    let mut fb = Framebuffer::new(100, 100);
    let behind = Enemy::new(u(300), u(100), 'a');
    draw_sprite(&mut fb, &player, &behind, &tm, &maze, 100, 3_000_000);
    let close = Enemy::new(u(120), u(100), 'a');
    draw_sprite(&mut fb, &player, &close, &tm, &maze, 100, 0);
    for x in 0..100 {
        assert_eq!(fb.get_depth(x, 50), INFINITE_DEPTH);
    }
}

#[test]
fn enemies_fight_and_despawn() {
    let maze = grid(&["          "; 10]);
    let player = Player::new(Point::new(u(500), u(500)), 0, 1047198, 0);
    let tm = red_textures();
    let mut fb = Framebuffer::new(20, 20);
    let near = Enemy::new(u(550), u(500), 'a');
    let close = Enemy::new(u(600), u(500), 'a');
    let mut gone = Enemy::new(u(200), u(200), 'a');
    gone.kill();
    gone.death_timer = 3001;
    let far = Enemy::new(u(900), u(900), 'a');
    let mut enemies = vec![near, gone, close, far];
    render_enemies(&mut fb, &player, &mut enemies, &tm, 16, &maze, 100, &FloatTrig);
    assert_eq!(enemies.len(), 3);
    assert!(enemies[0].is_dead);
    assert_eq!(enemies[0].animation_state, AnimationState::Death);
    assert!(!enemies[1].is_dead);
    assert_eq!(enemies[1].animation_state, AnimationState::Attack);
    assert_eq!(enemies[2].animation_state, AnimationState::Idle);
}
