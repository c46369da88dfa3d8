use raycaster::geometry::{isqrt, Heading, Point, Trigonometry, UNIT};
use raycaster::maze::find_player_start;
use raycaster::placement::{create_enemies_for_maze, find_valid_position_near, is_valid_enemy_position};
use raycaster::player::{check_collision, Player};

struct FloatTrig;

impl Trigonometry for FloatTrig {
    fn unit_vector(&self, angle: i64) -> Heading {
        let a = angle as f64 / 1_000_000.0;
        let c = (a.cos() * UNIT as f64).round() as i64;
        let s = (a.sin() * UNIT as f64).round() as i64;
        Heading::new(c, s).unwrap_or_else(|| Heading::new(UNIT, 0).unwrap())
    }

    fn angle_of(&self, dx: i64, dy: i64) -> i64 {
        ((dy as f64).atan2(dx as f64) * 1_000_000.0).round() as i64
    }
}

fn grid(rows: &[&str]) -> Vec<Vec<char>> {
    rows.iter().map(|r| r.chars().collect()).collect()
}

fn u(v: i64) -> i64 {
    v * UNIT
}

#[test]
fn square_root_floors() {
    assert_eq!(isqrt(0), 0);
    assert_eq!(isqrt(15), 3);
    assert_eq!(isqrt(16), 4);
    assert_eq!(isqrt(1 << 80), 1 << 40);
}

#[test]
fn heading_rejects_bad_components() {
    assert!(Heading::new(0, 0).is_none());
    assert!(Heading::new(UNIT + 1, 0).is_none());
    assert!(Heading::new(1, 0).is_none());
    assert!(Heading::new(46341, 46341).is_some());
    let h = Heading::new(-UNIT, 3).unwrap();
    assert_eq!((h.cos(), h.sin()), (-UNIT, 3));
}

#[test]
fn player_starts_at_spawn_of_last_row_holding_one() {
    let maze = grid(&["+++++", "+p  +", "+ pp+", "+++++"]);
    assert_eq!(find_player_start(&maze, 100), Point::new(u(250), u(250)));
    let none = grid(&["+++", "+ +", "+++"]);
    assert_eq!(find_player_start(&none, 100), Point::new(u(150), u(150)));
}

#[test]
fn player_collision_treats_spawn_as_floor() {
    let maze = grid(&["+p +"]);
    assert!(check_collision(&maze, u(5), u(5), 10));
    assert!(!check_collision(&maze, u(15), u(5), 10));
    assert!(!check_collision(&maze, u(25), u(5), 10));
    assert!(check_collision(&maze, -1, u(5), 10));
    assert!(check_collision(&maze, u(45), u(5), 10));
}

#[test]
fn player_moves_only_into_open_cells() {
    let maze = grid(&["+  +"]);
    let mut p = Player::new(Point::new(u(15), u(5)), 0, 1047198, 10000);
    assert!(p.try_move(&maze, u(10), 0, 10));
    assert_eq!(p.pos, Point::new(u(25), u(5)));
    assert!(!p.try_move(&maze, u(10), 0, 10));
    assert_eq!(p.pos, Point::new(u(25), u(5)));
    p.turn(100);
    assert_eq!(p.a, 100);
    p.turn(i64::MAX);
    assert_eq!(p.a, i64::MAX);
}

#[test]
fn attack_runs_its_course() {
    let mut p = Player::new(Point::new(0, 0), 0, 1047198, 10000);
    assert_eq!(p.get_attack_progress(), 0);
    p.start_attack();
    assert!(p.is_attacking);
    assert_eq!(p.attack_timer, 250);
    assert_eq!(p.attack_cooldown, 100);
    p.update_attack(50);
    assert_eq!(p.get_attack_progress(), 200);
    assert_eq!(p.attack_cooldown, 50);
    p.start_attack();
    assert_eq!(p.attack_timer, 200);
    p.update_attack(300);
    assert!(!p.is_attacking);
    assert_eq!(p.attack_timer, 0);
    assert_eq!(p.attack_cooldown, 0);
    p.start_attack();
    assert!(p.is_attacking);
}

#[test]
fn enemy_positions_must_be_floor() {
    let maze = grid(&["+ p", "   "]);
    assert!(!is_valid_enemy_position(u(50), u(50), &maze, 100));
    assert!(is_valid_enemy_position(u(150), u(50), &maze, 100));
    assert!(!is_valid_enemy_position(u(250), u(50), &maze, 100));
    assert!(!is_valid_enemy_position(u(350), u(50), &maze, 100));
    assert!(!is_valid_enemy_position(-u(10), u(150), &maze, 100));
}

#[test]
fn free_spot_is_searched_nearby() {
    let maze = grid(&["   ", " # ", "   "]);
    let p = find_valid_position_near(u(150), u(150), &maze, 100, 5, &FloatTrig);
    assert_eq!(p, Point::new(u(200), u(150)));
    let q = find_valid_position_near(u(50), u(50), &maze, 100, 5, &FloatTrig);
    assert_eq!(q, Point::new(u(50), u(50)));
    let walls = grid(&["##", "##"]);
    let r = find_valid_position_near(u(50), u(50), &walls, 100, 5, &FloatTrig);
    assert_eq!(r, Point::new(u(150), u(150)));
}

#[test]
fn level_is_populated_on_floor() {
    let maze = grid(&["                    "; 20]);
    let enemies = create_enemies_for_maze(&maze, 100, &FloatTrig);
    assert_eq!(enemies.len(), 31);
    for e in &enemies {
        assert!(is_valid_enemy_position(e.pos.x, e.pos.y, &maze, 100));
        assert_eq!(e.texture_key, 'a');
    }
    assert_eq!(enemies[0].pos, Point::new(u(2000) / 6, u(2000) / 6));
    assert_eq!(enemies[0].patrol_end, Point::new(u(2000) / 6 + u(200), u(2000) / 6));
    assert_eq!(enemies[10].wander_radius, u(120));
}
