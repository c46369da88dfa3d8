use raycaster::enemy::{AnimationState, Enemy, MovementPattern, DESPAWN_MS, FRAME_DURATION_MS};
use raycaster::geometry::{Heading, Point, Trigonometry, UNIT};

struct FloatTrig;

impl Trigonometry for FloatTrig {
    fn unit_vector(&self, angle: i64) -> Heading {
        let a = angle as f64 / 1_000_000.0;
        let c = (a.cos() * UNIT as f64).round() as i64;
        let s = (a.sin() * UNIT as f64).round() as i64;
        Heading::new(c, s).unwrap_or_else(|| Heading::new(UNIT, 0).unwrap())
    }

    fn angle_of(&self, dx: i64, dy: i64) -> i64 {
        ((dy as f64).atan2(dx as f64) * 1_000_000.0).round() as i64
    }
}

fn open_floor(n: usize) -> Vec<Vec<char>> {
    vec![vec![' '; n]; n]
}

fn u(v: i64) -> i64 {
    v * UNIT
}

#[test]
fn new_enemy_is_idle_stationary() {
    let e = Enemy::new(u(10), u(20), 'a');
    assert_eq!(e.pos, Point::new(u(10), u(20)));
    assert_eq!(e.animation_state, AnimationState::Idle);
    assert_eq!(e.movement_pattern, MovementPattern::Stationary);
    assert_eq!(e.frame_duration, FRAME_DURATION_MS);
    assert!(!e.is_dead);
}

#[test]
fn constructors_set_pattern() {
    let p = Enemy::new_patrol(0, 0, 'a', u(100), 0);
    assert_eq!(p.movement_pattern, MovementPattern::Patrol);
    assert_eq!(p.target_pos, Point::new(u(100), 0));
    let w = Enemy::new_wander(u(5), u(5), 'a', u(80));
    assert_eq!(w.movement_pattern, MovementPattern::Wander);
    assert_eq!(w.wander_radius, u(80));
    let c = Enemy::new_chase(u(5), u(5), 'a');
    assert_eq!(c.movement_pattern, MovementPattern::Chase);
    assert_eq!(c.movement_speed, 75);
}

#[test]
fn death_animation_is_absorbing() {
    let maze = open_floor(10);
    let mut e = Enemy::new_chase(u(300), u(300), 'a');
    e.kill();
    assert!(e.is_dead);
    assert_eq!(e.animation_state, AnimationState::Death);
    e.set_animation(AnimationState::Walking);
    assert_eq!(e.animation_state, AnimationState::Death);
    e.set_animation(AnimationState::Attack);
    assert_eq!(e.animation_state, AnimationState::Death);
    for _ in 0..10 {
        e.update(250, Point::new(u(400), u(300)), &maze, 100, &FloatTrig);
        assert_eq!(e.animation_state, AnimationState::Death);
    }
    assert_eq!(e.pos, Point::new(u(300), u(300)));
    assert_eq!(e.current_frame, 3);
}

#[test]
fn dead_enemy_despawns_after_three_seconds() {
    let maze = open_floor(10);
    let mut e = Enemy::new(u(300), u(300), 'a');
    assert!(!e.should_despawn());
    e.kill();
    e.update(3000, Point::new(0, 0), &maze, 100, &FloatTrig);
    assert_eq!(e.death_timer, DESPAWN_MS);
    assert!(!e.should_despawn());
    e.update(1, Point::new(0, 0), &maze, 100, &FloatTrig);
    assert!(e.should_despawn());
}

#[test]
fn animation_cycles_four_frames() {
    let maze = open_floor(10);
    let mut e = Enemy::new(u(300), u(300), 'a');
    let frames: Vec<usize> = (0..6)
        .map(|_| {
            e.update(200, Point::new(0, 0), &maze, 100, &FloatTrig);
            e.current_frame
        })
        .collect();
    assert_eq!(frames, vec![1, 2, 3, 0, 1, 2]);
    e.update(100, Point::new(0, 0), &maze, 100, &FloatTrig);
    assert_eq!(e.current_frame, 2);
    assert_eq!(e.animation_timer, 100);
}

#[test]
fn patrol_flips_target_within_reach() {
    let maze = open_floor(10);
    let mut e = Enemy::new_patrol(u(200), u(200), 'a', u(500), u(200));
    e.pos = Point::new(u(495), u(200));
    e.update(16, Point::new(0, 0), &maze, 100, &FloatTrig);
    assert_eq!(e.target_pos, Point::new(u(200), u(200)));
    assert_eq!(e.pos, Point::new(u(495), u(200)));
    e.pos = Point::new(u(205), u(200));
    e.update(16, Point::new(0, 0), &maze, 100, &FloatTrig);
    assert_eq!(e.target_pos, Point::new(u(500), u(200)));
}

fn patrol_xs(start: i64, end: i64, frames: usize) -> (Vec<i64>, Enemy) {
    let maze = open_floor(10);
    let mut e = Enemy::new_patrol(start, u(200), 'a', end, u(200));
    let mut xs = vec![e.pos.x];
    for _ in 0..frames {
        e.update(50, Point::new(u(900), u(900)), &maze, 100, &FloatTrig);
        xs.push(e.pos.x);
    }
    (xs, e)
}

#[test]
fn patrol_walks_out_and_back() {
    let (xs, e) = patrol_xs(u(200), u(300), 200);
    let turn = xs.iter().position(|&x| x >= u(290)).expect("reaches the far end");
    for w in xs[..=turn].windows(2) {
        assert!(w[0] <= w[1]);
    }
    assert_eq!(e.patrol_end, Point::new(u(300), u(200)));
    let back = xs[turn..].iter().position(|&x| x <= u(210)).expect("comes back") + turn;
    for w in xs[turn + 1..=back].windows(2) {
        assert!(w[0] >= w[1]);
    }
    assert_eq!(xs[back], u(210));
}

#[test]
fn patrol_from_grid_corner_never_moves_backwards() {
    let maze = open_floor(10);
    let mut e = Enemy::new_patrol(0, 0, 'a', u(100), 0);
    let mut last = e.pos.x;
    for _ in 0..100 {
        e.update(50, Point::new(u(900), u(900)), &maze, 100, &FloatTrig);
        assert!(e.pos.x >= last);
        last = e.pos.x;
    }
    assert_eq!(e.pos, Point::new(0, 0));
    assert_eq!(e.animation_state, AnimationState::Idle);
}

#[test]
fn spawn_and_goal_cells_do_not_block_enemies() {
    let mut maze = open_floor(10);
    maze[5][6] = 'p';
    maze[5][4] = 'g';
    let e = Enemy::new(u(550), u(550), 'a');
    assert!(!e.would_collide_with_wall(Point::new(u(590), u(550)), &maze, 100));
    assert!(!e.would_collide_with_wall(Point::new(u(410), u(550)), &maze, 100));
    assert!(e.would_collide_with_wall(Point::new(u(10), u(550)), &maze, 100));
}

#[test]
fn chase_rests_outside_activation_band() {
    let maze = open_floor(10);
    let start = Point::new(u(500), u(500));
    for d in [10, 20, 300, 400] {
        let mut e = Enemy::new_chase(start.x, start.y, 'a');
        e.update(100, Point::new(u(500 + d), u(500)), &maze, 100, &FloatTrig);
        assert_eq!(e.pos, start, "distance {}", d);
        assert_eq!(e.animation_state, AnimationState::Idle);
    }
}

#[test]
fn chase_moves_toward_player_inside_band() {
    let maze = open_floor(10);
    let mut e = Enemy::new_chase(u(500), u(500), 'a');
    e.update(100, Point::new(u(650), u(500)), &maze, 100, &FloatTrig);
    assert_eq!(e.pos, Point::new(u(500) + 75 * UNIT / 10, u(500)));
    assert_eq!(e.animation_state, AnimationState::Walking);
    assert!(!e.facing_left);
}

#[test]
fn blocked_move_is_rejected() {
    let mut maze = open_floor(10);
    maze[5][6] = '#';
    let mut e = Enemy::new_chase(u(580), u(550), 'a');
    e.update(100, Point::new(u(700), u(550)), &maze, 100, &FloatTrig);
    assert_eq!(e.pos, Point::new(u(580), u(550)));
    assert_eq!(e.animation_state, AnimationState::Idle);
    assert!(e.would_collide_with_wall(Point::new(u(585), u(550)), &maze, 100));
    assert!(!e.would_collide_with_wall(Point::new(u(550), u(550)), &maze, 100));
    assert!(e.would_collide_with_wall(Point::new(u(990), u(550)), &maze, 100));
}

#[test]
fn wander_picks_target_from_position() {
    let maze = open_floor(10);
    let mut e = Enemy::new_wander(u(501), u(500), 'a', u(100));
    assert_eq!(e.wander_angle(), 10_010_000);
    e.update(2001, Point::new(0, 0), &maze, 100, &FloatTrig);
    assert_eq!(e.movement_timer, 0);
    let angle = 10.01f64;
    let dist = 50.0 + 50.0 * angle.sin().abs();
    let tx = 501.0 + dist * angle.cos();
    let ty = 500.0 + dist * angle.sin();
    assert!((e.target_pos.x as f64 / UNIT as f64 - tx).abs() < 0.1);
    assert!((e.target_pos.y as f64 / UNIT as f64 - ty).abs() < 0.1);
    assert_eq!(e.animation_state, AnimationState::Walking);
}

#[test]
fn wander_keeps_target_before_its_period() {
    let maze = open_floor(10);
    let mut e = Enemy::new_wander(u(500), u(500), 'a', u(100));
    e.update(3999, Point::new(0, 0), &maze, 100, &FloatTrig);
    assert_eq!(e.movement_timer, 3999);
    assert_eq!(e.target_pos, Point::new(u(500), u(500)));
    assert_eq!(e.pos, Point::new(u(500), u(500)));
}

#[test]
fn wander_angle_is_hundredth_of_coordinate_sum() {
    let e = Enemy::new_wander(u(300), u(200), 'a', u(100));
    assert_eq!(e.wander_angle(), 5_000_000);
}

#[test]
fn wander_period_stays_between_two_and_four_seconds_left_of_origin() {
    let maze = open_floor(10);
    let mut e = Enemy::new_wander(-u(1), u(500), 'a', u(100));
    e.update(3999, Point::new(0, 0), &maze, 100, &FloatTrig);
    assert_eq!(e.movement_timer, 3999);
    assert_eq!(e.target_pos, Point::new(-u(1), u(500)));
    e.update(2, Point::new(0, 0), &maze, 100, &FloatTrig);
    assert_eq!(e.movement_timer, 0);
    assert_ne!(e.target_pos, Point::new(-u(1), u(500)));
}
