use vstd::prelude::*;
use vstd::arithmetic::div_mod::{lemma_div_is_ordered, lemma_div_by_multiple};

use crate::geometry::{Heading, Point, Trigonometry, UNIT, COORD_LIMIT, isqrt, sqrt_floor, quot, div_toward_zero, lemma_quot_step_bound};
use crate::maze::{Maze, maze_fits, on_grid, on_wall, point_blocked};

verus! {

#[derive(Clone, Copy, Debug, PartialEq, Eq, Structural)]
pub enum AnimationState {
    Idle,
    Walking,
    Attack,
    Death,
}

#[derive(Clone, Copy, Debug, PartialEq, Eq, Structural)]
pub enum MovementPattern {
    /// Never moves.
    Stationary,
    /// Walks back and forth between two points.
    Patrol,
    /// Walks to points around a center, chosen from its own position.
    Wander,
    /// Walks toward the player while the player is neither too near nor too far.
    Chase,
}

/// Milliseconds each animation frame is shown.
pub const FRAME_DURATION_MS: u64 = 200;

/// Frames in every animation.
pub const ANIMATION_FRAMES: usize = 4;

/// Milliseconds a dead enemy stays before it is removed.
pub const DESPAWN_MS: u64 = 3000;

/// Walking speed, in world units per second.
pub const WALK_SPEED: i64 = 50;

/// Speed of a chasing enemy, in world units per second.
pub const CHASE_SPEED: i64 = 75;

/// The largest speed an enemy may have, in world units per second.
pub const SPEED_LIMIT: i64 = 0x10_0000;

/// Wander radius of a new enemy, in world units.
pub const DEFAULT_WANDER_RADIUS: i64 = 100;

/// A patrolling enemy turns back once nearer than this to its target, in world units.
pub const PATROL_REACH: i64 = 10;

/// A wandering enemy stops once this near to its target, in world units.
pub const WANDER_REACH: i64 = 5;

/// A chasing enemy stops once the player is this near, in world units.
pub const CHASE_MIN: i64 = 20;

/// A chasing enemy ignores a player this far away or farther, in world units.
pub const CHASE_MAX: i64 = 300;

/// Half the side of the square an enemy occupies, in world units.
pub const COLLISION_MARGIN: i64 = 20;

#[derive(Clone, Copy)]
pub struct Enemy {
    pub pos: Point,
    /// The texture that stands for the enemy.
    pub texture_key: char,
    pub animation_state: AnimationState,
    pub current_frame: usize,
    /// Milliseconds the current frame has been shown.
    pub animation_timer: u64,
    pub frame_duration: u64,
    pub facing_left: bool,
    pub is_dead: bool,
    /// Milliseconds since the enemy died.
    pub death_timer: u64,
    pub movement_pattern: MovementPattern,
    /// World units per second.
    pub movement_speed: i64,
    pub patrol_start: Point,
    pub patrol_end: Point,
    pub patrol_direction: i64,
    pub wander_center: Point,
    /// Fixed point, like positions.
    pub wander_radius: i64,
    /// Milliseconds since the wander target was last chosen.
    pub movement_timer: u64,
    pub target_pos: Point,
}

pub open spec fn within(p: Point, limit: int) -> bool {
    -limit <= p.x <= limit && -limit <= p.y <= limit
}

pub open spec fn sat_add(a: u64, b: int) -> u64 {
    if a + b > u64::MAX {
        u64::MAX
    } else {
        (a + b) as u64
    }
}

pub open spec fn dist2(a: Point, b: Point) -> int {
    (b.x - a.x) * (b.x - a.x) + (b.y - a.y) * (b.y - a.y)
}

pub open spec fn with_animation(e: Enemy, s: AnimationState) -> Enemy {
    if e.animation_state == AnimationState::Death || e.animation_state == s {
        e
    } else {
        Enemy { animation_state: s, current_frame: 0, animation_timer: 0, ..e }
    }
}

/// A corner of an enemy's square lies off the grid (below zero or past its far
/// edges) or on a wall cell.
pub open spec fn corner_blocked(maze: &Maze, block_size: int, x: int, y: int) -> bool {
    !on_grid(maze, block_size, x, y) || on_wall(maze, block_size, x, y)
}

/// An enemy may not stand at `(x, y)`: beyond the coordinate range, or with a corner
/// of its square blocked.
pub open spec fn collides(maze: &Maze, block_size: int, x: int, y: int) -> bool {
    let m = COLLISION_MARGIN * UNIT;
    ||| !(-COORD_LIMIT <= x <= COORD_LIMIT && -COORD_LIMIT <= y <= COORD_LIMIT)
    ||| corner_blocked(maze, block_size, x - m, y - m)
    ||| corner_blocked(maze, block_size, x + m, y - m)
    ||| corner_blocked(maze, block_size, x - m, y + m)
    ||| corner_blocked(maze, block_size, x + m, y + m)
}

/// Takes the step `(mx, my)` unless it collides: walking if it moves, idle if not.
pub open spec fn stepped(e: Enemy, maze: &Maze, block_size: int, mx: int, my: int) -> Enemy {
    let nx = e.pos.x + mx;
    let ny = e.pos.y + my;
    if !collides(maze, block_size, nx, ny) {
        Enemy {
            pos: Point { x: nx as i64, y: ny as i64 },
            facing_left: mx < 0,
            ..with_animation(e, AnimationState::Walking)
        }
    } else {
        with_animation(e, AnimationState::Idle)
    }
}

/// Distance covered in `delta_ms` at `speed` world units per second, in fixed point.
pub open spec fn travel(speed: int, delta_ms: int) -> int {
    speed * UNIT * delta_ms / 1000
}

/// A step of length `mv` from the enemy toward `to`, split along the axes by the
/// floor of the distance.
pub open spec fn step_toward(e: Enemy, to: Point, mv: int, maze: &Maze, block_size: int) -> Enemy {
    let dx = to.x - e.pos.x;
    let dy = to.y - e.pos.y;
    let dist = sqrt_floor(dist2(e.pos, to) as nat) as int;
    stepped(e, maze, block_size, quot(dx * mv, dist), quot(dy * mv, dist))
}

pub open spec fn patrol_step(e: Enemy, delta_ms: int, maze: &Maze, block_size: int) -> Enemy {
    if dist2(e.pos, e.target_pos) < (PATROL_REACH * UNIT) * (PATROL_REACH * UNIT) {
        Enemy {
            target_pos: if e.target_pos == e.patrol_end {
                e.patrol_start
            } else {
                e.patrol_end
            },
            ..e
        }
    } else {
        step_toward(e, e.target_pos, travel(e.movement_speed as int, delta_ms), maze, block_size)
    }
}

/// The milliseconds a wandering enemy keeps a target: two seconds, plus the whole
/// part of its x coordinate modulo three (in 0, 1 or 2) seconds.
pub open spec fn wander_period(e: Enemy) -> int {
    let w = quot(e.pos.x as int, UNIT as int);
    2000 + 1000 * (w % 3)
}

/// The angle, in microradians, from which a wandering enemy picks its next target:
/// a hundredth of the sum of its coordinates, in radians.
pub open spec fn wander_angle_of(e: Enemy) -> int {
    quot((e.pos.x + e.pos.y) * 10000, UNIT as int)
}

/// The point a wandering enemy aims for when its angle has unit vector `h`: at half
/// the radius plus half the radius times the sine's magnitude from the center.
pub open spec fn wander_target(e: Enemy, h: Heading) -> Point {
    let (c, s) = h.components();
    let r = e.wander_radius as int;
    let abs_s = if s < 0 {
        -s
    } else {
        s
    };
    let dist = r / 2 + r * abs_s / (2 * UNIT);
    Point {
        x: (e.wander_center.x + quot(dist * c, UNIT as int)) as i64,
        y: (e.wander_center.y + quot(dist * s, UNIT as int)) as i64,
    }
}

pub open spec fn wander_step(e: Enemy, delta_ms: int, maze: &Maze, block_size: int, h: Heading) -> Enemy {
    let e1 = if e.movement_timer > wander_period(e) {
        Enemy { movement_timer: 0, target_pos: wander_target(e, h), ..e }
    } else {
        e
    };
    if dist2(e1.pos, e1.target_pos) > (WANDER_REACH * UNIT) * (WANDER_REACH * UNIT) {
        step_toward(
            e1,
            e1.target_pos,
            travel(e1.movement_speed as int, delta_ms) * 7 / 10,
            maze,
            block_size,
        )
    } else {
        with_animation(e1, AnimationState::Idle)
    }
}

pub open spec fn in_chase_band(e: Enemy, player: Point) -> bool {
    let n = dist2(e.pos, player);
    n < (CHASE_MAX * UNIT) * (CHASE_MAX * UNIT) && n > (CHASE_MIN * UNIT) * (CHASE_MIN * UNIT)
}

pub open spec fn chase_step(e: Enemy, delta_ms: int, player: Point, maze: &Maze, block_size: int) -> Enemy {
    if in_chase_band(e, player) {
        step_toward(e, player, travel(e.movement_speed as int, delta_ms), maze, block_size)
    } else {
        with_animation(e, AnimationState::Idle)
    }
}

/// One frame of movement of a living enemy.
pub open spec fn movement_step(
    e: Enemy,
    delta_ms: int,
    player: Point,
    maze: &Maze,
    block_size: int,
    h: Heading,
) -> Enemy {
    let e1 = Enemy { movement_timer: sat_add(e.movement_timer, delta_ms), ..e };
    match e.movement_pattern {
        MovementPattern::Stationary => with_animation(e1, AnimationState::Idle),
        MovementPattern::Patrol => patrol_step(e1, delta_ms, maze, block_size),
        MovementPattern::Wander => wander_step(e1, delta_ms, maze, block_size, h),
        MovementPattern::Chase => chase_step(e1, delta_ms, player, maze, block_size),
    }
}

/// One frame of animation: past the frame duration the frame advances, cycling, but
/// a dead enemy's death animation stops on its last frame.
pub open spec fn animation_step(e: Enemy, delta_ms: int) -> Enemy {
    let t = sat_add(e.animation_timer, delta_ms);
    if t >= e.frame_duration {
        Enemy {
            animation_timer: 0,
            current_frame: if e.is_dead && e.animation_state == AnimationState::Death {
                if e.current_frame + 1 < ANIMATION_FRAMES {
                    (e.current_frame + 1) as usize
                } else {
                    (ANIMATION_FRAMES - 1) as usize
                }
            } else {
                ((e.current_frame + 1) % (ANIMATION_FRAMES as int)) as usize
            },
            ..e
        }
    } else {
        Enemy { animation_timer: t, ..e }
    }
}

/// One whole frame: a dead enemy counts its death time, a living one moves; then
/// the animation runs. `h` is the unit vector of `wander_angle_of(e)`.
pub open spec fn enemy_step(
    e: Enemy,
    delta_ms: int,
    player: Point,
    maze: &Maze,
    block_size: int,
    h: Heading,
) -> Enemy {
    let e1 = if e.is_dead {
        Enemy { death_timer: sat_add(e.death_timer, delta_ms), ..e }
    } else {
        movement_step(e, delta_ms, player, maze, block_size, h)
    };
    animation_step(e1, delta_ms)
}


/// The longest step the movement code takes in one frame, in fixed point.
pub const MOVE_LIMIT: i128 = 0x1000_0000_0000_0000;

/// Each coordinate offset is at most the floor of the distance.
pub proof fn lemma_offset_within_root(dx: int, dy: int)
    ensures
        -(sqrt_floor((dx * dx + dy * dy) as nat) as int) <= dx <= sqrt_floor(
            (dx * dx + dy * dy) as nat,
        ),
{
    let n = dx * dx + dy * dy;
    assert(n >= 0) by (nonlinear_arith)
        requires
            n == dx * dx + dy * dy,
    ;
    crate::geometry::lemma_sqrt_floor(n as nat);
    let r = sqrt_floor(n as nat) as int;
    assert(-r <= dx <= r) by (nonlinear_arith)
        requires
            n == dx * dx + dy * dy,
            n < (r + 1) * (r + 1),
            r >= 0,
    ;
}

fn sat_add_ms(a: u64, b: u32) -> (r: u64)
    ensures
        r == sat_add(a, b as int),
{
    if a > u64::MAX - b as u64 {
        u64::MAX
    } else {
        a + b as u64
    }
}

impl Enemy {
    /// Positions within range, bounded radius and speed, a valid frame, and a dead
    /// enemy in its death animation.
    pub open spec fn wf(&self) -> bool {
        &&& self.pos.in_range()
        &&& within(self.target_pos, 2 * COORD_LIMIT)
        &&& self.patrol_start.in_range()
        &&& self.patrol_end.in_range()
        &&& self.wander_center.in_range()
        &&& 0 <= self.wander_radius <= COORD_LIMIT
        &&& 0 <= self.movement_speed <= SPEED_LIMIT
        &&& self.current_frame < ANIMATION_FRAMES
        &&& self.is_dead ==> self.animation_state == AnimationState::Death
    }

    /// A stationary enemy at `(x, y)`, idle on its first frame.
    pub fn new(x: i64, y: i64, texture_key: char) -> (e: Enemy)
        requires
            -COORD_LIMIT <= x <= COORD_LIMIT,
            -COORD_LIMIT <= y <= COORD_LIMIT,
        ensures
            e.wf(),
            e.pos == (Point { x, y }),
            e.texture_key == texture_key,
            e.animation_state == AnimationState::Idle,
            e.current_frame == 0,
            e.animation_timer == 0,
            e.frame_duration == FRAME_DURATION_MS,
            !e.facing_left,
            !e.is_dead,
            e.death_timer == 0,
            e.movement_pattern == MovementPattern::Stationary,
            e.movement_speed == WALK_SPEED,
            e.patrol_start == (Point { x, y }),
            e.patrol_end == (Point { x, y }),
            e.patrol_direction == 1,
            e.wander_center == (Point { x, y }),
            e.wander_radius == DEFAULT_WANDER_RADIUS * UNIT,
            e.movement_timer == 0,
            e.target_pos == (Point { x, y }),
    {
        Enemy {
            pos: Point::new(x, y),
            texture_key,
            animation_state: AnimationState::Idle,
            current_frame: 0,
            animation_timer: 0,
            frame_duration: FRAME_DURATION_MS,
            facing_left: false,
            is_dead: false,
            death_timer: 0,
            movement_pattern: MovementPattern::Stationary,
            movement_speed: WALK_SPEED,
            patrol_start: Point::new(x, y),
            patrol_end: Point::new(x, y),
            patrol_direction: 1,
            wander_center: Point::new(x, y),
            wander_radius: DEFAULT_WANDER_RADIUS * UNIT,
            movement_timer: 0,
            target_pos: Point::new(x, y),
        }
    }

    /// An enemy at `(x, y)` that patrols to `(end_x, end_y)` and back, heading for
    /// the end first.
    pub fn new_patrol(x: i64, y: i64, texture_key: char, end_x: i64, end_y: i64) -> (e: Enemy)
        requires
            -COORD_LIMIT <= x <= COORD_LIMIT,
            -COORD_LIMIT <= y <= COORD_LIMIT,
            -COORD_LIMIT <= end_x <= COORD_LIMIT,
            -COORD_LIMIT <= end_y <= COORD_LIMIT,
        ensures
            e.wf(),
            e == (Enemy {
                movement_pattern: MovementPattern::Patrol,
                patrol_start: Point { x, y },
                patrol_end: Point { x: end_x, y: end_y },
                target_pos: Point { x: end_x, y: end_y },
                ..Enemy::new_spec(x, y, texture_key)
            }),
    {
        let mut enemy = Self::new(x, y, texture_key);
        enemy.movement_pattern = MovementPattern::Patrol;
        enemy.patrol_start = Point::new(x, y);
        enemy.patrol_end = Point::new(end_x, end_y);
        enemy.target_pos = enemy.patrol_end;
        enemy
    }

    /// An enemy that wanders within `radius` (fixed point) of `(x, y)`.
    pub fn new_wander(x: i64, y: i64, texture_key: char, radius: i64) -> (e: Enemy)
        requires
            -COORD_LIMIT <= x <= COORD_LIMIT,
            -COORD_LIMIT <= y <= COORD_LIMIT,
            0 <= radius <= COORD_LIMIT,
        ensures
            e.wf(),
            e == (Enemy {
                movement_pattern: MovementPattern::Wander,
                wander_radius: radius,
                ..Enemy::new_spec(x, y, texture_key)
            }),
    {
        let mut enemy = Self::new(x, y, texture_key);
        enemy.movement_pattern = MovementPattern::Wander;
        enemy.wander_radius = radius;
        enemy
    }

    /// An enemy at `(x, y)` that chases the player, a little faster than walking.
    pub fn new_chase(x: i64, y: i64, texture_key: char) -> (e: Enemy)
        requires
            -COORD_LIMIT <= x <= COORD_LIMIT,
            -COORD_LIMIT <= y <= COORD_LIMIT,
        ensures
            e.wf(),
            e == (Enemy {
                movement_pattern: MovementPattern::Chase,
                movement_speed: CHASE_SPEED,
                ..Enemy::new_spec(x, y, texture_key)
            }),
    {
        let mut enemy = Self::new(x, y, texture_key);
        enemy.movement_pattern = MovementPattern::Chase;
        enemy.movement_speed = CHASE_SPEED;
        enemy
    }

    pub open spec fn new_spec(x: i64, y: i64, texture_key: char) -> Enemy {
        Enemy {
            pos: Point { x, y },
            texture_key,
            animation_state: AnimationState::Idle,
            current_frame: 0,
            animation_timer: 0,
            frame_duration: FRAME_DURATION_MS,
            facing_left: false,
            is_dead: false,
            death_timer: 0,
            movement_pattern: MovementPattern::Stationary,
            movement_speed: WALK_SPEED,
            patrol_start: Point { x, y },
            patrol_end: Point { x, y },
            patrol_direction: 1,
            wander_center: Point { x, y },
            wander_radius: (DEFAULT_WANDER_RADIUS * UNIT) as i64,
            movement_timer: 0,
            target_pos: Point { x, y },
        }
    }

    /// Switches to animation `new_state`, from its first frame, unless the enemy is
    /// already in it or in its death animation.
    pub fn set_animation(&mut self, new_state: AnimationState)
        ensures
            *final(self) == with_animation(*old(self), new_state),
            old(self).animation_state == AnimationState::Death ==> final(self).animation_state
                == AnimationState::Death,
    {
        if self.animation_state == AnimationState::Death {
            return;
        }
        if self.animation_state != new_state {
            self.animation_state = new_state;
            self.current_frame = 0;
            self.animation_timer = 0;
        }
    }

    /// Kills a living enemy: death animation from its first frame, death clock at zero.
    pub fn kill(&mut self)
        requires
            old(self).wf(),
        ensures
            final(self).wf(),
            !old(self).is_dead ==> *final(self) == (Enemy {
                is_dead: true,
                death_timer: 0,
                animation_state: AnimationState::Death,
                current_frame: 0,
                animation_timer: 0,
                ..*old(self)
            }),
            old(self).is_dead ==> *final(self) == *old(self),
            final(self).is_dead,
            final(self).animation_state == AnimationState::Death,
    {
        if !self.is_dead {
            self.is_dead = true;
            self.death_timer = 0;
            self.animation_state = AnimationState::Death;
            self.current_frame = 0;
            self.animation_timer = 0;
        }
    }

    /// Dead for longer than the despawn time.
    pub fn should_despawn(&self) -> (r: bool)
        ensures
            r == (self.is_dead && self.death_timer > DESPAWN_MS),
    {
        self.is_dead && self.death_timer > DESPAWN_MS
    }

    /// Steps `mv` toward `to`, or stands idle when that step is blocked.
    fn move_toward(&mut self, to: Point, mv: i128, maze: &Maze, block_size: usize)
        requires
            old(self).wf(),
            maze_fits(maze, block_size),
            within(to, 2 * COORD_LIMIT),
            0 <= mv <= MOVE_LIMIT,
            dist2(old(self).pos, to) > 0,
        ensures
            final(self).wf(),
            *final(self) == step_toward(*old(self), to, mv as int, maze, block_size as int),
    {
        let dx: i128 = to.x as i128 - self.pos.x as i128;
        let dy: i128 = to.y as i128 - self.pos.y as i128;
        assert(0 <= dx * dx <= 0x1000_0000_0000_0000_0000_0000) by (nonlinear_arith)
            requires
                -0x3000_0000_0000 <= dx <= 0x3000_0000_0000,
        ;
        assert(0 <= dy * dy <= 0x1000_0000_0000_0000_0000_0000) by (nonlinear_arith)
            requires
                -0x3000_0000_0000 <= dy <= 0x3000_0000_0000,
        ;
        let n: i128 = dx * dx + dy * dy;
        proof {
            assert(n == dist2(self.pos, to));
            assert(n >= 0) by (nonlinear_arith)
                requires
                    n == dx * dx + dy * dy,
            ;
        }
        let dist = isqrt(n as u128) as i128;
        proof {
            crate::geometry::lemma_sqrt_floor(n as nat);
            if dist == 0 {
                assert((dist + 1) * (dist + 1) == 1);
            }
            lemma_offset_within_root(dx as int, dy as int);
            lemma_offset_within_root(dy as int, dx as int);
            assert(dy * dy + dx * dx == n);
            lemma_quot_step_bound(dx as int, mv as int, dist as int);
            lemma_quot_step_bound(dy as int, mv as int, dist as int);
        }
        assert(-0x4000_0000_0000_0000_0000_0000_0000 <= dx * mv <= 0x4000_0000_0000_0000_0000_0000_0000)
            by (nonlinear_arith)
            requires
                -0x3000_0000_0000 <= dx <= 0x3000_0000_0000,
                0 <= mv <= MOVE_LIMIT,
        ;
        assert(-0x4000_0000_0000_0000_0000_0000_0000 <= dy * mv <= 0x4000_0000_0000_0000_0000_0000_0000)
            by (nonlinear_arith)
            requires
                -0x3000_0000_0000 <= dy <= 0x3000_0000_0000,
                0 <= mv <= MOVE_LIMIT,
        ;
        let mx = div_toward_zero(dx * mv, dist);
        let my = div_toward_zero(dy * mv, dist);
        let new_pos = Point::new((self.pos.x as i128 + mx) as i64, (self.pos.y as i128 + my) as i64);
        if !self.would_collide_with_wall(new_pos, maze, block_size) {
            self.pos = new_pos;
            self.set_animation(AnimationState::Walking);
            self.facing_left = mx < 0;
        } else {
            self.set_animation(AnimationState::Idle);
        }
    }

    fn update_patrol_movement(&mut self, delta_ms: u32, maze: &Maze, block_size: usize)
        requires
            old(self).wf(),
            maze_fits(maze, block_size),
        ensures
            final(self).wf(),
            *final(self) == patrol_step(*old(self), delta_ms as int, maze, block_size as int),
    {
        assert(0 <= self.movement_speed * UNIT * delta_ms <= 0x10_0000_0000_0000_0000) by (nonlinear_arith)
            requires
                0 <= self.movement_speed <= SPEED_LIMIT,
                0 <= delta_ms <= u32::MAX,
        ;
        let mv: i128 = self.movement_speed as i128 * UNIT as i128 * delta_ms as i128 / 1000;
        let dx: i128 = self.target_pos.x as i128 - self.pos.x as i128;
        let dy: i128 = self.target_pos.y as i128 - self.pos.y as i128;
        assert(0 <= dx * dx <= 0x1000_0000_0000_0000_0000_0000) by (nonlinear_arith)
            requires
                -0x3000_0000_0000 <= dx <= 0x3000_0000_0000,
        ;
        assert(0 <= dy * dy <= 0x1000_0000_0000_0000_0000_0000) by (nonlinear_arith)
            requires
                -0x3000_0000_0000 <= dy <= 0x3000_0000_0000,
        ;
        let n: i128 = dx * dx + dy * dy;
        let reach: i128 = PATROL_REACH as i128 * UNIT as i128;
        assert(reach * reach == 0x64_0000_0000) by (nonlinear_arith)
            requires
                reach == 0xa_0000,
        ;
        assert(n == dist2(self.pos, self.target_pos));
        if n < reach * reach {
            if self.target_pos == self.patrol_end {
                self.target_pos = self.patrol_start;
            } else {
                self.target_pos = self.patrol_end;
            }
        } else {
            self.move_toward(self.target_pos, mv, maze, block_size);
        }
    }

    fn update_wander_movement(&mut self, delta_ms: u32, maze: &Maze, block_size: usize, h: &Heading)
        requires
            old(self).wf(),
            maze_fits(maze, block_size),
        ensures
            final(self).wf(),
            *final(self) == wander_step(*old(self), delta_ms as int, maze, block_size as int, *h),
    {
        let w = div_toward_zero(self.pos.x as i128, UNIT as i128);
        let k: i128 = if w >= 0 {
            w % 3
        } else if (-w) % 3 == 0 {
            0
        } else {
            3 - (-w) % 3
        };
        proof {
            vstd::arithmetic::div_mod::lemma_fundamental_div_mod(w as int, 3);
            vstd::arithmetic::div_mod::lemma_fundamental_div_mod(-w as int, 3);
            vstd::arithmetic::div_mod::lemma_mod_bound(w as int, 3);
            if w < 0 {
                vstd::arithmetic::div_mod::lemma_mod_pos_bound(-w as int, 3);
                vstd::arithmetic::div_mod::lemma_fundamental_div_mod_converse(
                    w as int,
                    3,
                    -((-w) / 3) - (if (-w) % 3 == 0 { 0int } else { 1int }),
                    k as int,
                );
            }
        }
        let period: i128 = 2000 + 1000 * k;
        assert(period == wander_period(*self));
        if self.movement_timer as i128 > period {
            self.movement_timer = 0;
            let c = h.cos();
            let s = h.sin();
            let r = self.wander_radius;
            let abs_s: i64 = if s < 0 {
                -s
            } else {
                s
            };
            assert(0 <= r * abs_s <= COORD_LIMIT * UNIT) by (nonlinear_arith)
                requires
                    0 <= r <= COORD_LIMIT,
                    0 <= abs_s <= UNIT,
            ;
            let part: i128 = r as i128 * abs_s as i128 / (2 * UNIT as i128);
            assert(part <= r / 2 + 1) by (nonlinear_arith)
                requires
                    part == r * abs_s / (2 * UNIT),
                    0 <= r,
                    0 <= abs_s <= UNIT,
            ;
            let dist: i128 = r as i128 / 2 + part;
            proof {
                lemma_quot_step_bound(c as int, dist as int, UNIT as int);
                lemma_quot_step_bound(s as int, dist as int, UNIT as int);
                assert(c * dist == dist * c) by (nonlinear_arith);
                assert(s * dist == dist * s) by (nonlinear_arith);
            }
            assert(-0x10_0000_0000_0000_0000 <= dist * c <= 0x10_0000_0000_0000_0000) by (nonlinear_arith)
                requires
                    0 <= dist <= COORD_LIMIT + 1,
                    -UNIT <= c <= UNIT,
            ;
            assert(-0x10_0000_0000_0000_0000 <= dist * s <= 0x10_0000_0000_0000_0000) by (nonlinear_arith)
                requires
                    0 <= dist <= COORD_LIMIT + 1,
                    -UNIT <= s <= UNIT,
            ;
            let ox = div_toward_zero(dist * c as i128, UNIT as i128);
            let oy = div_toward_zero(dist * s as i128, UNIT as i128);
            self.target_pos = Point::new(
                (self.wander_center.x as i128 + ox) as i64,
                (self.wander_center.y as i128 + oy) as i64,
            );
        }
        let ghost e1 = *self;
        assert(0 <= self.movement_speed * UNIT * delta_ms <= 0x10_0000_0000_0000_0000) by (nonlinear_arith)
            requires
                0 <= self.movement_speed <= SPEED_LIMIT,
                0 <= delta_ms <= u32::MAX,
        ;
        let mv: i128 = self.movement_speed as i128 * UNIT as i128 * delta_ms as i128 / 1000 * 7 / 10;
        let dx: i128 = self.target_pos.x as i128 - self.pos.x as i128;
        let dy: i128 = self.target_pos.y as i128 - self.pos.y as i128;
        assert(0 <= dx * dx <= 0x1000_0000_0000_0000_0000_0000) by (nonlinear_arith)
            requires
                -0x3000_0000_0000 <= dx <= 0x3000_0000_0000,
        ;
        assert(0 <= dy * dy <= 0x1000_0000_0000_0000_0000_0000) by (nonlinear_arith)
            requires
                -0x3000_0000_0000 <= dy <= 0x3000_0000_0000,
        ;
        let n: i128 = dx * dx + dy * dy;
        let reach: i128 = WANDER_REACH as i128 * UNIT as i128;
        assert(reach * reach == 0x19_0000_0000) by (nonlinear_arith)
            requires
                reach == 0x5_0000,
        ;
        assert(n == dist2(self.pos, self.target_pos));
        if n > reach * reach {
            self.move_toward(self.target_pos, mv, maze, block_size);
        } else {
            self.set_animation(AnimationState::Idle);
        }
    }

    fn update_chase_movement(&mut self, delta_ms: u32, player_pos: Point, maze: &Maze, block_size: usize)
        requires
            old(self).wf(),
            player_pos.in_range(),
            maze_fits(maze, block_size),
        ensures
            final(self).wf(),
            *final(self) == chase_step(*old(self), delta_ms as int, player_pos, maze, block_size as int),
    {
        let dx: i128 = player_pos.x as i128 - self.pos.x as i128;
        let dy: i128 = player_pos.y as i128 - self.pos.y as i128;
        assert(0 <= dx * dx <= 0x1000_0000_0000_0000_0000_0000) by (nonlinear_arith)
            requires
                -0x3000_0000_0000 <= dx <= 0x3000_0000_0000,
        ;
        assert(0 <= dy * dy <= 0x1000_0000_0000_0000_0000_0000) by (nonlinear_arith)
            requires
                -0x3000_0000_0000 <= dy <= 0x3000_0000_0000,
        ;
        let n: i128 = dx * dx + dy * dy;
        let far: i128 = CHASE_MAX as i128 * UNIT as i128;
        let near: i128 = CHASE_MIN as i128 * UNIT as i128;
        if n < far * far && n > near * near {
            assert(0 <= self.movement_speed * UNIT * delta_ms <= 0x10_0000_0000_0000_0000) by (nonlinear_arith)
                requires
                    0 <= self.movement_speed <= SPEED_LIMIT,
                    0 <= delta_ms <= u32::MAX,
            ;
            let mv: i128 = self.movement_speed as i128 * UNIT as i128 * delta_ms as i128 / 1000;
            self.move_toward(player_pos, mv, maze, block_size);
        } else {
            self.set_animation(AnimationState::Idle);
        }
    }

    fn update_movement(
        &mut self,
        delta_ms: u32,
        player_pos: Point,
        maze: &Maze,
        block_size: usize,
        h: &Heading,
    )
        requires
            old(self).wf(),
            player_pos.in_range(),
            maze_fits(maze, block_size),
        ensures
            final(self).wf(),
            *final(self) == movement_step(
                *old(self),
                delta_ms as int,
                player_pos,
                maze,
                block_size as int,
                *h,
            ),
    {
        self.movement_timer = sat_add_ms(self.movement_timer, delta_ms);
        match self.movement_pattern {
            MovementPattern::Stationary => {
                self.set_animation(AnimationState::Idle);
            },
            MovementPattern::Patrol => {
                self.update_patrol_movement(delta_ms, maze, block_size);
            },
            MovementPattern::Wander => {
                self.update_wander_movement(delta_ms, maze, block_size, h);
            },
            MovementPattern::Chase => {
                self.update_chase_movement(delta_ms, player_pos, maze, block_size);
            },
        }
    }

    /// The angle, in microradians, whose unit vector picks the next wander target.
    pub fn wander_angle(&self) -> (a: i64)
        requires
            self.wf(),
        ensures
            a == wander_angle_of(*self),
    {
        let sum: i128 = (self.pos.x as i128 + self.pos.y as i128) * 10000;
        let a = div_toward_zero(sum, UNIT as i128);
        assert(-0x1000_0000_0000 <= a <= 0x1000_0000_0000) by {
            let m = if sum >= 0 {
                sum as int
            } else {
                -sum
            };
            lemma_div_is_ordered(m, 0x1000_0000_0000 * UNIT, UNIT as int);
            lemma_div_by_multiple(0x1000_0000_0000, UNIT as int);
        }
        a as i64
    }

    /// One frame of `delta_ms` milliseconds: the enemy moves by its pattern (or,
    /// dead, counts its death time) and its animation runs. `wander_heading` is
    /// the unit vector of `wander_angle()`.
    pub fn advance(
        &mut self,
        delta_ms: u32,
        player_pos: Point,
        maze: &Maze,
        block_size: usize,
        wander_heading: &Heading,
    )
        requires
            old(self).wf(),
            player_pos.in_range(),
            maze_fits(maze, block_size),
        ensures
            final(self).wf(),
            *final(self) == enemy_step(
                *old(self),
                delta_ms as int,
                player_pos,
                maze,
                block_size as int,
                *wander_heading,
            ),
            old(self).animation_state == AnimationState::Death ==> final(self).animation_state
                == AnimationState::Death,
    {
        if self.is_dead {
            self.death_timer = sat_add_ms(self.death_timer, delta_ms);
        } else {
            self.update_movement(delta_ms, player_pos, maze, block_size, wander_heading);
        }
        let t = sat_add_ms(self.animation_timer, delta_ms);
        if t >= self.frame_duration {
            self.animation_timer = 0;
            if self.is_dead && self.animation_state == AnimationState::Death {
                self.current_frame = if self.current_frame + 1 < ANIMATION_FRAMES {
                    self.current_frame + 1
                } else {
                    ANIMATION_FRAMES - 1
                };
            } else {
                self.current_frame = (self.current_frame + 1) % ANIMATION_FRAMES;
            }
        } else {
            self.animation_timer = t;
        }
        proof {
            if old(self).animation_state == AnimationState::Death {
                lemma_death_absorbing(
                    *old(self),
                    delta_ms as int,
                    player_pos,
                    maze,
                    block_size as int,
                    *wander_heading,
                );
            }
        }
    }

    /// One frame of `delta_ms` milliseconds, taking the wander direction from `trig`.
    pub fn update<T: Trigonometry>(
        &mut self,
        delta_ms: u32,
        player_pos: Point,
        maze: &Maze,
        block_size: usize,
        trig: &T,
    )
        requires
            old(self).wf(),
            player_pos.in_range(),
            maze_fits(maze, block_size),
        ensures
            final(self).wf(),
            exists|h: Heading|
                *final(self) == #[trigger] enemy_step(
                    *old(self),
                    delta_ms as int,
                    player_pos,
                    maze,
                    block_size as int,
                    h,
                ),
            old(self).animation_state == AnimationState::Death ==> final(self).animation_state
                == AnimationState::Death,
            old(self).movement_pattern != MovementPattern::Wander || old(self).is_dead ==> forall|
                g: Heading,
            |
                #[trigger] enemy_step(
                    *old(self),
                    delta_ms as int,
                    player_pos,
                    maze,
                    block_size as int,
                    g,
                ) == *final(self),
    {
        let h = trig.unit_vector(self.wander_angle());
        self.advance(delta_ms, player_pos, maze, block_size, &h);
        proof {
            assert forall|g: Heading|
                old(self).movement_pattern != MovementPattern::Wander || old(self).is_dead implies
                #[trigger] enemy_step(*old(self), delta_ms as int, player_pos, maze, block_size as int, g)
                    == *final(self) by {
                lemma_step_ignores_heading(*old(self), delta_ms as int, player_pos, maze, block_size as int, g, h);
            }
        }
    }

    /// Whether the enemy's square would be blocked at `new_pos`.
    pub fn would_collide_with_wall(&self, new_pos: Point, maze: &Maze, block_size: usize) -> (r: bool)
        requires
            maze_fits(maze, block_size),
        ensures
            r == collides(maze, block_size as int, new_pos.x as int, new_pos.y as int),
    {
        if !(-COORD_LIMIT <= new_pos.x && new_pos.x <= COORD_LIMIT && -COORD_LIMIT <= new_pos.y
            && new_pos.y <= COORD_LIMIT) {
            return true;
        }
        let m: i64 = COLLISION_MARGIN * UNIT;
        let (x, y) = (new_pos.x, new_pos.y);
        point_blocked(maze, block_size, x - m, y - m) || point_blocked(
            maze,
            block_size,
            x + m,
            y - m,
        ) || point_blocked(maze, block_size, x - m, y + m) || point_blocked(
            maze,
            block_size,
            x + m,
            y + m,
        )
    }
}

/// Only a living wanderer's frame depends on the wander direction.
pub proof fn lemma_step_ignores_heading(
    e: Enemy,
    delta_ms: int,
    player: Point,
    maze: &Maze,
    block_size: int,
    h1: Heading,
    h2: Heading,
)
    requires
        e.movement_pattern != MovementPattern::Wander || e.is_dead,
    ensures
        enemy_step(e, delta_ms, player, maze, block_size, h1) == enemy_step(
            e,
            delta_ms,
            player,
            maze,
            block_size,
            h2,
        ),
{
}

/// The death animation is absorbing: from it, neither a change of animation nor a
/// whole frame of any pattern leads anywhere else.
pub proof fn lemma_death_absorbing(
    e: Enemy,
    delta_ms: int,
    player: Point,
    maze: &Maze,
    block_size: int,
    h: Heading,
)
    requires
        e.animation_state == AnimationState::Death,
    ensures
        forall|s: AnimationState| #[trigger] with_animation(e, s).animation_state == AnimationState::Death,
        enemy_step(e, delta_ms, player, maze, block_size, h).animation_state == AnimationState::Death,
{
}

/// A living patrolling enemy aims at one of its two endpoints and keeps doing so;
/// it swaps to the other endpoint exactly on the frame it starts within reach of
/// its target, without moving on that frame.
pub proof fn lemma_patrol_alternates(
    e: Enemy,
    delta_ms: int,
    player: Point,
    maze: &Maze,
    block_size: int,
    h: Heading,
)
    requires
        e.movement_pattern == MovementPattern::Patrol,
        !e.is_dead,
        e.target_pos == e.patrol_start || e.target_pos == e.patrol_end,
        e.patrol_start != e.patrol_end,
    ensures
        ({
            let f = enemy_step(e, delta_ms, player, maze, block_size, h);
            &&& f.movement_pattern == MovementPattern::Patrol
            &&& f.patrol_start == e.patrol_start
            &&& f.patrol_end == e.patrol_end
            &&& (f.target_pos == e.patrol_start || f.target_pos == e.patrol_end)
            &&& if dist2(e.pos, e.target_pos) < (PATROL_REACH * UNIT) * (PATROL_REACH * UNIT) {
                &&& f.pos == e.pos
                &&& e.target_pos == e.patrol_end ==> f.target_pos == e.patrol_start
                &&& e.target_pos == e.patrol_start ==> f.target_pos == e.patrol_end
            } else {
                f.target_pos == e.target_pos
            }
        }),
{
}

/// A living chasing enemy stays where it is on a frame that starts with the player
/// at or nearer than the lower bound, or at or beyond the upper bound.
pub proof fn lemma_chase_rests_outside_band(
    e: Enemy,
    delta_ms: int,
    player: Point,
    maze: &Maze,
    block_size: int,
    h: Heading,
)
    requires
        e.movement_pattern == MovementPattern::Chase,
        !e.is_dead,
        !in_chase_band(e, player),
    ensures
        enemy_step(e, delta_ms, player, maze, block_size, h).pos == e.pos,
{
}

} // verus!
