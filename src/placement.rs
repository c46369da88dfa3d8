use vstd::prelude::*;

use crate::enemy::{Enemy, MovementPattern, AnimationState, CHASE_SPEED};
use crate::geometry::{Point, Trigonometry, UNIT, COORD_LIMIT, div_toward_zero, lemma_quot_step_bound};
use crate::maze::{Maze, maze_fits, rows, cols, cell, on_grid, cell_at, lemma_block_bound, default_start, WORLD_LIMIT};

verus! {

/// The texture key of every placed enemy: the animated sheet.
pub const ENEMY_KEY: char = 'a';

/// How many rings of candidate points the search for a free spot tries.
pub const SEARCH_RINGS: u32 = 5;

/// An eighth of a turn, in microradians.
pub const EIGHTH_TURN: i64 = 785398;

/// An enemy may stand at `(x, y)`: on the grid (no coordinate below zero) on a
/// floor cell.
pub open spec fn valid_enemy_position(x: int, y: int, maze: &Maze, block_size: int) -> bool {
    on_grid(maze, block_size, x, y) && cell(maze, x / (block_size * UNIT), y / (block_size * UNIT))
        == ' '
}

fn valid_at(maze: &Maze, block_size: usize, x: i128, y: i128) -> (r: bool)
    requires
        maze_fits(maze, block_size),
    ensures
        r == valid_enemy_position(x as int, y as int, maze, block_size as int),
        r ==> 0 <= x < WORLD_LIMIT * UNIT && 0 <= y < WORLD_LIMIT * UNIT,
{
    if x < 0 || y < 0 {
        return false;
    }
    proof {
        lemma_block_bound(maze, block_size);
        crate::maze::lemma_scaled_extent(cols(maze), block_size as int);
        crate::maze::lemma_scaled_extent(rows(maze), block_size as int);
    }
    let scale: i128 = block_size as i128 * UNIT as i128;
    let i = x / scale;
    let j = y / scale;
    if j >= maze.len() as i128 || i >= maze[0].len() as i128 {
        return false;
    }
    proof {
        assert(x < cols(maze) * scale) by (nonlinear_arith)
            requires
                x >= 0,
                scale > 0,
                i == x / scale,
                i < cols(maze),
        ;
        assert(y < rows(maze) * scale) by (nonlinear_arith)
            requires
                y >= 0,
                scale > 0,
                j == y / scale,
                j < rows(maze),
        ;
    }
    cell_at(maze, i as usize, j as usize) == ' '
}

pub fn is_valid_enemy_position(x: i64, y: i64, maze: &Maze, block_size: usize) -> (r: bool)
    requires
        maze_fits(maze, block_size),
    ensures
        r == valid_enemy_position(x as int, y as int, maze, block_size as int),
{
    valid_at(maze, block_size, x as i128, y as i128)
}

/// A place near `(x, y)` where an enemy may stand: `(x, y)` itself when it is
/// free, else the first free point on rings of half a cell, one cell, ... up to
/// `max_rings` half cells away, eight points a ring; else (150, 150).
pub fn find_valid_position_near<T: Trigonometry>(
    x: i64,
    y: i64,
    maze: &Maze,
    block_size: usize,
    max_rings: u32,
    trig: &T,
) -> (p: Point)
    requires
        maze_fits(maze, block_size),
        -0x400_0000_0000 <= x <= 0x400_0000_0000,
        -0x400_0000_0000 <= y <= 0x400_0000_0000,
    ensures
        valid_enemy_position(x as int, y as int, maze, block_size as int) ==> p == (Point { x, y }),
        valid_enemy_position(p.x as int, p.y as int, maze, block_size as int) || p == default_start(),
        p.in_range(),
{
    if is_valid_enemy_position(x, y, maze, block_size) {
        return Point::new(x, y);
    }
    proof {
        lemma_block_bound(maze, block_size);
    }
    let mut radius: u32 = 1;
    while radius <= max_rings
        invariant
            1 <= radius,
            radius <= max_rings || radius == max_rings + 1,
            !valid_enemy_position(x as int, y as int, maze, block_size as int),
            maze_fits(maze, block_size),
            block_size <= WORLD_LIMIT,
            -0x400_0000_0000 <= x <= 0x400_0000_0000,
            -0x400_0000_0000 <= y <= 0x400_0000_0000,
        decreases max_rings + 1 - radius,
    {
        assert(radius * block_size * UNIT <= 0xffff_ffff * WORLD_LIMIT * UNIT) by (nonlinear_arith)
            requires
                radius <= 0xffff_ffff,
                block_size <= WORLD_LIMIT,
        ;
        let r: i128 = radius as i128 * block_size as i128 * UNIT as i128 / 2;
        let mut k: i64 = 0;
        while k < 8
            invariant
                0 <= k <= 8,
                0 <= r <= 0xffff_ffff * WORLD_LIMIT * UNIT,
                !valid_enemy_position(x as int, y as int, maze, block_size as int),
                maze_fits(maze, block_size),
                -0x400_0000_0000 <= x <= 0x400_0000_0000,
                -0x400_0000_0000 <= y <= 0x400_0000_0000,
            decreases 8 - k,
        {
            let h = trig.unit_vector(k * EIGHTH_TURN);
            let c = h.cos();
            let s = h.sin();
            assert(-0xffff_ffff * WORLD_LIMIT * UNIT * UNIT <= r * c <= 0xffff_ffff * WORLD_LIMIT * UNIT * UNIT)
                by (nonlinear_arith)
                requires
                    0 <= r <= 0xffff_ffff * WORLD_LIMIT * UNIT,
                    -UNIT <= c <= UNIT,
            ;
            assert(-0xffff_ffff * WORLD_LIMIT * UNIT * UNIT <= r * s <= 0xffff_ffff * WORLD_LIMIT * UNIT * UNIT)
                by (nonlinear_arith)
                requires
                    0 <= r <= 0xffff_ffff * WORLD_LIMIT * UNIT,
                    -UNIT <= s <= UNIT,
            ;
            let ox = div_toward_zero(r * c as i128, UNIT as i128);
            let oy = div_toward_zero(r * s as i128, UNIT as i128);
            proof {
                lemma_quot_step_bound(c as int, r as int, UNIT as int);
                lemma_quot_step_bound(s as int, r as int, UNIT as int);
                assert(c * r == r * c) by (nonlinear_arith);
                assert(s * r == r * s) by (nonlinear_arith);
            }
            let tx: i128 = x as i128 + ox;
            let ty: i128 = y as i128 + oy;
            if valid_at(maze, block_size, tx, ty) {
                return Point::new(tx as i64, ty as i64);
            }
            k += 1;
        }
        if radius == u32::MAX {
            break;
        }
        radius += 1;
    }
    Point::new(150 * UNIT, 150 * UNIT)
}

/// A placed enemy: alive, idle on its first frame, standing where enemies may
/// stand, and, patrolling, heading for its far end, which is free too.
pub open spec fn well_placed(e: Enemy, maze: &Maze, block_size: int) -> bool {
    &&& e.wf()
    &&& e.texture_key == ENEMY_KEY
    &&& !e.is_dead
    &&& e.animation_state == AnimationState::Idle
    &&& e.current_frame == 0
    &&& valid_enemy_position(e.pos.x as int, e.pos.y as int, maze, block_size)
    &&& e.movement_pattern == MovementPattern::Patrol ==> {
        &&& valid_enemy_position(e.patrol_end.x as int, e.patrol_end.y as int, maze, block_size)
        &&& e.target_pos == e.patrol_end
    }
}

/// The enemy of `pattern` placed at `pos` (patrolling to `end`, wandering within
/// `radius`).
pub open spec fn placed(pattern: MovementPattern, pos: Point, end: Point, radius: i64) -> Enemy {
    let base = Enemy::new_spec(pos.x, pos.y, ENEMY_KEY);
    match pattern {
        MovementPattern::Patrol => Enemy {
            movement_pattern: MovementPattern::Patrol,
            patrol_start: pos,
            patrol_end: end,
            target_pos: end,
            ..base
        },
        MovementPattern::Wander => Enemy {
            movement_pattern: MovementPattern::Wander,
            wander_radius: radius,
            ..base
        },
        MovementPattern::Chase => Enemy {
            movement_pattern: MovementPattern::Chase,
            movement_speed: CHASE_SPEED,
            ..base
        },
        MovementPattern::Stationary => base,
    }
}

/// How many enemies a level is seeded with.
pub const SEEDS: usize = 31;

/// The pattern of seed `k`: ten patrols, eight wanderers, five chasers, then eight
/// guards.
pub open spec fn seed_pattern(k: int) -> MovementPattern {
    if k < 10 {
        MovementPattern::Patrol
    } else if k < 18 {
        MovementPattern::Wander
    } else if k < 23 {
        MovementPattern::Chase
    } else {
        MovementPattern::Stationary
    }
}

/// Where seeds 10 to 30 stand, in hundredths of the map's width and height.
pub open spec fn seed_ratio(k: int) -> (int, int) {
    if k == 10 { (25, 25) } else if k == 11 { (75, 25) } else if k == 12 { (25, 75) }
    else if k == 13 { (75, 75) } else if k == 14 { (50, 30) } else if k == 15 { (30, 60) }
    else if k == 16 { (70, 60) } else if k == 17 { (50, 80) } else if k == 18 { (20, 40) }
    else if k == 19 { (80, 60) } else if k == 20 { (60, 20) } else if k == 21 { (40, 80) }
    else if k == 22 { (50, 50) } else if k == 23 { (15, 15) } else if k == 24 { (85, 15) }
    else if k == 25 { (15, 85) } else if k == 26 { (85, 85) } else if k == 27 { (50, 15) }
    else if k == 28 { (50, 85) } else if k == 29 { (15, 50) } else { (85, 50) }
}

pub open spec fn min_int(a: int, b: int) -> int {
    if a < b {
        a
    } else {
        b
    }
}

/// Where seed `k` stands on a map `w` by `h` (fixed point): pairs of patrols along
/// the diagonal at sixths of the map, the second of each a tenth further on; the
/// others at their ratios.
pub open spec fn seed_point(w: int, h: int, k: int) -> Point {
    if k < 10 {
        let bx = (k / 2 + 1) * w / 6;
        let by = (k / 2 + 1) * h / 6;
        if k % 2 == 0 {
            Point { x: bx as i64, y: by as i64 }
        } else {
            Point { x: (bx + w / 10) as i64, y: (by + h / 10) as i64 }
        }
    } else {
        Point { x: (seed_ratio(k).0 * w / 100) as i64, y: (seed_ratio(k).1 * h / 100) as i64 }
    }
}

/// Where patrol seed `k` turns: across by fifteen hundredths of the width for the
/// first of a pair, down by fifteen hundredths of the height for the second, each at
/// most 200 world units.
pub open spec fn seed_end(w: int, h: int, k: int) -> Point {
    let p = seed_point(w, h, k);
    if k < 10 && k % 2 == 0 {
        Point { x: (p.x + min_int(w * 15 / 100, 200 * UNIT)) as i64, y: p.y }
    } else if k < 10 {
        Point { x: p.x, y: (p.y + min_int(h * 15 / 100, 200 * UNIT)) as i64 }
    } else {
        p
    }
}

/// The wander radius on a map `w` by `h`: a tenth of the shorter side, kept
/// between 50 and 120 world units.
pub open spec fn seed_radius(w: int, h: int) -> int {
    let t = min_int(w, h) / 10;
    if t < 50 * UNIT {
        50 * UNIT
    } else if t > 120 * UNIT {
        120 * UNIT
    } else {
        t
    }
}

/// The enemy of seed `k` when its spots are free.
pub open spec fn seed_enemy(w: int, h: int, k: int) -> Enemy {
    placed(seed_pattern(k), seed_point(w, h, k), seed_end(w, h, k), seed_radius(w, h) as i64)
}

/// Seed `k`'s spot (and, for a patrol, its far end) are free floor.
pub open spec fn seed_free(maze: &Maze, block_size: int, w: int, h: int, k: int) -> bool {
    let p = seed_point(w, h, k);
    let e = seed_end(w, h, k);
    &&& valid_enemy_position(p.x as int, p.y as int, maze, block_size)
    &&& (k < 10 ==> valid_enemy_position(e.x as int, e.y as int, maze, block_size))
}

/// The map's width and height, in fixed point.
pub open spec fn map_width(maze: &Maze, block_size: int) -> int {
    cols(maze) * block_size * UNIT
}

pub open spec fn map_height(maze: &Maze, block_size: int) -> int {
    rows(maze) * block_size * UNIT
}

/// Places one enemy of `pattern` near `(x, y)` (patrolling to near `end`), unless
/// no free spot is found; where the spots given are free, exactly there.
fn place_enemy<T: Trigonometry>(
    enemies: &mut Vec<Enemy>,
    pattern: MovementPattern,
    x: i64,
    y: i64,
    end: Point,
    wander_radius: i64,
    maze: &Maze,
    block_size: usize,
    trig: &T,
)
    requires
        maze_fits(maze, block_size),
        -0x400_0000_0000 <= x <= 0x400_0000_0000,
        -0x400_0000_0000 <= y <= 0x400_0000_0000,
        -0x400_0000_0000 <= end.x <= 0x400_0000_0000,
        -0x400_0000_0000 <= end.y <= 0x400_0000_0000,
        0 <= wander_radius <= COORD_LIMIT,
        forall|i: int| 0 <= i < old(enemies)@.len() ==> well_placed(old(enemies)@[i], maze, block_size as int),
    ensures
        final(enemies)@.len() <= old(enemies)@.len() + 1,
        forall|i: int| 0 <= i < final(enemies)@.len() ==> well_placed(final(enemies)@[i], maze, block_size as int),
        (valid_enemy_position(x as int, y as int, maze, block_size as int) && (pattern
            == MovementPattern::Patrol ==> valid_enemy_position(end.x as int, end.y as int, maze, block_size as int)))
            ==> final(enemies)@ == old(enemies)@.push(placed(pattern, Point { x, y }, end, wander_radius)),
{
    let p = find_valid_position_near(x, y, maze, block_size, SEARCH_RINGS, trig);
    if !is_valid_enemy_position(p.x, p.y, maze, block_size) {
        return;
    }
    let e = match pattern {
        MovementPattern::Patrol => {
            let q = find_valid_position_near(end.x, end.y, maze, block_size, SEARCH_RINGS, trig);
            if !is_valid_enemy_position(q.x, q.y, maze, block_size) {
                return;
            }
            Enemy::new_patrol(p.x, p.y, ENEMY_KEY, q.x, q.y)
        },
        MovementPattern::Wander => Enemy::new_wander(p.x, p.y, ENEMY_KEY, wander_radius),
        MovementPattern::Chase => Enemy::new_chase(p.x, p.y, ENEMY_KEY),
        MovementPattern::Stationary => Enemy::new(p.x, p.y, ENEMY_KEY),
    };
    enemies.push(e);
}

fn seed_ratio_at(k: usize) -> (r: (i64, i64))
    requires
        10 <= k < 31,
    ensures
        r.0 == seed_ratio(k as int).0,
        r.1 == seed_ratio(k as int).1,
        0 <= r.0 <= 100,
        0 <= r.1 <= 100,
{
    let table: [(i64, i64); 21] = [
        (25, 25), (75, 25), (25, 75), (75, 75), (50, 30), (30, 60), (70, 60), (50, 80),
        (20, 40), (80, 60), (60, 20), (40, 80), (50, 50),
        (15, 15), (85, 15), (15, 85), (85, 85), (50, 15), (50, 85), (15, 50), (85, 50),
    ];
    table[k - 10]
}

/// Populates a level with its 31 seeds: each enemy stands at its seed point (and a
/// patrol turns at its seed end) when that is free floor, else at a free spot
/// nearby, and is left out when none is found.
pub fn create_enemies_for_maze<T: Trigonometry>(maze: &Maze, block_size: usize, trig: &T) -> (enemies: Vec<Enemy>)
    requires
        maze_fits(maze, block_size),
    ensures
        enemies@.len() <= SEEDS,
        forall|i: int| 0 <= i < enemies@.len() ==> well_placed(enemies@[i], maze, block_size as int),
        ({
            let w = map_width(maze, block_size as int);
            let h = map_height(maze, block_size as int);
            (forall|k: int| 0 <= k < SEEDS ==> #[trigger] seed_free(maze, block_size as int, w, h, k))
                ==> enemies@ == Seq::new(SEEDS as nat, |k: int| seed_enemy(w, h, k))
        }),
{
    proof {
        lemma_block_bound(maze, block_size);
        crate::maze::lemma_scaled_extent(cols(maze), block_size as int);
        crate::maze::lemma_scaled_extent(rows(maze), block_size as int);
    }
    let mut enemies: Vec<Enemy> = Vec::new();
    let width: i64 = maze[0].len() as i64 * block_size as i64 * UNIT;
    let height: i64 = maze.len() as i64 * block_size as i64 * UNIT;
    let ghost w = map_width(maze, block_size as int);
    let ghost h = map_height(maze, block_size as int);
    assert(width == w && height == h);
    assert(0 <= width <= WORLD_LIMIT * UNIT);
    assert(0 <= height <= WORLD_LIMIT * UNIT);
    let cap: i64 = 200 * UNIT;
    let patrol_distance: i64 = if width * 15 / 100 < cap {
        width * 15 / 100
    } else {
        cap
    };
    let vertical_distance: i64 = if height * 15 / 100 < cap {
        height * 15 / 100
    } else {
        cap
    };
    let short = if width < height {
        width
    } else {
        height
    };
    let tenth = short / 10;
    let radius = if tenth < 50 * UNIT {
        50 * UNIT
    } else if tenth > 120 * UNIT {
        120 * UNIT
    } else {
        tenth
    };
    assert(radius == seed_radius(w, h));
    let mut k: usize = 0;
    while k < SEEDS
        invariant
            0 <= k <= SEEDS,
            width == w,
            height == h,
            w == map_width(maze, block_size as int),
            h == map_height(maze, block_size as int),
            0 <= width <= WORLD_LIMIT * UNIT,
            0 <= height <= WORLD_LIMIT * UNIT,
            patrol_distance == min_int(w * 15 / 100, 200 * UNIT),
            vertical_distance == min_int(h * 15 / 100, 200 * UNIT),
            radius == seed_radius(w, h),
            50 * UNIT <= radius <= 120 * UNIT,
            maze_fits(maze, block_size),
            enemies@.len() <= k,
            forall|q: int| 0 <= q < enemies@.len() ==> well_placed(enemies@[q], maze, block_size as int),
            (forall|q: int| 0 <= q < k ==> #[trigger] seed_free(maze, block_size as int, w, h, q))
                ==> enemies@ == Seq::new(k as nat, |q: int| seed_enemy(w, h, q)),
        decreases SEEDS - k,
    {
        let ghost before = enemies@;
        let (pattern, x, y, end) = if k < 10 {
            let i = (k / 2) as i64;
            assert(0 <= (i + 1) * width <= 5 * WORLD_LIMIT * UNIT) by (nonlinear_arith)
                requires
                    0 <= i < 5,
                    0 <= width <= WORLD_LIMIT * UNIT,
            ;
            assert(0 <= (i + 1) * height <= 5 * WORLD_LIMIT * UNIT) by (nonlinear_arith)
                requires
                    0 <= i < 5,
                    0 <= height <= WORLD_LIMIT * UNIT,
            ;
            let bx = (i + 1) * width / 6;
            let by = (i + 1) * height / 6;
            if k % 2 == 0 {
                (MovementPattern::Patrol, bx, by, Point::new(bx + patrol_distance, by))
            } else {
                let vx = bx + width / 10;
                let vy = by + height / 10;
                (MovementPattern::Patrol, vx, vy, Point::new(vx, vy + vertical_distance))
            }
        } else {
            let (rx, ry) = seed_ratio_at(k);
            assert(0 <= rx * width <= 100 * WORLD_LIMIT * UNIT) by (nonlinear_arith)
                requires
                    0 <= rx <= 100,
                    0 <= width <= WORLD_LIMIT * UNIT,
            ;
            assert(0 <= ry * height <= 100 * WORLD_LIMIT * UNIT) by (nonlinear_arith)
                requires
                    0 <= ry <= 100,
                    0 <= height <= WORLD_LIMIT * UNIT,
            ;
            let x = rx * width / 100;
            let y = ry * height / 100;
            let pattern = if k < 18 {
                MovementPattern::Wander
            } else if k < 23 {
                MovementPattern::Chase
            } else {
                MovementPattern::Stationary
            };
            (pattern, x, y, Point::new(x, y))
        };
        proof {
            assert(pattern == seed_pattern(k as int));
            assert(Point { x, y } == seed_point(w, h, k as int));
            assert(end == seed_end(w, h, k as int));
        }
        place_enemy(&mut enemies, pattern, x, y, end, radius, maze, block_size, trig);
        proof {
            if forall|q: int| 0 <= q < k + 1 ==> #[trigger] seed_free(maze, block_size as int, w, h, q) {
                assert(seed_free(maze, block_size as int, w, h, k as int));
                assert(enemies@ =~= Seq::new((k + 1) as nat, |q: int| seed_enemy(w, h, q)));
            }
        }
        k += 1;
    }
    enemies
}

} // verus!
