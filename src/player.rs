use vstd::prelude::*;

use crate::geometry::{Point, UNIT, COORD_LIMIT};
use crate::maze::{Maze, maze_fits, rows, cols, cell, is_open, cell_at, lemma_block_bound};

verus! {

/// How far one movement input carries the player, in world units.
pub const MOVE_SPEED: i64 = 10;

/// How far one rotation input turns the player, in microradians (a tenth of a half turn).
pub const ROTATION_SPEED: i64 = 314159;

/// How long a sword swing lasts, in milliseconds.
pub const ATTACK_DURATION_MS: u64 = 250;

/// The pause after a swing starts before another may start, in milliseconds.
pub const ATTACK_COOLDOWN_MS: u64 = 100;

/// The camera: position, facing angle and field of view, with the sword swing state.
pub struct Player {
    pub pos: Point,
    /// Facing angle in microradians.
    pub a: i64,
    /// Field of view in microradians.
    pub fov: i64,
    /// Microradians turned per pixel of mouse travel.
    pub mouse_sensitivity: i64,
    pub is_attacking: bool,
    /// Milliseconds left in the current swing.
    pub attack_timer: u64,
    pub attack_duration: u64,
    /// Milliseconds before another swing may start.
    pub attack_cooldown: u64,
    pub enemy_hit_this_attack: bool,
}

/// Whether the point `(x, y)` is blocked for the player: outside the grid, or in a
/// cell that is neither floor nor spawn.
pub open spec fn blocked(maze: &Maze, x: int, y: int, block_size: int) -> bool {
    let i = x / (block_size * UNIT);
    let j = y / (block_size * UNIT);
    x < 0 || y < 0 || j >= rows(maze) || i >= cols(maze) || !is_open(cell(maze, i, j))
}

pub fn check_collision(maze: &Maze, x: i64, y: i64, block_size: usize) -> (r: bool)
    requires
        maze_fits(maze, block_size),
    ensures
        r == blocked(maze, x as int, y as int, block_size as int),
{
    if x < 0 || y < 0 {
        return true;
    }
    proof {
        lemma_block_bound(maze, block_size);
        assert(block_size * UNIT <= 0x100_0000 * UNIT) by (nonlinear_arith)
            requires
                block_size <= 0x100_0000,
        ;
    }
    let scale: u64 = block_size as u64 * UNIT as u64;
    let i = x as u64 / scale;
    let j = y as u64 / scale;
    if j >= maze.len() as u64 || i >= maze[0].len() as u64 {
        return true;
    }
    let c = cell_at(maze, i as usize, j as usize);
    c != ' ' && c != 'p'
}

impl Player {
    pub fn new(pos: Point, a: i64, fov: i64, mouse_sensitivity: i64) -> (p: Player)
        ensures
            p.pos == pos,
            p.a == a,
            p.fov == fov,
            p.mouse_sensitivity == mouse_sensitivity,
            !p.is_attacking,
            p.attack_timer == 0,
            p.attack_duration == ATTACK_DURATION_MS,
            p.attack_cooldown == 0,
            !p.enemy_hit_this_attack,
    {
        Player {
            pos,
            a,
            fov,
            mouse_sensitivity,
            is_attacking: false,
            attack_timer: 0,
            attack_duration: ATTACK_DURATION_MS,
            attack_cooldown: 0,
            enemy_hit_this_attack: false,
        }
    }

    /// Starts a swing unless one is under way or the cooldown has not run out.
    pub fn start_attack(&mut self)
        ensures
            ({
                let o = *old(self);
                let f = *final(self);
                if !o.is_attacking && o.attack_cooldown == 0 {
                    f == Player {
                        is_attacking: true,
                        attack_timer: o.attack_duration,
                        attack_cooldown: ATTACK_COOLDOWN_MS,
                        enemy_hit_this_attack: false,
                        ..o
                    }
                } else {
                    f == o
                }
            }),
    {
        if !self.is_attacking && self.attack_cooldown == 0 {
            self.is_attacking = true;
            self.attack_timer = self.attack_duration;
            self.attack_cooldown = ATTACK_COOLDOWN_MS;
            self.enemy_hit_this_attack = false;
        }
    }

    /// Runs the swing and the cooldown down by `delta_ms`; the swing ends when its
    /// time is used up.
    pub fn update_attack(&mut self, delta_ms: u64)
        ensures
            ({
                let o = *old(self);
                let f = *final(self);
                let timer = if o.attack_timer > delta_ms {
                    o.attack_timer - delta_ms
                } else {
                    0
                };
                &&& f.is_attacking == (o.is_attacking && timer > 0)
                &&& f.attack_timer == (if o.is_attacking {
                    timer
                } else {
                    o.attack_timer as int
                })
                &&& f.attack_cooldown == (if o.attack_cooldown > delta_ms {
                    o.attack_cooldown - delta_ms
                } else {
                    0
                })
                &&& f.pos == o.pos && f.a == o.a && f.fov == o.fov
                &&& f.mouse_sensitivity == o.mouse_sensitivity
                &&& f.attack_duration == o.attack_duration
                &&& f.enemy_hit_this_attack == o.enemy_hit_this_attack
            }),
    {
        if self.is_attacking {
            self.attack_timer = self.attack_timer.saturating_sub(delta_ms);
            if self.attack_timer == 0 {
                self.is_attacking = false;
            }
        }
        if self.attack_cooldown > 0 {
            self.attack_cooldown = self.attack_cooldown.saturating_sub(delta_ms);
        }
    }

    /// How far the swing has gone, in thousandths: 0 when not swinging.
    pub fn get_attack_progress(&self) -> (r: u64)
        requires
            self.attack_duration > 0,
        ensures
            r == (if !self.is_attacking {
                0
            } else if self.attack_timer >= self.attack_duration {
                0
            } else {
                1000 - (self.attack_timer * 1000) / self.attack_duration as int
            }),
    {
        if !self.is_attacking {
            return 0;
        }
        if self.attack_timer >= self.attack_duration {
            return 0;
        }
        assert(self.attack_timer * 1000 < self.attack_duration * 1000);
        let part = (self.attack_timer as u128 * 1000) / self.attack_duration as u128;
        assert(part <= 1000) by (nonlinear_arith)
            requires
                part == (self.attack_timer * 1000) / self.attack_duration as int,
                self.attack_timer < self.attack_duration,
        ;
        1000 - part as u64
    }

    /// Moves the player by `(dx, dy)` when the destination is not blocked; returns
    /// whether it moved.
    pub fn try_move(&mut self, maze: &Maze, dx: i64, dy: i64, block_size: usize) -> (moved: bool)
        requires
            maze_fits(maze, block_size),
            old(self).pos.in_range(),
            -COORD_LIMIT <= dx <= COORD_LIMIT,
            -COORD_LIMIT <= dy <= COORD_LIMIT,
        ensures
            moved == !blocked(
                maze,
                old(self).pos.x + dx,
                old(self).pos.y + dy,
                block_size as int,
            ),
            moved ==> *final(self) == (Player {
                pos: Point { x: (old(self).pos.x + dx) as i64, y: (old(self).pos.y + dy) as i64 },
                ..*old(self)
            }),
            !moved ==> *final(self) == *old(self),
            final(self).pos.in_range(),
    {
        let nx = self.pos.x + dx;
        let ny = self.pos.y + dy;
        if check_collision(maze, nx, ny, block_size) {
            return false;
        }
        proof {
            lemma_block_bound(maze, block_size);
            assert(nx as int / (block_size * UNIT) < cols(maze));
            assert(nx < cols(maze) * (block_size * UNIT)) by (nonlinear_arith)
                requires
                    nx >= 0,
                    block_size * UNIT > 0,
                    nx as int / (block_size * UNIT) < cols(maze),
            ;
            assert(ny < rows(maze) * (block_size * UNIT)) by (nonlinear_arith)
                requires
                    ny >= 0,
                    block_size * UNIT > 0,
                    ny as int / (block_size * UNIT) < rows(maze),
            ;
            crate::maze::lemma_scaled_extent(cols(maze), block_size as int);
            crate::maze::lemma_scaled_extent(rows(maze), block_size as int);
        }
        self.pos = Point::new(nx, ny);
        true
    }

    /// Turns the player by `delta` microradians, stopping at the ends of the range.
    pub fn turn(&mut self, delta: i64)
        ensures
            final(self).a == (if old(self).a + delta > i64::MAX {
                i64::MAX as int
            } else if old(self).a + delta < i64::MIN {
                i64::MIN as int
            } else {
                old(self).a + delta
            }),
            final(self).pos == old(self).pos,
            final(self).fov == old(self).fov,
    {
        let sum: i128 = self.a as i128 + delta as i128;
        self.a = if sum > i64::MAX as i128 {
            i64::MAX
        } else if sum < i64::MIN as i128 {
            i64::MIN
        } else {
            sum as i64
        };
    }
}

} // verus!
