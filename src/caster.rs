use vstd::prelude::*;
use vstd::arithmetic::div_mod::{lemma_fundamental_div_mod, lemma_mod_pos_bound};

use crate::color::Color;
use crate::framebuffer::{Framebuffer, FrameView};
use crate::geometry::{Heading, Point, UNIT, heading_ok};
use crate::maze::{Maze, maze_wf, maze_fits, rows, cols, cell, is_open, cell_at, lemma_block_bound, lemma_scaled_extent, WORLD_LIMIT};
use crate::player::Player;

verus! {

/// The character a ray reports when it leaves the grid.
pub const BOUNDARY: char = '+';

/// What one ray found: how many unit steps it took, the cell it stopped in, and the
/// texture column of the hit.
pub struct Intersect {
    pub distance: u64,
    pub impact: char,
    pub tx: usize,
}

/// The ray's position after `d` unit steps, in fixed point.
pub open spec fn ray_x(p: Point, h: Heading, d: int) -> int {
    p.x + d * h.components().0
}

pub open spec fn ray_y(p: Point, h: Heading, d: int) -> int {
    p.y + d * h.components().1
}

/// After `d` steps the ray is at a negative coordinate or past the grid.
pub open spec fn ray_outside(maze: &Maze, p: Point, h: Heading, block_size: int, d: int) -> bool {
    let x = ray_x(p, h, d);
    let y = ray_y(p, h, d);
    x < 0 || y < 0 || (y / (UNIT as int)) / block_size >= rows(maze) || (x / (UNIT as int)) / block_size >= cols(
        maze,
    )
}

pub open spec fn ray_cell(maze: &Maze, p: Point, h: Heading, block_size: int, d: int) -> char {
    cell(maze, (ray_x(p, h, d) / (UNIT as int)) / block_size, (ray_y(p, h, d) / (UNIT as int)) / block_size)
}

/// After `d` steps the ray is inside the grid on floor or spawn, and goes on.
pub open spec fn ray_passes(maze: &Maze, p: Point, h: Heading, block_size: int, d: int) -> bool {
    !ray_outside(maze, p, h, block_size, d) && is_open(ray_cell(maze, p, h, block_size, d))
}

/// The texture column of a wall hit after `d` steps: the offset into the cell along
/// x when it lies strictly inside `(1, block_size - 1)`, else the offset along y,
/// scaled to `[0, 127]`.
pub open spec fn texture_column(p: Point, h: Heading, block_size: int, d: int) -> int {
    let hitx = (ray_x(p, h, d) / (UNIT as int)) % block_size;
    let hity = (ray_y(p, h, d) / (UNIT as int)) % block_size;
    let offset = if 1 < hitx && hitx < block_size - 1 {
        hitx
    } else {
        hity
    };
    offset * 127 / block_size
}

/// The colors of frame `v` after the first `n` steps of the ray have been marked in
/// `color`, each at the whole world coordinates it reached, where these fall on the
/// frame.
pub open spec fn traced(v: FrameView, p: Point, h: Heading, color: Color, n: int) -> Seq<Color>
    decreases n,
{
    if n <= 0 {
        v.colors
    } else {
        let before = traced(v, p, h, color, n - 1);
        let x = ray_x(p, h, n - 1) / (UNIT as int);
        let y = ray_y(p, h, n - 1) / (UNIT as int);
        if 0 <= x < v.width && 0 <= y < v.height {
            before.update(y * v.width + x, color)
        } else {
            before
        }
    }
}

/// How far the ray still is from leaving the grid along an axis it moves on.
pub open spec fn ray_remaining(maze: &Maze, p: Point, h: Heading, block_size: int, d: int) -> int {
    let (c, s) = h.components();
    if c > 0 {
        cols(maze) * block_size * UNIT - ray_x(p, h, d)
    } else if c < 0 {
        ray_x(p, h, d) + 1
    } else if s > 0 {
        rows(maze) * block_size * UNIT - ray_y(p, h, d)
    } else {
        ray_y(p, h, d) + 1
    }
}

/// The ray stops after exactly `d` steps: it passed every earlier step and not this one.
pub open spec fn stops_at(maze: &Maze, p: Point, h: Heading, block_size: int, d: int) -> bool {
    &&& 0 <= d
    &&& !ray_passes(maze, p, h, block_size, d)
    &&& forall|k: int| 0 <= k < d ==> ray_passes(maze, p, h, block_size, k)
}

/// What the ray along `h` from `p` reports: its stopping step, the boundary
/// sentinel or the wall it entered, and the texture column of the hit.
pub open spec fn ray_result(maze: &Maze, p: Point, h: Heading, block_size: int) -> Intersect {
    let d = choose|d: int| stops_at(maze, p, h, block_size, d);
    if ray_outside(maze, p, h, block_size, d) {
        Intersect { distance: d as u64, impact: BOUNDARY, tx: 0 }
    } else {
        Intersect {
            distance: d as u64,
            impact: ray_cell(maze, p, h, block_size, d),
            tx: texture_column(p, h, block_size, d) as usize,
        }
    }
}

pub proof fn lemma_stop_unique(maze: &Maze, p: Point, h: Heading, block_size: int, d: int)
    requires
        stops_at(maze, p, h, block_size, d),
    ensures
        (choose|e: int| stops_at(maze, p, h, block_size, e)) == d,
{
    let e = choose|e: int| stops_at(maze, p, h, block_size, e);
    if e < d {
        assert(ray_passes(maze, p, h, block_size, e));
    } else if d < e {
        assert(ray_passes(maze, p, h, block_size, d));
    }
}

/// A ray that starts on an open cell stops within the grid's diagonal: the steps it
/// passes, each about one world unit long, all lie on the grid, so the last of them
/// is no farther from the first than the diagonal.
pub proof fn lemma_ray_within_diagonal(maze: &Maze, p: Point, h: Heading, block_size: int, d: int)
    requires
        maze_wf(maze),
        block_size > 0,
        heading_ok(h.components().0, h.components().1),
        ray_passes(maze, p, h, block_size, 0),
        stops_at(maze, p, h, block_size, d),
    ensures
        ({
            let w = cols(maze) * block_size * UNIT;
            let t = rows(maze) * block_size * UNIT;
            (d - 1) * (d - 1) * ((UNIT - 2) * (UNIT - 2)) <= w * w + t * t
        }),
{
    let w = cols(maze) * block_size * UNIT;
    let t = rows(maze) * block_size * UNIT;
    let (c, s) = h.components();
    assert(d >= 1);
    assert(ray_passes(maze, p, h, block_size, d - 1));
    let x0 = ray_x(p, h, 0);
    let y0 = ray_y(p, h, 0);
    let x1 = ray_x(p, h, d - 1);
    let y1 = ray_y(p, h, d - 1);
    lemma_inside_extent(x0, block_size, cols(maze));
    lemma_inside_extent(y0, block_size, rows(maze));
    lemma_inside_extent(x1, block_size, cols(maze));
    lemma_inside_extent(y1, block_size, rows(maze));
    let n = d - 1;
    assert(x1 - x0 == n * c) by (nonlinear_arith)
        requires
            x1 == p.x + (d - 1) * c,
            x0 == p.x + 0 * c,
            n == d - 1,
    ;
    assert(y1 - y0 == n * s) by (nonlinear_arith)
        requires
            y1 == p.y + (d - 1) * s,
            y0 == p.y + 0 * s,
            n == d - 1,
    ;
    assert((n * c) * (n * c) <= w * w) by (nonlinear_arith)
        requires
            0 <= x0 < w,
            0 <= x1 < w,
            x1 - x0 == n * c,
    ;
    assert((n * s) * (n * s) <= t * t) by (nonlinear_arith)
        requires
            0 <= y0 < t,
            0 <= y1 < t,
            y1 - y0 == n * s,
    ;
    assert(n * n * ((UNIT - 2) * (UNIT - 2)) <= n * n * (c * c + s * s)) by (nonlinear_arith)
        requires
            (UNIT - 2) * (UNIT - 2) <= c * c + s * s,
    ;
    assert(n * n * (c * c + s * s) == (n * c) * (n * c) + (n * s) * (n * s)) by (nonlinear_arith);
}

proof fn lemma_inside_extent(v: int, block_size: int, n: int)
    requires
        0 <= v,
        0 < block_size,
        (v / (UNIT as int)) / block_size < n,
    ensures
        v < n * block_size * UNIT,
{
    let q = v / (UNIT as int);
    assert(v < (q + 1) * UNIT);
    assert(q < (q / block_size + 1) * block_size) by (nonlinear_arith)
        requires
            0 < block_size,
            q >= 0,
    ;
    assert(q + 1 <= n * block_size) by (nonlinear_arith)
        requires
            q < (q / block_size + 1) * block_size,
            q / block_size + 1 <= n,
            0 < block_size,
    ;
    assert(v < n * block_size * UNIT) by (nonlinear_arith)
        requires
            v < (q + 1) * UNIT,
            q + 1 <= n * block_size,
    ;
}

/// Marches a ray from the player one world unit at a time along `dir` until it
/// leaves the grid or enters a cell that is neither floor nor spawn. With
/// `draw_line` it marks each step it passes on the frame.
pub fn cast_ray(
    framebuffer: &mut Framebuffer,
    maze: &Maze,
    player: &Player,
    dir: &Heading,
    block_size: usize,
    draw_line: bool,
) -> (r: Intersect)
    requires
        maze_fits(maze, block_size),
        player.pos.in_range(),
        old(framebuffer).wf(),
    ensures
        forall|k: int|
            0 <= k < r.distance ==> ray_passes(maze, player.pos, *dir, block_size as int, k),
        !ray_passes(maze, player.pos, *dir, block_size as int, r.distance as int),
        ray_outside(maze, player.pos, *dir, block_size as int, r.distance as int) ==> r.impact
            == BOUNDARY && r.tx == 0,
        !ray_outside(maze, player.pos, *dir, block_size as int, r.distance as int) ==> r.impact
            == ray_cell(maze, player.pos, *dir, block_size as int, r.distance as int) && r.tx
            == texture_column(player.pos, *dir, block_size as int, r.distance as int),
        r.impact == BOUNDARY || exists|i: int, j: int|
            0 <= i < cols(maze) && 0 <= j < rows(maze) && #[trigger] cell(maze, i, j) == r.impact
                && !is_open(r.impact),
        r.tx <= 127,
        r.distance <= 0x2000_0000_0000,
        ray_passes(maze, player.pos, *dir, block_size as int, 0) ==> (r.distance - 1) * (r.distance
            - 1) * ((UNIT - 2) * (UNIT - 2)) <= (cols(maze) * block_size * UNIT) * (cols(maze)
            * block_size * UNIT) + (rows(maze) * block_size * UNIT) * (rows(maze) * block_size
            * UNIT),
        r == ray_result(maze, player.pos, *dir, block_size as int),
        final(framebuffer).wf(),
        final(framebuffer)@.width == old(framebuffer)@.width,
        final(framebuffer)@.height == old(framebuffer)@.height,
        final(framebuffer)@.depths == old(framebuffer)@.depths,
        final(framebuffer)@.background == old(framebuffer)@.background,
        final(framebuffer)@.current == Color::whitesmoke_spec(),
        !draw_line ==> final(framebuffer)@.colors == old(framebuffer)@.colors,
        draw_line ==> final(framebuffer)@.colors == traced(
            old(framebuffer)@,
            player.pos,
            *dir,
            Color::whitesmoke_spec(),
            r.distance as int,
        ),
{
    framebuffer.set_current_color(Color::whitesmoke());
    proof {
        assert(traced(old(framebuffer)@, player.pos, *dir, Color::whitesmoke_spec(), 0)
            == old(framebuffer)@.colors);
    }
    let hx = dir.cos();
    let hy = dir.sin();
    let px = player.pos.x;
    let py = player.pos.y;
    let ghost p = player.pos;
    let ghost h = *dir;
    let ghost b = block_size as int;
    let rows_n = maze.len();
    let cols_n = maze[0].len();
    proof {
        lemma_block_bound(maze, block_size);
        lemma_scaled_extent(rows(maze), b);
        lemma_scaled_extent(cols(maze), b);
    }
    let mut d: u64 = 0;
    loop
        invariant
            maze_fits(maze, block_size),
            rows_n == rows(maze),
            cols_n == cols(maze),
            block_size <= WORLD_LIMIT,
            rows(maze) * b <= WORLD_LIMIT,
            cols(maze) * b <= WORLD_LIMIT,
            p.in_range(),
            p == player.pos,
            h == *dir,
            b == block_size as int,
            px == p.x,
            py == p.y,
            hx == h.components().0,
            hy == h.components().1,
            heading_ok(hx as int, hy as int),
            d <= 0x2000_0000_0000,
            forall|k: int| 0 <= k < d ==> ray_passes(maze, p, h, b, k),
            framebuffer.wf(),
            framebuffer@.width == old(framebuffer)@.width,
            framebuffer@.height == old(framebuffer)@.height,
            framebuffer@.depths == old(framebuffer)@.depths,
            framebuffer@.background == old(framebuffer)@.background,
            framebuffer@.current == Color::whitesmoke_spec(),
            !draw_line ==> framebuffer@.colors == old(framebuffer)@.colors,
            draw_line ==> framebuffer@.colors == traced(
                old(framebuffer)@,
                p,
                h,
                Color::whitesmoke_spec(),
                d as int,
            ),
        decreases (if ray_remaining(maze, p, h, b, d as int) < 0 {
            0
        } else {
            ray_remaining(maze, p, h, b, d as int)
        }),
    {
        assert(-0x4000_0000_0000_0000 <= d * hx <= 0x4000_0000_0000_0000) by (nonlinear_arith)
            requires
                0 <= d <= 0x2000_0000_0000,
                -UNIT <= hx <= UNIT,
        ;
        assert(-0x4000_0000_0000_0000 <= d * hy <= 0x4000_0000_0000_0000) by (nonlinear_arith)
            requires
                0 <= d <= 0x2000_0000_0000,
                -UNIT <= hy <= UNIT,
        ;
        let rx: i128 = px as i128 + d as i128 * hx as i128;
        let ry: i128 = py as i128 + d as i128 * hy as i128;
        assert(rx == ray_x(p, h, d as int));
        assert(ry == ray_y(p, h, d as int));
        if rx < 0 || ry < 0 {
            proof {
                lemma_stop_unique(maze, p, h, b, d as int);
                if ray_passes(maze, p, h, b, 0) {
                    lemma_ray_within_diagonal(maze, p, h, b, d as int);
                }
            }
            return Intersect { distance: d, impact: BOUNDARY, tx: 0 };
        }
        let x: i128 = rx / UNIT as i128;
        let y: i128 = ry / UNIT as i128;
        let i: i128 = x / block_size as i128;
        let j: i128 = y / block_size as i128;
        if j >= rows_n as i128 || i >= cols_n as i128 {
            proof {
                lemma_stop_unique(maze, p, h, b, d as int);
                if ray_passes(maze, p, h, b, 0) {
                    lemma_ray_within_diagonal(maze, p, h, b, d as int);
                }
            }
            return Intersect { distance: d, impact: BOUNDARY, tx: 0 };
        }
        proof {
            lemma_inside_extent(rx as int, b, cols(maze));
            lemma_inside_extent(ry as int, b, rows(maze));
            assert(cols(maze) * b * UNIT <= WORLD_LIMIT * UNIT) by (nonlinear_arith)
                requires
                    cols(maze) * b <= WORLD_LIMIT,
            ;
            assert(rows(maze) * b * UNIT <= WORLD_LIMIT * UNIT) by (nonlinear_arith)
                requires
                    rows(maze) * b <= WORLD_LIMIT,
            ;
            assert(x < WORLD_LIMIT);
            assert(y < WORLD_LIMIT);
        }
        let c = cell_at(maze, i as usize, j as usize);
        if c != ' ' && c != 'p' {
            proof {
                lemma_fundamental_div_mod(x as int, b);
                lemma_fundamental_div_mod(y as int, b);
                lemma_mod_pos_bound(x as int, b);
                lemma_mod_pos_bound(y as int, b);
                assert(i * b == b * i) by (nonlinear_arith);
                assert(j * b == b * j) by (nonlinear_arith);
            }
            let hitx: i128 = x - i * block_size as i128;
            let hity: i128 = y - j * block_size as i128;
            let mut maxhit: i128 = hity;
            if 1 < hitx && hitx < block_size as i128 - 1 {
                maxhit = hitx;
            }
            proof {
                assert(hitx == x as int % b) by (nonlinear_arith)
                    requires
                        i == x as int / b,
                        hitx == x - i * b,
                        b > 0,
                        x >= 0,
                ;
                assert(hity == y as int % b) by (nonlinear_arith)
                    requires
                        j == y as int / b,
                        hity == y - j * b,
                        b > 0,
                        y >= 0,
                ;
                assert(maxhit * 127 / b <= 127) by (nonlinear_arith)
                    requires
                        0 <= maxhit < b,
                ;
            }
            let tx = (maxhit * 127) / block_size as i128;
            assert(0 <= tx <= 127);
            proof {
                assert(cell(maze, i as int, j as int) == c);
                lemma_stop_unique(maze, p, h, b, d as int);
                if ray_passes(maze, p, h, b, 0) {
                    lemma_ray_within_diagonal(maze, p, h, b, d as int);
                }
            }
            return Intersect { distance: d, impact: c, tx: tx as usize };
        }
        if draw_line {
            framebuffer.set_pixel(x as u32, y as u32);
        }
        proof {
            assert(x == ray_x(p, h, d as int) / (UNIT as int));
            assert(y == ray_y(p, h, d as int) / (UNIT as int));
        }
        proof {
            let dx = d as int * hx as int;
            let dy = d as int * hy as int;
            assert(-0x1000_0000_0000 - 0x100_0000 * UNIT <= dx <= 0x1000_0000_0000 + 0x100_0000 * UNIT);
            assert(-0x1000_0000_0000 - 0x100_0000 * UNIT <= dy <= 0x1000_0000_0000 + 0x100_0000 * UNIT);
            if hx != 0 {
                assert(d <= 0x1100_0000_0000) by (nonlinear_arith)
                    requires
                        hx != 0,
                        dx == d * hx,
                        -0x1100_0000_0000 <= dx <= 0x1100_0000_0000,
                        d >= 0,
                ;
            } else {
                assert(d <= 0x1100_0000_0000) by (nonlinear_arith)
                    requires
                        hy != 0,
                        dy == d * hy,
                        -0x1100_0000_0000 <= dy <= 0x1100_0000_0000,
                        d >= 0,
                ;
            }
            assert(ray_x(p, h, d + 1) == ray_x(p, h, d as int) + hx) by (nonlinear_arith)
                requires
                    ray_x(p, h, d + 1) == p.x + (d + 1) * hx,
                    ray_x(p, h, d as int) == p.x + d * hx,
            ;
            assert(ray_y(p, h, d + 1) == ray_y(p, h, d as int) + hy) by (nonlinear_arith)
                requires
                    ray_y(p, h, d + 1) == p.y + (d + 1) * hy,
                    ray_y(p, h, d as int) == p.y + d * hy,
            ;
            assert(ray_passes(maze, p, h, b, d as int));
            assert(0 <= rx < cols(maze) * b * UNIT);
            assert(0 <= ry < rows(maze) * b * UNIT);
            assert(0 < ray_remaining(maze, p, h, b, d as int));
            assert(ray_remaining(maze, p, h, b, d + 1) < ray_remaining(maze, p, h, b, d as int));
        }
        d = d + 1;
    }
}

} // verus!
