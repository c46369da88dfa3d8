use vstd::prelude::*;
use vstd::arithmetic::div_mod::lemma_fundamental_div_mod_converse;

use crate::caster::{Intersect, cast_ray, ray_result};
use crate::color::Color;
use crate::framebuffer::{Framebuffer, FrameView};
use crate::geometry::{Heading, Point, Trigonometry, UNIT, ANGLE_PI, ANGLE_TWO_PI, isqrt, sqrt_floor, quot, div_toward_zero};
use crate::maze::{Maze, maze_fits, rows, cols, cell, clamped_cell, cell_index, cell_at, lemma_block_bound, on_wall, point_on_wall};
use crate::enemy::{dist2, Enemy, AnimationState, enemy_step, with_animation, DESPAWN_MS};
use crate::color::{transparent, is_transparent_color};
use crate::player::Player;
use crate::texture::TextureManager;

verus! {

/// The depth of the sky and floor backdrop: behind any wall or sprite.
pub const SKY_DEPTH: u64 = 655360000;

/// Distance from the eye to the projection plane, which scales walls and sprites.
pub const PROJECTION_DISTANCE: u64 = 70;

/// Wall distance, in world units, beyond which fog sets in.
pub const FOG_START: u64 = 200;

/// The backdrop color of row `y`: flat sky and floor in performance mode, else a
/// sky gradient from dark crimson and a floor gradient from black.
pub open spec fn backdrop_color(h: int, y: int, performance_mode: bool) -> Color {
    if performance_mode {
        if y < h / 2 {
            Color { r: 120, g: 40, b: 40, a: 255 }
        } else {
            Color { r: 30, g: 8, b: 8, a: 255 }
        }
    } else if y < h / 2 {
        Color {
            r: (60 + 240 * y / h) as u8,
            g: (20 + 80 * y / h) as u8,
            b: (20 + 60 * y / h) as u8,
            a: 255,
        }
    } else {
        let f = y - h / 2;
        Color {
            r: (10 + 100 * f / h) as u8,
            g: (5 + 20 * f / h) as u8,
            b: (5 + 20 * f / h) as u8,
            a: 255,
        }
    }
}

/// The frame after the backdrop has been depth-tested into the pixels before index
/// `k`.
pub open spec fn backdrop_upto(v: FrameView, performance_mode: bool, k: int) -> FrameView {
    let filled = |p: int|
        p < k && SKY_DEPTH < v.depths[p];
    FrameView {
        colors: Seq::new(
            v.colors.len(),
            |p: int|
                if filled(p) {
                    backdrop_color(v.height as int, p / (v.width as int), performance_mode)
                } else {
                    v.colors[p]
                },
        ),
        depths: Seq::new(
            v.depths.len(),
            |p: int|
                if filled(p) {
                    SKY_DEPTH
                } else {
                    v.depths[p]
                },
        ),
        ..v
    }
}

/// The frame after the whole backdrop.
pub open spec fn after_backdrop(v: FrameView, performance_mode: bool) -> FrameView {
    backdrop_upto(v, performance_mode, v.colors.len() as int)
}

/// Two frames that show the same picture with the same depths.
pub open spec fn same_picture(a: FrameView, b: FrameView) -> bool {
    &&& a.width == b.width
    &&& a.height == b.height
    &&& a.colors == b.colors
    &&& a.depths == b.depths
    &&& a.background == b.background
}

fn backdrop_color_at(h: u32, y: u32, performance_mode: bool) -> (c: Color)
    requires
        y < h,
    ensures
        c == backdrop_color(h as int, y as int, performance_mode),
{
    if performance_mode {
        if y < h / 2 {
            Color::new(120, 40, 40, 255)
        } else {
            Color::new(30, 8, 8, 255)
        }
    } else if y < h / 2 {
        let yy = y as u64;
        let hh = h as u64;
        assert(240 * yy / (hh as int) <= 120) by (nonlinear_arith)
            requires
                yy < hh / 2,
                hh > 0,
        ;
        assert(80 * yy / (hh as int) <= 40) by (nonlinear_arith)
            requires
                yy < hh / 2,
                hh > 0,
        ;
        assert(60 * yy / (hh as int) <= 30) by (nonlinear_arith)
            requires
                yy < hh / 2,
                hh > 0,
        ;
        Color::new(
            (60 + 240 * yy / hh) as u8,
            (20 + 80 * yy / hh) as u8,
            (20 + 60 * yy / hh) as u8,
            255,
        )
    } else {
        let f = (y - h / 2) as u64;
        let hh = h as u64;
        assert(100 * f / (hh as int) <= 100) by (nonlinear_arith)
            requires
                f < hh,
                hh > 0,
        ;
        assert(20 * f / (hh as int) <= 20) by (nonlinear_arith)
            requires
                f < hh,
                hh > 0,
        ;
        Color::new((10 + 100 * f / hh) as u8, (5 + 20 * f / hh) as u8, (5 + 20 * f / hh) as u8, 255)
    }
}

/// Fills every row, sky in the upper half and floor below, behind everything:
/// depth-tested at the backdrop depth.
pub fn fill_backdrop(framebuffer: &mut Framebuffer, performance_mode: bool)
    requires
        old(framebuffer).wf(),
    ensures
        final(framebuffer).wf(),
        same_picture(final(framebuffer)@, after_backdrop(old(framebuffer)@, performance_mode)),
{
    let w = framebuffer.width();
    let h = framebuffer.height();
    let ghost v = framebuffer@;
    let mut y: u32 = 0;
    proof {
        assert(backdrop_upto(v, performance_mode, 0).colors =~= v.colors);
        assert(backdrop_upto(v, performance_mode, 0).depths =~= v.depths);
        assert(0 * w == 0);
    }
    while y < h
        invariant
            y <= h,
            w == v.width,
            h == v.height,
            v.well_formed(),
            framebuffer.wf(),
            same_picture(framebuffer@, backdrop_upto(v, performance_mode, y * w)),
        decreases h - y,
    {
        let mut x: u32 = 0;
        while x < w
            invariant
                x <= w,
                y < h,
                w == v.width,
                h == v.height,
                    v.well_formed(),
                framebuffer.wf(),
                same_picture(framebuffer@, backdrop_upto(v, performance_mode, y * w + x)),
            decreases w - x,
        {
            let ghost k = y * w + x;
            proof {
                lemma_fundamental_div_mod_converse(k, w as int, y as int, x as int);
                crate::framebuffer::lemma_index_in_range(w as nat, h as nat, x as int, y as int);
            }
            framebuffer.set_current_color(backdrop_color_at(h, y, performance_mode));
            framebuffer.set_pixel_with_depth(x, y, SKY_DEPTH);
            proof {
                let a = framebuffer@;
                let b = backdrop_upto(v, performance_mode, k + 1);
                assert(a.colors =~= b.colors);
                assert(a.depths =~= b.depths);
            }
            x += 1;
        }
        assert(y * w + w == (y + 1) * w) by (nonlinear_arith);
        y += 1;
    }
    proof {
        assert(h * w == v.colors.len()) by (nonlinear_arith)
            requires
                v.colors.len() == v.width * v.height,
                w == v.width,
                h == v.height,
        ;
    }
}

/// The first screen row of a wall `d` world units away: the wall is
/// `35 * h / d` rows tall, centered on the horizon.
pub open spec fn stake_top(h: int, d: int) -> int {
    if d <= 35 {
        0
    } else {
        h * (d - 35) / (2 * d)
    }
}

/// The row below the wall, before clipping to the screen.
pub open spec fn stake_end(h: int, d: int) -> int {
    if d == 0 {
        h
    } else {
        h * (d + 35) / (2 * d)
    }
}

/// The texture row sampled on screen row `y` of a wall `d` away.
pub open spec fn texture_row(h: int, d: int, y: int) -> int {
    if d == 0 {
        0
    } else {
        (y - stake_top(h, d)) * 127 / (stake_end(h, d) - stake_top(h, d))
    }
}

pub open spec fn fog_channel(c: int, toward: int, f: int) -> u8 {
    ((c * (1000 - f) + toward * f) / 1000) as u8
}

/// A wall color blended toward the fog color, in quality mode, by three and a
/// third thousandths per world unit beyond the fog start, at most seven tenths.
pub open spec fn fogged(c: Color, d: int, performance_mode: bool) -> Color {
    if performance_mode || d <= FOG_START {
        c
    } else {
        let raw = (d - FOG_START) * 3333 / 1000;
        let f = if raw < 700 {
            raw
        } else {
            700
        };
        Color {
            r: fog_channel(c.r as int, 60, f),
            g: fog_channel(c.g as int, 60, f),
            b: fog_channel(c.b as int, 90, f),
            a: 255,
        }
    }
}

/// The color of row `y` of the wall that `hit` found.
pub open spec fn wall_color(
    textures: &TextureManager,
    hit: Intersect,
    h: int,
    y: int,
    performance_mode: bool,
) -> Color {
    let tx = if hit.tx < 127 {
        hit.tx as int
    } else {
        127
    };
    fogged(
        textures.color_spec(hit.impact, tx, texture_row(h, hit.distance as int, y)),
        hit.distance as int,
        performance_mode,
    )
}

/// Pixel `p` lies in column `x` on a row of the wall of `hit` above `y_end`.
pub open spec fn wall_covers(v: FrameView, x: int, hit: Intersect, y_end: int, p: int) -> bool {
    let w = v.width as int;
    let h = v.height as int;
    let d = hit.distance as int;
    p % w == x && stake_top(h, d) <= p / w && p / w < y_end && p / w < stake_end(h, d)
}

/// The frame after the wall of `hit` has been depth-tested into column `x`, on the
/// rows above `y_end`.
pub open spec fn column_upto(
    v: FrameView,
    x: int,
    hit: Intersect,
    textures: &TextureManager,
    performance_mode: bool,
    y_end: int,
) -> FrameView {
    let w = v.width as int;
    let h = v.height as int;
    let d = hit.distance as int;
    let drawn = |p: int| wall_covers(v, x, hit, y_end, p) && d * UNIT < v.depths[p];
    FrameView {
        colors: Seq::new(
            v.colors.len(),
            |p: int|
                if drawn(p) {
                    wall_color(textures, hit, h, p / w, performance_mode)
                } else {
                    v.colors[p]
                },
        ),
        depths: Seq::new(
            v.depths.len(),
            |p: int|
                if drawn(p) {
                    (d * UNIT) as u64
                } else {
                    v.depths[p]
                },
        ),
        ..v
    }
}

/// The frame after the walls of `hits` have been drawn into the first `n` columns.
pub open spec fn walls_upto(
    v: FrameView,
    hits: Seq<Intersect>,
    textures: &TextureManager,
    performance_mode: bool,
    n: int,
) -> FrameView
    decreases n,
{
    if n <= 0 {
        v
    } else {
        column_upto(
            walls_upto(v, hits, textures, performance_mode, n - 1),
            n - 1,
            hits[n - 1],
            textures,
            performance_mode,
            v.height as int,
        )
    }
}

proof fn lemma_pixel_coords(p: int, w: int, x: int, y: int)
    requires
        0 <= x < w,
        0 <= y,
        0 <= p,
    ensures
        (p == y * w + x) == (p / w == y && p % w == x),
{
    if p == y * w + x {
        lemma_fundamental_div_mod_converse(p, w, y, x);
    }
    if p / w == y && p % w == x {
        vstd::arithmetic::div_mod::lemma_fundamental_div_mod(p, w);
        assert(w * y == y * w) by (nonlinear_arith);
    }
}

fn fog_channel_at(c: u8, toward: u64, f: u64) -> (r: u8)
    requires
        f <= 1000,
        toward <= 255,
    ensures
        r == fog_channel(c as int, toward as int, f as int),
{
    assert(c * (1000 - f) + toward * f <= 255 * 1000) by (nonlinear_arith)
        requires
            c <= 255,
            toward <= 255,
            f <= 1000,
    ;
    ((c as u64 * (1000 - f) + toward * f) / 1000) as u8
}

fn wall_color_at(
    textures: &TextureManager,
    hit: &Intersect,
    h: u32,
    y: u32,
    performance_mode: bool,
) -> (c: Color)
    requires
        hit.distance <= 0x2000_0000_0000,
        stake_top(h as int, hit.distance as int) <= y < stake_end(h as int, hit.distance as int),
    ensures
        c == wall_color(textures, *hit, h as int, y as int, performance_mode),
{
    let d = hit.distance;
    let dd = d as u128;
    assert(h * (dd + 35) <= 0xffff_ffff * (0x2000_0000_0000 + 35)) by (nonlinear_arith)
        requires
            h <= 0xffff_ffff,
            dd <= 0x2000_0000_0000,
    ;
    let top: u128 = if d <= 35 {
        0
    } else {
        assert(h * (dd - 35) <= h * (dd + 35)) by (nonlinear_arith)
            requires
                dd >= 35,
        ;
        h as u128 * (dd - 35) / (2 * dd)
    };
    let ty: u128 = if d == 0 {
        0
    } else {
        let end: u128 = h as u128 * (dd + 35) / (2 * dd);
        assert((y - top) * 127 / (end - top) < 127) by (nonlinear_arith)
            requires
                top <= y < end,
        ;
        (y as u128 - top) * 127 / (end - top)
    };
    let tx: u32 = if hit.tx < 127 {
        hit.tx as u32
    } else {
        127
    };
    let c = textures.get_pixel_color(hit.impact, tx, ty as u32);
    if performance_mode || d <= FOG_START {
        c
    } else {
        let raw = (d - FOG_START) as u128 * 3333 / 1000;
        let f: u64 = if raw < 700 {
            raw as u64
        } else {
            700
        };
        Color::new(fog_channel_at(c.r, 60, f), fog_channel_at(c.g, 60, f), fog_channel_at(c.b, 90, f), 255)
    }
}

/// Draws the wall that `hit` found into column `x`, depth-tested at its distance.
pub fn draw_wall_column(
    framebuffer: &mut Framebuffer,
    x: u32,
    hit: &Intersect,
    textures: &TextureManager,
    performance_mode: bool,
)
    requires
        old(framebuffer).wf(),
        x < old(framebuffer)@.width,
        hit.distance <= 0x2000_0000_0000,
    ensures
        final(framebuffer).wf(),
        same_picture(
            final(framebuffer)@,
            column_upto(
                old(framebuffer)@,
                x as int,
                *hit,
                textures,
                performance_mode,
                old(framebuffer)@.height as int,
            ),
        ),
{
    let ghost v = framebuffer@;
    let w = framebuffer.width();
    let h = framebuffer.height();
    let d = hit.distance;
    let depth: u64 = d * UNIT as u64;
    let dd = d as u128;
    assert(h * (dd + 35) <= 0xffff_ffff * (0x2000_0000_0000 + 35)) by (nonlinear_arith)
        requires
            h <= 0xffff_ffff,
            dd <= 0x2000_0000_0000,
    ;
    let top: u128 = if d <= 35 {
        0
    } else {
        assert(h * (dd - 35) <= h * (dd + 35)) by (nonlinear_arith)
            requires
                dd >= 35,
        ;
        h as u128 * (dd - 35) / (2 * dd)
    };
    let end: u128 = if d == 0 {
        h as u128
    } else {
        h as u128 * (dd + 35) / (2 * dd)
    };
    let last: u128 = if end < h as u128 {
        end
    } else {
        h as u128
    };
    let mut y: u128 = top;
    proof {
        let c0 = column_upto(v, x as int, *hit, textures, performance_mode, top as int);
        assert(c0.colors =~= v.colors);
        assert(c0.depths =~= v.depths);
    }
    while y < last
        invariant
            top <= y,
            y == top || y <= last,
            last <= h,
            w == v.width,
            h == v.height,
            x < w,
            top == stake_top(h as int, d as int),
            end == stake_end(h as int, d as int),
            last <= end,
            d == hit.distance,
            d <= 0x2000_0000_0000,
            depth == d * UNIT,
            v.well_formed(),
            framebuffer.wf(),
            same_picture(
                framebuffer@,
                column_upto(v, x as int, *hit, textures, performance_mode, y as int),
            ),
        decreases last - y,
    {
        let ghost k = y * w + x;
        let ghost before = framebuffer@;
        framebuffer.set_current_color(wall_color_at(textures, hit, h, y as u32, performance_mode));
        framebuffer.set_pixel_with_depth(x, y as u32, depth);
        proof {
            crate::framebuffer::lemma_index_in_range(w as nat, h as nat, x as int, y as int);
            let a = framebuffer@;
            let b = column_upto(v, x as int, *hit, textures, performance_mode, y + 1);
            assert forall|p: int| 0 <= p < a.colors.len() implies a.colors[p] == b.colors[p]
                && a.depths[p] == b.depths[p] by {
                lemma_pixel_coords(p, w as int, x as int, y as int);
            }
            assert(a.colors =~= b.colors);
            assert(a.depths =~= b.depths);
        }
        y += 1;
    }
    proof {
        let a = column_upto(v, x as int, *hit, textures, performance_mode, y as int);
        let b = column_upto(v, x as int, *hit, textures, performance_mode, h as int);
        assert(y >= last);
        assert forall|p: int| 0 <= p < a.colors.len() implies a.colors[p] == b.colors[p]
            && a.depths[p] == b.depths[p] by {
            let r = p / (w as int);
            if y == top {
                assert(top >= last);
            } else {
                assert(y == last);
            }
            assert(wall_covers(v, x as int, *hit, y as int, p) == wall_covers(
                v,
                x as int,
                *hit,
                h as int,
                p,
            ));
        }
        assert(a.colors =~= b.colors);
        assert(a.depths =~= b.depths);
    }
}

/// The frame `v` after the backdrop and one wall column per ray direction in `dirs`.
pub open spec fn rendered_world(
    v: FrameView,
    maze: &Maze,
    block_size: int,
    player: &Player,
    textures: &TextureManager,
    performance_mode: bool,
    dirs: Seq<Heading>,
) -> FrameView {
    walls_upto(
        after_backdrop(v, performance_mode),
        Seq::new(dirs.len(), |i: int| ray_result(maze, player.pos, dirs[i], block_size)),
        textures,
        performance_mode,
        dirs.len() as int,
    )
}

proof fn lemma_column_same_picture(
    a: FrameView,
    b: FrameView,
    x: int,
    hit: Intersect,
    textures: &TextureManager,
    performance_mode: bool,
    y_end: int,
)
    requires
        same_picture(a, b),
    ensures
        same_picture(
            column_upto(a, x, hit, textures, performance_mode, y_end),
            column_upto(b, x, hit, textures, performance_mode, y_end),
        ),
{
    let ca = column_upto(a, x, hit, textures, performance_mode, y_end);
    let cb = column_upto(b, x, hit, textures, performance_mode, y_end);
    assert(ca.colors =~= cb.colors);
    assert(ca.depths =~= cb.depths);
}

/// Renders the world: the backdrop, then for each screen column the wall that a
/// ray along that column's direction in `dirs` meets.
pub fn render_world_with_rays(
    framebuffer: &mut Framebuffer,
    maze: &Maze,
    block_size: usize,
    player: &Player,
    textures: &TextureManager,
    performance_mode: bool,
    dirs: &Vec<Heading>,
)
    requires
        old(framebuffer).wf(),
        dirs@.len() == old(framebuffer)@.width,
        maze_fits(maze, block_size),
        player.pos.in_range(),
    ensures
        final(framebuffer).wf(),
        same_picture(
            final(framebuffer)@,
            rendered_world(
                old(framebuffer)@,
                maze,
                block_size as int,
                player,
                textures,
                performance_mode,
                dirs@,
            ),
        ),
{
    let ghost v0 = framebuffer@;
    fill_backdrop(framebuffer, performance_mode);
    let ghost v1 = after_backdrop(v0, performance_mode);
    let ghost hits = Seq::new(
        dirs@.len(),
        |i: int| ray_result(maze, player.pos, dirs@[i], block_size as int),
    );
    let w = framebuffer.width();
    let mut i: u32 = 0;
    while i < w
        invariant
            i <= w,
            w == v0.width,
            dirs@.len() == w,
            maze_fits(maze, block_size),
            player.pos.in_range(),
            framebuffer.wf(),
            v1.height == v0.height,
            framebuffer@.width == v0.width,
            framebuffer@.height == v0.height,
            hits == Seq::new(
                dirs@.len(),
                |i: int| ray_result(maze, player.pos, dirs@[i], block_size as int),
            ),
            v1 == after_backdrop(v0, performance_mode),
            same_picture(framebuffer@, walls_upto(v1, hits, textures, performance_mode, i as int)),
        decreases w - i,
    {
        let ghost before = framebuffer@;
        let hit = cast_ray(framebuffer, maze, player, &dirs[i as usize], block_size, false);
        let ghost mid = framebuffer@;
        assert(same_picture(mid, before));
        draw_wall_column(framebuffer, i, &hit, textures, performance_mode);
        proof {
            assert(hit == hits[i as int]);
            let prev = walls_upto(v1, hits, textures, performance_mode, i as int);
            lemma_column_same_picture(
                mid,
                prev,
                i as int,
                hit,
                textures,
                performance_mode,
                v0.height as int,
            );
        }
        i += 1;
    }
}

/// The direction, in microradians, of the ray through screen column `i` of `w`:
/// the field of view spread evenly from its left edge.
pub open spec fn column_angle(player: &Player, i: int, w: int) -> int {
    player.a - player.fov / 2 + player.fov * i / w
}

/// The largest facing angle or field of view, in microradians, that rendering
/// takes.
pub const ANGLE_LIMIT: i64 = 0x2000_0000_0000_0000;

/// Renders the world, taking each column's ray direction from `trig`.
pub fn render_world<T: Trigonometry>(
    framebuffer: &mut Framebuffer,
    maze: &Maze,
    block_size: usize,
    player: &Player,
    textures: &TextureManager,
    performance_mode: bool,
    trig: &T,
)
    requires
        old(framebuffer).wf(),
        maze_fits(maze, block_size),
        player.pos.in_range(),
        -ANGLE_LIMIT <= player.a <= ANGLE_LIMIT,
        0 <= player.fov <= ANGLE_LIMIT,
    ensures
        final(framebuffer).wf(),
        exists|dirs: Seq<Heading>|
            dirs.len() == old(framebuffer)@.width && same_picture(
                final(framebuffer)@,
                #[trigger] rendered_world(
                    old(framebuffer)@,
                    maze,
                    block_size as int,
                    player,
                    textures,
                    performance_mode,
                    dirs,
                ),
            ),
{
    let w = framebuffer.width();
    let mut dirs: Vec<Heading> = Vec::new();
    let mut i: u32 = 0;
    while i < w
        invariant
            i <= w,
            dirs@.len() == i,
            -ANGLE_LIMIT <= player.a <= ANGLE_LIMIT,
            0 <= player.fov <= ANGLE_LIMIT,
        decreases w - i,
    {
        assert(0 <= player.fov * i / (w as int) <= player.fov) by (nonlinear_arith)
            requires
                0 <= player.fov,
                0 <= i < w,
        ;
        assert(0 <= player.fov * i <= 0x2000_0000_0000_0000 * 0xffff_ffff) by (nonlinear_arith)
            requires
                0 <= player.fov <= ANGLE_LIMIT,
                0 <= i <= 0xffff_ffff,
        ;
        let angle: i128 = player.a as i128 - player.fov as i128 / 2 + player.fov as i128 * i as i128
            / w as i128;
        dirs.push(trig.unit_vector(angle as i64));
        i += 1;
    }
    render_world_with_rays(framebuffer, maze, block_size, player, textures, performance_mode, &dirs);
}

/// How many quarter-cells the sight line from `from` to `to` is long.
pub open spec fn sight_steps(from: Point, to: Point, block_size: int) -> int {
    4 * (sqrt_floor(dist2(from, to) as nat) as int) / (block_size * UNIT)
}

/// Sample `i` of `steps` along the sight line, from `from` (sample 0) to `to`.
pub open spec fn sight_sample(from: Point, to: Point, steps: int, i: int) -> (int, int) {
    if steps == 0 {
        (from.x as int, from.y as int)
    } else {
        (from.x + quot((to.x - from.x) * i, steps), from.y + quot((to.y - from.y) * i, steps))
    }
}

/// A point on a wall cell of the grid; points off the grid block nothing.
pub open spec fn sight_blocked_at(maze: &Maze, block_size: int, x: int, y: int) -> bool {
    on_wall(maze, block_size, x, y)
}

/// No wall on the sight line, sampled every quarter cell, ends included.
pub open spec fn line_of_sight(from: Point, to: Point, maze: &Maze, block_size: int) -> bool {
    let steps = sight_steps(from, to, block_size);
    forall|i: int|
        0 <= i <= steps ==> !#[trigger] sight_blocked_at(
            maze,
            block_size,
            sight_sample(from, to, steps, i).0,
            sight_sample(from, to, steps, i).1,
        )
}

/// A sample on the sight line lies between its ends, axis by axis.
proof fn lemma_sample_between(d: int, i: int, steps: int)
    requires
        0 <= i <= steps,
        steps >= 1,
    ensures
        (d >= 0 ==> 0 <= quot(d * i, steps) <= d),
        (d < 0 ==> d <= quot(d * i, steps) <= 0),
{
    let a = if d >= 0 {
        d
    } else {
        -d
    };
    assert(0 <= a * i <= a * steps) by (nonlinear_arith)
        requires
            0 <= i <= steps,
            a >= 0,
    ;
    assert(d * i == (if d >= 0 { a * i } else { -(a * i) })) by (nonlinear_arith)
        requires
            a == (if d >= 0 { d } else { -d }),
    ;
    vstd::arithmetic::div_mod::lemma_div_is_ordered(a * i, a * steps, steps);
    vstd::arithmetic::div_mod::lemma_div_by_multiple(a, steps);
    vstd::arithmetic::div_mod::lemma_div_is_ordered(0, a * i, steps);
}

/// Whether no wall cell lies between `from` and `to`.
pub fn has_line_of_sight(from: Point, to: Point, maze: &Maze, block_size: usize) -> (r: bool)
    requires
        from.in_range(),
        to.in_range(),
        maze_fits(maze, block_size),
    ensures
        r == line_of_sight(from, to, maze, block_size as int),
{
    proof {
        lemma_block_bound(maze, block_size);
        assert(block_size * UNIT <= 0x100_0000 * UNIT) by (nonlinear_arith)
            requires
                block_size <= 0x100_0000,
        ;
        assert(block_size * UNIT >= 1) by (nonlinear_arith)
            requires
                block_size >= 1,
        ;
    }
    let dx: i128 = to.x as i128 - from.x as i128;
    let dy: i128 = to.y as i128 - from.y as i128;
    assert(0 <= dx * dx <= 0x1000_0000_0000_0000_0000_0000) by (nonlinear_arith)
        requires
            -0x3000_0000_0000 <= dx <= 0x3000_0000_0000,
    ;
    assert(0 <= dy * dy <= 0x1000_0000_0000_0000_0000_0000) by (nonlinear_arith)
        requires
            -0x3000_0000_0000 <= dy <= 0x3000_0000_0000,
    ;
    let n: i128 = dx * dx + dy * dy;
    assert(n == dist2(from, to));
    let dist = isqrt(n as u128);
    proof {
        crate::geometry::lemma_sqrt_floor(n as nat);
        assert(dist <= 0x8000_0000_0000) by (nonlinear_arith)
            requires
                dist * dist <= n,
                n <= 0x2000_0000_0000_0000_0000_0000,
        ;
    }
    let steps: u128 = 4 * dist / (block_size as u128 * UNIT as u128);
    assert(steps <= 4 * dist);
    let mut i: u128 = 0;
    while i <= steps
        invariant
            steps == sight_steps(from, to, block_size as int),
            steps <= 0x2_0000_0000_0000,
            dx == to.x - from.x,
            dy == to.y - from.y,
            -0x3000_0000_0000 <= dx <= 0x3000_0000_0000,
            -0x3000_0000_0000 <= dy <= 0x3000_0000_0000,
            from.in_range(),
            maze_fits(maze, block_size),
            block_size <= 0x100_0000,
            forall|k: int|
                0 <= k < i ==> !#[trigger] sight_blocked_at(
                    maze,
                    block_size as int,
                    sight_sample(from, to, steps as int, k).0,
                    sight_sample(from, to, steps as int, k).1,
                ),
        decreases steps + 1 - i,
    {
        let (cx, cy) = if steps == 0 {
            (from.x as i128, from.y as i128)
        } else {
            assert(-0x3000_0000_0000 * 0x2_0000_0000_0000 <= dx * i <= 0x3000_0000_0000 * 0x2_0000_0000_0000)
                by (nonlinear_arith)
                requires
                    -0x3000_0000_0000 <= dx <= 0x3000_0000_0000,
                    0 <= i <= 0x2_0000_0000_0000,
            ;
            assert(-0x3000_0000_0000 * 0x2_0000_0000_0000 <= dy * i <= 0x3000_0000_0000 * 0x2_0000_0000_0000)
                by (nonlinear_arith)
                requires
                    -0x3000_0000_0000 <= dy <= 0x3000_0000_0000,
                    0 <= i <= 0x2_0000_0000_0000,
            ;
            let qx = div_toward_zero(dx * i as i128, steps as i128);
            let qy = div_toward_zero(dy * i as i128, steps as i128);
            proof {
                lemma_sample_between(dx as int, i as int, steps as int);
                lemma_sample_between(dy as int, i as int, steps as int);
            }
            (from.x as i128 + qx, from.y as i128 + qy)
        };
        let blocked = point_on_wall(maze, block_size, cx as i64, cy as i64);
        if blocked {
            proof {
                let sp = sight_sample(from, to, steps as int, i as int);
                assert(sp.0 == cx && sp.1 == cy);
                assert(sight_blocked_at(maze, block_size as int, sp.0, sp.1));
                assert(0 <= i <= steps);
            }
            return false;
        }
        i += 1;
    }
    true
}

/// The key of the animated enemy sprite sheet.
pub const SPRITE_SHEET_KEY: char = 'a';

/// The key of the still enemy sprite, used when no sheet is loaded.
pub const SPRITE_FALLBACK_KEY: char = 'e';

/// Sprites nearer than this, in world units, are not drawn.
pub const SPRITE_NEAR: i64 = 50;

/// Sprites farther than this, in world units, are not drawn.
pub const SPRITE_FAR: i64 = 1000;

/// An angle difference brought into `[-ANGLE_PI, ANGLE_PI]` by whole turns.
pub open spec fn normalize_angle(d: int) -> int {
    if d > ANGLE_PI {
        d - ANGLE_TWO_PI * ((d - ANGLE_PI + ANGLE_TWO_PI - 1) / (ANGLE_TWO_PI as int))
    } else if d < -ANGLE_PI {
        d + ANGLE_TWO_PI * ((-ANGLE_PI - d + ANGLE_TWO_PI - 1) / (ANGLE_TWO_PI as int))
    } else {
        d
    }
}

pub open spec fn abs(v: int) -> int {
    if v < 0 {
        -v
    } else {
        v
    }
}

/// The distance from the player to the enemy, in fixed point: the sprite's depth.
pub open spec fn sprite_depth(player: &Player, enemy: &Enemy) -> int {
    sqrt_floor(dist2(player.pos, enemy.pos) as nat) as int
}

/// The sprite is drawn at all: in sight, within the field of view, and neither too
/// near nor too far. `sprite_angle` is the direction from the player to the enemy.
pub open spec fn sprite_shown(
    player: &Player,
    enemy: &Enemy,
    maze: &Maze,
    block_size: int,
    sprite_angle: int,
) -> bool {
    &&& line_of_sight(player.pos, enemy.pos, maze, block_size)
    &&& 2 * abs(normalize_angle(sprite_angle - player.a)) <= player.fov
    &&& SPRITE_NEAR * UNIT <= sprite_depth(player, enemy) <= SPRITE_FAR * UNIT
}

/// The side of the sprite's square on a screen `h` rows tall.
pub open spec fn sprite_size(h: int, depth: int) -> int {
    PROJECTION_DISTANCE * h * UNIT / depth
}

/// The first column of the sprite's square, centered on the sprite's screen column;
/// it may lie left of the screen, whose edges clip the square.
pub open spec fn sprite_left(w: int, player: &Player, sprite_angle: int, size: int) -> int {
    let diff = normalize_angle(sprite_angle - player.a);
    let center = w * (2 * diff + player.fov) / (2 * player.fov);
    center - size / 2
}

/// The first row of the sprite's square, centered on the horizon; it may lie above
/// the screen.
pub open spec fn sprite_top(h: int, size: int) -> int {
    h / 2 - size / 2
}

/// The sprite sheet row of an animation.
pub open spec fn sheet_row(s: AnimationState) -> int {
    match s {
        AnimationState::Idle => 0,
        AnimationState::Walking => 1,
        AnimationState::Attack => 2,
        AnimationState::Death => 2,
    }
}

/// The sprite color at offset `(ox, oy)` in a square of side `size`: from the
/// enemy's current frame of the sheet, mirrored when it faces left, or from the
/// still sprite when there is no sheet.
pub open spec fn sprite_texel(
    textures: &TextureManager,
    enemy: &Enemy,
    ox: int,
    oy: int,
    size: int,
) -> Color {
    match textures.sheet_for(SPRITE_SHEET_KEY) {
        Some(sheet) => {
            let fw = sheet.frame_width as int;
            let fh = sheet.frame_height as int;
            let tx = ox * fw / size;
            let ty = oy * fh / size;
            let lw = if fw == 0 {
                0
            } else {
                fw - 1
            };
            let lh = if fh == 0 {
                0
            } else {
                fh - 1
            };
            let cx = if tx < lw {
                tx
            } else {
                lw
            };
            let cy = if ty < lh {
                ty
            } else {
                lh
            };
            textures.frame_color_spec(
                SPRITE_SHEET_KEY,
                enemy.current_frame as int,
                sheet_row(enemy.animation_state),
                if enemy.facing_left {
                    lw - cx
                } else {
                    cx
                },
                cy,
            )
        },
        None => textures.color_spec(SPRITE_FALLBACK_KEY, ox * 128 / size, oy * 128 / size),
    }
}

/// Pixel `p` lies in the sprite's square `[left, left + size) x [top, top + size)`
/// and comes before row `y_end`, column `x_end` in row order.
pub open spec fn sprite_covers(v: FrameView, left: int, top: int, size: int, y_end: int, x_end: int, p: int) -> bool {
    let w = v.width as int;
    let x = p % w;
    let y = p / w;
    &&& left <= x < left + size
    &&& top <= y < top + size
    &&& (y < y_end || (y == y_end && x < x_end))
}

/// The frame after the sprite's opaque texels have been depth-tested into the
/// part of its square before row `y_end`, column `x_end`.
pub open spec fn sprite_upto(
    v: FrameView,
    textures: &TextureManager,
    enemy: &Enemy,
    left: int,
    top: int,
    size: int,
    depth: int,
    y_end: int,
    x_end: int,
) -> FrameView {
    let w = v.width as int;
    let drawn = |p: int|
        sprite_covers(v, left, top, size, y_end, x_end, p) && !transparent(
            sprite_texel(textures, enemy, p % w - left, p / w - top, size),
        ) && depth < v.depths[p];
    FrameView {
        colors: Seq::new(
            v.colors.len(),
            |p: int|
                if drawn(p) {
                    sprite_texel(textures, enemy, p % w - left, p / w - top, size)
                } else {
                    v.colors[p]
                },
        ),
        depths: Seq::new(
            v.depths.len(),
            |p: int|
                if drawn(p) {
                    depth as u64
                } else {
                    v.depths[p]
                },
        ),
        ..v
    }
}

/// The frame after the enemy's sprite, seen along `sprite_angle`, is composited.
pub open spec fn with_sprite(
    v: FrameView,
    player: &Player,
    enemy: &Enemy,
    textures: &TextureManager,
    maze: &Maze,
    block_size: int,
    sprite_angle: int,
) -> FrameView {
    if sprite_shown(player, enemy, maze, block_size, sprite_angle) {
        let depth = sprite_depth(player, enemy);
        let size = sprite_size(v.height as int, depth);
        sprite_upto(
            v,
            textures,
            enemy,
            sprite_left(v.width as int, player, sprite_angle, size),
            sprite_top(v.height as int, size),
            size,
            depth,
            v.height as int,
            0,
        )
    } else {
        v
    }
}

fn sprite_texel_at(textures: &TextureManager, enemy: &Enemy, ox: u64, oy: u64, size: u64) -> (c: Color)
    requires
        ox < size,
        oy < size,
    ensures
        c == sprite_texel(textures, enemy, ox as int, oy as int, size as int),
{
    if textures.has_sprite_sheet(SPRITE_SHEET_KEY) {
        let (fw, fh) = match textures.get_sprite_frame_size(SPRITE_SHEET_KEY) {
            Some(dims) => dims,
            None => (32, 32),
        };
        assert(ox * fw / (size as int) < fw || fw == 0) by (nonlinear_arith)
            requires
                ox < size,
        ;
        assert(oy * fh / (size as int) < fh || fh == 0) by (nonlinear_arith)
            requires
                oy < size,
        ;
        assert(ox * fw <= size * fw && oy * fh <= size * fh) by (nonlinear_arith)
            requires
                ox < size,
                oy < size,
        ;
        assert(0 <= ox * fw / (size as int) <= fw) by (nonlinear_arith)
            requires
                ox < size,
        ;
        assert(0 <= oy * fh / (size as int) <= fh) by (nonlinear_arith)
            requires
                oy < size,
        ;
        assert(ox * fw <= 0xffff_ffff_ffff_ffff * 0xffff_ffff) by (nonlinear_arith)
            requires
                ox <= 0xffff_ffff_ffff_ffff,
                fw <= 0xffff_ffff,
        ;
        assert(oy * fh <= 0xffff_ffff_ffff_ffff * 0xffff_ffff) by (nonlinear_arith)
            requires
                oy <= 0xffff_ffff_ffff_ffff,
                fh <= 0xffff_ffff,
        ;
        let tx: u32 = (ox as u128 * fw as u128 / size as u128) as u32;
        let ty: u32 = (oy as u128 * fh as u128 / size as u128) as u32;
        let lw: u32 = if fw == 0 {
            0
        } else {
            fw - 1
        };
        let lh: u32 = if fh == 0 {
            0
        } else {
            fh - 1
        };
        let cx = if tx < lw {
            tx
        } else {
            lw
        };
        let cy = if ty < lh {
            ty
        } else {
            lh
        };
        let row: usize = match enemy.animation_state {
            AnimationState::Idle => 0,
            AnimationState::Walking => 1,
            AnimationState::Attack => 2,
            AnimationState::Death => 2,
        };
        let final_tx = if enemy.facing_left {
            lw - cx
        } else {
            cx
        };
        textures.get_sprite_frame_color(SPRITE_SHEET_KEY, enemy.current_frame, row, final_tx, cy)
    } else {
        let tx = ox as u128 * 128 / size as u128;
        let ty = oy as u128 * 128 / size as u128;
        assert(tx < 128 && ty < 128) by (nonlinear_arith)
            requires
                tx == ox * 128 / (size as int),
                ty == oy * 128 / (size as int),
                ox < size,
                oy < size,
        ;
        textures.get_pixel_color(SPRITE_FALLBACK_KEY, tx as u32, ty as u32)
    }
}

proof fn lemma_sprite_same_rows(
    v: FrameView,
    textures: &TextureManager,
    enemy: &Enemy,
    left: int,
    top: int,
    size: int,
    depth: int,
    y1: int,
    x1: int,
    y2: int,
    x2: int,
)
    requires
        v.width > 0,
        v.well_formed(),
        forall|p: int|
            0 <= p < v.colors.len() ==> sprite_covers(v, left, top, size, y1, x1, p)
                == sprite_covers(v, left, top, size, y2, x2, p),
    ensures
        same_picture(
            sprite_upto(v, textures, enemy, left, top, size, depth, y1, x1),
            sprite_upto(v, textures, enemy, left, top, size, depth, y2, x2),
        ),
{
    let a = sprite_upto(v, textures, enemy, left, top, size, depth, y1, x1);
    let b = sprite_upto(v, textures, enemy, left, top, size, depth, y2, x2);
    assert forall|p: int| 0 <= p < a.colors.len() implies a.colors[p] == b.colors[p]
        && a.depths[p] == b.depths[p] by {
        assert(sprite_covers(v, left, top, size, y1, x1, p) == sprite_covers(v, left, top, size, y2, x2, p));
    }
    assert(a.colors =~= b.colors);
    assert(a.depths =~= b.depths);
}

/// Composites the enemy's sprite, seen from the player along `sprite_angle`
/// microradians: each opaque texel of its square is depth-tested at the enemy's
/// distance.
pub fn draw_sprite(
    framebuffer: &mut Framebuffer,
    player: &Player,
    enemy: &Enemy,
    textures: &TextureManager,
    maze: &Maze,
    block_size: usize,
    sprite_angle: i64,
)
    requires
        old(framebuffer).wf(),
        player.pos.in_range(),
        enemy.pos.in_range(),
        maze_fits(maze, block_size),
        -ANGLE_LIMIT <= player.a <= ANGLE_LIMIT,
        0 < player.fov <= ANGLE_LIMIT,
    ensures
        final(framebuffer).wf(),
        same_picture(
            final(framebuffer)@,
            with_sprite(
                old(framebuffer)@,
                player,
                enemy,
                textures,
                maze,
                block_size as int,
                sprite_angle as int,
            ),
        ),
        !sprite_shown(player, enemy, maze, block_size as int, sprite_angle as int)
            ==> final(framebuffer)@ == old(framebuffer)@,
{
    let ghost v = framebuffer@;
    if !has_line_of_sight(player.pos, enemy.pos, maze, block_size) {
        return;
    }
    let pi: i128 = ANGLE_PI as i128;
    let two_pi: i128 = ANGLE_TWO_PI as i128;
    let raw: i128 = sprite_angle as i128 - player.a as i128;
    let diff: i128 = if raw > pi {
        raw - two_pi * ((raw - pi + two_pi - 1) / two_pi)
    } else if raw < -pi {
        raw + two_pi * ((-pi - raw + two_pi - 1) / two_pi)
    } else {
        raw
    };
    proof {
        vstd::arithmetic::div_mod::lemma_fundamental_div_mod(raw - pi + two_pi - 1, two_pi as int);
        vstd::arithmetic::div_mod::lemma_fundamental_div_mod(-pi - raw + two_pi - 1, two_pi as int);
    }
    let adiff: i128 = if diff < 0 {
        -diff
    } else {
        diff
    };
    if 2 * adiff > player.fov as i128 {
        return;
    }
    let dx: i128 = enemy.pos.x as i128 - player.pos.x as i128;
    let dy: i128 = enemy.pos.y as i128 - player.pos.y as i128;
    assert(0 <= dx * dx <= 0x1000_0000_0000_0000_0000_0000) by (nonlinear_arith)
        requires
            -0x3000_0000_0000 <= dx <= 0x3000_0000_0000,
    ;
    assert(0 <= dy * dy <= 0x1000_0000_0000_0000_0000_0000) by (nonlinear_arith)
        requires
            -0x3000_0000_0000 <= dy <= 0x3000_0000_0000,
    ;
    let n: i128 = dx * dx + dy * dy;
    assert(n == dist2(player.pos, enemy.pos));
    let dist = isqrt(n as u128);
    if dist < (SPRITE_NEAR * UNIT) as u128 || dist > (SPRITE_FAR * UNIT) as u128 {
        return;
    }
    let w = framebuffer.width() as u128;
    let h = framebuffer.height() as u128;
    assert(70 * h * UNIT <= 70 * 0xffff_ffff * UNIT) by (nonlinear_arith)
        requires
            h <= 0xffff_ffff,
    ;
    let size: u128 = PROJECTION_DISTANCE as u128 * h * UNIT as u128 / dist;
    assert(size <= 2 * h) by (nonlinear_arith)
        requires
            size == 70 * h * UNIT / (dist as int),
            dist >= 50 * UNIT,
    ;
    let fov = player.fov as i128;
    assert(0 <= 2 * diff + fov <= 2 * fov);
    assert(w * (2 * diff + fov) <= w * (2 * fov)) by (nonlinear_arith)
        requires
            0 <= 2 * diff + fov <= 2 * fov,
            w >= 0,
    ;
    assert(w * (2 * fov) <= 0xffff_ffff * (2 * ANGLE_LIMIT)) by (nonlinear_arith)
        requires
            0 <= fov <= ANGLE_LIMIT,
            w <= 0xffff_ffff,
    ;
    let center: i128 = w as i128 * (2 * diff + fov) / (2 * fov);
    assert(0 <= center <= w) by (nonlinear_arith)
        requires
            center == w * (2 * diff + fov) / (2 * fov),
            0 <= 2 * diff + fov <= 2 * fov,
            fov > 0,
            w >= 0,
    ;
    let half: i128 = size as i128 / 2;
    let left_i: i128 = center - half;
    let top_i: i128 = h as i128 / 2 - half;
    let xs: u128 = if left_i > 0 {
        left_i as u128
    } else {
        0
    };
    let ys: u128 = if top_i > 0 {
        top_i as u128
    } else {
        0
    };
    let right: u128 = if left_i + size as i128 <= 0 {
        0
    } else if left_i + (size as i128) < w as i128 {
        (left_i + size as i128) as u128
    } else {
        w
    };
    let bottom: u128 = if top_i + size as i128 <= 0 {
        0
    } else if top_i + (size as i128) < h as i128 {
        (top_i + size as i128) as u128
    } else {
        h
    };
    let depth: u64 = dist as u64;
    let ghost sz = size as int;
    proof {
        assert(sprite_shown(player, enemy, maze, block_size as int, sprite_angle as int));
        assert(sprite_size(h as int, dist as int) == size);
        assert(sprite_left(w as int, player, sprite_angle as int, size as int) == left_i);
        assert(sprite_top(h as int, size as int) == top_i);
        if w > 0 {
            lemma_sprite_same_rows(v, textures, enemy, left_i as int, top_i as int, sz, depth as int, ys as int, 0, 0, 0);
            assert(sprite_upto(v, textures, enemy, left_i as int, top_i as int, sz, depth as int, 0, 0).colors =~= v.colors);
            assert(sprite_upto(v, textures, enemy, left_i as int, top_i as int, sz, depth as int, 0, 0).depths =~= v.depths);
        }
    }
    if w == 0 {
        proof {
            let b = with_sprite(v, player, enemy, textures, maze, block_size as int, sprite_angle as int);
            assert(v.colors.len() == 0) by (nonlinear_arith)
                requires
                    v.colors.len() == v.width * v.height,
                    v.width == 0,
            ;
            assert(b.colors =~= v.colors);
            assert(b.depths =~= v.depths);
        }
        return;
    }
    let mut y: u128 = ys;
    while y < bottom
        invariant
            ys <= y,
            y == ys || y <= bottom,
            ys == (if top_i > 0 { top_i as int } else { 0 }),
            xs == (if left_i > 0 { left_i as int } else { 0 }),
            bottom <= h,
            bottom <= top_i + size || bottom == 0,
            right <= w,
            right <= left_i + size || right == 0,
            right == (if left_i + size <= 0 { 0 } else if left_i + size < w { left_i + size } else { w as int }),
            w <= 0xffff_ffff,
            w == v.width,
            h == v.height,
            w > 0,
            sz == size,
            size <= 2 * h,
            h <= 0xffff_ffff,
            depth == dist,
            v.well_formed(),
            framebuffer.wf(),
            same_picture(
                framebuffer@,
                sprite_upto(v, textures, enemy, left_i as int, top_i as int, sz, depth as int, y as int, 0),
            ),
        decreases bottom - y,
    {
        let mut x: u128 = xs;
        proof {
            lemma_sprite_same_rows(v, textures, enemy, left_i as int, top_i as int, sz, depth as int, y as int, 0, y as int, xs as int);
        }
        while x < right
            invariant
                xs <= x,
                x == xs || x <= right,
                xs == (if left_i > 0 { left_i as int } else { 0 }),
                ys <= y < bottom,
                ys == (if top_i > 0 { top_i as int } else { 0 }),
                bottom <= h,
                bottom <= top_i + size,
                w <= 0xffff_ffff,
                right <= w,
                right <= left_i + size || right == 0,
                w == v.width,
                h == v.height,
                w > 0,
                sz == size,
                size <= 2 * h,
                h <= 0xffff_ffff,
                depth == dist,
                v.well_formed(),
                framebuffer.wf(),
                same_picture(
                    framebuffer@,
                    sprite_upto(v, textures, enemy, left_i as int, top_i as int, sz, depth as int, y as int, x as int),
                ),
            decreases right - x,
        {
            let ghost k = y * w + x;
            proof {
                crate::framebuffer::lemma_index_in_range(w as nat, h as nat, x as int, y as int);
            }
            let ghost before = framebuffer@;
            let c = sprite_texel_at(
                textures,
                enemy,
                (x as i128 - left_i) as u64,
                (y as i128 - top_i) as u64,
                size as u64,
            );
            proof {
                lemma_pixel_coords(k, w as int, x as int, y as int);
                assert(!sprite_covers(v, left_i as int, top_i as int, sz, y as int, x as int, k));
                assert(before.depths[k] == v.depths[k]);
                assert(before.colors[k] == v.colors[k]);
            }
            if !is_transparent_color(c) {
                if depth < framebuffer.get_depth(x as u32, y as u32) {
                    framebuffer.set_current_color(c);
                    framebuffer.set_pixel_with_depth(x as u32, y as u32, depth);
                }
            }
            proof {
                let a = framebuffer@;
                let b = sprite_upto(v, textures, enemy, left_i as int, top_i as int, sz, depth as int, y as int, x + 1);
                let pre = sprite_upto(v, textures, enemy, left_i as int, top_i as int, sz, depth as int, y as int, x as int);
                assert forall|p: int| 0 <= p < a.colors.len() implies a.colors[p] == b.colors[p]
                    && a.depths[p] == b.depths[p] by {
                    lemma_pixel_coords(p, w as int, x as int, y as int);
                    if p != k {
                        assert(sprite_covers(v, left_i as int, top_i as int, sz, y as int, x + 1, p)
                            == sprite_covers(v, left_i as int, top_i as int, sz, y as int, x as int, p));
                        assert(a.colors[p] == pre.colors[p]);
                        assert(a.depths[p] == pre.depths[p]);
                    } else {
                        assert(sprite_covers(v, left_i as int, top_i as int, sz, y as int, x + 1, p));
                    }
                }
                assert(a.colors =~= b.colors);
                assert(a.depths =~= b.depths);
            }
            x += 1;
        }
        proof {
            assert(x >= right);
            assert forall|p: int| 0 <= p < v.colors.len() implies sprite_covers(v, left_i as int, top_i as int, sz, y as int, x as int, p)
                == sprite_covers(v, left_i as int, top_i as int, sz, y + 1, 0, p) by {
                vstd::arithmetic::div_mod::lemma_mod_pos_bound(p, w as int);
                let col = p % (w as int);
                assert(0 <= col < w);
                if left_i <= col < left_i + size {
                    assert(col < right);
                    assert(col < x);
                }
            }
            lemma_sprite_same_rows(v, textures, enemy, left_i as int, top_i as int, sz, depth as int, y as int, x as int, y + 1, 0);
        }
        y += 1;
    }
    proof {
        assert forall|p: int| 0 <= p < v.colors.len() implies sprite_covers(v, left_i as int, top_i as int, sz, y as int, 0, p)
            == sprite_covers(v, left_i as int, top_i as int, sz, h as int, 0, p) by {
            vstd::arithmetic::div_mod::lemma_fundamental_div_mod(p, w as int);
            vstd::arithmetic::div_mod::lemma_mod_pos_bound(p, w as int);
            assert(p / (w as int) < h) by (nonlinear_arith)
                requires
                    0 <= p < w * h,
                    p == w * (p / (w as int)) + p % (w as int),
                    0 <= p % (w as int),
                    w > 0,
            ;
        }
        lemma_sprite_same_rows(v, textures, enemy, left_i as int, top_i as int, sz, depth as int, y as int, 0, h as int, 0);
    }
}

/// An enemy that stays in the game: alive, or dead for no longer than the despawn
/// time.
pub open spec fn stays(e: Enemy) -> bool {
    !(e.is_dead && e.death_timer > DESPAWN_MS)
}

pub open spec fn survivors(s: Seq<Enemy>) -> Seq<Enemy> {
    s.filter(|e: Enemy| stays(e))
}

/// Killing blow distance, in world units.
pub const KILL_RANGE: i64 = 80;

/// Distance within which an enemy attacks, in world units.
pub const ATTACK_RANGE: i64 = 150;

/// The fight between the player and a living enemy: very near, the enemy dies;
/// near, it attacks.
pub open spec fn combat(e: Enemy, player: Point) -> Enemy {
    let n = dist2(player, e.pos);
    if e.is_dead {
        e
    } else if n < (KILL_RANGE * UNIT) * (KILL_RANGE * UNIT) {
        Enemy {
            is_dead: true,
            death_timer: 0,
            animation_state: AnimationState::Death,
            current_frame: 0,
            animation_timer: 0,
            ..e
        }
    } else if n < (ATTACK_RANGE * UNIT) * (ATTACK_RANGE * UNIT) {
        with_animation(e, AnimationState::Attack)
    } else {
        e
    }
}

/// `f` is what `e` becomes in one frame: its own step, for some wander direction,
/// then the fight with the player.
pub open spec fn frame_outcome(
    e: Enemy,
    f: Enemy,
    delta_ms: int,
    player: Point,
    maze: &Maze,
    block_size: int,
) -> bool {
    exists|h: Heading|
        f == combat(#[trigger] enemy_step(e, delta_ms, player, maze, block_size, h), player)
}

/// The frame `v` after the sprites of the first `n` enemies have been composited,
/// each seen along its angle in `angles`.
pub open spec fn sprites_upto(
    v: FrameView,
    player: &Player,
    enemies: Seq<Enemy>,
    textures: &TextureManager,
    maze: &Maze,
    block_size: int,
    angles: Seq<int>,
    n: int,
) -> FrameView
    decreases n,
{
    if n <= 0 {
        v
    } else {
        with_sprite(
            sprites_upto(v, player, enemies, textures, maze, block_size, angles, n - 1),
            player,
            &enemies[n - 1],
            textures,
            maze,
            block_size,
            angles[n - 1],
        )
    }
}

proof fn lemma_sprite_same_picture(
    a: FrameView,
    b: FrameView,
    player: &Player,
    enemy: &Enemy,
    textures: &TextureManager,
    maze: &Maze,
    block_size: int,
    angle: int,
)
    requires
        same_picture(a, b),
    ensures
        same_picture(
            with_sprite(a, player, enemy, textures, maze, block_size, angle),
            with_sprite(b, player, enemy, textures, maze, block_size, angle),
        ),
{
    let sa = with_sprite(a, player, enemy, textures, maze, block_size, angle);
    let sb = with_sprite(b, player, enemy, textures, maze, block_size, angle);
    assert(sa.colors =~= sb.colors);
    assert(sa.depths =~= sb.depths);
}

proof fn lemma_sprites_prefix(
    v: FrameView,
    player: &Player,
    e1: Seq<Enemy>,
    e2: Seq<Enemy>,
    textures: &TextureManager,
    maze: &Maze,
    block_size: int,
    a1: Seq<int>,
    a2: Seq<int>,
    n: int,
)
    requires
        forall|k: int| 0 <= k < n ==> e1[k] == e2[k] && a1[k] == a2[k],
    ensures
        sprites_upto(v, player, e1, textures, maze, block_size, a1, n) == sprites_upto(
            v,
            player,
            e2,
            textures,
            maze,
            block_size,
            a2,
            n,
        ),
    decreases n,
{
    if n > 0 {
        lemma_sprites_prefix(v, player, e1, e2, textures, maze, block_size, a1, a2, n - 1);
    }
}

/// One enemy's frame: its own step, then the fight with the player.
fn enemy_frame<T: Trigonometry>(
    enemy: Enemy,
    player: &Player,
    delta_ms: u32,
    maze: &Maze,
    block_size: usize,
    trig: &T,
) -> (e: Enemy)
    requires
        enemy.wf(),
        player.pos.in_range(),
        maze_fits(maze, block_size),
    ensures
        e.wf(),
        frame_outcome(enemy, e, delta_ms as int, player.pos, maze, block_size as int),
{
    let mut e = enemy;
    e.update(delta_ms, player.pos, maze, block_size, trig);
    let ghost stepped = e;
    if !e.is_dead {
        let dx: i128 = e.pos.x as i128 - player.pos.x as i128;
        let dy: i128 = e.pos.y as i128 - player.pos.y as i128;
        assert(0 <= dx * dx <= 0x1000_0000_0000_0000_0000_0000) by (nonlinear_arith)
            requires
                -0x3000_0000_0000 <= dx <= 0x3000_0000_0000,
        ;
        assert(0 <= dy * dy <= 0x1000_0000_0000_0000_0000_0000) by (nonlinear_arith)
            requires
                -0x3000_0000_0000 <= dy <= 0x3000_0000_0000,
        ;
        let n: i128 = dx * dx + dy * dy;
        assert(n == dist2(player.pos, e.pos));
        let kill: i128 = KILL_RANGE as i128 * UNIT as i128;
        let attack: i128 = ATTACK_RANGE as i128 * UNIT as i128;
        assert(kill * kill == 27487790694400) by (nonlinear_arith)
            requires
                kill == 5242880,
        ;
        assert(attack * attack == 96636764160000) by (nonlinear_arith)
            requires
                attack == 9830400,
        ;
        if n < kill * kill {
            e.kill();
        } else if n < attack * attack {
            e.set_animation(AnimationState::Attack);
        }
    }
    proof {
        assert(e == combat(stepped, player.pos));
    }
    e
}

/// One frame of the enemies: those dead past the despawn time leave; each other
/// one takes its frame, fights the player, and is composited.
pub fn render_enemies<T: Trigonometry>(
    framebuffer: &mut Framebuffer,
    player: &Player,
    enemies: &mut Vec<Enemy>,
    textures: &TextureManager,
    delta_ms: u32,
    maze: &Maze,
    block_size: usize,
    trig: &T,
)
    requires
        old(framebuffer).wf(),
        player.pos.in_range(),
        maze_fits(maze, block_size),
        -ANGLE_LIMIT <= player.a <= ANGLE_LIMIT,
        0 < player.fov <= ANGLE_LIMIT,
        forall|i: int| 0 <= i < old(enemies)@.len() ==> old(enemies)@[i].wf(),
    ensures
        final(framebuffer).wf(),
        final(framebuffer)@.width == old(framebuffer)@.width,
        final(framebuffer)@.height == old(framebuffer)@.height,
        final(enemies)@.len() == survivors(old(enemies)@).len(),
        forall|i: int| 0 <= i < final(enemies)@.len() ==> final(enemies)@[i].wf(),
        forall|i: int|
            0 <= i < final(enemies)@.len() ==> frame_outcome(
                survivors(old(enemies)@)[i],
                #[trigger] final(enemies)@[i],
                delta_ms as int,
                player.pos,
                maze,
                block_size as int,
            ),
        exists|angles: Seq<int>|
            angles.len() == final(enemies)@.len() && same_picture(
                final(framebuffer)@,
                #[trigger] sprites_upto(
                    old(framebuffer)@,
                    player,
                    final(enemies)@,
                    textures,
                    maze,
                    block_size as int,
                    angles,
                    final(enemies)@.len() as int,
                ),
            ),
{
    let ghost start = enemies@;
    let ghost v0 = framebuffer@;
    let mut kept: Vec<Enemy> = Vec::new();
    let mut i: usize = 0;
    while i < enemies.len()
        invariant
            i <= enemies@.len(),
            enemies@ == start,
            kept@ == survivors(start.subrange(0, i as int)),
            forall|k: int| 0 <= k < start.len() ==> start[k].wf(),
            forall|k: int| 0 <= k < kept@.len() ==> kept@[k].wf(),
        decreases enemies@.len() - i,
    {
        let e = enemies[i];
        proof {
            assert(start.subrange(0, i + 1).drop_last() =~= start.subrange(0, i as int));
            assert(start.subrange(0, i + 1).last() == e);
            reveal(Seq::filter);
            let sub1 = start.subrange(0, i + 1);
            let sub0 = start.subrange(0, i as int);
            assert(survivors(sub1) == (if stays(e) {
                survivors(sub0).push(e)
            } else {
                survivors(sub0)
            }));
        }
        if !e.should_despawn() {
            kept.push(e);
        }
        i += 1;
    }
    proof {
        assert(start.subrange(0, start.len() as int) =~= start);
    }
    let ghost kept0 = kept@;
    let ghost mut angles: Seq<int> = Seq::empty();
    let mut j: usize = 0;
    while j < kept.len()
        invariant
            j <= kept@.len(),
            kept@.len() == kept0.len(),
            kept0 == survivors(start),
            forall|k: int| 0 <= k < kept0.len() ==> kept0[k].wf(),
            forall|k: int| 0 <= k < kept@.len() ==> kept@[k].wf(),
            forall|k: int| j <= k < kept@.len() ==> kept@[k] == kept0[k],
            forall|k: int|
                0 <= k < j ==> frame_outcome(
                    kept0[k],
                    #[trigger] kept@[k],
                    delta_ms as int,
                    player.pos,
                    maze,
                    block_size as int,
                ),
            framebuffer.wf(),
            framebuffer@.width == old(framebuffer)@.width,
            framebuffer@.height == old(framebuffer)@.height,
            v0 == old(framebuffer)@,
            angles.len() == j,
            same_picture(
                framebuffer@,
                sprites_upto(v0, player, kept@, textures, maze, block_size as int, angles, j as int),
            ),
            player.pos.in_range(),
            maze_fits(maze, block_size),
            -ANGLE_LIMIT <= player.a <= ANGLE_LIMIT,
            0 < player.fov <= ANGLE_LIMIT,
        decreases kept@.len() - j,
    {
        let e = enemy_frame(kept[j], player, delta_ms, maze, block_size, trig);
        let angle = trig.angle_of(e.pos.x - player.pos.x, e.pos.y - player.pos.y);
        let ghost before = framebuffer@;
        let ghost kept_before = kept@;
        let ghost angles_before = angles;
        draw_sprite(framebuffer, player, &e, textures, maze, block_size, angle);
        kept.set(j, e);
        proof {
            angles = angles.push(angle as int);
            lemma_sprites_prefix(
                v0,
                player,
                kept_before,
                kept@,
                textures,
                maze,
                block_size as int,
                angles_before,
                angles,
                j as int,
            );
            let prev = sprites_upto(v0, player, kept@, textures, maze, block_size as int, angles, j as int);
            lemma_sprite_same_picture(before, prev, player, &e, textures, maze, block_size as int, angle as int);
            assert(kept@[j as int] == e);
            assert(angles[j as int] == angle);
        }
        j += 1;
    }
    *enemies = kept;
}

/// The goal counts as reached within seven tenths of a cell of its center.
pub open spec fn near_goal(player: &Player, maze: &Maze, block_size: int, cx: int, cy: int) -> bool {
    let b = block_size * UNIT;
    let center = Point { x: (cx * b + b / 2) as i64, y: (cy * b + b / 2) as i64 };
    &&& 0 <= cx < cols(maze)
    &&& 0 <= cy < rows(maze)
    &&& cell(maze, cx, cy) == 'g'
    &&& 100 * dist2(player.pos, center) <= 49 * b * b
}

/// A goal cell in the player's cell or one of its eight neighbours, with the player
/// near its center.
pub open spec fn goal_reached(player: &Player, maze: &Maze, block_size: int) -> bool {
    let px = clamped_cell(player.pos.x as int, block_size);
    let py = clamped_cell(player.pos.y as int, block_size);
    exists|dx: int, dy: int|
        -1 <= dx <= 1 && -1 <= dy <= 1 && #[trigger] near_goal(
            player,
            maze,
            block_size,
            px + dx,
            py + dy,
        )
}

/// Whether the player has reached a goal cell.
pub fn check_goal_reached(player: &Player, maze: &Maze, block_size: usize) -> (r: bool)
    requires
        player.pos.in_range(),
        maze_fits(maze, block_size),
    ensures
        r == goal_reached(player, maze, block_size as int),
{
    proof {
        lemma_block_bound(maze, block_size);
    }
    let px = cell_index(player.pos.x, block_size);
    let py = cell_index(player.pos.y, block_size);
    let rows_u: usize = maze.len();
    let cols_u: usize = maze[0].len();
    let b: i128 = block_size as i128 * UNIT as i128;
    let mut dy: i128 = -1;
    while dy <= 1
        invariant
            -1 <= dy <= 2,
            rows_u == rows(maze),
            cols_u == cols(maze),
            px == clamped_cell(player.pos.x as int, block_size as int),
            py == clamped_cell(player.pos.y as int, block_size as int),
            b == block_size * UNIT,
            block_size <= 0x100_0000,
            player.pos.in_range(),
            maze_fits(maze, block_size),
            forall|ex: int, ey: int|
                -1 <= ex <= 1 && -1 <= ey < dy ==> !#[trigger] near_goal(
                    player,
                    maze,
                    block_size as int,
                    px + ex,
                    py + ey,
                ),
        decreases 2 - dy,
    {
        let mut dx: i128 = -1;
        while dx <= 1
            invariant
                -1 <= dx <= 2,
                -1 <= dy <= 1,
                rows_u == rows(maze),
                cols_u == cols(maze),
                px == clamped_cell(player.pos.x as int, block_size as int),
                py == clamped_cell(player.pos.y as int, block_size as int),
                b == block_size * UNIT,
                block_size <= 0x100_0000,
                player.pos.in_range(),
                maze_fits(maze, block_size),
                forall|ex: int, ey: int|
                    -1 <= ex <= 1 && -1 <= ey < dy ==> !#[trigger] near_goal(
                        player,
                        maze,
                        block_size as int,
                        px + ex,
                        py + ey,
                    ),
                forall|ex: int|
                    -1 <= ex < dx ==> !#[trigger] near_goal(
                        player,
                        maze,
                        block_size as int,
                        px + ex,
                        py + dy,
                    ),
            decreases 2 - dx,
        {
            let cx: i128 = px as i128 + dx;
            let cy: i128 = py as i128 + dy;
            if cx >= 0 && cy >= 0 && cy < rows_u as i128 && cx < cols_u as i128 {
                if cell_at(maze, cx as usize, cy as usize) == 'g' {
                    proof {
                        crate::maze::lemma_scaled_extent(cols(maze), block_size as int);
                        crate::maze::lemma_scaled_extent(rows(maze), block_size as int);
                        assert(cx * b <= cols(maze) * b) by (nonlinear_arith)
                            requires
                                0 <= cx < cols(maze),
                                b >= 0,
                        ;
                        assert(cy * b <= rows(maze) * b) by (nonlinear_arith)
                            requires
                                0 <= cy < rows(maze),
                                b >= 0,
                        ;
                        assert(cols(maze) * b == cols(maze) * (block_size * UNIT));
                        assert(rows(maze) * b == rows(maze) * (block_size * UNIT));
                    }
                    let gx: i128 = cx * b + b / 2;
                    let gy: i128 = cy * b + b / 2;
                    let ddx: i128 = gx - player.pos.x as i128;
                    let ddy: i128 = gy - player.pos.y as i128;
                    assert(0 <= ddx * ddx <= 0x1000_0000_0000_0000_0000_0000) by (nonlinear_arith)
                        requires
                            -0x3000_0000_0000 <= ddx <= 0x3000_0000_0000,
                    ;
                    assert(0 <= ddy * ddy <= 0x1000_0000_0000_0000_0000_0000) by (nonlinear_arith)
                        requires
                            -0x3000_0000_0000 <= ddy <= 0x3000_0000_0000,
                    ;
                    assert(0 <= b * b <= 0x1_0000_0000_0000_0000_0000) by (nonlinear_arith)
                        requires
                            0 <= b <= 0x100_0000 * UNIT,
                    ;
                    let n: i128 = ddx * ddx + ddy * ddy;
                    let ghost center = Point { x: gx as i64, y: gy as i64 };
                    assert(n == dist2(player.pos, center));
                    assert(0 <= 49 * b * b <= 49 * 0x1_0000_0000_0000_0000_0000) by (nonlinear_arith)
                        requires
                            0 <= b * b <= 0x1_0000_0000_0000_0000_0000,
                    ;
                    let lim: i128 = 49 * b * b;
                    if 100 * n <= lim {
                        proof {
                            assert(near_goal(player, maze, block_size as int, px + dx, py + dy));
                        }
                        return true;
                    }
                    proof {
                        assert(!near_goal(player, maze, block_size as int, px + dx, py + dy));
                    }
                }
            }
            assert(!near_goal(player, maze, block_size as int, px + dx, py + dy));
            dx += 1;
        }
        dy += 1;
    }
    false
}

/// Pixel `p` lies in the square of side `size` at `(xo, yo)` and comes before row
/// `y_end`, column `x_end` in row order.
pub open spec fn square_covers(v: FrameView, xo: int, yo: int, size: int, y_end: int, x_end: int, p: int) -> bool {
    let w = v.width as int;
    let x = p % w;
    let y = p / w;
    &&& xo <= x < xo + size
    &&& yo <= y < yo + size
    &&& (y < y_end || (y == y_end && x < x_end))
}

/// The frame with the part of that square before `(y_end, x_end)` painted `color`.
pub open spec fn painted_upto(
    v: FrameView,
    xo: int,
    yo: int,
    size: int,
    color: Color,
    y_end: int,
    x_end: int,
) -> FrameView {
    FrameView {
        colors: Seq::new(
            v.colors.len(),
            |p: int|
                if square_covers(v, xo, yo, size, y_end, x_end, p) {
                    color
                } else {
                    v.colors[p]
                },
        ),
        ..v
    }
}

proof fn lemma_painted_same(
    v: FrameView,
    xo: int,
    yo: int,
    size: int,
    color: Color,
    y1: int,
    x1: int,
    y2: int,
    x2: int,
)
    requires
        v.width > 0,
        v.well_formed(),
        forall|p: int|
            0 <= p < v.colors.len() ==> square_covers(v, xo, yo, size, y1, x1, p)
                == square_covers(v, xo, yo, size, y2, x2, p),
    ensures
        painted_upto(v, xo, yo, size, color, y1, x1) == painted_upto(v, xo, yo, size, color, y2, x2),
{
    let a = painted_upto(v, xo, yo, size, color, y1, x1);
    let b = painted_upto(v, xo, yo, size, color, y2, x2);
    assert(a.colors =~= b.colors);
}

/// Paints the map cell whose top-left pixel is `(xo, yo)` white, unless it is floor.
pub fn draw_cell(framebuffer: &mut Framebuffer, xo: usize, yo: usize, block_size: usize, cell: char)
    requires
        old(framebuffer).wf(),
    ensures
        final(framebuffer).wf(),
        cell == ' ' ==> final(framebuffer)@ == old(framebuffer)@,
        cell != ' ' ==> same_picture(
            final(framebuffer)@,
            painted_upto(
                old(framebuffer)@,
                xo as int,
                yo as int,
                block_size as int,
                Color::white_spec(),
                old(framebuffer)@.height as int,
                0,
            ),
        ),
{
    if cell == ' ' {
        return;
    }
    let ghost v = framebuffer@;
    framebuffer.set_current_color(Color::white());
    let w = framebuffer.width() as u128;
    let h = framebuffer.height() as u128;
    if w == 0 {
        proof {
            let b = painted_upto(v, xo as int, yo as int, block_size as int, Color::white_spec(), h as int, 0);
            assert(v.colors.len() == 0) by (nonlinear_arith)
                requires
                    v.colors.len() == v.width * v.height,
                    v.width == 0,
            ;
            assert(b.colors =~= v.colors);
        }
        return;
    }
    let size = block_size as u128;
    let left = xo as u128;
    let top = yo as u128;
    let right: u128 = if left + size < w {
        left + size
    } else {
        w
    };
    let bottom: u128 = if top + size < h {
        top + size
    } else {
        h
    };
    let ghost white = Color::white_spec();
    proof {
        lemma_painted_same(v, left as int, top as int, size as int, white, top as int, 0, 0, 0);
        assert(painted_upto(v, left as int, top as int, size as int, white, 0, 0).colors =~= v.colors);
    }
    let mut y: u128 = top;
    while y < bottom
        invariant
            top <= y,
            y == top || y <= bottom,
            bottom <= h,
            bottom <= top + size,
            right == (if left + size < w { left + size } else { w as int }),
            w == v.width,
            h == v.height,
            w > 0,
            w <= 0xffff_ffff,
            h <= 0xffff_ffff,
            v.well_formed(),
            framebuffer.wf(),
            framebuffer@.current == white,
            same_picture(framebuffer@, painted_upto(v, left as int, top as int, size as int, white, y as int, 0)),
        decreases bottom - y,
    {
        let mut x: u128 = left;
        proof {
            lemma_painted_same(v, left as int, top as int, size as int, white, y as int, 0, y as int, left as int);
        }
        while x < right
            invariant
                left <= x,
                x == left || x <= right,
                top <= y < bottom,
                bottom <= h,
                bottom <= top + size,
                right <= w,
                right <= left + size,
                w == v.width,
                h == v.height,
                w > 0,
                w <= 0xffff_ffff,
                h <= 0xffff_ffff,
                v.well_formed(),
                framebuffer.wf(),
                framebuffer@.current == white,
                same_picture(
                    framebuffer@,
                    painted_upto(v, left as int, top as int, size as int, white, y as int, x as int),
                ),
            decreases right - x,
        {
            let ghost k = y * w + x;
            proof {
                crate::framebuffer::lemma_index_in_range(w as nat, h as nat, x as int, y as int);
            }
            framebuffer.set_pixel(x as u32, y as u32);
            proof {
                let a = framebuffer@;
                let b = painted_upto(v, left as int, top as int, size as int, white, y as int, x + 1);
                let pre = painted_upto(v, left as int, top as int, size as int, white, y as int, x as int);
                assert forall|p: int| 0 <= p < a.colors.len() implies a.colors[p] == b.colors[p] by {
                    lemma_pixel_coords(p, w as int, x as int, y as int);
                    if p != k {
                        assert(square_covers(v, left as int, top as int, size as int, y as int, x + 1, p)
                            == square_covers(v, left as int, top as int, size as int, y as int, x as int, p));
                        assert(a.colors[p] == pre.colors[p]);
                    } else {
                        assert(square_covers(v, left as int, top as int, size as int, y as int, x + 1, p));
                    }
                }
                assert(a.colors =~= b.colors);
            }
            x += 1;
        }
        proof {
            assert(x >= right);
            assert forall|p: int| 0 <= p < v.colors.len() implies square_covers(v, left as int, top as int, size as int, y as int, x as int, p)
                == square_covers(v, left as int, top as int, size as int, y + 1, 0, p) by {
                vstd::arithmetic::div_mod::lemma_mod_pos_bound(p, w as int);
                let col = p % (w as int);
                if left <= col < left + size {
                    assert(col < right);
                }
            }
            lemma_painted_same(v, left as int, top as int, size as int, white, y as int, x as int, y + 1, 0);
        }
        y += 1;
    }
    proof {
        assert forall|p: int| 0 <= p < v.colors.len() implies square_covers(v, left as int, top as int, size as int, y as int, 0, p)
            == square_covers(v, left as int, top as int, size as int, h as int, 0, p) by {
            vstd::arithmetic::div_mod::lemma_fundamental_div_mod(p, w as int);
            vstd::arithmetic::div_mod::lemma_mod_pos_bound(p, w as int);
            assert(p / (w as int) < h) by (nonlinear_arith)
                requires
                    0 <= p < w * h,
                    p == w * (p / (w as int)) + p % (w as int),
                    0 <= p % (w as int),
                    w > 0,
            ;
        }
        lemma_painted_same(v, left as int, top as int, size as int, white, y as int, 0, h as int, 0);
    }
}

/// Rays the top-down map view casts across the field of view.
pub const MAP_RAYS: u32 = 5;

/// The frame after the first `n` cells of the map, in row order, have been drawn.
pub open spec fn map_cells_upto(v: FrameView, maze: &Maze, block_size: int, n: int) -> FrameView
    decreases n,
{
    if n <= 0 {
        v
    } else {
        let prev = map_cells_upto(v, maze, block_size, n - 1);
        let i = (n - 1) % cols(maze);
        let j = (n - 1) / cols(maze);
        if cell(maze, i, j) == ' ' {
            prev
        } else {
            painted_upto(
                prev,
                i * block_size,
                j * block_size,
                block_size,
                Color::white_spec(),
                prev.height as int,
                0,
            )
        }
    }
}

/// The frame after the first `n` map rays, along `dirs`, have been traced.
pub open spec fn map_rays_upto(
    v: FrameView,
    maze: &Maze,
    block_size: int,
    player: &Player,
    dirs: Seq<Heading>,
    n: int,
) -> FrameView
    decreases n,
{
    if n <= 0 {
        v
    } else {
        let prev = map_rays_upto(v, maze, block_size, player, dirs, n - 1);
        FrameView {
            colors: crate::caster::traced(
                prev,
                player.pos,
                dirs[n - 1],
                Color::whitesmoke_spec(),
                ray_result(maze, player.pos, dirs[n - 1], block_size).distance as int,
            ),
            ..prev
        }
    }
}

proof fn lemma_painted_same_picture(
    a: FrameView,
    b: FrameView,
    xo: int,
    yo: int,
    size: int,
    color: Color,
)
    requires
        same_picture(a, b),
    ensures
        same_picture(
            painted_upto(a, xo, yo, size, color, a.height as int, 0),
            painted_upto(b, xo, yo, size, color, b.height as int, 0),
        ),
{
    let pa = painted_upto(a, xo, yo, size, color, a.height as int, 0);
    let pb = painted_upto(b, xo, yo, size, color, b.height as int, 0);
    assert(pa.colors =~= pb.colors);
}

/// Draws the top-down map: each non-floor cell as a white square, then the rays of
/// the field of view, whose directions come from `trig`, traced in light gray.
pub fn render_maze<T: Trigonometry>(
    framebuffer: &mut Framebuffer,
    maze: &Maze,
    block_size: usize,
    player: &Player,
    trig: &T,
)
    requires
        old(framebuffer).wf(),
        maze_fits(maze, block_size),
        player.pos.in_range(),
        -ANGLE_LIMIT <= player.a <= ANGLE_LIMIT,
        0 <= player.fov <= ANGLE_LIMIT,
    ensures
        final(framebuffer).wf(),
        final(framebuffer)@.depths == old(framebuffer)@.depths,
        exists|dirs: Seq<Heading>|
            dirs.len() == MAP_RAYS && same_picture(
                final(framebuffer)@,
                #[trigger] map_rays_upto(
                    map_cells_upto(old(framebuffer)@, maze, block_size as int, rows(maze) * cols(maze)),
                    maze,
                    block_size as int,
                    player,
                    dirs,
                    MAP_RAYS as int,
                ),
            ),
{
    proof {
        lemma_block_bound(maze, block_size);
    }
    let ghost v = framebuffer@;
    let ghost b = block_size as int;
    let rows_u = maze.len();
    let cols_u = maze[0].len();
    let mut j: usize = 0;
    while j < rows_u
        invariant
            j <= rows_u,
            rows_u == rows(maze),
            cols_u == cols(maze),
            b == block_size,
            maze_fits(maze, block_size),
            framebuffer.wf(),
            framebuffer@.depths == v.depths,
            same_picture(framebuffer@, map_cells_upto(v, maze, b, j * cols_u)),
        decreases rows_u - j,
    {
        let mut i: usize = 0;
        while i < cols_u
            invariant
                i <= cols_u,
                j < rows_u,
                rows_u == rows(maze),
                cols_u == cols(maze),
                b == block_size,
                maze_fits(maze, block_size),
                framebuffer.wf(),
                framebuffer@.depths == v.depths,
                same_picture(framebuffer@, map_cells_upto(v, maze, b, j * cols_u + i)),
            decreases cols_u - i,
        {
            proof {
                assert(i * block_size <= cols(maze) * block_size) by (nonlinear_arith)
                    requires
                        i < cols(maze),
                ;
                assert(j * block_size <= rows(maze) * block_size) by (nonlinear_arith)
                    requires
                        j < rows(maze),
                ;
                lemma_fundamental_div_mod_converse(j * cols_u + i, cols_u as int, j as int, i as int);
            }
            let ghost before = framebuffer@;
            let c = cell_at(maze, i, j);
            draw_cell(framebuffer, i * block_size, j * block_size, block_size, c);
            proof {
                let n = j * cols_u + i + 1;
                let prev = map_cells_upto(v, maze, b, n - 1);
                assert((n - 1) % cols(maze) == i && (n - 1) / cols(maze) == j);
                if c != ' ' {
                    lemma_painted_same_picture(
                        before,
                        prev,
                        i * b,
                        j * b,
                        b,
                        Color::white_spec(),
                    );
                }
            }
            i += 1;
        }
        proof {
            assert(j * cols_u + cols_u == (j + 1) * cols_u) by (nonlinear_arith);
        }
        j += 1;
    }
    let ghost cells = map_cells_upto(v, maze, b, rows(maze) * cols(maze));
    proof {
        assert(rows_u * cols_u == rows(maze) * cols(maze));
    }
    framebuffer.set_current_color(Color::whitesmoke());
    let mut dirs: Vec<Heading> = Vec::new();
    let mut r: u32 = 0;
    while r < MAP_RAYS
        invariant
            r <= MAP_RAYS,
            dirs@.len() == r,
            b == block_size,
            maze_fits(maze, block_size),
            player.pos.in_range(),
            -ANGLE_LIMIT <= player.a <= ANGLE_LIMIT,
            0 <= player.fov <= ANGLE_LIMIT,
            framebuffer.wf(),
            framebuffer@.depths == v.depths,
            same_picture(framebuffer@, map_rays_upto(cells, maze, b, player, dirs@, r as int)),
        decreases MAP_RAYS - r,
    {
        assert(0 <= player.fov * r <= ANGLE_LIMIT * 5) by (nonlinear_arith)
            requires
                0 <= player.fov <= ANGLE_LIMIT,
                0 <= r <= 5,
        ;
        let angle: i128 = player.a as i128 - player.fov as i128 / 2 + player.fov as i128 * r as i128
            / MAP_RAYS as i128;
        let dir = trig.unit_vector(angle as i64);
        let ghost before = framebuffer@;
        let ghost old_dirs = dirs@;
        cast_ray(framebuffer, maze, player, &dir, block_size, true);
        dirs.push(dir);
        proof {
            let d2 = dirs@;
            assert(d2[r as int] == dir);
            lemma_rays_prefix(cells, maze, b, player, old_dirs, d2, r as int);
            let prev = map_rays_upto(cells, maze, b, player, d2, r as int);
            assert(same_picture(before, prev));
            assert(before.width == prev.width && before.height == prev.height);
            lemma_traced_same(before, prev, player.pos, dir, Color::whitesmoke_spec(), ray_result(maze, player.pos, dir, b).distance as int);
        }
        r += 1;
    }
}

proof fn lemma_rays_prefix(
    v: FrameView,
    maze: &Maze,
    block_size: int,
    player: &Player,
    d1: Seq<Heading>,
    d2: Seq<Heading>,
    n: int,
)
    requires
        0 <= n <= d1.len(),
        d1.len() <= d2.len(),
        forall|k: int| 0 <= k < d1.len() ==> d1[k] == d2[k],
    ensures
        map_rays_upto(v, maze, block_size, player, d1, n) == map_rays_upto(
            v,
            maze,
            block_size,
            player,
            d2,
            n,
        ),
    decreases n,
{
    if n > 0 {
        lemma_rays_prefix(v, maze, block_size, player, d1, d2, n - 1);
    }
}

proof fn lemma_traced_same(a: FrameView, b: FrameView, p: Point, h: Heading, color: Color, n: int)
    requires
        a.colors == b.colors,
        a.width == b.width,
        a.height == b.height,
    ensures
        crate::caster::traced(a, p, h, color, n) == crate::caster::traced(b, p, h, color, n),
    decreases n,
{
    if n > 0 {
        lemma_traced_same(a, b, p, h, color, n - 1);
    }
}
} // verus!
