use vstd::prelude::*;

use crate::color::Color;

verus! {

/// The depth of a pixel that nothing has been drawn on since the last clear.
pub const INFINITE_DEPTH: u64 = 0xffff_ffff_ffff_ffff;

/// What a framebuffer holds: row-major colors and depths, one of each per pixel.
pub ghost struct FrameView {
    pub width: nat,
    pub height: nat,
    pub colors: Seq<Color>,
    pub depths: Seq<u64>,
    pub background: Color,
    pub current: Color,
}

impl FrameView {
    pub open spec fn well_formed(self) -> bool {
        &&& self.colors.len() == self.width * self.height
        &&& self.depths.len() == self.width * self.height
    }

    pub open spec fn in_bounds(self, x: int, y: int) -> bool {
        0 <= x < self.width && 0 <= y < self.height
    }

    pub open spec fn index(self, x: int, y: int) -> int {
        y * self.width + x
    }
}

/// One depth-tested submission to a pixel holding `(color, depth)`: it replaces the
/// pixel only when strictly nearer.
pub open spec fn depth_step(pixel: (Color, u64), submitted: (Color, u64)) -> (Color, u64) {
    if submitted.1 < pixel.1 {
        submitted
    } else {
        pixel
    }
}

/// The `(color, depth)` of a pixel that started as `start` after the depth-tested
/// submissions `subs`, in order.
pub open spec fn pixel_after(start: (Color, u64), subs: Seq<(Color, u64)>) -> (Color, u64)
    decreases subs.len(),
{
    if subs.len() == 0 {
        start
    } else {
        depth_step(pixel_after(start, subs.drop_last()), subs.last())
    }
}

/// After any depth-tested submissions to a cleared pixel, its depth is the least
/// depth submitted (infinity if none was nearer), and its color is the one
/// submitted with the first submission of that depth, or the background if none
/// was written.
pub proof fn lemma_depth_keeps_nearest(background: Color, subs: Seq<(Color, u64)>)
    ensures
        ({
            let p = pixel_after((background, INFINITE_DEPTH), subs);
            &&& forall|k: int| 0 <= k < subs.len() ==> p.1 <= subs[k].1
            &&& (p == (background, INFINITE_DEPTH)) || (exists|k: int|
                0 <= k < subs.len() && subs[k] == p && forall|j: int|
                    0 <= j < k ==> subs[j].1 > p.1)
        }),
    decreases subs.len(),
{
    if subs.len() > 0 {
        let rest = subs.drop_last();
        lemma_depth_keeps_nearest(background, rest);
        let q = pixel_after((background, INFINITE_DEPTH), rest);
        let p = pixel_after((background, INFINITE_DEPTH), subs);
        let n = subs.len() - 1;
        assert(forall|k: int| 0 <= k < n ==> rest[k] == subs[k]);
        if subs.last().1 < q.1 {
            assert(p == subs[n]);
            assert forall|j: int| 0 <= j < n implies subs[j].1 > p.1 by {
                assert(q.1 <= rest[j].1);
            }
        } else {
            assert(p == q);
            if p != (background, INFINITE_DEPTH) {
                let k = choose|k: int|
                    0 <= k < rest.len() && rest[k] == q && forall|j: int|
                        0 <= j < k ==> rest[j].1 > q.1;
                assert(subs[k] == p);
                assert(forall|j: int| 0 <= j < k ==> subs[j].1 > p.1);
            }
        }
    }
}

/// On a cleared frame any depth-tested write of a finite depth inside the frame
/// succeeds.
pub proof fn lemma_write_after_clear(v: FrameView, x: int, y: int, depth: u64)
    requires
        v.well_formed(),
        v.depths == Seq::new(v.depths.len(), |i: int| INFINITE_DEPTH),
        v.in_bounds(x, y),
        depth < INFINITE_DEPTH,
    ensures
        depth < v.depths[v.index(x, y)],
{
    lemma_index_in_range(v.width, v.height, x, y);
}

/// A color buffer with a parallel depth buffer; every 3D write is depth tested.
pub struct Framebuffer {
    width: u32,
    height: u32,
    color_buffer: Vec<Color>,
    depth_buffer: Vec<u64>,
    background_color: Color,
    current_color: Color,
}

pub proof fn lemma_index_in_range(w: nat, h: nat, x: int, y: int)
    requires
        0 <= x < w,
        0 <= y < h,
    ensures
        0 <= y * w + x < w * h,
{
    assert(y * w + x < w * h) by (nonlinear_arith)
        requires
            0 <= x < w,
            0 <= y < h,
    ;
    assert(0 <= y * w) by (nonlinear_arith)
        requires
            0 <= y,
            0 <= w,
    ;
}

impl View for Framebuffer {
    type V = FrameView;

    closed spec fn view(&self) -> FrameView {
        FrameView {
            width: self.width as nat,
            height: self.height as nat,
            colors: self.color_buffer@,
            depths: self.depth_buffer@,
            background: self.background_color,
            current: self.current_color,
        }
    }
}

impl Framebuffer {
    pub open spec fn wf(&self) -> bool {
        self@.well_formed()
    }

    /// A black frame of the given size with every depth at infinity, drawing in white.
    pub fn new(width: u32, height: u32) -> (fb: Framebuffer)
        requires
            width * height <= usize::MAX,
        ensures
            fb.wf(),
            fb@.width == width,
            fb@.height == height,
            fb@.colors == Seq::new((width * height) as nat, |i: int| Color::black_spec()),
            fb@.depths == Seq::new((width * height) as nat, |i: int| INFINITE_DEPTH),
            fb@.background == Color::black_spec(),
            fb@.current == Color::white_spec(),
    {
        let n: usize = width as usize * height as usize;
        let black = Color::black();
        let mut color_buffer: Vec<Color> = Vec::new();
        let mut depth_buffer: Vec<u64> = Vec::new();
        let mut i: usize = 0;
        while i < n
            invariant
                i <= n,
                color_buffer@ == Seq::new(i as nat, |k: int| Color::black_spec()),
                depth_buffer@ == Seq::new(i as nat, |k: int| INFINITE_DEPTH),
                black == Color::black_spec(),
            decreases n - i,
        {
            color_buffer.push(black);
            depth_buffer.push(INFINITE_DEPTH);
            i += 1;
            assert(color_buffer@ =~= Seq::new(i as nat, |k: int| Color::black_spec()));
            assert(depth_buffer@ =~= Seq::new(i as nat, |k: int| INFINITE_DEPTH));
        }
        Framebuffer {
            width,
            height,
            color_buffer,
            depth_buffer,
            background_color: black,
            current_color: Color::white(),
        }
    }

    fn pixel_index(&self, x: u32, y: u32) -> (index: usize)
        requires
            self.wf(),
            x < self@.width,
            y < self@.height,
        ensures
            index == self@.index(x as int, y as int),
            0 <= index < self@.colors.len(),
    {
        let n = self.color_buffer.len();
        proof {
            lemma_index_in_range(self.width as nat, self.height as nat, x as int, y as int);
            assert(y as int * self.width as int <= y as int * self.width as int + x as int);
            assert((y as int * self.width as int + x as int) < n as int);
        }
        y as usize * self.width as usize + x as usize
    }

    pub fn width(&self) -> (r: u32)
        ensures
            r == self@.width,
    {
        self.width
    }

    pub fn height(&self) -> (r: u32)
        ensures
            r == self@.height,
    {
        self.height
    }

    /// Every pixel to the background color, every depth to infinity.
    pub fn clear(&mut self)
        requires
            old(self).wf(),
        ensures
            final(self).wf(),
            final(self)@.width == old(self)@.width,
            final(self)@.height == old(self)@.height,
            final(self)@.background == old(self)@.background,
            final(self)@.current == old(self)@.current,
            final(self)@.colors == Seq::new(
                old(self)@.colors.len(),
                |i: int| old(self)@.background,
            ),
            final(self)@.depths == Seq::new(old(self)@.depths.len(), |i: int| INFINITE_DEPTH),
    {
        let n = self.color_buffer.len();
        let bg = self.background_color;
        let mut i: usize = 0;
        while i < n
            invariant
                i <= n,
                n == self.color_buffer.len(),
                n == self.depth_buffer.len(),
                self.width == old(self).width,
                self.height == old(self).height,
                self.background_color == bg,
                bg == old(self).background_color,
                self.current_color == old(self).current_color,
                forall|k: int| 0 <= k < i ==> self.color_buffer@[k] == bg,
                forall|k: int| 0 <= k < i ==> self.depth_buffer@[k] == INFINITE_DEPTH,
            decreases n - i,
        {
            self.color_buffer.set(i, bg);
            self.depth_buffer.set(i, INFINITE_DEPTH);
            i += 1;
        }
        assert(self.color_buffer@ =~= Seq::new(n as nat, |k: int| bg));
        assert(self.depth_buffer@ =~= Seq::new(n as nat, |k: int| INFINITE_DEPTH));
    }

    /// Writes the current color at `(x, y)` without a depth test; outside the frame
    /// nothing changes.
    pub fn set_pixel(&mut self, x: u32, y: u32)
        requires
            old(self).wf(),
        ensures
            final(self).wf(),
            final(self)@ == (if old(self)@.in_bounds(x as int, y as int) {
                FrameView {
                    colors: old(self)@.colors.update(
                        old(self)@.index(x as int, y as int),
                        old(self)@.current,
                    ),
                    ..old(self)@
                }
            } else {
                old(self)@
            }),
    {
        if x < self.width && y < self.height {
            let index = self.pixel_index(x, y);
            self.color_buffer.set(index, self.current_color);
        }
    }

    /// Writes the current color and `depth` at `(x, y)` only when `depth` is strictly
    /// below the stored depth; returns whether it wrote.
    pub fn set_pixel_with_depth(&mut self, x: u32, y: u32, depth: u64) -> (written: bool)
        requires
            old(self).wf(),
        ensures
            final(self).wf(),
            written == (old(self)@.in_bounds(x as int, y as int) && depth < old(self)@.depths[old(
                self,
            )@.index(x as int, y as int)]),
            written ==> final(self)@ == (FrameView {
                colors: old(self)@.colors.update(
                    old(self)@.index(x as int, y as int),
                    old(self)@.current,
                ),
                depths: old(self)@.depths.update(old(self)@.index(x as int, y as int), depth),
                ..old(self)@
            }),
            !written ==> final(self)@ == old(self)@,
            old(self)@.in_bounds(x as int, y as int) ==> ({
                let i = old(self)@.index(x as int, y as int);
                (final(self)@.colors[i], final(self)@.depths[i]) == depth_step(
                    (old(self)@.colors[i], old(self)@.depths[i]),
                    (old(self)@.current, depth),
                )
            }),
    {
        if x < self.width && y < self.height {
            let index = self.pixel_index(x, y);
            if depth < self.depth_buffer[index] {
                self.depth_buffer.set(index, depth);
                self.color_buffer.set(index, self.current_color);
                return true;
            }
        }
        false
    }

    /// The stored depth at `(x, y)`, infinity outside the frame.
    pub fn get_depth(&self, x: u32, y: u32) -> (d: u64)
        requires
            self.wf(),
        ensures
            d == (if self@.in_bounds(x as int, y as int) {
                self@.depths[self@.index(x as int, y as int)]
            } else {
                INFINITE_DEPTH
            }),
    {
        if x < self.width && y < self.height {
            let index = self.pixel_index(x, y);
            self.depth_buffer[index]
        } else {
            INFINITE_DEPTH
        }
    }

    /// The stored color at `(x, y)`, the background color outside the frame.
    pub fn color_at(&self, x: u32, y: u32) -> (c: Color)
        requires
            self.wf(),
        ensures
            c == (if self@.in_bounds(x as int, y as int) {
                self@.colors[self@.index(x as int, y as int)]
            } else {
                self@.background
            }),
    {
        if x < self.width && y < self.height {
            let index = self.pixel_index(x, y);
            self.color_buffer[index]
        } else {
            self.background_color
        }
    }

    pub fn set_background_color(&mut self, color: Color)
        ensures
            final(self)@ == (FrameView { background: color, ..old(self)@ }),
    {
        self.background_color = color;
    }

    pub fn set_current_color(&mut self, color: Color)
        ensures
            final(self)@ == (FrameView { current: color, ..old(self)@ }),
    {
        self.current_color = color;
    }
}

} // verus!
