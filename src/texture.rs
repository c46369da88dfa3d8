use std::collections::HashMap;
use vstd::prelude::*;

use crate::color::Color;

verus! {

/// An image's size and its pixels, row-major.
pub ghost struct ImageView {
    pub width: nat,
    pub height: nat,
    pub pixels: Seq<Color>,
}

/// A pixel-addressable image: `width * height` colors, row by row.
pub struct Image {
    width: u32,
    height: u32,
    pixels: Vec<Color>,
}

impl View for Image {
    type V = ImageView;

    closed spec fn view(&self) -> ImageView {
        ImageView { width: self.width as nat, height: self.height as nat, pixels: self.pixels@ }
    }
}

/// The pixel at `(x, y)`, white for a coordinate outside the image.
pub open spec fn pixel_of(img: ImageView, x: int, y: int) -> Color {
    if 0 <= x < img.width && 0 <= y < img.height {
        img.pixels[y * img.width + x]
    } else {
        Color::white_spec()
    }
}

pub open spec fn clamp_to(v: int, size: int) -> int {
    if v < size - 1 {
        v
    } else {
        size - 1
    }
}

/// The pixel at `(tx, ty)` with each coordinate clamped to the image, white for an
/// empty image.
pub open spec fn clamped_pixel(img: ImageView, tx: int, ty: int) -> Color {
    if img.width == 0 || img.height == 0 {
        Color::white_spec()
    } else {
        pixel_of(img, clamp_to(tx, img.width as int), clamp_to(ty, img.height as int))
    }
}

proof fn lemma_pixel_index(w: int, h: int, x: int, y: int)
    requires
        0 <= x < w,
        0 <= y < h,
    ensures
        0 <= y * w + x < w * h,
{
    assert(0 <= y * w + x < w * h) by (nonlinear_arith)
        requires
            0 <= x < w,
            0 <= y < h,
    ;
}

impl Image {
    #[verifier::type_invariant]
    spec fn inv(self) -> bool {
        self.pixels@.len() == self.width * self.height
    }

    /// An image of the given pixels, or `None` when their number is not
    /// `width * height`.
    pub fn from_pixels(width: u32, height: u32, pixels: Vec<Color>) -> (r: Option<Image>)
        ensures
            r.is_some() == (pixels@.len() == width * height),
            r.is_some() ==> r.unwrap()@ == (ImageView {
                width: width as nat,
                height: height as nat,
                pixels: pixels@,
            }),
    {
        assert(width * height <= 0xffff_ffff * 0xffff_ffff) by (nonlinear_arith)
            requires
                width <= 0xffff_ffff,
                height <= 0xffff_ffff,
        ;
        if pixels.len() as u128 == width as u128 * height as u128 {
            Some(Image { width, height, pixels })
        } else {
            None
        }
    }

    /// An image of one color.
    pub fn solid(width: u32, height: u32, color: Color) -> (img: Image)
        requires
            width * height <= usize::MAX,
        ensures
            img@ == (ImageView {
                width: width as nat,
                height: height as nat,
                pixels: Seq::new((width * height) as nat, |i: int| color),
            }),
    {
        let n: usize = width as usize * height as usize;
        let mut pixels: Vec<Color> = Vec::new();
        let mut i: usize = 0;
        while i < n
            invariant
                i <= n,
                pixels@ == Seq::new(i as nat, |k: int| color),
            decreases n - i,
        {
            pixels.push(color);
            i += 1;
            assert(pixels@ =~= Seq::new(i as nat, |k: int| color));
        }
        Image { width, height, pixels }
    }

    pub fn width(&self) -> (r: u32)
        ensures
            r == self@.width,
    {
        self.width
    }

    pub fn height(&self) -> (r: u32)
        ensures
            r == self@.height,
    {
        self.height
    }
}

/// The color of `image` at `(x, y)`; white outside the image.
pub fn get_pixel_color(image: &Image, x: i64, y: i64) -> (c: Color)
    ensures
        c == pixel_of(image@, x as int, y as int),
{
    proof {
        use_type_invariant(image);
    }
    if x < 0 || y < 0 || x >= image.width as i64 || y >= image.height as i64 {
        return Color::white();
    }
    let n = image.pixels.len();
    proof {
        lemma_pixel_index(image.width as int, image.height as int, x as int, y as int);
        assert(y as int * image.width as int <= y as int * image.width as int + x as int);
        assert((y as int * image.width as int + x as int) < n as int);
    }
    let index: usize = y as usize * image.width as usize + x as usize;
    image.pixels[index]
}

/// The pixel at `(tx, ty)` clamped into `image`; white for an empty image.
fn clamped_color(image: &Image, tx: u128, ty: u128) -> (c: Color)
    ensures
        c == clamped_pixel(image@, tx as int, ty as int),
{
    if image.width == 0 || image.height == 0 {
        return Color::white();
    }
    let x: u128 = if tx < image.width as u128 - 1 {
        tx
    } else {
        image.width as u128 - 1
    };
    let y: u128 = if ty < image.height as u128 - 1 {
        ty
    } else {
        image.height as u128 - 1
    };
    get_pixel_color(image, x as i64, y as i64)
}

/// An image cut into a grid of equal animation frames.
pub struct SpriteSheet {
    pub image: Image,
    pub frame_width: u32,
    pub frame_height: u32,
    pub columns: u32,
    pub rows: u32,
}

impl SpriteSheet {
    /// A sheet of `columns` by `rows` frames, each frame the image's size divided
    /// by the grid.
    pub fn new(image: Image, columns: u32, rows: u32) -> (s: SpriteSheet)
        requires
            columns > 0,
            rows > 0,
        ensures
            s.image@ == image@,
            s.frame_width == image@.width as int / (columns as int),
            s.frame_height == image@.height as int / (rows as int),
            s.columns == columns,
            s.rows == rows,
    {
        let frame_width = image.width() / columns;
        let frame_height = image.height() / rows;
        SpriteSheet { image, frame_width, frame_height, columns, rows }
    }
}

/// The color of frame `(frame_x, frame_y)` of `sheet` at `(tx, ty)` within the
/// frame, each sheet coordinate clamped to the image.
pub open spec fn frame_pixel(
    sheet: &SpriteSheet,
    frame_x: int,
    frame_y: int,
    tx: int,
    ty: int,
) -> Color {
    clamped_pixel(
        sheet.image@,
        frame_x * sheet.frame_width + tx,
        frame_y * sheet.frame_height + ty,
    )
}

/// Images and sprite sheets by key character, each map keyed by the character's
/// code point.
pub struct TextureManager {
    images: HashMap<u32, Image>,
    sprite_sheets: HashMap<u32, SpriteSheet>,
}

impl TextureManager {
    /// The image bound to `key`, if any.
    pub closed spec fn image_for(&self, key: char) -> Option<ImageView> {
        if self.images@.contains_key(key as u32) {
            Some(self.images@[key as u32]@)
        } else {
            None
        }
    }

    /// The sprite sheet bound to `key`, if any.
    pub closed spec fn sheet_for(&self, key: char) -> Option<&SpriteSheet> {
        if self.sprite_sheets@.contains_key(key as u32) {
            Some(&self.sprite_sheets@[key as u32])
        } else {
            None
        }
    }

    /// A manager with no images and no sprite sheets.
    pub fn new() -> (m: TextureManager)
        ensures
            forall|k: char| m.image_for(k).is_none() && m.sheet_for(k).is_none(),
    {
        TextureManager { images: HashMap::new(), sprite_sheets: HashMap::new() }
    }

    /// Binds `image` to `key`, replacing any image bound to it before.
    pub fn insert_image(&mut self, key: char, image: Image)
        ensures
            final(self).image_for(key) == Some(image@),
            forall|k: char| k != key ==> final(self).image_for(k) == old(self).image_for(k),
            forall|k: char| final(self).sheet_for(k) == old(self).sheet_for(k),
    {
        broadcast use vstd::std_specs::hash::group_hash_axioms;

        let ghost v = image@;
        self.images.insert(key as u32, image);
        proof {
            assert forall|k: char| k != key implies #[trigger] self.image_for(k) == old(
                self,
            ).image_for(k) by {
                vstd::utf8::char_u32_cast(k, k as u32);
                vstd::utf8::char_u32_cast(key, key as u32);
                assert((k as u32) != (key as u32));
            }
        }
    }

    /// Binds `sheet` to `key`, replacing any sheet bound to it before.
    pub fn insert_sprite_sheet(&mut self, key: char, sheet: SpriteSheet)
        ensures
            final(self).sheet_for(key) == Some(&sheet),
            forall|k: char| k != key ==> final(self).sheet_for(k) == old(self).sheet_for(k),
            forall|k: char| final(self).image_for(k) == old(self).image_for(k),
    {
        broadcast use vstd::std_specs::hash::group_hash_axioms;

        let ghost sh = sheet;
        self.sprite_sheets.insert(key as u32, sheet);
        proof {
            assert forall|k: char| k != key implies #[trigger] self.sheet_for(k) == old(
                self,
            ).sheet_for(k) by {
                vstd::utf8::char_u32_cast(k, k as u32);
                vstd::utf8::char_u32_cast(key, key as u32);
                assert((k as u32) != (key as u32));
            }
        }
    }

    /// The color of the image bound to `ch` at `(tx, ty)`, clamped into the image;
    /// white when no image is bound or it is empty.
    pub open spec fn color_spec(&self, ch: char, tx: int, ty: int) -> Color {
        match self.image_for(ch) {
            Some(img) => clamped_pixel(img, tx, ty),
            None => Color::white_spec(),
        }
    }

    /// The color of frame `(frame_x, frame_y)` of the sheet bound to `ch` at
    /// `(tx, ty)`; without a sheet, the image bound to `ch` at `(tx, ty)`.
    pub open spec fn frame_color_spec(
        &self,
        ch: char,
        frame_x: int,
        frame_y: int,
        tx: int,
        ty: int,
    ) -> Color {
        match self.sheet_for(ch) {
            Some(sheet) => frame_pixel(sheet, frame_x, frame_y, tx, ty),
            None => self.color_spec(ch, tx, ty),
        }
    }

    pub fn get_pixel_color(&self, ch: char, tx: u32, ty: u32) -> (c: Color)
        ensures
            c == self.color_spec(ch, tx as int, ty as int),
    {
        broadcast use vstd::std_specs::hash::group_hash_axioms;

        match self.images.get(&(ch as u32)) {
            Some(img) => clamped_color(img, tx as u128, ty as u128),
            None => Color::white(),
        }
    }

    pub fn get_sprite_frame_color(
        &self,
        ch: char,
        frame_x: usize,
        frame_y: usize,
        tx: u32,
        ty: u32,
    ) -> (c: Color)
        ensures
            c == self.frame_color_spec(ch, frame_x as int, frame_y as int, tx as int, ty as int),
    {
        broadcast use vstd::std_specs::hash::group_hash_axioms;

        match self.sprite_sheets.get(&(ch as u32)) {
            Some(sheet) => {
                assert(frame_x * sheet.frame_width + tx <= 0xffff_ffff_ffff_ffff * 0xffff_ffff
                    + 0xffff_ffff) by (nonlinear_arith)
                    requires
                        frame_x <= 0xffff_ffff_ffff_ffff,
                        sheet.frame_width <= 0xffff_ffff,
                        tx <= 0xffff_ffff,
                ;
                assert(frame_y * sheet.frame_height + ty <= 0xffff_ffff_ffff_ffff * 0xffff_ffff
                    + 0xffff_ffff) by (nonlinear_arith)
                    requires
                        frame_y <= 0xffff_ffff_ffff_ffff,
                        sheet.frame_height <= 0xffff_ffff,
                        ty <= 0xffff_ffff,
                ;
                let px: u128 = frame_x as u128 * sheet.frame_width as u128 + tx as u128;
                let py: u128 = frame_y as u128 * sheet.frame_height as u128 + ty as u128;
                clamped_color(&sheet.image, px, py)
            },
            None => self.get_pixel_color(ch, tx, ty),
        }
    }

    pub fn has_sprite_sheet(&self, ch: char) -> (r: bool)
        ensures
            r == self.sheet_for(ch).is_some(),
    {
        broadcast use vstd::std_specs::hash::group_hash_axioms;

        self.sprite_sheets.contains_key(&(ch as u32))
    }

    /// The frame size of the sheet bound to `ch`, if any.
    pub fn get_sprite_frame_size(&self, ch: char) -> (r: Option<(u32, u32)>)
        ensures
            r == (match self.sheet_for(ch) {
                Some(sheet) => Some((sheet.frame_width, sheet.frame_height)),
                None => None,
            }),
    {
        broadcast use vstd::std_specs::hash::group_hash_axioms;

        match self.sprite_sheets.get(&(ch as u32)) {
            Some(sheet) => {
                Some((sheet.frame_width, sheet.frame_height))
            },
            None => None,
        }
    }
}

} // verus!
