//! The rendered image: a grid of pixels with three 8-bit channels each.
//!
//! Pixels are addressed as the camera sees them, column `i` from the left and row `j`
//! from the bottom, and stored as they are written out: row by row from the top row
//! down, each row from left to right.

use vstd::prelude::*;
use crate::config::RenderConfig;
use crate::vector::Vector3;

verus! {

/// Bits of 255.999, the factor that takes a channel from `[0, 1]` to the range of a byte
/// before it is quantised.
pub const CHANNEL_SCALE_BITS: u32 = 0x437f_ffbe;

/// One pixel: red, green, blue.
#[derive(Clone, Copy, Debug, PartialEq, Eq, Structural)]
pub struct Pixel {
    pub r: u8,
    pub g: u8,
    pub b: u8,
}

impl Pixel {
    /// The pixel for a colour whose channels have been averaged over the samples,
    /// gamma-corrected and scaled to the range of a byte: each channel is cut to its
    /// whole part and held to `0..=255`.
    pub open spec fn spec_from_color(color: Vector3) -> Pixel {
        Pixel {
            r: color.x.channel() as u8,
            g: color.y.channel() as u8,
            b: color.z.channel() as u8,
        }
    }

    /// Quantises a scaled colour to a pixel.
    #[verifier::when_used_as_spec(spec_from_color)]
    pub fn from_color(color: Vector3) -> (p: Pixel)
        ensures
            p == Pixel::from_color(color),
            p.r == color.x.channel(),
            p.g == color.y.channel(),
            p.b == color.z.channel(),
    {
        Pixel { r: color.x.to_channel(), g: color.y.to_channel(), b: color.z.to_channel() }
    }
}

/// A grid of `width * height` pixels.
#[derive(Debug)]
pub struct Image {
    width: u32,
    height: u32,
    pixels: Vec<Pixel>,
}

impl View for Image {
    type V = Seq<Pixel>;

    /// The pixels in output order: top row first, each row from left to right.
    closed spec fn view(&self) -> Seq<Pixel> {
        self.pixels@
    }
}

impl Image {
    #[verifier::type_invariant]
    closed spec fn valid(self) -> bool {
        &&& self.width >= 1
        &&& self.height >= 1
        &&& self.pixels.len() == self.width * self.height
    }

    /// Number of columns.
    pub closed spec fn spec_width(&self) -> u32 {
        self.width
    }

    /// Number of rows.
    pub closed spec fn spec_height(&self) -> u32 {
        self.height
    }

    /// Place in output order of the pixel in column `i` from the left and row `j` from
    /// the bottom.
    pub open spec fn cell(&self, i: u32, j: u32) -> int {
        (self.height() - 1 - j) * self.width() + i
    }

    /// A black image of the configured size.
    pub fn new(config: &RenderConfig) -> (image: Image)
        ensures
            image.width() == config.width(),
            image.height() == config.height(),
            image@.len() == config.width() * config.height(),
            forall|k: int| 0 <= k < image@.len() ==> image@[k] == (Pixel { r: 0, g: 0, b: 0 }),
    {
        let count = config.pixel_count();
        let mut pixels: Vec<Pixel> = Vec::new();
        let mut k: usize = 0;
        while k < count
            invariant
                k <= count,
                pixels.len() == k,
                forall|n: int| 0 <= n < k ==> pixels[n] == (Pixel { r: 0, g: 0, b: 0 }),
            decreases count - k,
        {
            pixels.push(Pixel { r: 0, g: 0, b: 0 });
            k += 1;
        }
        Image { width: config.width(), height: config.height(), pixels }
    }

    #[verifier::when_used_as_spec(spec_width)]
    pub fn width(&self) -> (w: u32)
        ensures
            w == self.width(),
            w >= 1,
    {
        proof {
            use_type_invariant(self);
        }
        self.width
    }

    #[verifier::when_used_as_spec(spec_height)]
    pub fn height(&self) -> (h: u32)
        ensures
            h == self.height(),
            h >= 1,
    {
        proof {
            use_type_invariant(self);
        }
        self.height
    }

    /// Number of pixels.
    pub fn len(&self) -> (n: usize)
        ensures
            n == self@.len(),
            n == self.width() * self.height(),
    {
        proof {
            use_type_invariant(self);
        }
        self.pixels.len()
    }

    fn index(&self, i: u32, j: u32) -> (k: usize)
        requires
            i < self.width(),
            j < self.height(),
        ensures
            k == self.cell(i, j),
            k < self@.len(),
    {
        proof {
            use_type_invariant(self);
            lemma_cell_in_range(self.width as int, self.height as int, i as int, j as int);
        }
        let row: usize = (self.height - 1 - j) as usize;
        row * (self.width as usize) + (i as usize)
    }

    /// Whether column `i` and row `j` lie inside the image.
    pub open spec fn spec_contains(&self, i: u32, j: u32) -> bool {
        i < self.width() && j < self.height()
    }

    /// Whether column `i` and row `j` lie inside the image.
    #[verifier::when_used_as_spec(spec_contains)]
    pub fn contains(&self, i: u32, j: u32) -> (b: bool)
        ensures
            b == self.contains(i, j),
    {
        i < self.width && j < self.height
    }

    /// The pixel in column `i` from the left and row `j` from the bottom, or none if
    /// there is no such column or row.
    pub fn get(&self, i: u32, j: u32) -> (p: Option<Pixel>)
        ensures
            p is Some <==> self.contains(i, j),
            p matches Some(pixel) ==> 0 <= self.cell(i, j) < self@.len() && pixel == self@[self.cell(
                i,
                j,
            )],
    {
        if self.contains(i, j) {
            let k = self.index(i, j);
            Some(self.pixels[k])
        } else {
            None
        }
    }

    /// Sets the pixel in column `i` from the left and row `j` from the bottom and says
    /// whether there is such a pixel. No other pixel changes, and outside the image
    /// nothing does.
    pub fn set(&mut self, i: u32, j: u32, p: Pixel) -> (stored: bool)
        ensures
            stored == old(self).contains(i, j),
            final(self).width() == old(self).width(),
            final(self).height() == old(self).height(),
            stored ==> 0 <= old(self).cell(i, j) < old(self)@.len() && final(self)@ == old(
                self,
            )@.update(old(self).cell(i, j), p),
            !stored ==> final(self)@ == old(self)@,
    {
        if self.contains(i, j) {
            let k = self.index(i, j);
            proof {
                use_type_invariant(&*self);
            }
            self.pixels[k] = p;
            true
        } else {
            false
        }
    }

    /// The pixel at place `k` of the output order.
    pub(crate) fn at(&self, k: usize) -> (p: Pixel)
        requires
            k < self@.len(),
        ensures
            p == self@[k as int],
    {
        self.pixels[k]
    }

    /// The pixel at place `k` of the output order, or none if the image has `k` pixels
    /// or fewer.
    pub fn nth(&self, k: usize) -> (p: Option<Pixel>)
        ensures
            p is Some <==> k < self@.len(),
            p matches Some(pixel) ==> pixel == self@[k as int],
    {
        if k < self.pixels.len() {
            Some(self.at(k))
        } else {
            None
        }
    }

    /// Column from the left and row from the bottom of the pixel at place `k` of the
    /// output order.
    pub(crate) fn place(&self, k: usize) -> (at: (u32, u32))
        requires
            k < self@.len(),
        ensures
            self.contains(at.0, at.1),
            self.cell(at.0, at.1) == k,
    {
        proof {
            use_type_invariant(self);
            lemma_coordinates(self.width as int, self.height as int, k as int);
        }
        let w: usize = self.width as usize;
        let row: usize = k / w;
        let column: usize = k % w;
        (column as u32, (self.height as usize - 1 - row) as u32)
    }

    /// Column from the left and row from the bottom of the pixel at place `k` of the
    /// output order, or none if the image has `k` pixels or fewer.
    pub fn coordinates(&self, k: usize) -> (at: Option<(u32, u32)>)
        ensures
            at is Some <==> k < self@.len(),
            at matches Some((i, j)) ==> self.contains(i, j) && self.cell(i, j) == k,
    {
        if k < self.pixels.len() {
            Some(self.place(k))
        } else {
            None
        }
    }
}

/// The place of a pixel of the image lies inside the image.
pub proof fn lemma_cell_lies_inside(image: Image, i: u32, j: u32)
    requires
        image.contains(i, j),
        image@.len() == image.width() * image.height(),
    ensures
        0 <= image.cell(i, j) < image@.len(),
{
    lemma_cell_in_range(image.width() as int, image.height() as int, i as int, j as int);
}

/// Distinct pixels have distinct places: writing one pixel never touches another.
pub proof fn lemma_pixels_do_not_overlap(image: Image, i: u32, j: u32, i2: u32, j2: u32)
    requires
        image.contains(i, j),
        image.contains(i2, j2),
        image.cell(i, j) == image.cell(i2, j2),
    ensures
        i == i2,
        j == j2,
{
    lemma_cell_is_one_to_one(
        image.width() as int,
        image.height() as int,
        i as int,
        j as int,
        i2 as int,
        j2 as int,
    );
}

/// The place of a pixel inside the grid lies inside the grid.
proof fn lemma_cell_in_range(w: int, h: int, i: int, j: int)
    requires
        0 <= i < w,
        0 <= j < h,
    ensures
        0 <= (h - 1 - j) * w + i < w * h,
        0 <= (h - 1 - j) * w,
        (h - 1 - j) * w <= (h - 1) * w,
{
    assert(0 <= (h - 1 - j) * w <= (h - 1) * w) by (nonlinear_arith)
        requires
            0 <= h - 1 - j <= h - 1,
            0 < w,
    ;
    assert((h - 1) * w + w == w * h) by (nonlinear_arith);
}

/// Two pixels at the same place are the same pixel.
proof fn lemma_cell_is_one_to_one(w: int, h: int, i: int, j: int, i2: int, j2: int)
    requires
        0 <= i < w,
        0 <= j < h,
        0 <= i2 < w,
        0 <= j2 < h,
        (h - 1 - j) * w + i == (h - 1 - j2) * w + i2,
    ensures
        i == i2,
        j == j2,
{
    assert(j == j2) by (nonlinear_arith)
        requires
            0 <= i < w,
            0 <= i2 < w,
            (h - 1 - j) * w + i == (h - 1 - j2) * w + i2,
    ;
    assert(i == i2) by (nonlinear_arith)
        requires
            j == j2,
            (h - 1 - j) * w + i == (h - 1 - j2) * w + i2,
    ;
}

/// Every place of the output order is the place of one column and row.
proof fn lemma_coordinates(w: int, h: int, k: int)
    requires
        0 < w,
        0 < h,
        0 <= k < w * h,
    ensures
        0 <= k % w < w,
        0 <= k / w < h,
        (h - 1 - (h - 1 - k / w)) * w + k % w == k,
{
    vstd::arithmetic::div_mod::lemma_fundamental_div_mod(k, w);
    vstd::arithmetic::div_mod::lemma_div_pos_is_pos(k, w);
    assert(k / w < h) by (nonlinear_arith)
        requires
            0 < w,
            0 <= k < w * h,
            k == w * (k / w) + k % w,
            0 <= k % w < w,
    ;
    assert((k / w) * w == w * (k / w)) by (nonlinear_arith);
}

} // verus!
