//! An in-memory image: rows of red-green-blue pixels, eight bits a channel.

use vstd::prelude::*;
use vstd::arithmetic::div_mod::{lemma_fundamental_div_mod, lemma_fundamental_div_mod_converse, lemma_mod_bound};

verus! {

/// One pixel.
#[derive(Clone, Copy, Debug, PartialEq, Eq, Structural)]
pub struct Rgb {
    pub r: u8,
    pub g: u8,
    pub b: u8,
}

/// The mathematical content of a raster: its size and its pixels, row by row.
pub struct RasterView {
    pub width: int,
    pub height: int,
    pub pixels: Seq<Rgb>,
}

impl RasterView {
    /// Both sides are positive and there is one pixel for every position.
    pub open spec fn wf(self) -> bool {
        &&& 0 < self.width
        &&& 0 < self.height
        &&& self.pixels.len() == self.width * self.height
    }

    /// `(x, y)` is a position of the raster.
    pub open spec fn holds(self, x: int, y: int) -> bool {
        0 <= x < self.width && 0 <= y < self.height
    }

    /// The pixel in column `x` of row `y`.
    pub open spec fn pixel(self, x: int, y: int) -> Rgb {
        self.pixels[y * self.width + x]
    }

    /// The raster with the pixel at `(x, y)` replaced.
    pub open spec fn with_pixel(self, x: int, y: int, color: Rgb) -> RasterView {
        RasterView {
            width: self.width,
            height: self.height,
            pixels: self.pixels.update(y * self.width + x, color),
        }
    }

    /// The raster of the given size whose pixel at `(x, y)` is `paint(x, y)`.
    pub open spec fn from_fn(width: int, height: int, paint: spec_fn(int, int) -> Rgb) -> RasterView {
        RasterView {
            width,
            height,
            pixels: Seq::new((width * height) as nat, |i: int| paint(i % width, i / width)),
        }
    }

    /// The channels of all pixels in turn: red, green, blue of the first
    /// pixel, then of the second, and so on.
    pub open spec fn samples(self) -> Seq<u8> {
        Seq::new(
            (self.pixels.len() * 3) as nat,
            |i: int|
                if i % 3 == 0 {
                    self.pixels[i / 3].r
                } else if i % 3 == 1 {
                    self.pixels[i / 3].g
                } else {
                    self.pixels[i / 3].b
                },
        )
    }
}

/// The pixels that a sequence of interleaved channels holds.
pub open spec fn pixels_of_samples(samples: Seq<u8>) -> Seq<Rgb> {
    Seq::new(
        samples.len() / 3,
        |i: int| Rgb { r: samples[3 * i], g: samples[3 * i + 1], b: samples[3 * i + 2] },
    )
}

/// Laying the pixels out as samples and reading them back gives the same
/// pixels.
pub proof fn lemma_samples_round_trip(v: RasterView)
    ensures
        pixels_of_samples(v.samples()) == v.pixels,
{
    let samples = v.samples();
    let back = pixels_of_samples(samples);
    assert(samples.len() == 3 * v.pixels.len());
    assert(back.len() == v.pixels.len());
    assert forall|i: int| 0 <= i < back.len() implies back[i] == v.pixels[i] by {
        assert((3 * i) / 3 == i && (3 * i) % 3 == 0);
        assert((3 * i + 1) / 3 == i && (3 * i + 1) % 3 == 1);
        assert((3 * i + 2) / 3 == i && (3 * i + 2) % 3 == 2);
    }
    assert(back =~= v.pixels);
}

/// Positions of a raster map to distinct places in its row-major sequence.
pub proof fn lemma_offset(width: int, height: int, x: int, y: int)
    requires
        0 <= x < width,
        0 <= y < height,
    ensures
        0 <= y * width + x < width * height,
        (y * width + x) % width == x,
        (y * width + x) / width == y,
{
    assert(y * width + x < width * height) by (nonlinear_arith)
        requires
            0 <= x < width,
            0 <= y < height,
    ;
    assert(0 <= y * width) by (nonlinear_arith)
        requires
            0 <= y,
            0 < width,
    ;
    lemma_fundamental_div_mod_converse(y * width + x, width, y, x);
}

/// A place in the row-major sequence is the offset of one position.
pub proof fn lemma_position(width: int, height: int, i: int)
    requires
        0 < width,
        0 <= i < width * height,
    ensures
        0 <= i % width < width,
        0 <= i / width < height,
        (i / width) * width + i % width == i,
{
    lemma_mod_bound(i, width);
    lemma_fundamental_div_mod(i, width);
    let q = i / width;
    let r = i % width;
    assert(width * q == q * width) by (nonlinear_arith);
    assert(0 <= q < height) by (nonlinear_arith)
        requires
            0 < width,
            0 <= r < width,
            0 <= q * width + r < width * height,
    ;
}

/// Replacing one pixel changes that pixel and no other.
pub proof fn lemma_with_pixel(v: RasterView, x: int, y: int, color: Rgb, x2: int, y2: int)
    requires
        v.wf(),
        v.holds(x, y),
        v.holds(x2, y2),
    ensures
        v.with_pixel(x, y, color).wf(),
        v.with_pixel(x, y, color).pixel(x2, y2) == (if x2 == x && y2 == y {
            color
        } else {
            v.pixel(x2, y2)
        }),
{
    lemma_offset(v.width, v.height, x, y);
    lemma_offset(v.width, v.height, x2, y2);
}

/// A raster built from a painting function shows that function.
pub proof fn lemma_from_fn_pixel(
    width: int,
    height: int,
    paint: spec_fn(int, int) -> Rgb,
    x: int,
    y: int,
)
    requires
        0 <= x < width,
        0 <= y < height,
    ensures
        RasterView::from_fn(width, height, paint).pixel(x, y) == paint(x, y),
{
    lemma_offset(width, height, x, y);
}

/// Two rasters of one size that agree at every position are the same.
pub proof fn lemma_raster_ext(a: RasterView, b: RasterView)
    requires
        a.wf(),
        b.wf(),
        a.width == b.width,
        a.height == b.height,
        forall|x: int, y: int| a.holds(x, y) ==> a.pixel(x, y) == b.pixel(x, y),
    ensures
        a == b,
{
    assert forall|i: int| 0 <= i < a.pixels.len() implies a.pixels[i] == b.pixels[i] by {
        lemma_position(a.width, a.height, i);
        let x = i % a.width;
        let y = i / a.width;
        assert(a.holds(x, y));
        assert(a.pixel(x, y) == b.pixel(x, y));
    }
    assert(a.pixels =~= b.pixels);
}

/// A raster is the raster painted by its own pixels.
pub proof fn lemma_painted(v: RasterView, paint: spec_fn(int, int) -> Rgb)
    requires
        v.wf(),
        forall|x: int, y: int| v.holds(x, y) ==> v.pixel(x, y) == paint(x, y),
    ensures
        v == RasterView::from_fn(v.width, v.height, paint),
{
    let w = RasterView::from_fn(v.width, v.height, paint);
    assert forall|x: int, y: int| v.holds(x, y) implies v.pixel(x, y) == w.pixel(x, y) by {
        lemma_from_fn_pixel(v.width, v.height, paint, x, y);
    }
    assert(0 <= v.width * v.height) by (nonlinear_arith)
        requires
            0 < v.width,
            0 < v.height,
    ;
    lemma_raster_ext(v, w);
}

/// An image held in memory.
#[derive(Debug, PartialEq, Eq)]
pub struct Raster {
    width: u32,
    height: u32,
    pixels: Vec<Rgb>,
}

impl View for Raster {
    type V = RasterView;

    closed spec fn view(&self) -> RasterView {
        RasterView {
            width: self.width as int,
            height: self.height as int,
            pixels: self.pixels@,
        }
    }
}

impl Raster {
    /// The raster's invariant: positive sides, one pixel per position.
    pub open spec fn wf(&self) -> bool {
        &&& self@.wf()
        &&& self@.width <= u32::MAX
        &&& self@.height <= u32::MAX
        &&& self@.pixels.len() <= usize::MAX
    }

    /// A raster of one colour. `None` when a side is zero or the pixels
    /// would outnumber what memory can address.
    pub fn filled(width: u32, height: u32, color: Rgb) -> (made: Option<Raster>)
        ensures
            made is Some <==> (width > 0 && height > 0 && width * height <= usize::MAX),
            made matches Some(r) ==> r.wf() && r@ == RasterView::from_fn(
                width as int,
                height as int,
                |x: int, y: int| color,
            ),
    {
        if width == 0 || height == 0 {
            return None;
        }
        proof {
            crate::geometry::lemma_product_bound(width as int, height as int, 0xFFFF_FFFF);
        }
        let total: u64 = (width as u64) * (height as u64);
        if total > usize::MAX as u64 {
            return None;
        }
        let count: usize = total as usize;
        let mut pixels: Vec<Rgb> = Vec::new();
        let mut i: usize = 0;
        while i < count
            invariant
                i <= count,
                pixels.len() == i,
                forall|j: int| 0 <= j < i ==> pixels[j] == color,
            decreases count - i,
        {
            pixels.push(color);
            i += 1;
        }
        let r = Raster { width, height, pixels };
        proof {
            let paint = |x: int, y: int| color;
            assert(r@.pixels =~= RasterView::from_fn(width as int, height as int, paint).pixels);
        }
        Some(r)
    }

    /// A raster from interleaved red, green and blue samples, row by row.
    /// `None` when a side is zero or the samples are not three for every
    /// position.
    pub fn from_samples(width: u32, height: u32, samples: &Vec<u8>) -> (made: Option<Raster>)
        ensures
            made is Some <==> (width > 0 && height > 0 && samples.len() == width * height * 3),
            made matches Some(r) ==> r.wf() && r@.width == width && r@.height == height
                && r@.pixels == pixels_of_samples(samples@) && r@.samples() == samples@,
    {
        if width == 0 || height == 0 {
            return None;
        }
        proof {
            crate::geometry::lemma_product_bound(width as int, height as int, 0xFFFF_FFFF);
        }
        let expected: u128 = (width as u128) * (height as u128) * 3;
        if samples.len() as u128 != expected {
            return None;
        }
        let count: usize = samples.len() / 3;
        let mut pixels: Vec<Rgb> = Vec::new();
        let mut i: usize = 0;
        while i < count
            invariant
                i <= count,
                count * 3 == samples.len(),
                pixels.len() == i,
                forall|j: int|
                    0 <= j < i ==> pixels[j] == (Rgb {
                        r: samples[3 * j],
                        g: samples[3 * j + 1],
                        b: samples[3 * j + 2],
                    }),
            decreases count - i,
        {
            let p = Rgb { r: samples[3 * i], g: samples[3 * i + 1], b: samples[3 * i + 2] };
            pixels.push(p);
            i += 1;
        }
        let r = Raster { width, height, pixels };
        proof {
            assert(r@.pixels =~= pixels_of_samples(samples@));
            assert(r@.samples() =~= samples@);
        }
        Some(r)
    }

    /// A raster from its pixels, row by row. `None` when a side is zero or
    /// the pixels are not one for every position.
    pub fn from_pixels(width: u32, height: u32, pixels: Vec<Rgb>) -> (made: Option<Raster>)
        ensures
            made is Some <==> (width > 0 && height > 0 && pixels.len() == width * height),
            made matches Some(r) ==> r.wf() && r@ == (RasterView {
                width: width as int,
                height: height as int,
                pixels: pixels@,
            }),
    {
        if width == 0 || height == 0 {
            return None;
        }
        proof {
            crate::geometry::lemma_product_bound(width as int, height as int, 0xFFFF_FFFF);
        }
        let expected: u64 = (width as u64) * (height as u64);
        if pixels.len() as u64 != expected {
            return None;
        }
        Some(Raster { width, height, pixels })
    }

    /// The interleaved red, green and blue samples, row by row.
    pub fn to_samples(&self) -> (samples: Vec<u8>)
        requires
            self.wf(),
        ensures
            samples@ == self@.samples(),
            samples.len() == self@.width * self@.height * 3,
    {
        let mut samples: Vec<u8> = Vec::new();
        let mut i: usize = 0;
        while i < self.pixels.len()
            invariant
                i <= self.pixels.len(),
                samples.len() == 3 * i,
                forall|j: int|
                    0 <= j < i ==> samples[3 * j] == self.pixels[j].r && samples[3 * j + 1]
                        == self.pixels[j].g && samples[3 * j + 2] == self.pixels[j].b,
            decreases self.pixels.len() - i,
        {
            let p = self.pixels[i];
            samples.push(p.r);
            samples.push(p.g);
            samples.push(p.b);
            i += 1;
        }
        proof {
            let want = self@.samples();
            assert forall|k: int| 0 <= k < want.len() implies samples@[k] == want[k] by {
                let j = k / 3;
                assert(0 <= j < self.pixels.len());
                assert(k == 3 * j + k % 3);
            }
            assert(samples@ =~= want);
            assert(self@.width * self@.height * 3 == 3 * self.pixels.len()) by (nonlinear_arith)
                requires
                    self.pixels.len() == self@.width * self@.height,
            ;
        }
        samples
    }

    /// The pixels, row by row.
    pub fn pixels(&self) -> (pixels: &Vec<Rgb>)
        ensures
            pixels@ == self@.pixels,
    {
        &self.pixels
    }

    pub fn width(&self) -> (w: u32)
        ensures
            w == self@.width,
    {
        self.width
    }

    pub fn height(&self) -> (h: u32)
        ensures
            h == self@.height,
    {
        self.height
    }

    /// The pixel at `(x, y)`.
    pub fn pixel(&self, x: u32, y: u32) -> (p: Rgb)
        requires
            self.wf(),
            self@.holds(x as int, y as int),
        ensures
            p == self@.pixel(x as int, y as int),
    {
        proof {
            lemma_offset(self@.width, self@.height, x as int, y as int);
        }
        self.pixels[(y as usize) * (self.width as usize) + (x as usize)]
    }

    /// The pixel at `(x, y)`, or `None` outside the raster.
    pub fn get_pixel(&self, x: u32, y: u32) -> (p: Option<Rgb>)
        requires
            self.wf(),
        ensures
            p == (if self@.holds(x as int, y as int) {
                Some(self@.pixel(x as int, y as int))
            } else {
                None
            }),
    {
        if x < self.width && y < self.height {
            Some(self.pixel(x, y))
        } else {
            None
        }
    }

    /// Replaces the pixel at `(x, y)`.
    pub fn set_pixel(&mut self, x: u32, y: u32, color: Rgb)
        requires
            old(self).wf(),
            old(self)@.holds(x as int, y as int),
        ensures
            final(self).wf(),
            final(self)@ == old(self)@.with_pixel(x as int, y as int, color),
    {
        proof {
            lemma_offset(self@.width, self@.height, x as int, y as int);
        }
        let at: usize = (y as usize) * (self.width as usize) + (x as usize);
        self.pixels.set(at, color);
    }

    /// A copy of the raster.
    pub fn duplicate(&self) -> (copy: Raster)
        requires
            self.wf(),
        ensures
            copy.wf(),
            copy@ == self@,
    {
        let mut pixels: Vec<Rgb> = Vec::new();
        let mut i: usize = 0;
        while i < self.pixels.len()
            invariant
                i <= self.pixels.len(),
                pixels@ == self.pixels@.take(i as int),
            decreases self.pixels.len() - i,
        {
            pixels.push(self.pixels[i]);
            assert(self.pixels@.take(i as int).push(self.pixels@[i as int]) =~= self.pixels@.take(
                i + 1,
            ));
            i += 1;
        }
        assert(self.pixels@.take(self.pixels.len() as int) =~= self.pixels@);
        Raster { width: self.width, height: self.height, pixels }
    }
}

} // verus!
