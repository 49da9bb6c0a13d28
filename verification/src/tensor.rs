//! The model's input: one plane of levels for each colour channel.
//!
//! A level `v` stands for the fraction `v / 255`, so every value of the
//! tensor lies between zero and one.

use vstd::prelude::*;
use crate::raster::{lemma_offset, Raster, RasterView, Rgb};

verus! {

/// Number of planes: red, green, blue.
pub const TENSOR_CHANNELS: usize = 3;

/// The level that stands for the fraction one.
pub const LEVEL_ONE: u8 = 255;

/// The mathematical content of a tensor of shape (1, 3, height, width).
pub struct TensorView {
    pub width: int,
    pub height: int,
    /// The red plane, then the green, then the blue; each row by row.
    pub planes: Seq<u8>,
}

/// The level of `channel` (0 red, 1 green, otherwise blue) of a pixel.
pub open spec fn channel_of(p: Rgb, channel: int) -> u8 {
    if channel == 0 {
        p.r
    } else if channel == 1 {
        p.g
    } else {
        p.b
    }
}

/// The tensor that holds the image `r`.
pub open spec fn tensor_of(r: RasterView) -> TensorView {
    TensorView {
        width: r.width,
        height: r.height,
        planes: r.pixels.map_values(|p: Rgb| p.r) + r.pixels.map_values(|p: Rgb| p.g)
            + r.pixels.map_values(|p: Rgb| p.b),
    }
}

impl TensorView {
    /// Three planes of `width * height` levels.
    pub open spec fn wf(self) -> bool {
        &&& 0 < self.width
        &&& 0 < self.height
        &&& self.planes.len() == 3 * (self.width * self.height)
    }

    /// The level at row `y`, column `x` of plane `channel`.
    pub open spec fn value(self, channel: int, y: int, x: int) -> u8 {
        self.planes[channel * (self.width * self.height) + y * self.width + x]
    }
}

/// Every value of the tensor of an image is the level of one channel of the
/// pixel at the same position.
pub proof fn lemma_tensor_value(r: RasterView, channel: int, y: int, x: int)
    requires
        r.wf(),
        r.holds(x, y),
        0 <= channel < 3,
    ensures
        tensor_of(r).wf(),
        tensor_of(r).value(channel, y, x) == channel_of(r.pixel(x, y), channel),
{
    lemma_offset(r.width, r.height, x, y);
    let n = r.width * r.height;
    let at = y * r.width + x;
    let red = r.pixels.map_values(|p: Rgb| p.r);
    let green = r.pixels.map_values(|p: Rgb| p.g);
    let blue = r.pixels.map_values(|p: Rgb| p.b);
    let planes = red + green + blue;
    assert(planes.len() == 3 * n);
    if channel == 0 {
        assert(channel * n + at == at);
        assert(planes[at] == red[at]);
    } else if channel == 1 {
        assert(channel * n + at == n + at);
        assert(planes[n + at] == green[at]);
    } else {
        assert(channel * n + at == 2 * n + at);
        assert(planes[2 * n + at] == blue[at]);
    }
}

/// A tensor of levels in channel-major order.
#[derive(Debug, PartialEq, Eq)]
pub struct Tensor {
    width: u32,
    height: u32,
    planes: Vec<u8>,
}

impl View for Tensor {
    type V = TensorView;

    closed spec fn view(&self) -> TensorView {
        TensorView { width: self.width as int, height: self.height as int, planes: self.planes@ }
    }
}

impl Tensor {
    pub open spec fn wf(&self) -> bool {
        self@.wf()
    }

    /// The tensor that holds the image, channel by channel.
    pub fn from_raster(r: &Raster) -> (t: Tensor)
        requires
            r.wf(),
        ensures
            t.wf(),
            t@ == tensor_of(r@),
    {
        let pixels = r.pixels();
        let n = pixels.len();
        let mut planes: Vec<u8> = Vec::new();
        let mut i: usize = 0;
        while i < n
            invariant
                n == pixels.len(),
                i <= n,
                planes@ == pixels@.take(i as int).map_values(|p: Rgb| p.r),
            decreases n - i,
        {
            planes.push(pixels[i].r);
            assert(pixels@.take(i + 1).map_values(|p: Rgb| p.r) =~= pixels@.take(
                i as int,
            ).map_values(|p: Rgb| p.r).push(pixels@[i as int].r));
            i += 1;
        }
        assert(pixels@.take(n as int) =~= pixels@);
        let ghost red = planes@;
        i = 0;
        while i < n
            invariant
                n == pixels.len(),
                i <= n,
                planes@ == red + pixels@.take(i as int).map_values(|p: Rgb| p.g),
            decreases n - i,
        {
            planes.push(pixels[i].g);
            assert(red + pixels@.take(i + 1).map_values(|p: Rgb| p.g) =~= (red + pixels@.take(
                i as int,
            ).map_values(|p: Rgb| p.g)).push(pixels@[i as int].g));
            i += 1;
        }
        let ghost red_green = planes@;
        i = 0;
        while i < n
            invariant
                n == pixels.len(),
                i <= n,
                planes@ == red_green + pixels@.take(i as int).map_values(|p: Rgb| p.b),
            decreases n - i,
        {
            planes.push(pixels[i].b);
            assert(red_green + pixels@.take(i + 1).map_values(|p: Rgb| p.b) =~= (red_green
                + pixels@.take(i as int).map_values(|p: Rgb| p.b)).push(pixels@[i as int].b));
            i += 1;
        }
        Tensor { width: r.width(), height: r.height(), planes }
    }

    pub fn width(&self) -> (w: u32)
        ensures
            w == self@.width,
    {
        self.width
    }

    pub fn height(&self) -> (h: u32)
        ensures
            h == self@.height,
    {
        self.height
    }

    /// The levels: the red plane, then the green, then the blue.
    pub fn planes(&self) -> (planes: &Vec<u8>)
        ensures
            planes@ == self@.planes,
    {
        &self.planes
    }
}

} // verus!
