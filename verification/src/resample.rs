//! Bilinear scaling of an image into its letterbox.
//!
//! Every pixel of the scaled image is sampled at its centre. The sample
//! position is held exactly, as a count of half pixel widths of the scaled
//! image, and the four neighbouring source pixels are blended by it.

use vstd::prelude::*;
use vstd::arithmetic::div_mod::{lemma_div_is_ordered, lemma_div_multiples_vanish_fancy, lemma_div_pos_is_pos, lemma_mod_bound};
use crate::geometry::lemma_product_bound;
use crate::letterbox::{round_div, Letterbox, PAD_LEVEL};
use crate::raster::{lemma_offset, lemma_position, Raster, RasterView, Rgb};

verus! {

/// Where the centre of pixel `d` of a `content` pixels long scaled side
/// falls on a `source` pixels long side, counted from the centre of the
/// first source pixel in units of `1 / (2 * content)` pixel and kept between
/// the centres of the first and the last source pixel.
pub open spec fn axis_position(d: int, content: int, source: int) -> int {
    let raw = (2 * d + 1) * source - content;
    let last = (source - 1) * (2 * content);
    if raw < 0 {
        0
    } else if raw > last {
        last
    } else {
        raw
    }
}

/// The source pixel at or before the sample position.
pub open spec fn axis_low(d: int, content: int, source: int) -> int {
    axis_position(d, content, source) / (2 * content)
}

/// The source pixel after the sample position, or the last one.
pub open spec fn axis_high(d: int, content: int, source: int) -> int {
    let low = axis_low(d, content, source);
    if low + 1 < source {
        low + 1
    } else {
        low
    }
}

/// The weight of the pixel after the sample position, out of `2 * content`.
pub open spec fn axis_weight(d: int, content: int, source: int) -> int {
    axis_position(d, content, source) % (2 * content)
}

/// `a` and `b` mixed with weight `weight` out of `unit` for `b`; the result
/// is scaled by `unit`.
pub open spec fn blend(a: int, b: int, weight: int, unit: int) -> int {
    a * (unit - weight) + b * weight
}

/// One channel blended from four neighbours: `p00` and `p10` in the upper
/// row, `p01` and `p11` in the lower, to the nearest level.
pub open spec fn bilinear(
    p00: int,
    p10: int,
    p01: int,
    p11: int,
    wx: int,
    ux: int,
    wy: int,
    uy: int,
) -> int {
    round_div(blend(blend(p00, p10, wx, ux), blend(p01, p11, wx, ux), wy, uy), ux * uy)
}

/// The pixel at `(dx, dy)` of `src` scaled to `cw` by `ch` pixels.
pub open spec fn resampled_pixel(src: RasterView, cw: int, ch: int, dx: int, dy: int) -> Rgb {
    let x0 = axis_low(dx, cw, src.width);
    let x1 = axis_high(dx, cw, src.width);
    let wx = axis_weight(dx, cw, src.width);
    let y0 = axis_low(dy, ch, src.height);
    let y1 = axis_high(dy, ch, src.height);
    let wy = axis_weight(dy, ch, src.height);
    let p00 = src.pixel(x0, y0);
    let p10 = src.pixel(x1, y0);
    let p01 = src.pixel(x0, y1);
    let p11 = src.pixel(x1, y1);
    Rgb {
        r: bilinear(p00.r as int, p10.r as int, p01.r as int, p11.r as int, wx, 2 * cw, wy, 2 * ch) as u8,
        g: bilinear(p00.g as int, p10.g as int, p01.g as int, p11.g as int, wx, 2 * cw, wy, 2 * ch) as u8,
        b: bilinear(p00.b as int, p10.b as int, p01.b as int, p11.b as int, wx, 2 * cw, wy, 2 * ch) as u8,
    }
}

/// The padding colour.
pub open spec fn pad_color() -> Rgb {
    Rgb { r: PAD_LEVEL, g: PAD_LEVEL, b: PAD_LEVEL }
}

/// The pixel at `(x, y)` of the model input: the scaled image where it lies,
/// padding elsewhere.
pub open spec fn letterboxed_pixel(src: RasterView, lb: Letterbox, x: int, y: int) -> Rgb {
    if lb.on_content(x, y) {
        resampled_pixel(
            src,
            lb.content_width as int,
            lb.content_height as int,
            x - lb.pad_x,
            y - lb.pad_y,
        )
    } else {
        pad_color()
    }
}

/// The model input made from `src` by the letterbox `lb`.
pub open spec fn letterboxed(src: RasterView, lb: Letterbox) -> RasterView {
    RasterView::from_fn(
        lb.target_width as int,
        lb.target_height as int,
        |x: int, y: int| letterboxed_pixel(src, lb, x, y),
    )
}

/// A blend of two levels up to `m` lies between zero and `m * unit`.
pub proof fn lemma_blend_bound(a: int, b: int, weight: int, unit: int, m: int)
    by (nonlinear_arith)
    requires
        0 <= a <= m,
        0 <= b <= m,
        0 <= weight <= unit,
    ensures
        0 <= blend(a, b, weight, unit) <= m * unit,
{
}

/// Blending levels of eight bits gives a level of eight bits.
pub proof fn lemma_bilinear_is_level(
    p00: int,
    p10: int,
    p01: int,
    p11: int,
    wx: int,
    ux: int,
    wy: int,
    uy: int,
)
    requires
        0 <= p00 <= 255,
        0 <= p10 <= 255,
        0 <= p01 <= 255,
        0 <= p11 <= 255,
        0 <= wx <= ux,
        0 <= wy <= uy,
        ux > 0,
        uy > 0,
    ensures
        0 <= bilinear(p00, p10, p01, p11, wx, ux, wy, uy) <= 255,
        0 <= blend(p00, p10, wx, ux) <= 255 * ux,
        0 <= blend(p01, p11, wx, ux) <= 255 * ux,
        0 <= blend(blend(p00, p10, wx, ux), blend(p01, p11, wx, ux), wy, uy) <= 255 * ux * uy,
        ux * uy > 0,
{
    lemma_blend_bound(p00, p10, wx, ux, 255);
    lemma_blend_bound(p01, p11, wx, ux, 255);
    let top = blend(p00, p10, wx, ux);
    let bottom = blend(p01, p11, wx, ux);
    lemma_blend_bound(top, bottom, wy, uy, 255 * ux);
    let total = blend(top, bottom, wy, uy);
    let d = ux * uy;
    assert(d > 0) by (nonlinear_arith)
        requires
            ux > 0,
            uy > 0,
            d == ux * uy,
    ;
    assert((255 * ux) * uy == 255 * d) by (nonlinear_arith)
        requires
            d == ux * uy,
    ;
    assert(255 * ux * uy == (255 * ux) * uy);
    lemma_div_pos_is_pos(2 * total + d, 2 * d);
    lemma_div_is_ordered(2 * total + d, (2 * d) * 255 + d, 2 * d);
    lemma_div_multiples_vanish_fancy(255, d, 2 * d);
}

/// The sample position names pixels of the source side.
pub proof fn lemma_axis_in_range(d: int, content: int, source: int)
    requires
        0 <= d < content,
        source > 0,
    ensures
        0 <= axis_position(d, content, source) <= (source - 1) * (2 * content),
        0 <= axis_low(d, content, source) <= axis_high(d, content, source) < source,
        0 <= axis_weight(d, content, source) < 2 * content,
{
    let pos = axis_position(d, content, source);
    let unit = 2 * content;
    let last = (source - 1) * unit;
    assert(0 <= last) by (nonlinear_arith)
        requires
            source >= 1,
            unit > 0,
            last == (source - 1) * unit,
    ;
    lemma_mod_bound(pos, unit);
    lemma_div_pos_is_pos(pos, unit);
    lemma_div_is_ordered(pos, last, unit);
    assert(last == unit * (source - 1) + 0) by (nonlinear_arith)
        requires
            last == (source - 1) * unit,
    ;
    lemma_div_multiples_vanish_fancy(source - 1, 0, unit);
}

/// The two source pixels around a sample position and the weight of the
/// second.
struct AxisSample {
    low: u32,
    high: u32,
    weight: u64,
}

fn axis_sample(d: u32, content: u32, source: u32) -> (s: AxisSample)
    requires
        d < content,
        source > 0,
    ensures
        s.low == axis_low(d as int, content as int, source as int),
        s.high == axis_high(d as int, content as int, source as int),
        s.weight == axis_weight(d as int, content as int, source as int),
        s.low < source,
        s.high < source,
        s.weight < 2 * content,
{
    proof {
        lemma_axis_in_range(d as int, content as int, source as int);
        lemma_product_bound(2 * d as int + 1, source as int, 0x1_FFFF_FFFF);
        lemma_product_bound(source as int - 1, 2 * content as int, 0x1_FFFF_FFFF);
    }
    let unit: u128 = 2 * (content as u128);
    let reach: u128 = (2 * (d as u128) + 1) * (source as u128);
    let last: u128 = ((source - 1) as u128) * unit;
    let pos: u128 = if reach < content as u128 {
        0
    } else if reach - content as u128 > last {
        last
    } else {
        reach - content as u128
    };
    let low: u32 = (pos / unit) as u32;
    let weight: u64 = (pos % unit) as u64;
    let high: u32 = if low < source - 1 {
        low + 1
    } else {
        low
    };
    AxisSample { low, high, weight }
}

fn blend_channel(p00: u8, p10: u8, p01: u8, p11: u8, wx: u64, ux: u64, wy: u64, uy: u64) -> (level: u8)
    requires
        wx <= ux,
        wy <= uy,
        0 < ux <= 0x2_0000_0000,
        0 < uy <= 0x2_0000_0000,
    ensures
        level == bilinear(
            p00 as int,
            p10 as int,
            p01 as int,
            p11 as int,
            wx as int,
            ux as int,
            wy as int,
            uy as int,
        ),
{
    proof {
        lemma_bilinear_is_level(
            p00 as int,
            p10 as int,
            p01 as int,
            p11 as int,
            wx as int,
            ux as int,
            wy as int,
            uy as int,
        );
        lemma_product_bound(ux as int, uy as int, 0x2_0000_0000);
        lemma_product_bound(p00 as int, ux as int - wx as int, 0x2_0000_0000);
        lemma_product_bound(p10 as int, wx as int, 0x2_0000_0000);
        lemma_product_bound(p01 as int, ux as int - wx as int, 0x2_0000_0000);
        lemma_product_bound(p11 as int, wx as int, 0x2_0000_0000);
        assert(255 * (ux as int) * (uy as int) <= 255 * 0x4_0000_0000_0000_0000) by (nonlinear_arith)
            requires
                0 <= (ux as int) * (uy as int) <= 0x2_0000_0000 * 0x2_0000_0000,
        ;
    }
    let top: u128 = (p00 as u128) * ((ux - wx) as u128) + (p10 as u128) * (wx as u128);
    let bottom: u128 = (p01 as u128) * ((ux - wx) as u128) + (p11 as u128) * (wx as u128);
    proof {
        lemma_product_bound(top as int, uy as int - wy as int, 0x200_0000_0000);
        lemma_product_bound(bottom as int, wy as int, 0x200_0000_0000);
    }
    let total: u128 = top * ((uy - wy) as u128) + bottom * (wy as u128);
    let d: u128 = (ux as u128) * (uy as u128);
    ((2 * total + d) / (2 * d)) as u8
}

fn resample_pixel(src: &Raster, cw: u32, ch: u32, dx: u32, dy: u32) -> (p: Rgb)
    requires
        src.wf(),
        dx < cw,
        dy < ch,
    ensures
        p == resampled_pixel(src@, cw as int, ch as int, dx as int, dy as int),
{
    let sx = axis_sample(dx, cw, src.width());
    let sy = axis_sample(dy, ch, src.height());
    let p00 = src.pixel(sx.low, sy.low);
    let p10 = src.pixel(sx.high, sy.low);
    let p01 = src.pixel(sx.low, sy.high);
    let p11 = src.pixel(sx.high, sy.high);
    let ux: u64 = 2 * (cw as u64);
    let uy: u64 = 2 * (ch as u64);
    Rgb {
        r: blend_channel(p00.r, p10.r, p01.r, p11.r, sx.weight, ux, sy.weight, uy),
        g: blend_channel(p00.g, p10.g, p01.g, p11.g, sx.weight, ux, sy.weight, uy),
        b: blend_channel(p00.b, p10.b, p01.b, p11.b, sx.weight, ux, sy.weight, uy),
    }
}

/// Scales `src` into its letterbox: the model input of `lb`'s target size,
/// with the scaled image centred on padding. `None` when the input would
/// hold more pixels than memory can address.
pub fn letterbox_image(src: &Raster, lb: &Letterbox) -> (made: Option<Raster>)
    requires
        src.wf(),
        lb.wf(),
        lb.source_width == src@.width,
        lb.source_height == src@.height,
    ensures
        made is Some <==> lb.target_width * lb.target_height <= usize::MAX,
        made matches Some(out) ==> out.wf() && out@ == letterboxed(src@, *lb),
{
    let tw = lb.target_width;
    let th = lb.target_height;
    proof {
        lemma_product_bound(tw as int, th as int, 0xFFFF_FFFF);
    }
    let total: u64 = (tw as u64) * (th as u64);
    if total > usize::MAX as u64 {
        return None;
    }
    let count: usize = total as usize;
    let mut pixels: Vec<Rgb> = Vec::new();
    let mut i: usize = 0;
    while i < count
        invariant
            src.wf(),
            lb.wf(),
            lb.source_width == src@.width,
            lb.source_height == src@.height,
            tw == lb.target_width,
            th == lb.target_height,
            count == tw * th,
            i <= count,
            pixels.len() == i,
            forall|j: int|
                0 <= j < i ==> #[trigger] pixels[j] == letterboxed_pixel(
                    src@,
                    *lb,
                    j % (tw as int),
                    j / (tw as int),
                ),
        decreases count - i,
    {
        proof {
            lemma_position(tw as int, th as int, i as int);
        }
        let x: u32 = (i % (tw as usize)) as u32;
        let y: u32 = (i / (tw as usize)) as u32;
        let inside = lb.pad_x <= x && x - lb.pad_x < lb.content_width && lb.pad_y <= y && y
            - lb.pad_y < lb.content_height;
        let p = if inside {
            resample_pixel(src, lb.content_width, lb.content_height, x - lb.pad_x, y - lb.pad_y)
        } else {
            Rgb { r: PAD_LEVEL, g: PAD_LEVEL, b: PAD_LEVEL }
        };
        pixels.push(p);
        i += 1;
    }
    let made = Raster::from_pixels(tw, th, pixels);
    proof {
        let out = made->Some_0;
        assert(out@.pixels =~= letterboxed(src@, *lb).pixels);
    }
    made
}

} // verus!
