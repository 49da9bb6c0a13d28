//! Fitting an image into the model's fixed input size without distortion,
//! and mapping model-space coordinates back onto the image.
//!
//! The image is scaled by the largest factor at which it still fits, centred,
//! and the rest of the input is padded with a neutral grey.

use vstd::prelude::*;
use vstd::arithmetic::div_mod::{lemma_basic_div, lemma_div_is_ordered, lemma_div_multiples_vanish_fancy, lemma_div_pos_is_pos, lemma_fundamental_div_mod, lemma_mod_bound};
use crate::geometry::{lemma_product_bound, BoundingBox};

verus! {

/// The level of all three channels of the padding colour.
pub const PAD_LEVEL: u8 = 114;

/// `n / d` rounded to the nearest integer, halves upward; `d` is positive.
pub open spec fn round_div(n: int, d: int) -> int {
    (2 * n + d) / (2 * d)
}

/// A side of the image after scaling by `num / den`, never less than one
/// pixel.
pub open spec fn scaled_side(side: int, num: int, den: int) -> int {
    let r = round_div(side * num, den);
    if r < 1 {
        1
    } else {
        r
    }
}

/// The width decides the scale: scaling the image to the full target width
/// keeps its height within the target.
pub open spec fn width_decides(sw: int, sh: int, tw: int, th: int) -> bool {
    tw * sh <= th * sw
}

/// Width of the scaled image inside a `tw` by `th` target.
pub open spec fn content_width_of(sw: int, sh: int, tw: int, th: int) -> int {
    if width_decides(sw, sh, tw, th) {
        tw
    } else {
        scaled_side(sw, th, sh)
    }
}

/// Height of the scaled image inside a `tw` by `th` target.
pub open spec fn content_height_of(sw: int, sh: int, tw: int, th: int) -> int {
    if width_decides(sw, sh, tw, th) {
        scaled_side(sh, tw, sw)
    } else {
        th
    }
}

/// The fit of an `sw` by `sh` image into a `tw` by `th` input: the scaled
/// image is centred, with the smaller share of an odd remainder before it.
pub open spec fn planned(sw: int, sh: int, tw: int, th: int) -> Letterbox {
    let cw = content_width_of(sw, sh, tw, th);
    let ch = content_height_of(sw, sh, tw, th);
    Letterbox {
        source_width: sw as u32,
        source_height: sh as u32,
        target_width: tw as u32,
        target_height: th as u32,
        content_width: cw as u32,
        content_height: ch as u32,
        pad_x: ((tw - cw) / 2) as u32,
        pad_y: ((th - ch) / 2) as u32,
    }
}

/// A model-space coordinate `v` mapped back to the image: the padding is
/// taken off, the scale undone, and the result kept within the image side.
pub open spec fn restored_coord(v: int, pad: int, content: int, source: int) -> int {
    let r = round_div((v - pad) * source, content);
    if r < 0 {
        0
    } else if r > source {
        source
    } else {
        r
    }
}

/// How an image was fitted into the model input: the scale, as the size of
/// the scaled image, and the padding offsets.
#[derive(Clone, Copy, Debug, PartialEq, Eq, Structural)]
pub struct Letterbox {
    /// Size of the image.
    pub source_width: u32,
    pub source_height: u32,
    /// Size of the model input.
    pub target_width: u32,
    pub target_height: u32,
    /// Size of the scaled image within the model input.
    pub content_width: u32,
    pub content_height: u32,
    /// Padding to the left of and above the scaled image.
    pub pad_x: u32,
    pub pad_y: u32,
}

impl Letterbox {
    /// The transform is the one planned for its source and target sizes.
    pub open spec fn wf(self) -> bool {
        &&& self.source_width > 0
        &&& self.source_height > 0
        &&& self.target_width > 0
        &&& self.target_height > 0
        &&& 1 <= self.content_width <= self.target_width
        &&& 1 <= self.content_height <= self.target_height
        &&& self.content_width == content_width_of(
            self.source_width as int,
            self.source_height as int,
            self.target_width as int,
            self.target_height as int,
        )
        &&& self.content_height == content_height_of(
            self.source_width as int,
            self.source_height as int,
            self.target_width as int,
            self.target_height as int,
        )
        &&& self.pad_x == (self.target_width - self.content_width) / 2
        &&& self.pad_y == (self.target_height - self.content_height) / 2
    }

    /// `(x, y)` of the model input lies on the scaled image, not on padding.
    pub open spec fn on_content(self, x: int, y: int) -> bool {
        &&& self.pad_x <= x < self.pad_x + self.content_width
        &&& self.pad_y <= y < self.pad_y + self.content_height
    }

    /// The box with model-space corners `(x_min, y_min)` and `(x_max, y_max)`,
    /// mapped back to the image.
    pub open spec fn restored_box(self, x_min: int, y_min: int, x_max: int, y_max: int) -> BoundingBox {
        BoundingBox {
            x_min: restored_coord(
                x_min,
                self.pad_x as int,
                self.content_width as int,
                self.source_width as int,
            ) as u32,
            y_min: restored_coord(
                y_min,
                self.pad_y as int,
                self.content_height as int,
                self.source_height as int,
            ) as u32,
            x_max: restored_coord(
                x_max,
                self.pad_x as int,
                self.content_width as int,
                self.source_width as int,
            ) as u32,
            y_max: restored_coord(
                y_max,
                self.pad_y as int,
                self.content_height as int,
                self.source_height as int,
            ) as u32,
        }
    }

    /// Plans the fit of a `source_width` by `source_height` image into a
    /// `target_width` by `target_height` input. `None` when a side is zero.
    pub fn plan(source_width: u32, source_height: u32, target_width: u32, target_height: u32) -> (planned:
        Option<Letterbox>)
        ensures
            planned is Some <==> (source_width > 0 && source_height > 0 && target_width > 0
                && target_height > 0),
            planned matches Some(lb) ==> lb.wf() && lb == self::planned(
                source_width as int,
                source_height as int,
                target_width as int,
                target_height as int,
            ),
    {
        if source_width == 0 || source_height == 0 || target_width == 0 || target_height == 0 {
            return None;
        }
        proof {
            lemma_product_bound(target_width as int, source_height as int, 0xFFFF_FFFF);
            lemma_product_bound(target_height as int, source_width as int, 0xFFFF_FFFF);
            lemma_content_fits(
                source_width as int,
                source_height as int,
                target_width as int,
                target_height as int,
            );
        }
        let by_width = (target_width as u64) * (source_height as u64) <= (target_height as u64) * (
        source_width as u64);
        let content_width: u32 = if by_width {
            target_width
        } else {
            scale_side(source_width, target_height, source_height)
        };
        let content_height: u32 = if by_width {
            scale_side(source_height, target_width, source_width)
        } else {
            target_height
        };
        Some(
            Letterbox {
                source_width,
                source_height,
                target_width,
                target_height,
                content_width,
                content_height,
                pad_x: (target_width - content_width) / 2,
                pad_y: (target_height - content_height) / 2,
            },
        )
    }

    /// Checks that the transform is the planned one.
    pub fn check(&self) -> (ok: bool)
        ensures
            ok == self.wf(),
    {
        match Letterbox::plan(
            self.source_width,
            self.source_height,
            self.target_width,
            self.target_height,
        ) {
            None => false,
            Some(lb) => lb.content_width == self.content_width && lb.content_height
                == self.content_height && lb.pad_x == self.pad_x && lb.pad_y == self.pad_y,
        }
    }

    /// Maps a model-space box back to the image. Corners outside the scaled
    /// image land on the image's border.
    pub fn restore_box(&self, x_min: i32, y_min: i32, x_max: i32, y_max: i32) -> (b: BoundingBox)
        requires
            self.wf(),
        ensures
            b == self.restored_box(x_min as int, y_min as int, x_max as int, y_max as int),
            b.within(self.source_width as int, self.source_height as int),
            x_min <= x_max && y_min <= y_max ==> b.is_valid(),
    {
        proof {
            if x_min <= x_max {
                lemma_restored_monotone(
                    x_min as int,
                    x_max as int,
                    self.pad_x as int,
                    self.content_width as int,
                    self.source_width as int,
                );
            }
            if y_min <= y_max {
                lemma_restored_monotone(
                    y_min as int,
                    y_max as int,
                    self.pad_y as int,
                    self.content_height as int,
                    self.source_height as int,
                );
            }
        }
        BoundingBox {
            x_min: restore_coord(x_min, self.pad_x, self.content_width, self.source_width),
            y_min: restore_coord(y_min, self.pad_y, self.content_height, self.source_height),
            x_max: restore_coord(x_max, self.pad_x, self.content_width, self.source_width),
            y_max: restore_coord(y_max, self.pad_y, self.content_height, self.source_height),
        }
    }
}

/// The scaled image has at least one pixel a side and fits the target.
pub proof fn lemma_content_fits(sw: int, sh: int, tw: int, th: int)
    requires
        sw > 0,
        sh > 0,
        tw > 0,
        th > 0,
    ensures
        1 <= content_width_of(sw, sh, tw, th) <= tw,
        1 <= content_height_of(sw, sh, tw, th) <= th,
{
    if width_decides(sw, sh, tw, th) {
        lemma_scaled_side_fits(sh, tw, sw, th);
    } else {
        lemma_scaled_side_fits(sw, th, sh, tw);
    }
}

/// Rounding moves a quotient by half a unit at most.
pub proof fn lemma_round_div_close(n: int, d: int)
    requires
        d > 0,
    ensures
        -d <= 2 * n - (2 * d) * round_div(n, d) < d,
{
    lemma_fundamental_div_mod(2 * n + d, 2 * d);
    lemma_mod_bound(2 * n + d, 2 * d);
}

/// The scaled image keeps the proportions of the image: the side that does
/// not fill the target is the exact scaled side to within half a pixel,
/// unless it had to be raised to one pixel.
pub proof fn lemma_aspect_kept(sw: int, sh: int, tw: int, th: int)
    requires
        sw > 0,
        sh > 0,
        tw > 0,
        th > 0,
    ensures
        width_decides(sw, sh, tw, th) ==> content_width_of(sw, sh, tw, th) == tw && (
        content_height_of(sw, sh, tw, th) == 1 || -sw <= 2 * (sh * tw) - (2 * sw)
            * content_height_of(sw, sh, tw, th) < sw),
        !width_decides(sw, sh, tw, th) ==> content_height_of(sw, sh, tw, th) == th && (
        content_width_of(sw, sh, tw, th) == 1 || -sh <= 2 * (sw * th) - (2 * sh)
            * content_width_of(sw, sh, tw, th) < sh),
{
    lemma_round_div_close(sh * tw, sw);
    lemma_round_div_close(sw * th, sh);
}

/// Where `side * num <= limit * den`, the scaled side is within `limit`.
proof fn lemma_scaled_side_fits(side: int, num: int, den: int, limit: int)
    requires
        den > 0,
        limit >= 1,
        side * num <= limit * den,
    ensures
        1 <= scaled_side(side, num, den) <= limit,
{
    let n = side * num;
    assert(2 * n + den <= (2 * den) * limit + den) by (nonlinear_arith)
        requires
            n <= limit * den,
    ;
    lemma_div_is_ordered(2 * n + den, (2 * den) * limit + den, 2 * den);
    lemma_div_multiples_vanish_fancy(limit, den, 2 * den);
}

/// Mapping back keeps the order of coordinates and stays within the image.
pub proof fn lemma_restored_monotone(v1: int, v2: int, pad: int, content: int, source: int)
    requires
        v1 <= v2,
        content > 0,
        source >= 0,
    ensures
        0 <= restored_coord(v1, pad, content, source) <= restored_coord(v2, pad, content, source)
            <= source,
{
    let n1 = (v1 - pad) * source;
    let n2 = (v2 - pad) * source;
    assert(n1 <= n2) by (nonlinear_arith)
        requires
            v1 <= v2,
            source >= 0,
            n1 == (v1 - pad) * source,
            n2 == (v2 - pad) * source,
    ;
    lemma_div_is_ordered(2 * n1 + content, 2 * n2 + content, 2 * content);
}

/// The frame of the scaled image maps back onto the frame of the image:
/// its first column to zero and the end of its last column to the image's
/// side, whatever the scale.
pub proof fn lemma_frame_restored(pad: int, content: int, source: int)
    requires
        content > 0,
        source >= 0,
    ensures
        restored_coord(pad, pad, content, source) == 0,
        restored_coord(pad + content, pad, content, source) == source,
{
    lemma_basic_div(content, 2 * content);
    assert((pad - pad) * source == 0);
    assert((pad + content - pad) * source == content * source);
    assert(2 * (content * source) + content == (2 * content) * source + content) by (nonlinear_arith);
    lemma_div_multiples_vanish_fancy(source, content, 2 * content);
}

/// `side * num / den` to the nearest pixel, at least one pixel.
fn scale_side(side: u32, num: u32, den: u32) -> (scaled: u32)
    requires
        den > 0,
        1 <= scaled_side(side as int, num as int, den as int) <= u32::MAX,
    ensures
        scaled == scaled_side(side as int, num as int, den as int),
{
    proof {
        lemma_product_bound(side as int, num as int, 0xFFFF_FFFF);
    }
    let n: u128 = (side as u128) * (num as u128);
    let q: u128 = (2 * n + den as u128) / (2 * (den as u128));
    if q < 1 {
        1
    } else {
        q as u32
    }
}

/// One coordinate mapped back from model space to the image.
fn restore_coord(v: i32, pad: u32, content: u32, source: u32) -> (r: u32)
    requires
        content > 0,
    ensures
        r == restored_coord(v as int, pad as int, content as int, source as int),
        r <= source,
{
    let offset: i64 = v as i64 - pad as i64;
    if offset <= 0 {
        proof {
            let n = (v as int - pad as int) * (source as int);
            assert(n <= 0) by (nonlinear_arith)
                requires
                    v as int - pad as int <= 0,
                    source >= 0,
                    n == (v as int - pad as int) * (source as int),
            ;
            lemma_div_is_ordered(2 * n + content as int, content as int, 2 * (content as int));
            lemma_basic_div(content as int, 2 * (content as int));
        }
        return 0;
    }
    proof {
        lemma_product_bound(offset as int, source as int, 0xFFFF_FFFF);
        let n = (offset as int) * (source as int);
        lemma_div_pos_is_pos(2 * n + content as int, 2 * (content as int));
    }
    let n: u128 = (offset as u128) * (source as u128);
    let q: u128 = (2 * n + content as u128) / (2 * (content as u128));
    if q > source as u128 {
        source
    } else {
        q as u32
    }
}

} // verus!
