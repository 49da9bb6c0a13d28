//! Axis-aligned boxes in pixel coordinates and their overlap.

use vstd::prelude::*;

verus! {

/// The fixed-point representation of the fraction one: fractions are counted
/// in millionths.
pub const SCORE_ONE: u32 = 1_000_000;

/// An axis-aligned rectangle given by two corners, in pixels.
#[derive(Clone, Copy, Debug, PartialEq, Eq, Structural)]
pub struct BoundingBox {
    pub x_min: u32,
    pub y_min: u32,
    pub x_max: u32,
    pub y_max: u32,
}

/// Length of the span from `lo` to `hi`, empty when the ends are reversed.
pub open spec fn span(lo: int, hi: int) -> int {
    if hi > lo {
        hi - lo
    } else {
        0
    }
}

/// Length of the part that the spans `[lo_a, hi_a]` and `[lo_b, hi_b]` share.
pub open spec fn shared_span(lo_a: int, hi_a: int, lo_b: int, hi_b: int) -> int {
    span(
        if lo_a >= lo_b {
            lo_a
        } else {
            lo_b
        },
        if hi_a <= hi_b {
            hi_a
        } else {
            hi_b
        },
    )
}

/// Area of the region that both boxes cover.
pub open spec fn intersection_area(a: BoundingBox, b: BoundingBox) -> int {
    shared_span(a.x_min as int, a.x_max as int, b.x_min as int, b.x_max as int) * shared_span(
        a.y_min as int,
        a.y_max as int,
        b.y_min as int,
        b.y_max as int,
    )
}

/// Area of the region that at least one of the boxes covers.
pub open spec fn union_area(a: BoundingBox, b: BoundingBox) -> int {
    a.spec_area() + b.spec_area() - intersection_area(a, b)
}

/// Whether the intersection-over-union of the two boxes is strictly above
/// `threshold` millionths. Two boxes without area share nothing and exceed
/// no threshold.
pub open spec fn iou_exceeds(a: BoundingBox, b: BoundingBox, threshold: int) -> bool {
    intersection_area(a, b) * (SCORE_ONE as int) > threshold * union_area(a, b)
}

impl BoundingBox {
    /// The corners are in order on both axes.
    pub open spec fn is_valid(self) -> bool {
        self.x_min <= self.x_max && self.y_min <= self.y_max
    }

    /// The box lies within an image of the given size.
    pub open spec fn within(self, width: int, height: int) -> bool {
        self.x_max <= width && self.y_max <= height
    }

    pub open spec fn spec_width(self) -> int {
        span(self.x_min as int, self.x_max as int)
    }

    pub open spec fn spec_height(self) -> int {
        span(self.y_min as int, self.y_max as int)
    }

    pub open spec fn spec_area(self) -> int {
        self.spec_width() * self.spec_height()
    }

    pub fn new(x_min: u32, y_min: u32, x_max: u32, y_max: u32) -> (b: BoundingBox)
        ensures
            b == (BoundingBox { x_min, y_min, x_max, y_max }),
    {
        BoundingBox { x_min, y_min, x_max, y_max }
    }

    pub fn check_valid(&self) -> (ok: bool)
        ensures
            ok == self.is_valid(),
    {
        self.x_min <= self.x_max && self.y_min <= self.y_max
    }

    pub fn width(&self) -> (w: u32)
        ensures
            w == self.spec_width(),
    {
        if self.x_max > self.x_min {
            self.x_max - self.x_min
        } else {
            0
        }
    }

    pub fn height(&self) -> (h: u32)
        ensures
            h == self.spec_height(),
    {
        if self.y_max > self.y_min {
            self.y_max - self.y_min
        } else {
            0
        }
    }

    pub fn area(&self) -> (a: u64)
        ensures
            a == self.spec_area(),
    {
        let w: u64 = self.width() as u64;
        let h: u64 = self.height() as u64;
        proof {
            lemma_product_bound(w as int, h as int, 0xFFFF_FFFF);
        }
        w * h
    }
}

/// A product of two naturals, both at most `m`, is at most `m * m`.
pub proof fn lemma_product_bound(x: int, y: int, m: int)
    by (nonlinear_arith)
    requires
        0 <= x <= m,
        0 <= y <= m,
    ensures
        0 <= x * y <= m * m,
{
}

fn shared_span_exec(lo_a: u32, hi_a: u32, lo_b: u32, hi_b: u32) -> (len: u32)
    ensures
        len == shared_span(lo_a as int, hi_a as int, lo_b as int, hi_b as int),
{
    let lo: u32 = if lo_a >= lo_b {
        lo_a
    } else {
        lo_b
    };
    let hi: u32 = if hi_a <= hi_b {
        hi_a
    } else {
        hi_b
    };
    if hi > lo {
        hi - lo
    } else {
        0
    }
}

/// Area shared by two boxes.
pub fn intersection(a: &BoundingBox, b: &BoundingBox) -> (area: u64)
    ensures
        area == intersection_area(*a, *b),
{
    let w: u64 = shared_span_exec(a.x_min, a.x_max, b.x_min, b.x_max) as u64;
    let h: u64 = shared_span_exec(a.y_min, a.y_max, b.y_min, b.y_max) as u64;
    proof {
        lemma_product_bound(w as int, h as int, 0xFFFF_FFFF);
    }
    w * h
}

/// Decides whether the intersection-over-union of `a` and `b` is strictly
/// above `threshold` millionths, without rounding.
pub fn overlap_exceeds(a: &BoundingBox, b: &BoundingBox, threshold: i32) -> (above: bool)
    ensures
        above == iou_exceeds(*a, *b, threshold as int),
{
    let inter: i128 = intersection(a, b) as i128;
    let area_a: i128 = a.area() as i128;
    let area_b: i128 = b.area() as i128;
    let union: i128 = area_a + area_b - inter;
    let t: i128 = threshold as i128;
    proof {
        lemma_scaled_bound(inter as int, 1_000_000, 0x1_0000_0000_0000_0000, 0x1_0000_0000);
        lemma_scaled_bound(union as int, t as int, 0x2_0000_0000_0000_0000, 0x1_0000_0000);
    }
    inter * 1_000_000 > t * union
}

/// A product stays within the product of the bounds on its factors.
pub proof fn lemma_scaled_bound(x: int, y: int, bx: int, by: int)
    by (nonlinear_arith)
    requires
        -bx <= x <= bx,
        -by <= y <= by,
    ensures
        -(bx * by) <= x * y <= bx * by,
        -(bx * by) <= y * x <= bx * by,
{
}

/// The shared part of two spans is no longer than either span.
pub proof fn lemma_shared_span_bounds(lo_a: int, hi_a: int, lo_b: int, hi_b: int)
    ensures
        0 <= shared_span(lo_a, hi_a, lo_b, hi_b) <= span(lo_a, hi_a),
        shared_span(lo_a, hi_a, lo_b, hi_b) <= span(lo_b, hi_b),
        shared_span(lo_a, hi_a, lo_b, hi_b) == shared_span(lo_b, hi_b, lo_a, hi_a),
{
}

/// Overlap does not depend on the order of the two boxes.
pub proof fn lemma_iou_symmetric(a: BoundingBox, b: BoundingBox, threshold: int)
    ensures
        intersection_area(a, b) == intersection_area(b, a),
        union_area(a, b) == union_area(b, a),
        iou_exceeds(a, b, threshold) == iou_exceeds(b, a, threshold),
{
    lemma_shared_span_bounds(a.x_min as int, a.x_max as int, b.x_min as int, b.x_max as int);
    lemma_shared_span_bounds(a.y_min as int, a.y_max as int, b.y_min as int, b.y_max as int);
}

/// The intersection is contained in both boxes, so the ratio of
/// intersection to union lies between zero and one.
pub proof fn lemma_intersection_within_union(a: BoundingBox, b: BoundingBox)
    ensures
        0 <= intersection_area(a, b) <= a.spec_area(),
        intersection_area(a, b) <= b.spec_area(),
        intersection_area(a, b) <= union_area(a, b),
{
    lemma_shared_span_bounds(a.x_min as int, a.x_max as int, b.x_min as int, b.x_max as int);
    lemma_shared_span_bounds(a.y_min as int, a.y_max as int, b.y_min as int, b.y_max as int);
    let sx = shared_span(a.x_min as int, a.x_max as int, b.x_min as int, b.x_max as int);
    let sy = shared_span(a.y_min as int, a.y_max as int, b.y_min as int, b.y_max as int);
    lemma_product_monotone(sx, sy, a.spec_width(), a.spec_height());
    lemma_product_monotone(sx, sy, b.spec_width(), b.spec_height());
}

/// Products of naturals grow with their factors.
pub proof fn lemma_product_monotone(x: int, y: int, bx: int, by: int)
    by (nonlinear_arith)
    requires
        0 <= x <= bx,
        0 <= y <= by,
    ensures
        0 <= x * y <= bx * by,
{
}

/// No pair of boxes overlaps by more than the whole: at a threshold of one
/// or more nothing is exceeded.
pub proof fn lemma_iou_at_most_one(a: BoundingBox, b: BoundingBox, threshold: int)
    requires
        threshold >= SCORE_ONE,
    ensures
        !iou_exceeds(a, b, threshold),
{
    lemma_intersection_within_union(a, b);
    let i = intersection_area(a, b);
    let u = union_area(a, b);
    assert(i * (SCORE_ONE as int) <= threshold * u) by (nonlinear_arith)
        requires
            0 <= i <= u,
            threshold >= SCORE_ONE,
            SCORE_ONE == 1_000_000,
    ;
}

} // verus!
