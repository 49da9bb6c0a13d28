//! Drawing detections onto an image: the outline of each box and a label
//! with the class name and the confidence in percent.
//!
//! Labels are set in a fixed font of five by seven dots. A label is anchored
//! at the top-left corner of its box and moved left or up as far as needed
//! to lie on the canvas.

use vstd::prelude::*;
use crate::detection::Detection;
use crate::error::PipelineError;
use crate::geometry::BoundingBox;
use crate::raster::{lemma_painted, lemma_with_pixel, Raster, RasterView, Rgb};

verus! {

/// Columns of a glyph.
pub const GLYPH_WIDTH: u32 = 5;

/// Rows of a glyph.
pub const GLYPH_HEIGHT: u32 = 7;

/// Columns that a character takes in a label: its glyph and one of spacing.
pub const CELL_WIDTH: u32 = 6;

/// Rows of a label: the glyph rows and a margin above and below.
pub const LABEL_HEIGHT: u32 = 9;

/// The columns of a character that the font does not have: a full block.
pub const MISSING_GLYPH: u8 = 0x7F;

/// The font: five columns for each character from the space to the tilde,
/// the top row in the lowest bit.
pub const GLYPHS: [u8; 475] = [
    0x00, 0x00, 0x00, 0x00, 0x00,
    0x00, 0x00, 0x5F, 0x00, 0x00,
    0x00, 0x07, 0x00, 0x07, 0x00,
    0x14, 0x7F, 0x14, 0x7F, 0x14,
    0x24, 0x2A, 0x7F, 0x2A, 0x12,
    0x23, 0x13, 0x08, 0x64, 0x62,
    0x36, 0x49, 0x55, 0x22, 0x50,
    0x00, 0x05, 0x03, 0x00, 0x00,
    0x00, 0x1C, 0x22, 0x41, 0x00,
    0x00, 0x41, 0x22, 0x1C, 0x00,
    0x08, 0x2A, 0x1C, 0x2A, 0x08,
    0x08, 0x08, 0x3E, 0x08, 0x08,
    0x00, 0x50, 0x30, 0x00, 0x00,
    0x08, 0x08, 0x08, 0x08, 0x08,
    0x00, 0x60, 0x60, 0x00, 0x00,
    0x20, 0x10, 0x08, 0x04, 0x02,
    0x3E, 0x51, 0x49, 0x45, 0x3E,
    0x00, 0x42, 0x7F, 0x40, 0x00,
    0x42, 0x61, 0x51, 0x49, 0x46,
    0x21, 0x41, 0x45, 0x4B, 0x31,
    0x18, 0x14, 0x12, 0x7F, 0x10,
    0x27, 0x45, 0x45, 0x45, 0x39,
    0x3C, 0x4A, 0x49, 0x49, 0x30,
    0x01, 0x71, 0x09, 0x05, 0x03,
    0x36, 0x49, 0x49, 0x49, 0x36,
    0x06, 0x49, 0x49, 0x29, 0x1E,
    0x00, 0x36, 0x36, 0x00, 0x00,
    0x00, 0x56, 0x36, 0x00, 0x00,
    0x00, 0x08, 0x14, 0x22, 0x41,
    0x14, 0x14, 0x14, 0x14, 0x14,
    0x41, 0x22, 0x14, 0x08, 0x00,
    0x02, 0x01, 0x51, 0x09, 0x06,
    0x32, 0x49, 0x79, 0x41, 0x3E,
    0x7E, 0x11, 0x11, 0x11, 0x7E,
    0x7F, 0x49, 0x49, 0x49, 0x36,
    0x3E, 0x41, 0x41, 0x41, 0x22,
    0x7F, 0x41, 0x41, 0x22, 0x1C,
    0x7F, 0x49, 0x49, 0x49, 0x41,
    0x7F, 0x09, 0x09, 0x01, 0x01,
    0x3E, 0x41, 0x41, 0x51, 0x32,
    0x7F, 0x08, 0x08, 0x08, 0x7F,
    0x00, 0x41, 0x7F, 0x41, 0x00,
    0x20, 0x40, 0x41, 0x3F, 0x01,
    0x7F, 0x08, 0x14, 0x22, 0x41,
    0x7F, 0x40, 0x40, 0x40, 0x40,
    0x7F, 0x02, 0x04, 0x02, 0x7F,
    0x7F, 0x04, 0x08, 0x10, 0x7F,
    0x3E, 0x41, 0x41, 0x41, 0x3E,
    0x7F, 0x09, 0x09, 0x09, 0x06,
    0x3E, 0x41, 0x51, 0x21, 0x5E,
    0x7F, 0x09, 0x19, 0x29, 0x46,
    0x46, 0x49, 0x49, 0x49, 0x31,
    0x01, 0x01, 0x7F, 0x01, 0x01,
    0x3F, 0x40, 0x40, 0x40, 0x3F,
    0x1F, 0x20, 0x40, 0x20, 0x1F,
    0x7F, 0x20, 0x18, 0x20, 0x7F,
    0x63, 0x14, 0x08, 0x14, 0x63,
    0x03, 0x04, 0x78, 0x04, 0x03,
    0x61, 0x51, 0x49, 0x45, 0x43,
    0x00, 0x00, 0x7F, 0x41, 0x41,
    0x02, 0x04, 0x08, 0x10, 0x20,
    0x41, 0x41, 0x7F, 0x00, 0x00,
    0x04, 0x02, 0x01, 0x02, 0x04,
    0x40, 0x40, 0x40, 0x40, 0x40,
    0x00, 0x01, 0x02, 0x04, 0x00,
    0x20, 0x54, 0x54, 0x54, 0x78,
    0x7F, 0x48, 0x44, 0x44, 0x38,
    0x38, 0x44, 0x44, 0x44, 0x20,
    0x38, 0x44, 0x44, 0x48, 0x7F,
    0x38, 0x54, 0x54, 0x54, 0x18,
    0x08, 0x7E, 0x09, 0x01, 0x02,
    0x08, 0x14, 0x54, 0x54, 0x3C,
    0x7F, 0x08, 0x04, 0x04, 0x78,
    0x00, 0x44, 0x7D, 0x40, 0x00,
    0x20, 0x40, 0x44, 0x3D, 0x00,
    0x00, 0x7F, 0x10, 0x28, 0x44,
    0x00, 0x41, 0x7F, 0x40, 0x00,
    0x7C, 0x04, 0x18, 0x04, 0x78,
    0x7C, 0x08, 0x04, 0x04, 0x78,
    0x38, 0x44, 0x44, 0x44, 0x38,
    0x7C, 0x14, 0x14, 0x14, 0x08,
    0x08, 0x14, 0x14, 0x18, 0x7C,
    0x7C, 0x08, 0x04, 0x04, 0x08,
    0x48, 0x54, 0x54, 0x54, 0x20,
    0x04, 0x3F, 0x44, 0x40, 0x20,
    0x3C, 0x40, 0x40, 0x20, 0x7C,
    0x1C, 0x20, 0x40, 0x20, 0x1C,
    0x3C, 0x40, 0x30, 0x40, 0x3C,
    0x44, 0x28, 0x10, 0x28, 0x44,
    0x0C, 0x50, 0x50, 0x50, 0x3C,
    0x44, 0x64, 0x54, 0x4C, 0x44,
    0x00, 0x08, 0x36, 0x41, 0x00,
    0x00, 0x00, 0x7F, 0x00, 0x00,
    0x00, 0x41, 0x36, 0x08, 0x00,
    0x02, 0x01, 0x02, 0x04, 0x02,
];

/// Column `col` of the glyph of `c`.
pub open spec fn glyph_column(c: char, col: int) -> u8 {
    if 32 <= c as int <= 126 {
        GLYPHS[(c as int - 32) * 5 + col]
    } else {
        MISSING_GLYPH
    }
}

/// Whether the glyph of `c` has a dot in column `col` of row `row`.
pub open spec fn glyph_bit(c: char, col: int, row: int) -> bool {
    (glyph_column(c, col) >> (row as u8)) & 1 == 1
}

/// The character of a decimal digit.
pub open spec fn digit_char(d: int) -> char {
    (48 + d) as char
}

/// `n` in decimal digits, without leading zeros.
pub open spec fn decimal(n: nat) -> Seq<char>
    decreases n,
{
    if n < 10 {
        seq![digit_char(n as int)]
    } else {
        decimal(n / 10).push(digit_char((n % 10) as int))
    }
}

/// A confidence in millionths as a whole percentage, to the nearest, halves
/// upward.
pub open spec fn percent_of(confidence: int) -> int {
    (confidence + 5_000) / 10_000
}

/// The text of a label: the class name, a space, the confidence in percent
/// and a percent sign.
pub open spec fn label_text(name: Seq<char>, confidence: int) -> Seq<char> {
    name + seq![' '] + decimal(percent_of(confidence) as nat) + seq!['%']
}

/// The colour in which a class is drawn.
pub open spec fn class_color(class_id: usize) -> Rgb {
    let k = class_id % 6;
    if k == 0 {
        Rgb { r: 220, g: 0, b: 0 }
    } else if k == 1 {
        Rgb { r: 0, g: 140, b: 0 }
    } else if k == 2 {
        Rgb { r: 0, g: 0, b: 220 }
    } else if k == 3 {
        Rgb { r: 200, g: 100, b: 0 }
    } else if k == 4 {
        Rgb { r: 150, g: 0, b: 150 }
    } else {
        Rgb { r: 0, g: 120, b: 120 }
    }
}

/// The colour of the dots of a label.
pub open spec fn ink_color() -> Rgb {
    Rgb { r: 255, g: 255, b: 255 }
}

/// The last column (or row) of the canvas that a box reaching to `max`
/// touches.
pub open spec fn last_on_canvas(max: int, side: int) -> int {
    if max < side {
        max
    } else {
        side - 1
    }
}

/// `(x, y)` lies on the outline of the box, as far as the box is on the
/// canvas.
pub open spec fn on_outline(b: BoundingBox, width: int, height: int, x: int, y: int) -> bool {
    let right = last_on_canvas(b.x_max as int, width);
    let bottom = last_on_canvas(b.y_max as int, height);
    &&& b.x_min <= x <= right
    &&& b.y_min <= y <= bottom
    &&& (x == b.x_min || x == right || y == b.y_min || y == bottom)
}

/// Columns of the label of a text.
pub open spec fn label_width(text: Seq<char>) -> int {
    6 * (text.len() as int) + 1
}

/// Where something `extent` long that would start at `at` is put on a side
/// of length `side`: at `at` where it fits, else as far back as needed, and
/// at the start where it is longer than the side.
pub open spec fn anchor(at: int, extent: int, side: int) -> int {
    if at + extent <= side {
        at
    } else if extent <= side {
        side - extent
    } else {
        0
    }
}

/// `(x, y)` lies on the label whose top-left corner is `(ax, ay)`.
pub open spec fn in_label(text: Seq<char>, ax: int, ay: int, x: int, y: int) -> bool {
    ax <= x < ax + label_width(text) && ay <= y < ay + 9
}

/// `(x, y)` is a dot of the text of the label whose top-left corner is
/// `(ax, ay)`.
pub open spec fn label_ink(text: Seq<char>, ax: int, ay: int, x: int, y: int) -> bool {
    let col = x - ax - 1;
    let row = y - ay - 1;
    &&& 0 <= row < 7
    &&& 0 <= col < 6 * text.len()
    &&& col % 6 < 5
    &&& glyph_bit(text[col / 6], col % 6, row)
}

/// The pixel at `(x, y)` of a `width` by `height` canvas once the detection
/// `d` with the label `text` is drawn over the pixel `p`.
pub open spec fn marked(
    p: Rgb,
    d: Detection,
    text: Seq<char>,
    width: int,
    height: int,
    x: int,
    y: int,
) -> Rgb {
    let ax = anchor(d.bbox.x_min as int, label_width(text), width);
    let ay = anchor(d.bbox.y_min as int, 9, height);
    if label_ink(text, ax, ay, x, y) {
        ink_color()
    } else if in_label(text, ax, ay, x, y) || on_outline(d.bbox, width, height, x, y) {
        class_color(d.class_id)
    } else {
        p
    }
}

pub open spec fn marking(img: RasterView, d: Detection, text: Seq<char>) -> spec_fn(int, int) -> Rgb {
    |x: int, y: int| marked(img.pixel(x, y), d, text, img.width, img.height, x, y)
}

/// The image with one detection drawn on it.
pub open spec fn annotated(img: RasterView, d: Detection, text: Seq<char>) -> RasterView {
    RasterView::from_fn(img.width, img.height, marking(img, d, text))
}

/// Every detection names a class of the label table.
pub open spec fn classes_known(detections: Seq<Detection>, label_count: int) -> bool {
    forall|i: int| 0 <= i < detections.len() ==> (#[trigger] detections[i]).class_id < label_count
}

/// The image with the detections drawn on it in their order, later ones over
/// earlier ones.
pub open spec fn rendered(img: RasterView, detections: Seq<Detection>, labels: Seq<String>) -> RasterView
    decreases detections.len(),
{
    if detections.len() == 0 {
        img
    } else {
        let d = detections.last();
        annotated(
            rendered(img, detections.drop_last(), labels),
            d,
            label_text(labels[d.class_id as int]@, d.confidence as int),
        )
    }
}

/// Drawing changes no sizes.
pub proof fn lemma_rendered_size(img: RasterView, detections: Seq<Detection>, labels: Seq<String>)
    ensures
        rendered(img, detections, labels).width == img.width,
        rendered(img, detections, labels).height == img.height,
    decreases detections.len(),
{
    if detections.len() > 0 {
        lemma_rendered_size(img, detections.drop_last(), labels);
    }
}

/// Drawing a detection leaves every pixel that is neither on its label nor
/// on the outline of its box.
pub proof fn lemma_untouched_elsewhere(
    p: Rgb,
    d: Detection,
    text: Seq<char>,
    width: int,
    height: int,
    x: int,
    y: int,
)
    requires
        !in_label(
            text,
            anchor(d.bbox.x_min as int, label_width(text), width),
            anchor(d.bbox.y_min as int, 9, height),
            x,
            y,
        ),
        !on_outline(d.bbox, width, height, x, y),
    ensures
        marked(p, d, text, width, height, x, y) == p,
{
}

/// A label that is no larger than the canvas lies on the canvas as a whole,
/// its dots included.
pub proof fn lemma_label_on_canvas(
    text: Seq<char>,
    x_min: int,
    y_min: int,
    width: int,
    height: int,
    x: int,
    y: int,
)
    requires
        0 <= x_min,
        0 <= y_min,
        label_width(text) <= width,
        9 <= height,
        in_label(
            text,
            anchor(x_min, label_width(text), width),
            anchor(y_min, 9, height),
            x,
            y,
        ) || label_ink(
            text,
            anchor(x_min, label_width(text), width),
            anchor(y_min, 9, height),
            x,
            y,
        ),
    ensures
        0 <= x < width,
        0 <= y < height,
{
}

fn glyph_bit_exec(c: char, col: u32, row: u8) -> (dot: bool)
    requires
        col < 5,
        row < 7,
    ensures
        dot == glyph_bit(c, col as int, row as int),
{
    let code: u32 = c as u32;
    let column: u8 = if 32 <= code && code <= 126 {
        GLYPHS[((code - 32) * 5 + col) as usize]
    } else {
        MISSING_GLYPH
    };
    (column >> row) & 1 == 1
}

fn class_color_exec(class_id: usize) -> (color: Rgb)
    ensures
        color == class_color(class_id),
{
    let k = class_id % 6;
    if k == 0 {
        Rgb { r: 220, g: 0, b: 0 }
    } else if k == 1 {
        Rgb { r: 0, g: 140, b: 0 }
    } else if k == 2 {
        Rgb { r: 0, g: 0, b: 220 }
    } else if k == 3 {
        Rgb { r: 200, g: 100, b: 0 }
    } else if k == 4 {
        Rgb { r: 150, g: 0, b: 150 }
    } else {
        Rgb { r: 0, g: 120, b: 120 }
    }
}

fn push_decimal(n: u32, out: &mut Vec<char>)
    ensures
        final(out)@ == old(out)@ + decimal(n as nat),
    decreases n,
{
    if n >= 10 {
        push_decimal(n / 10, out);
    }
    let ghost before = out@;
    out.push((48u8 + (n % 10) as u8) as char);
    proof {
        if n >= 10 {
            assert(before.push(digit_char((n % 10) as int)) =~= old(out)@ + decimal(
                (n / 10) as nat,
            ).push(digit_char((n % 10) as int)));
        } else {
            assert(before.push(digit_char(n as int)) =~= old(out)@ + seq![digit_char(n as int)]);
        }
    }
}

/// The text of the label for a class name and a confidence in millionths.
pub fn label_for(name: &String, confidence: u32) -> (text: Vec<char>)
    ensures
        text@ == label_text(name@, confidence as int),
{
    let letters = name.as_str();
    let n = letters.unicode_len();
    let mut text: Vec<char> = Vec::new();
    let mut i: usize = 0;
    while i < n
        invariant
            n == letters@.len(),
            i <= n,
            text@ == letters@.take(i as int),
        decreases n - i,
    {
        text.push(letters.get_char(i));
        assert(letters@.take(i as int).push(letters@[i as int]) =~= letters@.take(i + 1));
        i += 1;
    }
    assert(letters@.take(n as int) =~= letters@);
    text.push(' ');
    let percent: u32 = ((confidence as u64 + 5_000) / 10_000) as u32;
    push_decimal(percent, &mut text);
    text.push('%');
    assert(text@ =~= label_text(name@, confidence as int));
    text
}

/// The numbers that drawing one detection needs, worked out once.
struct Layout {
    width: u32,
    height: u32,
    label_x: u32,
    label_y: u32,
    right: u32,
    bottom: u32,
    color: Rgb,
}

spec fn layout_matches(l: Layout, d: Detection, text: Seq<char>, width: int, height: int) -> bool {
    &&& width > 0
    &&& height > 0
    &&& l.width == width
    &&& l.height == height
    &&& l.label_x == anchor(d.bbox.x_min as int, label_width(text), width)
    &&& l.label_y == anchor(d.bbox.y_min as int, 9, height)
    &&& l.right == last_on_canvas(d.bbox.x_max as int, width)
    &&& l.bottom == last_on_canvas(d.bbox.y_max as int, height)
    &&& l.color == class_color(d.class_id)
}

fn anchor_exec(at: u32, extent: u128, side: u32) -> (a: u32)
    requires
        side > 0,
    ensures
        a == anchor(at as int, extent as int, side as int),
        a <= at,
{
    if extent > side as u128 {
        0
    } else if at as u128 + extent <= side as u128 {
        at
    } else {
        side - extent as u32
    }
}

fn layout(d: &Detection, text: &Vec<char>, width: u32, height: u32) -> (l: Layout)
    requires
        width > 0,
        height > 0,
    ensures
        layout_matches(l, *d, text@, width as int, height as int),
{
    let label_w: u128 = 6 * (text.len() as u128) + 1;
    Layout {
        width,
        height,
        label_x: anchor_exec(d.bbox.x_min, label_w, width),
        label_y: anchor_exec(d.bbox.y_min, 9, height),
        right: if d.bbox.x_max < width {
            d.bbox.x_max
        } else {
            width - 1
        },
        bottom: if d.bbox.y_max < height {
            d.bbox.y_max
        } else {
            height - 1
        },
        color: class_color_exec(d.class_id),
    }
}

fn mark_pixel(p: Rgb, d: &Detection, text: &Vec<char>, l: &Layout, x: u32, y: u32) -> (q: Rgb)
    requires
        layout_matches(*l, *d, text@, l.width as int, l.height as int),
        x < l.width,
        y < l.height,
    ensures
        q == marked(p, *d, text@, l.width as int, l.height as int, x as int, y as int),
{
    let ink = if x > l.label_x && y > l.label_y && y - l.label_y - 1 < 7 {
        let col: u32 = x - l.label_x - 1;
        let row: u8 = (y - l.label_y - 1) as u8;
        let cell: usize = (col / 6) as usize;
        if cell < text.len() && col % 6 < 5 {
            glyph_bit_exec(text[cell], col % 6, row)
        } else {
            false
        }
    } else {
        false
    };
    if ink {
        return Rgb { r: 255, g: 255, b: 255 };
    }
    let label_w: u128 = 6 * (text.len() as u128) + 1;
    let on_label = x >= l.label_x && ((x - l.label_x) as u128) < label_w && y >= l.label_y && y
        - l.label_y < 9;
    let on_box = d.bbox.x_min <= x && x <= l.right && d.bbox.y_min <= y && y <= l.bottom && (x
        == d.bbox.x_min || x == l.right || y == d.bbox.y_min || y == l.bottom);
    if on_label || on_box {
        l.color
    } else {
        p
    }
}

/// Draws the detection on every pixel of the columns `x0` up to `x1` of the
/// rows `y0` up to `y1`.
fn mark_rect(
    raster: &mut Raster,
    d: &Detection,
    text: &Vec<char>,
    l: &Layout,
    x0: u32,
    y0: u32,
    x1: u32,
    y1: u32,
)
    requires
        old(raster).wf(),
        layout_matches(*l, *d, text@, old(raster)@.width, old(raster)@.height),
        x0 <= x1 <= old(raster)@.width,
        y0 <= y1 <= old(raster)@.height,
    ensures
        final(raster).wf(),
        final(raster)@.width == old(raster)@.width,
        final(raster)@.height == old(raster)@.height,
        forall|a: int, b: int|
            old(raster)@.holds(a, b) ==> #[trigger] final(raster)@.pixel(a, b) == (if x0 <= a < x1
                && y0 <= b < y1 {
                marked(
                    old(raster)@.pixel(a, b),
                    *d,
                    text@,
                    old(raster)@.width,
                    old(raster)@.height,
                    a,
                    b,
                )
            } else {
                old(raster)@.pixel(a, b)
            }),
{
    let ghost orig = raster@;
    let mut y: u32 = y0;
    while y < y1
        invariant
            raster.wf(),
            orig.wf(),
            raster@.width == orig.width,
            raster@.height == orig.height,
            layout_matches(*l, *d, text@, orig.width, orig.height),
            x0 <= x1 <= orig.width,
            y0 <= y <= y1 <= orig.height,
            forall|a: int, b: int|
                orig.holds(a, b) ==> #[trigger] raster@.pixel(a, b) == (if x0 <= a < x1 && y0 <= b
                    < y {
                    marked(orig.pixel(a, b), *d, text@, orig.width, orig.height, a, b)
                } else {
                    orig.pixel(a, b)
                }),
        decreases y1 - y,
    {
        let mut x: u32 = x0;
        while x < x1
            invariant
                raster.wf(),
                orig.wf(),
                raster@.width == orig.width,
                raster@.height == orig.height,
                layout_matches(*l, *d, text@, orig.width, orig.height),
                x0 <= x <= x1 <= orig.width,
                y0 <= y < y1 <= orig.height,
                forall|a: int, b: int|
                    orig.holds(a, b) ==> #[trigger] raster@.pixel(a, b) == (if x0 <= a < x1 && (y0
                        <= b < y || (b == y && a < x)) {
                        marked(orig.pixel(a, b), *d, text@, orig.width, orig.height, a, b)
                    } else {
                        orig.pixel(a, b)
                    }),
            decreases x1 - x,
        {
            let p = raster.pixel(x, y);
            let q = mark_pixel(p, d, text, l, x, y);
            let ghost before = raster@;
            raster.set_pixel(x, y, q);
            proof {
                assert forall|a: int, b: int| orig.holds(a, b) implies #[trigger] raster@.pixel(
                    a,
                    b,
                ) == (if x0 <= a < x1 && (y0 <= b < y || (b == y && a < x + 1)) {
                    marked(orig.pixel(a, b), *d, text@, orig.width, orig.height, a, b)
                } else {
                    orig.pixel(a, b)
                }) by {
                    lemma_with_pixel(before, x as int, y as int, q, a, b);
                }
            }
            x += 1;
        }
        y += 1;
    }
}

/// Draws one detection with its label on the image.
pub fn annotate(raster: &mut Raster, d: &Detection, text: &Vec<char>)
    requires
        old(raster).wf(),
    ensures
        final(raster).wf(),
        final(raster)@ == annotated(old(raster)@, *d, text@),
{
    let width = raster.width();
    let height = raster.height();
    let l = layout(d, text, width, height);
    let ghost v0 = raster@;
    let label_w: u128 = 6 * (text.len() as u128) + 1;
    let label_right: u32 = if l.label_x as u128 + label_w < width as u128 {
        (l.label_x as u128 + label_w) as u32
    } else {
        width
    };
    let label_bottom: u32 = if l.label_y as u64 + 9 < height as u64 {
        l.label_y + 9
    } else {
        height
    };
    mark_rect(raster, d, text, &l, l.label_x, l.label_y, label_right, label_bottom);
    let ghost v1 = raster@;
    let visible = d.bbox.x_min <= l.right && d.bbox.y_min <= l.bottom;
    if visible {
        mark_rect(raster, d, text, &l, d.bbox.x_min, d.bbox.y_min, l.right + 1, d.bbox.y_min + 1);
    }
    let ghost v2 = raster@;
    if visible {
        mark_rect(raster, d, text, &l, d.bbox.x_min, l.bottom, l.right + 1, l.bottom + 1);
    }
    let ghost v3 = raster@;
    if visible {
        mark_rect(raster, d, text, &l, d.bbox.x_min, d.bbox.y_min, d.bbox.x_min + 1, l.bottom + 1);
    }
    let ghost v4 = raster@;
    if visible {
        mark_rect(raster, d, text, &l, l.right, d.bbox.y_min, l.right + 1, l.bottom + 1);
    }
    proof {
        let v5 = raster@;
        let paint = marking(v0, *d, text@);
        assert forall|x: int, y: int| v5.holds(x, y) implies v5.pixel(x, y) == paint(x, y) by {
            let p0 = v0.pixel(x, y);
            let p1 = v1.pixel(x, y);
            let p2 = v2.pixel(x, y);
            let p3 = v3.pixel(x, y);
            let p4 = v4.pixel(x, y);
            let p5 = v5.pixel(x, y);
            let m = marked(p0, *d, text@, v0.width, v0.height, x, y);
            assert(p1 == m || p1 == p0);
            assert(marked(m, *d, text@, v0.width, v0.height, x, y) == m);
            assert(p2 == m || p2 == p0);
            assert(p3 == m || p3 == p0);
            assert(p4 == m || p4 == p0);
            assert(p5 == m || p5 == p0);
            if m != p0 {
                assert(p5 == m);
            }
        }
        lemma_painted(v5, paint);
    }
}

/// Draws every detection on a copy of the image: the outline of its box and
/// a label with its class name and confidence. Fails with `UnknownClassId`,
/// and draws nothing, when a detection names a class that the label table
/// does not have.
pub fn render(raster: &Raster, detections: &Vec<Detection>, labels: &Vec<String>) -> (result: Result<
    Raster,
    PipelineError,
>)
    requires
        raster.wf(),
    ensures
        result is Ok <==> classes_known(detections@, labels@.len() as int),
        result matches Ok(out) ==> out.wf() && out@ == rendered(raster@, detections@, labels@),
        result matches Err(e) ==> e == PipelineError::UnknownClassId,
{
    let mut i: usize = 0;
    while i < detections.len()
        invariant
            i <= detections.len(),
            forall|j: int| 0 <= j < i ==> (#[trigger] detections@[j]).class_id < labels@.len(),
        decreases detections.len() - i,
    {
        if detections[i].class_id >= labels.len() {
            return Err(PipelineError::UnknownClassId);
        }
        i += 1;
    }
    let mut out = raster.duplicate();
    i = 0;
    while i < detections.len()
        invariant
            i <= detections.len(),
            classes_known(detections@, labels@.len() as int),
            out.wf(),
            out@ == rendered(raster@, detections@.take(i as int), labels@),
        decreases detections.len() - i,
    {
        let d = detections[i];
        let text = label_for(&labels[d.class_id], d.confidence);
        proof {
            let next = detections@.take(i + 1);
            assert(next.drop_last() =~= detections@.take(i as int));
            assert(next.last() == d);
        }
        annotate(&mut out, &d, &text);
        i += 1;
    }
    proof {
        assert(detections@.take(detections.len() as int) =~= detections@);
    }
    Ok(out)
}

} // verus!
