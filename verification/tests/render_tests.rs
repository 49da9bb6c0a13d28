use detection_core::detection::Detection;
use detection_core::error::PipelineError;
use detection_core::geometry::BoundingBox;
use detection_core::raster::{Raster, Rgb};
use detection_core::render::{annotate, label_for, render};

const BLACK: Rgb = Rgb { r: 0, g: 0, b: 0 };
const WHITE: Rgb = Rgb { r: 255, g: 255, b: 255 };
const RED: Rgb = Rgb { r: 220, g: 0, b: 0 };
const GREEN: Rgb = Rgb { r: 0, g: 140, b: 0 };

fn names() -> Vec<String> {
    vec!["cat".to_string(), "dog".to_string()]
}

fn text_of(v: &[char]) -> String {
    v.iter().collect()
}

#[test]
fn label_is_name_and_percentage() {
    assert_eq!(text_of(&label_for(&"person".to_string(), 870_000)), "person 87%");
    assert_eq!(text_of(&label_for(&"cat".to_string(), 1_000_000)), "cat 100%");
    assert_eq!(text_of(&label_for(&"cat".to_string(), 0)), "cat 0%");
    assert_eq!(text_of(&label_for(&"".to_string(), 50_000)), " 5%");
}

#[test]
fn percentage_rounds_to_nearest() {
    assert_eq!(text_of(&label_for(&"x".to_string(), 874_999)), "x 87%");
    assert_eq!(text_of(&label_for(&"x".to_string(), 875_000)), "x 88%");
    assert_eq!(text_of(&label_for(&"x".to_string(), 4_999)), "x 0%");
    assert_eq!(text_of(&label_for(&"x".to_string(), 5_000)), "x 1%");
    assert_eq!(text_of(&label_for(&"x".to_string(), 995_000)), "x 100%");
    assert_eq!(text_of(&label_for(&"x".to_string(), u32::MAX)), "x 429497%");
}

#[test]
fn names_beyond_ascii_are_kept() {
    assert_eq!(text_of(&label_for(&"猫 é".to_string(), 120_000)), "猫 é 12%");
}

#[test]
fn unknown_class_is_refused_before_anything_is_drawn() {
    let image = Raster::filled(100, 60, BLACK).unwrap();
    let known = Detection::new(BoundingBox::new(5, 12, 20, 25), 0, 870_000);
    let unknown = Detection::new(BoundingBox::new(5, 12, 20, 25), 2, 870_000);
    assert_eq!(render(&image, &vec![known, unknown], &names()), Err(PipelineError::UnknownClassId));
    assert_eq!(render(&image, &vec![unknown], &names()), Err(PipelineError::UnknownClassId));
    assert_eq!(render(&image, &vec![known], &Vec::new()), Err(PipelineError::UnknownClassId));
    assert_eq!(image, Raster::filled(100, 60, BLACK).unwrap());
}

#[test]
fn nothing_to_draw_leaves_the_image() {
    let image = Raster::filled(10, 10, Rgb { r: 1, g: 2, b: 3 }).unwrap();
    assert_eq!(render(&image, &Vec::new(), &names()), Ok(image.duplicate()));
}

#[test]
fn box_and_label_are_drawn_in_the_class_colour() {
    let image = Raster::filled(100, 60, BLACK).unwrap();
    let d = Detection::new(BoundingBox::new(5, 12, 20, 25), 0, 870_000);
    let out = render(&image, &vec![d], &names()).unwrap();
    assert_eq!((out.width(), out.height()), (100, 60));
    // corners of the outline
    assert_eq!(out.pixel(20, 25), RED);
    assert_eq!(out.pixel(5, 25), RED);
    assert_eq!(out.pixel(20, 22), RED);
    assert_eq!(out.pixel(12, 25), RED);
    // inside the box, below the label
    assert_eq!(out.pixel(12, 23), BLACK);
    // outside
    assert_eq!(out.pixel(50, 50), BLACK);
    assert_eq!(out.pixel(4, 12), BLACK);
    assert_eq!(out.pixel(5, 11), BLACK);
    assert_eq!(out.pixel(21, 25), BLACK);
    assert_eq!(out.pixel(20, 26), BLACK);
    // the label "cat 87%" is 43 columns and 9 rows from the corner of the box
    assert_eq!(out.pixel(5, 12), RED);
    assert_eq!(out.pixel(47, 20), RED);
    assert_eq!(out.pixel(48, 20), BLACK);
    assert_eq!(out.pixel(47, 21), BLACK);
    // the letter c has dots in rows 3 to 5 of its first column
    assert_eq!(out.pixel(6, 13), RED);
    assert_eq!(out.pixel(6, 15), RED);
    assert_eq!(out.pixel(6, 16), WHITE);
    assert_eq!(out.pixel(6, 17), WHITE);
    assert_eq!(out.pixel(6, 18), WHITE);
    assert_eq!(out.pixel(6, 19), RED);
    // spacing between letters
    for y in 12..21 {
        assert_eq!(out.pixel(11, y), RED);
    }
}

#[test]
fn label_is_moved_onto_the_canvas() {
    let image = Raster::filled(100, 60, BLACK).unwrap();
    let d = Detection::new(BoundingBox::new(95, 55, 99, 59), 1, 870_000);
    let out = render(&image, &vec![d], &names()).unwrap();
    // "dog 87%" is 43 by 9: it starts at column 57 and row 51
    assert_eq!(out.pixel(57, 51), GREEN);
    assert_eq!(out.pixel(56, 51), BLACK);
    assert_eq!(out.pixel(57, 50), BLACK);
    assert_eq!(out.pixel(99, 59), GREEN);
    let inked = (0..60).flat_map(|y| (0..100).map(move |x| (x, y))).filter(|(x, y)| out.pixel(*x, *y) == WHITE).count();
    assert!(inked > 20);
}

#[test]
fn box_beyond_the_canvas_is_clipped() {
    let image = Raster::filled(30, 20, BLACK).unwrap();
    let d = Detection::new(BoundingBox::new(10, 12, 500, 400), 0, 500_000);
    let mut out = image.duplicate();
    annotate(&mut out, &d, &Vec::new());
    assert_eq!(out.pixel(29, 19), RED);
    assert_eq!(out.pixel(29, 15), RED);
    assert_eq!(out.pixel(20, 19), RED);
    assert_eq!(out.pixel(10, 19), RED);
    assert_eq!(out.pixel(20, 15), BLACK);
    assert_eq!(out.pixel(9, 12), BLACK);
    let off = Detection::new(BoundingBox::new(30, 0, 40, 10), 0, 500_000);
    let mut out = image.duplicate();
    annotate(&mut out, &off, &Vec::new());
    // an empty label is one column wide; it is moved onto the canvas
    assert_eq!(out.pixel(29, 0), RED);
    assert_eq!(out.pixel(29, 8), RED);
    assert_eq!(out.pixel(29, 9), BLACK);
    assert_eq!(out.pixel(28, 0), BLACK);
}

#[test]
fn label_longer_than_the_canvas_starts_at_the_edge() {
    let image = Raster::filled(20, 5, BLACK).unwrap();
    let d = Detection::new(BoundingBox::new(10, 2, 15, 4), 1, 990_000);
    let out = render(&image, &vec![d], &names()).unwrap();
    for y in 0..5 {
        for x in 0..20 {
            let p = out.pixel(x, y);
            assert!(p == GREEN || p == WHITE);
        }
    }
    assert_eq!(out.pixel(0, 0), GREEN);
}

#[test]
fn later_detections_are_drawn_over_earlier_ones() {
    let image = Raster::filled(100, 60, BLACK).unwrap();
    let first = Detection::new(BoundingBox::new(5, 30, 20, 45), 0, 870_000);
    let second = Detection::new(BoundingBox::new(5, 30, 20, 45), 1, 870_000);
    let out = render(&image, &vec![first, second], &names()).unwrap();
    assert_eq!(out.pixel(20, 45), GREEN);
    let out = render(&image, &vec![second, first], &names()).unwrap();
    assert_eq!(out.pixel(20, 45), RED);
}

#[test]
fn unknown_characters_are_drawn_as_blocks() {
    let image = Raster::filled(40, 20, BLACK).unwrap();
    let d = Detection::new(BoundingBox::new(0, 0, 5, 5), 0, 0);
    let mut out = image.duplicate();
    annotate(&mut out, &d, &vec!['猫']);
    for y in 1..8 {
        for x in 1..6 {
            assert_eq!(out.pixel(x, y), WHITE);
        }
        assert_eq!(out.pixel(6, y), RED);
    }
    assert_eq!(out.pixel(1, 0), RED);
    assert_eq!(out.pixel(1, 8), RED);
}
