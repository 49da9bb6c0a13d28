use detection_core::geometry::BoundingBox;
use detection_core::letterbox::{Letterbox, PAD_LEVEL};
use detection_core::raster::{Raster, Rgb};
use detection_core::resample::letterbox_image;
use detection_core::tensor::Tensor;

fn grey(level: u8) -> Rgb {
    Rgb { r: level, g: level, b: level }
}

#[test]
fn wide_image_is_padded_above_and_below() {
    let lb = Letterbox::plan(1280, 720, 640, 640).unwrap();
    assert_eq!(lb.content_width, 640);
    assert_eq!(lb.content_height, 360);
    assert_eq!(lb.pad_x, 0);
    assert_eq!(lb.pad_y, 140);
    assert!(lb.check());
}

#[test]
fn tall_image_is_padded_left_and_right() {
    let lb = Letterbox::plan(300, 600, 640, 640).unwrap();
    assert_eq!(lb.content_width, 320);
    assert_eq!(lb.content_height, 640);
    assert_eq!(lb.pad_x, 160);
    assert_eq!(lb.pad_y, 0);
}

#[test]
fn square_image_fills_the_input() {
    let lb = Letterbox::plan(100, 100, 640, 640).unwrap();
    assert_eq!((lb.content_width, lb.content_height, lb.pad_x, lb.pad_y), (640, 640, 0, 0));
}

#[test]
fn thin_image_keeps_one_row() {
    let lb = Letterbox::plan(10_000, 1, 640, 640).unwrap();
    assert_eq!(lb.content_width, 640);
    assert_eq!(lb.content_height, 1);
    assert_eq!(lb.pad_y, 319);
}

#[test]
fn scaled_side_rounds_to_nearest() {
    // 333 * 640 / 1000 = 213.12
    let lb = Letterbox::plan(1000, 333, 640, 640).unwrap();
    assert_eq!(lb.content_height, 213);
    // 3 * 5 / 10 = 1.5, halves go up
    let lb = Letterbox::plan(10, 3, 5, 5).unwrap();
    assert_eq!(lb.content_height, 2);
    // 2 * 3 / 5 = 1.2
    let lb = Letterbox::plan(2, 5, 64, 3).unwrap();
    assert_eq!(lb.content_height, 3);
    assert_eq!(lb.content_width, 1);
}

#[test]
fn no_plan_for_an_empty_side() {
    assert_eq!(Letterbox::plan(0, 10, 640, 640), None);
    assert_eq!(Letterbox::plan(10, 0, 640, 640), None);
    assert_eq!(Letterbox::plan(10, 10, 0, 640), None);
    assert_eq!(Letterbox::plan(10, 10, 640, 0), None);
}

#[test]
fn tampered_plan_is_detected() {
    let mut lb = Letterbox::plan(1280, 720, 640, 640).unwrap();
    lb.pad_y = 141;
    assert!(!lb.check());
}

#[test]
fn boxes_map_back_onto_the_image() {
    let lb = Letterbox::plan(1280, 720, 640, 640).unwrap();
    assert_eq!(lb.restore_box(0, 140, 640, 500), BoundingBox::new(0, 0, 1280, 720));
    assert_eq!(lb.restore_box(320, 320, 480, 410), BoundingBox::new(640, 360, 960, 540));
}

#[test]
fn same_relative_position_whatever_the_aspect() {
    // the centre of the scaled image is the centre of the image
    for (w, h) in [(1280u32, 720u32), (720, 1280), (640, 640), (200, 50)] {
        let lb = Letterbox::plan(w, h, 640, 640).unwrap();
        let cx = (lb.pad_x + lb.content_width / 2) as i32;
        let cy = (lb.pad_y + lb.content_height / 2) as i32;
        let b = lb.restore_box(lb.pad_x as i32, lb.pad_y as i32, cx, cy);
        assert_eq!(b, BoundingBox::new(0, 0, w / 2, h / 2));
    }
}

#[test]
fn corners_on_the_padding_land_on_the_border() {
    let lb = Letterbox::plan(1280, 720, 640, 640).unwrap();
    assert_eq!(lb.restore_box(-50, 0, 700, 640), BoundingBox::new(0, 0, 1280, 720));
    assert_eq!(lb.restore_box(i32::MIN, i32::MIN, i32::MAX, i32::MAX), BoundingBox::new(0, 0, 1280, 720));
}

#[test]
fn restored_coordinates_round_to_nearest() {
    // scale 1/3: model 1 -> 3, model 2 -> 6
    let lb = Letterbox::plan(30, 30, 10, 10).unwrap();
    assert_eq!(lb.restore_box(1, 2, 3, 4), BoundingBox::new(3, 6, 9, 12));
    // scale 3: model 1 -> 0.33 -> 0, model 2 -> 0.67 -> 1, model 5 -> 1.67 -> 2
    let lb = Letterbox::plan(10, 10, 30, 30).unwrap();
    assert_eq!(lb.restore_box(1, 2, 5, 30), BoundingBox::new(0, 1, 2, 10));
}

#[test]
fn same_size_is_copied() {
    let samples: Vec<u8> = (0..(4 * 3 * 3)).map(|i| (i * 7 % 256) as u8).collect();
    let src = Raster::from_samples(4, 3, &samples).unwrap();
    let lb = Letterbox::plan(4, 3, 4, 3).unwrap();
    let out = letterbox_image(&src, &lb).unwrap();
    assert_eq!(out.to_samples(), samples);
}

#[test]
fn plain_image_stays_plain_with_grey_padding() {
    let src = Raster::filled(8, 2, grey(200)).unwrap();
    let lb = Letterbox::plan(8, 2, 16, 16).unwrap();
    assert_eq!((lb.content_width, lb.content_height, lb.pad_y), (16, 4, 6));
    let out = letterbox_image(&src, &lb).unwrap();
    assert_eq!((out.width(), out.height()), (16, 16));
    for y in 0..16 {
        for x in 0..16 {
            let want = if (6..10).contains(&y) { grey(200) } else { grey(PAD_LEVEL) };
            assert_eq!(out.pixel(x, y), want);
        }
    }
}

#[test]
fn two_pixels_doubled_are_blended_at_quarter_steps() {
    let src = Raster::from_samples(2, 1, &vec![0, 0, 0, 255, 255, 255]).unwrap();
    let lb = Letterbox::plan(2, 1, 4, 2).unwrap();
    assert_eq!((lb.content_width, lb.content_height, lb.pad_x, lb.pad_y), (4, 2, 0, 0));
    let out = letterbox_image(&src, &lb).unwrap();
    for y in 0..2 {
        assert_eq!(out.pixel(0, y), grey(0));
        assert_eq!(out.pixel(1, y), grey(64));
        assert_eq!(out.pixel(2, y), grey(191));
        assert_eq!(out.pixel(3, y), grey(255));
    }
}

#[test]
fn halving_averages_neighbours() {
    let src = Raster::from_samples(4, 1, &vec![0, 0, 0, 100, 100, 100, 200, 200, 200, 40, 40, 40]).unwrap();
    let lb = Letterbox::plan(4, 1, 2, 1).unwrap();
    let out = letterbox_image(&src, &lb).unwrap();
    assert_eq!(out.pixel(0, 0), grey(50));
    assert_eq!(out.pixel(1, 0), grey(120));
}

#[test]
fn tensor_holds_one_plane_per_channel() {
    let samples = vec![1, 2, 3, 4, 5, 6, 7, 8, 9, 10, 11, 12];
    let r = Raster::from_samples(2, 2, &samples).unwrap();
    let t = Tensor::from_raster(&r);
    assert_eq!((t.width(), t.height()), (2, 2));
    assert_eq!(t.planes(), &vec![1, 4, 7, 10, 2, 5, 8, 11, 3, 6, 9, 12]);
}

#[test]
fn raster_constructors_check_their_sizes() {
    assert!(Raster::filled(0, 5, grey(0)).is_none());
    assert!(Raster::filled(5, 0, grey(0)).is_none());
    assert!(Raster::from_samples(2, 2, &vec![0; 11]).is_none());
    assert!(Raster::from_samples(2, 2, &vec![0; 13]).is_none());
    assert!(Raster::from_samples(0, 0, &Vec::new()).is_none());
    assert!(Raster::from_pixels(2, 2, vec![grey(0); 3]).is_none());
    let r = Raster::from_pixels(2, 1, vec![grey(1), grey(2)]).unwrap();
    assert_eq!(r.get_pixel(1, 0), Some(grey(2)));
    assert_eq!(r.get_pixel(2, 0), None);
    assert_eq!(r.get_pixel(0, 1), None);
    assert_eq!(r.to_samples(), vec![1, 1, 1, 2, 2, 2]);
}

#[test]
fn set_pixel_changes_one_pixel() {
    let mut r = Raster::filled(3, 2, grey(9)).unwrap();
    r.set_pixel(2, 1, Rgb { r: 1, g: 2, b: 3 });
    for y in 0..2 {
        for x in 0..3 {
            let want = if (x, y) == (2, 1) { Rgb { r: 1, g: 2, b: 3 } } else { grey(9) };
            assert_eq!(r.pixel(x, y), want);
        }
    }
    assert_eq!(r.duplicate(), r);
}
