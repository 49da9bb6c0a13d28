use detection_core::detection::Detection;
use detection_core::geometry::{intersection, overlap_exceeds, BoundingBox};
use detection_core::suppress::{leader_index, retain_outlasting, suppress};

fn det(x_min: u32, y_min: u32, x_max: u32, y_max: u32, class_id: usize, confidence: u32) -> Detection {
    Detection::new(BoundingBox::new(x_min, y_min, x_max, y_max), class_id, confidence)
}

#[test]
fn overlapping_pair_keeps_the_more_confident() {
    let weaker = det(0, 0, 100, 100, 3, 600_000);
    let stronger = det(5, 5, 105, 105, 3, 900_000);
    let kept = suppress(&vec![weaker, stronger], 500_000);
    assert_eq!(kept, vec![stronger]);
    let kept = suppress(&vec![stronger, weaker], 500_000);
    assert_eq!(kept, vec![stronger]);
}

#[test]
fn overlap_of_the_shifted_squares_is_about_eighty_two_percent() {
    let a = BoundingBox::new(0, 0, 100, 100);
    let b = BoundingBox::new(5, 5, 105, 105);
    assert_eq!(intersection(&a, &b), 9_025);
    assert_eq!(a.area(), 10_000);
    // 9025 / 10975 = 0.82232...
    assert!(overlap_exceeds(&a, &b, 822_323));
    assert!(!overlap_exceeds(&a, &b, 822_324));
}

#[test]
fn different_classes_may_overlap() {
    let a = det(0, 0, 100, 100, 1, 600_000);
    let b = det(5, 5, 105, 105, 2, 900_000);
    let kept = suppress(&vec![a, b], 500_000);
    assert_eq!(kept, vec![b, a]);
}

#[test]
fn output_is_ordered_by_falling_confidence() {
    let a = det(0, 0, 10, 10, 0, 100_000);
    let b = det(20, 20, 30, 30, 0, 900_000);
    let c = det(40, 40, 50, 50, 0, 500_000);
    assert_eq!(suppress(&vec![a, b, c], 450_000), vec![b, c, a]);
}

#[test]
fn ties_keep_the_order_of_the_input() {
    let first = det(0, 0, 10, 10, 0, 500_000);
    let second = det(20, 20, 30, 30, 1, 500_000);
    let third = det(40, 40, 50, 50, 2, 500_000);
    assert_eq!(suppress(&vec![first, second, third], 450_000), vec![first, second, third]);
    assert_eq!(suppress(&vec![third, first, second], 450_000), vec![third, first, second]);
}

#[test]
fn tie_between_overlapping_boxes_keeps_the_earlier() {
    let first = det(0, 0, 100, 100, 0, 700_000);
    let second = det(1, 1, 101, 101, 0, 700_000);
    assert_eq!(suppress(&vec![first, second], 500_000), vec![first]);
    assert_eq!(suppress(&vec![second, first], 500_000), vec![second]);
}

#[test]
fn nothing_in_nothing_out() {
    assert_eq!(suppress(&Vec::new(), 500_000), Vec::<Detection>::new());
    assert_eq!(leader_index(&Vec::new()), None);
}

#[test]
fn no_two_kept_boxes_of_a_class_overlap_above_the_threshold() {
    let mut input = Vec::new();
    for i in 0..12u32 {
        for class_id in 0..2usize {
            let x = (i * 7) % 40;
            let y = (i * 11) % 30;
            input.push(det(x, y, x + 20 + i, y + 15 + i, class_id, 100_000 + (i * 73_131) % 800_000));
        }
    }
    let threshold = 300_000;
    let kept = suppress(&input, threshold);
    assert!(!kept.is_empty());
    for i in 0..kept.len() {
        for j in 0..kept.len() {
            if i != j && kept[i].class_id == kept[j].class_id {
                assert!(!overlap_exceeds(&kept[i].bbox, &kept[j].bbox, threshold));
            }
        }
    }
    for k in &kept {
        assert!(input.contains(k));
    }
}

#[test]
fn suppressing_twice_changes_nothing() {
    let mut input = Vec::new();
    for i in 0..15u32 {
        let x = (i * 13) % 50;
        let y = (i * 5) % 50;
        input.push(det(x, y, x + 30, y + 30, (i % 3) as usize, 50_000 * (1 + (i * 7) % 19)));
    }
    for threshold in [0, 200_000, 450_000, 900_000, 1_000_000] {
        let once = suppress(&input, threshold);
        let twice = suppress(&once, threshold);
        assert_eq!(once, twice);
    }
}

#[test]
fn threshold_of_one_or_more_suppresses_nothing() {
    let a = det(0, 0, 50, 50, 0, 800_000);
    let same = det(0, 0, 50, 50, 0, 700_000);
    assert_eq!(suppress(&vec![a, same], 1_000_000), vec![a, same]);
    assert_eq!(suppress(&vec![a, same], 999_999), vec![a]);
}

#[test]
fn negative_threshold_keeps_one_box_of_each_class() {
    let a = det(0, 0, 10, 10, 0, 800_000);
    let far = det(500, 500, 510, 510, 0, 700_000);
    let other = det(0, 0, 10, 10, 1, 100_000);
    assert_eq!(suppress(&vec![a, far, other], -1), vec![a, other]);
}

#[test]
fn boxes_without_area_never_overlap() {
    let a = det(10, 10, 10, 10, 0, 800_000);
    let b = det(10, 10, 10, 10, 0, 700_000);
    assert_eq!(suppress(&vec![a, b], 0), vec![a, b]);
}

#[test]
fn leader_is_the_first_of_the_most_confident() {
    let input = vec![
        det(0, 0, 1, 1, 0, 300_000),
        det(0, 0, 1, 1, 0, 900_000),
        det(0, 0, 1, 1, 0, 900_000),
        det(0, 0, 1, 1, 0, 100_000),
    ];
    assert_eq!(leader_index(&input), Some(1));
}

#[test]
fn retain_drops_only_same_class_overlaps() {
    let kept = det(0, 0, 100, 100, 0, 900_000);
    let near = det(2, 2, 102, 102, 0, 500_000);
    let near_other = det(2, 2, 102, 102, 1, 500_000);
    let far = det(300, 300, 400, 400, 0, 500_000);
    assert_eq!(retain_outlasting(&vec![near, near_other, far], &kept, 500_000), vec![near_other, far]);
}
