use std::cell::Cell;

use detection_core::detection::Detection;
use detection_core::engine::{
    assess, decode_output, threshold_is_valid, BackendOutcome, InferenceEngine, ModelTopology,
    RawCandidate, DEFAULT_CONFIDENCE_THRESHOLD,
};
use detection_core::error::PipelineError;
use detection_core::geometry::BoundingBox;
use detection_core::letterbox::Letterbox;
use detection_core::raster::{Raster, Rgb};
use detection_core::tensor::Tensor;

fn labels(n: usize) -> Vec<String> {
    (0..n).map(|i| format!("class{}", i)).collect()
}

fn engine(width: u32, height: u32, classes: usize) -> InferenceEngine {
    InferenceEngine::load(
        ModelTopology { input_width: width, input_height: height, class_count: classes },
        labels(classes),
    )
    .unwrap()
}

fn cell(x_min: i32, y_min: i32, x_max: i32, y_max: i32, objectness: u32, class_scores: Vec<u32>) -> RawCandidate {
    RawCandidate { x_min, y_min, x_max, y_max, objectness, class_scores }
}

fn black(width: u32, height: u32) -> Raster {
    Raster::filled(width, height, Rgb { r: 0, g: 0, b: 0 }).unwrap()
}

#[test]
fn default_threshold_is_three_tenths() {
    assert_eq!(DEFAULT_CONFIDENCE_THRESHOLD, 300_000);
}

#[test]
fn thresholds_are_fractions() {
    assert!(threshold_is_valid(0));
    assert!(threshold_is_valid(300_000));
    assert!(threshold_is_valid(1_000_000));
    assert!(!threshold_is_valid(-1));
    assert!(!threshold_is_valid(1_000_001));
    assert!(!threshold_is_valid(i32::MIN));
    assert!(!threshold_is_valid(i32::MAX));
}

#[test]
fn threshold_outside_the_unit_interval_fails_without_inference() {
    let e = engine(32, 32, 2);
    let image = black(64, 48);
    for threshold in [-1, -300_000, 1_000_001, i32::MAX, i32::MIN] {
        let called = Cell::new(false);
        let result = e.run(&image, threshold, |_t: &Tensor| {
            called.set(true);
            BackendOutcome::Output(Vec::new())
        });
        assert_eq!(result, Err(PipelineError::InvalidThreshold));
        assert!(!called.get());
        assert_eq!(e.prepare(&image, threshold).err(), Some(PipelineError::InvalidThreshold));
    }
}

#[test]
fn bounds_of_the_unit_interval_are_valid_thresholds() {
    let e = engine(32, 32, 2);
    let image = black(64, 48);
    for threshold in [0, 1_000_000] {
        let called = Cell::new(false);
        let result = e.run(&image, threshold, |_t: &Tensor| {
            called.set(true);
            BackendOutcome::Output(Vec::new())
        });
        assert_eq!(result, Ok(Vec::new()));
        assert!(called.get());
    }
}

fn canned(t: &Tensor) -> BackendOutcome {
    // a stand-in model: one cell that is sure of an object where the image is
    // bright in red
    let plane = (t.width() as usize) * (t.height() as usize);
    let sum: u64 = t.planes()[..plane].iter().map(|v| *v as u64).sum();
    let bright = sum / plane as u64 > 100;
    BackendOutcome::Output(vec![
        cell(8, 8, 24, 20, if bright { 1_000_000 } else { 0 }, vec![900_000, 100_000]),
        cell(0, 0, 4, 4, 100_000, vec![100_000, 200_000]),
    ])
}

#[test]
fn repeated_runs_give_the_same_detections() {
    let e = engine(32, 32, 2);
    let image = Raster::filled(64, 48, Rgb { r: 255, g: 10, b: 10 }).unwrap();
    let first = e.run(&image, 300_000, canned);
    let second = e.run(&image, 300_000, canned);
    assert_eq!(first, second);
    assert_eq!(first, Ok(vec![Detection::new(BoundingBox::new(16, 8, 48, 32), 0, 900_000)]));
}

#[test]
fn black_image_yields_no_detection_above_three_tenths() {
    let e = engine(640, 640, 2);
    let image = black(640, 640);
    let seen = Cell::new(0usize);
    let result = e.run(&image, 300_000, |t: &Tensor| {
        seen.set(t.planes().iter().filter(|v| **v != 0).count());
        canned(t)
    });
    assert_eq!(seen.get(), 0);
    assert_eq!(result, Ok(Vec::new()));
}

#[test]
fn model_input_is_the_letterboxed_image() {
    let e = engine(4, 4, 1);
    let image = Raster::filled(4, 2, Rgb { r: 10, g: 20, b: 30 }).unwrap();
    let request = e.prepare(&image, 500_000).unwrap();
    assert_eq!(request.letterbox(), Letterbox::plan(4, 2, 4, 4).unwrap());
    let t = request.tensor();
    assert_eq!((t.width(), t.height()), (4, 4));
    let mut want = Vec::new();
    for level in [10u8, 20, 30] {
        for y in 0..4 {
            for _x in 0..4 {
                want.push(if y == 1 || y == 2 { level } else { 114 });
            }
        }
    }
    assert_eq!(t.planes(), &want);
}

#[test]
fn backend_failure_and_cancellation_are_reported() {
    let e = engine(32, 32, 2);
    let image = black(64, 48);
    assert_eq!(e.run(&image, 300_000, |_t: &Tensor| BackendOutcome::Failed), Err(PipelineError::InferenceError));
    assert_eq!(e.run(&image, 300_000, |_t: &Tensor| BackendOutcome::Cancelled), Err(PipelineError::Cancelled));
    let request = e.prepare(&image, 300_000).unwrap();
    assert_eq!(request.complete(&BackendOutcome::Cancelled), Err(PipelineError::Cancelled));
    assert_eq!(request.complete(&BackendOutcome::Failed), Err(PipelineError::InferenceError));
    assert_eq!(request.complete(&BackendOutcome::Output(Vec::new())), Ok(Vec::new()));
}

#[test]
fn confidence_is_objectness_times_best_score() {
    let c = cell(0, 0, 1, 1, 900_000, vec![100_000, 800_000, 800_000]);
    assert_eq!(assess(&c, 3), Some((1, 720_000)));
    let c = cell(0, 0, 1, 1, 333_333, vec![333_333]);
    // 0.333333 * 0.333333 = 0.111110888889, rounded down
    assert_eq!(assess(&c, 1), Some((0, 111_110)));
    let c = cell(0, 0, 1, 1, 1_000_000, vec![0, 0, 1_000_000]);
    assert_eq!(assess(&c, 3), Some((2, 1_000_000)));
    let c = cell(0, 0, 1, 1, 0, vec![0, 0]);
    assert_eq!(assess(&c, 2), Some((0, 0)));
}

#[test]
fn malformed_scores_are_refused() {
    assert_eq!(assess(&cell(0, 0, 1, 1, 1_000_001, vec![5, 5]), 2), None);
    assert_eq!(assess(&cell(0, 0, 1, 1, 5, vec![5, 1_000_001]), 2), None);
    assert_eq!(assess(&cell(0, 0, 1, 1, 5, vec![1_000_001, 5]), 2), None);
    assert_eq!(assess(&cell(0, 0, 1, 1, 5, vec![5]), 2), None);
    assert_eq!(assess(&cell(0, 0, 1, 1, 5, vec![5, 5, 5]), 2), None);
    assert_eq!(assess(&cell(0, 0, 1, 1, 5, Vec::new()), 0), None);
}

#[test]
fn cells_below_the_threshold_are_dropped() {
    let lb = Letterbox::plan(1280, 720, 640, 640).unwrap();
    let raw = vec![
        cell(0, 140, 640, 500, 900_000, vec![100_000, 800_000]),
        cell(10, 150, 20, 160, 900_000, vec![700_000, 100_000]),
        cell(320, 320, 480, 410, 1_000_000, vec![720_001, 0]),
    ];
    let found = decode_output(&raw, 2, &lb, 720_000).unwrap();
    assert_eq!(
        found,
        vec![
            Detection::new(BoundingBox::new(0, 0, 1280, 720), 1, 720_000),
            Detection::new(BoundingBox::new(640, 360, 960, 540), 0, 720_001),
        ]
    );
    assert_eq!(decode_output(&raw, 2, &lb, 720_002), Ok(Vec::new()));
    assert_eq!(decode_output(&raw, 2, &lb, 0).unwrap().len(), 3);
}

#[test]
fn malformed_output_is_an_inference_failure() {
    let lb = Letterbox::plan(64, 64, 32, 32).unwrap();
    let wrong_count = vec![cell(0, 0, 1, 1, 5, vec![5, 5, 5])];
    assert_eq!(decode_output(&wrong_count, 2, &lb, 300_000), Err(PipelineError::InferenceError));
    let over_one = vec![cell(0, 0, 1, 1, 2_000_000, vec![5, 5])];
    assert_eq!(decode_output(&over_one, 2, &lb, 300_000), Err(PipelineError::InferenceError));
    let reversed = vec![cell(10, 0, 1, 1, 900_000, vec![900_000, 5])];
    assert_eq!(decode_output(&reversed, 2, &lb, 300_000), Err(PipelineError::InferenceError));
    // the box of a cell that is dropped is not looked at
    assert_eq!(decode_output(&reversed, 2, &lb, 900_000), Ok(Vec::new()));
}

#[test]
fn detections_lie_within_the_image() {
    let lb = Letterbox::plan(100, 50, 32, 32).unwrap();
    let raw = vec![cell(-100, -100, 1000, 1000, 1_000_000, vec![1_000_000])];
    let found = decode_output(&raw, 1, &lb, 0).unwrap();
    assert_eq!(found, vec![Detection::new(BoundingBox::new(0, 0, 100, 50), 0, 1_000_000)]);
}

#[test]
fn inconsistent_topology_gives_no_engine() {
    let t = ModelTopology { input_width: 640, input_height: 640, class_count: 3 };
    assert_eq!(InferenceEngine::load(t, labels(2)).err(), Some(PipelineError::ModelLoadError));
    assert_eq!(InferenceEngine::load(t, labels(4)).err(), Some(PipelineError::ModelLoadError));
    let t = ModelTopology { input_width: 0, input_height: 640, class_count: 2 };
    assert_eq!(InferenceEngine::load(t, labels(2)).err(), Some(PipelineError::ModelLoadError));
    let t = ModelTopology { input_width: 640, input_height: 0, class_count: 2 };
    assert_eq!(InferenceEngine::load(t, labels(2)).err(), Some(PipelineError::ModelLoadError));
    let t = ModelTopology { input_width: 640, input_height: 640, class_count: 0 };
    assert_eq!(InferenceEngine::load(t, Vec::new()).err(), Some(PipelineError::ModelLoadError));
}

#[test]
fn consistent_topology_loads() {
    let e = engine(640, 480, 3);
    assert_eq!((e.input_width(), e.input_height(), e.class_count()), (640, 480, 3));
    assert_eq!(e.labels(), &labels(3));
}
