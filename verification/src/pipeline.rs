//! The whole way from an encoded image to an encoded image with the
//! detections drawn on it.

use vstd::prelude::*;
use crate::codec::{decode, decode_agrees, encode, encoded, seen, ImageFormat};
use crate::detection::Detection;
use crate::engine::{completion, model_input, threshold_in_range, BackendOutcome, EngineView, InferenceEngine, DEFAULT_CONFIDENCE_THRESHOLD};
use crate::error::PipelineError;
use crate::letterbox::planned;
use crate::raster::RasterView;
use crate::render::{classes_known, render, rendered};
use crate::suppress::{greedy_suppression, lemma_emitted_are_candidates, suppress};
use crate::tensor::Tensor;

verus! {

/// The overlap, in millionths, above which the weaker of two detections of
/// one class is dropped.
pub const DEFAULT_IOU_THRESHOLD: i32 = 450_000;

/// The confidence threshold of a request: the one named, or the default.
pub open spec fn chosen_threshold(named: Option<i32>) -> int {
    match named {
        Some(t) => t as int,
        None => DEFAULT_CONFIDENCE_THRESHOLD as int,
    }
}

/// The result for a decoded image and a valid threshold, given the outcome
/// of the forward pass: the detections are decoded, suppressed, drawn, and
/// the picture is encoded as PNG.
pub open spec fn annotated_bytes(
    engine: EngineView,
    img: RasterView,
    threshold: int,
    outcome: BackendOutcome,
) -> Result<Seq<u8>, PipelineError> {
    match completion(
        outcome,
        engine.labels.len() as int,
        planned(img.width, img.height, engine.input_width, engine.input_height),
        threshold,
    ) {
        Err(e) => Err(e),
        Ok(found) => encoded(
            rendered(
                img,
                greedy_suppression(found, DEFAULT_IOU_THRESHOLD as int),
                engine.labels,
            ),
            ImageFormat::Png,
        ),
    }
}

/// The bytes or the failure are the expected ones.
pub open spec fn delivers(
    result: Result<Vec<u8>, PipelineError>,
    expected: Result<Seq<u8>, PipelineError>,
) -> bool {
    match result {
        Ok(bytes) => expected == Ok::<Seq<u8>, PipelineError>(bytes@),
        Err(e) => expected == Err::<Seq<u8>, PipelineError>(e),
    }
}

/// What holds of the result for a decoded image: a threshold that is no
/// fraction is refused; otherwise the forward pass ran on the model input of
/// the image, and the result is the one for its outcome.
pub open spec fn image_holds<F: FnOnce(&Tensor) -> BackendOutcome>(
    engine: EngineView,
    img: RasterView,
    threshold: int,
    forward: F,
    result: Result<Vec<u8>, PipelineError>,
) -> bool {
    if !threshold_in_range(threshold) {
        result == Err::<Vec<u8>, PipelineError>(PipelineError::InvalidThreshold)
    } else {
        exists|t: Tensor, outcome: BackendOutcome|
            t@ == model_input(engine, img) && #[trigger] call_ensures(forward, (&t,), outcome)
                && delivers(result, annotated_bytes(engine, img, threshold, outcome))
    }
}

/// What holds of the result of the pipeline on `bytes`: a failure to decode
/// comes first; otherwise the result is one for the decoded image.
pub open spec fn pipeline_holds<F: FnOnce(&Tensor) -> BackendOutcome>(
    engine: EngineView,
    bytes: Seq<u8>,
    threshold: int,
    forward: F,
    result: Result<Vec<u8>, PipelineError>,
) -> bool {
    exists|decoded: Result<RasterView, PipelineError>| #[trigger]
        decode_agrees(bytes, decoded) && match decoded {
            Err(e) => result == Err::<Vec<u8>, PipelineError>(e),
            Ok(img) => image_holds(engine, img, threshold, forward, result),
        }
}

/// The pipeline fails only at decoding, on the threshold, in the forward pass
/// or at encoding: an engine's own detections always name classes of its
/// label table, so drawing them cannot fail.
pub proof fn lemma_pipeline_failures<F: FnOnce(&Tensor) -> BackendOutcome>(
    engine: EngineView,
    bytes: Seq<u8>,
    threshold: int,
    forward: F,
    e: PipelineError,
)
    requires
        pipeline_holds(engine, bytes, threshold, forward, Err::<Vec<u8>, PipelineError>(e)),
    ensures
        e == PipelineError::UnsupportedFormat || e == PipelineError::CorruptData || e
            == PipelineError::InvalidThreshold || e == PipelineError::InferenceError || e
            == PipelineError::Cancelled,
{
}

/// Suppression keeps the classes within the label table.
proof fn lemma_kept_classes_known(found: Seq<Detection>, threshold: int, label_count: int)
    requires
        forall|i: int| 0 <= i < found.len() ==> (#[trigger] found[i]).class_id < label_count,
    ensures
        classes_known(greedy_suppression(found, threshold), label_count),
{
    let kept = greedy_suppression(found, threshold);
    lemma_emitted_are_candidates(found, threshold);
    assert forall|i: int| 0 <= i < kept.len() implies (#[trigger] kept[i]).class_id
        < label_count by {
        assert(found.contains(kept[i]));
        let j = choose|j: int| 0 <= j < found.len() && found[j] == kept[i];
        assert(found[j].class_id < label_count);
    }
}

/// Decodes the image, runs the model on it through `forward`, suppresses
/// overlapping detections, draws the rest and encodes the picture as PNG.
/// Without a named threshold the default of three tenths is used.
pub fn annotate_image<F>(
    engine: &InferenceEngine,
    input_data: &[u8],
    confidence_threshold: Option<i32>,
    forward: F,
) -> (result: Result<Vec<u8>, PipelineError>) where F: FnOnce(&Tensor) -> BackendOutcome
    requires
        engine.wf(),
        forall|t: Tensor| t.wf() ==> #[trigger] call_requires(forward, (&t,)),
    ensures
        pipeline_holds(
            engine@,
            input_data@,
            chosen_threshold(confidence_threshold),
            forward,
            result,
        ),
{
    let threshold = match confidence_threshold {
        Some(t) => t,
        None => DEFAULT_CONFIDENCE_THRESHOLD,
    };
    let decoding = decode(input_data);
    let ghost decoded = seen(decoding);
    let raster = match decoding {
        Err(e) => {
            return Err(e);
        },
        Ok(raster) => raster,
    };
    let found = match engine.run(&raster, threshold, forward) {
        Err(e) => {
            return Err(e);
        },
        Ok(found) => found,
    };
    let kept = suppress(&found, DEFAULT_IOU_THRESHOLD);
    proof {
        lemma_kept_classes_known(
            found@,
            DEFAULT_IOU_THRESHOLD as int,
            engine@.labels.len() as int,
        );
    }
    let drawn = match render(&raster, &kept, engine.labels()) {
        Err(e) => {
            // every class is in the label table, so this is never reached
            assert(false);
            return Err(e);
        },
        Ok(drawn) => drawn,
    };
    let result = encode(&drawn, ImageFormat::Png);
    proof {
        assert(image_holds(
            engine@,
            raster@,
            chosen_threshold(confidence_threshold),
            forward,
            result,
        ));
        assert(decode_agrees(input_data@, decoded));
    }
    result
}

/// The pipeline for a user interface: the annotated picture as PNG bytes, or
/// a sentence that names the stage that failed and why.
pub fn process_image<F>(
    engine: &InferenceEngine,
    input_data: &[u8],
    confidence_threshold: Option<i32>,
    forward: F,
) -> (result: Result<Vec<u8>, String>) where F: FnOnce(&Tensor) -> BackendOutcome
    requires
        engine.wf(),
        forall|t: Tensor| t.wf() ==> #[trigger] call_requires(forward, (&t,)),
    ensures
        match result {
            Ok(bytes) => pipeline_holds(
                engine@,
                input_data@,
                chosen_threshold(confidence_threshold),
                forward,
                Ok::<Vec<u8>, PipelineError>(bytes),
            ),
            Err(text) => exists|e: PipelineError|
                text@ == e.description() && #[trigger] pipeline_holds(
                    engine@,
                    input_data@,
                    chosen_threshold(confidence_threshold),
                    forward,
                    Err::<Vec<u8>, PipelineError>(e),
                ),
        },
{
    match annotate_image(engine, input_data, confidence_threshold, forward) {
        Ok(bytes) => Ok(bytes),
        Err(e) => Err(e.describe()),
    }
}

} // verus!
