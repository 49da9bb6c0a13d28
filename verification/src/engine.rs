//! The inference engine: what the model expects, how an image is prepared
//! for it, and how its raw output becomes detections.
//!
//! The forward pass itself is not part of this library. A run is prepared
//! here, handed to whatever computes the forward pass, and completed here
//! from the outcome.

use vstd::prelude::*;
use crate::detection::Detection;
use crate::error::PipelineError;
use crate::geometry::{lemma_product_bound, SCORE_ONE};
use crate::letterbox::{planned, Letterbox};
use crate::raster::{Raster, RasterView};
use crate::resample::{letterbox_image, letterboxed};
use crate::tensor::{tensor_of, Tensor, TensorView};

verus! {

/// The confidence threshold used when the caller names none: three tenths.
pub const DEFAULT_CONFIDENCE_THRESHOLD: i32 = 300_000;

/// A threshold in millionths is a fraction between zero and one.
pub open spec fn threshold_in_range(threshold: int) -> bool {
    0 <= threshold <= SCORE_ONE
}

pub fn threshold_is_valid(threshold: i32) -> (ok: bool)
    ensures
        ok == threshold_in_range(threshold as int),
{
    0 <= threshold && threshold <= 1_000_000
}

/// What a model file declares of its input and output.
#[derive(Clone, Copy, Debug, PartialEq, Eq, Structural)]
pub struct ModelTopology {
    /// Width of the input tensor.
    pub input_width: u32,
    /// Height of the input tensor.
    pub input_height: u32,
    /// Number of class scores in each output cell.
    pub class_count: usize,
}

/// One cell of the model's output, in model-space pixels and millionths.
#[derive(Debug, PartialEq, Eq)]
pub struct RawCandidate {
    pub x_min: i32,
    pub y_min: i32,
    pub x_max: i32,
    pub y_max: i32,
    /// How sure the model is that the cell holds any object.
    pub objectness: u32,
    /// One score for each class.
    pub class_scores: Vec<u32>,
}

/// How a forward pass ended.
#[derive(Debug, PartialEq, Eq)]
pub enum BackendOutcome {
    /// The pass finished with these output cells.
    Output(Vec<RawCandidate>),
    /// The backend could not compute the pass.
    Failed,
    /// The pass was cancelled, or its deadline passed.
    Cancelled,
}

/// `k` is the first position in `scores` that holds the highest score.
pub open spec fn is_top(scores: Seq<u32>, k: int) -> bool {
    &&& 0 <= k < scores.len()
    &&& forall|i: int| 0 <= i < scores.len() ==> #[trigger] scores[i] <= scores[k]
    &&& forall|i: int| 0 <= i < k ==> #[trigger] scores[i] < scores[k]
}

/// The class with the highest score, the first of them on a tie.
pub open spec fn top_class(scores: Seq<u32>) -> int {
    choose|k: int| is_top(scores, k)
}

/// Objectness times the highest class score, in millionths, rounded down.
pub open spec fn confidence_of(objectness: u32, scores: Seq<u32>) -> int {
    (objectness as int) * (scores[top_class(scores)] as int) / (SCORE_ONE as int)
}

/// The cell has one score for each class, and all its fractions are at most
/// one.
pub open spec fn scores_valid(c: RawCandidate, class_count: int) -> bool {
    &&& class_count > 0
    &&& c.class_scores@.len() == class_count
    &&& c.objectness <= SCORE_ONE
    &&& forall|i: int| 0 <= i < c.class_scores@.len() ==> #[trigger] c.class_scores@[i] <= SCORE_ONE
}

/// The cell's confidence reaches the threshold.
pub open spec fn passes(c: RawCandidate, threshold: int) -> bool {
    confidence_of(c.objectness, c.class_scores@) >= threshold
}

/// The corners of the cell's box are in order.
pub open spec fn box_ordered(c: RawCandidate) -> bool {
    c.x_min <= c.x_max && c.y_min <= c.y_max
}

/// The cell is well-formed as far as the run reads it: its scores always,
/// its box where its confidence reaches the threshold.
pub open spec fn candidate_acceptable(c: RawCandidate, class_count: int, threshold: int) -> bool {
    scores_valid(c, class_count) && (passes(c, threshold) ==> box_ordered(c))
}

/// Every cell of the output is acceptable.
pub open spec fn output_acceptable(raw: Seq<RawCandidate>, class_count: int, threshold: int) -> bool {
    forall|i: int|
        0 <= i < raw.len() ==> candidate_acceptable(#[trigger] raw[i], class_count, threshold)
}

/// The detection that a cell stands for, with its box mapped back onto the
/// image.
pub open spec fn detection_of(c: RawCandidate, lb: Letterbox) -> Detection {
    Detection {
        bbox: lb.restored_box(c.x_min as int, c.y_min as int, c.x_max as int, c.y_max as int),
        class_id: top_class(c.class_scores@) as usize,
        confidence: confidence_of(c.objectness, c.class_scores@) as u32,
    }
}

pub open spec fn passing(threshold: int) -> spec_fn(RawCandidate) -> bool {
    |c: RawCandidate| passes(c, threshold)
}

pub open spec fn detecting(lb: Letterbox) -> spec_fn(RawCandidate) -> Detection {
    |c: RawCandidate| detection_of(c, lb)
}

/// The detections of an output: its cells whose confidence reaches the
/// threshold, in their order.
pub open spec fn decoded(raw: Seq<RawCandidate>, lb: Letterbox, threshold: int) -> Seq<Detection> {
    raw.filter(passing(threshold)).map_values(detecting(lb))
}

/// What a run returns for a given outcome of the forward pass.
pub open spec fn completion(
    outcome: BackendOutcome,
    class_count: int,
    lb: Letterbox,
    threshold: int,
) -> Result<Seq<Detection>, PipelineError> {
    match outcome {
        BackendOutcome::Cancelled => Err(PipelineError::Cancelled),
        BackendOutcome::Failed => Err(PipelineError::InferenceError),
        BackendOutcome::Output(raw) => if output_acceptable(raw@, class_count, threshold) {
            Ok(decoded(raw@, lb, threshold))
        } else {
            Err(PipelineError::InferenceError)
        },
    }
}

/// The result holds what was expected: the same detections, or the same
/// failure.
pub open spec fn yields(
    result: Result<Vec<Detection>, PipelineError>,
    expected: Result<Seq<Detection>, PipelineError>,
) -> bool {
    match result {
        Ok(found) => expected == Ok::<Seq<Detection>, PipelineError>(found@),
        Err(e) => expected == Err::<Seq<Detection>, PipelineError>(e),
    }
}

/// A sequence of scores has one top class only.
pub proof fn lemma_top_unique(scores: Seq<u32>, a: int, b: int)
    requires
        is_top(scores, a),
        is_top(scores, b),
    ensures
        a == b,
{
    if a < b {
        assert(scores[a] < scores[b]);
        assert(scores[b] <= scores[a]);
    } else if b < a {
        assert(scores[b] < scores[a]);
        assert(scores[a] <= scores[b]);
    }
}

/// Two runs on the same engine, image and threshold that meet the same
/// outcome of the forward pass return the same detections or the same
/// failure.
pub proof fn lemma_run_deterministic(
    first: Result<Vec<Detection>, PipelineError>,
    second: Result<Vec<Detection>, PipelineError>,
    outcome: BackendOutcome,
    class_count: int,
    lb: Letterbox,
    threshold: int,
)
    requires
        yields(first, completion(outcome, class_count, lb, threshold)),
        yields(second, completion(outcome, class_count, lb, threshold)),
    ensures
        first is Ok <==> second is Ok,
        first is Ok ==> first->Ok_0@ == second->Ok_0@,
        first is Err ==> first->Err_0 == second->Err_0,
{
}

/// Every detection of an acceptable output is valid and lies within the
/// image.
pub proof fn lemma_decoded_fit(raw: Seq<RawCandidate>, class_count: int, lb: Letterbox, threshold: int)
    requires
        lb.wf(),
        output_acceptable(raw, class_count, threshold),
    ensures
        forall|i: int|
            0 <= i < decoded(raw, lb, threshold).len() ==> (#[trigger] decoded(
                raw,
                lb,
                threshold,
            )[i]).fits(lb.source_width as int, lb.source_height as int) && decoded(
                raw,
                lb,
                threshold,
            )[i].class_id < class_count,
{
    let kept = raw.filter(passing(threshold));
    let out = decoded(raw, lb, threshold);
    assert forall|i: int| 0 <= i < out.len() implies (#[trigger] out[i]).fits(
        lb.source_width as int,
        lb.source_height as int,
    ) && out[i].class_id < class_count by {
        let c = kept[i];
        raw.lemma_filter_pred(passing(threshold), i);
        assert(kept.contains(c));
        raw.lemma_filter_contains_rev(passing(threshold), c);
        let j = choose|j: int| 0 <= j < raw.len() && raw[j] == c;
        assert(candidate_acceptable(raw[j], class_count, threshold));
        lemma_detection_fits(c, class_count, lb);
    }
}

/// The detection of a well-formed cell with an ordered box is valid and lies
/// within the image.
pub proof fn lemma_detection_fits(c: RawCandidate, class_count: int, lb: Letterbox)
    requires
        lb.wf(),
        scores_valid(c, class_count),
        box_ordered(c),
    ensures
        detection_of(c, lb).fits(lb.source_width as int, lb.source_height as int),
        detection_of(c, lb).class_id < class_count,
        0 <= confidence_of(c.objectness, c.class_scores@) <= SCORE_ONE,
{
    let scores = c.class_scores@;
    assert(scores[0] <= scores[0]);
    lemma_confidence_bound(c.objectness, scores);
    crate::letterbox::lemma_restored_monotone(
        c.x_min as int,
        c.x_max as int,
        lb.pad_x as int,
        lb.content_width as int,
        lb.source_width as int,
    );
    crate::letterbox::lemma_restored_monotone(
        c.y_min as int,
        c.y_max as int,
        lb.pad_y as int,
        lb.content_height as int,
        lb.source_height as int,
    );
}

/// The product of two fractions is a fraction.
pub proof fn lemma_confidence_bound(objectness: u32, scores: Seq<u32>)
    requires
        scores.len() > 0,
        objectness <= SCORE_ONE,
        forall|i: int| 0 <= i < scores.len() ==> #[trigger] scores[i] <= SCORE_ONE,
    ensures
        is_top(scores, top_class(scores)),
        0 <= confidence_of(objectness, scores) <= SCORE_ONE,
{
    let k = lemma_some_top(scores);
    let top = scores[top_class(scores)];
    lemma_product_bound(objectness as int, top as int, 1_000_000);
}

proof fn lemma_some_top(scores: Seq<u32>) -> (k: int)
    requires
        scores.len() > 0,
    ensures
        is_top(scores, k),
    decreases scores.len(),
{
    if scores.len() == 1 {
        0
    } else {
        let front = scores.drop_last();
        let k0 = lemma_some_top(front);
        assert(forall|i: int| 0 <= i < front.len() ==> front[i] == scores[i]);
        assert(front[k0] == scores[k0]);
        if scores.last() > scores[k0] {
            let k = scores.len() - 1;
            assert forall|i: int| 0 <= i < scores.len() implies #[trigger] scores[i] <= scores[k] by {
                if i < front.len() {
                    assert(front[i] <= front[k0]);
                }
            }
            assert forall|i: int| 0 <= i < k implies #[trigger] scores[i] < scores[k] by {
                assert(front[i] <= front[k0]);
            }
            k
        } else {
            assert forall|i: int| 0 <= i < scores.len() implies #[trigger] scores[i] <= scores[k0] by {
                if i < front.len() {
                    assert(front[i] <= front[k0]);
                }
            }
            assert forall|i: int| 0 <= i < k0 implies #[trigger] scores[i] < scores[k0] by {
                assert(front[i] < front[k0]);
            }
            k0
        }
    }
}

/// Class and confidence of a cell; `None` when its scores are malformed.
pub fn assess(c: &RawCandidate, class_count: usize) -> (found: Option<(usize, u32)>)
    ensures
        found is Some <==> scores_valid(*c, class_count as int),
        found matches Some((class_id, confidence)) ==> class_id == top_class(c.class_scores@)
            && class_id < class_count && confidence == confidence_of(
            c.objectness,
            c.class_scores@,
        ) && confidence <= SCORE_ONE,
{
    let scores = &c.class_scores;
    if class_count == 0 || scores.len() != class_count || c.objectness > SCORE_ONE {
        return None;
    }
    if scores[0] > SCORE_ONE {
        assert(c.class_scores@[0] > SCORE_ONE);
        return None;
    }
    let mut best: usize = 0;
    let mut i: usize = 1;
    while i < scores.len()
        invariant
            0 <= best < i <= scores.len(),
            scores@ == c.class_scores@,
            is_top(scores@.take(i as int), best as int),
            forall|j: int| 0 <= j < i ==> #[trigger] scores@[j] <= SCORE_ONE,
        decreases scores.len() - i,
    {
        let ghost before = scores@.take(i as int);
        let ghost after = scores@.take(i + 1);
        let ghost old_best = best;
        assert(forall|j: int| 0 <= j < i ==> before[j] == after[j]);
        if scores[i] > SCORE_ONE {
            assert(c.class_scores@[i as int] > SCORE_ONE);
            return None;
        }
        if scores[i] > scores[best] {
            best = i;
        }
        proof {
            assert forall|j: int| 0 <= j < after.len() implies #[trigger] after[j] <= after[best as int] by {
                if j < i {
                    assert(before[j] <= before[old_best as int]);
                }
            }
            assert forall|j: int| 0 <= j < best implies #[trigger] after[j] < after[best as int] by {
                assert(before[j] <= before[old_best as int]);
                if best == old_best {
                    assert(before[j] < before[old_best as int]);
                }
            }
        }
        i += 1;
    }
    proof {
        assert(scores@.take(scores.len() as int) =~= scores@);
        lemma_confidence_bound(c.objectness, scores@);
        lemma_top_unique(scores@, best as int, top_class(scores@));
        lemma_product_bound(c.objectness as int, scores@[best as int] as int, 1_000_000);
    }
    let confidence: u64 = (c.objectness as u64) * (scores[best] as u64) / 1_000_000;
    Some((best, confidence as u32))
}

/// Turns the model's raw output into detections on the image: cells below
/// the threshold are dropped, the boxes of the others are mapped back through
/// the letterbox. A malformed output is an inference failure.
pub fn decode_output(
    raw: &Vec<RawCandidate>,
    class_count: usize,
    letterbox: &Letterbox,
    threshold: i32,
) -> (result: Result<Vec<Detection>, PipelineError>)
    requires
        letterbox.wf(),
    ensures
        yields(
            result,
            completion(
                BackendOutcome::Output(*raw),
                class_count as int,
                *letterbox,
                threshold as int,
            ),
        ),
        result matches Ok(found) ==> forall|i: int|
            0 <= i < found.len() ==> (#[trigger] found[i]).fits(
                letterbox.source_width as int,
                letterbox.source_height as int,
            ) && found[i].class_id < class_count,
{
    let ghost pred = passing(threshold as int);
    let ghost make = detecting(*letterbox);
    let mut found: Vec<Detection> = Vec::new();
    let mut i: usize = 0;
    proof {
        reveal(Seq::filter);
        assert(raw@.take(0).filter(pred) =~= Seq::<RawCandidate>::empty());
    }
    while i < raw.len()
        invariant
            i <= raw.len(),
            letterbox.wf(),
            pred == passing(threshold as int),
            make == detecting(*letterbox),
            forall|j: int|
                0 <= j < i ==> candidate_acceptable(
                    #[trigger] raw@[j],
                    class_count as int,
                    threshold as int,
                ),
            found@ == raw@.take(i as int).filter(pred).map_values(make),
            forall|j: int|
                0 <= j < found.len() ==> (#[trigger] found[j]).fits(
                    letterbox.source_width as int,
                    letterbox.source_height as int,
                ) && found[j].class_id < class_count,
        decreases raw.len() - i,
    {
        let c = &raw[i];
        let ghost kept = raw@.take(i as int).filter(pred);
        proof {
            reveal(Seq::filter);
            let next = raw@.take(i + 1);
            assert(next.drop_last() =~= raw@.take(i as int));
            assert(next.last() == *c);
        }
        match assess(c, class_count) {
            None => {
                assert(!candidate_acceptable(raw@[i as int], class_count as int, threshold as int));
                return Err(PipelineError::InferenceError);
            },
            Some((class_id, confidence)) => {
                if confidence as i64 >= threshold as i64 {
                    if !(c.x_min <= c.x_max && c.y_min <= c.y_max) {
                        assert(!candidate_acceptable(
                            raw@[i as int],
                            class_count as int,
                            threshold as int,
                        ));
                        return Err(PipelineError::InferenceError);
                    }
                    let bbox = letterbox.restore_box(c.x_min, c.y_min, c.x_max, c.y_max);
                    let d = Detection { bbox, class_id, confidence };
                    found.push(d);
                    proof {
                        assert(d == detection_of(*c, *letterbox));
                        assert(kept.push(*c).map_values(make) =~= kept.map_values(make).push(d));
                    }
                }
            },
        }
        i += 1;
    }
    proof {
        assert(raw@.take(raw.len() as int) =~= raw@);
    }
    Ok(found)
}

/// The mathematical content of an engine.
pub struct EngineView {
    pub input_width: int,
    pub input_height: int,
    pub labels: Seq<String>,
}

/// A loaded model's fixed facts: the size of its input and the names of its
/// classes. It does not change once loaded and serves any number of runs.
#[derive(Debug, PartialEq, Eq)]
pub struct InferenceEngine {
    input_width: u32,
    input_height: u32,
    labels: Vec<String>,
}

impl View for InferenceEngine {
    type V = EngineView;

    closed spec fn view(&self) -> EngineView {
        EngineView {
            input_width: self.input_width as int,
            input_height: self.input_height as int,
            labels: self.labels@,
        }
    }
}

/// The declared topology agrees with itself and with the label table: the
/// input has positive sides that memory can hold, and there is one label for
/// each class score.
pub open spec fn topology_consistent(topology: ModelTopology, label_count: int) -> bool {
    &&& topology.input_width > 0
    &&& topology.input_height > 0
    &&& topology.input_width * topology.input_height <= usize::MAX
    &&& topology.class_count > 0
    &&& topology.class_count == label_count
}

/// The model input for an image: the image letterboxed to the engine's input
/// size, as a tensor.
pub open spec fn model_input(e: EngineView, r: RasterView) -> TensorView {
    tensor_of(letterboxed(r, planned(r.width, r.height, e.input_width, e.input_height)))
}

/// The mathematical content of a prepared run.
pub struct RequestView {
    pub tensor: TensorView,
    pub letterbox: Letterbox,
    pub threshold: int,
    pub class_count: int,
}

/// A run that is ready for its forward pass: the input tensor, and what is
/// needed to read the output.
#[derive(Debug, PartialEq, Eq)]
pub struct InferenceRequest {
    tensor: Tensor,
    letterbox: Letterbox,
    threshold: i32,
    class_count: usize,
}

impl View for InferenceRequest {
    type V = RequestView;

    closed spec fn view(&self) -> RequestView {
        RequestView {
            tensor: self.tensor@,
            letterbox: self.letterbox,
            threshold: self.threshold as int,
            class_count: self.class_count as int,
        }
    }
}

impl InferenceRequest {
    pub open spec fn wf(&self) -> bool {
        &&& self@.tensor.wf()
        &&& self@.letterbox.wf()
        &&& threshold_in_range(self@.threshold)
        &&& self@.class_count > 0
    }

    /// The tensor to run the forward pass on.
    pub fn tensor(&self) -> (t: &Tensor)
        ensures
            t@ == self@.tensor,
    {
        &self.tensor
    }

    /// How the image was fitted into the tensor.
    pub fn letterbox(&self) -> (lb: Letterbox)
        ensures
            lb == self@.letterbox,
    {
        self.letterbox
    }

    /// Completes the run from the outcome of the forward pass.
    pub fn complete(&self, outcome: &BackendOutcome) -> (result: Result<Vec<Detection>, PipelineError>)
        requires
            self.wf(),
        ensures
            yields(
                result,
                completion(*outcome, self@.class_count, self@.letterbox, self@.threshold),
            ),
            result matches Ok(found) ==> forall|i: int|
                0 <= i < found.len() ==> (#[trigger] found[i]).fits(
                    self@.letterbox.source_width as int,
                    self@.letterbox.source_height as int,
                ) && found[i].class_id < self@.class_count,
    {
        match outcome {
            BackendOutcome::Cancelled => Err(PipelineError::Cancelled),
            BackendOutcome::Failed => Err(PipelineError::InferenceError),
            BackendOutcome::Output(raw) => decode_output(
                raw,
                self.class_count,
                &self.letterbox,
                self.threshold,
            ),
        }
    }
}

impl InferenceEngine {
    pub open spec fn wf(&self) -> bool {
        &&& self@.input_width > 0
        &&& self@.input_height > 0
        &&& self@.input_width <= u32::MAX
        &&& self@.input_height <= u32::MAX
        &&& self@.input_width * self@.input_height <= usize::MAX
        &&& self@.labels.len() > 0
    }

    /// Makes an engine from what a model file declares and the label table
    /// shipped with it. Fails with `ModelLoadError` when the two are
    /// inconsistent.
    pub fn load(topology: ModelTopology, labels: Vec<String>) -> (loaded: Result<
        InferenceEngine,
        PipelineError,
    >)
        ensures
            loaded is Ok <==> topology_consistent(topology, labels@.len() as int),
            loaded matches Ok(engine) ==> engine.wf() && engine@ == (EngineView {
                input_width: topology.input_width as int,
                input_height: topology.input_height as int,
                labels: labels@,
            }),
            loaded matches Err(e) ==> e == PipelineError::ModelLoadError,
    {
        if topology.input_width == 0 || topology.input_height == 0 || topology.class_count == 0
            || topology.class_count != labels.len() {
            return Err(PipelineError::ModelLoadError);
        }
        proof {
            lemma_product_bound(
                topology.input_width as int,
                topology.input_height as int,
                0xFFFF_FFFF,
            );
        }
        let cells: u64 = (topology.input_width as u64) * (topology.input_height as u64);
        if cells > usize::MAX as u64 {
            return Err(PipelineError::ModelLoadError);
        }
        Ok(
            InferenceEngine {
                input_width: topology.input_width,
                input_height: topology.input_height,
                labels,
            },
        )
    }

    /// The names of the classes, by class identifier.
    pub fn labels(&self) -> (labels: &Vec<String>)
        ensures
            labels@ == self@.labels,
    {
        &self.labels
    }

    pub fn input_width(&self) -> (w: u32)
        ensures
            w == self@.input_width,
    {
        self.input_width
    }

    pub fn input_height(&self) -> (h: u32)
        ensures
            h == self@.input_height,
    {
        self.input_height
    }

    pub fn class_count(&self) -> (n: usize)
        ensures
            n == self@.labels.len(),
    {
        self.labels.len()
    }

    /// Prepares a run: checks the threshold, letterboxes the image to the
    /// model's input size and lays it out as a tensor. With a threshold that
    /// is no fraction nothing is prepared, so no inference can follow.
    pub fn prepare(&self, raster: &Raster, confidence_threshold: i32) -> (result: Result<
        InferenceRequest,
        PipelineError,
    >)
        requires
            self.wf(),
            raster.wf(),
        ensures
            result is Ok <==> threshold_in_range(confidence_threshold as int),
            result matches Err(e) ==> e == PipelineError::InvalidThreshold,
            result matches Ok(request) ==> request.wf() && request@ == (RequestView {
                tensor: model_input(self@, raster@),
                letterbox: planned(
                    raster@.width,
                    raster@.height,
                    self@.input_width,
                    self@.input_height,
                ),
                threshold: confidence_threshold as int,
                class_count: self@.labels.len() as int,
            }),
    {
        if !threshold_is_valid(confidence_threshold) {
            return Err(PipelineError::InvalidThreshold);
        }
        let letterbox = Letterbox::plan(
            raster.width(),
            raster.height(),
            self.input_width,
            self.input_height,
        ).unwrap();
        let input = letterbox_image(raster, &letterbox).unwrap();
        let tensor = Tensor::from_raster(&input);
        Ok(
            InferenceRequest {
                tensor,
                letterbox,
                threshold: confidence_threshold,
                class_count: self.labels.len(),
            },
        )
    }

    /// Runs the model on an image: prepares the input, has `forward` compute
    /// the forward pass on it, and decodes what comes back. `forward` is not
    /// called when the threshold is no fraction.
    pub fn run<F>(&self, raster: &Raster, confidence_threshold: i32, forward: F) -> (result: Result<
        Vec<Detection>,
        PipelineError,
    >) where F: FnOnce(&Tensor) -> BackendOutcome
        requires
            self.wf(),
            raster.wf(),
            forall|t: Tensor|
                t.wf() && t@ == model_input(self@, raster@) ==> #[trigger] call_requires(
                    forward,
                    (&t,),
                ),
        ensures
            !threshold_in_range(confidence_threshold as int) ==> result == Err::<
                Vec<Detection>,
                PipelineError,
            >(PipelineError::InvalidThreshold),
            threshold_in_range(confidence_threshold as int) ==> exists|
                t: Tensor,
                outcome: BackendOutcome,
            |
                t@ == model_input(self@, raster@) && #[trigger] call_ensures(forward, (&t,), outcome)
                    && yields(
                    result,
                    completion(
                        outcome,
                        self@.labels.len() as int,
                        planned(
                            raster@.width,
                            raster@.height,
                            self@.input_width,
                            self@.input_height,
                        ),
                        confidence_threshold as int,
                    ),
                ),
            result matches Ok(found) ==> forall|i: int|
                0 <= i < found.len() ==> (#[trigger] found[i]).fits(raster@.width, raster@.height)
                    && found[i].class_id < self@.labels.len(),
    {
        match self.prepare(raster, confidence_threshold) {
            Err(e) => Err(e),
            Ok(request) => {
                let input = request.tensor();
                let outcome = forward(input);
                assert(call_ensures(forward, (input,), outcome));
                request.complete(&outcome)
            },
        }
    }
}

} // verus!
