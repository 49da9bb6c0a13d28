//! What can go wrong, and at which stage.

use vstd::prelude::*;

verus! {

/// The stages of the pipeline.
#[derive(Clone, Copy, Debug, PartialEq, Eq, Structural)]
pub enum Stage {
    /// Decoding and encoding of images.
    Codec,
    /// Loading the model and running it.
    Inference,
    /// Suppression and rendering.
    Postprocess,
}

/// A failure of the pipeline.
#[derive(Clone, Copy, Debug, PartialEq, Eq, Structural)]
pub enum PipelineError {
    /// The bytes are in no supported image format, or the requested output
    /// format is not registered.
    UnsupportedFormat,
    /// The image is in a supported format but truncated or malformed.
    CorruptData,
    /// The model is missing, unreadable or inconsistent.
    ModelLoadError,
    /// The confidence threshold is not a fraction between zero and one.
    InvalidThreshold,
    /// The backend failed, or its output is malformed.
    InferenceError,
    /// The run was cancelled before it finished.
    Cancelled,
    /// A detection names a class that the label table does not have.
    UnknownClassId,
}

impl PipelineError {
    /// The stage at which this failure arises.
    pub open spec fn spec_stage(self) -> Stage {
        match self {
            PipelineError::UnsupportedFormat => Stage::Codec,
            PipelineError::CorruptData => Stage::Codec,
            PipelineError::ModelLoadError => Stage::Inference,
            PipelineError::InvalidThreshold => Stage::Inference,
            PipelineError::InferenceError => Stage::Inference,
            PipelineError::Cancelled => Stage::Inference,
            PipelineError::UnknownClassId => Stage::Postprocess,
        }
    }

    /// The text that names the stage and the cause.
    pub open spec fn description(self) -> Seq<char> {
        match self {
            PipelineError::UnsupportedFormat => "image codec: unsupported format"@,
            PipelineError::CorruptData => "image codec: corrupt data"@,
            PipelineError::ModelLoadError => "inference: model could not be loaded"@,
            PipelineError::InvalidThreshold => "inference: confidence threshold outside [0, 1]"@,
            PipelineError::InferenceError => "inference: backend failed"@,
            PipelineError::Cancelled => "inference: cancelled"@,
            PipelineError::UnknownClassId => "postprocess: class identifier not in label table"@,
        }
    }

    /// Whether the pipeline gives up as a whole on this failure because it
    /// shows a mismatch between the model and its label table.
    pub open spec fn spec_is_fatal(self) -> bool {
        self == PipelineError::UnknownClassId
    }

    pub fn stage(&self) -> (stage: Stage)
        ensures
            stage == self.spec_stage(),
    {
        match self {
            PipelineError::UnsupportedFormat => Stage::Codec,
            PipelineError::CorruptData => Stage::Codec,
            PipelineError::ModelLoadError => Stage::Inference,
            PipelineError::InvalidThreshold => Stage::Inference,
            PipelineError::InferenceError => Stage::Inference,
            PipelineError::Cancelled => Stage::Inference,
            PipelineError::UnknownClassId => Stage::Postprocess,
        }
    }

    pub fn is_fatal(&self) -> (fatal: bool)
        ensures
            fatal == self.spec_is_fatal(),
    {
        match self {
            PipelineError::UnknownClassId => true,
            _ => false,
        }
    }

    /// A sentence for the user that names the failing stage and the cause.
    pub fn describe(&self) -> (text: String)
        ensures
            text@ == self.description(),
    {
        match self {
            PipelineError::UnsupportedFormat => "image codec: unsupported format".to_owned(),
            PipelineError::CorruptData => "image codec: corrupt data".to_owned(),
            PipelineError::ModelLoadError => "inference: model could not be loaded".to_owned(),
            PipelineError::InvalidThreshold => "inference: confidence threshold outside [0, 1]".to_owned(),
            PipelineError::InferenceError => "inference: backend failed".to_owned(),
            PipelineError::Cancelled => "inference: cancelled".to_owned(),
            PipelineError::UnknownClassId => "postprocess: class identifier not in label table".to_owned(),
        }
    }
}

} // verus!
