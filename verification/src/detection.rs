//! A detected object: where it is, what it is, and how sure the model is.

use vstd::prelude::*;
use crate::geometry::{BoundingBox, SCORE_ONE};

verus! {

/// One detected object in original-image pixel coordinates.
#[derive(Clone, Copy, Debug, PartialEq, Eq, Structural)]
pub struct Detection {
    /// Where the object is.
    pub bbox: BoundingBox,
    /// Index of the object's class in the label table.
    pub class_id: usize,
    /// Confidence in millionths.
    pub confidence: u32,
}

impl Detection {
    /// The box is ordered and the confidence is a fraction of one.
    pub open spec fn is_valid(self) -> bool {
        self.bbox.is_valid() && self.confidence <= SCORE_ONE
    }

    /// Valid, and inside an image of the given size.
    pub open spec fn fits(self, width: int, height: int) -> bool {
        self.is_valid() && self.bbox.within(width, height)
    }

    pub fn new(bbox: BoundingBox, class_id: usize, confidence: u32) -> (d: Detection)
        ensures
            d == (Detection { bbox, class_id, confidence }),
    {
        Detection { bbox, class_id, confidence }
    }

    pub fn check_valid(&self) -> (ok: bool)
        ensures
            ok == self.is_valid(),
    {
        self.bbox.check_valid() && self.confidence <= SCORE_ONE
    }
}

} // verus!
