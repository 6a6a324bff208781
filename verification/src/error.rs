use vstd::prelude::*;

verus! {

/// A violated precondition of the detection pipeline.
///
/// Every variant points at a configuration mistake rather than at a
/// transient condition, so callers are expected to stop on any of them.
#[derive(Debug, Clone, Copy, PartialEq, Eq, Structural)]
pub enum DetectionError {
    /// The sample buffer does not hold exactly `width * height` samples.
    BufferSizeMismatch,
    /// The two frames handed to a comparison differ in width or height.
    FrameSizeMismatch,
    /// The region reaches outside the frame it is applied to.
    RegionOutsideFrame,
    /// The template is wider or taller than the frame.
    TemplateLargerThanFrame,
    /// No template was supplied.
    EmptyTemplateSet,
}

} // verus!
