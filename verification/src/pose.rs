//! Failures of the conversion from simulation pose to render pose.

use vstd::prelude::*;

verus! {

/// Why a simulation pose cannot be rendered.
#[derive(Debug, Clone, Copy, PartialEq, Eq, Structural)]
pub enum RenderDataError {
    NonFinitePosition,
    PositionOutsideF32Range,
    InvalidOrientation,
}

impl RenderDataError {
    /// Human-readable description of the failure.
    pub fn message(&self) -> (message: &'static str)
        ensures
            message@ == match *self {
                RenderDataError::NonFinitePosition => "render pose position or origin contains a non-finite scalar"@,
                RenderDataError::PositionOutsideF32Range => "render-relative position cannot be represented as finite f32 values"@,
                RenderDataError::InvalidOrientation => "render pose orientation must be a finite non-zero Hamilton quaternion"@,
            },
    {
        match self {
            RenderDataError::NonFinitePosition => "render pose position or origin contains a non-finite scalar",
            RenderDataError::PositionOutsideF32Range => "render-relative position cannot be represented as finite f32 values",
            RenderDataError::InvalidOrientation => "render pose orientation must be a finite non-zero Hamilton quaternion",
        }
    }
}

} // verus!
