//! Errors of the engine core.

use vstd::prelude::*;

verus! {

/// What the engine reports to its callers.
#[derive(Debug, PartialEq, Eq)]
pub enum EngineError {
    /// The host refused a frame-scheduling request, or could not honor it.
    SchedulingUnavailable,
    /// The drawing surface could not be obtained for a frame.
    SurfaceUnavailable,
    /// The host reported that the named resource failed to load.
    LoadFailed { identifier: String, detail: String },
}

/// The mathematical value of an [`EngineError`]: the same variants, with the
/// texts as sequences of characters.
pub enum ErrorView {
    SchedulingUnavailable,
    SurfaceUnavailable,
    LoadFailed { identifier: Seq<char>, detail: Seq<char> },
}

impl View for EngineError {
    type V = ErrorView;

    open spec fn view(&self) -> ErrorView {
        match *self {
            EngineError::SchedulingUnavailable => ErrorView::SchedulingUnavailable,
            EngineError::SurfaceUnavailable => ErrorView::SurfaceUnavailable,
            EngineError::LoadFailed { identifier, detail } => ErrorView::LoadFailed {
                identifier: identifier@,
                detail: detail@,
            },
        }
    }
}

impl Clone for EngineError {
    fn clone(&self) -> (copy: EngineError)
        ensures
            copy@ == self@,
    {
        match self {
            EngineError::SchedulingUnavailable => EngineError::SchedulingUnavailable,
            EngineError::SurfaceUnavailable => EngineError::SurfaceUnavailable,
            EngineError::LoadFailed { identifier, detail } => EngineError::LoadFailed {
                identifier: identifier.clone(),
                detail: detail.clone(),
            },
        }
    }
}

} // verus!
