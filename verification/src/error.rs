use uuid::Uuid;
use vstd::prelude::*;

verus! {

/// What can go wrong when an axis is made or a histogram is filled.
#[derive(Debug, Clone, PartialEq, Eq)]
pub enum HistogramError {
    /// The fill gave a second coordinate to a 1-D histogram, or none to a 2-D one.
    WrongDimensions,
    /// The value lies outside the half-open range of the axis: minimum, maximum, value.
    OutOfBounds(i32, i32, i32),
    /// The axis has no bins or an empty range: title, bins, minimum, maximum.
    BadAxis(String, usize, i32, i32),
}

/// What can go wrong when a cut is made or registered.
#[derive(Debug, Clone, PartialEq, Eq)]
pub enum CutError {
    /// The interval is empty: low, high.
    Invalid1D(i32, i32),
    /// Too few vertices, coordinate lists of different lengths, or no second variable.
    Invalid2D,
    /// The last vertex is not the first.
    Unclosed2D,
    /// The histogram that the cut was to be drawn on is not registered.
    NoReferenceHistogram(Uuid),
}

/// What the registry reports to its caller.
#[derive(Debug, Clone, PartialEq, Eq)]
pub enum ResourceError {
    /// No histogram is registered under this identifier.
    InvalidHistogramID(Uuid),
    /// The cut could not be made or attached.
    CutFailed(CutError),
}

impl From<CutError> for ResourceError {
    /// A cut's failure, as the registry reports it.
    fn from(e: CutError) -> (wrapped: ResourceError) {
        ResourceError::CutFailed(e)
    }
}

impl vstd::std_specs::convert::FromSpecImpl<CutError> for ResourceError {
    open spec fn obeys_from_spec() -> bool {
        true
    }

    open spec fn from_spec(e: CutError) -> ResourceError {
        ResourceError::CutFailed(e)
    }
}

} // verus!
