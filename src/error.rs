use vstd::prelude::*;

verus! {

/// Why a shape could not be traced or drawn.
#[derive(Copy, Clone, Debug, PartialEq, Eq, Structural)]
pub enum ShapeError {
    /// The curve does not cross the column where a walk starts.
    NoIntersection,
    /// A walk reached a point with no neighbour left to step to.
    NoTraceableNeighbor,
    /// A point lies outside the canvas that the radius declares (for a walk: outside the
    /// canvas widened by one cell on each side).
    OutOfBounds,
    /// A walk ran through more steps than it has distinct states without returning to its
    /// start, so it never will.
    Unclosed,
}

} // verus!
