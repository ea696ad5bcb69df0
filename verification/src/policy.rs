use vstd::prelude::*;

verus! {

/// The query fell strictly outside the breakpoint range while the
/// [`Extrapolation::Error`] policy was selected.
#[derive(Debug, Clone, Copy, PartialEq, Eq, Structural)]
pub struct ExtrapolationError;

/// A table rejected at construction time, before any lookup could see it.
#[derive(Debug, Clone, Copy, PartialEq, Eq, Structural)]
pub enum TableError {
    /// Breakpoints and values do not have matching lengths (or, for a grid,
    /// some row does not match the horizontal axis).
    LengthMismatch,
    /// Fewer than two entries on an axis: no segment exists to define a slope.
    TooShort,
    /// Some breakpoint or value exceeds [`crate::MAX_MAGNITUDE`] in magnitude.
    OutOfRange,
    /// Breakpoints are not strictly ascending.
    NotAscending,
}

/// How a query outside the breakpoint range is resolved (1-D tables only).
#[derive(Debug, Clone, Copy, PartialEq, Eq, Structural)]
pub enum Extrapolation {
    /// Fail with [`ExtrapolationError`].
    Error,
    /// Clamp: return the first value below the range, the last value above it.
    HoldExtreme,
    /// Continue the line of the nearest edge segment.
    Linear,
}

/// How a query strictly between two breakpoints is resolved.
#[derive(Debug, Clone, Copy, PartialEq, Eq, Structural)]
pub enum Interpolation {
    /// Blend the two neighbouring values along the segment's slope.
    Linear,
    /// Round down: always take the value at the previous breakpoint.
    Floor,
    /// Round up: always take the value at the next breakpoint.
    Ceiling,
    /// Take the value at the nearer breakpoint.  At an exact half-segment
    /// tie (the halfway mark rounding down on odd segments) the upper value
    /// is taken.
    Closest,
}

} // verus!
