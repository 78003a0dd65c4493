use vstd::prelude::*;

verus! {

/// Why a transform step refused its input.
#[derive(Clone, Copy, Debug, PartialEq, Eq, Structural)]
pub enum TransformError {
    /// At some visited position and channel the maximum lies below the minimum,
    /// so no midpoint exists between them.
    InvertedExtrema,
    /// An image has more pixels than an extrema buffer it is held against.
    ExtremaTooShort,
    /// The requested width and height do not multiply to the number of pixels at hand.
    DimensionMismatch,
    /// The image container cannot address a raster of the requested width.
    ImageTooLarge,
}

} // verus!
