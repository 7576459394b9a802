//! What can go wrong while a map is configured and built.

use crate::geometry::Axis;
use vstd::prelude::*;

verus! {

/// A configuration from which no map can be built. None of these is repaired
/// silently: the build is abandoned and the caller mends the inputs.
#[derive(Clone, Copy, Debug, PartialEq, Eq, Structural)]
pub enum ConfigError {
    /// The basis of the projection has determinant zero, so that no inverse
    /// exists.
    SingularBasis,
    /// The anchor point has no sub-steps to be counted in, or lies beyond the
    /// footprint of its cell.
    AnchorOutOfRange,
    /// Along `axis` the atlas does not slice into a whole number of tiles: the
    /// number of tiles would be `numerator / denominator`, which the tolerance
    /// does not accept as a count.
    AtlasMisfit { axis: Axis, numerator: i64, denominator: i64 },
    /// Dominance overhang was asked for together with perspective overhang or
    /// underhang.
    ConflictingOverhangs,
    /// The map has more cells than this machine can address.
    MapTooLarge,
}

} // verus!
