//! Geometry of the feature-point patches.
use vstd::prelude::*;

verus! {

/// Size of the square patch extracted around each keypoint.
pub const PATCH_SIZE: usize = 64;

/// Half the patch size — the radius from keypoint center to patch edge.
pub const HALF_PATCH: u32 = 32;

/// Minimum distance from image edge for a keypoint to be usable.
/// Must be at least HALF_PATCH to extract a full patch, plus margin for rotation.
pub const EDGE_MARGIN: u32 = HALF_PATCH + 8;

/// Keypoints are searched only in images wider and taller than twice the
/// edge margin.
pub fn has_keypoint_area(width: u32, height: u32) -> (r: bool)
    ensures
        r == (width >= 2 * 40 + 1 && height >= 2 * 40 + 1),
{
    !(width < EDGE_MARGIN * 2 + 1 || height < EDGE_MARGIN * 2 + 1)
}

} // verus!
