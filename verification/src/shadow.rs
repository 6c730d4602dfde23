//! Fixed production configuration of the cascaded directional shadows:
//! exactly three cascades (aircraft/runway, field/vegetation, far field) at
//! one resolution, with fixed split distances and fixed light-space extents.

use vstd::prelude::*;

verus! {

/// Exactly three cascades: aircraft/runway, field/vegetation, and far field.
pub const SHADOW_CASCADE_COUNT: usize = 3;
/// Persistent resolution of every layer in the shadow texture array.
pub const SHADOW_MAP_RESOLUTION: u32 = 2048;
/// Rasterizer bias, in depth-format units, used while creating each layer.
pub const SHADOW_DEPTH_BIAS_CONSTANT: i32 = 2;
/// View-distance split far planes, in whole render-space metres.
pub const SHADOW_CASCADE_SPLITS_M: [u32; 3] = [32, 128, 512];
/// Fixed square light-space half extents, in whole metres. Keeping these
/// fixed prevents scale changes (and shadow swimming) as the camera moves.
pub const SHADOW_CASCADE_HALF_EXTENTS_M: [u32; 3] = [40, 128, 512];

/// Law: the cascades are ordered from near to far, both by split distance
/// and by light-space extent.
pub proof fn law_cascades_are_ordered_near_to_far()
    ensures
        forall|i: int, j: int| 0 <= i < j < SHADOW_CASCADE_COUNT ==> SHADOW_CASCADE_SPLITS_M@[i]
            < SHADOW_CASCADE_SPLITS_M@[j] && SHADOW_CASCADE_HALF_EXTENTS_M@[i] < SHADOW_CASCADE_HALF_EXTENTS_M@[j],
{
    assert(SHADOW_CASCADE_SPLITS_M@ =~= seq![32u32, 128, 512]);
    assert(SHADOW_CASCADE_HALF_EXTENTS_M@ =~= seq![40u32, 128, 512]);
}

} // verus!
