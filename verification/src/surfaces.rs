//! Named articulated visual subparts of the aircraft and their stable slots.

use vstd::prelude::*;

verus! {

/// Control-surface slots in the per-frame presentation state.
pub const CONTROL_SURFACE_COUNT: usize = 4;
/// Total visual slots including the reserved propeller node.
pub const VISUAL_SLOT_COUNT: usize = 5;

/// Named visual subparts. Indices are stable and deterministic.
#[derive(Debug, Clone, Copy, PartialEq, Eq, Hash, Structural)]
pub enum SurfaceId {
    LeftAileron,
    RightAileron,
    Elevator,
    Rudder,
    /// Reserved slot for a future propeller visual.
    Propeller,
}

/// Slot of a subpart.
pub open spec fn surface_slot(surface: SurfaceId) -> nat {
    match surface {
        SurfaceId::LeftAileron => 0,
        SurfaceId::RightAileron => 1,
        SurfaceId::Elevator => 2,
        SurfaceId::Rudder => 3,
        SurfaceId::Propeller => 4,
    }
}

impl SurfaceId {
    /// Stable slot of this subpart.
    pub fn index(self) -> (index: usize)
        ensures
            index == surface_slot(self),
            index < VISUAL_SLOT_COUNT,
    {
        match self {
            SurfaceId::LeftAileron => 0,
            SurfaceId::RightAileron => 1,
            SurfaceId::Elevator => 2,
            SurfaceId::Rudder => 3,
            SurfaceId::Propeller => 4,
        }
    }

    /// The articulated control surfaces, in slot order (no propeller).
    pub fn control_surfaces() -> (surfaces: [SurfaceId; 4])
        ensures
            forall|i: int| 0 <= i < CONTROL_SURFACE_COUNT ==> #[trigger] surface_slot(surfaces@[i]) == i,
    {
        let surfaces = [SurfaceId::LeftAileron, SurfaceId::RightAileron, SurfaceId::Elevator, SurfaceId::Rudder];
        proof {
            assert forall|i: int| 0 <= i < CONTROL_SURFACE_COUNT implies #[trigger] surface_slot(surfaces@[i]) == i by {
                if i == 0 {
                } else if i == 1 {
                } else if i == 2 {
                } else {
                }
            }
        }
        surfaces
    }
}

/// Law: slots are distinct, so every subpart owns its own slot.
pub proof fn law_surface_slots_are_distinct(first: SurfaceId, second: SurfaceId)
    ensures
        surface_slot(first) == surface_slot(second) ==> first == second,
{
}

} // verus!
