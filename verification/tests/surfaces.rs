use rc_renderer::pose::RenderDataError;
use rc_renderer::surfaces::{SurfaceId, CONTROL_SURFACE_COUNT, VISUAL_SLOT_COUNT};

#[test]
fn surface_slots_are_stable_and_distinct() {
    let all = [
        SurfaceId::LeftAileron,
        SurfaceId::RightAileron,
        SurfaceId::Elevator,
        SurfaceId::Rudder,
        SurfaceId::Propeller,
    ];
    for (slot, surface) in all.into_iter().enumerate() {
        assert_eq!(surface.index(), slot);
        assert!(surface.index() < VISUAL_SLOT_COUNT);
    }
    assert_eq!(VISUAL_SLOT_COUNT, 5);
}

#[test]
fn control_surfaces_exclude_the_propeller() {
    let surfaces = SurfaceId::control_surfaces();
    assert_eq!(surfaces.len(), CONTROL_SURFACE_COUNT);
    assert!(!surfaces.contains(&SurfaceId::Propeller));
    for (slot, surface) in surfaces.into_iter().enumerate() {
        assert_eq!(surface.index(), slot);
    }
}

#[test]
fn render_data_errors_describe_themselves() {
    assert_eq!(
        RenderDataError::NonFinitePosition.message(),
        "render pose position or origin contains a non-finite scalar"
    );
    assert_eq!(
        RenderDataError::PositionOutsideF32Range.message(),
        "render-relative position cannot be represented as finite f32 values"
    );
    assert_eq!(
        RenderDataError::InvalidOrientation.message(),
        "render pose orientation must be a finite non-zero Hamilton quaternion"
    );
}
