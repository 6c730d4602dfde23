use rc_renderer::shadow::{
    SHADOW_CASCADE_COUNT, SHADOW_CASCADE_HALF_EXTENTS_M, SHADOW_CASCADE_SPLITS_M,
    SHADOW_DEPTH_BIAS_CONSTANT, SHADOW_MAP_RESOLUTION,
};

#[test]
fn production_configuration_is_exactly_three_ordered_cascades() {
    assert_eq!(SHADOW_CASCADE_COUNT, 3);
    assert_eq!(SHADOW_CASCADE_SPLITS_M, [32, 128, 512]);
    assert!(SHADOW_CASCADE_SPLITS_M.windows(2).all(|pair| pair[0] < pair[1]));
    assert!(SHADOW_CASCADE_HALF_EXTENTS_M.windows(2).all(|pair| pair[0] < pair[1]));
}

#[test]
fn shadow_map_resolution_and_bias() {
    assert_eq!(SHADOW_MAP_RESOLUTION, 2_048);
    assert_eq!(SHADOW_DEPTH_BIAS_CONSTANT, 2);
    assert_eq!(SHADOW_CASCADE_HALF_EXTENTS_M, [40, 128, 512]);
    assert_eq!(SHADOW_CASCADE_SPLITS_M.len(), SHADOW_CASCADE_COUNT);
}
