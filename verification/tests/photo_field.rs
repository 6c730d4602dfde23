use rc_renderer::photo_field::{
    bake_proxy_geometry, downsample_panorama_level, is_ground_node, panorama_mip_chain, ProxyBakeError, ProxyPrimitive, box_tap_offset, check_panorama_extent, downsample_extent, mip_level_count_for_size,
    panorama_mip_extents, PanoramaExtentError, PHOTO_FIELD_PANORAMA_HEIGHT,
    PHOTO_FIELD_PANORAMA_WIDTH,
};
use rc_renderer::texture::{
    padded_bytes_per_row_checked_for_bytes_per_pixel, COPY_BYTES_PER_ROW_ALIGNMENT,
};

#[test]
fn every_panorama_mip_row_pads_to_the_copy_alignment() {
    let mut width = PHOTO_FIELD_PANORAMA_WIDTH;
    loop {
        let row = padded_bytes_per_row_checked_for_bytes_per_pixel(width, 4)
            .expect("no overflow at any panorama level");
        assert!(row.is_multiple_of(COPY_BYTES_PER_ROW_ALIGNMENT));
        assert!(row >= width * 4);
        if width == 1 {
            break;
        }
        width /= 2;
    }
    assert_eq!(width, 1);
}

#[test]
fn mip_extents_run_from_the_base_down_to_one_by_one() {
    let (width, height) = (8u32, 4u32);
    let chain = panorama_mip_extents(width, height);
    assert_eq!(chain.len(), mip_level_count_for_size(width) as usize);
    assert_eq!(chain[0], (width, height));
    for pair in chain.windows(2) {
        assert_eq!(pair[1].0, (pair[0].0 / 2).max(1));
        assert_eq!(pair[1].1, (pair[0].1 / 2).max(1));
    }
    assert_eq!(*chain.last().unwrap(), (1, 1));
    assert_eq!(chain, vec![(8, 4), (4, 2), (2, 1), (1, 1)]);
}

#[test]
fn surveyed_panorama_has_fourteen_levels() {
    assert_eq!(mip_level_count_for_size(PHOTO_FIELD_PANORAMA_WIDTH), 14);
    let chain = panorama_mip_extents(PHOTO_FIELD_PANORAMA_WIDTH, PHOTO_FIELD_PANORAMA_HEIGHT);
    assert_eq!(chain.len(), 14);
    assert_eq!(chain[1], (4096, 2048));
    assert_eq!(chain[12], (2, 1));
    assert_eq!(chain[13], (1, 1));
}

#[test]
fn mip_level_counts() {
    assert_eq!(mip_level_count_for_size(1), 1);
    assert_eq!(mip_level_count_for_size(2), 2);
    assert_eq!(mip_level_count_for_size(3), 2);
    assert_eq!(mip_level_count_for_size(128), 8);
    assert_eq!(mip_level_count_for_size(512), 10);
    assert_eq!(mip_level_count_for_size(u32::MAX), 32);
}

#[test]
fn one_column_taps_all_land_on_the_only_texel() {
    // A one-column level: every tap lands on the only texel.
    for (dx, dy) in [(0, 0), (0, 1), (1, 0), (1, 1)] {
        assert_eq!(box_tap_offset(1, 1, 0, 0, dx, dy), 0);
    }
    assert_eq!(downsample_extent(1, 1), (1, 1));
}

#[test]
fn pole_taps_clamp_to_the_single_row() {
    // 2x1 -> 1x1: both columns, the single row twice.
    assert_eq!(downsample_extent(2, 1), (1, 1));
    assert_eq!(box_tap_offset(2, 1, 0, 0, 0, 0), 0);
    assert_eq!(box_tap_offset(2, 1, 0, 0, 1, 0), 4);
    assert_eq!(box_tap_offset(2, 1, 0, 0, 0, 1), 0);
    assert_eq!(box_tap_offset(2, 1, 0, 0, 1, 1), 4);
}

#[test]
fn box_phase_never_straddles_the_u_seam() {
    // 4x2 -> 2x1: texel 0 reads columns 0 and 1, texel 1 reads 2 and 3.
    let taps = |out_x| {
        [(0, 0), (1, 0), (0, 1), (1, 1)].map(|(dx, dy)| box_tap_offset(4, 2, out_x, 0, dx, dy) / 4)
    };
    assert_eq!(taps(0), [0, 1, 4, 5]);
    assert_eq!(taps(1), [2, 3, 6, 7]);
}

#[test]
fn only_the_surveyed_extent_is_accepted() {
    assert_eq!(check_panorama_extent(8192, 4096), Ok(()));
    assert_eq!(
        check_panorama_extent(4096, 2048),
        Err(PanoramaExtentError {
            width: 4096,
            height: 2048,
            expected_width: 8192,
            expected_height: 4096,
        })
    );
    assert!(check_panorama_extent(8192, 4095).is_err());
}

fn triangle(ground: bool, lift: f32) -> ProxyPrimitive<[f32; 3]> {
    ProxyPrimitive {
        ground,
        vertices: vec![[0.0, lift, 0.0], [1.0, lift, 0.0], [0.0, 1.0 + lift, 0.0]],
        indices: vec![0, 1, 2],
    }
}

fn two_instance_scene() -> Vec<ProxyPrimitive<[f32; 3]>> {
    // The ground receiver at the origin and one occluder baked 10 m up.
    vec![triangle(true, 0.0), triangle(false, 10.0)]
}

#[test]
fn proxy_partitioning_splits_by_node_name_and_bakes_the_world_transform() {
    let geometry = bake_proxy_geometry(&two_instance_scene()).expect("both roles present");
    assert_eq!(geometry.ground.vertices.len(), 3);
    assert_eq!(geometry.occluders.vertices.len(), 3);
    assert_eq!(geometry.ground.indices, vec![0, 1, 2]);
    assert_eq!(geometry.occluders.indices, vec![0, 1, 2]);
    assert_eq!(geometry.ground.vertices[0], [0.0, 0.0, 0.0]);
    assert_eq!(geometry.occluders.vertices[0], [0.0, 10.0, 0.0]);
    assert_eq!(geometry.occluders.vertices[1], [1.0, 10.0, 0.0]);
}

#[test]
fn proxy_partitioning_is_a_pure_function_of_the_asset() {
    let scene = two_instance_scene();
    assert_eq!(
        bake_proxy_geometry(&scene).expect("first"),
        bake_proxy_geometry(&scene).expect("second")
    );
}

#[test]
fn a_proxy_scene_without_a_ground_receiver_fails_closed() {
    let mut scene = two_instance_scene();
    scene.retain(|primitive| !primitive.ground);
    assert_eq!(
        bake_proxy_geometry(&scene),
        Err(ProxyBakeError::PartitionEmpty { ground: true })
    );
}

#[test]
fn a_proxy_scene_without_occluders_fails_closed() {
    let mut scene = two_instance_scene();
    scene.retain(|primitive| primitive.ground);
    assert_eq!(
        bake_proxy_geometry(&scene),
        Err(ProxyBakeError::PartitionEmpty { ground: false })
    );
}

#[test]
fn an_unnamed_proxy_node_is_treated_as_an_occluder_never_as_ground() {
    let mut scene = two_instance_scene();
    for primitive in &mut scene {
        primitive.ground = is_ground_node(None, "pf1_ground");
    }
    assert_eq!(
        bake_proxy_geometry(&scene),
        Err(ProxyBakeError::PartitionEmpty { ground: true })
    );
}

#[test]
fn later_primitives_of_a_batch_are_rebased_onto_it() {
    let scene = vec![
        triangle(false, 1.0),
        triangle(true, 0.0),
        triangle(false, 2.0),
        triangle(true, 0.5),
    ];
    let geometry = bake_proxy_geometry(&scene).unwrap();
    assert_eq!(geometry.ground.indices, vec![0, 1, 2, 3, 4, 5]);
    assert_eq!(geometry.occluders.indices, vec![0, 1, 2, 3, 4, 5]);
    assert_eq!(geometry.occluders.vertices[3], [0.0, 2.0, 0.0]);
    assert_eq!(geometry.ground.vertices[5], [0.0, 1.5, 0.0]);
}

#[test]
fn only_the_authored_ground_name_is_ground() {
    assert!(is_ground_node(Some("pf1_ground"), "pf1_ground"));
    assert!(!is_ground_node(Some("pf1_tree_trunk_0"), "pf1_ground"));
    assert!(!is_ground_node(Some("pf1_ground_2"), "pf1_ground"));
    assert!(!is_ground_node(Some(""), "pf1_ground"));
    assert!(!is_ground_node(None, "pf1_ground"));
}

type Rgba = (u8, u8, u8, u8);

fn srgb_u8_to_linear(byte: u8) -> f64 {
    let c = f64::from(byte) / 255.0;
    if c <= 0.04045 {
        c / 12.92
    } else {
        ((c + 0.055) / 1.055).powf(2.4)
    }
}

fn linear_to_srgb_u8(linear: f64) -> u8 {
    let c = linear.clamp(0.0, 1.0);
    let encoded = if c <= 0.003_130_8 { c * 12.92 } else { 1.055 * c.powf(1.0 / 2.4) - 0.055 };
    (encoded * 255.0).round().clamp(0.0, 255.0) as u8
}

/// The renderer's texel filter: colour averaged in linear light, alpha as is.
fn linear_light_average(t00: Rgba, t10: Rgba, t01: Rgba, t11: Rgba) -> Rgba {
    let taps = [t00, t10, t01, t11];
    let mut linear = [0.0f64; 3];
    let mut alpha = 0.0f64;
    for tap in taps {
        linear[0] += srgb_u8_to_linear(tap.0);
        linear[1] += srgb_u8_to_linear(tap.1);
        linear[2] += srgb_u8_to_linear(tap.2);
        alpha += f64::from(tap.3);
    }
    (
        linear_to_srgb_u8(linear[0] * 0.25),
        linear_to_srgb_u8(linear[1] * 0.25),
        linear_to_srgb_u8(linear[2] * 0.25),
        (alpha * 0.25).round().clamp(0.0, 255.0) as u8,
    )
}

/// A 4x2 panorama: columns 0 and 1 black, 2 and 3 white, so the u=0/u=1
/// seam separates the two halves.
fn seam_image() -> (u32, u32, Vec<u8>) {
    let (width, height) = (4u32, 2u32);
    let row: Vec<u8> = [0u8, 0, 255, 255].iter().flat_map(|value| [*value, *value, *value, 255]).collect();
    let mut bytes = Vec::with_capacity(row.len() * height as usize);
    for _ in 0..height {
        bytes.extend_from_slice(&row);
    }
    (width, height, bytes)
}

#[test]
fn the_full_chain_runs_from_the_base_down_to_one_by_one() {
    let (width, height) = (8u32, 4u32);
    let chain = panorama_mip_chain(vec![128u8; (width * height * 4) as usize], width, height, linear_light_average);
    assert_eq!(chain.len(), mip_level_count_for_size(width) as usize);
    assert_eq!((chain[0].width, chain[0].height), (width, height));
    for pair in chain.windows(2) {
        let (previous, next) = (&pair[0], &pair[1]);
        assert_eq!(next.width, (previous.width / 2).max(1));
        assert_eq!(next.height, (previous.height / 2).max(1));
        assert_eq!(next.bytes.len(), (next.width * next.height * 4) as usize, "every level must stay tightly packed");
    }
    let last = chain.last().expect("the chain is never empty");
    assert_eq!((last.width, last.height), (1, 1));
}

#[test]
fn the_chain_is_bitwise_deterministic() {
    let (width, height, bytes) = seam_image();
    let first = panorama_mip_chain(bytes.clone(), width, height, linear_light_average);
    let second = panorama_mip_chain(bytes, width, height, linear_light_average);
    assert_eq!(first, second);
}

#[test]
fn the_wrap_mip_chain_never_bleeds_across_the_u_seam() {
    let (width, height, bytes) = seam_image();
    let level = downsample_panorama_level(width, height, &bytes, &linear_light_average);
    assert_eq!((level.width, level.height), (2, 1));
    assert_eq!(&level.bytes[0..4], &[0, 0, 0, 255], "the black half must stay black");
    assert_eq!(&level.bytes[4..8], &[255, 255, 255, 255], "the white half must stay white");
}

#[test]
fn u_indexing_wraps_instead_of_reading_past_the_last_column() {
    let level = downsample_panorama_level(1, 1, &vec![40u8, 40, 40, 255], &linear_light_average);
    assert_eq!((level.width, level.height), (1, 1));
    for channel in 0..3 {
        assert!(level.bytes[channel].abs_diff(40) <= 1, "channel {channel} must round-trip, got {}", level.bytes[channel]);
    }
    assert_eq!(level.bytes[3], 255);
}

#[test]
fn each_output_texel_is_the_filter_of_its_own_four_taps() {
    // A filter that reports which taps it saw: red is the first tap's red,
    // green the second's, blue the third's, alpha the fourth's.
    let picks = |t00: Rgba, t10: Rgba, t01: Rgba, t11: Rgba| (t00.0, t10.0, t01.0, t11.0);
    // 4x2 level whose red channel numbers the texels 0..8 row-major.
    let bytes: Vec<u8> = (0u8..8).flat_map(|index| [index, 0, 0, 0]).collect();
    let level = downsample_panorama_level(4, 2, &bytes, &picks);
    assert_eq!((level.width, level.height), (2, 1));
    assert_eq!(level.bytes, vec![0, 1, 4, 5, 2, 3, 6, 7]);
    // 2x1 -> 1x1: the single row is read twice (clamp on V).
    let level = downsample_panorama_level(2, 1, &vec![10, 0, 0, 0, 20, 0, 0, 0], &picks);
    assert_eq!(level.bytes, vec![10, 20, 10, 20]);
}

#[test]
fn the_wrap_mip_chain_clamps_at_the_poles_instead_of_wrapping_them() {
    let (width, height) = (2u32, 1u32);
    let bytes: Vec<u8> = [0u8, 255].iter().flat_map(|value| [*value, *value, *value, 255]).collect();
    let level = downsample_panorama_level(width, height, &bytes, &linear_light_average);
    assert_eq!((level.width, level.height), (1, 1));
    assert_eq!(level.bytes[3], 255, "alpha stays opaque");
    assert!(level.bytes[0] > 0 && level.bytes[0] < 255, "the single texel averages both columns, got {}", level.bytes[0]);
}

#[test]
fn mip_filtering_happens_in_linear_light_not_on_encoded_bytes() {
    let (width, height) = (4u32, 2u32);
    let row: Vec<u8> = [0u8, 128, 128, 255].iter().flat_map(|value| [*value, *value, *value, 255]).collect();
    let mut bytes = Vec::with_capacity(row.len() * height as usize);
    for _ in 0..height {
        bytes.extend_from_slice(&row);
    }
    let level = downsample_panorama_level(width, height, &bytes, &linear_light_average);
    let linear_light = level.bytes[4];
    let byte_average = u32::from((128u16 + 255) / 2);
    assert!(u32::from(linear_light) > byte_average, "linear-light mixing ({linear_light}) must be brighter than byte mixing ({byte_average})");
    assert_eq!(linear_light, 205);
}
