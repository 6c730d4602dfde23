use InstanceVisibility::{CulledByDistance, CulledByFrustum, Visible};
use rc_renderer::vegetation::{
    batch_by_group, classify_instance, draw_calls, frame_stats, group_index, initial_lod, InstanceVisibility, next_lod, DeterministicRng, LodBandPosition, VegetationDebugMode, VegetationFrameStats,
    DEFAULT_VEGETATION_SEED, GROUP_COUNT, LOD_COUNT, PART_COUNT,
};

#[test]
fn debug_modes_map_cleanly() {
    for mode in [
        VegetationDebugMode::Final,
        VegetationDebugMode::Lod,
        VegetationDebugMode::Culling,
    ] {
        let label = mode.label();
        assert_eq!(VegetationDebugMode::from_label(label), Some(mode));
        assert_eq!(mode.as_u32(), mode as u32);
    }
    assert_eq!(VegetationDebugMode::from_label("bogus"), None);
}

#[test]
fn debug_mode_labels_and_codes_are_exact() {
    assert_eq!(VegetationDebugMode::Final.label(), "final");
    assert_eq!(VegetationDebugMode::Lod.label(), "lod");
    assert_eq!(VegetationDebugMode::Culling.label(), "culling");
    assert_eq!(VegetationDebugMode::Final.as_u32(), 0);
    assert_eq!(VegetationDebugMode::Lod.as_u32(), 1);
    assert_eq!(VegetationDebugMode::Culling.as_u32(), 2);
    assert_eq!(VegetationDebugMode::default(), VegetationDebugMode::Final);
    assert_eq!(VegetationDebugMode::from_label("LOD"), None);
    assert_eq!(VegetationDebugMode::from_label(""), None);
    assert_eq!(VegetationDebugMode::from_label("final "), None);
}

#[test]
fn group_constants_cover_every_asset_and_lod() {
    assert_eq!(LOD_COUNT, 3);
    assert_eq!(PART_COUNT, 2);
    assert_eq!(GROUP_COUNT, 3 * LOD_COUNT);
    assert_eq!(DEFAULT_VEGETATION_SEED, 42);
}

#[test]
fn culled_total_adds_both_cull_reasons() {
    let stats = VegetationFrameStats {
        total: 100,
        visible: 60,
        culled_frustum: 25,
        culled_distance: 15,
        lod_counts: [30, 20, 10],
        scene_draw_calls: 6,
        shadow_draw_calls: 4,
    };
    assert_eq!(stats.culled_total(), 40);
    assert_eq!(VegetationFrameStats::default().culled_total(), 0);
}

#[test]
fn splitmix_sequence_matches_reference_values() {
    let mut rng = DeterministicRng::new(DEFAULT_VEGETATION_SEED);
    assert_eq!(rng.next_u64(), 13679457532755275413);
    assert_eq!(rng.next_u64(), 2949826092126892291);
    assert_eq!(rng.next_u64(), 5139283748462763858);
    let mut zero = DeterministicRng::new(0);
    assert_eq!(zero.next_u64(), 16294208416658607535);
}

#[test]
fn same_seed_gives_the_same_sequence() {
    let mut a = DeterministicRng::new(7);
    let mut b = DeterministicRng::new(7);
    for _ in 0..64 {
        assert_eq!(a.next_u64(), b.next_u64());
    }
    let mut c = DeterministicRng::new(8);
    let mut d = DeterministicRng::new(7);
    assert_ne!(c.next_u64(), d.next_u64());
}

#[test]
fn batching_is_a_stable_grouping_with_published_ranges() {
    let items = [10u32, 11, 12, 13, 14];
    let groups = [4usize, 0, 4, 2, 0];
    let (sorted, ranges) = batch_by_group(&items, &groups);
    assert_eq!(sorted, vec![11, 14, 13, 10, 12]);
    let expected: [u32; 18] = [0, 2, 2, 0, 2, 1, 3, 0, 3, 2, 5, 0, 5, 0, 5, 0, 5, 0];
    assert_eq!(ranges, expected);
    for group in 0..GROUP_COUNT {
        let start = ranges[group * 2] as usize;
        let count = ranges[group * 2 + 1] as usize;
        assert!(start + count <= sorted.len());
        for (slot, value) in sorted[start..start + count].iter().enumerate() {
            let position = items.iter().position(|v| v == value).unwrap();
            assert_eq!(groups[position], group);
            let _ = slot;
        }
    }
}

#[test]
fn batching_empty_and_single_inputs() {
    let (sorted, ranges) = batch_by_group::<u32>(&[], &[]);
    assert!(sorted.is_empty());
    assert_eq!(ranges, [0u32; 18]);
    let (sorted, ranges) = batch_by_group(&[99u8], &[8usize]);
    assert_eq!(sorted, vec![99]);
    assert_eq!(ranges[16], 0);
    assert_eq!(ranges[17], 1);
    assert_eq!(ranges[15], 0);
}

#[test]
fn draw_calls_count_active_groups_per_part() {
    let groups = [4usize, 0, 4, 2, 0];
    let (_, ranges) = batch_by_group(&[1u8, 2, 3, 4, 5], &groups);
    let (scene, shadow) = draw_calls(&ranges);
    assert_eq!(scene, 6);
    assert_eq!(shadow, 4);
    assert_eq!(
        scene as usize,
        (0..GROUP_COUNT).filter(|&g| ranges[g * 2 + 1] > 0).count() * PART_COUNT
    );
    assert_eq!(draw_calls(&[0u32; 18]), (0, 0));
    let mut all = [0u32; 18];
    for group in 0..GROUP_COUNT {
        all[group * 2 + 1] = 1;
    }
    assert_eq!(draw_calls(&all), (18, 12));
}

fn band(beyond0: bool, within0: bool, beyond1: bool, within1: bool) -> LodBandPosition {
    LodBandPosition {
        beyond_lod0_exit: beyond0,
        within_lod0_enter: within0,
        beyond_lod1_exit: beyond1,
        within_lod1_enter: within1,
    }
}

#[test]
fn initial_lod_follows_the_nominal_thresholds() {
    assert_eq!(initial_lod(true, true), 0);
    assert_eq!(initial_lod(false, true), 1);
    assert_eq!(initial_lod(false, false), 2);
}

#[test]
fn lod_hysteresis_keeps_the_class_inside_its_band() {
    // Between the LOD0 entry and exit thresholds nothing changes.
    let inside = band(false, false, false, true);
    assert_eq!(next_lod(0, inside), 0);
    assert_eq!(next_lod(1, inside), 1);
    // Leaving a band moves one class at a time.
    assert_eq!(next_lod(0, band(true, false, false, true)), 1);
    assert_eq!(next_lod(1, band(true, false, true, false)), 2);
    assert_eq!(next_lod(2, band(true, false, true, true)), 1);
    assert_eq!(next_lod(1, band(false, true, false, true)), 0);
    assert_eq!(next_lod(2, band(true, false, true, false)), 2);
    // Out-of-range classes behave as the coarsest class.
    assert_eq!(next_lod(7, band(false, true, false, true)), 1);
}

#[test]
fn a_slow_zoom_moves_through_every_class_in_order() {
    // Zooming out: distances cross 0-exit, then 1-exit.
    let steps = [
        band(false, true, false, true),
        band(true, false, false, true),
        band(true, false, false, false),
        band(true, false, true, false),
    ];
    let mut lod = 0u8;
    let mut seen = vec![lod];
    for step in steps {
        let next = next_lod(lod, step);
        assert!(next >= lod && next - lod <= 1);
        lod = next;
        seen.push(lod);
    }
    assert_eq!(seen, vec![0, 0, 1, 1, 2]);
}

#[test]
fn frame_stats_count_every_outcome() {
    let outcomes = [
        Visible { lod: 0 },
        CulledByDistance,
        Visible { lod: 2 },
        CulledByFrustum,
        Visible { lod: 0 },
        Visible { lod: 1 },
        CulledByDistance,
    ];
    let groups = [
        group_index(2, 0),
        group_index(0, 2),
        group_index(1, 0),
        group_index(1, 1),
    ];
    let (_, ranges) = batch_by_group(&[0u8, 1, 2, 3], &groups);
    let stats = frame_stats(&outcomes, &ranges);
    assert_eq!(stats.total, 7);
    assert_eq!(stats.visible, 4);
    assert_eq!(stats.culled_distance, 2);
    assert_eq!(stats.culled_frustum, 1);
    assert_eq!(stats.lod_counts, [2, 1, 1]);
    assert_eq!(stats.culled_total(), 3);
    // Groups 2, 3, 4 and 6 are active; LOD0/1 groups 3, 4 and 6 cast shadows.
    assert_eq!(stats.scene_draw_calls, 8);
    assert_eq!(stats.shadow_draw_calls, 6);
}

#[test]
fn group_index_is_asset_major() {
    assert_eq!(group_index(0, 0), 0);
    assert_eq!(group_index(0, 2), 2);
    assert_eq!(group_index(1, 0), 3);
    assert_eq!(group_index(2, 2), 8);
    let empty = frame_stats(&[], &[0; 18]);
    assert_eq!(empty.total, 0);
    assert_eq!(empty.scene_draw_calls, 0);
}

#[test]
fn seeding_one_gamma_ahead_skips_the_first_value() {
    let mut a = DeterministicRng::new(DEFAULT_VEGETATION_SEED);
    a.next_u64();
    let mut b = DeterministicRng::new(DEFAULT_VEGETATION_SEED.wrapping_add(0x9e37_79b9_7f4a_7c15));
    assert_eq!(b.next_u64(), 2949826092126892291);
    assert_eq!(a.next_u64(), 2949826092126892291);
    for _ in 0..32 {
        assert_eq!(a.next_u64(), b.next_u64());
    }
}

#[test]
fn the_distance_cull_comes_before_the_frustum_and_the_lod_step() {
    let far_band = band(true, false, true, false);
    assert_eq!(classify_instance(true, true, 0, far_band), CulledByDistance);
    assert_eq!(classify_instance(true, false, 0, far_band), CulledByDistance);
    assert_eq!(classify_instance(false, false, 0, far_band), CulledByFrustum);
    assert_eq!(classify_instance(false, true, 0, far_band), Visible { lod: 1 });
    assert_eq!(classify_instance(false, true, 2, band(false, true, false, true)), Visible { lod: 1 });
}
