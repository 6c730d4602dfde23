use rc_renderer::scenery::{
    draw_position_hashes, next_placement_state, merge_mesh, scramble, SceneryMesh, SceneryPreset, SceneryVisualKind, DEFAULT_TREE_COUNT,
    DEFAULT_TREE_SEED, MAX_FLYING_FIELD_TRIANGLES,
};

#[test]
fn triangle_count_is_index_count_over_three() {
    let mesh = SceneryMesh { vertices: vec![0u8; 4], indices: vec![0, 1, 2, 2, 3, 0] };
    assert_eq!(mesh.triangle_count(), 2);
    let partial = SceneryMesh { vertices: vec![0u8; 4], indices: vec![0, 1, 2, 3] };
    assert_eq!(partial.triangle_count(), 1);
    let empty: SceneryMesh<u8> = SceneryMesh { vertices: vec![], indices: vec![] };
    assert_eq!(empty.triangle_count(), 0);
}

#[test]
fn merging_offsets_indices_by_the_existing_vertices() {
    let mut vertices = vec!['a', 'b'];
    let mut indices = vec![0, 1, 1];
    merge_mesh(&mut vertices, &mut indices, &['c', 'd', 'e'], &[0, 1, 2, 2, 1, 0]);
    assert_eq!(vertices, vec!['a', 'b', 'c', 'd', 'e']);
    assert_eq!(indices, vec![0, 1, 1, 2, 3, 4, 4, 3, 2]);
    merge_mesh(&mut vertices, &mut indices, &[], &[]);
    assert_eq!(vertices.len(), 5);
    assert_eq!(indices.len(), 9);
}

#[test]
fn scramble_matches_reference_values() {
    assert_eq!(scramble(0), 0);
    assert_eq!(scramble(1), 15360201268076995951);
    assert_eq!(scramble(42), 4015607343308524518);
    assert_eq!(scramble(42), scramble(42));
    assert_ne!(scramble(42), scramble(43));
}

#[test]
fn scenery_constants_and_kinds() {
    assert_eq!(DEFAULT_TREE_COUNT, 50);
    assert_eq!(DEFAULT_TREE_SEED, 42);
    assert_eq!(MAX_FLYING_FIELD_TRIANGLES, 8_000);
    assert_ne!(SceneryPreset::NoScenery, SceneryPreset::FlyingField);
    assert_ne!(SceneryVisualKind::TreeTrunk, SceneryVisualKind::TreeCanopy);
}

#[test]
fn placement_generator_steps_and_draws_hash_pairs() {
    let seeded = next_placement_state(42);
    assert_eq!(seeded, 9039304369631583587);
    let (hash_x, hash_z, next) = draw_position_hashes(seeded);
    assert_eq!(hash_x, 543707220573488934);
    assert_eq!(hash_z, 17638903921607816199);
    assert_eq!(next, 10334312345110439241);
    assert_eq!(next, next_placement_state(next_placement_state(seeded)));
}
