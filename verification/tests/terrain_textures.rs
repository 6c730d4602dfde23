use rc_renderer::terrain_textures::{
    lattice_hash_bits, periodic_neighbors, wrap_lattice, TerrainTextureSet, TERRAIN_TEXTURE_SIZE,
};

#[test]
fn lattice_wrap_is_a_euclidean_remainder() {
    assert_eq!(wrap_lattice(0, 4), 0);
    assert_eq!(wrap_lattice(5, 4), 1);
    assert_eq!(wrap_lattice(-1, 4), 3);
    assert_eq!(wrap_lattice(-4, 4), 0);
    assert_eq!(wrap_lattice(-5, 4), 3);
    assert_eq!(wrap_lattice(i64::MIN, 3), i64::MIN.rem_euclid(3));
    for value in -20i64..20 {
        assert_eq!(wrap_lattice(value, 7), value.rem_euclid(7));
    }
}

#[test]
fn lattice_hash_matches_reference_values_and_is_bounded() {
    assert_eq!(lattice_hash_bits(0, 0, 0x51A3_9C2D), 44834);
    assert_eq!(lattice_hash_bits(3, 7, 0x51A3_9C2D), 15750);
    assert_eq!(lattice_hash_bits(-1, 2, 0x7C4B_E9F5), 26793);
    assert_eq!(lattice_hash_bits(0, 0, 0), 0);
    for ix in -8..8 {
        for iy in -8..8 {
            assert!(lattice_hash_bits(ix, iy, 0x9E4A_18C6) <= 0xFFFF);
        }
    }
}

#[test]
fn neighbours_wrap_around_every_edge() {
    assert_eq!(periodic_neighbors(4, 0, 0), (3, 1, 12, 4));
    assert_eq!(periodic_neighbors(4, 3, 3), (14, 12, 11, 3));
    assert_eq!(periodic_neighbors(4, 1, 2), (8, 10, 5, 13));
    assert_eq!(periodic_neighbors(1, 0, 0), (0, 0, 0, 0));
    let n = TERRAIN_TEXTURE_SIZE;
    assert_eq!(periodic_neighbors(n, n - 1, 0).1, 0);
}

#[test]
fn texture_set_compares_by_content() {
    let a = TerrainTextureSet { albedo_rgba: vec![1; 4], normal_rgba: vec![2; 4], roughness_r8: vec![3] };
    assert_eq!(a.clone(), a);
    assert_eq!(TERRAIN_TEXTURE_SIZE, 512);
}
