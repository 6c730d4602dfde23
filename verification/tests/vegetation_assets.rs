use rc_renderer::vegetation_assets::{
    align4, append_glb_part, assemble, glb_container, GlbPartLayout, PartMesh, VegetationLod,
    VegetationLodSet, VegetationPart, VegetationSpecies, GLB_CHUNK_BIN, GLB_CHUNK_JSON,
    GLB_MAGIC, GLB_VERTEX_STRIDE,
};

fn mesh(vertex_count: usize, index_count: usize) -> PartMesh<u16> {
    PartMesh {
        vertices: (0..vertex_count as u16).collect(),
        indices: (0..index_count as u32).collect(),
    }
}

fn lod(bark: (usize, usize), foliage: (usize, usize)) -> VegetationLod<u16> {
    VegetationLod {
        bark: mesh(bark.0, bark.1),
        foliage: mesh(foliage.0, foliage.1),
        bark_base_color: None,
        foliage_base_color: None,
    }
}

#[test]
fn parts_have_dense_indices() {
    assert_eq!(VegetationPart::Bark.index(), 0);
    assert_eq!(VegetationPart::Foliage.index(), 1);
    assert_eq!(VegetationPart::count(), 2);
    assert_ne!(VegetationSpecies::Deciduous, VegetationSpecies::Conifer);
}

#[test]
fn lod_counts_add_both_parts() {
    let lod = lod((10, 30), (20, 61));
    assert_eq!(lod.triangle_count(), 10 + 20);
    assert_eq!(lod.part_triangle_count(VegetationPart::Bark), 10);
    assert_eq!(lod.part_triangle_count(VegetationPart::Foliage), 20);
    assert_eq!(lod.vertex_count(), 30);
}

#[test]
fn lod_set_is_indexed_by_class() {
    let set = VegetationLodSet {
        lod0: lod((4, 300), (4, 600)),
        lod1: lod((4, 150), (4, 300)),
        lod2: lod((4, 30), (4, 60)),
    };
    assert_eq!(set.triangle_count(0), 300);
    assert_eq!(set.triangle_count(1), 150);
    assert_eq!(set.triangle_count(2), 30);
    assert_eq!(set.triangle_count(3), 0);
    assert!(set.lod(2).is_some());
    assert!(set.lod(3).is_none());
    assert_eq!(set.lod(1).unwrap().bark.indices.len(), 150);
}

#[test]
fn assemble_offsets_each_part_by_the_vertices_before_it() {
    let parts = vec![
        (vec!['a', 'b', 'c'], vec![0, 1, 2]),
        (vec!['d', 'e'], vec![1, 0, 1]),
        (vec![], vec![]),
        (vec!['f'], vec![0, 0, 0]),
    ];
    let (vertices, indices) = assemble(&parts);
    assert_eq!(vertices, vec!['a', 'b', 'c', 'd', 'e', 'f']);
    assert_eq!(indices, vec![0, 1, 2, 4, 3, 4, 5, 5, 5]);
    let (vertices, indices) = assemble::<u8>(&[]);
    assert!(vertices.is_empty() && indices.is_empty());
}

#[test]
fn assemble_saturates_instead_of_wrapping() {
    let parts = vec![(vec![0u8; 2], vec![0]), (vec![1u8], vec![u32::MAX - 1, u32::MAX])];
    let (_, indices) = assemble(&parts);
    assert_eq!(indices, vec![0, u32::MAX, u32::MAX]);
}

#[test]
fn align4_rounds_up() {
    assert_eq!(align4(0), 0);
    assert_eq!(align4(1), 4);
    assert_eq!(align4(4), 4);
    assert_eq!(align4(5), 8);
    assert_eq!(align4(127), 128);
}

#[test]
fn part_layout_pads_indices_to_four_bytes() {
    let mut bin = vec![9u8; 2];
    let words = [[1u32, 2, 3, 4, 5, 6, 7, 8, 9, 0x0A0B_0C0D]; 2];
    let layout = append_glb_part(&mut bin, &words, &[7, 0x0102_0304]);
    assert_eq!(
        layout,
        GlbPartLayout { vertex_start: 2, index_start: 100, index_end: 108 }
    );
    assert_eq!(bin.len(), 108);
    assert_eq!(&bin[2..6], &1u32.to_le_bytes());
    assert_eq!(&bin[38..42], &0x0A0B_0C0Du32.to_le_bytes());
    assert_eq!(&bin[42..50], &[0u8; 8]);
    assert_eq!(2 + 2 * GLB_VERTEX_STRIDE, 98);
    assert_eq!(&bin[98..100], &[0, 0]);
    assert_eq!(&bin[100..104], &7u32.to_le_bytes());
    assert_eq!(&bin[104..108], &[4, 3, 2, 1]);
}

#[test]
fn glb_container_frames_and_pads_both_chunks() {
    let json = br#"{"asset":{"version":"2.0"}}"#;
    assert_eq!(json.len(), 27);
    let bin = [1u8, 2, 3, 4, 5];
    let glb = glb_container(json, &bin);
    assert_eq!(glb.len(), 12 + 8 + 28 + 8 + 8);
    assert_eq!(&glb[0..4], &GLB_MAGIC.to_le_bytes());
    assert_eq!(&glb[0..4], b"glTF");
    assert_eq!(&glb[4..8], &2u32.to_le_bytes());
    assert_eq!(&glb[8..12], &(glb.len() as u32).to_le_bytes());
    assert_eq!(&glb[12..16], &28u32.to_le_bytes());
    assert_eq!(&glb[16..20], &GLB_CHUNK_JSON.to_le_bytes());
    assert_eq!(&glb[20..47], json);
    assert_eq!(glb[47], b' ');
    assert_eq!(&glb[48..52], &8u32.to_le_bytes());
    assert_eq!(&glb[52..56], &GLB_CHUNK_BIN.to_le_bytes());
    assert_eq!(&glb[56..61], &bin);
    assert_eq!(&glb[61..64], &[0, 0, 0]);
}

#[test]
fn glb_container_parses_with_the_gltf_reader() {
    let json = br#"{"asset":{"version":"2.0"},"buffers":[{"byteLength":4}]}"#;
    let glb = glb_container(json, &[1, 2, 3, 4]);
    let parsed = gltf::Glb::from_slice(&glb).expect("a valid GLB container");
    assert_eq!(parsed.header.length as usize, glb.len());
    assert_eq!(parsed.json.trim_ascii_end(), json.as_slice());
    assert_eq!(parsed.bin.as_deref(), Some([1u8, 2, 3, 4].as_slice()));
}
