use rc_renderer::terrain::{
    chunk_cells, chunk_coordinates, chunk_count, chunk_vertex_count, grid_indices,
};

#[test]
fn grid_indices_stay_in_bounds() {
    for (cells_x, cells_z) in [(1u32, 1u32), (4, 3), (16, 16), (7, 2)] {
        let indices = grid_indices(cells_x, cells_z);
        assert_eq!(indices.len(), (cells_x * cells_z * 6) as usize);
        let vertex_count = chunk_vertex_count(cells_x, cells_z);
        assert!(indices.iter().all(|&index| index < vertex_count));
    }
}

#[test]
fn every_cell_is_two_upward_triangles() {
    // A 2x1 chunk: vertices 0 1 2 on the first row, 3 4 5 on the next.
    let indices = grid_indices(2, 1);
    assert_eq!(indices, vec![0, 3, 1, 3, 4, 1, 1, 4, 2, 4, 5, 2]);
    assert!(grid_indices(0, 5).is_empty());
    assert!(grid_indices(5, 0).is_empty());
}

#[test]
fn edge_chunks_hold_what_is_left_of_the_field() {
    assert_eq!(chunk_cells(100, 0, 32), 32);
    assert_eq!(chunk_cells(100, 3, 32), 4);
    assert_eq!(chunk_cells(100, 4, 32), 0);
    assert_eq!(chunk_cells(64, 2, 32), 0);
    assert_eq!(chunk_count(100, 32), 4);
    assert_eq!(chunk_count(64, 32), 2);
    assert_eq!(chunk_count(0, 32), 0);
    assert_eq!(chunk_count(u32::MAX, 1), u32::MAX);
}

#[test]
fn chunks_are_generated_row_by_row() {
    let chunks = chunk_coordinates(100, 40, 32);
    assert_eq!(
        chunks,
        vec![(0, 0), (1, 0), (2, 0), (3, 0), (0, 1), (1, 1), (2, 1), (3, 1)]
    );
    assert_eq!(chunks, chunk_coordinates(100, 40, 32));
    for (x, z) in chunks {
        assert!(chunk_cells(100, x, 32) > 0);
        assert!(chunk_cells(40, z, 32) > 0);
    }
    assert!(chunk_coordinates(0, 40, 32).is_empty());
}
