//! Integer layout of the chunked terrain grid: how the height field's cells
//! are split into chunks, in which order chunks are generated, and the
//! triangle list of one chunk.
//!
//! A chunk of `cells_x` x `cells_z` cells has `(cells_x + 1) * (cells_z + 1)`
//! vertices in row-major order (Z rows of X columns). Every cell is two
//! triangles, `(v0, v2, v1)` and `(v2, v3, v1)`, where `v0` is the cell's
//! corner nearest the origin, `v1` its +X neighbour, `v2` its +Z neighbour
//! and `v3` the opposite corner: counter-clockwise seen from above, so the
//! front face points up.

use vstd::prelude::*;

verus! {

/// Cells of chunk `chunk_index` along one axis: a full chunk, or what is
/// left of the field at its edge, or none beyond it.
pub open spec fn spec_chunk_cells(total_cells: u32, chunk_index: u32, cells_per_chunk: u32) -> u32 {
    let start = chunk_index * cells_per_chunk;
    if start >= total_cells {
        0
    } else if total_cells - start < cells_per_chunk {
        (total_cells - start) as u32
    } else {
        cells_per_chunk
    }
}

/// Cells covered by one chunk along one axis.
pub fn chunk_cells(total_cells: u32, chunk_index: u32, cells_per_chunk: u32) -> (cells: u32)
    requires
        chunk_index * cells_per_chunk <= u32::MAX,
    ensures
        cells == spec_chunk_cells(total_cells, chunk_index, cells_per_chunk),
        cells <= cells_per_chunk,
{
    let start = chunk_index * cells_per_chunk;
    let remaining = total_cells.saturating_sub(start);
    if remaining < cells_per_chunk {
        remaining
    } else {
        cells_per_chunk
    }
}

/// Chunks along one axis: the cells divided by the chunk size, rounded up.
pub fn chunk_count(total_cells: u32, cells_per_chunk: u32) -> (count: u32)
    requires
        cells_per_chunk > 0,
    ensures
        count == (total_cells + cells_per_chunk - 1) / (cells_per_chunk as int),
        count as int * cells_per_chunk >= total_cells,
        count == 0 || (count - 1) * cells_per_chunk < total_cells,
{
    proof {
        let q = total_cells as int / cells_per_chunk as int;
        let r = total_cells as int % cells_per_chunk as int;
        vstd::arithmetic::div_mod::lemma_fundamental_div_mod(total_cells as int, cells_per_chunk as int);
        if r != 0 {
            assert(q < u32::MAX) by (nonlinear_arith)
                requires
                    total_cells == cells_per_chunk * q + r,
                    0 < r < cells_per_chunk,
                    total_cells <= u32::MAX,
                    q >= 0,
            ;
        }
    }
    let count = total_cells / cells_per_chunk + if total_cells % cells_per_chunk == 0 { 0 } else { 1 };
    proof {
        let q = total_cells as int / cells_per_chunk as int;
        let r = total_cells as int % cells_per_chunk as int;
        vstd::arithmetic::div_mod::lemma_fundamental_div_mod(total_cells as int, cells_per_chunk as int);
        assert(total_cells + cells_per_chunk - 1 == (q + 1) * cells_per_chunk + (r - 1)) by (nonlinear_arith)
            requires
                total_cells == cells_per_chunk * q + r,
        ;
        if r == 0 {
            assert(total_cells + cells_per_chunk - 1 == q * cells_per_chunk + (cells_per_chunk - 1))
                by (nonlinear_arith)
                requires
                    total_cells == cells_per_chunk * q + r,
                    r == 0,
            ;
        }
        if r == 0 {
            vstd::arithmetic::div_mod::lemma_fundamental_div_mod_converse(
                total_cells + cells_per_chunk - 1,
                cells_per_chunk as int,
                q,
                cells_per_chunk - 1,
            );
        } else {
            vstd::arithmetic::div_mod::lemma_fundamental_div_mod_converse(
                total_cells + cells_per_chunk - 1,
                cells_per_chunk as int,
                q + 1,
                r - 1,
            );
        }
        assert(count as int * cells_per_chunk >= total_cells) by (nonlinear_arith)
            requires
                total_cells == cells_per_chunk * q + r,
                0 <= r < cells_per_chunk,
                count == q + if r == 0 { 0int } else { 1int },
        ;
        assert(count == 0 || (count - 1) * cells_per_chunk < total_cells) by (nonlinear_arith)
            requires
                total_cells == cells_per_chunk * q + r,
                0 <= r < cells_per_chunk,
                count == q + if r == 0 { 0int } else { 1int },
                q >= 0,
        ;
    }
    count
}

/// Chunk coordinates in generation order: rows along Z, chunks along X
/// within a row, every chunk that covers at least one cell.
pub fn chunk_coordinates(width_cells: u32, depth_cells: u32, cells_per_chunk: u32) -> (chunks: Vec<(u32, u32)>)
    requires
        cells_per_chunk > 0,
        (width_cells + cells_per_chunk - 1) / (cells_per_chunk as int) * ((depth_cells + cells_per_chunk - 1) / (
        cells_per_chunk as int)) <= u32::MAX,
    ensures
        ({
            let chunks_x = (width_cells + cells_per_chunk - 1) / (cells_per_chunk as int);
            let chunks_z = (depth_cells + cells_per_chunk - 1) / (cells_per_chunk as int);
            &&& chunks@.len() == chunks_x * chunks_z
            &&& forall|k: int| 0 <= k < chunks@.len() ==> #[trigger] chunks@[k] == ((k % chunks_x) as u32, (k
                / chunks_x) as u32)
            &&& forall|k: int|
                0 <= k < chunks@.len() ==> spec_chunk_cells(width_cells, (#[trigger] chunks@[k]).0, cells_per_chunk)
                    > 0 && spec_chunk_cells(depth_cells, chunks@[k].1, cells_per_chunk) > 0
        }),
{
    let chunks_x = chunk_count(width_cells, cells_per_chunk);
    let chunks_z = chunk_count(depth_cells, cells_per_chunk);
    let mut chunks: Vec<(u32, u32)> = Vec::new();
    let mut z: u32 = 0;
    while z < chunks_z
        invariant
            cells_per_chunk > 0,
            z <= chunks_z,
            chunks_x * chunks_z <= u32::MAX,
            chunks_x == (width_cells + cells_per_chunk - 1) / (cells_per_chunk as int),
            chunks_z == (depth_cells + cells_per_chunk - 1) / (cells_per_chunk as int),
            chunks_x == 0 || (chunks_x - 1) * cells_per_chunk < width_cells,
            chunks_z == 0 || (chunks_z - 1) * cells_per_chunk < depth_cells,
            chunks@.len() == z * chunks_x,
            forall|k: int| 0 <= k < chunks@.len() ==> #[trigger] chunks@[k] == ((k % chunks_x as int) as u32, (k
                / chunks_x as int) as u32),
            forall|k: int|
                0 <= k < chunks@.len() ==> spec_chunk_cells(width_cells, (#[trigger] chunks@[k]).0, cells_per_chunk)
                    > 0 && spec_chunk_cells(depth_cells, chunks@[k].1, cells_per_chunk) > 0,
        decreases chunks_z - z,
    {
        let mut x: u32 = 0;
        while x < chunks_x
            invariant
                cells_per_chunk > 0,
                z < chunks_z,
                x <= chunks_x,
                chunks_x * chunks_z <= u32::MAX,
                chunks_x == 0 || (chunks_x - 1) * cells_per_chunk < width_cells,
                chunks_z == 0 || (chunks_z - 1) * cells_per_chunk < depth_cells,
                chunks@.len() == z * chunks_x + x,
                forall|k: int| 0 <= k < chunks@.len() ==> #[trigger] chunks@[k] == ((k % chunks_x as int) as u32, (
                k / chunks_x as int) as u32),
                forall|k: int|
                    0 <= k < chunks@.len() ==> spec_chunk_cells(width_cells, (#[trigger] chunks@[k]).0, cells_per_chunk)
                        > 0 && spec_chunk_cells(depth_cells, chunks@[k].1, cells_per_chunk) > 0,
            decreases chunks_x - x,
        {
            proof {
                vstd::arithmetic::div_mod::lemma_fundamental_div_mod_converse(
                    z * chunks_x + x,
                    chunks_x as int,
                    z as int,
                    x as int,
                );
                assert(x * cells_per_chunk <= (chunks_x - 1) * cells_per_chunk) by (nonlinear_arith)
                    requires
                        x < chunks_x,
                ;
                assert(z * cells_per_chunk <= (chunks_z - 1) * cells_per_chunk) by (nonlinear_arith)
                    requires
                        z < chunks_z,
                ;
            }
            chunks.push((x, z));
            x += 1;
        }
        proof {
            assert(z * chunks_x + chunks_x == (z + 1) * chunks_x) by (nonlinear_arith);
        }
        z += 1;
    }
    proof {
        assert(chunks_z * chunks_x == chunks_x * chunks_z) by (nonlinear_arith);
    }
    chunks
}

/// Vertices of a chunk of `cells_x` x `cells_z` cells.
pub fn chunk_vertex_count(cells_x: u32, cells_z: u32) -> (count: u32)
    requires
        (cells_x + 1) * (cells_z + 1) <= u32::MAX,
    ensures
        count == (cells_x + 1) * (cells_z + 1),
{
    proof {
        assert(cells_x + 1 <= u32::MAX && cells_z + 1 <= u32::MAX) by (nonlinear_arith)
            requires
                (cells_x + 1) * (cells_z + 1) <= u32::MAX,
                cells_x >= 0,
                cells_z >= 0,
        ;
    }
    (cells_x + 1) * (cells_z + 1)
}

/// The `i`-th entry of a chunk's triangle list, for a chunk `cells_x` wide:
/// entry `i` belongs to cell `i / 6`, taken row by row, and is corner
/// `i % 6` of its two triangles `(v0, v2, v1)`, `(v2, v3, v1)`.
pub open spec fn grid_index_at(cells_x: int, i: int) -> int {
    let cell = i / 6;
    let corner = i % 6;
    let v0 = (cell / cells_x) * (cells_x + 1) + cell % cells_x;
    let v1 = v0 + 1;
    let v2 = v0 + cells_x + 1;
    let v3 = v2 + 1;
    if corner == 0 {
        v0
    } else if corner == 1 {
        v2
    } else if corner == 2 {
        v1
    } else if corner == 3 {
        v2
    } else if corner == 4 {
        v3
    } else {
        v1
    }
}

/// Position `6 * cell + corner` decomposes into its cell and corner.
proof fn lemma_entry_position(cells_x: int, z: int, x: int, corner: int)
    requires
        cells_x > 0,
        z >= 0,
        0 <= x < cells_x,
        0 <= corner < 6,
    ensures
        ({
            let i = 6 * (z * cells_x + x) + corner;
            &&& i / 6 == z * cells_x + x
            &&& i % 6 == corner
            &&& (i / 6) / cells_x == z
            &&& (i / 6) % cells_x == x
        }),
{
    let cell = z * cells_x + x;
    vstd::arithmetic::div_mod::lemma_fundamental_div_mod_converse(6 * cell + corner, 6, cell, corner);
    vstd::arithmetic::div_mod::lemma_fundamental_div_mod_converse(cell, cells_x, z, x);
}

/// The triangle list of a chunk of `cells_x` x `cells_z` cells: two
/// counter-clockwise triangles per cell, cells row by row.
pub fn grid_indices(cells_x: u32, cells_z: u32) -> (indices: Vec<u32>)
    requires
        (cells_x + 1) * (cells_z + 1) <= u32::MAX,
        cells_x * cells_z * 6 <= u32::MAX,
    ensures
        indices@.len() == 6 * cells_x * cells_z,
        forall|i: int| 0 <= i < indices@.len() ==> #[trigger] indices@[i] == grid_index_at(cells_x as int, i),
{
    let mut indices: Vec<u32> = Vec::new();
    if cells_x == 0 {
        return indices;
    }
    let ghost cx = cells_x as int;
    let mut z: u32 = 0;
    while z < cells_z
        invariant
            cells_x > 0,
            cx == cells_x,
            z <= cells_z,
            (cells_x + 1) * (cells_z + 1) <= u32::MAX,
            indices@.len() == 6 * (z * cx),
            forall|i: int| 0 <= i < indices@.len() ==> #[trigger] indices@[i] == grid_index_at(cx, i),
        decreases cells_z - z,
    {
        let mut x: u32 = 0;
        while x < cells_x
            invariant
                cells_x > 0,
                cx == cells_x,
                z < cells_z,
                x <= cells_x,
                (cells_x + 1) * (cells_z + 1) <= u32::MAX,
                indices@.len() == 6 * (z * cx + x),
                forall|i: int| 0 <= i < indices@.len() ==> #[trigger] indices@[i] == grid_index_at(cx, i),
            decreases cells_x - x,
        {
            proof {
                assert(z * (cx + 1) + x + cx + 2 < (cells_x + 1) * (cells_z + 1)) by (nonlinear_arith)
                    requires
                        0 <= z < cells_z,
                        0 <= x < cx,
                        cx == cells_x,
                ;
            }
            let v0 = z * (cells_x + 1) + x;
            let v1 = v0 + 1;
            let v2 = v0 + (cells_x + 1);
            let v3 = v2 + 1;
            let ghost start = indices@.len() as int;
            indices.push(v0);
            indices.push(v2);
            indices.push(v1);
            indices.push(v2);
            indices.push(v3);
            indices.push(v1);
            proof {
                assert forall|i: int| 0 <= i < indices@.len() implies #[trigger] indices@[i] == grid_index_at(cx, i) by {
                    if i >= start {
                        lemma_entry_position(cx, z as int, x as int, i - start);
                    }
                }
                assert(indices@.len() == 6 * (z * cx + x + 1));
            }
            x += 1;
        }
        proof {
            assert(z * cx + cx == (z + 1) * cx) by (nonlinear_arith);
        }
        z += 1;
    }
    proof {
        assert(6 * (cells_z * cx) == 6 * cells_x * cells_z) by (nonlinear_arith)
            requires
                cx == cells_x,
        ;
    }
    indices
}

/// Law: the six entries of cell `(x, z)` are the two triangles over the
/// cell's own four corners in the row-major vertex grid (rows of
/// `cells_x + 1` vertices): `(c00, c01, c10)` and `(c01, c11, c10)`, where
/// `cXZ` is the corner at column `x + X`, row `z + Z`.
pub proof fn law_grid_cell_triangles_use_the_cells_own_corners(cells_x: int, z: int, x: int)
    requires
        cells_x > 0,
        z >= 0,
        0 <= x < cells_x,
    ensures
        ({
            let base = 6 * (z * cells_x + x);
            let c00 = z * (cells_x + 1) + x;
            let c10 = z * (cells_x + 1) + x + 1;
            let c01 = (z + 1) * (cells_x + 1) + x;
            let c11 = (z + 1) * (cells_x + 1) + x + 1;
            &&& grid_index_at(cells_x, base) == c00
            &&& grid_index_at(cells_x, base + 1) == c01
            &&& grid_index_at(cells_x, base + 2) == c10
            &&& grid_index_at(cells_x, base + 3) == c01
            &&& grid_index_at(cells_x, base + 4) == c11
            &&& grid_index_at(cells_x, base + 5) == c10
        }),
{
    lemma_entry_position(cells_x, z, x, 0);
    lemma_entry_position(cells_x, z, x, 1);
    lemma_entry_position(cells_x, z, x, 2);
    lemma_entry_position(cells_x, z, x, 3);
    lemma_entry_position(cells_x, z, x, 4);
    lemma_entry_position(cells_x, z, x, 5);
    assert((z + 1) * (cells_x + 1) == z * (cells_x + 1) + cells_x + 1) by (nonlinear_arith);
}

/// Law: every entry of a chunk's triangle list addresses one of the chunk's
/// vertices.
pub proof fn law_grid_indices_stay_in_bounds(cells_x: int, cells_z: int, i: int)
    requires
        cells_x > 0,
        cells_z >= 0,
        0 <= i < 6 * cells_x * cells_z,
    ensures
        0 <= grid_index_at(cells_x, i) < (cells_x + 1) * (cells_z + 1),
{
    let cell = i / 6;
    assert(0 <= cell < cells_x * cells_z) by (nonlinear_arith)
        requires
            0 <= i < 6 * cells_x * cells_z,
            cell == i / 6,
    ;
    let z = cell / cells_x;
    let x = cell % cells_x;
    assert(0 <= z < cells_z) by (nonlinear_arith)
        requires
            0 <= cell < cells_x * cells_z,
            z == cell / cells_x,
            cells_x > 0,
    ;
    assert(0 <= x < cells_x) by (nonlinear_arith)
        requires
            x == cell % cells_x,
            cells_x > 0,
    ;
    assert(0 <= z * (cells_x + 1) + x && z * (cells_x + 1) + x + cells_x + 2 < (cells_x + 1) * (cells_z + 1))
        by (nonlinear_arith)
        requires
            0 <= z < cells_z,
            0 <= x < cells_x,
    ;
}

} // verus!
