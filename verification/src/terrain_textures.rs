//! Integer core of the deterministic terrain texture generator: the texture
//! set layout, the periodic lattice wrap, the lattice corner hash and the
//! periodic neighbourhood used for the normal map.
//!
//! Every map is periodic with period `size` texels: lattice corners wrap with
//! a Euclidean remainder over the per-axis cell count, and neighbours of a
//! texel wrap around the texture edges, so no seam can appear when the maps
//! are sampled with repeat addressing.

use vstd::prelude::*;

verus! {

/// Texture edge length in texels for all three maps.
pub const TERRAIN_TEXTURE_SIZE: u32 = 512;

/// One set of generated terrain maps, raw pixels ready for GPU upload.
#[derive(Debug, Clone, PartialEq, Eq)]
pub struct TerrainTextureSet {
    /// RGBA8 albedo, `size * size * 4` bytes, sampled as sRGB.
    pub albedo_rgba: Vec<u8>,
    /// RGBA8 tangent-space normal, `size * size * 4` bytes, linear data.
    pub normal_rgba: Vec<u8>,
    /// R8 roughness, `size * size` bytes, linear data.
    pub roughness_r8: Vec<u8>,
}

/// Euclidean remainder: the representative of `value` in `0..modulus`.
pub open spec fn spec_rem_euclid(value: int, modulus: int) -> int {
    value % modulus
}

/// Wrap a lattice coordinate onto the periodic lattice of `cells` cells.
pub fn wrap_lattice(coordinate: i64, cells: i64) -> (wrapped: i64)
    requires
        cells > 0,
    ensures
        wrapped == spec_rem_euclid(coordinate as int, cells as int),
        0 <= wrapped < cells,
{
    match coordinate.checked_rem_euclid(cells) {
        Some(wrapped) => wrapped,
        None => 0,
    }
}

/// The lattice corner hash bits of cell `(ix, iy)` under `seed`: sixteen
/// bits of a wrapping 32-bit integer mix.
pub open spec fn spec_lattice_hash(ix: i64, iy: i64, seed: u32) -> u32 {
    let h0 = seed ^ vstd::wrapping::u32_specs::wrapping_mul(ix as u32, 0x85EB_CA6B);
    let h1 = vstd::wrapping::u32_specs::wrapping_add(h0, vstd::wrapping::u32_specs::wrapping_mul(iy as u32, 0xC2B2_AE35));
    let h2 = vstd::wrapping::u32_specs::wrapping_mul(h1, 0x9E37_79B9);
    let h3 = h2 ^ (h2 >> 16u32);
    let h4 = vstd::wrapping::u32_specs::wrapping_mul(h3, 0x85EB_CA6B);
    let h5 = h4 ^ (h4 >> 13u32);
    let h6 = vstd::wrapping::u32_specs::wrapping_mul(h5, 0xC2B2_AE35);
    let h7 = h6 ^ (h6 >> 16u32);
    (h7 >> 8u32) & 0xFFFF
}

/// Deterministic lattice corner hash, as an integer in `0..=0xFFFF` (the
/// generator scales it to the unit interval). Wrapping integer mixing only.
pub fn lattice_hash_bits(ix: i64, iy: i64, seed: u32) -> (bits: u32)
    ensures
        bits == spec_lattice_hash(ix, iy, seed),
        bits <= 0xFFFF,
{
    let mut h = seed ^ (ix as u32).wrapping_mul(0x85EB_CA6B);
    h = h.wrapping_add((iy as u32).wrapping_mul(0xC2B2_AE35));
    h = h.wrapping_mul(0x9E37_79B9);
    h ^= h >> 16;
    h = h.wrapping_mul(0x85EB_CA6B);
    h ^= h >> 13;
    h = h.wrapping_mul(0xC2B2_AE35);
    h ^= h >> 16;
    let bits = (h >> 8) & 0xFFFF;
    assert(bits <= 0xFFFF) by (bit_vector)
        requires
            bits == (h >> 8) & 0xFFFF,
    ;
    bits
}

/// Texel indices of the four periodic neighbours of `(x, y)` in a square map
/// of edge `size`: left, right, down, up, each wrapping around the edges.
pub fn periodic_neighbors(size: u32, x: u32, y: u32) -> (neighbors: (usize, usize, usize, usize))
    requires
        0 < size,
        x < size,
        y < size,
        2 * size <= u32::MAX,
        size as int * size as int <= usize::MAX,
    ensures
        neighbors.0 == y * size + (x + size - 1) % (size as int),
        neighbors.1 == y * size + (x + 1) % (size as int),
        neighbors.2 == ((y + size - 1) % (size as int)) * size + x,
        neighbors.3 == ((y + 1) % (size as int)) * size + x,
        neighbors.0 < size * size,
        neighbors.1 < size * size,
        neighbors.2 < size * size,
        neighbors.3 < size * size,
{
    let left = (x + size - 1) % size;
    let right = (x + 1) % size;
    let down = (y + size - 1) % size;
    let up = (y + 1) % size;
    proof {
        assert(forall|row: int, col: int|
            0 <= row < size && 0 <= col < size ==> #[trigger] (row * size + col) < size * size) by {
            assert forall|row: int, col: int| 0 <= row < size && 0 <= col < size implies #[trigger] (row * size
                + col) < size * size by {
                assert(row * size + col < size * size) by (nonlinear_arith)
                    requires
                        0 <= row < size,
                        0 <= col < size,
                ;
            }
        }
        assert((y as int) * (size as int) + (left as int) < size * size);
        assert((y as int) * (size as int) + (right as int) < size * size);
        assert((down as int) * (size as int) + (x as int) < size * size);
        assert((up as int) * (size as int) + (x as int) < size * size);
    }
    let row = y as usize * size as usize;
    (
        row + left as usize,
        row + right as usize,
        down as usize * size as usize + x as usize,
        up as usize * size as usize + x as usize,
    )
}

} // verus!
