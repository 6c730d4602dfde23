//! Production tree assets: species, render parts, LOD chains, geometry
//! assembly, and the binary GLB container the assets are exported in.
//!
//! A tree LOD is two separately-materialed meshes (bark and foliage). The
//! exported GLB is byte-deterministic: a 12-byte header, a JSON chunk padded
//! with spaces to four bytes, and a BIN chunk padded with zeros to four bytes.
//! Each part's vertices occupy 48 bytes in the BIN chunk (position, normal and
//! colour as ten little-endian 32-bit words, then eight zero bytes), followed
//! by its 32-bit little-endian indices starting at a four-byte boundary.

use vstd::prelude::*;

use crate::texture::DecodedTexture;

verus! {

/// Tree family used to balance species on the field.
#[derive(Debug, Clone, Copy, PartialEq, Eq, Hash, Structural)]
pub enum VegetationSpecies {
    Deciduous,
    Conifer,
}

/// One render part of a tree LOD. Parts are drawn with distinct materials.
#[derive(Debug, Clone, Copy, PartialEq, Eq, Hash, Structural)]
pub enum VegetationPart {
    Bark,
    Foliage,
}

/// Index of a part within an (asset, LOD) batch pair.
pub open spec fn part_index(part: VegetationPart) -> nat {
    match part {
        VegetationPart::Bark => 0,
        VegetationPart::Foliage => 1,
    }
}

impl VegetationPart {
    /// Index of this part within a (asset, LOD) batch pair.
    pub fn index(self) -> (index: usize)
        ensures
            index == part_index(self),
    {
        match self {
            VegetationPart::Bark => 0,
            VegetationPart::Foliage => 1,
        }
    }

    /// Total number of parts per tree LOD.
    pub fn count() -> (count: usize)
        ensures
            count == 2,
            forall|part: VegetationPart| part_index(part) < count,
    {
        2
    }
}

/// One part's geometry: vertices and a triangle list of vertex indices.
#[derive(Debug, Clone, PartialEq)]
pub struct PartMesh<V> {
    pub vertices: Vec<V>,
    pub indices: Vec<u32>,
}

/// One LOD level of a tree: two closed, separately-materialed meshes, and the
/// per-part base-colour textures of production assets.
#[derive(Debug, Clone)]
pub struct VegetationLod<V> {
    pub bark: PartMesh<V>,
    pub foliage: PartMesh<V>,
    pub bark_base_color: Option<DecodedTexture>,
    pub foliage_base_color: Option<DecodedTexture>,
}

/// Triangles of one part.
pub open spec fn part_triangles<V>(mesh: PartMesh<V>) -> int {
    mesh.indices@.len() as int / 3
}

/// Triangles of a LOD over both parts.
pub open spec fn lod_triangles<V>(lod: VegetationLod<V>) -> int {
    part_triangles(lod.bark) + part_triangles(lod.foliage)
}

impl<V> VegetationLod<V> {
    /// Total triangle count across both parts.
    pub fn triangle_count(&self) -> (count: usize)
        ensures
            count == lod_triangles(*self),
    {
        self.bark.indices.len() / 3 + self.foliage.indices.len() / 3
    }

    /// Triangle count of a single part.
    pub fn part_triangle_count(&self, part: VegetationPart) -> (count: usize)
        ensures
            count == match part {
                VegetationPart::Bark => part_triangles(self.bark),
                VegetationPart::Foliage => part_triangles(self.foliage),
            },
    {
        match part {
            VegetationPart::Bark => self.bark.indices.len() / 3,
            VegetationPart::Foliage => self.foliage.indices.len() / 3,
        }
    }

    /// Total vertex count across both parts.
    pub fn vertex_count(&self) -> (count: usize)
        requires
            self.bark.vertices@.len() + self.foliage.vertices@.len() <= usize::MAX,
        ensures
            count == self.bark.vertices@.len() + self.foliage.vertices@.len(),
    {
        self.bark.vertices.len() + self.foliage.vertices.len()
    }
}

/// The three LOD levels of one tree asset.
#[derive(Debug, Clone)]
pub struct VegetationLodSet<V> {
    pub lod0: VegetationLod<V>,
    pub lod1: VegetationLod<V>,
    pub lod2: VegetationLod<V>,
}

impl<V> VegetationLodSet<V> {
    /// LOD level by class index: 0, 1 or 2.
    pub fn lod(&self, class: u8) -> (lod: Option<&VegetationLod<V>>)
        ensures
            class == 0 ==> lod == Some(&self.lod0),
            class == 1 ==> lod == Some(&self.lod1),
            class == 2 ==> lod == Some(&self.lod2),
            class > 2 ==> lod.is_none(),
    {
        match class {
            0 => Some(&self.lod0),
            1 => Some(&self.lod1),
            2 => Some(&self.lod2),
            _ => None,
        }
    }

    /// Triangle count of the mesh a given LOD class actually renders; zero
    /// for a class that does not exist.
    pub fn triangle_count(&self, class: u8) -> (count: usize)
        ensures
            count == match class {
                0 => lod_triangles(self.lod0),
                1 => lod_triangles(self.lod1),
                2 => lod_triangles(self.lod2),
                _ => 0,
            },
    {
        match self.lod(class) {
            Some(lod) => lod.triangle_count(),
            None => 0,
        }
    }
}

// ── Geometry assembly ──────────────────────────────────────────────────────

/// Vertices of the first `n` parts, concatenated.
pub open spec fn concat_vertices<V>(parts: Seq<(Vec<V>, Vec<u32>)>, n: int) -> Seq<V>
    decreases n,
{
    if n <= 0 {
        Seq::empty()
    } else {
        concat_vertices(parts, n - 1) + parts[n - 1].0@
    }
}

/// Where part `n`'s vertices start in the merged list, as a 32-bit index
/// (saturated at `u32::MAX`).
pub open spec fn part_base<V>(parts: Seq<(Vec<V>, Vec<u32>)>, n: int) -> u32 {
    let len = concat_vertices(parts, n).len();
    if len <= u32::MAX {
        len as u32
    } else {
        u32::MAX
    }
}

/// A part's indices rebased onto the merged vertex list (saturating).
pub open spec fn rebased(indices: Seq<u32>, base: u32) -> Seq<u32> {
    indices.map_values(|index: u32| if base + index <= u32::MAX {
        (base + index) as u32
    } else {
        u32::MAX
    })
}

/// Indices of the first `n` parts, each rebased onto the merged vertices.
pub open spec fn concat_indices<V>(parts: Seq<(Vec<V>, Vec<u32>)>, n: int) -> Seq<u32>
    decreases n,
{
    if n <= 0 {
        Seq::empty()
    } else {
        concat_indices(parts, n - 1) + rebased(parts[n - 1].1@, part_base(parts, n - 1))
    }
}

/// Merge geometry parts into one vertex list and one index list: vertices are
/// concatenated, and each part's indices are offset by the number of vertices
/// before it (saturating at `u32::MAX`).
pub fn assemble<V: Copy>(parts: &[(Vec<V>, Vec<u32>)]) -> (merged: (Vec<V>, Vec<u32>))
    ensures
        merged.0@ == concat_vertices(parts@, parts@.len() as int),
        merged.1@ == concat_indices(parts@, parts@.len() as int),
{
    let mut vertices: Vec<V> = Vec::new();
    let mut indices: Vec<u32> = Vec::new();
    let mut p: usize = 0;
    while p < parts.len()
        invariant
            p <= parts@.len(),
            vertices@ == concat_vertices(parts@, p as int),
            indices@ == concat_indices(parts@, p as int),
        decreases parts@.len() - p,
    {
        let base: u32 = if vertices.len() <= u32::MAX as usize {
            vertices.len() as u32
        } else {
            u32::MAX
        };
        let ghost start_vertices = vertices@;
        let ghost start_indices = indices@;
        let part_vertices = &parts[p].0;
        let part_indices = &parts[p].1;
        let mut v: usize = 0;
        while v < part_vertices.len()
            invariant
                v <= part_vertices@.len(),
                vertices@ == start_vertices + part_vertices@.subrange(0, v as int),
            decreases part_vertices@.len() - v,
        {
            vertices.push(part_vertices[v]);
            proof {
                assert(part_vertices@.subrange(0, v + 1) =~= part_vertices@.subrange(0, v as int).push(
                    part_vertices@[v as int],
                ));
            }
            v += 1;
        }
        let mut k: usize = 0;
        while k < part_indices.len()
            invariant
                k <= part_indices@.len(),
                indices@ == start_indices + rebased(part_indices@.subrange(0, k as int), base),
            decreases part_indices@.len() - k,
        {
            indices.push(base.saturating_add(part_indices[k]));
            proof {
                assert(rebased(part_indices@.subrange(0, k + 1), base) =~= rebased(
                    part_indices@.subrange(0, k as int),
                    base,
                ).push(rebased(part_indices@, base)[k as int]));
            }
            k += 1;
        }
        proof {
            assert(part_vertices@.subrange(0, part_vertices@.len() as int) =~= part_vertices@);
            assert(part_indices@.subrange(0, part_indices@.len() as int) =~= part_indices@);
            assert(base == part_base(parts@, p as int));
        }
        p += 1;
    }
    (vertices, indices)
}

// ── GLB container ──────────────────────────────────────────────────────────

/// GLB magic `"glTF"`, little-endian.
pub const GLB_MAGIC: u32 = 0x4654_6C67;
/// GLB container version.
pub const GLB_VERSION: u32 = 2;
/// JSON chunk type `"JSON"`.
pub const GLB_CHUNK_JSON: u32 = 0x4E4F_534A;
/// BIN chunk type `"BIN\0"`.
pub const GLB_CHUNK_BIN: u32 = 0x004E_4942;
/// Bytes of one exported vertex in the BIN chunk.
pub const GLB_VERTEX_STRIDE: usize = 48;

/// Smallest multiple of four that is not below `offset`.
pub open spec fn spec_align4(offset: int) -> int {
    (offset + 3) / 4 * 4
}

/// Round an offset up to the next four-byte boundary.
pub fn align4(offset: usize) -> (aligned: usize)
    requires
        offset + 3 <= usize::MAX,
    ensures
        aligned == spec_align4(offset as int),
        aligned % 4 == 0,
        offset <= aligned < offset + 4,
{
    (offset + 3) / 4 * 4
}

/// Little-endian bytes of a 32-bit word.
pub open spec fn le_u32(word: u32) -> Seq<u8> {
    seq![
        (word % 256) as u8,
        ((word / 256) % 256) as u8,
        ((word / 65536) % 256) as u8,
        (word / 16777216) as u8,
    ]
}

/// Little-endian bytes of a sequence of words, in order.
pub open spec fn le_words(words: Seq<u32>) -> Seq<u8>
    decreases words.len(),
{
    if words.len() == 0 {
        Seq::empty()
    } else {
        le_words(words.drop_last()) + le_u32(words.last())
    }
}

/// `count` copies of `byte`.
pub open spec fn fill(byte: u8, count: int) -> Seq<u8> {
    Seq::new(if count < 0 { 0 } else { count as nat }, |i: int| byte)
}

/// Append the little-endian bytes of `word`.
fn push_u32_le(out: &mut Vec<u8>, word: u32)
    ensures
        final(out)@ == old(out)@ + le_u32(word),
{
    out.push((word % 256) as u8);
    out.push(((word / 256) % 256) as u8);
    out.push(((word / 65536) % 256) as u8);
    out.push((word / 16777216) as u8);
    proof {
        assert(final(out)@ =~= old(out)@ + le_u32(word));
    }
}

/// Append `count` copies of `byte`.
fn push_fill(out: &mut Vec<u8>, byte: u8, count: usize)
    ensures
        final(out)@ == old(out)@ + fill(byte, count as int),
{
    let mut i: usize = 0;
    while i < count
        invariant
            i <= count,
            out@ == old(out)@ + fill(byte, i as int),
        decreases count - i,
    {
        out.push(byte);
        proof {
            assert(fill(byte, i + 1) =~= fill(byte, i as int).push(byte));
        }
        i += 1;
    }
}

/// Append a byte slice.
fn push_bytes(out: &mut Vec<u8>, bytes: &[u8])
    ensures
        final(out)@ == old(out)@ + bytes@,
{
    let mut i: usize = 0;
    while i < bytes.len()
        invariant
            i <= bytes@.len(),
            out@ == old(out)@ + bytes@.subrange(0, i as int),
        decreases bytes@.len() - i,
    {
        out.push(bytes[i]);
        proof {
            assert(bytes@.subrange(0, i + 1) =~= bytes@.subrange(0, i as int).push(bytes@[i as int]));
        }
        i += 1;
    }
    proof {
        assert(bytes@.subrange(0, bytes@.len() as int) =~= bytes@);
    }
}

/// Bytes of one exported vertex: its ten words, then eight zero bytes.
pub open spec fn vertex_record(words: [u32; 10]) -> Seq<u8> {
    le_words(words@) + fill(0, 8)
}

/// Bytes of the first `n` exported vertices.
pub open spec fn vertex_records(vertices: Seq<[u32; 10]>, n: int) -> Seq<u8>
    decreases n,
{
    if n <= 0 {
        Seq::empty()
    } else {
        vertex_records(vertices, n - 1) + vertex_record(vertices[n - 1])
    }
}

proof fn lemma_le_words_len(words: Seq<u32>)
    ensures
        le_words(words).len() == 4 * words.len(),
    decreases words.len(),
{
    if words.len() > 0 {
        lemma_le_words_len(words.drop_last());
    }
}

proof fn lemma_vertex_records_len(vertices: Seq<[u32; 10]>, n: int)
    requires
        0 <= n,
    ensures
        vertex_records(vertices, n).len() == GLB_VERTEX_STRIDE * n,
    decreases n,
{
    if n > 0 {
        lemma_vertex_records_len(vertices, n - 1);
        lemma_le_words_len(vertices[n - 1]@);
    }
}

/// Byte ranges one part occupies in the BIN chunk.
#[derive(Debug, Clone, Copy, PartialEq, Eq, Structural)]
pub struct GlbPartLayout {
    /// Start of the vertex records.
    pub vertex_start: usize,
    /// Start of the indices: the end of the vertex records, rounded up to
    /// four bytes.
    pub index_start: usize,
    /// End of the indices.
    pub index_end: usize,
}

/// Append one part's vertices and indices to the BIN chunk: the vertex
/// records, zero padding to a four-byte boundary, then the indices.
pub fn append_glb_part(bin: &mut Vec<u8>, vertices: &[[u32; 10]], indices: &[u32]) -> (layout: GlbPartLayout)
    requires
        old(bin)@.len() + GLB_VERTEX_STRIDE * vertices@.len() + 4 * indices@.len() + 3 <= usize::MAX,
    ensures
        layout.vertex_start == old(bin)@.len(),
        layout.index_start == spec_align4(old(bin)@.len() + GLB_VERTEX_STRIDE * vertices@.len()),
        layout.index_end == layout.index_start + 4 * indices@.len(),
        final(bin)@.len() == layout.index_end,
        final(bin)@ == old(bin)@ + vertex_records(vertices@, vertices@.len() as int) + fill(
            0,
            layout.index_start - (old(bin)@.len() + GLB_VERTEX_STRIDE * vertices@.len()),
        ) + le_words(indices@),
{
    let vertex_start = bin.len();
    let ghost start = bin@;
    let mut v: usize = 0;
    while v < vertices.len()
        invariant
            v <= vertices@.len(),
            vertex_start == start.len(),
            start.len() + GLB_VERTEX_STRIDE * vertices@.len() + 4 * indices@.len() + 3 <= usize::MAX,
            bin@ == start + vertex_records(vertices@, v as int),
        decreases vertices@.len() - v,
    {
        let ghost before = bin@;
        let mut w: usize = 0;
        while w < 10
            invariant
                w <= 10,
                v < vertices@.len(),
                bin@ == before + le_words(vertices@[v as int]@.subrange(0, w as int)),
            decreases 10 - w,
        {
            push_u32_le(bin, vertices[v][w]);
            proof {
                let words = vertices@[v as int]@;
                assert(words.subrange(0, w + 1).drop_last() =~= words.subrange(0, w as int));
            }
            w += 1;
        }
        push_fill(bin, 0, 8);
        proof {
            assert(vertices@[v as int]@.subrange(0, 10) =~= vertices@[v as int]@);
            assert(bin@ =~= start + vertex_records(vertices@, v + 1));
        }
        v += 1;
    }
    proof {
        lemma_vertex_records_len(vertices@, vertices@.len() as int);
    }
    let vertices_end = bin.len();
    let index_start = align4(vertices_end);
    push_fill(bin, 0, index_start - vertices_end);
    let ghost padded = bin@;
    let mut k: usize = 0;
    while k < indices.len()
        invariant
            k <= indices@.len(),
            bin@ == padded + le_words(indices@.subrange(0, k as int)),
        decreases indices@.len() - k,
    {
        push_u32_le(bin, indices[k]);
        proof {
            assert(indices@.subrange(0, k + 1).drop_last() =~= indices@.subrange(0, k as int));
        }
        k += 1;
    }
    proof {
        assert(indices@.subrange(0, indices@.len() as int) =~= indices@);
        lemma_le_words_len(indices@);
    }
    GlbPartLayout { vertex_start, index_start, index_end: bin.len() }
}

/// The exported GLB byte stream for a JSON document and a BIN payload.
pub open spec fn glb_bytes(json: Seq<u8>, bin: Seq<u8>) -> Seq<u8> {
    let json_length = spec_align4(json.len() as int);
    let bin_length = spec_align4(bin.len() as int);
    let total_length = 12 + 8 + json_length + 8 + bin_length;
    le_u32(GLB_MAGIC) + le_u32(GLB_VERSION) + le_u32(total_length as u32) + le_u32(json_length as u32)
        + le_u32(GLB_CHUNK_JSON) + json + fill(0x20, json_length - json.len()) + le_u32(
        bin_length as u32,
    ) + le_u32(GLB_CHUNK_BIN) + bin + fill(0, bin_length - bin.len())
}

/// Law: the header of an exported GLB states the length of the whole file,
/// whenever that length fits the 32-bit field.
pub proof fn law_glb_header_states_its_own_length(json: Seq<u8>, bin: Seq<u8>)
    requires
        28 + spec_align4(json.len() as int) + spec_align4(bin.len() as int) <= u32::MAX,
    ensures
        glb_bytes(json, bin).len() == 28 + spec_align4(json.len() as int) + spec_align4(bin.len() as int),
        glb_bytes(json, bin).subrange(8, 12) == le_u32(glb_bytes(json, bin).len() as u32),
        glb_bytes(json, bin).subrange(0, 4) == le_u32(GLB_MAGIC),
{
    let g = glb_bytes(json, bin);
    assert(g.subrange(8, 12) =~= le_u32(g.len() as u32));
    assert(g.subrange(0, 4) =~= le_u32(GLB_MAGIC));
}

/// Frame a JSON document and a BIN payload as a GLB file: the header with the
/// total length, the JSON chunk padded with spaces, and the BIN chunk padded
/// with zeros, each chunk to four bytes. Lengths are written as 32-bit words.
pub fn glb_container(json: &[u8], bin: &[u8]) -> (glb: Vec<u8>)
    requires
        json@.len() + bin@.len() + 40 <= usize::MAX,
    ensures
        glb@ == glb_bytes(json@, bin@),
        glb@.len() == 28 + spec_align4(json@.len() as int) + spec_align4(bin@.len() as int),
{
    let json_length = align4(json.len());
    let bin_length = align4(bin.len());
    let total_length = 12 + 8 + json_length + 8 + bin_length;
    let mut glb: Vec<u8> = Vec::new();
    push_u32_le(&mut glb, GLB_MAGIC);
    push_u32_le(&mut glb, GLB_VERSION);
    push_u32_le(&mut glb, total_length as u32);
    push_u32_le(&mut glb, json_length as u32);
    push_u32_le(&mut glb, GLB_CHUNK_JSON);
    push_bytes(&mut glb, json);
    push_fill(&mut glb, 0x20, json_length - json.len());
    push_u32_le(&mut glb, bin_length as u32);
    push_u32_le(&mut glb, GLB_CHUNK_BIN);
    push_bytes(&mut glb, bin);
    push_fill(&mut glb, 0, bin_length - bin.len());
    proof {
        assert(glb@ =~= glb_bytes(json@, bin@));
    }
    glb
}

} // verus!
