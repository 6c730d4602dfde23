//! Geometry of the photographed-field panorama and its mip chain.
//!
//! The panorama is a 2:1 equirectangular photograph. Each mip level halves
//! both extents (never below one texel) with a 2x2 box filter whose taps WRAP
//! on U, because the azimuth is periodic, and CLAMP on V, because the poles
//! are single rows rather than a wrap boundary. This module fixes the level
//! extents, the texel each tap reads and where each output texel lands; the
//! colour arithmetic on the four taps (an average in linear light) is a
//! filter that the caller passes in.

use vstd::prelude::*;

verus! {

/// Width of the surveyed panorama photograph.
pub const PHOTO_FIELD_PANORAMA_WIDTH: u32 = 8192;
/// Height of the surveyed panorama photograph.
pub const PHOTO_FIELD_PANORAMA_HEIGHT: u32 = 4096;

/// One mip level of the panorama: RGBA8, sRGB-encoded texels.
#[derive(Debug, Clone, PartialEq, Eq)]
pub struct PanoramaMipLevel {
    pub width: u32,
    pub height: u32,
    pub bytes: Vec<u8>,
}

/// The decoded photograph does not have the surveyed extent.
#[derive(Debug, Clone, Copy, PartialEq, Eq, Structural)]
pub struct PanoramaExtentError {
    pub width: u32,
    pub height: u32,
    pub expected_width: u32,
    pub expected_height: u32,
}

/// Accept only the surveyed panorama extent.
pub fn check_panorama_extent(width: u32, height: u32) -> (result: Result<(), PanoramaExtentError>)
    ensures
        result is Ok <==> (width == PHOTO_FIELD_PANORAMA_WIDTH && height == PHOTO_FIELD_PANORAMA_HEIGHT),
        result matches Err(e) ==> e == (PanoramaExtentError {
            width,
            height,
            expected_width: PHOTO_FIELD_PANORAMA_WIDTH,
            expected_height: PHOTO_FIELD_PANORAMA_HEIGHT,
        }),
{
    if width != PHOTO_FIELD_PANORAMA_WIDTH || height != PHOTO_FIELD_PANORAMA_HEIGHT {
        Err(
            PanoramaExtentError {
                width,
                height,
                expected_width: PHOTO_FIELD_PANORAMA_WIDTH,
                expected_height: PHOTO_FIELD_PANORAMA_HEIGHT,
            },
        )
    } else {
        Ok(())
    }
}

/// One halving step of a mip extent: half, never below one.
pub open spec fn halve(size: u32) -> u32 {
    if size / 2 < 1 {
        1
    } else {
        size / 2
    }
}

/// `size` halved `steps` times.
pub open spec fn halve_n(size: u32, steps: nat) -> u32
    decreases steps,
{
    if steps == 0 {
        size
    } else {
        halve(halve_n(size, (steps - 1) as nat))
    }
}

/// How many times `size` can be halved before it reaches one: floor(log2).
pub open spec fn halvings(size: u32) -> nat
    decreases size,
{
    if size <= 1 {
        0
    } else {
        1 + halvings(size / 2)
    }
}

/// Mip levels of a texture edge: the full chain down to one texel.
pub open spec fn mip_levels(size: u32) -> nat {
    halvings(size) + 1
}

/// Number of mip levels of the full chain of an edge of `size` texels.
pub fn mip_level_count_for_size(size: u32) -> (levels: u32)
    requires
        size > 0,
    ensures
        levels == mip_levels(size),
        1 <= levels <= 32,
{
    let mut levels: u32 = 1;
    let mut remaining = size;
    proof {
        lemma_halvings_bound(size);
    }
    while remaining > 1
        invariant
            remaining >= 1,
            levels + halvings(remaining) == mip_levels(size),
            halvings(remaining) < 32,
            levels >= 1,
            levels + halvings(remaining) <= 32,
        decreases remaining,
    {
        remaining = remaining / 2;
        levels = levels + 1;
    }
    levels
}

proof fn lemma_halvings_bound(size: u32)
    ensures
        halvings(size) < 32,
{
    vstd::arithmetic::power2::lemma2_to64();
    lemma_halvings_pow(size, 31);
}

/// A size below 2^(k+1) needs at most k halvings.
proof fn lemma_halvings_pow(size: u32, k: nat)
    requires
        size < vstd::arithmetic::power2::pow2(k + 1),
    ensures
        halvings(size) <= k,
    decreases size,
{
    vstd::arithmetic::power2::lemma_pow2_unfold(k + 1);
    vstd::arithmetic::power2::lemma2_to64();
    if size > 1 {
        if k == 0 {
        } else {
            vstd::arithmetic::power2::lemma_pow2_unfold(k);
            lemma_halvings_pow(size / 2, (k - 1) as nat);
        }
    }
}

/// Halving one more time after `steps` halvings.
proof fn lemma_halve_n_step(size: u32, steps: nat)
    ensures
        halve_n(size, steps + 1) == halve(halve_n(size, steps)),
{
}

/// Halving `size` as many times as it allows reaches one.
proof fn lemma_halve_to_one(size: u32)
    requires
        size >= 1,
    ensures
        halve_n(size, halvings(size)) == 1,
    decreases size,
{
    if size > 1 {
        lemma_halve_to_one(size / 2);
        lemma_halve_n_shift(size, halvings(size / 2));
    }
}

/// Halving once first, then `steps` times, is halving `steps + 1` times.
proof fn lemma_halve_n_shift(size: u32, steps: nat)
    requires
        size >= 2,
    ensures
        halve_n(size, steps + 1) == halve_n(size / 2, steps),
    decreases steps,
{
    assert(halve_n(size, steps + 1) == halve(halve_n(size, steps)));
    if steps > 0 {
        lemma_halve_n_shift(size, (steps - 1) as nat);
        assert(halve_n(size / 2, steps) == halve(halve_n(size / 2, (steps - 1) as nat)));
    } else {
        assert(halve_n(size, 0) == size);
        assert(halve_n(size / 2, 0) == size / 2);
    }
}

/// A halved extent never falls below one texel.
proof fn lemma_halve_n_positive(size: u32, steps: nat)
    requires
        size >= 1,
    ensures
        halve_n(size, steps) >= 1,
    decreases steps,
{
    if steps > 0 {
        lemma_halve_n_positive(size, (steps - 1) as nat);
    }
}

/// Halving keeps the order of two sizes.
proof fn lemma_halve_n_monotone(small: u32, large: u32, steps: nat)
    requires
        small <= large,
    ensures
        halve_n(small, steps) <= halve_n(large, steps),
        halve_n(small, steps) >= 1 || steps == 0,
    decreases steps,
{
    if steps > 0 {
        lemma_halve_n_monotone(small, large, (steps - 1) as nat);
    }
}

/// Extent of the next mip level.
pub fn downsample_extent(width: u32, height: u32) -> (extent: (u32, u32))
    ensures
        extent == (halve(width), halve(height)),
{
    let out_width = if width / 2 < 1 { 1 } else { width / 2 };
    let out_height = if height / 2 < 1 { 1 } else { height / 2 };
    (out_width, out_height)
}

/// Extents of every level of the full mip chain of a `width` x `height`
/// image, level 0 first.
pub fn panorama_mip_extents(width: u32, height: u32) -> (extents: Vec<(u32, u32)>)
    requires
        width > 0,
        0 < height <= width,
    ensures
        extents@.len() == mip_levels(width),
        forall|level: int| 0 <= level < extents@.len() ==> #[trigger] extents@[level] == (
            halve_n(width, level as nat),
            halve_n(height, level as nat),
        ),
        extents@.last() == (1u32, 1u32),
{
    let levels = mip_level_count_for_size(width);
    let mut extents: Vec<(u32, u32)> = Vec::new();
    extents.push((width, height));
    let mut current_width = width;
    let mut current_height = height;
    while (extents.len() as u32) < levels
        invariant
            1 <= extents@.len() <= levels,
            levels == mip_levels(width),
            levels <= 32,
            current_width == halve_n(width, (extents@.len() - 1) as nat),
            current_height == halve_n(height, (extents@.len() - 1) as nat),
            forall|level: int| 0 <= level < extents@.len() ==> #[trigger] extents@[level] == (
                halve_n(width, level as nat),
                halve_n(height, level as nat),
            ),
        decreases levels - extents@.len(),
    {
        let next = downsample_extent(current_width, current_height);
        proof {
            lemma_halve_n_step(width, (extents@.len() - 1) as nat);
            lemma_halve_n_step(height, (extents@.len() - 1) as nat);
        }
        extents.push(next);
        current_width = next.0;
        current_height = next.1;
    }
    proof {
        lemma_halve_to_one(width);
        lemma_halve_n_monotone(height, width, halvings(width));
        assert(extents@.last() == extents@[halvings(width) as int]);
    }
    extents
}

/// Texel index read by tap `(dx, dy)` of output texel `(out_x, out_y)` when
/// downsampling a `width` x `height` level: the source column wraps around
/// the width, the source row clamps to the last.
pub open spec fn tap_texel(width: u32, height: u32, out_x: int, out_y: int, dx: int, dy: int) -> int {
    let x = (out_x * 2 + dx) % (width as int);
    let y = if out_y * 2 + dy < height - 1 {
        out_y * 2 + dy
    } else {
        height - 1
    };
    y * width + x
}

/// Byte offset of one box-filter tap of output texel `(out_x, out_y)`.
pub open spec fn spec_tap_offset(width: u32, height: u32, out_x: u32, out_y: u32, dx: u32, dy: u32) -> int {
    tap_texel(width, height, out_x as int, out_y as int, dx as int, dy as int) * 4
}

/// The source row and column that tap `(dx, dy)` of output texel
/// `(out_x, out_y)` reads: row `2 * out_y + dy` clamped to the last row,
/// column `2 * out_x + dx` wrapped around the width; its byte offset is that
/// texel's, four bytes per texel, rows of `width` texels.
pub proof fn law_box_tap_reads_its_own_two_by_two_box(
    width: u32,
    height: u32,
    out_x: u32,
    out_y: u32,
    dx: u32,
    dy: u32,
)
    requires
        width > 0,
        height > 0,
        out_x < halve(width),
        out_y < halve(height),
        dx <= 1,
        dy <= 1,
    ensures
        spec_tap_offset(width, height, out_x, out_y, dx, dy) % 4 == 0,
        (spec_tap_offset(width, height, out_x, out_y, dx, dy) / 4) / (width as int) == if 2 * out_y + dy
            <= height - 1 {
            2 * out_y + dy
        } else {
            height - 1
        },
        (spec_tap_offset(width, height, out_x, out_y, dx, dy) / 4) % (width as int) == (2 * out_x + dx) % (
        width as int),
{
    let t = tap_texel(width, height, out_x as int, out_y as int, dx as int, dy as int);
    let column = (out_x * 2 + dx) % (width as int);
    let row = if out_y * 2 + dy < height - 1 {
        out_y * 2 + dy
    } else {
        height - 1
    };
    assert(t == row * width + column);
    assert(0 <= column < width);
    assert(row >= 0);
    vstd::arithmetic::div_mod::lemma_fundamental_div_mod_converse(t * 4, 4, t, 0);
    vstd::arithmetic::div_mod::lemma_fundamental_div_mod_converse(t, width as int, row, column);
}

/// Two different output rows of a step down from a level at least two rows
/// high read disjoint source rows: the boxes tile the level without
/// overlapping.
pub proof fn law_box_taps_of_distinct_output_rows_are_disjoint(
    width: u32,
    height: u32,
    out_x1: u32,
    out_y1: u32,
    dx1: u32,
    dy1: u32,
    out_x2: u32,
    out_y2: u32,
    dx2: u32,
    dy2: u32,
)
    requires
        width > 0,
        height >= 2,
        out_x1 < halve(width),
        out_x2 < halve(width),
        out_y1 < halve(height),
        out_y2 < halve(height),
        out_y1 != out_y2,
        dx1 <= 1,
        dy1 <= 1,
        dx2 <= 1,
        dy2 <= 1,
    ensures
        (spec_tap_offset(width, height, out_x1, out_y1, dx1, dy1) / 4) / (width as int) != (spec_tap_offset(
            width,
            height,
            out_x2,
            out_y2,
            dx2,
            dy2,
        ) / 4) / (width as int),
{
    law_box_tap_reads_its_own_two_by_two_box(width, height, out_x1, out_y1, dx1, dy1);
    law_box_tap_reads_its_own_two_by_two_box(width, height, out_x2, out_y2, dx2, dy2);
    assert(2 * out_y1 + 1 <= height - 1 && 2 * out_y2 + 1 <= height - 1);
}

/// Byte offset of the RGBA texel read by tap `(dx, dy)` of output texel
/// `(out_x, out_y)` when downsampling a `width` x `height` level.
pub fn box_tap_offset(width: u32, height: u32, out_x: u32, out_y: u32, dx: u32, dy: u32) -> (offset: usize)
    requires
        width > 0,
        height > 0,
        out_x < halve(width),
        out_y < halve(height),
        dx <= 1,
        dy <= 1,
        width as int * height as int * 4 <= usize::MAX,
    ensures
        offset == spec_tap_offset(width, height, out_x, out_y, dx, dy),
        offset + 4 <= width as int * height as int * 4,
{
    let x = (out_x as u64 * 2 + dx as u64) % width as u64;
    let row = out_y as u64 * 2 + dy as u64;
    let y = if row < height as u64 - 1 { row } else { height as u64 - 1 };
    proof {
        assert(y * width + x <= (height - 1) * width + (width - 1)) by (nonlinear_arith)
            requires
                y <= height - 1,
                x <= width - 1,
        ;
        assert((height - 1) * width + (width - 1) + 1 == height * width) by (nonlinear_arith);
        assert((y * width + x) * 4 + 4 <= width * height * 4) by (nonlinear_arith)
            requires
                y * width + x + 1 <= height * width,
        ;
    }
    ((y * width as u64 + x) * 4) as usize
}

/// The four channels of texel `index` of an RGBA8 byte sequence.
pub open spec fn texel(bytes: Seq<u8>, index: int) -> (u8, u8, u8, u8) {
    (bytes[index * 4], bytes[index * 4 + 1], bytes[index * 4 + 2], bytes[index * 4 + 3])
}

/// The four taps of output texel `(out_x, out_y)`, in the order
/// `(0, 0)`, `(1, 0)`, `(0, 1)`, `(1, 1)` of `(dx, dy)`.
pub open spec fn box_taps(width: u32, height: u32, src: Seq<u8>, out_x: int, out_y: int) -> (
    (u8, u8, u8, u8),
    (u8, u8, u8, u8),
    (u8, u8, u8, u8),
    (u8, u8, u8, u8),
) {
    (
        texel(src, tap_texel(width, height, out_x, out_y, 0, 0)),
        texel(src, tap_texel(width, height, out_x, out_y, 1, 0)),
        texel(src, tap_texel(width, height, out_x, out_y, 0, 1)),
        texel(src, tap_texel(width, height, out_x, out_y, 1, 1)),
    )
}

/// `next` is one box-filter step down from the `width` x `height` level
/// `src`: halved extents, tightly packed, and every output texel is a result
/// of `filter` on its four taps.
#[verifier::opaque]
pub open spec fn is_box_step<F: Fn(
    (u8, u8, u8, u8),
    (u8, u8, u8, u8),
    (u8, u8, u8, u8),
    (u8, u8, u8, u8),
) -> (u8, u8, u8, u8)>(filter: F, width: u32, height: u32, src: Seq<u8>, next: PanoramaMipLevel) -> bool {
    &&& next.width == halve(width)
    &&& next.height == halve(height)
    &&& next.bytes@.len() == next.width as int * next.height as int * 4
    &&& forall|index: int|
        0 <= index < next.width as int * next.height as int ==> filter.ensures(
            box_taps(width, height, src, index % (next.width as int), index / (next.width as int)),
            #[trigger] texel(next.bytes@, index),
        )
}

/// One wrap-on-U / clamp-on-V 2x2 box-filter step: each output texel is
/// `filter` applied to its four taps (the colour arithmetic, done in linear
/// light, is the caller's).
pub fn downsample_panorama_level<F: Fn(
    (u8, u8, u8, u8),
    (u8, u8, u8, u8),
    (u8, u8, u8, u8),
    (u8, u8, u8, u8),
) -> (u8, u8, u8, u8)>(width: u32, height: u32, src: &Vec<u8>, filter: &F) -> (next: PanoramaMipLevel)
    requires
        width > 0,
        height > 0,
        src@.len() == width as int * height as int * 4,
        forall|a: (u8, u8, u8, u8), b: (u8, u8, u8, u8), c: (u8, u8, u8, u8), d: (u8, u8, u8, u8)|
            #[trigger] filter.requires((a, b, c, d)),
    ensures
        next.width == halve(width),
        next.height == halve(height),
        next.bytes@.len() == next.width as int * next.height as int * 4,
        is_box_step(*filter, width, height, src@, next),
{
    let (out_width, out_height) = downsample_extent(width, height);
    let ghost src_len = src@.len();
    let src_len_exec = src.len();
    proof {
        assert(out_width as int * out_height as int <= width as int * height as int) by (nonlinear_arith)
            requires
                1 <= out_width <= width,
                1 <= out_height <= height,
        ;
    }
    let total = out_width as usize * out_height as usize;
    let mut bytes: Vec<u8> = Vec::new();
    let mut index: usize = 0;
    while index < total
        invariant
            width > 0,
            height > 0,
            src_len_exec == src@.len(),
            src@.len() == width as int * height as int * 4,
            out_width == halve(width),
            out_height == halve(height),
            out_width >= 1,
            total == out_width as int * out_height as int,
            total <= width as int * height as int,
            index <= total,
            bytes@.len() == index as int * 4,
            forall|a: (u8, u8, u8, u8), b: (u8, u8, u8, u8), c: (u8, u8, u8, u8), d: (u8, u8, u8, u8)|
                #[trigger] filter.requires((a, b, c, d)),
            forall|done: int|
                0 <= done < index ==> filter.ensures(
                    box_taps(width, height, src@, done % (out_width as int), done / (out_width as int)),
                    #[trigger] texel(bytes@, done),
                ),
        decreases total - index,
    {
        let out_x = (index % out_width as usize) as u32;
        let out_y = (index / out_width as usize) as u32;
        proof {
            assert((index as int) / (out_width as int) < out_height) by (nonlinear_arith)
                requires
                    index < out_width as int * out_height as int,
                    out_width >= 1,
            ;
        }
        let o00 = box_tap_offset(width, height, out_x, out_y, 0, 0);
        let o10 = box_tap_offset(width, height, out_x, out_y, 1, 0);
        let o01 = box_tap_offset(width, height, out_x, out_y, 0, 1);
        let o11 = box_tap_offset(width, height, out_x, out_y, 1, 1);
        let t00 = (src[o00], src[o00 + 1], src[o00 + 2], src[o00 + 3]);
        let t10 = (src[o10], src[o10 + 1], src[o10 + 2], src[o10 + 3]);
        let t01 = (src[o01], src[o01 + 1], src[o01 + 2], src[o01 + 3]);
        let t11 = (src[o11], src[o11 + 1], src[o11 + 2], src[o11 + 3]);
        let out = filter(t00, t10, t01, t11);
        let ghost old_bytes = bytes@;
        bytes.push(out.0);
        bytes.push(out.1);
        bytes.push(out.2);
        bytes.push(out.3);
        proof {
            assert(t00 == box_taps(width, height, src@, index as int % (out_width as int), index as int / (out_width as int)).0);
            assert(t10 == box_taps(width, height, src@, index as int % (out_width as int), index as int / (out_width as int)).1);
            assert(t01 == box_taps(width, height, src@, index as int % (out_width as int), index as int / (out_width as int)).2);
            assert(t11 == box_taps(width, height, src@, index as int % (out_width as int), index as int / (out_width as int)).3);
            assert(texel(bytes@, index as int) == out);
            assert forall|done: int| 0 <= done < index implies #[trigger] texel(bytes@, done) == texel(old_bytes, done) by {
                assert(done * 4 + 3 < index * 4);
            }
        }
        index = index + 1;
    }
    let next = PanoramaMipLevel { width: out_width, height: out_height, bytes };
    proof {
        reveal(is_box_step);
    }
    next
}

/// Full mip chain of a 2:1 equirectangular panorama: level 0 is the decoded
/// photograph itself, and each following level is one box-filter step of the
/// level before it, with `filter` averaging the four taps of each texel,
/// until the chain holds every level down to one texel.
pub fn panorama_mip_chain<F: Fn(
    (u8, u8, u8, u8),
    (u8, u8, u8, u8),
    (u8, u8, u8, u8),
    (u8, u8, u8, u8),
) -> (u8, u8, u8, u8)>(rgba8: Vec<u8>, width: u32, height: u32, filter: F) -> (chain: Vec<PanoramaMipLevel>)
    requires
        width > 0,
        width & ((width - 1) as u32) == 0,
        height * 2 == width,
        rgba8@.len() == width as int * height as int * 4,
        forall|a: (u8, u8, u8, u8), b: (u8, u8, u8, u8), c: (u8, u8, u8, u8), d: (u8, u8, u8, u8)|
            #[trigger] filter.requires((a, b, c, d)),
    ensures
        chain@.len() == mip_levels(width),
        chain@[0] == (PanoramaMipLevel { width, height, bytes: rgba8 }),
        forall|level: int|
            0 <= level < chain@.len() ==> {
                &&& (#[trigger] chain@[level]).width == halve_n(width, level as nat)
                &&& chain@[level].height == halve_n(height, level as nat)
                &&& chain@[level].bytes@.len() == chain@[level].width as int * chain@[level].height as int * 4
            },
        forall|level: int|
            0 < level < chain@.len() ==> is_box_step(
                filter,
                chain@[level - 1].width,
                chain@[level - 1].height,
                chain@[level - 1].bytes@,
                #[trigger] chain@[level],
            ),
        chain@.last().width == 1 && chain@.last().height == 1,
{
    let levels = mip_level_count_for_size(width);
    let mut chain: Vec<PanoramaMipLevel> = Vec::new();
    chain.push(PanoramaMipLevel { width, height, bytes: rgba8 });
    while (chain.len() as u32) < levels
        invariant
            1 <= chain@.len() <= levels,
            levels == mip_levels(width),
            levels <= 32,
            0 < height <= width,
            chain@[0] == (PanoramaMipLevel { width, height, bytes: rgba8 }),
            forall|a: (u8, u8, u8, u8), b: (u8, u8, u8, u8), c: (u8, u8, u8, u8), d: (u8, u8, u8, u8)|
                #[trigger] filter.requires((a, b, c, d)),
            forall|level: int|
                0 <= level < chain@.len() ==> {
                    &&& (#[trigger] chain@[level]).width == halve_n(width, level as nat)
                    &&& chain@[level].height == halve_n(height, level as nat)
                    &&& chain@[level].bytes@.len() == chain@[level].width as int * chain@[level].height as int * 4
                },
            forall|level: int|
                0 < level < chain@.len() ==> is_box_step(
                    filter,
                    chain@[level - 1].width,
                    chain@[level - 1].height,
                    chain@[level - 1].bytes@,
                    #[trigger] chain@[level],
                ),
        decreases levels - chain@.len(),
    {
        let last = chain.len() - 1;
        proof {
            lemma_halve_n_positive(width, last as nat);
            lemma_halve_n_positive(height, last as nat);
            lemma_halve_n_step(width, last as nat);
            lemma_halve_n_step(height, last as nat);
        }
        let next = downsample_panorama_level(chain[last].width, chain[last].height, &chain[last].bytes, &filter);
        chain.push(next);
    }
    proof {
        lemma_halve_to_one(width);
        lemma_halve_n_monotone(height, width, halvings(width));
        lemma_halve_n_positive(height, halvings(width));
        assert(chain@.last() == chain@[halvings(width) as int]);
    }
    chain
}


// ── Depth proxies ──────────────────────────────────────────────────────────

/// One primitive of a proxy-scene instance, in traversal order, with its
/// vertices already baked into render-world space. `ground` tells whether the
/// instance is the authored ground receiver (any other node, named or not,
/// is an occluder).
#[derive(Debug, Clone, PartialEq)]
pub struct ProxyPrimitive<V> {
    pub ground: bool,
    pub vertices: Vec<V>,
    pub indices: Vec<u32>,
}

/// One proxy batch: baked vertices and indices into them.
#[derive(Debug, Clone, PartialEq)]
pub struct ProxyMesh<V> {
    pub vertices: Vec<V>,
    pub indices: Vec<u32>,
}

/// The ground receiver and the occluders of the photographed field.
#[derive(Debug, Clone, PartialEq)]
pub struct ProxyGeometry<V> {
    pub ground: ProxyMesh<V>,
    pub occluders: ProxyMesh<V>,
}

/// Whether a proxy-scene node is the ground receiver: only a node carrying
/// exactly the authored ground name is; unnamed and renamed nodes are
/// occluders.
pub fn is_ground_node(node_name: Option<&str>, ground_node_name: &str) -> (ground: bool)
    ensures
        ground == (node_name matches Some(name) && name@ == ground_node_name@),
{
    match node_name {
        Some(name) => crate::vegetation::same_text(name, ground_node_name),
        None => false,
    }
}

/// Why the proxy scene cannot be baked.
#[derive(Debug, Clone, Copy, PartialEq, Eq, Structural)]
pub enum ProxyBakeError {
    /// A batch holds more vertices than a 32-bit index can address.
    TooManyVertices,
    /// A batch would be empty: the ground receiver (`ground`) or the occluders.
    PartitionEmpty { ground: bool },
}

/// Vertices of the first `n` primitives that belong to the `ground` batch.
pub open spec fn batch_vertices<V>(primitives: Seq<ProxyPrimitive<V>>, ground: bool, n: int) -> Seq<V>
    decreases n,
{
    if n <= 0 {
        Seq::empty()
    } else if primitives[n - 1].ground == ground {
        batch_vertices(primitives, ground, n - 1) + primitives[n - 1].vertices@
    } else {
        batch_vertices(primitives, ground, n - 1)
    }
}

/// Vertices already in primitive `k`'s batch when it is appended.
pub open spec fn batch_base<V>(primitives: Seq<ProxyPrimitive<V>>, k: int) -> int {
    batch_vertices(primitives, primitives[k].ground, k).len() as int
}

/// Indices of the first `n` primitives of the `ground` batch, each rebased
/// onto the batch's vertex list.
pub open spec fn batch_indices<V>(primitives: Seq<ProxyPrimitive<V>>, ground: bool, n: int) -> Seq<u32>
    decreases n,
{
    if n <= 0 {
        Seq::empty()
    } else if primitives[n - 1].ground == ground {
        batch_indices(primitives, ground, n - 1) + primitives[n - 1].indices@.map_values(
            |index: u32| (index + batch_base(primitives, n - 1)) as u32,
        )
    } else {
        batch_indices(primitives, ground, n - 1)
    }
}

/// Primitive `k` would start beyond the 32-bit index range.
pub open spec fn base_overflows<V>(primitives: Seq<ProxyPrimitive<V>>, k: int) -> bool {
    batch_base(primitives, k) > u32::MAX
}

/// Rebasing never overflows a 32-bit index while the batch start itself fits.
pub open spec fn rebasing_fits<V>(primitives: Seq<ProxyPrimitive<V>>) -> bool {
    forall|k: int, i: int|
        0 <= k < primitives.len() && !base_overflows(primitives, k) && 0 <= i < primitives[k].indices@.len()
            ==> #[trigger] primitives[k].indices@[i] + batch_base(primitives, k) <= u32::MAX
}

/// Bake the proxy scene into its two batches, in traversal order. Fails
/// closed when a batch would start beyond the 32-bit index range, when there
/// is no ground receiver, or when there is no occluder.
pub fn bake_proxy_geometry<V: Copy>(primitives: &[ProxyPrimitive<V>]) -> (result: Result<
    ProxyGeometry<V>,
    ProxyBakeError,
>)
    requires
        rebasing_fits(primitives@),
    ensures
        (result == Err::<ProxyGeometry<V>, ProxyBakeError>(ProxyBakeError::TooManyVertices)) <==> exists|k: int|
            0 <= k < primitives@.len() && #[trigger] base_overflows(primitives@, k),
        !(exists|k: int| 0 <= k < primitives@.len() && #[trigger] base_overflows(primitives@, k)) ==> {
            let n = primitives@.len() as int;
            let ground = batch_indices(primitives@, true, n);
            let occluders = batch_indices(primitives@, false, n);
            &&& (result == Err::<ProxyGeometry<V>, ProxyBakeError>(ProxyBakeError::PartitionEmpty { ground: true }))
                <==> ground.len() == 0
            &&& (result == Err::<ProxyGeometry<V>, ProxyBakeError>(ProxyBakeError::PartitionEmpty { ground: false }))
                <==> (ground.len() > 0 && occluders.len() == 0)
            &&& result is Ok <==> (ground.len() > 0 && occluders.len() > 0)
            &&& result matches Ok(geometry) ==> {
                &&& geometry.ground.vertices@ == batch_vertices(primitives@, true, n)
                &&& geometry.ground.indices@ == ground
                &&& geometry.occluders.vertices@ == batch_vertices(primitives@, false, n)
                &&& geometry.occluders.indices@ == occluders
            }
        },
{
    let mut ground = ProxyMesh { vertices: Vec::new(), indices: Vec::new() };
    let mut occluders = ProxyMesh { vertices: Vec::new(), indices: Vec::new() };
    let mut p: usize = 0;
    while p < primitives.len()
        invariant
            p <= primitives@.len(),
            rebasing_fits(primitives@),
            forall|k: int| 0 <= k < p ==> !#[trigger] base_overflows(primitives@, k),
            ground.vertices@ == batch_vertices(primitives@, true, p as int),
            ground.indices@ == batch_indices(primitives@, true, p as int),
            occluders.vertices@ == batch_vertices(primitives@, false, p as int),
            occluders.indices@ == batch_indices(primitives@, false, p as int),
        decreases primitives@.len() - p,
    {
        let primitive = &primitives[p];
        let target = if primitive.ground {
            &mut ground
        } else {
            &mut occluders
        };
        let ghost start_vertices = target.vertices@;
        let ghost start_indices = target.indices@;
        if target.vertices.len() > u32::MAX as usize {
            proof {
                assert(base_overflows(primitives@, p as int));
            }
            return Err(ProxyBakeError::TooManyVertices);
        }
        let base = target.vertices.len() as u32;
        proof {
            assert(!base_overflows(primitives@, p as int));
            assert(base == batch_base(primitives@, p as int));
        }
        let mut v: usize = 0;
        while v < primitive.vertices.len()
            invariant
                v <= primitive.vertices@.len(),
                target.vertices@ == start_vertices + primitive.vertices@.subrange(0, v as int),
                target.indices@ == start_indices,
            decreases primitive.vertices@.len() - v,
        {
            target.vertices.push(primitive.vertices[v]);
            proof {
                assert(primitive.vertices@.subrange(0, v + 1) =~= primitive.vertices@.subrange(0, v as int).push(
                    primitive.vertices@[v as int],
                ));
            }
            v += 1;
        }
        let mut k: usize = 0;
        while k < primitive.indices.len()
            invariant
                k <= primitive.indices@.len(),
                p < primitives@.len(),
                primitive == primitives@[p as int],
                base == batch_base(primitives@, p as int),
                !base_overflows(primitives@, p as int),
                rebasing_fits(primitives@),
                target.vertices@ == start_vertices + primitive.vertices@,
                target.indices@ == start_indices + primitive.indices@.subrange(0, k as int).map_values(
                    |index: u32| (index + batch_base(primitives@, p as int)) as u32,
                ),
            decreases primitive.indices@.len() - k,
        {
            proof {
                assert(primitives@[p as int].indices@[k as int] + batch_base(primitives@, p as int) <= u32::MAX);
            }
            target.indices.push(primitive.indices[k] + base);
            proof {
                assert(primitive.indices@.subrange(0, k + 1).map_values(
                    |index: u32| (index + batch_base(primitives@, p as int)) as u32,
                ) =~= primitive.indices@.subrange(0, k as int).map_values(
                    |index: u32| (index + batch_base(primitives@, p as int)) as u32,
                ).push((primitive.indices@[k as int] + base) as u32));
            }
            k += 1;
        }
        proof {
            assert(primitive.vertices@.subrange(0, primitive.vertices@.len() as int) =~= primitive.vertices@);
            assert(primitive.indices@.subrange(0, primitive.indices@.len() as int) =~= primitive.indices@);
        }
        p += 1;
    }
    if ground.indices.len() == 0 {
        return Err(ProxyBakeError::PartitionEmpty { ground: true });
    }
    if occluders.indices.len() == 0 {
        return Err(ProxyBakeError::PartitionEmpty { ground: false });
    }
    Ok(ProxyGeometry { ground, occluders })
}

} // verus!
