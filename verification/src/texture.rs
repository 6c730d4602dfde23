//! Texture upload infrastructure for glTF base-color textures.
//!
//! # Alignment
//!
//! WebGPU requires `bytes_per_row` of a texture copy to be a multiple of
//! [`COPY_BYTES_PER_ROW_ALIGNMENT`] (256 bytes). For images whose row size is
//! not a multiple of 256, each row is padded in a staging buffer before upload.
//!
//! # Overflow safety
//!
//! All size arithmetic is checked. Functions that compute buffer sizes return
//! `Option` or `Result` rather than wrapping.
//!
//! # Sampler mapping
//!
//! A glTF `minFilter` carries two independent axes: the minification mode and
//! whether (and how) a mip chain is sampled. Both axes are preserved:
//! [`SamplerFilter`] holds the first, [`SamplerMipmapFilter`] the second, and
//! `SamplerConfig::mipmap_filter` is `None` exactly when the asset asked for
//! single-mip sampling.

use gltf::json::texture::{MagFilter, MinFilter, WrappingMode};
use gltf::json::validation::Checked;
use vstd::prelude::*;

verus! {

/// WebGPU requires texture copy rows to be aligned to this many bytes.
pub const COPY_BYTES_PER_ROW_ALIGNMENT: u32 = 256;

#[verifier::external_type_specification]
#[verifier::external_body]
pub struct ExImageError(image::ImageError);

/// Decoded RGBA8 pixels of a byte stream, as the `image` crate decodes them
/// in the built-in format its magic bytes name: width, height and the raw
/// row-major RGBA8 bytes, or `None` when the stream is not a decodable image.
pub uninterp spec fn image_decode_rgba8(data: Seq<u8>) -> Option<(u32, u32, Seq<u8>)>;

/// Calls `image::guess_format` on the bytes (built-in magic bytes only, no
/// registered hooks), decodes them in that format with
/// `image::ImageReader::with_format` and `decode`, then `to_rgba8`. The
/// contract claims that the outcome is a function of the bytes alone (neither
/// call consults process-wide hook registries for a built-in format): the
/// decoded dimensions and pixels on success, four bytes per pixel as
/// `RgbaImage::into_raw` yields them, and an error exactly when guessing or
/// decoding fails.
#[verifier::external_body]
fn decode_rgba8(data: &[u8]) -> (result: Result<(u32, u32, Vec<u8>), image::ImageError>)
    ensures
        match result {
            Ok((width, height, pixels)) => image_decode_rgba8(data@) == Some((width, height, pixels@))
                && pixels@.len() == 4 * width * height,
            Err(_) => image_decode_rgba8(data@) is None,
        },
{
    let format = image::guess_format(data)?;
    let rgba = image::ImageReader::with_format(std::io::Cursor::new(data), format).decode()?.to_rgba8();
    let (width, height) = rgba.dimensions();
    Ok((width, height, rgba.into_raw()))
}

/// RGBA8 pixel data ready for GPU upload.
#[derive(Debug, Clone)]
pub struct DecodedTexture {
    pub width: u32,
    pub height: u32,
    pub rgba8: Vec<u8>,
}

/// Failures while decoding or staging a texture.
#[derive(Debug)]
pub enum TextureLoadError {
    EmptyImageData,
    DecodeFailed(image::ImageError),
    InvalidDimensions { width: u32, height: u32 },
    ByteSizeOverflow,
    PaddedRowOverflow { width: u32 },
    StagingBufferOverflow { width: u32, height: u32 },
}

/// Accept decoded RGBA8 pixels as a texture: both dimensions must be non-zero.
pub fn decoded_texture_from_rgba8(width: u32, height: u32, rgba8: Vec<u8>) -> (result: Result<
    DecodedTexture,
    TextureLoadError,
>)
    ensures
        width == 0 || height == 0 ==> (result matches Err(
            TextureLoadError::InvalidDimensions { width: w, height: h },
        ) && w == width && h == height),
        width != 0 && height != 0 ==> (result matches Ok(texture) && texture.width == width
            && texture.height == height && texture.rgba8@ == rgba8@),
{
    if width == 0 || height == 0 {
        return Err(TextureLoadError::InvalidDimensions { width, height });
    }
    // The pixel count of two `u32` extents always fits in `u64`.
    proof {
        assert((width as u64) * (height as u64) <= u64::MAX) by (nonlinear_arith)
            requires
                width <= u32::MAX,
                height <= u32::MAX,
        ;
    }
    let pixel_count = (width as u64).checked_mul(height as u64);
    if pixel_count.is_none() {
        return Err(TextureLoadError::ByteSizeOverflow);
    }
    Ok(DecodedTexture { width, height, rgba8 })
}

/// Decode an image (PNG or JPEG) from raw bytes into RGBA8.
pub fn decode_image(data: &[u8]) -> (result: Result<DecodedTexture, TextureLoadError>)
    ensures
        data@.len() == 0 ==> result matches Err(TextureLoadError::EmptyImageData),
        data@.len() != 0 ==> match image_decode_rgba8(data@) {
            None => result matches Err(TextureLoadError::DecodeFailed(_)),
            Some((width, height, pixels)) => if width == 0 || height == 0 {
                result matches Err(TextureLoadError::InvalidDimensions { width: w, height: h })
                    && w == width && h == height
            } else {
                result matches Ok(texture) && texture.width == width && texture.height == height
                    && texture.rgba8@ == pixels && texture.rgba8@.len() == 4 * width * height
            },
        },
{
    if data.len() == 0 {
        return Err(TextureLoadError::EmptyImageData);
    }
    match decode_rgba8(data) {
        Ok((width, height, pixels)) => decoded_texture_from_rgba8(width, height, pixels),
        Err(error) => Err(TextureLoadError::DecodeFailed(error)),
    }
}

// ── Row padding ────────────────────────────────────────────────────────────

/// Smallest multiple of the copy alignment that holds `bytes` bytes.
pub open spec fn align_row(bytes: int) -> int {
    ((bytes + 255) / 256) * 256
}

/// Padded row size of `width` pixels of `bytes_per_pixel` bytes, when every
/// intermediate value fits in `u32`.
pub open spec fn padded_row(width: u32, bytes_per_pixel: u32) -> Option<u32> {
    if width * bytes_per_pixel > u32::MAX || align_row(width * bytes_per_pixel) > u32::MAX {
        None
    } else {
        Some(align_row(width * bytes_per_pixel) as u32)
    }
}

proof fn lemma_align_row(bytes: int)
    requires
        bytes >= 0,
    ensures
        align_row(bytes) % 256 == 0,
        bytes <= align_row(bytes) < bytes + 256,
        bytes % 256 == 0 ==> align_row(bytes) == bytes,
        bytes % 256 != 0 ==> align_row(bytes) == bytes + (256 - bytes % 256),
{
    let q = (bytes + 255) / 256;
    assert(align_row(bytes) % 256 == 0) by {
        vstd::arithmetic::div_mod::lemma_mod_multiples_basic(q, 256);
    }
    assert((bytes + 255) == q * 256 + (bytes + 255) % 256) by {
        vstd::arithmetic::div_mod::lemma_fundamental_div_mod(bytes + 255, 256);
    }
    assert(bytes == (bytes / 256) * 256 + bytes % 256) by {
        vstd::arithmetic::div_mod::lemma_fundamental_div_mod(bytes, 256);
    }
}

/// Padded `bytes_per_row` for an upload with `bytes_per_pixel` bytes per pixel
/// (4 for RGBA8, 1 for R8): the row size rounded up to the next multiple of
/// 256, or `None` when the arithmetic would overflow `u32`.
pub fn padded_bytes_per_row_checked_for_bytes_per_pixel(width: u32, bytes_per_pixel: u32) -> (row: Option<u32>)
    ensures
        row == padded_row(width, bytes_per_pixel),
        row matches Some(r) ==> (r % COPY_BYTES_PER_ROW_ALIGNMENT == 0 && width * bytes_per_pixel
            <= r < width * bytes_per_pixel + COPY_BYTES_PER_ROW_ALIGNMENT),
{
    let unpadded = match width.checked_mul(bytes_per_pixel) {
        Some(value) => value,
        None => return None,
    };
    proof {
        lemma_align_row(unpadded as int);
    }
    let remainder = unpadded % COPY_BYTES_PER_ROW_ALIGNMENT;
    if remainder == 0 {
        Some(unpadded)
    } else {
        unpadded.checked_add(COPY_BYTES_PER_ROW_ALIGNMENT - remainder)
    }
}

/// Padded `bytes_per_row` of an RGBA8 row of `width` pixels, or `None` on
/// overflow.
pub fn padded_bytes_per_row_checked(width: u32) -> (row: Option<u32>)
    ensures
        row == padded_row(width, 4),
{
    padded_bytes_per_row_checked_for_bytes_per_pixel(width, 4)
}

/// Padded `bytes_per_row` of an RGBA8 row of `width` pixels.
pub fn padded_bytes_per_row(width: u32) -> (row: u32)
    requires
        padded_row(width, 4) is Some,
    ensures
        Some(row) == padded_row(width, 4),
{
    match padded_bytes_per_row_checked(width) {
        Some(row) => row,
        None => 0,
    }
}

/// Padded `bytes_per_row` for an arbitrary `bytes_per_pixel`.
pub fn padded_bytes_per_row_for_bytes_per_pixel(width: u32, bytes_per_pixel: u32) -> (row: u32)
    requires
        padded_row(width, bytes_per_pixel) is Some,
    ensures
        Some(row) == padded_row(width, bytes_per_pixel),
{
    match padded_bytes_per_row_checked_for_bytes_per_pixel(width, bytes_per_pixel) {
        Some(row) => row,
        None => 0,
    }
}

// ── Staging ────────────────────────────────────────────────────────────────

/// `rows` source rows of `unpadded` bytes, each followed by `padding` zero bytes.
pub open spec fn staged_rows(pixels: Seq<u8>, unpadded: int, padding: int, rows: int) -> Seq<u8>
    decreases rows,
{
    if rows <= 0 {
        Seq::empty()
    } else {
        staged_rows(pixels, unpadded, padding, rows - 1) + pixels.subrange(
            (rows - 1) * unpadded,
            rows * unpadded,
        ) + Seq::new(padding as nat, |i: int| 0u8)
    }
}

proof fn lemma_staged_rows_len(pixels: Seq<u8>, unpadded: int, padding: int, rows: int)
    requires
        unpadded >= 0,
        padding >= 0,
        rows >= 0,
        rows * unpadded <= pixels.len(),
    ensures
        staged_rows(pixels, unpadded, padding, rows).len() == rows * (unpadded + padding),
    decreases rows,
{
    if rows > 0 {
        assert(0 <= (rows - 1) * unpadded && (rows - 1) * unpadded + unpadded == rows * unpadded)
            by (nonlinear_arith)
            requires
                rows >= 1,
                unpadded >= 0,
        ;
        lemma_staged_rows_len(pixels, unpadded, padding, rows - 1);
        assert(rows * (unpadded + padding) == (rows - 1) * (unpadded + padding) + unpadded + padding)
            by (nonlinear_arith);
        let piece = pixels.subrange((rows - 1) * unpadded, rows * unpadded);
        assert(piece.len() == unpadded);
        let zeros = Seq::new(padding as nat, |i: int| 0u8);
        assert(zeros.len() == padding);
        assert(staged_rows(pixels, unpadded, padding, rows) == staged_rows(
            pixels,
            unpadded,
            padding,
            rows - 1,
        ) + piece + zeros);
        assert(staged_rows(pixels, unpadded, padding, rows).len() == (rows - 1) * (unpadded + padding)
            + unpadded + padding);
    } else {
        assert(rows * (unpadded + padding) == 0) by (nonlinear_arith)
            requires
                rows == 0,
        ;
    }
}

/// The staging layout of a texture: its pixel rows, each padded with zeros to
/// the aligned row size. Rows that are already aligned are uploaded as they are.
pub open spec fn staging_layout(texture: DecodedTexture, padded: u32) -> Seq<u8> {
    let unpadded = texture.width * 4;
    if padded == unpadded {
        texture.rgba8@
    } else {
        staged_rows(texture.rgba8@, unpadded, padded - unpadded, texture.height as int)
    }
}

/// Create a staging buffer with row padding for GPU upload: the padded bytes
/// and the padded `bytes_per_row`.
pub fn create_staging_buffer(texture: &DecodedTexture) -> (result: Result<(Vec<u8>, u32), TextureLoadError>)
    requires
        // Rows that need padding are read from the pixel buffer, which must hold them.
        padded_row(texture.width, 4) matches Some(padded) && padded * texture.height <= usize::MAX
            && padded != texture.width * 4 ==> texture.width * 4 * texture.height <= texture.rgba8@.len(),
    ensures
        match padded_row(texture.width, 4) {
            None => result matches Err(TextureLoadError::PaddedRowOverflow { width }) && width == texture.width,
            Some(padded) => if padded * texture.height > usize::MAX {
                result matches Err(TextureLoadError::StagingBufferOverflow { width, height })
                    && width == texture.width && height == texture.height
            } else {
                result matches Ok((staged, row)) && row == padded && staged@ == staging_layout(
                    *texture,
                    padded,
                ) && (padded != texture.width * 4 ==> staged@.len() == padded * texture.height)
            },
        },
{
    let padded_row_bytes = match padded_bytes_per_row_checked(texture.width) {
        Some(row) => row,
        None => return Err(TextureLoadError::PaddedRowOverflow { width: texture.width }),
    };
    let unpadded_row_bytes = match texture.width.checked_mul(4) {
        Some(bytes) => bytes,
        None => return Err(TextureLoadError::PaddedRowOverflow { width: texture.width }),
    };
    proof {
        lemma_align_row(unpadded_row_bytes as int);
    }
    let padding_per_row = (padded_row_bytes - unpadded_row_bytes) as usize;
    let total_bytes = match (padded_row_bytes as u64).checked_mul(texture.height as u64) {
        Some(total) => total,
        None => {
            return Err(
                TextureLoadError::StagingBufferOverflow { width: texture.width, height: texture.height },
            )
        },
    };
    if total_bytes > usize::MAX as u64 {
        return Err(
            TextureLoadError::StagingBufferOverflow { width: texture.width, height: texture.height },
        );
    }
    if padding_per_row == 0 {
        let staged = texture.rgba8.clone();
        proof {
            assert(staged@ =~= texture.rgba8@);
        }
        return Ok((staged, padded_row_bytes));
    }
    let unpadded = unpadded_row_bytes as usize;
    let height = texture.height as usize;
    let ghost pixels = texture.rgba8@;
    proof {
        assert(height * unpadded <= pixels.len());
    }
    let mut staged: Vec<u8> = Vec::with_capacity(total_bytes as usize);
    let mut row: usize = 0;
    while row < height
        invariant
            row <= height,
            height == texture.height,
            unpadded == texture.width * 4,
            height * unpadded <= pixels.len(),
            pixels == texture.rgba8@,
            pixels.len() == texture.rgba8.len(),
            padding_per_row == padded_row_bytes - unpadded_row_bytes,
            staged@ == staged_rows(pixels, unpadded as int, padding_per_row as int, row as int),
        decreases height - row,
    {
        proof {
            assert(row * unpadded + unpadded <= height * unpadded) by (nonlinear_arith)
                requires
                    row < height,
            ;
        }
        let start = row * unpadded;
        let end = start + unpadded;
        let ghost before = staged@;
        staged.extend_from_slice(&texture.rgba8[start..end]);
        let mut zero: usize = 0;
        while zero < padding_per_row
            invariant
                zero <= padding_per_row,
                staged@ == before + pixels.subrange(start as int, end as int) + Seq::new(
                    zero as nat,
                    |i: int| 0u8,
                ),
            decreases padding_per_row - zero,
        {
            staged.push(0u8);
            proof {
                assert(staged@ =~= before + pixels.subrange(start as int, end as int) + Seq::new(
                    zero as nat + 1,
                    |i: int| 0u8,
                ));
            }
            zero += 1;
        }
        proof {
            assert((row + 1) * unpadded == start + unpadded) by (nonlinear_arith)
                requires
                    start == row * unpadded,
            ;
            assert(staged@ =~= staged_rows(pixels, unpadded as int, padding_per_row as int, row as int + 1));
        }
        row += 1;
    }
    proof {
        lemma_staged_rows_len(pixels, unpadded as int, padding_per_row as int, height as int);
        assert(height * (unpadded + padding_per_row) == padded_row_bytes * texture.height) by (nonlinear_arith)
            requires
                unpadded + padding_per_row == padded_row_bytes,
                height == texture.height,
        ;
    }
    Ok((staged, padded_row_bytes))
}

/// Byte `column` of staged row `row`, for rows of `padded` bytes.
pub open spec fn staged_byte(texture: DecodedTexture, padded: u32, row: int, column: int) -> u8 {
    staging_layout(texture, padded)[row * padded + column]
}

/// Byte `column` of staged row `row` of `rows` rows, each `unpadded` source
/// bytes followed by `padding` zeros.
proof fn lemma_staged_rows_index(pixels: Seq<u8>, unpadded: int, padding: int, rows: int, row: int, column: int)
    requires
        unpadded >= 0,
        padding >= 0,
        0 <= row < rows,
        0 <= column < unpadded + padding,
        rows * unpadded <= pixels.len(),
    ensures
        staged_rows(pixels, unpadded, padding, rows)[row * (unpadded + padding) + column] == if column
            < unpadded {
            pixels[row * unpadded + column]
        } else {
            0u8
        },
    decreases rows,
{
    let stride = unpadded + padding;
    assert(0 <= (rows - 1) * unpadded && (rows - 1) * unpadded + unpadded == rows * unpadded) by (nonlinear_arith)
        requires
            rows >= 1,
            unpadded >= 0,
    ;
    lemma_staged_rows_len(pixels, unpadded, padding, rows - 1);
    let previous = staged_rows(pixels, unpadded, padding, rows - 1);
    let piece = pixels.subrange((rows - 1) * unpadded, rows * unpadded);
    let zeros = Seq::new(padding as nat, |i: int| 0u8);
    assert(staged_rows(pixels, unpadded, padding, rows) == previous + piece + zeros);
    assert(previous.len() == (rows - 1) * stride);
    if row < rows - 1 {
        assert(row * stride + column < (rows - 1) * stride) by (nonlinear_arith)
            requires
                row + 1 <= rows - 1,
                0 <= column < stride,
        ;
        assert(row * stride + column >= 0) by (nonlinear_arith)
            requires
                row >= 0,
                column >= 0,
                stride >= 0,
        ;
        lemma_staged_rows_index(pixels, unpadded, padding, rows - 1, row, column);
    } else {
        if column < unpadded {
            assert(piece[column] == pixels[(rows - 1) * unpadded + column]);
        }
    }
}

/// The staging layout of a texture whose buffer holds exactly its pixels:
/// `height` rows of `padded` bytes, where row `r` starts with the `4 * width`
/// bytes of pixel row `r` and ends in zeros.
pub proof fn law_staging_rows_copy_each_pixel_row_then_zeros(texture: DecodedTexture, padded: u32)
    requires
        texture.width * 4 <= padded,
        texture.rgba8@.len() == texture.width * 4 * texture.height,
    ensures
        staging_layout(texture, padded).len() == padded * texture.height,
        forall|row: int, column: int|
            0 <= row < texture.height && 0 <= column < padded ==> #[trigger] staged_byte(texture, padded, row, column)
                == if column < texture.width * 4 {
                texture.rgba8@[row * (texture.width * 4) + column]
            } else {
                0u8
            },
{
    let unpadded = texture.width * 4;
    let padding = padded - unpadded;
    let rows = texture.height as int;
    assert(rows * unpadded == texture.width * 4 * texture.height) by (nonlinear_arith)
        requires
            unpadded == texture.width * 4,
            rows == texture.height,
    ;
    if padded == unpadded {
        assert(texture.rgba8@.len() == padded * texture.height) by (nonlinear_arith)
            requires
                texture.rgba8@.len() == rows * unpadded,
                padded == unpadded,
                rows == texture.height,
        ;
    } else {
        lemma_staged_rows_len(texture.rgba8@, unpadded, padding, rows);
        assert(rows * (unpadded + padding) == padded * texture.height) by (nonlinear_arith)
            requires
                unpadded + padding == padded,
                rows == texture.height,
        ;
    }
    assert forall|row: int, column: int|
        0 <= row < texture.height && 0 <= column < padded implies #[trigger] staged_byte(texture, padded, row, column)
            == if column < texture.width * 4 {
            texture.rgba8@[row * (texture.width * 4) + column]
        } else {
            0u8
        } by {
        if padded != unpadded {
            lemma_staged_rows_index(texture.rgba8@, unpadded, padding, rows, row, column);
        }
    }
}

/// A padded row size, when it exists, is the row size rounded up to the
/// copy alignment: a multiple of 256, at least the row, less than 256 bytes
/// more, and the row itself when that is already aligned.
pub proof fn law_padded_row_is_the_aligned_row_size(width: u32, bytes_per_pixel: u32)
    requires
        padded_row(width, bytes_per_pixel) is Some,
    ensures
        ({
            let row = padded_row(width, bytes_per_pixel)->0;
            &&& row % 256 == 0
            &&& width * bytes_per_pixel <= row < width * bytes_per_pixel + 256
            &&& (width * bytes_per_pixel) % 256 == 0 ==> row == width * bytes_per_pixel
        }),
{
    assert(width * bytes_per_pixel >= 0) by (nonlinear_arith);
    lemma_align_row(width * bytes_per_pixel);
}

// ── Sampler mapping ────────────────────────────────────────────────────────

/// glTF sampler wrap mode (`wrapS` / `wrapT`).
#[derive(Debug, Clone, Copy, PartialEq, Eq, Structural)]
pub enum GltfWrappingMode {
    ClampToEdge,
    MirroredRepeat,
    Repeat,
}

/// glTF sampler minification filter.
#[derive(Debug, Clone, Copy, PartialEq, Eq, Structural)]
pub enum GltfMinFilter {
    Nearest,
    Linear,
    NearestMipmapNearest,
    LinearMipmapNearest,
    NearestMipmapLinear,
    LinearMipmapLinear,
}

/// glTF sampler magnification filter.
#[derive(Debug, Clone, Copy, PartialEq, Eq, Structural)]
pub enum GltfMagFilter {
    Nearest,
    Linear,
}

/// Sampler wrap mode.
#[derive(Debug, Clone, Copy, PartialEq, Eq, Structural)]
pub enum SamplerWrap {
    Repeat,
    ClampToEdge,
    MirroredRepeat,
}

/// Minification / magnification mode: the NEAREST-vs-LINEAR axis only.
#[derive(Debug, Clone, Copy, PartialEq, Eq, Structural)]
pub enum SamplerFilter {
    Nearest,
    Linear,
}

/// The mipmap-selection axis of a glTF `minFilter`.
#[derive(Debug, Clone, Copy, PartialEq, Eq, Structural)]
pub enum SamplerMipmapFilter {
    Nearest,
    Linear,
}

pub open spec fn wrap_of(mode: GltfWrappingMode) -> SamplerWrap {
    match mode {
        GltfWrappingMode::ClampToEdge => SamplerWrap::ClampToEdge,
        GltfWrappingMode::MirroredRepeat => SamplerWrap::MirroredRepeat,
        GltfWrappingMode::Repeat => SamplerWrap::Repeat,
    }
}

/// Minification axis of a glTF min filter.
pub open spec fn minification_of(filter: GltfMinFilter) -> SamplerFilter {
    match filter {
        GltfMinFilter::Nearest | GltfMinFilter::NearestMipmapNearest
        | GltfMinFilter::NearestMipmapLinear => SamplerFilter::Nearest,
        GltfMinFilter::Linear | GltfMinFilter::LinearMipmapNearest
        | GltfMinFilter::LinearMipmapLinear => SamplerFilter::Linear,
    }
}

pub open spec fn magnification_of(filter: GltfMagFilter) -> SamplerFilter {
    match filter {
        GltfMagFilter::Nearest => SamplerFilter::Nearest,
        GltfMagFilter::Linear => SamplerFilter::Linear,
    }
}

/// Mipmap axis of a glTF min filter: `None` for the two single-mip values.
pub open spec fn mipmap_of(filter: GltfMinFilter) -> Option<SamplerMipmapFilter> {
    match filter {
        GltfMinFilter::Nearest | GltfMinFilter::Linear => None,
        GltfMinFilter::NearestMipmapNearest | GltfMinFilter::LinearMipmapNearest => Some(
            SamplerMipmapFilter::Nearest,
        ),
        GltfMinFilter::NearestMipmapLinear | GltfMinFilter::LinearMipmapLinear => Some(
            SamplerMipmapFilter::Linear,
        ),
    }
}

impl SamplerWrap {
    /// Map from the glTF wrap mode.
    pub fn from_gltf(wrap: GltfWrappingMode) -> (mode: Self)
        ensures
            mode == wrap_of(wrap),
    {
        match wrap {
            GltfWrappingMode::ClampToEdge => SamplerWrap::ClampToEdge,
            GltfWrappingMode::MirroredRepeat => SamplerWrap::MirroredRepeat,
            GltfWrappingMode::Repeat => SamplerWrap::Repeat,
        }
    }
}

impl SamplerFilter {
    /// Map the minification axis of a glTF min filter.
    pub fn from_gltf_min(filter: GltfMinFilter) -> (mode: Self)
        ensures
            mode == minification_of(filter),
    {
        match filter {
            GltfMinFilter::Nearest | GltfMinFilter::NearestMipmapNearest
            | GltfMinFilter::NearestMipmapLinear => SamplerFilter::Nearest,
            GltfMinFilter::Linear | GltfMinFilter::LinearMipmapNearest
            | GltfMinFilter::LinearMipmapLinear => SamplerFilter::Linear,
        }
    }

    /// Map from a glTF mag filter.
    pub fn from_gltf_mag(filter: GltfMagFilter) -> (mode: Self)
        ensures
            mode == magnification_of(filter),
    {
        match filter {
            GltfMagFilter::Nearest => SamplerFilter::Nearest,
            GltfMagFilter::Linear => SamplerFilter::Linear,
        }
    }
}

impl SamplerMipmapFilter {
    /// Map the mipmap-selection axis of a glTF min filter; `None` when the
    /// asset requests no mipmapping at all.
    pub fn from_gltf_min(filter: GltfMinFilter) -> (mode: Option<Self>)
        ensures
            mode == mipmap_of(filter),
    {
        match filter {
            GltfMinFilter::Nearest | GltfMinFilter::Linear => None,
            GltfMinFilter::NearestMipmapNearest | GltfMinFilter::LinearMipmapNearest => Some(
                SamplerMipmapFilter::Nearest,
            ),
            GltfMinFilter::NearestMipmapLinear | GltfMinFilter::LinearMipmapLinear => Some(
                SamplerMipmapFilter::Linear,
            ),
        }
    }

    /// Whether a glTF min filter requests a mip chain at all.
    pub fn mipmapping_requested(filter: GltfMinFilter) -> (requested: bool)
        ensures
            requested == mipmap_of(filter) is Some,
    {
        Self::from_gltf_min(filter).is_some()
    }
}

/// Sampler configuration extracted from a glTF sampler.
#[derive(Debug, Clone, Copy, PartialEq, Eq, Structural)]
pub struct SamplerConfig {
    pub wrap_s: SamplerWrap,
    pub wrap_t: SamplerWrap,
    pub min_filter: SamplerFilter,
    pub mag_filter: SamplerFilter,
    /// Mipmap selection, or `None` when the asset asked for single-mip
    /// sampling (glTF `minFilter` of NEAREST or LINEAR, or no minFilter).
    pub mipmap_filter: Option<SamplerMipmapFilter>,
}

/// The sampler configuration of glTF sampler fields. An absent filter samples
/// linearly; an absent `minFilter` requests no mipmapping.
pub open spec fn sampler_config_of(
    wrap_s: GltfWrappingMode,
    wrap_t: GltfWrappingMode,
    min_filter: Option<GltfMinFilter>,
    mag_filter: Option<GltfMagFilter>,
) -> SamplerConfig {
    SamplerConfig {
        wrap_s: wrap_of(wrap_s),
        wrap_t: wrap_of(wrap_t),
        min_filter: match min_filter {
            Some(filter) => minification_of(filter),
            None => SamplerFilter::Linear,
        },
        mag_filter: match mag_filter {
            Some(filter) => magnification_of(filter),
            None => SamplerFilter::Linear,
        },
        mipmap_filter: match min_filter {
            Some(filter) => mipmap_of(filter),
            None => None,
        },
    }
}

impl SamplerConfig {
    /// Default sampler: linear filtering, repeat wrapping, no mipmapping requested.
    pub fn default_sampler() -> (config: Self)
        ensures
            config == (SamplerConfig {
                wrap_s: SamplerWrap::Repeat,
                wrap_t: SamplerWrap::Repeat,
                min_filter: SamplerFilter::Linear,
                mag_filter: SamplerFilter::Linear,
                mipmap_filter: None,
            }),
    {
        SamplerConfig {
            wrap_s: SamplerWrap::Repeat,
            wrap_t: SamplerWrap::Repeat,
            min_filter: SamplerFilter::Linear,
            mag_filter: SamplerFilter::Linear,
            mipmap_filter: None,
        }
    }

    /// Build from glTF sampler fields, preserving both filter axes.
    pub fn from_gltf_fields(
        wrap_s: GltfWrappingMode,
        wrap_t: GltfWrappingMode,
        min_filter: Option<GltfMinFilter>,
        mag_filter: Option<GltfMagFilter>,
    ) -> (config: Self)
        ensures
            config == sampler_config_of(wrap_s, wrap_t, min_filter, mag_filter),
    {
        let min = match min_filter {
            Some(filter) => SamplerFilter::from_gltf_min(filter),
            None => SamplerFilter::Linear,
        };
        let mag = match mag_filter {
            Some(filter) => SamplerFilter::from_gltf_mag(filter),
            None => SamplerFilter::Linear,
        };
        let mipmap_filter = match min_filter {
            Some(filter) => SamplerMipmapFilter::from_gltf_min(filter),
            None => None,
        };
        SamplerConfig {
            wrap_s: SamplerWrap::from_gltf(wrap_s),
            wrap_t: SamplerWrap::from_gltf(wrap_t),
            min_filter: min,
            mag_filter: mag,
            mipmap_filter,
        }
    }

    /// Extract from a glTF sampler's JSON, preserving both filter axes, or
    /// `None` when a field holds a value outside the glTF enumeration (possible
    /// in a document loaded without validation).
    pub fn from_gltf_sampler(sampler: &gltf::json::texture::Sampler) -> (config: Option<Self>)
        ensures
            config == gltf_sampler_config(
                gltf_sampler_wrap_s(*sampler),
                gltf_sampler_wrap_t(*sampler),
                gltf_sampler_min_filter(*sampler),
                gltf_sampler_mag_filter(*sampler),
            ),
    {
        let wrap_s = sampler_wrap_s(sampler);
        let wrap_t = sampler_wrap_t(sampler);
        let min_filter = sampler_min_filter(sampler);
        let mag_filter = sampler_mag_filter(sampler);
        match (wrap_s, wrap_t, min_filter, mag_filter) {
            (Some(s), Some(t), Some(min), Some(mag)) => Some(Self::from_gltf_fields(s, t, min, mag)),
            _ => None,
        }
    }
}

/// The sampler configuration of read glTF sampler fields: `None` when any
/// field held a value outside the glTF enumeration (read as `None`).
pub open spec fn gltf_sampler_config(
    wrap_s: Option<GltfWrappingMode>,
    wrap_t: Option<GltfWrappingMode>,
    min_filter: Option<Option<GltfMinFilter>>,
    mag_filter: Option<Option<GltfMagFilter>>,
) -> Option<SamplerConfig> {
    match (wrap_s, wrap_t, min_filter, mag_filter) {
        (Some(s), Some(t), Some(min), Some(mag)) => Some(sampler_config_of(s, t, min, mag)),
        _ => None,
    }
}

#[verifier::external_type_specification]
#[verifier::external_body]
pub struct ExGltfJsonSampler(gltf::json::texture::Sampler);

/// The `wrap_s` field of a glTF JSON sampler: the wrapping mode when it is
/// valid, `None` when it is invalid.
pub uninterp spec fn gltf_sampler_wrap_s(sampler: gltf::json::texture::Sampler) -> Option<GltfWrappingMode>;

/// The `wrap_t` field of a glTF JSON sampler, read as `gltf_sampler_wrap_s`.
pub uninterp spec fn gltf_sampler_wrap_t(sampler: gltf::json::texture::Sampler) -> Option<GltfWrappingMode>;

/// The optional `min_filter` field of a glTF JSON sampler: `Some(None)` when
/// absent, `Some(Some(filter))` when valid, `None` when invalid.
pub uninterp spec fn gltf_sampler_min_filter(sampler: gltf::json::texture::Sampler) -> Option<Option<GltfMinFilter>>;

/// The optional `mag_filter` field of a glTF JSON sampler, read as
/// `gltf_sampler_min_filter`.
pub uninterp spec fn gltf_sampler_mag_filter(sampler: gltf::json::texture::Sampler) -> Option<Option<GltfMagFilter>>;

/// Reads the checked `wrap_s` field of a `gltf::json::texture::Sampler`,
/// one arm per variant of `Checked<WrappingMode>`. The contract claims only
/// that the result is the sampler's own `wrap_s` field, named above.
#[verifier::external_body]
fn sampler_wrap_s(sampler: &gltf::json::texture::Sampler) -> (mode: Option<GltfWrappingMode>)
    ensures
        mode == gltf_sampler_wrap_s(*sampler),
{
    match sampler.wrap_s {
        Checked::Valid(WrappingMode::ClampToEdge) => Some(GltfWrappingMode::ClampToEdge),
        Checked::Valid(WrappingMode::MirroredRepeat) => Some(GltfWrappingMode::MirroredRepeat),
        Checked::Valid(WrappingMode::Repeat) => Some(GltfWrappingMode::Repeat),
        Checked::Invalid => None,
    }
}

/// Reads the checked `wrap_t` field of a `gltf::json::texture::Sampler`,
/// one arm per variant. The contract claims only that the result is the
/// sampler's own `wrap_t` field, named above.
#[verifier::external_body]
fn sampler_wrap_t(sampler: &gltf::json::texture::Sampler) -> (mode: Option<GltfWrappingMode>)
    ensures
        mode == gltf_sampler_wrap_t(*sampler),
{
    match sampler.wrap_t {
        Checked::Valid(WrappingMode::ClampToEdge) => Some(GltfWrappingMode::ClampToEdge),
        Checked::Valid(WrappingMode::MirroredRepeat) => Some(GltfWrappingMode::MirroredRepeat),
        Checked::Valid(WrappingMode::Repeat) => Some(GltfWrappingMode::Repeat),
        Checked::Invalid => None,
    }
}

/// Reads the optional checked `min_filter` field of a
/// `gltf::json::texture::Sampler`, one arm per variant. The contract claims
/// only that the result is the sampler's own `min_filter` field, named above.
#[verifier::external_body]
fn sampler_min_filter(sampler: &gltf::json::texture::Sampler) -> (filter: Option<Option<GltfMinFilter>>)
    ensures
        filter == gltf_sampler_min_filter(*sampler),
{
    match sampler.min_filter {
        None => Some(None),
        Some(Checked::Valid(MinFilter::Nearest)) => Some(Some(GltfMinFilter::Nearest)),
        Some(Checked::Valid(MinFilter::Linear)) => Some(Some(GltfMinFilter::Linear)),
        Some(Checked::Valid(MinFilter::NearestMipmapNearest)) => Some(Some(GltfMinFilter::NearestMipmapNearest)),
        Some(Checked::Valid(MinFilter::LinearMipmapNearest)) => Some(Some(GltfMinFilter::LinearMipmapNearest)),
        Some(Checked::Valid(MinFilter::NearestMipmapLinear)) => Some(Some(GltfMinFilter::NearestMipmapLinear)),
        Some(Checked::Valid(MinFilter::LinearMipmapLinear)) => Some(Some(GltfMinFilter::LinearMipmapLinear)),
        Some(Checked::Invalid) => None,
    }
}

/// Reads the optional checked `mag_filter` field of a
/// `gltf::json::texture::Sampler`, one arm per variant. The contract claims
/// only that the result is the sampler's own `mag_filter` field, named above.
#[verifier::external_body]
fn sampler_mag_filter(sampler: &gltf::json::texture::Sampler) -> (filter: Option<Option<GltfMagFilter>>)
    ensures
        filter == gltf_sampler_mag_filter(*sampler),
{
    match sampler.mag_filter {
        None => Some(None),
        Some(Checked::Valid(MagFilter::Nearest)) => Some(Some(GltfMagFilter::Nearest)),
        Some(Checked::Valid(MagFilter::Linear)) => Some(Some(GltfMagFilter::Linear)),
        Some(Checked::Invalid) => None,
    }
}

} // verus!
