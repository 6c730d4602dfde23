use rc_renderer::texture::{
    create_staging_buffer, decode_image, decoded_texture_from_rgba8, padded_bytes_per_row,
    padded_bytes_per_row_checked, padded_bytes_per_row_checked_for_bytes_per_pixel,
    padded_bytes_per_row_for_bytes_per_pixel, DecodedTexture, GltfMagFilter, GltfMinFilter,
    GltfWrappingMode, SamplerConfig, SamplerFilter, SamplerMipmapFilter, SamplerWrap,
    TextureLoadError, COPY_BYTES_PER_ROW_ALIGNMENT,
};

#[test]
fn padded_bytes_per_row_returns_unpadded_when_aligned() {
    assert_eq!(padded_bytes_per_row(64), 256);
}

#[test]
fn padded_bytes_per_row_pads_to_alignment() {
    assert_eq!(padded_bytes_per_row(1), 256);
    assert_eq!(padded_bytes_per_row(63), 256);
    assert_eq!(padded_bytes_per_row(65), 512);
}

#[test]
fn padded_bytes_per_row_checked_matches_unchecked() {
    for width in [0, 1, 63, 64, 65, 128, 256, 1024] {
        assert_eq!(
            padded_bytes_per_row_checked(width),
            Some(padded_bytes_per_row(width))
        );
    }
}

#[test]
fn padded_bytes_per_row_generic_matches_rgba8_specialization() {
    for width in [0, 1, 63, 64, 65, 128, 256, 1024] {
        assert_eq!(
            padded_bytes_per_row_checked_for_bytes_per_pixel(width, 4),
            padded_bytes_per_row_checked(width),
            "the generic helper must agree with the RGBA8 specialization"
        );
    }
}

#[test]
fn padded_bytes_per_row_r8_aligns_to_copy_alignment() {
    assert_eq!(padded_bytes_per_row_checked_for_bytes_per_pixel(512, 1), Some(512));
    assert_eq!(padded_bytes_per_row_checked_for_bytes_per_pixel(256, 1), Some(256));
    assert_eq!(padded_bytes_per_row_checked_for_bytes_per_pixel(128, 1), Some(256));
    assert_eq!(padded_bytes_per_row_checked_for_bytes_per_pixel(64, 1), Some(256));
    assert_eq!(padded_bytes_per_row_checked_for_bytes_per_pixel(8, 1), Some(256));
    assert_eq!(padded_bytes_per_row_checked_for_bytes_per_pixel(1, 1), Some(256));
    assert_eq!(padded_bytes_per_row_checked_for_bytes_per_pixel(u32::MAX, 1), None);
}

#[test]
fn padded_bytes_per_row_checked_overflow() {
    assert_eq!(padded_bytes_per_row_checked(u32::MAX), None);
    assert_eq!(padded_bytes_per_row_checked(u32::MAX / 4 + 1), None);
}

#[test]
fn create_staging_buffer_no_padding_needed() {
    let texture = DecodedTexture {
        width: 64,
        height: 2,
        rgba8: vec![0xAB; 64 * 2 * 4],
    };
    let (staged, bytes_per_row) = create_staging_buffer(&texture).unwrap();
    assert_eq!(bytes_per_row, 256);
    assert_eq!(staged.len(), 256 * 2);
    assert_eq!(&staged[..256], &texture.rgba8[..256]);
}

#[test]
fn create_staging_buffer_with_padding() {
    let texture = DecodedTexture {
        width: 1,
        height: 2,
        rgba8: vec![0xAB; 8],
    };
    let (staged, bytes_per_row) = create_staging_buffer(&texture).unwrap();
    assert_eq!(bytes_per_row, 256);
    assert_eq!(staged.len(), 256 * 2);
    assert_eq!(&staged[..4], &[0xAB; 4]);
    assert_eq!(&staged[4..256], &[0; 252]);
    assert_eq!(&staged[256..260], &[0xAB; 4]);
    assert_eq!(&staged[260..512], &[0; 252]);
}

#[test]
fn create_staging_buffer_overflow_returns_error() {
    let texture = DecodedTexture {
        width: u32::MAX,
        height: u32::MAX,
        rgba8: vec![],
    };
    let result = create_staging_buffer(&texture);
    assert!(result.is_err());
}

#[test]
fn create_staging_buffer_keeps_each_row_in_order() {
    let texture = DecodedTexture {
        width: 2,
        height: 2,
        rgba8: (0u8..16).collect(),
    };
    let (staged, bytes_per_row) = create_staging_buffer(&texture).unwrap();
    assert_eq!(bytes_per_row, 256);
    assert_eq!(&staged[..8], &[0, 1, 2, 3, 4, 5, 6, 7]);
    assert!(staged[8..256].iter().all(|byte| *byte == 0));
    assert_eq!(&staged[256..264], &[8, 9, 10, 11, 12, 13, 14, 15]);
    assert!(staged[264..512].iter().all(|byte| *byte == 0));
}

#[test]
fn decode_empty_data_returns_error() {
    let result = decode_image(&[]);
    assert!(matches!(result, Err(TextureLoadError::EmptyImageData)));
}

#[test]
fn decode_invalid_data_returns_error() {
    let result = decode_image(&[0xFF, 0xD8, 0xFF]);
    assert!(matches!(result, Err(TextureLoadError::DecodeFailed(_))));
}

#[test]
fn decoded_pixels_with_a_zero_extent_are_rejected() {
    assert!(matches!(
        decoded_texture_from_rgba8(0, 4, vec![]),
        Err(TextureLoadError::InvalidDimensions { width: 0, height: 4 })
    ));
    let texture = decoded_texture_from_rgba8(1, 1, vec![1, 2, 3, 4]).unwrap();
    assert_eq!((texture.width, texture.height), (1, 1));
    assert_eq!(texture.rgba8, vec![1, 2, 3, 4]);
}

#[test]
fn sampler_wrap_from_gltf_maps_correctly() {
    assert_eq!(SamplerWrap::from_gltf(GltfWrappingMode::Repeat), SamplerWrap::Repeat);
    assert_eq!(
        SamplerWrap::from_gltf(GltfWrappingMode::ClampToEdge),
        SamplerWrap::ClampToEdge
    );
    assert_eq!(
        SamplerWrap::from_gltf(GltfWrappingMode::MirroredRepeat),
        SamplerWrap::MirroredRepeat
    );
}

#[test]
fn sampler_filter_from_gltf_min_collapses_mipmaps() {
    assert_eq!(SamplerFilter::from_gltf_min(GltfMinFilter::Nearest), SamplerFilter::Nearest);
    assert_eq!(
        SamplerFilter::from_gltf_min(GltfMinFilter::NearestMipmapNearest),
        SamplerFilter::Nearest
    );
    assert_eq!(
        SamplerFilter::from_gltf_min(GltfMinFilter::NearestMipmapLinear),
        SamplerFilter::Nearest
    );
    assert_eq!(SamplerFilter::from_gltf_min(GltfMinFilter::Linear), SamplerFilter::Linear);
    assert_eq!(
        SamplerFilter::from_gltf_min(GltfMinFilter::LinearMipmapNearest),
        SamplerFilter::Linear
    );
    assert_eq!(
        SamplerFilter::from_gltf_min(GltfMinFilter::LinearMipmapLinear),
        SamplerFilter::Linear
    );
}

#[test]
fn sampler_filter_from_gltf_mag_maps_correctly() {
    assert_eq!(SamplerFilter::from_gltf_mag(GltfMagFilter::Nearest), SamplerFilter::Nearest);
    assert_eq!(SamplerFilter::from_gltf_mag(GltfMagFilter::Linear), SamplerFilter::Linear);
}

#[test]
fn default_sampler_config_is_linear_repeat() {
    let config = SamplerConfig::default_sampler();
    assert_eq!(config.wrap_s, SamplerWrap::Repeat);
    assert_eq!(config.wrap_t, SamplerWrap::Repeat);
    assert_eq!(config.min_filter, SamplerFilter::Linear);
    assert_eq!(config.mag_filter, SamplerFilter::Linear);
    assert_eq!(config.mipmap_filter, None);
}

#[test]
fn sampler_mipmap_filter_mapping_is_total_over_every_gltf_min_filter() {
    let cases = [
        (GltfMinFilter::Nearest, None),
        (GltfMinFilter::Linear, None),
        (GltfMinFilter::NearestMipmapNearest, Some(SamplerMipmapFilter::Nearest)),
        (GltfMinFilter::LinearMipmapNearest, Some(SamplerMipmapFilter::Nearest)),
        (GltfMinFilter::NearestMipmapLinear, Some(SamplerMipmapFilter::Linear)),
        (GltfMinFilter::LinearMipmapLinear, Some(SamplerMipmapFilter::Linear)),
    ];
    for (filter, expected) in cases {
        assert_eq!(
            SamplerMipmapFilter::from_gltf_min(filter),
            expected,
            "mipmap mapping for {filter:?}"
        );
        assert_eq!(
            SamplerMipmapFilter::mipmapping_requested(filter),
            expected.is_some(),
            "mipmapping_requested for {filter:?}"
        );
    }
}

#[test]
fn sampler_minification_and_mipmap_axes_are_independent() {
    assert_eq!(
        SamplerFilter::from_gltf_min(GltfMinFilter::LinearMipmapNearest),
        SamplerFilter::Linear
    );
    assert_eq!(
        SamplerMipmapFilter::from_gltf_min(GltfMinFilter::LinearMipmapNearest),
        Some(SamplerMipmapFilter::Nearest)
    );
    assert_eq!(
        SamplerFilter::from_gltf_min(GltfMinFilter::NearestMipmapLinear),
        SamplerFilter::Nearest
    );
    assert_eq!(
        SamplerMipmapFilter::from_gltf_min(GltfMinFilter::NearestMipmapLinear),
        Some(SamplerMipmapFilter::Linear)
    );
}

#[test]
fn sampler_fields_default_to_linear_without_mipmaps() {
    let config = SamplerConfig::from_gltf_fields(
        GltfWrappingMode::ClampToEdge,
        GltfWrappingMode::MirroredRepeat,
        None,
        None,
    );
    assert_eq!(config.wrap_s, SamplerWrap::ClampToEdge);
    assert_eq!(config.wrap_t, SamplerWrap::MirroredRepeat);
    assert_eq!(config.min_filter, SamplerFilter::Linear);
    assert_eq!(config.mag_filter, SamplerFilter::Linear);
    assert_eq!(config.mipmap_filter, None);
    let mipmapped = SamplerConfig::from_gltf_fields(
        GltfWrappingMode::Repeat,
        GltfWrappingMode::Repeat,
        Some(GltfMinFilter::NearestMipmapLinear),
        Some(GltfMagFilter::Nearest),
    );
    assert_eq!(mipmapped.min_filter, SamplerFilter::Nearest);
    assert_eq!(mipmapped.mag_filter, SamplerFilter::Nearest);
    assert_eq!(mipmapped.mipmap_filter, Some(SamplerMipmapFilter::Linear));
}

#[test]
fn row_padding_arithmetic_for_various_widths() {
    assert_eq!(padded_bytes_per_row(1), 256);
    assert_eq!(padded_bytes_per_row(64), 256);
    assert_eq!(padded_bytes_per_row(100), 512);
    assert_eq!(padded_bytes_per_row(256), 1024);
}

#[test]
fn generic_padding_is_always_aligned_and_minimal() {
    for width in [1u32, 3, 17, 255, 256, 257, 1000] {
        for bytes_per_pixel in [1u32, 2, 3, 4, 8, 16] {
            let row = padded_bytes_per_row_for_bytes_per_pixel(width, bytes_per_pixel);
            assert_eq!(row % COPY_BYTES_PER_ROW_ALIGNMENT, 0);
            assert!(row >= width * bytes_per_pixel);
            assert!(row < width * bytes_per_pixel + COPY_BYTES_PER_ROW_ALIGNMENT);
        }
    }
}

#[test]
fn a_png_decodes_to_its_own_pixels() {
    let pixels: Vec<u8> = vec![255, 0, 0, 255, 0, 128, 255, 64];
    let image = image::RgbaImage::from_raw(2, 1, pixels.clone()).unwrap();
    let mut encoded = Vec::new();
    image
        .write_to(&mut std::io::Cursor::new(&mut encoded), image::ImageFormat::Png)
        .unwrap();
    let decoded = decode_image(&encoded).expect("a valid PNG");
    assert_eq!((decoded.width, decoded.height), (2, 1));
    assert_eq!(decoded.rgba8, pixels);
    assert_ne!(decoded.rgba8, encoded);
}

#[test]
fn sampler_fields_are_read_from_a_gltf_document() {
    let json = br#"{
        "asset": {"version": "2.0"},
        "samplers": [
            {"magFilter": 9728, "minFilter": 9987, "wrapS": 33071, "wrapT": 33648},
            {}
        ]
    }"#;
    let document = gltf::Gltf::from_slice(json).expect("a valid glTF document");
    let samplers = &document.as_json().samplers;
    let first = SamplerConfig::from_gltf_sampler(&samplers[0]).expect("valid sampler fields");
    assert_eq!(first.wrap_s, SamplerWrap::ClampToEdge);
    assert_eq!(first.wrap_t, SamplerWrap::MirroredRepeat);
    assert_eq!(first.mag_filter, SamplerFilter::Nearest);
    assert_eq!(first.min_filter, SamplerFilter::Linear);
    assert_eq!(first.mipmap_filter, Some(SamplerMipmapFilter::Linear));
    let second = SamplerConfig::from_gltf_sampler(&samplers[1]).expect("valid sampler fields");
    assert_eq!(second, SamplerConfig::default_sampler());
}

#[test]
fn a_sampler_field_outside_the_gltf_enumeration_is_refused() {
    let json = br#"{
        "asset": {"version": "2.0"},
        "samplers": [
            {"wrapS": 1234},
            {"minFilter": 1},
            {"magFilter": 9987},
            {"wrapT": 10497, "minFilter": 9984}
        ]
    }"#;
    let document = gltf::Gltf::from_slice_without_validation(json).expect("well-formed JSON");
    let samplers = &document.as_json().samplers;
    assert_eq!(SamplerConfig::from_gltf_sampler(&samplers[0]), None);
    assert_eq!(SamplerConfig::from_gltf_sampler(&samplers[1]), None);
    assert_eq!(SamplerConfig::from_gltf_sampler(&samplers[2]), None);
    let valid = SamplerConfig::from_gltf_sampler(&samplers[3]).expect("valid sampler fields");
    assert_eq!(valid.wrap_t, SamplerWrap::Repeat);
    assert_eq!(valid.min_filter, SamplerFilter::Nearest);
    assert_eq!(valid.mipmap_filter, Some(SamplerMipmapFilter::Nearest));
}
