use bntx::interchange::ImageFormat;
use bntx::surface::{CreateBntxError, CreateSurfaceError};
use bntx::{BlockDim, SurfaceFormat, TextureDimension, TextureViewDimension};

const ALL_FORMATS: [SurfaceFormat; 21] = [
    SurfaceFormat::R8Unorm,
    SurfaceFormat::Unk1,
    SurfaceFormat::R8G8B8A8Unorm,
    SurfaceFormat::R8G8B8A8Srgb,
    SurfaceFormat::B8G8R8A8Unorm,
    SurfaceFormat::B8G8R8A8Srgb,
    SurfaceFormat::R11G11B10,
    SurfaceFormat::BC1Unorm,
    SurfaceFormat::BC1Srgb,
    SurfaceFormat::BC2Unorm,
    SurfaceFormat::BC2Srgb,
    SurfaceFormat::BC3Unorm,
    SurfaceFormat::BC3Srgb,
    SurfaceFormat::BC4Unorm,
    SurfaceFormat::BC4Snorm,
    SurfaceFormat::BC5Unorm,
    SurfaceFormat::BC5Snorm,
    SurfaceFormat::BC6Sfloat,
    SurfaceFormat::BC6Ufloat,
    SurfaceFormat::BC7Unorm,
    SurfaceFormat::BC7Srgb,
];

#[test]
fn format_codes() {
    assert_eq!(SurfaceFormat::R8Unorm.code(), 0x0201);
    assert_eq!(SurfaceFormat::Unk1.code(), 0x0a05);
    assert_eq!(SurfaceFormat::R8G8B8A8Unorm.code(), 0x0b01);
    assert_eq!(SurfaceFormat::R8G8B8A8Srgb.code(), 0x0b06);
    assert_eq!(SurfaceFormat::B8G8R8A8Unorm.code(), 0x0c01);
    assert_eq!(SurfaceFormat::B8G8R8A8Srgb.code(), 0x0c06);
    assert_eq!(SurfaceFormat::R11G11B10.code(), 0x0f05);
    assert_eq!(SurfaceFormat::BC1Unorm.code(), 0x1a01);
    assert_eq!(SurfaceFormat::BC1Srgb.code(), 0x1a06);
    assert_eq!(SurfaceFormat::BC2Unorm.code(), 0x1b01);
    assert_eq!(SurfaceFormat::BC2Srgb.code(), 0x1b06);
    assert_eq!(SurfaceFormat::BC3Unorm.code(), 0x1c01);
    assert_eq!(SurfaceFormat::BC3Srgb.code(), 0x1c06);
    assert_eq!(SurfaceFormat::BC4Unorm.code(), 0x1d01);
    assert_eq!(SurfaceFormat::BC4Snorm.code(), 0x1d02);
    assert_eq!(SurfaceFormat::BC5Unorm.code(), 0x1e01);
    assert_eq!(SurfaceFormat::BC5Snorm.code(), 0x1e02);
    assert_eq!(SurfaceFormat::BC6Sfloat.code(), 0x1f05);
    assert_eq!(SurfaceFormat::BC6Ufloat.code(), 0x1f0a);
    assert_eq!(SurfaceFormat::BC7Unorm.code(), 0x2001);
    assert_eq!(SurfaceFormat::BC7Srgb.code(), 0x2006);
}

#[test]
fn format_code_round_trip() {
    for format in ALL_FORMATS {
        assert_eq!(SurfaceFormat::from_code(format.code()), Some(format));
    }
    assert_eq!(SurfaceFormat::from_code(0), None);
    assert_eq!(SurfaceFormat::from_code(0x0202), None);
    assert_eq!(SurfaceFormat::from_code(0xFFFF_FFFF), None);
}

#[test]
fn dimension_codes() {
    assert_eq!(TextureDimension::D1.code(), 1);
    assert_eq!(TextureDimension::D2.code(), 2);
    assert_eq!(TextureDimension::D3.code(), 3);
    assert_eq!(TextureDimension::from_code(0), None);
    assert_eq!(TextureDimension::from_code(2), Some(TextureDimension::D2));
    assert_eq!(TextureDimension::from_code(4), None);
    assert_eq!(TextureViewDimension::D1.code(), 0);
    assert_eq!(TextureViewDimension::D2.code(), 1);
    assert_eq!(TextureViewDimension::D3.code(), 2);
    assert_eq!(TextureViewDimension::Cube.code(), 3);
    assert_eq!(
        TextureViewDimension::from_code(3),
        Some(TextureViewDimension::Cube)
    );
    assert_eq!(TextureViewDimension::from_code(4), None);
}

#[test]
fn bytes_per_pixel_of_each_format() {
    let expected = [
        (SurfaceFormat::R8Unorm, 1),
        (SurfaceFormat::Unk1, 2),
        (SurfaceFormat::R8G8B8A8Unorm, 4),
        (SurfaceFormat::R8G8B8A8Srgb, 4),
        (SurfaceFormat::B8G8R8A8Unorm, 4),
        (SurfaceFormat::B8G8R8A8Srgb, 4),
        (SurfaceFormat::R11G11B10, 4),
        (SurfaceFormat::BC1Unorm, 8),
        (SurfaceFormat::BC1Srgb, 8),
        (SurfaceFormat::BC2Unorm, 16),
        (SurfaceFormat::BC2Srgb, 16),
        (SurfaceFormat::BC3Unorm, 16),
        (SurfaceFormat::BC3Srgb, 16),
        (SurfaceFormat::BC4Unorm, 8),
        (SurfaceFormat::BC4Snorm, 8),
        (SurfaceFormat::BC5Unorm, 16),
        (SurfaceFormat::BC5Snorm, 16),
        (SurfaceFormat::BC6Sfloat, 16),
        (SurfaceFormat::BC6Ufloat, 16),
        (SurfaceFormat::BC7Unorm, 16),
        (SurfaceFormat::BC7Srgb, 16),
    ];
    for (format, bytes) in expected {
        assert_eq!(format.bytes_per_pixel(), bytes);
    }
}

#[test]
fn block_dim_of_each_format() {
    let uncompressed = BlockDim {
        width: 1,
        height: 1,
        depth: 1,
    };
    let block_4x4 = BlockDim {
        width: 4,
        height: 4,
        depth: 1,
    };
    assert_eq!(BlockDim::uncompressed(), uncompressed);
    assert_eq!(BlockDim::block_4x4(), block_4x4);
    for format in ALL_FORMATS {
        let expected = match format {
            SurfaceFormat::R8Unorm
            | SurfaceFormat::Unk1
            | SurfaceFormat::R8G8B8A8Unorm
            | SurfaceFormat::R8G8B8A8Srgb
            | SurfaceFormat::B8G8R8A8Unorm
            | SurfaceFormat::B8G8R8A8Srgb
            | SurfaceFormat::R11G11B10 => uncompressed,
            _ => block_4x4,
        };
        assert_eq!(format.block_dim(), expected);
    }
}

#[test]
fn native_to_interchange() {
    assert_eq!(
        ImageFormat::try_from(SurfaceFormat::R8Unorm),
        Ok(ImageFormat::R8Unorm)
    );
    assert_eq!(
        ImageFormat::try_from(SurfaceFormat::R8G8B8A8Srgb),
        Ok(ImageFormat::Rgba8UnormSrgb)
    );
    assert_eq!(
        ImageFormat::try_from(SurfaceFormat::BC6Sfloat),
        Ok(ImageFormat::BC6hRgbSfloat)
    );
    assert_eq!(
        ImageFormat::try_from(SurfaceFormat::BC6Ufloat),
        Ok(ImageFormat::BC6hRgbUfloat)
    );
    assert_eq!(
        ImageFormat::from(SurfaceFormat::BC7Srgb),
        ImageFormat::BC7RgbaUnormSrgb
    );
}

#[test]
fn native_without_interchange_format() {
    assert_eq!(
        ImageFormat::try_from(SurfaceFormat::Unk1),
        Err(CreateSurfaceError::UnsupportedSurfaceFormat(
            SurfaceFormat::Unk1
        ))
    );
    assert_eq!(
        ImageFormat::try_from(SurfaceFormat::R11G11B10),
        Err(CreateSurfaceError::UnsupportedSurfaceFormat(
            SurfaceFormat::R11G11B10
        ))
    );
}

#[test]
fn interchange_without_native_format() {
    for format in [
        ImageFormat::Rgba16Float,
        ImageFormat::Rgba32Float,
        ImageFormat::Bgra4Unorm,
        ImageFormat::R8Snorm,
        ImageFormat::Bgr5A1Unorm,
    ] {
        assert_eq!(
            SurfaceFormat::try_from(format),
            Err(CreateBntxError::UnsupportedImageFormat(format))
        );
    }
}

#[test]
fn mapping_there_and_back_is_the_identity() {
    let mut mapped = 0;
    for format in ALL_FORMATS {
        if let Ok(interchange) = ImageFormat::try_from(format) {
            assert_eq!(SurfaceFormat::try_from(interchange), Ok(format));
            mapped += 1;
        }
    }
    assert_eq!(mapped, 19);
}
