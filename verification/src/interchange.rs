//! The pixel formats of the interchange codec, the surfaces that it takes
//! and gives, and the mapping between its formats and those of a container.
use vstd::prelude::*;
use crate::format::SurfaceFormat;
use crate::surface::{CreateBntxError, CreateSurfaceError};

verus! {

/// The pixel formats of the interchange codec.
#[derive(Debug, Clone, Copy, PartialEq, Eq, Structural)]
pub enum ImageFormat {
    R8Unorm,
    R8Snorm,
    Rg8Unorm,
    Rg8Snorm,
    Rgba8Unorm,
    Rgba8UnormSrgb,
    Rgba16Float,
    Rgba32Float,
    Bgr8Unorm,
    Bgra8Unorm,
    Bgra8UnormSrgb,
    Bgra4Unorm,
    BC1RgbaUnorm,
    BC1RgbaUnormSrgb,
    BC2RgbaUnorm,
    BC2RgbaUnormSrgb,
    BC3RgbaUnorm,
    BC3RgbaUnormSrgb,
    BC4RUnorm,
    BC4RSnorm,
    BC5RgUnorm,
    BC5RgSnorm,
    BC6hRgbUfloat,
    BC6hRgbSfloat,
    BC7RgbaUnorm,
    BC7RgbaUnormSrgb,
    Rgba8Snorm,
    R16Unorm,
    R16Snorm,
    Rg16Unorm,
    Rg16Snorm,
    Rgba16Unorm,
    Rgba16Snorm,
    R16Float,
    Rg16Float,
    R32Float,
    Rg32Float,
    Rgb32Float,
    Bgr5A1Unorm,
}

/// An untiled surface: its size, its counts of array layers and mip levels,
/// its format, and its bytes ordered by layer and then by mip level.
#[derive(Debug, Clone, PartialEq)]
pub struct Surface {
    pub width: u32,
    pub height: u32,
    pub depth: u32,
    pub layers: u32,
    pub mipmaps: u32,
    pub image_format: ImageFormat,
    pub data: Vec<u8>,
}

/// A surface as a value.
pub struct SurfaceView {
    pub width: u32,
    pub height: u32,
    pub depth: u32,
    pub layers: u32,
    pub mipmaps: u32,
    pub image_format: ImageFormat,
    pub data: Seq<u8>,
}

impl View for Surface {
    type V = SurfaceView;

    open spec fn view(&self) -> SurfaceView {
        SurfaceView {
            width: self.width,
            height: self.height,
            depth: self.depth,
            layers: self.layers,
            mipmaps: self.mipmaps,
            image_format: self.image_format,
            data: self.data@,
        }
    }
}

impl SurfaceFormat {
    /// The interchange format that holds the same pixels, if there is one.
    pub open spec fn spec_interchange(self) -> Option<ImageFormat> {
        match self {
            SurfaceFormat::R8Unorm => Some(ImageFormat::R8Unorm),
            SurfaceFormat::Unk1 => None,
            SurfaceFormat::R8G8B8A8Unorm => Some(ImageFormat::Rgba8Unorm),
            SurfaceFormat::R8G8B8A8Srgb => Some(ImageFormat::Rgba8UnormSrgb),
            SurfaceFormat::B8G8R8A8Unorm => Some(ImageFormat::Bgra8Unorm),
            SurfaceFormat::B8G8R8A8Srgb => Some(ImageFormat::Bgra8UnormSrgb),
            SurfaceFormat::R11G11B10 => None,
            SurfaceFormat::BC1Unorm => Some(ImageFormat::BC1RgbaUnorm),
            SurfaceFormat::BC1Srgb => Some(ImageFormat::BC1RgbaUnormSrgb),
            SurfaceFormat::BC2Unorm => Some(ImageFormat::BC2RgbaUnorm),
            SurfaceFormat::BC2Srgb => Some(ImageFormat::BC2RgbaUnormSrgb),
            SurfaceFormat::BC3Unorm => Some(ImageFormat::BC3RgbaUnorm),
            SurfaceFormat::BC3Srgb => Some(ImageFormat::BC3RgbaUnormSrgb),
            SurfaceFormat::BC4Unorm => Some(ImageFormat::BC4RUnorm),
            SurfaceFormat::BC4Snorm => Some(ImageFormat::BC4RSnorm),
            SurfaceFormat::BC5Unorm => Some(ImageFormat::BC5RgUnorm),
            SurfaceFormat::BC5Snorm => Some(ImageFormat::BC5RgSnorm),
            SurfaceFormat::BC6Sfloat => Some(ImageFormat::BC6hRgbSfloat),
            SurfaceFormat::BC6Ufloat => Some(ImageFormat::BC6hRgbUfloat),
            SurfaceFormat::BC7Unorm => Some(ImageFormat::BC7RgbaUnorm),
            SurfaceFormat::BC7Srgb => Some(ImageFormat::BC7RgbaUnormSrgb),
        }
    }

    /// The format of a container that holds the pixels of an interchange
    /// format, or the error that names the format where there is none.
    pub fn try_from(value: ImageFormat) -> (r: Result<SurfaceFormat, CreateBntxError>)
        ensures
            match value.spec_native() {
                Some(f) => r == Ok::<SurfaceFormat, CreateBntxError>(f),
                None => r == Err::<SurfaceFormat, CreateBntxError>(
                    CreateBntxError::UnsupportedImageFormat(value),
                ),
            },
    {
        match value {
            ImageFormat::R8Unorm => Ok(SurfaceFormat::R8Unorm),
            ImageFormat::R8Snorm => Err(CreateBntxError::UnsupportedImageFormat(value)),
            ImageFormat::Rg8Unorm => Err(CreateBntxError::UnsupportedImageFormat(value)),
            ImageFormat::Rg8Snorm => Err(CreateBntxError::UnsupportedImageFormat(value)),
            ImageFormat::Rgba8Unorm => Ok(SurfaceFormat::R8G8B8A8Unorm),
            ImageFormat::Rgba8UnormSrgb => Ok(SurfaceFormat::R8G8B8A8Srgb),
            ImageFormat::Rgba16Float => Err(CreateBntxError::UnsupportedImageFormat(value)),
            ImageFormat::Rgba32Float => Err(CreateBntxError::UnsupportedImageFormat(value)),
            ImageFormat::Bgr8Unorm => Err(CreateBntxError::UnsupportedImageFormat(value)),
            ImageFormat::Bgra8Unorm => Ok(SurfaceFormat::B8G8R8A8Unorm),
            ImageFormat::Bgra8UnormSrgb => Ok(SurfaceFormat::B8G8R8A8Srgb),
            ImageFormat::Bgra4Unorm => Err(CreateBntxError::UnsupportedImageFormat(value)),
            ImageFormat::BC1RgbaUnorm => Ok(SurfaceFormat::BC1Unorm),
            ImageFormat::BC1RgbaUnormSrgb => Ok(SurfaceFormat::BC1Srgb),
            ImageFormat::BC2RgbaUnorm => Ok(SurfaceFormat::BC2Unorm),
            ImageFormat::BC2RgbaUnormSrgb => Ok(SurfaceFormat::BC2Srgb),
            ImageFormat::BC3RgbaUnorm => Ok(SurfaceFormat::BC3Unorm),
            ImageFormat::BC3RgbaUnormSrgb => Ok(SurfaceFormat::BC3Srgb),
            ImageFormat::BC4RUnorm => Ok(SurfaceFormat::BC4Unorm),
            ImageFormat::BC4RSnorm => Ok(SurfaceFormat::BC4Snorm),
            ImageFormat::BC5RgUnorm => Ok(SurfaceFormat::BC5Unorm),
            ImageFormat::BC5RgSnorm => Ok(SurfaceFormat::BC5Snorm),
            ImageFormat::BC6hRgbUfloat => Ok(SurfaceFormat::BC6Ufloat),
            ImageFormat::BC6hRgbSfloat => Ok(SurfaceFormat::BC6Sfloat),
            ImageFormat::BC7RgbaUnorm => Ok(SurfaceFormat::BC7Unorm),
            ImageFormat::BC7RgbaUnormSrgb => Ok(SurfaceFormat::BC7Srgb),
            ImageFormat::Rgba8Snorm => Err(CreateBntxError::UnsupportedImageFormat(value)),
            ImageFormat::R16Unorm => Err(CreateBntxError::UnsupportedImageFormat(value)),
            ImageFormat::R16Snorm => Err(CreateBntxError::UnsupportedImageFormat(value)),
            ImageFormat::Rg16Unorm => Err(CreateBntxError::UnsupportedImageFormat(value)),
            ImageFormat::Rg16Snorm => Err(CreateBntxError::UnsupportedImageFormat(value)),
            ImageFormat::Rgba16Unorm => Err(CreateBntxError::UnsupportedImageFormat(value)),
            ImageFormat::Rgba16Snorm => Err(CreateBntxError::UnsupportedImageFormat(value)),
            ImageFormat::R16Float => Err(CreateBntxError::UnsupportedImageFormat(value)),
            ImageFormat::Rg16Float => Err(CreateBntxError::UnsupportedImageFormat(value)),
            ImageFormat::R32Float => Err(CreateBntxError::UnsupportedImageFormat(value)),
            ImageFormat::Rg32Float => Err(CreateBntxError::UnsupportedImageFormat(value)),
            ImageFormat::Rgb32Float => Err(CreateBntxError::UnsupportedImageFormat(value)),
            ImageFormat::Bgr5A1Unorm => Err(CreateBntxError::UnsupportedImageFormat(value)),
        }
    }
}

impl ImageFormat {
    /// The format of a container that holds the same pixels, if there is one.
    pub open spec fn spec_native(self) -> Option<SurfaceFormat> {
        match self {
            ImageFormat::R8Unorm => Some(SurfaceFormat::R8Unorm),
            ImageFormat::R8Snorm => None,
            ImageFormat::Rg8Unorm => None,
            ImageFormat::Rg8Snorm => None,
            ImageFormat::Rgba8Unorm => Some(SurfaceFormat::R8G8B8A8Unorm),
            ImageFormat::Rgba8UnormSrgb => Some(SurfaceFormat::R8G8B8A8Srgb),
            ImageFormat::Rgba16Float => None,
            ImageFormat::Rgba32Float => None,
            ImageFormat::Bgr8Unorm => None,
            ImageFormat::Bgra8Unorm => Some(SurfaceFormat::B8G8R8A8Unorm),
            ImageFormat::Bgra8UnormSrgb => Some(SurfaceFormat::B8G8R8A8Srgb),
            ImageFormat::Bgra4Unorm => None,
            ImageFormat::BC1RgbaUnorm => Some(SurfaceFormat::BC1Unorm),
            ImageFormat::BC1RgbaUnormSrgb => Some(SurfaceFormat::BC1Srgb),
            ImageFormat::BC2RgbaUnorm => Some(SurfaceFormat::BC2Unorm),
            ImageFormat::BC2RgbaUnormSrgb => Some(SurfaceFormat::BC2Srgb),
            ImageFormat::BC3RgbaUnorm => Some(SurfaceFormat::BC3Unorm),
            ImageFormat::BC3RgbaUnormSrgb => Some(SurfaceFormat::BC3Srgb),
            ImageFormat::BC4RUnorm => Some(SurfaceFormat::BC4Unorm),
            ImageFormat::BC4RSnorm => Some(SurfaceFormat::BC4Snorm),
            ImageFormat::BC5RgUnorm => Some(SurfaceFormat::BC5Unorm),
            ImageFormat::BC5RgSnorm => Some(SurfaceFormat::BC5Snorm),
            ImageFormat::BC6hRgbUfloat => Some(SurfaceFormat::BC6Ufloat),
            ImageFormat::BC6hRgbSfloat => Some(SurfaceFormat::BC6Sfloat),
            ImageFormat::BC7RgbaUnorm => Some(SurfaceFormat::BC7Unorm),
            ImageFormat::BC7RgbaUnormSrgb => Some(SurfaceFormat::BC7Srgb),
            ImageFormat::Rgba8Snorm => None,
            ImageFormat::R16Unorm => None,
            ImageFormat::R16Snorm => None,
            ImageFormat::Rg16Unorm => None,
            ImageFormat::Rg16Snorm => None,
            ImageFormat::Rgba16Unorm => None,
            ImageFormat::Rgba16Snorm => None,
            ImageFormat::R16Float => None,
            ImageFormat::Rg16Float => None,
            ImageFormat::R32Float => None,
            ImageFormat::Rg32Float => None,
            ImageFormat::Rgb32Float => None,
            ImageFormat::Bgr5A1Unorm => None,
        }
    }

    /// The interchange format that holds the pixels of a container's format,
    /// or the error that names the format where there is none.
    pub fn try_from(value: SurfaceFormat) -> (r: Result<ImageFormat, CreateSurfaceError>)
        ensures
            match value.spec_interchange() {
                Some(f) => r == Ok::<ImageFormat, CreateSurfaceError>(f),
                None => r == Err::<ImageFormat, CreateSurfaceError>(
                    CreateSurfaceError::UnsupportedSurfaceFormat(value),
                ),
            },
    {
        match value {
            SurfaceFormat::R8Unorm => Ok(ImageFormat::R8Unorm),
            SurfaceFormat::Unk1 => Err(CreateSurfaceError::UnsupportedSurfaceFormat(value)),
            SurfaceFormat::R8G8B8A8Unorm => Ok(ImageFormat::Rgba8Unorm),
            SurfaceFormat::R8G8B8A8Srgb => Ok(ImageFormat::Rgba8UnormSrgb),
            SurfaceFormat::B8G8R8A8Unorm => Ok(ImageFormat::Bgra8Unorm),
            SurfaceFormat::B8G8R8A8Srgb => Ok(ImageFormat::Bgra8UnormSrgb),
            SurfaceFormat::R11G11B10 => Err(CreateSurfaceError::UnsupportedSurfaceFormat(value)),
            SurfaceFormat::BC1Unorm => Ok(ImageFormat::BC1RgbaUnorm),
            SurfaceFormat::BC1Srgb => Ok(ImageFormat::BC1RgbaUnormSrgb),
            SurfaceFormat::BC2Unorm => Ok(ImageFormat::BC2RgbaUnorm),
            SurfaceFormat::BC2Srgb => Ok(ImageFormat::BC2RgbaUnormSrgb),
            SurfaceFormat::BC3Unorm => Ok(ImageFormat::BC3RgbaUnorm),
            SurfaceFormat::BC3Srgb => Ok(ImageFormat::BC3RgbaUnormSrgb),
            SurfaceFormat::BC4Unorm => Ok(ImageFormat::BC4RUnorm),
            SurfaceFormat::BC4Snorm => Ok(ImageFormat::BC4RSnorm),
            SurfaceFormat::BC5Unorm => Ok(ImageFormat::BC5RgUnorm),
            SurfaceFormat::BC5Snorm => Ok(ImageFormat::BC5RgSnorm),
            SurfaceFormat::BC6Sfloat => Ok(ImageFormat::BC6hRgbSfloat),
            SurfaceFormat::BC6Ufloat => Ok(ImageFormat::BC6hRgbUfloat),
            SurfaceFormat::BC7Unorm => Ok(ImageFormat::BC7RgbaUnorm),
            SurfaceFormat::BC7Srgb => Ok(ImageFormat::BC7RgbaUnormSrgb),
        }
    }

    /// The interchange format of a container's format that has one.
    pub fn from(value: SurfaceFormat) -> (r: ImageFormat)
        requires
            value.spec_interchange() is Some,
        ensures
            Some(r) == value.spec_interchange(),
    {
        match ImageFormat::try_from(value) {
            Ok(f) => f,
            Err(_) => ImageFormat::R8Unorm,
        }
    }
}

/// A format of a container that has an interchange format is found again
/// from that interchange format.
pub proof fn lemma_native_interchange_native(format: SurfaceFormat)
    requires
        format.spec_interchange() is Some,
    ensures
        format.spec_interchange().unwrap().spec_native() == Some(format),
{
}

/// An interchange format that a container can hold is found again from the
/// container's format.
pub proof fn lemma_interchange_native_interchange(format: ImageFormat)
    requires
        format.spec_native() is Some,
    ensures
        format.spec_native().unwrap().spec_interchange() == Some(format),
{
}

} // verus!
