//! Pixel formats and the small enumerations of a texture descriptor,
//! each with the code it is stored under.
use vstd::prelude::*;

verus! {

/// Byte order of the multi-byte fields that follow the byte-order marker.
#[derive(Debug, Clone, Copy, PartialEq, Eq, Structural)]
pub enum ByteOrder {
    /// Marker bytes `FF FE`.
    LittleEndian,
    /// Marker bytes `FE FF`.
    BigEndian,
}

/// The size of a compressed block in pixels.
#[derive(Debug, Clone, Copy, PartialEq, Eq, Structural)]
pub struct BlockDim {
    pub width: u32,
    pub height: u32,
    pub depth: u32,
}

impl BlockDim {
    /// Every side of a block is at least one pixel.
    pub open spec fn wf(&self) -> bool {
        self.width > 0 && self.height > 0 && self.depth > 0
    }

    /// The 1x1x1 block of formats without block compression.
    pub fn uncompressed() -> (r: BlockDim)
        ensures
            r == (BlockDim { width: 1, height: 1, depth: 1 }),
    {
        BlockDim { width: 1, height: 1, depth: 1 }
    }

    /// The 4x4x1 block of the BCn formats.
    pub fn block_4x4() -> (r: BlockDim)
        ensures
            r == (BlockDim { width: 4, height: 4, depth: 1 }),
    {
        BlockDim { width: 4, height: 4, depth: 1 }
    }
}

/// The pixel formats a texture descriptor can name.
#[derive(Debug, Clone, Copy, PartialEq, Eq, Structural)]
pub enum SurfaceFormat {
    R8Unorm,
    Unk1,
    R8G8B8A8Unorm,
    R8G8B8A8Srgb,
    B8G8R8A8Unorm,
    B8G8R8A8Srgb,
    R11G11B10,
    BC1Unorm,
    BC1Srgb,
    BC2Unorm,
    BC2Srgb,
    BC3Unorm,
    BC3Srgb,
    BC4Unorm,
    BC4Snorm,
    BC5Unorm,
    BC5Snorm,
    BC6Sfloat,
    BC6Ufloat,
    BC7Unorm,
    BC7Srgb,
}

impl SurfaceFormat {
    /// The 32-bit code a format is stored under.
    pub open spec fn spec_code(self) -> u32 {
        match self {
            SurfaceFormat::R8Unorm => 0x0201,
            SurfaceFormat::Unk1 => 0x0a05,
            SurfaceFormat::R8G8B8A8Unorm => 0x0b01,
            SurfaceFormat::R8G8B8A8Srgb => 0x0b06,
            SurfaceFormat::B8G8R8A8Unorm => 0x0c01,
            SurfaceFormat::B8G8R8A8Srgb => 0x0c06,
            SurfaceFormat::R11G11B10 => 0x0f05,
            SurfaceFormat::BC1Unorm => 0x1a01,
            SurfaceFormat::BC1Srgb => 0x1a06,
            SurfaceFormat::BC2Unorm => 0x1b01,
            SurfaceFormat::BC2Srgb => 0x1b06,
            SurfaceFormat::BC3Unorm => 0x1c01,
            SurfaceFormat::BC3Srgb => 0x1c06,
            SurfaceFormat::BC4Unorm => 0x1d01,
            SurfaceFormat::BC4Snorm => 0x1d02,
            SurfaceFormat::BC5Unorm => 0x1e01,
            SurfaceFormat::BC5Snorm => 0x1e02,
            SurfaceFormat::BC6Sfloat => 0x1f05,
            SurfaceFormat::BC6Ufloat => 0x1f0a,
            SurfaceFormat::BC7Unorm => 0x2001,
            SurfaceFormat::BC7Srgb => 0x2006,
        }
    }

    /// The format stored under `code`, if there is one.
    pub open spec fn spec_from_code(code: u32) -> Option<SurfaceFormat> {
        if code == 0x0201 {
            Some(SurfaceFormat::R8Unorm)
        } else if code == 0x0a05 {
            Some(SurfaceFormat::Unk1)
        } else if code == 0x0b01 {
            Some(SurfaceFormat::R8G8B8A8Unorm)
        } else if code == 0x0b06 {
            Some(SurfaceFormat::R8G8B8A8Srgb)
        } else if code == 0x0c01 {
            Some(SurfaceFormat::B8G8R8A8Unorm)
        } else if code == 0x0c06 {
            Some(SurfaceFormat::B8G8R8A8Srgb)
        } else if code == 0x0f05 {
            Some(SurfaceFormat::R11G11B10)
        } else if code == 0x1a01 {
            Some(SurfaceFormat::BC1Unorm)
        } else if code == 0x1a06 {
            Some(SurfaceFormat::BC1Srgb)
        } else if code == 0x1b01 {
            Some(SurfaceFormat::BC2Unorm)
        } else if code == 0x1b06 {
            Some(SurfaceFormat::BC2Srgb)
        } else if code == 0x1c01 {
            Some(SurfaceFormat::BC3Unorm)
        } else if code == 0x1c06 {
            Some(SurfaceFormat::BC3Srgb)
        } else if code == 0x1d01 {
            Some(SurfaceFormat::BC4Unorm)
        } else if code == 0x1d02 {
            Some(SurfaceFormat::BC4Snorm)
        } else if code == 0x1e01 {
            Some(SurfaceFormat::BC5Unorm)
        } else if code == 0x1e02 {
            Some(SurfaceFormat::BC5Snorm)
        } else if code == 0x1f05 {
            Some(SurfaceFormat::BC6Sfloat)
        } else if code == 0x1f0a {
            Some(SurfaceFormat::BC6Ufloat)
        } else if code == 0x2001 {
            Some(SurfaceFormat::BC7Unorm)
        } else if code == 0x2006 {
            Some(SurfaceFormat::BC7Srgb)
        } else {
            None
        }
    }

    /// Bytes per pixel of an uncompressed format, bytes per 4x4 block of a
    /// block-compressed one. The format `Unk1`, whose code names a single
    /// channel of 16 bits, has two bytes per pixel.
    pub open spec fn spec_bytes_per_pixel(&self) -> u32 {
        match self {
            SurfaceFormat::R8Unorm => 1,
            SurfaceFormat::Unk1 => 2,
            SurfaceFormat::R8G8B8A8Unorm => 4,
            SurfaceFormat::R8G8B8A8Srgb => 4,
            SurfaceFormat::B8G8R8A8Unorm => 4,
            SurfaceFormat::B8G8R8A8Srgb => 4,
            SurfaceFormat::R11G11B10 => 4,
            SurfaceFormat::BC1Unorm => 8,
            SurfaceFormat::BC1Srgb => 8,
            SurfaceFormat::BC2Unorm => 16,
            SurfaceFormat::BC2Srgb => 16,
            SurfaceFormat::BC3Unorm => 16,
            SurfaceFormat::BC3Srgb => 16,
            SurfaceFormat::BC4Unorm => 8,
            SurfaceFormat::BC4Snorm => 8,
            SurfaceFormat::BC5Unorm => 16,
            SurfaceFormat::BC5Snorm => 16,
            SurfaceFormat::BC6Sfloat => 16,
            SurfaceFormat::BC6Ufloat => 16,
            SurfaceFormat::BC7Unorm => 16,
            SurfaceFormat::BC7Srgb => 16,
        }
    }

    /// Whether the format stores 4x4 blocks rather than single pixels.
    pub open spec fn is_block_compressed(self) -> bool {
        match self {
            SurfaceFormat::R8Unorm => false,
            SurfaceFormat::Unk1 => false,
            SurfaceFormat::R8G8B8A8Unorm => false,
            SurfaceFormat::R8G8B8A8Srgb => false,
            SurfaceFormat::B8G8R8A8Unorm => false,
            SurfaceFormat::B8G8R8A8Srgb => false,
            SurfaceFormat::R11G11B10 => false,
            _ => true,
        }
    }

    /// The block of a format: 4x4x1 if block-compressed, 1x1x1 otherwise.
    pub open spec fn spec_block_dim(&self) -> BlockDim {
        if self.is_block_compressed() {
            BlockDim { width: 4, height: 4, depth: 1 }
        } else {
            BlockDim { width: 1, height: 1, depth: 1 }
        }
    }

    #[verifier::when_used_as_spec(spec_code)]
    pub fn code(self) -> (r: u32)
        ensures
            r == self.spec_code(),
    {
        match self {
            SurfaceFormat::R8Unorm => 0x0201,
            SurfaceFormat::Unk1 => 0x0a05,
            SurfaceFormat::R8G8B8A8Unorm => 0x0b01,
            SurfaceFormat::R8G8B8A8Srgb => 0x0b06,
            SurfaceFormat::B8G8R8A8Unorm => 0x0c01,
            SurfaceFormat::B8G8R8A8Srgb => 0x0c06,
            SurfaceFormat::R11G11B10 => 0x0f05,
            SurfaceFormat::BC1Unorm => 0x1a01,
            SurfaceFormat::BC1Srgb => 0x1a06,
            SurfaceFormat::BC2Unorm => 0x1b01,
            SurfaceFormat::BC2Srgb => 0x1b06,
            SurfaceFormat::BC3Unorm => 0x1c01,
            SurfaceFormat::BC3Srgb => 0x1c06,
            SurfaceFormat::BC4Unorm => 0x1d01,
            SurfaceFormat::BC4Snorm => 0x1d02,
            SurfaceFormat::BC5Unorm => 0x1e01,
            SurfaceFormat::BC5Snorm => 0x1e02,
            SurfaceFormat::BC6Sfloat => 0x1f05,
            SurfaceFormat::BC6Ufloat => 0x1f0a,
            SurfaceFormat::BC7Unorm => 0x2001,
            SurfaceFormat::BC7Srgb => 0x2006,
        }
    }

    pub fn from_code(code: u32) -> (r: Option<SurfaceFormat>)
        ensures
            r == Self::spec_from_code(code),
            r matches Some(f) ==> f.spec_code() == code,
            r is None ==> forall|f: SurfaceFormat| f.spec_code() != code,
    {
        if code == 0x0201 {
            Some(SurfaceFormat::R8Unorm)
        } else if code == 0x0a05 {
            Some(SurfaceFormat::Unk1)
        } else if code == 0x0b01 {
            Some(SurfaceFormat::R8G8B8A8Unorm)
        } else if code == 0x0b06 {
            Some(SurfaceFormat::R8G8B8A8Srgb)
        } else if code == 0x0c01 {
            Some(SurfaceFormat::B8G8R8A8Unorm)
        } else if code == 0x0c06 {
            Some(SurfaceFormat::B8G8R8A8Srgb)
        } else if code == 0x0f05 {
            Some(SurfaceFormat::R11G11B10)
        } else if code == 0x1a01 {
            Some(SurfaceFormat::BC1Unorm)
        } else if code == 0x1a06 {
            Some(SurfaceFormat::BC1Srgb)
        } else if code == 0x1b01 {
            Some(SurfaceFormat::BC2Unorm)
        } else if code == 0x1b06 {
            Some(SurfaceFormat::BC2Srgb)
        } else if code == 0x1c01 {
            Some(SurfaceFormat::BC3Unorm)
        } else if code == 0x1c06 {
            Some(SurfaceFormat::BC3Srgb)
        } else if code == 0x1d01 {
            Some(SurfaceFormat::BC4Unorm)
        } else if code == 0x1d02 {
            Some(SurfaceFormat::BC4Snorm)
        } else if code == 0x1e01 {
            Some(SurfaceFormat::BC5Unorm)
        } else if code == 0x1e02 {
            Some(SurfaceFormat::BC5Snorm)
        } else if code == 0x1f05 {
            Some(SurfaceFormat::BC6Sfloat)
        } else if code == 0x1f0a {
            Some(SurfaceFormat::BC6Ufloat)
        } else if code == 0x2001 {
            Some(SurfaceFormat::BC7Unorm)
        } else if code == 0x2006 {
            Some(SurfaceFormat::BC7Srgb)
        } else {
            None
        }
    }

    /// Bytes per pixel, or per block for the block-compressed formats.
    #[verifier::when_used_as_spec(spec_bytes_per_pixel)]
    pub fn bytes_per_pixel(&self) -> (r: u32)
        ensures
            r == self.spec_bytes_per_pixel(),
            1 <= r <= 16,
    {
        match self {
            SurfaceFormat::R8Unorm => 1,
            SurfaceFormat::Unk1 => 2,
            SurfaceFormat::R8G8B8A8Unorm => 4,
            SurfaceFormat::R8G8B8A8Srgb => 4,
            SurfaceFormat::B8G8R8A8Unorm => 4,
            SurfaceFormat::B8G8R8A8Srgb => 4,
            SurfaceFormat::R11G11B10 => 4,
            SurfaceFormat::BC1Unorm => 8,
            SurfaceFormat::BC1Srgb => 8,
            SurfaceFormat::BC2Unorm => 16,
            SurfaceFormat::BC2Srgb => 16,
            SurfaceFormat::BC3Unorm => 16,
            SurfaceFormat::BC3Srgb => 16,
            SurfaceFormat::BC4Unorm => 8,
            SurfaceFormat::BC4Snorm => 8,
            SurfaceFormat::BC5Unorm => 16,
            SurfaceFormat::BC5Snorm => 16,
            SurfaceFormat::BC6Sfloat => 16,
            SurfaceFormat::BC6Ufloat => 16,
            SurfaceFormat::BC7Unorm => 16,
            SurfaceFormat::BC7Srgb => 16,
        }
    }

    /// The tile block of the format.
    #[verifier::when_used_as_spec(spec_block_dim)]
    pub fn block_dim(&self) -> (r: BlockDim)
        ensures
            r == self.spec_block_dim(),
            r.wf(),
    {
        match self {
            SurfaceFormat::R8Unorm => BlockDim::uncompressed(),
            SurfaceFormat::Unk1 => BlockDim::uncompressed(),
            SurfaceFormat::R8G8B8A8Unorm => BlockDim::uncompressed(),
            SurfaceFormat::R8G8B8A8Srgb => BlockDim::uncompressed(),
            SurfaceFormat::B8G8R8A8Unorm => BlockDim::uncompressed(),
            SurfaceFormat::B8G8R8A8Srgb => BlockDim::uncompressed(),
            SurfaceFormat::R11G11B10 => BlockDim::uncompressed(),
            SurfaceFormat::BC1Unorm => BlockDim::block_4x4(),
            SurfaceFormat::BC1Srgb => BlockDim::block_4x4(),
            SurfaceFormat::BC2Unorm => BlockDim::block_4x4(),
            SurfaceFormat::BC2Srgb => BlockDim::block_4x4(),
            SurfaceFormat::BC3Unorm => BlockDim::block_4x4(),
            SurfaceFormat::BC3Srgb => BlockDim::block_4x4(),
            SurfaceFormat::BC4Unorm => BlockDim::block_4x4(),
            SurfaceFormat::BC4Snorm => BlockDim::block_4x4(),
            SurfaceFormat::BC5Unorm => BlockDim::block_4x4(),
            SurfaceFormat::BC5Snorm => BlockDim::block_4x4(),
            SurfaceFormat::BC6Sfloat => BlockDim::block_4x4(),
            SurfaceFormat::BC6Ufloat => BlockDim::block_4x4(),
            SurfaceFormat::BC7Unorm => BlockDim::block_4x4(),
            SurfaceFormat::BC7Srgb => BlockDim::block_4x4(),
        }
    }
}

/// Every format is found again under its own code.
pub proof fn lemma_surface_format_code_round_trip(f: SurfaceFormat)
    ensures
        SurfaceFormat::spec_from_code(f.spec_code()) == Some(f),
{
}

/// The dimensionality of the stored texture.
#[derive(Debug, Clone, Copy, PartialEq, Eq, Structural)]
pub enum TextureDimension {
    D1,
    D2,
    D3,
}

impl TextureDimension {
    pub open spec fn spec_code(self) -> u8 {
        match self {
            TextureDimension::D1 => 1,
            TextureDimension::D2 => 2,
            TextureDimension::D3 => 3,
        }
    }

    pub open spec fn spec_from_code(code: u8) -> Option<TextureDimension> {
        if code == 1 {
            Some(TextureDimension::D1)
        } else if code == 2 {
            Some(TextureDimension::D2)
        } else if code == 3 {
            Some(TextureDimension::D3)
        } else {
            None
        }
    }

    #[verifier::when_used_as_spec(spec_code)]
    pub fn code(self) -> (r: u8)
        ensures
            r == self.spec_code(),
    {
        match self {
            TextureDimension::D1 => 1,
            TextureDimension::D2 => 2,
            TextureDimension::D3 => 3,
        }
    }

    pub fn from_code(code: u8) -> (r: Option<TextureDimension>)
        ensures
            r == Self::spec_from_code(code),
    {
        if code == 1 {
            Some(TextureDimension::D1)
        } else if code == 2 {
            Some(TextureDimension::D2)
        } else if code == 3 {
            Some(TextureDimension::D3)
        } else {
            None
        }
    }
}

/// How a texture is viewed when it is sampled.
#[derive(Debug, Clone, Copy, PartialEq, Eq, Structural)]
pub enum TextureViewDimension {
    D1,
    D2,
    D3,
    Cube,
}

impl TextureViewDimension {
    pub open spec fn spec_code(self) -> u32 {
        match self {
            TextureViewDimension::D1 => 0,
            TextureViewDimension::D2 => 1,
            TextureViewDimension::D3 => 2,
            TextureViewDimension::Cube => 3,
        }
    }

    pub open spec fn spec_from_code(code: u32) -> Option<TextureViewDimension> {
        if code == 0 {
            Some(TextureViewDimension::D1)
        } else if code == 1 {
            Some(TextureViewDimension::D2)
        } else if code == 2 {
            Some(TextureViewDimension::D3)
        } else if code == 3 {
            Some(TextureViewDimension::Cube)
        } else {
            None
        }
    }

    #[verifier::when_used_as_spec(spec_code)]
    pub fn code(self) -> (r: u32)
        ensures
            r == self.spec_code(),
    {
        match self {
            TextureViewDimension::D1 => 0,
            TextureViewDimension::D2 => 1,
            TextureViewDimension::D3 => 2,
            TextureViewDimension::Cube => 3,
        }
    }

    pub fn from_code(code: u32) -> (r: Option<TextureViewDimension>)
        ensures
            r == Self::spec_from_code(code),
    {
        if code == 0 {
            Some(TextureViewDimension::D1)
        } else if code == 1 {
            Some(TextureViewDimension::D2)
        } else if code == 2 {
            Some(TextureViewDimension::D3)
        } else if code == 3 {
            Some(TextureViewDimension::Cube)
        } else {
            None
        }
    }
}

} // verus!
