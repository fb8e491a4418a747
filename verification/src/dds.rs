//! Containers as DDS documents of the interchange codec.
use vstd::prelude::*;
use crate::container::{Bntx, BntxView};
use crate::format::{BlockDim, SurfaceFormat};
use crate::interchange::{lemma_native_interchange_native, ImageFormat, Surface, SurfaceView};
use crate::surface::{surface_from_container, CreateSurfaceError};
use crate::tiling::{at_least_one, spec_div_round_up, SwizzleError};

verus! {

/// `ddsfile::Dds`, the DDS document of the interchange codec. Nothing is
/// known of what a document holds.
#[verifier::external_type_specification]
#[verifier::external_body]
pub struct ExDds(image_dds::ddsfile::Dds);

/// `ddsfile::Error`, the error of making a document. It is handed on as it
/// is.
#[verifier::external_type_specification]
#[verifier::external_body]
pub struct ExDdsFileError(image_dds::ddsfile::Error);

/// `image_dds::error::SurfaceError`, the error of encoding a surface. It is
/// handed on as it is.
#[verifier::external_type_specification]
#[verifier::external_body]
pub struct ExSurfaceError(image_dds::error::SurfaceError);

/// Why the interchange codec could not make a DDS document of a surface.
#[derive(Debug)]
pub enum DdsError {
    /// The document could not be made.
    Dds(image_dds::ddsfile::Error),
    /// The surface could not be compressed.
    CompressSurface(image_dds::error::SurfaceError),
}

/// Why a container could not be made into a DDS document.
#[derive(Debug)]
pub enum CreateDdsError {
    /// The tiling engine refused the texture.
    SwizzleError(SwizzleError),
    /// No interchange format holds the pixels of the texture.
    Surface(CreateSurfaceError),
    /// The interchange codec refused the surface.
    Dds(DdsError),
}

/// The bytes of a row of blocks of a surface in a DDS document.
pub open spec fn dds_pitch(width: u32, block_dim: BlockDim, bytes_per_pixel: u32) -> int {
    at_least_one(spec_div_round_up(width as int, block_dim.width as int)) * bytes_per_pixel
}

/// An upper bound on the bytes that a DDS document reserves for a surface:
/// for each array layer, other than the six of a cube, which count as one,
/// the size of the base level and a third of it for the smaller levels, and
/// 16 bytes for each mip level.
pub open spec fn dds_size_bound(
    width: u32,
    height: u32,
    depth: u32,
    layers: u32,
    mipmaps: u32,
    block_dim: BlockDim,
    bytes_per_pixel: u32,
) -> int {
    let rows = spec_div_round_up(height as int, block_dim.height as int);
    let size = dds_pitch(width, block_dim, bytes_per_pixel) * rows * at_least_one(depth as int);
    let arrays: int = if layers > 1 && layers != 6 {
        layers as int
    } else {
        1
    };
    arrays * (size + size / 3 + 1 + 16 * at_least_one(mipmaps as int))
}

/// The surfaces whose sizes in a DDS document are computed within 32 bits.
pub open spec fn dds_sizes_fit(
    width: u32,
    height: u32,
    depth: u32,
    layers: u32,
    mipmaps: u32,
    block_dim: BlockDim,
    bytes_per_pixel: u32,
) -> bool {
    &&& block_dim.wf()
    &&& block_dim.width <= 4
    &&& block_dim.height <= 4
    &&& width * 8 * bytes_per_pixel + 7 <= u32::MAX
    &&& height + 3 <= u32::MAX
    &&& dds_pitch(width, block_dim, bytes_per_pixel) <= u32::MAX
    &&& dds_size_bound(width, height, depth, layers, mipmaps, block_dim, bytes_per_pixel)
        <= u32::MAX
}

impl BntxView {
    /// Whether the first texture of the container, where an interchange
    /// format holds its pixels, has sizes that a DDS document can hold.
    pub open spec fn fits_dds(self) -> bool
        recommends
            self.has_texture(),
    {
        let info = self.texture();
        info.image_format.spec_interchange() is Some ==> dds_sizes_fit(
            info.width,
            info.height,
            info.depth,
            info.layer_count,
            info.mipmap_count as u32,
            info.image_format.spec_block_dim(),
            info.image_format.spec_bytes_per_pixel(),
        )
    }
}

/// What the interchange codec makes of a surface: a DDS document that holds
/// it, or the codec's error.
pub uninterp spec fn dds_of(surface: SurfaceView) -> Result<image_dds::ddsfile::Dds, DdsError>;

/// Calls `image_dds::Surface::to_dds`, which makes a DDS document with the
/// header of the surface's format and size and a copy of its bytes, and names
/// what it returns. The format is found by its name. The format must be one
/// that a container can hold, and the sizes that the document's headers state
/// must fit in 32 bits.
#[verifier::external_body]
fn surface_to_dds(surface: &Surface) -> (r: Result<image_dds::ddsfile::Dds, DdsError>)
    requires
        surface@.image_format.spec_native() is Some,
        dds_sizes_fit(
            surface@.width,
            surface@.height,
            surface@.depth,
            surface@.layers,
            surface@.mipmaps,
            surface@.image_format.spec_native().unwrap().spec_block_dim(),
            surface@.image_format.spec_native().unwrap().spec_bytes_per_pixel(),
        ),
    ensures
        r == dds_of(surface@),
{
    let image_format = format!("{:?}", surface.image_format).parse().unwrap();
    let outside = image_dds::Surface {
        width: surface.width,
        height: surface.height,
        depth: surface.depth,
        layers: surface.layers,
        mipmaps: surface.mipmaps,
        image_format,
        data: surface.data.as_slice(),
    };
    match outside.to_dds() {
        Ok(dds) => Ok(dds),
        Err(image_dds::CreateDdsError::Dds(e)) => Err(DdsError::Dds(e)),
        Err(image_dds::CreateDdsError::CompressSurface(e)) => Err(DdsError::CompressSurface(e)),
    }
}

/// Whether the sizes of a surface in a DDS document are computed within 32
/// bits.
pub fn are_dds_sizes_in_range(
    width: u32,
    height: u32,
    depth: u32,
    layers: u32,
    mipmaps: u32,
    block_dim: BlockDim,
    bytes_per_pixel: u32,
) -> (r: bool)
    ensures
        r == dds_sizes_fit(width, height, depth, layers, mipmaps, block_dim, bytes_per_pixel),
{
    if block_dim.width == 0 || block_dim.height == 0 || block_dim.depth == 0 || block_dim.width
        > 4 || block_dim.height > 4 {
        return false;
    }
    let limit: u128 = 0xFFFF_FFFF;
    assert(width * 8 * bytes_per_pixel <= 0xFFFF_FFFF * 8 * 0xFFFF_FFFF) by (nonlinear_arith)
        requires
            width <= 0xFFFF_FFFF,
            bytes_per_pixel <= 0xFFFF_FFFF,
    ;
    if width as u128 * 8 * bytes_per_pixel as u128 + 7 > limit || height as u64 + 3
        > 0xFFFF_FFFF {
        return false;
    }
    let blocks: u64 = (width as u64 + block_dim.width as u64 - 1) / block_dim.width as u64;
    let blocks: u64 = if blocks > 1 { blocks } else { 1 };
    assert(blocks * bytes_per_pixel <= 0x1_0000_0004 * 0xFFFF_FFFF) by (nonlinear_arith)
        requires
            blocks <= 0x1_0000_0004,
            bytes_per_pixel <= 0xFFFF_FFFF,
    ;
    let pitch: u128 = blocks as u128 * bytes_per_pixel as u128;
    assert(pitch == dds_pitch(width, block_dim, bytes_per_pixel));
    if pitch > limit {
        return false;
    }
    let rows: u128 = ((height as u64 + block_dim.height as u64 - 1) / block_dim.height as u64) as u128;
    let slices: u128 = if depth > 1 { depth as u128 } else { 1 };
    let levels: u128 = if mipmaps > 1 { mipmaps as u128 } else { 1 };
    let arrays: u128 = if layers > 1 && layers != 6 { layers as u128 } else { 1 };
    let ghost bound = dds_size_bound(
        width,
        height,
        depth,
        layers,
        mipmaps,
        block_dim,
        bytes_per_pixel,
    );
    assert(pitch * rows <= 0xFFFF_FFFF * 0x1_0000_0002) by (nonlinear_arith)
        requires
            pitch <= 0xFFFF_FFFF,
            rows <= 0x1_0000_0002,
    ;
    let area: u128 = pitch * rows;
    let ghost volume = area * slices;
    assert(volume >= area && volume == pitch * rows * slices) by (nonlinear_arith)
        requires
            area >= 0,
            slices >= 1,
            volume == area * slices,
            area == pitch * rows,
    ;
    assert(bound == arrays * (volume + volume / 3 + 1 + 16 * levels));
    assert(arrays * (volume + volume / 3 + 1 + 16 * levels) >= volume) by (nonlinear_arith)
        requires
            volume >= 0,
            arrays >= 1,
            levels >= 1,
    ;
    if area > limit {
        return false;
    }
    assert(area * slices <= 0xFFFF_FFFF * 0xFFFF_FFFF) by (nonlinear_arith)
        requires
            area <= 0xFFFF_FFFF,
            slices <= 0xFFFF_FFFF,
    ;
    let size: u128 = area * slices;
    if size > limit {
        return false;
    }
    let layer: u128 = size + size / 3 + 1 + 16 * levels;
    assert(arrays * layer <= 0xFFFF_FFFF * (2 * 0xFFFF_FFFF + 16 * 0xFFFF_FFFF))
        by (nonlinear_arith)
        requires
            0 <= arrays <= 0xFFFF_FFFF,
            0 <= layer <= 2 * 0xFFFF_FFFF + 16 * 0xFFFF_FFFF,
    ;
    arrays * layer <= limit
}

impl Bntx {
    /// Whether the first texture of the container, where an interchange
    /// format holds its pixels, has sizes that a DDS document can hold.
    pub fn fits_dds(&self) -> (r: bool)
        requires
            self@.has_texture(),
        ensures
            r == self@.fits_dds(),
    {
        let info = &self.nx_header.brtis[0].brti;
        match ImageFormat::try_from(info.image_format) {
            Err(_) => true,
            Ok(image_format) => {
                proof {
                    lemma_native_interchange_native(info.image_format);
                }
                are_dds_sizes_in_range(
                    info.width,
                    info.height,
                    info.depth,
                    info.layer_count,
                    info.mipmap_count as u32,
                    info.image_format.block_dim(),
                    info.image_format.bytes_per_pixel(),
                )
            },
        }
    }

    /// Makes a DDS document from the first texture of a container: the
    /// error that names the format where no interchange format holds its
    /// pixels; else the error of the tiling engine where the texture cannot
    /// be untiled; else what the interchange codec makes of the untiled
    /// surface, its document or its error.
    pub fn to_dds(&self) -> (r: Result<image_dds::ddsfile::Dds, CreateDdsError>)
        requires
            self@.has_texture(),
            self@.fits_dds(),
        ensures
            match surface_from_container(self@) {
                Err(CreateSurfaceError::UnsupportedSurfaceFormat(format)) => r matches Err(
                    CreateDdsError::Surface(e),
                ) && e == CreateSurfaceError::UnsupportedSurfaceFormat(format),
                Err(CreateSurfaceError::SwizzleError(error)) => r matches Err(
                    CreateDdsError::SwizzleError(e),
                ) && e == error,
                Ok(surface) => match dds_of(surface) {
                    Ok(document) => r matches Ok(d) && d == document,
                    Err(error) => r matches Err(CreateDdsError::Dds(e)) && e == error,
                },
            },
    {
        let image_format = match ImageFormat::try_from(self.image_format()) {
            Ok(f) => f,
            Err(e) => {
                return Err(CreateDdsError::Surface(e));
            },
        };
        let data = match self.deswizzled_data() {
            Ok(d) => d,
            Err(e) => {
                return Err(CreateDdsError::SwizzleError(e));
            },
        };
        proof {
            lemma_native_interchange_native(self@.texture().image_format);
        }
        let surface = self.surface_with(image_format, data);
        match surface_to_dds(&surface) {
            Ok(dds) => Ok(dds),
            Err(e) => Err(CreateDdsError::Dds(e)),
        }
    }
}

} // verus!
