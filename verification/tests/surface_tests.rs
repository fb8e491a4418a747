use bntx::interchange::{ImageFormat, Surface};
use bntx::surface::{CreateBntxError, CreateSurfaceError};
use bntx::tiling::SwizzleError;
use bntx::dds::are_dds_sizes_in_range;
use bntx::{
    BlockDim, Bntx, ByteOrder, SurfaceFormat, TextureDimension, TextureViewDimension,
};

fn small_surface() -> Surface {
    Surface {
        width: 4,
        height: 4,
        depth: 1,
        layers: 1,
        mipmaps: 1,
        image_format: ImageFormat::R8Unorm,
        data: (0u8..16).collect(),
    }
}

#[test]
fn from_surface_small_r8() {
    let bntx = Bntx::from_surface(small_surface(), "tex").unwrap();
    let brti = &bntx.nx_header.brtis[0].brti;
    assert_eq!(bntx.nx_header.brtis.len(), 1);
    assert_eq!(brti.mipmaps.mipmap_offsets, vec![0xFF0 + 0x10]);
    assert_eq!(brti.block_height_log2, 0);
    assert_eq!(brti.image_format, SurfaceFormat::R8Unorm);
    assert_eq!(brti.texture_dimension, TextureDimension::D2);
    assert_eq!(brti.texture_view_dimension, TextureViewDimension::D2);
    assert_eq!(bntx.header.str_section.empty.chars, "");
    assert_eq!(bntx.header.str_section.strings.len(), 1);
    assert_eq!(bntx.header.str_section.strings[0].chars, "tex");
    assert_eq!(bntx.bom, ByteOrder::LittleEndian);
    // One GOB of 512 bytes holds the 16 bytes of the surface.
    assert_eq!(bntx.nx_header.brtd.image_data.len(), 512);
    assert_eq!(&bntx.nx_header.brtd.image_data[..4], &[0, 1, 2, 3]);
    assert_eq!(&bntx.nx_header.brtd.image_data[16..20], &[4, 5, 6, 7]);
    assert_eq!(brti.image_size, 512);
    assert_eq!(bntx.deswizzled_data().unwrap().len(), 16);
}

#[test]
fn from_surface_unsupported_format() {
    let mut surface = small_surface();
    surface.image_format = ImageFormat::Rgba16Float;
    surface.data = vec![0u8; 4 * 4 * 8];
    assert_eq!(
        Bntx::from_surface(surface, "tex"),
        Err(CreateBntxError::UnsupportedImageFormat(ImageFormat::Rgba16Float))
    );
}

#[test]
fn from_surface_not_enough_data() {
    let mut surface = small_surface();
    surface.data = vec![0u8; 3];
    assert_eq!(
        Bntx::from_surface(surface, "tex"),
        Err(CreateBntxError::SwizzleError(SwizzleError::NotEnoughData {
            expected_size: 16,
            actual_size: 3
        }))
    );
}

#[test]
fn to_surface_round_trip() {
    let surface = small_surface();
    let bntx = Bntx::from_surface(surface.clone(), "tex").unwrap();
    assert_eq!(bntx.to_surface(), Ok(surface));
}

#[test]
fn to_surface_unsupported_format() {
    let mut bntx = Bntx::from_surface(small_surface(), "tex").unwrap();
    bntx.nx_header.brtis[0].brti.image_format = SurfaceFormat::R11G11B10;
    assert_eq!(
        bntx.to_surface(),
        Err(CreateSurfaceError::UnsupportedSurfaceFormat(SurfaceFormat::R11G11B10))
    );
}

#[test]
fn write_then_read_gives_the_resolved_container() {
    let bntx = Bntx::from_surface(small_surface(), "tex").unwrap();
    let bytes = bntx.write().unwrap();
    assert_eq!(&bytes[0..4], b"BNTX");
    assert_eq!(&bytes[12..14], &[0xFF, 0xFE]);
    assert_eq!(&bytes[0xFF0..0xFF4], b"BRTD");
    let read = Bntx::read(&bytes).unwrap();
    assert_eq!(read.width(), 4);
    assert_eq!(read.height(), 4);
    assert_eq!(read.depth(), 1);
    assert_eq!(read.layer_count(), 1);
    assert_eq!(read.mipmap_count(), 1);
    assert_eq!(read.image_format(), SurfaceFormat::R8Unorm);
    assert_eq!(read.header.str_section.strings[0].chars, "tex");
    assert_eq!(read.nx_header.brtd.image_data, bntx.nx_header.brtd.image_data);
    assert_eq!(read.header.file_size as usize, bytes.len());
    assert_eq!(read.header.reloc_table.position as usize, 0x1000 + 512);
    assert_eq!(read.header.file_name, 416 + 26);
    assert_eq!(read.nx_header.brtis[0].brti.name_addr, 416 + 26);
    assert_eq!(
        read.nx_header.brtis[0].brti.name_addr,
        read.header.file_name as u64
    );
    // Writing what was read gives the same file again.
    assert_eq!(read.write().unwrap(), bytes);
}

#[test]
fn from_surface_block_compressed_with_mipmaps() {
    let surface = Surface {
        width: 64,
        height: 64,
        depth: 1,
        layers: 6,
        mipmaps: 3,
        image_format: ImageFormat::BC7RgbaUnormSrgb,
        // 16x16, 8x8 and 4x4 blocks of 16 bytes, six times.
        data: vec![0x5A; (256 + 64 + 16) * 16 * 6],
    };
    let bntx = Bntx::from_surface(surface.clone(), "cube").unwrap();
    let brti = &bntx.nx_header.brtis[0].brti;
    assert_eq!(brti.image_format, SurfaceFormat::BC7Srgb);
    assert_eq!(brti.texture_view_dimension, TextureViewDimension::Cube);
    assert_eq!(brti.texture_dimension, TextureDimension::D2);
    assert_eq!(brti.layer_count, 6);
    assert_eq!(brti.mipmap_count, 3);
    // 16 rows of blocks give 24 with their half: a block height of 2.
    assert_eq!(brti.block_height_log2, 1);
    assert_eq!(
        brti.mipmaps.mipmap_offsets,
        vec![0x1000, 0x1000 + 4096, 0x1000 + 4096 + 1024]
    );
    assert_eq!(brti.image_size as usize, bntx.nx_header.brtd.image_data.len());
    assert_eq!(bntx.to_surface(), Ok(surface));
    let read = Bntx::read(&bntx.write().unwrap()).unwrap();
    assert_eq!(read.layer_count(), 6);
    assert_eq!(read.mipmap_count(), 3);
    assert_eq!(read.image_format(), SurfaceFormat::BC7Srgb);
    assert_eq!(read.nx_header.brtd.image_data, bntx.nx_header.brtd.image_data);
}

#[test]
fn from_surface_with_depth() {
    let surface = Surface {
        width: 16,
        height: 16,
        depth: 16,
        layers: 1,
        mipmaps: 1,
        image_format: ImageFormat::Rgba8Unorm,
        data: (0..16 * 16 * 16 * 4u32).map(|i| (i % 253) as u8).collect(),
    };
    let bntx = Bntx::from_surface(surface.clone(), "volume").unwrap();
    let brti = &bntx.nx_header.brtis[0].brti;
    assert_eq!(brti.texture_dimension, TextureDimension::D3);
    assert_eq!(brti.texture_view_dimension, TextureViewDimension::D3);
    assert_eq!(bntx.nx_header.brtd.image_data.len(), 16384);
    assert_eq!(bntx.to_surface(), Ok(surface));
}

#[test]
fn from_surface_that_is_invalid() {
    let surface = Surface {
        width: u32::MAX,
        height: 2,
        depth: 1,
        layers: 1,
        mipmaps: 1,
        image_format: ImageFormat::R8Unorm,
        data: vec![],
    };
    assert_eq!(
        Bntx::from_surface(surface, "tex"),
        Err(CreateBntxError::SwizzleError(SwizzleError::InvalidSurface {
            width: u32::MAX,
            height: 2,
            depth: 1,
            bytes_per_pixel: 1,
            mipmap_count: 1
        }))
    );
}

#[test]
fn from_surface_of_too_many_mipmaps() {
    let mut surface = small_surface();
    surface.mipmaps = 33;
    surface.data = vec![0; 1024];
    assert_eq!(
        Bntx::from_surface(surface, "tex"),
        Err(CreateBntxError::SwizzleError(SwizzleError::InvalidSurface {
            width: 4,
            height: 4,
            depth: 1,
            bytes_per_pixel: 1,
            mipmap_count: 33
        }))
    );
}

#[test]
fn from_surface_of_a_wide_compressed_surface() {
    // 1048576 by 8 blocks of 16 bytes each.
    let surface = Surface {
        width: 4_194_304,
        height: 32,
        depth: 1,
        layers: 1,
        mipmaps: 1,
        image_format: ImageFormat::BC7RgbaUnorm,
        data: vec![],
    };
    assert_eq!(
        Bntx::from_surface(surface, "wide"),
        Err(CreateBntxError::SwizzleError(SwizzleError::NotEnoughData {
            expected_size: 134_217_728,
            actual_size: 0
        }))
    );
}

#[test]
fn from_surface_of_more_mipmaps_than_a_descriptor_holds() {
    let mut surface = Surface {
        width: 0,
        height: 4,
        depth: 1,
        layers: 1,
        mipmaps: 65536,
        image_format: ImageFormat::R8Unorm,
        data: vec![],
    };
    assert_eq!(
        Bntx::from_surface(surface.clone(), "tex"),
        Err(CreateBntxError::SwizzleError(SwizzleError::InvalidSurface {
            width: 0,
            height: 4,
            depth: 1,
            bytes_per_pixel: 1,
            mipmap_count: 65536
        }))
    );
    surface.mipmaps = 65535;
    let bntx = Bntx::from_surface(surface, "tex").unwrap();
    let brti = &bntx.nx_header.brtis[0].brti;
    assert_eq!(brti.mipmap_count, 65535);
    assert_eq!(brti.mipmaps.mipmap_offsets.len(), 65535);
    assert_eq!(brti.mipmaps.mipmap_offsets[65534], 0x1000 + 512 * 65534);
}

#[test]
fn from_surface_whose_sizes_overflow() {
    // The rows of blocks of the base level cannot be counted in 32 bits.
    let tall = Surface {
        width: 0,
        height: u32::MAX,
        depth: 1,
        layers: 1,
        mipmaps: 1,
        image_format: ImageFormat::BC1RgbaUnorm,
        data: vec![],
    };
    assert_eq!(
        Bntx::from_surface(tall, "tex"),
        Err(CreateBntxError::SwizzleError(SwizzleError::InvalidSurface {
            width: 0,
            height: u32::MAX,
            depth: 1,
            bytes_per_pixel: 8,
            mipmap_count: 1
        }))
    );
    // A row of the base level is longer than 32 bits hold once it is
    // rounded up to whole GOBs.
    let wide = Surface {
        width: u32::MAX,
        height: 1,
        depth: 1,
        layers: 1,
        mipmaps: 1,
        image_format: ImageFormat::R8Unorm,
        data: vec![0; 16],
    };
    assert_eq!(
        Bntx::from_surface(wide, "tex"),
        Err(CreateBntxError::SwizzleError(SwizzleError::InvalidSurface {
            width: u32::MAX,
            height: 1,
            depth: 1,
            bytes_per_pixel: 1,
            mipmap_count: 1
        }))
    );
}

#[test]
fn from_surface_of_nothing() {
    let surface = Surface {
        width: 0,
        height: 0,
        depth: 0,
        layers: 0,
        mipmaps: 0,
        image_format: ImageFormat::Bgra8Unorm,
        data: vec![],
    };
    let bntx = Bntx::from_surface(surface, "").unwrap();
    let brti = &bntx.nx_header.brtis[0].brti;
    assert_eq!(brti.mipmaps.mipmap_offsets, Vec::<u64>::new());
    assert_eq!(brti.image_size, 0);
    assert_eq!(bntx.nx_header.brtd.image_data, Vec::<u8>::new());
    assert_eq!(bntx.header.str_section.strings[0].chars, "");
    let read = Bntx::read(&bntx.write().unwrap()).unwrap();
    assert_eq!(read.mipmap_count(), 0);
    assert_eq!(read.nx_header.brtd.image_data, Vec::<u8>::new());
}

#[test]
fn from_tiled_keeps_the_tiled_bytes() {
    let bntx = Bntx::from_tiled(
        8,
        8,
        1,
        1,
        2,
        SurfaceFormat::B8G8R8A8Srgb,
        bntx::tiling::BlockHeight::One,
        vec![1, 2, 3],
        "name",
    );
    let brti = &bntx.nx_header.brtis[0].brti;
    assert_eq!(bntx.nx_header.brtd.image_data, vec![1, 2, 3]);
    assert_eq!(brti.image_size, 3);
    assert_eq!(brti.mipmaps.mipmap_offsets, vec![0x1000, 0x1200]);
    assert_eq!(brti.size, 3576);
    assert_eq!(brti.size2, 3576);
    assert_eq!(brti.flags, 1);
    assert_eq!(brti.multi_sample_count, 1);
    assert_eq!(brti.unk2, 32);
    assert_eq!(brti.unk4, [65543, 0, 0, 0, 0, 0]);
    assert_eq!(brti.align, 512);
    assert_eq!(brti.comp_sel, 84148994);
    assert_eq!(brti.parent_addr, 32);
    assert_eq!(brti.unk6, [0; 256]);
    assert_eq!(bntx.version, (0, 4));
    assert_eq!(bntx.header.revision, 0x400c);
    assert_eq!(bntx.header.reloc_table.count, 2);
    assert_eq!(bntx.header.reloc_table.sections.len(), 2);
    assert_eq!(bntx.header.reloc_table.entries.len(), 5);
    assert_eq!(bntx.header.reloc_table.sections[0].count, 4);
    assert_eq!(bntx.header.reloc_table.sections[1].index, 4);
    assert_eq!(bntx.header.reloc_table.entries[1].padding_count, 70);
    assert_eq!(bntx.header.str_section.str_count, 1);
}

#[test]
fn deswizzled_data_reports_the_errors_of_the_engine() {
    let mut bntx = Bntx::from_surface(small_surface(), "tex").unwrap();
    bntx.nx_header.brtd.image_data.truncate(100);
    assert_eq!(
        bntx.deswizzled_data(),
        Err(SwizzleError::NotEnoughData {
            expected_size: 512,
            actual_size: 100
        })
    );
    bntx.nx_header.brtis[0].brti.width = u32::MAX;
    assert_eq!(
        bntx.deswizzled_data(),
        Err(SwizzleError::InvalidSurface {
            width: u32::MAX,
            height: 4,
            depth: 1,
            bytes_per_pixel: 1,
            mipmap_count: 1
        })
    );
    assert_eq!(
        bntx.to_surface(),
        Err(CreateSurfaceError::SwizzleError(
            SwizzleError::InvalidSurface {
                width: u32::MAX,
                height: 4,
                depth: 1,
                bytes_per_pixel: 1,
                mipmap_count: 1
            }
        ))
    );
}

#[test]
fn getters_read_the_first_texture() {
    let mut bntx = Bntx::from_surface(small_surface(), "tex").unwrap();
    let brti = &mut bntx.nx_header.brtis[0].brti;
    brti.width = 11;
    brti.height = 12;
    brti.depth = 13;
    brti.layer_count = 14;
    brti.mipmap_count = 15;
    brti.image_format = SurfaceFormat::BC4Snorm;
    assert_eq!(bntx.width(), 11);
    assert_eq!(bntx.height(), 12);
    assert_eq!(bntx.depth(), 13);
    assert_eq!(bntx.layer_count(), 14);
    assert_eq!(bntx.mipmap_count(), 15);
    assert_eq!(bntx.image_format(), SurfaceFormat::BC4Snorm);
}

#[test]
fn surface_with_takes_the_size_of_the_first_texture() {
    let bntx = Bntx::from_tiled(
        8,
        9,
        10,
        11,
        12,
        SurfaceFormat::BC1Unorm,
        bntx::tiling::BlockHeight::One,
        vec![1, 2, 3],
        "name",
    );
    assert_eq!(
        bntx.surface_with(ImageFormat::BC1RgbaUnorm, vec![4, 5]),
        Surface {
            width: 8,
            height: 9,
            depth: 10,
            layers: 11,
            mipmaps: 12,
            image_format: ImageFormat::BC1RgbaUnorm,
            data: vec![4, 5],
        }
    );
}

#[test]
fn to_dds_holds_the_untiled_surface() {
    let surface = Surface {
        width: 64,
        height: 64,
        depth: 1,
        layers: 6,
        mipmaps: 3,
        image_format: ImageFormat::BC7RgbaUnormSrgb,
        data: (0..(256 + 64 + 16) * 16 * 6u32).map(|i| (i % 249) as u8).collect(),
    };
    let bntx = Bntx::from_surface(surface.clone(), "cube").unwrap();
    assert!(bntx.fits_dds());
    let dds = bntx.to_dds().unwrap();
    assert_eq!(dds.get_width(), 64);
    assert_eq!(dds.get_height(), 64);
    assert_eq!(dds.get_num_mipmap_levels(), 3);
    assert_eq!(dds.data, surface.data);
    let back = image_dds::Surface::from_dds(&dds).unwrap();
    assert_eq!(back.width, 64);
    assert_eq!(back.height, 64);
    assert_eq!(back.depth, 1);
    assert_eq!(back.layers, 6);
    assert_eq!(back.mipmaps, 3);
    assert_eq!(back.image_format, image_dds::ImageFormat::BC7RgbaUnormSrgb);
    assert_eq!(back.data, &surface.data[..]);
}

#[test]
fn to_dds_of_each_format() {
    let formats = [
        (ImageFormat::R8Unorm, image_dds::ImageFormat::R8Unorm, 1usize),
        (ImageFormat::Rgba8Unorm, image_dds::ImageFormat::Rgba8Unorm, 4),
        (ImageFormat::Rgba8UnormSrgb, image_dds::ImageFormat::Rgba8UnormSrgb, 4),
        (ImageFormat::Bgra8Unorm, image_dds::ImageFormat::Bgra8Unorm, 4),
        (ImageFormat::Bgra8UnormSrgb, image_dds::ImageFormat::Bgra8UnormSrgb, 4),
    ];
    for (format, expected, bytes) in formats {
        let surface = Surface {
            width: 4,
            height: 4,
            depth: 1,
            layers: 1,
            mipmaps: 1,
            image_format: format,
            data: vec![7; 16 * bytes],
        };
        let dds = Bntx::from_surface(surface, "tex").unwrap().to_dds().unwrap();
        let back = image_dds::Surface::from_dds(&dds).unwrap();
        assert_eq!(back.image_format, expected);
        assert_eq!(back.data.len(), 16 * bytes);
    }
    let blocks = [
        (ImageFormat::BC1RgbaUnorm, image_dds::ImageFormat::BC1RgbaUnorm, 8usize),
        (ImageFormat::BC1RgbaUnormSrgb, image_dds::ImageFormat::BC1RgbaUnormSrgb, 8),
        (ImageFormat::BC2RgbaUnorm, image_dds::ImageFormat::BC2RgbaUnorm, 16),
        (ImageFormat::BC2RgbaUnormSrgb, image_dds::ImageFormat::BC2RgbaUnormSrgb, 16),
        (ImageFormat::BC3RgbaUnorm, image_dds::ImageFormat::BC3RgbaUnorm, 16),
        (ImageFormat::BC3RgbaUnormSrgb, image_dds::ImageFormat::BC3RgbaUnormSrgb, 16),
        (ImageFormat::BC4RUnorm, image_dds::ImageFormat::BC4RUnorm, 8),
        (ImageFormat::BC4RSnorm, image_dds::ImageFormat::BC4RSnorm, 8),
        (ImageFormat::BC5RgUnorm, image_dds::ImageFormat::BC5RgUnorm, 16),
        (ImageFormat::BC5RgSnorm, image_dds::ImageFormat::BC5RgSnorm, 16),
        (ImageFormat::BC6hRgbUfloat, image_dds::ImageFormat::BC6hRgbUfloat, 16),
        (ImageFormat::BC6hRgbSfloat, image_dds::ImageFormat::BC6hRgbSfloat, 16),
        (ImageFormat::BC7RgbaUnorm, image_dds::ImageFormat::BC7RgbaUnorm, 16),
        (ImageFormat::BC7RgbaUnormSrgb, image_dds::ImageFormat::BC7RgbaUnormSrgb, 16),
    ];
    for (format, expected, bytes) in blocks {
        let surface = Surface {
            width: 8,
            height: 8,
            depth: 1,
            layers: 1,
            mipmaps: 1,
            image_format: format,
            data: vec![9; 4 * bytes],
        };
        let dds = Bntx::from_surface(surface, "tex").unwrap().to_dds().unwrap();
        let back = image_dds::Surface::from_dds(&dds).unwrap();
        assert_eq!(back.image_format, expected);
        assert_eq!(back.data.len(), 4 * bytes);
    }
}

#[test]
fn to_dds_reports_the_errors_before_the_codec() {
    let mut bntx = Bntx::from_surface(small_surface(), "tex").unwrap();
    bntx.nx_header.brtd.image_data.clear();
    assert!(bntx.fits_dds());
    assert!(matches!(
        bntx.to_dds(),
        Err(bntx::dds::CreateDdsError::SwizzleError(
            SwizzleError::NotEnoughData {
                expected_size: 512,
                actual_size: 0
            }
        ))
    ));
    bntx.nx_header.brtis[0].brti.image_format = SurfaceFormat::Unk1;
    assert!(bntx.fits_dds());
    assert!(matches!(
        bntx.to_dds(),
        Err(bntx::dds::CreateDdsError::Surface(
            CreateSurfaceError::UnsupportedSurfaceFormat(SurfaceFormat::Unk1)
        ))
    ));
}

#[test]
fn sizes_that_a_dds_document_cannot_hold() {
    let one = BlockDim::uncompressed();
    let bc = BlockDim::block_4x4();
    assert!(are_dds_sizes_in_range(16384, 16384, 1, 1, 15, one, 4));
    assert!(are_dds_sizes_in_range(16384, 16384, 1, 6, 15, one, 4));
    assert!(are_dds_sizes_in_range(16384, 16384, 1, 2, 15, one, 4));
    assert!(!are_dds_sizes_in_range(16384, 16384, 1, 3, 15, one, 4));
    assert!(!are_dds_sizes_in_range(32768, 24576, 1, 1, 1, one, 4));
    assert!(are_dds_sizes_in_range(32768, 24575, 1, 1, 1, one, 4));
    assert!(are_dds_sizes_in_range(0, 0, 0, 0, 0, one, 1));
    assert!(are_dds_sizes_in_range(16384, 16384, 1, 1, 1, bc, 16));
    assert!(!are_dds_sizes_in_range(u32::MAX, 1, 1, 1, 1, bc, 16));
    assert!(!are_dds_sizes_in_range(1, u32::MAX, 1, 1, 1, one, 1));
    assert!(!are_dds_sizes_in_range(0x2000_0000, 0, 1, 1, 1, one, 1));
    assert!(are_dds_sizes_in_range(0x1FFF_FFFF, 0, 1, 1, 1, one, 1));
    // 993 + 331 + 1 + 16 * 3 = 1373 for each of 3128162 layers.
    assert!(are_dds_sizes_in_range(993, 1, 1, 3_128_162, 3, one, 1));
    assert!(!are_dds_sizes_in_range(993, 1, 1, 3_128_163, 3, one, 1));
}
