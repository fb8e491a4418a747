use bntx::tiling::{
    base_block_height, block_height_mip0, calculate_mipmap_offsets, can_tile, can_untile,
    deswizzle_surface, mip_block_height, mipmap_offsets_fit, swizzle_surface, BlockHeight,
    SwizzleError, START_OF_TEXTURE_DATA,
};
use bntx::BlockDim;

#[test]
fn block_height_values() {
    assert_eq!(BlockHeight::One.gobs(), 1);
    assert_eq!(BlockHeight::ThirtyTwo.gobs(), 32);
    assert_eq!(BlockHeight::new(8), Some(BlockHeight::Eight));
    assert_eq!(BlockHeight::new(5), None);
    assert_eq!(BlockHeight::new(0), None);
    assert_eq!(BlockHeight::One.log2(), 0);
    assert_eq!(BlockHeight::Two.log2(), 1);
    assert_eq!(BlockHeight::Four.log2(), 2);
    assert_eq!(BlockHeight::Eight.log2(), 3);
    assert_eq!(BlockHeight::Sixteen.log2(), 4);
    assert_eq!(BlockHeight::ThirtyTwo.log2(), 5);
}

#[test]
fn block_height_of_the_base_level() {
    assert_eq!(block_height_mip0(0), BlockHeight::One);
    assert_eq!(block_height_mip0(36 / 4), BlockHeight::One);
    assert_eq!(block_height_mip0(40 / 4), BlockHeight::One);
    assert_eq!(block_height_mip0(48 / 4), BlockHeight::Two);
    assert_eq!(block_height_mip0(84 / 4), BlockHeight::Two);
    assert_eq!(block_height_mip0(96 / 4), BlockHeight::Four);
    assert_eq!(block_height_mip0(168 / 4), BlockHeight::Four);
    assert_eq!(block_height_mip0(176 / 4), BlockHeight::Eight);
    assert_eq!(block_height_mip0(340 / 4), BlockHeight::Eight);
    assert_eq!(block_height_mip0(360 / 4), BlockHeight::Sixteen);
    assert_eq!(block_height_mip0(1408 / 4), BlockHeight::Sixteen);
    assert_eq!(block_height_mip0(2_863_311_530), BlockHeight::Sixteen);
}

#[test]
fn block_height_of_a_mip_level() {
    assert_eq!(mip_block_height(8, BlockHeight::Sixteen), BlockHeight::One);
    assert_eq!(mip_block_height(9, BlockHeight::Sixteen), BlockHeight::Two);
    assert_eq!(mip_block_height(64, BlockHeight::Sixteen), BlockHeight::Eight);
    assert_eq!(
        mip_block_height(65, BlockHeight::Sixteen),
        BlockHeight::Sixteen
    );
    assert_eq!(mip_block_height(1, BlockHeight::One), BlockHeight::One);
    assert_eq!(
        mip_block_height(u32::MAX, BlockHeight::ThirtyTwo),
        BlockHeight::ThirtyTwo
    );
}

#[test]
fn base_block_height_rounds_the_height_up_to_blocks() {
    // 45 rows of blocks give 67 with their half, 44 rows give 66: both are
    // above 64. 42 rows give 63.
    let bc = BlockDim::block_4x4();
    assert_eq!(base_block_height(177, bc), Some(BlockHeight::Eight));
    assert_eq!(base_block_height(169, bc), Some(BlockHeight::Eight));
    assert_eq!(base_block_height(168, bc), Some(BlockHeight::Four));
    let one = BlockDim::uncompressed();
    assert_eq!(base_block_height(4, one), Some(BlockHeight::One));
    assert_eq!(base_block_height(0, one), Some(BlockHeight::One));
    assert_eq!(base_block_height(512, one), Some(BlockHeight::Sixteen));
    // The tallest surfaces whose rows of blocks are counted in 32 bits.
    assert_eq!(base_block_height(u32::MAX - 4, bc), Some(BlockHeight::Sixteen));
    assert_eq!(base_block_height(u32::MAX - 3, bc), None);
    assert_eq!(base_block_height(2863311530, one), Some(BlockHeight::Sixteen));
    assert_eq!(base_block_height(2863311531, one), None);
    let none = BlockDim {
        width: 1,
        height: 0,
        depth: 1,
    };
    assert_eq!(base_block_height(4, none), None);
}

#[test]
fn mip_offsets_start_at_the_texture_data() {
    let offsets = calculate_mipmap_offsets(
        1,
        4,
        BlockDim::uncompressed(),
        4,
        1,
        BlockHeight::One,
        1,
    );
    assert_eq!(offsets, vec![0x1000]);
    assert_eq!(START_OF_TEXTURE_DATA, 0xFF0 + 0x10);
}

#[test]
fn mip_offsets_of_no_levels() {
    let offsets = calculate_mipmap_offsets(
        0,
        4,
        BlockDim::uncompressed(),
        4,
        1,
        BlockHeight::One,
        1,
    );
    assert!(offsets.is_empty());
}

#[test]
fn mip_offsets_accumulate_the_tiled_sizes() {
    // 512x512 with 4 bytes per pixel and block height 16: the levels take
    // 1048576, 262144, 65536, 16384, 4096, 1024, 512, 512, 512 and 512 bytes.
    let offsets = calculate_mipmap_offsets(
        10,
        512,
        BlockDim::uncompressed(),
        512,
        1,
        BlockHeight::Sixteen,
        4,
    );
    let sizes: [u64; 9] = [1048576, 262144, 65536, 16384, 4096, 1024, 512, 512, 512];
    let mut expected = vec![0x1000u64];
    for size in sizes {
        expected.push(expected.last().unwrap() + size);
    }
    assert_eq!(offsets, expected);
}

#[test]
fn mip_offsets_agree_with_the_tiling_engine() {
    let (width, height, depth) = (300u32, 200u32, 1u32);
    let block_dim = BlockDim::block_4x4();
    let block_height = base_block_height(height, block_dim).unwrap();
    let offsets = calculate_mipmap_offsets(9, width, block_dim, height, depth, block_height, 16);
    let base = tegra_swizzle::BlockHeight::new(block_height.gobs()).unwrap();
    let mut expected = Vec::new();
    let mut offset = 0x1000u64;
    for mip in 0..9 {
        expected.push(offset);
        let w = tegra_swizzle::div_round_up((width >> mip).max(1), 4);
        let h = tegra_swizzle::div_round_up((height >> mip).max(1), 4);
        let level = tegra_swizzle::mip_block_height(h, base);
        offset += tegra_swizzle::swizzle::swizzled_mip_size(w, h, 1, level, 16) as u64;
    }
    assert_eq!(offsets, expected);
    for pair in offsets.windows(2) {
        assert!(pair[0] <= pair[1]);
    }
    let sizes = tegra_swizzle::surface::swizzled_surface_size(
        width,
        height,
        depth,
        tegra_swizzle::surface::BlockDim::block_4x4(),
        Some(base),
        16,
        9,
        1,
    );
    assert_eq!(offset - 0x1000, sizes as u64);
}

#[test]
fn mip_offsets_of_more_levels_than_the_surface_has() {
    let offsets = calculate_mipmap_offsets(
        40,
        8,
        BlockDim::uncompressed(),
        8,
        1,
        BlockHeight::One,
        4,
    );
    assert_eq!(offsets.len(), 40);
    // Every level of one block takes one GOB.
    for (i, offset) in offsets.iter().enumerate() {
        assert_eq!(*offset, 0x1000 + 512 * i as u64);
    }
}

#[test]
fn surfaces_that_are_tiled_without_overflow() {
    let one = BlockDim::uncompressed();
    let bc = BlockDim::block_4x4();
    let sixteen = BlockHeight::Sixteen;
    assert!(can_tile(16384, 16384, 1, 0, one, sixteen, 4, 1, 1));
    assert!(can_tile(16384, 16384, 1, 0, bc, sixteen, 16, 15, 6));
    assert!(can_untile(16384, 16384, 1, 0, bc, 16, 15, 6));
    assert!(mipmap_offsets_fit(15, 16384, bc, 16384, 1, sixteen, 16));
    // A row of 1048576 blocks of 16 bytes each, eight rows of them.
    assert!(can_tile(4_194_304, 32, 1, 0, bc, BlockHeight::One, 16, 1, 1));
    assert!(can_untile(4_194_304, 32, 1, 0, bc, 16, 1, 1));
    assert!(mipmap_offsets_fit(1, 4_194_304, bc, 32, 1, BlockHeight::One, 16));
    assert_eq!(
        swizzle_surface(4_194_304, 32, 1, &[], bc, BlockHeight::One, 16, 1, 1),
        Err(SwizzleError::NotEnoughData {
            expected_size: 134_217_728,
            actual_size: 0
        })
    );
    // The widest row that is rounded up to GOBs within 32 bits.
    assert!(can_tile(u32::MAX - 64, 1, 1, 4, one, BlockHeight::One, 1, 1, 1));
    assert!(!can_tile(u32::MAX - 63, 1, 1, 4, one, BlockHeight::One, 1, 1, 1));
    assert!(can_untile(u32::MAX - 64, 1, 1, 4, one, 1, 1, 1));
    assert!(!can_untile(u32::MAX - 63, 1, 1, 4, one, 1, 1, 1));
    assert!(mipmap_offsets_fit(2, u32::MAX - 64, one, 1, 1, BlockHeight::One, 1));
    assert!(!mipmap_offsets_fit(2, u32::MAX - 63, one, 1, 1, BlockHeight::One, 1));
    // Nothing is computed for an empty surface, nor for one that the
    // engine refuses by itself.
    assert!(can_tile(0, u32::MAX, 1, 0, one, BlockHeight::One, 1, 1, 1));
    assert!(can_untile(u32::MAX, u32::MAX, u32::MAX, 0, one, 1, 0, 1));
    assert!(can_tile(u32::MAX, 2, 1, 0, one, BlockHeight::One, 1, 1, 1));
    assert!(can_untile(4, 4, 1, 0, one, 1, 33, 1));
    // No surface is cut into blocks without extent.
    let none = BlockDim {
        width: 0,
        height: 1,
        depth: 1,
    };
    assert!(!can_tile(4, 4, 1, 16, none, BlockHeight::One, 1, 1, 1));
    assert!(!can_untile(4, 4, 1, 512, none, 1, 1, 1));
    assert!(!mipmap_offsets_fit(1, 4, none, 4, 1, BlockHeight::One, 1));
    // No level is laid out where none is asked for.
    assert!(mipmap_offsets_fit(0, 4, one, 4, 1, BlockHeight::One, 1));
}

/// Levels of four gibibytes and more are tiled where every position of a GOB
/// still fits in 32 bits, or where the data is too short for the engine to
/// start.
#[test]
fn levels_beyond_what_32_bits_address() {
    let one = BlockDim::uncompressed();
    let sixteen = BlockHeight::Sixteen;
    // 65536 rows of 65532 bytes: less than 32 bits hold untiled, 4 GiB
    // tiled, the last row of GOBs 8 MiB before the end.
    assert!(can_tile(16383, 65536, 1, 0, one, sixteen, 4, 1, 1));
    assert!(can_tile(16383, 65536, 1, usize::MAX, one, sixteen, 4, 1, 1));
    assert!(can_untile(16383, 65536, 1, usize::MAX, one, 4, 1, 1));
    assert!(mipmap_offsets_fit(2, 16383, one, 65536, 1, sixteen, 4));
    assert_eq!(
        calculate_mipmap_offsets(2, 16383, one, 65536, 1, sixteen, 4),
        vec![0x1000, 0x1000 + (1u64 << 32)]
    );
    // A column of 2^31 bytes, each in a row of 64: 256 GiB tiled.
    assert!(can_tile(1, 1 << 31, 1, 0, one, sixteen, 1, 1, 1));
    assert!(can_tile(1, 1 << 31, 1, (1 << 31) - 1, one, sixteen, 1, 1, 1));
    assert!(!can_tile(1, 1 << 31, 1, 1 << 31, one, sixteen, 1, 1, 1));
    assert!(can_untile(1, 1 << 31, 1, (1 << 37) - 1, one, 1, 1, 1));
    assert!(!can_untile(1, 1 << 31, 1, 1 << 37, one, 1, 1, 1));
    // The tallest column whose last row of GOBs lies within 32 bits: 2^19
    // blocks of 16 GOBs, each of 8192 bytes.
    assert!(can_tile(1, 1 << 26, 1, usize::MAX, one, sixteen, 1, 1, 1));
    assert!(!can_tile(1, (1 << 26) + 1, 1, usize::MAX, one, sixteen, 1, 1, 1));
    // Blocks of 16 slices, 2^20 bytes apart: the last of 4096 blocks lies
    // within 32 bits, one more lies beyond.
    assert!(can_tile(1, 1 << 10, 1 << 16, usize::MAX, one, sixteen, 1, 1, 1));
    assert!(!can_tile(1, 1 << 10, (1 << 16) + 1, usize::MAX, one, sixteen, 1, 1, 1));
}

#[test]
fn swizzle_refuses_what_would_overflow() {
    let one = BlockDim::uncompressed();
    assert_eq!(
        swizzle_surface(u32::MAX, 1, 1, &[0u8; 4], one, BlockHeight::One, 1, 1, 1),
        Err(SwizzleError::InvalidSurface {
            width: u32::MAX,
            height: 1,
            depth: 1,
            bytes_per_pixel: 1,
            mipmap_count: 1
        })
    );
    assert_eq!(
        deswizzle_surface(1, u32::MAX, 1, &[0u8; 4], one, 1, 2, 1),
        Err(SwizzleError::InvalidSurface {
            width: 1,
            height: u32::MAX,
            depth: 1,
            bytes_per_pixel: 1,
            mipmap_count: 2
        })
    );
}

#[test]
fn swizzle_reports_the_errors_of_the_engine() {
    let one = BlockDim::uncompressed();
    assert_eq!(
        swizzle_surface(4, 4, 1, &[0u8; 15], one, BlockHeight::One, 1, 1, 1),
        Err(SwizzleError::NotEnoughData {
            expected_size: 16,
            actual_size: 15
        })
    );
    assert_eq!(
        swizzle_surface(4, 4, 1, &[0u8; 64], one, BlockHeight::One, 1, 33, 1),
        Err(SwizzleError::InvalidSurface {
            width: 4,
            height: 4,
            depth: 1,
            bytes_per_pixel: 1,
            mipmap_count: 33
        })
    );
    assert_eq!(
        deswizzle_surface(4, 4, 1, &[0u8; 511], one, 1, 1, 1),
        Err(SwizzleError::NotEnoughData {
            expected_size: 512,
            actual_size: 511
        })
    );
}

#[test]
fn swizzle_of_an_empty_surface_is_empty() {
    let one = BlockDim::uncompressed();
    assert_eq!(
        swizzle_surface(0, 4, 1, &[], one, BlockHeight::One, 1, 1, 1),
        Ok(vec![])
    );
    assert_eq!(deswizzle_surface(4, 4, 1, &[], one, 1, 0, 1), Ok(vec![]));
}

#[test]
fn swizzle_rearranges_and_deswizzle_restores() {
    let one = BlockDim::uncompressed();
    let source: Vec<u8> = (0..128u32 * 16).map(|i| (i % 251) as u8).collect();
    let tiled = swizzle_surface(128, 16, 1, &source, one, BlockHeight::Two, 1, 1, 1).unwrap();
    assert_eq!(tiled.len(), 2048);
    assert_ne!(tiled, source);
    // The first 16 bytes of a GOB are the first 16 bytes of the first row;
    // the next 16 are the first 16 bytes of the second row.
    assert_eq!(&tiled[0..16], &source[0..16]);
    assert_eq!(&tiled[16..32], &source[128..144]);
    let expected = tegra_swizzle::surface::swizzle_surface(
        128,
        16,
        1,
        &source,
        tegra_swizzle::surface::BlockDim::uncompressed(),
        Some(tegra_swizzle::BlockHeight::Two),
        1,
        1,
        1,
    )
    .unwrap();
    assert_eq!(tiled, expected);
    assert_eq!(base_block_height(16, one), Some(BlockHeight::Two));
    let untiled = deswizzle_surface(128, 16, 1, &tiled, one, 1, 1, 1).unwrap();
    assert_eq!(untiled, source);
}

fn engine_error(e: tegra_swizzle::SwizzleError) -> SwizzleError {
    match e {
        tegra_swizzle::SwizzleError::NotEnoughData {
            expected_size,
            actual_size,
        } => SwizzleError::NotEnoughData {
            expected_size,
            actual_size,
        },
        tegra_swizzle::SwizzleError::InvalidSurface {
            width,
            height,
            depth,
            bytes_per_pixel,
            mipmap_count,
        } => SwizzleError::InvalidSurface {
            width,
            height,
            depth,
            bytes_per_pixel,
            mipmap_count,
        },
    }
}

/// Surfaces at the edge of what 32 bits hold, each with no data: whatever
/// the engine tiles without overflow is handed to it, and the rest is
/// refused as invalid.
#[test]
fn sizes_at_the_edge_of_what_fits() {
    let one = BlockDim::uncompressed();
    let bc = BlockDim::block_4x4();
    let dims: [u32; 15] = [
        0,
        1,
        2,
        3,
        5,
        9,
        11,
        17,
        255,
        4096,
        65535,
        1 << 20,
        1 << 26,
        u32::MAX - 300,
        u32::MAX - 10,
    ];
    let mut handed_on = 0;
    let mut refused = 0;
    for width in dims {
        for height in dims {
            for depth in [0u32, 1, 2, 5, 9, 16, 17, 100, 1 << 16] {
                for (block_dim, bytes) in [(one, 1u32), (one, 4), (bc, 8), (bc, 16)] {
                    for layers in [1u32, 6, 1 << 20] {
                        let block_height =
                            base_block_height(height, block_dim).unwrap_or(BlockHeight::One);
                        if mipmap_offsets_fit(
                            33, width, block_dim, height, depth, block_height, bytes,
                        ) {
                            let offsets = calculate_mipmap_offsets(
                                33, width, block_dim, height, depth, block_height, bytes,
                            );
                            assert_eq!(offsets.len(), 33);
                            assert_eq!(offsets[0], START_OF_TEXTURE_DATA);
                            assert!(offsets.windows(2).all(|w| w[0] <= w[1]));
                        }
                        let engine_dim = tegra_swizzle::surface::BlockDim {
                            width: std::num::NonZeroU32::new(block_dim.width).unwrap(),
                            height: std::num::NonZeroU32::new(block_dim.height).unwrap(),
                            depth: std::num::NonZeroU32::new(block_dim.depth).unwrap(),
                        };
                        for mips in [1u32, 32] {
                            let invalid = Err(SwizzleError::InvalidSurface {
                                width,
                                height,
                                depth,
                                bytes_per_pixel: bytes,
                                mipmap_count: mips,
                            });
                            let tiled = swizzle_surface(
                                width,
                                height,
                                depth,
                                &[],
                                block_dim,
                                block_height,
                                bytes,
                                mips,
                                layers,
                            );
                            if can_tile(
                                width,
                                height,
                                depth,
                                0,
                                block_dim,
                                block_height,
                                bytes,
                                mips,
                                layers,
                            ) {
                                handed_on += 1;
                                let engine = tegra_swizzle::surface::swizzle_surface(
                                    width,
                                    height,
                                    depth,
                                    &[],
                                    engine_dim,
                                    tegra_swizzle::BlockHeight::new(block_height.gobs()),
                                    bytes,
                                    mips,
                                    layers,
                                );
                                assert_eq!(tiled, engine.map_err(engine_error));
                            } else {
                                refused += 1;
                                assert_eq!(tiled, invalid);
                            }
                            let untiled = deswizzle_surface(
                                width, height, depth, &[], block_dim, bytes, mips, layers,
                            );
                            if can_untile(
                                width, height, depth, 0, block_dim, bytes, mips, layers,
                            ) {
                                let engine = tegra_swizzle::surface::deswizzle_surface(
                                    width, height, depth, &[], engine_dim, None, bytes, mips,
                                    layers,
                                );
                                assert_eq!(untiled, engine.map_err(engine_error));
                            } else {
                                assert_eq!(untiled, invalid);
                            }
                            if width == 0 || height == 0 || depth == 0 {
                                assert_eq!(tiled, Ok(vec![]));
                                assert_eq!(untiled, Ok(vec![]));
                            } else {
                                assert!(tiled.is_err());
                                assert!(untiled.is_err());
                            }
                        }
                    }
                }
            }
        }
    }
    assert!(handed_on > 1000);
    assert!(refused > 0);
}

/// The widest surfaces whose mip levels are laid out without overflow.
#[test]
fn widest_surfaces_that_fit() {
    let one = BlockDim::uncompressed();
    for (height, depth) in [(1u32, 1u32), (8, 1), (9, 1), (1, 2), (255, 3), (1, 1 << 10)] {
        let block_height = base_block_height(height, one).unwrap();
        let (mut low, mut high) = (0u64, u32::MAX as u64);
        while low < high {
            let mid = low + (high - low + 1) / 2;
            if mipmap_offsets_fit(32, mid as u32, one, height, depth, block_height, 1) {
                low = mid;
            } else {
                high = mid - 1;
            }
        }
        let width = low as u32;
        assert_eq!(width, u32::MAX - 64);
        let offsets = calculate_mipmap_offsets(32, width, one, height, depth, block_height, 1);
        assert_eq!(offsets.len(), 32);
        assert!(offsets.windows(2).all(|w| w[0] <= w[1]));
        assert!(swizzle_surface(width, height, depth, &[], one, block_height, 1, 32, 1).is_err());
        assert!(deswizzle_surface(width, height, depth, &[], one, 1, 32, 1).is_err());
    }
}
