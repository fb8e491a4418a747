//! The geometry of tiled surfaces: block heights, the size of a tiled mip
//! level, the offsets of the mip levels inside the payload, and the calls into
//! the tiling engine that rearranges the bytes.
use vstd::arithmetic::div_mod::{
    lemma_div_is_ordered, lemma_div_pos_is_pos, lemma_fundamental_div_mod,
    lemma_fundamental_div_mod_converse, lemma_mod_bound,
};
use vstd::arithmetic::mul::lemma_mul_inequality;
use vstd::prelude::*;
use crate::format::BlockDim;

verus! {

/// Where the payload block begins in a file.
pub const BRTD_SECTION_START: u64 = 0xFF0;

/// The size of the payload block's header.
pub const SIZE_OF_BRTD: u64 = 0x10;

/// Where the first byte of texture data lies in a file.
pub const START_OF_TEXTURE_DATA: u64 = BRTD_SECTION_START + SIZE_OF_BRTD;

/// The height of a block in GOBs, a GOB being 64 bytes wide and 8 rows tall.
#[derive(Debug, Clone, Copy, PartialEq, Eq, Structural)]
pub enum BlockHeight {
    One,
    Two,
    Four,
    Eight,
    Sixteen,
    ThirtyTwo,
}

/// What the tiling engine reports when it cannot tile or untile a surface.
#[derive(Debug, Clone, Copy, PartialEq, Eq, Structural)]
pub enum SwizzleError {
    /// The source holds fewer bytes than the surface needs.
    NotEnoughData { expected_size: usize, actual_size: usize },
    /// The sizes of the surface cannot be computed without overflow.
    InvalidSurface { width: u32, height: u32, depth: u32, bytes_per_pixel: u32, mipmap_count: u32 },
}

/// The heights in GOBs that a block can have.
pub open spec fn is_gob_height(gobs: int) -> bool {
    gobs == 1 || gobs == 2 || gobs == 4 || gobs == 8 || gobs == 16 || gobs == 32
}

impl BlockHeight {
    /// The number of GOBs stacked in a block.
    pub open spec fn spec_gobs(self) -> u32 {
        match self {
            BlockHeight::One => 1,
            BlockHeight::Two => 2,
            BlockHeight::Four => 4,
            BlockHeight::Eight => 8,
            BlockHeight::Sixteen => 16,
            BlockHeight::ThirtyTwo => 32,
        }
    }

    /// The block height of `gobs` GOBs, `One` where there is none.
    pub open spec fn spec_from_gobs(gobs: int) -> BlockHeight {
        if gobs == 2 {
            BlockHeight::Two
        } else if gobs == 4 {
            BlockHeight::Four
        } else if gobs == 8 {
            BlockHeight::Eight
        } else if gobs == 16 {
            BlockHeight::Sixteen
        } else if gobs == 32 {
            BlockHeight::ThirtyTwo
        } else {
            BlockHeight::One
        }
    }

    /// The base-two logarithm of the number of GOBs, as a descriptor stores it.
    pub open spec fn spec_log2(self) -> u32 {
        match self {
            BlockHeight::One => 0,
            BlockHeight::Two => 1,
            BlockHeight::Four => 2,
            BlockHeight::Eight => 3,
            BlockHeight::Sixteen => 4,
            BlockHeight::ThirtyTwo => 5,
        }
    }

    #[verifier::when_used_as_spec(spec_gobs)]
    pub fn gobs(self) -> (r: u32)
        ensures
            r == self.spec_gobs(),
            is_gob_height(r as int),
    {
        match self {
            BlockHeight::One => 1,
            BlockHeight::Two => 2,
            BlockHeight::Four => 4,
            BlockHeight::Eight => 8,
            BlockHeight::Sixteen => 16,
            BlockHeight::ThirtyTwo => 32,
        }
    }

    /// The block height of `gobs` GOBs, if `gobs` is one of the six heights.
    pub fn new(gobs: u32) -> (r: Option<BlockHeight>)
        ensures
            is_gob_height(gobs as int) ==> r == Some(Self::spec_from_gobs(gobs as int)),
            !is_gob_height(gobs as int) ==> r is None,
            r matches Some(b) ==> b.spec_gobs() == gobs,
    {
        if gobs == 1 {
            Some(BlockHeight::One)
        } else if gobs == 2 {
            Some(BlockHeight::Two)
        } else if gobs == 4 {
            Some(BlockHeight::Four)
        } else if gobs == 8 {
            Some(BlockHeight::Eight)
        } else if gobs == 16 {
            Some(BlockHeight::Sixteen)
        } else if gobs == 32 {
            Some(BlockHeight::ThirtyTwo)
        } else {
            None
        }
    }

    #[verifier::when_used_as_spec(spec_log2)]
    pub fn log2(self) -> (r: u32)
        ensures
            r == self.spec_log2(),
    {
        match self {
            BlockHeight::One => 0,
            BlockHeight::Two => 1,
            BlockHeight::Four => 2,
            BlockHeight::Eight => 3,
            BlockHeight::Sixteen => 4,
            BlockHeight::ThirtyTwo => 5,
        }
    }
}

/// The quotient of `x` by `d`, rounded up.
pub open spec fn spec_div_round_up(x: int, d: int) -> int {
    (x + d - 1) / d
}

/// The block height, in GOBs, of the base level of a surface that is
/// `height` rows of blocks tall.
pub open spec fn spec_block_height_mip0(height: int) -> int {
    let height_and_half = height + height / 2;
    if height_and_half >= 128 {
        16
    } else if height_and_half >= 64 {
        8
    } else if height_and_half >= 32 {
        4
    } else if height_and_half >= 16 {
        2
    } else {
        1
    }
}

/// The block height, in GOBs, of a mip level `mip_height` rows tall: the base
/// height `gobs`, halved while the level still fits in half a block.
pub open spec fn spec_mip_block_height(mip_height: int, gobs: int) -> int
    decreases gobs,
{
    if gobs > 1 && mip_height <= (gobs / 2) * 8 {
        spec_mip_block_height(mip_height, gobs / 2)
    } else {
        gobs
    }
}

/// The depth of a block, in GOBs, of a level `depth` slices deep.
pub open spec fn spec_block_depth(depth: int) -> int {
    let depth_and_half = depth + depth / 2;
    if depth_and_half >= 16 {
        16
    } else if depth_and_half >= 8 {
        8
    } else if depth_and_half >= 4 {
        4
    } else if depth_and_half >= 2 {
        2
    } else {
        1
    }
}

/// The depth in GOBs of a level `depth` slices deep: its depth rounded up to
/// whole blocks.
pub open spec fn spec_depth_in_gobs(depth: int) -> int {
    let block_depth = spec_block_depth(depth);
    ((depth + block_depth - 1) / block_depth) * block_depth
}

/// The depth of the blocks, in GOBs, with which a level `mip_depth` slices
/// deep is addressed: the block depth `gob_depth` of the base level, halved
/// while the level is at most half a block deep.
pub open spec fn spec_mip_block_depth(mip_depth: int, gob_depth: int) -> int
    decreases gob_depth,
{
    if gob_depth > 1 && mip_depth <= gob_depth / 2 {
        spec_mip_block_depth(mip_depth, gob_depth / 2)
    } else {
        gob_depth
    }
}

/// The position of item `i` where `block` items make a block, the blocks
/// lie `stride` bytes apart and the items of a block `step` bytes. The tiling
/// engine computes the position of a row of GOBs and of a slice in this way,
/// in 32 bits.
pub open spec fn position(i: int, block: int, stride: int, step: int) -> int {
    (i / block) * stride + (i % block) * step
}

/// Whether the positions of the first `n` items fit in 32 bits.
pub open spec fn positions_fit(n: int, block: int, stride: int, step: int) -> bool {
    forall|i: int| 0 <= i < n ==> #[trigger] position(i, block, stride, step) <= u32::MAX
}

/// The bytes that a tiled mip level takes: its width, height and depth in
/// GOBs, each rounded up to whole blocks, times the 512 bytes of a GOB.
pub open spec fn spec_swizzled_mip_size(
    width: int,
    height: int,
    depth: int,
    gobs: int,
    bytes_per_pixel: int,
) -> int {
    let width_in_gobs = (width * bytes_per_pixel + 63) / 64;
    let height_in_blocks = (height + gobs * 8 - 1) / (gobs * 8);
    let height_in_gobs = height_in_blocks * gobs;
    width_in_gobs * height_in_gobs * spec_depth_in_gobs(depth) * 512
}

/// `x` halved `mip` times, each time rounding down.
pub open spec fn halved(x: int, mip: nat) -> int
    decreases mip,
{
    if mip == 0 {
        x
    } else {
        halved(x, (mip - 1) as nat) / 2
    }
}

/// `x`, or 1 where `x` is less.
pub open spec fn at_least_one(x: int) -> int {
    if x > 1 {
        x
    } else {
        1
    }
}

/// The extent in blocks of mip level `mip` along an axis of `x` pixels
/// with blocks of `block` pixels: `x` halved `mip` times, at least 1, and
/// rounded up to whole blocks.
pub open spec fn mip_extent(x: int, mip: nat, block: int) -> int {
    spec_div_round_up(at_least_one(halved(x, mip)), block)
}

/// The tiled size in bytes of mip level `mip` of a surface.
pub open spec fn mip_size(
    width: u32,
    height: u32,
    depth: u32,
    block_dim: BlockDim,
    gobs: int,
    bytes_per_pixel: u32,
    mip: nat,
) -> int {
    let mip_height = mip_extent(height as int, mip, block_dim.height as int);
    spec_swizzled_mip_size(
        mip_extent(width as int, mip, block_dim.width as int),
        mip_height,
        mip_extent(depth as int, mip, block_dim.depth as int),
        spec_mip_block_height(mip_height, gobs),
        bytes_per_pixel as int,
    )
}

/// A surface as the tiling engine sizes it: its extents in pixels, the block
/// of its format, the block height of its base level in GOBs, and the bytes
/// of a pixel or block.
pub struct Levels {
    pub width: u32,
    pub height: u32,
    pub depth: u32,
    pub block_dim: BlockDim,
    pub gobs: int,
    pub bytes_per_pixel: u32,
}

impl Levels {
    /// The tiled size in bytes of mip level `mip`.
    pub open spec fn size(self, mip: nat) -> int {
        mip_size(
            self.width,
            self.height,
            self.depth,
            self.block_dim,
            self.gobs,
            self.bytes_per_pixel,
            mip,
        )
    }

    /// The untiled size in bytes of mip level `mip`: its blocks times the
    /// bytes of a block.
    pub open spec fn untiled_size(self, mip: nat) -> int {
        mip_extent(self.width as int, mip, self.block_dim.width as int) * mip_extent(
            self.height as int,
            mip,
            self.block_dim.height as int,
        ) * mip_extent(self.depth as int, mip, self.block_dim.depth as int) * self.bytes_per_pixel
    }

    /// The tiled size in bytes of the first `mips` levels together.
    pub open spec fn tiled_sum(self, mips: nat) -> int
        decreases mips,
    {
        if mips == 0 {
            0
        } else {
            self.tiled_sum((mips - 1) as nat) + self.size((mips - 1) as nat)
        }
    }

    /// The untiled size in bytes of the first `mips` levels together.
    pub open spec fn untiled_sum(self, mips: nat) -> int
        decreases mips,
    {
        if mips == 0 {
            0
        } else {
            self.untiled_sum((mips - 1) as nat) + self.untiled_size((mips - 1) as nat)
        }
    }

    /// Whether the extents of the base level can be rounded up to blocks
    /// within 32 bits.
    pub open spec fn blocks_fit(self) -> bool {
        &&& self.block_dim.wf()
        &&& is_gob_height(self.gobs)
        &&& at_least_one(self.width as int) + self.block_dim.width <= u32::MAX
        &&& at_least_one(self.height as int) + self.block_dim.height <= u32::MAX
        &&& at_least_one(self.depth as int) + self.block_dim.depth <= u32::MAX
    }

    /// Whether the size of mip level `mip` is computed without overflow:
    /// the sums with which its extents are rounded up to GOBs and blocks fit
    /// in 32 bits, and its tiled size fits in `usize`.
    pub open spec fn level_fits(self, mip: nat) -> bool {
        let mip_width = mip_extent(self.width as int, mip, self.block_dim.width as int);
        let mip_height = mip_extent(self.height as int, mip, self.block_dim.height as int);
        let mip_depth = mip_extent(self.depth as int, mip, self.block_dim.depth as int);
        &&& mip_width * self.bytes_per_pixel + 64 <= u32::MAX
        &&& mip_height + 8 * spec_mip_block_height(mip_height, self.gobs) <= u32::MAX
        &&& mip_depth + mip_depth / 2 <= u32::MAX
        &&& spec_depth_in_gobs(mip_depth) <= u32::MAX
        &&& self.size(mip) <= usize::MAX
    }

    /// Whether the sizes of the first `mips` levels and each of their
    /// running sums are computed without overflow.
    pub open spec fn fit(self, mips: nat) -> bool
        decreases mips,
    {
        mips == 0 || (self.fit((mips - 1) as nat) && self.level_fits((mips - 1) as nat)
            && self.tiled_sum(mips) <= usize::MAX)
    }

    /// Whether the tiling engine addresses the GOBs of mip level `mip`
    /// within 32 bits. It computes in 32 bits the bytes of a row of blocks,
    /// the position of each row of GOBs, and the position of each slice, the
    /// last with the size of a slice cut to 32 bits.
    pub open spec fn level_addressed(self, mip: nat) -> bool {
        let mip_width = mip_extent(self.width as int, mip, self.block_dim.width as int);
        let mip_height = mip_extent(self.height as int, mip, self.block_dim.height as int);
        let mip_depth = mip_extent(self.depth as int, mip, self.block_dim.depth as int);
        let gobs = spec_mip_block_height(mip_height, self.gobs);
        let block_depth = spec_mip_block_depth(mip_depth, spec_block_depth(self.depth as int));
        let width_in_gobs = (mip_width * self.bytes_per_pixel + 63) / 64;
        let rows = (mip_height + 8 * gobs - 1) / (8 * gobs);
        let row = 512 * gobs * block_depth * width_in_gobs;
        let slice = (rows * row) % 0x1_0000_0000;
        &&& row <= u32::MAX
        &&& positions_fit((mip_height - 1) / 8 + 1, gobs, row, 512)
        &&& positions_fit(mip_depth, block_depth, slice, 512 * gobs)
    }

    /// Whether the tiling engine addresses the GOBs of each of the first
    /// `mips` levels within 32 bits.
    pub open spec fn addressable(self, mips: nat) -> bool
        decreases mips,
    {
        mips == 0 || (self.addressable((mips - 1) as nat) && self.level_addressed(
            (mips - 1) as nat,
        ))
    }

    /// The tiled size of one of several array layers: that of its levels,
    /// rounded up to whole blocks of the height that fits the surface.
    pub open spec fn aligned_layer(self, mips: nat) -> int {
        let block = spec_mip_block_height(self.height as int, self.gobs) * 512;
        ((self.tiled_sum(mips) + block - 1) / block) * block
    }

    /// The tiled size in bytes of a surface of `layers` array layers.
    pub open spec fn tiled_surface(self, mips: nat, layers: u32) -> int {
        if layers > 1 {
            self.aligned_layer(mips) * layers
        } else {
            self.tiled_sum(mips)
        }
    }

    /// The untiled size in bytes of a surface of `layers` array layers.
    pub open spec fn untiled_surface(self, mips: nat, layers: u32) -> int {
        self.untiled_sum(mips) * layers
    }

    /// Whether the tiled and the untiled size of a surface are computed
    /// without overflow.
    pub open spec fn sizes_fit(self, mips: nat, layers: u32) -> bool {
        &&& self.blocks_fit()
        &&& self.fit(mips)
        &&& self.untiled_sum(mips) <= usize::MAX
        &&& self.tiled_surface(mips, layers) <= usize::MAX
        &&& self.untiled_surface(mips, layers) <= usize::MAX
    }
}

/// The offset in the file of mip level `mip`: the start of the texture data
/// plus the tiled sizes of all levels before it.
pub open spec fn mip_offset(
    width: u32,
    height: u32,
    depth: u32,
    block_dim: BlockDim,
    gobs: int,
    bytes_per_pixel: u32,
    mip: nat,
) -> int {
    START_OF_TEXTURE_DATA + (Levels {
        width,
        height,
        depth,
        block_dim,
        gobs,
        bytes_per_pixel,
    }).tiled_sum(mip)
}

/// The surfaces whose mip offsets are computed without overflow: the size of
/// every level and every running sum fits in `usize`, and every offset in 64
/// bits.
pub open spec fn offsets_fit(
    mipmap_count: u32,
    width: u32,
    block_dim: BlockDim,
    height: u32,
    depth: u32,
    gobs: int,
    bytes_per_pixel: u32,
) -> bool {
    let levels = Levels { width, height, depth, block_dim, gobs, bytes_per_pixel };
    &&& levels.blocks_fit()
    &&& levels.fit(mipmap_count as nat)
    &&& mipmap_count > 0 ==> START_OF_TEXTURE_DATA + levels.tiled_sum((mipmap_count - 1) as nat)
        <= u64::MAX
}

/// Whether one of the sizes or counts of a surface is zero: the tiling engine
/// gives no bytes for such a surface.
pub open spec fn surface_is_empty(
    width: u32,
    height: u32,
    depth: u32,
    bytes_per_pixel: u32,
    mipmap_count: u32,
    layer_count: u32,
) -> bool {
    width == 0 || height == 0 || depth == 0 || bytes_per_pixel == 0 || mipmap_count == 0
        || layer_count == 0
}

/// The surfaces that pass the tiling engine's own test: the bytes of the
/// base level and those of one of its rows fit in 32 bits, so does the depth
/// with its half, and there are at most 32 mip levels. The engine refuses
/// every other surface that is not empty.
pub open spec fn surface_is_valid(
    width: u32,
    height: u32,
    depth: u32,
    bytes_per_pixel: u32,
    mipmap_count: u32,
) -> bool {
    &&& width * height * depth * bytes_per_pixel <= u32::MAX
    &&& width * bytes_per_pixel <= u32::MAX
    &&& depth + depth / 2 <= u32::MAX
    &&& mipmap_count <= 32
}

/// The block height with which the tiling engine tiles the base level: the
/// one it is given for a surface of depth 1, and 1 for any other.
pub open spec fn engine_gobs(depth: u32, gobs: int) -> int {
    if depth == 1 {
        gobs
    } else {
        1
    }
}

/// The block height that the base level of a surface gets where none is
/// given: the one that fits its height in blocks.
pub open spec fn base_gobs(height: u32, block_dim: BlockDim) -> int {
    spec_block_height_mip0(spec_div_round_up(height as int, block_dim.height as int))
}

/// Whether the block height of the base level of a surface is computed
/// without overflow.
pub open spec fn base_gobs_fit(height: u32, block_dim: BlockDim) -> bool {
    let rows = spec_div_round_up(height as int, block_dim.height as int);
    block_dim.height > 0 && height + block_dim.height <= u32::MAX && rows + rows / 2 <= u32::MAX
}

/// The surfaces that the tiling engine tiles without overflow: the empty
/// ones and those that fail its own test, for which it computes nothing, and
/// those whose sizes it computes within `usize` and whose GOBs it addresses
/// within 32 bits, unless `source_len` bytes are too few for it to address
/// any.
pub open spec fn tiling_fits(
    width: u32,
    height: u32,
    depth: u32,
    source_len: nat,
    block_dim: BlockDim,
    gobs: int,
    bytes_per_pixel: u32,
    mipmap_count: u32,
    layer_count: u32,
) -> bool {
    let levels = Levels {
        width,
        height,
        depth,
        block_dim,
        gobs: engine_gobs(depth, gobs),
        bytes_per_pixel,
    };
    &&& block_dim.wf()
    &&& is_gob_height(gobs)
    &&& surface_is_empty(width, height, depth, bytes_per_pixel, mipmap_count, layer_count)
        || !surface_is_valid(width, height, depth, bytes_per_pixel, mipmap_count) || {
        &&& levels.sizes_fit(mipmap_count as nat, layer_count)
        &&& source_len < levels.untiled_surface(mipmap_count as nat, layer_count)
            || levels.addressable(mipmap_count as nat)
    }
}

/// The surfaces that the tiling engine untiles without overflow where it
/// infers the block height of the base level itself: as for tiling, with the
/// block height that fits the surface, and with the tiled size in place of
/// the untiled.
pub open spec fn untiling_fits(
    width: u32,
    height: u32,
    depth: u32,
    source_len: nat,
    block_dim: BlockDim,
    bytes_per_pixel: u32,
    mipmap_count: u32,
    layer_count: u32,
) -> bool {
    let levels = Levels {
        width,
        height,
        depth,
        block_dim,
        gobs: engine_gobs(depth, base_gobs(height, block_dim)),
        bytes_per_pixel,
    };
    &&& block_dim.wf()
    &&& surface_is_empty(width, height, depth, bytes_per_pixel, mipmap_count, layer_count)
        || !surface_is_valid(width, height, depth, bytes_per_pixel, mipmap_count) || {
        &&& depth == 1 ==> base_gobs_fit(height, block_dim)
        &&& levels.sizes_fit(mipmap_count as nat, layer_count)
        &&& source_len < levels.tiled_surface(mipmap_count as nat, layer_count)
            || levels.addressable(mipmap_count as nat)
    }
}

/// What the tiling engine returns for a surface that it is asked to tile,
/// given the untiled bytes, the block of the format, the block height of the
/// base level in GOBs, and the counts of mip levels and layers.
pub uninterp spec fn swizzled_surface(
    width: u32,
    height: u32,
    depth: u32,
    source: Seq<u8>,
    block_dim: BlockDim,
    gobs: u32,
    bytes_per_pixel: u32,
    mipmap_count: u32,
    layer_count: u32,
) -> Result<Seq<u8>, SwizzleError>;

/// What the tiling engine returns for a surface that it is asked to untile,
/// when it infers the block height of the base level itself.
pub uninterp spec fn deswizzled_surface(
    width: u32,
    height: u32,
    depth: u32,
    source: Seq<u8>,
    block_dim: BlockDim,
    bytes_per_pixel: u32,
    mipmap_count: u32,
    layer_count: u32,
) -> Result<Seq<u8>, SwizzleError>;

/// The view of a result of the tiling engine.
pub open spec fn tiling_result_view(r: Result<Vec<u8>, SwizzleError>) -> Result<
    Seq<u8>,
    SwizzleError,
> {
    match r {
        Ok(data) => Ok(data@),
        Err(e) => Err(e),
    }
}

/// Calls `tegra_swizzle::div_round_up`, which computes `(x + d - 1) / d` in
/// `u32`. The sum must not overflow and `d` must not be zero.
#[verifier::external_body]
fn tegra_div_round_up(x: u32, d: u32) -> (r: u32)
    requires
        d > 0,
        x + d <= u32::MAX,
    ensures
        r == spec_div_round_up(x as int, d as int),
{
    tegra_swizzle::div_round_up(x, d)
}

/// Calls `tegra_swizzle::block_height_mip0`, which picks the block height of
/// the base level from `height + height / 2`, and gives its number of GOBs.
/// The sum must not overflow.
#[verifier::external_body]
fn tegra_block_height_mip0(height: u32) -> (gobs: u32)
    requires
        height + height / 2 <= u32::MAX,
    ensures
        gobs == spec_block_height_mip0(height as int),
{
    tegra_swizzle::block_height_mip0(height) as u32
}

/// Calls `tegra_swizzle::mip_block_height`, which halves the base block
/// height while `mip_height` is at most half a block tall, and gives the
/// number of GOBs that is left.
#[verifier::external_body]
fn tegra_mip_block_height(mip_height: u32, gobs: u32) -> (r: u32)
    requires
        is_gob_height(gobs as int),
    ensures
        r == spec_mip_block_height(mip_height as int, gobs as int),
{
    let base = tegra_swizzle::BlockHeight::new(gobs).unwrap();
    tegra_swizzle::mip_block_height(mip_height, base) as u32
}

/// Calls `tegra_swizzle::swizzle::swizzled_mip_size`, which multiplies the
/// width, height and depth of a level in GOBs by the 512 bytes of a GOB. The
/// level must not be empty, the sums that it rounds up with must fit in `u32`
/// and the product in `usize`.
#[verifier::external_body]
fn tegra_swizzled_mip_size(width: u32, height: u32, depth: u32, gobs: u32, bytes_per_pixel: u32) -> (r: usize)
    requires
        is_gob_height(gobs as int),
        width >= 1,
        height >= 1,
        depth >= 1,
        width * bytes_per_pixel + 64 <= u32::MAX,
        height + gobs * 8 <= u32::MAX,
        depth + depth / 2 <= u32::MAX,
        spec_depth_in_gobs(depth as int) <= u32::MAX,
        spec_swizzled_mip_size(
            width as int,
            height as int,
            depth as int,
            gobs as int,
            bytes_per_pixel as int,
        ) <= usize::MAX,
    ensures
        r == spec_swizzled_mip_size(
            width as int,
            height as int,
            depth as int,
            gobs as int,
            bytes_per_pixel as int,
        ),
{
    let block_height = tegra_swizzle::BlockHeight::new(gobs).unwrap();
    tegra_swizzle::swizzle::swizzled_mip_size(width, height, depth, block_height, bytes_per_pixel)
}

/// Calls `tegra_swizzle::surface::swizzle_surface` with the block height of
/// the base level given, and names what it returns. The surface must be one
/// that the engine tiles without overflow.
#[verifier::external_body]
fn tegra_swizzle_surface(
    width: u32,
    height: u32,
    depth: u32,
    source: &[u8],
    block_dim: BlockDim,
    gobs: u32,
    bytes_per_pixel: u32,
    mipmap_count: u32,
    layer_count: u32,
) -> (r: Result<Vec<u8>, SwizzleError>)
    requires
        tiling_fits(
            width,
            height,
            depth,
            source@.len(),
            block_dim,
            gobs as int,
            bytes_per_pixel,
            mipmap_count,
            layer_count,
        ),
    ensures
        tiling_result_view(r) == swizzled_surface(
            width,
            height,
            depth,
            source@,
            block_dim,
            gobs,
            bytes_per_pixel,
            mipmap_count,
            layer_count,
        ),
{
    let dim = tegra_swizzle::surface::BlockDim {
        width: std::num::NonZeroU32::new(block_dim.width).unwrap(),
        height: std::num::NonZeroU32::new(block_dim.height).unwrap(),
        depth: std::num::NonZeroU32::new(block_dim.depth).unwrap(),
    };
    let bh = tegra_swizzle::BlockHeight::new(gobs);
    match tegra_swizzle::surface::swizzle_surface(width, height, depth, source, dim, bh, bytes_per_pixel, mipmap_count, layer_count) {
        Ok(data) => Ok(data),
        Err(tegra_swizzle::SwizzleError::NotEnoughData { expected_size, actual_size }) => Err(SwizzleError::NotEnoughData { expected_size, actual_size }),
        Err(tegra_swizzle::SwizzleError::InvalidSurface { width, height, depth, bytes_per_pixel, mipmap_count }) => Err(SwizzleError::InvalidSurface { width, height, depth, bytes_per_pixel, mipmap_count }),
    }
}

/// Calls `tegra_swizzle::surface::deswizzle_surface` without a block height,
/// which the engine then infers, and names what it returns. The surface must
/// be one that the engine untiles without overflow.
#[verifier::external_body]
fn tegra_deswizzle_surface(
    width: u32,
    height: u32,
    depth: u32,
    source: &[u8],
    block_dim: BlockDim,
    bytes_per_pixel: u32,
    mipmap_count: u32,
    layer_count: u32,
) -> (r: Result<Vec<u8>, SwizzleError>)
    requires
        untiling_fits(
            width,
            height,
            depth,
            source@.len(),
            block_dim,
            bytes_per_pixel,
            mipmap_count,
            layer_count,
        ),
    ensures
        tiling_result_view(r) == deswizzled_surface(
            width,
            height,
            depth,
            source@,
            block_dim,
            bytes_per_pixel,
            mipmap_count,
            layer_count,
        ),
{
    let dim = tegra_swizzle::surface::BlockDim {
        width: std::num::NonZeroU32::new(block_dim.width).unwrap(),
        height: std::num::NonZeroU32::new(block_dim.height).unwrap(),
        depth: std::num::NonZeroU32::new(block_dim.depth).unwrap(),
    };
    match tegra_swizzle::surface::deswizzle_surface(width, height, depth, source, dim, None, bytes_per_pixel, mipmap_count, layer_count) {
        Ok(data) => Ok(data),
        Err(tegra_swizzle::SwizzleError::NotEnoughData { expected_size, actual_size }) => Err(SwizzleError::NotEnoughData { expected_size, actual_size }),
        Err(tegra_swizzle::SwizzleError::InvalidSurface { width, height, depth, bytes_per_pixel, mipmap_count }) => Err(SwizzleError::InvalidSurface { width, height, depth, bytes_per_pixel, mipmap_count }),
    }
}

/// Halving never grows a size and never makes it negative.
pub proof fn lemma_halved_bounds(x: int, mip: nat)
    requires
        0 <= x,
    ensures
        0 <= halved(x, mip) <= x,
        halved(x, mip + 1) == halved(x, mip) / 2,
    decreases mip,
{
    if mip > 0 {
        lemma_halved_bounds(x, (mip - 1) as nat);
    }
}

/// No mip level extends over more blocks than the base level, and each
/// extends over at least one.
pub proof fn lemma_mip_extent_bounds(x: int, mip: nat, block: int)
    requires
        0 <= x,
        0 < block,
    ensures
        1 <= mip_extent(x, mip, block) <= mip_extent(x, 0, block),
        mip_extent(x, 0, block) <= at_least_one(x),
{
    lemma_halved_bounds(x, mip);
    let a = at_least_one(halved(x, mip));
    let b = at_least_one(x);
    assert(halved(x, 0) == x);
    assert(1 <= a <= b);
    assert((a + block - 1) / block <= (b + block - 1) / block) by (nonlinear_arith)
        requires
            a <= b,
            0 < block,
    ;
    assert(1 <= (a + block - 1) / block) by (nonlinear_arith)
        requires
            1 <= a,
            0 < block,
    ;
    assert((b + block - 1) / block <= b) by (nonlinear_arith)
        requires
            1 <= b,
            0 < block,
    ;
}

/// The block height of a mip level is one of the six heights and no more
/// than that of the base level.
pub proof fn lemma_mip_block_height_bounds(mip_height: int, gobs: int)
    requires
        is_gob_height(gobs),
    ensures
        is_gob_height(spec_mip_block_height(mip_height, gobs)),
        spec_mip_block_height(mip_height, gobs) <= gobs,
    decreases gobs,
{
    if gobs > 1 && mip_height <= (gobs / 2) * 8 {
        lemma_mip_block_height_bounds(mip_height, gobs / 2);
    }
}

/// The depth in GOBs of a level is 1, 2, 4 or 8 for the smallest depths and
/// the next multiple of 16 for the others. It is no less than the depth, and
/// no less for a deeper level.
pub proof fn lemma_depth_in_gobs(depth: int)
    requires
        1 <= depth,
    ensures
        spec_depth_in_gobs(depth) == if depth >= 11 {
            ((depth + 15) / 16) * 16
        } else if depth >= 9 {
            16
        } else if depth >= 5 {
            8
        } else if depth >= 3 {
            4
        } else {
            depth
        },
        depth <= spec_depth_in_gobs(depth) <= depth + 15,
{
    if depth >= 11 {
        assert(spec_block_depth(depth) == 16);
    } else if depth >= 6 {
        assert(spec_block_depth(depth) == 8);
    } else if depth >= 3 {
        assert(spec_block_depth(depth) == 4);
    } else if depth >= 2 {
        assert(spec_block_depth(depth) == 2);
    } else {
        assert(spec_block_depth(depth) == 1);
    }
}

/// The block depth of a mip level is at least 1 and no more than that of
/// the base level.
pub proof fn lemma_mip_block_depth_bounds(mip_depth: int, gob_depth: int)
    requires
        1 <= gob_depth,
    ensures
        1 <= spec_mip_block_depth(mip_depth, gob_depth) <= gob_depth,
    decreases gob_depth,
{
    if gob_depth > 1 && mip_depth <= gob_depth / 2 {
        lemma_mip_block_depth_bounds(mip_depth, gob_depth / 2);
    }
}

/// The positions of the first `n` items fit in 32 bits where two of them
/// do: that of the last item, and that of the last item of the block before
/// the last, if there is such a block.
pub proof fn lemma_positions_fit(n: int, block: int, stride: int, step: int)
    requires
        1 <= n,
        1 <= block,
        0 <= stride,
        0 <= step,
    ensures
        positions_fit(n, block, stride, step) <==> {
            &&& position(n - 1, block, stride, step) <= u32::MAX
            &&& (n - 1) / block >= 1 ==> ((n - 1) / block - 1) * stride + (block - 1) * step
                <= u32::MAX
        },
{
    let last = (n - 1) / block;
    let rest = (n - 1) % block;
    lemma_fundamental_div_mod(n - 1, block);
    lemma_mod_bound(n - 1, block);
    lemma_div_pos_is_pos(n - 1, block);
    if positions_fit(n, block, stride, step) {
        assert(position(n - 1, block, stride, step) <= u32::MAX);
        if last >= 1 {
            let i = last * block - 1;
            assert(block * last == last * block) by (nonlinear_arith);
            assert(i == (last - 1) * block + (block - 1)) by (nonlinear_arith)
                requires
                    i == last * block - 1,
            ;
            assert(0 <= i) by (nonlinear_arith)
                requires
                    i == last * block - 1,
                    1 <= last,
                    1 <= block,
            ;
            lemma_fundamental_div_mod_converse(i, block, last - 1, block - 1);
            assert(position(i, block, stride, step) <= u32::MAX);
        }
    }
    if position(n - 1, block, stride, step) <= u32::MAX && (last >= 1 ==> (last - 1) * stride + (
    block - 1) * step <= u32::MAX) {
        assert forall|i: int| 0 <= i < n implies #[trigger] position(i, block, stride, step)
            <= u32::MAX by {
            let q = i / block;
            let r = i % block;
            lemma_fundamental_div_mod(i, block);
            lemma_mod_bound(i, block);
            lemma_div_pos_is_pos(i, block);
            lemma_div_is_ordered(i, n - 1, block);
            if q == last {
                assert(r <= rest);
                lemma_mul_inequality(r, rest, step);
            } else {
                lemma_mul_inequality(q, last - 1, stride);
                lemma_mul_inequality(r, block - 1, step);
            }
        }
    }
}

/// The tiled and the untiled size of a level are not negative, and a level
/// whose pixels or blocks have bytes takes at least one GOB.
pub proof fn lemma_size_nonneg(levels: Levels, mip: nat)
    requires
        levels.block_dim.wf(),
        is_gob_height(levels.gobs),
    ensures
        0 <= levels.size(mip),
        0 <= levels.untiled_size(mip),
        levels.bytes_per_pixel >= 1 ==> 512 <= levels.size(mip),
{
    let bw = levels.block_dim.width as int;
    let bh = levels.block_dim.height as int;
    let bd = levels.block_dim.depth as int;
    lemma_mip_extent_bounds(levels.width as int, mip, bw);
    lemma_mip_extent_bounds(levels.height as int, mip, bh);
    lemma_mip_extent_bounds(levels.depth as int, mip, bd);
    let mw = mip_extent(levels.width as int, mip, bw);
    let mh = mip_extent(levels.height as int, mip, bh);
    let md = mip_extent(levels.depth as int, mip, bd);
    let g = spec_mip_block_height(mh, levels.gobs);
    let bpp = levels.bytes_per_pixel as int;
    lemma_mip_block_height_bounds(mh, levels.gobs);
    lemma_depth_in_gobs(md);
    let wg = (mw * bpp + 63) / 64;
    let hg = ((mh + g * 8 - 1) / (g * 8)) * g;
    let dg = spec_depth_in_gobs(md);
    assert(0 <= mw * bpp && (bpp >= 1 ==> 1 <= mw * bpp)) by (nonlinear_arith)
        requires
            1 <= mw,
            0 <= bpp,
    ;
    assert(1 <= hg) by (nonlinear_arith)
        requires
            hg == ((mh + g * 8 - 1) / (g * 8)) * g,
            1 <= mh,
            1 <= g,
    ;
    assert(0 <= wg * hg * dg * 512 && (wg >= 1 ==> 512 <= wg * hg * dg * 512))
        by (nonlinear_arith)
        requires
            0 <= wg,
            1 <= hg,
            1 <= dg,
    ;
    assert(0 <= mw * mh * md * bpp) by (nonlinear_arith)
        requires
            0 <= mw,
            0 <= mh,
            0 <= md,
            0 <= bpp,
    ;
}

/// The sizes of more levels together are no less than those of fewer.
pub proof fn lemma_sums_monotonic(levels: Levels, i: nat, j: nat)
    requires
        levels.block_dim.wf(),
        is_gob_height(levels.gobs),
        i <= j,
    ensures
        0 <= levels.tiled_sum(i) <= levels.tiled_sum(j),
        0 <= levels.untiled_sum(i) <= levels.untiled_sum(j),
        levels.bytes_per_pixel >= 1 && i < j ==> levels.tiled_sum(i) < levels.tiled_sum(j),
    decreases j,
{
    if j > 0 {
        lemma_size_nonneg(levels, (j - 1) as nat);
        if i < j {
            lemma_sums_monotonic(levels, i, (j - 1) as nat);
        } else {
            lemma_sums_monotonic(levels, (i - 1) as nat, (j - 1) as nat);
        }
    }
}

/// Where the sizes of some levels are computed without overflow, so are
/// those of fewer.
pub proof fn lemma_fit_prefix(levels: Levels, i: nat, j: nat)
    requires
        i <= j,
        levels.fit(j),
    ensures
        levels.fit(i),
    decreases j,
{
    if i < j {
        lemma_fit_prefix(levels, i, (j - 1) as nat);
    }
}

/// The offsets of the mip levels are ordered: none lies before the start of
/// the texture data, a later level never lies before an earlier one, and it
/// lies behind it where the pixels or blocks of the surface have bytes.
pub proof fn lemma_mip_offsets_monotonic(
    width: u32,
    height: u32,
    depth: u32,
    block_dim: BlockDim,
    gobs: int,
    bytes_per_pixel: u32,
    i: nat,
    j: nat,
)
    requires
        block_dim.wf(),
        is_gob_height(gobs),
        i <= j,
    ensures
        START_OF_TEXTURE_DATA <= mip_offset(
            width,
            height,
            depth,
            block_dim,
            gobs,
            bytes_per_pixel,
            i,
        ) <= mip_offset(width, height, depth, block_dim, gobs, bytes_per_pixel, j),
        bytes_per_pixel >= 1 && i < j ==> mip_offset(
            width,
            height,
            depth,
            block_dim,
            gobs,
            bytes_per_pixel,
            i,
        ) < mip_offset(width, height, depth, block_dim, gobs, bytes_per_pixel, j),
{
    lemma_sums_monotonic(Levels { width, height, depth, block_dim, gobs, bytes_per_pixel }, i, j);
}

/// The block height of the base level of a surface that is `height` rows of
/// blocks tall.
pub fn block_height_mip0(height: u32) -> (r: BlockHeight)
    requires
        height + height / 2 <= u32::MAX,
    ensures
        r.spec_gobs() == spec_block_height_mip0(height as int),
{
    let gobs: u32 = tegra_block_height_mip0(height);
    match BlockHeight::new(gobs) {
        Some(b) => b,
        None => BlockHeight::One,
    }
}

/// The block height of a mip level that is `mip_height` rows of blocks tall,
/// in a surface whose base level has the block height `block_height_mip0`.
pub fn mip_block_height(mip_height: u32, block_height_mip0: BlockHeight) -> (r: BlockHeight)
    ensures
        r.spec_gobs() == spec_mip_block_height(
            mip_height as int,
            block_height_mip0.spec_gobs() as int,
        ),
{
    let gobs: u32 = tegra_mip_block_height(mip_height, block_height_mip0.gobs());
    proof {
        lemma_mip_block_height_bounds(mip_height as int, block_height_mip0.spec_gobs() as int);
    }
    match BlockHeight::new(gobs) {
        Some(b) => b,
        None => BlockHeight::One,
    }
}

/// The depth in GOBs of a level `depth` slices deep.
fn depth_in_gobs(depth: u32) -> (r: u64)
    requires
        depth >= 1,
    ensures
        r == spec_depth_in_gobs(depth as int),
        1 <= r <= depth + 15,
{
    proof {
        lemma_depth_in_gobs(depth as int);
    }
    let d: u64 = depth as u64;
    if d >= 11 {
        (d + 15) / 16 * 16
    } else if d >= 9 {
        16
    } else if d >= 5 {
        8
    } else if d >= 3 {
        4
    } else {
        d
    }
}

/// The extent in blocks of a mip level along an axis on which the level is
/// `x` pixels long.
fn level_extent(x: u32, block: u32) -> (r: u32)
    requires
        block > 0,
        at_least_one(x as int) + block <= u32::MAX,
    ensures
        r == spec_div_round_up(at_least_one(x as int), block as int),
        1 <= r <= at_least_one(x as int),
{
    let x1: u32 = if x > 1 { x } else { 1 };
    proof {
        let a = x1 as int;
        let b = block as int;
        assert(1 <= (a + b - 1) / b <= a) by (nonlinear_arith)
            requires
                1 <= a,
                1 <= b,
        ;
    }
    tegra_div_round_up(x1, block)
}

/// The tiled size in bytes of a level, in 128 bits.
fn level_size(width: u32, height: u32, depth: u32, gobs: u32, bytes_per_pixel: u32) -> (r: u128)
    requires
        is_gob_height(gobs as int),
        width >= 1,
        height >= 1,
        depth >= 1,
        width * bytes_per_pixel + 64 <= u32::MAX,
        height + 8 * gobs <= u32::MAX,
        spec_depth_in_gobs(depth as int) <= u32::MAX,
    ensures
        r == spec_swizzled_mip_size(
            width as int,
            height as int,
            depth as int,
            gobs as int,
            bytes_per_pixel as int,
        ),
{
    assert(width as u128 * bytes_per_pixel as u128 == width * bytes_per_pixel);
    let width_in_gobs: u128 = (width as u128 * bytes_per_pixel as u128 + 63) / 64;
    let height_in_blocks: u128 = (height as u128 + gobs as u128 * 8 - 1) / (gobs as u128 * 8);
    assert(height_in_blocks * gobs <= 0xFFFF_FFFF * 32) by (nonlinear_arith)
        requires
            height_in_blocks <= 0xFFFF_FFFF,
            gobs <= 32,
    ;
    let height_in_gobs: u128 = height_in_blocks * gobs as u128;
    let depth_in_gobs: u128 = depth_in_gobs(depth) as u128;
    assert(width_in_gobs * height_in_gobs <= 0xFFFF_FFFF * (0xFFFF_FFFF * 32))
        by (nonlinear_arith)
        requires
            width_in_gobs <= 0xFFFF_FFFF,
            height_in_gobs <= 0xFFFF_FFFF * 32,
    ;
    assert(width_in_gobs * height_in_gobs * depth_in_gobs <= 0xFFFF_FFFF * (0xFFFF_FFFF * 32)
        * 0xFFFF_FFFF) by (nonlinear_arith)
        requires
            width_in_gobs * height_in_gobs <= 0xFFFF_FFFF * (0xFFFF_FFFF * 32),
            depth_in_gobs <= 0xFFFF_FFFF,
    ;
    width_in_gobs * height_in_gobs * depth_in_gobs * 512
}

/// The depth of a block, in GOBs, of a level `depth` slices deep.
fn block_depth(depth: u32) -> (r: u32)
    ensures
        r == spec_block_depth(depth as int),
        1 <= r <= 16,
{
    let depth_and_half: u64 = depth as u64 + depth as u64 / 2;
    if depth_and_half >= 16 {
        16
    } else if depth_and_half >= 8 {
        8
    } else if depth_and_half >= 4 {
        4
    } else if depth_and_half >= 2 {
        2
    } else {
        1
    }
}

/// The depth of the blocks with which a level `mip_depth` slices deep is
/// addressed, where those of the base level are `gob_depth` GOBs deep.
fn mip_block_depth(mip_depth: u32, gob_depth: u32) -> (r: u32)
    requires
        1 <= gob_depth <= 16,
    ensures
        r == spec_mip_block_depth(mip_depth as int, gob_depth as int),
        1 <= r <= 16,
{
    let mut depth: u32 = gob_depth;
    while depth > 1 && mip_depth <= depth / 2
        invariant
            1 <= depth <= gob_depth,
            spec_mip_block_depth(mip_depth as int, depth as int) == spec_mip_block_depth(
                mip_depth as int,
                gob_depth as int,
            ),
        decreases depth,
    {
        depth = depth / 2;
    }
    depth
}

/// Whether the positions of the first `n` items fit in 32 bits.
fn do_positions_fit(n: u32, block: u32, stride: u32, step: u32) -> (r: bool)
    requires
        1 <= n,
        1 <= block,
    ensures
        r == positions_fit(n as int, block as int, stride as int, step as int),
{
    let last: u64 = ((n - 1) / block) as u64;
    let rest: u64 = ((n - 1) % block) as u64;
    proof {
        lemma_positions_fit(n as int, block as int, stride as int, step as int);
        assert(last * stride <= 0xFFFF_FFFF * 0xFFFF_FFFF) by (nonlinear_arith)
            requires
                0 <= last <= 0xFFFF_FFFF,
                0 <= stride <= 0xFFFF_FFFF,
        ;
        assert(rest * step <= 0xFFFF_FFFF * 0xFFFF_FFFF) by (nonlinear_arith)
            requires
                0 <= rest <= 0xFFFF_FFFF,
                0 <= step <= 0xFFFF_FFFF,
        ;
        assert((block - 1) * step <= 0xFFFF_FFFF * 0xFFFF_FFFF) by (nonlinear_arith)
            requires
                1 <= block <= 0xFFFF_FFFF,
                0 <= step <= 0xFFFF_FFFF,
        ;
    }
    let at_last: u128 = last as u128 * stride as u128 + rest as u128 * step as u128;
    if at_last > 0xFFFF_FFFF {
        return false;
    }
    if last >= 1 {
        assert((last - 1) * stride <= last * stride) by (nonlinear_arith)
            requires
                1 <= last,
                0 <= stride,
        ;
        let before: u128 = (last - 1) as u128 * stride as u128 + (block - 1) as u128
            * step as u128;
        before <= 0xFFFF_FFFF
    } else {
        true
    }
}

/// Whether the tiling engine addresses the GOBs of a level within 32 bits,
/// given the extents of the level in blocks, its block height, and the block
/// depth of the base level.
fn is_level_addressed(
    width: u32,
    height: u32,
    depth: u32,
    gobs: u32,
    gob_depth: u32,
    bytes_per_pixel: u32,
) -> (r: bool)
    requires
        is_gob_height(gobs as int),
        1 <= gob_depth <= 16,
        width >= 1,
        height >= 1,
        depth >= 1,
        width * bytes_per_pixel + 64 <= u32::MAX,
        height + 8 * gobs <= u32::MAX,
    ensures
        r == ({
            let block_depth = spec_mip_block_depth(depth as int, gob_depth as int);
            let width_in_gobs = (width * bytes_per_pixel + 63) / 64;
            let rows = (height + 8 * gobs - 1) / (8 * gobs as int);
            let row = 512 * gobs * block_depth * width_in_gobs;
            let slice = (rows * row) % 0x1_0000_0000;
            &&& row <= u32::MAX
            &&& positions_fit((height - 1) / 8 + 1, gobs as int, row, 512)
            &&& positions_fit(depth as int, block_depth, slice, 512 * gobs)
        }),
{
    let block_depth: u32 = mip_block_depth(depth, gob_depth);
    assert(width as u64 * bytes_per_pixel as u64 == width * bytes_per_pixel) by (nonlinear_arith)
        requires
            width * bytes_per_pixel + 64 <= u32::MAX,
            0 <= width,
            0 <= bytes_per_pixel,
    ;
    let width_in_gobs: u64 = (width as u64 * bytes_per_pixel as u64 + 63) / 64;
    let rows: u64 = (height as u64 + 8 * gobs as u64 - 1) / (8 * gobs as u64);
    assert(512 * gobs * block_depth <= 512 * 32 * 16) by (nonlinear_arith)
        requires
            0 <= gobs <= 32,
            0 <= block_depth <= 16,
    ;
    let block: u64 = 512 * gobs as u64 * block_depth as u64;
    assert(block * width_in_gobs <= 512 * 32 * 16 * 0xFFFF_FFFF) by (nonlinear_arith)
        requires
            0 <= block <= 512 * 32 * 16,
            0 <= width_in_gobs <= 0xFFFF_FFFF,
    ;
    let row: u64 = block * width_in_gobs;
    if row > 0xFFFF_FFFF {
        return false;
    }
    assert(rows * row <= 0xFFFF_FFFF * 0xFFFF_FFFF) by (nonlinear_arith)
        requires
            0 <= rows <= 0xFFFF_FFFF,
            0 <= row <= 0xFFFF_FFFF,
    ;
    let slice: u64 = (rows * row) % 0x1_0000_0000;
    do_positions_fit((height - 1) / 8 + 1, gobs, row as u32, 512) && do_positions_fit(
        depth,
        block_depth,
        slice as u32,
        512 * gobs,
    )
}

/// The tiled size of the first `mips` levels together, and whether the GOBs
/// of each of them are addressed within 32 bits, where those sizes are
/// computed without overflow.
fn tiled_levels(
    width: u32,
    height: u32,
    depth: u32,
    block_dim: BlockDim,
    gobs: u32,
    bytes_per_pixel: u32,
    mips: u32,
) -> (r: Option<(u128, bool)>)
    requires
        (Levels { width, height, depth, block_dim, gobs: gobs as int, bytes_per_pixel }).blocks_fit(),
    ensures
        ({
            let levels = Levels {
                width,
                height,
                depth,
                block_dim,
                gobs: gobs as int,
                bytes_per_pixel,
            };
            match r {
                Some((sum, addressable)) => {
                    &&& levels.fit(mips as nat)
                    &&& sum == levels.tiled_sum(mips as nat)
                    &&& sum <= usize::MAX
                    &&& addressable == levels.addressable(mips as nat)
                },
                None => !levels.fit(mips as nat),
            }
        }),
{
    let ghost levels = Levels { width, height, depth, block_dim, gobs: gobs as int, bytes_per_pixel };
    let gob_depth: u32 = block_depth(depth);
    let mut sum: u128 = 0;
    let mut addressable: bool = true;
    let mut w: u32 = width;
    let mut h: u32 = height;
    let mut d: u32 = depth;
    let mut mip: u32 = 0;
    while mip < mips
        invariant
            mip <= mips,
            levels == (Levels {
                width,
                height,
                depth,
                block_dim,
                gobs: gobs as int,
                bytes_per_pixel,
            }),
            levels.blocks_fit(),
            w == halved(width as int, mip as nat),
            h == halved(height as int, mip as nat),
            d == halved(depth as int, mip as nat),
            levels.fit(mip as nat),
            sum == levels.tiled_sum(mip as nat),
            sum <= usize::MAX,
            addressable == levels.addressable(mip as nat),
            gob_depth == spec_block_depth(depth as int),
        decreases mips - mip,
    {
        proof {
            lemma_halved_bounds(width as int, mip as nat);
            lemma_halved_bounds(height as int, mip as nat);
            lemma_halved_bounds(depth as int, mip as nat);
        }
        let mip_width: u32 = level_extent(w, block_dim.width);
        let mip_height: u32 = level_extent(h, block_dim.height);
        let mip_depth: u32 = level_extent(d, block_dim.depth);
        let level_gobs: u32 = tegra_mip_block_height(mip_height, gobs);
        proof {
            lemma_mip_block_height_bounds(mip_height as int, gobs as int);
            lemma_depth_in_gobs(mip_depth as int);
        }
        assert(mip_width as u64 * bytes_per_pixel as u64 <= 0xFFFF_FFFF * 0xFFFF_FFFF)
            by (nonlinear_arith)
            requires
                mip_width <= 0xFFFF_FFFF,
                bytes_per_pixel <= 0xFFFF_FFFF,
        ;
        let fits: bool = mip_width as u64 * bytes_per_pixel as u64 + 64 <= 0xFFFF_FFFF
            && mip_height as u64 + 8 * (level_gobs as u64) <= 0xFFFF_FFFF && mip_depth as u64
            + mip_depth as u64 / 2 <= 0xFFFF_FFFF && depth_in_gobs(mip_depth) <= 0xFFFF_FFFF;
        if !fits {
            proof {
                assert(!levels.level_fits(mip as nat));
                if levels.fit(mips as nat) {
                    lemma_fit_prefix(levels, (mip + 1) as nat, mips as nat);
                }
            }
            return None;
        }
        let size: u128 = level_size(mip_width, mip_height, mip_depth, level_gobs, bytes_per_pixel);
        assert(size == levels.size(mip as nat));
        proof {
            lemma_size_nonneg(levels, mip as nat);
        }
        if size > usize::MAX as u128 || sum + size > usize::MAX as u128 {
            proof {
                if levels.fit(mips as nat) {
                    lemma_fit_prefix(levels, (mip + 1) as nat, mips as nat);
                }
            }
            return None;
        }
        sum = sum + size;
        let addressed: bool = is_level_addressed(
            mip_width,
            mip_height,
            mip_depth,
            level_gobs,
            gob_depth,
            bytes_per_pixel,
        );
        assert(addressed == levels.level_addressed(mip as nat));
        addressable = addressable && addressed;
        w = w / 2;
        h = h / 2;
        d = d / 2;
        mip = mip + 1;
    }
    Some((sum, addressable))
}

/// The untiled size of the first `mips` levels together, where it fits in
/// `usize`.
fn untiled_levels(
    width: u32,
    height: u32,
    depth: u32,
    block_dim: BlockDim,
    gobs: u32,
    bytes_per_pixel: u32,
    mips: u32,
) -> (r: Option<u128>)
    requires
        (Levels { width, height, depth, block_dim, gobs: gobs as int, bytes_per_pixel }).blocks_fit(),
    ensures
        ({
            let levels = Levels {
                width,
                height,
                depth,
                block_dim,
                gobs: gobs as int,
                bytes_per_pixel,
            };
            match r {
                Some(sum) => sum == levels.untiled_sum(mips as nat) && sum <= usize::MAX,
                None => levels.untiled_sum(mips as nat) > usize::MAX,
            }
        }),
{
    let ghost levels = Levels { width, height, depth, block_dim, gobs: gobs as int, bytes_per_pixel };
    let mut sum: u128 = 0;
    let mut w: u32 = width;
    let mut h: u32 = height;
    let mut d: u32 = depth;
    let mut mip: u32 = 0;
    while mip < mips
        invariant
            mip <= mips,
            levels == (Levels {
                width,
                height,
                depth,
                block_dim,
                gobs: gobs as int,
                bytes_per_pixel,
            }),
            levels.blocks_fit(),
            w == halved(width as int, mip as nat),
            h == halved(height as int, mip as nat),
            d == halved(depth as int, mip as nat),
            sum == levels.untiled_sum(mip as nat),
            sum <= usize::MAX,
        decreases mips - mip,
    {
        proof {
            lemma_halved_bounds(width as int, mip as nat);
            lemma_halved_bounds(height as int, mip as nat);
            lemma_halved_bounds(depth as int, mip as nat);
            lemma_size_nonneg(levels, mip as nat);
            lemma_sums_monotonic(levels, (mip + 1) as nat, mips as nat);
        }
        let mip_width: u32 = level_extent(w, block_dim.width);
        let mip_height: u32 = level_extent(h, block_dim.height);
        let mip_depth: u32 = level_extent(d, block_dim.depth);
        assert(mip_width as u128 * mip_height as u128 <= 0xFFFF_FFFF * 0xFFFF_FFFF)
            by (nonlinear_arith)
            requires
                mip_width <= 0xFFFF_FFFF,
                mip_height <= 0xFFFF_FFFF,
        ;
        let area: u128 = mip_width as u128 * mip_height as u128;
        assert(area * mip_depth <= 0xFFFF_FFFF * 0xFFFF_FFFF * 0xFFFF_FFFF) by (nonlinear_arith)
            requires
                area <= 0xFFFF_FFFF * 0xFFFF_FFFF,
                mip_depth <= 0xFFFF_FFFF,
        ;
        let volume: u128 = area * mip_depth as u128;
        assert(volume * bytes_per_pixel <= 0xFFFF_FFFF * 0xFFFF_FFFF * 0xFFFF_FFFF * 0xFFFF_FFFF)
            by (nonlinear_arith)
            requires
                volume <= 0xFFFF_FFFF * 0xFFFF_FFFF * 0xFFFF_FFFF,
                bytes_per_pixel <= 0xFFFF_FFFF,
        ;
        let size: u128 = volume * bytes_per_pixel as u128;
        assert(size == levels.untiled_size(mip as nat));
        if size > usize::MAX as u128 || sum + size > usize::MAX as u128 {
            return None;
        }
        sum = sum + size;
        w = w / 2;
        h = h / 2;
        d = d / 2;
        mip = mip + 1;
    }
    Some(sum)
}

/// The tiled size and the untiled size of a surface, and whether the GOBs of
/// each of its levels are addressed within 32 bits, where those sizes are
/// computed without overflow.
fn surface_sizes(
    width: u32,
    height: u32,
    depth: u32,
    block_dim: BlockDim,
    gobs: u32,
    bytes_per_pixel: u32,
    mips: u32,
    layers: u32,
) -> (r: Option<(u128, u128, bool)>)
    requires
        block_dim.wf(),
        is_gob_height(gobs as int),
    ensures
        ({
            let levels = Levels {
                width,
                height,
                depth,
                block_dim,
                gobs: gobs as int,
                bytes_per_pixel,
            };
            match r {
                Some((tiled, untiled, addressable)) => {
                    &&& levels.sizes_fit(mips as nat, layers)
                    &&& tiled == levels.tiled_surface(mips as nat, layers)
                    &&& untiled == levels.untiled_surface(mips as nat, layers)
                    &&& addressable == levels.addressable(mips as nat)
                },
                None => !levels.sizes_fit(mips as nat, layers),
            }
        }),
{
    let ghost levels = Levels { width, height, depth, block_dim, gobs: gobs as int, bytes_per_pixel };
    let w1: u64 = if width > 1 { width as u64 } else { 1 };
    let h1: u64 = if height > 1 { height as u64 } else { 1 };
    let d1: u64 = if depth > 1 { depth as u64 } else { 1 };
    if w1 + block_dim.width as u64 > 0xFFFF_FFFF || h1 + block_dim.height as u64 > 0xFFFF_FFFF
        || d1 + block_dim.depth as u64 > 0xFFFF_FFFF {
        return None;
    }
    let (layer, addressable) = match tiled_levels(
        width,
        height,
        depth,
        block_dim,
        gobs,
        bytes_per_pixel,
        mips,
    ) {
        Some(x) => x,
        None => {
            return None;
        },
    };
    let untiled_layer: u128 = match untiled_levels(
        width,
        height,
        depth,
        block_dim,
        gobs,
        bytes_per_pixel,
        mips,
    ) {
        Some(x) => x,
        None => {
            return None;
        },
    };
    let tiled: u128 = if layers > 1 {
        let block: u128 = tegra_mip_block_height(height, gobs) as u128 * 512;
        proof {
            lemma_mip_block_height_bounds(height as int, gobs as int);
        }
        let blocks: u128 = (layer + block - 1) / block;
        assert(blocks * block <= layer + block) by (nonlinear_arith)
            requires
                blocks == (layer + block - 1) / (block as int),
                block >= 1,
                layer >= 0,
        ;
        let aligned: u128 = blocks * block;
        assert(aligned * layers <= (layer + block) * 0xFFFF_FFFF) by (nonlinear_arith)
            requires
                0 <= aligned <= layer + block,
                0 <= layers <= 0xFFFF_FFFF,
        ;
        aligned * layers as u128
    } else {
        layer
    };
    assert(untiled_layer * layers <= untiled_layer * 0xFFFF_FFFF) by (nonlinear_arith)
        requires
            0 <= untiled_layer,
            0 <= layers <= 0xFFFF_FFFF,
    ;
    let untiled: u128 = untiled_layer * layers as u128;
    if tiled > usize::MAX as u128 || untiled > usize::MAX as u128 {
        return None;
    }
    Some((tiled, untiled, addressable))
}

/// Whether a surface passes the tiling engine's own test.
fn is_surface_valid(
    width: u32,
    height: u32,
    depth: u32,
    bytes_per_pixel: u32,
    mipmap_count: u32,
) -> (r: bool)
    ensures
        r == surface_is_valid(width, height, depth, bytes_per_pixel, mipmap_count),
{
    assert(width as u128 * height as u128 <= 0xFFFF_FFFF * 0xFFFF_FFFF) by (nonlinear_arith)
        requires
            width <= 0xFFFF_FFFF,
            height <= 0xFFFF_FFFF,
    ;
    let area: u128 = width as u128 * height as u128;
    assert(area * depth <= 0xFFFF_FFFF * 0xFFFF_FFFF * 0xFFFF_FFFF) by (nonlinear_arith)
        requires
            area <= 0xFFFF_FFFF * 0xFFFF_FFFF,
            depth <= 0xFFFF_FFFF,
    ;
    let volume: u128 = area * depth as u128;
    assert(volume * bytes_per_pixel <= 0xFFFF_FFFF * 0xFFFF_FFFF * 0xFFFF_FFFF * 0xFFFF_FFFF)
        by (nonlinear_arith)
        requires
            volume <= 0xFFFF_FFFF * 0xFFFF_FFFF * 0xFFFF_FFFF,
            bytes_per_pixel <= 0xFFFF_FFFF,
    ;
    assert(width as u64 * bytes_per_pixel as u64 <= 0xFFFF_FFFF * 0xFFFF_FFFF) by (nonlinear_arith)
        requires
            width <= 0xFFFF_FFFF,
            bytes_per_pixel <= 0xFFFF_FFFF,
    ;
    volume * bytes_per_pixel as u128 <= 0xFFFF_FFFF && width as u64 * bytes_per_pixel as u64
        <= 0xFFFF_FFFF && depth as u64 + depth as u64 / 2 <= 0xFFFF_FFFF && mipmap_count <= 32
}

/// The block height of the base level of a surface `height` pixels tall,
/// where it is computed without overflow.
pub fn base_block_height(height: u32, block_dim: BlockDim) -> (r: Option<BlockHeight>)
    ensures
        r is Some == base_gobs_fit(height, block_dim),
        r matches Some(b) ==> b.spec_gobs() == base_gobs(height, block_dim),
{
    if block_dim.height == 0 || height as u64 + block_dim.height as u64 > 0xFFFF_FFFF {
        return None;
    }
    let rows: u32 = tegra_div_round_up(height, block_dim.height);
    if rows as u64 + rows as u64 / 2 > 0xFFFF_FFFF {
        return None;
    }
    Some(block_height_mip0(rows))
}

/// Whether the mip offsets of a surface are computed without overflow.
pub fn mipmap_offsets_fit(
    mipmap_count: u32,
    width: u32,
    block_dim: BlockDim,
    height: u32,
    depth: u32,
    block_height: BlockHeight,
    bytes_per_pixel: u32,
) -> (r: bool)
    ensures
        r == offsets_fit(
            mipmap_count,
            width,
            block_dim,
            height,
            depth,
            block_height.spec_gobs() as int,
            bytes_per_pixel,
        ),
{
    let gobs: u32 = block_height.gobs();
    let ghost levels = Levels { width, height, depth, block_dim, gobs: gobs as int, bytes_per_pixel };
    if block_dim.width == 0 || block_dim.height == 0 || block_dim.depth == 0 {
        return false;
    }
    let w1: u64 = if width > 1 { width as u64 } else { 1 };
    let h1: u64 = if height > 1 { height as u64 } else { 1 };
    let d1: u64 = if depth > 1 { depth as u64 } else { 1 };
    if w1 + block_dim.width as u64 > 0xFFFF_FFFF || h1 + block_dim.height as u64 > 0xFFFF_FFFF
        || d1 + block_dim.depth as u64 > 0xFFFF_FFFF {
        return false;
    }
    if tiled_levels(width, height, depth, block_dim, gobs, bytes_per_pixel, mipmap_count).is_none() {
        return false;
    }
    if mipmap_count == 0 {
        return true;
    }
    proof {
        lemma_fit_prefix(levels, (mipmap_count - 1) as nat, mipmap_count as nat);
    }
    match tiled_levels(width, height, depth, block_dim, gobs, bytes_per_pixel, mipmap_count - 1) {
        Some((sum, _)) => sum + START_OF_TEXTURE_DATA as u128 <= 0xFFFF_FFFF_FFFF_FFFF,
        None => false,
    }
}

/// The offset in the file of each mip level of a surface: the first at the
/// start of the texture data, each of the others behind the tiled bytes of
/// the level before it. The offsets never decrease.
pub fn calculate_mipmap_offsets(
    mipmap_count: u32,
    width: u32,
    block_dim: BlockDim,
    height: u32,
    depth: u32,
    block_height: BlockHeight,
    bytes_per_pixel: u32,
) -> (offsets: Vec<u64>)
    requires
        offsets_fit(
            mipmap_count,
            width,
            block_dim,
            height,
            depth,
            block_height.spec_gobs() as int,
            bytes_per_pixel,
        ),
    ensures
        offsets@.len() == mipmap_count,
        forall|i: int|
            0 <= i < mipmap_count ==> #[trigger] offsets@[i] == mip_offset(
                width,
                height,
                depth,
                block_dim,
                block_height.spec_gobs() as int,
                bytes_per_pixel,
                i as nat,
            ),
        mipmap_count > 0 ==> offsets@[0] == START_OF_TEXTURE_DATA,
        forall|i: int, j: int| 0 <= i <= j < mipmap_count ==> offsets@[i] <= offsets@[j],
        bytes_per_pixel >= 1 ==> forall|i: int, j: int|
            0 <= i < j < mipmap_count ==> offsets@[i] < offsets@[j],
{
    let gobs: u32 = block_height.gobs();
    let ghost levels = Levels { width, height, depth, block_dim, gobs: gobs as int, bytes_per_pixel };
    let mut offsets: Vec<u64> = Vec::new();
    let mut sum: usize = 0;
    let mut w: u32 = width;
    let mut h: u32 = height;
    let mut d: u32 = depth;
    let mut mip: u32 = 0;
    while mip < mipmap_count
        invariant
            mip <= mipmap_count,
            gobs == block_height.spec_gobs(),
            levels == (Levels {
                width,
                height,
                depth,
                block_dim,
                gobs: gobs as int,
                bytes_per_pixel,
            }),
            levels.blocks_fit(),
            levels.fit(mipmap_count as nat),
            mipmap_count > 0 ==> START_OF_TEXTURE_DATA + levels.tiled_sum(
                (mipmap_count - 1) as nat,
            ) <= u64::MAX,
            w == halved(width as int, mip as nat),
            h == halved(height as int, mip as nat),
            d == halved(depth as int, mip as nat),
            sum == levels.tiled_sum(mip as nat),
            offsets@.len() == mip,
            forall|i: int|
                0 <= i < mip ==> #[trigger] offsets@[i] == mip_offset(
                    width,
                    height,
                    depth,
                    block_dim,
                    gobs as int,
                    bytes_per_pixel,
                    i as nat,
                ),
        decreases mipmap_count - mip,
    {
        proof {
            lemma_halved_bounds(width as int, mip as nat);
            lemma_halved_bounds(height as int, mip as nat);
            lemma_halved_bounds(depth as int, mip as nat);
            lemma_fit_prefix(levels, (mip + 1) as nat, mipmap_count as nat);
            lemma_sums_monotonic(levels, mip as nat, (mipmap_count - 1) as nat);
        }
        offsets.push(START_OF_TEXTURE_DATA + sum as u64);
        let mip_width: u32 = level_extent(w, block_dim.width);
        let mip_height: u32 = level_extent(h, block_dim.height);
        let mip_depth: u32 = level_extent(d, block_dim.depth);
        let level_height: BlockHeight = mip_block_height(mip_height, block_height);
        assert(levels.level_fits(mip as nat));
        let size: usize = tegra_swizzled_mip_size(
            mip_width,
            mip_height,
            mip_depth,
            level_height.gobs(),
            bytes_per_pixel,
        );
        assert(size == levels.size(mip as nat));
        sum = sum + size;
        w = w / 2;
        h = h / 2;
        d = d / 2;
        mip = mip + 1;
    }
    proof {
        assert forall|i: int, j: int| 0 <= i <= j < mipmap_count implies offsets@[i]
            <= offsets@[j] by {
            lemma_sums_monotonic(levels, i as nat, j as nat);
        }
        assert forall|i: int, j: int|
            bytes_per_pixel >= 1 && 0 <= i < j < mipmap_count implies offsets@[i]
            < offsets@[j] by {
            lemma_sums_monotonic(levels, i as nat, j as nat);
        }
    }
    offsets
}

/// Whether the tiling engine tiles a surface without overflow.
pub fn can_tile(
    width: u32,
    height: u32,
    depth: u32,
    source_len: usize,
    block_dim: BlockDim,
    block_height: BlockHeight,
    bytes_per_pixel: u32,
    mipmap_count: u32,
    layer_count: u32,
) -> (r: bool)
    ensures
        r == tiling_fits(
            width,
            height,
            depth,
            source_len as nat,
            block_dim,
            block_height.spec_gobs() as int,
            bytes_per_pixel,
            mipmap_count,
            layer_count,
        ),
{
    if block_dim.width == 0 || block_dim.height == 0 || block_dim.depth == 0 {
        return false;
    }
    if width == 0 || height == 0 || depth == 0 || bytes_per_pixel == 0 || mipmap_count == 0
        || layer_count == 0 {
        return true;
    }
    if !is_surface_valid(width, height, depth, bytes_per_pixel, mipmap_count) {
        return true;
    }
    let gobs: u32 = if depth == 1 { block_height.gobs() } else { 1 };
    match surface_sizes(
        width,
        height,
        depth,
        block_dim,
        gobs,
        bytes_per_pixel,
        mipmap_count,
        layer_count,
    ) {
        None => false,
        Some((_, untiled, addressable)) => (source_len as u128) < untiled || addressable,
    }
}

/// Whether the tiling engine untiles a surface without overflow.
pub fn can_untile(
    width: u32,
    height: u32,
    depth: u32,
    source_len: usize,
    block_dim: BlockDim,
    bytes_per_pixel: u32,
    mipmap_count: u32,
    layer_count: u32,
) -> (r: bool)
    ensures
        r == untiling_fits(
            width,
            height,
            depth,
            source_len as nat,
            block_dim,
            bytes_per_pixel,
            mipmap_count,
            layer_count,
        ),
{
    if block_dim.width == 0 || block_dim.height == 0 || block_dim.depth == 0 {
        return false;
    }
    if width == 0 || height == 0 || depth == 0 || bytes_per_pixel == 0 || mipmap_count == 0
        || layer_count == 0 {
        return true;
    }
    if !is_surface_valid(width, height, depth, bytes_per_pixel, mipmap_count) {
        return true;
    }
    let gobs: u32 = if depth == 1 {
        match base_block_height(height, block_dim) {
            Some(b) => b.gobs(),
            None => {
                return false;
            },
        }
    } else {
        1
    };
    match surface_sizes(
        width,
        height,
        depth,
        block_dim,
        gobs,
        bytes_per_pixel,
        mipmap_count,
        layer_count,
    ) {
        None => false,
        Some((tiled, _, addressable)) => (source_len as u128) < tiled || addressable,
    }
}

/// What tiling a surface gives: what the tiling engine returns where it
/// tiles the surface without overflow, and the error of a surface whose sizes
/// cannot be computed where it does not.
pub open spec fn tiled(
    width: u32,
    height: u32,
    depth: u32,
    source: Seq<u8>,
    block_dim: BlockDim,
    gobs: u32,
    bytes_per_pixel: u32,
    mipmap_count: u32,
    layer_count: u32,
) -> Result<Seq<u8>, SwizzleError> {
    if tiling_fits(
        width,
        height,
        depth,
        source.len(),
        block_dim,
        gobs as int,
        bytes_per_pixel,
        mipmap_count,
        layer_count,
    ) {
        swizzled_surface(
            width,
            height,
            depth,
            source,
            block_dim,
            gobs,
            bytes_per_pixel,
            mipmap_count,
            layer_count,
        )
    } else {
        Err(
            SwizzleError::InvalidSurface { width, height, depth, bytes_per_pixel, mipmap_count },
        )
    }
}

/// What untiling a surface gives: what the tiling engine returns where it
/// untiles the surface without overflow, and the error of a surface whose
/// sizes cannot be computed where it does not.
pub open spec fn untiled(
    width: u32,
    height: u32,
    depth: u32,
    source: Seq<u8>,
    block_dim: BlockDim,
    bytes_per_pixel: u32,
    mipmap_count: u32,
    layer_count: u32,
) -> Result<Seq<u8>, SwizzleError> {
    if untiling_fits(
        width,
        height,
        depth,
        source.len(),
        block_dim,
        bytes_per_pixel,
        mipmap_count,
        layer_count,
    ) {
        deswizzled_surface(
            width,
            height,
            depth,
            source,
            block_dim,
            bytes_per_pixel,
            mipmap_count,
            layer_count,
        )
    } else {
        Err(
            SwizzleError::InvalidSurface { width, height, depth, bytes_per_pixel, mipmap_count },
        )
    }
}

/// Tiles all layers and mip levels of a surface. A surface on which the
/// tiling engine would overflow is refused; any other is handed to it.
pub fn swizzle_surface(
    width: u32,
    height: u32,
    depth: u32,
    source: &[u8],
    block_dim: BlockDim,
    block_height: BlockHeight,
    bytes_per_pixel: u32,
    mipmap_count: u32,
    layer_count: u32,
) -> (r: Result<Vec<u8>, SwizzleError>)
    ensures
        tiling_result_view(r) == tiled(
            width,
            height,
            depth,
            source@,
            block_dim,
            block_height.spec_gobs(),
            bytes_per_pixel,
            mipmap_count,
            layer_count,
        ),
{
    if !can_tile(
        width,
        height,
        depth,
        source.len(),
        block_dim,
        block_height,
        bytes_per_pixel,
        mipmap_count,
        layer_count,
    ) {
        return Err(
            SwizzleError::InvalidSurface { width, height, depth, bytes_per_pixel, mipmap_count },
        );
    }
    tegra_swizzle_surface(
        width,
        height,
        depth,
        source,
        block_dim,
        block_height.gobs(),
        bytes_per_pixel,
        mipmap_count,
        layer_count,
    )
}

/// Untiles all layers and mip levels of a surface. A surface on which the
/// tiling engine would overflow is refused; any other is handed to it.
pub fn deswizzle_surface(
    width: u32,
    height: u32,
    depth: u32,
    source: &[u8],
    block_dim: BlockDim,
    bytes_per_pixel: u32,
    mipmap_count: u32,
    layer_count: u32,
) -> (r: Result<Vec<u8>, SwizzleError>)
    ensures
        tiling_result_view(r) == untiled(
            width,
            height,
            depth,
            source@,
            block_dim,
            bytes_per_pixel,
            mipmap_count,
            layer_count,
        ),
{
    if !can_untile(
        width,
        height,
        depth,
        source.len(),
        block_dim,
        bytes_per_pixel,
        mipmap_count,
        layer_count,
    ) {
        return Err(
            SwizzleError::InvalidSurface { width, height, depth, bytes_per_pixel, mipmap_count },
        );
    }
    tegra_deswizzle_surface(
        width,
        height,
        depth,
        source,
        block_dim,
        bytes_per_pixel,
        mipmap_count,
        layer_count,
    )
}

} // verus!
