//! Conversion between containers and untiled surfaces.
use vstd::prelude::*;
use crate::container::{
    Bntx, BntxStr, BntxView, Brtd, Brti, BrtiOffset, BrtiView, DictNode, DictSection,
    DictSectionView, Header, HeaderView, Mipmaps, NxHeader, NxHeaderView, RelocationEntry,
    RelocationSection, RelocationTable, RelocationTableView, StrSection, StrSectionView,
};
use crate::format::{ByteOrder, SurfaceFormat, TextureDimension, TextureViewDimension};
use crate::interchange::{ImageFormat, Surface, SurfaceView};
use crate::tiling::{
    base_block_height, base_gobs, base_gobs_fit, calculate_mipmap_offsets, deswizzle_surface,
    mip_offset, mipmap_offsets_fit, offsets_fit, swizzle_surface, tiled, untiled, BlockHeight,
    SwizzleError,
};

verus! {

/// Why a surface could not be made into a container.
#[derive(Debug, Clone, Copy, PartialEq, Eq, Structural)]
pub enum CreateBntxError {
    /// The tiling engine refused the surface.
    SwizzleError(SwizzleError),
    /// No format of a container holds the pixels of this format.
    UnsupportedImageFormat(ImageFormat),
}

/// Why a container could not be made into a surface.
#[derive(Debug, Clone, Copy, PartialEq, Eq, Structural)]
pub enum CreateSurfaceError {
    /// The tiling engine refused the texture.
    SwizzleError(SwizzleError),
    /// No interchange format holds the pixels of this format.
    UnsupportedSurfaceFormat(SurfaceFormat),
}

/// The value that offset fields hold until a container is written.
pub const TEMP_OFFSET: u32 = 0;

/// The sum of the entry counts of the sections of a relocation table.
pub open spec fn section_count_sum(sections: Seq<RelocationSection>) -> nat
    decreases sections.len(),
{
    if sections.len() == 0 {
        0
    } else {
        section_count_sum(sections.drop_last()) + sections.last().count as nat
    }
}

/// The two sections of the relocation table of a new container: the first
/// for everything up to the end of the texture descriptors, with four entries,
/// the second for the payload, with one.
pub open spec fn new_sections() -> Seq<RelocationSection> {
    seq![
        RelocationSection { pointer: 0, position: 0, size: 0, index: 0, count: 4 },
        RelocationSection { pointer: 0, position: 0, size: 0, index: 4, count: 1 },
    ]
}

/// The five entries of the relocation table of a new container.
pub open spec fn new_entries() -> Seq<RelocationEntry> {
    seq![
        RelocationEntry { position: 0, struct_count: 2, offset_count: 1, padding_count: 45 },
        RelocationEntry { position: 0, struct_count: 2, offset_count: 2, padding_count: 70 },
        RelocationEntry { position: 0, struct_count: 2, offset_count: 1, padding_count: 1 },
        RelocationEntry { position: 0, struct_count: 1, offset_count: 3, padding_count: 0 },
        RelocationEntry { position: 0, struct_count: 2, offset_count: 1, padding_count: 140 },
    ]
}

/// The two nodes of the dictionary of a container with one texture: the root,
/// which refers to the only entry, and the entry.
pub open spec fn new_dict_nodes() -> Seq<DictNode> {
    seq![
        DictNode { reference: (-1i32), left_index: 1, right_index: 0, name_offset: 436 },
        DictNode { reference: 0, left_index: 0, right_index: 1, name_offset: 440 },
    ]
}

/// The offsets of the mip levels of a surface, one for each level.
pub open spec fn new_mipmap_offsets(
    width: u32,
    height: u32,
    depth: u32,
    mipmap_count: u32,
    format: SurfaceFormat,
    block_height: BlockHeight,
) -> Seq<u64> {
    Seq::new(
        mipmap_count as nat,
        |i: int|
            mip_offset(
                width,
                height,
                depth,
                format.spec_block_dim(),
                block_height.spec_gobs() as int,
                format.spec_bytes_per_pixel(),
                i as nat,
            ) as u64,
    )
}

/// The descriptor of the texture of a new container.
pub open spec fn new_descriptor(
    width: u32,
    height: u32,
    depth: u32,
    layer_count: u32,
    mipmap_count: u32,
    format: SurfaceFormat,
    block_height: BlockHeight,
    data: Seq<u8>,
) -> BrtiView {
    BrtiView {
        size: 3576,
        size2: 3576,
        flags: 1,
        texture_dimension: if depth > 1 {
            TextureDimension::D3
        } else {
            TextureDimension::D2
        },
        tile_mode: 0,
        swizzle: 0,
        mipmap_count: mipmap_count as u16,
        multi_sample_count: 1,
        image_format: format,
        unk2: 32,
        width,
        height,
        depth,
        layer_count,
        block_height_log2: block_height.spec_log2(),
        unk4: seq![65543u32, 0u32, 0u32, 0u32, 0u32, 0u32],
        image_size: (data.len() % 0x1_0000_0000) as u32,
        align: 512,
        comp_sel: 84148994,
        texture_view_dimension: if depth > 1 {
            TextureViewDimension::D3
        } else if layer_count == 6 {
            TextureViewDimension::Cube
        } else {
            TextureViewDimension::D2
        },
        name_addr: 0,
        parent_addr: 32,
        mipmaps: new_mipmap_offsets(width, height, depth, mipmap_count, format, block_height),
        unk5: 0,
        unk6: Seq::new(256, |i: int| 0u8),
        unk7: Seq::new(256, |i: int| 0u8),
        unk: Seq::new(4, |i: int| 0u32),
    }
}

/// The container that holds one texture with the given tiled bytes under
/// the given name. Its offset fields are zero until it is written.
pub open spec fn new_container(
    width: u32,
    height: u32,
    depth: u32,
    layer_count: u32,
    mipmap_count: u32,
    format: SurfaceFormat,
    block_height: BlockHeight,
    data: Seq<u8>,
    name: Seq<char>,
) -> BntxView {
    BntxView {
        unk: 0,
        version: (0u16, 4u16),
        bom: ByteOrder::LittleEndian,
        header: HeaderView {
            revision: 0x400c,
            file_name: 0,
            unk: 0,
            str_section: StrSectionView {
                block_size: 0,
                block_offset: 0,
                str_count: 1,
                empty: Seq::<char>::empty(),
                strings: seq![name],
            },
            reloc_table: RelocationTableView {
                position: 0,
                count: 2,
                unk1: 0,
                sections: new_sections(),
                entries: new_entries(),
            },
            file_size: 0,
        },
        nx_header: NxHeaderView {
            brtis: seq![
                new_descriptor(
                    width,
                    height,
                    depth,
                    layer_count,
                    mipmap_count,
                    format,
                    block_height,
                    data,
                ),
            ],
            brtd: data,
            dict: DictSectionView { node_count: 1, nodes: new_dict_nodes() },
            dict_size: 88,
            unk: Seq::new(42, |i: int| 0u64),
        },
    }
}

/// The error of a surface whose sizes cannot be computed or stored.
pub open spec fn invalid_surface(surface: SurfaceView, bytes_per_pixel: u32) -> CreateBntxError {
    CreateBntxError::SwizzleError(
        SwizzleError::InvalidSurface {
            width: surface.width,
            height: surface.height,
            depth: surface.depth,
            bytes_per_pixel,
            mipmap_count: surface.mipmaps,
        },
    )
}

/// What making a container from a surface gives: the error that names the
/// format where no format of a container holds its pixels; else the error of
/// an invalid surface where a descriptor cannot hold the number of its mip
/// levels or the block height of its base level overflows; else the error
/// that tiling it gives; else the error of an invalid surface where its mip
/// offsets overflow; else the new container with the tiled bytes, its block
/// height that of the base level of the surface.
pub open spec fn container_from_surface(surface: SurfaceView, name: Seq<char>) -> Result<
    BntxView,
    CreateBntxError,
> {
    match surface.image_format.spec_native() {
        None => Err(CreateBntxError::UnsupportedImageFormat(surface.image_format)),
        Some(format) => {
            let block_dim = format.spec_block_dim();
            let bytes_per_pixel = format.spec_bytes_per_pixel();
            if surface.mipmaps > 0xFFFF || !base_gobs_fit(surface.height, block_dim) {
                Err(invalid_surface(surface, bytes_per_pixel))
            } else {
                let block_height = BlockHeight::spec_from_gobs(
                    base_gobs(surface.height, block_dim),
                );
                match tiled(
                    surface.width,
                    surface.height,
                    surface.depth,
                    surface.data,
                    block_dim,
                    block_height.spec_gobs(),
                    bytes_per_pixel,
                    surface.mipmaps,
                    surface.layers,
                ) {
                    Err(e) => Err(CreateBntxError::SwizzleError(e)),
                    Ok(data) => if !offsets_fit(
                        surface.mipmaps,
                        surface.width,
                        block_dim,
                        surface.height,
                        surface.depth,
                        block_height.spec_gobs() as int,
                        bytes_per_pixel,
                    ) {
                        Err(invalid_surface(surface, bytes_per_pixel))
                    } else {
                        Ok(
                            new_container(
                                surface.width,
                                surface.height,
                                surface.depth,
                                surface.layers,
                                surface.mipmaps,
                                format,
                                block_height,
                                data,
                                name,
                            ),
                        )
                    },
                }
            }
        },
    }
}

/// The untiled bytes of the first texture of a container, or the error of
/// the tiling engine.
pub open spec fn untiled_data(container: BntxView) -> Result<Seq<u8>, SwizzleError>
    recommends
        container.has_texture(),
{
    let info = container.texture();
    untiled(
        info.width,
        info.height,
        info.depth,
        container.nx_header.brtd,
        info.image_format.spec_block_dim(),
        info.image_format.spec_bytes_per_pixel(),
        info.mipmap_count as u32,
        info.layer_count,
    )
}

/// What making a surface from a container gives: the error that names the
/// format where no interchange format holds its pixels; else the error of the
/// tiling engine; else the surface with the untiled bytes.
pub open spec fn surface_from_container(container: BntxView) -> Result<
    SurfaceView,
    CreateSurfaceError,
>
    recommends
        container.has_texture(),
{
    let info = container.texture();
    match info.image_format.spec_interchange() {
        None => Err(CreateSurfaceError::UnsupportedSurfaceFormat(info.image_format)),
        Some(image_format) => match untiled_data(container) {
            Err(e) => Err(CreateSurfaceError::SwizzleError(e)),
            Ok(data) => Ok(
                SurfaceView {
                    width: info.width,
                    height: info.height,
                    depth: info.depth,
                    layers: info.layer_count,
                    mipmaps: info.mipmap_count as u32,
                    image_format,
                    data,
                },
            ),
        },
    }
}

/// The view of a container or the error in its place.
pub open spec fn container_result_view(r: Result<Bntx, CreateBntxError>) -> Result<
    BntxView,
    CreateBntxError,
> {
    match r {
        Ok(b) => Ok(b@),
        Err(e) => Err(e),
    }
}

/// The view of a surface or the error in its place.
pub open spec fn surface_result_view(r: Result<Surface, CreateSurfaceError>) -> Result<
    SurfaceView,
    CreateSurfaceError,
> {
    match r {
        Ok(s) => Ok(s@),
        Err(e) => Err(e),
    }
}

impl Bntx {
    /// The container that holds one texture of the given size and format
    /// with the given tiled bytes under the given name.
    pub fn from_tiled(
        width: u32,
        height: u32,
        depth: u32,
        layer_count: u32,
        mipmap_count: u32,
        format: SurfaceFormat,
        block_height: BlockHeight,
        data: Vec<u8>,
        name: &str,
    ) -> (r: Bntx)
        requires
            mipmap_count <= 0xFFFF,
            offsets_fit(
                mipmap_count,
                width,
                format.spec_block_dim(),
                height,
                depth,
                block_height.spec_gobs() as int,
                format.spec_bytes_per_pixel(),
            ),
        ensures
            r@ == new_container(
                width,
                height,
                depth,
                layer_count,
                mipmap_count,
                format,
                block_height,
                data@,
                name@,
            ),
    {
        let mipmap_offsets: Vec<u64> = calculate_mipmap_offsets(
            mipmap_count,
            width,
            format.block_dim(),
            height,
            depth,
            block_height,
            format.bytes_per_pixel(),
        );
        assert(mipmap_offsets@ =~= new_mipmap_offsets(
            width,
            height,
            depth,
            mipmap_count,
            format,
            block_height,
        ));
        let mut strings: Vec<BntxStr> = Vec::new();
        strings.push(BntxStr { chars: name.to_owned() });
        let str_section = StrSection {
            block_size: TEMP_OFFSET,
            block_offset: 0,
            str_count: 1,
            empty: BntxStr::default(),
            strings,
        };
        assert(str_section@.strings =~= seq![name@]);
        let mut sections: Vec<RelocationSection> = Vec::new();
        sections.push(
            RelocationSection {
                pointer: 0,
                position: TEMP_OFFSET,
                size: TEMP_OFFSET,
                index: 0,
                count: 4,
            },
        );
        sections.push(
            RelocationSection {
                pointer: 0,
                position: TEMP_OFFSET,
                size: TEMP_OFFSET,
                index: 4,
                count: 1,
            },
        );
        let mut entries: Vec<RelocationEntry> = Vec::new();
        entries.push(
            RelocationEntry {
                position: TEMP_OFFSET,
                struct_count: 2,
                offset_count: 1,
                padding_count: 45,
            },
        );
        entries.push(
            RelocationEntry {
                position: TEMP_OFFSET,
                struct_count: 2,
                offset_count: 2,
                padding_count: 70,
            },
        );
        entries.push(
            RelocationEntry {
                position: TEMP_OFFSET,
                struct_count: 2,
                offset_count: 1,
                padding_count: 1,
            },
        );
        entries.push(
            RelocationEntry {
                position: TEMP_OFFSET,
                struct_count: 1,
                offset_count: 3,
                padding_count: 0,
            },
        );
        entries.push(
            RelocationEntry {
                position: TEMP_OFFSET,
                struct_count: 2,
                offset_count: 1,
                padding_count: 140,
            },
        );
        assert(sections@ =~= new_sections());
        assert(entries@ =~= new_entries());
        let mut nodes: Vec<DictNode> = Vec::new();
        nodes.push(DictNode { reference: -1, left_index: 1, right_index: 0, name_offset: 436 });
        nodes.push(DictNode { reference: 0, left_index: 0, right_index: 1, name_offset: 440 });
        assert(nodes@ =~= new_dict_nodes());
        let image_size: u32 = (data.len() as u64 % 0x1_0000_0000) as u32;
        let brti = Brti {
            size: 3576,
            size2: 3576,
            flags: 1,
            texture_dimension: if depth > 1 {
                TextureDimension::D3
            } else {
                TextureDimension::D2
            },
            tile_mode: 0,
            swizzle: 0,
            mipmap_count: mipmap_count as u16,
            multi_sample_count: 1,
            image_format: format,
            unk2: 32,
            width,
            height,
            depth,
            layer_count,
            block_height_log2: block_height.log2(),
            unk4: [65543, 0, 0, 0, 0, 0],
            image_size,
            align: 512,
            comp_sel: 84148994,
            texture_view_dimension: if depth > 1 {
                TextureViewDimension::D3
            } else if layer_count == 6 {
                TextureViewDimension::Cube
            } else {
                TextureViewDimension::D2
            },
            name_addr: 0,
            parent_addr: 32,
            mipmaps: Mipmaps { mipmap_offsets },
            unk5: 0,
            unk6: [0; 256],
            unk7: [0; 256],
            unk: [0; 4],
        };
        assert(brti@.unk4 =~= seq![65543u32, 0u32, 0u32, 0u32, 0u32, 0u32]);
        assert(brti@.unk6 =~= Seq::new(256, |i: int| 0u8));
        assert(brti@.unk7 =~= Seq::new(256, |i: int| 0u8));
        assert(brti@.unk =~= Seq::new(4, |i: int| 0u32));
        let ghost descriptor = new_descriptor(
            width,
            height,
            depth,
            layer_count,
            mipmap_count,
            format,
            block_height,
            data@,
        );
        assert(brti@ == descriptor);
        let mut brtis: Vec<BrtiOffset> = Vec::new();
        brtis.push(BrtiOffset { brti });
        let nx_header = NxHeader {
            brtis,
            brtd: Brtd { image_data: data },
            dict: DictSection { node_count: 1, nodes },
            dict_size: 88,
            unk: [0; 42],
        };
        assert(nx_header@.unk =~= Seq::new(42, |i: int| 0u64));
        assert(nx_header@.brtis =~= seq![descriptor]);
        Bntx {
            unk: 0,
            version: (0, 4),
            bom: ByteOrder::LittleEndian,
            header: Header {
                revision: 0x400c,
                file_name: TEMP_OFFSET,
                unk: 0,
                str_section,
                reloc_table: RelocationTable {
                    position: TEMP_OFFSET,
                    count: 2,
                    unk1: 0,
                    sections,
                    entries,
                },
                file_size: TEMP_OFFSET,
            },
            nx_header,
        }
    }

    /// Makes a container from an untiled surface: its pixels are tiled with
    /// the block height that fits the surface, and its mip offsets computed.
    /// A surface with more mip levels than the 16 bits of a descriptor count,
    /// or one whose block height, tiled bytes or mip offsets cannot be
    /// computed without overflow, is refused as invalid.
    pub fn from_surface(surface: Surface, name: &str) -> (r: Result<Bntx, CreateBntxError>)
        ensures
            container_result_view(r) == container_from_surface(surface@, name@),
    {
        let format = match SurfaceFormat::try_from(surface.image_format) {
            Ok(f) => f,
            Err(e) => {
                return Err(e);
            },
        };
        let block_dim = format.block_dim();
        let bytes_per_pixel: u32 = format.bytes_per_pixel();
        let width: u32 = surface.width;
        let height: u32 = surface.height;
        let depth: u32 = surface.depth;
        let mipmap_count: u32 = surface.mipmaps;
        let layer_count: u32 = surface.layers;
        let invalid = SwizzleError::InvalidSurface {
            width,
            height,
            depth,
            bytes_per_pixel,
            mipmap_count,
        };
        if mipmap_count > 0xFFFF {
            return Err(CreateBntxError::SwizzleError(invalid));
        }
        let block_height = match base_block_height(height, block_dim) {
            Some(b) => b,
            None => {
                return Err(CreateBntxError::SwizzleError(invalid));
            },
        };
        let data = match swizzle_surface(
            width,
            height,
            depth,
            surface.data.as_slice(),
            block_dim,
            block_height,
            bytes_per_pixel,
            mipmap_count,
            layer_count,
        ) {
            Ok(d) => d,
            Err(e) => {
                return Err(CreateBntxError::SwizzleError(e));
            },
        };
        if !mipmap_offsets_fit(
            mipmap_count,
            width,
            block_dim,
            height,
            depth,
            block_height,
            bytes_per_pixel,
        ) {
            return Err(CreateBntxError::SwizzleError(invalid));
        }
        Ok(
            Bntx::from_tiled(
                width,
                height,
                depth,
                layer_count,
                mipmap_count,
                format,
                block_height,
                data,
                name,
            ),
        )
    }

    /// The untiled bytes of all layers and mip levels of the first texture:
    /// what the tiling engine makes of the payload, or its error, and the
    /// error of an invalid surface where the engine would overflow.
    pub fn deswizzled_data(&self) -> (r: Result<Vec<u8>, SwizzleError>)
        requires
            self@.has_texture(),
        ensures
            crate::tiling::tiling_result_view(r) == untiled_data(self@),
    {
        let info = &self.nx_header.brtis[0].brti;
        deswizzle_surface(
            info.width,
            info.height,
            info.depth,
            self.nx_header.brtd.image_data.as_slice(),
            info.image_format.block_dim(),
            info.image_format.bytes_per_pixel(),
            info.mipmap_count as u32,
            info.layer_count,
        )
    }

    /// The surface of the size and counts of the first texture, with the
    /// given format and untiled bytes.
    pub fn surface_with(&self, image_format: ImageFormat, data: Vec<u8>) -> (r: Surface)
        requires
            self@.has_texture(),
        ensures
            r@ == (SurfaceView {
                width: self@.texture().width,
                height: self@.texture().height,
                depth: self@.texture().depth,
                layers: self@.texture().layer_count,
                mipmaps: self@.texture().mipmap_count as u32,
                image_format,
                data: data@,
            }),
    {
        Surface {
            width: self.width(),
            height: self.height(),
            depth: self.depth(),
            layers: self.layer_count(),
            mipmaps: self.mipmap_count(),
            image_format,
            data,
        }
    }

    /// Makes an untiled surface from the first texture of a container.
    pub fn to_surface(&self) -> (r: Result<Surface, CreateSurfaceError>)
        requires
            self@.has_texture(),
        ensures
            surface_result_view(r) == surface_from_container(self@),
    {
        let image_format = match ImageFormat::try_from(self.image_format()) {
            Ok(f) => f,
            Err(e) => {
                return Err(e);
            },
        };
        let data = match self.deswizzled_data() {
            Ok(d) => d,
            Err(e) => {
                return Err(CreateSurfaceError::SwizzleError(e));
            },
        };
        Ok(self.surface_with(image_format, data))
    }
}

/// The relocation table of a new container lists as many entries as its
/// sections count together.
pub proof fn lemma_new_container_relocation_consistent(
    width: u32,
    height: u32,
    depth: u32,
    layer_count: u32,
    mipmap_count: u32,
    format: SurfaceFormat,
    block_height: BlockHeight,
    data: Seq<u8>,
    name: Seq<char>,
)
    ensures
        ({
            let table = new_container(
                width,
                height,
                depth,
                layer_count,
                mipmap_count,
                format,
                block_height,
                data,
                name,
            ).header.reloc_table;
            section_count_sum(table.sections) == table.entries.len()
        }),
{
    let s = new_sections();
    assert(s.drop_last() =~= seq![s[0]]);
    assert(s.drop_last().drop_last() =~= Seq::<RelocationSection>::empty());
    assert(section_count_sum(s.drop_last().drop_last()) == 0);
    assert(section_count_sum(s.drop_last()) == 4);
    assert(section_count_sum(s) == 5);
}

/// The dictionary of a new container, which holds one texture, has exactly
/// two nodes: the root at index 0, and the node of the texture, to which the
/// root refers.
pub proof fn lemma_new_container_dictionary_shape(
    width: u32,
    height: u32,
    depth: u32,
    layer_count: u32,
    mipmap_count: u32,
    format: SurfaceFormat,
    block_height: BlockHeight,
    data: Seq<u8>,
    name: Seq<char>,
)
    ensures
        ({
            let container = new_container(
                width,
                height,
                depth,
                layer_count,
                mipmap_count,
                format,
                block_height,
                data,
                name,
            );
            let dict = container.nx_header.dict;
            &&& container.nx_header.brtis.len() == 1
            &&& dict.node_count == 1
            &&& dict.nodes.len() == 2
            &&& dict.nodes[0].reference == -1
            &&& dict.nodes[0].left_index == 1
            &&& dict.nodes[0].right_index == 0
        }),
{
}

/// A new container holds one offset for each mip level of a surface whose
/// mip offsets do not overflow; the first is the start of the texture data,
/// none is less than the one before it, and each is greater where the pixels
/// or blocks of the format have bytes.
pub proof fn lemma_new_mipmap_offsets_ordered(
    width: u32,
    height: u32,
    depth: u32,
    mipmap_count: u32,
    format: SurfaceFormat,
    block_height: BlockHeight,
)
    requires
        offsets_fit(
            mipmap_count,
            width,
            format.spec_block_dim(),
            height,
            depth,
            block_height.spec_gobs() as int,
            format.spec_bytes_per_pixel(),
        ),
    ensures
        ({
            let offsets = new_mipmap_offsets(
                width,
                height,
                depth,
                mipmap_count,
                format,
                block_height,
            );
            &&& offsets.len() == mipmap_count
            &&& mipmap_count > 0 ==> offsets[0] == crate::tiling::START_OF_TEXTURE_DATA
            &&& forall|i: int, j: int| 0 <= i <= j < mipmap_count ==> offsets[i] <= offsets[j]
            &&& forall|i: int, j: int| 0 <= i < j < mipmap_count ==> offsets[i] < offsets[j]
        }),
{
    let offsets = new_mipmap_offsets(width, height, depth, mipmap_count, format, block_height);
    let block_dim = format.spec_block_dim();
    let gobs = block_height.spec_gobs() as int;
    let bpp = format.spec_bytes_per_pixel();
    assert forall|i: int, j: int| 0 <= i <= j < mipmap_count implies offsets[i] <= offsets[j]
        && (i < j ==> offsets[i] < offsets[j]) by {
        crate::tiling::lemma_mip_offsets_monotonic(
            width,
            height,
            depth,
            block_dim,
            gobs,
            bpp,
            i as nat,
            j as nat,
        );
        crate::tiling::lemma_mip_offsets_monotonic(
            width,
            height,
            depth,
            block_dim,
            gobs,
            bpp,
            j as nat,
            (mipmap_count - 1) as nat,
        );
        assert(bpp >= 1);
    }
}

} // verus!
