//! The container and its parts as they are held in memory, and the
//! mathematical view of each.
use vstd::prelude::*;
use crate::format::{ByteOrder, SurfaceFormat, TextureDimension, TextureViewDimension};

verus! {

/// A texture container: the byte-order marker, the version, the header with
/// the string section and the relocation table, and the block with the
/// texture descriptors, the payload and the name dictionary.
#[derive(Debug, PartialEq)]
pub struct Bntx {
    pub unk: u32,
    pub version: (u16, u16),
    pub bom: ByteOrder,
    pub header: Header,
    pub nx_header: NxHeader,
}

/// The header of a file, with the string section and the relocation table
/// that it points to.
#[derive(Debug, PartialEq, Clone)]
pub struct Header {
    pub revision: u16,
    /// Where the characters of the container's name lie in the file.
    pub file_name: u32,
    pub unk: u16,
    pub str_section: StrSection,
    pub reloc_table: RelocationTable,
    /// The length of the file in bytes.
    pub file_size: u32,
}

/// The table of the byte ranges of a file that hold pointers.
#[derive(Debug, PartialEq, Clone)]
pub struct RelocationTable {
    /// Where the table itself lies in the file.
    pub position: u32,
    pub count: u32,
    pub unk1: u32,
    pub sections: Vec<RelocationSection>,
    pub entries: Vec<RelocationEntry>,
}

/// A byte range of a file, and the entries that describe the pointers in it.
#[derive(Debug, PartialEq, Eq, Clone, Copy, Structural)]
pub struct RelocationSection {
    pub pointer: u64,
    pub position: u32,
    pub size: u32,
    /// The index of the section's first entry.
    pub index: u32,
    /// The number of the section's entries.
    pub count: u32,
}

/// A group of pointer fields: where the first lies, and how many structures,
/// pointers in each and words of padding between them there are.
#[derive(Debug, PartialEq, Eq, Clone, Copy, Structural)]
pub struct RelocationEntry {
    pub position: u32,
    pub struct_count: u16,
    pub offset_count: u8,
    pub padding_count: u8,
}

/// The strings of a file: an empty one first, then the names.
#[derive(Debug, PartialEq, Clone)]
pub struct StrSection {
    pub block_size: u32,
    pub block_offset: u64,
    pub str_count: u32,
    pub empty: BntxStr,
    pub strings: Vec<BntxStr>,
}

/// A string as the file holds it: its length in bytes, its bytes, and
/// padding to an even offset.
#[derive(Debug, PartialEq, Clone)]
pub struct BntxStr {
    pub chars: String,
}

/// The block that holds the texture descriptors, the payload and the name
/// dictionary.
#[derive(Debug, PartialEq, Clone)]
pub struct NxHeader {
    pub brtis: Vec<BrtiOffset>,
    pub brtd: Brtd,
    pub dict: DictSection,
    pub dict_size: u64,
    pub unk: [u64; 42],
}

/// A pointer to a texture descriptor, with the descriptor it points to.
#[derive(Debug, PartialEq, Clone)]
pub struct BrtiOffset {
    pub brti: Brti,
}

/// The binary-search index over the names of the textures.
#[derive(Debug, PartialEq, Clone)]
pub struct DictSection {
    pub node_count: u32,
    /// The root node first, then one node for each name.
    pub nodes: Vec<DictNode>,
}

/// A node of the name dictionary: a reference value, the indices of its
/// two children, and where its name lies in the string section.
#[derive(Debug, PartialEq, Eq, Clone, Copy, Structural)]
pub struct DictNode {
    pub reference: i32,
    pub left_index: u16,
    pub right_index: u16,
    pub name_offset: u64,
}

/// A texture descriptor.
#[derive(Debug, PartialEq, Clone)]
pub struct Brti {
    pub size: u32,
    pub size2: u64,
    pub flags: u8,
    pub texture_dimension: TextureDimension,
    pub tile_mode: u16,
    pub swizzle: u16,
    pub mipmap_count: u16,
    pub multi_sample_count: u32,
    pub image_format: SurfaceFormat,
    pub unk2: u32,
    pub width: u32,
    pub height: u32,
    pub depth: u32,
    pub layer_count: u32,
    pub block_height_log2: u32,
    pub unk4: [u32; 6],
    /// The size in bytes of all layers and mip levels with their padding.
    pub image_size: u32,
    /// The alignment of the tiled data, usually 512.
    pub align: u32,
    pub comp_sel: u32,
    pub texture_view_dimension: TextureViewDimension,
    /// Where the texture's name lies in the string section.
    pub name_addr: u64,
    /// Where the block that holds the descriptors lies in the file.
    pub parent_addr: u64,
    pub mipmaps: Mipmaps,
    pub unk5: u64,
    pub unk6: [u8; 256],
    pub unk7: [u8; 256],
    pub unk: [u32; 4],
}

/// The payload: the tiled bytes of all layers and mip levels.
#[derive(Debug, PartialEq, Clone)]
pub struct Brtd {
    pub image_data: Vec<u8>,
}

/// The offset in the file of each mip level.
#[derive(Debug, PartialEq, Clone)]
pub struct Mipmaps {
    pub mipmap_offsets: Vec<u64>,
}

/// A string section as a value: the strings as sequences of characters.
pub struct StrSectionView {
    pub block_size: u32,
    pub block_offset: u64,
    pub str_count: u32,
    pub empty: Seq<char>,
    pub strings: Seq<Seq<char>>,
}

/// A relocation table as a value.
pub struct RelocationTableView {
    pub position: u32,
    pub count: u32,
    pub unk1: u32,
    pub sections: Seq<RelocationSection>,
    pub entries: Seq<RelocationEntry>,
}

/// A name dictionary as a value.
pub struct DictSectionView {
    pub node_count: u32,
    pub nodes: Seq<DictNode>,
}

/// A texture descriptor as a value.
pub struct BrtiView {
    pub size: u32,
    pub size2: u64,
    pub flags: u8,
    pub texture_dimension: TextureDimension,
    pub tile_mode: u16,
    pub swizzle: u16,
    pub mipmap_count: u16,
    pub multi_sample_count: u32,
    pub image_format: SurfaceFormat,
    pub unk2: u32,
    pub width: u32,
    pub height: u32,
    pub depth: u32,
    pub layer_count: u32,
    pub block_height_log2: u32,
    pub unk4: Seq<u32>,
    pub image_size: u32,
    pub align: u32,
    pub comp_sel: u32,
    pub texture_view_dimension: TextureViewDimension,
    pub name_addr: u64,
    pub parent_addr: u64,
    pub mipmaps: Seq<u64>,
    pub unk5: u64,
    pub unk6: Seq<u8>,
    pub unk7: Seq<u8>,
    pub unk: Seq<u32>,
}

/// A header as a value.
pub struct HeaderView {
    pub revision: u16,
    pub file_name: u32,
    pub unk: u16,
    pub str_section: StrSectionView,
    pub reloc_table: RelocationTableView,
    pub file_size: u32,
}

/// The block of descriptors, payload and dictionary as a value.
pub struct NxHeaderView {
    pub brtis: Seq<BrtiView>,
    pub brtd: Seq<u8>,
    pub dict: DictSectionView,
    pub dict_size: u64,
    pub unk: Seq<u64>,
}

/// A container as a value.
pub struct BntxView {
    pub unk: u32,
    pub version: (u16, u16),
    pub bom: ByteOrder,
    pub header: HeaderView,
    pub nx_header: NxHeaderView,
}

impl View for BntxStr {
    type V = Seq<char>;

    open spec fn view(&self) -> Seq<char> {
        self.chars@
    }
}

/// The strings of a list, each as a sequence of characters.
pub open spec fn strings_view(strings: Seq<BntxStr>) -> Seq<Seq<char>> {
    Seq::new(strings.len(), |i: int| strings[i]@)
}

impl View for StrSection {
    type V = StrSectionView;

    open spec fn view(&self) -> StrSectionView {
        StrSectionView {
            block_size: self.block_size,
            block_offset: self.block_offset,
            str_count: self.str_count,
            empty: self.empty@,
            strings: strings_view(self.strings@),
        }
    }
}

impl View for RelocationTable {
    type V = RelocationTableView;

    open spec fn view(&self) -> RelocationTableView {
        RelocationTableView {
            position: self.position,
            count: self.count,
            unk1: self.unk1,
            sections: self.sections@,
            entries: self.entries@,
        }
    }
}

impl View for DictSection {
    type V = DictSectionView;

    open spec fn view(&self) -> DictSectionView {
        DictSectionView { node_count: self.node_count, nodes: self.nodes@ }
    }
}

impl View for Mipmaps {
    type V = Seq<u64>;

    open spec fn view(&self) -> Seq<u64> {
        self.mipmap_offsets@
    }
}

impl View for Brtd {
    type V = Seq<u8>;

    open spec fn view(&self) -> Seq<u8> {
        self.image_data@
    }
}

impl View for Brti {
    type V = BrtiView;

    open spec fn view(&self) -> BrtiView {
        BrtiView {
            size: self.size,
            size2: self.size2,
            flags: self.flags,
            texture_dimension: self.texture_dimension,
            tile_mode: self.tile_mode,
            swizzle: self.swizzle,
            mipmap_count: self.mipmap_count,
            multi_sample_count: self.multi_sample_count,
            image_format: self.image_format,
            unk2: self.unk2,
            width: self.width,
            height: self.height,
            depth: self.depth,
            layer_count: self.layer_count,
            block_height_log2: self.block_height_log2,
            unk4: self.unk4@,
            image_size: self.image_size,
            align: self.align,
            comp_sel: self.comp_sel,
            texture_view_dimension: self.texture_view_dimension,
            name_addr: self.name_addr,
            parent_addr: self.parent_addr,
            mipmaps: self.mipmaps@,
            unk5: self.unk5,
            unk6: self.unk6@,
            unk7: self.unk7@,
            unk: self.unk@,
        }
    }
}

impl View for BrtiOffset {
    type V = BrtiView;

    open spec fn view(&self) -> BrtiView {
        self.brti@
    }
}

/// The descriptors of a list, each as a value.
pub open spec fn brtis_view(brtis: Seq<BrtiOffset>) -> Seq<BrtiView> {
    Seq::new(brtis.len(), |i: int| brtis[i]@)
}

impl View for Header {
    type V = HeaderView;

    open spec fn view(&self) -> HeaderView {
        HeaderView {
            revision: self.revision,
            file_name: self.file_name,
            unk: self.unk,
            str_section: self.str_section@,
            reloc_table: self.reloc_table@,
            file_size: self.file_size,
        }
    }
}

impl View for NxHeader {
    type V = NxHeaderView;

    open spec fn view(&self) -> NxHeaderView {
        NxHeaderView {
            brtis: brtis_view(self.brtis@),
            brtd: self.brtd@,
            dict: self.dict@,
            dict_size: self.dict_size,
            unk: self.unk@,
        }
    }
}

impl View for Bntx {
    type V = BntxView;

    open spec fn view(&self) -> BntxView {
        BntxView {
            unk: self.unk,
            version: self.version,
            bom: self.bom,
            header: self.header@,
            nx_header: self.nx_header@,
        }
    }
}

impl Clone for Bntx {
    fn clone(&self) -> (r: Bntx) {
        Bntx {
            unk: self.unk,
            version: (self.version.0, self.version.1),
            bom: self.bom,
            header: self.header.clone(),
            nx_header: self.nx_header.clone(),
        }
    }
}

impl Default for BntxStr {
    fn default() -> (r: BntxStr)
        ensures
            r@ == Seq::<char>::empty(),
    {
        BntxStr { chars: String::new() }
    }
}

impl BntxView {
    /// Whether the container describes at least one texture.
    pub open spec fn has_texture(self) -> bool {
        self.nx_header.brtis.len() > 0
    }

    /// The descriptor of the first texture.
    pub open spec fn texture(self) -> BrtiView
        recommends
            self.has_texture(),
    {
        self.nx_header.brtis[0]
    }
}

impl Bntx {
    /// The width in pixels of the first texture.
    pub fn width(&self) -> (r: u32)
        requires
            self@.has_texture(),
        ensures
            r == self@.texture().width,
    {
        self.nx_header.brtis[0].brti.width
    }

    /// The height in pixels of the first texture.
    pub fn height(&self) -> (r: u32)
        requires
            self@.has_texture(),
        ensures
            r == self@.texture().height,
    {
        self.nx_header.brtis[0].brti.height
    }

    /// The depth in pixels of the first texture.
    pub fn depth(&self) -> (r: u32)
        requires
            self@.has_texture(),
        ensures
            r == self@.texture().depth,
    {
        self.nx_header.brtis[0].brti.depth
    }

    /// The number of array layers of the first texture.
    pub fn layer_count(&self) -> (r: u32)
        requires
            self@.has_texture(),
        ensures
            r == self@.texture().layer_count,
    {
        self.nx_header.brtis[0].brti.layer_count
    }

    /// The number of mip levels of the first texture.
    pub fn mipmap_count(&self) -> (r: u32)
        requires
            self@.has_texture(),
        ensures
            r == self@.texture().mipmap_count,
    {
        self.nx_header.brtis[0].brti.mipmap_count as u32
    }

    /// The pixel format of the first texture.
    pub fn image_format(&self) -> (r: SurfaceFormat)
        requires
            self@.has_texture(),
        ensures
            r == self@.texture().image_format,
    {
        self.nx_header.brtis[0].brti.image_format
    }
}

} // verus!
