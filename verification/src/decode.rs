//! The decoder: from the bytes of a file to a container, following each
//! stored pointer to the structure it points to.
use vstd::prelude::*;
use vstd::utf8::{decode_utf8, valid_utf8};
use crate::codec::{
    i32_from_bits, i32_of, in_bounds, read_u16, read_u32, read_u64, u16_at, u32_at, u64_at,
};
use crate::container::{
    Bntx, BntxStr, BntxView, Brtd, Brti, BrtiOffset, BrtiView, DictNode, DictSection,
    DictSectionView, Header, HeaderView, Mipmaps, NxHeader, NxHeaderView, RelocationEntry,
    RelocationSection, RelocationTable, RelocationTableView, StrSection, StrSectionView,
};
use crate::format::{ByteOrder, SurfaceFormat, TextureDimension, TextureViewDimension};
use crate::surface::section_count_sum;

verus! {

/// Why bytes could not be decoded.
#[derive(Debug, Clone, Copy, PartialEq, Eq, Structural)]
pub enum ReadError {
    /// A magic, the byte-order marker, a dimension code or a declared size is
    /// not one that the format allows.
    MalformedHeader,
    /// The bytes end before a structure that is read does.
    TruncatedData,
    /// A texture descriptor names a pixel format that is not known.
    UnsupportedPixelFormat,
}

/// The magic `BNTX` of a file, its bytes read as one big-endian integer.
pub const MAGIC_BNTX: u32 = 0x424E_5458;

/// The magic `NX  ` of the block that holds the descriptors.
pub const MAGIC_NX: u32 = 0x4E58_2020;

/// The magic `_STR` of the string section.
pub const MAGIC_STR: u32 = 0x5F53_5452;

/// The magic `_RLT` of the relocation table.
pub const MAGIC_RLT: u32 = 0x5F52_4C54;

/// The magic `_DIC` of the name dictionary.
pub const MAGIC_DIC: u32 = 0x5F44_4943;

/// The magic `BRTI` of a texture descriptor.
pub const MAGIC_BRTI: u32 = 0x4252_5449;

/// The magic `BRTD` of the payload block.
pub const MAGIC_BRTD: u32 = 0x4252_5444;

/// The byte-order marker of a little-endian file, its two bytes read as one
/// big-endian integer.
pub const BOM_LITTLE: u16 = 0xFFFE;

/// The byte-order marker of a big-endian file.
pub const BOM_BIG: u16 = 0xFEFF;

/// The size in bytes of a file's header up to the block of descriptors.
pub const HEADER_SIZE: u64 = 32;

/// The size in bytes of the fixed part of a file: the header and the block
/// that holds the pointers to descriptors, payload and dictionary.
pub const FIXED_SIZE: u64 = 408;

/// The size in bytes of a texture descriptor.
pub const BRTI_SIZE: u64 = 160;

/// Whether the four bytes at `pos` are those of `magic`.
pub open spec fn magic_at(bytes: Seq<u8>, pos: int, magic: u32) -> bool {
    u32_at(bytes, pos, ByteOrder::BigEndian) == magic
}

/// The text that a lossy conversion makes of bytes: the text that they
/// encode where they are valid UTF-8, and else that text with a replacement
/// character for each invalid sequence.
pub uninterp spec fn utf8_lossy(bytes: Seq<u8>) -> Seq<char>;

/// The text of the bytes of a string: the text that they encode where they
/// are valid UTF-8, and what a lossy conversion makes of them where they are
/// not.
pub open spec fn text_of(bytes: Seq<u8>) -> Seq<char> {
    if valid_utf8(bytes) {
        decode_utf8(bytes)
    } else {
        utf8_lossy(bytes)
    }
}

/// Calls `String::from_utf8_lossy`, which gives the text that the bytes
/// encode and replaces what is not valid UTF-8. Of valid UTF-8 the result is
/// the text it encodes.
#[verifier::external_body]
fn string_from_utf8_lossy(bytes: &[u8]) -> (r: String)
    ensures
        r@ == utf8_lossy(bytes@),
        valid_utf8(bytes@) ==> r@ == decode_utf8(bytes@),
{
    String::from_utf8_lossy(bytes).into_owned()
}

/// The string stored at `pos` and the position behind it: a length in
/// bytes, the bytes, a zero byte, and one more byte where the position
/// would else be odd.
pub open spec fn str_at(bytes: Seq<u8>, pos: int, order: ByteOrder) -> Result<
    (Seq<char>, int),
    ReadError,
> {
    if !in_bounds(bytes, pos, 2) {
        Err(ReadError::TruncatedData)
    } else {
        let len = u16_at(bytes, pos, order) as int;
        let after = pos + 2 + len + 1;
        let next = after + after % 2;
        if !in_bounds(bytes, pos, next - pos) {
            Err(ReadError::TruncatedData)
        } else {
            Ok((text_of(bytes.subrange(pos + 2, pos + 2 + len)), next))
        }
    }
}

/// The `count` strings stored one behind the other from `pos` on, and the
/// position behind the last.
pub open spec fn strs_at(bytes: Seq<u8>, pos: int, order: ByteOrder, count: nat) -> Result<
    (Seq<Seq<char>>, int),
    ReadError,
>
    decreases count,
{
    if count == 0 {
        Ok((Seq::empty(), pos))
    } else {
        match strs_at(bytes, pos, order, (count - 1) as nat) {
            Err(e) => Err(e),
            Ok((strings, p)) => match str_at(bytes, p, order) {
                Err(e) => Err(e),
                Ok((s, next)) => Ok((strings.push(s), next)),
            },
        }
    }
}

/// The string section stored at `pos`.
#[verifier::opaque]
pub open spec fn str_section_at(bytes: Seq<u8>, pos: int, order: ByteOrder) -> Result<
    StrSectionView,
    ReadError,
> {
    if !in_bounds(bytes, pos, 20) {
        Err(ReadError::TruncatedData)
    } else if !magic_at(bytes, pos, MAGIC_STR) {
        Err(ReadError::MalformedHeader)
    } else {
        let str_count = u32_at(bytes, pos + 16, order);
        match str_at(bytes, pos + 20, order) {
            Err(e) => Err(e),
            Ok((empty, p)) => match strs_at(bytes, p, order, str_count as nat) {
                Err(e) => Err(e),
                Ok((strings, _)) => Ok(
                    StrSectionView {
                        block_size: u32_at(bytes, pos + 4, order),
                        block_offset: u64_at(bytes, pos + 8, order),
                        str_count,
                        empty,
                        strings,
                    },
                ),
            },
        }
    }
}

/// The section of a relocation table stored at `pos`.
pub open spec fn section_at(bytes: Seq<u8>, pos: int, order: ByteOrder) -> RelocationSection {
    RelocationSection {
        pointer: u64_at(bytes, pos, order),
        position: u32_at(bytes, pos + 8, order),
        size: u32_at(bytes, pos + 12, order),
        index: u32_at(bytes, pos + 16, order),
        count: u32_at(bytes, pos + 20, order),
    }
}

/// The entry of a relocation table stored at `pos`.
pub open spec fn entry_at(bytes: Seq<u8>, pos: int, order: ByteOrder) -> RelocationEntry {
    RelocationEntry {
        position: u32_at(bytes, pos, order),
        struct_count: u16_at(bytes, pos + 4, order),
        offset_count: bytes[pos + 6],
        padding_count: bytes[pos + 7],
    }
}

/// The `count` sections stored one behind the other from `pos` on.
pub open spec fn sections_at(bytes: Seq<u8>, pos: int, order: ByteOrder, count: nat) -> Seq<
    RelocationSection,
> {
    Seq::new(count, |i: int| section_at(bytes, pos + 24 * i, order))
}

/// The `count` entries stored one behind the other from `pos` on.
pub open spec fn entries_at(bytes: Seq<u8>, pos: int, order: ByteOrder, count: nat) -> Seq<
    RelocationEntry,
> {
    Seq::new(count, |i: int| entry_at(bytes, pos + 8 * i, order))
}

/// The relocation table stored at `pos`: as many sections as it declares,
/// and as many entries as its sections count together.
#[verifier::opaque]
pub open spec fn reloc_table_at(bytes: Seq<u8>, pos: int, order: ByteOrder) -> Result<
    RelocationTableView,
    ReadError,
> {
    if !in_bounds(bytes, pos, 16) {
        Err(ReadError::TruncatedData)
    } else if !magic_at(bytes, pos, MAGIC_RLT) {
        Err(ReadError::MalformedHeader)
    } else {
        let count = u32_at(bytes, pos + 8, order);
        if !in_bounds(bytes, pos + 16, 24 * count) {
            Err(ReadError::TruncatedData)
        } else {
            let sections = sections_at(bytes, pos + 16, order, count as nat);
            let total = section_count_sum(sections);
            if !in_bounds(bytes, pos + 16 + 24 * count, 8 * (total as int)) {
                Err(ReadError::TruncatedData)
            } else {
                Ok(
                    RelocationTableView {
                        position: u32_at(bytes, pos + 4, order),
                        count,
                        unk1: u32_at(bytes, pos + 12, order),
                        sections,
                        entries: entries_at(bytes, pos + 16 + 24 * count, order, total),
                    },
                )
            }
        }
    }
}

/// The node of a dictionary stored at `pos`.
pub open spec fn node_at(bytes: Seq<u8>, pos: int, order: ByteOrder) -> DictNode {
    DictNode {
        reference: i32_of(u32_at(bytes, pos, order)),
        left_index: u16_at(bytes, pos + 4, order),
        right_index: u16_at(bytes, pos + 6, order),
        name_offset: u64_at(bytes, pos + 8, order),
    }
}

/// The `count` nodes stored one behind the other from `pos` on.
pub open spec fn nodes_at(bytes: Seq<u8>, pos: int, order: ByteOrder, count: nat) -> Seq<
    DictNode,
> {
    Seq::new(count, |i: int| node_at(bytes, pos + 16 * i, order))
}

/// The dictionary stored at `pos`: the root node and as many nodes as it
/// declares.
#[verifier::opaque]
pub open spec fn dict_at(bytes: Seq<u8>, pos: int, order: ByteOrder) -> Result<
    DictSectionView,
    ReadError,
> {
    if !in_bounds(bytes, pos, 8) {
        Err(ReadError::TruncatedData)
    } else if !magic_at(bytes, pos, MAGIC_DIC) {
        Err(ReadError::MalformedHeader)
    } else {
        let node_count = u32_at(bytes, pos + 4, order);
        if !in_bounds(bytes, pos + 8, 16 * (node_count + 1)) {
            Err(ReadError::TruncatedData)
        } else {
            Ok(
                DictSectionView {
                    node_count,
                    nodes: nodes_at(bytes, pos + 8, order, (node_count + 1) as nat),
                },
            )
        }
    }
}

/// The payload stored at `pos`: the bytes behind the header of the block, as
/// many as the declared size of the block less the 16 of the header.
#[verifier::opaque]
pub open spec fn brtd_at(bytes: Seq<u8>, pos: int, order: ByteOrder) -> Result<
    Seq<u8>,
    ReadError,
> {
    if !in_bounds(bytes, pos, 16) {
        Err(ReadError::TruncatedData)
    } else if !magic_at(bytes, pos, MAGIC_BRTD) {
        Err(ReadError::MalformedHeader)
    } else {
        let size = u64_at(bytes, pos + 8, order);
        if size < 16 {
            Err(ReadError::MalformedHeader)
        } else if !in_bounds(bytes, pos + 16, size - 16) {
            Err(ReadError::TruncatedData)
        } else {
            Ok(bytes.subrange(pos + 16, pos + size))
        }
    }
}

/// The `count` 64-bit integers stored one behind the other from `pos` on.
pub open spec fn u64s_at(bytes: Seq<u8>, pos: int, order: ByteOrder, count: nat) -> Seq<u64> {
    Seq::new(count, |i: int| u64_at(bytes, pos + 8 * i, order))
}

/// The `count` 32-bit integers stored one behind the other from `pos` on.
pub open spec fn u32s_at(bytes: Seq<u8>, pos: int, order: ByteOrder, count: nat) -> Seq<u32> {
    Seq::new(count, |i: int| u32_at(bytes, pos + 4 * i, order))
}

/// The texture descriptor stored at `pos`, with the mip offsets and the two
/// opaque blocks that it points to.
#[verifier::opaque]
pub open spec fn brti_at(bytes: Seq<u8>, pos: int, order: ByteOrder) -> Result<
    BrtiView,
    ReadError,
> {
    if !in_bounds(bytes, pos, BRTI_SIZE as int) {
        Err(ReadError::TruncatedData)
    } else if !magic_at(bytes, pos, MAGIC_BRTI) {
        Err(ReadError::MalformedHeader)
    } else {
        let mipmap_count = u16_at(bytes, pos + 22, order);
        let mipmaps_at = u64_at(bytes, pos + 112, order) as int;
        let unk6_at = u64_at(bytes, pos + 128, order) as int;
        let unk7_at = u64_at(bytes, pos + 136, order) as int;
        match TextureDimension::spec_from_code(bytes[pos + 17]) {
            None => Err(ReadError::MalformedHeader),
            Some(texture_dimension) => match SurfaceFormat::spec_from_code(
                u32_at(bytes, pos + 28, order),
            ) {
                None => Err(ReadError::UnsupportedPixelFormat),
                Some(image_format) => match TextureViewDimension::spec_from_code(
                    u32_at(bytes, pos + 92, order),
                ) {
                    None => Err(ReadError::MalformedHeader),
                    Some(texture_view_dimension) => if !in_bounds(
                        bytes,
                        mipmaps_at,
                        8 * mipmap_count,
                    ) || !in_bounds(bytes, unk6_at, 256) || !in_bounds(bytes, unk7_at, 256) {
                        Err(ReadError::TruncatedData)
                    } else {
                        Ok(
                            BrtiView {
                                size: u32_at(bytes, pos + 4, order),
                                size2: u64_at(bytes, pos + 8, order),
                                flags: bytes[pos + 16],
                                texture_dimension,
                                tile_mode: u16_at(bytes, pos + 18, order),
                                swizzle: u16_at(bytes, pos + 20, order),
                                mipmap_count,
                                multi_sample_count: u32_at(bytes, pos + 24, order),
                                image_format,
                                unk2: u32_at(bytes, pos + 32, order),
                                width: u32_at(bytes, pos + 36, order),
                                height: u32_at(bytes, pos + 40, order),
                                depth: u32_at(bytes, pos + 44, order),
                                layer_count: u32_at(bytes, pos + 48, order),
                                block_height_log2: u32_at(bytes, pos + 52, order),
                                unk4: u32s_at(bytes, pos + 56, order, 6),
                                image_size: u32_at(bytes, pos + 80, order),
                                align: u32_at(bytes, pos + 84, order),
                                comp_sel: u32_at(bytes, pos + 88, order),
                                texture_view_dimension,
                                name_addr: u64_at(bytes, pos + 96, order),
                                parent_addr: u64_at(bytes, pos + 104, order),
                                mipmaps: u64s_at(bytes, mipmaps_at, order, mipmap_count as nat),
                                unk5: u64_at(bytes, pos + 120, order),
                                unk6: bytes.subrange(unk6_at, unk6_at + 256),
                                unk7: bytes.subrange(unk7_at, unk7_at + 256),
                                unk: u32s_at(bytes, pos + 144, order, 4),
                            },
                        )
                    },
                },
            },
        }
    }
}

/// The `count` texture descriptors whose pointers are stored one behind the
/// other from `table` on.
pub open spec fn brtis_at(bytes: Seq<u8>, table: int, order: ByteOrder, count: nat) -> Result<
    Seq<BrtiView>,
    ReadError,
>
    decreases count,
{
    if count == 0 {
        Ok(Seq::empty())
    } else {
        match brtis_at(bytes, table, order, (count - 1) as nat) {
            Err(e) => Err(e),
            Ok(brtis) => {
                let entry = table + 8 * (count - 1);
                if !in_bounds(bytes, entry, 8) {
                    Err(ReadError::TruncatedData)
                } else {
                    match brti_at(bytes, u64_at(bytes, entry, order) as int, order) {
                        Err(e) => Err(e),
                        Ok(brti) => Ok(brtis.push(brti)),
                    }
                }
            },
        }
    }
}

/// The block of descriptors, payload and dictionary stored behind the
/// header of a file.
pub open spec fn nx_header_at(bytes: Seq<u8>, order: ByteOrder) -> Result<
    NxHeaderView,
    ReadError,
> {
    let pos = HEADER_SIZE as int;
    if !in_bounds(bytes, pos, FIXED_SIZE - HEADER_SIZE) {
        Err(ReadError::TruncatedData)
    } else if !magic_at(bytes, pos, MAGIC_NX) {
        Err(ReadError::MalformedHeader)
    } else {
        let count = u32_at(bytes, pos + 4, order);
        match brtis_at(bytes, u64_at(bytes, pos + 8, order) as int, order, count as nat) {
            Err(e) => Err(e),
            Ok(brtis) => match brtd_at(bytes, u64_at(bytes, pos + 16, order) as int, order) {
                Err(e) => Err(e),
                Ok(brtd) => match dict_at(bytes, u64_at(bytes, pos + 24, order) as int, order) {
                    Err(e) => Err(e),
                    Ok(dict) => Ok(
                        NxHeaderView {
                            brtis,
                            brtd,
                            dict,
                            dict_size: u64_at(bytes, pos + 32, order),
                            unk: u64s_at(bytes, pos + 40, order, 42),
                        },
                    ),
                },
            },
        }
    }
}

/// The byte order that a byte-order marker stands for.
pub open spec fn byte_order_of(marker: u16) -> Option<ByteOrder> {
    if marker == BOM_LITTLE {
        Some(ByteOrder::LittleEndian)
    } else if marker == BOM_BIG {
        Some(ByteOrder::BigEndian)
    } else {
        None
    }
}

/// The header stored at the start of a file, in the byte order of the file.
pub open spec fn header_at(bytes: Seq<u8>, order: ByteOrder) -> Result<HeaderView, ReadError>
    recommends
        in_bounds(bytes, 0, HEADER_SIZE as int),
{
    match str_section_at(bytes, u16_at(bytes, 22, order) as int, order) {
        Err(e) => Err(e),
        Ok(str_section) => match reloc_table_at(bytes, u32_at(bytes, 24, order) as int, order) {
            Err(e) => Err(e),
            Ok(reloc_table) => Ok(
                HeaderView {
                    revision: u16_at(bytes, 14, order),
                    file_name: u32_at(bytes, 16, order),
                    unk: u16_at(bytes, 20, order),
                    str_section,
                    reloc_table,
                    file_size: u32_at(bytes, 28, order),
                },
            ),
        },
    }
}

/// The container that bytes decode to, or the error in its place: the
/// magic of the file first, then the byte-order marker, which governs all
/// that follows, then the header with the string section and the relocation
/// table, then the block of descriptors, payload and dictionary.
pub open spec fn decoding(bytes: Seq<u8>) -> Result<BntxView, ReadError> {
    if !in_bounds(bytes, 0, 4) {
        Err(ReadError::TruncatedData)
    } else if !magic_at(bytes, 0, MAGIC_BNTX) {
        Err(ReadError::MalformedHeader)
    } else if !in_bounds(bytes, 0, HEADER_SIZE as int) {
        Err(ReadError::TruncatedData)
    } else {
        match byte_order_of(u16_at(bytes, 12, ByteOrder::BigEndian)) {
            None => Err(ReadError::MalformedHeader),
            Some(order) => match header_at(bytes, order) {
                Err(e) => Err(e),
                Ok(header) => match nx_header_at(bytes, order) {
                    Err(e) => Err(e),
                    Ok(nx_header) => Ok(
                        BntxView {
                            unk: u32_at(bytes, 4, ByteOrder::LittleEndian),
                            version: (
                                u16_at(bytes, 8, ByteOrder::LittleEndian),
                                u16_at(bytes, 10, ByteOrder::LittleEndian),
                            ),
                            bom: order,
                            header,
                            nx_header,
                        },
                    ),
                },
            },
        }
    }
}

/// The view of what was decoded, or the error in its place.
pub open spec fn decoded<T: View>(r: Result<T, ReadError>) -> Result<T::V, ReadError> {
    match r {
        Ok(v) => Ok(v@),
        Err(e) => Err(e),
    }
}

/// Once a prefix of a list of strings cannot be read, no longer prefix can.
pub proof fn lemma_strs_error_persists(
    bytes: Seq<u8>,
    pos: int,
    order: ByteOrder,
    k: nat,
    count: nat,
)
    requires
        k <= count,
        strs_at(bytes, pos, order, k) is Err,
    ensures
        strs_at(bytes, pos, order, count) == strs_at(bytes, pos, order, k),
    decreases count - k,
{
    if k < count {
        lemma_strs_error_persists(bytes, pos, order, k, (count - 1) as nat);
    }
}

/// Once a prefix of a list of descriptors cannot be read, no longer prefix
/// can.
pub proof fn lemma_brtis_error_persists(
    bytes: Seq<u8>,
    table: int,
    order: ByteOrder,
    k: nat,
    count: nat,
)
    requires
        k <= count,
        brtis_at(bytes, table, order, k) is Err,
    ensures
        brtis_at(bytes, table, order, count) == brtis_at(bytes, table, order, k),
    decreases count - k,
{
    if k < count {
        lemma_brtis_error_persists(bytes, table, order, k, (count - 1) as nat);
    }
}

/// The position `pos` as an index, where `n` bytes lie in `bytes` from there
/// on.
fn locate(bytes: &[u8], pos: u64, n: u64) -> (r: Option<usize>)
    ensures
        match r {
            Some(p) => p == pos && in_bounds(bytes@, pos as int, n as int),
            None => !in_bounds(bytes@, pos as int, n as int),
        },
{
    let len: usize = bytes.len();
    if pos <= len as u64 && n <= len as u64 - pos {
        Some(pos as usize)
    } else {
        None
    }
}

/// Whether the four bytes at `pos` are those of `magic`.
fn has_magic(bytes: &[u8], pos: usize, magic: u32) -> (r: bool)
    requires
        in_bounds(bytes@, pos as int, 4),
    ensures
        r == magic_at(bytes@, pos as int, magic),
{
    read_u32(bytes, pos, ByteOrder::BigEndian) == magic
}

/// A copy of the `n` bytes from `pos` on.
fn copy_bytes(bytes: &[u8], pos: usize, n: usize) -> (r: Vec<u8>)
    requires
        in_bounds(bytes@, pos as int, n as int),
    ensures
        r@ == bytes@.subrange(pos as int, pos + n),
{
    let len: usize = bytes.len();
    let mut out: Vec<u8> = Vec::new();
    let mut i: usize = 0;
    while i < n
        invariant
            i <= n,
            len == bytes@.len(),
            in_bounds(bytes@, pos as int, n as int),
            out@ == bytes@.subrange(pos as int, pos + i),
        decreases n - i,
    {
        out.push(bytes[pos + i]);
        assert(out@ =~= bytes@.subrange(pos as int, pos + i + 1));
        i = i + 1;
    }
    out
}

/// The block of 256 bytes at `pos`.
fn read_block(bytes: &[u8], pos: usize) -> (r: [u8; 256])
    requires
        in_bounds(bytes@, pos as int, 256),
    ensures
        r@ == bytes@.subrange(pos as int, pos + 256),
{
    let len: usize = bytes.len();
    let mut out: [u8; 256] = [0; 256];
    let mut i: usize = 0;
    while i < 256
        invariant
            i <= 256,
            len == bytes@.len(),
            in_bounds(bytes@, pos as int, 256),
            forall|j: int| 0 <= j < i ==> out@[j] == bytes@[pos + j],
        decreases 256 - i,
    {
        out[i] = bytes[pos + i];
        i = i + 1;
    }
    assert(out@ =~= bytes@.subrange(pos as int, pos + 256));
    out
}

/// The string at `pos` and the position behind it.
fn read_str(bytes: &[u8], pos: usize, order: ByteOrder) -> (r: Result<(BntxStr, usize), ReadError>)
    ensures
        match str_at(bytes@, pos as int, order) {
            Ok((s, next)) => r matches Ok((b, n)) && b@ == s && n == next,
            Err(e) => r matches Err(f) && f == e,
        },
{
    let total_len: usize = bytes.len();
    if locate(bytes, pos as u64, 2).is_none() {
        return Err(ReadError::TruncatedData);
    }
    let len: u64 = read_u16(bytes, pos, order) as u64;
    let total: u64 = if (pos as u64 % 2 + len + 3) % 2 == 0 {
        len + 3
    } else {
        len + 4
    };
    assert(total == {
        let after = pos + 2 + len + 1;
        after + after % 2 - pos
    });
    if locate(bytes, pos as u64, total).is_none() {
        return Err(ReadError::TruncatedData);
    }
    let size: usize = len as usize;
    let text = vstd::slice::slice_subrange(bytes, pos + 2, pos + 2 + size);
    let chars = string_from_utf8_lossy(text);
    Ok((BntxStr { chars }, pos + total as usize))
}

/// The string section at `pos`.
#[verifier::loop_isolation(false)]
fn read_str_section(bytes: &[u8], pos: u64, order: ByteOrder) -> (r: Result<
    StrSection,
    ReadError,
>)
    ensures
        decoded(r) == str_section_at(bytes@, pos as int, order),
{
    reveal(str_section_at);
    let len: usize = bytes.len();
    let at: usize = match locate(bytes, pos, 20) {
        Some(p) => p,
        None => {
            return Err(ReadError::TruncatedData);
        },
    };
    if !has_magic(bytes, at, MAGIC_STR) {
        return Err(ReadError::MalformedHeader);
    }
    let block_size: u32 = read_u32(bytes, at + 4, order);
    let block_offset: u64 = read_u64(bytes, at + 8, order);
    let str_count: u32 = read_u32(bytes, at + 16, order);
    let (empty, first) = match read_str(bytes, at + 20, order) {
        Ok(x) => x,
        Err(e) => {
            return Err(e);
        },
    };
    let mut strings: Vec<BntxStr> = Vec::new();
    let mut next: usize = first;
    let mut i: u32 = 0;
    assert(crate::container::strings_view(strings@) =~= Seq::<Seq<char>>::empty());
    while i < str_count
        invariant
            i <= str_count,
            strs_at(bytes@, first as int, order, i as nat) == Ok::<
                (Seq<Seq<char>>, int),
                ReadError,
            >((crate::container::strings_view(strings@), next as int)),
        decreases str_count - i,
    {
        let ghost before = crate::container::strings_view(strings@);
        match read_str(bytes, next, order) {
            Ok((s, n)) => {
                strings.push(s);
                next = n;
                assert(crate::container::strings_view(strings@) =~= before.push(s@));
            },
            Err(e) => {
                proof {
                    assert(strs_at(bytes@, first as int, order, (i + 1) as nat) is Err);
                    lemma_strs_error_persists(
                        bytes@,
                        first as int,
                        order,
                        (i + 1) as nat,
                        str_count as nat,
                    );
                }
                return Err(e);
            },
        }
        i = i + 1;
    }
    Ok(StrSection { block_size, block_offset, str_count, empty, strings })
}

/// The section of a relocation table at `pos`.
fn read_section(bytes: &[u8], pos: usize, order: ByteOrder) -> (r: RelocationSection)
    requires
        in_bounds(bytes@, pos as int, 24),
    ensures
        r == section_at(bytes@, pos as int, order),
{
    let len: usize = bytes.len();
    RelocationSection {
        pointer: read_u64(bytes, pos, order),
        position: read_u32(bytes, pos + 8, order),
        size: read_u32(bytes, pos + 12, order),
        index: read_u32(bytes, pos + 16, order),
        count: read_u32(bytes, pos + 20, order),
    }
}

/// The entry of a relocation table at `pos`.
fn read_entry(bytes: &[u8], pos: usize, order: ByteOrder) -> (r: RelocationEntry)
    requires
        in_bounds(bytes@, pos as int, 8),
    ensures
        r == entry_at(bytes@, pos as int, order),
{
    let len: usize = bytes.len();
    RelocationEntry {
        position: read_u32(bytes, pos, order),
        struct_count: read_u16(bytes, pos + 4, order),
        offset_count: bytes[pos + 6],
        padding_count: bytes[pos + 7],
    }
}

/// The relocation table at `pos`.
fn read_reloc_table(bytes: &[u8], pos: u64, order: ByteOrder) -> (r: Result<
    RelocationTable,
    ReadError,
>)
    ensures
        decoded(r) == reloc_table_at(bytes@, pos as int, order),
        r matches Ok(t) ==> section_count_sum(t@.sections) == t@.entries.len(),
{
    reveal(reloc_table_at);
    let len: usize = bytes.len();
    let at: usize = match locate(bytes, pos, 16) {
        Some(p) => p,
        None => {
            return Err(ReadError::TruncatedData);
        },
    };
    if !has_magic(bytes, at, MAGIC_RLT) {
        return Err(ReadError::MalformedHeader);
    }
    let position: u32 = read_u32(bytes, at + 4, order);
    let count: u32 = read_u32(bytes, at + 8, order);
    let unk1: u32 = read_u32(bytes, at + 12, order);
    if locate(bytes, at as u64 + 16, 24 * (count as u64)).is_none() {
        return Err(ReadError::TruncatedData);
    }
    let base: usize = at + 16;
    let mut sections: Vec<RelocationSection> = Vec::new();
    let mut total: u64 = 0;
    let mut i: u32 = 0;
    assert(sections@ =~= sections_at(bytes@, base as int, order, 0));
    while i < count
        invariant
            i <= count,
            base == at + 16,
            len == bytes@.len(),
            in_bounds(bytes@, base as int, 24 * count),
            sections@ == sections_at(bytes@, base as int, order, i as nat),
            total == section_count_sum(sections@),
            total <= i * 0xFFFF_FFFF,
        decreases count - i,
    {
        let ghost before = sections@;
        let section = read_section(bytes, base + (24 * (i as u64)) as usize, order);
        sections.push(section);
        assert(sections@.drop_last() =~= before);
        assert(sections@ =~= sections_at(bytes@, base as int, order, (i + 1) as nat));
        total = total + section.count as u64;
        i = i + 1;
    }
    let first: usize = base + (24 * (count as u64)) as usize;
    if total > (len - first) as u64 / 8 {
        return Err(ReadError::TruncatedData);
    }
    let mut entries: Vec<RelocationEntry> = Vec::new();
    let mut j: u64 = 0;
    assert(entries@ =~= entries_at(bytes@, first as int, order, 0));
    while j < total
        invariant
            j <= total,
            len == bytes@.len(),
            in_bounds(bytes@, first as int, 8 * total),
            entries@ == entries_at(bytes@, first as int, order, j as nat),
        decreases total - j,
    {
        let entry = read_entry(bytes, first + (8 * j) as usize, order);
        entries.push(entry);
        assert(entries@ =~= entries_at(bytes@, first as int, order, (j + 1) as nat));
        j = j + 1;
    }
    Ok(RelocationTable { position, count, unk1, sections, entries })
}

/// The node of a dictionary at `pos`.
fn read_node(bytes: &[u8], pos: usize, order: ByteOrder) -> (r: DictNode)
    requires
        in_bounds(bytes@, pos as int, 16),
    ensures
        r == node_at(bytes@, pos as int, order),
{
    let len: usize = bytes.len();
    DictNode {
        reference: i32_from_bits(read_u32(bytes, pos, order)),
        left_index: read_u16(bytes, pos + 4, order),
        right_index: read_u16(bytes, pos + 6, order),
        name_offset: read_u64(bytes, pos + 8, order),
    }
}

/// The dictionary at `pos`.
fn read_dict(bytes: &[u8], pos: u64, order: ByteOrder) -> (r: Result<DictSection, ReadError>)
    ensures
        decoded(r) == dict_at(bytes@, pos as int, order),
{
    reveal(dict_at);
    let len: usize = bytes.len();
    let at: usize = match locate(bytes, pos, 8) {
        Some(p) => p,
        None => {
            return Err(ReadError::TruncatedData);
        },
    };
    if !has_magic(bytes, at, MAGIC_DIC) {
        return Err(ReadError::MalformedHeader);
    }
    let node_count: u32 = read_u32(bytes, at + 4, order);
    let count: u64 = node_count as u64 + 1;
    if locate(bytes, at as u64 + 8, 16 * count).is_none() {
        return Err(ReadError::TruncatedData);
    }
    let base: usize = at + 8;
    let mut nodes: Vec<DictNode> = Vec::new();
    let mut i: u64 = 0;
    assert(nodes@ =~= nodes_at(bytes@, base as int, order, 0));
    while i < count
        invariant
            i <= count,
            len == bytes@.len(),
            in_bounds(bytes@, base as int, 16 * count),
            nodes@ == nodes_at(bytes@, base as int, order, i as nat),
        decreases count - i,
    {
        let node = read_node(bytes, base + (16 * i) as usize, order);
        nodes.push(node);
        assert(nodes@ =~= nodes_at(bytes@, base as int, order, (i + 1) as nat));
        i = i + 1;
    }
    Ok(DictSection { node_count, nodes })
}

/// The payload at `pos`.
fn read_brtd(bytes: &[u8], pos: u64, order: ByteOrder) -> (r: Result<Brtd, ReadError>)
    ensures
        decoded(r) == brtd_at(bytes@, pos as int, order),
{
    reveal(brtd_at);
    let len: usize = bytes.len();
    let at: usize = match locate(bytes, pos, 16) {
        Some(p) => p,
        None => {
            return Err(ReadError::TruncatedData);
        },
    };
    if !has_magic(bytes, at, MAGIC_BRTD) {
        return Err(ReadError::MalformedHeader);
    }
    let size: u64 = read_u64(bytes, at + 8, order);
    if size < 16 {
        return Err(ReadError::MalformedHeader);
    }
    if locate(bytes, at as u64 + 16, size - 16).is_none() {
        return Err(ReadError::TruncatedData);
    }
    let image_data = copy_bytes(bytes, at + 16, (size - 16) as usize);
    Ok(Brtd { image_data })
}

/// The `count` 64-bit integers from `pos` on.
fn read_u64s(bytes: &[u8], pos: usize, order: ByteOrder, count: usize) -> (r: Vec<u64>)
    requires
        in_bounds(bytes@, pos as int, 8 * count),
    ensures
        r@ == u64s_at(bytes@, pos as int, order, count as nat),
{
    let len: usize = bytes.len();
    let mut out: Vec<u64> = Vec::new();
    let mut i: usize = 0;
    assert(out@ =~= u64s_at(bytes@, pos as int, order, 0));
    while i < count
        invariant
            i <= count,
            len == bytes@.len(),
            in_bounds(bytes@, pos as int, 8 * count),
            out@ == u64s_at(bytes@, pos as int, order, i as nat),
        decreases count - i,
    {
        out.push(read_u64(bytes, pos + 8 * i, order));
        assert(out@ =~= u64s_at(bytes@, pos as int, order, (i + 1) as nat));
        i = i + 1;
    }
    out
}

/// The six 32-bit integers from `pos` on.
fn read_u32x6(bytes: &[u8], pos: usize, order: ByteOrder) -> (r: [u32; 6])
    requires
        in_bounds(bytes@, pos as int, 24),
    ensures
        r@ == u32s_at(bytes@, pos as int, order, 6),
{
    let len: usize = bytes.len();
    let out: [u32; 6] = [
        read_u32(bytes, pos, order),
        read_u32(bytes, pos + 4, order),
        read_u32(bytes, pos + 8, order),
        read_u32(bytes, pos + 12, order),
        read_u32(bytes, pos + 16, order),
        read_u32(bytes, pos + 20, order),
    ];
    assert(out@ =~= u32s_at(bytes@, pos as int, order, 6));
    out
}

/// The four 32-bit integers from `pos` on.
fn read_u32x4(bytes: &[u8], pos: usize, order: ByteOrder) -> (r: [u32; 4])
    requires
        in_bounds(bytes@, pos as int, 16),
    ensures
        r@ == u32s_at(bytes@, pos as int, order, 4),
{
    let len: usize = bytes.len();
    let out: [u32; 4] = [
        read_u32(bytes, pos, order),
        read_u32(bytes, pos + 4, order),
        read_u32(bytes, pos + 8, order),
        read_u32(bytes, pos + 12, order),
    ];
    assert(out@ =~= u32s_at(bytes@, pos as int, order, 4));
    out
}

/// The 42 64-bit integers from `pos` on.
fn read_u64x42(bytes: &[u8], pos: usize, order: ByteOrder) -> (r: [u64; 42])
    requires
        in_bounds(bytes@, pos as int, 336),
    ensures
        r@ == u64s_at(bytes@, pos as int, order, 42),
{
    let len: usize = bytes.len();
    let mut out: [u64; 42] = [0; 42];
    let mut i: usize = 0;
    while i < 42
        invariant
            i <= 42,
            len == bytes@.len(),
            in_bounds(bytes@, pos as int, 336),
            forall|j: int| 0 <= j < i ==> out@[j] == u64_at(bytes@, pos + 8 * j, order),
        decreases 42 - i,
    {
        out[i] = read_u64(bytes, pos + 8 * i, order);
        i = i + 1;
    }
    assert(out@ =~= u64s_at(bytes@, pos as int, order, 42));
    out
}

/// The texture descriptor at `pos`.
fn read_brti(bytes: &[u8], pos: u64, order: ByteOrder) -> (r: Result<Brti, ReadError>)
    ensures
        decoded(r) == brti_at(bytes@, pos as int, order),
{
    reveal(brti_at);
    let len: usize = bytes.len();
    let at: usize = match locate(bytes, pos, BRTI_SIZE) {
        Some(p) => p,
        None => {
            return Err(ReadError::TruncatedData);
        },
    };
    if !has_magic(bytes, at, MAGIC_BRTI) {
        return Err(ReadError::MalformedHeader);
    }
    let texture_dimension = match TextureDimension::from_code(bytes[at + 17]) {
        Some(d) => d,
        None => {
            return Err(ReadError::MalformedHeader);
        },
    };
    let image_format = match SurfaceFormat::from_code(read_u32(bytes, at + 28, order)) {
        Some(f) => f,
        None => {
            return Err(ReadError::UnsupportedPixelFormat);
        },
    };
    let texture_view_dimension = match TextureViewDimension::from_code(
        read_u32(bytes, at + 92, order),
    ) {
        Some(d) => d,
        None => {
            return Err(ReadError::MalformedHeader);
        },
    };
    let mipmap_count: u16 = read_u16(bytes, at + 22, order);
    let mipmaps_at = locate(bytes, read_u64(bytes, at + 112, order), 8 * (mipmap_count as u64));
    let unk6_at = locate(bytes, read_u64(bytes, at + 128, order), 256);
    let unk7_at = locate(bytes, read_u64(bytes, at + 136, order), 256);
    let (mipmaps_at, unk6_at, unk7_at) = match (mipmaps_at, unk6_at, unk7_at) {
        (Some(a), Some(b), Some(c)) => (a, b, c),
        _ => {
            return Err(ReadError::TruncatedData);
        },
    };
    Ok(
        Brti {
            size: read_u32(bytes, at + 4, order),
            size2: read_u64(bytes, at + 8, order),
            flags: bytes[at + 16],
            texture_dimension,
            tile_mode: read_u16(bytes, at + 18, order),
            swizzle: read_u16(bytes, at + 20, order),
            mipmap_count,
            multi_sample_count: read_u32(bytes, at + 24, order),
            image_format,
            unk2: read_u32(bytes, at + 32, order),
            width: read_u32(bytes, at + 36, order),
            height: read_u32(bytes, at + 40, order),
            depth: read_u32(bytes, at + 44, order),
            layer_count: read_u32(bytes, at + 48, order),
            block_height_log2: read_u32(bytes, at + 52, order),
            unk4: read_u32x6(bytes, at + 56, order),
            image_size: read_u32(bytes, at + 80, order),
            align: read_u32(bytes, at + 84, order),
            comp_sel: read_u32(bytes, at + 88, order),
            texture_view_dimension,
            name_addr: read_u64(bytes, at + 96, order),
            parent_addr: read_u64(bytes, at + 104, order),
            mipmaps: Mipmaps {
                mipmap_offsets: read_u64s(bytes, mipmaps_at, order, mipmap_count as usize),
            },
            unk5: read_u64(bytes, at + 120, order),
            unk6: read_block(bytes, unk6_at),
            unk7: read_block(bytes, unk7_at),
            unk: read_u32x4(bytes, at + 144, order),
        },
    )
}

/// The `count` texture descriptors whose pointers lie from `table` on.
#[verifier::loop_isolation(false)]
fn read_brtis(bytes: &[u8], table: u64, order: ByteOrder, count: u32) -> (r: Result<
    Vec<BrtiOffset>,
    ReadError,
>)
    ensures
        match brtis_at(bytes@, table as int, order, count as nat) {
            Ok(brtis) => r matches Ok(v) && crate::container::brtis_view(v@) == brtis,
            Err(e) => r matches Err(f) && f == e,
        },
{
    let len: usize = bytes.len();
    let mut brtis: Vec<BrtiOffset> = Vec::new();
    let mut i: u32 = 0;
    assert(crate::container::brtis_view(brtis@) =~= Seq::<BrtiView>::empty());
    while i < count
        invariant
            i <= count,
            brtis_at(bytes@, table as int, order, i as nat) == Ok::<Seq<BrtiView>, ReadError>(
                crate::container::brtis_view(brtis@),
            ),
        decreases count - i,
    {
        let ghost before = crate::container::brtis_view(brtis@);
        let entry: Option<usize> = if table as u128 + 8 * (i as u128) <= u64::MAX as u128 {
            locate(bytes, (table as u128 + 8 * (i as u128)) as u64, 8)
        } else {
            None
        };
        assert(entry is None ==> !in_bounds(bytes@, table + 8 * i, 8));
        let read = match entry {
            Some(p) => read_brti(bytes, read_u64(bytes, p, order), order),
            None => Err(ReadError::TruncatedData),
        };
        assert(((i + 1) as nat - 1) as nat == i as nat);
        match read {
            Ok(brti) => {
                brtis.push(BrtiOffset { brti });
                assert(crate::container::brtis_view(brtis@) =~= before.push(brti@));
            },
            Err(e) => {
                proof {
                    assert(brtis_at(bytes@, table as int, order, (i + 1) as nat) is Err);
                    lemma_brtis_error_persists(
                        bytes@,
                        table as int,
                        order,
                        (i + 1) as nat,
                        count as nat,
                    );
                }
                return Err(e);
            },
        }
        i = i + 1;
    }
    Ok(brtis)
}

/// The header at the start of a file.
fn read_header(bytes: &[u8], order: ByteOrder) -> (r: Result<Header, ReadError>)
    requires
        in_bounds(bytes@, 0, HEADER_SIZE as int),
    ensures
        decoded(r) == header_at(bytes@, order),
        r matches Ok(h) ==> section_count_sum(h@.reloc_table.sections)
            == h@.reloc_table.entries.len(),
{
    let len: usize = bytes.len();
    let str_section = match read_str_section(bytes, read_u16(bytes, 22, order) as u64, order) {
        Ok(s) => s,
        Err(e) => {
            return Err(e);
        },
    };
    let reloc_table = match read_reloc_table(bytes, read_u32(bytes, 24, order) as u64, order) {
        Ok(t) => t,
        Err(e) => {
            return Err(e);
        },
    };
    Ok(
        Header {
            revision: read_u16(bytes, 14, order),
            file_name: read_u32(bytes, 16, order),
            unk: read_u16(bytes, 20, order),
            str_section,
            reloc_table,
            file_size: read_u32(bytes, 28, order),
        },
    )
}

/// The block of descriptors, payload and dictionary behind the header.
fn read_nx_header(bytes: &[u8], order: ByteOrder) -> (r: Result<NxHeader, ReadError>)
    ensures
        decoded(r) == nx_header_at(bytes@, order),
{
    let len: usize = bytes.len();
    if locate(bytes, HEADER_SIZE, FIXED_SIZE - HEADER_SIZE).is_none() {
        return Err(ReadError::TruncatedData);
    }
    if !has_magic(bytes, 32, MAGIC_NX) {
        return Err(ReadError::MalformedHeader);
    }
    let count: u32 = read_u32(bytes, 36, order);
    let brtis = match read_brtis(bytes, read_u64(bytes, 40, order), order, count) {
        Ok(b) => b,
        Err(e) => {
            return Err(e);
        },
    };
    let brtd = match read_brtd(bytes, read_u64(bytes, 48, order), order) {
        Ok(b) => b,
        Err(e) => {
            return Err(e);
        },
    };
    let dict = match read_dict(bytes, read_u64(bytes, 56, order), order) {
        Ok(d) => d,
        Err(e) => {
            return Err(e);
        },
    };
    Ok(
        NxHeader {
            brtis,
            brtd,
            dict,
            dict_size: read_u64(bytes, 64, order),
            unk: read_u64x42(bytes, 72, order),
        },
    )
}

impl Bntx {
    /// Decodes a container from the bytes of a file. Nothing is returned of a
    /// file that cannot be decoded in full.
    pub fn read(bytes: &[u8]) -> (r: Result<Bntx, ReadError>)
        ensures
            decoded(r) == decoding(bytes@),
            r matches Ok(b) ==> section_count_sum(b@.header.reloc_table.sections)
                == b@.header.reloc_table.entries.len(),
    {
        let len: usize = bytes.len();
        if locate(bytes, 0, 4).is_none() {
            return Err(ReadError::TruncatedData);
        }
        if !has_magic(bytes, 0, MAGIC_BNTX) {
            return Err(ReadError::MalformedHeader);
        }
        if locate(bytes, 0, HEADER_SIZE).is_none() {
            return Err(ReadError::TruncatedData);
        }
        let marker: u16 = read_u16(bytes, 12, ByteOrder::BigEndian);
        let order = if marker == BOM_LITTLE {
            ByteOrder::LittleEndian
        } else if marker == BOM_BIG {
            ByteOrder::BigEndian
        } else {
            return Err(ReadError::MalformedHeader);
        };
        let header = match read_header(bytes, order) {
            Ok(h) => h,
            Err(e) => {
                return Err(e);
            },
        };
        let nx_header = match read_nx_header(bytes, order) {
            Ok(h) => h,
            Err(e) => {
                return Err(e);
            },
        };
        Ok(
            Bntx {
                unk: read_u32(bytes, 4, ByteOrder::LittleEndian),
                version: (
                    read_u16(bytes, 8, ByteOrder::LittleEndian),
                    read_u16(bytes, 10, ByteOrder::LittleEndian),
                ),
                bom: order,
                header,
                nx_header,
            },
        )
    }
}

} // verus!
