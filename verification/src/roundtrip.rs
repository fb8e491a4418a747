//! Decoding what was encoded: every structure of a file is read back from
//! the bytes that were written for it, and so is the container as a whole.
use vstd::prelude::*;
use vstd::utf8::{encode_utf8, encode_utf8_decode_utf8, encode_utf8_valid_utf8};
use crate::codec::{
    bits_of, i32_of, in_bounds, lemma_bytes_len, lemma_i32_round_trip, lemma_u16_round_trip,
    lemma_u32_round_trip, lemma_u64_round_trip, u16_at, u16_bytes, u32_at, u32_bytes, u64_at,
    u64_bytes, zeros,
};
use crate::container::{
    BntxView, BrtiView, DictNode, DictSectionView, HeaderView, NxHeaderView, RelocationEntry,
    RelocationSection, RelocationTableView, StrSectionView,
};
use crate::decode::{
    brtd_at, brti_at, brtis_at, byte_order_of, decoding, dict_at, entries_at, entry_at,
    header_at, magic_at, node_at, nodes_at, nx_header_at, reloc_table_at, section_at,
    sections_at, str_at, str_section_at, strs_at, text_of, u32s_at, u64s_at, ReadError,
    BRTI_SIZE, FIXED_SIZE, HEADER_SIZE, MAGIC_BNTX, MAGIC_BRTD, MAGIC_BRTI, MAGIC_DIC, MAGIC_NX,
    MAGIC_RLT, MAGIC_STR,
};
use crate::format::{ByteOrder, SurfaceFormat, TextureDimension, TextureViewDimension};
use crate::layout::{
    bom_bytes, brtd_bytes, brti_block, brti_part_a, brti_part_b, brti_part_c, brti_part_d,
    brti_pointers, brti_record, brti_record_len, brtis_bytes, brtis_len, dict_bytes, entry_bytes,
    head_bytes, head_part_a, head_part_b, head_part_c, lemma_records_item, lemma_records_len,
    magic_bytes, node_bytes, records_bytes, reloc_bytes, section_bytes, str_bytes, str_end,
    str_section_bytes, str_section_end, strs_bytes, strs_end, u64s_bytes, BrtiPointers, Head,
};
use crate::encode::{lemma_brti_block_len, lemma_head_len};
use crate::interchange::SurfaceView;
use crate::surface::{
    container_from_surface, lemma_new_container_relocation_consistent, new_container,
    new_descriptor, section_count_sum,
};
use crate::tiling::BlockHeight;
use crate::tiling::BRTD_SECTION_START;

verus! {

/// A 16-bit integer is read from where its bytes lie inside a structure.
pub proof fn lemma_read_u16(
    bytes: Seq<u8>,
    pos: int,
    part: Seq<u8>,
    at: int,
    v: u16,
    order: ByteOrder,
)
    requires
        in_bounds(bytes, pos, part.len() as int),
        bytes.subrange(pos, pos + part.len()) == part,
        0 <= at,
        at + 2 <= part.len(),
        part.subrange(at, at + 2) == u16_bytes(v, order),
    ensures
        u16_at(bytes, pos + at, order) == v,
{
    assert(bytes.subrange(pos + at, pos + at + 2) =~= part.subrange(at, at + 2));
    lemma_u16_round_trip(bytes, pos + at, v, order);
}

/// A 32-bit integer is read from where its bytes lie inside a structure.
pub proof fn lemma_read_u32(
    bytes: Seq<u8>,
    pos: int,
    part: Seq<u8>,
    at: int,
    v: u32,
    order: ByteOrder,
)
    requires
        in_bounds(bytes, pos, part.len() as int),
        bytes.subrange(pos, pos + part.len()) == part,
        0 <= at,
        at + 4 <= part.len(),
        part.subrange(at, at + 4) == u32_bytes(v, order),
    ensures
        u32_at(bytes, pos + at, order) == v,
{
    assert(bytes.subrange(pos + at, pos + at + 4) =~= part.subrange(at, at + 4));
    lemma_u32_round_trip(bytes, pos + at, v, order);
}

/// A 64-bit integer is read from where its bytes lie inside a structure.
pub proof fn lemma_read_u64(
    bytes: Seq<u8>,
    pos: int,
    part: Seq<u8>,
    at: int,
    v: u64,
    order: ByteOrder,
)
    requires
        in_bounds(bytes, pos, part.len() as int),
        bytes.subrange(pos, pos + part.len()) == part,
        0 <= at,
        at + 8 <= part.len(),
        part.subrange(at, at + 8) == u64_bytes(v, order),
    ensures
        u64_at(bytes, pos + at, order) == v,
{
    assert(bytes.subrange(pos + at, pos + at + 8) =~= part.subrange(at, at + 8));
    lemma_u64_round_trip(bytes, pos + at, v, order);
}

/// A magic is found where its bytes lie inside a structure.
pub proof fn lemma_read_magic(bytes: Seq<u8>, pos: int, part: Seq<u8>, at: int, magic: u32)
    requires
        in_bounds(bytes, pos, part.len() as int),
        bytes.subrange(pos, pos + part.len()) == part,
        0 <= at,
        at + 4 <= part.len(),
        part.subrange(at, at + 4) == magic_bytes(magic),
    ensures
        magic_at(bytes, pos + at, magic),
{
    lemma_read_u32(bytes, pos, part, at, magic, ByteOrder::BigEndian);
}

/// A part of a structure lies in the bytes where the structure does, as far
/// into them as into the structure.
pub proof fn lemma_part(bytes: Seq<u8>, pos: int, whole: Seq<u8>, at: int, part: Seq<u8>)
    requires
        in_bounds(bytes, pos, whole.len() as int),
        bytes.subrange(pos, pos + whole.len()) == whole,
        0 <= at,
        at + part.len() <= whole.len(),
        whole.subrange(at, at + part.len()) == part,
    ensures
        in_bounds(bytes, pos + at, part.len() as int),
        bytes.subrange(pos + at, pos + at + part.len()) == part,
{
    assert(bytes.subrange(pos + at, pos + at + part.len()) =~= whole.subrange(
        at,
        at + part.len(),
    ));
}

/// A list of 64-bit integers is read back from its bytes.
pub proof fn lemma_u64s_at(bytes: Seq<u8>, pos: int, items: Seq<u64>, order: ByteOrder)
    requires
        in_bounds(bytes, pos, 8 * (items.len() as int)),
        bytes.subrange(pos, pos + 8 * items.len()) == u64s_bytes(items, order),
    ensures
        u64s_at(bytes, pos, order, items.len()) == items,
{
    let f = |x: u64| u64_bytes(x, order);
    let part = u64s_bytes(items, order);
    lemma_bytes_len();
    assert forall|x: u64| #[trigger] f(x).len() == 8 by {}
    lemma_records_len(items, f, 8);
    assert forall|i: int| 0 <= i < items.len() implies u64_at(bytes, pos + 8 * i, order)
        == items[i] by {
        lemma_records_item(items, f, 8, i);
        lemma_read_u64(bytes, pos, part, 8 * i, items[i], order);
    }
    assert(u64s_at(bytes, pos, order, items.len()) =~= items);
}

/// A list of 32-bit integers is read back from its bytes.
pub proof fn lemma_u32s_at(bytes: Seq<u8>, pos: int, items: Seq<u32>, order: ByteOrder)
    requires
        in_bounds(bytes, pos, 4 * (items.len() as int)),
        bytes.subrange(pos, pos + 4 * items.len()) == records_bytes(
            items,
            |x: u32| u32_bytes(x, order),
        ),
    ensures
        u32s_at(bytes, pos, order, items.len()) == items,
{
    let f = |x: u32| u32_bytes(x, order);
    let part = records_bytes(items, f);
    lemma_bytes_len();
    assert forall|x: u32| #[trigger] f(x).len() == 4 by {}
    lemma_records_len(items, f, 4);
    assert forall|i: int| 0 <= i < items.len() implies u32_at(bytes, pos + 4 * i, order)
        == items[i] by {
        lemma_records_item(items, f, 4, i);
        lemma_read_u32(bytes, pos, part, 4 * i, items[i], order);
    }
    assert(u32s_at(bytes, pos, order, items.len()) =~= items);
}

/// A section of a relocation table is read back from its bytes.
pub proof fn lemma_section_at(bytes: Seq<u8>, pos: int, s: RelocationSection, order: ByteOrder)
    requires
        in_bounds(bytes, pos, 24),
        bytes.subrange(pos, pos + 24) == section_bytes(s, order),
    ensures
        section_at(bytes, pos, order) == s,
{
    let part = section_bytes(s, order);
    lemma_bytes_len();
    assert(part.subrange(0, 8) =~= u64_bytes(s.pointer, order));
    assert(part.subrange(8, 12) =~= u32_bytes(s.position, order));
    assert(part.subrange(12, 16) =~= u32_bytes(s.size, order));
    assert(part.subrange(16, 20) =~= u32_bytes(s.index, order));
    assert(part.subrange(20, 24) =~= u32_bytes(s.count, order));
    lemma_read_u64(bytes, pos, part, 0, s.pointer, order);
    lemma_read_u32(bytes, pos, part, 8, s.position, order);
    lemma_read_u32(bytes, pos, part, 12, s.size, order);
    lemma_read_u32(bytes, pos, part, 16, s.index, order);
    lemma_read_u32(bytes, pos, part, 20, s.count, order);
}

/// An entry of a relocation table is read back from its bytes.
pub proof fn lemma_entry_at(bytes: Seq<u8>, pos: int, e: RelocationEntry, order: ByteOrder)
    requires
        in_bounds(bytes, pos, 8),
        bytes.subrange(pos, pos + 8) == entry_bytes(e, order),
    ensures
        entry_at(bytes, pos, order) == e,
{
    let part = entry_bytes(e, order);
    lemma_bytes_len();
    assert(part.subrange(0, 4) =~= u32_bytes(e.position, order));
    assert(part.subrange(4, 6) =~= u16_bytes(e.struct_count, order));
    lemma_read_u32(bytes, pos, part, 0, e.position, order);
    lemma_read_u16(bytes, pos, part, 4, e.struct_count, order);
    assert(bytes[pos + 6] == bytes.subrange(pos, pos + 8)[6]);
    assert(bytes[pos + 7] == bytes.subrange(pos, pos + 8)[7]);
    assert(part[6] == e.offset_count);
    assert(part[7] == e.padding_count);
}

/// A node of a dictionary is read back from its bytes.
pub proof fn lemma_node_at(bytes: Seq<u8>, pos: int, n: DictNode, order: ByteOrder)
    requires
        in_bounds(bytes, pos, 16),
        bytes.subrange(pos, pos + 16) == node_bytes(n, order),
    ensures
        node_at(bytes, pos, order) == n,
{
    let part = node_bytes(n, order);
    lemma_bytes_len();
    assert(part.subrange(0, 4) =~= u32_bytes(bits_of(n.reference), order));
    assert(part.subrange(4, 6) =~= u16_bytes(n.left_index, order));
    assert(part.subrange(6, 8) =~= u16_bytes(n.right_index, order));
    assert(part.subrange(8, 16) =~= u64_bytes(n.name_offset, order));
    lemma_read_u32(bytes, pos, part, 0, bits_of(n.reference), order);
    lemma_read_u16(bytes, pos, part, 4, n.left_index, order);
    lemma_read_u16(bytes, pos, part, 6, n.right_index, order);
    lemma_read_u64(bytes, pos, part, 8, n.name_offset, order);
    lemma_i32_round_trip(n.reference);
}

/// The sections of a relocation table are read back from their bytes.
pub proof fn lemma_sections_at(
    bytes: Seq<u8>,
    pos: int,
    items: Seq<RelocationSection>,
    order: ByteOrder,
)
    requires
        in_bounds(bytes, pos, 24 * (items.len() as int)),
        bytes.subrange(pos, pos + 24 * items.len()) == records_bytes(
            items,
            |s: RelocationSection| section_bytes(s, order),
        ),
    ensures
        sections_at(bytes, pos, order, items.len()) == items,
{
    let f = |s: RelocationSection| section_bytes(s, order);
    let part = records_bytes(items, f);
    lemma_bytes_len();
    assert forall|x: RelocationSection| #[trigger] f(x).len() == 24 by {}
    lemma_records_len(items, f, 24);
    assert forall|i: int| 0 <= i < items.len() implies section_at(bytes, pos + 24 * i, order)
        == items[i] by {
        lemma_records_item(items, f, 24, i);
        lemma_part(bytes, pos, part, 24 * i, f(items[i]));
        lemma_section_at(bytes, pos + 24 * i, items[i], order);
    }
    assert(sections_at(bytes, pos, order, items.len()) =~= items);
}

/// The entries of a relocation table are read back from their bytes.
pub proof fn lemma_entries_at(
    bytes: Seq<u8>,
    pos: int,
    items: Seq<RelocationEntry>,
    order: ByteOrder,
)
    requires
        in_bounds(bytes, pos, 8 * (items.len() as int)),
        bytes.subrange(pos, pos + 8 * items.len()) == records_bytes(
            items,
            |e: RelocationEntry| entry_bytes(e, order),
        ),
    ensures
        entries_at(bytes, pos, order, items.len()) == items,
{
    let f = |e: RelocationEntry| entry_bytes(e, order);
    let part = records_bytes(items, f);
    lemma_bytes_len();
    assert forall|x: RelocationEntry| #[trigger] f(x).len() == 8 by {}
    lemma_records_len(items, f, 8);
    assert forall|i: int| 0 <= i < items.len() implies entry_at(bytes, pos + 8 * i, order)
        == items[i] by {
        lemma_records_item(items, f, 8, i);
        lemma_part(bytes, pos, part, 8 * i, f(items[i]));
        lemma_entry_at(bytes, pos + 8 * i, items[i], order);
    }
    assert(entries_at(bytes, pos, order, items.len()) =~= items);
}

/// The nodes of a dictionary are read back from their bytes.
pub proof fn lemma_nodes_at(bytes: Seq<u8>, pos: int, items: Seq<DictNode>, order: ByteOrder)
    requires
        in_bounds(bytes, pos, 16 * (items.len() as int)),
        bytes.subrange(pos, pos + 16 * items.len()) == records_bytes(
            items,
            |n: DictNode| node_bytes(n, order),
        ),
    ensures
        nodes_at(bytes, pos, order, items.len()) == items,
{
    let f = |n: DictNode| node_bytes(n, order);
    let part = records_bytes(items, f);
    lemma_bytes_len();
    assert forall|x: DictNode| #[trigger] f(x).len() == 16 by {}
    lemma_records_len(items, f, 16);
    assert forall|i: int| 0 <= i < items.len() implies node_at(bytes, pos + 16 * i, order)
        == items[i] by {
        lemma_records_item(items, f, 16, i);
        lemma_part(bytes, pos, part, 16 * i, f(items[i]));
        lemma_node_at(bytes, pos + 16 * i, items[i], order);
    }
    assert(nodes_at(bytes, pos, order, items.len()) =~= items);
}

/// The size in bytes of a relocation table.
pub open spec fn reloc_len(t: RelocationTableView) -> int {
    16 + 24 * (t.sections.len() as int) + 8 * (t.entries.len() as int)
}

/// A relocation table that declares as many sections as it has, and whose
/// sections count as many entries as it has, is read back from its bytes.
pub proof fn lemma_reloc_table_at(
    bytes: Seq<u8>,
    pos: int,
    t: RelocationTableView,
    order: ByteOrder,
)
    requires
        in_bounds(bytes, pos, reloc_len(t)),
        bytes.subrange(pos, pos + reloc_len(t)) == reloc_bytes(t, order),
        t.count == t.sections.len(),
        section_count_sum(t.sections) == t.entries.len(),
    ensures
        reloc_table_at(bytes, pos, order) == Ok::<RelocationTableView, ReadError>(t),
{
    reveal(reloc_bytes);
    reveal(reloc_table_at);
    let part = reloc_bytes(t, order);
    let fs = |s: RelocationSection| section_bytes(s, order);
    let fe = |e: RelocationEntry| entry_bytes(e, order);
    lemma_bytes_len();
    assert forall|x: RelocationSection| #[trigger] fs(x).len() == 24 by {}
    assert forall|x: RelocationEntry| #[trigger] fe(x).len() == 8 by {}
    lemma_records_len(t.sections, fs, 24);
    lemma_records_len(t.entries, fe, 8);
    let n = t.sections.len() as int;
    let m = t.entries.len() as int;
    assert(part.subrange(0, 4) =~= magic_bytes(MAGIC_RLT));
    assert(part.subrange(4, 8) =~= u32_bytes(t.position, order));
    assert(part.subrange(8, 12) =~= u32_bytes(t.count, order));
    assert(part.subrange(12, 16) =~= u32_bytes(t.unk1, order));
    assert(part.subrange(16, 16 + 24 * n) =~= records_bytes(t.sections, fs));
    assert(part.subrange(16 + 24 * n, 16 + 24 * n + 8 * m) =~= records_bytes(t.entries, fe));
    lemma_read_magic(bytes, pos, part, 0, MAGIC_RLT);
    lemma_read_u32(bytes, pos, part, 4, t.position, order);
    lemma_read_u32(bytes, pos, part, 8, t.count, order);
    lemma_read_u32(bytes, pos, part, 12, t.unk1, order);
    lemma_part(bytes, pos, part, 16, records_bytes(t.sections, fs));
    lemma_part(bytes, pos, part, 16 + 24 * n, records_bytes(t.entries, fe));
    lemma_sections_at(bytes, pos + 16, t.sections, order);
    lemma_entries_at(bytes, pos + 16 + 24 * n, t.entries, order);
}

/// A dictionary that declares one node fewer than it has, the root not
/// being counted, is read back from its bytes.
pub proof fn lemma_dict_at(bytes: Seq<u8>, pos: int, d: DictSectionView, order: ByteOrder)
    requires
        in_bounds(bytes, pos, 8 + 16 * (d.nodes.len() as int)),
        bytes.subrange(pos, pos + 8 + 16 * d.nodes.len()) == dict_bytes(d, order),
        d.node_count + 1 == d.nodes.len(),
    ensures
        dict_at(bytes, pos, order) == Ok::<DictSectionView, ReadError>(d),
{
    reveal(dict_bytes);
    reveal(dict_at);
    let part = dict_bytes(d, order);
    let f = |n: DictNode| node_bytes(n, order);
    lemma_bytes_len();
    assert forall|x: DictNode| #[trigger] f(x).len() == 16 by {}
    lemma_records_len(d.nodes, f, 16);
    let n = d.nodes.len() as int;
    assert(part.subrange(0, 4) =~= magic_bytes(MAGIC_DIC));
    assert(part.subrange(4, 8) =~= u32_bytes(d.node_count, order));
    assert(part.subrange(8, 8 + 16 * n) =~= records_bytes(d.nodes, f));
    lemma_read_magic(bytes, pos, part, 0, MAGIC_DIC);
    lemma_read_u32(bytes, pos, part, 4, d.node_count, order);
    lemma_part(bytes, pos, part, 8, records_bytes(d.nodes, f));
    lemma_nodes_at(bytes, pos + 8, d.nodes, order);
}

/// A payload is read back from the bytes of its block.
pub proof fn lemma_brtd_at(bytes: Seq<u8>, pos: int, data: Seq<u8>, order: ByteOrder)
    requires
        in_bounds(bytes, pos, 16 + (data.len() as int)),
        bytes.subrange(pos, pos + 16 + data.len()) == brtd_bytes(data, order),
        data.len() + 16 <= u64::MAX,
    ensures
        brtd_at(bytes, pos, order) == Ok::<Seq<u8>, ReadError>(data),
{
    reveal(brtd_bytes);
    reveal(brtd_at);
    let part = brtd_bytes(data, order);
    lemma_bytes_len();
    let size = (data.len() + 16) as u64;
    assert(part.subrange(0, 4) =~= magic_bytes(MAGIC_BRTD));
    assert(part.subrange(8, 16) =~= u64_bytes(size, order));
    assert(part.subrange(16, 16 + (data.len() as int)) =~= data);
    lemma_read_magic(bytes, pos, part, 0, MAGIC_BRTD);
    lemma_read_u64(bytes, pos, part, 8, size, order);
    lemma_part(bytes, pos, part, 16, data);
    assert(bytes.subrange(pos + 16, pos + size) =~= data);
}

/// The fields of the first 24 bytes of a texture descriptor are read back.
pub proof fn lemma_brti_part_a(bytes: Seq<u8>, pos: int, b: BrtiView, order: ByteOrder)
    requires
        in_bounds(bytes, pos, 24),
        bytes.subrange(pos, pos + 24) == brti_part_a(b, order),
        b.unk4.len() == 6,
        b.unk.len() == 4,
    ensures
        magic_at(bytes, pos + 0, MAGIC_BRTI),
        u32_at(bytes, pos + 4, order) == b.size,
        u64_at(bytes, pos + 8, order) == b.size2,
        bytes[pos + 16] == b.flags,
        bytes[pos + 17] == b.texture_dimension.spec_code(),
        u16_at(bytes, pos + 18, order) == b.tile_mode,
        u16_at(bytes, pos + 20, order) == b.swizzle,
        u16_at(bytes, pos + 22, order) == b.mipmap_count,
{
    let part = brti_part_a(b, order);
    let f = |x: u32| u32_bytes(x, order);
    lemma_bytes_len();
    assert forall|x: u32| #[trigger] f(x).len() == 4 by {}
    lemma_records_len(b.unk4, f, 4);
    lemma_records_len(b.unk, f, 4);
    assert(part.subrange(0, 4) =~= magic_bytes(MAGIC_BRTI));
    assert(part.subrange(4, 8) =~= u32_bytes(b.size, order));
    assert(part.subrange(8, 16) =~= u64_bytes(b.size2, order));
    assert(part[16] == b.flags);
    assert(part[17] == b.texture_dimension.spec_code());
    assert(part.subrange(18, 20) =~= u16_bytes(b.tile_mode, order));
    assert(part.subrange(20, 22) =~= u16_bytes(b.swizzle, order));
    assert(part.subrange(22, 24) =~= u16_bytes(b.mipmap_count, order));
    lemma_read_magic(bytes, pos, part, 0, MAGIC_BRTI);
    lemma_read_u32(bytes, pos, part, 4, b.size, order);
    lemma_read_u64(bytes, pos, part, 8, b.size2, order);
    assert(bytes[pos + 16] == bytes.subrange(pos, pos + part.len())[16]);
    assert(bytes[pos + 17] == bytes.subrange(pos, pos + part.len())[17]);
    lemma_read_u16(bytes, pos, part, 18, b.tile_mode, order);
    lemma_read_u16(bytes, pos, part, 20, b.swizzle, order);
    lemma_read_u16(bytes, pos, part, 22, b.mipmap_count, order);
}

/// The fields of the bytes 24 to 56 of a texture descriptor are read back.
pub proof fn lemma_brti_part_b(bytes: Seq<u8>, pos: int, b: BrtiView, order: ByteOrder)
    requires
        in_bounds(bytes, pos, 32),
        bytes.subrange(pos, pos + 32) == brti_part_b(b, order),
        b.unk4.len() == 6,
        b.unk.len() == 4,
    ensures
        u32_at(bytes, pos + 0, order) == b.multi_sample_count,
        u32_at(bytes, pos + 4, order) == b.image_format.spec_code(),
        u32_at(bytes, pos + 8, order) == b.unk2,
        u32_at(bytes, pos + 12, order) == b.width,
        u32_at(bytes, pos + 16, order) == b.height,
        u32_at(bytes, pos + 20, order) == b.depth,
        u32_at(bytes, pos + 24, order) == b.layer_count,
        u32_at(bytes, pos + 28, order) == b.block_height_log2,
{
    let part = brti_part_b(b, order);
    let f = |x: u32| u32_bytes(x, order);
    lemma_bytes_len();
    assert forall|x: u32| #[trigger] f(x).len() == 4 by {}
    lemma_records_len(b.unk4, f, 4);
    lemma_records_len(b.unk, f, 4);
    assert(part.subrange(0, 4) =~= u32_bytes(b.multi_sample_count, order));
    assert(part.subrange(4, 8) =~= u32_bytes(b.image_format.spec_code(), order));
    assert(part.subrange(8, 12) =~= u32_bytes(b.unk2, order));
    assert(part.subrange(12, 16) =~= u32_bytes(b.width, order));
    assert(part.subrange(16, 20) =~= u32_bytes(b.height, order));
    assert(part.subrange(20, 24) =~= u32_bytes(b.depth, order));
    assert(part.subrange(24, 28) =~= u32_bytes(b.layer_count, order));
    assert(part.subrange(28, 32) =~= u32_bytes(b.block_height_log2, order));
    lemma_read_u32(bytes, pos, part, 0, b.multi_sample_count, order);
    lemma_read_u32(bytes, pos, part, 4, b.image_format.spec_code(), order);
    lemma_read_u32(bytes, pos, part, 8, b.unk2, order);
    lemma_read_u32(bytes, pos, part, 12, b.width, order);
    lemma_read_u32(bytes, pos, part, 16, b.height, order);
    lemma_read_u32(bytes, pos, part, 20, b.depth, order);
    lemma_read_u32(bytes, pos, part, 24, b.layer_count, order);
    lemma_read_u32(bytes, pos, part, 28, b.block_height_log2, order);
}

/// The fields of the bytes 56 to 112 of a texture descriptor are read back.
pub proof fn lemma_brti_part_c(bytes: Seq<u8>, pos: int, b: BrtiView, order: ByteOrder)
    requires
        in_bounds(bytes, pos, 56),
        bytes.subrange(pos, pos + 56) == brti_part_c(b, order),
        b.unk4.len() == 6,
        b.unk.len() == 4,
    ensures
        u32_at(bytes, pos + 24, order) == b.image_size,
        u32_at(bytes, pos + 28, order) == b.align,
        u32_at(bytes, pos + 32, order) == b.comp_sel,
        u32_at(bytes, pos + 36, order) == b.texture_view_dimension.spec_code(),
        u64_at(bytes, pos + 40, order) == b.name_addr,
        u64_at(bytes, pos + 48, order) == b.parent_addr,
        u32s_at(bytes, pos, order, 6) == b.unk4,
{
    let part = brti_part_c(b, order);
    let f = |x: u32| u32_bytes(x, order);
    lemma_bytes_len();
    assert forall|x: u32| #[trigger] f(x).len() == 4 by {}
    lemma_records_len(b.unk4, f, 4);
    lemma_records_len(b.unk, f, 4);
    assert(part.subrange(24, 28) =~= u32_bytes(b.image_size, order));
    assert(part.subrange(28, 32) =~= u32_bytes(b.align, order));
    assert(part.subrange(32, 36) =~= u32_bytes(b.comp_sel, order));
    assert(part.subrange(36, 40) =~= u32_bytes(b.texture_view_dimension.spec_code(), order));
    assert(part.subrange(40, 48) =~= u64_bytes(b.name_addr, order));
    assert(part.subrange(48, 56) =~= u64_bytes(b.parent_addr, order));
    lemma_read_u32(bytes, pos, part, 24, b.image_size, order);
    lemma_read_u32(bytes, pos, part, 28, b.align, order);
    lemma_read_u32(bytes, pos, part, 32, b.comp_sel, order);
    lemma_read_u32(bytes, pos, part, 36, b.texture_view_dimension.spec_code(), order);
    lemma_read_u64(bytes, pos, part, 40, b.name_addr, order);
    lemma_read_u64(bytes, pos, part, 48, b.parent_addr, order);
    assert(part.subrange(0, 24) =~= records_bytes(b.unk4, f));
    lemma_part(bytes, pos, part, 0, records_bytes(b.unk4, f));
    lemma_u32s_at(bytes, pos, b.unk4, order);
}

/// The fields of the bytes 112 to 160 of a texture descriptor are read back.
pub proof fn lemma_brti_part_d(bytes: Seq<u8>, pos: int, b: BrtiView, p: BrtiPointers, order: ByteOrder)
    requires
        in_bounds(bytes, pos, 48),
        bytes.subrange(pos, pos + 48) == brti_part_d(b, p, order),
        b.unk4.len() == 6,
        b.unk.len() == 4,
    ensures
        u64_at(bytes, pos + 0, order) == p.mipmaps,
        u64_at(bytes, pos + 8, order) == b.unk5,
        u64_at(bytes, pos + 16, order) == p.unk6,
        u64_at(bytes, pos + 24, order) == p.unk7,
        u32s_at(bytes, pos + 32, order, 4) == b.unk,
{
    let part = brti_part_d(b, p, order);
    let f = |x: u32| u32_bytes(x, order);
    lemma_bytes_len();
    assert forall|x: u32| #[trigger] f(x).len() == 4 by {}
    lemma_records_len(b.unk4, f, 4);
    lemma_records_len(b.unk, f, 4);
    assert(part.subrange(0, 8) =~= u64_bytes(p.mipmaps, order));
    assert(part.subrange(8, 16) =~= u64_bytes(b.unk5, order));
    assert(part.subrange(16, 24) =~= u64_bytes(p.unk6, order));
    assert(part.subrange(24, 32) =~= u64_bytes(p.unk7, order));
    lemma_read_u64(bytes, pos, part, 0, p.mipmaps, order);
    lemma_read_u64(bytes, pos, part, 8, b.unk5, order);
    lemma_read_u64(bytes, pos, part, 16, p.unk6, order);
    lemma_read_u64(bytes, pos, part, 24, p.unk7, order);
    assert(part.subrange(32, 48) =~= records_bytes(b.unk, f));
    lemma_part(bytes, pos, part, 32, records_bytes(b.unk, f));
    lemma_u32s_at(bytes, pos + 32, b.unk, order);
}

/// A string whose length fits in 16 bits is read back from its bytes.
pub proof fn lemma_str_at(bytes: Seq<u8>, pos: int, s: Seq<char>, order: ByteOrder)
    requires
        0 <= pos,
        in_bounds(bytes, pos, str_end(s, pos) - pos),
        bytes.subrange(pos, str_end(s, pos)) == str_bytes(s, pos, order),
        encode_utf8(s).len() <= u16::MAX,
    ensures
        str_at(bytes, pos, order) == Ok::<(Seq<char>, int), ReadError>((s, str_end(s, pos))),
        str_bytes(s, pos, order).len() == str_end(s, pos) - pos,
{
    let part = str_bytes(s, pos, order);
    let text = encode_utf8(s);
    let len = text.len() as int;
    lemma_bytes_len();
    assert(part.len() == str_end(s, pos) - pos);
    assert(part.subrange(0, 2) =~= u16_bytes(len as u16, order));
    assert(part.subrange(2, 2 + len) =~= text);
    lemma_read_u16(bytes, pos, part, 0, len as u16, order);
    lemma_part(bytes, pos, part, 2, text);
    encode_utf8_valid_utf8(s);
    encode_utf8_decode_utf8(s);
}

/// Strings whose lengths fit in 16 bits take the bytes from where they
/// begin to where they end.
pub proof fn lemma_strs_len(strings: Seq<Seq<char>>, pos: int, order: ByteOrder)
    requires
        0 <= pos,
    ensures
        strs_bytes(strings, pos, order).len() == strs_end(strings, pos) - pos,
        pos <= strs_end(strings, pos),
    decreases strings.len(),
{
    if strings.len() > 0 {
        lemma_strs_len(strings.drop_last(), pos, order);
        lemma_bytes_len();
    }
}

/// A list of strings whose lengths fit in 16 bits is read back from its
/// bytes.
pub proof fn lemma_strs_at(bytes: Seq<u8>, pos: int, strings: Seq<Seq<char>>, order: ByteOrder)
    requires
        0 <= pos,
        in_bounds(bytes, pos, strs_end(strings, pos) - pos),
        bytes.subrange(pos, strs_end(strings, pos)) == strs_bytes(strings, pos, order),
        forall|i: int| 0 <= i < strings.len() ==> encode_utf8(#[trigger] strings[i]).len() <= u16::MAX,
    ensures
        strs_at(bytes, pos, order, strings.len()) == Ok::<(Seq<Seq<char>>, int), ReadError>(
            (strings, strs_end(strings, pos)),
        ),
    decreases strings.len(),
{
    if strings.len() > 0 {
        let init = strings.drop_last();
        let mid = strs_end(init, pos);
        let end = strs_end(strings, pos);
        let whole = strs_bytes(strings, pos, order);
        lemma_strs_len(init, pos, order);
        lemma_strs_len(strings, pos, order);
        lemma_bytes_len();
        assert(whole.subrange(0, mid - pos) =~= strs_bytes(init, pos, order));
        assert(whole.subrange(mid - pos, end - pos) =~= str_bytes(strings.last(), mid, order));
        lemma_part(bytes, pos, whole, 0, strs_bytes(init, pos, order));
        lemma_part(bytes, pos, whole, mid - pos, str_bytes(strings.last(), mid, order));
        lemma_strs_at(bytes, pos, init, order);
        lemma_str_at(bytes, mid, strings.last(), order);
        assert(init.push(strings.last()) =~= strings);
    } else {
        assert(strings =~= Seq::<Seq<char>>::empty());
    }
}

/// A string section whose strings have lengths that fit in 16 bits takes
/// the bytes from where it begins to where it ends.
pub proof fn lemma_str_section_len(s: StrSectionView, pos: int, order: ByteOrder)
    requires
        0 <= pos,
    ensures
        str_section_bytes(s, pos, order).len() == str_section_end(s, pos) - pos,
        pos + 20 <= str_section_end(s, pos),
{
    reveal(str_section_bytes);
    lemma_bytes_len();
    lemma_strs_len(s.strings, str_end(s.empty, pos + 20), order);
}

/// A string section that declares as many strings as it has, each with a
/// length that fits in 16 bits, is read back from its bytes.
pub proof fn lemma_str_section_at(bytes: Seq<u8>, pos: int, s: StrSectionView, order: ByteOrder)
    requires
        0 <= pos,
        in_bounds(bytes, pos, str_section_end(s, pos) - pos),
        bytes.subrange(pos, str_section_end(s, pos)) == str_section_bytes(s, pos, order),
        s.str_count == s.strings.len(),
        encode_utf8(s.empty).len() <= u16::MAX,
        forall|i: int|
            0 <= i < s.strings.len() ==> encode_utf8(#[trigger] s.strings[i]).len() <= u16::MAX,
    ensures
        str_section_at(bytes, pos, order) == Ok::<StrSectionView, ReadError>(s),
{
    reveal(str_section_bytes);
    reveal(str_section_at);
    let part = str_section_bytes(s, pos, order);
    let first = str_end(s.empty, pos + 20);
    let end = str_section_end(s, pos);
    lemma_bytes_len();
    lemma_str_section_len(s, pos, order);
    lemma_strs_len(s.strings, first, order);
    assert(part.subrange(0, 4) =~= magic_bytes(MAGIC_STR));
    assert(part.subrange(4, 8) =~= u32_bytes(s.block_size, order));
    assert(part.subrange(8, 16) =~= u64_bytes(s.block_offset, order));
    assert(part.subrange(16, 20) =~= u32_bytes(s.str_count, order));
    assert(part.subrange(20, first - pos) =~= str_bytes(s.empty, pos + 20, order));
    assert(part.subrange(first - pos, end - pos) =~= strs_bytes(s.strings, first, order));
    lemma_read_magic(bytes, pos, part, 0, MAGIC_STR);
    lemma_read_u32(bytes, pos, part, 4, s.block_size, order);
    lemma_read_u64(bytes, pos, part, 8, s.block_offset, order);
    lemma_read_u32(bytes, pos, part, 16, s.str_count, order);
    lemma_part(bytes, pos, part, 20, str_bytes(s.empty, pos + 20, order));
    lemma_part(bytes, pos, part, first - pos, strs_bytes(s.strings, first, order));
    lemma_str_at(bytes, pos + 20, s.empty, order);
    lemma_strs_at(bytes, first, s.strings, order);
}

/// The fields of the fixed part of a file are read back from its bytes.
pub proof fn lemma_head_fields(bytes: Seq<u8>, h: Head)
    requires
        in_bounds(bytes, 0, FIXED_SIZE as int),
        bytes.subrange(0, FIXED_SIZE as int) == head_bytes(h),
        h.unk3.len() == 42,
    ensures
        magic_at(bytes, 0, MAGIC_BNTX),
        u32_at(bytes, 4, ByteOrder::LittleEndian) == h.unk,
        u16_at(bytes, 8, ByteOrder::LittleEndian) == h.version.0,
        u16_at(bytes, 10, ByteOrder::LittleEndian) == h.version.1,
        u16_at(bytes, 14, h.bom) == h.revision,
        u32_at(bytes, 16, h.bom) == h.file_name,
        u16_at(bytes, 20, h.bom) == h.unk2,
        u16_at(bytes, 22, h.bom) == h.str_section_at,
        u32_at(bytes, 24, h.bom) == h.reloc_table_at,
        u32_at(bytes, 28, h.bom) == h.file_size,
        byte_order_of(u16_at(bytes, 12, ByteOrder::BigEndian)) == Some(h.bom),
        magic_at(bytes, 32, MAGIC_NX),
        u32_at(bytes, 36, h.bom) == h.count,
        u64_at(bytes, 40, h.bom) == h.brtis_at,
        u64_at(bytes, 48, h.bom) == h.brtd_at,
        u64_at(bytes, 56, h.bom) == h.dict_at,
        u64_at(bytes, 64, h.bom) == h.dict_size,
        u64s_at(bytes, 72, h.bom, 42) == h.unk3,
{
    reveal(head_bytes);
    let whole = head_bytes(h);
    let a = head_part_a(h);
    let b = head_part_b(h);
    let c = head_part_c(h);
    lemma_bytes_len();
    lemma_head_len(h);
    assert(whole.subrange(0, 32) =~= a);
    assert(whole.subrange(32, 64) =~= b);
    assert(whole.subrange(64, 408) =~= c);
    lemma_part(bytes, 0, whole, 0, a);
    lemma_part(bytes, 0, whole, 32, b);
    lemma_part(bytes, 0, whole, 64, c);
    assert(a.subrange(0, 4) =~= magic_bytes(MAGIC_BNTX));
    assert(a.subrange(4, 8) =~= u32_bytes(h.unk, ByteOrder::LittleEndian));
    assert(a.subrange(8, 10) =~= u16_bytes(h.version.0, ByteOrder::LittleEndian));
    assert(a.subrange(10, 12) =~= u16_bytes(h.version.1, ByteOrder::LittleEndian));
    assert(a.subrange(14, 16) =~= u16_bytes(h.revision, h.bom));
    assert(a.subrange(16, 20) =~= u32_bytes(h.file_name, h.bom));
    assert(a.subrange(20, 22) =~= u16_bytes(h.unk2, h.bom));
    assert(a.subrange(22, 24) =~= u16_bytes(h.str_section_at, h.bom));
    assert(a.subrange(24, 28) =~= u32_bytes(h.reloc_table_at, h.bom));
    assert(a.subrange(28, 32) =~= u32_bytes(h.file_size, h.bom));
    assert(a.subrange(12, 14) =~= bom_bytes(h.bom));
    lemma_read_magic(bytes, 0, a, 0, MAGIC_BNTX);
    lemma_read_u32(bytes, 0, a, 4, h.unk, ByteOrder::LittleEndian);
    lemma_read_u16(bytes, 0, a, 8, h.version.0, ByteOrder::LittleEndian);
    lemma_read_u16(bytes, 0, a, 10, h.version.1, ByteOrder::LittleEndian);
    lemma_read_u16(bytes, 0, a, 14, h.revision, h.bom);
    lemma_read_u32(bytes, 0, a, 16, h.file_name, h.bom);
    lemma_read_u16(bytes, 0, a, 20, h.unk2, h.bom);
    lemma_read_u16(bytes, 0, a, 22, h.str_section_at, h.bom);
    lemma_read_u32(bytes, 0, a, 24, h.reloc_table_at, h.bom);
    lemma_read_u32(bytes, 0, a, 28, h.file_size, h.bom);
    match h.bom {
        ByteOrder::LittleEndian => {
            lemma_read_u16(bytes, 0, a, 12, crate::decode::BOM_LITTLE, ByteOrder::BigEndian);
        },
        ByteOrder::BigEndian => {
            lemma_read_u16(bytes, 0, a, 12, crate::decode::BOM_BIG, ByteOrder::BigEndian);
        },
    }
    assert(b.subrange(0, 4) =~= magic_bytes(MAGIC_NX));
    assert(b.subrange(4, 8) =~= u32_bytes(h.count, h.bom));
    assert(b.subrange(8, 16) =~= u64_bytes(h.brtis_at, h.bom));
    assert(b.subrange(16, 24) =~= u64_bytes(h.brtd_at, h.bom));
    assert(b.subrange(24, 32) =~= u64_bytes(h.dict_at, h.bom));
    lemma_read_magic(bytes, 32, b, 0, MAGIC_NX);
    lemma_read_u32(bytes, 32, b, 4, h.count, h.bom);
    lemma_read_u64(bytes, 32, b, 8, h.brtis_at, h.bom);
    lemma_read_u64(bytes, 32, b, 16, h.brtd_at, h.bom);
    lemma_read_u64(bytes, 32, b, 24, h.dict_at, h.bom);
    assert(c.subrange(0, 8) =~= u64_bytes(h.dict_size, h.bom));
    lemma_read_u64(bytes, 64, c, 0, h.dict_size, h.bom);
    assert(c.subrange(8, 344) =~= u64s_bytes(h.unk3, h.bom));
    lemma_part(bytes, 64, c, 8, u64s_bytes(h.unk3, h.bom));
    lemma_u64s_at(bytes, 72, h.unk3, h.bom);
}

/// The parts of a texture descriptor, its two blocks and its mip offsets
/// lie where the layout of the descriptor puts them.
pub proof fn lemma_brti_record_split(bytes: Seq<u8>, pos: int, b: BrtiView, order: ByteOrder)
    requires
        0 <= pos,
        in_bounds(bytes, pos, brti_record_len(b)),
        bytes.subrange(pos, pos + brti_record_len(b)) == brti_record(b, pos, order),
        b.unk4.len() == 6,
        b.unk.len() == 4,
        b.unk6.len() == 256,
        b.unk7.len() == 256,
    ensures
        bytes.subrange(pos, pos + 160) == brti_block(b, brti_pointers(pos), order),
        bytes.subrange(pos + 160, pos + 416) == b.unk6,
        bytes.subrange(pos + 416, pos + 672) == b.unk7,
        bytes.subrange(pos + 672, pos + 672 + 8 * b.mipmaps.len()) == u64s_bytes(
            b.mipmaps,
            order,
        ),
{
    reveal(brti_record);
    let p = brti_pointers(pos);
    let record = brti_record(b, pos, order);
    let block = brti_block(b, p, order);
    let mips = u64s_bytes(b.mipmaps, order);
    let m = b.mipmaps.len() as int;
    let f = |x: u64| u64_bytes(x, order);
    lemma_bytes_len();
    lemma_brti_block_len(b, p, order);
    assert forall|x: u64| #[trigger] f(x).len() == 8 by {}
    lemma_records_len(b.mipmaps, f, 8);
    assert(record.subrange(0, 160) =~= block);
    assert(record.subrange(160, 416) =~= b.unk6);
    assert(record.subrange(416, 672) =~= b.unk7);
    assert(record.subrange(672, 672 + 8 * m) =~= mips);
    lemma_part(bytes, pos, record, 0, block);
    lemma_part(bytes, pos, record, 160, b.unk6);
    lemma_part(bytes, pos, record, 416, b.unk7);
    lemma_part(bytes, pos, record, 672, mips);
}

/// The four parts of the 160 bytes of a texture descriptor lie one behind
/// the other.
pub proof fn lemma_brti_block_split(
    bytes: Seq<u8>,
    pos: int,
    b: BrtiView,
    p: BrtiPointers,
    order: ByteOrder,
)
    requires
        in_bounds(bytes, pos, 160),
        bytes.subrange(pos, pos + 160) == brti_block(b, p, order),
        b.unk4.len() == 6,
        b.unk.len() == 4,
    ensures
        bytes.subrange(pos, pos + 24) == brti_part_a(b, order),
        bytes.subrange(pos + 24, pos + 56) == brti_part_b(b, order),
        bytes.subrange(pos + 56, pos + 112) == brti_part_c(b, order),
        bytes.subrange(pos + 112, pos + 160) == brti_part_d(b, p, order),
{
    reveal(brti_block);
    let block = brti_block(b, p, order);
    lemma_brti_block_len(b, p, order);
    assert(block.subrange(0, 24) =~= brti_part_a(b, order));
    assert(block.subrange(24, 56) =~= brti_part_b(b, order));
    assert(block.subrange(56, 112) =~= brti_part_c(b, order));
    assert(block.subrange(112, 160) =~= brti_part_d(b, p, order));
    lemma_part(bytes, pos, block, 0, brti_part_a(b, order));
    lemma_part(bytes, pos, block, 24, brti_part_b(b, order));
    lemma_part(bytes, pos, block, 56, brti_part_c(b, order));
    lemma_part(bytes, pos, block, 112, brti_part_d(b, p, order));
}

/// A texture descriptor that declares as many mip levels as it has offsets
/// is read back from its bytes, with its opaque blocks and its mip offsets.
#[verifier::rlimit(40)]
pub proof fn lemma_brti_at(bytes: Seq<u8>, pos: int, b: BrtiView, order: ByteOrder)
    requires
        0 <= pos,
        in_bounds(bytes, pos, brti_record_len(b)),
        bytes.subrange(pos, pos + brti_record_len(b)) == brti_record(b, pos, order),
        b.unk4.len() == 6,
        b.unk.len() == 4,
        b.unk6.len() == 256,
        b.unk7.len() == 256,
        b.mipmap_count == b.mipmaps.len(),
        pos + brti_record_len(b) <= u64::MAX,
    ensures
        brti_at(bytes, pos, order) == Ok::<BrtiView, ReadError>(b),
{
    let p = brti_pointers(pos);
    lemma_brti_record_split(bytes, pos, b, order);
    lemma_brti_block_split(bytes, pos, b, p, order);
    lemma_brti_part_a(bytes, pos, b, order);
    lemma_brti_part_b(bytes, pos + 24, b, order);
    lemma_brti_part_c(bytes, pos + 56, b, order);
    lemma_brti_part_d(bytes, pos + 112, b, p, order);
    lemma_u64s_at(bytes, pos + 672, b.mipmaps, order);
    crate::format::lemma_surface_format_code_round_trip(b.image_format);
    assert(TextureDimension::spec_from_code(b.texture_dimension.spec_code()) == Some(
        b.texture_dimension,
    ));
    assert(TextureViewDimension::spec_from_code(b.texture_view_dimension.spec_code()) == Some(
        b.texture_view_dimension,
    ));
    lemma_brti_at_fields(bytes, pos, b, order);
}

/// A texture descriptor whose fields, pointers and blocks are each read
/// back is read back as a whole.
proof fn lemma_brti_at_fields(bytes: Seq<u8>, pos: int, b: BrtiView, order: ByteOrder)
    requires
        in_bounds(bytes, pos, brti_record_len(b)),
        b.unk6.len() == 256,
        b.unk7.len() == 256,
        b.mipmap_count == b.mipmaps.len(),
        pos + brti_record_len(b) <= u64::MAX,
        0 <= pos,
        magic_at(bytes, pos, MAGIC_BRTI),
        u32_at(bytes, pos + 4, order) == b.size,
        u64_at(bytes, pos + 8, order) == b.size2,
        bytes[pos + 16] == b.flags,
        TextureDimension::spec_from_code(bytes[pos + 17]) == Some(b.texture_dimension),
        u16_at(bytes, pos + 18, order) == b.tile_mode,
        u16_at(bytes, pos + 20, order) == b.swizzle,
        u16_at(bytes, pos + 22, order) == b.mipmap_count,
        u32_at(bytes, pos + 24, order) == b.multi_sample_count,
        SurfaceFormat::spec_from_code(u32_at(bytes, pos + 28, order)) == Some(b.image_format),
        u32_at(bytes, pos + 32, order) == b.unk2,
        u32_at(bytes, pos + 36, order) == b.width,
        u32_at(bytes, pos + 40, order) == b.height,
        u32_at(bytes, pos + 44, order) == b.depth,
        u32_at(bytes, pos + 48, order) == b.layer_count,
        u32_at(bytes, pos + 52, order) == b.block_height_log2,
        u32s_at(bytes, pos + 56, order, 6) == b.unk4,
        u32_at(bytes, pos + 80, order) == b.image_size,
        u32_at(bytes, pos + 84, order) == b.align,
        u32_at(bytes, pos + 88, order) == b.comp_sel,
        TextureViewDimension::spec_from_code(u32_at(bytes, pos + 92, order)) == Some(
            b.texture_view_dimension,
        ),
        u64_at(bytes, pos + 96, order) == b.name_addr,
        u64_at(bytes, pos + 104, order) == b.parent_addr,
        u64_at(bytes, pos + 112, order) == pos + 672,
        u64_at(bytes, pos + 120, order) == b.unk5,
        u64_at(bytes, pos + 128, order) == pos + 160,
        u64_at(bytes, pos + 136, order) == pos + 416,
        u32s_at(bytes, pos + 144, order, 4) == b.unk,
        u64s_at(bytes, pos + 672, order, b.mipmaps.len()) == b.mipmaps,
        bytes.subrange(pos + 160, pos + 416) == b.unk6,
        bytes.subrange(pos + 416, pos + 672) == b.unk7,
    ensures
        brti_at(bytes, pos, order) == Ok::<BrtiView, ReadError>(b),
{
    reveal(brti_at);
}

/// A list of texture descriptors takes as many bytes as its descriptors
/// with their blocks and mip offsets.
pub proof fn lemma_brtis_bytes_len(brtis: Seq<BrtiView>, start: int, order: ByteOrder)
    requires
        forall|i: int|
            0 <= i < brtis.len() ==> {
                let b = #[trigger] brtis[i];
                &&& b.unk4.len() == 6
                &&& b.unk.len() == 4
                &&& b.unk6.len() == 256
                &&& b.unk7.len() == 256
            },
    ensures
        brtis_bytes(brtis, start, order).len() == brtis_len(brtis),
        0 <= brtis_len(brtis),
    decreases brtis.len(),
{
    if brtis.len() > 0 {
        let init = brtis.drop_last();
        let b = brtis.last();
        assert forall|i: int| 0 <= i < init.len() implies {
            let d = #[trigger] init[i];
            &&& d.unk4.len() == 6
            &&& d.unk.len() == 4
            &&& d.unk6.len() == 256
            &&& d.unk7.len() == 256
        } by {
            assert(init[i] == brtis[i]);
        }
        lemma_brtis_bytes_len(init, start, order);
        lemma_brti_record_len(b, start + brtis_len(init), order);
    }
}

/// A texture descriptor with its blocks and mip offsets takes the bytes
/// that its size says.
pub proof fn lemma_brti_record_len(b: BrtiView, pos: int, order: ByteOrder)
    requires
        b.unk4.len() == 6,
        b.unk.len() == 4,
        b.unk6.len() == 256,
        b.unk7.len() == 256,
    ensures
        brti_record(b, pos, order).len() == brti_record_len(b),
{
    reveal(brti_record);
    let f = |x: u64| u64_bytes(x, order);
    lemma_bytes_len();
    lemma_brti_block_len(b, brti_pointers(pos), order);
    assert forall|x: u64| #[trigger] f(x).len() == 8 by {}
    lemma_records_len(b.mipmaps, f, 8);
}

/// Texture descriptor `i` of a list lies as far into the bytes of the list
/// as the descriptors before it are long.
pub proof fn lemma_brtis_item(brtis: Seq<BrtiView>, start: int, order: ByteOrder, i: int)
    requires
        0 <= i < brtis.len(),
        forall|j: int|
            0 <= j < brtis.len() ==> {
                let b = #[trigger] brtis[j];
                &&& b.unk4.len() == 6
                &&& b.unk.len() == 4
                &&& b.unk6.len() == 256
                &&& b.unk7.len() == 256
            },
    ensures
        0 <= brtis_len(brtis.take(i)),
        brtis_len(brtis.take(i)) + brti_record_len(brtis[i]) <= brtis_len(brtis),
        brtis_bytes(brtis, start, order).len() == brtis_len(brtis),
        brtis_bytes(brtis, start, order).subrange(
            brtis_len(brtis.take(i)),
            brtis_len(brtis.take(i)) + brti_record_len(brtis[i]),
        ) == brti_record(brtis[i], start + brtis_len(brtis.take(i)), order),
    decreases brtis.len(),
{
    let init = brtis.drop_last();
    let whole = brtis_bytes(brtis, start, order);
    assert forall|j: int| 0 <= j < init.len() implies {
        let d = #[trigger] init[j];
        &&& d.unk4.len() == 6
        &&& d.unk.len() == 4
        &&& d.unk6.len() == 256
        &&& d.unk7.len() == 256
    } by {
        assert(init[j] == brtis[j]);
    }
    lemma_brtis_bytes_len(brtis, start, order);
    lemma_brtis_bytes_len(init, start, order);
    lemma_brti_record_len(brtis.last(), start + brtis_len(init), order);
    crate::layout::lemma_brtis_len_take(brtis, i);
    if i == brtis.len() - 1 {
        assert(brtis.take(i) =~= init);
        assert(whole.subrange(brtis_len(init), brtis_len(init) + brti_record_len(brtis[i]))
            =~= brti_record(brtis.last(), start + brtis_len(init), order));
    } else {
        lemma_brtis_item(init, start, order, i);
        assert(init.take(i) =~= brtis.take(i));
        assert(init[i] == brtis[i]);
        let a = brtis_len(brtis.take(i));
        let n = brti_record_len(brtis[i]);
        assert(whole.subrange(a, a + n) =~= brtis_bytes(init, start, order).subrange(a, a + n));
    }
}

/// The position of each texture descriptor of a list that lies from
/// `start` on.
pub open spec fn brti_positions(brtis: Seq<BrtiView>, start: int) -> Seq<u64> {
    Seq::new(brtis.len(), |i: int| (start + brtis_len(brtis.take(i))) as u64)
}

/// The first `k` texture descriptors of a list are read back through the
/// pointers to them.
pub proof fn lemma_brtis_at(
    bytes: Seq<u8>,
    table: int,
    start: int,
    brtis: Seq<BrtiView>,
    order: ByteOrder,
    k: int,
)
    requires
        0 <= k <= brtis.len(),
        0 <= start,
        0 <= table,
        in_bounds(bytes, table, 8 * (brtis.len() as int)),
        bytes.subrange(table, table + 8 * brtis.len()) == u64s_bytes(
            brti_positions(brtis, start),
            order,
        ),
        in_bounds(bytes, start, brtis_len(brtis)),
        bytes.subrange(start, start + brtis_len(brtis)) == brtis_bytes(brtis, start, order),
        start + brtis_len(brtis) <= u64::MAX,
        forall|j: int|
            0 <= j < brtis.len() ==> {
                let b = #[trigger] brtis[j];
                &&& b.unk4.len() == 6
                &&& b.unk.len() == 4
                &&& b.unk6.len() == 256
                &&& b.unk7.len() == 256
                &&& b.mipmap_count == b.mipmaps.len()
            },
    ensures
        brtis_at(bytes, table, order, k as nat) == Ok::<Seq<BrtiView>, ReadError>(brtis.take(k)),
    decreases k,
{
    if k == 0 {
        assert(brtis.take(0) =~= Seq::<BrtiView>::empty());
    } else {
        let i = k - 1;
        lemma_brtis_at(bytes, table, start, brtis, order, i);
        let positions = brti_positions(brtis, start);
        let f = |x: u64| u64_bytes(x, order);
        lemma_bytes_len();
        assert forall|x: u64| #[trigger] f(x).len() == 8 by {}
        lemma_records_len(positions, f, 8);
        lemma_records_item(positions, f, 8, i);
        lemma_read_u64(bytes, table, u64s_bytes(positions, order), 8 * i, positions[i], order);
        lemma_brtis_item(brtis, start, order, i);
        let at = start + brtis_len(brtis.take(i));
        lemma_part(
            bytes,
            start,
            brtis_bytes(brtis, start, order),
            brtis_len(brtis.take(i)),
            brti_record(brtis[i], at, order),
        );
        lemma_brti_record_len(brtis[i], at, order);
        lemma_brti_at(bytes, at, brtis[i], order);
        assert(brtis.take(i).push(brtis[i]) =~= brtis.take(k));
        assert(in_bounds(bytes, table + 8 * i, 8));
        assert((k as nat - 1) as nat == i as nat);
    }
}

/// The least multiple of 8 or of 4 that is not less than a position lies
/// less than 8 or 4 behind it.
pub proof fn lemma_align_up(pos: int)
    requires
        0 <= pos,
    ensures
        pos <= crate::layout::align_up(pos, 8) < pos + 8,
        pos <= crate::layout::align_up(pos, 4) < pos + 4,
{
}

/// The structures of the file of a container lie one behind the other in
/// the order of the layout, and the file ends behind the last.
pub proof fn lemma_file_order(y: BntxView)
    requires
        y.writable(),
    ensures
        FIXED_SIZE <= y.str_section_pos(),
        y.str_section_pos() + 20 <= str_section_end(y.header.str_section, y.str_section_pos()),
        str_section_end(y.header.str_section, y.str_section_pos()) <= y.dict_pos(),
        y.dict_pos() <= y.brtis_pos(),
        y.brtis_pos() <= y.brtis_end(),
        y.brtis_end() <= BRTD_SECTION_START,
        y.brtd_end() <= y.reloc_pos(),
        y.reloc_pos() <= y.file_end(),
        y.file_end() <= u32::MAX,
{
    let s = y.str_section_pos();
    lemma_str_section_len(y.header.str_section, s, y.bom);
    lemma_align_up(str_section_end(y.header.str_section, s));
    lemma_align_up(y.brtd_end());
    crate::layout::lemma_brtis_len_nonneg(y.nx_header.brtis);
}

/// The sizes of the dictionary, the payload block and the relocation table
/// in a file.
pub proof fn lemma_segment_lens(y: BntxView)
    ensures
        dict_bytes(y.nx_header.dict, y.bom).len() == 8 + 16 * y.nx_header.dict.nodes.len(),
        brtd_bytes(y.nx_header.brtd, y.bom).len() == 16 + y.nx_header.brtd.len(),
        reloc_bytes(y.header.reloc_table, y.bom).len() == reloc_len(y.header.reloc_table),
        u64s_bytes(y.brti_table(), y.bom).len() == 8 * y.nx_header.brtis.len(),
{
    reveal(dict_bytes);
    reveal(brtd_bytes);
    reveal(reloc_bytes);
    let order = y.bom;
    let fn_ = |n: DictNode| node_bytes(n, order);
    let fs = |s: RelocationSection| section_bytes(s, order);
    let fe = |e: RelocationEntry| entry_bytes(e, order);
    let fu = |x: u64| u64_bytes(x, order);
    lemma_bytes_len();
    assert forall|x: DictNode| #[trigger] fn_(x).len() == 16 by {}
    assert forall|x: RelocationSection| #[trigger] fs(x).len() == 24 by {}
    assert forall|x: RelocationEntry| #[trigger] fe(x).len() == 8 by {}
    assert forall|x: u64| #[trigger] fu(x).len() == 8 by {}
    lemma_records_len(y.nx_header.dict.nodes, fn_, 16);
    lemma_records_len(y.header.reloc_table.sections, fs, 24);
    lemma_records_len(y.header.reloc_table.entries, fe, 8);
    lemma_records_len(y.brti_table(), fu, 8);
}

/// Each structure of the file of a container lies where the layout puts
/// it.
pub proof fn lemma_file_segments(y: BntxView)
    requires
        y.writable(),
    ensures
        y.file_bytes().len() == y.file_end(),
        y.file_bytes().subrange(0, FIXED_SIZE as int) == head_bytes(y.head()),
        y.file_bytes().subrange(FIXED_SIZE as int, y.str_section_pos()) == u64s_bytes(
            y.brti_table(),
            y.bom,
        ),
        y.file_bytes().subrange(
            y.str_section_pos(),
            str_section_end(y.header.str_section, y.str_section_pos()),
        ) == str_section_bytes(y.header.str_section, y.str_section_pos(), y.bom),
        y.file_bytes().subrange(y.dict_pos(), y.brtis_pos()) == dict_bytes(
            y.nx_header.dict,
            y.bom,
        ),
        y.file_bytes().subrange(y.brtis_pos(), y.brtis_end()) == brtis_bytes(
            y.nx_header.brtis,
            y.brtis_pos(),
            y.bom,
        ),
        y.file_bytes().subrange(BRTD_SECTION_START as int, y.brtd_end()) == brtd_bytes(
            y.nx_header.brtd,
            y.bom,
        ),
        y.file_bytes().subrange(y.reloc_pos(), y.file_end()) == reloc_bytes(
            y.header.reloc_table,
            y.bom,
        ),
{
    let order = y.bom;
    let e = y.file_bytes();
    let s = y.str_section_pos();
    let se = str_section_end(y.header.str_section, s);
    let head = head_bytes(y.head());
    let table = u64s_bytes(y.brti_table(), order);
    let strings = str_section_bytes(y.header.str_section, s, order);
    let pad1 = zeros(y.dict_pos() - se);
    let dict = dict_bytes(y.nx_header.dict, order);
    let brtis = brtis_bytes(y.nx_header.brtis, y.brtis_pos(), order);
    let pad2 = zeros(BRTD_SECTION_START - y.brtis_end());
    let brtd = brtd_bytes(y.nx_header.brtd, order);
    let pad3 = zeros(y.reloc_pos() - y.brtd_end());
    let reloc = reloc_bytes(y.header.reloc_table, order);
    let tail = y.tail_bytes();
    lemma_file_order(y);
    lemma_segment_lens(y);
    lemma_head_len(y.head());
    lemma_str_section_len(y.header.str_section, s, order);
    lemma_brtis_bytes_len(y.nx_header.brtis, y.brtis_pos(), order);
    assert(tail == pad1 + dict + brtis + pad2 + brtd + pad3 + reloc);
    assert(tail.len() == y.file_end() - se);
    assert(e == head + table + strings + tail);
    assert(e.subrange(0, FIXED_SIZE as int) =~= head);
    assert(e.subrange(FIXED_SIZE as int, s) =~= table);
    assert(e.subrange(s, se) =~= strings);
    assert(e.subrange(se, y.file_end()) =~= tail);
    assert(tail.subrange(y.dict_pos() - se, y.brtis_pos() - se) =~= dict);
    assert(tail.subrange(y.brtis_pos() - se, y.brtis_end() - se) =~= brtis);
    assert(tail.subrange(BRTD_SECTION_START - se, y.brtd_end() - se) =~= brtd);
    assert(tail.subrange(y.reloc_pos() - se, y.file_end() - se) =~= reloc);
    lemma_part(e, se, tail, y.dict_pos() - se, dict);
    lemma_part(e, se, tail, y.brtis_pos() - se, brtis);
    lemma_part(e, se, tail, BRTD_SECTION_START - se, brtd);
    lemma_part(e, se, tail, y.reloc_pos() - se, reloc);
}

/// The header of a container is read back from the file of the container.
pub proof fn lemma_header_at(y: BntxView)
    requires
        y.writable(),
        y.consistent(),
    ensures
        header_at(y.file_bytes(), y.bom) == Ok::<HeaderView, ReadError>(y.header),
{
    let e = y.file_bytes();
    lemma_file_order(y);
    lemma_file_segments(y);
    lemma_head_fields(e, y.head());
    lemma_str_section_at(e, y.str_section_pos(), y.header.str_section, y.bom);
    lemma_reloc_table_at(e, y.reloc_pos(), y.header.reloc_table, y.bom);
}

/// The block of descriptors, payload and dictionary of a container is read
/// back from the file of the container.
pub proof fn lemma_nx_header_at(y: BntxView)
    requires
        y.writable(),
        y.consistent(),
    ensures
        nx_header_at(y.file_bytes(), y.bom) == Ok::<NxHeaderView, ReadError>(y.nx_header),
{
    let e = y.file_bytes();
    let brtis = y.nx_header.brtis;
    lemma_file_order(y);
    lemma_file_segments(y);
    lemma_head_fields(e, y.head());
    assert(y.brti_table() =~= brti_positions(brtis, y.brtis_pos()));
    lemma_brtis_at(e, FIXED_SIZE as int, y.brtis_pos(), brtis, y.bom, brtis.len() as int);
    assert(brtis.take(brtis.len() as int) =~= brtis);
    lemma_brtd_at(e, BRTD_SECTION_START as int, y.nx_header.brtd, y.bom);
    lemma_dict_at(e, y.dict_pos(), y.nx_header.dict, y.bom);
}

/// A container whose counts are those of its lists is read back from the
/// file that holds its fields as they are.
pub proof fn lemma_decode_file(y: BntxView)
    requires
        y.writable(),
        y.consistent(),
    ensures
        decoding(y.file_bytes()) == Ok::<BntxView, ReadError>(y),
{
    let e = y.file_bytes();
    lemma_file_order(y);
    lemma_file_segments(y);
    lemma_head_fields(e, y.head());
    lemma_header_at(y);
    lemma_nx_header_at(y);
}

/// Two lists of sections whose sections count as many entries, one by one,
/// count as many entries together.
pub proof fn lemma_section_count_sum_same(a: Seq<RelocationSection>, b: Seq<RelocationSection>)
    requires
        a.len() == b.len(),
        forall|i: int| 0 <= i < a.len() ==> a[i].count == b[i].count,
    ensures
        section_count_sum(a) == section_count_sum(b),
    decreases a.len(),
{
    if a.len() > 0 {
        lemma_section_count_sum_same(a.drop_last(), b.drop_last());
    }
}

/// Resolving the offset fields of a container leaves it writable, and
/// leaves its counts those of its lists.
pub proof fn lemma_resolved_valid(x: BntxView)
    requires
        x.writable(),
        x.consistent(),
    ensures
        x.resolved().writable(),
        x.resolved().consistent(),
{
    let y = x.resolved();
    crate::layout::lemma_resolved_layout(x);
    lemma_section_count_sum_same(x.header.reloc_table.sections, y.header.reloc_table.sections);
    assert(y.header.str_section.strings == x.header.str_section.strings);
    assert(y.header.str_section.empty == x.header.str_section.empty);
    assert forall|i: int| 0 <= i < y.nx_header.brtis.len() implies {
        let b = #[trigger] y.nx_header.brtis[i];
        &&& b.unk4.len() == 6
        &&& b.unk.len() == 4
        &&& b.unk6.len() == 256
        &&& b.unk7.len() == 256
        &&& b.mipmap_count == b.mipmaps.len()
    } by {
        assert(y.nx_header.brtis[i] == x.resolved_brti(i));
        let d = x.nx_header.brtis[i];
        assert(d.unk4.len() == 6);
    }
}

/// Decoding the encoding of a writable container whose counts are those of
/// its lists gives the container as it was encoded, that is with its offset
/// fields resolved and every other field as it was.
pub proof fn lemma_round_trip(x: BntxView)
    requires
        x.writable(),
        x.consistent(),
    ensures
        decoding(x.encoding()) == Ok::<BntxView, ReadError>(x.resolved()),
{
    lemma_resolved_valid(x);
    lemma_decode_file(x.resolved());
}

/// A new container can be written, and its counts are those of its lists,
/// where its name and the offsets of its mip levels leave room for its
/// texture descriptor before the fixed position of the payload, and its
/// tiled bytes leave room for the rest of the file within 32 bits.
pub proof fn lemma_new_container_valid(
    width: u32,
    height: u32,
    depth: u32,
    layer_count: u32,
    mipmap_count: u32,
    format: SurfaceFormat,
    block_height: BlockHeight,
    data: Seq<u8>,
    name: Seq<char>,
)
    requires
        encode_utf8(name).len() + 8 * mipmap_count <= 2917,
        data.len() <= 0xFFFF_0000,
    ensures
        new_container(
            width,
            height,
            depth,
            layer_count,
            mipmap_count,
            format,
            block_height,
            data,
            name,
        ).writable(),
        new_container(
            width,
            height,
            depth,
            layer_count,
            mipmap_count,
            format,
            block_height,
            data,
            name,
        ).consistent(),
{
    let c = new_container(
        width,
        height,
        depth,
        layer_count,
        mipmap_count,
        format,
        block_height,
        data,
        name,
    );
    let d = new_descriptor(
        width,
        height,
        depth,
        layer_count,
        mipmap_count,
        format,
        block_height,
        data,
    );
    let strings = c.header.str_section.strings;
    let brtis = c.nx_header.brtis;
    lemma_new_container_relocation_consistent(
        width,
        height,
        depth,
        layer_count,
        mipmap_count,
        format,
        block_height,
        data,
        name,
    );
    assert(brtis.len() == 1 && brtis[0] == d);
    assert(brtis.drop_last() =~= Seq::<BrtiView>::empty());
    assert(brtis_len(brtis.drop_last()) == 0);
    assert(brtis_len(brtis) == brti_record_len(d));
    assert(strings.len() == 1 && strings[0] == name);
    assert(strings.drop_last() =~= Seq::<Seq<char>>::empty());
    assert(encode_utf8(Seq::<char>::empty()).len() == 0) by {
        reveal_with_fuel(encode_utf8, 1);
    }
    let first = str_end(Seq::<char>::empty(), c.str_section_pos() + 20);
    assert(first == 440);
    assert(strs_end(strings.drop_last(), first) == first);
    assert(strs_end(strings, first) == str_end(name, first));
    lemma_align_up(str_section_end(c.header.str_section, c.str_section_pos()));
    lemma_align_up(c.brtd_end());
}

/// Decoding the encoding of the container that is made for a texture gives
/// a container with one texture of the same size, format, layer count and
/// mip count, under the same name, with the same tiled bytes.
pub proof fn lemma_new_container_round_trip(
    width: u32,
    height: u32,
    depth: u32,
    layer_count: u32,
    mipmap_count: u32,
    format: SurfaceFormat,
    block_height: BlockHeight,
    data: Seq<u8>,
    name: Seq<char>,
)
    requires
        encode_utf8(name).len() + 8 * mipmap_count <= 2917,
        data.len() <= 0xFFFF_0000,
    ensures
        ({
            let container = new_container(
                width,
                height,
                depth,
                layer_count,
                mipmap_count,
                format,
                block_height,
                data,
                name,
            );
            &&& decoding(container.encoding()) matches Ok(decoded)
            &&& decoded.nx_header.brtis.len() == 1
            &&& decoded.texture().width == width
            &&& decoded.texture().height == height
            &&& decoded.texture().depth == depth
            &&& decoded.texture().layer_count == layer_count
            &&& decoded.texture().mipmap_count == mipmap_count
            &&& decoded.texture().image_format == format
            &&& decoded.texture().mipmaps == container.texture().mipmaps
            &&& decoded.header.str_section.strings == seq![name]
            &&& decoded.nx_header.brtd == data
        }),
{
    let c = new_container(
        width,
        height,
        depth,
        layer_count,
        mipmap_count,
        format,
        block_height,
        data,
        name,
    );
    lemma_new_container_valid(
        width,
        height,
        depth,
        layer_count,
        mipmap_count,
        format,
        block_height,
        data,
        name,
    );
    lemma_round_trip(c);
    crate::layout::lemma_resolved_layout(c);
    assert(c.resolved().nx_header.brtis[0] == c.resolved_brti(0));
}

/// Decoding the encoding of the container that is made of a surface gives
/// a container with one texture of the size, layer count and mip count of the
/// surface, in the format that holds the pixels of the surface's format,
/// under the same name, with the tiled bytes of the container that was made.
/// This holds where the name and the mip levels leave room for the texture
/// descriptor before the fixed position of the payload, and the tiled bytes
/// leave room for the rest of the file within 32 bits.
pub proof fn lemma_surface_round_trip(surface: SurfaceView, name: Seq<char>)
    requires
        container_from_surface(surface, name) is Ok,
        encode_utf8(name).len() + 8 * surface.mipmaps <= 2917,
        container_from_surface(surface, name).unwrap().nx_header.brtd.len() <= 0xFFFF_0000,
    ensures
        ({
            let container = container_from_surface(surface, name).unwrap();
            &&& decoding(container.encoding()) matches Ok(decoded)
            &&& decoded.nx_header.brtis.len() == 1
            &&& decoded.texture().width == surface.width
            &&& decoded.texture().height == surface.height
            &&& decoded.texture().depth == surface.depth
            &&& decoded.texture().layer_count == surface.layers
            &&& decoded.texture().mipmap_count == surface.mipmaps
            &&& decoded.texture().image_format.spec_interchange() == Some(surface.image_format)
            &&& decoded.header.str_section.strings == seq![name]
            &&& decoded.nx_header.brtd == container.nx_header.brtd
        }),
{
    let format = surface.image_format.spec_native().unwrap();
    let block_dim = format.spec_block_dim();
    let block_height = BlockHeight::spec_from_gobs(
        crate::tiling::base_gobs(surface.height, block_dim),
    );
    let container = container_from_surface(surface, name).unwrap();
    let data = container.nx_header.brtd;
    crate::interchange::lemma_interchange_native_interchange(surface.image_format);
    assert(container == new_container(
        surface.width,
        surface.height,
        surface.depth,
        surface.layers,
        surface.mipmaps,
        format,
        block_height,
        data,
        name,
    ));
    lemma_new_container_round_trip(
        surface.width,
        surface.height,
        surface.depth,
        surface.layers,
        surface.mipmaps,
        format,
        block_height,
        data,
        name,
    );
}

/// An integer that lies within a prefix of a file is read from the prefix
/// as from the file.
pub proof fn lemma_prefix_reads(bytes: Seq<u8>, n: int, pos: int, order: ByteOrder)
    requires
        0 <= n <= bytes.len(),
        0 <= pos,
    ensures
        pos + 2 <= n ==> u16_at(bytes.subrange(0, n), pos, order) == u16_at(bytes, pos, order),
        pos + 4 <= n ==> u32_at(bytes.subrange(0, n), pos, order) == u32_at(bytes, pos, order),
        pos + 8 <= n ==> u64_at(bytes.subrange(0, n), pos, order) == u64_at(bytes, pos, order),
{
}

/// No file that holds the fields of a container as they are decodes once
/// bytes are cut off its end: the relocation table, which ends the file, is
/// then read beyond the end of the bytes, unless an earlier structure
/// already is.
pub proof fn lemma_cut_file_is_refused(y: BntxView, n: int)
    requires
        y.writable(),
        y.consistent(),
        0 <= n < y.file_end(),
    ensures
        decoding(y.file_bytes().subrange(0, n)) is Err,
{
    let e = y.file_bytes();
    let p = e.subrange(0, n);
    let order = y.bom;
    let t = y.header.reloc_table;
    let at = y.reloc_pos();
    lemma_file_order(y);
    lemma_file_segments(y);
    lemma_head_fields(e, y.head());
    lemma_reloc_table_at(e, at, t, order);
    if n >= HEADER_SIZE {
        lemma_prefix_reads(e, n, 0, ByteOrder::BigEndian);
        lemma_prefix_reads(e, n, 12, ByteOrder::BigEndian);
        lemma_prefix_reads(e, n, 24, order);
        assert(magic_at(p, 0, MAGIC_BNTX));
        assert(byte_order_of(u16_at(p, 12, ByteOrder::BigEndian)) == Some(order));
        assert(u32_at(p, 24, order) == at);
        reveal(reloc_table_at);
        if in_bounds(p, at, 16) {
            lemma_prefix_reads(e, n, at, ByteOrder::BigEndian);
            lemma_prefix_reads(e, n, at + 8, order);
            let count = u32_at(p, at + 8, order);
            assert(count == t.count);
            if in_bounds(p, at + 16, 24 * count) {
                let cut = sections_at(p, at + 16, order, count as nat);
                let whole = sections_at(e, at + 16, order, count as nat);
                assert forall|i: int| 0 <= i < count implies #[trigger] cut[i] == whole[i] by {
                    let q = at + 16 + 24 * i;
                    lemma_prefix_reads(e, n, q, order);
                    lemma_prefix_reads(e, n, q + 8, order);
                    lemma_prefix_reads(e, n, q + 12, order);
                    lemma_prefix_reads(e, n, q + 16, order);
                    lemma_prefix_reads(e, n, q + 20, order);
                }
                assert(cut =~= whole);
                assert(sections_at(e, at + 16, order, count as nat) == t.sections);
                assert(!in_bounds(p, at + 16 + 24 * count, 8 * (t.entries.len() as int)));
            }
            assert(reloc_table_at(p, at, order) is Err);
        }
        assert(reloc_table_at(p, at, order) is Err);
        assert(header_at(p, order) is Err);
    }
}

/// No proper prefix of the encoding of a writable container whose counts
/// are those of its lists decodes: decoding it gives an error.
pub proof fn lemma_truncated_encoding_is_refused(x: BntxView, n: int)
    requires
        x.writable(),
        x.consistent(),
        0 <= n < x.encoding().len(),
    ensures
        decoding(x.encoding().subrange(0, n)) is Err,
{
    lemma_resolved_valid(x);
    lemma_file_segments(x.resolved());
    lemma_cut_file_is_refused(x.resolved(), n);
}

/// The first of a list of strings lies where the list begins.
pub proof fn lemma_first_str(strings: Seq<Seq<char>>, pos: int, order: ByteOrder)
    requires
        0 <= pos,
        strings.len() >= 1,
    ensures
        str_end(strings[0], pos) <= strs_end(strings, pos),
        strs_bytes(strings, pos, order).subrange(0, str_end(strings[0], pos) - pos) == str_bytes(
            strings[0],
            pos,
            order,
        ),
    decreases strings.len(),
{
    let init = strings.drop_last();
    let whole = strs_bytes(strings, pos, order);
    let first = str_bytes(strings[0], pos, order);
    lemma_bytes_len();
    lemma_strs_len(init, pos, order);
    lemma_strs_len(strings, pos, order);
    if init.len() == 0 {
        assert(strs_bytes(init, pos, order) =~= Seq::<u8>::empty());
        assert(whole.subrange(0, str_end(strings[0], pos) - pos) =~= first);
    } else {
        lemma_first_str(init, pos, order);
        assert(whole.subrange(0, str_end(strings[0], pos) - pos) =~= strs_bytes(
            init,
            pos,
            order,
        ).subrange(0, str_end(strings[0], pos) - pos));
    }
}

/// Resolving the offset fields of a writable container leaves it writable.
pub proof fn lemma_resolved_writable(x: BntxView)
    requires
        x.writable(),
    ensures
        x.resolved().writable(),
{
    let y = x.resolved();
    crate::layout::lemma_resolved_layout(x);
    assert forall|i: int| 0 <= i < y.nx_header.brtis.len() implies {
        let b = #[trigger] y.nx_header.brtis[i];
        &&& b.unk4.len() == 6
        &&& b.unk.len() == 4
        &&& b.unk6.len() == 256
        &&& b.unk7.len() == 256
    } by {
        assert(y.nx_header.brtis[i] == x.resolved_brti(i));
        assert(x.nx_header.brtis[i].unk4.len() == 6);
    }
    assert(y.header.str_section.strings == x.header.str_section.strings);
    assert(y.header.str_section.empty == x.header.str_section.empty);
}

/// The payload lies in the file of a container at the fixed start of the
/// texture data.
pub proof fn lemma_file_payload(y: BntxView)
    requires
        y.writable(),
    ensures
        y.file_bytes().subrange(
            crate::tiling::START_OF_TEXTURE_DATA as int,
            crate::tiling::START_OF_TEXTURE_DATA + y.nx_header.brtd.len(),
        ) == y.nx_header.brtd,
{
    let e = y.file_bytes();
    let block = brtd_bytes(y.nx_header.brtd, y.bom);
    lemma_file_order(y);
    lemma_file_segments(y);
    lemma_segment_lens(y);
    lemma_bytes_len();
    reveal(brtd_bytes);
    assert(block.subrange(16, 16 + y.nx_header.brtd.len() as int) =~= y.nx_header.brtd);
    lemma_part(e, BRTD_SECTION_START as int, block, 16, y.nx_header.brtd);
}

/// The relocation table of the file of a container begins with its magic.
pub proof fn lemma_file_reloc_magic(y: BntxView)
    requires
        y.writable(),
    ensures
        magic_at(y.file_bytes(), y.reloc_pos(), MAGIC_RLT),
{
    let e = y.file_bytes();
    let table = reloc_bytes(y.header.reloc_table, y.bom);
    lemma_file_order(y);
    lemma_file_segments(y);
    lemma_segment_lens(y);
    lemma_bytes_len();
    reveal(reloc_bytes);
    assert(table.subrange(0, 4) =~= magic_bytes(MAGIC_RLT));
    lemma_read_magic(e, y.reloc_pos(), table, 0, MAGIC_RLT);
}

/// Every byte between the last texture descriptor and the payload block
/// of the file of a container is zero.
pub proof fn lemma_file_gap(y: BntxView)
    requires
        y.writable(),
    ensures
        y.file_bytes().subrange(y.brtis_end(), BRTD_SECTION_START as int) == zeros(
            BRTD_SECTION_START - y.brtis_end(),
        ),
{
    let order = y.bom;
    let e = y.file_bytes();
    let s = y.str_section_pos();
    let se = str_section_end(y.header.str_section, s);
    let head = head_bytes(y.head());
    let table = u64s_bytes(y.brti_table(), order);
    let strings = str_section_bytes(y.header.str_section, s, order);
    let pad1 = zeros(y.dict_pos() - se);
    let dict = dict_bytes(y.nx_header.dict, order);
    let brtis = brtis_bytes(y.nx_header.brtis, y.brtis_pos(), order);
    let gap = zeros(BRTD_SECTION_START - y.brtis_end());
    let brtd = brtd_bytes(y.nx_header.brtd, order);
    let pad3 = zeros(y.reloc_pos() - y.brtd_end());
    let reloc = reloc_bytes(y.header.reloc_table, order);
    let tail = y.tail_bytes();
    lemma_file_order(y);
    lemma_segment_lens(y);
    lemma_head_len(y.head());
    lemma_str_section_len(y.header.str_section, s, order);
    lemma_brtis_bytes_len(y.nx_header.brtis, y.brtis_pos(), order);
    assert(tail == pad1 + dict + brtis + gap + brtd + pad3 + reloc);
    assert(tail.len() == y.file_end() - se);
    assert(e == head + table + strings + tail);
    assert(e.subrange(se, y.file_end()) =~= tail);
    assert(tail.subrange(y.brtis_end() - se, BRTD_SECTION_START - se) =~= gap);
    lemma_part(e, se, tail, y.brtis_end() - se, gap);
}

/// Where the structures of the encoding of a writable container lie. The
/// file is as long as the layout says, and the last field of its header
/// holds that length. The payload lies at the fixed start of the texture
/// data, whatever precedes it, and every byte between the last texture
/// descriptor and the payload block is zero. The relocation table lies at
/// the first multiple of 4 behind the payload, and the header points to it.
pub proof fn lemma_encoding_landmarks(x: BntxView)
    requires
        x.writable(),
    ensures
        x.encoding().len() == x.file_end(),
        u32_at(x.encoding(), 28, x.bom) == x.encoding().len(),
        u32_at(x.encoding(), 24, x.bom) == x.reloc_pos(),
        x.reloc_pos() == crate::layout::align_up(
            crate::tiling::START_OF_TEXTURE_DATA + x.nx_header.brtd.len(),
            4,
        ),
        magic_at(x.encoding(), x.reloc_pos(), MAGIC_RLT),
        x.encoding().subrange(
            crate::tiling::START_OF_TEXTURE_DATA as int,
            crate::tiling::START_OF_TEXTURE_DATA + x.nx_header.brtd.len(),
        ) == x.nx_header.brtd,
        x.encoding().subrange(x.brtis_end(), BRTD_SECTION_START as int) == zeros(
            BRTD_SECTION_START - x.brtis_end(),
        ),
{
    let y = x.resolved();
    let e = y.file_bytes();
    crate::layout::lemma_resolved_layout(x);
    lemma_resolved_writable(x);
    lemma_file_order(y);
    lemma_file_segments(y);
    lemma_head_fields(e, y.head());
    lemma_file_payload(y);
    lemma_file_reloc_magic(y);
    lemma_file_gap(y);
}

/// The name of the first texture in the encoding of a writable container
/// whose sentinel string is empty: the header holds the position of its
/// characters, its length in bytes lies in the two bytes before that
/// position, and its bytes, encoded as UTF-8, lie from that position on.
#[verifier::rlimit(40)]
pub proof fn lemma_encoding_name(x: BntxView)
    requires
        x.writable(),
        encode_utf8(x.header.str_section.empty).len() == 0,
        x.header.str_section.strings.len() >= 1,
    ensures
        u32_at(x.encoding(), 16, x.bom) == x.name_pos(),
        u16_at(x.encoding(), x.name_pos() - 2, x.bom) == encode_utf8(
            x.header.str_section.strings[0],
        ).len(),
        x.encoding().subrange(
            x.name_pos(),
            x.name_pos() + encode_utf8(x.header.str_section.strings[0]).len(),
        ) == encode_utf8(x.header.str_section.strings[0]),
{
    let y = x.resolved();
    let e = y.file_bytes();
    let order = y.bom;
    let section = y.header.str_section;
    let name = section.strings[0];
    let text = encode_utf8(name);
    let at = y.str_section_pos();
    crate::layout::lemma_resolved_layout(x);
    lemma_resolved_writable(x);
    assert(section.strings == x.header.str_section.strings);
    assert(section.empty == x.header.str_section.empty);
    lemma_file_order(y);
    lemma_file_segments(y);
    lemma_head_fields(e, y.head());
    lemma_bytes_len();
    let whole = str_section_bytes(section, at, order);
    let first = str_end(section.empty, at + 20);
    assert(first == at + 24);
    let list = strs_bytes(section.strings, first, order);
    let record = str_bytes(name, first, order);
    reveal(str_section_bytes);
    lemma_str_section_len(section, at, order);
    lemma_strs_len(section.strings, first, order);
    lemma_first_str(section.strings, first, order);
    assert(whole.subrange(24, 24 + list.len() as int) =~= list);
    lemma_part(e, at, whole, 24, list);
    assert(record.len() == str_end(name, first) - first);
    lemma_part(e, first, list, 0, record);
    assert(record.subrange(0, 2) =~= u16_bytes(text.len() as u16, order));
    assert(record.subrange(2, 2 + text.len() as int) =~= text);
    lemma_read_u16(e, first, record, 0, text.len() as u16, order);
    lemma_part(e, first, record, 2, text);
}

} // verus!
