//! The layout of a file: the bytes of each of its structures, the position
//! of each, the values that its offset fields take, and the file as the
//! sequence of all of them.
use vstd::prelude::*;
use vstd::utf8::encode_utf8;
use crate::codec::{bits_of, splice, u16_bytes, u32_bytes, u64_bytes, zeros};
use crate::container::{
    BntxView, BrtiView, DictNode, DictSectionView, HeaderView, NxHeaderView, RelocationEntry,
    RelocationSection, RelocationTableView, StrSectionView,
};
use crate::decode::{
    BOM_BIG, BOM_LITTLE, BRTI_SIZE, FIXED_SIZE, MAGIC_BNTX, MAGIC_BRTD, MAGIC_BRTI, MAGIC_DIC,
    MAGIC_NX, MAGIC_RLT, MAGIC_STR,
};
use crate::format::ByteOrder;
use crate::tiling::BRTD_SECTION_START;

verus! {

/// The least multiple of `align` that is not less than `pos`.
pub open spec fn align_up(pos: int, align: int) -> int {
    ((pos + align - 1) / align) * align
}

/// The four bytes of a magic.
pub open spec fn magic_bytes(magic: u32) -> Seq<u8> {
    u32_bytes(magic, ByteOrder::BigEndian)
}

/// The two bytes of the byte-order marker of a byte order.
pub open spec fn bom_bytes(order: ByteOrder) -> Seq<u8> {
    match order {
        ByteOrder::LittleEndian => u16_bytes(BOM_LITTLE, ByteOrder::BigEndian),
        ByteOrder::BigEndian => u16_bytes(BOM_BIG, ByteOrder::BigEndian),
    }
}

/// The bytes of a list of records, one behind the other, where `f` gives the
/// bytes of one record.
pub open spec fn records_bytes<T>(items: Seq<T>, f: spec_fn(T) -> Seq<u8>) -> Seq<u8>
    decreases items.len(),
{
    if items.len() == 0 {
        Seq::empty()
    } else {
        records_bytes(items.drop_last(), f) + f(items.last())
    }
}

/// Records of `size` bytes each take `size` bytes for each record.
pub proof fn lemma_records_len<T>(items: Seq<T>, f: spec_fn(T) -> Seq<u8>, size: int)
    requires
        forall|x: T| #[trigger] f(x).len() == size,
        0 <= size,
    ensures
        records_bytes(items, f).len() == size * items.len(),
    decreases items.len(),
{
    if items.len() > 0 {
        lemma_records_len(items.drop_last(), f, size);
        assert(size * (items.len() - 1) + size == size * items.len()) by (nonlinear_arith);
    }
}

/// A record pushed to a list comes behind the bytes of the list.
pub proof fn lemma_records_push<T>(items: Seq<T>, f: spec_fn(T) -> Seq<u8>, x: T)
    ensures
        records_bytes(items.push(x), f) == records_bytes(items, f) + f(x),
{
    assert(items.push(x).drop_last() =~= items);
}

/// Record `i` of a list of records of `size` bytes each lies `size * i`
/// bytes into the bytes of the list.
pub proof fn lemma_records_item<T>(items: Seq<T>, f: spec_fn(T) -> Seq<u8>, size: int, i: int)
    requires
        forall|x: T| #[trigger] f(x).len() == size,
        0 <= size,
        0 <= i < items.len(),
    ensures
        size * i + size <= records_bytes(items, f).len(),
        records_bytes(items, f).subrange(size * i, size * i + size) == f(items[i]),
    decreases items.len(),
{
    let init = items.drop_last();
    lemma_records_len(items, f, size);
    lemma_records_len(init, f, size);
    assert(size * i + size <= size * items.len()) by (nonlinear_arith)
        requires
            0 <= size,
            i < items.len(),
    ;
    if i == items.len() - 1 {
        assert(records_bytes(items, f).subrange(size * i, size * i + size) =~= f(items.last()));
    } else {
        lemma_records_item(init, f, size, i);
        assert(size * i + size <= size * init.len()) by (nonlinear_arith)
            requires
                0 <= size,
                i < init.len(),
        ;
        assert(records_bytes(items, f).subrange(size * i, size * i + size) =~= records_bytes(
            init,
            f,
        ).subrange(size * i, size * i + size));
    }
}

/// Overwriting record `i` in the bytes of a list gives the bytes of the list
/// with that record replaced.
pub proof fn lemma_records_update<T>(
    items: Seq<T>,
    f: spec_fn(T) -> Seq<u8>,
    size: int,
    i: int,
    x: T,
)
    requires
        forall|y: T| #[trigger] f(y).len() == size,
        0 <= size,
        0 <= i < items.len(),
    ensures
        splice(records_bytes(items, f), size * i, f(x)) == records_bytes(items.update(i, x), f),
    decreases items.len(),
{
    let init = items.drop_last();
    let updated = items.update(i, x);
    lemma_records_len(items, f, size);
    lemma_records_len(init, f, size);
    assert(size * i + size <= size * items.len()) by (nonlinear_arith)
        requires
            0 <= size,
            i < items.len(),
    ;
    if i == items.len() - 1 {
        assert(updated.drop_last() =~= init);
        assert(splice(records_bytes(items, f), size * i, f(x)) =~= records_bytes(init, f) + f(x));
    } else {
        lemma_records_update(init, f, size, i, x);
        assert(updated.drop_last() =~= init.update(i, x));
        assert(updated.last() == items.last());
        assert(size * i + size <= size * init.len()) by (nonlinear_arith)
            requires
                0 <= size,
                i < init.len(),
        ;
        assert(splice(records_bytes(items, f), size * i, f(x)) =~= splice(
            records_bytes(init, f),
            size * i,
            f(x),
        ) + f(items.last()));
    }
}

/// Overwriting bytes inside the middle one of three parts leaves the other
/// two as they are.
pub proof fn lemma_splice_middle(a: Seq<u8>, s: Seq<u8>, c: Seq<u8>, at: int, patch: Seq<u8>)
    requires
        0 <= at,
        at + patch.len() <= s.len(),
    ensures
        splice(a + s + c, a.len() + at, patch) == a + splice(s, at, patch) + c,
{
    assert(splice(a + s + c, a.len() + at, patch) =~= a + splice(s, at, patch) + c);
}

/// Overwriting bytes inside a part of a sequence is overwriting the part
/// with the part so changed.
pub proof fn lemma_splice_inner(r: Seq<u8>, start: int, len: int, at: int, patch: Seq<u8>)
    requires
        0 <= start,
        0 <= len,
        start + len <= r.len(),
        0 <= at,
        at + patch.len() <= len,
    ensures
        splice(r, start + at, patch) == splice(
            r,
            start,
            splice(r.subrange(start, start + len), at, patch),
        ),
{
    assert(splice(r, start + at, patch) =~= splice(
        r,
        start,
        splice(r.subrange(start, start + len), at, patch),
    ));
}

/// The bytes of a list of 64-bit integers.
pub open spec fn u64s_bytes(items: Seq<u64>, order: ByteOrder) -> Seq<u8> {
    records_bytes(items, |x: u64| u64_bytes(x, order))
}

/// The bytes of a section of a relocation table.
pub open spec fn section_bytes(s: RelocationSection, order: ByteOrder) -> Seq<u8> {
    u64_bytes(s.pointer, order) + u32_bytes(s.position, order) + u32_bytes(s.size, order)
        + u32_bytes(s.index, order) + u32_bytes(s.count, order)
}

/// The bytes of an entry of a relocation table.
pub open spec fn entry_bytes(e: RelocationEntry, order: ByteOrder) -> Seq<u8> {
    u32_bytes(e.position, order) + u16_bytes(e.struct_count, order) + seq![
        e.offset_count,
        e.padding_count,
    ]
}

/// The bytes of a node of a dictionary.
pub open spec fn node_bytes(n: DictNode, order: ByteOrder) -> Seq<u8> {
    u32_bytes(bits_of(n.reference), order) + u16_bytes(n.left_index, order) + u16_bytes(
        n.right_index,
        order,
    ) + u64_bytes(n.name_offset, order)
}

/// The bytes of a relocation table.
#[verifier::opaque]
pub open spec fn reloc_bytes(t: RelocationTableView, order: ByteOrder) -> Seq<u8> {
    magic_bytes(MAGIC_RLT) + u32_bytes(t.position, order) + u32_bytes(t.count, order) + u32_bytes(
        t.unk1,
        order,
    ) + records_bytes(t.sections, |s: RelocationSection| section_bytes(s, order)) + records_bytes(
        t.entries,
        |e: RelocationEntry| entry_bytes(e, order),
    )
}

/// The bytes of a dictionary.
#[verifier::opaque]
pub open spec fn dict_bytes(d: DictSectionView, order: ByteOrder) -> Seq<u8> {
    magic_bytes(MAGIC_DIC) + u32_bytes(d.node_count, order) + records_bytes(
        d.nodes,
        |n: DictNode| node_bytes(n, order),
    )
}

/// The bytes of the payload block: the magic, four zero bytes, the size of
/// the block, which is that of the payload and 16, and the payload.
#[verifier::opaque]
pub open spec fn brtd_bytes(data: Seq<u8>, order: ByteOrder) -> Seq<u8> {
    magic_bytes(MAGIC_BRTD) + zeros(4) + u64_bytes((data.len() + 16) as u64, order) + data
}

/// The position behind a string that is stored at `pos`.
pub open spec fn str_end(s: Seq<char>, pos: int) -> int {
    let after = pos + 2 + encode_utf8(s).len() + 1;
    after + after % 2
}

/// The bytes of a string that is stored at `pos`: its length in bytes, its
/// bytes, a zero byte, and one more where the position would else be odd.
pub open spec fn str_bytes(s: Seq<char>, pos: int, order: ByteOrder) -> Seq<u8> {
    u16_bytes(encode_utf8(s).len() as u16, order) + encode_utf8(s) + zeros(
        str_end(s, pos) - (pos + 2 + encode_utf8(s).len()),
    )
}

/// The position behind a list of strings that is stored from `pos` on.
pub open spec fn strs_end(strings: Seq<Seq<char>>, pos: int) -> int
    decreases strings.len(),
{
    if strings.len() == 0 {
        pos
    } else {
        str_end(strings.last(), strs_end(strings.drop_last(), pos))
    }
}

/// The bytes of a list of strings that is stored from `pos` on.
pub open spec fn strs_bytes(strings: Seq<Seq<char>>, pos: int, order: ByteOrder) -> Seq<u8>
    decreases strings.len(),
{
    if strings.len() == 0 {
        Seq::empty()
    } else {
        strs_bytes(strings.drop_last(), pos, order) + str_bytes(
            strings.last(),
            strs_end(strings.drop_last(), pos),
            order,
        )
    }
}

/// The bytes of a string section that is stored at `pos`.
#[verifier::opaque]
pub open spec fn str_section_bytes(s: StrSectionView, pos: int, order: ByteOrder) -> Seq<u8> {
    magic_bytes(MAGIC_STR) + u32_bytes(s.block_size, order) + u64_bytes(s.block_offset, order)
        + u32_bytes(s.str_count, order) + str_bytes(s.empty, pos + 20, order) + strs_bytes(
        s.strings,
        str_end(s.empty, pos + 20),
        order,
    )
}

/// The position behind a string section that is stored at `pos`.
pub open spec fn str_section_end(s: StrSectionView, pos: int) -> int {
    strs_end(s.strings, str_end(s.empty, pos + 20))
}

/// The pointers that a texture descriptor holds: to its mip offsets and to
/// its two opaque blocks.
pub struct BrtiPointers {
    pub mipmaps: u64,
    pub unk6: u64,
    pub unk7: u64,
}

/// The first 24 bytes of a texture descriptor.
pub open spec fn brti_part_a(b: BrtiView, order: ByteOrder) -> Seq<u8> {
    magic_bytes(MAGIC_BRTI) + u32_bytes(b.size, order) + u64_bytes(b.size2, order) + seq![
        b.flags,
        b.texture_dimension.spec_code(),
    ] + u16_bytes(b.tile_mode, order) + u16_bytes(b.swizzle, order) + u16_bytes(
        b.mipmap_count,
        order,
    )
}

/// The bytes 24 to 56 of a texture descriptor.
pub open spec fn brti_part_b(b: BrtiView, order: ByteOrder) -> Seq<u8> {
    u32_bytes(b.multi_sample_count, order) + u32_bytes(b.image_format.spec_code(), order)
        + u32_bytes(b.unk2, order) + u32_bytes(b.width, order) + u32_bytes(b.height, order)
        + u32_bytes(b.depth, order) + u32_bytes(b.layer_count, order) + u32_bytes(
        b.block_height_log2,
        order,
    )
}

/// The bytes 56 to 112 of a texture descriptor.
pub open spec fn brti_part_c(b: BrtiView, order: ByteOrder) -> Seq<u8> {
    records_bytes(b.unk4, |x: u32| u32_bytes(x, order)) + u32_bytes(b.image_size, order)
        + u32_bytes(b.align, order) + u32_bytes(b.comp_sel, order) + u32_bytes(
        b.texture_view_dimension.spec_code(),
        order,
    ) + u64_bytes(b.name_addr, order) + u64_bytes(b.parent_addr, order)
}

/// The bytes 112 to 160 of a texture descriptor, which hold its pointers.
pub open spec fn brti_part_d(b: BrtiView, p: BrtiPointers, order: ByteOrder) -> Seq<u8> {
    u64_bytes(p.mipmaps, order) + u64_bytes(b.unk5, order) + u64_bytes(p.unk6, order) + u64_bytes(
        p.unk7,
        order,
    ) + records_bytes(b.unk, |x: u32| u32_bytes(x, order))
}

/// The 160 bytes of a texture descriptor.
#[verifier::opaque]
pub open spec fn brti_block(b: BrtiView, p: BrtiPointers, order: ByteOrder) -> Seq<u8> {
    brti_part_a(b, order) + brti_part_b(b, order) + brti_part_c(b, order) + brti_part_d(
        b,
        p,
        order,
    )
}

/// The size in bytes of a texture descriptor with its two opaque blocks and
/// its mip offsets.
pub open spec fn brti_record_len(b: BrtiView) -> int {
    BRTI_SIZE + 256 + 256 + 8 * b.mipmaps.len()
}

/// The pointers of a texture descriptor that is stored at `pos`: the first
/// opaque block lies behind the descriptor, the second behind the first, and
/// the mip offsets behind the second.
pub open spec fn brti_pointers(pos: int) -> BrtiPointers {
    BrtiPointers {
        mipmaps: (pos + BRTI_SIZE + 512) as u64,
        unk6: (pos + BRTI_SIZE) as u64,
        unk7: (pos + BRTI_SIZE + 256) as u64,
    }
}

/// The bytes of a texture descriptor that is stored at `pos`, with its two
/// opaque blocks and its mip offsets behind it.
#[verifier::opaque]
pub open spec fn brti_record(b: BrtiView, pos: int, order: ByteOrder) -> Seq<u8> {
    brti_block(b, brti_pointers(pos), order) + b.unk6 + b.unk7 + u64s_bytes(b.mipmaps, order)
}

/// The size in bytes of a list of texture descriptors.
pub open spec fn brtis_len(brtis: Seq<BrtiView>) -> int
    decreases brtis.len(),
{
    if brtis.len() == 0 {
        0
    } else {
        brtis_len(brtis.drop_last()) + brti_record_len(brtis.last())
    }
}

/// The bytes of a list of texture descriptors that is stored from `pos` on.
pub open spec fn brtis_bytes(brtis: Seq<BrtiView>, pos: int, order: ByteOrder) -> Seq<u8>
    decreases brtis.len(),
{
    if brtis.len() == 0 {
        Seq::empty()
    } else {
        brtis_bytes(brtis.drop_last(), pos, order) + brti_record(
            brtis.last(),
            pos + brtis_len(brtis.drop_last()),
            order,
        )
    }
}

/// The fixed part of a file: the header and the block that holds the
/// pointers to descriptors, payload and dictionary.
pub struct Head {
    pub unk: u32,
    pub version: (u16, u16),
    pub bom: ByteOrder,
    pub revision: u16,
    pub file_name: u32,
    pub unk2: u16,
    pub str_section_at: u16,
    pub reloc_table_at: u32,
    pub file_size: u32,
    pub count: u32,
    pub brtis_at: u64,
    pub brtd_at: u64,
    pub dict_at: u64,
    pub dict_size: u64,
    pub unk3: Seq<u64>,
}

/// The first 32 bytes of a file: its header. What lies before the
/// byte-order marker is little-endian; what lies behind it is in the byte
/// order of the marker.
pub open spec fn head_part_a(h: Head) -> Seq<u8> {
    magic_bytes(MAGIC_BNTX) + u32_bytes(h.unk, ByteOrder::LittleEndian) + u16_bytes(
        h.version.0,
        ByteOrder::LittleEndian,
    ) + u16_bytes(h.version.1, ByteOrder::LittleEndian) + bom_bytes(h.bom) + u16_bytes(
        h.revision,
        h.bom,
    ) + u32_bytes(h.file_name, h.bom) + u16_bytes(h.unk2, h.bom) + u16_bytes(
        h.str_section_at,
        h.bom,
    ) + u32_bytes(h.reloc_table_at, h.bom) + u32_bytes(h.file_size, h.bom)
}

/// The bytes 32 to 64 of a file: the count of the texture descriptors and
/// the pointers to them, to the payload and to the dictionary.
pub open spec fn head_part_b(h: Head) -> Seq<u8> {
    magic_bytes(MAGIC_NX) + u32_bytes(h.count, h.bom) + u64_bytes(h.brtis_at, h.bom) + u64_bytes(
        h.brtd_at,
        h.bom,
    ) + u64_bytes(h.dict_at, h.bom)
}

/// The bytes 64 to 408 of a file.
pub open spec fn head_part_c(h: Head) -> Seq<u8> {
    u64_bytes(h.dict_size, h.bom) + u64s_bytes(h.unk3, h.bom)
}

/// The 408 bytes of the fixed part of a file.
#[verifier::opaque]
pub open spec fn head_bytes(h: Head) -> Seq<u8> {
    head_part_a(h) + head_part_b(h) + head_part_c(h)
}

/// A relocation table with its offset fields set: its own position, the
/// size of its first section, the position and size of its second, which is
/// the payload block, and the positions of its five entries, of which the
/// first, second and fifth are the pointers of the fixed part.
pub open spec fn reloc_table_with(
    t: RelocationTableView,
    position: u32,
    first_size: u32,
    payload_size: u32,
    dict_names: u32,
    brti_name: u32,
) -> RelocationTableView {
    let s0 = RelocationSection { size: first_size, ..t.sections[0] };
    let s1 = RelocationSection {
        position: BRTD_SECTION_START as u32,
        size: payload_size,
        ..t.sections[1]
    };
    let e0 = RelocationEntry { position: 40, ..t.entries[0] };
    let e1 = RelocationEntry { position: 56, ..t.entries[1] };
    let e2 = RelocationEntry { position: dict_names, ..t.entries[2] };
    let e3 = RelocationEntry { position: brti_name, ..t.entries[3] };
    let e4 = RelocationEntry { position: 48, ..t.entries[4] };
    RelocationTableView {
        position,
        sections: t.sections.update(0, s0).update(1, s1),
        entries: t.entries.update(0, e0).update(1, e1).update(2, e2).update(3, e3).update(4, e4),
        ..t
    }
}

/// A texture descriptor with its offset fields set: its two size fields,
/// and the positions of its name and of the block that holds it.
pub open spec fn brti_with(b: BrtiView, size: u64, name_addr: u64) -> BrtiView {
    BrtiView { size: size as u32, size2: size, name_addr, parent_addr: 32, ..b }
}

/// A string section with its two offset fields set.
pub open spec fn str_section_with(s: StrSectionView, block: u64) -> StrSectionView {
    StrSectionView { block_size: block as u32, block_offset: block, ..s }
}

impl BntxView {
    /// Whether the fixed-size arrays of the container have their sizes.
    pub open spec fn wf(self) -> bool {
        &&& self.nx_header.unk.len() == 42
        &&& forall|i: int|
            0 <= i < self.nx_header.brtis.len() ==> {
                let b = #[trigger] self.nx_header.brtis[i];
                &&& b.unk4.len() == 6
                &&& b.unk.len() == 4
                &&& b.unk6.len() == 256
                &&& b.unk7.len() == 256
            }
    }

    /// Whether each count that the container holds is that of the list it
    /// counts: the strings, the sections and the entries of the relocation
    /// table, the nodes of the dictionary behind its root, and the mip
    /// levels of each texture.
    pub open spec fn consistent(self) -> bool {
        &&& self.header.str_section.str_count == self.header.str_section.strings.len()
        &&& self.header.reloc_table.count == self.header.reloc_table.sections.len()
        &&& crate::surface::section_count_sum(self.header.reloc_table.sections)
            == self.header.reloc_table.entries.len()
        &&& self.nx_header.dict.node_count + 1 == self.nx_header.dict.nodes.len()
        &&& forall|i: int|
            0 <= i < self.nx_header.brtis.len() ==> (#[trigger] self.nx_header.brtis[i]).mipmap_count
                == self.nx_header.brtis[i].mipmaps.len()
    }

    /// Where the string section lies: behind the pointers to the
    /// descriptors, which follow the fixed part.
    pub open spec fn str_section_pos(self) -> int {
        FIXED_SIZE + 8 * self.nx_header.brtis.len()
    }

    /// Where the characters of the first name lie: behind the 20 bytes of
    /// the string section's header, the 4 of the empty string and the 2 of
    /// the name's length. The header of the file and every texture
    /// descriptor refer to the name by this one position.
    pub open spec fn name_pos(self) -> int {
        self.str_section_pos() + 26
    }

    /// Where the dictionary lies: at the first multiple of 8 behind the
    /// string section.
    pub open spec fn dict_pos(self) -> int {
        align_up(str_section_end(self.header.str_section, self.str_section_pos()), 8)
    }

    /// Where the first texture descriptor lies: behind the dictionary.
    pub open spec fn brtis_pos(self) -> int {
        self.dict_pos() + 8 + 16 * self.nx_header.dict.nodes.len()
    }

    /// Where texture descriptor `i` lies.
    pub open spec fn brti_pos(self, i: int) -> int {
        self.brtis_pos() + brtis_len(self.nx_header.brtis.take(i))
    }

    /// The position behind the last texture descriptor.
    pub open spec fn brtis_end(self) -> int {
        self.brtis_pos() + brtis_len(self.nx_header.brtis)
    }

    /// The position behind the payload, which begins at a fixed position.
    pub open spec fn brtd_end(self) -> int {
        BRTD_SECTION_START + 16 + self.nx_header.brtd.len()
    }

    /// Where the relocation table lies: at the first multiple of 4 behind
    /// the payload.
    pub open spec fn reloc_pos(self) -> int {
        align_up(self.brtd_end(), 4)
    }

    /// The length of the file.
    pub open spec fn file_end(self) -> int {
        self.reloc_pos() + 16 + 24 * self.header.reloc_table.sections.len() + 8
            * self.header.reloc_table.entries.len()
    }

    /// The containers that can be written: the positions of their
    /// structures fit the fields that hold them, their texture descriptors
    /// end before the fixed position of the payload, their strings are short
    /// enough for a 16-bit length, and their relocation table has the two
    /// sections and five entries that are filled in.
    pub open spec fn writable(self) -> bool {
        &&& self.wf()
        &&& self.str_section_pos() <= u16::MAX
        &&& encode_utf8(self.header.str_section.empty).len() <= u16::MAX
        &&& forall|i: int|
            0 <= i < self.header.str_section.strings.len() ==> encode_utf8(
                #[trigger] self.header.str_section.strings[i],
            ).len() <= u16::MAX
        &&& self.brtis_end() <= BRTD_SECTION_START
        &&& self.header.reloc_table.sections.len() >= 2
        &&& self.header.reloc_table.entries.len() >= 5
        &&& self.file_end() <= u32::MAX
    }

    /// The fixed part of the file of a container, with the pointers that its
    /// layout gives.
    pub open spec fn head(self) -> Head {
        Head {
            unk: self.unk,
            version: self.version,
            bom: self.bom,
            revision: self.header.revision,
            file_name: self.header.file_name,
            unk2: self.header.unk,
            str_section_at: self.str_section_pos() as u16,
            reloc_table_at: self.reloc_pos() as u32,
            file_size: self.header.file_size,
            count: self.nx_header.brtis.len() as u32,
            brtis_at: FIXED_SIZE,
            brtd_at: BRTD_SECTION_START,
            dict_at: self.dict_pos() as u64,
            dict_size: self.nx_header.dict_size,
            unk3: self.nx_header.unk,
        }
    }

    /// The pointers to the texture descriptors.
    pub open spec fn brti_table(self) -> Seq<u64> {
        Seq::new(self.nx_header.brtis.len(), |i: int| self.brti_pos(i) as u64)
    }

    /// What follows the string section in the file: padding, the
    /// dictionary, the texture descriptors, padding up to the fixed
    /// position of the payload, the payload, padding, and the relocation
    /// table.
    pub open spec fn tail_bytes(self) -> Seq<u8> {
        zeros(self.dict_pos() - str_section_end(self.header.str_section, self.str_section_pos()))
            + dict_bytes(self.nx_header.dict, self.bom) + brtis_bytes(
            self.nx_header.brtis,
            self.brtis_pos(),
            self.bom,
        ) + zeros(BRTD_SECTION_START - self.brtis_end()) + brtd_bytes(
            self.nx_header.brtd,
            self.bom,
        ) + zeros(self.reloc_pos() - self.brtd_end()) + reloc_bytes(
            self.header.reloc_table,
            self.bom,
        )
    }

    /// The file that holds the fields of a container as they are: the fixed
    /// part, the pointers to the texture descriptors, the string section,
    /// and what follows it.
    pub open spec fn file_bytes(self) -> Seq<u8> {
        head_bytes(self.head()) + u64s_bytes(self.brti_table(), self.bom) + str_section_bytes(
            self.header.str_section,
            self.str_section_pos(),
            self.bom,
        ) + self.tail_bytes()
    }

    /// Texture descriptor `i` as it is written: its size fields hold the
    /// distance from its position to the fixed position of the payload, its
    /// name field the position of the first name, the same that the header
    /// of the file holds, its parent field the position of the block that
    /// holds the descriptors.
    pub open spec fn resolved_brti(self, i: int) -> BrtiView {
        brti_with(
            self.nx_header.brtis[i],
            (BRTD_SECTION_START - self.brti_pos(i)) as u64,
            self.name_pos() as u64,
        )
    }

    /// The relocation table as it is written. Its position is its own. Its
    /// first section ends behind the texture descriptors; its second is the
    /// payload block. Its entries lie at the pointers of the fixed part, at
    /// the names of the dictionary, and at the name of the first descriptor.
    pub open spec fn resolved_reloc_table(self) -> RelocationTableView {
        reloc_table_with(
            self.header.reloc_table,
            self.reloc_pos() as u32,
            self.brtis_end() as u32,
            (self.nx_header.brtd.len() + 16) as u32,
            (self.dict_pos() + 16) as u32,
            (self.brtis_pos() + 96) as u32,
        )
    }

    /// The fixed part of the file of a container before any position is
    /// known: its offset fields and its pointers are zero.
    pub open spec fn blank_head(self) -> Head {
        Head {
            file_name: 0,
            str_section_at: 0,
            reloc_table_at: 0,
            file_size: 0,
            brtis_at: 0,
            brtd_at: 0,
            dict_at: 0,
            ..self.head()
        }
    }

    /// The container as it is written: each offset field holds the value
    /// that the layout of the file gives it, and every other field is as it
    /// was.
    pub open spec fn resolved(self) -> BntxView {
        BntxView {
            header: HeaderView {
                file_name: self.name_pos() as u32,
                file_size: self.file_end() as u32,
                str_section: str_section_with(
                    self.header.str_section,
                    (self.brtis_pos() - self.str_section_pos()) as u64,
                ),
                reloc_table: self.resolved_reloc_table(),
                ..self.header
            },
            nx_header: NxHeaderView {
                brtis: Seq::new(self.nx_header.brtis.len(), |i: int| self.resolved_brti(i)),
                ..self.nx_header
            },
            ..self
        }
    }

    /// The file that a container is written to: that of the container with
    /// its offset fields resolved.
    pub open spec fn encoding(self) -> Seq<u8> {
        self.resolved().file_bytes()
    }
}

/// A list of texture descriptors takes no fewer bytes than a part of it
/// from its start.
pub proof fn lemma_brtis_len_take(brtis: Seq<BrtiView>, i: int)
    requires
        0 <= i <= brtis.len(),
    ensures
        0 <= brtis_len(brtis.take(i)) <= brtis_len(brtis),
        i < brtis.len() ==> brtis_len(brtis.take(i + 1)) == brtis_len(brtis.take(i))
            + brti_record_len(brtis[i]),
    decreases brtis.len() - i,
{
    if i < brtis.len() {
        lemma_brtis_len_take(brtis, i + 1);
        assert(brtis.take(i + 1).drop_last() =~= brtis.take(i));
    } else {
        assert(brtis.take(i) =~= brtis);
    }
    lemma_brtis_len_nonneg(brtis.take(i));
}

/// A list of texture descriptors takes no negative number of bytes.
pub proof fn lemma_brtis_len_nonneg(brtis: Seq<BrtiView>)
    ensures
        0 <= brtis_len(brtis),
    decreases brtis.len(),
{
    if brtis.len() > 0 {
        lemma_brtis_len_nonneg(brtis.drop_last());
    }
}

/// Two lists of texture descriptors whose descriptors have as many mip
/// levels, one by one, take as many bytes.
pub proof fn lemma_brtis_len_same(a: Seq<BrtiView>, b: Seq<BrtiView>)
    requires
        a.len() == b.len(),
        forall|i: int| 0 <= i < a.len() ==> a[i].mipmaps.len() == b[i].mipmaps.len(),
    ensures
        brtis_len(a) == brtis_len(b),
    decreases a.len(),
{
    if a.len() > 0 {
        lemma_brtis_len_same(a.drop_last(), b.drop_last());
    }
}

/// The strings of a list end no earlier than they begin.
pub proof fn lemma_strs_end_from(strings: Seq<Seq<char>>, pos: int)
    ensures
        pos <= strs_end(strings, pos),
    decreases strings.len(),
{
    if strings.len() > 0 {
        lemma_strs_end_from(strings.drop_last(), pos);
    }
}

/// Resolving the offset fields of a container moves none of its
/// structures: each lies where it lay.
pub proof fn lemma_resolved_layout(x: BntxView)
    requires
        x.header.reloc_table.sections.len() >= 2,
        x.header.reloc_table.entries.len() >= 5,
    ensures
        x.resolved().nx_header.brtis.len() == x.nx_header.brtis.len(),
        x.resolved().str_section_pos() == x.str_section_pos(),
        x.resolved().dict_pos() == x.dict_pos(),
        x.resolved().brtis_pos() == x.brtis_pos(),
        x.resolved().brtis_end() == x.brtis_end(),
        x.resolved().brtd_end() == x.brtd_end(),
        x.resolved().reloc_pos() == x.reloc_pos(),
        x.resolved().file_end() == x.file_end(),
        forall|i: int|
            0 <= i <= x.nx_header.brtis.len() ==> #[trigger] x.resolved().brti_pos(i)
                == x.brti_pos(i),
        x.resolved().brti_table() == x.brti_table(),
{
    let r = x.resolved();
    let a = x.nx_header.brtis;
    let b = r.nx_header.brtis;
    assert(str_section_end(r.header.str_section, r.str_section_pos()) == str_section_end(
        x.header.str_section,
        x.str_section_pos(),
    ));
    lemma_brtis_len_same(a, b);
    assert forall|i: int| 0 <= i <= a.len() implies #[trigger] r.brti_pos(i) == x.brti_pos(
        i,
    ) by {
        lemma_brtis_len_same(a.take(i), b.take(i));
    }
    assert(r.brti_table() =~= x.brti_table());
}

/// Every texture descriptor of a container as it is written refers to the
/// name by the position that the header of the file holds.
pub proof fn lemma_name_positions_agree(x: BntxView, i: int)
    requires
        x.writable(),
        0 <= i < x.nx_header.brtis.len(),
    ensures
        x.resolved().nx_header.brtis[i].name_addr == x.resolved().header.file_name,
        x.resolved().header.file_name == x.name_pos(),
{
}

} // verus!
