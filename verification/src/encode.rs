//! The encoder: from a container to the bytes of a file. Each structure is
//! written as it is behind the one before it, its pointers as zero. A write
//! returns the place of what it wrote, and each pointer and offset field is
//! overwritten there once the position that it holds is known.
use vstd::prelude::*;
use vstd::utf8::encode_utf8;
use crate::codec::{
    i32_to_bits, in_bounds, lemma_bytes_len, splice, u16_bytes, u32_bytes, u64_bytes, zeros,
    Writer,
};
use crate::container::{
    Bntx, BntxStr, BntxView, Brti, BrtiView, DictNode, DictSection, RelocationEntry,
    RelocationSection, RelocationTable, RelocationTableView, StrSection, StrSectionView,
    strings_view,
};
use crate::decode::{
    BOM_BIG, BOM_LITTLE, BRTI_SIZE, FIXED_SIZE, MAGIC_BNTX, MAGIC_BRTD, MAGIC_BRTI, MAGIC_DIC,
    MAGIC_NX, MAGIC_RLT, MAGIC_STR,
};
use crate::format::ByteOrder;
use crate::layout::{
    align_up, bom_bytes, brti_block, brti_pointers, brti_record, brtd_bytes, brtis_bytes,
    dict_bytes,
    entry_bytes, head_bytes, head_part_a, head_part_b, head_part_c, lemma_records_len,
    lemma_records_push, lemma_splice_middle, magic_bytes, node_bytes,
    records_bytes, reloc_bytes, section_bytes, str_bytes, str_end, str_section_bytes,
    str_section_end, strs_bytes, strs_end, u64s_bytes, BrtiPointers, Head,
};

verus! {

/// Writes a magic.
fn put_magic(w: &mut Writer, magic: u32)
    ensures
        final(w)@ == old(w)@ + magic_bytes(magic),
        final(w).order == old(w).order,
{
    let b0: u8 = (magic / 0x100_0000) as u8;
    let b1: u8 = (magic / 0x1_0000 % 0x100) as u8;
    let b2: u8 = (magic / 0x100 % 0x100) as u8;
    let b3: u8 = (magic % 0x100) as u8;
    w.put_u8(b0);
    w.put_u8(b1);
    w.put_u8(b2);
    w.put_u8(b3);
    proof {
        reveal(u32_bytes);
    }
    assert(w@ =~= old(w)@ + magic_bytes(magic));
}

/// Writes a list of 64-bit integers.
fn put_u64s(w: &mut Writer, items: &[u64])
    ensures
        final(w)@ == old(w)@ + u64s_bytes(items@, old(w).order),
        final(w).order == old(w).order,
{
    let ghost order = w.order;
    let ghost f = |x: u64| u64_bytes(x, order);
    let mut i: usize = 0;
    assert(w@ =~= old(w)@ + records_bytes(items@.take(0), f));
    while i < items.len()
        invariant
            i <= items@.len(),
            w.order == order,
            f == |x: u64| u64_bytes(x, order),
            w@ == old(w)@ + records_bytes(items@.take(i as int), f),
        decreases items@.len() - i,
    {
        w.put_u64(items[i]);
        proof {
            lemma_records_push(items@.take(i as int), f, items@[i as int]);
            assert(items@.take(i as int).push(items@[i as int]) =~= items@.take(i + 1));
            assert(w@ =~= old(w)@ + records_bytes(items@.take(i + 1), f));
        }
        i = i + 1;
    }
    assert(items@.take(i as int) =~= items@);
}

/// Writes a list of 32-bit integers.
fn put_u32s(w: &mut Writer, items: &[u32])
    ensures
        final(w)@ == old(w)@ + records_bytes(items@, |x: u32| u32_bytes(x, old(w).order)),
        final(w).order == old(w).order,
{
    let ghost order = w.order;
    let ghost f = |x: u32| u32_bytes(x, order);
    let mut i: usize = 0;
    assert(w@ =~= old(w)@ + records_bytes(items@.take(0), f));
    while i < items.len()
        invariant
            i <= items@.len(),
            w.order == order,
            f == |x: u32| u32_bytes(x, order),
            w@ == old(w)@ + records_bytes(items@.take(i as int), f),
        decreases items@.len() - i,
    {
        w.put_u32(items[i]);
        proof {
            lemma_records_push(items@.take(i as int), f, items@[i as int]);
            assert(items@.take(i as int).push(items@[i as int]) =~= items@.take(i + 1));
            assert(w@ =~= old(w)@ + records_bytes(items@.take(i + 1), f));
        }
        i = i + 1;
    }
    assert(items@.take(i as int) =~= items@);
}

/// Writes a string where its length fits in 16 bits: its length, its bytes,
/// a zero byte, and one more where the position would else be odd.
fn put_str(w: &mut Writer, s: &BntxStr) -> (done: bool)
    ensures
        final(w).order == old(w).order,
        done == (encode_utf8(s@).len() <= u16::MAX),
        done ==> final(w)@ == old(w)@ + str_bytes(s@, old(w)@.len() as int, old(w).order),
        done ==> final(w)@.len() == str_end(s@, old(w)@.len() as int),
{
    let text = s.chars.as_str().as_bytes();
    if text.len() > 0xFFFF {
        return false;
    }
    let ghost start = w@.len() as int;
    w.put_u16(text.len() as u16);
    w.put_bytes(text);
    w.put_u8(0);
    if w.position() % 2 == 1 {
        w.put_u8(0);
    }
    proof {
        lemma_bytes_len();
    }
    assert(w@ =~= old(w)@ + str_bytes(s@, start, old(w).order));
    true
}

/// Writes a section of a relocation table.
fn put_section(w: &mut Writer, s: RelocationSection)
    ensures
        final(w)@ == old(w)@ + section_bytes(s, old(w).order),
        final(w).order == old(w).order,
{
    w.put_u64(s.pointer);
    w.put_u32(s.position);
    w.put_u32(s.size);
    w.put_u32(s.index);
    w.put_u32(s.count);
    assert(w@ =~= old(w)@ + section_bytes(s, old(w).order));
}

/// Writes an entry of a relocation table.
fn put_entry(w: &mut Writer, e: RelocationEntry)
    ensures
        final(w)@ == old(w)@ + entry_bytes(e, old(w).order),
        final(w).order == old(w).order,
{
    w.put_u32(e.position);
    w.put_u16(e.struct_count);
    w.put_u8(e.offset_count);
    w.put_u8(e.padding_count);
    assert(w@ =~= old(w)@ + entry_bytes(e, old(w).order));
}

/// Writes a node of a dictionary.
fn put_node(w: &mut Writer, n: DictNode)
    ensures
        final(w)@ == old(w)@ + node_bytes(n, old(w).order),
        final(w).order == old(w).order,
{
    w.put_u32(i32_to_bits(n.reference));
    w.put_u16(n.left_index);
    w.put_u16(n.right_index);
    w.put_u64(n.name_offset);
    assert(w@ =~= old(w)@ + node_bytes(n, old(w).order));
}

/// Writes a dictionary.
fn put_dict(w: &mut Writer, d: &DictSection)
    ensures
        final(w)@ == old(w)@ + dict_bytes(d@, old(w).order),
        final(w).order == old(w).order,
        final(w)@.len() == old(w)@.len() + 8 + 16 * d@.nodes.len(),
{
    reveal(dict_bytes);
    let ghost order = w.order;
    let ghost f = |n: DictNode| node_bytes(n, order);
    put_magic(w, MAGIC_DIC);
    w.put_u32(d.node_count);
    let ghost base = w@;
    let mut i: usize = 0;
    assert(w@ =~= base + records_bytes(d.nodes@.take(0), f));
    while i < d.nodes.len()
        invariant
            i <= d.nodes@.len(),
            w.order == order,
            f == |n: DictNode| node_bytes(n, order),
            w@ == base + records_bytes(d.nodes@.take(i as int), f),
        decreases d.nodes@.len() - i,
    {
        put_node(w, d.nodes[i]);
        proof {
            lemma_records_push(d.nodes@.take(i as int), f, d.nodes@[i as int]);
            assert(d.nodes@.take(i as int).push(d.nodes@[i as int]) =~= d.nodes@.take(i + 1));
            assert(w@ =~= base + records_bytes(d.nodes@.take(i + 1), f));
        }
        i = i + 1;
    }
    proof {
        assert(d.nodes@.take(i as int) =~= d.nodes@);
        lemma_bytes_len();
        assert forall|n: DictNode| #[trigger] f(n).len() == 16 by {}
        lemma_records_len(d.nodes@, f, 16);
        assert(w@ =~= old(w)@ + dict_bytes(d@, order));
    }
}

/// Writes the payload block.
fn put_brtd(w: &mut Writer, data: &Vec<u8>)
    requires
        data@.len() + 16 <= u64::MAX,
    ensures
        final(w)@ == old(w)@ + brtd_bytes(data@, old(w).order),
        final(w).order == old(w).order,
        final(w)@.len() == old(w)@.len() + 16 + data@.len(),
{
    reveal(brtd_bytes);
    put_magic(w, MAGIC_BRTD);
    w.put_u32(0);
    w.put_u64(data.len() as u64 + 16);
    w.put_bytes(data.as_slice());
    proof {
        reveal(u32_bytes);
        lemma_bytes_len();
    }
    assert(u32_bytes(0, old(w).order) =~= zeros(4));
    assert(w@ =~= old(w)@ + brtd_bytes(data@, old(w).order));
}

/// The three parts of the fixed part of a file are 32, 32 and 344 bytes
/// long.
pub proof fn lemma_head_len(h: Head)
    requires
        h.unk3.len() == 42,
    ensures
        head_part_a(h).len() == 32,
        head_part_b(h).len() == 32,
        head_part_c(h).len() == 344,
        head_bytes(h).len() == FIXED_SIZE,
{
    reveal(head_bytes);
    let f = |x: u64| u64_bytes(x, h.bom);
    lemma_bytes_len();
    assert forall|x: u64| #[trigger] f(x).len() == 8 by {}
    lemma_records_len(h.unk3, f, 8);
}

/// Overwriting the field `file_name` in the fixed part of a file gives the
/// fixed part with that field replaced, and leaves what follows as it is.
pub proof fn lemma_patch_file_name(h: Head, rest: Seq<u8>, v: u32)
    requires
        h.unk3.len() == 42,
    ensures
        splice(head_bytes(h) + rest, 16, u32_bytes(v, h.bom)) == head_bytes(
            Head { file_name: v, ..h },
        ) + rest,
{
    reveal(head_bytes);
    lemma_bytes_len();
    let g = Head { file_name: v, ..h };
    lemma_head_len(h);
    lemma_head_len(g);
    assert(splice(head_part_a(h), 16, u32_bytes(v, h.bom)) =~= head_part_a(g));
    assert(head_part_b(g) == head_part_b(h));
    assert(head_part_c(g) == head_part_c(h));
    lemma_splice_middle(Seq::empty(), head_part_a(h), head_part_b(h) + head_part_c(h) + rest, 16, u32_bytes(v, h.bom));
    assert(head_bytes(h) + rest =~= Seq::<u8>::empty() + head_part_a(h) + (head_part_b(h)
        + head_part_c(h) + rest));
    assert(head_bytes(g) + rest =~= Seq::<u8>::empty() + head_part_a(g) + (head_part_b(h)
        + head_part_c(h) + rest));
}

/// Overwriting the field `str_section_at` in the fixed part of a file gives the
/// fixed part with that field replaced, and leaves what follows as it is.
pub proof fn lemma_patch_str_section_at(h: Head, rest: Seq<u8>, v: u16)
    requires
        h.unk3.len() == 42,
    ensures
        splice(head_bytes(h) + rest, 22, u16_bytes(v, h.bom)) == head_bytes(
            Head { str_section_at: v, ..h },
        ) + rest,
{
    reveal(head_bytes);
    lemma_bytes_len();
    let g = Head { str_section_at: v, ..h };
    lemma_head_len(h);
    lemma_head_len(g);
    assert(splice(head_part_a(h), 22, u16_bytes(v, h.bom)) =~= head_part_a(g));
    assert(head_part_b(g) == head_part_b(h));
    assert(head_part_c(g) == head_part_c(h));
    lemma_splice_middle(Seq::empty(), head_part_a(h), head_part_b(h) + head_part_c(h) + rest, 22, u16_bytes(v, h.bom));
    assert(head_bytes(h) + rest =~= Seq::<u8>::empty() + head_part_a(h) + (head_part_b(h)
        + head_part_c(h) + rest));
    assert(head_bytes(g) + rest =~= Seq::<u8>::empty() + head_part_a(g) + (head_part_b(h)
        + head_part_c(h) + rest));
}

/// Overwriting the field `reloc_table_at` in the fixed part of a file gives the
/// fixed part with that field replaced, and leaves what follows as it is.
pub proof fn lemma_patch_reloc_table_at(h: Head, rest: Seq<u8>, v: u32)
    requires
        h.unk3.len() == 42,
    ensures
        splice(head_bytes(h) + rest, 24, u32_bytes(v, h.bom)) == head_bytes(
            Head { reloc_table_at: v, ..h },
        ) + rest,
{
    reveal(head_bytes);
    lemma_bytes_len();
    let g = Head { reloc_table_at: v, ..h };
    lemma_head_len(h);
    lemma_head_len(g);
    assert(splice(head_part_a(h), 24, u32_bytes(v, h.bom)) =~= head_part_a(g));
    assert(head_part_b(g) == head_part_b(h));
    assert(head_part_c(g) == head_part_c(h));
    lemma_splice_middle(Seq::empty(), head_part_a(h), head_part_b(h) + head_part_c(h) + rest, 24, u32_bytes(v, h.bom));
    assert(head_bytes(h) + rest =~= Seq::<u8>::empty() + head_part_a(h) + (head_part_b(h)
        + head_part_c(h) + rest));
    assert(head_bytes(g) + rest =~= Seq::<u8>::empty() + head_part_a(g) + (head_part_b(h)
        + head_part_c(h) + rest));
}

/// Overwriting the field `file_size` in the fixed part of a file gives the
/// fixed part with that field replaced, and leaves what follows as it is.
pub proof fn lemma_patch_file_size(h: Head, rest: Seq<u8>, v: u32)
    requires
        h.unk3.len() == 42,
    ensures
        splice(head_bytes(h) + rest, 28, u32_bytes(v, h.bom)) == head_bytes(
            Head { file_size: v, ..h },
        ) + rest,
{
    reveal(head_bytes);
    lemma_bytes_len();
    let g = Head { file_size: v, ..h };
    lemma_head_len(h);
    lemma_head_len(g);
    assert(splice(head_part_a(h), 28, u32_bytes(v, h.bom)) =~= head_part_a(g));
    assert(head_part_b(g) == head_part_b(h));
    assert(head_part_c(g) == head_part_c(h));
    lemma_splice_middle(Seq::empty(), head_part_a(h), head_part_b(h) + head_part_c(h) + rest, 28, u32_bytes(v, h.bom));
    assert(head_bytes(h) + rest =~= Seq::<u8>::empty() + head_part_a(h) + (head_part_b(h)
        + head_part_c(h) + rest));
    assert(head_bytes(g) + rest =~= Seq::<u8>::empty() + head_part_a(g) + (head_part_b(h)
        + head_part_c(h) + rest));
}

/// Overwriting the field `brtis_at` in the fixed part of a file gives the
/// fixed part with that field replaced, and leaves what follows as it is.
pub proof fn lemma_patch_brtis_at(h: Head, rest: Seq<u8>, v: u64)
    requires
        h.unk3.len() == 42,
    ensures
        splice(head_bytes(h) + rest, 40, u64_bytes(v, h.bom)) == head_bytes(
            Head { brtis_at: v, ..h },
        ) + rest,
{
    reveal(head_bytes);
    lemma_bytes_len();
    let g = Head { brtis_at: v, ..h };
    lemma_head_len(h);
    lemma_head_len(g);
    assert(splice(head_part_b(h), 8, u64_bytes(v, h.bom)) =~= head_part_b(g));
    assert(head_part_a(g) == head_part_a(h));
    assert(head_part_c(g) == head_part_c(h));
    lemma_splice_middle(head_part_a(h), head_part_b(h), head_part_c(h) + rest, 8, u64_bytes(v, h.bom));
    assert(head_bytes(h) + rest =~= head_part_a(h) + head_part_b(h) + (head_part_c(h) + rest));
    assert(head_bytes(g) + rest =~= head_part_a(h) + head_part_b(g) + (head_part_c(h) + rest));
}

/// Overwriting the field `brtd_at` in the fixed part of a file gives the
/// fixed part with that field replaced, and leaves what follows as it is.
pub proof fn lemma_patch_brtd_at(h: Head, rest: Seq<u8>, v: u64)
    requires
        h.unk3.len() == 42,
    ensures
        splice(head_bytes(h) + rest, 48, u64_bytes(v, h.bom)) == head_bytes(
            Head { brtd_at: v, ..h },
        ) + rest,
{
    reveal(head_bytes);
    lemma_bytes_len();
    let g = Head { brtd_at: v, ..h };
    lemma_head_len(h);
    lemma_head_len(g);
    assert(splice(head_part_b(h), 16, u64_bytes(v, h.bom)) =~= head_part_b(g));
    assert(head_part_a(g) == head_part_a(h));
    assert(head_part_c(g) == head_part_c(h));
    lemma_splice_middle(head_part_a(h), head_part_b(h), head_part_c(h) + rest, 16, u64_bytes(v, h.bom));
    assert(head_bytes(h) + rest =~= head_part_a(h) + head_part_b(h) + (head_part_c(h) + rest));
    assert(head_bytes(g) + rest =~= head_part_a(h) + head_part_b(g) + (head_part_c(h) + rest));
}

/// Overwriting the field `dict_at` in the fixed part of a file gives the
/// fixed part with that field replaced, and leaves what follows as it is.
pub proof fn lemma_patch_dict_at(h: Head, rest: Seq<u8>, v: u64)
    requires
        h.unk3.len() == 42,
    ensures
        splice(head_bytes(h) + rest, 56, u64_bytes(v, h.bom)) == head_bytes(
            Head { dict_at: v, ..h },
        ) + rest,
{
    reveal(head_bytes);
    lemma_bytes_len();
    let g = Head { dict_at: v, ..h };
    lemma_head_len(h);
    lemma_head_len(g);
    assert(splice(head_part_b(h), 24, u64_bytes(v, h.bom)) =~= head_part_b(g));
    assert(head_part_a(g) == head_part_a(h));
    assert(head_part_c(g) == head_part_c(h));
    lemma_splice_middle(head_part_a(h), head_part_b(h), head_part_c(h) + rest, 24, u64_bytes(v, h.bom));
    assert(head_bytes(h) + rest =~= head_part_a(h) + head_part_b(h) + (head_part_c(h) + rest));
    assert(head_bytes(g) + rest =~= head_part_a(h) + head_part_b(g) + (head_part_c(h) + rest));
}

/// Writes the first 32 bytes of a file with zero in the offset fields.
fn put_head_part_a(w: &mut Writer, b: &Bntx)
    requires
        old(w).order == b.bom,
    ensures
        final(w)@ == old(w)@ + head_part_a(b@.blank_head()),
        final(w).order == old(w).order,
{
    let ghost h = b@.blank_head();
    let order = b.bom;
    put_magic(w, MAGIC_BNTX);
    w.order = ByteOrder::LittleEndian;
    w.put_u32(b.unk);
    w.put_u16(b.version.0);
    w.put_u16(b.version.1);
    w.order = ByteOrder::BigEndian;
    match order {
        ByteOrder::LittleEndian => {
            w.put_u16(BOM_LITTLE);
        },
        ByteOrder::BigEndian => {
            w.put_u16(BOM_BIG);
        },
    }
    w.order = order;
    w.put_u16(b.header.revision);
    w.put_u32(0);
    w.put_u16(b.header.unk);
    w.put_u16(0);
    w.put_u32(0);
    w.put_u32(0);
    assert(w@ =~= old(w)@ + head_part_a(h));
}

/// Writes the bytes 32 to 64 of a file with zero for the three pointers.
fn put_head_part_b(w: &mut Writer, b: &Bntx)
    requires
        old(w).order == b.bom,
        b.nx_header.brtis@.len() <= u32::MAX,
    ensures
        final(w)@ == old(w)@ + head_part_b(b@.blank_head()),
        final(w).order == old(w).order,
{
    let ghost h = b@.blank_head();
    put_magic(w, MAGIC_NX);
    w.put_u32(b.nx_header.brtis.len() as u32);
    w.put_u64(0);
    w.put_u64(0);
    w.put_u64(0);
    assert(w@ =~= old(w)@ + head_part_b(h));
}

/// Writes the bytes 64 to 408 of a file.
fn put_head_part_c(w: &mut Writer, b: &Bntx)
    requires
        old(w).order == b.bom,
    ensures
        final(w)@ == old(w)@ + head_part_c(b@.blank_head()),
        final(w).order == old(w).order,
{
    let ghost h = b@.blank_head();
    w.put_u64(b.nx_header.dict_size);
    put_u64s(w, b.nx_header.unk.as_slice());
    assert(w@ =~= old(w)@ + head_part_c(h));
}

/// Writes the fixed part of a file with zero in its offset fields and its
/// pointers.
fn put_head(w: &mut Writer, b: &Bntx)
    requires
        old(w).order == b.bom,
        b.nx_header.brtis@.len() <= u32::MAX,
    ensures
        final(w)@ == old(w)@ + head_bytes(b@.blank_head()),
        final(w).order == old(w).order,
        final(w)@.len() == old(w)@.len() + FIXED_SIZE,
{
    reveal(head_bytes);
    let ghost h = b@.blank_head();
    proof {
        lemma_head_len(h);
    }
    put_head_part_a(w, b);
    put_head_part_b(w, b);
    put_head_part_c(w, b);
    assert(w@ =~= old(w)@ + head_bytes(h));
}

/// Writes a string section with zero in its two offset fields, where each
/// of its strings has a length that fits in 16 bits.
#[verifier::loop_isolation(false)]
fn put_str_section(w: &mut Writer, s: &StrSection) -> (done: bool)
    ensures
        final(w).order == old(w).order,
        done == (encode_utf8(s@.empty).len() <= u16::MAX && forall|i: int|
            0 <= i < s@.strings.len() ==> encode_utf8(#[trigger] s@.strings[i]).len() <= u16::MAX),
        done ==> final(w)@ == old(w)@ + str_section_bytes(
            crate::layout::str_section_with(s@, 0),
            old(w)@.len() as int,
            old(w).order,
        ),
        done ==> final(w)@.len() == str_section_end(s@, old(w)@.len() as int),
{
    reveal(str_section_bytes);
    let ghost order = w.order;
    let ghost start = w@;
    let ghost pos = w@.len() as int;
    let ghost blank = crate::layout::str_section_with(s@, 0);
    put_magic(w, MAGIC_STR);
    w.put_u32(0);
    w.put_u64(0);
    w.put_u32(s.str_count);
    proof {
        lemma_bytes_len();
    }
    if !put_str(w, &s.empty) {
        return false;
    }
    let ghost base = w@;
    let ghost first = w@.len() as int;
    let ghost strings = s@.strings;
    let mut i: usize = 0;
    assert(strings.take(0) =~= Seq::<Seq<char>>::empty());
    assert(w@ =~= base + strs_bytes(strings.take(0), first, order));
    while i < s.strings.len()
        invariant
            i <= s.strings@.len(),
            w.order == order,
            strings == strings_view(s.strings@),
            w@ == base + strs_bytes(strings.take(i as int), first, order),
            w@.len() == strs_end(strings.take(i as int), first),
            forall|j: int| 0 <= j < i ==> encode_utf8(#[trigger] strings[j]).len() <= u16::MAX,
        decreases s.strings@.len() - i,
    {
        let ghost before = w@;
        if !put_str(w, &s.strings[i]) {
            assert(strings[i as int] == s.strings@[i as int]@);
            assert(s@.strings[i as int] == strings[i as int]);
            return false;
        }
        proof {
            assert(strings[i as int] == s.strings@[i as int]@);
            assert(strings.take(i + 1).drop_last() =~= strings.take(i as int));
            assert(strings.take(i + 1).last() == strings[i as int]);
            assert(w@ =~= base + strs_bytes(strings.take(i + 1), first, order));
        }
        i = i + 1;
    }
    proof {
        assert(strings.take(i as int) =~= strings);
        assert(w@ =~= start + str_section_bytes(blank, pos, order));
    }
    true
}

/// The four parts of a texture descriptor are 24, 32, 56 and 48 bytes long.
pub proof fn lemma_brti_block_len(b: BrtiView, p: BrtiPointers, order: ByteOrder)
    requires
        b.unk4.len() == 6,
        b.unk.len() == 4,
    ensures
        crate::layout::brti_part_a(b, order).len() == 24,
        crate::layout::brti_part_b(b, order).len() == 32,
        crate::layout::brti_part_c(b, order).len() == 56,
        crate::layout::brti_part_d(b, p, order).len() == 48,
        brti_block(b, p, order).len() == BRTI_SIZE,
{
    reveal(brti_block);
    let f = |x: u32| u32_bytes(x, order);
    lemma_bytes_len();
    assert forall|x: u32| #[trigger] f(x).len() == 4 by {}
    lemma_records_len(b.unk4, f, 4);
    lemma_records_len(b.unk, f, 4);
}

/// Overwriting the pointer `mipmaps` of a texture descriptor gives the
/// descriptor with that pointer replaced, and leaves what lies before and
/// behind it as it is.
pub proof fn lemma_patch_brti_mipmaps(
    b: BrtiView,
    p: BrtiPointers,
    order: ByteOrder,
    x: Seq<u8>,
    c: Seq<u8>,
    v: u64,
)
    requires
        b.unk4.len() == 6,
        b.unk.len() == 4,
    ensures
        splice(x + brti_block(b, p, order) + c, (x.len() + 112) as int, u64_bytes(v, order)) == x
            + brti_block(b, BrtiPointers { mipmaps: v, ..p }, order) + c,
{
    reveal(brti_block);
    let q = BrtiPointers { mipmaps: v, ..p };
    let abc = crate::layout::brti_part_a(b, order) + crate::layout::brti_part_b(b, order)
        + crate::layout::brti_part_c(b, order);
    let d = crate::layout::brti_part_d(b, p, order);
    let e = crate::layout::brti_part_d(b, q, order);
    lemma_bytes_len();
    lemma_brti_block_len(b, p, order);
    lemma_brti_block_len(b, q, order);
    assert(splice(d, 0, u64_bytes(v, order)) =~= e);
    lemma_splice_middle(x + abc, d, c, 0, u64_bytes(v, order));
    assert(x + brti_block(b, p, order) + c =~= (x + abc) + d + c);
    assert(x + brti_block(b, q, order) + c =~= (x + abc) + e + c);
}

/// Overwriting the pointer `unk6` of a texture descriptor gives the
/// descriptor with that pointer replaced, and leaves what lies before and
/// behind it as it is.
pub proof fn lemma_patch_brti_unk6(
    b: BrtiView,
    p: BrtiPointers,
    order: ByteOrder,
    x: Seq<u8>,
    c: Seq<u8>,
    v: u64,
)
    requires
        b.unk4.len() == 6,
        b.unk.len() == 4,
    ensures
        splice(x + brti_block(b, p, order) + c, (x.len() + 128) as int, u64_bytes(v, order)) == x
            + brti_block(b, BrtiPointers { unk6: v, ..p }, order) + c,
{
    reveal(brti_block);
    let q = BrtiPointers { unk6: v, ..p };
    let abc = crate::layout::brti_part_a(b, order) + crate::layout::brti_part_b(b, order)
        + crate::layout::brti_part_c(b, order);
    let d = crate::layout::brti_part_d(b, p, order);
    let e = crate::layout::brti_part_d(b, q, order);
    lemma_bytes_len();
    lemma_brti_block_len(b, p, order);
    lemma_brti_block_len(b, q, order);
    assert(splice(d, 16, u64_bytes(v, order)) =~= e);
    lemma_splice_middle(x + abc, d, c, 16, u64_bytes(v, order));
    assert(x + brti_block(b, p, order) + c =~= (x + abc) + d + c);
    assert(x + brti_block(b, q, order) + c =~= (x + abc) + e + c);
}

/// Overwriting the pointer `unk7` of a texture descriptor gives the
/// descriptor with that pointer replaced, and leaves what lies before and
/// behind it as it is.
pub proof fn lemma_patch_brti_unk7(
    b: BrtiView,
    p: BrtiPointers,
    order: ByteOrder,
    x: Seq<u8>,
    c: Seq<u8>,
    v: u64,
)
    requires
        b.unk4.len() == 6,
        b.unk.len() == 4,
    ensures
        splice(x + brti_block(b, p, order) + c, (x.len() + 136) as int, u64_bytes(v, order)) == x
            + brti_block(b, BrtiPointers { unk7: v, ..p }, order) + c,
{
    reveal(brti_block);
    let q = BrtiPointers { unk7: v, ..p };
    let abc = crate::layout::brti_part_a(b, order) + crate::layout::brti_part_b(b, order)
        + crate::layout::brti_part_c(b, order);
    let d = crate::layout::brti_part_d(b, p, order);
    let e = crate::layout::brti_part_d(b, q, order);
    lemma_bytes_len();
    lemma_brti_block_len(b, p, order);
    lemma_brti_block_len(b, q, order);
    assert(splice(d, 24, u64_bytes(v, order)) =~= e);
    lemma_splice_middle(x + abc, d, c, 24, u64_bytes(v, order));
    assert(x + brti_block(b, p, order) + c =~= (x + abc) + d + c);
    assert(x + brti_block(b, q, order) + c =~= (x + abc) + e + c);
}

/// Overwriting the field `size` of a texture descriptor gives the
/// descriptor with that field replaced, and leaves what lies before and
/// behind it as it is.
pub proof fn lemma_patch_brti_size(
    b: BrtiView,
    p: BrtiPointers,
    order: ByteOrder,
    x: Seq<u8>,
    c: Seq<u8>,
    v: u32,
)
    requires
        b.unk4.len() == 6,
        b.unk.len() == 4,
    ensures
        splice(x + brti_block(b, p, order) + c, (x.len() + 4) as int, u32_bytes(v, order)) == x
            + brti_block(BrtiView { size: v, ..b }, p, order) + c,
{
    reveal(brti_block);
    let g = BrtiView { size: v, ..b };
    lemma_bytes_len();
    lemma_brti_block_len(b, p, order);
    lemma_brti_block_len(g, p, order);
    let a = crate::layout::brti_part_a(b, order);
    let a2 = crate::layout::brti_part_a(g, order);
    let rest = crate::layout::brti_part_b(b, order) + crate::layout::brti_part_c(b, order)
        + crate::layout::brti_part_d(b, p, order);
    assert(splice(a, 4, u32_bytes(v, order)) =~= a2);
    lemma_splice_middle(x, a, rest + c, 4, u32_bytes(v, order));
    assert(x + brti_block(b, p, order) + c =~= x + a + (rest + c));
    assert(x + brti_block(g, p, order) + c =~= x + a2 + (rest + c));
}

/// Overwriting the field `size2` of a texture descriptor gives the
/// descriptor with that field replaced, and leaves what lies before and
/// behind it as it is.
pub proof fn lemma_patch_brti_size2(
    b: BrtiView,
    p: BrtiPointers,
    order: ByteOrder,
    x: Seq<u8>,
    c: Seq<u8>,
    v: u64,
)
    requires
        b.unk4.len() == 6,
        b.unk.len() == 4,
    ensures
        splice(x + brti_block(b, p, order) + c, (x.len() + 8) as int, u64_bytes(v, order)) == x
            + brti_block(BrtiView { size2: v, ..b }, p, order) + c,
{
    reveal(brti_block);
    let g = BrtiView { size2: v, ..b };
    lemma_bytes_len();
    lemma_brti_block_len(b, p, order);
    lemma_brti_block_len(g, p, order);
    let a = crate::layout::brti_part_a(b, order);
    let a2 = crate::layout::brti_part_a(g, order);
    let rest = crate::layout::brti_part_b(b, order) + crate::layout::brti_part_c(b, order)
        + crate::layout::brti_part_d(b, p, order);
    assert(splice(a, 8, u64_bytes(v, order)) =~= a2);
    lemma_splice_middle(x, a, rest + c, 8, u64_bytes(v, order));
    assert(x + brti_block(b, p, order) + c =~= x + a + (rest + c));
    assert(x + brti_block(g, p, order) + c =~= x + a2 + (rest + c));
}

/// Overwriting the field `name_addr` of a texture descriptor gives the
/// descriptor with that field replaced, and leaves what lies before and
/// behind it as it is.
pub proof fn lemma_patch_brti_name_addr(
    b: BrtiView,
    p: BrtiPointers,
    order: ByteOrder,
    x: Seq<u8>,
    c: Seq<u8>,
    v: u64,
)
    requires
        b.unk4.len() == 6,
        b.unk.len() == 4,
    ensures
        splice(x + brti_block(b, p, order) + c, (x.len() + 96) as int, u64_bytes(v, order)) == x
            + brti_block(BrtiView { name_addr: v, ..b }, p, order) + c,
{
    reveal(brti_block);
    let g = BrtiView { name_addr: v, ..b };
    lemma_bytes_len();
    lemma_brti_block_len(b, p, order);
    lemma_brti_block_len(g, p, order);
    let ab = crate::layout::brti_part_a(b, order) + crate::layout::brti_part_b(b, order);
    let part = crate::layout::brti_part_c(b, order);
    let part2 = crate::layout::brti_part_c(g, order);
    let d = crate::layout::brti_part_d(b, p, order);
    assert(splice(part, 40, u64_bytes(v, order)) =~= part2);
    lemma_splice_middle(x + ab, part, d + c, 40, u64_bytes(v, order));
    assert(x + brti_block(b, p, order) + c =~= (x + ab) + part + (d + c));
    assert(x + brti_block(g, p, order) + c =~= (x + ab) + part2 + (d + c));
}

/// Overwriting the field `parent_addr` of a texture descriptor gives the
/// descriptor with that field replaced, and leaves what lies before and
/// behind it as it is.
pub proof fn lemma_patch_brti_parent_addr(
    b: BrtiView,
    p: BrtiPointers,
    order: ByteOrder,
    x: Seq<u8>,
    c: Seq<u8>,
    v: u64,
)
    requires
        b.unk4.len() == 6,
        b.unk.len() == 4,
    ensures
        splice(x + brti_block(b, p, order) + c, (x.len() + 104) as int, u64_bytes(v, order)) == x
            + brti_block(BrtiView { parent_addr: v, ..b }, p, order) + c,
{
    reveal(brti_block);
    let g = BrtiView { parent_addr: v, ..b };
    lemma_bytes_len();
    lemma_brti_block_len(b, p, order);
    lemma_brti_block_len(g, p, order);
    let ab = crate::layout::brti_part_a(b, order) + crate::layout::brti_part_b(b, order);
    let part = crate::layout::brti_part_c(b, order);
    let part2 = crate::layout::brti_part_c(g, order);
    let d = crate::layout::brti_part_d(b, p, order);
    assert(splice(part, 48, u64_bytes(v, order)) =~= part2);
    lemma_splice_middle(x + ab, part, d + c, 48, u64_bytes(v, order));
    assert(x + brti_block(b, p, order) + c =~= (x + ab) + part + (d + c));
    assert(x + brti_block(g, p, order) + c =~= (x + ab) + part2 + (d + c));
}

/// The size in bytes of a relocation table.
pub proof fn lemma_reloc_bytes_len(t: RelocationTableView, order: ByteOrder)
    ensures
        reloc_bytes(t, order).len() == 16 + 24 * t.sections.len() + 8 * t.entries.len(),
        records_bytes(t.sections, |s: RelocationSection| section_bytes(s, order)).len() == 24
            * t.sections.len(),
        records_bytes(t.entries, |e: RelocationEntry| entry_bytes(e, order)).len() == 8
            * t.entries.len(),
{
    reveal(reloc_bytes);
    let fs = |s: RelocationSection| section_bytes(s, order);
    let fe = |e: RelocationEntry| entry_bytes(e, order);
    lemma_bytes_len();
    assert forall|s: RelocationSection| #[trigger] fs(s).len() == 24 by {}
    assert forall|e: RelocationEntry| #[trigger] fe(e).len() == 8 by {}
    lemma_records_len(t.sections, fs, 24);
    lemma_records_len(t.entries, fe, 8);
}

/// Overwriting the position of a relocation table gives the table with that
/// position.
pub proof fn lemma_patch_reloc_position(
    x: Seq<u8>,
    t: RelocationTableView,
    order: ByteOrder,
    v: u32,
)
    ensures
        splice(x + reloc_bytes(t, order), (x.len() + 4) as int, u32_bytes(v, order)) == x
            + reloc_bytes(RelocationTableView { position: v, ..t }, order),
{
    reveal(reloc_bytes);
    let g = RelocationTableView { position: v, ..t };
    lemma_bytes_len();
    lemma_reloc_bytes_len(t, order);
    assert(splice(reloc_bytes(t, order), 4, u32_bytes(v, order)) =~= reloc_bytes(g, order));
    lemma_splice_middle(x, reloc_bytes(t, order), Seq::<u8>::empty(), 4, u32_bytes(v, order));
    lemma_regroup(x, reloc_bytes(t, order), Seq::<u8>::empty(), Seq::<u8>::empty());
    lemma_regroup(x, reloc_bytes(g, order), Seq::<u8>::empty(), Seq::<u8>::empty());
    assert(x + reloc_bytes(t, order) + Seq::<u8>::empty() =~= x + reloc_bytes(t, order));
    assert(x + reloc_bytes(g, order) + Seq::<u8>::empty() =~= x + reloc_bytes(g, order));
}

/// Overwriting a field of a record in a list of records that stands in a
/// sequence gives the sequence with the list in which that record is replaced.
pub proof fn lemma_patch_record<T>(
    before: Seq<u8>,
    items: Seq<T>,
    f: spec_fn(T) -> Seq<u8>,
    size: int,
    after: Seq<u8>,
    i: int,
    at: int,
    patch: Seq<u8>,
    x: T,
)
    requires
        forall|y: T| #[trigger] f(y).len() == size,
        0 <= i < items.len(),
        0 <= at,
        at + patch.len() <= size,
        splice(f(items[i]), at, patch) == f(x),
    ensures
        splice(
            before + records_bytes(items, f) + after,
            before.len() + size * i + at,
            patch,
        ) == before + records_bytes(items.update(i, x), f) + after,
{
    let r = records_bytes(items, f);
    lemma_records_len(items, f, size);
    crate::layout::lemma_records_item(items, f, size, i);
    crate::layout::lemma_records_update(items, f, size, i, x);
    crate::layout::lemma_splice_inner(r, size * i, size, at, patch);
    assert(size * i + size <= size * items.len()) by (nonlinear_arith)
        requires
            0 <= size,
            i < items.len(),
    ;
    assert(0 <= size * i) by (nonlinear_arith)
        requires
            0 <= size,
            0 <= i,
    ;
    lemma_splice_middle(before, r, after, size * i + at, patch);
}

/// Overwriting the size of section `i` of a relocation table gives the
/// table with that size in that section.
pub proof fn lemma_patch_section_size(
    x: Seq<u8>,
    t: RelocationTableView,
    order: ByteOrder,
    i: int,
    v: u32,
)
    requires
        0 <= i < t.sections.len(),
    ensures
        splice(
            x + reloc_bytes(t, order),
            x.len() + 16 + 24 * i + 12,
            u32_bytes(v, order),
        ) == x + reloc_bytes(
            RelocationTableView {
                sections: t.sections.update(i, RelocationSection { size: v, ..t.sections[i] }),
                ..t
            },
            order,
        ),
{
    reveal(reloc_bytes);
    let s = RelocationSection { size: v, ..t.sections[i] };
    let g = RelocationTableView { sections: t.sections.update(i, s), ..t };
    let fs = |s: RelocationSection| section_bytes(s, order);
    let fe = |e: RelocationEntry| entry_bytes(e, order);
    let front = x + (magic_bytes(MAGIC_RLT) + u32_bytes(t.position, order) + u32_bytes(
        t.count,
        order,
    ) + u32_bytes(t.unk1, order));
    let back = records_bytes(t.entries, fe);
    lemma_bytes_len();
    assert forall|y: RelocationSection| #[trigger] fs(y).len() == 24 by {}
    assert(splice(fs(t.sections[i]), 12, u32_bytes(v, order)) =~= fs(s));
    lemma_patch_record(front, t.sections, fs, 24, back, i, 12, u32_bytes(v, order), s);
    assert(x + reloc_bytes(t, order) =~= front + records_bytes(t.sections, fs) + back);
    assert(x + reloc_bytes(g, order) =~= front + records_bytes(g.sections, fs) + back);
}

/// Overwriting the position of section `i` of a relocation table gives the
/// table with that position in that section.
pub proof fn lemma_patch_section_position(
    x: Seq<u8>,
    t: RelocationTableView,
    order: ByteOrder,
    i: int,
    v: u32,
)
    requires
        0 <= i < t.sections.len(),
    ensures
        splice(
            x + reloc_bytes(t, order),
            x.len() + 16 + 24 * i + 8,
            u32_bytes(v, order),
        ) == x + reloc_bytes(
            RelocationTableView {
                sections: t.sections.update(
                    i,
                    RelocationSection { position: v, ..t.sections[i] },
                ),
                ..t
            },
            order,
        ),
{
    reveal(reloc_bytes);
    let s = RelocationSection { position: v, ..t.sections[i] };
    let g = RelocationTableView { sections: t.sections.update(i, s), ..t };
    let fs = |s: RelocationSection| section_bytes(s, order);
    let fe = |e: RelocationEntry| entry_bytes(e, order);
    let front = x + (magic_bytes(MAGIC_RLT) + u32_bytes(t.position, order) + u32_bytes(
        t.count,
        order,
    ) + u32_bytes(t.unk1, order));
    let back = records_bytes(t.entries, fe);
    lemma_bytes_len();
    assert forall|y: RelocationSection| #[trigger] fs(y).len() == 24 by {}
    assert(splice(fs(t.sections[i]), 8, u32_bytes(v, order)) =~= fs(s));
    lemma_patch_record(front, t.sections, fs, 24, back, i, 8, u32_bytes(v, order), s);
    assert(x + reloc_bytes(t, order) =~= front + records_bytes(t.sections, fs) + back);
    assert(x + reloc_bytes(g, order) =~= front + records_bytes(g.sections, fs) + back);
}

/// Overwriting the position of entry `i` of a relocation table gives the
/// table with that position in that entry.
pub proof fn lemma_patch_entry_position(
    x: Seq<u8>,
    t: RelocationTableView,
    order: ByteOrder,
    i: int,
    v: u32,
)
    requires
        0 <= i < t.entries.len(),
    ensures
        splice(
            x + reloc_bytes(t, order),
            x.len() + 16 + 24 * t.sections.len() + 8 * i,
            u32_bytes(v, order),
        ) == x + reloc_bytes(
            RelocationTableView {
                entries: t.entries.update(i, RelocationEntry { position: v, ..t.entries[i] }),
                ..t
            },
            order,
        ),
{
    reveal(reloc_bytes);
    let e = RelocationEntry { position: v, ..t.entries[i] };
    let g = RelocationTableView { entries: t.entries.update(i, e), ..t };
    let fs = |s: RelocationSection| section_bytes(s, order);
    let fe = |e: RelocationEntry| entry_bytes(e, order);
    let front = x + (magic_bytes(MAGIC_RLT) + u32_bytes(t.position, order) + u32_bytes(
        t.count,
        order,
    ) + u32_bytes(t.unk1, order) + records_bytes(t.sections, fs));
    let none = Seq::<u8>::empty();
    lemma_bytes_len();
    lemma_reloc_bytes_len(t, order);
    assert forall|y: RelocationEntry| #[trigger] fe(y).len() == 8 by {}
    assert(splice(fe(t.entries[i]), 0, u32_bytes(v, order)) =~= fe(e));
    lemma_patch_record(front, t.entries, fe, 8, none, i, 0, u32_bytes(v, order), e);
    assert(x + reloc_bytes(t, order) =~= front + records_bytes(t.entries, fe) + none);
    assert(x + reloc_bytes(g, order) =~= front + records_bytes(g.entries, fe) + none);
}

/// Overwriting a pointer in the list of the pointers to the texture
/// descriptors gives the list with that pointer replaced.
pub proof fn lemma_patch_table(
    a: Seq<u8>,
    table: Seq<u64>,
    c: Seq<u8>,
    order: ByteOrder,
    i: int,
    v: u64,
)
    requires
        0 <= i < table.len(),
    ensures
        splice(a + u64s_bytes(table, order) + c, a.len() + 8 * i, u64_bytes(v, order)) == a
            + u64s_bytes(table.update(i, v), order) + c,
        u64s_bytes(table, order).len() == 8 * table.len(),
{
    let f = |x: u64| u64_bytes(x, order);
    lemma_bytes_len();
    assert forall|x: u64| #[trigger] f(x).len() == 8 by {}
    lemma_records_len(table, f, 8);
    crate::layout::lemma_records_update(table, f, 8, i, v);
    lemma_splice_middle(a, u64s_bytes(table, order), c, 8 * i, u64_bytes(v, order));
}

/// Overwriting the two offset fields of a string section gives the section
/// with those fields set.
pub proof fn lemma_patch_str_section(
    a: Seq<u8>,
    s: StrSectionView,
    pos: int,
    order: ByteOrder,
    c: Seq<u8>,
    v: u64,
    u: u32,
)
    ensures
        splice(
            splice(
                a + str_section_bytes(s, pos, order) + c,
                (a.len() + 8) as int,
                u64_bytes(v, order),
            ),
            (a.len() + 4) as int,
            u32_bytes(u, order),
        ) == a + str_section_bytes(StrSectionView { block_size: u, block_offset: v, ..s }, pos, order)
            + c,
{
    reveal(str_section_bytes);
    let t = StrSectionView { block_offset: v, ..s };
    let r = StrSectionView { block_size: u, block_offset: v, ..s };
    lemma_bytes_len();
    assert(splice(str_section_bytes(s, pos, order), 8, u64_bytes(v, order)) =~= str_section_bytes(
        t,
        pos,
        order,
    ));
    assert(splice(str_section_bytes(t, pos, order), 4, u32_bytes(u, order)) =~= str_section_bytes(
        r,
        pos,
        order,
    ));
    lemma_splice_middle(a, str_section_bytes(s, pos, order), c, 8, u64_bytes(v, order));
    lemma_splice_middle(a, str_section_bytes(t, pos, order), c, 4, u32_bytes(u, order));
}

/// Writes the first 24 bytes of a texture descriptor.
fn put_brti_part_a(w: &mut Writer, b: &Brti)
    ensures
        final(w)@ == old(w)@ + crate::layout::brti_part_a(b@, old(w).order),
        final(w).order == old(w).order,
{
    put_magic(w, MAGIC_BRTI);
    w.put_u32(b.size);
    w.put_u64(b.size2);
    w.put_u8(b.flags);
    w.put_u8(b.texture_dimension.code());
    w.put_u16(b.tile_mode);
    w.put_u16(b.swizzle);
    w.put_u16(b.mipmap_count);
    assert(w@ =~= old(w)@ + crate::layout::brti_part_a(b@, old(w).order));
}

/// Writes the bytes 24 to 56 of a texture descriptor.
fn put_brti_part_b(w: &mut Writer, b: &Brti)
    ensures
        final(w)@ == old(w)@ + crate::layout::brti_part_b(b@, old(w).order),
        final(w).order == old(w).order,
{
    w.put_u32(b.multi_sample_count);
    w.put_u32(b.image_format.code());
    w.put_u32(b.unk2);
    w.put_u32(b.width);
    w.put_u32(b.height);
    w.put_u32(b.depth);
    w.put_u32(b.layer_count);
    w.put_u32(b.block_height_log2);
    assert(w@ =~= old(w)@ + crate::layout::brti_part_b(b@, old(w).order));
}

/// Writes the bytes 56 to 112 of a texture descriptor.
fn put_brti_part_c(w: &mut Writer, b: &Brti)
    ensures
        final(w)@ == old(w)@ + crate::layout::brti_part_c(b@, old(w).order),
        final(w).order == old(w).order,
{
    put_u32s(w, b.unk4.as_slice());
    w.put_u32(b.image_size);
    w.put_u32(b.align);
    w.put_u32(b.comp_sel);
    w.put_u32(b.texture_view_dimension.code());
    w.put_u64(b.name_addr);
    w.put_u64(b.parent_addr);
    assert(w@ =~= old(w)@ + crate::layout::brti_part_c(b@, old(w).order));
}

/// Writes the bytes 112 to 160 of a texture descriptor with zero for each
/// of its three pointers.
fn put_brti_part_d(w: &mut Writer, b: &Brti)
    ensures
        final(w)@ == old(w)@ + crate::layout::brti_part_d(
            b@,
            BrtiPointers { mipmaps: 0, unk6: 0, unk7: 0 },
            old(w).order,
        ),
        final(w).order == old(w).order,
{
    let ghost blank = BrtiPointers { mipmaps: 0, unk6: 0, unk7: 0 };
    w.put_u64(0);
    w.put_u64(b.unk5);
    w.put_u64(0);
    w.put_u64(0);
    put_u32s(w, b.unk.as_slice());
    assert(w@ =~= old(w)@ + crate::layout::brti_part_d(b@, blank, old(w).order));
}

/// The places of the fields of a texture descriptor that are overwritten
/// once it is written.
pub struct BrtiFields {
    pub size: usize,
    pub size2: usize,
    pub name_addr: usize,
    pub parent_addr: usize,
    pub mipmaps: usize,
    pub unk6: usize,
    pub unk7: usize,
}

/// Writes the 160 bytes of a texture descriptor as it is, with zero for each
/// of its three pointers, and returns where the fields lie that are
/// overwritten later.
fn put_brti_block(w: &mut Writer, b: &Brti) -> (fields: BrtiFields)
    ensures
        final(w)@ == old(w)@ + brti_block(
            b@,
            BrtiPointers { mipmaps: 0, unk6: 0, unk7: 0 },
            old(w).order,
        ),
        final(w).order == old(w).order,
        fields.size == old(w)@.len() + 4,
        fields.size2 == old(w)@.len() + 8,
        fields.name_addr == old(w)@.len() + 96,
        fields.parent_addr == old(w)@.len() + 104,
        fields.mipmaps == old(w)@.len() + 112,
        fields.unk6 == old(w)@.len() + 128,
        fields.unk7 == old(w)@.len() + 136,
{
    reveal(brti_block);
    let ghost blank = BrtiPointers { mipmaps: 0, unk6: 0, unk7: 0 };
    proof {
        lemma_brti_block_len(b@, blank, w.order);
    }
    let start: usize = w.position();
    put_brti_part_a(w, b);
    put_brti_part_b(w, b);
    put_brti_part_c(w, b);
    put_brti_part_d(w, b);
    assert(w@ =~= old(w)@ + brti_block(b@, blank, old(w).order));
    let end: usize = w.position();
    BrtiFields {
        size: start + 4,
        size2: start + 8,
        name_addr: start + 96,
        parent_addr: start + 104,
        mipmaps: start + 112,
        unk6: start + 128,
        unk7: start + 136,
    }
}

/// Writes a texture descriptor, overwrites its offset fields with the given
/// values, and writes behind it its two opaque blocks and its mip offsets.
/// The pointer to each of the three is overwritten once the position of what
/// it points to is known.
fn put_brti(w: &mut Writer, b: &Brti, size: u64, name_addr: u64)
    requires
        size <= u32::MAX,
    ensures
        final(w)@ == old(w)@ + brti_record(
            crate::layout::brti_with(b@, size, name_addr),
            old(w)@.len() as int,
            old(w).order,
        ),
        final(w).order == old(w).order,
        final(w)@.len() == old(w)@.len() + crate::layout::brti_record_len(b@),
{
    reveal(brti_record);
    let ghost order = w.order;
    let ghost x = w@;
    let ghost blank = BrtiPointers { mipmaps: 0, unk6: 0, unk7: 0 };
    let ghost none = Seq::<u8>::empty();
    proof {
        lemma_bytes_len();
        lemma_brti_block_len(b@, blank, order);
    }
    let fields = put_brti_block(w, b);
    assert(w@ =~= x + brti_block(b@, blank, order) + none);

    w.patch_u32(fields.size, size as u32);
    let ghost b1 = BrtiView { size: size as u32, ..b@ };
    proof {
        lemma_patch_brti_size(b@, blank, order, x, none, size as u32);
        lemma_brti_block_len(b1, blank, order);
    }
    w.patch_u64(fields.size2, size);
    let ghost b2 = BrtiView { size2: size, ..b1 };
    proof {
        lemma_patch_brti_size2(b1, blank, order, x, none, size);
        lemma_brti_block_len(b2, blank, order);
    }
    w.patch_u64(fields.name_addr, name_addr);
    let ghost b3 = BrtiView { name_addr, ..b2 };
    proof {
        lemma_patch_brti_name_addr(b2, blank, order, x, none, name_addr);
        lemma_brti_block_len(b3, blank, order);
    }
    w.patch_u64(fields.parent_addr, 32);
    let ghost rb = BrtiView { parent_addr: 32, ..b3 };
    proof {
        lemma_patch_brti_parent_addr(b3, blank, order, x, none, 32);
        lemma_brti_block_len(rb, blank, order);
        assert(rb == crate::layout::brti_with(b@, size, name_addr));
    }

    let unk6_at: u64 = w.position() as u64;
    w.patch_u64(fields.unk6, unk6_at);
    let ghost first = BrtiPointers { unk6: unk6_at, ..blank };
    proof {
        lemma_patch_brti_unk6(rb, blank, order, x, none, unk6_at);
        lemma_brti_block_len(rb, first, order);
    }
    w.put_bytes(b.unk6.as_slice());
    assert(w@ =~= x + brti_block(rb, first, order) + b.unk6@);

    let unk7_at: u64 = w.position() as u64;
    w.patch_u64(fields.unk7, unk7_at);
    let ghost second = BrtiPointers { unk7: unk7_at, ..first };
    proof {
        lemma_patch_brti_unk7(rb, first, order, x, b.unk6@, unk7_at);
        lemma_brti_block_len(rb, second, order);
    }
    w.put_bytes(b.unk7.as_slice());
    assert(w@ =~= x + brti_block(rb, second, order) + (b.unk6@ + b.unk7@));

    let mipmaps_at: u64 = w.position() as u64;
    w.patch_u64(fields.mipmaps, mipmaps_at);
    let ghost third = BrtiPointers { mipmaps: mipmaps_at, ..second };
    proof {
        lemma_patch_brti_mipmaps(rb, second, order, x, b.unk6@ + b.unk7@, mipmaps_at);
        lemma_brti_block_len(rb, third, order);
    }
    put_u64s(w, b.mipmaps.mipmap_offsets.as_slice());
    proof {
        assert(third == brti_pointers(x.len() as int));
        let f = |v: u64| u64_bytes(v, order);
        assert forall|v: u64| #[trigger] f(v).len() == 8 by {}
        lemma_records_len(b.mipmaps.mipmap_offsets@, f, 8);
        assert(w@ =~= x + brti_record(rb, x.len() as int, order));
    }
}

/// The places of the fields of a relocation table that are overwritten once
/// it is written: its position, and where its sections and its entries
/// begin.
pub struct RelocFields {
    pub position: usize,
    pub sections: usize,
    pub entries: usize,
}

/// Writes a relocation table as it is, and returns where the fields lie
/// that are overwritten later.
fn put_reloc_table(w: &mut Writer, t: &RelocationTable) -> (fields: RelocFields)
    ensures
        final(w)@ == old(w)@ + reloc_bytes(t@, old(w).order),
        final(w).order == old(w).order,
        final(w)@.len() == old(w)@.len() + 16 + 24 * t.sections@.len() + 8 * t.entries@.len(),
        fields.position == old(w)@.len() + 4,
        fields.sections == old(w)@.len() + 16,
        fields.entries == old(w)@.len() + 16 + 24 * t.sections@.len(),
{
    reveal(reloc_bytes);
    let ghost order = w.order;
    let ghost fs = |s: RelocationSection| section_bytes(s, order);
    let ghost fe = |e: RelocationEntry| entry_bytes(e, order);
    let start: usize = w.position();
    put_magic(w, MAGIC_RLT);
    w.put_u32(t.position);
    w.put_u32(t.count);
    w.put_u32(t.unk1);
    let sections_at: usize = w.position();
    let ghost base = w@;
    let mut i: usize = 0;
    assert(w@ =~= base + records_bytes(t.sections@.take(0), fs));
    while i < t.sections.len()
        invariant
            i <= t.sections@.len(),
            w.order == order,
            fs == |s: RelocationSection| section_bytes(s, order),
            w@ == base + records_bytes(t.sections@.take(i as int), fs),
        decreases t.sections@.len() - i,
    {
        put_section(w, t.sections[i]);
        proof {
            lemma_records_push(t.sections@.take(i as int), fs, t.sections@[i as int]);
            assert(t.sections@.take(i as int).push(t.sections@[i as int]) =~= t.sections@.take(
                i + 1,
            ));
            assert(w@ =~= base + records_bytes(t.sections@.take(i + 1), fs));
        }
        i = i + 1;
    }
    assert(t.sections@.take(i as int) =~= t.sections@);
    let entries_at: usize = w.position();
    let ghost mid = w@;
    let mut j: usize = 0;
    assert(w@ =~= mid + records_bytes(t.entries@.take(0), fe));
    while j < t.entries.len()
        invariant
            j <= t.entries@.len(),
            w.order == order,
            fe == |e: RelocationEntry| entry_bytes(e, order),
            w@ == mid + records_bytes(t.entries@.take(j as int), fe),
        decreases t.entries@.len() - j,
    {
        put_entry(w, t.entries[j]);
        proof {
            lemma_records_push(t.entries@.take(j as int), fe, t.entries@[j as int]);
            assert(t.entries@.take(j as int).push(t.entries@[j as int]) =~= t.entries@.take(
                j + 1,
            ));
            assert(w@ =~= mid + records_bytes(t.entries@.take(j + 1), fe));
        }
        j = j + 1;
    }
    proof {
        assert(t.entries@.take(j as int) =~= t.entries@);
        lemma_bytes_len();
        assert forall|s: RelocationSection| #[trigger] fs(s).len() == 24 by {}
        assert forall|e: RelocationEntry| #[trigger] fe(e).len() == 8 by {}
        lemma_records_len(t.sections@, fs, 24);
        lemma_records_len(t.entries@, fe, 8);
        assert(w@ =~= old(w)@ + reloc_bytes(t@, order));
    }
    RelocFields { position: start + 4, sections: sections_at, entries: entries_at }
}

/// Writes a relocation table and overwrites its offset fields with the
/// given values: its own position, the size of its first section, the
/// position and size of its second, and the positions of its five entries.
fn put_reloc(
    w: &mut Writer,
    t: &RelocationTable,
    position: u32,
    first_size: u32,
    payload_size: u32,
    dict_names: u32,
    brti_name: u32,
)
    requires
        t.sections@.len() >= 2,
        t.entries@.len() >= 5,
    ensures
        final(w)@ == old(w)@ + reloc_bytes(
            crate::layout::reloc_table_with(
                t@,
                position,
                first_size,
                payload_size,
                dict_names,
                brti_name,
            ),
            old(w).order,
        ),
        final(w).order == old(w).order,
        final(w)@.len() == old(w)@.len() + 16 + 24 * t.sections@.len() + 8 * t.entries@.len(),
{
    let ghost order = w.order;
    let ghost x = w@;
    let ghost t0 = t@;
    let fields = put_reloc_table(w, t);
    let end: usize = w.position();
    w.patch_u32(fields.position, position);
    let ghost t1 = RelocationTableView { position, ..t0 };
    proof {
        lemma_patch_reloc_position(x, t0, order, position);
    }
    w.patch_u32(fields.sections + 12, first_size);
    let ghost s0 = RelocationSection { size: first_size, ..t0.sections[0] };
    let ghost t2 = RelocationTableView { sections: t1.sections.update(0, s0), ..t1 };
    proof {
        lemma_patch_section_size(x, t1, order, 0, first_size);
    }
    w.patch_u32(fields.sections + 24 + 8, 0xFF0);
    let ghost s1 = RelocationSection { position: 0xFF0, ..t0.sections[1] };
    let ghost t3 = RelocationTableView { sections: t2.sections.update(1, s1), ..t2 };
    proof {
        lemma_patch_section_position(x, t2, order, 1, 0xFF0);
    }
    w.patch_u32(fields.sections + 24 + 12, payload_size);
    let ghost s2 = RelocationSection { size: payload_size, ..s1 };
    let ghost t4 = RelocationTableView { sections: t3.sections.update(1, s2), ..t3 };
    proof {
        lemma_patch_section_size(x, t3, order, 1, payload_size);
        assert(t4.sections =~= t0.sections.update(0, s0).update(1, s2));
    }
    w.patch_u32(fields.entries, 40);
    let ghost t5 = RelocationTableView {
        entries: t4.entries.update(0, RelocationEntry { position: 40, ..t4.entries[0] }),
        ..t4
    };
    proof {
        lemma_patch_entry_position(x, t4, order, 0, 40);
    }
    w.patch_u32(fields.entries + 8, 56);
    let ghost t6 = RelocationTableView {
        entries: t5.entries.update(1, RelocationEntry { position: 56, ..t5.entries[1] }),
        ..t5
    };
    proof {
        lemma_patch_entry_position(x, t5, order, 1, 56);
    }
    w.patch_u32(fields.entries + 16, dict_names);
    let ghost t7 = RelocationTableView {
        entries: t6.entries.update(2, RelocationEntry { position: dict_names, ..t6.entries[2] }),
        ..t6
    };
    proof {
        lemma_patch_entry_position(x, t6, order, 2, dict_names);
    }
    w.patch_u32(fields.entries + 24, brti_name);
    let ghost t8 = RelocationTableView {
        entries: t7.entries.update(3, RelocationEntry { position: brti_name, ..t7.entries[3] }),
        ..t7
    };
    proof {
        lemma_patch_entry_position(x, t7, order, 3, brti_name);
    }
    w.patch_u32(fields.entries + 32, 48);
    let ghost t9 = RelocationTableView {
        entries: t8.entries.update(4, RelocationEntry { position: 48, ..t8.entries[4] }),
        ..t8
    };
    proof {
        lemma_patch_entry_position(x, t8, order, 4, 48);
        let r = crate::layout::reloc_table_with(
            t0,
            position,
            first_size,
            payload_size,
            dict_names,
            brti_name,
        );
        assert(t9.entries =~= r.entries);
        assert(t9.sections =~= r.sections);
        assert(t9 == r);
    }
}

/// Writes `n` zero pointers.
fn put_blank_table(w: &mut Writer, n: usize)
    ensures
        final(w)@ == old(w)@ + u64s_bytes(Seq::new(n as nat, |i: int| 0u64), old(w).order),
        final(w).order == old(w).order,
        final(w)@.len() == old(w)@.len() + 8 * n,
{
    let ghost order = w.order;
    let ghost f = |x: u64| u64_bytes(x, order);
    let ghost table = Seq::new(n as nat, |i: int| 0u64);
    let mut i: usize = 0;
    assert(w@ =~= old(w)@ + records_bytes(table.take(0), f));
    while i < n
        invariant
            i <= n,
            w.order == order,
            f == |x: u64| u64_bytes(x, order),
            table == Seq::new(n as nat, |i: int| 0u64),
            w@ == old(w)@ + records_bytes(table.take(i as int), f),
        decreases n - i,
    {
        w.put_u64(0);
        proof {
            lemma_records_push(table.take(i as int), f, 0u64);
            assert(table.take(i as int).push(0u64) =~= table.take(i + 1));
            assert(w@ =~= old(w)@ + records_bytes(table.take(i + 1), f));
        }
        i = i + 1;
    }
    proof {
        assert(table.take(i as int) =~= table);
        lemma_bytes_len();
        assert forall|x: u64| #[trigger] f(x).len() == 8 by {}
        lemma_records_len(table, f, 8);
    }
}

/// What follows the string section once the dictionary is written.
pub open spec fn front_tail(x: BntxView) -> Seq<u8> {
    zeros(x.dict_pos() - str_section_end(x.header.str_section, x.str_section_pos())) + dict_bytes(
        x.nx_header.dict,
        x.bom,
    )
}

/// Whether every string of a container has a length that fits in 16 bits.
pub open spec fn strings_fit(x: BntxView) -> bool {
    &&& encode_utf8(x.header.str_section.empty).len() <= u16::MAX
    &&& forall|i: int|
        0 <= i < x.header.str_section.strings.len() ==> encode_utf8(
            #[trigger] x.header.str_section.strings[i],
        ).len() <= u16::MAX
}

/// Joining four parts is the same however they are grouped.
pub proof fn lemma_regroup(a: Seq<u8>, b: Seq<u8>, c: Seq<u8>, d: Seq<u8>)
    ensures
        a + b + c + d == a + (b + c + d),
        a + b + c + d == (a + b) + c + d,
        a + b + c + d == a + (b + c) + d,
        a + b + c + d == a + b + (c + d),
        a + b + c == a + (b + c),
        a + Seq::<u8>::empty() == a,
        Seq::<u8>::empty() + a == a,
{
    assert(a + b + c + d =~= a + (b + c + d));
    assert(a + b + c + d =~= a + (b + c) + d);
    assert(a + b + c + d =~= a + b + (c + d));
    assert(a + b + c =~= a + (b + c));
    assert(a + Seq::<u8>::empty() =~= a);
    assert(Seq::<u8>::empty() + a =~= a);
}

/// Writes the fixed part and blank pointers to the texture descriptors, and
/// overwrites the pointer to those pointers.
fn write_head(b: &Bntx, w: &mut Writer)
    requires
        old(w)@.len() == 0,
        old(w).order == b.bom,
        b@.str_section_pos() <= u16::MAX,
    ensures
        final(w).order == b.bom,
        final(w)@ == head_bytes(Head { brtis_at: FIXED_SIZE, ..b@.blank_head() }) + u64s_bytes(
            Seq::new(b@.nx_header.brtis.len(), |i: int| 0u64),
            b.bom,
        ),
        final(w)@.len() == b@.str_section_pos(),
{
    let ghost x = b@;
    let n: usize = b.nx_header.brtis.len();
    assert(x.nx_header.brtis.len() == n);
    let ghost h0 = x.blank_head();
    let ghost none = Seq::<u8>::empty();
    proof {
        lemma_head_len(h0);
    }
    put_head(w, b);
    proof {
        lemma_regroup(head_bytes(h0), none, none, none);
        assert(old(w)@ =~= none);
        assert(w@ == head_bytes(h0) + none);
    }
    let table_at: u64 = w.position() as u64;
    w.patch_u64(40, table_at);
    proof {
        lemma_patch_brtis_at(h0, none, table_at);
        lemma_regroup(head_bytes(Head { brtis_at: table_at, ..h0 }), none, none, none);
    }
    put_blank_table(w, n);
}

/// Writes the string section behind the pointers to the texture
/// descriptors, and overwrites the pointer to it and the position of the
/// file's name.
fn write_strings(
    b: &Bntx,
    w: &mut Writer,
    name_at: u32,
    head: Ghost<Head>,
    table: Ghost<Seq<u8>>,
) -> (done: bool)
    requires
        old(w).order == b.bom,
        head@.bom == b.bom,
        head@.unk3.len() == 42,
        old(w)@ == head_bytes(head@) + table@,
        old(w)@.len() == b@.str_section_pos(),
        b@.str_section_pos() <= u16::MAX,
        name_at == b@.name_pos(),
    ensures
        final(w).order == b.bom,
        done == strings_fit(b@),
        done ==> final(w)@ == head_bytes(
            Head {
                str_section_at: b@.str_section_pos() as u16,
                file_name: (b@.str_section_pos() + 26) as u32,
                ..head@
            },
        ) + table@ + str_section_bytes(
            crate::layout::str_section_with(b@.header.str_section, 0),
            b@.str_section_pos(),
            b.bom,
        ),
        done ==> final(w)@.len() == str_section_end(b@.header.str_section, b@.str_section_pos()),
{
    let ghost x = b@;
    let ghost order = b.bom;
    let ghost h1 = head@;
    proof {
        lemma_head_len(h1);
    }
    let strings_at: usize = w.position();
    w.patch_u16(22, strings_at as u16);
    let ghost h2 = Head { str_section_at: strings_at as u16, ..h1 };
    proof {
        lemma_patch_str_section_at(h1, table@, strings_at as u16);
        lemma_head_len(h2);
    }
    if !put_str_section(w, &b.header.str_section) {
        return false;
    }
    let ghost s_bytes = str_section_bytes(
        crate::layout::str_section_with(x.header.str_section, 0),
        strings_at as int,
        order,
    );
    proof {
        lemma_regroup(head_bytes(h2), table@, s_bytes, Seq::<u8>::empty());
    }
    w.patch_u32(16, name_at);
    proof {
        lemma_patch_file_name(h2, table@ + s_bytes, name_at);
        lemma_regroup(
            head_bytes(Head { file_name: name_at, ..h2 }),
            table@,
            s_bytes,
            Seq::<u8>::empty(),
        );
    }
    true
}

/// Writes the dictionary at the first multiple of 8 behind the string
/// section, and overwrites the pointer to it and the two offset fields of the
/// string section.
fn write_dict(b: &Bntx, w: &mut Writer, head: Ghost<Head>, table: Ghost<Seq<u8>>) -> (at: Option<
    usize,
>)
    requires
        old(w).order == b.bom,
        head@.bom == b.bom,
        head@.unk3.len() == 42,
        old(w)@ == head_bytes(head@) + table@ + str_section_bytes(
            crate::layout::str_section_with(b@.header.str_section, 0),
            b@.str_section_pos(),
            b.bom,
        ),
        (head_bytes(head@) + table@).len() == b@.str_section_pos(),
        old(w)@.len() == str_section_end(b@.header.str_section, b@.str_section_pos()),
    ensures
        final(w).order == b.bom,
        at is Some == (b@.brtis_pos() <= crate::tiling::BRTD_SECTION_START),
        at matches Some(p) ==> p == b@.dict_pos(),
        at is Some ==> final(w)@ == head_bytes(Head { dict_at: b@.dict_pos() as u64, ..head@ })
            + table@ + str_section_bytes(
            crate::layout::str_section_with(
                b@.header.str_section,
                (b@.brtis_pos() - b@.str_section_pos()) as u64,
            ),
            b@.str_section_pos(),
            b.bom,
        ) + front_tail(b@),
        at is Some ==> final(w)@.len() == b@.brtis_pos(),
{
    let ghost x = b@;
    let ghost order = b.bom;
    let ghost h3 = head@;
    let ghost s0 = crate::layout::str_section_with(x.header.str_section, 0);
    let ghost strings_at = x.str_section_pos();
    let ghost s_bytes = str_section_bytes(s0, strings_at, order);
    proof {
        lemma_head_len(h3);
    }
    let strings_end: usize = w.position();
    if strings_end > 0xFF0 {
        return None;
    }
    let rest: usize = strings_end % 8;
    let dict_at: usize = if rest == 0 {
        strings_end
    } else {
        strings_end + (8 - rest)
    };
    assert(dict_at == align_up(strings_end as int, 8));
    w.pad_to(dict_at);
    let ghost pad = zeros(dict_at - strings_end);
    proof {
        lemma_regroup(head_bytes(h3), table@, s_bytes, pad);
    }
    w.patch_u64(56, dict_at as u64);
    let ghost h4 = Head { dict_at: dict_at as u64, ..h3 };
    proof {
        lemma_patch_dict_at(h3, table@ + s_bytes + pad, dict_at as u64);
        lemma_head_len(h4);
        lemma_regroup(head_bytes(h4), table@, s_bytes, pad);
    }
    put_dict(w, &b.nx_header.dict);
    let ghost tail = pad + dict_bytes(x.nx_header.dict, order);
    proof {
        assert(tail == front_tail(x));
        lemma_regroup(
            head_bytes(h4) + table@ + s_bytes,
            pad,
            dict_bytes(x.nx_header.dict, order),
            Seq::<u8>::empty(),
        );
        assert(w@ == (head_bytes(h4) + table@) + s_bytes + tail);
    }
    if w.position() > 0xFF0 {
        return None;
    }
    let front: usize = b.nx_header.brtis.len();
    assert(strings_at == 408 + 8 * front);
    let block: u64 = (w.position() - (408 + 8 * front)) as u64;
    assert(s_bytes.len() >= 20) by {
        reveal(str_section_bytes);
        lemma_bytes_len();
    }
    w.patch_u64(408 + 8 * front + 8, block);
    w.patch_u32(408 + 8 * front + 4, block as u32);
    proof {
        lemma_patch_str_section(
            head_bytes(h4) + table@,
            s0,
            strings_at,
            order,
            tail,
            block,
            block as u32,
        );
        assert(StrSectionView { block_size: block as u32, block_offset: block, ..s0 }
            == crate::layout::str_section_with(x.header.str_section, block));
    }
    Some(dict_at)
}

/// The pointers to the texture descriptors once the first `done` of them
/// are written: the position of each of those, and zero for the rest.
pub open spec fn table_after(x: BntxView, done: int) -> Seq<u64> {
    Seq::new(
        x.nx_header.brtis.len(),
        |j: int|
            if j < done {
                x.brti_pos(j) as u64
            } else {
                0u64
            },
    )
}

/// The texture descriptors of a container as they are written.
pub open spec fn resolved_brtis(x: BntxView) -> Seq<BrtiView> {
    Seq::new(x.nx_header.brtis.len(), |j: int| x.resolved_brti(j))
}

/// Writes the texture descriptors one behind the other, each with its
/// opaque blocks and mip offsets, and overwrites the pointer to each with
/// its position.
fn write_brtis(
    b: &Bntx,
    w: &mut Writer,
    name_at: u32,
    head: Ghost<Seq<u8>>,
    strings: Ghost<Seq<u8>>,
    tail: Ghost<Seq<u8>>,
) -> (done: bool)
    requires
        old(w).order == b.bom,
        head@.len() == FIXED_SIZE,
        b@.wf(),
        old(w)@ == head@ + u64s_bytes(table_after(b@, 0), b.bom) + strings@ + tail@,
        old(w)@.len() == b@.brtis_pos(),
        b@.brtis_pos() <= crate::tiling::BRTD_SECTION_START,
        b@.str_section_pos() <= u16::MAX,
        name_at == b@.name_pos(),
    ensures
        final(w).order == b.bom,
        done == (b@.brtis_end() <= crate::tiling::BRTD_SECTION_START),
        done ==> final(w)@ == head@ + u64s_bytes(b@.brti_table(), b.bom) + strings@ + (tail@
            + brtis_bytes(resolved_brtis(b@), b@.brtis_pos(), b.bom)),
        done ==> final(w)@.len() == b@.brtis_end(),
{
    let ghost x = b@;
    let ghost order = b.bom;
    let ghost all = resolved_brtis(x);
    let n: usize = b.nx_header.brtis.len();
    let mut i: usize = 0;
    proof {
        assert(all.take(0) =~= Seq::<BrtiView>::empty());
        assert(x.nx_header.brtis.take(0) =~= Seq::<BrtiView>::empty());
        lemma_regroup(
            head@ + u64s_bytes(table_after(x, 0), order) + strings@,
            tail@,
            Seq::<u8>::empty(),
            Seq::<u8>::empty(),
        );
    }
    while i < n
        invariant
            i <= n,
            n == x.nx_header.brtis.len(),
            x == b@,
            x.wf(),
            order == b.bom,
            w.order == order,
            head@.len() == FIXED_SIZE,
            name_at == x.name_pos(),
            all == resolved_brtis(x),
            w@ == head@ + u64s_bytes(table_after(x, i as int), order) + strings@ + (tail@
                + brtis_bytes(all.take(i as int), x.brtis_pos(), order)),
            w@.len() == x.brti_pos(i as int),
        decreases n - i,
    {
        let at: usize = w.position();
        proof {
            crate::layout::lemma_brtis_len_take(x.nx_header.brtis, i as int);
            crate::layout::lemma_brtis_len_same(
                x.nx_header.brtis.take(i as int),
                all.take(i as int),
            );
        }
        if at > 0xFF0 {
            return false;
        }
        let ghost table = table_after(x, i as int);
        let ghost rest = tail@ + brtis_bytes(all.take(i as int), x.brtis_pos(), order);
        proof {
            lemma_regroup(head@, u64s_bytes(table, order), strings@, rest);
            lemma_patch_table(head@, table, strings@ + rest, order, i as int, at as u64);
            assert(table.update(i as int, at as u64) =~= table_after(x, i + 1));
            assert(w@ == head@ + u64s_bytes(table, order) + (strings@ + rest));
        }
        w.patch_u64(408 + 8 * i, at as u64);
        proof {
            lemma_regroup(head@, u64s_bytes(table_after(x, i + 1), order), strings@, rest);
            assert(w@ == head@ + u64s_bytes(table_after(x, i + 1), order) + strings@ + rest);
        }
        let brti = &b.nx_header.brtis[i].brti;
        assert(brti@ == x.nx_header.brtis[i as int]);
        put_brti(w, brti, (0xFF0 - at) as u64, name_at as u64);
        proof {
            let record = brti_record(all[i as int], at as int, order);
            assert(all[i as int] == x.resolved_brti(i as int));
            assert(all[i as int] == crate::layout::brti_with(
                brti@,
                (0xFF0 - at) as u64,
                name_at as u64,
            ));
            assert(w@ == head@ + u64s_bytes(table_after(x, i + 1), order) + strings@ + rest
                + record);
            assert(x.brtis_pos() + crate::layout::brtis_len(all.take(i as int)) == at);
            assert(all.take(i + 1).drop_last() =~= all.take(i as int));
            assert(all.take(i + 1).last() == all[i as int]);
            assert(brtis_bytes(all.take(i + 1), x.brtis_pos(), order) == brtis_bytes(
                all.take(i as int),
                x.brtis_pos(),
                order,
            ) + record);
            lemma_regroup(
                head@ + u64s_bytes(table_after(x, i + 1), order) + strings@,
                tail@,
                brtis_bytes(all.take(i as int), x.brtis_pos(), order),
                record,
            );
            lemma_regroup(
                head@ + u64s_bytes(table_after(x, i + 1), order) + strings@,
                rest,
                record,
                Seq::<u8>::empty(),
            );
        }
        i = i + 1;
    }
    proof {
        assert(all.take(i as int) =~= all);
        assert(x.nx_header.brtis.take(i as int) =~= x.nx_header.brtis);
        assert(table_after(x, i as int) =~= x.brti_table());
    }
    w.position() <= 0xFF0
}

/// What follows the texture descriptors in the file: padding up to the
/// fixed position of the payload, the payload, padding, and the relocation
/// table with its offset fields resolved.
pub open spec fn back_tail(x: BntxView) -> Seq<u8> {
    zeros(crate::tiling::BRTD_SECTION_START - x.brtis_end()) + brtd_bytes(x.nx_header.brtd, x.bom)
        + zeros(x.reloc_pos() - x.brtd_end()) + reloc_bytes(x.resolved_reloc_table(), x.bom)
}

/// Writes the payload at its fixed position and the relocation table behind
/// it, and overwrites the pointers to both and the size of the file.
fn write_back(
    b: &Bntx,
    w: &mut Writer,
    head: Ghost<Head>,
    mid: Ghost<Seq<u8>>,
    dict_names: u32,
    brti_name: u32,
) -> (done: bool)
    requires
        old(w).order == b.bom,
        head@.bom == b.bom,
        head@.unk3.len() == 42,
        old(w)@ == head_bytes(head@) + mid@,
        old(w)@.len() == b@.brtis_end(),
        b@.brtis_end() <= crate::tiling::BRTD_SECTION_START,
        b@.header.reloc_table.sections.len() >= 2,
        b@.header.reloc_table.entries.len() >= 5,
        dict_names == b@.dict_pos() + 16,
        brti_name == b@.brtis_pos() + 96,
    ensures
        final(w).order == b.bom,
        done == (b@.file_end() <= u32::MAX),
        done ==> final(w)@ == head_bytes(
            Head {
                brtd_at: crate::tiling::BRTD_SECTION_START,
                reloc_table_at: b@.reloc_pos() as u32,
                file_size: b@.file_end() as u32,
                ..head@
            },
        ) + mid@ + back_tail(b@),
        done ==> final(w)@.len() == b@.file_end(),
{
    let ghost x = b@;
    let ghost order = b.bom;
    let ghost h0 = head@;
    let ghost none = Seq::<u8>::empty();
    proof {
        lemma_head_len(h0);
    }
    let after_brtis: usize = w.position();
    w.pad_to(0xFF0);
    let ghost pad = zeros(0xFF0 - after_brtis);
    proof {
        lemma_regroup(head_bytes(h0), mid@, pad, none);
    }
    w.patch_u64(48, 0xFF0);
    let ghost h1 = Head { brtd_at: 0xFF0, ..h0 };
    proof {
        lemma_patch_brtd_at(h0, mid@ + pad, 0xFF0);
        lemma_head_len(h1);
    }
    let payload: usize = b.nx_header.brtd.image_data.len();
    if payload > 0xFFFF_FFFF - 0x1000 {
        return false;
    }
    put_brtd(w, &b.nx_header.brtd.image_data);
    let ghost data_bytes = brtd_bytes(x.nx_header.brtd, order);
    let payload_end: u64 = w.position() as u64;
    assert(payload_end == x.brtd_end());
    let table_at: u64 = if payload_end % 4 == 0 {
        payload_end
    } else {
        payload_end + (4 - payload_end % 4)
    };
    assert(table_at == align_up(payload_end as int, 4));
    if table_at > 0xFFFF_FFFF {
        return false;
    }
    w.pad_to(table_at as usize);
    let ghost gap = zeros(table_at - payload_end);
    let ghost rest = mid@ + pad + data_bytes + gap;
    proof {
        lemma_regroup(head_bytes(h1) + (mid@ + pad), data_bytes, gap, none);
        lemma_regroup(head_bytes(h1), mid@ + pad, data_bytes, gap);
        lemma_regroup(mid@, pad, data_bytes, gap);
        assert(w@ == head_bytes(h1) + rest);
    }
    w.patch_u32(24, table_at as u32);
    let ghost h2 = Head { reloc_table_at: table_at as u32, ..h1 };
    proof {
        lemma_patch_reloc_table_at(h1, rest, table_at as u32);
        lemma_head_len(h2);
    }
    put_reloc(
        w,
        &b.header.reloc_table,
        table_at as u32,
        after_brtis as u32,
        (payload + 16) as u32,
        dict_names,
        brti_name,
    );
    let ghost table_bytes = reloc_bytes(x.resolved_reloc_table(), order);
    assert(w@ == head_bytes(h2) + rest + table_bytes);
    let end: usize = w.position();
    assert(end == x.file_end());
    if end > 0xFFFF_FFFF {
        return false;
    }
    proof {
        lemma_regroup(head_bytes(h2), rest, table_bytes, none);
    }
    w.patch_u32(28, end as u32);
    proof {
        lemma_patch_file_size(h2, rest + table_bytes, end as u32);
        let h3 = Head { file_size: end as u32, ..h2 };
        lemma_regroup(head_bytes(h3), rest, table_bytes, none);
        lemma_regroup(mid@ + pad, data_bytes, gap, table_bytes);
        lemma_regroup(mid@, pad + data_bytes + gap, table_bytes, none);
        assert(rest + table_bytes =~= mid@ + back_tail(x));
        lemma_regroup(head_bytes(h3), mid@, back_tail(x), none);
    }
    true
}

impl Bntx {
    /// Encodes the container as the bytes of a file: the fixed part, the
    /// pointers to the texture descriptors, the string section, the
    /// dictionary, the texture descriptors, the payload at its fixed
    /// position, and the relocation table. Each pointer and offset field
    /// ends up with the value that the layout gives it, the size of the file
    /// last. A container whose layout does not fit the fields of the format
    /// is not written.
    pub fn write(&self) -> (r: Option<Vec<u8>>)
        ensures
            r is Some <==> self@.writable(),
            r matches Some(bytes) ==> bytes@ == self@.encoding(),
    {
        let ghost x = self@;
        let ghost order = self.bom;
        let n: usize = self.nx_header.brtis.len();
        assert(x.nx_header.brtis.len() == n);
        proof {
            assert(x.wf()) by {
                assert forall|i: int| 0 <= i < x.nx_header.brtis.len() implies {
                    let d = #[trigger] x.nx_header.brtis[i];
                    &&& d.unk4.len() == 6
                    &&& d.unk.len() == 4
                    &&& d.unk6.len() == 256
                    &&& d.unk7.len() == 256
                } by {
                    assert(x.nx_header.brtis[i] == self.nx_header.brtis@[i]@);
                }
            }
            crate::layout::lemma_brtis_len_nonneg(x.nx_header.brtis);
            crate::layout::lemma_strs_end_from(
                x.header.str_section.strings,
                str_end(x.header.str_section.empty, x.str_section_pos() + 20),
            );
        }
        // The string section lies behind the pointers to the descriptors,
        // and the pointer to it has 16 bits.
        if n > (0xFFFF - 408) / 8 {
            return None;
        }
        if self.header.reloc_table.sections.len() < 2 || self.header.reloc_table.entries.len()
            < 5 {
            return None;
        }
        let mut w = Writer::new(self.bom);
        write_head(self, &mut w);
        let ghost h1 = Head { brtis_at: FIXED_SIZE, ..x.blank_head() };
        let ghost blank = u64s_bytes(Seq::new(n as nat, |i: int| 0u64), order);
        proof {
            lemma_head_len(h1);
        }
        // The position of the first name, for the header and for every
        // texture descriptor.
        let name_at: u32 = (408 + 8 * n + 26) as u32;
        if !write_strings(self, &mut w, name_at, Ghost(h1), Ghost(blank)) {
            return None;
        }
        let ghost h2 = Head {
            str_section_at: x.str_section_pos() as u16,
            file_name: (x.str_section_pos() + 26) as u32,
            ..h1
        };
        proof {
            lemma_head_len(h2);
        }
        let dict_at: usize = match write_dict(self, &mut w, Ghost(h2), Ghost(blank)) {
            Some(p) => p,
            None => {
                return None;
            },
        };
        let brtis_at: usize = w.position();
        let ghost h3 = Head { dict_at: x.dict_pos() as u64, ..h2 };
        let ghost strings = str_section_bytes(
            crate::layout::str_section_with(
                x.header.str_section,
                (x.brtis_pos() - x.str_section_pos()) as u64,
            ),
            x.str_section_pos(),
            order,
        );
        proof {
            lemma_head_len(h3);
            assert(table_after(x, 0) =~= Seq::new(n as nat, |i: int| 0u64));
        }
        if !write_brtis(
            self,
            &mut w,
            name_at,
            Ghost(head_bytes(h3)),
            Ghost(strings),
            Ghost(front_tail(x)),
        ) {
            return None;
        }
        let ghost mid = u64s_bytes(x.brti_table(), order) + strings + (front_tail(x) + brtis_bytes(
            resolved_brtis(x),
            x.brtis_pos(),
            order,
        ));
        proof {
            lemma_regroup(
                head_bytes(h3),
                u64s_bytes(x.brti_table(), order),
                strings,
                front_tail(x) + brtis_bytes(resolved_brtis(x), x.brtis_pos(), order),
            );
        }
        if !write_back(
            self,
            &mut w,
            Ghost(h3),
            Ghost(mid),
            (dict_at + 16) as u32,
            (brtis_at + 96) as u32,
        ) {
            return None;
        }
        proof {
            lemma_written_is_encoding(x, w@);
        }
        Some(w.buf)
    }
}

/// The file that the phases of the encoder leave is the encoding of the
/// container.
proof fn lemma_written_is_encoding(x: BntxView, bytes: Seq<u8>)
    requires
        x.writable(),
        bytes == head_bytes(
            Head {
                brtd_at: crate::tiling::BRTD_SECTION_START,
                reloc_table_at: x.reloc_pos() as u32,
                file_size: x.file_end() as u32,
                dict_at: x.dict_pos() as u64,
                str_section_at: x.str_section_pos() as u16,
                file_name: (x.str_section_pos() + 26) as u32,
                brtis_at: FIXED_SIZE,
                ..x.blank_head()
            },
        ) + (u64s_bytes(x.brti_table(), x.bom) + str_section_bytes(
            crate::layout::str_section_with(
                x.header.str_section,
                (x.brtis_pos() - x.str_section_pos()) as u64,
            ),
            x.str_section_pos(),
            x.bom,
        ) + (front_tail(x) + brtis_bytes(resolved_brtis(x), x.brtis_pos(), x.bom))) + back_tail(x),
    ensures
        bytes == x.encoding(),
{
    let r = x.resolved();
    crate::layout::lemma_resolved_layout(x);
    let head = head_bytes(r.head());
    let table = u64s_bytes(r.brti_table(), x.bom);
    let strings = str_section_bytes(r.header.str_section, r.str_section_pos(), x.bom);
    assert(r.nx_header.brtis =~= resolved_brtis(x));
    assert(r.tail_bytes() =~= front_tail(x) + brtis_bytes(resolved_brtis(x), x.brtis_pos(), x.bom)
        + back_tail(x));
    assert(bytes =~= head + table + strings + r.tail_bytes());
}

} // verus!
