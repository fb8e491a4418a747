use bntx::decode::ReadError;
use bntx::interchange::{ImageFormat, Surface};
use bntx::{
    Bntx, BntxStr, Brtd, ByteOrder, DictNode, DictSection, Header, NxHeader, RelocationEntry,
    RelocationSection, RelocationTable, StrSection, SurfaceFormat, TextureDimension,
    TextureViewDimension,
};

fn small() -> Bntx {
    let surface = Surface {
        width: 4,
        height: 4,
        depth: 1,
        layers: 1,
        mipmaps: 1,
        image_format: ImageFormat::R8Unorm,
        data: (0u8..16).collect(),
    };
    Bntx::from_surface(surface, "tex").unwrap()
}

fn u16_le(bytes: &[u8], at: usize) -> u16 {
    u16::from_le_bytes(bytes[at..at + 2].try_into().unwrap())
}

fn u32_le(bytes: &[u8], at: usize) -> u32 {
    u32::from_le_bytes(bytes[at..at + 4].try_into().unwrap())
}

fn u64_le(bytes: &[u8], at: usize) -> u64 {
    u64::from_le_bytes(bytes[at..at + 8].try_into().unwrap())
}

#[test]
fn layout_of_a_small_file() {
    let bytes = small().write().unwrap();
    // The header.
    assert_eq!(&bytes[0..4], b"BNTX");
    assert_eq!(u32_le(&bytes, 4), 0);
    assert_eq!(u16_le(&bytes, 8), 0);
    assert_eq!(u16_le(&bytes, 10), 4);
    assert_eq!(&bytes[12..14], &[0xFF, 0xFE]);
    assert_eq!(u16_le(&bytes, 14), 0x400c);
    assert_eq!(u32_le(&bytes, 16), 442);
    assert_eq!(u16_le(&bytes, 22), 416);
    assert_eq!(u32_le(&bytes, 24), 0x1000 + 512);
    assert_eq!(u32_le(&bytes, 28) as usize, bytes.len());
    // The block with the pointers.
    assert_eq!(&bytes[32..36], b"NX  ");
    assert_eq!(u32_le(&bytes, 36), 1);
    assert_eq!(u64_le(&bytes, 40), 408);
    assert_eq!(u64_le(&bytes, 48), 0xFF0);
    assert_eq!(u64_le(&bytes, 56), 448);
    assert_eq!(u64_le(&bytes, 64), 88);
    assert!(bytes[72..408].iter().all(|b| *b == 0));
    // The pointer to the only descriptor.
    assert_eq!(u64_le(&bytes, 408), 488);
    // The string section: the empty string at 436, the name at 440.
    assert_eq!(&bytes[416..420], b"_STR");
    assert_eq!(u32_le(&bytes, 420), 72);
    assert_eq!(u64_le(&bytes, 424), 72);
    assert_eq!(u32_le(&bytes, 432), 1);
    assert_eq!(&bytes[436..440], &[0, 0, 0, 0]);
    assert_eq!(u16_le(&bytes, 440), 3);
    assert_eq!(&bytes[442..445], b"tex");
    assert_eq!(&bytes[445..448], &[0, 0, 0]);
    // The dictionary.
    assert_eq!(&bytes[448..452], b"_DIC");
    assert_eq!(u32_le(&bytes, 452), 1);
    assert_eq!(u32_le(&bytes, 456), 0xFFFF_FFFF);
    assert_eq!(u16_le(&bytes, 460), 1);
    assert_eq!(u16_le(&bytes, 462), 0);
    assert_eq!(u64_le(&bytes, 464), 436);
    assert_eq!(u32_le(&bytes, 472), 0);
    assert_eq!(u16_le(&bytes, 476), 0);
    assert_eq!(u16_le(&bytes, 478), 1);
    assert_eq!(u64_le(&bytes, 480), 440);
    // The descriptor.
    assert_eq!(&bytes[488..492], b"BRTI");
    assert_eq!(u32_le(&bytes, 492), 4080 - 488);
    assert_eq!(u64_le(&bytes, 496), 4080 - 488);
    assert_eq!(bytes[504], 1);
    assert_eq!(bytes[505], 2);
    assert_eq!(u16_le(&bytes, 488 + 22), 1);
    assert_eq!(u32_le(&bytes, 488 + 28), 0x0201);
    assert_eq!(u32_le(&bytes, 488 + 36), 4);
    assert_eq!(u32_le(&bytes, 488 + 40), 4);
    assert_eq!(u32_le(&bytes, 488 + 44), 1);
    assert_eq!(u32_le(&bytes, 488 + 48), 1);
    assert_eq!(u32_le(&bytes, 488 + 52), 0);
    assert_eq!(u32_le(&bytes, 488 + 56), 65543);
    assert_eq!(u32_le(&bytes, 488 + 80), 512);
    assert_eq!(u32_le(&bytes, 488 + 84), 512);
    assert_eq!(u32_le(&bytes, 488 + 88), 84148994);
    assert_eq!(u32_le(&bytes, 488 + 92), 1);
    assert_eq!(u64_le(&bytes, 488 + 96), 442);
    assert_eq!(u64_le(&bytes, 488 + 104), 32);
    assert_eq!(u64_le(&bytes, 488 + 112), 488 + 672);
    assert_eq!(u64_le(&bytes, 488 + 128), 488 + 160);
    assert_eq!(u64_le(&bytes, 488 + 136), 488 + 416);
    assert_eq!(u64_le(&bytes, 488 + 672), 0x1000);
    // Padding up to the payload, and the payload.
    assert!(bytes[488 + 680..0xFF0].iter().all(|b| *b == 0));
    assert_eq!(&bytes[0xFF0..0xFF4], b"BRTD");
    assert_eq!(u32_le(&bytes, 0xFF4), 0);
    assert_eq!(u64_le(&bytes, 0xFF8), 512 + 16);
    // Each row of the surface begins a row of 16 bytes of the first GOB.
    assert_eq!(&bytes[0x1000..0x1000 + 4], &[0, 1, 2, 3]);
    assert_eq!(&bytes[0x1010..0x1010 + 4], &[4, 5, 6, 7]);
    // The relocation table.
    let table = 0x1000 + 512;
    assert_eq!(&bytes[table..table + 4], b"_RLT");
    assert_eq!(u32_le(&bytes, table + 4) as usize, table);
    assert_eq!(u32_le(&bytes, table + 8), 2);
    assert_eq!(u32_le(&bytes, table + 12), 0);
    assert_eq!(u32_le(&bytes, table + 16 + 12), 488 + 680);
    assert_eq!(u32_le(&bytes, table + 16 + 16), 0);
    assert_eq!(u32_le(&bytes, table + 16 + 20), 4);
    assert_eq!(u32_le(&bytes, table + 40 + 8), 0xFF0);
    assert_eq!(u32_le(&bytes, table + 40 + 12), 512 + 16);
    assert_eq!(u32_le(&bytes, table + 40 + 16), 4);
    assert_eq!(u32_le(&bytes, table + 40 + 20), 1);
    let entries = table + 16 + 48;
    assert_eq!(u32_le(&bytes, entries), 40);
    assert_eq!(u16_le(&bytes, entries + 4), 2);
    assert_eq!(bytes[entries + 6], 1);
    assert_eq!(bytes[entries + 7], 45);
    assert_eq!(u32_le(&bytes, entries + 8), 56);
    assert_eq!(u32_le(&bytes, entries + 16), 448 + 16);
    assert_eq!(u32_le(&bytes, entries + 24), 488 + 96);
    assert_eq!(u32_le(&bytes, entries + 32), 48);
    assert_eq!(bytes[entries + 39], 140);
    assert_eq!(bytes.len(), entries + 40);
}

#[test]
fn read_gives_back_what_was_written() {
    let bntx = small();
    let bytes = bntx.write().unwrap();
    let read = Bntx::read(&bytes).unwrap();
    // Only the offset fields differ from the container that was written.
    let mut expected = bntx.clone();
    expected.header.file_name = 442;
    expected.header.file_size = bytes.len() as u32;
    expected.header.str_section.block_size = 72;
    expected.header.str_section.block_offset = 72;
    expected.header.reloc_table.position = 0x1200;
    expected.header.reloc_table.sections[0].size = 488 + 680;
    expected.header.reloc_table.sections[1].position = 0xFF0;
    expected.header.reloc_table.sections[1].size = 528;
    expected.header.reloc_table.entries[0].position = 40;
    expected.header.reloc_table.entries[1].position = 56;
    expected.header.reloc_table.entries[2].position = 464;
    expected.header.reloc_table.entries[3].position = 584;
    expected.header.reloc_table.entries[4].position = 48;
    expected.nx_header.brtis[0].brti.size = 3592;
    expected.nx_header.brtis[0].brti.size2 = 3592;
    expected.nx_header.brtis[0].brti.name_addr = 442;
    assert_eq!(read, expected);
    assert_eq!(read.write().unwrap(), bytes);
}

#[test]
fn relocation_table_counts_its_entries() {
    let bntx = small();
    let table = &bntx.header.reloc_table;
    let sum: u32 = table.sections.iter().map(|s| s.count).sum();
    assert_eq!(sum as usize, table.entries.len());
    let read = Bntx::read(&bntx.write().unwrap()).unwrap();
    let table = &read.header.reloc_table;
    let sum: u32 = table.sections.iter().map(|s| s.count).sum();
    assert_eq!(sum as usize, table.entries.len());
    assert_eq!(table.entries.len(), 5);
}

#[test]
fn dictionary_of_one_texture() {
    let bntx = small();
    let dict = &bntx.nx_header.dict;
    assert_eq!(dict.node_count, 1);
    assert_eq!(
        dict.nodes,
        vec![
            DictNode {
                reference: -1,
                left_index: 1,
                right_index: 0,
                name_offset: 436
            },
            DictNode {
                reference: 0,
                left_index: 0,
                right_index: 1,
                name_offset: 440
            },
        ]
    );
    assert_eq!(bntx.nx_header.dict_size, 88);
    let read = Bntx::read(&bntx.write().unwrap()).unwrap();
    assert_eq!(read.nx_header.dict, bntx.nx_header.dict);
}

#[test]
fn big_endian_file_is_written_and_read() {
    let mut bntx = small();
    bntx.bom = ByteOrder::BigEndian;
    bntx.unk = 0x0102_0304;
    let bytes = bntx.write().unwrap();
    assert_eq!(&bytes[12..14], &[0xFE, 0xFF]);
    // What lies before the marker is little-endian.
    assert_eq!(&bytes[4..8], &[0x04, 0x03, 0x02, 0x01]);
    assert_eq!(&bytes[8..12], &[0, 0, 4, 0]);
    // What lies behind it is big-endian.
    assert_eq!(&bytes[14..16], &[0x40, 0x0c]);
    assert_eq!(&bytes[22..24], &[0x01, 0xA0]);
    assert_eq!(&bytes[40..48], &[0, 0, 0, 0, 0, 0, 0x01, 0x98]);
    assert_eq!(&bytes[440..442], &[0, 3]);
    let read = Bntx::read(&bytes).unwrap();
    assert_eq!(read.bom, ByteOrder::BigEndian);
    assert_eq!(read.unk, 0x0102_0304);
    assert_eq!(read.version, (0, 4));
    assert_eq!(read.width(), 4);
    assert_eq!(read.header.str_section.strings[0].chars, "tex");
    assert_eq!(read.nx_header.brtd.image_data, bntx.nx_header.brtd.image_data);
    assert_eq!(read.write().unwrap(), bytes);
}

fn be16(out: &mut Vec<u8>, v: u16) {
    out.extend_from_slice(&v.to_be_bytes());
}

fn be32(out: &mut Vec<u8>, v: u32) {
    out.extend_from_slice(&v.to_be_bytes());
}

fn be64(out: &mut Vec<u8>, v: u64) {
    out.extend_from_slice(&v.to_be_bytes());
}

/// A file with the marker `FE FF`, no texture, no name, a payload of three
/// bytes, a dictionary of the root alone and an empty relocation table.
fn minimal_big_endian() -> Vec<u8> {
    let mut f = Vec::new();
    f.extend_from_slice(b"BNTX");
    f.extend_from_slice(&0x1122_3344u32.to_le_bytes());
    f.extend_from_slice(&0x0001u16.to_le_bytes());
    f.extend_from_slice(&0x0004u16.to_le_bytes());
    f.extend_from_slice(&[0xFE, 0xFF]);
    be16(&mut f, 0x400c);
    be32(&mut f, 0x0A0B_0C0D);
    be16(&mut f, 0x0E0F);
    be16(&mut f, 408);
    be32(&mut f, 472);
    be32(&mut f, 488);
    f.extend_from_slice(b"NX  ");
    be32(&mut f, 0);
    be64(&mut f, 408);
    be64(&mut f, 432);
    be64(&mut f, 456);
    be64(&mut f, 0x0102_0304_0506_0708);
    for i in 0..42u64 {
        be64(&mut f, i);
    }
    assert_eq!(f.len(), 408);
    // The string section at 408: no strings behind the empty one.
    f.extend_from_slice(b"_STR");
    be32(&mut f, 0x10);
    be64(&mut f, 0x20);
    be32(&mut f, 0);
    be16(&mut f, 0);
    f.extend_from_slice(&[0, 0]);
    assert_eq!(f.len(), 432);
    // The payload block at 432.
    f.extend_from_slice(b"BRTD");
    f.extend_from_slice(&[0, 0, 0, 0]);
    be64(&mut f, 16 + 3);
    f.extend_from_slice(&[7, 8, 9]);
    f.extend_from_slice(&[0; 5]);
    assert_eq!(f.len(), 456);
    // The dictionary at 456.
    f.extend_from_slice(b"_DIC");
    be32(&mut f, 0);
    be32(&mut f, 0xFFFF_FFFE);
    be16(&mut f, 0x0102);
    be16(&mut f, 0x0304);
    // The relocation table at 472 begins inside the name offset of the node,
    // which is written as the magic and the position of the table.
    f.extend_from_slice(b"_RLT");
    be32(&mut f, 472);
    be32(&mut f, 0);
    be32(&mut f, 0x0506_0708);
    assert_eq!(f.len(), 488);
    f
}

#[test]
fn hand_built_big_endian_file() {
    let bytes = minimal_big_endian();
    let bntx = Bntx::read(&bytes).unwrap();
    let mut unk = [0u64; 42];
    for (i, v) in unk.iter_mut().enumerate() {
        *v = i as u64;
    }
    let expected = Bntx {
        unk: 0x1122_3344,
        version: (1, 4),
        bom: ByteOrder::BigEndian,
        header: Header {
            revision: 0x400c,
            file_name: 0x0A0B_0C0D,
            unk: 0x0E0F,
            str_section: StrSection {
                block_size: 0x10,
                block_offset: 0x20,
                str_count: 0,
                empty: BntxStr::default(),
                strings: vec![],
            },
            reloc_table: RelocationTable {
                position: 472,
                count: 0,
                unk1: 0x0506_0708,
                sections: vec![],
                entries: vec![],
            },
            file_size: 488,
        },
        nx_header: NxHeader {
            brtis: vec![],
            brtd: Brtd {
                image_data: vec![7, 8, 9],
            },
            dict: DictSection {
                node_count: 0,
                nodes: vec![DictNode {
                    reference: -2,
                    left_index: 0x0102,
                    right_index: 0x0304,
                    name_offset: 0x5F52_4C54_0000_01D8,
                }],
            },
            dict_size: 0x0102_0304_0506_0708,
            unk,
        },
    };
    assert_eq!(bntx, expected);
}

#[test]
fn the_same_bytes_are_little_endian_under_the_other_marker() {
    let mut bytes = minimal_big_endian();
    bytes[12] = 0xFF;
    bytes[13] = 0xFE;
    // The pointer to the string section is now read as 0x9801.
    assert_eq!(Bntx::read(&bytes), Err(ReadError::TruncatedData));
}

#[test]
fn bad_magic_is_a_malformed_header() {
    let mut bytes = small().write().unwrap();
    bytes[0] = b'X';
    assert_eq!(Bntx::read(&bytes), Err(ReadError::MalformedHeader));
    for at in [32usize, 416, 448, 488, 0xFF0, 0x1200] {
        let mut bytes = small().write().unwrap();
        bytes[at + 1] ^= 0xFF;
        assert_eq!(Bntx::read(&bytes), Err(ReadError::MalformedHeader));
    }
}

#[test]
fn bad_marker_is_a_malformed_header() {
    let mut bytes = small().write().unwrap();
    bytes[12] = 0xFF;
    bytes[13] = 0xFF;
    assert_eq!(Bntx::read(&bytes), Err(ReadError::MalformedHeader));
    bytes[12] = 0xFE;
    bytes[13] = 0xFE;
    assert_eq!(Bntx::read(&bytes), Err(ReadError::MalformedHeader));
}

#[test]
fn bad_dimension_code_is_a_malformed_header() {
    let mut bytes = small().write().unwrap();
    bytes[488 + 17] = 0;
    assert_eq!(Bntx::read(&bytes), Err(ReadError::MalformedHeader));
    let mut bytes = small().write().unwrap();
    bytes[488 + 17] = 4;
    assert_eq!(Bntx::read(&bytes), Err(ReadError::MalformedHeader));
    let mut bytes = small().write().unwrap();
    bytes[488 + 92] = 4;
    assert_eq!(Bntx::read(&bytes), Err(ReadError::MalformedHeader));
}

#[test]
fn payload_block_smaller_than_its_header_is_malformed() {
    let mut bytes = small().write().unwrap();
    bytes[0xFF8..0x1000].copy_from_slice(&15u64.to_le_bytes());
    assert_eq!(Bntx::read(&bytes), Err(ReadError::MalformedHeader));
    let mut bytes = small().write().unwrap();
    bytes[0xFF8..0x1000].copy_from_slice(&16u64.to_le_bytes());
    assert_eq!(Bntx::read(&bytes).unwrap().nx_header.brtd.image_data, vec![]);
}

#[test]
fn unknown_format_code_is_an_unsupported_pixel_format() {
    let mut bytes = small().write().unwrap();
    bytes[488 + 28..488 + 32].copy_from_slice(&0x0101u32.to_le_bytes());
    assert_eq!(Bntx::read(&bytes), Err(ReadError::UnsupportedPixelFormat));
    bytes[488 + 28..488 + 32].copy_from_slice(&0x0a05u32.to_le_bytes());
    assert_eq!(
        Bntx::read(&bytes).unwrap().image_format(),
        SurfaceFormat::Unk1
    );
}

#[test]
fn truncated_files() {
    let bytes = small().write().unwrap();
    assert_eq!(Bntx::read(&[]), Err(ReadError::TruncatedData));
    assert_eq!(Bntx::read(&bytes[..3]), Err(ReadError::TruncatedData));
    assert_eq!(Bntx::read(&bytes[..31]), Err(ReadError::TruncatedData));
    assert_eq!(Bntx::read(&bytes[..407]), Err(ReadError::TruncatedData));
    // In the middle of the payload.
    assert_eq!(
        Bntx::read(&bytes[..0x1000 + 256]),
        Err(ReadError::TruncatedData)
    );
    // In the middle of the relocation table.
    assert_eq!(
        Bntx::read(&bytes[..bytes.len() - 1]),
        Err(ReadError::TruncatedData)
    );
    for end in 0..bytes.len() {
        assert!(Bntx::read(&bytes[..end]).is_err());
    }
}

#[test]
fn payload_that_declares_more_than_there_is() {
    let mut bytes = small().write().unwrap();
    bytes[0xFF8..0x1000].copy_from_slice(&u64::MAX.to_le_bytes());
    assert_eq!(Bntx::read(&bytes), Err(ReadError::TruncatedData));
}

#[test]
fn pointer_behind_the_end_is_truncated_data() {
    let mut bytes = small().write().unwrap();
    bytes[56..64].copy_from_slice(&u64::MAX.to_le_bytes());
    assert_eq!(Bntx::read(&bytes), Err(ReadError::TruncatedData));
    let mut bytes = small().write().unwrap();
    let near_end = bytes.len() as u64 - 7;
    bytes[488 + 112..488 + 120].copy_from_slice(&near_end.to_le_bytes());
    assert_eq!(Bntx::read(&bytes), Err(ReadError::TruncatedData));
}

#[test]
fn names_that_are_not_utf8_are_read_with_replacements() {
    let mut bytes = small().write().unwrap();
    bytes[442] = 0xFF;
    let read = Bntx::read(&bytes).unwrap();
    assert_eq!(read.header.str_section.strings[0].chars, "\u{FFFD}ex");
}

#[test]
fn names_of_more_than_one_byte_per_character() {
    let surface = Surface {
        width: 4,
        height: 4,
        depth: 1,
        layers: 1,
        mipmaps: 1,
        image_format: ImageFormat::R8Unorm,
        data: vec![0; 16],
    };
    let bntx = Bntx::from_surface(surface, "t\u{e9}x\u{1F600}").unwrap();
    let bytes = bntx.write().unwrap();
    assert_eq!(u16_le(&bytes, 440), 8);
    let read = Bntx::read(&bytes).unwrap();
    assert_eq!(read.header.str_section.strings[0].chars, "t\u{e9}x\u{1F600}");
}

#[test]
fn containers_that_cannot_be_written() {
    let mut bntx = small();
    bntx.header.reloc_table.sections.pop();
    assert_eq!(bntx.write(), None);

    let mut bntx = small();
    bntx.header.reloc_table.entries.pop();
    assert_eq!(bntx.write(), None);

    let mut bntx = small();
    bntx.header.str_section.strings[0].chars = "x".repeat(65536);
    assert_eq!(bntx.write(), None);

    // A name that leaves no room for the descriptor before the payload.
    let mut bntx = small();
    bntx.header.str_section.strings[0].chars = "x".repeat(2918);
    assert_eq!(bntx.write(), None);
    bntx.header.str_section.strings[0].chars = "x".repeat(2917);
    assert_eq!(bntx.write().unwrap().len(), 0x1200 + 104);

    // Mip offsets that leave no room.
    let mut bntx = small();
    bntx.nx_header.brtis[0].brti.mipmaps.mipmap_offsets = vec![0; 366];
    assert_eq!(bntx.write(), None);
    bntx.nx_header.brtis[0].brti.mipmaps.mipmap_offsets = vec![0; 365];
    assert!(bntx.write().is_some());
}

#[test]
fn two_textures() {
    let mut bntx = small();
    let mut second = bntx.nx_header.brtis[0].clone();
    second.brti.width = 8;
    second.brti.texture_dimension = TextureDimension::D3;
    second.brti.texture_view_dimension = TextureViewDimension::Cube;
    second.brti.image_format = SurfaceFormat::BC7Srgb;
    second.brti.mipmap_count = 3;
    second.brti.mipmaps.mipmap_offsets = vec![1, 2, 3];
    second.brti.unk6[5] = 6;
    second.brti.unk7[255] = 7;
    second.brti.unk4 = [1, 2, 3, 4, 5, 6];
    second.brti.unk = [7, 8, 9, 10];
    bntx.nx_header.brtis.push(second);
    bntx.header.str_section.str_count = 2;
    bntx.header.str_section.strings.push(BntxStr {
        chars: "second".to_string(),
    });
    let bytes = bntx.write().unwrap();
    assert_eq!(u32_le(&bytes, 36), 2);
    assert_eq!(u16_le(&bytes, 22), 424);
    let first_at = u64_le(&bytes, 408) as usize;
    let second_at = u64_le(&bytes, 416) as usize;
    assert_eq!(second_at, first_at + 680);
    assert_eq!(u32_le(&bytes, second_at + 4) as usize, 4080 - second_at);
    let read = Bntx::read(&bytes).unwrap();
    assert_eq!(read.nx_header.brtis.len(), 2);
    let brti = &read.nx_header.brtis[1].brti;
    assert_eq!(brti.width, 8);
    assert_eq!(brti.texture_dimension, TextureDimension::D3);
    assert_eq!(brti.texture_view_dimension, TextureViewDimension::Cube);
    assert_eq!(brti.image_format, SurfaceFormat::BC7Srgb);
    assert_eq!(brti.mipmaps.mipmap_offsets, vec![1, 2, 3]);
    assert_eq!(brti.unk6[5], 6);
    assert_eq!(brti.unk7[255], 7);
    assert_eq!(brti.unk4, [1, 2, 3, 4, 5, 6]);
    assert_eq!(brti.unk, [7, 8, 9, 10]);
    assert_eq!(read.header.str_section.strings[1].chars, "second");
    assert_eq!(read.write().unwrap(), bytes);
}

#[test]
fn relocation_sections_that_count_other_than_five_entries() {
    let mut bntx = small();
    bntx.header.reloc_table.sections.push(RelocationSection {
        pointer: 9,
        position: 8,
        size: 7,
        index: 5,
        count: 2,
    });
    bntx.header.reloc_table.count = 3;
    for i in 0..2 {
        bntx.header.reloc_table.entries.push(RelocationEntry {
            position: 100 + i,
            struct_count: 1,
            offset_count: 2,
            padding_count: 3,
        });
    }
    let read = Bntx::read(&bntx.write().unwrap()).unwrap();
    assert_eq!(read.header.reloc_table.sections.len(), 3);
    assert_eq!(read.header.reloc_table.entries.len(), 7);
    assert_eq!(read.header.reloc_table.entries[6].position, 101);
    assert_eq!(read.header.reloc_table.sections[2], bntx.header.reloc_table.sections[2]);
}

#[test]
fn container_without_textures() {
    let mut bntx = small();
    bntx.nx_header.brtis.clear();
    bntx.header.str_section.strings.clear();
    bntx.header.str_section.str_count = 0;
    let bytes = bntx.write().unwrap();
    assert_eq!(u32_le(&bytes, 36), 0);
    assert_eq!(u16_le(&bytes, 22), 408);
    assert_eq!(u64_le(&bytes, 56), 432);
    // The first section ends behind the dictionary.
    assert_eq!(u32_le(&bytes, 0x1200 + 16 + 12), 472);
    let read = Bntx::read(&bytes).unwrap();
    assert!(read.nx_header.brtis.is_empty());
    assert!(read.header.str_section.strings.is_empty());
    assert_eq!(read.write().unwrap(), bytes);
}

#[test]
fn relocation_table_lies_at_a_multiple_of_four() {
    for len in 0usize..9 {
        let mut bntx = small();
        bntx.nx_header.brtd.image_data = vec![0xAB; len];
        let bytes = bntx.write().unwrap();
        let table = (0x1000 + len + 3) / 4 * 4;
        assert_eq!(u32_le(&bytes, 24) as usize, table);
        assert_eq!(&bytes[table..table + 4], b"_RLT");
        assert_eq!(u32_le(&bytes, table + 4) as usize, table);
        assert!(bytes[0x1000 + len..table].iter().all(|b| *b == 0));
        assert_eq!(u64_le(&bytes, 0xFF8) as usize, len + 16);
        assert_eq!(u32_le(&bytes, table + 40 + 12) as usize, len + 16);
        assert_eq!(bytes.len(), table + 104);
        let read = Bntx::read(&bytes).unwrap();
        assert_eq!(read.nx_header.brtd.image_data, vec![0xAB; len]);
    }
}

#[test]
fn dictionary_lies_at_a_multiple_of_eight() {
    for len in 0usize..20 {
        let mut bntx = small();
        bntx.header.str_section.strings[0].chars = "n".repeat(len);
        let bytes = bntx.write().unwrap();
        let string_end = (440 + 2 + len + 1 + 1) / 2 * 2;
        let dict = (string_end + 7) / 8 * 8;
        assert_eq!(u64_le(&bytes, 56) as usize, dict);
        assert_eq!(&bytes[dict..dict + 4], b"_DIC");
        assert_eq!(u64_le(&bytes, 408) as usize, dict + 40);
        assert_eq!(u32_le(&bytes, 420) as usize, dict + 40 - 416);
        assert_eq!(u64_le(&bytes, 424) as usize, dict + 40 - 416);
        let read = Bntx::read(&bytes).unwrap();
        assert_eq!(read.header.str_section.strings[0].chars, "n".repeat(len));
    }
}

#[test]
fn counts_that_say_more_than_there_is() {
    let mut bntx = small();
    bntx.nx_header.dict.node_count = 5;
    assert!(Bntx::read(&bntx.write().unwrap()).is_ok());
    bntx.nx_header.dict.node_count = u32::MAX;
    assert_eq!(
        Bntx::read(&bntx.write().unwrap()),
        Err(ReadError::TruncatedData)
    );

    let mut bntx = small();
    bntx.header.reloc_table.count = 100;
    assert_eq!(
        Bntx::read(&bntx.write().unwrap()),
        Err(ReadError::TruncatedData)
    );

    let mut bntx = small();
    bntx.header.reloc_table.sections[1].count = u32::MAX;
    assert_eq!(
        Bntx::read(&bntx.write().unwrap()),
        Err(ReadError::TruncatedData)
    );

    let mut bntx = small();
    bntx.header.str_section.str_count = u32::MAX;
    assert!(Bntx::read(&bntx.write().unwrap()).is_err());

    let mut bntx = small();
    bntx.nx_header.brtis[0].brti.mipmap_count = u16::MAX;
    assert_eq!(
        Bntx::read(&bntx.write().unwrap()),
        Err(ReadError::TruncatedData)
    );
}

#[test]
fn landmarks_of_an_encoded_file() {
    let bntx = Bntx::from_tiled(
        8,
        8,
        1,
        1,
        2,
        SurfaceFormat::R8Unorm,
        bntx::tiling::BlockHeight::One,
        vec![7, 8, 9],
        "naïve",
    );
    let bytes = bntx.write().unwrap();
    // The header and the descriptor hold one position for the name: that of
    // its characters, behind its length.
    let name_at = u32_le(&bytes, 16) as usize;
    assert_eq!(name_at, 416 + 26);
    assert_eq!(u16_le(&bytes, name_at - 2), 6);
    assert_eq!(&bytes[name_at..name_at + 6], "naïve".as_bytes());
    let brti_at = u64_le(&bytes, 408) as usize;
    assert_eq!(u64_le(&bytes, brti_at + 96), name_at as u64);
    // Zeros from the end of the descriptor to the payload block.
    let brtis_end = brti_at + 160 + 256 + 256 + 8 * 2;
    assert!(brtis_end < 0xFF0);
    assert!(bytes[brtis_end..0xFF0].iter().all(|b| *b == 0));
    assert_eq!(&bytes[0xFF0..0xFF4], b"BRTD");
    assert_eq!(&bytes[0x1000..0x1003], &[7, 8, 9]);
    // The relocation table at the first multiple of 4 behind the payload.
    let reloc_at = u32_le(&bytes, 24) as usize;
    assert_eq!(reloc_at, 0x1004);
    assert_eq!(&bytes[reloc_at..reloc_at + 4], b"_RLT");
    assert_eq!(u32_le(&bytes, 28) as usize, bytes.len());
    assert_eq!(bytes.len(), 0x1004 + 16 + 2 * 24 + 5 * 8);
}
