use bntx::codec::{i32_from_bits, i32_to_bits, read_u16, read_u32, read_u64, Writer};
use bntx::ByteOrder;

#[test]
fn read_integers_in_both_orders() {
    let bytes = [0x01, 0x02, 0x03, 0x04, 0x05, 0x06, 0x07, 0x08, 0x09];
    assert_eq!(read_u16(&bytes, 0, ByteOrder::LittleEndian), 0x0201);
    assert_eq!(read_u16(&bytes, 0, ByteOrder::BigEndian), 0x0102);
    assert_eq!(read_u16(&bytes, 7, ByteOrder::BigEndian), 0x0809);
    assert_eq!(read_u32(&bytes, 1, ByteOrder::LittleEndian), 0x0504_0302);
    assert_eq!(read_u32(&bytes, 1, ByteOrder::BigEndian), 0x0203_0405);
    assert_eq!(
        read_u64(&bytes, 0, ByteOrder::LittleEndian),
        0x0807_0605_0403_0201
    );
    assert_eq!(
        read_u64(&bytes, 1, ByteOrder::BigEndian),
        0x0203_0405_0607_0809
    );
    let ones = [0xFF; 8];
    assert_eq!(read_u16(&ones, 0, ByteOrder::BigEndian), u16::MAX);
    assert_eq!(read_u32(&ones, 0, ByteOrder::LittleEndian), u32::MAX);
    assert_eq!(read_u64(&ones, 0, ByteOrder::BigEndian), u64::MAX);
}

#[test]
fn signed_integers_are_twos_complement() {
    assert_eq!(i32_from_bits(0), 0);
    assert_eq!(i32_from_bits(0x7FFF_FFFF), i32::MAX);
    assert_eq!(i32_from_bits(0x8000_0000), i32::MIN);
    assert_eq!(i32_from_bits(0xFFFF_FFFF), -1);
    assert_eq!(i32_to_bits(-1), 0xFFFF_FFFF);
    assert_eq!(i32_to_bits(i32::MIN), 0x8000_0000);
    assert_eq!(i32_to_bits(i32::MAX), 0x7FFF_FFFF);
    assert_eq!(i32_to_bits(5), 5);
}

#[test]
fn writer_appends_in_its_byte_order() {
    let mut w = Writer::new(ByteOrder::LittleEndian);
    assert_eq!(w.put_u8(0xAA), 0);
    assert_eq!(w.put_u16(0x0102), 1);
    assert_eq!(w.put_u32(0x0304_0506), 3);
    assert_eq!(w.put_u64(0x0708_090A_0B0C_0D0E), 7);
    assert_eq!(w.put_bytes(&[0xEE, 0xFF]), 15);
    assert_eq!(w.position(), 17);
    assert_eq!(
        w.buf,
        vec![
            0xAA, 0x02, 0x01, 0x06, 0x05, 0x04, 0x03, 0x0E, 0x0D, 0x0C, 0x0B, 0x0A, 0x09, 0x08,
            0x07, 0xEE, 0xFF
        ]
    );

    let mut w = Writer::new(ByteOrder::BigEndian);
    w.put_u16(0x0102);
    w.put_u32(0x0304_0506);
    w.put_u64(0x0708_090A_0B0C_0D0E);
    assert_eq!(
        w.buf,
        vec![
            0x01, 0x02, 0x03, 0x04, 0x05, 0x06, 0x07, 0x08, 0x09, 0x0A, 0x0B, 0x0C, 0x0D, 0x0E
        ]
    );
}

#[test]
fn writer_pads_with_zeros() {
    let mut w = Writer::new(ByteOrder::LittleEndian);
    w.put_u8(1);
    w.pad_to(4);
    assert_eq!(w.buf, vec![1, 0, 0, 0]);
    w.pad_to(2);
    assert_eq!(w.buf, vec![1, 0, 0, 0]);
    w.pad_to(4);
    assert_eq!(w.buf, vec![1, 0, 0, 0]);
}

#[test]
fn writer_patches_in_place() {
    let mut w = Writer::new(ByteOrder::LittleEndian);
    let first = w.put_u32(0);
    let second = w.put_u16(0);
    let third = w.put_u64(0);
    w.put_u8(0x99);
    w.patch_u64(third, 0x0102_0304_0506_0708);
    w.patch_u16(second, 0xABCD);
    w.patch_u32(first, 0xDEAD_BEEF);
    assert_eq!(
        w.buf,
        vec![
            0xEF, 0xBE, 0xAD, 0xDE, 0xCD, 0xAB, 0x08, 0x07, 0x06, 0x05, 0x04, 0x03, 0x02, 0x01,
            0x99
        ]
    );
    assert_eq!(w.position(), 15);

    let mut w = Writer::new(ByteOrder::BigEndian);
    let at = w.put_u32(0);
    w.put_u8(7);
    w.patch_u32(at, 0xDEAD_BEEF);
    assert_eq!(w.buf, vec![0xDE, 0xAD, 0xBE, 0xEF, 7]);
}

#[test]
fn what_is_written_is_read_back() {
    for order in [ByteOrder::LittleEndian, ByteOrder::BigEndian] {
        let mut w = Writer::new(order);
        w.put_u16(0xBEEF);
        w.put_u32(0x1234_5678);
        w.put_u64(0xFEDC_BA98_7654_3210);
        assert_eq!(read_u16(&w.buf, 0, order), 0xBEEF);
        assert_eq!(read_u32(&w.buf, 2, order), 0x1234_5678);
        assert_eq!(read_u64(&w.buf, 6, order), 0xFEDC_BA98_7654_3210);
    }
}
