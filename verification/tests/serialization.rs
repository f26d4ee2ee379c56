use paged_store::serialization_helpers::{
    read_i16, read_u16, read_u32, read_u64, write_bytes, write_u16, write_u32, write_u64,
};

#[test]
fn u16_round_trip() {
    let mut buf: Vec<u8> = vec![0; 16];
    let next = write_u16(&mut buf, 3, 0xBEEF);
    assert_eq!(5, next);
    assert_eq!(0xBEEF, read_u16(&buf, 3));
    assert_eq!(0xBE, buf[3]);
    assert_eq!(0xEF, buf[4]);
    assert_eq!(0, buf[2]);
    assert_eq!(0, buf[5]);
}

#[test]
fn u32_round_trip() {
    let mut buf: Vec<u8> = vec![0; 16];
    let next = write_u32(&mut buf, 0, 0xFBEA82B9);
    assert_eq!(4, next);
    assert_eq!(0xFBEA82B9, read_u32(&buf, 0));
    assert_eq!(vec![0xFB, 0xEA, 0x82, 0xB9], buf[0..4].to_vec());
}

#[test]
fn u64_round_trip() {
    let mut buf: Vec<u8> = vec![0; 16];
    let next = write_u64(&mut buf, 8, 0x0102030405060708);
    assert_eq!(16, next);
    assert_eq!(0x0102030405060708, read_u64(&buf, 8));
    assert_eq!(vec![1, 2, 3, 4, 5, 6, 7, 8], buf[8..16].to_vec());
}

#[test]
fn i16_reads_big_endian_two_complement() {
    let mut buf: Vec<u8> = vec![0; 4];
    write_u16(&mut buf, 0, 0xFFFF);
    assert_eq!(-1, read_i16(&buf, 0));
    write_u16(&mut buf, 2, 0x7FFF);
    assert_eq!(32767, read_i16(&buf, 2));
}

#[test]
fn write_bytes_copies_a_span_and_returns_the_cursor() {
    let mut buf: Vec<u8> = vec![9; 8];
    let src: Vec<u8> = vec![1, 2, 3];
    let next = write_bytes(&mut buf, 2, &src);
    assert_eq!(5, next);
    assert_eq!(vec![9, 9, 1, 2, 3, 9, 9, 9], buf);
}
