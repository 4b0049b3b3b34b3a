use soem::wire::decode_frame;
use soem::wire::encode_frame;
use soem::wire::push_u16_le;
use soem::wire::push_u32_le;
use soem::wire::push_u64_le;
use soem::wire::read_u16_le;
use soem::wire::read_u32_le;
use soem::wire::read_u64_le;
use soem::wire::CMD_BRD;
use soem::wire::CMD_LRW;

#[test]
fn u16_le_round_trip() {
    let mut buf: Vec<u8> = Vec::new();
    push_u16_le(&mut buf, 0x1234);
    assert_eq!(buf, vec![0x34, 0x12]);
    assert_eq!(read_u16_le(&buf, 0), 0x1234);
}

#[test]
fn u32_le_round_trip() {
    let mut buf: Vec<u8> = Vec::new();
    push_u32_le(&mut buf, 0xDEADBEEF);
    assert_eq!(buf, vec![0xEF, 0xBE, 0xAD, 0xDE]);
    assert_eq!(read_u32_le(&buf, 0), 0xDEADBEEF);
}

#[test]
fn u64_le_round_trip() {
    let mut buf: Vec<u8> = Vec::new();
    push_u64_le(&mut buf, 0x0102030405060708);
    assert_eq!(buf, vec![0x08, 0x07, 0x06, 0x05, 0x04, 0x03, 0x02, 0x01]);
    assert_eq!(read_u64_le(&buf, 0), 0x0102030405060708);
}

#[test]
fn read_at_offset() {
    let buf = vec![0xAA, 0x01, 0x02, 0x03, 0x04];
    assert_eq!(read_u16_le(&buf, 1), 0x0201);
    assert_eq!(read_u32_le(&buf, 1), 0x04030201);
}

#[test]
fn frame_round_trip() {
    let data = vec![0x11, 0x22, 0x33];
    let f = encode_frame(CMD_LRW, 5, 0x0010, 0x0120, &data);
    assert_eq!(f.len(), 17);
    let d = decode_frame(&f).expect("canonical frame must parse");
    assert_eq!(d.cmd, CMD_LRW);
    assert_eq!(d.idx, 5);
    assert_eq!(d.adp, 0x0010);
    assert_eq!(d.ado, 0x0120);
    assert_eq!(d.data, data);
    assert_eq!(d.wkc, 0);
}

#[test]
fn frame_layout_is_byte_exact() {
    let data = vec![0xAB];
    let f = encode_frame(CMD_BRD, 2, 0x0000, 0x0130, &data);
    // frame header: 11 bytes of datagram area, type 1 in the upper nibble
    assert_eq!(f[0], 11);
    assert_eq!(f[1], 0x10);
    assert_eq!(f[2], CMD_BRD);
    assert_eq!(f[3], 2);
    assert_eq!(&f[4..6], &[0x00, 0x00]);
    assert_eq!(&f[6..8], &[0x30, 0x01]);
    assert_eq!(&f[8..10], &[1, 0]);
    assert_eq!(&f[10..12], &[0, 0]);
    assert_eq!(f[12], 0xAB);
    assert_eq!(&f[13..15], &[0, 0]);
}

#[test]
fn decode_rejects_short_frames() {
    assert!(decode_frame(&vec![]).is_none());
    assert!(decode_frame(&vec![0; 13]).is_none());
}

#[test]
fn decode_rejects_bad_header() {
    let data = vec![0x11];
    let mut f = encode_frame(CMD_BRD, 0, 0, 0, &data);
    f[1] = 0x20; // frame type 2 instead of 1
    assert!(decode_frame(&f).is_none());
}

#[test]
fn decode_rejects_inconsistent_length() {
    let data = vec![0x11, 0x22];
    let mut f = encode_frame(CMD_BRD, 0, 0, 0, &data);
    f[8] = 1; // data length field disagrees with the frame length
    assert!(decode_frame(&f).is_none());
}
