use soem::mailbox::build_download_request;
use soem::mailbox::build_download_response;
use soem::mailbox::build_upload_request;
use soem::mailbox::build_upload_response;
use soem::mailbox::is_abort;
use soem::mailbox::parse_download_request;
use soem::mailbox::parse_download_response;
use soem::mailbox::parse_upload_request;
use soem::mailbox::parse_upload_response;
use soem::mailbox::SDO_ABORT;

#[test]
fn download_request_round_trip_all_widths() {
    for (value, size) in [(0xABu64, 1u8), (0xBEEF, 2), (0xDEADBEEF, 4), (0x0102030405060708, 8)] {
        let bytes = build_download_request(0x6040, 0x01, value, size);
        assert_eq!(bytes.len(), 16 + size as usize);
        let (i, s, v, z) = parse_download_request(&bytes).expect("built request must parse");
        assert_eq!(i, 0x6040);
        assert_eq!(s, 0x01);
        assert_eq!(v, value);
        assert_eq!(z, size);
    }
}

#[test]
fn download_request_is_little_endian_on_the_wire() {
    let bytes = build_download_request(0x1234, 0x05, 0xA1B2, 2);
    // index at offsets 9..11, value at 16..18, both little endian
    assert_eq!(&bytes[9..11], &[0x34, 0x12]);
    assert_eq!(bytes[11], 0x05);
    assert_eq!(&bytes[16..18], &[0xB2, 0xA1]);
}

#[test]
fn download_response_round_trip() {
    let bytes = build_download_response(0x2000, 0x10);
    assert_eq!(bytes.len(), 16);
    let (i, s) = parse_download_response(&bytes).expect("built response must parse");
    assert_eq!(i, 0x2000);
    assert_eq!(s, 0x10);
}

#[test]
fn upload_request_round_trip() {
    let bytes = build_upload_request(0x1018, 0x02);
    let (i, s) = parse_upload_request(&bytes).expect("built request must parse");
    assert_eq!(i, 0x1018);
    assert_eq!(s, 0x02);
}

#[test]
fn upload_response_round_trip_all_widths() {
    for (value, size) in [(0x7Fu64, 1u8), (0x8001, 2), (0xCAFEBABE, 4), (u64::MAX, 8)] {
        let bytes = build_upload_response(0x1000, 0x00, value, size);
        let (i, s, v, z) = parse_upload_response(&bytes).expect("built response must parse");
        assert_eq!(i, 0x1000);
        assert_eq!(s, 0x00);
        assert_eq!(v, value);
        assert_eq!(z, size);
    }
}

#[test]
fn parsers_reject_the_wrong_message_kind() {
    let req = build_download_request(0x6040, 0x01, 7, 1);
    assert!(parse_download_response(&req).is_none());
    assert!(parse_upload_request(&req).is_none());
    assert!(parse_upload_response(&req).is_none());
    let resp = build_download_response(0x6040, 0x01);
    assert!(parse_download_request(&resp).is_none());
}

#[test]
fn parsers_reject_wrong_lengths_and_headers() {
    assert!(parse_download_request(&vec![]).is_none());
    assert!(parse_download_request(&vec![0; 19]).is_none());
    let mut bytes = build_download_request(0x6040, 0x01, 7, 1);
    bytes[5] = 4; // mailbox protocol type other than CoE
    assert!(parse_download_request(&bytes).is_none());
}

#[test]
fn abort_is_detected() {
    let mut bytes = build_download_response(0x6040, 0x01);
    assert!(!is_abort(&bytes));
    bytes[8] = SDO_ABORT;
    assert!(is_abort(&bytes));
    assert!(parse_download_response(&bytes).is_none());
}
