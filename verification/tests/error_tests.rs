use soem::ERing;
use soem::EtherCatError;
use soem::error::ErrorKind;

#[test]
fn from_code_maps_the_three_negative_codes() {
    assert_eq!(EtherCatError::from_code(-1), Ok(EtherCatError::NoFrame));
    assert_eq!(EtherCatError::from_code(-2), Ok(EtherCatError::OtherFrame));
    assert_eq!(EtherCatError::from_code(-3), Ok(EtherCatError::Error));
}

#[test]
fn from_code_hands_other_codes_back() {
    assert_eq!(EtherCatError::from_code(0), Err(0));
    assert_eq!(EtherCatError::from_code(7), Err(7));
    assert_eq!(EtherCatError::from_code(-4), Err(-4));
    assert_eq!(EtherCatError::from_code(i32::MIN), Err(i32::MIN));
}

#[test]
fn error_descriptions() {
    assert_eq!(EtherCatError::NoFrame.describe(), "No frame received");
    assert_eq!(EtherCatError::OtherFrame.describe(), "Unknown frame received");
    assert_eq!(EtherCatError::Error.describe(), "General EtherCat error");
}

#[test]
fn ring_starts_empty() {
    let r = ERing::new();
    assert!(!r.has_error());
}

#[test]
fn ring_push_then_pop() {
    let mut r = ERing::new();
    r.push(ErrorKind::FrameTimeout, String::from("sdo upload"));
    assert!(r.has_error());
    let rec = r.pop().expect("one record pending");
    assert_eq!(rec.text(), "frame timeout: sdo upload");
    assert!(!r.has_error());
    assert!(r.pop().is_none());
}

#[test]
fn ring_keeps_order() {
    let mut r = ERing::new();
    r.push(ErrorKind::FrameTimeout, String::from("first"));
    r.push(ErrorKind::SdoFailure, String::from("second"));
    assert_eq!(r.pop().unwrap().text(), "frame timeout: first");
    assert_eq!(r.pop().unwrap().text(), "SDO failure: second");
}

#[test]
fn ring_drops_oldest_when_full() {
    let mut r = ERing::new();
    let mut i: usize = 0;
    while i < 65 {
        r.push(ErrorKind::UnexpectedEcho, format!("record {}", i));
        i += 1;
    }
    // capacity is 64: record 0 fell out, record 1 is now the oldest
    assert_eq!(r.pop().unwrap().text(), "unexpected echo: record 1");
}

#[test]
fn kind_texts() {
    assert_eq!(ErrorKind::FrameTimeout.describe(), "frame timeout");
    assert_eq!(ErrorKind::UnexpectedEcho.describe(), "unexpected echo");
    assert_eq!(ErrorKind::IndexExhausted.describe(), "index stack exhausted");
    assert_eq!(ErrorKind::MappingOverflow.describe(), "mapping overflow");
    assert_eq!(ErrorKind::SdoFailure.describe(), "SDO failure");
    assert_eq!(ErrorKind::ConfigFault.describe(), "configuration fault");
}
