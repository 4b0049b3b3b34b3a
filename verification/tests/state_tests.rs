use soem::state::decode_status;
use soem::EtherCatState;

#[test]
fn wire_codes() {
    assert_eq!(EtherCatState::NoValidState.code(), 0x00);
    assert_eq!(EtherCatState::Init.code(), 0x01);
    assert_eq!(EtherCatState::PreOp.code(), 0x02);
    assert_eq!(EtherCatState::Boot.code(), 0x03);
    assert_eq!(EtherCatState::SafeOp.code(), 0x04);
    assert_eq!(EtherCatState::Op.code(), 0x08);
    assert_eq!(EtherCatState::AckOrError.code(), 0x10);
}

#[test]
fn from_code_inverts_code() {
    for st in [
        EtherCatState::NoValidState,
        EtherCatState::Init,
        EtherCatState::PreOp,
        EtherCatState::Boot,
        EtherCatState::SafeOp,
        EtherCatState::Op,
        EtherCatState::AckOrError,
    ] {
        assert_eq!(EtherCatState::from_code(st.code()), Some(st));
    }
}

#[test]
fn from_code_rejects_unknown_codes() {
    assert_eq!(EtherCatState::from_code(0x05), None);
    assert_eq!(EtherCatState::from_code(0x09), None);
    assert_eq!(EtherCatState::from_code(0xFF), None);
}

#[test]
fn ranks_follow_the_ascent() {
    assert!(EtherCatState::NoValidState.rank() < EtherCatState::Init.rank());
    assert!(EtherCatState::Init.rank() < EtherCatState::PreOp.rank());
    assert!(EtherCatState::PreOp.rank() < EtherCatState::SafeOp.rank());
    assert!(EtherCatState::SafeOp.rank() < EtherCatState::Op.rank());
    // Boot sits beside PreOp, outside the normal ascent.
    assert_eq!(EtherCatState::Boot.rank(), EtherCatState::PreOp.rank());
}

#[test]
fn status_words_decode_with_the_flag_masked() {
    assert_eq!(decode_status(0x08), Some((EtherCatState::Op, false)));
    assert_eq!(decode_status(0x04), Some((EtherCatState::SafeOp, false)));
    // the acknowledge/error flag may sit on any state
    assert_eq!(decode_status(0x14), Some((EtherCatState::SafeOp, true)));
    assert_eq!(decode_status(0x18), Some((EtherCatState::Op, true)));
    assert_eq!(decode_status(0x11), Some((EtherCatState::Init, true)));
    // the bare flag is a flagged no-valid-state
    assert_eq!(decode_status(0x10), Some((EtherCatState::NoValidState, true)));
    assert_eq!(decode_status(0x05), None);
    assert_eq!(decode_status(0x20), None);
    assert_eq!(decode_status(0xFF), None);
}

#[test]
fn describe_names() {
    assert_eq!(EtherCatState::Op.describe(), "Operational");
    assert_eq!(EtherCatState::PreOp.describe(), "Pre-Operational");
    assert_eq!(EtherCatState::SafeOp.describe(), "Safe-Operational");
    assert_eq!(EtherCatState::NoValidState.describe(), "None");
    assert_eq!(EtherCatState::AckOrError.describe(), "Ack or Error");
}
