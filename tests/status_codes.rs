use ctap_core::status::CtapStatus;
use ctap_core::user_presence::presence_status;

#[test]
fn status_bytes() {
    let expected = [
        (CtapStatus::Success, 0x00),
        (CtapStatus::InvalidCommand, 0x01),
        (CtapStatus::InvalidParameter, 0x02),
        (CtapStatus::InvalidLength, 0x03),
        (CtapStatus::InvalidSeq, 0x04),
        (CtapStatus::Timeout, 0x05),
        (CtapStatus::ChannelBusy, 0x06),
        (CtapStatus::LockRequired, 0x0A),
        (CtapStatus::InvalidChannel, 0x0B),
        (CtapStatus::CborUnexpectedType, 0x11),
        (CtapStatus::InvalidCbor, 0x12),
        (CtapStatus::MissingParameter, 0x14),
        (CtapStatus::UnsupportedAlgorithm, 0x26),
        (CtapStatus::OperationDenied, 0x27),
        (CtapStatus::KeyStoreFull, 0x28),
        (CtapStatus::NoCredentials, 0x2E),
        (CtapStatus::Other, 0x7F),
    ];
    for (status, code) in expected {
        assert_eq!(status.as_i32(), code);
    }
}

#[test]
fn presence_answers() {
    assert_eq!(presence_status(0), Ok(()));
    assert_eq!(presence_status(1), Err(CtapStatus::OperationDenied));
    assert_eq!(presence_status(2), Err(CtapStatus::Timeout));
    assert_eq!(presence_status(3), Err(CtapStatus::Timeout));
    assert_eq!(presence_status(-1), Err(CtapStatus::Other));
    assert_eq!(presence_status(4), Err(CtapStatus::Other));
}
