use vstd::prelude::*;

verus! {

/// Outcome of a CTAP2 operation, conveyed to the host as a single status byte.
#[derive(Copy, Clone, Debug, PartialEq, Eq, Structural)]
pub enum CtapStatus {
    Success,
    InvalidCommand,
    InvalidParameter,
    InvalidLength,
    InvalidSeq,
    Timeout,
    ChannelBusy,
    LockRequired,
    InvalidChannel,
    CborUnexpectedType,
    InvalidCbor,
    MissingParameter,
    UnsupportedAlgorithm,
    OperationDenied,
    KeyStoreFull,
    NoCredentials,
    Other,
}

impl CtapStatus {
    /// The status byte that CTAP2 assigns to this outcome.
    pub open spec fn code(self) -> u8 {
        match self {
            CtapStatus::Success => 0x00,
            CtapStatus::InvalidCommand => 0x01,
            CtapStatus::InvalidParameter => 0x02,
            CtapStatus::InvalidLength => 0x03,
            CtapStatus::InvalidSeq => 0x04,
            CtapStatus::Timeout => 0x05,
            CtapStatus::ChannelBusy => 0x06,
            CtapStatus::LockRequired => 0x0A,
            CtapStatus::InvalidChannel => 0x0B,
            CtapStatus::CborUnexpectedType => 0x11,
            CtapStatus::InvalidCbor => 0x12,
            CtapStatus::MissingParameter => 0x14,
            CtapStatus::UnsupportedAlgorithm => 0x26,
            CtapStatus::OperationDenied => 0x27,
            CtapStatus::KeyStoreFull => 0x28,
            CtapStatus::NoCredentials => 0x2E,
            CtapStatus::Other => 0x7F,
        }
    }

    /// The status byte as a signed integer, as returned across the host boundary.
    pub fn as_i32(self) -> (r: i32)
        ensures
            r == self.code() as i32,
    {
        match self {
            CtapStatus::Success => 0x00,
            CtapStatus::InvalidCommand => 0x01,
            CtapStatus::InvalidParameter => 0x02,
            CtapStatus::InvalidLength => 0x03,
            CtapStatus::InvalidSeq => 0x04,
            CtapStatus::Timeout => 0x05,
            CtapStatus::ChannelBusy => 0x06,
            CtapStatus::LockRequired => 0x0A,
            CtapStatus::InvalidChannel => 0x0B,
            CtapStatus::CborUnexpectedType => 0x11,
            CtapStatus::InvalidCbor => 0x12,
            CtapStatus::MissingParameter => 0x14,
            CtapStatus::UnsupportedAlgorithm => 0x26,
            CtapStatus::OperationDenied => 0x27,
            CtapStatus::KeyStoreFull => 0x28,
            CtapStatus::NoCredentials => 0x2E,
            CtapStatus::Other => 0x7F,
        }
    }
}

} // verus!
