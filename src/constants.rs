use vstd::prelude::*;

verus! {

// CTAP2 command bytes (first byte of a request).
pub const CTAP2_MAKE_CREDENTIAL: u8 = 0x01;

pub const CTAP2_GET_ASSERTION: u8 = 0x02;

pub const CTAP2_GET_INFO: u8 = 0x04;

pub const CTAP2_CLIENT_PIN: u8 = 0x06;

pub const CTAP2_RESET: u8 = 0x07;

pub const CTAP2_SELECTION: u8 = 0x0B;

/// Largest message the authenticator accepts.
pub const MAX_MSG_SIZE: usize = 1024;

/// COSE identifier of ES256 (ECDSA over P-256 with SHA-256).
pub const ES256_ALG: i32 = -7;

/// Authenticator attestation GUID of this device.
pub const AAGUID: [u8; 16] = [
    0x52,
    0x4f,
    0x4f,
    0x54,
    0x54,
    0x41,
    0x50,
    0x00,
    0x00,
    0x00,
    0x00,
    0x00,
    0x00,
    0x00,
    0x00,
    0x01,
];

// Text strings of the protocol, as UTF-8 bytes.
/// "FIDO_2_0"
pub const TEXT_FIDO_2_0: [u8; 8] = [0x46, 0x49, 0x44, 0x4f, 0x5f, 0x32, 0x5f, 0x30];

/// "none"
pub const TEXT_NONE: [u8; 4] = [0x6e, 0x6f, 0x6e, 0x65];

/// "public-key"
pub const TEXT_PUBLIC_KEY: [u8; 10] = [0x70, 0x75, 0x62, 0x6c, 0x69, 0x63, 0x2d, 0x6b, 0x65, 0x79];

/// "id"
pub const KEY_ID: [u8; 2] = [0x69, 0x64];

/// "alg"
pub const KEY_ALG: [u8; 3] = [0x61, 0x6c, 0x67];

/// "type"
pub const KEY_TYPE: [u8; 4] = [0x74, 0x79, 0x70, 0x65];

/// "rk"
pub const KEY_RK: [u8; 2] = [0x72, 0x6b];

/// "up"
pub const KEY_UP: [u8; 2] = [0x75, 0x70];

/// "uv"
pub const KEY_UV: [u8; 2] = [0x75, 0x76];

/// "plat"
pub const KEY_PLAT: [u8; 4] = [0x70, 0x6c, 0x61, 0x74];

} // verus!
