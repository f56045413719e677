use vstd::prelude::*;

use p256::ecdsa::signature::Signer;
use p256::elliptic_curve::sec1::ToEncodedPoint;
use rand_core::RngCore;
use sha2::Digest;

verus! {

/// The SHA-256 digest of a byte string.
pub uninterp spec fn sha256_of(data: Seq<u8>) -> Seq<u8>;

/// Relies on sha2's `Sha256::digest`: the 32-byte SHA-256 digest of `data`.
#[verifier::external_body]
pub fn sha256(data: &[u8]) -> (r: [u8; 32])
    ensures
        r@ == sha256_of(data@),
{
    sha2::Sha256::digest(data).into()
}

/// The value of a big-endian byte string.
pub open spec fn be_value(s: Seq<u8>) -> nat
    decreases s.len(),
{
    if s.len() == 0 {
        0
    } else {
        be_value(s.drop_last()) * 0x100 + s.last() as nat
    }
}

/// The order n of the P-256 group.
pub open spec fn p256_order() -> nat {
    0xffffffff00000000ffffffffffffffffbce6faada7179e84f3b9cac2fc632551nat
}

/// A P-256 private key: a 32-byte big-endian scalar in [1, n).
pub open spec fn valid_private_key(k: Seq<u8>) -> bool {
    k.len() == 32 && 0 < be_value(k) < p256_order()
}

/// The affine coordinates X ‖ Y (32 bytes each) of the public key of the
/// P-256 private key `k`.
pub uninterp spec fn p256_public_key_of(k: Seq<u8>) -> Seq<u8>;

/// Relies on p256's `SecretKey::from_slice`, which accepts a 32-byte slice
/// exactly when it encodes a scalar in [1, n), and on
/// `PublicKey::to_encoded_point(false)`, whose uncompressed form carries both
/// 32-byte coordinates of the (never infinite) public point.
#[verifier::external_body]
pub fn public_key_xy(private_key: &[u8; 32]) -> (r: Option<([u8; 32], [u8; 32])>)
    ensures
        r is Some <==> valid_private_key(private_key@),
        r is Some ==> r->Some_0.0@ + r->Some_0.1@ == p256_public_key_of(private_key@),
{
    let secret = match p256::SecretKey::from_slice(private_key) {
        Ok(s) => s,
        Err(_) => return None,
    };
    let point = secret.public_key().to_encoded_point(false);
    match (point.x(), point.y()) {
        (Some(x), Some(y)) => Some(((*x).into(), (*y).into())),
        _ => None,
    }
}

/// The ASN.1 DER ECDSA P-256 / SHA-256 signature of `msg` under the private
/// key `k`, with the deterministic nonce of RFC 6979, or `None` where signing
/// fails (a key outside [1, n), or a zero `r` or `s`).
pub uninterp spec fn es256_signature_of(k: Seq<u8>, msg: Seq<u8>) -> Option<Seq<u8>>;

/// Relies on p256's `SigningKey::from_slice`, which refuses a scalar outside
/// [1, n), and on `Signer::try_sign`, which signs the SHA-256 digest of `msg`
/// with the RFC 6979 nonce, so that its outcome depends on key and message
/// alone; `Signature::to_der` gives the DER form, which lies in a buffer of
/// 2 * 32 + 9 bytes. The signature is returned in the first `len` bytes.
#[verifier::external_body]
pub fn es256_sign(private_key: &[u8; 32], msg: &[u8]) -> (r: Option<([u8; 73], usize)>)
    ensures
        r is Some <==> es256_signature_of(private_key@, msg@) is Some,
        !valid_private_key(private_key@) ==> r is None,
        r is Some ==> r->Some_0.1 <= 73 && r->Some_0.0@.subrange(0, r->Some_0.1 as int)
            == es256_signature_of(private_key@, msg@)->Some_0,
{
    let key = match p256::ecdsa::SigningKey::from_slice(private_key) {
        Ok(k) => k,
        Err(_) => return None,
    };
    let signature: p256::ecdsa::Signature = match key.try_sign(msg) {
        Ok(s) => s,
        Err(_) => return None,
    };
    let der = signature.to_der();
    let bytes = der.as_bytes();
    let mut out = [0u8; 73];
    out[..bytes.len()].copy_from_slice(bytes);
    Some((out, bytes.len()))
}

/// Relies on rand_core's `OsRng::try_fill_bytes`: on success the buffer was
/// filled from the operating system's generator. Nothing is known of the bytes.
#[verifier::external_body]
pub fn fill_random(buf: &mut [u8]) -> (ok: bool)
    ensures
        final(buf)@.len() == old(buf)@.len(),
{
    rand_core::OsRng.try_fill_bytes(buf).is_ok()
}

} // verus!
