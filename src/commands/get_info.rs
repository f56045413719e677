use vstd::prelude::*;

use crate::bytes::copy_prefix;
use crate::cbor::{enc_array, enc_bool, enc_bytes, enc_map, enc_nint, enc_text, enc_uint, Writer};
use crate::constants::{
    AAGUID, ES256_ALG, KEY_ALG, KEY_PLAT, KEY_RK, KEY_TYPE, KEY_UP, KEY_UV, MAX_MSG_SIZE, TEXT_FIDO_2_0,
    TEXT_PUBLIC_KEY,
};
use crate::core_api::CoreCtx;
use crate::status::CtapStatus;

verus! {

/// The authenticator's fixed `GetInfo` response: versions, AAGUID, options,
/// maximum message size and supported algorithms, keys ascending.
pub open spec fn get_info_response() -> Seq<u8> {
    enc_map(5) + enc_uint(1) + enc_array(1) + enc_text(TEXT_FIDO_2_0@) + enc_uint(3) + enc_bytes(
        AAGUID@,
    ) + enc_uint(4) + enc_map(4) + enc_text(KEY_RK@) + enc_bool(false) + enc_text(KEY_UP@)
        + enc_bool(true) + enc_text(KEY_UV@) + enc_bool(false) + enc_text(KEY_PLAT@) + enc_bool(
        false,
    ) + enc_uint(5) + enc_uint(MAX_MSG_SIZE as nat) + enc_uint(10) + enc_array(1) + enc_map(2)
        + enc_text(KEY_ALG@) + enc_nint(ES256_ALG as int) + enc_text(KEY_TYPE@) + enc_text(
        TEXT_PUBLIC_KEY@,
    )
}

/// The effect of `GetInfo` on a response buffer: the fixed response at its
/// start, or `InvalidLength` and no change when it does not fit.
pub open spec fn get_info_outcome(old_out: Seq<u8>, new_out: Seq<u8>, r: Result<usize, CtapStatus>) -> bool {
    let resp = get_info_response();
    if resp.len() <= old_out.len() {
        r == Ok::<usize, CtapStatus>(resp.len() as usize) && new_out == resp + old_out.subrange(
            resp.len() as int,
            old_out.len() as int,
        )
    } else {
        r == Err::<usize, CtapStatus>(CtapStatus::InvalidLength) && new_out == old_out
    }
}

/// Writes the `GetInfo` response at the start of `out` and returns its length.
pub fn handle(_ctx: &mut CoreCtx, _cbor_req: &[u8], out: &mut [u8]) -> (r: Result<
    usize,
    CtapStatus,
>)
    ensures
        *final(_ctx) == *old(_ctx),
        get_info_outcome(old(out)@, final(out)@, r),
{
    let mut w = Writer::new(out.len());

    w.map(5)?;

    // versions
    w.u8(1)?;
    w.array(1)?;
    w.text(&TEXT_FIDO_2_0)?;

    // aaguid
    w.u8(3)?;
    w.bstr(&AAGUID)?;

    // options
    w.u8(4)?;
    w.map(4)?;
    w.text(&KEY_RK)?;
    w.bool(false)?;
    w.text(&KEY_UP)?;
    w.bool(true)?;
    w.text(&KEY_UV)?;
    w.bool(false)?;
    w.text(&KEY_PLAT)?;
    w.bool(false)?;

    // maxMsgSize
    w.u8(5)?;
    w.u32(MAX_MSG_SIZE as u32)?;

    // pubKeyCredAlgorithms; shorter key first for canonical CBOR
    w.u8(0x0A)?;
    w.array(1)?;
    w.map(2)?;
    w.text(&KEY_ALG)?;
    w.nint(ES256_ALG)?;
    w.text(&KEY_TYPE)?;
    w.text(&TEXT_PUBLIC_KEY)?;

    assert(w@ == get_info_response());
    copy_prefix(out, w.as_slice());
    Ok(w.len())
}

} // verus!
