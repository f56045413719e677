use ctap_core::cbor::Writer;
use ctap_core::core_api::{
    ctx_size, handle_request, init, persist_blob_size, persist_export, persist_import, CoreCtx,
    Credential,
};
use ctap_core::status::CtapStatus;

fn approve(_timeout_ms: u32) -> i32 {
    0
}

fn ctx_with_credentials(n: u8) -> CoreCtx {
    let mut ctx = CoreCtx::new();
    assert_eq!(init(&mut ctx, ctx_size()), 0);
    for i in 0..n {
        let mut w = Writer::new(256);
        w.u8(0x01).unwrap();
        w.map(4).unwrap();
        w.u8(1).unwrap();
        w.bstr(&[0x5A; 32]).unwrap();
        w.u8(2).unwrap();
        w.map(1).unwrap();
        w.tstr("id").unwrap();
        w.tstr("example.org").unwrap();
        w.u8(3).unwrap();
        w.map(1).unwrap();
        w.tstr("id").unwrap();
        w.bstr(&[i + 1, 0x42]).unwrap();
        w.u8(4).unwrap();
        w.array(1).unwrap();
        w.map(2).unwrap();
        w.tstr("alg").unwrap();
        w.nint(-7).unwrap();
        w.tstr("type").unwrap();
        w.tstr("public-key").unwrap();
        let mut resp = [0u8; 512];
        let mut len = 0usize;
        assert_eq!(handle_request(&mut ctx, ctx_size(), w.as_slice(), &mut resp, &mut len, &approve), 0);
    }
    ctx
}

fn export(ctx: &CoreCtx) -> Vec<u8> {
    let mut blob = vec![0u8; persist_blob_size()];
    assert_eq!(persist_export(ctx, &mut blob), Ok(persist_blob_size()));
    blob
}

fn same(a: &Credential, b: &Credential) -> bool {
    a.in_use == b.in_use
        && a.cred_id == b.cred_id
        && a.rp_id_hash == b.rp_id_hash
        && a.user_id == b.user_id
        && a.user_id_len == b.user_id_len
        && a.sign_count == b.sign_count
        && a.private_key == b.private_key
}

#[test]
fn blob_layout() {
    assert_eq!(persist_blob_size(), 488);
    let mut ctx = ctx_with_credentials(1);
    ctx.credentials[0].sign_count = 0x0102_0304;
    let blob = export(&ctx);
    assert_eq!(&blob[..8], &[0x59, 0x4B, 0x54, 0x52, 0x01, 0x00, 0x00, 0x00]);
    let rec = &blob[8..128];
    assert_eq!(&rec[..8], &[1, 2, 0, 0, 0x04, 0x03, 0x02, 0x01]);
    assert_eq!(&rec[8..24], &ctx.credentials[0].cred_id);
    assert_eq!(&rec[24..56], &ctx.credentials[0].rp_id_hash);
    assert_eq!(&rec[56..88], &ctx.credentials[0].user_id);
    assert_eq!(&rec[88..120], &ctx.credentials[0].private_key);
    assert!(blob[128..].iter().all(|b| *b == 0));
}

#[test]
fn export_into_small_buffer() {
    let ctx = ctx_with_credentials(0);
    let mut small = vec![0xAAu8; 487];
    assert_eq!(persist_export(&ctx, &mut small), Err(CtapStatus::InvalidLength));
    assert!(small.iter().all(|b| *b == 0xAA));
    let mut large = vec![0xAAu8; 500];
    assert_eq!(persist_export(&ctx, &mut large), Ok(488));
    assert_eq!(&large[488..], &[0xAA; 12]);
}

#[test]
fn export_import_is_identity() {
    let ctx = ctx_with_credentials(3);
    let blob = export(&ctx);
    let mut restored = CoreCtx::new();
    assert_eq!(init(&mut restored, ctx_size()), 0);
    assert_eq!(persist_import(&mut restored, &blob), Ok(()));
    for i in 0..4 {
        assert!(same(&restored.credentials[i], &ctx.credentials[i]));
    }
    assert!(restored.initialized);
    assert!(!restored.is_dirty());
    assert_eq!(export(&restored), blob);
}

#[test]
fn load_restores_mutated_slot() {
    let mut ctx = ctx_with_credentials(2);
    let blob = export(&ctx);
    let saved = ctx.credentials;
    ctx.credentials[1].sign_count = 77;
    ctx.credentials[1].cred_id = [0xFF; 16];
    ctx.credentials[0] = Credential::empty();
    assert!(ctx.is_dirty());
    assert_eq!(persist_import(&mut ctx, &blob), Ok(()));
    for i in 0..4 {
        assert!(same(&ctx.credentials[i], &saved[i]));
    }
    assert!(!ctx.is_dirty());
}

#[test]
fn import_rejects_bad_blobs_without_change() {
    let mut ctx = ctx_with_credentials(1);
    let blob = export(&ctx);
    let before = ctx.credentials;

    assert_eq!(persist_import(&mut ctx, &blob[..487]), Err(CtapStatus::InvalidLength));

    let mut bad_magic = blob.clone();
    bad_magic[0] ^= 1;
    assert_eq!(persist_import(&mut ctx, &bad_magic), Err(CtapStatus::Other));

    let mut bad_version = blob.clone();
    bad_version[4] = 2;
    assert_eq!(persist_import(&mut ctx, &bad_version), Err(CtapStatus::Other));

    let mut long_user = blob.clone();
    long_user[8 + 120 * 3] = 1;
    long_user[8 + 120 * 3 + 1] = 33;
    assert_eq!(persist_import(&mut ctx, &long_user), Err(CtapStatus::Other));

    for i in 0..4 {
        assert!(same(&ctx.credentials[i], &before[i]));
    }
    assert!(ctx.is_dirty());
}

#[test]
fn import_normalises_records() {
    let ctx = ctx_with_credentials(1);
    let mut blob = export(&ctx);
    // an unused record with stray bytes, and handle bytes beyond the length
    blob[8 + 120 + 10] = 0x99;
    blob[8 + 56 + 5] = 0x77;
    let mut restored = CoreCtx::new();
    assert_eq!(persist_import(&mut restored, &blob), Ok(()));
    assert!(same(&restored.credentials[1], &Credential::empty()));
    assert_eq!(restored.credentials[0].user_id[5], 0);
    assert_eq!(restored.credentials[0].user_id[..2], [1, 0x42]);
}

#[test]
fn dirty_flag_methods() {
    let mut ctx = CoreCtx::new();
    assert!(!ctx.is_dirty());
    ctx.mark_dirty();
    assert!(ctx.is_dirty());
    ctx.clear_dirty();
    assert!(!ctx.is_dirty());
    let empty = Credential::empty();
    assert!(!empty.in_use);
    assert_eq!(empty.private_key, [0; 32]);
}

#[test]
fn slot_allocation() {
    let mut ctx = CoreCtx::new();
    assert_eq!(ctx.free_slot(), Some(0));
    ctx.credentials[0].in_use = true;
    ctx.credentials[2].in_use = true;
    assert_eq!(ctx.free_slot(), Some(1));
    let slot = ctx.alloc_credential_slot().unwrap();
    slot.sign_count = 5;
    assert_eq!(ctx.credentials[1].sign_count, 5);
    ctx.credentials[1].in_use = true;
    ctx.credentials[3].in_use = true;
    assert!(ctx.alloc_credential_slot().is_none());
    assert_eq!(ctx.free_slot(), None);
}
