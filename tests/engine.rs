use ctap_core::cbor::{Reader, Writer};
use ctap_core::commands::get_assertion::complete_assertion;
use ctap_core::commands::make_credential::register;
use ctap_core::core_api::{ctx_size, handle_request, init, CoreCtx};
use ctap_core::dispatcher::dispatch;
use ctap_core::status::CtapStatus;
use p256::ecdsa::signature::Verifier;
use p256::elliptic_curve::sec1::ToEncodedPoint;
use sha2::Digest;

const AAGUID: [u8; 16] = [
    0x52, 0x4F, 0x4F, 0x54, 0x54, 0x41, 0x50, 0x00, 0x00, 0x00, 0x00, 0x00, 0x00, 0x00, 0x00, 0x01,
];

fn hex(s: &str) -> Vec<u8> {
    (0..s.len()).step_by(2).map(|i| u8::from_str_radix(&s[i..i + 2], 16).unwrap()).collect()
}

fn approve(_timeout_ms: u32) -> i32 {
    0
}

fn fresh_ctx() -> CoreCtx {
    let mut ctx = CoreCtx::new();
    assert_eq!(init(&mut ctx, ctx_size()), 0);
    ctx
}

fn sha256(data: &[u8]) -> [u8; 32] {
    sha2::Sha256::digest(data).into()
}

fn make_credential_request(rp_id: &str, user_id: &[u8], client_data_hash: &[u8]) -> Vec<u8> {
    let mut w = Writer::new(1024);
    w.u8(0x01).unwrap();
    w.map(4).unwrap();
    w.u8(1).unwrap();
    w.bstr(client_data_hash).unwrap();
    w.u8(2).unwrap();
    w.map(1).unwrap();
    w.tstr("id").unwrap();
    w.tstr(rp_id).unwrap();
    w.u8(3).unwrap();
    w.map(1).unwrap();
    w.tstr("id").unwrap();
    w.bstr(user_id).unwrap();
    w.u8(4).unwrap();
    w.array(1).unwrap();
    w.map(2).unwrap();
    w.tstr("alg").unwrap();
    w.nint(-7).unwrap();
    w.tstr("type").unwrap();
    w.tstr("public-key").unwrap();
    w.as_slice().to_vec()
}

fn get_assertion_request(rp_id: &str, client_data_hash: &[u8], cred_id: &[u8]) -> Vec<u8> {
    let mut w = Writer::new(1024);
    w.u8(0x02).unwrap();
    w.map(3).unwrap();
    w.u8(1).unwrap();
    w.tstr(rp_id).unwrap();
    w.u8(2).unwrap();
    w.bstr(client_data_hash).unwrap();
    w.u8(3).unwrap();
    w.array(1).unwrap();
    w.map(2).unwrap();
    w.tstr("id").unwrap();
    w.bstr(cred_id).unwrap();
    w.tstr("type").unwrap();
    w.tstr("public-key").unwrap();
    w.as_slice().to_vec()
}

fn run(ctx: &mut CoreCtx, req: &[u8]) -> Result<Vec<u8>, i32> {
    let mut resp = [0u8; 1024];
    let mut n = 0usize;
    let rc = handle_request(ctx, ctx_size(), req, &mut resp, &mut n, &approve);
    if rc == 0 {
        Ok(resp[..n].to_vec())
    } else {
        Err(rc)
    }
}

/// The authData inside a MakeCredential response.
fn attestation_auth_data(resp: &[u8]) -> Vec<u8> {
    assert_eq!(resp[0], 0x00);
    let mut r = Reader::new(&resp[1..]);
    assert_eq!(r.map(), Ok(3));
    assert_eq!(r.u32(), Ok(1));
    assert_eq!(r.tstr(), Ok("none"));
    assert_eq!(r.u32(), Ok(2));
    let auth = r.bstr().unwrap().to_vec();
    assert_eq!(r.u32(), Ok(3));
    assert_eq!(r.map(), Ok(0));
    auth
}

#[test]
fn init_refuses_short_region() {
    let mut ctx = CoreCtx::new();
    assert_eq!(init(&mut ctx, ctx_size() - 1), 0x7F);
    assert!(!ctx.initialized);
    assert_eq!(init(&mut ctx, ctx_size()), 0);
    assert!(ctx.initialized);
    assert!(!ctx.is_dirty());
}

#[test]
fn request_before_init_is_other() {
    let mut ctx = CoreCtx::new();
    assert_eq!(run(&mut ctx, &[0x04]), Err(CtapStatus::Other.as_i32()));
    let mut ctx = fresh_ctx();
    let mut resp = [0u8; 64];
    let mut n = 0usize;
    assert_eq!(handle_request(&mut ctx, ctx_size() - 1, &[0x04], &mut resp, &mut n, &approve), 0x7F);
}

#[test]
fn empty_request_is_invalid_length() {
    let mut ctx = fresh_ctx();
    assert_eq!(run(&mut ctx, &[]), Err(0x03));
    let mut resp = [0u8; 0];
    assert_eq!(dispatch(&mut ctx, &[0x04], &mut resp, &approve), Err(CtapStatus::InvalidLength));
}

#[test]
fn unknown_command_is_invalid_command() {
    let mut ctx = fresh_ctx();
    assert_eq!(run(&mut ctx, &[0x55]), Err(0x01));
    assert_eq!(run(&mut ctx, &[0x06]), Err(0x01));
    assert_eq!(run(&mut ctx, &[0x07]), Err(0x01));
    assert_eq!(run(&mut ctx, &[0x0B]), Err(0x01));
}

#[test]
fn get_info_response() {
    let mut ctx = fresh_ctx();
    let resp = run(&mut ctx, &[0x04]).unwrap();
    assert_eq!(resp[0], 0x00);
    assert_eq!(
        &resp[1..13],
        &[0xA5, 0x01, 0x81, 0x68, 0x46, 0x49, 0x44, 0x4F, 0x5F, 0x32, 0x5F, 0x30]
    );
    let mut r = Reader::new(&resp[1..]);
    assert_eq!(r.map(), Ok(5));
    assert_eq!(r.u32(), Ok(1));
    r.skip().unwrap();
    assert_eq!(r.u32(), Ok(3));
    assert_eq!(r.bstr(), Ok(&AAGUID[..]));
    assert_eq!(r.u32(), Ok(4));
    assert_eq!(r.map(), Ok(4));
    for (k, v) in [("rk", false), ("up", true), ("uv", false), ("plat", false)] {
        assert_eq!(r.tstr(), Ok(k));
        assert_eq!(r.bool(), Ok(v));
    }
    assert_eq!(r.u32(), Ok(5));
    assert_eq!(r.u32(), Ok(1024));
    assert_eq!(r.u32(), Ok(10));
    assert_eq!(r.array(), Ok(1));
    assert_eq!(r.map(), Ok(2));
    assert_eq!(r.tstr(), Ok("alg"));
    assert_eq!(r.nint(), Ok(-7));
    assert_eq!(r.tstr(), Ok("type"));
    assert_eq!(r.tstr(), Ok("public-key"));
    assert!(!ctx.is_dirty());
}

#[test]
fn get_info_into_small_buffer_is_invalid_length() {
    let mut ctx = fresh_ctx();
    let mut resp = [0u8; 20];
    assert_eq!(dispatch(&mut ctx, &[0x04], &mut resp, &approve), Err(CtapStatus::InvalidLength));
}

#[test]
fn make_credential_registers_in_slot_zero() {
    let mut ctx = fresh_ctx();
    let client_hash = sha256(b"test");
    let req = make_credential_request("example.com", &[1, 2, 3], &client_hash);
    let resp = run(&mut ctx, &req).unwrap();
    assert_eq!(&resp[..8], &[0x00, 0xA3, 0x01, 0x64, 0x6E, 0x6F, 0x6E, 0x65]);

    let rp_hash = hex("a379a6f6eeafb9a55e378c118034e2751e682fab9f2d30ab13d2125586ce1947");
    assert_eq!(sha256(b"example.com").to_vec(), rp_hash);
    let slot = &ctx.credentials[0];
    assert!(slot.in_use);
    assert_eq!(slot.rp_id_hash.to_vec(), rp_hash);
    assert_eq!(slot.user_id_len, 3);
    assert_eq!(&slot.user_id[..3], &[1, 2, 3]);
    assert_eq!(slot.sign_count, 0);
    assert!(ctx.is_dirty());
    assert!(!ctx.credentials[1].in_use);

    let auth = attestation_auth_data(&resp);
    assert_eq!(auth.len(), 148);
    assert_eq!(&auth[..32], &rp_hash[..]);
    assert_eq!(auth[32], 0x41);
    assert_eq!(&auth[33..37], &[0, 0, 0, 0]);
    assert_eq!(&auth[37..53], &AAGUID);
    assert_eq!(&auth[53..55], &[0x00, 0x10]);
    assert_eq!(&auth[55..71], &slot.cred_id);

    let public = p256::SecretKey::from_slice(&slot.private_key).unwrap().public_key();
    let point = public.to_encoded_point(false);
    let cose = &auth[71..];
    assert_eq!(&cose[..10], &[0xA5, 0x01, 0x02, 0x03, 0x26, 0x20, 0x01, 0x21, 0x58, 0x20]);
    assert_eq!(&cose[10..42], point.x().unwrap().as_slice());
    assert_eq!(&cose[42..44], &[0x22, 0x58]);
    assert_eq!(cose[44], 0x20);
    assert_eq!(&cose[45..77], point.y().unwrap().as_slice());
}

#[test]
fn get_assertion_after_make_credential() {
    let mut ctx = fresh_ctx();
    let req = make_credential_request("example.com", &[1, 2, 3], &sha256(b"test"));
    let auth = attestation_auth_data(&run(&mut ctx, &req).unwrap());
    let cred_id = auth[55..71].to_vec();

    let client_hash = sha256(b"fresh client data");
    let req = get_assertion_request("example.com", &client_hash, &cred_id);
    let resp = run(&mut ctx, &req).unwrap();
    assert_eq!(resp[0], 0x00);
    assert_eq!(ctx.credentials[0].sign_count, 1);
    assert!(ctx.is_dirty());

    let mut r = Reader::new(&resp[1..]);
    assert_eq!(r.map(), Ok(3));
    assert_eq!(r.u32(), Ok(1));
    assert_eq!(r.map(), Ok(2));
    assert_eq!(r.tstr(), Ok("id"));
    assert_eq!(r.bstr(), Ok(&cred_id[..]));
    assert_eq!(r.tstr(), Ok("type"));
    assert_eq!(r.tstr(), Ok("public-key"));
    assert_eq!(r.u32(), Ok(2));
    let auth_data = r.bstr().unwrap().to_vec();
    assert_eq!(r.u32(), Ok(3));
    let sig = r.bstr().unwrap().to_vec();

    assert_eq!(auth_data.len(), 37);
    assert_eq!(&auth_data[..32], &sha256(b"example.com"));
    assert_eq!(auth_data[32], 0x01);
    assert_eq!(&auth_data[33..37], &[0, 0, 0, 1]);

    let mut x = [0u8; 32];
    let mut y = [0u8; 32];
    let cose = &auth[71..];
    x.copy_from_slice(&cose[10..42]);
    y.copy_from_slice(&cose[45..77]);
    let mut sec1 = vec![0x04];
    sec1.extend_from_slice(&x);
    sec1.extend_from_slice(&y);
    let key = p256::ecdsa::VerifyingKey::from_sec1_bytes(&sec1).unwrap();
    let signature = p256::ecdsa::Signature::from_der(&sig).unwrap();
    let mut signed = auth_data.clone();
    signed.extend_from_slice(&client_hash);
    assert!(key.verify(&signed, &signature).is_ok());

    let resp = run(&mut ctx, &req).unwrap();
    assert_eq!(resp[0], 0x00);
    assert_eq!(ctx.credentials[0].sign_count, 2);
}

#[test]
fn sign_count_wraps_around() {
    let mut ctx = fresh_ctx();
    let req = make_credential_request("example.com", &[9], &sha256(b"test"));
    run(&mut ctx, &req).unwrap();
    ctx.credentials[0].sign_count = u32::MAX;
    let cred_id = ctx.credentials[0].cred_id;
    let req = get_assertion_request("example.com", &sha256(b"c"), &cred_id);
    run(&mut ctx, &req).unwrap();
    assert_eq!(ctx.credentials[0].sign_count, 0);
}

#[test]
fn get_assertion_unknown_credential() {
    let mut ctx = fresh_ctx();
    let req = make_credential_request("example.com", &[1, 2, 3], &sha256(b"test"));
    run(&mut ctx, &req).unwrap();
    ctx.clear_dirty();
    let req = get_assertion_request("example.com", &sha256(b"x"), &[0x11; 16]);
    assert_eq!(run(&mut ctx, &req), Err(0x2E));
    let cred_id = ctx.credentials[0].cred_id;
    let req = get_assertion_request("other.example", &sha256(b"x"), &cred_id);
    assert_eq!(run(&mut ctx, &req), Err(0x2E));
    assert_eq!(ctx.credentials[0].sign_count, 0);
    assert!(!ctx.is_dirty());
}

#[test]
fn fifth_make_credential_is_key_store_full() {
    let mut ctx = fresh_ctx();
    for i in 0..4u8 {
        let req = make_credential_request("example.com", &[i + 1], &sha256(b"test"));
        assert!(run(&mut ctx, &req).is_ok());
    }
    let before = ctx.credentials;
    let req = make_credential_request("example.com", &[5], &sha256(b"test"));
    assert_eq!(run(&mut ctx, &req), Err(0x28));
    for i in 0..4 {
        assert!(ctx.credentials[i].in_use);
        assert_eq!(ctx.credentials[i].cred_id, before[i].cred_id);
        assert_eq!(ctx.credentials[i].user_id, before[i].user_id);
        assert_eq!(ctx.credentials[i].private_key, before[i].private_key);
        assert_eq!(ctx.credentials[i].user_id[0], i as u8 + 1);
    }
}

#[test]
fn make_credential_request_errors() {
    let mut ctx = fresh_ctx();
    let hash = sha256(b"test");
    // clientDataHash of the wrong size
    let req = make_credential_request("example.com", &[1], &hash[..31]);
    assert_eq!(run(&mut ctx, &req), Err(0x03));
    // user handle too long
    let req = make_credential_request("example.com", &[7; 33], &hash);
    assert_eq!(run(&mut ctx, &req), Err(0x03));
    // missing parameters: an empty map
    assert_eq!(run(&mut ctx, &[0x01, 0xA0]), Err(0x14));
    // not a map
    assert_eq!(run(&mut ctx, &[0x01, 0x80]), Err(0x11));
    // indefinite-length map
    assert_eq!(run(&mut ctx, &[0x01, 0xBF, 0xFF]), Err(0x12));
    assert!(!ctx.credentials[0].in_use);
    assert!(!ctx.is_dirty());
}

#[test]
fn make_credential_without_es256_is_unsupported() {
    let mut ctx = fresh_ctx();
    let mut w = Writer::new(256);
    w.u8(0x01).unwrap();
    w.map(4).unwrap();
    w.u8(1).unwrap();
    w.bstr(&sha256(b"test")).unwrap();
    w.u8(2).unwrap();
    w.map(1).unwrap();
    w.tstr("id").unwrap();
    w.tstr("example.com").unwrap();
    w.u8(3).unwrap();
    w.map(1).unwrap();
    w.tstr("id").unwrap();
    w.bstr(&[1]).unwrap();
    w.u8(4).unwrap();
    w.array(1).unwrap();
    w.map(2).unwrap();
    w.tstr("alg").unwrap();
    w.nint(-257).unwrap();
    w.tstr("type").unwrap();
    w.tstr("public-key").unwrap();
    assert_eq!(run(&mut ctx, w.as_slice()), Err(0x26));
}

#[test]
fn make_credential_with_uv_option_and_presence_outcomes() {
    let mut w = Writer::new(256);
    let base = make_credential_request("example.com", &[1], &sha256(b"test"));
    // same request with a fifth entry: options {"uv": true}
    w.map(5).unwrap();
    let mut req = vec![0x01];
    req.extend_from_slice(w.as_slice());
    req.extend_from_slice(&base[2..]);
    let mut tail = Writer::new(32);
    tail.u8(7).unwrap();
    tail.map(1).unwrap();
    tail.tstr("uv").unwrap();
    tail.bool(true).unwrap();
    req.extend_from_slice(tail.as_slice());

    let mut ctx = fresh_ctx();
    let auth = attestation_auth_data(&run(&mut ctx, &req).unwrap());
    assert_eq!(auth[32], 0x45);

    for (answer, status) in [(1, 0x27), (2, 0x05), (3, 0x05), (9, 0x7F)] {
        let mut ctx = fresh_ctx();
        let mut resp = [0u8; 512];
        let mut n = 0usize;
        let prompt = move |_t: u32| answer;
        assert_eq!(handle_request(&mut ctx, ctx_size(), &req, &mut resp, &mut n, &prompt), status);
        assert!(!ctx.credentials[0].in_use);
        assert!(!ctx.is_dirty());
    }
}

#[test]
fn presence_not_asked_when_up_is_false() {
    let base = make_credential_request("example.com", &[1], &sha256(b"test"));
    let mut req = vec![0x01, 0xA5];
    req.extend_from_slice(&base[2..]);
    let mut tail = Writer::new(32);
    tail.u8(7).unwrap();
    tail.map(1).unwrap();
    tail.tstr("up").unwrap();
    tail.bool(false).unwrap();
    req.extend_from_slice(tail.as_slice());

    let mut ctx = fresh_ctx();
    let mut resp = [0u8; 512];
    let mut n = 0usize;
    let deny = |_t: u32| 1;
    assert_eq!(handle_request(&mut ctx, ctx_size(), &req, &mut resp, &mut n, &deny), 0);
    assert!(ctx.credentials[0].in_use);
}

#[test]
fn get_assertion_denied_leaves_counter() {
    let mut ctx = fresh_ctx();
    let req = make_credential_request("example.com", &[1], &sha256(b"test"));
    run(&mut ctx, &req).unwrap();
    let cred_id = ctx.credentials[0].cred_id;
    let req = get_assertion_request("example.com", &sha256(b"c"), &cred_id);
    let mut resp = [0u8; 512];
    let mut n = 0usize;
    let deny = |_t: u32| 1;
    assert_eq!(handle_request(&mut ctx, ctx_size(), &req, &mut resp, &mut n, &deny), 0x27);
    assert_eq!(ctx.credentials[0].sign_count, 0);
}

#[test]
fn get_assertion_request_errors() {
    let mut ctx = fresh_ctx();
    let hash = sha256(b"c");
    // descriptor with the wrong type
    let mut w = Writer::new(256);
    w.u8(0x02).unwrap();
    w.map(3).unwrap();
    w.u8(1).unwrap();
    w.tstr("example.com").unwrap();
    w.u8(2).unwrap();
    w.bstr(&hash).unwrap();
    w.u8(3).unwrap();
    w.array(1).unwrap();
    w.map(2).unwrap();
    w.tstr("id").unwrap();
    w.bstr(&[0; 16]).unwrap();
    w.tstr("type").unwrap();
    w.tstr("secret-key").unwrap();
    assert_eq!(run(&mut ctx, w.as_slice()), Err(0x02));
    // credential ID of the wrong size
    let req = get_assertion_request("example.com", &hash, &[0; 15]);
    assert_eq!(run(&mut ctx, &req), Err(0x03));
    // empty allowList
    let mut w = Writer::new(256);
    w.u8(0x02).unwrap();
    w.map(3).unwrap();
    w.u8(1).unwrap();
    w.tstr("example.com").unwrap();
    w.u8(2).unwrap();
    w.bstr(&hash).unwrap();
    w.u8(3).unwrap();
    w.array(0).unwrap();
    assert_eq!(run(&mut ctx, w.as_slice()), Err(0x14));
    // no allowList
    let mut w = Writer::new(256);
    w.u8(0x02).unwrap();
    w.map(2).unwrap();
    w.u8(1).unwrap();
    w.tstr("example.com").unwrap();
    w.u8(2).unwrap();
    w.bstr(&hash).unwrap();
    assert_eq!(run(&mut ctx, w.as_slice()), Err(0x14));
}

#[test]
fn register_with_given_key_is_exact() {
    let mut ctx = fresh_ctx();
    let key = [0x01u8; 32];
    let cred_id = [0x22u8; 16];
    let rp_hash = sha256(b"example.com");
    let mut out = [0xEEu8; 300];
    let n = register(&mut ctx, &rp_hash, &[0xAB, 0xCD], false, &key, &cred_id, &mut out).unwrap();
    assert_eq!(n, 1 + 1 + 5 + 1 + 2 + 148 + 1 + 1);
    assert_eq!(out[n], 0xEE);
    assert_eq!(&out[..9], &[0xA3, 0x01, 0x64, 0x6E, 0x6F, 0x6E, 0x65, 0x02, 0x58]);
    assert_eq!(out[9], 148);
    let auth = &out[10..158];
    assert_eq!(&auth[55..71], &cred_id);
    let point = p256::SecretKey::from_slice(&key).unwrap().public_key().to_encoded_point(false);
    assert_eq!(&auth[81..113], point.x().unwrap().as_slice());
    assert_ne!(&auth[81..113], &key[..]);
    assert_eq!(&out[158..160], &[0x03, 0xA0]);
    let slot = &ctx.credentials[0];
    assert_eq!(slot.private_key, key);
    assert_eq!(slot.user_id[..3], [0xAB, 0xCD, 0x00]);

    // the scalar zero is no private key
    let mut ctx = fresh_ctx();
    let mut out = [0u8; 300];
    assert_eq!(
        register(&mut ctx, &rp_hash, &[1], false, &[0u8; 32], &cred_id, &mut out),
        Err(CtapStatus::Other)
    );
    // a response buffer that is too small
    assert_eq!(
        register(&mut ctx, &rp_hash, &[1], false, &key, &cred_id, &mut out[..100]),
        Err(CtapStatus::InvalidLength)
    );
    assert!(!ctx.credentials[0].in_use);
}

#[test]
fn same_user_registered_twice_takes_two_slots() {
    let mut ctx = fresh_ctx();
    let req = make_credential_request("example.com", &[1, 2, 3], &sha256(b"test"));
    run(&mut ctx, &req).unwrap();
    run(&mut ctx, &req).unwrap();
    assert!(ctx.credentials[0].in_use && ctx.credentials[1].in_use);
    assert_eq!(ctx.credentials[0].rp_id_hash, ctx.credentials[1].rp_id_hash);
    assert_ne!(ctx.credentials[0].cred_id, ctx.credentials[1].cred_id);
}

#[test]
fn unknown_request_keys_are_skipped() {
    let base = make_credential_request("example.com", &[4], &sha256(b"test"));
    let mut req = vec![0x01, 0xA5];
    // key 9 with a nested value, before the known entries
    req.extend_from_slice(&[0x09, 0x82, 0xA1, 0x61, 0x78, 0xF4, 0xC1, 0x00]);
    req.extend_from_slice(&base[2..]);
    let mut ctx = fresh_ctx();
    assert!(run(&mut ctx, &req).is_ok());
    assert_eq!(ctx.credentials[0].user_id[0], 4);
}

#[test]
fn complete_assertion_is_exact() {
    let mut ctx = fresh_ctx();
    let key = [0x01u8; 32];
    let cred_id = [0x33u8; 16];
    let rp_hash = sha256(b"example.com");
    let mut out = [0u8; 300];
    register(&mut ctx, &rp_hash, &[7], false, &key, &cred_id, &mut out).unwrap();
    ctx.clear_dirty();

    let client_hash = sha256(b"client");
    // a response buffer that is too small leaves the counter
    let mut small = [0u8; 60];
    assert_eq!(
        complete_assertion(&mut ctx, 0, &rp_hash, &client_hash, &mut small),
        Err(CtapStatus::InvalidLength)
    );
    assert_eq!(ctx.credentials[0].sign_count, 0);
    assert!(!ctx.is_dirty());

    let mut out = [0u8; 256];
    let n = complete_assertion(&mut ctx, 0, &rp_hash, &client_hash, &mut out).unwrap();
    let mut expected = vec![0xA3, 0x01, 0xA2, 0x62, 0x69, 0x64, 0x50];
    expected.extend_from_slice(&cred_id);
    expected.extend_from_slice(&[0x64, 0x74, 0x79, 0x70, 0x65, 0x6A]);
    expected.extend_from_slice(b"public-key");
    expected.extend_from_slice(&[0x02, 0x58, 0x25]);
    let mut ad = rp_hash.to_vec();
    ad.extend_from_slice(&[0x01, 0, 0, 0, 1]);
    expected.extend_from_slice(&ad);
    expected.push(0x03);
    assert_eq!(&out[..expected.len()], &expected[..]);
    let sig_len = out[expected.len() + 1] as usize;
    assert_eq!(out[expected.len()], 0x58);
    assert_eq!(n, expected.len() + 2 + sig_len);
    let sig = p256::ecdsa::Signature::from_der(&out[expected.len() + 2..n]).unwrap();
    let verifier = *p256::ecdsa::SigningKey::from_slice(&key).unwrap().verifying_key();
    let mut signed = ad.clone();
    signed.extend_from_slice(&client_hash);
    assert!(verifier.verify(&signed, &sig).is_ok());
    assert_eq!(ctx.credentials[0].sign_count, 1);
    assert!(ctx.is_dirty());

    // a stored scalar that is no private key cannot sign
    ctx.credentials[0].private_key = [0u8; 32];
    assert_eq!(
        complete_assertion(&mut ctx, 0, &rp_hash, &client_hash, &mut out),
        Err(CtapStatus::Other)
    );
    assert_eq!(ctx.credentials[0].sign_count, 1);
}

#[test]
fn get_assertion_presence_outcomes() {
    for (answer, status) in [(1, 0x27), (2, 0x05), (3, 0x05), (-4, 0x7F)] {
        let mut ctx = fresh_ctx();
        let req = make_credential_request("example.com", &[1], &sha256(b"test"));
        run(&mut ctx, &req).unwrap();
        let cred_id = ctx.credentials[0].cred_id;
        let req = get_assertion_request("example.com", &sha256(b"c"), &cred_id);
        let mut resp = [0u8; 512];
        let mut n = 0usize;
        let prompt = move |_t: u32| answer;
        assert_eq!(handle_request(&mut ctx, ctx_size(), &req, &mut resp, &mut n, &prompt), status);
        assert_eq!(ctx.credentials[0].sign_count, 0);
    }
}

#[test]
fn get_assertion_into_empty_buffer() {
    let mut ctx = fresh_ctx();
    let req = make_credential_request("example.com", &[1], &sha256(b"test"));
    run(&mut ctx, &req).unwrap();
    let cred_id = ctx.credentials[0].cred_id;
    let req = get_assertion_request("example.com", &sha256(b"c"), &cred_id);
    let mut resp = [0u8; 1];
    assert_eq!(dispatch(&mut ctx, &req, &mut resp, &approve), Err(CtapStatus::InvalidLength));
    assert_eq!(ctx.credentials[0].sign_count, 0);
}

#[test]
fn writer_is_bounded_by_the_output_buffer() {
    let mut w = Writer::new(2000);
    assert_eq!(w.bstr(&[0x5Au8; 1500]), Ok(()));
    assert_eq!(w.len(), 1503);
    assert_eq!(&w.as_slice()[..3], &[0x59, 0x05, 0xDC]);
    assert_eq!(w.bstr(&[0u8; 494]), Ok(()));
    assert_eq!(w.len(), 2000);
    assert_eq!(w.u8(0), Err(CtapStatus::InvalidLength));
    let mut w = Writer::new(1502);
    assert_eq!(w.bstr(&[0x5Au8; 1500]), Err(CtapStatus::InvalidLength));
    assert_eq!(w.len(), 0);
}
