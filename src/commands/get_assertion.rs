use vstd::prelude::*;
use vstd::string::StringSliceAdditionalSpecFns;

use crate::bytes::{array16_at, array32_at, be32, bytes_eq, copy_at, copy_prefix};
use crate::cbor::{
    bytes_at, enc_bytes, enc_map, enc_text, enc_uint, item_end, items_end, text_at, typed_head,
    uint_at, Reader, Writer,
};
use crate::constants::{KEY_ID, KEY_TYPE, TEXT_PUBLIC_KEY};
use crate::core_api::{CoreCtx, Credential, CREDENTIAL_ID_SIZE, MAX_CREDENTIALS};
use crate::crypto::{es256_sign, es256_signature_of, sha256, sha256_of};
use crate::status::CtapStatus;
use crate::user_presence::{presence_outcome, require_user_presence, USER_PRESENCE_TIMEOUT_MS};

verus! {

/// User present.
pub const FLAG_UP: u8 = 0x01;

/// Length of an assertion's authData.
pub const AUTH_DATA_LEN: usize = 37;

/// Length of the signed message: authData followed by the client data hash.
pub const SIG_INPUT_LEN: usize = 69;

// ---------------------------------------------------------------------------
// Request model
// ---------------------------------------------------------------------------

/// A well-formed `GetAssertion` request.
pub ghost struct GaRequest {
    pub rp_id: Seq<u8>,
    pub client_data_hash: Seq<u8>,
    pub cred_id: Seq<u8>,
}

/// What has been read of the request map so far.
pub ghost struct GaFields {
    pub rp_id: Option<Seq<u8>>,
    pub client_data_hash: Option<Seq<u8>>,
    pub cred_id: Option<Seq<u8>>,
}

/// Reads `n` entries of a credential descriptor: the last `type` and `id`;
/// an `id` must hold exactly 16 bytes.
pub open spec fn descriptor_entries(
    d: Seq<u8>,
    pos: int,
    n: nat,
    ty: Option<Seq<u8>>,
    id: Option<Seq<u8>>,
) -> Result<(Option<Seq<u8>>, Option<Seq<u8>>, int), CtapStatus>
    decreases n,
{
    if n == 0 {
        Ok((ty, id, pos))
    } else {
        match text_at(d, pos) {
            Err(e) => Err(e),
            Ok((k, p)) => if k == KEY_TYPE@ {
                match text_at(d, p) {
                    Err(e) => Err(e),
                    Ok((v, q)) => descriptor_entries(d, q, (n - 1) as nat, Some(v), id),
                }
            } else if k == KEY_ID@ {
                match bytes_at(d, p) {
                    Err(e) => Err(e),
                    Ok((v, q)) => if v.len() != CREDENTIAL_ID_SIZE {
                        Err(CtapStatus::InvalidLength)
                    } else {
                        descriptor_entries(d, q, (n - 1) as nat, ty, Some(v))
                    },
                }
            } else {
                match item_end(d, p) {
                    Err(e) => Err(e),
                    Ok(q) => descriptor_entries(d, q, (n - 1) as nat, ty, id),
                }
            },
        }
    }
}

/// The credential ID of the descriptor at `pos`, whose type must be
/// "public-key", and the position after it.
pub open spec fn descriptor_at(d: Seq<u8>, pos: int) -> Result<(Seq<u8>, int), CtapStatus> {
    match typed_head(d, pos, 5) {
        Err(e) => Err(e),
        Ok((n, p)) => match descriptor_entries(d, p, n, None, None) {
            Err(e) => Err(e),
            Ok((ty, id, q)) => if ty != Some(TEXT_PUBLIC_KEY@) {
                Err(CtapStatus::InvalidParameter)
            } else {
                match id {
                    Some(v) => Ok((v, q)),
                    None => Err(CtapStatus::MissingParameter),
                }
            },
        },
    }
}

/// The credential ID of the first descriptor of the non-empty `allowList` at
/// `pos`, and the position after the list.
pub open spec fn allow_list_at(d: Seq<u8>, pos: int) -> Result<(Seq<u8>, int), CtapStatus> {
    match typed_head(d, pos, 4) {
        Err(e) => Err(e),
        Ok((n, p)) => if n == 0 {
            Err(CtapStatus::MissingParameter)
        } else {
            match descriptor_at(d, p) {
                Err(e) => Err(e),
                Ok((id, q)) => match items_end(d, q, (n - 1) as nat) {
                    Err(e) => Err(e),
                    Ok(r) => Ok((id, r)),
                },
            }
        },
    }
}

/// The 32-byte `clientDataHash` at `pos`, and the position after it.
pub open spec fn client_hash_at(d: Seq<u8>, pos: int) -> Result<(Seq<u8>, int), CtapStatus> {
    match bytes_at(d, pos) {
        Err(e) => Err(e),
        Ok((h, q)) => if h.len() != 32 {
            Err(CtapStatus::InvalidLength)
        } else {
            Ok((h, q))
        },
    }
}

/// Reads `n` entries of the request map, whose keys are unsigned integers.
pub open spec fn ga_entries(d: Seq<u8>, pos: int, n: nat, f: GaFields) -> Result<
    (GaFields, int),
    CtapStatus,
>
    decreases n,
{
    if n == 0 {
        Ok((f, pos))
    } else {
        match uint_at(d, pos) {
            Err(e) => Err(e),
            Ok((key, p)) => if key == 1 {
                match text_at(d, p) {
                    Err(e) => Err(e),
                    Ok((v, q)) => ga_entries(d, q, (n - 1) as nat, GaFields { rp_id: Some(v), ..f }),
                }
            } else if key == 2 {
                match client_hash_at(d, p) {
                    Err(e) => Err(e),
                    Ok((h, q)) => ga_entries(
                        d,
                        q,
                        (n - 1) as nat,
                        GaFields { client_data_hash: Some(h), ..f },
                    ),
                }
            } else if key == 3 {
                match allow_list_at(d, p) {
                    Err(e) => Err(e),
                    Ok((id, q)) => ga_entries(d, q, (n - 1) as nat, GaFields { cred_id: Some(id), ..f }),
                }
            } else {
                match item_end(d, p) {
                    Err(e) => Err(e),
                    Ok(q) => ga_entries(d, q, (n - 1) as nat, f),
                }
            },
        }
    }
}

/// The request encoded at `pos`: a map whose required entries are `rpId`
/// (1), `clientDataHash` (2) and `allowList` (3).
pub open spec fn ga_request_at(d: Seq<u8>, pos: int) -> Result<GaRequest, CtapStatus> {
    match typed_head(d, pos, 5) {
        Err(e) => Err(e),
        Ok((n, p)) => match ga_entries(
            d,
            p,
            n,
            GaFields { rp_id: None, client_data_hash: None, cred_id: None },
        ) {
            Err(e) => Err(e),
            Ok((f, _)) => if f.rp_id is None || f.client_data_hash is None || f.cred_id is None {
                Err(CtapStatus::MissingParameter)
            } else {
                Ok(
                    GaRequest {
                        rp_id: f.rp_id->Some_0,
                        client_data_hash: f.client_data_hash->Some_0,
                        cred_id: f.cred_id->Some_0,
                    },
                )
            },
        },
    }
}

// ---------------------------------------------------------------------------
// Request parsing
// ---------------------------------------------------------------------------

struct ParsedRequest<'a> {
    rp_id: &'a str,
    client_data_hash: [u8; 32],
    allow_cred_id: [u8; CREDENTIAL_ID_SIZE],
}

impl<'a> ParsedRequest<'a> {
    spec fn model(&self) -> GaRequest {
        GaRequest {
            rp_id: self.rp_id.spec_bytes(),
            client_data_hash: self.client_data_hash@,
            cred_id: self.allow_cred_id@,
        }
    }
}

spec fn text_model(o: Option<&str>) -> Option<Seq<u8>> {
    match o {
        Some(s) => Some(s.spec_bytes()),
        None => None,
    }
}

spec fn hash_model(o: Option<[u8; 32]>) -> Option<Seq<u8>> {
    match o {
        Some(h) => Some(h@),
        None => None,
    }
}

spec fn id_model(o: Option<[u8; CREDENTIAL_ID_SIZE]>) -> Option<Seq<u8>> {
    match o {
        Some(h) => Some(h@),
        None => None,
    }
}

fn parse_client_hash(reader: &mut Reader<'_>) -> (r: Result<[u8; 32], CtapStatus>)
    ensures
        final(reader).input() == old(reader).input(),
        match client_hash_at(old(reader).input(), old(reader).pos()) {
            Ok((h, q)) => r is Ok && r->Ok_0@ == h && final(reader).pos() == q,
            Err(e) => r == Err::<[u8; 32], CtapStatus>(e),
        },
{
    let hash = reader.bstr()?;
    if hash.len() != 32 {
        return Err(CtapStatus::InvalidLength);
    }
    let out = array32_at(hash, 0);
    assert(hash@.subrange(0, 32) =~= hash@);
    Ok(out)
}

fn parse_credential_descriptor(reader: &mut Reader<'_>) -> (r: Result<
    [u8; CREDENTIAL_ID_SIZE],
    CtapStatus,
>)
    ensures
        final(reader).input() == old(reader).input(),
        match descriptor_at(old(reader).input(), old(reader).pos()) {
            Ok((id, q)) => r is Ok && r->Ok_0@ == id && final(reader).pos() == q,
            Err(e) => r == Err::<[u8; CREDENTIAL_ID_SIZE], CtapStatus>(e),
        },
{
    let ghost d = reader.input();
    let pairs = reader.map()?;
    let ghost p1 = reader.pos();
    let mut ty: Option<&str> = None;
    let mut id: Option<[u8; CREDENTIAL_ID_SIZE]> = None;
    let mut i: usize = 0;
    while i < pairs
        invariant
            reader.input() == d,
            d == old(reader).input(),
            typed_head(d, old(reader).pos(), 5) == Ok::<(nat, int), CtapStatus>(
                (pairs as nat, p1),
            ),
            i <= pairs,
            descriptor_entries(d, p1, pairs as nat, None, None) == descriptor_entries(
                d,
                reader.pos(),
                (pairs - i) as nat,
                text_model(ty),
                id_model(id),
            ),
        decreases pairs - i,
    {
        let key = reader.tstr()?;
        if bytes_eq(key.as_bytes(), &KEY_TYPE) {
            ty = Some(reader.tstr()?);
        } else if bytes_eq(key.as_bytes(), &KEY_ID) {
            let raw = reader.bstr()?;
            if raw.len() != CREDENTIAL_ID_SIZE {
                return Err(CtapStatus::InvalidLength);
            }
            id = Some(array16_at(raw, 0));
            assert(raw@.subrange(0, 16) =~= raw@);
        } else {
            reader.skip()?;
        }
        i = i + 1;
    }
    let type_ok = match ty {
        Some(t) => bytes_eq(t.as_bytes(), &TEXT_PUBLIC_KEY),
        None => false,
    };
    if !type_ok {
        return Err(CtapStatus::InvalidParameter);
    }
    match id {
        Some(v) => Ok(v),
        None => Err(CtapStatus::MissingParameter),
    }
}

fn parse_allow_list(reader: &mut Reader<'_>) -> (r: Result<[u8; CREDENTIAL_ID_SIZE], CtapStatus>)
    ensures
        final(reader).input() == old(reader).input(),
        match allow_list_at(old(reader).input(), old(reader).pos()) {
            Ok((id, q)) => r is Ok && r->Ok_0@ == id && final(reader).pos() == q,
            Err(e) => r == Err::<[u8; CREDENTIAL_ID_SIZE], CtapStatus>(e),
        },
{
    let ghost d = reader.input();
    let len = reader.array()?;
    let ghost p1 = reader.pos();
    if len == 0 {
        return Err(CtapStatus::MissingParameter);
    }
    let cred_id = parse_credential_descriptor(reader)?;
    let ghost q = reader.pos();
    let mut i: usize = 1;
    while i < len
        invariant
            reader.input() == d,
            d == old(reader).input(),
            typed_head(d, old(reader).pos(), 4) == Ok::<(nat, int), CtapStatus>((len as nat, p1)),
            descriptor_at(d, p1) == Ok::<(Seq<u8>, int), CtapStatus>((cred_id@, q)),
            1 <= i <= len,
            items_end(d, q, (len - 1) as nat) == items_end(d, reader.pos(), (len - i) as nat),
        decreases len - i,
    {
        proof {
            crate::cbor::lemma_item_end_advances(d, reader.pos());
        }
        reader.skip()?;
        i = i + 1;
    }
    Ok(cred_id)
}

fn parse_get_assertion<'a>(reader: &mut Reader<'a>) -> (r: Result<ParsedRequest<'a>, CtapStatus>)
    ensures
        final(reader).input() == old(reader).input(),
        match ga_request_at(old(reader).input(), old(reader).pos()) {
            Ok(req) => r is Ok && r->Ok_0.model() == req,
            Err(e) => r == Err::<ParsedRequest<'a>, CtapStatus>(e),
        },
{
    let ghost d = reader.input();
    let pairs = reader.map()?;
    let ghost p1 = reader.pos();
    let mut rp_id: Option<&str> = None;
    let mut client_data_hash: Option<[u8; 32]> = None;
    let mut allow_cred_id: Option<[u8; CREDENTIAL_ID_SIZE]> = None;
    let mut i: usize = 0;
    while i < pairs
        invariant
            reader.input() == d,
            d == old(reader).input(),
            typed_head(d, old(reader).pos(), 5) == Ok::<(nat, int), CtapStatus>(
                (pairs as nat, p1),
            ),
            i <= pairs,
            ga_entries(
                d,
                p1,
                pairs as nat,
                GaFields { rp_id: None, client_data_hash: None, cred_id: None },
            ) == ga_entries(
                d,
                reader.pos(),
                (pairs - i) as nat,
                GaFields {
                    rp_id: text_model(rp_id),
                    client_data_hash: hash_model(client_data_hash),
                    cred_id: id_model(allow_cred_id),
                },
            ),
        decreases pairs - i,
    {
        let key = reader.u32()?;
        if key == 1 {
            rp_id = Some(reader.tstr()?);
        } else if key == 2 {
            client_data_hash = Some(parse_client_hash(reader)?);
        } else if key == 3 {
            allow_cred_id = Some(parse_allow_list(reader)?);
        } else {
            reader.skip()?;
        }
        i = i + 1;
    }
    let rp_id = match rp_id {
        Some(v) => v,
        None => return Err(CtapStatus::MissingParameter),
    };
    let client_data_hash = match client_data_hash {
        Some(v) => v,
        None => return Err(CtapStatus::MissingParameter),
    };
    let allow_cred_id = match allow_cred_id {
        Some(v) => v,
        None => return Err(CtapStatus::MissingParameter),
    };
    Ok(ParsedRequest { rp_id, client_data_hash, allow_cred_id })
}

// ---------------------------------------------------------------------------
// Assertion
// ---------------------------------------------------------------------------

/// An in-use credential with this ID, registered for this relying party.
pub open spec fn matches_credential(c: Credential, cred_id: Seq<u8>, rp_id_hash: Seq<u8>) -> bool {
    c.in_use && c.cred_id@ == cred_id && c.rp_id_hash@ == rp_id_hash
}

/// The first slot whose credential matches, if any.
pub open spec fn find_index(ctx: CoreCtx, cred_id: Seq<u8>, rp_id_hash: Seq<u8>) -> Option<int> {
    if matches_credential(ctx.credentials[0], cred_id, rp_id_hash) {
        Some(0)
    } else if matches_credential(ctx.credentials[1], cred_id, rp_id_hash) {
        Some(1)
    } else if matches_credential(ctx.credentials[2], cred_id, rp_id_hash) {
        Some(2)
    } else if matches_credential(ctx.credentials[3], cred_id, rp_id_hash) {
        Some(3)
    } else {
        None
    }
}

/// The signature counter after one more assertion: plus one, modulo 2^32.
pub open spec fn next_count(c: u32) -> u32 {
    if c == u32::MAX {
        0
    } else {
        (c + 1) as u32
    }
}

/// authData of an assertion: RP ID hash, the UP flag, the counter (37 bytes).
pub open spec fn assertion_auth_data(rp_id_hash: Seq<u8>, sign_count: u32) -> Seq<u8> {
    rp_id_hash + seq![FLAG_UP] + be32(sign_count as nat)
}

/// The credential descriptor `{ "id": id, "type": "public-key" }`.
pub open spec fn descriptor(cred_id: Seq<u8>) -> Seq<u8> {
    enc_map(2) + enc_text(KEY_ID@) + enc_bytes(cred_id) + enc_text(KEY_TYPE@) + enc_text(
        TEXT_PUBLIC_KEY@,
    )
}

/// The message an assertion with credential `c` signs: its authData
/// followed by the client data hash.
pub open spec fn assertion_message(c: Credential, rp_id_hash: Seq<u8>, client_data_hash: Seq<u8>) -> Seq<u8> {
    assertion_auth_data(rp_id_hash, next_count(c.sign_count)) + client_data_hash
}

/// The response of an assertion with credential `c` and signature `sig`: its
/// descriptor, the authData and the signature.
pub open spec fn assertion_response(
    c: Credential,
    rp_id_hash: Seq<u8>,
    sig: Seq<u8>,
) -> Seq<u8> {
    enc_map(3) + enc_uint(1) + descriptor(c.cred_id@) + enc_uint(2) + enc_bytes(
        assertion_auth_data(rp_id_hash, next_count(c.sign_count)),
    ) + enc_uint(3) + enc_bytes(sig)
}

/// The response of an assertion with credential `c`, for a response buffer
/// of `cap` bytes, or why it fails: `Other` when signing fails,
/// `InvalidLength` when the response does not fit.
pub open spec fn assertion_result(
    c: Credential,
    rp_id_hash: Seq<u8>,
    client_data_hash: Seq<u8>,
    cap: nat,
) -> Result<Seq<u8>, CtapStatus> {
    match es256_signature_of(c.private_key@, assertion_message(c, rp_id_hash, client_data_hash)) {
        None => Err(CtapStatus::Other),
        Some(sig) => if assertion_response(c, rp_id_hash, sig).len() > cap {
            Err(CtapStatus::InvalidLength)
        } else {
            Ok(assertion_response(c, rp_id_hash, sig))
        },
    }
}

/// `new_ctx` is `old_ctx` with the counter of credential `i` advanced, and dirty.
pub open spec fn asserted(old_ctx: CoreCtx, new_ctx: CoreCtx, i: int) -> bool {
    let c = old_ctx.credentials[i];
    &&& new_ctx.initialized == old_ctx.initialized
    &&& new_ctx.dirty
    &&& new_ctx.credentials@ == old_ctx.credentials@.update(
        i,
        Credential { sign_count: next_count(c.sign_count), ..c },
    )
}

/// The effect of completing an assertion with credential `i`: as
/// `assertion_result` says, the store and buffer changing only on success.
pub open spec fn assertion_outcome(
    old_ctx: CoreCtx,
    new_ctx: CoreCtx,
    i: int,
    rp_id_hash: Seq<u8>,
    client_data_hash: Seq<u8>,
    old_out: Seq<u8>,
    new_out: Seq<u8>,
    r: Result<usize, CtapStatus>,
) -> bool {
    match assertion_result(old_ctx.credentials[i], rp_id_hash, client_data_hash, old_out.len()) {
        Err(e) => r == Err::<usize, CtapStatus>(e) && new_ctx == old_ctx && new_out == old_out,
        Ok(resp) => {
            &&& r == Ok::<usize, CtapStatus>(resp.len() as usize)
            &&& asserted(old_ctx, new_ctx, i)
            &&& new_out == resp + old_out.subrange(resp.len() as int, old_out.len() as int)
        },
    }
}

fn find_credential(
    ctx: &CoreCtx,
    cred_id: &[u8; CREDENTIAL_ID_SIZE],
    rp_hash: &[u8; 32],
) -> (r: Result<usize, CtapStatus>)
    ensures
        match find_index(*ctx, cred_id@, rp_hash@) {
            Some(i) => r == Ok::<usize, CtapStatus>(i as usize),
            None => r == Err::<usize, CtapStatus>(CtapStatus::NoCredentials),
        },
{
    let mut i: usize = 0;
    while i < MAX_CREDENTIALS
        invariant
            i <= MAX_CREDENTIALS,
            forall|j: int| 0 <= j < i ==> !matches_credential(ctx.credentials[j], cred_id@, rp_hash@),
        decreases MAX_CREDENTIALS - i,
    {
        let c = &ctx.credentials[i];
        if c.in_use && bytes_eq(&c.cred_id, cred_id) && bytes_eq(&c.rp_id_hash, rp_hash) {
            return Ok(i);
        }
        i = i + 1;
    }
    Err(CtapStatus::NoCredentials)
}

/// Writes an assertion's authData at the start of `out`.
fn build_auth_data(rp_hash: &[u8; 32], sign_count: u32, out: &mut [u8]) -> (r: Result<
    usize,
    CtapStatus,
>)
    ensures
        old(out)@.len() < AUTH_DATA_LEN ==> r == Err::<usize, CtapStatus>(CtapStatus::InvalidLength)
            && final(out)@ == old(out)@,
        old(out)@.len() >= AUTH_DATA_LEN ==> r == Ok::<usize, CtapStatus>(AUTH_DATA_LEN)
            && final(out)@ == assertion_auth_data(rp_hash@, sign_count) + old(out)@.subrange(
            AUTH_DATA_LEN as int,
            old(out)@.len() as int,
        ),
{
    if out.len() < AUTH_DATA_LEN {
        return Err(CtapStatus::InvalidLength);
    }
    copy_prefix(out, rp_hash);
    out[32] = FLAG_UP;
    out[33] = ((sign_count / 0x1000000) % 0x100) as u8;
    out[34] = ((sign_count / 0x10000) % 0x100) as u8;
    out[35] = ((sign_count / 0x100) % 0x100) as u8;
    out[36] = (sign_count % 0x100) as u8;
    assert(out@ =~= assertion_auth_data(rp_hash@, sign_count) + old(out)@.subrange(
        AUTH_DATA_LEN as int,
        old(out)@.len() as int,
    ));
    Ok(AUTH_DATA_LEN)
}

fn encode_credential_descriptor(cred_id: &[u8; CREDENTIAL_ID_SIZE], w: &mut Writer) -> (r: Result<
    (),
    CtapStatus,
>)
    ensures
        final(w).capacity() == old(w).capacity(),
        r is Ok <==> old(w).room_for(descriptor(cred_id@)),
        r is Ok ==> final(w)@ == old(w)@ + descriptor(cred_id@),
        r is Err ==> r == Err::<(), CtapStatus>(CtapStatus::InvalidLength),
{
    // Canonical ordering: shorter key first.
    w.map(2)?;
    w.text(&KEY_ID)?;
    w.bstr(cred_id)?;
    w.text(&KEY_TYPE)?;
    w.text(&TEXT_PUBLIC_KEY)?;
    assert(w@ == old(w)@ + descriptor(cred_id@));
    Ok(())
}

/// Completes an assertion with the credential in slot `index`: advances its
/// counter, signs authData followed by the client data hash, and writes the
/// response at the start of `out`. The store changes only on success.
pub fn complete_assertion(
    ctx: &mut CoreCtx,
    index: usize,
    rp_id_hash: &[u8; 32],
    client_data_hash: &[u8; 32],
    out: &mut [u8],
) -> (r: Result<usize, CtapStatus>)
    requires
        index < MAX_CREDENTIALS,
    ensures
        assertion_outcome(
            *old(ctx),
            *final(ctx),
            index as int,
            rp_id_hash@,
            client_data_hash@,
            old(out)@,
            final(out)@,
            r,
        ),
{
    let cred = ctx.credentials[index];
    let new_sign_count = cred.sign_count.wrapping_add(1);
    assert(new_sign_count == next_count(cred.sign_count));

    let mut signed_data = [0u8; SIG_INPUT_LEN];
    let auth_len = build_auth_data(rp_id_hash, new_sign_count, &mut signed_data)?;
    copy_at(&mut signed_data, auth_len, client_data_hash);
    let auth = vstd::slice::slice_subrange(signed_data.as_slice(), 0, auth_len);
    assert(auth@ =~= assertion_auth_data(rp_id_hash@, new_sign_count));
    assert(signed_data@ =~= assertion_message(cred, rp_id_hash@, client_data_hash@));

    let (sig_buf, sig_len) = match es256_sign(&cred.private_key, signed_data.as_slice()) {
        Some(s) => s,
        None => return Err(CtapStatus::Other),
    };
    let signature = vstd::slice::slice_subrange(sig_buf.as_slice(), 0, sig_len);

    let ghost resp = assertion_response(cred, rp_id_hash@, signature@);
    let mut w = Writer::new(out.len());
    let ghost w0 = w;
    w.map(3)?;
    w.u8(1)?;
    encode_credential_descriptor(&cred.cred_id, &mut w)?;
    w.u8(2)?;
    w.bstr(auth)?;
    w.u8(3)?;
    w.bstr(signature)?;
    assert(w@ == resp);

    ctx.credentials[index].sign_count = new_sign_count;
    ctx.mark_dirty();
    assert(ctx.credentials@ =~= old(ctx).credentials@.update(
        index as int,
        Credential { sign_count: new_sign_count, ..cred },
    ));
    copy_prefix(out, w.as_slice());
    Ok(w.len())
}

/// The effect of `GetAssertion` with request `cbor`, where `prompt` is the
/// host's presence prompt: nothing changes on failure; a request that does
/// not parse, or names no credential of the relying party, fails so; else the
/// prompt is asked once, a refusal gives its status, and an approval
/// completes the assertion with the first matching credential.
pub open spec fn get_assertion_outcome<G: Fn(u32) -> i32>(
    old_ctx: CoreCtx,
    new_ctx: CoreCtx,
    cbor: Seq<u8>,
    old_out: Seq<u8>,
    new_out: Seq<u8>,
    prompt: G,
    r: Result<usize, CtapStatus>,
) -> bool {
    &&& new_out.len() == old_out.len()
    &&& r is Ok ==> r->Ok_0 <= old_out.len()
    &&& r is Err ==> new_ctx == old_ctx && new_out == old_out
    &&& match ga_request_at(cbor, 0) {
        Err(e) => r == Err::<usize, CtapStatus>(e),
        Ok(req) => {
            let h = sha256_of(req.rp_id);
            &&& (r == Err::<usize, CtapStatus>(CtapStatus::NoCredentials) <==> find_index(
                old_ctx,
                req.cred_id,
                h,
            ) is None)
            &&& find_index(old_ctx, req.cred_id, h) is Some ==> exists|rc: i32|
                call_ensures(prompt, (USER_PRESENCE_TIMEOUT_MS,), rc) && match presence_outcome(
                    rc,
                ) {
                    Err(e) => r == Err::<usize, CtapStatus>(e),
                    Ok(_) => assertion_outcome(
                        old_ctx,
                        new_ctx,
                        find_index(old_ctx, req.cred_id, h)->Some_0,
                        h,
                        req.client_data_hash,
                        old_out,
                        new_out,
                        r,
                    ),
                }
        },
    }
}

/// A successful `GetAssertion` advanced the counter of the first credential
/// that matches the request by one, modulo 2^32, and answered with that
/// credential's descriptor, the authData carrying the new counter, and the
/// signature of authData followed by the client data hash.
pub proof fn lemma_asserted<G: Fn(u32) -> i32>(
    old_ctx: CoreCtx,
    new_ctx: CoreCtx,
    cbor: Seq<u8>,
    old_out: Seq<u8>,
    new_out: Seq<u8>,
    prompt: G,
    r: Result<usize, CtapStatus>,
)
    requires
        get_assertion_outcome(old_ctx, new_ctx, cbor, old_out, new_out, prompt, r),
        r is Ok,
    ensures
        ga_request_at(cbor, 0) is Ok,
        ({
            let req = ga_request_at(cbor, 0)->Ok_0;
            let found = find_index(old_ctx, req.cred_id, sha256_of(req.rp_id));
            let h = sha256_of(req.rp_id);
            let c = old_ctx.credentials[found->Some_0];
            let sig = es256_signature_of(
                c.private_key@,
                assertion_message(c, h, req.client_data_hash),
            );
            let resp = assertion_response(c, h, sig->Some_0);
            &&& found is Some
            &&& asserted(old_ctx, new_ctx, found->Some_0)
            &&& new_ctx.credentials[found->Some_0].sign_count == (c.sign_count + 1) % 0x1_0000_0000
            &&& assertion_auth_data(h, new_ctx.credentials[found->Some_0].sign_count)
                == h + seq![FLAG_UP] + be32(((c.sign_count + 1) % 0x1_0000_0000) as nat)
            &&& sig is Some
            &&& r->Ok_0 == resp.len() as usize
            &&& new_out == resp + old_out.subrange(resp.len() as int, old_out.len() as int)
        }),
{
    let req = ga_request_at(cbor, 0)->Ok_0;
    let h = sha256_of(req.rp_id);
    let i = find_index(old_ctx, req.cred_id, h)->Some_0;
    let rc = choose|rc: i32|
        call_ensures(prompt, (USER_PRESENCE_TIMEOUT_MS,), rc) && match presence_outcome(rc) {
            Err(e) => r == Err::<usize, CtapStatus>(e),
            Ok(_) => assertion_outcome(
                old_ctx,
                new_ctx,
                i,
                h,
                req.client_data_hash,
                old_out,
                new_out,
                r,
            ),
        };
    lemma_sign_count_advances(old_ctx, new_ctx, i);
}

/// `GetAssertion`: parses the request, locates the credential for the
/// relying party, asks the presence prompt, and completes the assertion. On any
/// failure the store and the response buffer are left as they were.
#[verifier::spinoff_prover]
pub fn handle<G: Fn(u32) -> i32>(
    ctx: &mut CoreCtx,
    cbor_req: &[u8],
    out: &mut [u8],
    presence: &G,
) -> (r: Result<usize, CtapStatus>)
    requires
        call_requires(*presence, (USER_PRESENCE_TIMEOUT_MS,)),
    ensures
        get_assertion_outcome(*old(ctx), *final(ctx), cbor_req@, old(out)@, final(out)@, *presence, r),
{
    let mut reader = Reader::new(cbor_req);
    let req = parse_get_assertion(&mut reader)?;
    let rp_hash = sha256(req.rp_id.as_bytes());
    let index = find_credential(ctx, &req.allow_cred_id, &rp_hash)?;

    let answer = require_user_presence(presence);
    let ghost rc = choose|rc: i32|
        call_ensures(*presence, (USER_PRESENCE_TIMEOUT_MS,), rc) && answer == presence_outcome(rc);
    answer?;

    let r = complete_assertion(ctx, index, &rp_hash, &req.client_data_hash, out);
    assert(out@.len() == out.len());
    r
}

/// Each successful assertion advances the counter of the credential used by
/// one, modulo 2^32, and leaves every other slot as it was.
pub proof fn lemma_sign_count_advances(old_ctx: CoreCtx, new_ctx: CoreCtx, i: int)
    requires
        0 <= i < MAX_CREDENTIALS,
        asserted(old_ctx, new_ctx, i),
    ensures
        new_ctx.credentials[i].sign_count == (old_ctx.credentials[i].sign_count + 1) % 0x1_0000_0000,
        forall|j: int|
            0 <= j < MAX_CREDENTIALS && j != i ==> new_ctx.credentials[j] == old_ctx.credentials[j],
{
    assert(new_ctx.credentials@[i].sign_count == next_count(old_ctx.credentials[i].sign_count));
    assert forall|j: int| 0 <= j < MAX_CREDENTIALS && j != i implies new_ctx.credentials[j]
        == old_ctx.credentials[j] by {
        assert(new_ctx.credentials@[j] == old_ctx.credentials@[j]);
    }
}

} // verus!
