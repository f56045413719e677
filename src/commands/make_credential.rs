use vstd::prelude::*;
use vstd::string::StringSliceAdditionalSpecFns;

use crate::bytes::{array32_at, be16, be32, bytes_eq, copy_at, copy_prefix};
use crate::cbor::{
    bool_at, bytes_at, enc_bytes, enc_map, enc_nint, enc_text, enc_uint, item_end, nint_at, text_at,
    typed_head, uint_at, Reader, Writer,
};
use crate::constants::{
    AAGUID, ES256_ALG, KEY_ALG, KEY_ID, KEY_RK, KEY_TYPE, KEY_UP, KEY_UV, TEXT_NONE,
    TEXT_PUBLIC_KEY,
};
use crate::core_api::{zeros, CoreCtx, Credential, CREDENTIAL_ID_SIZE, MAX_USER_ID_SIZE};
use crate::crypto::{
    fill_random, p256_public_key_of, public_key_xy, sha256, sha256_of, valid_private_key,
};
use crate::user_presence::{presence_outcome, require_user_presence, USER_PRESENCE_TIMEOUT_MS};
use crate::status::CtapStatus;

verus! {

// ---------------------------------------------------------------------------
// Request model
// ---------------------------------------------------------------------------

/// The `options` of a request.
pub ghost struct McOptions {
    pub up: bool,
    pub uv: bool,
    pub rk: bool,
}

/// Options a request has when it names none.
pub open spec fn default_options() -> McOptions {
    McOptions { up: true, uv: false, rk: false }
}

/// A well-formed `MakeCredential` request.
pub ghost struct McRequest {
    pub rp_id: Seq<u8>,
    pub user_id: Seq<u8>,
    pub client_data_hash: Seq<u8>,
    pub options: McOptions,
}

/// What has been read of the request map so far.
pub ghost struct McFields {
    pub rp_id: Option<Seq<u8>>,
    pub user_id: Option<Seq<u8>>,
    pub client_data_hash: Option<Seq<u8>>,
    pub alg_ok: Option<bool>,
    pub options: McOptions,
}

/// The `id` of the `rp` map at `pos`, and the position after the map.
pub open spec fn rp_at(d: Seq<u8>, pos: int) -> Result<(Seq<u8>, int), CtapStatus> {
    match typed_head(d, pos, 5) {
        Err(e) => Err(e),
        Ok((n, p)) => match rp_entries(d, p, n, None) {
            Err(e) => Err(e),
            Ok((id, q)) => match id {
                Some(v) => Ok((v, q)),
                None => Err(CtapStatus::MissingParameter),
            },
        },
    }
}

/// Reads `n` entries of the `rp` map; the last `id` counts, other keys are skipped.
pub open spec fn rp_entries(d: Seq<u8>, pos: int, n: nat, id: Option<Seq<u8>>) -> Result<
    (Option<Seq<u8>>, int),
    CtapStatus,
>
    decreases n,
{
    if n == 0 {
        Ok((id, pos))
    } else {
        match text_at(d, pos) {
            Err(e) => Err(e),
            Ok((k, p)) => if k == KEY_ID@ {
                match text_at(d, p) {
                    Err(e) => Err(e),
                    Ok((v, q)) => rp_entries(d, q, (n - 1) as nat, Some(v)),
                }
            } else {
                match item_end(d, p) {
                    Err(e) => Err(e),
                    Ok(q) => rp_entries(d, q, (n - 1) as nat, id),
                }
            },
        }
    }
}

/// The `id` of the `user` map at `pos`, and the position after the map.
pub open spec fn user_at(d: Seq<u8>, pos: int) -> Result<(Seq<u8>, int), CtapStatus> {
    match typed_head(d, pos, 5) {
        Err(e) => Err(e),
        Ok((n, p)) => match user_entries(d, p, n, None) {
            Err(e) => Err(e),
            Ok((id, q)) => match id {
                Some(v) => Ok((v, q)),
                None => Err(CtapStatus::MissingParameter),
            },
        },
    }
}

/// Reads `n` entries of the `user` map; an `id` must hold 1 to 32 bytes.
pub open spec fn user_entries(d: Seq<u8>, pos: int, n: nat, id: Option<Seq<u8>>) -> Result<
    (Option<Seq<u8>>, int),
    CtapStatus,
>
    decreases n,
{
    if n == 0 {
        Ok((id, pos))
    } else {
        match text_at(d, pos) {
            Err(e) => Err(e),
            Ok((k, p)) => if k == KEY_ID@ {
                match bytes_at(d, p) {
                    Err(e) => Err(e),
                    Ok((v, q)) => if v.len() == 0 || v.len() > MAX_USER_ID_SIZE {
                        Err(CtapStatus::InvalidLength)
                    } else {
                        user_entries(d, q, (n - 1) as nat, Some(v))
                    },
                }
            } else {
                match item_end(d, p) {
                    Err(e) => Err(e),
                    Ok(q) => user_entries(d, q, (n - 1) as nat, id),
                }
            },
        }
    }
}

/// Reads `n` entries of one `pubKeyCredParams` map: the last `alg` and `type`.
pub open spec fn param_entries(
    d: Seq<u8>,
    pos: int,
    n: nat,
    alg: Option<int>,
    ty: Option<Seq<u8>>,
) -> Result<(Option<int>, Option<Seq<u8>>, int), CtapStatus>
    decreases n,
{
    if n == 0 {
        Ok((alg, ty, pos))
    } else {
        match text_at(d, pos) {
            Err(e) => Err(e),
            Ok((k, p)) => if k == KEY_ALG@ {
                match nint_at(d, p) {
                    Err(e) => Err(e),
                    Ok((v, q)) => param_entries(d, q, (n - 1) as nat, Some(v), ty),
                }
            } else if k == KEY_TYPE@ {
                match text_at(d, p) {
                    Err(e) => Err(e),
                    Ok((v, q)) => param_entries(d, q, (n - 1) as nat, alg, Some(v)),
                }
            } else {
                match item_end(d, p) {
                    Err(e) => Err(e),
                    Ok(q) => param_entries(d, q, (n - 1) as nat, alg, ty),
                }
            },
        }
    }
}

/// Whether the `pubKeyCredParams` entry at `pos` offers ES256 public keys,
/// and the position after it.
pub open spec fn param_at(d: Seq<u8>, pos: int) -> Result<(bool, int), CtapStatus> {
    match typed_head(d, pos, 5) {
        Err(e) => Err(e),
        Ok((n, p)) => match param_entries(d, p, n, None, None) {
            Err(e) => Err(e),
            Ok((alg, ty, q)) => Ok(
                (alg == Some(ES256_ALG as int) && ty == Some(TEXT_PUBLIC_KEY@), q),
            ),
        },
    }
}

/// Reads `n` entries of `pubKeyCredParams`; `found` records an ES256 offer.
pub open spec fn params_items(d: Seq<u8>, pos: int, n: nat, found: bool) -> Result<
    (bool, int),
    CtapStatus,
>
    decreases n,
{
    if n == 0 {
        Ok((found, pos))
    } else {
        match param_at(d, pos) {
            Err(e) => Err(e),
            Ok((f, q)) => params_items(d, q, (n - 1) as nat, found || f),
        }
    }
}

/// Whether the `pubKeyCredParams` array at `pos` offers ES256, and the
/// position after it.
pub open spec fn pubkey_params_at(d: Seq<u8>, pos: int) -> Result<(bool, int), CtapStatus> {
    match typed_head(d, pos, 4) {
        Err(e) => Err(e),
        Ok((n, p)) => params_items(d, p, n, false),
    }
}

/// Reads `n` entries of the `options` map.
pub open spec fn option_entries(d: Seq<u8>, pos: int, n: nat, o: McOptions) -> Result<
    (McOptions, int),
    CtapStatus,
>
    decreases n,
{
    if n == 0 {
        Ok((o, pos))
    } else {
        match text_at(d, pos) {
            Err(e) => Err(e),
            Ok((k, p)) => if k == KEY_UP@ || k == KEY_UV@ || k == KEY_RK@ {
                match bool_at(d, p) {
                    Err(e) => Err(e),
                    Ok((v, q)) => option_entries(
                        d,
                        q,
                        (n - 1) as nat,
                        if k == KEY_UP@ {
                            McOptions { up: v, ..o }
                        } else if k == KEY_UV@ {
                            McOptions { uv: v, ..o }
                        } else {
                            McOptions { rk: v, ..o }
                        },
                    ),
                }
            } else {
                match item_end(d, p) {
                    Err(e) => Err(e),
                    Ok(q) => option_entries(d, q, (n - 1) as nat, o),
                }
            },
        }
    }
}

/// The `options` map at `pos`, and the position after it.
pub open spec fn options_at(d: Seq<u8>, pos: int) -> Result<(McOptions, int), CtapStatus> {
    match typed_head(d, pos, 5) {
        Err(e) => Err(e),
        Ok((n, p)) => option_entries(d, p, n, default_options()),
    }
}

/// Reads `n` entries of the request map, whose keys are unsigned integers.
pub open spec fn mc_entries(d: Seq<u8>, pos: int, n: nat, f: McFields) -> Result<
    (McFields, int),
    CtapStatus,
>
    decreases n,
{
    if n == 0 {
        Ok((f, pos))
    } else {
        match uint_at(d, pos) {
            Err(e) => Err(e),
            Ok((key, p)) => if key == 1 {
                match bytes_at(d, p) {
                    Err(e) => Err(e),
                    Ok((h, q)) => if h.len() != 32 {
                        Err(CtapStatus::InvalidLength)
                    } else {
                        mc_entries(d, q, (n - 1) as nat, McFields { client_data_hash: Some(h), ..f })
                    },
                }
            } else if key == 2 {
                match rp_at(d, p) {
                    Err(e) => Err(e),
                    Ok((v, q)) => mc_entries(d, q, (n - 1) as nat, McFields { rp_id: Some(v), ..f }),
                }
            } else if key == 3 {
                match user_at(d, p) {
                    Err(e) => Err(e),
                    Ok((v, q)) => mc_entries(d, q, (n - 1) as nat, McFields { user_id: Some(v), ..f }),
                }
            } else if key == 4 {
                match pubkey_params_at(d, p) {
                    Err(e) => Err(e),
                    Ok((v, q)) => mc_entries(d, q, (n - 1) as nat, McFields { alg_ok: Some(v), ..f }),
                }
            } else if key == 7 {
                match options_at(d, p) {
                    Err(e) => Err(e),
                    Ok((o, q)) => mc_entries(d, q, (n - 1) as nat, McFields { options: o, ..f }),
                }
            } else {
                match item_end(d, p) {
                    Err(e) => Err(e),
                    Ok(q) => mc_entries(d, q, (n - 1) as nat, f),
                }
            },
        }
    }
}

/// Nothing read yet.
pub open spec fn no_fields() -> McFields {
    McFields {
        rp_id: None,
        user_id: None,
        client_data_hash: None,
        alg_ok: None,
        options: default_options(),
    }
}

/// The request encoded at `pos`: a map whose required entries are
/// `clientDataHash` (1), `rp` (2), `user` (3) and `pubKeyCredParams` (4),
/// the last of which must offer ES256.
pub open spec fn mc_request_at(d: Seq<u8>, pos: int) -> Result<McRequest, CtapStatus> {
    match typed_head(d, pos, 5) {
        Err(e) => Err(e),
        Ok((n, p)) => match mc_entries(d, p, n, no_fields()) {
            Err(e) => Err(e),
            Ok((f, _)) => if f.rp_id is None || f.user_id is None || f.client_data_hash is None
                || f.alg_ok is None {
                Err(CtapStatus::MissingParameter)
            } else if f.alg_ok == Some(false) {
                Err(CtapStatus::UnsupportedAlgorithm)
            } else {
                Ok(
                    McRequest {
                        rp_id: f.rp_id->Some_0,
                        user_id: f.user_id->Some_0,
                        client_data_hash: f.client_data_hash->Some_0,
                        options: f.options,
                    },
                )
            },
        },
    }
}

// ---------------------------------------------------------------------------
// Request parsing
// ---------------------------------------------------------------------------

struct Options {
    up: bool,
    uv: bool,
    rk: bool,
}

impl Options {
    spec fn model(&self) -> McOptions {
        McOptions { up: self.up, uv: self.uv, rk: self.rk }
    }
}

struct ParsedRequest<'a> {
    rp_id: &'a str,
    user_id: [u8; MAX_USER_ID_SIZE],
    user_id_len: u8,
    client_data_hash: [u8; 32],
    up: bool,
    uv: bool,
    rk: bool,
}

impl<'a> ParsedRequest<'a> {
    spec fn model(&self) -> McRequest {
        McRequest {
            rp_id: self.rp_id.spec_bytes(),
            user_id: self.user_id@.subrange(0, self.user_id_len as int),
            client_data_hash: self.client_data_hash@,
            options: McOptions { up: self.up, uv: self.uv, rk: self.rk },
        }
    }
}

/// A user handle of 1 to 32 bytes, zero-padded to the array.
spec fn padded_user_id(len: u8, buf: [u8; MAX_USER_ID_SIZE]) -> bool {
    &&& 1 <= len <= MAX_USER_ID_SIZE
    &&& buf@ == buf@.subrange(0, len as int) + zeros((MAX_USER_ID_SIZE - len) as nat)
}

spec fn text_model(o: Option<&str>) -> Option<Seq<u8>> {
    match o {
        Some(s) => Some(s.spec_bytes()),
        None => None,
    }
}

spec fn user_model(o: Option<(u8, [u8; MAX_USER_ID_SIZE])>) -> Option<Seq<u8>> {
    match o {
        Some((n, b)) => Some(b@.subrange(0, n as int)),
        None => None,
    }
}

spec fn user_ok(o: Option<(u8, [u8; MAX_USER_ID_SIZE])>) -> bool {
    match o {
        Some((n, b)) => padded_user_id(n, b),
        None => true,
    }
}

spec fn hash_model(o: Option<[u8; 32]>) -> Option<Seq<u8>> {
    match o {
        Some(h) => Some(h@),
        None => None,
    }
}

spec fn alg_model(o: Option<i32>) -> Option<int> {
    match o {
        Some(a) => Some(a as int),
        None => None,
    }
}

fn parse_rp<'a>(reader: &mut Reader<'a>) -> (r: Result<&'a str, CtapStatus>)
    ensures
        final(reader).input() == old(reader).input(),
        match rp_at(old(reader).input(), old(reader).pos()) {
            Ok((v, q)) => r is Ok && r->Ok_0.spec_bytes() == v && final(reader).pos() == q,
            Err(e) => r == Err::<&'a str, CtapStatus>(e),
        },
{
    let ghost d = reader.input();
    let len = reader.map()?;
    let ghost p1 = reader.pos();
    let mut id: Option<&'a str> = None;
    let mut i: usize = 0;
    while i < len
        invariant
            reader.input() == d,
            d == old(reader).input(),
            typed_head(d, old(reader).pos(), 5) == Ok::<(nat, int), CtapStatus>((len as nat, p1)),
            i <= len,
            rp_entries(d, p1, len as nat, None) == rp_entries(
                d,
                reader.pos(),
                (len - i) as nat,
                text_model(id),
            ),
        decreases len - i,
    {
        let key = reader.tstr()?;
        if bytes_eq(key.as_bytes(), &KEY_ID) {
            id = Some(reader.tstr()?);
        } else {
            reader.skip()?;
        }
        i = i + 1;
    }
    match id {
        Some(v) => Ok(v),
        None => Err(CtapStatus::MissingParameter),
    }
}

fn parse_user(reader: &mut Reader<'_>) -> (r: Result<(u8, [u8; MAX_USER_ID_SIZE]), CtapStatus>)
    ensures
        final(reader).input() == old(reader).input(),
        match user_at(old(reader).input(), old(reader).pos()) {
            Ok((v, q)) => r is Ok && padded_user_id(r->Ok_0.0, r->Ok_0.1) && r->Ok_0.1@.subrange(
                0,
                r->Ok_0.0 as int,
            ) == v && final(reader).pos() == q,
            Err(e) => r == Err::<(u8, [u8; MAX_USER_ID_SIZE]), CtapStatus>(e),
        },
{
    let ghost d = reader.input();
    let len = reader.map()?;
    let ghost p1 = reader.pos();
    let mut id: Option<(u8, [u8; MAX_USER_ID_SIZE])> = None;
    let mut i: usize = 0;
    while i < len
        invariant
            reader.input() == d,
            d == old(reader).input(),
            typed_head(d, old(reader).pos(), 5) == Ok::<(nat, int), CtapStatus>((len as nat, p1)),
            i <= len,
            user_ok(id),
            user_entries(d, p1, len as nat, None) == user_entries(
                d,
                reader.pos(),
                (len - i) as nat,
                user_model(id),
            ),
        decreases len - i,
    {
        let key = reader.tstr()?;
        if bytes_eq(key.as_bytes(), &KEY_ID) {
            let val = reader.bstr()?;
            if val.len() == 0 || val.len() > MAX_USER_ID_SIZE {
                return Err(CtapStatus::InvalidLength);
            }
            let mut buf = [0u8; MAX_USER_ID_SIZE];
            assert(buf@ =~= zeros(32));
            copy_prefix(&mut buf, val);
            assert(buf@.subrange(0, val@.len() as int) =~= val@);
            assert(buf@ =~= buf@.subrange(0, val@.len() as int) + zeros((32 - val@.len()) as nat));
            id = Some((val.len() as u8, buf));
        } else {
            reader.skip()?;
        }
        i = i + 1;
    }
    match id {
        Some(v) => Ok(v),
        None => Err(CtapStatus::MissingParameter),
    }
}

fn parse_pubkey_param(reader: &mut Reader<'_>) -> (r: Result<bool, CtapStatus>)
    ensures
        final(reader).input() == old(reader).input(),
        match param_at(old(reader).input(), old(reader).pos()) {
            Ok((f, q)) => r == Ok::<bool, CtapStatus>(f) && final(reader).pos() == q,
            Err(e) => r == Err::<bool, CtapStatus>(e),
        },
{
    let ghost d = reader.input();
    let map_len = reader.map()?;
    let ghost p1 = reader.pos();
    let mut alg: Option<i32> = None;
    let mut ty: Option<&str> = None;
    let mut j: usize = 0;
    while j < map_len
        invariant
            reader.input() == d,
            d == old(reader).input(),
            typed_head(d, old(reader).pos(), 5) == Ok::<(nat, int), CtapStatus>(
                (map_len as nat, p1),
            ),
            j <= map_len,
            param_entries(d, p1, map_len as nat, None, None) == param_entries(
                d,
                reader.pos(),
                (map_len - j) as nat,
                alg_model(alg),
                text_model(ty),
            ),
        decreases map_len - j,
    {
        let key = reader.tstr()?;
        if bytes_eq(key.as_bytes(), &KEY_ALG) {
            alg = Some(reader.nint()?);
        } else if bytes_eq(key.as_bytes(), &KEY_TYPE) {
            ty = Some(reader.tstr()?);
        } else {
            reader.skip()?;
        }
        j = j + 1;
    }
    let alg_ok = match alg {
        Some(a) => a == ES256_ALG,
        None => false,
    };
    let ty_ok = match ty {
        Some(t) => bytes_eq(t.as_bytes(), &TEXT_PUBLIC_KEY),
        None => false,
    };
    Ok(alg_ok && ty_ok)
}

fn parse_pubkey_params(reader: &mut Reader<'_>) -> (r: Result<bool, CtapStatus>)
    ensures
        final(reader).input() == old(reader).input(),
        match pubkey_params_at(old(reader).input(), old(reader).pos()) {
            Ok((f, q)) => r == Ok::<bool, CtapStatus>(f) && final(reader).pos() == q,
            Err(e) => r == Err::<bool, CtapStatus>(e),
        },
{
    let ghost d = reader.input();
    let len = reader.array()?;
    let ghost p1 = reader.pos();
    let mut found = false;
    let mut i: usize = 0;
    while i < len
        invariant
            reader.input() == d,
            d == old(reader).input(),
            typed_head(d, old(reader).pos(), 4) == Ok::<(nat, int), CtapStatus>((len as nat, p1)),
            i <= len,
            params_items(d, p1, len as nat, false) == params_items(
                d,
                reader.pos(),
                (len - i) as nat,
                found,
            ),
        decreases len - i,
    {
        if parse_pubkey_param(reader)? {
            found = true;
        }
        i = i + 1;
    }
    Ok(found)
}

fn parse_options(reader: &mut Reader<'_>) -> (r: Result<Options, CtapStatus>)
    ensures
        final(reader).input() == old(reader).input(),
        match options_at(old(reader).input(), old(reader).pos()) {
            Ok((o, q)) => r is Ok && r->Ok_0.model() == o && final(reader).pos() == q,
            Err(e) => r == Err::<Options, CtapStatus>(e),
        },
{
    let ghost d = reader.input();
    let len = reader.map()?;
    let ghost p1 = reader.pos();
    let mut opts = Options { up: true, uv: false, rk: false };
    let mut i: usize = 0;
    while i < len
        invariant
            reader.input() == d,
            d == old(reader).input(),
            typed_head(d, old(reader).pos(), 5) == Ok::<(nat, int), CtapStatus>((len as nat, p1)),
            i <= len,
            option_entries(d, p1, len as nat, default_options()) == option_entries(
                d,
                reader.pos(),
                (len - i) as nat,
                opts.model(),
            ),
        decreases len - i,
    {
        let key = reader.tstr()?;
        if bytes_eq(key.as_bytes(), &KEY_UP) {
            opts.up = reader.bool()?;
        } else if bytes_eq(key.as_bytes(), &KEY_UV) {
            opts.uv = reader.bool()?;
        } else if bytes_eq(key.as_bytes(), &KEY_RK) {
            opts.rk = reader.bool()?;
        } else {
            reader.skip()?;
        }
        i = i + 1;
    }
    Ok(opts)
}

spec fn fields_model(
    rp_id: Option<&str>,
    user: Option<(u8, [u8; MAX_USER_ID_SIZE])>,
    client_hash: Option<[u8; 32]>,
    alg_ok: Option<bool>,
    opts: Options,
) -> McFields {
    McFields {
        rp_id: text_model(rp_id),
        user_id: user_model(user),
        client_data_hash: hash_model(client_hash),
        alg_ok,
        options: opts.model(),
    }
}

fn parse_make_credential<'a>(reader: &mut Reader<'a>) -> (r: Result<ParsedRequest<'a>, CtapStatus>)
    ensures
        final(reader).input() == old(reader).input(),
        match mc_request_at(old(reader).input(), old(reader).pos()) {
            Ok(req) => r is Ok && r->Ok_0.model() == req && padded_user_id(
                r->Ok_0.user_id_len,
                r->Ok_0.user_id,
            ),
            Err(e) => r == Err::<ParsedRequest<'a>, CtapStatus>(e),
        },
{
    let ghost d = reader.input();
    let pairs = reader.map()?;
    let ghost p1 = reader.pos();
    let mut rp_id: Option<&str> = None;
    let mut user: Option<(u8, [u8; MAX_USER_ID_SIZE])> = None;
    let mut client_hash: Option<[u8; 32]> = None;
    let mut alg_ok: Option<bool> = None;
    let mut opts = Options { up: true, uv: false, rk: false };
    let mut i: usize = 0;
    while i < pairs
        invariant
            reader.input() == d,
            d == old(reader).input(),
            typed_head(d, old(reader).pos(), 5) == Ok::<(nat, int), CtapStatus>(
                (pairs as nat, p1),
            ),
            i <= pairs,
            user_ok(user),
            mc_entries(d, p1, pairs as nat, no_fields()) == mc_entries(
                d,
                reader.pos(),
                (pairs - i) as nat,
                fields_model(rp_id, user, client_hash, alg_ok, opts),
            ),
        decreases pairs - i,
    {
        let key = reader.u32()?;
        if key == 1 {
            let hash = reader.bstr()?;
            if hash.len() != 32 {
                return Err(CtapStatus::InvalidLength);
            }
            client_hash = Some(array32_at(hash, 0));
            assert(hash@.subrange(0, 32) =~= hash@);
        } else if key == 2 {
            rp_id = Some(parse_rp(reader)?);
        } else if key == 3 {
            user = Some(parse_user(reader)?);
        } else if key == 4 {
            alg_ok = Some(parse_pubkey_params(reader)?);
        } else if key == 7 {
            opts = parse_options(reader)?;
        } else {
            reader.skip()?;
        }
        i = i + 1;
    }
    let rp_id = match rp_id {
        Some(v) => v,
        None => return Err(CtapStatus::MissingParameter),
    };
    let (user_id_len, user_id) = match user {
        Some(u) => u,
        None => return Err(CtapStatus::MissingParameter),
    };
    let client_data_hash = match client_hash {
        Some(h) => h,
        None => return Err(CtapStatus::MissingParameter),
    };
    match alg_ok {
        Some(true) => {},
        Some(false) => return Err(CtapStatus::UnsupportedAlgorithm),
        None => return Err(CtapStatus::MissingParameter),
    }
    Ok(
        ParsedRequest {
            rp_id,
            user_id,
            user_id_len,
            client_data_hash,
            up: opts.up,
            uv: opts.uv,
            rk: opts.rk,
        },
    )
}

// ---------------------------------------------------------------------------
// Registration
// ---------------------------------------------------------------------------

/// User present.
pub const FLAG_UP: u8 = 0x01;

/// User verified.
pub const FLAG_UV: u8 = 0x04;

/// Attested credential data included.
pub const FLAG_AT: u8 = 0x40;

/// Flags of a registration's authData: AT and UP, and UV when the request
/// asked for user verification.
pub open spec fn mc_flags(uv: bool) -> u8 {
    if uv {
        0x45
    } else {
        0x41
    }
}

/// COSE_Key of an EC2 P-256 ES256 public key with coordinates `x` and `y`,
/// keys in the order 1, 3, -1, -2, -3.
pub open spec fn cose_key(x: Seq<u8>, y: Seq<u8>) -> Seq<u8> {
    enc_map(5) + enc_uint(1) + enc_uint(2) + enc_uint(3) + enc_nint(ES256_ALG as int) + enc_nint(-1)
        + enc_uint(1) + enc_nint(-2) + enc_bytes(x) + enc_nint(-3) + enc_bytes(y)
}

/// authData with attested credential data.
pub open spec fn attested_auth_data(
    rp_id_hash: Seq<u8>,
    flags: u8,
    sign_count: u32,
    cred_id: Seq<u8>,
    cose_pub_key: Seq<u8>,
) -> Seq<u8> {
    rp_id_hash + seq![flags] + be32(sign_count as nat) + AAGUID@ + be16(cred_id.len()) + cred_id
        + cose_pub_key
}

/// The authData of a new credential with private key `key` and ID `cred_id`.
pub open spec fn mc_auth_data(rp_id_hash: Seq<u8>, uv: bool, cred_id: Seq<u8>, key: Seq<u8>) -> Seq<
    u8,
> {
    let xy = p256_public_key_of(key);
    attested_auth_data(
        rp_id_hash,
        mc_flags(uv),
        0,
        cred_id,
        cose_key(xy.subrange(0, 32), xy.subrange(32, 64)),
    )
}

/// The attestation object: format "none", the authData, an empty statement.
pub open spec fn mc_response(auth_data: Seq<u8>) -> Seq<u8> {
    enc_map(3) + enc_uint(1) + enc_text(TEXT_NONE@) + enc_uint(2) + enc_bytes(auth_data) + enc_uint(3)
        + enc_map(0)
}

/// The response of registering a credential in `ctx`, for a response buffer
/// of `cap` bytes, or why it fails.
pub open spec fn registration(
    ctx: CoreCtx,
    rp_id_hash: Seq<u8>,
    uv: bool,
    key: Seq<u8>,
    cred_id: Seq<u8>,
    cap: nat,
) -> Result<Seq<u8>, CtapStatus> {
    if ctx.first_free() is None {
        Err(CtapStatus::KeyStoreFull)
    } else if !valid_private_key(key) {
        Err(CtapStatus::Other)
    } else if mc_response(mc_auth_data(rp_id_hash, uv, cred_id, key)).len() > cap {
        Err(CtapStatus::InvalidLength)
    } else {
        Ok(mc_response(mc_auth_data(rp_id_hash, uv, cred_id, key)))
    }
}

/// A freshly made credential.
pub open spec fn is_new_credential(
    c: Credential,
    rp_id_hash: Seq<u8>,
    user_id: Seq<u8>,
    cred_id: Seq<u8>,
    key: Seq<u8>,
) -> bool {
    &&& c.in_use
    &&& c.sign_count == 0
    &&& c.rp_id_hash@ == rp_id_hash
    &&& c.cred_id@ == cred_id
    &&& c.user_id_len == user_id.len()
    &&& c.user_id@ == user_id + zeros((MAX_USER_ID_SIZE - user_id.len()) as nat)
    &&& c.private_key@ == key
}

/// `new_ctx` is `old_ctx` with a new credential in its first free slot, and dirty.
pub open spec fn registered(
    old_ctx: CoreCtx,
    new_ctx: CoreCtx,
    rp_id_hash: Seq<u8>,
    user_id: Seq<u8>,
    key: Seq<u8>,
    cred_id: Seq<u8>,
) -> bool {
    let i = old_ctx.first_free()->Some_0;
    &&& new_ctx.initialized == old_ctx.initialized
    &&& new_ctx.dirty
    &&& new_ctx.credentials@ == old_ctx.credentials@.update(i, new_ctx.credentials[i])
    &&& is_new_credential(new_ctx.credentials[i], rp_id_hash, user_id, cred_id, key)
}

fn build_flags(uv: bool) -> (flags: u8)
    ensures
        flags == mc_flags(uv),
{
    // User presence is asserted whenever a credential is made.
    let mut flags: u8 = FLAG_AT | FLAG_UP;
    assert(FLAG_AT | FLAG_UP == 0x41u8) by (bit_vector);
    if uv {
        assert(0x41u8 | FLAG_UV == 0x45u8) by (bit_vector);
        flags = flags | FLAG_UV;
    }
    flags
}

/// Writes authData with attested credential data at the start of `out`.
fn build_auth_data(
    rp_id_hash: &[u8; 32],
    flags: u8,
    sign_count: u32,
    credential_id: &[u8],
    cose_pub_key: &[u8],
    out: &mut [u8],
) -> (r: Result<usize, CtapStatus>)
    ensures
        ({
            let ad = attested_auth_data(
                rp_id_hash@,
                flags,
                sign_count,
                credential_id@,
                cose_pub_key@,
            );
            if credential_id@.len() <= u16::MAX && ad.len() <= old(out)@.len() {
                r == Ok::<usize, CtapStatus>(ad.len() as usize) && final(out)@ == ad + old(
                    out,
                )@.subrange(ad.len() as int, old(out)@.len() as int)
            } else {
                r == Err::<usize, CtapStatus>(CtapStatus::InvalidLength) && final(out)@ == old(
                    out,
                )@
            }
        }),
{
    if credential_id.len() > 0xffff {
        return Err(CtapStatus::InvalidLength);
    }
    let cl = credential_id.len();
    if cose_pub_key.len() > out.len() || 55 + cl > out.len() - cose_pub_key.len() {
        return Err(CtapStatus::InvalidLength);
    }
    let ghost rest = old(out)@.subrange(55 + cl + cose_pub_key@.len(), old(out)@.len() as int);
    copy_at(out, 0, rp_id_hash);
    out[32] = flags;
    out[33] = ((sign_count / 0x1000000) % 0x100) as u8;
    out[34] = ((sign_count / 0x10000) % 0x100) as u8;
    out[35] = ((sign_count / 0x100) % 0x100) as u8;
    out[36] = (sign_count % 0x100) as u8;
    let ghost head = rp_id_hash@ + seq![flags] + be32(sign_count as nat);
    assert(out@.subrange(0, 37) =~= head);
    copy_at(out, 37, &AAGUID);
    out[53] = ((cl / 0x100) % 0x100) as u8;
    out[54] = (cl % 0x100) as u8;
    let ghost head = head + AAGUID@ + be16(cl as nat);
    assert(out@.subrange(0, 55) =~= head);
    copy_at(out, 55, credential_id);
    let ghost head = head + credential_id@;
    assert(out@.subrange(0, 55 + cl) =~= head);
    copy_at(out, 55 + cl, cose_pub_key);
    let n = 55 + cl + cose_pub_key.len();
    assert(out@.subrange(0, n as int) =~= head + cose_pub_key@);
    assert(out@.subrange(n as int, out@.len() as int) =~= rest);
    assert(out@ =~= attested_auth_data(
        rp_id_hash@,
        flags,
        sign_count,
        credential_id@,
        cose_pub_key@,
    ) + rest);
    Ok(n)
}

/// Writes the COSE_Key of a public key at the start of `out`.
fn encode_cose_public_key(x: &[u8; 32], y: &[u8; 32], out: &mut [u8]) -> (r: Result<
    usize,
    CtapStatus,
>)
    ensures
        cose_key(x@, y@).len() <= old(out)@.len() ==> r == Ok::<usize, CtapStatus>(
            cose_key(x@, y@).len() as usize,
        ) && final(out)@ == cose_key(x@, y@) + old(out)@.subrange(
            cose_key(x@, y@).len() as int,
            old(out)@.len() as int,
        ),
        cose_key(x@, y@).len() > old(out)@.len() ==> r == Err::<usize, CtapStatus>(
            CtapStatus::InvalidLength,
        ) && final(out)@ == old(out)@,
{
    // Canonical key order: 1, 3, -1, -2, -3.
    let mut w = Writer::new(out.len());
    w.map(5)?;
    w.u8(1)?;  // kty: EC2
    w.u8(2)?;
    w.u8(3)?;  // alg: ES256
    w.nint(ES256_ALG)?;
    w.nint(-1)?;  // crv: P-256
    w.u8(1)?;
    w.nint(-2)?;  // x
    w.bstr(x)?;
    w.nint(-3)?;  // y
    w.bstr(y)?;
    assert(w@ == cose_key(x@, y@));
    copy_prefix(out, w.as_slice());
    Ok(w.len())
}

/// Makes a credential in the first free slot from the given private key and
/// credential ID, and writes the attestation object at the start of `out`.
/// The store changes only on success.
pub fn register(
    ctx: &mut CoreCtx,
    rp_id_hash: &[u8; 32],
    user_id: &[u8],
    uv: bool,
    private_key: &[u8; 32],
    credential_id: &[u8; CREDENTIAL_ID_SIZE],
    out: &mut [u8],
) -> (r: Result<usize, CtapStatus>)
    requires
        1 <= user_id@.len() <= MAX_USER_ID_SIZE,
    ensures
        match registration(
            *old(ctx),
            rp_id_hash@,
            uv,
            private_key@,
            credential_id@,
            old(out)@.len() as nat,
        ) {
            Err(e) => r == Err::<usize, CtapStatus>(e) && *final(ctx) == *old(ctx) && final(out)@
                == old(out)@,
            Ok(resp) => r == Ok::<usize, CtapStatus>(resp.len() as usize) && registered(
                *old(ctx),
                *final(ctx),
                rp_id_hash@,
                user_id@,
                private_key@,
                credential_id@,
            ) && final(out)@ == resp + old(out)@.subrange(resp.len() as int, old(out)@.len() as int),
        },
{
    if ctx.free_slot().is_none() {
        return Err(CtapStatus::KeyStoreFull);
    }
    let (x, y) = match public_key_xy(private_key) {
        Some(p) => p,
        None => return Err(CtapStatus::Other),
    };
    let ghost xy = p256_public_key_of(private_key@);
    assert(xy.subrange(0, 32) =~= x@);
    assert(xy.subrange(32, 64) =~= y@);

    let mut new_cred = Credential::empty();
    new_cred.in_use = true;
    new_cred.sign_count = 0;
    new_cred.rp_id_hash = *rp_id_hash;
    new_cred.cred_id = *credential_id;
    new_cred.user_id_len = user_id.len() as u8;
    let mut uid = [0u8; MAX_USER_ID_SIZE];
    assert(uid@ =~= zeros(32));
    copy_prefix(&mut uid, user_id);
    new_cred.user_id = uid;
    new_cred.private_key = *private_key;
    assert(new_cred.user_id@ =~= user_id@ + zeros((MAX_USER_ID_SIZE - user_id@.len()) as nat));

    let mut cose = [0u8; 96];
    let cose_len = encode_cose_public_key(&x, &y, &mut cose)?;
    let cose_bytes = vstd::slice::slice_subrange(cose.as_slice(), 0, cose_len);
    assert(cose_bytes@ =~= cose_key(x@, y@));

    let mut auth_data = [0u8; 256];
    let flags = build_flags(uv);
    let auth_len = build_auth_data(
        rp_id_hash,
        flags,
        new_cred.sign_count,
        credential_id,
        cose_bytes,
        &mut auth_data,
    )?;
    let auth_bytes = vstd::slice::slice_subrange(auth_data.as_slice(), 0, auth_len);
    assert(auth_bytes@ =~= mc_auth_data(rp_id_hash@, uv, credential_id@, private_key@));

    // attestationObject: 1 = fmt, 2 = authData, 3 = attStmt
    let mut w = Writer::new(out.len());
    w.map(3)?;
    w.u8(1)?;
    w.text(&TEXT_NONE)?;
    w.u8(2)?;
    w.bstr(auth_bytes)?;
    w.u8(3)?;
    w.map(0)?;
    assert(w@ == mc_response(mc_auth_data(rp_id_hash@, uv, credential_id@, private_key@)));

    // Commit only once everything that can fail has succeeded.
    match ctx.alloc_credential_slot() {
        Some(slot) => {
            *slot = new_cred;
        },
        None => {
            return Err(CtapStatus::KeyStoreFull);
        },
    }
    ctx.mark_dirty();
    copy_prefix(out, w.as_slice());
    Ok(w.len())
}

/// The effect of a successful registration with private key `key` and
/// credential ID `id`: `n` response bytes written at the start of the buffer.
pub open spec fn made_credential(
    old_ctx: CoreCtx,
    new_ctx: CoreCtx,
    old_out: Seq<u8>,
    new_out: Seq<u8>,
    req: McRequest,
    key: Seq<u8>,
    id: Seq<u8>,
    n: usize,
) -> bool {
    let rp_id_hash = sha256_of(req.rp_id);
    match registration(old_ctx, rp_id_hash, req.options.uv, key, id, old_out.len()) {
        Err(_) => false,
        Ok(resp) => {
            &&& n == resp.len()
            &&& registered(old_ctx, new_ctx, rp_id_hash, req.user_id, key, id)
            &&& new_out == resp + old_out.subrange(resp.len() as int, old_out.len() as int)
        },
    }
}

/// How often a scalar outside [1, n) is drawn again.
pub const KEY_DRAW_ATTEMPTS: usize = 8;

/// Fills `key` with random bytes, drawing again while p256 refuses them as
/// a private key, up to `KEY_DRAW_ATTEMPTS` times. Returns false when the
/// generator fails.
fn draw_private_key(key: &mut [u8; 32]) -> (ok: bool) {
    let mut attempts: usize = 0;
    loop
        invariant
            attempts < KEY_DRAW_ATTEMPTS,
        decreases KEY_DRAW_ATTEMPTS - attempts,
    {
        if !fill_random(key) {
            return false;
        }
        if public_key_xy(key).is_some() || attempts + 1 >= KEY_DRAW_ATTEMPTS {
            return true;
        }
        attempts = attempts + 1;
    }
}

/// The effect of registering `req` with private key `key` and credential ID
/// `id`: as `registration` says, the store and buffer changing only on success.
pub open spec fn registration_outcome(
    old_ctx: CoreCtx,
    new_ctx: CoreCtx,
    old_out: Seq<u8>,
    new_out: Seq<u8>,
    req: McRequest,
    key: Seq<u8>,
    id: Seq<u8>,
    r: Result<usize, CtapStatus>,
) -> bool {
    match registration(old_ctx, sha256_of(req.rp_id), req.options.uv, key, id, old_out.len()) {
        Err(e) => r == Err::<usize, CtapStatus>(e) && new_ctx == old_ctx && new_out == old_out,
        Ok(_) => r is Ok && made_credential(old_ctx, new_ctx, old_out, new_out, req, key, id, r->Ok_0),
    }
}

/// The effect of drawing the key material and registering: the draw fails
/// with `Other`, or registration goes as it does for the drawn values.
pub open spec fn drawn_outcome(
    old_ctx: CoreCtx,
    new_ctx: CoreCtx,
    old_out: Seq<u8>,
    new_out: Seq<u8>,
    req: McRequest,
    r: Result<usize, CtapStatus>,
) -> bool {
    ||| r == Err::<usize, CtapStatus>(CtapStatus::Other) && new_ctx == old_ctx && new_out == old_out
    ||| exists|key: Seq<u8>, id: Seq<u8>|
        registration_outcome(old_ctx, new_ctx, old_out, new_out, req, key, id, r)
}

/// The effect of `MakeCredential` with request `cbor`, where `prompt` is the
/// host's presence prompt: nothing changes on failure; a request that does
/// not parse fails so; `KeyStoreFull` comes exactly when no slot is free;
/// else, when the request wants user presence, the prompt is asked once and
/// a refusal gives its status; then the key material is drawn and the
/// credential registered.
pub open spec fn make_credential_outcome<G: Fn(u32) -> i32>(
    old_ctx: CoreCtx,
    new_ctx: CoreCtx,
    cbor: Seq<u8>,
    old_out: Seq<u8>,
    new_out: Seq<u8>,
    prompt: G,
    r: Result<usize, CtapStatus>,
) -> bool {
    &&& new_out.len() == old_out.len()
    &&& r is Ok ==> r->Ok_0 <= old_out.len()
    &&& r is Err ==> new_ctx == old_ctx && new_out == old_out
    &&& match mc_request_at(cbor, 0) {
        Err(e) => r == Err::<usize, CtapStatus>(e),
        Ok(req) => {
            &&& (r == Err::<usize, CtapStatus>(CtapStatus::KeyStoreFull)
                <==> old_ctx.first_free() is None)
            &&& old_ctx.first_free() is Some ==> if req.options.up {
                exists|rc: i32|
                    call_ensures(prompt, (USER_PRESENCE_TIMEOUT_MS,), rc) && match presence_outcome(
                        rc,
                    ) {
                        Err(e) => r == Err::<usize, CtapStatus>(e),
                        Ok(_) => drawn_outcome(old_ctx, new_ctx, old_out, new_out, req, r),
                    }
            } else {
                drawn_outcome(old_ctx, new_ctx, old_out, new_out, req, r)
            }
        },
    }
}

/// A successful `MakeCredential` registered a credential from a well-formed
/// request in the first free slot.
pub proof fn lemma_made_credential<G: Fn(u32) -> i32>(
    old_ctx: CoreCtx,
    new_ctx: CoreCtx,
    cbor: Seq<u8>,
    old_out: Seq<u8>,
    new_out: Seq<u8>,
    prompt: G,
    r: Result<usize, CtapStatus>,
)
    requires
        make_credential_outcome(old_ctx, new_ctx, cbor, old_out, new_out, prompt, r),
        r is Ok,
    ensures
        mc_request_at(cbor, 0) is Ok,
        old_ctx.first_free() is Some,
        exists|key: Seq<u8>, id: Seq<u8>|
            made_credential(
                old_ctx,
                new_ctx,
                old_out,
                new_out,
                mc_request_at(cbor, 0)->Ok_0,
                key,
                id,
                r->Ok_0,
            ),
{
    let req = mc_request_at(cbor, 0)->Ok_0;
    assert(drawn_outcome(old_ctx, new_ctx, old_out, new_out, req, r)) by {
        if req.options.up {
            let rc = choose|rc: i32|
                call_ensures(prompt, (USER_PRESENCE_TIMEOUT_MS,), rc) && match presence_outcome(rc) {
                    Err(e) => r == Err::<usize, CtapStatus>(e),
                    Ok(_) => drawn_outcome(old_ctx, new_ctx, old_out, new_out, req, r),
                };
        }
    }
    let (key, id) = choose|key: Seq<u8>, id: Seq<u8>|
        registration_outcome(old_ctx, new_ctx, old_out, new_out, req, key, id, r);
    assert(made_credential(old_ctx, new_ctx, old_out, new_out, req, key, id, r->Ok_0));
}

/// `MakeCredential`: parses the request, checks for a free slot, asks the
/// presence prompt when the request wants user presence, draws a fresh private
/// key and credential ID, and registers the credential. On any failure the
/// store and the response buffer are left as they were.
#[verifier::spinoff_prover]
pub fn handle<G: Fn(u32) -> i32>(
    ctx: &mut CoreCtx,
    cbor_req: &[u8],
    out: &mut [u8],
    presence: &G,
) -> (r: Result<usize, CtapStatus>)
    requires
        call_requires(*presence, (USER_PRESENCE_TIMEOUT_MS,)),
    ensures
        make_credential_outcome(
            *old(ctx),
            *final(ctx),
            cbor_req@,
            old(out)@,
            final(out)@,
            *presence,
            r,
        ),
{
    let mut reader = Reader::new(cbor_req);
    let req = parse_make_credential(&mut reader)?;
    let rp_hash = sha256(req.rp_id.as_bytes());

    if ctx.free_slot().is_none() {
        return Err(CtapStatus::KeyStoreFull);
    }
    if req.up {
        let answer = require_user_presence(presence);
        let ghost rc = choose|rc: i32|
            call_ensures(*presence, (USER_PRESENCE_TIMEOUT_MS,), rc) && answer == presence_outcome(
                rc,
            );
        answer?;
    }
    let mut private_key = [0u8; 32];
    if !draw_private_key(&mut private_key) {
        return Err(CtapStatus::Other);
    }
    let mut credential_id = [0u8; CREDENTIAL_ID_SIZE];
    if !fill_random(&mut credential_id) {
        return Err(CtapStatus::Other);
    }
    let user_id = vstd::slice::slice_subrange(req.user_id.as_slice(), 0, req.user_id_len as usize);
    assert(out@.len() == out.len());
    let r = register(ctx, &rp_hash, user_id, req.uv, &private_key, &credential_id, out);
    assert(registration_outcome(
        *old(ctx),
        *ctx,
        old(out)@,
        out@,
        req.model(),
        private_key@,
        credential_id@,
        r,
    ));
    r
}

} // verus!
