use vstd::prelude::*;

use crate::bytes::{array16_at, array32_at, copy_at};
use crate::dispatcher::{dispatch, dispatch_outcome};
use crate::status::CtapStatus;
use crate::user_presence::USER_PRESENCE_TIMEOUT_MS;

verus! {

/// Capacity of the credential store.
pub const MAX_CREDENTIALS: usize = 4;

/// Length of a credential ID.
pub const CREDENTIAL_ID_SIZE: usize = 16;

/// Largest accepted user handle.
pub const MAX_USER_ID_SIZE: usize = 32;

/// One slot of the credential store.
#[derive(Copy, Clone, Debug)]
pub struct Credential {
    pub in_use: bool,
    pub cred_id: [u8; CREDENTIAL_ID_SIZE],
    pub rp_id_hash: [u8; 32],
    pub user_id: [u8; MAX_USER_ID_SIZE],
    pub user_id_len: u8,
    pub sign_count: u32,
    pub private_key: [u8; 32],
}

/// `n` zero bytes.
pub open spec fn zeros(n: nat) -> Seq<u8> {
    Seq::new(n, |i: int| 0u8)
}

/// The all-zero credential of an unused slot.
pub open spec fn is_empty_credential(c: Credential) -> bool {
    &&& !c.in_use
    &&& c.cred_id@ == zeros(16)
    &&& c.rp_id_hash@ == zeros(32)
    &&& c.user_id@ == zeros(32)
    &&& c.user_id_len == 0
    &&& c.sign_count == 0
    &&& c.private_key@ == zeros(32)
}

impl Credential {
    pub fn empty() -> (c: Self)
        ensures
            is_empty_credential(c),
    {
        let c = Credential {
            in_use: false,
            cred_id: [0u8; 16],
            rp_id_hash: [0u8; 32],
            user_id: [0u8; 32],
            user_id_len: 0,
            sign_count: 0,
            private_key: [0u8; 32],
        };
        assert(c.cred_id@ =~= zeros(16));
        assert(c.rp_id_hash@ =~= zeros(32));
        assert(c.user_id@ =~= zeros(32));
        assert(c.private_key@ =~= zeros(32));
        c
    }
}

/// The engine's whole state: the credential store and its flags.
pub struct CoreCtx {
    pub initialized: bool,
    pub credentials: [Credential; MAX_CREDENTIALS],
    pub dirty: bool,
}

impl CoreCtx {
    /// Every user handle length is within bounds.
    pub open spec fn wf(&self) -> bool {
        forall|i: int| 0 <= i < MAX_CREDENTIALS ==> #[trigger] self.credentials[i].user_id_len
            <= MAX_USER_ID_SIZE
    }

    /// The index of the first slot not in use, if any.
    pub open spec fn first_free(&self) -> Option<int> {
        if !self.credentials[0].in_use {
            Some(0)
        } else if !self.credentials[1].in_use {
            Some(1)
        } else if !self.credentials[2].in_use {
            Some(2)
        } else if !self.credentials[3].in_use {
            Some(3)
        } else {
            None
        }
    }

    pub fn new() -> (c: Self)
        ensures
            !c.initialized,
            !c.dirty,
            forall|i: int| 0 <= i < MAX_CREDENTIALS ==> is_empty_credential(c.credentials[i]),
            c.wf(),
    {
        CoreCtx {
            initialized: false,
            credentials: [Credential::empty(), Credential::empty(), Credential::empty(), Credential::empty()],
            dirty: false,
        }
    }

    /// The index of the first slot not in use, if any.
    pub fn free_slot(&self) -> (r: Option<usize>)
        ensures
            r is Some <==> self.first_free() is Some,
            r is Some ==> r->Some_0 == self.first_free()->Some_0,
    {
        let mut i: usize = 0;
        while i < MAX_CREDENTIALS
            invariant
                i <= MAX_CREDENTIALS,
                forall|j: int| 0 <= j < i ==> self.credentials[j].in_use,
            decreases MAX_CREDENTIALS - i,
        {
            if !self.credentials[i].in_use {
                return Some(i);
            }
            i = i + 1;
        }
        None
    }

    /// The first slot not in use, if any.
    pub fn alloc_credential_slot(&mut self) -> (r: Option<&mut Credential>)
        ensures
            final(self).initialized == old(self).initialized,
            final(self).dirty == old(self).dirty,
            r is None <==> old(self).first_free() is None,
            r is None ==> *final(self) == *old(self),
            r is Some ==> {
                let i = old(self).first_free()->Some_0;
                &&& *r->Some_0 == old(self).credentials[i]
                &&& final(self).credentials@ == old(self).credentials@.update(i, *final(r->Some_0))
            },
    {
        let mut i: usize = 0;
        while i < MAX_CREDENTIALS
            invariant
                i <= MAX_CREDENTIALS,
                *self == *old(self),
                forall|j: int| 0 <= j < i ==> self.credentials[j].in_use,
            decreases MAX_CREDENTIALS - i,
        {
            if !self.credentials[i].in_use {
                return Some(&mut self.credentials[i]);
            }
            i = i + 1;
        }
        None
    }

    pub fn mark_dirty(&mut self)
        ensures
            final(self).dirty,
            final(self).initialized == old(self).initialized,
            final(self).credentials == old(self).credentials,
    {
        self.dirty = true;
    }

    pub fn clear_dirty(&mut self)
        ensures
            !final(self).dirty,
            final(self).initialized == old(self).initialized,
            final(self).credentials == old(self).credentials,
    {
        self.dirty = false;
    }

    pub fn is_dirty(&self) -> (r: bool)
        ensures
            r == self.dirty,
    {
        self.dirty
    }
}

// ---------------------------------------------------------------------------
// Persisted state blob
// ---------------------------------------------------------------------------

/// "RTKY" as a 32-bit integer.
pub const PERSIST_MAGIC: u32 = 0x52544B59;

/// Layout version of the persisted blob.
pub const PERSIST_VERSION: u16 = 1;

/// Size of one persisted credential record.
pub const PERSISTED_CREDENTIAL_SIZE: usize = 120;

/// Size of the blob header (magic, version, padding).
pub const PERSIST_HEADER_SIZE: usize = 8;

/// Size of the whole persisted blob.
pub const PERSIST_BLOB_SIZE: usize = 488;

/// Little-endian bytes of a 16-bit value.
pub open spec fn le16(v: nat) -> Seq<u8> {
    seq![(v % 0x100) as u8, ((v / 0x100) % 0x100) as u8]
}

/// Little-endian bytes of a 32-bit value.
pub open spec fn le32(v: nat) -> Seq<u8> {
    seq![
        (v % 0x100) as u8,
        ((v / 0x100) % 0x100) as u8,
        ((v / 0x10000) % 0x100) as u8,
        ((v / 0x1000000) % 0x100) as u8,
    ]
}

/// The 16-bit little-endian value at `at`.
pub open spec fn le16_at(s: Seq<u8>, at: int) -> nat {
    (s[at] + s[at + 1] * 0x100) as nat
}

/// The 32-bit little-endian value at `at`.
pub open spec fn le32_at(s: Seq<u8>, at: int) -> nat {
    (s[at] + s[at + 1] * 0x100 + s[at + 2] * 0x10000 + s[at + 3] * 0x1000000) as nat
}

/// The persisted image of one credential: `in_use`, `user_id_len`, two
/// reserved bytes, `sign_count`, `cred_id`, `rp_id_hash`, `user_id`,
/// `private_key`.
pub open spec fn record_image(c: Credential) -> Seq<u8> {
    seq![if c.in_use { 1u8 } else { 0u8 }, c.user_id_len] + le16(0) + le32(c.sign_count as nat)
        + c.cred_id@ + c.rp_id_hash@ + c.user_id@ + c.private_key@
}

/// The blob that export produces for a context.
pub open spec fn export_image(ctx: CoreCtx) -> Seq<u8> {
    le32(PERSIST_MAGIC as nat) + le16(PERSIST_VERSION as nat) + le16(0) + record_image(
        ctx.credentials[0],
    ) + record_image(ctx.credentials[1]) + record_image(ctx.credentials[2]) + record_image(
        ctx.credentials[3],
    )
}

/// The bytes of record `i` of a blob.
pub open spec fn record_of(data: Seq<u8>, i: int) -> Seq<u8> {
    data.subrange(
        PERSIST_HEADER_SIZE + PERSISTED_CREDENTIAL_SIZE * i,
        PERSIST_HEADER_SIZE + PERSISTED_CREDENTIAL_SIZE * (i + 1),
    )
}

/// A record that marks its slot in use but holds an over-long user handle.
pub open spec fn record_invalid(rec: Seq<u8>) -> bool {
    rec[0] != 0 && rec[1] > MAX_USER_ID_SIZE
}

/// The credential that importing record `rec` installs.
pub open spec fn restores(rec: Seq<u8>, c: Credential) -> bool {
    if rec[0] == 0 {
        is_empty_credential(c)
    } else {
        let len = rec[1] as int;
        &&& c.in_use
        &&& c.user_id_len == rec[1]
        &&& c.sign_count == le32_at(rec, 4)
        &&& c.cred_id@ == rec.subrange(8, 24)
        &&& c.rp_id_hash@ == rec.subrange(24, 56)
        &&& c.user_id@ == rec.subrange(56, 56 + len) + zeros((32 - len) as nat)
        &&& c.private_key@ == rec.subrange(88, 120)
    }
}

/// Why importing `data` fails, if it does.
pub open spec fn import_error(data: Seq<u8>) -> Option<CtapStatus> {
    if data.len() != PERSIST_BLOB_SIZE {
        Some(CtapStatus::InvalidLength)
    } else if le32_at(data, 0) != PERSIST_MAGIC || le16_at(data, 4) != PERSIST_VERSION {
        Some(CtapStatus::Other)
    } else if exists|i: int| 0 <= i < MAX_CREDENTIALS && record_invalid(#[trigger] record_of(data, i)) {
        Some(CtapStatus::Other)
    } else {
        None
    }
}

/// `creds` is what a successful import of `data` installs.
pub open spec fn import_installs(data: Seq<u8>, creds: Seq<Credential>) -> bool {
    &&& creds.len() == MAX_CREDENTIALS
    &&& forall|i: int| 0 <= i < MAX_CREDENTIALS ==> restores(#[trigger] record_of(data, i), creds[i])
}

/// In-memory form of one persisted record.
#[derive(Copy, Clone)]
struct PersistedCredential {
    in_use: u8,
    user_id_len: u8,
    reserved: u16,
    sign_count: u32,
    cred_id: [u8; CREDENTIAL_ID_SIZE],
    rp_id_hash: [u8; 32],
    user_id: [u8; MAX_USER_ID_SIZE],
    private_key: [u8; 32],
}

impl PersistedCredential {
    spec fn image(self) -> Seq<u8> {
        seq![self.in_use, self.user_id_len] + le16(self.reserved as nat) + le32(
            self.sign_count as nat,
        ) + self.cred_id@ + self.rp_id_hash@ + self.user_id@ + self.private_key@
    }

    proof fn lemma_image_fields(self)
        ensures
            self.image().len() == PERSISTED_CREDENTIAL_SIZE,
            self.image()[0] == self.in_use,
            self.image()[1] == self.user_id_len,
            le32_at(self.image(), 4) == self.sign_count,
            self.image().subrange(8, 24) == self.cred_id@,
            self.image().subrange(24, 56) == self.rp_id_hash@,
            self.image().subrange(56, 88) == self.user_id@,
            self.image().subrange(88, 120) == self.private_key@,
    {
        let img = self.image();
        let w = le32(self.sign_count as nat);
        lemma_le32_round_trip(self.sign_count);
        assert(img[4] == w[0] && img[5] == w[1] && img[6] == w[2] && img[7] == w[3]);
        assert(img.subrange(8, 24) =~= self.cred_id@);
        assert(img.subrange(24, 56) =~= self.rp_id_hash@);
        assert(img.subrange(56, 88) =~= self.user_id@);
        assert(img.subrange(88, 120) =~= self.private_key@);
    }

    fn empty() -> (p: Self)
        ensures
            p.in_use == 0,
            p.user_id_len == 0,
            p.reserved == 0,
            p.sign_count == 0,
            p.cred_id@ == zeros(16),
            p.rp_id_hash@ == zeros(32),
            p.user_id@ == zeros(32),
            p.private_key@ == zeros(32),
    {
        let p = PersistedCredential {
            in_use: 0,
            user_id_len: 0,
            reserved: 0,
            sign_count: 0,
            cred_id: [0u8; 16],
            rp_id_hash: [0u8; 32],
            user_id: [0u8; 32],
            private_key: [0u8; 32],
        };
        assert(p.cred_id@ =~= zeros(16));
        assert(p.rp_id_hash@ =~= zeros(32));
        assert(p.user_id@ =~= zeros(32));
        assert(p.private_key@ =~= zeros(32));
        p
    }

    fn write_at(&self, out: &mut [u8], at: usize)
        requires
            at + PERSISTED_CREDENTIAL_SIZE <= old(out)@.len(),
        ensures
            final(out)@ == old(out)@.subrange(0, at as int) + self.image() + old(out)@.subrange(
                at + PERSISTED_CREDENTIAL_SIZE,
                old(out)@.len() as int,
            ),
    {
        let ghost len = old(out)@.len() as int;
        out[at] = self.in_use;
        out[at + 1] = self.user_id_len;
        write_le16_at(out, at + 2, self.reserved);
        write_le32_at(out, at + 4, self.sign_count);
        copy_at(out, at + 8, &self.cred_id);
        copy_at(out, at + 24, &self.rp_id_hash);
        copy_at(out, at + 56, &self.user_id);
        copy_at(out, at + 88, &self.private_key);
        assert(out@.subrange(at as int, at + 120) =~= self.image());
        assert(out@ =~= old(out)@.subrange(0, at as int) + self.image() + old(out)@.subrange(
            at + PERSISTED_CREDENTIAL_SIZE,
            len,
        ));
    }

    fn read_at(data: &[u8], at: usize) -> (p: Self)
        requires
            at + PERSISTED_CREDENTIAL_SIZE <= data@.len(),
        ensures
            p.image() == data@.subrange(at as int, at + PERSISTED_CREDENTIAL_SIZE),
    {
        let p = PersistedCredential {
            in_use: data[at],
            user_id_len: data[at + 1],
            reserved: le16_from(data, at + 2),
            sign_count: le32_from(data, at + 4),
            cred_id: array16_at(data, at + 8),
            rp_id_hash: array32_at(data, at + 24),
            user_id: array32_at(data, at + 56),
            private_key: array32_at(data, at + 88),
        };
        proof {
            lemma_le16_decode(data@, at + 2);
            lemma_le32_decode(data@, at + 4);
        }
        assert(p.image() =~= data@.subrange(at as int, at + PERSISTED_CREDENTIAL_SIZE));
        p
    }

    fn from_runtime(c: &Credential) -> (p: Self)
        ensures
            p.image() == record_image(*c),
    {
        let mut p = Self::empty();
        if c.in_use {
            p.in_use = 1;
        }
        p.user_id_len = c.user_id_len;
        p.sign_count = c.sign_count;
        p.cred_id = c.cred_id;
        p.rp_id_hash = c.rp_id_hash;
        p.user_id = c.user_id;
        p.private_key = c.private_key;
        p
    }

    fn to_runtime(&self) -> (r: Result<Credential, CtapStatus>)
        ensures
            record_invalid(self.image()) ==> r == Err::<Credential, CtapStatus>(CtapStatus::Other),
            !record_invalid(self.image()) ==> r is Ok && restores(self.image(), r->Ok_0),
    {
        let ghost img = self.image();
        proof {
            self.lemma_image_fields();
        }
        let mut c = Credential::empty();
        if self.in_use == 0 {
            return Ok(c);
        }
        if self.user_id_len as usize > MAX_USER_ID_SIZE {
            return Err(CtapStatus::Other);
        }
        c.in_use = true;
        c.user_id_len = self.user_id_len;
        c.sign_count = self.sign_count;
        c.cred_id = self.cred_id;
        c.rp_id_hash = self.rp_id_hash;
        let len = self.user_id_len as usize;
        let mut i: usize = 0;
        while i < len
            invariant
                len <= 32,
                len == self.user_id_len,
                i <= len,
                c.in_use,
                c.user_id_len == self.user_id_len,
                c.sign_count == self.sign_count,
                c.cred_id == self.cred_id,
                c.rp_id_hash == self.rp_id_hash,
                c.user_id@ == self.user_id@.subrange(0, i as int) + zeros((32 - i) as nat),
            decreases len - i,
        {
            c.user_id[i] = self.user_id[i];
            i = i + 1;
            assert(c.user_id@ =~= self.user_id@.subrange(0, i as int) + zeros((32 - i) as nat));
        }
        assert(self.user_id@.subrange(0, len as int) =~= img.subrange(56, 56 + len));
        c.private_key = self.private_key;
        assert(restores(img, c));
        Ok(c)
    }
}

proof fn lemma_le32_round_trip(v: u32)
    ensures
        le32_at(le32(v as nat), 0) == v,
{
    let x = v as nat;
    assert(x % 0x100 + ((x / 0x100) % 0x100) * 0x100 + ((x / 0x10000) % 0x100) * 0x10000 + ((x
        / 0x1000000) % 0x100) * 0x1000000 == x) by (nonlinear_arith)
        requires
            x <= 0xffff_ffff,
    ;
}

proof fn lemma_le16_round_trip(v: u16)
    ensures
        le16_at(le16(v as nat), 0) == v,
{
    let x = v as nat;
    assert(x % 0x100 + ((x / 0x100) % 0x100) * 0x100 == x) by (nonlinear_arith)
        requires
            x <= 0xffff,
    ;
}

proof fn lemma_le16_decode(s: Seq<u8>, at: int)
    requires
        0 <= at,
        at + 2 <= s.len(),
    ensures
        le16_at(s, at) <= u16::MAX,
        le16(le16_at(s, at)) == s.subrange(at, at + 2),
{
    let b0 = s[at] as int;
    let b1 = s[at + 1] as int;
    let v = b0 + b1 * 0x100;
    assert(v % 0x100 == b0 && (v / 0x100) % 0x100 == b1 && v <= 0xffff) by (nonlinear_arith)
        requires
            v == b0 + b1 * 0x100,
            0 <= b0 < 0x100,
            0 <= b1 < 0x100,
    ;
    assert(le16(le16_at(s, at)) =~= s.subrange(at, at + 2));
}

proof fn lemma_le32_decode(s: Seq<u8>, at: int)
    requires
        0 <= at,
        at + 4 <= s.len(),
    ensures
        le32_at(s, at) <= u32::MAX,
        le32(le32_at(s, at)) == s.subrange(at, at + 4),
{
    let b0 = s[at] as int;
    let b1 = s[at + 1] as int;
    let b2 = s[at + 2] as int;
    let b3 = s[at + 3] as int;
    let v = b0 + b1 * 0x100 + b2 * 0x10000 + b3 * 0x1000000;
    assert(v % 0x100 == b0 && (v / 0x100) % 0x100 == b1 && (v / 0x10000) % 0x100 == b2 && (v
        / 0x1000000) % 0x100 == b3 && v <= 0xffff_ffff) by (nonlinear_arith)
        requires
            v == b0 + b1 * 0x100 + b2 * 0x10000 + b3 * 0x1000000,
            0 <= b0 < 0x100,
            0 <= b1 < 0x100,
            0 <= b2 < 0x100,
            0 <= b3 < 0x100,
    ;
    assert(le32(le32_at(s, at)) =~= s.subrange(at, at + 4));
}

fn le16_from(data: &[u8], at: usize) -> (v: u16)
    requires
        at + 2 <= data@.len(),
    ensures
        v == le16_at(data@, at as int),
{
    proof {
        lemma_le16_decode(data@, at as int);
    }
    data[at] as u16 + data[at + 1] as u16 * 0x100
}

fn le32_from(data: &[u8], at: usize) -> (v: u32)
    requires
        at + 4 <= data@.len(),
    ensures
        v == le32_at(data@, at as int),
{
    proof {
        lemma_le32_decode(data@, at as int);
    }
    data[at] as u32 + data[at + 1] as u32 * 0x100 + data[at + 2] as u32 * 0x10000 + data[at + 3]
        as u32 * 0x1000000
}

fn write_le16_at(out: &mut [u8], at: usize, x: u16)
    requires
        at + 2 <= old(out)@.len(),
    ensures
        final(out)@ == old(out)@.subrange(0, at as int) + le16(x as nat) + old(out)@.subrange(
            at + 2,
            old(out)@.len() as int,
        ),
{
    out[at] = (x % 0x100) as u8;
    out[at + 1] = ((x / 0x100) % 0x100) as u8;
    assert(out@ =~= old(out)@.subrange(0, at as int) + le16(x as nat) + old(out)@.subrange(
        at + 2,
        old(out)@.len() as int,
    ));
}

fn write_le32_at(out: &mut [u8], at: usize, x: u32)
    requires
        at + 4 <= old(out)@.len(),
    ensures
        final(out)@ == old(out)@.subrange(0, at as int) + le32(x as nat) + old(out)@.subrange(
            at + 4,
            old(out)@.len() as int,
        ),
{
    out[at] = (x % 0x100) as u8;
    out[at + 1] = ((x / 0x100) % 0x100) as u8;
    out[at + 2] = ((x / 0x10000) % 0x100) as u8;
    out[at + 3] = ((x / 0x1000000) % 0x100) as u8;
    assert(out@ =~= old(out)@.subrange(0, at as int) + le32(x as nat) + old(out)@.subrange(
        at + 4,
        old(out)@.len() as int,
    ));
}

/// In-memory form of the whole persisted blob.
struct PersistedState {
    magic: u32,
    version: u16,
    reserved: u16,
    creds: [PersistedCredential; MAX_CREDENTIALS],
}

impl PersistedState {
    spec fn image(self) -> Seq<u8> {
        le32(self.magic as nat) + le16(self.version as nat) + le16(self.reserved as nat)
            + self.creds[0].image() + self.creds[1].image() + self.creds[2].image()
            + self.creds[3].image()
    }

    #[verifier::spinoff_prover]
    proof fn lemma_image_layout(self)
        ensures
            self.image().len() == PERSIST_BLOB_SIZE,
            le32_at(self.image(), 0) == self.magic,
            le16_at(self.image(), 4) == self.version,
            forall|i: int|
                0 <= i < MAX_CREDENTIALS ==> #[trigger] record_of(self.image(), i)
                    == self.creds[i].image(),
    {
        let img = self.image();
        self.creds[0].lemma_image_fields();
        self.creds[1].lemma_image_fields();
        self.creds[2].lemma_image_fields();
        self.creds[3].lemma_image_fields();
        lemma_le32_round_trip(self.magic);
        lemma_le16_round_trip(self.version);
        let m = le32(self.magic as nat);
        let v = le16(self.version as nat);
        assert(img[0] == m[0] && img[1] == m[1] && img[2] == m[2] && img[3] == m[3]);
        assert(img[4] == v[0] && img[5] == v[1]);
        assert(record_of(img, 0) =~= self.creds[0].image());
        assert(record_of(img, 1) =~= self.creds[1].image());
        assert(record_of(img, 2) =~= self.creds[2].image());
        assert(record_of(img, 3) =~= self.creds[3].image());
    }

    fn new() -> (st: Self)
        ensures
            st.magic == PERSIST_MAGIC,
            st.version == PERSIST_VERSION,
            st.reserved == 0,
    {
        PersistedState {
            magic: PERSIST_MAGIC,
            version: PERSIST_VERSION,
            reserved: 0,
            creds: [
                PersistedCredential::empty(),
                PersistedCredential::empty(),
                PersistedCredential::empty(),
                PersistedCredential::empty(),
            ],
        }
    }

    fn from_ctx(ctx: &CoreCtx) -> (st: Self)
        ensures
            st.image() == export_image(*ctx),
    {
        let mut st = Self::new();
        let mut i: usize = 0;
        while i < MAX_CREDENTIALS
            invariant
                i <= MAX_CREDENTIALS,
                st.magic == PERSIST_MAGIC,
                st.version == PERSIST_VERSION,
                st.reserved == 0,
                forall|j: int| 0 <= j < i ==> #[trigger] st.creds[j].image() == record_image(
                    ctx.credentials[j],
                ),
            decreases MAX_CREDENTIALS - i,
        {
            st.creds[i] = PersistedCredential::from_runtime(&ctx.credentials[i]);
            i = i + 1;
        }
        assert(st.creds[0].image() == record_image(ctx.credentials[0]));
        assert(st.creds[1].image() == record_image(ctx.credentials[1]));
        assert(st.creds[2].image() == record_image(ctx.credentials[2]));
        assert(st.creds[3].image() == record_image(ctx.credentials[3]));
        st
    }

    fn write_image(&self, out: &mut [u8])
        requires
            old(out)@.len() >= PERSIST_BLOB_SIZE,
        ensures
            final(out)@ == self.image() + old(out)@.subrange(
                PERSIST_BLOB_SIZE as int,
                old(out)@.len() as int,
            ),
    {
        let ghost len = old(out)@.len() as int;
        write_le32_at(out, 0, self.magic);
        write_le16_at(out, 4, self.version);
        write_le16_at(out, 6, self.reserved);
        assert(out@.subrange(0, 8) =~= le32(self.magic as nat) + le16(self.version as nat) + le16(
            self.reserved as nat,
        ));
        self.creds[0].write_at(out, 8);
        self.creds[1].write_at(out, 128);
        self.creds[2].write_at(out, 248);
        self.creds[3].write_at(out, 368);
        assert(out@.subrange(8, 128) =~= self.creds[0].image());
        assert(out@.subrange(128, 248) =~= self.creds[1].image());
        assert(out@.subrange(248, 368) =~= self.creds[2].image());
        assert(out@.subrange(368, 488) =~= self.creds[3].image());
        assert(out@ =~= self.image() + old(out)@.subrange(PERSIST_BLOB_SIZE as int, len));
    }

    fn from_bytes(data: &[u8]) -> (st: Self)
        requires
            data@.len() == PERSIST_BLOB_SIZE,
        ensures
            st.image() == data@,
    {
        let st = PersistedState {
            magic: le32_from(data, 0),
            version: le16_from(data, 4),
            reserved: le16_from(data, 6),
            creds: [
                PersistedCredential::read_at(data, 8),
                PersistedCredential::read_at(data, 128),
                PersistedCredential::read_at(data, 248),
                PersistedCredential::read_at(data, 368),
            ],
        };
        proof {
            lemma_le32_decode(data@, 0);
            lemma_le16_decode(data@, 4);
            lemma_le16_decode(data@, 6);
        }
        assert(st.image() =~= data@);
        st
    }

    #[verifier::spinoff_prover]
    #[verifier::rlimit(40)]
    fn apply(&self, ctx: &mut CoreCtx) -> (r: Result<(), CtapStatus>)
        ensures
            match import_error(self.image()) {
                Some(e) => r == Err::<(), CtapStatus>(e) && *final(ctx) == *old(ctx),
                None => r is Ok && import_installs(self.image(), final(ctx).credentials@)
                    && final(ctx).initialized && !final(ctx).dirty && final(ctx).wf() && canonical(
                    *final(ctx),
                ),
            },
    {
        proof {
            self.lemma_image_layout();
        }
        let ghost img = self.image();
        if self.magic != PERSIST_MAGIC || self.version != PERSIST_VERSION {
            return Err(CtapStatus::Other);
        }
        let mut staged = CoreCtx::new();
        let mut i: usize = 0;
        while i < MAX_CREDENTIALS
            invariant
                i <= MAX_CREDENTIALS,
                img == self.image(),
                forall|j: int|
                    0 <= j < MAX_CREDENTIALS ==> #[trigger] record_of(img, j)
                        == self.creds[j].image(),
                forall|j: int| 0 <= j < i ==> !record_invalid(#[trigger] record_of(img, j)),
                forall|j: int|
                    0 <= j < i ==> restores(#[trigger] record_of(img, j), staged.credentials[j]),
                forall|j: int|
                    0 <= j < i ==> #[trigger] staged.credentials[j].user_id_len
                        <= MAX_USER_ID_SIZE,
                forall|j: int| 0 <= j < i ==> canonical_credential(#[trigger] staged.credentials[j]),
            decreases MAX_CREDENTIALS - i,
        {
            match self.creds[i].to_runtime() {
                Ok(c) => {
                    proof {
                        self.creds[i as int].lemma_image_fields();
                        lemma_restores_canonical(record_of(img, i as int), c);
                    }
                    staged.credentials[i] = c;
                },
                Err(e) => {
                    assert(record_invalid(record_of(img, i as int)));
                    return Err(e);
                },
            }
            i = i + 1;
        }
        staged.initialized = true;
        staged.clear_dirty();
        *ctx = staged;
        assert(import_installs(img, ctx.credentials@));
        Ok(())
    }
}

/// What importing a valid record installs is canonical.
proof fn lemma_restores_canonical(rec: Seq<u8>, c: Credential)
    requires
        rec.len() == PERSISTED_CREDENTIAL_SIZE,
        !record_invalid(rec),
        restores(rec, c),
    ensures
        canonical_credential(c),
{
    if rec[0] != 0 {
        let len = rec[1] as int;
        assert(c.user_id@.subrange(len, 32) =~= zeros((32 - len) as nat));
    }
}

/// Size of the context object the host must provide.
pub fn ctx_size() -> (n: usize)
    ensures
        n == vstd::layout::size_of::<CoreCtx>(),
{
    core::mem::size_of::<CoreCtx>()
}

/// Builds a fresh, initialised context in the host's region of
/// `ctx_mem_len` bytes; a region smaller than the context is refused.
pub fn init(ctx: &mut CoreCtx, ctx_mem_len: usize) -> (rc: i32)
    ensures
        ctx_mem_len < vstd::layout::size_of::<CoreCtx>() ==> rc == CtapStatus::Other.code() as i32
            && *final(ctx) == *old(ctx),
        ctx_mem_len >= vstd::layout::size_of::<CoreCtx>() ==> {
            &&& rc == 0
            &&& final(ctx).initialized
            &&& !final(ctx).dirty
            &&& final(ctx).wf()
            &&& canonical(*final(ctx))
            &&& forall|i: int|
                0 <= i < MAX_CREDENTIALS ==> is_empty_credential(#[trigger] final(ctx).credentials[i])
        },
{
    if ctx_mem_len < ctx_size() {
        return CtapStatus::Other.as_i32();
    }
    *ctx = CoreCtx::new();
    ctx.initialized = true;
    assert(canonical(*ctx)) by {
        assert forall|i: int| 0 <= i < MAX_CREDENTIALS implies canonical_credential(
            #[trigger] ctx.credentials[i],
        ) by {
            assert(is_empty_credential(ctx.credentials[i]));
        }
    }
    0
}

/// Handles one reassembled CTAP2 request against an initialised context.
/// Returns 0 and stores the response length in `out_resp_len` on success,
/// else the nonzero status; the response buffer is then undefined.
#[verifier::spinoff_prover]
pub fn handle_request<G: Fn(u32) -> i32>(
    ctx: &mut CoreCtx,
    ctx_mem_len: usize,
    req: &[u8],
    resp: &mut [u8],
    out_resp_len: &mut usize,
    presence: &G,
) -> (rc: i32)
    requires
        call_requires(*presence, (USER_PRESENCE_TIMEOUT_MS,)),
    ensures
        ctx_mem_len < vstd::layout::size_of::<CoreCtx>() || !old(ctx).initialized ==> {
            &&& rc == CtapStatus::Other.code() as i32
            &&& *final(ctx) == *old(ctx)
            &&& final(resp)@ == old(resp)@
            &&& *final(out_resp_len) == *old(out_resp_len)
        },
        ctx_mem_len >= vstd::layout::size_of::<CoreCtx>() && old(ctx).initialized ==> exists|
            r: Result<usize, CtapStatus>,
        |
            #![trigger dispatch_outcome(
                *old(ctx),
                *final(ctx),
                req@,
                old(resp)@,
                final(resp)@,
                *presence,
                r,
            )]
            {
                &&& dispatch_outcome(
                    *old(ctx),
                    *final(ctx),
                    req@,
                    old(resp)@,
                    final(resp)@,
                    *presence,
                    r,
                )
                &&& r is Ok ==> rc == 0 && *final(out_resp_len) == r->Ok_0
                &&& r is Err ==> rc == r->Err_0.code() as i32 && *final(out_resp_len) == *old(
                    out_resp_len,
                )
            },
        old(ctx).wf() ==> final(ctx).wf(),
        canonical(*old(ctx)) ==> canonical(*final(ctx)),
{
    if ctx_mem_len < ctx_size() || !ctx.initialized {
        return CtapStatus::Other.as_i32();
    }
    let r = dispatch(ctx, req, resp, presence);
    proof {
        if canonical(*old(ctx)) {
            crate::dispatcher::lemma_dispatch_keeps_canonical(
                *old(ctx),
                *ctx,
                req@,
                old(resp)@,
                resp@,
                *presence,
                r,
            );
        }
        if old(ctx).wf() {
            crate::dispatcher::lemma_dispatch_keeps_wf(
            *old(ctx),
            *ctx,
            req@,
            old(resp)@,
            resp@,
            *presence,
            r,
            );
        }
    }
    let rc = match r {
        Ok(n) => {
            *out_resp_len = n;
            0
        },
        Err(e) => e.as_i32(),
    };
    assert(dispatch_outcome(
        *old(ctx),
        *ctx,
        req@,
        old(resp)@,
        resp@,
        *presence,
        r,
    ));
    assert(r is Ok ==> rc == 0 && *out_resp_len == r->Ok_0);
    assert(r is Err ==> rc == r->Err_0.code() as i32 && *out_resp_len == *old(out_resp_len));
    rc
}

/// Size of the persisted blob.
pub fn persist_blob_size() -> (n: usize)
    ensures
        n == PERSIST_BLOB_SIZE,
{
    PERSIST_BLOB_SIZE
}

/// Writes the persisted blob of `ctx` at the start of `out` and returns its size.
pub fn persist_export(ctx: &CoreCtx, out: &mut [u8]) -> (r: Result<usize, CtapStatus>)
    ensures
        old(out)@.len() < PERSIST_BLOB_SIZE ==> r == Err::<usize, CtapStatus>(
            CtapStatus::InvalidLength,
        ) && final(out)@ == old(out)@,
        old(out)@.len() >= PERSIST_BLOB_SIZE ==> r == Ok::<usize, CtapStatus>(PERSIST_BLOB_SIZE)
            && final(out)@ == export_image(*ctx) + old(out)@.subrange(
            PERSIST_BLOB_SIZE as int,
            old(out)@.len() as int,
        ),
{
    if out.len() < PERSIST_BLOB_SIZE {
        return Err(CtapStatus::InvalidLength);
    }
    let state = PersistedState::from_ctx(ctx);
    state.write_image(out);
    Ok(PERSIST_BLOB_SIZE)
}

/// Replaces the credential store by the one in a persisted blob. On any
/// failure the context is left as it was.
pub fn persist_import(ctx: &mut CoreCtx, data: &[u8]) -> (r: Result<(), CtapStatus>)
    ensures
        match import_error(data@) {
            Some(e) => r == Err::<(), CtapStatus>(e) && *final(ctx) == *old(ctx),
            None => r is Ok && import_installs(data@, final(ctx).credentials@)
                && final(ctx).initialized && !final(ctx).dirty && final(ctx).wf() && canonical(
                *final(ctx),
            ),
        },
{
    if data.len() != PERSIST_BLOB_SIZE {
        return Err(CtapStatus::InvalidLength);
    }
    let state = PersistedState::from_bytes(data);
    state.apply(ctx)
}

// ---------------------------------------------------------------------------
// Laws of the persisted blob
// ---------------------------------------------------------------------------

/// The fields of two credentials that the engine can observe agree: whether
/// the slot is in use and, if it is, everything but the handle bytes beyond
/// its length.
pub open spec fn same_credential(a: Credential, b: Credential) -> bool {
    &&& a.in_use == b.in_use
    &&& a.in_use ==> {
        &&& a.cred_id == b.cred_id
        &&& a.rp_id_hash == b.rp_id_hash
        &&& a.user_id_len == b.user_id_len
        &&& a.user_id@.subrange(0, a.user_id_len as int) == b.user_id@.subrange(
            0,
            b.user_id_len as int,
        )
        &&& a.sign_count == b.sign_count
        &&& a.private_key == b.private_key
    }
}

/// A credential slot in the shape the engine keeps it: an unused slot is all
/// zero, and the user handle bytes beyond its length are zero.
pub open spec fn canonical_credential(c: Credential) -> bool {
    if c.in_use {
        &&& c.user_id_len <= MAX_USER_ID_SIZE
        &&& c.user_id@.subrange(c.user_id_len as int, 32) == zeros(
            (32 - c.user_id_len) as nat,
        )
    } else {
        is_empty_credential(c)
    }
}

/// Every slot of the context is canonical.
pub open spec fn canonical(ctx: CoreCtx) -> bool {
    forall|i: int| 0 <= i < MAX_CREDENTIALS ==> canonical_credential(#[trigger] ctx.credentials[i])
}

proof fn lemma_record_image_fields(c: Credential)
    ensures
        record_image(c).len() == PERSISTED_CREDENTIAL_SIZE,
        record_image(c)[0] == (if c.in_use { 1u8 } else { 0u8 }),
        record_image(c)[1] == c.user_id_len,
        le32_at(record_image(c), 4) == c.sign_count,
        record_image(c).subrange(8, 24) == c.cred_id@,
        record_image(c).subrange(24, 56) == c.rp_id_hash@,
        record_image(c).subrange(56, 88) == c.user_id@,
        record_image(c).subrange(88, 120) == c.private_key@,
{
    let img = record_image(c);
    let w = le32(c.sign_count as nat);
    lemma_le32_round_trip(c.sign_count);
    assert(img[4] == w[0] && img[5] == w[1] && img[6] == w[2] && img[7] == w[3]);
    assert(img.subrange(8, 24) =~= c.cred_id@);
    assert(img.subrange(24, 56) =~= c.rp_id_hash@);
    assert(img.subrange(56, 88) =~= c.user_id@);
    assert(img.subrange(88, 120) =~= c.private_key@);
}

#[verifier::spinoff_prover]
proof fn lemma_export_layout(ctx: CoreCtx)
    ensures
        export_image(ctx).len() == PERSIST_BLOB_SIZE,
        le32_at(export_image(ctx), 0) == PERSIST_MAGIC,
        le16_at(export_image(ctx), 4) == PERSIST_VERSION,
        forall|i: int|
            0 <= i < MAX_CREDENTIALS ==> #[trigger] record_of(export_image(ctx), i)
                == record_image(ctx.credentials[i]),
{
    let img = export_image(ctx);
    lemma_record_image_fields(ctx.credentials[0]);
    lemma_record_image_fields(ctx.credentials[1]);
    lemma_record_image_fields(ctx.credentials[2]);
    lemma_record_image_fields(ctx.credentials[3]);
    lemma_le32_round_trip(PERSIST_MAGIC);
    lemma_le16_round_trip(PERSIST_VERSION);
    let m = le32(PERSIST_MAGIC as nat);
    let v = le16(PERSIST_VERSION as nat);
    assert(img[0] == m[0] && img[1] == m[1] && img[2] == m[2] && img[3] == m[3]);
    assert(img[4] == v[0] && img[5] == v[1]);
    assert(record_of(img, 0) =~= record_image(ctx.credentials[0]));
    assert(record_of(img, 1) =~= record_image(ctx.credentials[1]));
    assert(record_of(img, 2) =~= record_image(ctx.credentials[2]));
    assert(record_of(img, 3) =~= record_image(ctx.credentials[3]));
}

proof fn lemma_restores_same(c: Credential, d: Credential)
    requires
        c.user_id_len <= MAX_USER_ID_SIZE,
        restores(record_image(c), d),
    ensures
        !record_invalid(record_image(c)),
        same_credential(d, c),
{
    lemma_record_image_fields(c);
    if c.in_use {
        let len = c.user_id_len as int;
        assert(d.user_id@.subrange(0, len) =~= c.user_id@.subrange(0, len));
        assert(d.cred_id =~= c.cred_id);
        assert(d.rp_id_hash =~= c.rp_id_hash);
        assert(d.private_key =~= c.private_key);
    }
}

proof fn lemma_restores_identity(c: Credential, d: Credential)
    requires
        canonical_credential(c),
        restores(record_image(c), d),
    ensures
        d == c,
{
    lemma_record_image_fields(c);
    assert(d.cred_id =~= c.cred_id);
    assert(d.rp_id_hash =~= c.rp_id_hash);
    assert(d.private_key =~= c.private_key);
    if c.in_use {
        let len = c.user_id_len as int;
        assert(d.user_id@ =~= c.user_id@.subrange(0, len) + c.user_id@.subrange(len, 32));
    }
    assert(d.user_id =~= c.user_id);
}

/// Importing the blob exported from a well-formed context succeeds and
/// restores every credential field that the engine can observe.
pub proof fn lemma_export_import_restores(ctx: CoreCtx)
    requires
        ctx.wf(),
    ensures
        import_error(export_image(ctx)) is None,
        forall|creds: Seq<Credential>|
            import_installs(export_image(ctx), creds) ==> forall|i: int|
                0 <= i < MAX_CREDENTIALS ==> same_credential(
                    #[trigger] creds[i],
                    ctx.credentials[i],
                ),
{
    lemma_export_layout(ctx);
    let img = export_image(ctx);
    assert forall|i: int| 0 <= i < MAX_CREDENTIALS implies !record_invalid(
        #[trigger] record_of(img, i),
    ) by {
        lemma_record_image_fields(ctx.credentials[i]);
    }
    assert forall|creds: Seq<Credential>, i: int|
        import_installs(img, creds) && 0 <= i < MAX_CREDENTIALS implies same_credential(
        #[trigger] creds[i],
        ctx.credentials[i],
    ) by {
        assert(restores(record_of(img, i), creds[i]));
        lemma_restores_same(ctx.credentials[i], creds[i]);
    }
}

/// Exporting a canonical context and importing the blob gives back exactly
/// its credentials.
pub proof fn lemma_export_import_identity(ctx: CoreCtx)
    requires
        canonical(ctx),
    ensures
        import_error(export_image(ctx)) is None,
        forall|creds: Seq<Credential>|
            import_installs(export_image(ctx), creds) ==> creds == ctx.credentials@,
{
    lemma_export_layout(ctx);
    let img = export_image(ctx);
    assert forall|i: int| 0 <= i < MAX_CREDENTIALS implies !record_invalid(
        #[trigger] record_of(img, i),
    ) by {
        assert(canonical_credential(ctx.credentials[i]));
        lemma_record_image_fields(ctx.credentials[i]);
    }
    assert forall|creds: Seq<Credential>|
        import_installs(img, creds) implies creds == ctx.credentials@ by {
        assert forall|i: int| 0 <= i < MAX_CREDENTIALS implies creds[i]
            == ctx.credentials@[i] by {
            assert(canonical_credential(ctx.credentials[i]));
            assert(restores(record_of(img, i), creds[i]));
            lemma_restores_identity(ctx.credentials[i], creds[i]);
        }
        assert(creds =~= ctx.credentials@);
    }
}

} // verus!
