use vstd::prelude::*;
use vstd::string::StringSliceAdditionalSpecFns;
use vstd::utf8::valid_utf8;

use crate::status::CtapStatus;

verus! {

// ---------------------------------------------------------------------------
// Encoding model
// ---------------------------------------------------------------------------

/// Number of bytes in the canonical head that carries argument `v`.
pub open spec fn head_len(v: nat) -> nat {
    if v <= 23 {
        1
    } else if v <= 0xff {
        2
    } else if v <= 0xffff {
        3
    } else {
        5
    }
}

/// Canonical (shortest) CBOR head of major type `major` with argument `v`:
/// the argument is embedded when it is at most 23, else it follows in 1, 2
/// or 4 big-endian bytes.
pub open spec fn head(major: u8, v: nat) -> Seq<u8> {
    let m = major * 32;
    if v <= 23 {
        seq![(m + v) as u8]
    } else if v <= 0xff {
        seq![(m + 24) as u8, v as u8]
    } else if v <= 0xffff {
        seq![(m + 25) as u8, (v / 0x100) as u8, (v % 0x100) as u8]
    } else {
        seq![
            (m + 26) as u8,
            (v / 0x1000000) as u8,
            ((v / 0x10000) % 0x100) as u8,
            ((v / 0x100) % 0x100) as u8,
            (v % 0x100) as u8,
        ]
    }
}

/// Encoding of an unsigned integer (major type 0).
pub open spec fn enc_uint(v: nat) -> Seq<u8> {
    head(0, v)
}

/// Encoding of a negative integer `v < 0` (major type 1, argument `-1 - v`).
pub open spec fn enc_nint(v: int) -> Seq<u8> {
    head(1, (-1 - v) as nat)
}

/// Encoding of a byte string (major type 2).
pub open spec fn enc_bytes(b: Seq<u8>) -> Seq<u8> {
    head(2, b.len()) + b
}

/// Encoding of a text string given by its UTF-8 bytes (major type 3).
pub open spec fn enc_text(b: Seq<u8>) -> Seq<u8> {
    head(3, b.len()) + b
}

/// Head of an array of `n` items (major type 4).
pub open spec fn enc_array(n: nat) -> Seq<u8> {
    head(4, n)
}

/// Head of a map of `n` pairs (major type 5).
pub open spec fn enc_map(n: nat) -> Seq<u8> {
    head(5, n)
}

/// Encoding of a boolean (major type 7, simple values 20 and 21).
pub open spec fn enc_bool(b: bool) -> Seq<u8> {
    if b {
        seq![0xf5u8]
    } else {
        seq![0xf4u8]
    }
}

pub proof fn lemma_head_len(major: u8, v: nat)
    requires
        major < 8,
    ensures
        head(major, v).len() == head_len(v),
{
}

// ---------------------------------------------------------------------------
// Writer
// ---------------------------------------------------------------------------

/// A bounded, definite-length CBOR encoder. It never holds more than the
/// capacity it was created with (the size of the caller's output buffer); a
/// write that would exceed it fails with `InvalidLength` and leaves the
/// writer unchanged. Storage grows with what is written, never beyond the
/// capacity.
pub struct Writer {
    out: Vec<u8>,
    cap: usize,
}

impl View for Writer {
    type V = Seq<u8>;

    /// The bytes written so far.
    closed spec fn view(&self) -> Seq<u8> {
        self.out@
    }
}

impl Writer {
    /// The bound on the number of bytes this writer may hold.
    pub closed spec fn capacity(&self) -> nat {
        self.cap as nat
    }

    /// Whether `enc` can still be appended.
    pub open spec fn room_for(&self, enc: Seq<u8>) -> bool {
        self@.len() + enc.len() <= self.capacity()
    }

    /// The effect of appending `enc` if it fits, of nothing otherwise.
    pub open spec fn appended(
        old_w: Writer,
        new_w: Writer,
        enc: Seq<u8>,
        r: Result<(), CtapStatus>,
    ) -> bool {
        &&& new_w.capacity() == old_w.capacity()
        &&& (r is Ok <==> old_w.room_for(enc))
        &&& (r is Ok ==> new_w@ == old_w@ + enc)
        &&& (r is Err ==> r == Err::<(), CtapStatus>(CtapStatus::InvalidLength) && new_w@
            == old_w@)
    }

    /// A writer for at most `cap` bytes.
    pub fn new(cap: usize) -> (w: Self)
        ensures
            w@ == Seq::<u8>::empty(),
            w.capacity() == cap,
    {
        Writer { out: Vec::new(), cap }
    }

    pub fn len(&self) -> (n: usize)
        ensures
            n == self@.len(),
    {
        self.out.len()
    }

    /// The bytes written so far.
    pub fn as_slice(&self) -> (s: &[u8])
        ensures
            s@ == self@,
    {
        self.out.as_slice()
    }

    fn has_room(&self, k: usize) -> (b: bool)
        ensures
            b == (self@.len() + k <= self.capacity()),
    {
        self.out.len() <= self.cap && k <= self.cap - self.out.len()
    }

    fn put(&mut self, b: u8)
        requires
            old(self)@.len() < old(self).capacity(),
        ensures
            final(self)@ == old(self)@.push(b),
            final(self).capacity() == old(self).capacity(),
    {
        self.out.push(b);
    }

    fn push(&mut self, b: u8) -> (r: Result<(), CtapStatus>)
        ensures
            Self::appended(*old(self), *final(self), seq![b], r),
    {
        if !self.has_room(1) {
            return Err(CtapStatus::InvalidLength);
        }
        self.put(b);
        assert(self@ =~= old(self)@ + seq![b]);
        Ok(())
    }

    fn bytes(&mut self, data: &[u8]) -> (r: Result<(), CtapStatus>)
        ensures
            Self::appended(*old(self), *final(self), data@, r),
    {
        if !self.has_room(data.len()) {
            return Err(CtapStatus::InvalidLength);
        }
        let ghost start = self@;
        let mut i: usize = 0;
        while i < data.len()
            invariant
                i <= data@.len(),
                self.capacity() == old(self).capacity(),
                start == old(self)@,
                start.len() + data@.len() <= self.capacity(),
                self@ == start + data@.subrange(0, i as int),
            decreases data@.len() - i,
        {
            self.put(data[i]);
            i = i + 1;
            assert(self@ =~= start + data@.subrange(0, i as int));
        }
        assert(data@.subrange(0, i as int) =~= data@);
        Ok(())
    }

    /// Writes the canonical head of major type `major` with argument `len`.
    /// An argument above `u32::MAX` has no 4-byte form and fails with `InvalidLength`.
    fn major_len(&mut self, major: u8, len: usize) -> (r: Result<(), CtapStatus>)
        requires
            major < 8,
        ensures
            len > u32::MAX ==> r == Err::<(), CtapStatus>(CtapStatus::InvalidLength) && final(self)@ == old(self)@ && final(self).capacity() == old(self).capacity(),
            len <= u32::MAX ==> Self::appended(
                *old(self),
                *final(self),
                head(major, len as nat),
                r,
            ),
    {
        let m: u8 = major * 32;
        if len <= 23 {
            return self.push(m + len as u8);
        }
        if len <= 0xff {
            if !self.has_room(2) {
                return Err(CtapStatus::InvalidLength);
            }
            self.put(m + 24);
            self.put(len as u8);
            assert(self@ =~= old(self)@ + head(major, len as nat));
            return Ok(());
        }
        if len <= 0xffff {
            if !self.has_room(3) {
                return Err(CtapStatus::InvalidLength);
            }
            self.put(m + 25);
            self.put((len / 0x100) as u8);
            self.put((len % 0x100) as u8);
            assert(self@ =~= old(self)@ + head(major, len as nat));
            return Ok(());
        }
        if len > 0xffff_ffff {
            return Err(CtapStatus::InvalidLength);
        }
        if !self.has_room(5) {
            return Err(CtapStatus::InvalidLength);
        }
        self.put(m + 26);
        self.put((len / 0x1000000) as u8);
        self.put(((len / 0x10000) % 0x100) as u8);
        self.put(((len / 0x100) % 0x100) as u8);
        self.put((len % 0x100) as u8);
        assert(self@ =~= old(self)@ + head(major, len as nat));
        Ok(())
    }

    /// Writes the head of a map of `pairs` key/value pairs; the caller writes the pairs.
    pub fn map(&mut self, pairs: usize) -> (r: Result<(), CtapStatus>)
        ensures
            pairs > u32::MAX ==> r == Err::<(), CtapStatus>(CtapStatus::InvalidLength) && final(self)@ == old(self)@ && final(self).capacity() == old(self).capacity(),
            pairs <= u32::MAX ==> Self::appended(*old(self), *final(self), enc_map(pairs as nat), r),
    {
        self.major_len(5, pairs)
    }

    /// Writes the head of an array of `len` items; the caller writes the items.
    pub fn array(&mut self, len: usize) -> (r: Result<(), CtapStatus>)
        ensures
            len > u32::MAX ==> r == Err::<(), CtapStatus>(CtapStatus::InvalidLength) && final(self)@ == old(self)@ && final(self).capacity() == old(self).capacity(),
            len <= u32::MAX ==> Self::appended(*old(self), *final(self), enc_array(len as nat), r),
    {
        self.major_len(4, len)
    }

    /// Writes an unsigned integer.
    pub fn u8(&mut self, v: u8) -> (r: Result<(), CtapStatus>)
        ensures
            Self::appended(*old(self), *final(self), enc_uint(v as nat), r),
    {
        self.u32(v as u32)
    }

    /// Writes an unsigned integer in its shortest form.
    pub fn u32(&mut self, v: u32) -> (r: Result<(), CtapStatus>)
        ensures
            Self::appended(*old(self), *final(self), enc_uint(v as nat), r),
    {
        self.major_len(0, v as usize)
    }

    /// Writes a negative integer; a value that is not negative is refused with
    /// `InvalidParameter`.
    pub fn nint(&mut self, v: i32) -> (r: Result<(), CtapStatus>)
        ensures
            v >= 0 ==> r == Err::<(), CtapStatus>(CtapStatus::InvalidParameter) && final(self)@
                == old(self)@ && final(self).capacity() == old(self).capacity(),
            v < 0 ==> Self::appended(*old(self), *final(self), enc_nint(v as int), r),
    {
        if v >= 0 {
            return Err(CtapStatus::InvalidParameter);
        }
        let magnitude: u32 = (-1 - v) as u32;
        self.major_len(1, magnitude as usize)
    }

    /// Writes a text string.
    pub fn tstr(&mut self, s: &str) -> (r: Result<(), CtapStatus>)
        ensures
            s.spec_bytes().len() > u32::MAX ==> r == Err::<(), CtapStatus>(CtapStatus::InvalidLength) && final(self)@ == old(self)@ && final(self).capacity() == old(self).capacity(),
            s.spec_bytes().len() <= u32::MAX ==> Self::appended(
                *old(self),
                *final(self),
                enc_text(s.spec_bytes()),
                r,
            ),
    {
        self.text(s.as_bytes())
    }

    /// Writes a text string given by its UTF-8 bytes.
    pub fn text(&mut self, b: &[u8]) -> (r: Result<(), CtapStatus>)
        ensures
            b@.len() > u32::MAX ==> r == Err::<(), CtapStatus>(CtapStatus::InvalidLength)
                && final(self)@ == old(self)@ && final(self).capacity() == old(self).capacity(),
            b@.len() <= u32::MAX ==> Self::appended(*old(self), *final(self), enc_text(b@), r),
    {
        self.string_item(3, b)
    }

    /// Writes a byte string.
    pub fn bstr(&mut self, data: &[u8]) -> (r: Result<(), CtapStatus>)
        ensures
            data@.len() > u32::MAX ==> r == Err::<(), CtapStatus>(CtapStatus::InvalidLength)
                && final(self)@ == old(self)@ && final(self).capacity() == old(self).capacity(),
            data@.len() <= u32::MAX ==> Self::appended(
                *old(self),
                *final(self),
                enc_bytes(data@),
                r,
            ),
    {
        self.string_item(2, data)
    }

    fn string_item(&mut self, major: u8, b: &[u8]) -> (r: Result<(), CtapStatus>)
        requires
            major == 2 || major == 3,
        ensures
            b@.len() > u32::MAX ==> r == Err::<(), CtapStatus>(CtapStatus::InvalidLength)
                && final(self)@ == old(self)@ && final(self).capacity() == old(self).capacity(),
            b@.len() <= u32::MAX ==> Self::appended(
                *old(self),
                *final(self),
                head(major, b@.len()) + b@,
                r,
            ),
    {
        let n = b.len();
        if n > 0xffff_ffff {
            return Err(CtapStatus::InvalidLength);
        }
        let hl: usize = if n <= 23 {
            1
        } else if n <= 0xff {
            2
        } else if n <= 0xffff {
            3
        } else {
            5
        };
        proof {
            lemma_head_len(major, n as nat);
        }
        if !self.has_room(hl) || !(n <= self.cap - self.out.len() - hl) {
            return Err(CtapStatus::InvalidLength);
        }
        let ghost start = self@;
        let h = self.major_len(major, n);
        assert(h is Ok);
        let d = self.bytes(b);
        assert(d is Ok);
        assert(self@ =~= start + (head(major, n as nat) + b@));
        Ok(())
    }

    /// Writes a boolean.
    pub fn bool(&mut self, v: bool) -> (r: Result<(), CtapStatus>)
        ensures
            Self::appended(*old(self), *final(self), enc_bool(v), r),
    {
        if v {
            self.push(0xf5)
        } else {
            self.push(0xf4)
        }
    }
}

// ---------------------------------------------------------------------------
// Decoding model
// ---------------------------------------------------------------------------

/// The argument that follows a head byte whose additional information is
/// `addl`, read from `pos`: its value and the position after it. Only the
/// embedded, 1-, 2- and 4-byte forms are accepted.
pub open spec fn arg_at(d: Seq<u8>, pos: int, addl: u8) -> Result<(nat, int), CtapStatus> {
    if addl <= 23 {
        Ok((addl as nat, pos))
    } else if addl == 24 {
        if 0 <= pos && pos + 1 <= d.len() {
            Ok((d[pos] as nat, pos + 1))
        } else {
            Err(CtapStatus::InvalidCbor)
        }
    } else if addl == 25 {
        if 0 <= pos && pos + 2 <= d.len() {
            Ok(((d[pos] * 0x100 + d[pos + 1]) as nat, pos + 2))
        } else {
            Err(CtapStatus::InvalidCbor)
        }
    } else if addl == 26 {
        if 0 <= pos && pos + 4 <= d.len() {
            Ok(
                (
                    (d[pos] * 0x1000000 + d[pos + 1] * 0x10000 + d[pos + 2] * 0x100 + d[pos
                        + 3]) as nat,
                    pos + 4,
                ),
            )
        } else {
            Err(CtapStatus::InvalidCbor)
        }
    } else {
        Err(CtapStatus::InvalidCbor)
    }
}

/// The head of the item at `pos`, which must be of major type `major`: its
/// argument and the position after the head.
pub open spec fn typed_head(d: Seq<u8>, pos: int, major: u8) -> Result<(nat, int), CtapStatus> {
    if !(0 <= pos < d.len()) {
        Err(CtapStatus::InvalidCbor)
    } else if d[pos] / 32 != major {
        Err(CtapStatus::CborUnexpectedType)
    } else {
        arg_at(d, pos + 1, d[pos] % 32)
    }
}

/// The contents of the byte or text string (`major` 2 or 3) at `pos`, and the
/// position after it.
pub open spec fn string_at(d: Seq<u8>, pos: int, major: u8) -> Result<(Seq<u8>, int), CtapStatus> {
    match typed_head(d, pos, major) {
        Err(e) => Err(e),
        Ok((n, p)) => if p + n > d.len() {
            Err(CtapStatus::InvalidLength)
        } else {
            Ok((d.subrange(p, p + n), p + n))
        },
    }
}

/// The UTF-8 bytes of the text string at `pos`, and the position after it.
pub open spec fn text_at(d: Seq<u8>, pos: int) -> Result<(Seq<u8>, int), CtapStatus> {
    match string_at(d, pos, 3) {
        Err(e) => Err(e),
        Ok((b, p)) => if valid_utf8(b) {
            Ok((b, p))
        } else {
            Err(CtapStatus::InvalidCbor)
        },
    }
}

/// The contents of the byte string at `pos`, and the position after it.
pub open spec fn bytes_at(d: Seq<u8>, pos: int) -> Result<(Seq<u8>, int), CtapStatus> {
    string_at(d, pos, 2)
}

/// The unsigned integer at `pos`, and the position after it.
pub open spec fn uint_at(d: Seq<u8>, pos: int) -> Result<(nat, int), CtapStatus> {
    typed_head(d, pos, 0)
}

/// The negative integer at `pos`, and the position after it. Values below
/// `i32::MIN` are refused with `InvalidParameter`.
pub open spec fn nint_at(d: Seq<u8>, pos: int) -> Result<(int, int), CtapStatus> {
    match typed_head(d, pos, 1) {
        Err(e) => Err(e),
        Ok((m, p)) => if m > i32::MAX {
            Err(CtapStatus::InvalidParameter)
        } else {
            Ok((-1 - m, p))
        },
    }
}

/// The boolean at `pos`, and the position after it.
pub open spec fn bool_at(d: Seq<u8>, pos: int) -> Result<(bool, int), CtapStatus> {
    if !(0 <= pos < d.len()) {
        Err(CtapStatus::InvalidCbor)
    } else if d[pos] == 0xf4 {
        Ok((false, pos + 1))
    } else if d[pos] == 0xf5 {
        Ok((true, pos + 1))
    } else {
        Err(CtapStatus::CborUnexpectedType)
    }
}

/// The position just after the single, possibly nested, item at `pos`.
pub open spec fn item_end(d: Seq<u8>, pos: int) -> Result<int, CtapStatus>
    decreases d.len() - pos, 0nat,
{
    if !(0 <= pos < d.len()) {
        Err(CtapStatus::InvalidCbor)
    } else {
        let major = d[pos] / 32;
        let addl = d[pos] % 32;
        if major <= 1 {
            match arg_at(d, pos + 1, addl) {
                Err(e) => Err(e),
                Ok((_, p)) => Ok(p),
            }
        } else if major <= 3 {
            match arg_at(d, pos + 1, addl) {
                Err(e) => Err(e),
                Ok((n, p)) => if p + n > d.len() {
                    Err(CtapStatus::InvalidLength)
                } else {
                    Ok(p + n)
                },
            }
        } else if major <= 5 {
            if addl == 31 {
                Err(CtapStatus::InvalidCbor)
            } else {
                match arg_at(d, pos + 1, addl) {
                    Err(e) => Err(e),
                    Ok((n, p)) => items_end(d, p, if major == 4 { n } else { 2 * n }),
                }
            }
        } else if major == 6 {
            match arg_at(d, pos + 1, addl) {
                Err(e) => Err(e),
                Ok((_, p)) => item_end(d, p),
            }
        } else if 20 <= addl <= 23 {
            Ok(pos + 1)
        } else if addl == 24 {
            if pos + 2 <= d.len() {
                Ok(pos + 2)
            } else {
                Err(CtapStatus::InvalidCbor)
            }
        } else {
            Err(CtapStatus::CborUnexpectedType)
        }
    }
}

/// The position just after `n` consecutive items starting at `pos`.
pub open spec fn items_end(d: Seq<u8>, pos: int, n: nat) -> Result<int, CtapStatus>
    decreases d.len() - pos, n,
{
    if n == 0 {
        Ok(pos)
    } else if !(0 <= pos < d.len()) {
        Err(CtapStatus::InvalidCbor)
    } else {
        match item_end(d, pos) {
            Err(e) => Err(e),
            Ok(p) => if pos < p <= d.len() {
                items_end(d, p, (n - 1) as nat)
            } else {
                Err(CtapStatus::InvalidCbor)
            },
        }
    }
}

/// An item ends after it starts and within the input.
pub proof fn lemma_item_end_advances(d: Seq<u8>, pos: int)
    ensures
        item_end(d, pos) is Ok ==> pos < item_end(d, pos)->Ok_0 <= d.len(),
    decreases d.len() - pos,
{
    if 0 <= pos < d.len() {
        let major = d[pos] / 32;
        let addl = d[pos] % 32;
        if major == 6 {
            match arg_at(d, pos + 1, addl) {
                Err(_) => {},
                Ok((_, p)) => {
                    lemma_item_end_advances(d, p);
                },
            }
        } else if major == 4 || major == 5 {
            if addl != 31 {
                match arg_at(d, pos + 1, addl) {
                    Err(_) => {},
                    Ok((n, p)) => {
                        lemma_items_end_advances(d, p, if major == 4 { n } else { 2 * n });
                    },
                }
            }
        }
    }
}

/// A run of items ends no earlier than it starts and within the input.
pub proof fn lemma_items_end_advances(d: Seq<u8>, pos: int, n: nat)
    requires
        0 <= pos <= d.len(),
    ensures
        items_end(d, pos, n) is Ok ==> pos <= items_end(d, pos, n)->Ok_0 <= d.len(),
    decreases d.len() - pos, n,
{
    if n > 0 && 0 <= pos < d.len() {
        match item_end(d, pos) {
            Err(_) => {},
            Ok(p) => {
                if pos < p <= d.len() {
                    lemma_items_end_advances(d, p, (n - 1) as nat);
                }
            },
        }
    }
}

/// Relies on `core::str::from_utf8`: it accepts exactly the well-formed UTF-8
/// byte sequences, and then views the same bytes as text.
#[verifier::external_body]
fn utf8_str<'a>(b: &'a [u8]) -> (r: Option<&'a str>)
    ensures
        r is Some <==> valid_utf8(b@),
        r is Some ==> r->Some_0.spec_bytes() == b@,
{
    match core::str::from_utf8(b) {
        Ok(s) => Some(s),
        Err(_) => None,
    }
}

// ---------------------------------------------------------------------------
// Reader
// ---------------------------------------------------------------------------

/// A single forward pass over a definite-length CBOR input.
pub struct Reader<'a> {
    data: &'a [u8],
    pos: usize,
}

impl<'a> Reader<'a> {
    /// The whole input.
    pub closed spec fn input(&self) -> Seq<u8> {
        self.data@
    }

    /// The position of the next unread byte.
    pub closed spec fn pos(&self) -> int {
        self.pos as int
    }

    pub fn new(data: &'a [u8]) -> (r: Self)
        ensures
            r.input() == data@,
            r.pos() == 0,
    {
        Reader { data, pos: 0 }
    }

    fn take(&mut self) -> (r: Result<u8, CtapStatus>)
        ensures
            final(self).input() == old(self).input(),
            0 <= old(self).pos() < old(self).input().len() ==> r == Ok::<u8, CtapStatus>(
                old(self).input()[old(self).pos()],
            ) && final(self).pos() == old(self).pos() + 1,
            !(0 <= old(self).pos() < old(self).input().len()) ==> r == Err::<u8, CtapStatus>(
                CtapStatus::InvalidCbor,
            ),
    {
        if self.pos >= self.data.len() {
            return Err(CtapStatus::InvalidCbor);
        }
        let b = self.data[self.pos];
        self.pos = self.pos + 1;
        Ok(b)
    }

    fn read_uint(&mut self, addl: u8) -> (r: Result<u64, CtapStatus>)
        ensures
            final(self).input() == old(self).input(),
            match arg_at(old(self).input(), old(self).pos(), addl) {
                Ok((v, p)) => r == Ok::<u64, CtapStatus>(v as u64) && final(self).pos() == p && v
                    <= u32::MAX,
                Err(e) => r == Err::<u64, CtapStatus>(e),
            },
    {
        if addl <= 23 {
            Ok(addl as u64)
        } else if addl == 24 {
            let b = self.take()?;
            Ok(b as u64)
        } else if addl == 25 {
            let msb = self.take()? as u64;
            let lsb = self.take()? as u64;
            Ok(msb * 0x100 + lsb)
        } else if addl == 26 {
            let b0 = self.take()? as u64;
            let b1 = self.take()? as u64;
            let b2 = self.take()? as u64;
            let b3 = self.take()? as u64;
            Ok(b0 * 0x1000000 + b1 * 0x10000 + b2 * 0x100 + b3)
        } else {
            Err(CtapStatus::InvalidCbor)
        }
    }

    fn read_len(&mut self, addl: u8) -> (r: Result<usize, CtapStatus>)
        ensures
            final(self).input() == old(self).input(),
            addl == 31 ==> r == Err::<usize, CtapStatus>(CtapStatus::InvalidCbor),
            addl != 31 ==> match arg_at(old(self).input(), old(self).pos(), addl) {
                Ok((v, p)) => r == Ok::<usize, CtapStatus>(v as usize) && final(self).pos() == p
                    && v <= u32::MAX,
                Err(e) => r == Err::<usize, CtapStatus>(e),
            },
    {
        if addl == 31 {
            return Err(CtapStatus::InvalidCbor);
        }
        let v = self.read_uint(addl)?;
        if v > usize::MAX as u64 {
            return Err(CtapStatus::InvalidLength);
        }
        Ok(v as usize)
    }

    fn major(&mut self) -> (r: Result<(u8, u8), CtapStatus>)
        ensures
            final(self).input() == old(self).input(),
            0 <= old(self).pos() < old(self).input().len() ==> r == Ok::<(u8, u8), CtapStatus>(
                (
                    old(self).input()[old(self).pos()] / 32,
                    old(self).input()[old(self).pos()] % 32,
                ),
            ) && final(self).pos() == old(self).pos() + 1,
            !(0 <= old(self).pos() < old(self).input().len()) ==> r == Err::<(u8, u8), CtapStatus>(
                CtapStatus::InvalidCbor,
            ),
    {
        let b = self.take()?;
        Ok((b / 32, b % 32))
    }

    fn slice(&mut self, len: usize) -> (r: Result<&'a [u8], CtapStatus>)
        ensures
            final(self).input() == old(self).input(),
            old(self).pos() + len > old(self).input().len() ==> r == Err::<&'a [u8], CtapStatus>(
                CtapStatus::InvalidLength,
            ),
            old(self).pos() + len <= old(self).input().len() ==> r is Ok && r->Ok_0@
                == old(self).input().subrange(old(self).pos(), old(self).pos() + len)
                && final(self).pos() == old(self).pos() + len,
    {
        if self.pos > self.data.len() || len > self.data.len() - self.pos {
            return Err(CtapStatus::InvalidLength);
        }
        let start = self.pos;
        self.pos = self.pos + len;
        Ok(vstd::slice::slice_subrange(self.data, start, start + len))
    }

    /// Reads the head of a map and returns its number of pairs.
    pub fn map(&mut self) -> (r: Result<usize, CtapStatus>)
        ensures
            final(self).input() == old(self).input(),
            match typed_head(old(self).input(), old(self).pos(), 5) {
                Ok((n, p)) => r == Ok::<usize, CtapStatus>(n as usize) && final(self).pos() == p
                    && n <= u32::MAX,
                Err(e) => r == Err::<usize, CtapStatus>(e),
            },
    {
        let (maj, addl) = self.major()?;
        if maj != 5 {
            return Err(CtapStatus::CborUnexpectedType);
        }
        self.read_len(addl)
    }

    /// Reads the head of an array and returns its number of items.
    pub fn array(&mut self) -> (r: Result<usize, CtapStatus>)
        ensures
            final(self).input() == old(self).input(),
            match typed_head(old(self).input(), old(self).pos(), 4) {
                Ok((n, p)) => r == Ok::<usize, CtapStatus>(n as usize) && final(self).pos() == p
                    && n <= u32::MAX,
                Err(e) => r == Err::<usize, CtapStatus>(e),
            },
    {
        let (maj, addl) = self.major()?;
        if maj != 4 {
            return Err(CtapStatus::CborUnexpectedType);
        }
        self.read_len(addl)
    }

    /// Reads an unsigned integer.
    pub fn u32(&mut self) -> (r: Result<u32, CtapStatus>)
        ensures
            final(self).input() == old(self).input(),
            match uint_at(old(self).input(), old(self).pos()) {
                Ok((v, p)) => r == Ok::<u32, CtapStatus>(v as u32) && final(self).pos() == p && v
                    <= u32::MAX,
                Err(e) => r == Err::<u32, CtapStatus>(e),
            },
    {
        let (maj, addl) = self.major()?;
        if maj != 0 {
            return Err(CtapStatus::CborUnexpectedType);
        }
        let v = self.read_uint(addl)?;
        if v > u32::MAX as u64 {
            return Err(CtapStatus::InvalidLength);
        }
        Ok(v as u32)
    }

    /// Reads a negative integer.
    pub fn nint(&mut self) -> (r: Result<i32, CtapStatus>)
        ensures
            final(self).input() == old(self).input(),
            match nint_at(old(self).input(), old(self).pos()) {
                Ok((v, p)) => r == Ok::<i32, CtapStatus>(v as i32) && final(self).pos() == p
                    && i32::MIN <= v < 0,
                Err(e) => r == Err::<i32, CtapStatus>(e),
            },
    {
        let (maj, addl) = self.major()?;
        if maj != 1 {
            return Err(CtapStatus::CborUnexpectedType);
        }
        let magnitude = self.read_uint(addl)?;
        if magnitude > i32::MAX as u64 {
            return Err(CtapStatus::InvalidParameter);
        }
        Ok(-1 - magnitude as i32)
    }

    /// Reads a text string, which must be well-formed UTF-8.
    pub fn tstr(&mut self) -> (r: Result<&'a str, CtapStatus>)
        ensures
            final(self).input() == old(self).input(),
            match text_at(old(self).input(), old(self).pos()) {
                Ok((b, p)) => r is Ok && r->Ok_0.spec_bytes() == b && final(self).pos() == p,
                Err(e) => r == Err::<&'a str, CtapStatus>(e),
            },
    {
        let (maj, addl) = self.major()?;
        if maj != 3 {
            return Err(CtapStatus::CborUnexpectedType);
        }
        let len = self.read_len(addl)?;
        let data = self.slice(len)?;
        match utf8_str(data) {
            Some(s) => Ok(s),
            None => Err(CtapStatus::InvalidCbor),
        }
    }

    /// Reads a byte string.
    pub fn bstr(&mut self) -> (r: Result<&'a [u8], CtapStatus>)
        ensures
            final(self).input() == old(self).input(),
            match bytes_at(old(self).input(), old(self).pos()) {
                Ok((b, p)) => r is Ok && r->Ok_0@ == b && final(self).pos() == p,
                Err(e) => r == Err::<&'a [u8], CtapStatus>(e),
            },
    {
        let (maj, addl) = self.major()?;
        if maj != 2 {
            return Err(CtapStatus::CborUnexpectedType);
        }
        let len = self.read_len(addl)?;
        self.slice(len)
    }

    /// Reads a boolean.
    pub fn bool(&mut self) -> (r: Result<bool, CtapStatus>)
        ensures
            final(self).input() == old(self).input(),
            match bool_at(old(self).input(), old(self).pos()) {
                Ok((v, p)) => r == Ok::<bool, CtapStatus>(v) && final(self).pos() == p,
                Err(e) => r == Err::<bool, CtapStatus>(e),
            },
    {
        let (maj, addl) = self.major()?;
        if maj == 7 && addl == 20 {
            Ok(false)
        } else if maj == 7 && addl == 21 {
            Ok(true)
        } else {
            Err(CtapStatus::CborUnexpectedType)
        }
    }

    /// Consumes exactly one item, descending into arrays, maps and tags.
    pub fn skip(&mut self) -> (r: Result<(), CtapStatus>)
        ensures
            final(self).input() == old(self).input(),
            match item_end(old(self).input(), old(self).pos()) {
                Ok(p) => r is Ok && final(self).pos() == p,
                Err(e) => r == Err::<(), CtapStatus>(e),
            },
        decreases 2 * (old(self).input().len() - old(self).pos()),
    {
        let (maj, addl) = self.major()?;
        if maj <= 1 {
            if addl >= 24 {
                self.read_uint(addl)?;
            }
            Ok(())
        } else if maj <= 3 {
            let len = self.read_len(addl)?;
            match self.slice(len) {
                Ok(_) => Ok(()),
                Err(e) => Err(e),
            }
        } else if maj <= 5 {
            let len = self.read_len(addl)?;
            let count: u64 = if maj == 4 {
                len as u64
            } else {
                2 * (len as u64)
            };
            self.skip_items(count)
        } else if maj == 6 {
            self.read_uint(addl)?;
            self.skip()
        } else if 20 <= addl && addl <= 23 {
            Ok(())
        } else if addl == 24 {
            self.take()?;
            Ok(())
        } else {
            Err(CtapStatus::CborUnexpectedType)
        }
    }

    fn skip_items(&mut self, count: u64) -> (r: Result<(), CtapStatus>)
        requires
            0 < old(self).pos() <= old(self).input().len(),
        ensures
            final(self).input() == old(self).input(),
            match items_end(old(self).input(), old(self).pos(), count as nat) {
                Ok(p) => r is Ok && final(self).pos() == p,
                Err(e) => r == Err::<(), CtapStatus>(e),
            },
        decreases 2 * (old(self).input().len() - old(self).pos()) + 1,
    {
        let ghost d = self.input();
        let mut i: u64 = 0;
        while i < count
            invariant
                self.input() == d,
                d == old(self).input(),
                old(self).pos() <= self.pos() <= d.len(),
                i <= count,
                items_end(d, old(self).pos(), count as nat) == items_end(
                    d,
                    self.pos(),
                    (count - i) as nat,
                ),
            decreases count - i,
        {
            proof {
                lemma_item_end_advances(d, self.pos());
            }
            self.skip()?;
            i = i + 1;
        }
        Ok(())
    }
}

// ---------------------------------------------------------------------------
// Round trips
// ---------------------------------------------------------------------------

proof fn lemma_head_round_trip(major: u8, v: nat, rest: Seq<u8>)
    requires
        major < 8,
        v <= u32::MAX,
    ensures
        typed_head(head(major, v) + rest, 0, major) == Ok::<(nat, int), CtapStatus>(
            (v, head(major, v).len() as int),
        ),
{
    let d = head(major, v) + rest;
    let m = major * 32;
    if v <= 23 {
        assert(d[0] == (m + v) as u8);
        assert((m + v) / 32 == major && (m + v) % 32 == v) by (nonlinear_arith)
            requires
                m == major * 32,
                v <= 23,
        ;
    } else if v <= 0xff {
        assert(d[0] == (m + 24) as u8 && d[1] == v as u8);
        assert((m + 24) / 32 == major && (m + 24) % 32 == 24) by (nonlinear_arith)
            requires
                m == major * 32,
        ;
    } else if v <= 0xffff {
        assert(d[0] == (m + 25) as u8);
        assert((m + 25) / 32 == major && (m + 25) % 32 == 25) by (nonlinear_arith)
            requires
                m == major * 32,
        ;
        assert(d[1] == (v / 0x100) as u8 && d[2] == (v % 0x100) as u8);
        assert((v / 0x100) * 0x100 + v % 0x100 == v) by (nonlinear_arith);
    } else {
        assert(d[0] == (m + 26) as u8);
        assert((m + 26) / 32 == major && (m + 26) % 32 == 26) by (nonlinear_arith)
            requires
                m == major * 32,
        ;
        assert(d[1] == (v / 0x1000000) as u8);
        assert(d[2] == ((v / 0x10000) % 0x100) as u8);
        assert(d[3] == ((v / 0x100) % 0x100) as u8);
        assert(d[4] == (v % 0x100) as u8);
        assert(v / 0x1000000 < 0x100 && (v / 0x1000000) * 0x1000000 + ((v / 0x10000) % 0x100)
            * 0x10000 + ((v / 0x100) % 0x100) * 0x100 + v % 0x100 == v) by (nonlinear_arith)
            requires
                v <= 0xffff_ffff,
        ;
    }
}

/// Decoding the encoding of an unsigned integer, whatever follows it, gives
/// the integer back and consumes exactly its encoding.
pub proof fn lemma_uint_round_trip(v: u32, rest: Seq<u8>)
    ensures
        uint_at(enc_uint(v as nat) + rest, 0) == Ok::<(nat, int), CtapStatus>(
            (v as nat, enc_uint(v as nat).len() as int),
        ),
{
    lemma_head_round_trip(0, v as nat, rest);
}

/// Decoding the encoding of a negative integer, whatever follows it, gives
/// the integer back and consumes exactly its encoding.
pub proof fn lemma_nint_round_trip(v: i32, rest: Seq<u8>)
    requires
        v < 0,
    ensures
        nint_at(enc_nint(v as int) + rest, 0) == Ok::<(int, int), CtapStatus>(
            (v as int, enc_nint(v as int).len() as int),
        ),
{
    lemma_head_round_trip(1, (-1 - v) as nat, rest);
}

/// An item whose head announces an indefinite length (additional
/// information 31) is refused as invalid CBOR, whether it is read with its
/// own type or skipped.
pub proof fn lemma_indefinite_length_is_invalid(d: Seq<u8>, pos: int)
    requires
        0 <= pos < d.len(),
        d[pos] % 32 == 31,
        d[pos] / 32 < 7,
    ensures
        typed_head(d, pos, d[pos] / 32) == Err::<(nat, int), CtapStatus>(CtapStatus::InvalidCbor),
        item_end(d, pos) == Err::<int, CtapStatus>(CtapStatus::InvalidCbor),
{
}

} // verus!
